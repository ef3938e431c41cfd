//! Activation functions.
//!
//! `ReLU` only compares and selects, so it is written here for any entry type
//! with a partial order. `Sigmoid` and `Tanh` need the exponential function of
//! floating-point numbers and get their behaviour outside this library.
use crate::matrix::Matrix;
use core::cmp::Ordering;
use vstd::prelude::*;
use vstd::std_specs::cmp::PartialOrdSpec;
use vstd::std_specs::convert::FromSpec;

verus! {

/// The rectified linear unit: `max(x, 0)` entry by entry.
#[derive(Clone, Copy, Debug)]
pub struct ReLU;

/// The logistic function `1 / (1 + e^-x)`.
#[derive(Clone, Copy, Debug)]
pub struct Sigmoid;

/// The hyperbolic tangent.
#[derive(Clone, Copy, Debug)]
pub struct Tanh;

/// `x > z` by `T`'s partial order.
pub open spec fn exceeds<T: PartialOrd>(x: T, z: T) -> bool {
    x.partial_cmp_spec(&z) == Some(Ordering::Greater)
}

/// `T`'s comparison and its conversion from `u8` behave as specified.
pub open spec fn order_obeys_spec<T: PartialOrd + From<u8>>() -> bool {
    T::obeys_partial_cmp_spec() && T::obeys_from_spec()
}

impl ReLU {
    /// Each entry `x` becomes `x` when `x > 0` and `0` otherwise.
    pub fn forward<T: Copy + PartialOrd + From<u8>>(&self, mat: &Matrix<T>) -> (r: Matrix<T>)
        requires
            mat.wf(),
        ensures
            r.wf(),
            r.same_shape(mat),
            forall|k: int|
                0 <= k < mat.elems().len() ==> #[trigger] r.elems()[k] == mat.elems()[k]
                    || call_ensures(T::from, (0u8,), r.elems()[k]),
            order_obeys_spec::<T>() ==> forall|k: int|
                0 <= k < mat.elems().len() ==> #[trigger] r.elems()[k] == if exceeds(
                    mat.elems()[k],
                    T::from_spec(0u8),
                ) {
                    mat.elems()[k]
                } else {
                    T::from_spec(0u8)
                },
    {
        let zero = T::from(0u8);
        let data = mat.as_slice();
        let n = data.len();
        let mut out: Vec<T> = Vec::new();
        let mut k: usize = 0;
        while k < n
            invariant
                data@ == mat.elems(),
                n == data@.len(),
                k <= n,
                out@.len() == k,
                call_ensures(T::from, (0u8,), zero),
                T::obeys_from_spec() ==> zero == T::from_spec(0u8),
                forall|p: int|
                    0 <= p < k ==> #[trigger] out@[p] == data@[p] || call_ensures(
                        T::from,
                        (0u8,),
                        out@[p],
                    ),
                order_obeys_spec::<T>() ==> forall|p: int|
                    0 <= p < k ==> #[trigger] out@[p] == if exceeds(data@[p], zero) {
                        data@[p]
                    } else {
                        zero
                    },
            decreases n - k,
        {
            let x = data[k];
            if x > zero {
                out.push(x);
            } else {
                out.push(zero);
            }
            k = k + 1;
        }
        Matrix::from_vec(mat.rows(), mat.columns(), out)
    }

    /// The derivative: each entry `x` becomes `1` when `x > 0` and `0` otherwise.
    pub fn backward<T: Copy + PartialOrd + From<u8>>(&self, mat: &Matrix<T>) -> (r: Matrix<T>)
        requires
            mat.wf(),
        ensures
            r.wf(),
            r.same_shape(mat),
            forall|k: int|
                0 <= k < mat.elems().len() ==> call_ensures(T::from, (1u8,), #[trigger] r.elems()[k])
                    || call_ensures(T::from, (0u8,), r.elems()[k]),
            order_obeys_spec::<T>() ==> forall|k: int|
                0 <= k < mat.elems().len() ==> #[trigger] r.elems()[k] == if exceeds(
                    mat.elems()[k],
                    T::from_spec(0u8),
                ) {
                    T::from_spec(1u8)
                } else {
                    T::from_spec(0u8)
                },
    {
        let zero = T::from(0u8);
        let one = T::from(1u8);
        let data = mat.as_slice();
        let n = data.len();
        let mut out: Vec<T> = Vec::new();
        let mut k: usize = 0;
        while k < n
            invariant
                data@ == mat.elems(),
                n == data@.len(),
                k <= n,
                out@.len() == k,
                call_ensures(T::from, (0u8,), zero),
                call_ensures(T::from, (1u8,), one),
                T::obeys_from_spec() ==> zero == T::from_spec(0u8),
                T::obeys_from_spec() ==> one == T::from_spec(1u8),
                forall|p: int|
                    0 <= p < k ==> call_ensures(T::from, (1u8,), #[trigger] out@[p]) || call_ensures(
                        T::from,
                        (0u8,),
                        out@[p],
                    ),
                order_obeys_spec::<T>() ==> forall|p: int|
                    0 <= p < k ==> #[trigger] out@[p] == if exceeds(data@[p], zero) {
                        one
                    } else {
                        zero
                    },
            decreases n - k,
        {
            let x = data[k];
            if x > zero {
                out.push(one);
            } else {
                out.push(zero);
            }
            k = k + 1;
        }
        Matrix::from_vec(mat.rows(), mat.columns(), out)
    }
}

} // verus!
