//! Reuse of scratch buffers, keyed by their shape.
use std::collections::HashMap;
use vstd::arithmetic::div_mod::lemma_fundamental_div_mod_converse;
use vstd::prelude::*;

verus! {

broadcast use vstd::std_specs::hash::group_hash_axioms;

/// `2^64`: the columns of a shape take the low 64 bits of its key.
pub const KEY_SHIFT: u128 = 0x1_0000_0000_0000_0000;

/// The key of shape `(rows, columns)`: `rows * 2^64 + columns`.
///
/// The map is keyed by this integer rather than by the pair itself, because
/// vstd's hash-map model covers integer keys.
pub open spec fn shape_key(shape: (usize, usize)) -> int {
    shape.0 as int * KEY_SHIFT as int + shape.1 as int
}

/// Distinct shapes have distinct keys, and every key fits in a `u128`.
proof fn lemma_shape_key(a: (usize, usize), b: (usize, usize))
    ensures
        0 <= shape_key(a) <= u128::MAX,
        shape_key(a) == shape_key(b) ==> a == b,
{
    assert(a.0 <= 0xffff_ffff_ffff_ffffint);
    assert(a.1 <= 0xffff_ffff_ffff_ffffint);
    assert(0 <= shape_key(a) <= u128::MAX) by (nonlinear_arith)
        requires
            0 <= a.0 <= 0xffff_ffff_ffff_ffff,
            0 <= a.1 <= 0xffff_ffff_ffff_ffff,
            shape_key(a) == a.0 * 0x1_0000_0000_0000_0000 + a.1,
    ;
    if shape_key(a) == shape_key(b) {
        assert(b.1 <= 0xffff_ffff_ffff_ffffint);
        let p = shape_key(a);
        lemma_fundamental_div_mod_converse(p, KEY_SHIFT as int, a.0 as int, a.1 as int);
        lemma_fundamental_div_mod_converse(p, KEY_SHIFT as int, b.0 as int, b.1 as int);
    }
}

/// The key of shape `(rows, columns)`.
fn key(rows: usize, columns: usize) -> (k: u128)
    ensures
        k == shape_key((rows, columns)),
{
    proof {
        lemma_shape_key((rows, columns), (rows, columns));
        assert(rows <= 0xffff_ffff_ffff_ffffint);
        assert(rows as int * KEY_SHIFT as int <= u128::MAX) by (nonlinear_arith)
            requires
                0 <= rows <= 0xffff_ffff_ffff_ffff,
                KEY_SHIFT == 0x1_0000_0000_0000_0000,
        ;
    }
    (rows as u128) * KEY_SHIFT + columns as u128
}

/// Buffers put aside for reuse, one stack per shape `(rows, columns)`.
///
/// `get` hands out the buffer of that shape recycled last, if there is one.
pub struct BufferPool<T> {
    stacks: HashMap<u128, Vec<T>>,
}

impl<T> BufferPool<T> {
    /// The buffers pooled for `shape`, the one to be handed out next last.
    pub closed spec fn pooled(&self, shape: (usize, usize)) -> Seq<T> {
        let k = shape_key(shape) as u128;
        if self.stacks@.contains_key(k) {
            self.stacks@[k]@
        } else {
            Seq::empty()
        }
    }

    /// An empty pool.
    pub fn new() -> (p: BufferPool<T>)
        ensures
            forall|shape: (usize, usize)| #[trigger] p.pooled(shape) == Seq::<T>::empty(),
    {
        BufferPool { stacks: HashMap::new() }
    }

    /// Takes the buffer of shape `rows x columns` recycled last; `None` when the
    /// pool holds none of that shape. The other shapes are left as they were.
    pub fn get(&mut self, rows: usize, columns: usize) -> (r: Option<T>)
        ensures
            old(self).pooled((rows, columns)).len() == 0 ==> r is None && final(self).pooled(
                (rows, columns),
            ) == old(self).pooled((rows, columns)),
            old(self).pooled((rows, columns)).len() > 0 ==> r == Some(
                old(self).pooled((rows, columns)).last(),
            ) && final(self).pooled((rows, columns)) == old(self).pooled(
                (rows, columns),
            ).drop_last(),
            forall|shape: (usize, usize)|
                shape != (rows, columns) ==> #[trigger] final(self).pooled(shape) == old(
                    self,
                ).pooled(shape),
    {
        let k = key(rows, columns);
        let ghost before = self.stacks@;
        match self.stacks.remove(&k) {
            None => None,
            Some(mut stack) => {
                let item = stack.pop();
                self.stacks.insert(k, stack);
                proof {
                    assert forall|shape: (usize, usize)| shape != (rows, columns) implies #[trigger] self.pooled(
                        shape,
                    ) == old(self).pooled(shape) by {
                        lemma_shape_key(shape, (rows, columns));
                        lemma_shape_key((rows, columns), (rows, columns));
                        assert(shape_key(shape) as u128 != k);
                    }
                }
                item
            },
        }
    }

    /// Puts `item`, a buffer of shape `shape`, aside for reuse.
    pub fn recycle(&mut self, shape: (usize, usize), item: T)
        ensures
            final(self).pooled(shape) == old(self).pooled(shape).push(item),
            forall|other: (usize, usize)|
                other != shape ==> #[trigger] final(self).pooled(other) == old(self).pooled(other),
    {
        let k = key(shape.0, shape.1);
        let mut stack = match self.stacks.remove(&k) {
            Some(s) => s,
            None => Vec::new(),
        };
        stack.push(item);
        self.stacks.insert(k, stack);
        proof {
            assert forall|other: (usize, usize)| other != shape implies #[trigger] self.pooled(other)
                == old(self).pooled(other) by {
                lemma_shape_key(other, shape);
                lemma_shape_key(shape, shape);
                assert(shape_key(other) as u128 != k);
            }
        }
    }
}

/// Recycling a buffer and then asking for its shape hands that very buffer
/// back, and leaves the pool as it was before the recycling.
pub proof fn lemma_get_after_recycle<T>(
    p0: &BufferPool<T>,
    p1: &BufferPool<T>,
    p2: &BufferPool<T>,
    shape: (usize, usize),
    item: T,
    r: Option<T>,
)
    requires
        p1.pooled(shape) == p0.pooled(shape).push(item),
        forall|other: (usize, usize)| other != shape ==> #[trigger] p1.pooled(other) == p0.pooled(other),
        p1.pooled(shape).len() > 0 ==> r == Some(p1.pooled(shape).last()) && p2.pooled(shape)
            == p1.pooled(shape).drop_last(),
        forall|other: (usize, usize)| other != shape ==> #[trigger] p2.pooled(other) == p1.pooled(other),
    ensures
        r == Some(item),
        forall|s: (usize, usize)| #[trigger] p2.pooled(s) == p0.pooled(s),
{
    assert(p1.pooled(shape).drop_last() =~= p0.pooled(shape));
    assert forall|s: (usize, usize)| #[trigger] p2.pooled(s) == p0.pooled(s) by {
        if s != shape {
            assert(p2.pooled(s) == p1.pooled(s));
        }
    }
}

} // verus!
