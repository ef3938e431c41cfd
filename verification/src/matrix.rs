use core::ops::{Add, Mul, Sub};
use vstd::arithmetic::div_mod::lemma_fundamental_div_mod_converse;
use vstd::prelude::*;
use vstd::std_specs::convert::FromSpec;
use vstd::std_specs::ops::AddSpec;
use vstd::std_specs::ops::AddSpecImpl;
use vstd::std_specs::ops::MulSpec;
use vstd::std_specs::ops::MulSpecImpl;
use vstd::std_specs::ops::SubSpec;
use vstd::std_specs::ops::SubSpecImpl;

verus! {

/// A dense matrix stored in row-major order.
///
/// The entry in row `i` and column `j` lives at position `i * columns + j`
/// of the backing vector, which always holds exactly `rows * columns` entries.
#[derive(Clone, Debug, PartialEq)]
pub struct Matrix<T> {
    rows: usize,
    columns: usize,
    data: Vec<T>,
}

/// Entry `(i, j)` of a row-major sequence with `columns` columns.
pub open spec fn cell<T>(s: Seq<T>, columns: nat, i: int, j: int) -> T {
    s[i * columns + j]
}

/// Every operand pair is accepted by `T`'s `+` (as for floating-point numbers).
pub open spec fn add_is_total<T: Add<Output = T>>() -> bool {
    forall|x: T, y: T| #[trigger] x.add_req(y)
}

/// `T`'s `+`, `*` and the conversion from `u8` behave as their specifications say.
pub open spec fn arithmetic_obeys_spec<T: From<u8> + Add<Output = T> + Mul<Output = T>>() -> bool {
    &&& T::obeys_add_spec()
    &&& T::obeys_mul_spec()
    &&& T::obeys_from_spec()
}

/// The running sum `0 + a(i,0)*b(0,j) + ... + a(i,k-1)*b(k-1,j)`, added left to right.
pub open spec fn dot<T: From<u8> + Add<Output = T> + Mul<Output = T>>(
    a: Matrix<T>,
    b: Matrix<T>,
    i: int,
    j: int,
    k: nat,
) -> T
    decreases k,
{
    if k == 0 {
        T::from_spec(0u8)
    } else {
        dot(a, b, i, j, (k - 1) as nat).add_spec(a.at(i, k - 1).mul_spec(b.at(k - 1, j)))
    }
}

/// Entry `(i, j)` of a product adds up the products `a(i,k) * b(k,j)` for every
/// `k < n`, in order: it is the left fold of `+` over the sequence of those
/// products, started from `T::from(0u8)`.
pub proof fn lemma_dot_is_fold<T: From<u8> + Add<Output = T> + Mul<Output = T>>(
    a: Matrix<T>,
    b: Matrix<T>,
    i: int,
    j: int,
    n: nat,
)
    ensures
        dot(a, b, i, j, n) == Seq::new(n, |k: int| a.at(i, k).mul_spec(b.at(k, j))).fold_left(
            T::from_spec(0u8),
            |acc: T, x: T| acc.add_spec(x),
        ),
    decreases n,
{
    let products = Seq::new(n, |k: int| a.at(i, k).mul_spec(b.at(k, j)));
    if n > 0 {
        lemma_dot_is_fold(a, b, i, j, (n - 1) as nat);
        assert(products.drop_last() =~= Seq::new(
            (n - 1) as nat,
            |k: int| a.at(i, k).mul_spec(b.at(k, j)),
        ));
    }
}

/// Every addition made while summing the products of `a * b` is accepted by
/// `T`'s `+`: either `+` accepts every pair (as for floating-point numbers), or
/// `T`'s arithmetic behaves as specified and each running sum
/// `dot(a, b, i, j, k)` accepts the next product `a(i,k) * b(k,j)` (for
/// integers: no partial sum overflows).
pub open spec fn sums_fit<T: From<u8> + Add<Output = T> + Mul<Output = T>>(
    a: Matrix<T>,
    b: Matrix<T>,
) -> bool {
    ||| add_is_total::<T>()
    ||| arithmetic_obeys_spec::<T>() && forall|i: int, j: int, k: nat|
        0 <= i < a.nrows() && 0 <= j < b.ncols() && k < a.ncols() ==> #[trigger] dot(
            a,
            b,
            i,
            j,
            k,
        ).add_req(a.at(i, k as int).mul_spec(b.at(k as int, j)))
}

/// Position `i * columns + j` lies inside a `rows x columns` row-major buffer.
pub proof fn lemma_cell_index(i: int, j: int, rows: int, columns: int)
    requires
        0 <= i < rows,
        0 <= j < columns,
    ensures
        0 <= i * columns + j < rows * columns,
{
    assert(0 <= i * columns + j < rows * columns) by (nonlinear_arith)
        requires
            0 <= i < rows,
            0 <= j < columns,
    ;
}

/// Splits a position of a row-major buffer into its row and column.
pub proof fn lemma_cell_split(p: int, columns: int)
    requires
        0 <= p,
        0 < columns,
    ensures
        p == (p / columns) * columns + p % columns,
        0 <= p % columns < columns,
        0 <= p / columns,
{
    assert(p == columns * (p / columns) + p % columns) by {
        vstd::arithmetic::div_mod::lemma_fundamental_div_mod(p, columns);
    }
    assert((p / columns) * columns == columns * (p / columns)) by (nonlinear_arith);
    vstd::arithmetic::div_mod::lemma_mod_bound(p, columns);
    vstd::arithmetic::div_mod::lemma_div_pos_is_pos(p, columns);
}

/// A position below `rows * columns` has its row below `rows`.
proof fn lemma_row_below(p: int, rows: int, columns: int)
    requires
        0 <= p < rows * columns,
        0 < columns,
    ensures
        p / columns < rows,
{
    lemma_cell_split(p, columns);
    if p / columns >= rows {
        assert((p / columns) * columns >= rows * columns) by (nonlinear_arith)
            requires
                p / columns >= rows,
                columns > 0,
        ;
    }
}

impl<T> Matrix<T> {
    /// Number of rows.
    pub closed spec fn nrows(&self) -> nat {
        self.rows as nat
    }

    /// Number of columns.
    pub closed spec fn ncols(&self) -> nat {
        self.columns as nat
    }

    /// All entries, row after row.
    pub closed spec fn elems(&self) -> Seq<T> {
        self.data@
    }

    /// The matrix holds exactly `rows * columns` entries.
    pub open spec fn wf(&self) -> bool {
        self.elems().len() == self.nrows() * self.ncols()
    }

    /// Entry in row `i` and column `j`.
    pub open spec fn at(&self, i: int, j: int) -> T {
        cell(self.elems(), self.ncols(), i, j)
    }

    /// Both matrices have the same number of rows and of columns.
    pub open spec fn same_shape<U>(&self, other: &Matrix<U>) -> bool {
        self.nrows() == other.nrows() && self.ncols() == other.ncols()
    }

    /// `self` is the transpose of `m`.
    pub open spec fn is_transpose_of(&self, m: &Matrix<T>) -> bool {
        &&& self.wf()
        &&& self.nrows() == m.ncols()
        &&& self.ncols() == m.nrows()
        &&& forall|i: int, j: int|
            0 <= i < m.nrows() && 0 <= j < m.ncols() ==> #[trigger] self.at(j, i) == m.at(i, j)
    }

    /// Two well-formed matrices of one shape that agree on every entry are equal.
    pub proof fn lemma_ext_equal(a: &Matrix<T>, b: &Matrix<T>)
        requires
            a.wf(),
            b.wf(),
            a.same_shape(b),
            forall|i: int, j: int|
                0 <= i < a.nrows() && 0 <= j < a.ncols() ==> #[trigger] a.at(i, j) == b.at(i, j),
        ensures
            a.elems() == b.elems(),
    {
        let c = a.ncols() as int;
        assert forall|p: int| 0 <= p < a.elems().len() implies a.elems()[p] == b.elems()[p] by {
            if c == 0 {
                let r = a.nrows() as int;
                assert(r * c == 0) by (nonlinear_arith)
                    requires
                        c == 0,
                ;
            }
            lemma_cell_split(p, c);
            lemma_row_below(p, a.nrows() as int, c);
            assert(a.at(p / c, p % c) == b.at(p / c, p % c));
        }
        assert(a.elems() =~= b.elems());
    }

    /// Builds a matrix from its entries in row-major order.
    pub fn from_vec(rows: usize, columns: usize, data: Vec<T>) -> (m: Matrix<T>)
        requires
            data@.len() == rows * columns,
        ensures
            m.wf(),
            m.nrows() == rows,
            m.ncols() == columns,
            m.elems() == data@,
    {
        Matrix { rows, columns, data }
    }

    /// The entries, row after row.
    pub fn as_slice(&self) -> (s: &[T])
        ensures
            s@ == self.elems(),
    {
        self.data.as_slice()
    }

    /// `(rows, columns)`.
    pub fn shape(&self) -> (s: (usize, usize))
        ensures
            s.0 == self.nrows(),
            s.1 == self.ncols(),
    {
        (self.rows, self.columns)
    }

    /// Number of rows.
    pub fn rows(&self) -> (r: usize)
        ensures
            r == self.nrows(),
    {
        self.rows
    }

    /// Number of columns.
    pub fn columns(&self) -> (c: usize)
        ensures
            c == self.ncols(),
    {
        self.columns
    }

    /// Overwrites the entry in row `row` and column `column`.
    pub fn set(&mut self, row: usize, column: usize, value: T)
        requires
            old(self).wf(),
            row < old(self).nrows(),
            column < old(self).ncols(),
        ensures
            final(self).wf(),
            final(self).same_shape(old(self)),
            final(self).elems() == old(self).elems().update(
                row * old(self).ncols() + column,
                value,
            ),
    {
        proof {
            lemma_cell_index(row as int, column as int, self.rows as int, self.columns as int);
        }
        let len = self.data.len();
        assert(row * self.columns + column < len);
        let index = row * self.columns + column;
        self.data.set(index, value);
    }
}

impl<T: Copy> Matrix<T> {
    /// A `rows x columns` matrix with every entry equal to `value`.
    pub fn filled(rows: usize, columns: usize, value: T) -> (m: Matrix<T>)
        requires
            rows * columns <= usize::MAX,
        ensures
            m.wf(),
            m.nrows() == rows,
            m.ncols() == columns,
            forall|k: int| 0 <= k < m.elems().len() ==> #[trigger] m.elems()[k] == value,
    {
        let n = rows * columns;
        let mut data: Vec<T> = Vec::new();
        let mut k: usize = 0;
        while k < n
            invariant
                k <= n,
                data@.len() == k,
                forall|p: int| 0 <= p < k ==> #[trigger] data@[p] == value,
            decreases n - k,
        {
            data.push(value);
            k = k + 1;
        }
        Matrix { rows, columns, data }
    }

    /// Builds a matrix from an array of rows.
    pub fn from_array<const N: usize, const M: usize>(data: [[T; N]; M]) -> (m: Matrix<T>)
        requires
            M * N <= usize::MAX,
        ensures
            m.wf(),
            m.nrows() == M,
            m.ncols() == N,
            forall|i: int, j: int| 0 <= i < M && 0 <= j < N ==> #[trigger] m.at(i, j) == data@[i]@[j],
    {
        let mut out: Vec<T> = Vec::new();
        let mut i: usize = 0;
        while i < M
            invariant
                i <= M,
                M * N <= usize::MAX,
                out@.len() == i * N,
                forall|a: int, b: int|
                    0 <= a < i && 0 <= b < N ==> #[trigger] cell(out@, N as nat, a, b)
                        == data@[a]@[b],
            decreases M - i,
        {
            let row: [T; N] = data[i];
            let mut j: usize = 0;
            while j < N
                invariant
                    i < M,
                    j <= N,
                    M * N <= usize::MAX,
                    row@ == data@[i as int]@,
                    out@.len() == i * N + j,
                    forall|a: int, b: int|
                        0 <= a < i && 0 <= b < N ==> #[trigger] cell(out@, N as nat, a, b)
                            == data@[a]@[b],
                    forall|b: int| 0 <= b < j ==> #[trigger] out@[i * N + b] == row@[b],
                decreases N - j,
            {
                proof {
                    lemma_cell_index(i as int, j as int, M as int, N as int);
                }
                let ghost before = out@;
                out.push(row[j]);
                proof {
                    assert forall|a: int, b: int| 0 <= a < i && 0 <= b < N implies #[trigger] cell(
                        out@,
                        N as nat,
                        a,
                        b,
                    ) == data@[a]@[b] by {
                        assert(a * N + b < i * N) by (nonlinear_arith)
                            requires
                                0 <= a < i,
                                0 <= b < N,
                        ;
                        assert(cell(before, N as nat, a, b) == data@[a]@[b]);
                    }
                }
                j = j + 1;
            }
            proof {
                assert forall|a: int, b: int| 0 <= a < i + 1 && 0 <= b < N implies #[trigger] cell(
                    out@,
                    N as nat,
                    a,
                    b,
                ) == data@[a]@[b] by {
                    if a == i {
                        assert(out@[i * N + b] == row@[b]);
                    }
                }
                assert((i + 1) * N == i * N + N) by (nonlinear_arith);
            }
            i = i + 1;
        }
        Matrix { rows: M, columns: N, data: out }
    }

    /// The entry in row `row` and column `column`.
    pub fn get(&self, row: usize, column: usize) -> (v: T)
        requires
            self.wf(),
            row < self.nrows(),
            column < self.ncols(),
        ensures
            v == self.at(row as int, column as int),
    {
        proof {
            lemma_cell_index(row as int, column as int, self.rows as int, self.columns as int);
        }
        let len = self.data.len();
        assert(row * self.columns + column < len);
        self.data[row * self.columns + column]
    }

    /// The transpose: entry `(j, i)` of the result is entry `(i, j)` of `self`.
    pub fn transpose(&self) -> (t: Matrix<T>)
        requires
            self.wf(),
        ensures
            t.is_transpose_of(self),
    {
        let rows = self.rows;
        let columns = self.columns;
        let len = self.data.len();
        let mut out: Vec<T> = Vec::new();
        let mut j: usize = 0;
        while j < columns
            invariant
                rows == self.nrows(),
                columns == self.ncols(),
                len == self.elems().len(),
                self.wf(),
                j <= columns,
                out@.len() == j * rows,
                forall|a: int, b: int|
                    0 <= a < j && 0 <= b < rows ==> #[trigger] cell(out@, rows as nat, a, b)
                        == self.at(b, a),
            decreases columns - j,
        {
            let mut i: usize = 0;
            while i < rows
                invariant
                    rows == self.nrows(),
                    columns == self.ncols(),
                    len == self.elems().len(),
                    self.wf(),
                    j < columns,
                    i <= rows,
                    out@.len() == j * rows + i,
                    forall|a: int, b: int|
                        0 <= a < j && 0 <= b < rows ==> #[trigger] cell(out@, rows as nat, a, b)
                            == self.at(b, a),
                    forall|b: int| 0 <= b < i ==> #[trigger] out@[j * rows + b] == self.at(b, j as int),
                decreases rows - i,
            {
                proof {
                    lemma_cell_index(i as int, j as int, rows as int, columns as int);
                }
                let ghost before = out@;
                out.push(self.data[i * columns + j]);
                proof {
                    assert forall|a: int, b: int| 0 <= a < j && 0 <= b < rows implies #[trigger] cell(
                        out@,
                        rows as nat,
                        a,
                        b,
                    ) == self.at(b, a) by {
                        assert(a * rows + b < j * rows) by (nonlinear_arith)
                            requires
                                0 <= a < j,
                                0 <= b < rows,
                        ;
                        assert(cell(before, rows as nat, a, b) == self.at(b, a));
                    }
                }
                i = i + 1;
            }
            proof {
                assert forall|a: int, b: int| 0 <= a < j + 1 && 0 <= b < rows implies #[trigger] cell(
                    out@,
                    rows as nat,
                    a,
                    b,
                ) == self.at(b, a) by {
                    if a == j {
                        assert(out@[j * rows + b] == self.at(b, j as int));
                    }
                }
                assert((j + 1) * rows == j * rows + rows) by (nonlinear_arith);
            }
            j = j + 1;
        }
        proof {
            assert(columns * rows == rows * columns) by (nonlinear_arith);
        }
        let t = Matrix { rows: columns, columns: rows, data: out };
        assert forall|i: int, j: int| 0 <= i < self.nrows() && 0 <= j < self.ncols() implies #[trigger] t.at(
            j,
            i,
        ) == self.at(i, j) by {
            assert(cell(out@, rows as nat, j, i) == self.at(i, j));
        }
        t
    }
}


impl<T: Copy + From<u8>> Matrix<T> {
    /// A `rows x columns` matrix whose entries are all `T::from(0u8)`.
    pub fn zeros(rows: usize, columns: usize) -> (m: Matrix<T>)
        requires
            rows * columns <= usize::MAX,
        ensures
            m.wf(),
            m.nrows() == rows,
            m.ncols() == columns,
            forall|k: int|
                0 <= k < m.elems().len() ==> call_ensures(T::from, (0u8,), #[trigger] m.elems()[k]),
            forall|k: int, l: int|
                0 <= k < m.elems().len() && 0 <= l < m.elems().len() ==> #[trigger] m.elems()[k]
                    == #[trigger] m.elems()[l],
            T::obeys_from_spec() ==> forall|k: int|
                0 <= k < m.elems().len() ==> #[trigger] m.elems()[k] == T::from_spec(0u8),
    {
        let zero = T::from(0u8);
        Self::filled(rows, columns, zero)
    }

    /// A `rows x columns` matrix whose entries are all `T::from(1u8)`.
    pub fn ones(rows: usize, columns: usize) -> (m: Matrix<T>)
        requires
            rows * columns <= usize::MAX,
        ensures
            m.wf(),
            m.nrows() == rows,
            m.ncols() == columns,
            forall|k: int|
                0 <= k < m.elems().len() ==> call_ensures(T::from, (1u8,), #[trigger] m.elems()[k]),
            forall|k: int, l: int|
                0 <= k < m.elems().len() && 0 <= l < m.elems().len() ==> #[trigger] m.elems()[k]
                    == #[trigger] m.elems()[l],
            T::obeys_from_spec() ==> forall|k: int|
                0 <= k < m.elems().len() ==> #[trigger] m.elems()[k] == T::from_spec(1u8),
    {
        let one = T::from(1u8);
        Self::filled(rows, columns, one)
    }
}

impl<T: Copy> Matrix<T> {
    /// Applies `f` to every entry.
    pub fn map<U, F: Fn(T) -> U>(&self, f: F) -> (m: Matrix<U>)
        requires
            self.wf(),
            forall|k: int| 0 <= k < self.elems().len() ==> f.requires((#[trigger] self.elems()[k],)),
        ensures
            m.wf(),
            m.same_shape(self),
            forall|k: int|
                0 <= k < self.elems().len() ==> f.ensures((self.elems()[k],), #[trigger] m.elems()[k]),
    {
        let n = self.data.len();
        let mut out: Vec<U> = Vec::new();
        let mut k: usize = 0;
        while k < n
            invariant
                n == self.elems().len(),
                k <= n,
                out@.len() == k,
                forall|p: int| 0 <= p < n ==> f.requires((#[trigger] self.elems()[p],)),
                forall|p: int| 0 <= p < k ==> f.ensures((self.elems()[p],), #[trigger] out@[p]),
            decreases n - k,
        {
            let v = f(self.data[k]);
            out.push(v);
            k = k + 1;
        }
        Matrix { rows: self.rows, columns: self.columns, data: out }
    }

    /// Columns `start_col .. start_col + size` of `self`, in order.
    pub fn column_slice(&self, start_col: usize, size: usize) -> (m: Matrix<T>)
        requires
            self.wf(),
            start_col + size <= self.ncols(),
        ensures
            m.wf(),
            m.nrows() == self.nrows(),
            m.ncols() == size,
            forall|i: int, j: int|
                0 <= i < self.nrows() && 0 <= j < size ==> #[trigger] m.at(i, j) == self.at(
                    i,
                    start_col + j,
                ),
    {
        let rows = self.rows;
        let columns = self.columns;
        let len = self.data.len();
        let mut out: Vec<T> = Vec::new();
        let mut i: usize = 0;
        while i < rows
            invariant
                rows == self.nrows(),
                columns == self.ncols(),
                len == self.elems().len(),
                self.wf(),
                start_col + size <= columns,
                i <= rows,
                out@.len() == i * size,
                forall|a: int, b: int|
                    0 <= a < i && 0 <= b < size ==> #[trigger] cell(out@, size as nat, a, b)
                        == self.at(a, start_col + b),
            decreases rows - i,
        {
            let mut j: usize = 0;
            while j < size
                invariant
                    rows == self.nrows(),
                    columns == self.ncols(),
                    len == self.elems().len(),
                    self.wf(),
                    start_col + size <= columns,
                    i < rows,
                    j <= size,
                    out@.len() == i * size + j,
                    forall|a: int, b: int|
                        0 <= a < i && 0 <= b < size ==> #[trigger] cell(out@, size as nat, a, b)
                            == self.at(a, start_col + b),
                    forall|b: int| 0 <= b < j ==> #[trigger] out@[i * size + b] == self.at(
                        i as int,
                        start_col + b,
                    ),
                decreases size - j,
            {
                proof {
                    lemma_cell_index(i as int, (start_col + j) as int, rows as int, columns as int);
                }
                let ghost before = out@;
                out.push(self.data[i * columns + (start_col + j)]);
                proof {
                    assert forall|a: int, b: int| 0 <= a < i && 0 <= b < size implies #[trigger] cell(
                        out@,
                        size as nat,
                        a,
                        b,
                    ) == self.at(a, start_col + b) by {
                        assert(a * size + b < i * size) by (nonlinear_arith)
                            requires
                                0 <= a < i,
                                0 <= b < size,
                        ;
                        assert(cell(before, size as nat, a, b) == self.at(a, start_col + b));
                    }
                }
                j = j + 1;
            }
            proof {
                assert forall|a: int, b: int| 0 <= a < i + 1 && 0 <= b < size implies #[trigger] cell(
                    out@,
                    size as nat,
                    a,
                    b,
                ) == self.at(a, start_col + b) by {
                    if a == i {
                        assert(out@[i * size + b] == self.at(i as int, start_col + b));
                    }
                }
                assert((i + 1) * size == i * size + size) by (nonlinear_arith);
            }
            i = i + 1;
        }
        let m = Matrix { rows, columns: size, data: out };
        assert forall|i: int, j: int| 0 <= i < self.nrows() && 0 <= j < size implies #[trigger] m.at(
            i,
            j,
        ) == self.at(i, start_col + j) by {
            assert(cell(out@, size as nat, i, j) == self.at(i, start_col + j));
        }
        m
    }
}

impl<T: Copy + Mul<Output = T>> Matrix<T> {
    /// Entry-wise product of two matrices of one shape.
    pub fn hadamard(&self, other: &Matrix<T>) -> (m: Matrix<T>)
        requires
            self.wf(),
            other.wf(),
            self.same_shape(other),
            forall|k: int|
                0 <= k < self.elems().len() ==> (#[trigger] self.elems()[k]).mul_req(
                    other.elems()[k],
                ),
        ensures
            m.wf(),
            m.same_shape(self),
            T::obeys_mul_spec() ==> forall|k: int|
                0 <= k < self.elems().len() ==> #[trigger] m.elems()[k] == self.elems()[k].mul_spec(
                    other.elems()[k],
                ),
    {
        let n = self.data.len();
        let mut out: Vec<T> = Vec::new();
        let mut k: usize = 0;
        while k < n
            invariant
                n == self.elems().len(),
                n == other.elems().len(),
                k <= n,
                out@.len() == k,
                forall|p: int|
                    0 <= p < n ==> (#[trigger] self.elems()[p]).mul_req(other.elems()[p]),
                T::obeys_mul_spec() ==> forall|p: int|
                    0 <= p < k ==> #[trigger] out@[p] == self.elems()[p].mul_spec(
                        other.elems()[p],
                    ),
            decreases n - k,
        {
            let v = self.data[k] * other.data[k];
            out.push(v);
            k = k + 1;
        }
        Matrix { rows: self.rows, columns: self.columns, data: out }
    }

    /// Every entry multiplied by `factor`.
    fn scaled(&self, factor: T) -> (m: Matrix<T>)
        requires
            self.wf(),
            forall|k: int| 0 <= k < self.elems().len() ==> (#[trigger] self.elems()[k]).mul_req(factor),
        ensures
            m.wf(),
            m.same_shape(self),
            T::obeys_mul_spec() ==> forall|k: int|
                0 <= k < self.elems().len() ==> #[trigger] m.elems()[k] == self.elems()[k].mul_spec(
                    factor,
                ),
    {
        let n = self.data.len();
        let mut out: Vec<T> = Vec::new();
        let mut k: usize = 0;
        while k < n
            invariant
                n == self.elems().len(),
                k <= n,
                out@.len() == k,
                forall|p: int| 0 <= p < n ==> (#[trigger] self.elems()[p]).mul_req(factor),
                T::obeys_mul_spec() ==> forall|p: int|
                    0 <= p < k ==> #[trigger] out@[p] == self.elems()[p].mul_spec(factor),
            decreases n - k,
        {
            let v = self.data[k] * factor;
            out.push(v);
            k = k + 1;
        }
        Matrix { rows: self.rows, columns: self.columns, data: out }
    }
}

impl<T: Copy + Add<Output = T>> Matrix<T> {
    /// Entry-wise sum of two matrices of one shape.
    fn sum(&self, other: &Matrix<T>) -> (m: Matrix<T>)
        requires
            self.wf(),
            other.wf(),
            self.same_shape(other),
            forall|k: int|
                0 <= k < self.elems().len() ==> (#[trigger] self.elems()[k]).add_req(
                    other.elems()[k],
                ),
        ensures
            m.wf(),
            m.same_shape(self),
            T::obeys_add_spec() ==> forall|k: int|
                0 <= k < self.elems().len() ==> #[trigger] m.elems()[k] == self.elems()[k].add_spec(
                    other.elems()[k],
                ),
    {
        let n = self.data.len();
        let mut out: Vec<T> = Vec::new();
        let mut k: usize = 0;
        while k < n
            invariant
                n == self.elems().len(),
                n == other.elems().len(),
                k <= n,
                out@.len() == k,
                forall|p: int|
                    0 <= p < n ==> (#[trigger] self.elems()[p]).add_req(other.elems()[p]),
                T::obeys_add_spec() ==> forall|p: int|
                    0 <= p < k ==> #[trigger] out@[p] == self.elems()[p].add_spec(
                        other.elems()[p],
                    ),
            decreases n - k,
        {
            let v = self.data[k] + other.data[k];
            out.push(v);
            k = k + 1;
        }
        Matrix { rows: self.rows, columns: self.columns, data: out }
    }
}

impl<T: Copy + Sub<Output = T>> Matrix<T> {
    /// Entry-wise difference of two matrices of one shape.
    fn difference(&self, other: &Matrix<T>) -> (m: Matrix<T>)
        requires
            self.wf(),
            other.wf(),
            self.same_shape(other),
            forall|k: int|
                0 <= k < self.elems().len() ==> (#[trigger] self.elems()[k]).sub_req(
                    other.elems()[k],
                ),
        ensures
            m.wf(),
            m.same_shape(self),
            T::obeys_sub_spec() ==> forall|k: int|
                0 <= k < self.elems().len() ==> #[trigger] m.elems()[k] == self.elems()[k].sub_spec(
                    other.elems()[k],
                ),
    {
        let n = self.data.len();
        let mut out: Vec<T> = Vec::new();
        let mut k: usize = 0;
        while k < n
            invariant
                n == self.elems().len(),
                n == other.elems().len(),
                k <= n,
                out@.len() == k,
                forall|p: int|
                    0 <= p < n ==> (#[trigger] self.elems()[p]).sub_req(other.elems()[p]),
                T::obeys_sub_spec() ==> forall|p: int|
                    0 <= p < k ==> #[trigger] out@[p] == self.elems()[p].sub_spec(
                        other.elems()[p],
                    ),
            decreases n - k,
        {
            let v = self.data[k] - other.data[k];
            out.push(v);
            k = k + 1;
        }
        Matrix { rows: self.rows, columns: self.columns, data: out }
    }
}

impl<'a, 'b, T: Copy + Add<Output = T>> Add<&'b Matrix<T>> for &'a Matrix<T> {
    type Output = Matrix<T>;

    /// Entry-wise sum; the shapes must agree.
    fn add(self, other: &'b Matrix<T>) -> (m: Matrix<T>)
        ensures
            m.wf(),
            m.same_shape(self),
            T::obeys_add_spec() ==> forall|k: int|
                0 <= k < self.elems().len() ==> #[trigger] m.elems()[k] == self.elems()[k].add_spec(
                    other.elems()[k],
                ),
    {
        self.sum(other)
    }
}

impl<'a, 'b, T: Copy + Add<Output = T>> AddSpecImpl<&'b Matrix<T>> for &'a Matrix<T> {
    /// `false`: what `add` returns depends on how `T`'s own operators behave,
    /// so its `ensures` states it directly instead.
    open spec fn obeys_add_spec() -> bool {
        false
    }

    open spec fn add_req(self, other: &'b Matrix<T>) -> bool {
        &&& self.wf()
        &&& other.wf()
        &&& self.same_shape(other)
        &&& forall|k: int|
            0 <= k < self.elems().len() ==> (#[trigger] self.elems()[k]).add_req(other.elems()[k])
    }

    /// A matrix of the shape of `self` holding the entry-wise sums.
    open spec fn add_spec(self, other: &'b Matrix<T>) -> Matrix<T> {
        choose|m: Matrix<T>|
            m.wf() && m.same_shape(self) && forall|k: int|
                0 <= k < self.elems().len() ==> #[trigger] m.elems()[k] == self.elems()[k].add_spec(
                    other.elems()[k],
                )
    }
}

impl<'a, 'b, T: Copy + Sub<Output = T>> Sub<&'b Matrix<T>> for &'a Matrix<T> {
    type Output = Matrix<T>;

    /// Entry-wise difference; the shapes must agree.
    fn sub(self, other: &'b Matrix<T>) -> (m: Matrix<T>)
        ensures
            m.wf(),
            m.same_shape(self),
            T::obeys_sub_spec() ==> forall|k: int|
                0 <= k < self.elems().len() ==> #[trigger] m.elems()[k] == self.elems()[k].sub_spec(
                    other.elems()[k],
                ),
    {
        self.difference(other)
    }
}

impl<'a, 'b, T: Copy + Sub<Output = T>> SubSpecImpl<&'b Matrix<T>> for &'a Matrix<T> {
    /// `false`: what `sub` returns depends on how `T`'s own operators behave,
    /// so its `ensures` states it directly instead.
    open spec fn obeys_sub_spec() -> bool {
        false
    }

    open spec fn sub_req(self, other: &'b Matrix<T>) -> bool {
        &&& self.wf()
        &&& other.wf()
        &&& self.same_shape(other)
        &&& forall|k: int|
            0 <= k < self.elems().len() ==> (#[trigger] self.elems()[k]).sub_req(other.elems()[k])
    }

    /// A matrix of the shape of `self` holding the entry-wise differences.
    open spec fn sub_spec(self, other: &'b Matrix<T>) -> Matrix<T> {
        choose|m: Matrix<T>|
            m.wf() && m.same_shape(self) && forall|k: int|
                0 <= k < self.elems().len() ==> #[trigger] m.elems()[k] == self.elems()[k].sub_spec(
                    other.elems()[k],
                )
    }
}

impl<'a, T: Copy + Mul<Output = T>> Mul<T> for &'a Matrix<T> {
    type Output = Matrix<T>;

    /// Every entry multiplied by the scalar `factor`.
    fn mul(self, factor: T) -> (m: Matrix<T>)
        ensures
            m.wf(),
            m.same_shape(self),
            T::obeys_mul_spec() ==> forall|k: int|
                0 <= k < self.elems().len() ==> #[trigger] m.elems()[k] == self.elems()[k].mul_spec(
                    factor,
                ),
    {
        self.scaled(factor)
    }
}

impl<'a, T: Copy + Mul<Output = T>> MulSpecImpl<T> for &'a Matrix<T> {
    /// `false`: what `mul` returns depends on how `T`'s own operators behave,
    /// so its `ensures` states it directly instead.
    open spec fn obeys_mul_spec() -> bool {
        false
    }

    open spec fn mul_req(self, factor: T) -> bool {
        &&& self.wf()
        &&& forall|k: int| 0 <= k < self.elems().len() ==> (#[trigger] self.elems()[k]).mul_req(factor)
    }

    /// A matrix of the shape of `self` holding every entry times `factor`.
    open spec fn mul_spec(self, factor: T) -> Matrix<T> {
        choose|m: Matrix<T>|
            m.wf() && m.same_shape(self) && forall|k: int|
                0 <= k < self.elems().len() ==> #[trigger] m.elems()[k] == self.elems()[k].mul_spec(
                    factor,
                )
    }
}


impl<T: Copy + From<u8> + Add<Output = T> + Mul<Output = T>> Matrix<T> {
    /// `sum = sum + self(i,k) * other(k,j)` for `k` in `0..self.columns`, from `zero`.
    fn dot_product(&self, other: &Matrix<T>, i: usize, j: usize, zero: T) -> (sum: T)
        requires
            self.wf(),
            other.wf(),
            self.ncols() == other.nrows(),
            i < self.nrows(),
            j < other.ncols(),
            sums_fit(*self, *other),
            forall|k: int|
                0 <= k < self.ncols() ==> (#[trigger] self.at(i as int, k)).mul_req(
                    other.at(k, j as int),
                ),
            T::obeys_from_spec() ==> zero == T::from_spec(0u8),
        ensures
            arithmetic_obeys_spec::<T>() ==> sum == dot(*self, *other, i as int, j as int, self.ncols()),
    {
        let mut sum = zero;
        let mut k: usize = 0;
        while k < self.columns
            invariant
                self.wf(),
                other.wf(),
                self.ncols() == other.nrows(),
                i < self.nrows(),
                j < other.ncols(),
                k <= self.ncols(),
                sums_fit(*self, *other),
                forall|q: int|
                    0 <= q < self.ncols() ==> (#[trigger] self.at(i as int, q)).mul_req(
                        other.at(q, j as int),
                    ),
                arithmetic_obeys_spec::<T>() ==> sum == dot(*self, *other, i as int, j as int, k as nat),
            decreases self.ncols() - k,
        {
            let x = self.get(i, k);
            let y = other.get(k, j);
            let p = x * y;
            proof {
                if !add_is_total::<T>() {
                    assert(dot(*self, *other, i as int, j as int, k as nat).add_req(
                        self.at(i as int, k as int).mul_spec(other.at(k as int, j as int)),
                    ));
                }
            }
            assert(sum.add_req(p));
            sum = sum + p;
            k = k + 1;
        }
        sum
    }

    /// The product `self * other`, entry `(i, j)` being `dot(self, other, i, j, self.columns)`.
    fn product(&self, other: &Matrix<T>) -> (m: Matrix<T>)
        requires
            self.wf(),
            other.wf(),
            self.ncols() == other.nrows(),
            self.nrows() * other.ncols() <= usize::MAX,
            sums_fit(*self, *other),
            forall|i: int, j: int, k: int|
                0 <= i < self.nrows() && 0 <= j < other.ncols() && 0 <= k < self.ncols() ==> (
                #[trigger] self.at(i, k)).mul_req(#[trigger] other.at(k, j)),
        ensures
            m.wf(),
            m.nrows() == self.nrows(),
            m.ncols() == other.ncols(),
            arithmetic_obeys_spec::<T>() ==> forall|i: int, j: int|
                0 <= i < self.nrows() && 0 <= j < other.ncols() ==> #[trigger] m.at(i, j) == dot(
                    *self,
                    *other,
                    i,
                    j,
                    self.ncols(),
                ),
    {
        let rows = self.rows;
        let columns = other.columns;
        let zero = T::from(0u8);
        let mut out: Vec<T> = Vec::new();
        let mut i: usize = 0;
        while i < rows
            invariant
                self.wf(),
                other.wf(),
                self.ncols() == other.nrows(),
                rows == self.nrows(),
                columns == other.ncols(),
                rows * columns <= usize::MAX,
                sums_fit(*self, *other),
                forall|a: int, b: int, k: int|
                    0 <= a < self.nrows() && 0 <= b < other.ncols() && 0 <= k < self.ncols() ==> (
                    #[trigger] self.at(a, k)).mul_req(#[trigger] other.at(k, b)),
                T::obeys_from_spec() ==> zero == T::from_spec(0u8),
                i <= rows,
                out@.len() == i * columns,
                arithmetic_obeys_spec::<T>() ==> forall|a: int, b: int|
                    0 <= a < i && 0 <= b < columns ==> #[trigger] cell(out@, columns as nat, a, b)
                        == dot(*self, *other, a, b, self.ncols()),
            decreases rows - i,
        {
            let mut j: usize = 0;
            while j < columns
                invariant
                    self.wf(),
                    other.wf(),
                    self.ncols() == other.nrows(),
                    rows == self.nrows(),
                    columns == other.ncols(),
                    rows * columns <= usize::MAX,
                    sums_fit(*self, *other),
                    forall|a: int, b: int, k: int|
                        0 <= a < self.nrows() && 0 <= b < other.ncols() && 0 <= k < self.ncols()
                            ==> (#[trigger] self.at(a, k)).mul_req(#[trigger] other.at(k, b)),
                    T::obeys_from_spec() ==> zero == T::from_spec(0u8),
                    i < rows,
                    j <= columns,
                    out@.len() == i * columns + j,
                    arithmetic_obeys_spec::<T>() ==> forall|a: int, b: int|
                        0 <= a < i && 0 <= b < columns ==> #[trigger] cell(out@, columns as nat, a, b)
                            == dot(*self, *other, a, b, self.ncols()),
                    arithmetic_obeys_spec::<T>() ==> forall|b: int|
                        0 <= b < j ==> #[trigger] out@[i * columns + b] == dot(
                            *self,
                            *other,
                            i as int,
                            b,
                            self.ncols(),
                        ),
                decreases columns - j,
            {
                proof {
                    lemma_cell_index(i as int, j as int, rows as int, columns as int);
                    assert forall|k: int| 0 <= k < self.ncols() implies (#[trigger] self.at(
                        i as int,
                        k,
                    )).mul_req(other.at(k, j as int)) by {
                        assert(self.at(i as int, k).mul_req(other.at(k, j as int)));
                    }
                }
                let v = self.dot_product(other, i, j, zero);
                let ghost before = out@;
                out.push(v);
                proof {
                    if arithmetic_obeys_spec::<T>() {
                        assert forall|a: int, b: int| 0 <= a < i && 0 <= b < columns implies #[trigger] cell(
                            out@,
                            columns as nat,
                            a,
                            b,
                        ) == dot(*self, *other, a, b, self.ncols()) by {
                            assert(a * columns + b < i * columns) by (nonlinear_arith)
                                requires
                                    0 <= a < i,
                                    0 <= b < columns,
                            ;
                            assert(cell(before, columns as nat, a, b) == dot(
                                *self,
                                *other,
                                a,
                                b,
                                self.ncols(),
                            ));
                        }
                    }
                }
                j = j + 1;
            }
            proof {
                if arithmetic_obeys_spec::<T>() {
                    assert forall|a: int, b: int| 0 <= a < i + 1 && 0 <= b < columns implies #[trigger] cell(
                        out@,
                        columns as nat,
                        a,
                        b,
                    ) == dot(*self, *other, a, b, self.ncols()) by {
                        if a == i {
                            assert(out@[i * columns + b] == dot(*self, *other, i as int, b, self.ncols()));
                        }
                    }
                }
                assert((i + 1) * columns == i * columns + columns) by (nonlinear_arith);
            }
            i = i + 1;
        }
        let m = Matrix { rows, columns, data: out };
        proof {
            if arithmetic_obeys_spec::<T>() {
                assert forall|a: int, b: int| 0 <= a < self.nrows() && 0 <= b < other.ncols() implies #[trigger] m.at(
                    a,
                    b,
                ) == dot(*self, *other, a, b, self.ncols()) by {
                    assert(cell(out@, columns as nat, a, b) == dot(*self, *other, a, b, self.ncols()));
                }
            }
        }
        m
    }
}

impl<T: Copy + From<u8> + Add<Output = T> + Mul<Output = T>> Matrix<T> {
    /// `sum = sum + self(i,k) * t(j,k)` for `k` in `0..self.columns`, from `zero`,
    /// where `t` is the transpose of `other`.
    fn dot_product_transposed(
        &self,
        other: &Matrix<T>,
        t: &Matrix<T>,
        i: usize,
        j: usize,
        zero: T,
    ) -> (sum: T)
        requires
            self.wf(),
            other.wf(),
            t.is_transpose_of(other),
            self.ncols() <= other.nrows(),
            i < self.nrows(),
            j < other.ncols(),
            sums_fit(*self, *other),
            forall|k: int|
                0 <= k < self.ncols() ==> (#[trigger] self.at(i as int, k)).mul_req(
                    other.at(k, j as int),
                ),
            T::obeys_from_spec() ==> zero == T::from_spec(0u8),
        ensures
            arithmetic_obeys_spec::<T>() ==> sum == dot(*self, *other, i as int, j as int, self.ncols()),
    {
        let mut sum = zero;
        let mut k: usize = 0;
        while k < self.columns
            invariant
                self.wf(),
                other.wf(),
                t.is_transpose_of(other),
                self.ncols() <= other.nrows(),
                i < self.nrows(),
                j < other.ncols(),
                k <= self.ncols(),
                sums_fit(*self, *other),
                forall|q: int|
                    0 <= q < self.ncols() ==> (#[trigger] self.at(i as int, q)).mul_req(
                        other.at(q, j as int),
                    ),
                arithmetic_obeys_spec::<T>() ==> sum == dot(*self, *other, i as int, j as int, k as nat),
            decreases self.ncols() - k,
        {
            let x = self.get(i, k);
            assert(t.at(j as int, k as int) == other.at(k as int, j as int));
            let y = t.get(j, k);
            let p = x * y;
            proof {
                if !add_is_total::<T>() {
                    assert(dot(*self, *other, i as int, j as int, k as nat).add_req(
                        self.at(i as int, k as int).mul_spec(other.at(k as int, j as int)),
                    ));
                }
            }
            assert(sum.add_req(p));
            sum = sum + p;
            k = k + 1;
        }
        sum
    }

    /// `self` times `other`, computed against the transpose of `other`.
    ///
    /// The columns of `self` are paired with the columns of `other`: entry `(i, j)`
    /// for `j < other.columns` is `dot(self, other, i, j, self.columns)`, and the
    /// result has `other.rows` columns, those from `other.columns` on holding zero.
    pub fn optimized_matmul(&self, other: &Matrix<T>) -> (m: Matrix<T>)
        requires
            self.wf(),
            other.wf(),
            self.ncols() == other.ncols(),
            self.nrows() == 0 || other.ncols() <= other.nrows(),
            self.nrows() * other.nrows() <= usize::MAX,
            sums_fit(*self, *other),
            forall|i: int, j: int, k: int|
                0 <= i < self.nrows() && 0 <= j < other.ncols() && 0 <= k < self.ncols() ==> (
                #[trigger] self.at(i, k)).mul_req(#[trigger] other.at(k, j)),
        ensures
            m.wf(),
            m.nrows() == self.nrows(),
            m.ncols() == other.nrows(),
            arithmetic_obeys_spec::<T>() ==> forall|i: int, j: int|
                0 <= i < self.nrows() && 0 <= j < other.ncols() ==> #[trigger] m.at(i, j) == dot(
                    *self,
                    *other,
                    i,
                    j,
                    self.ncols(),
                ),
            forall|i: int, j: int|
                0 <= i < self.nrows() && other.ncols() <= j < other.nrows() ==> call_ensures(
                    T::from,
                    (0u8,),
                    #[trigger] m.at(i, j),
                ),
            T::obeys_from_spec() ==> forall|i: int, j: int|
                0 <= i < self.nrows() && other.ncols() <= j < other.nrows() ==> #[trigger] m.at(i, j)
                    == T::from_spec(0u8),
    {
        let t = other.transpose();
        let rows = self.rows;
        let columns = other.rows;
        let paired = t.rows;
        let zero = T::from(0u8);
        let mut out: Vec<T> = Vec::new();
        let mut i: usize = 0;
        while i < rows
            invariant
                self.wf(),
                other.wf(),
                t.is_transpose_of(other),
                self.ncols() == other.ncols(),
                rows == self.nrows(),
                columns == other.nrows(),
                paired == other.ncols(),
                rows == 0 || paired <= columns,
                rows * columns <= usize::MAX,
                sums_fit(*self, *other),
                forall|a: int, b: int, k: int|
                    0 <= a < self.nrows() && 0 <= b < other.ncols() && 0 <= k < self.ncols() ==> (
                    #[trigger] self.at(a, k)).mul_req(#[trigger] other.at(k, b)),
                call_ensures(T::from, (0u8,), zero),
                T::obeys_from_spec() ==> zero == T::from_spec(0u8),
                i <= rows,
                out@.len() == i * columns,
                arithmetic_obeys_spec::<T>() ==> forall|a: int, b: int|
                    0 <= a < i && 0 <= b < paired ==> #[trigger] cell(out@, columns as nat, a, b)
                        == dot(*self, *other, a, b, self.ncols()),
                forall|a: int, b: int|
                    0 <= a < i && paired <= b < columns ==> #[trigger] cell(out@, columns as nat, a, b)
                        == zero,
            decreases rows - i,
        {
            let mut j: usize = 0;
            while j < columns
                invariant
                    self.wf(),
                    other.wf(),
                    t.is_transpose_of(other),
                    self.ncols() == other.ncols(),
                    rows == self.nrows(),
                    columns == other.nrows(),
                    paired == other.ncols(),
                    paired <= columns,
                    rows * columns <= usize::MAX,
                    sums_fit(*self, *other),
                    forall|a: int, b: int, k: int|
                        0 <= a < self.nrows() && 0 <= b < other.ncols() && 0 <= k < self.ncols()
                            ==> (#[trigger] self.at(a, k)).mul_req(#[trigger] other.at(k, b)),
                    call_ensures(T::from, (0u8,), zero),
                    T::obeys_from_spec() ==> zero == T::from_spec(0u8),
                    i < rows,
                    j <= columns,
                    out@.len() == i * columns + j,
                    arithmetic_obeys_spec::<T>() ==> forall|a: int, b: int|
                        0 <= a < i && 0 <= b < paired ==> #[trigger] cell(out@, columns as nat, a, b)
                            == dot(*self, *other, a, b, self.ncols()),
                    forall|a: int, b: int|
                        0 <= a < i && paired <= b < columns ==> #[trigger] cell(
                            out@,
                            columns as nat,
                            a,
                            b,
                        ) == zero,
                    arithmetic_obeys_spec::<T>() ==> forall|b: int|
                        0 <= b < j && b < paired ==> #[trigger] out@[i * columns + b] == dot(
                            *self,
                            *other,
                            i as int,
                            b,
                            self.ncols(),
                        ),
                    forall|b: int| 0 <= b < j && paired <= b ==> #[trigger] out@[i * columns + b] == zero,
                decreases columns - j,
            {
                proof {
                    lemma_cell_index(i as int, j as int, rows as int, columns as int);
                }
                let v = if j < paired {
                    proof {
                        assert forall|k: int| 0 <= k < self.ncols() implies (#[trigger] self.at(
                            i as int,
                            k,
                        )).mul_req(other.at(k, j as int)) by {
                            assert(self.at(i as int, k).mul_req(other.at(k, j as int)));
                        }
                    }
                    self.dot_product_transposed(other, &t, i, j, zero)
                } else {
                    zero
                };
                let ghost before = out@;
                out.push(v);
                proof {
                    assert forall|a: int, b: int| 0 <= a < i && 0 <= b < columns implies #[trigger] cell(
                        out@,
                        columns as nat,
                        a,
                        b,
                    ) == cell(before, columns as nat, a, b) by {
                        assert(a * columns + b < i * columns) by (nonlinear_arith)
                            requires
                                0 <= a < i,
                                0 <= b < columns,
                        ;
                    }
                }
                j = j + 1;
            }
            proof {
                assert forall|a: int, b: int| 0 <= a < i + 1 && paired <= b < columns implies #[trigger] cell(
                    out@,
                    columns as nat,
                    a,
                    b,
                ) == zero by {
                    if a == i {
                        assert(out@[i * columns + b] == zero);
                    }
                }
                if arithmetic_obeys_spec::<T>() {
                    assert forall|a: int, b: int| 0 <= a < i + 1 && 0 <= b < paired implies #[trigger] cell(
                        out@,
                        columns as nat,
                        a,
                        b,
                    ) == dot(*self, *other, a, b, self.ncols()) by {
                        if a == i {
                            assert(out@[i * columns + b] == dot(*self, *other, i as int, b, self.ncols()));
                        }
                    }
                }
                assert((i + 1) * columns == i * columns + columns) by (nonlinear_arith);
            }
            i = i + 1;
        }
        let m = Matrix { rows, columns, data: out };
        proof {
            assert forall|a: int, b: int| 0 <= a < self.nrows() && other.ncols() <= b < other.nrows() implies #[trigger] m.at(
                a,
                b,
            ) == zero by {
                assert(cell(out@, columns as nat, a, b) == zero);
            }
            if arithmetic_obeys_spec::<T>() {
                assert forall|a: int, b: int| 0 <= a < self.nrows() && 0 <= b < other.ncols() implies #[trigger] m.at(
                    a,
                    b,
                ) == dot(*self, *other, a, b, self.ncols()) by {
                    assert(cell(out@, columns as nat, a, b) == dot(*self, *other, a, b, self.ncols()));
                }
            }
        }
        m
    }
}

impl<'a, 'b, T: Copy + From<u8> + Add<Output = T> + Mul<Output = T>> Mul<&'b Matrix<T>> for &'a Matrix<T> {
    type Output = Matrix<T>;

    /// The matrix product: entry `(i, j)` is
    /// `0 + self(i,0)*other(0,j) + ... + self(i,n-1)*other(n-1,j)`, summed left to right.
    fn mul(self, other: &'b Matrix<T>) -> (m: Matrix<T>)
        ensures
            m.wf(),
            m.nrows() == self.nrows(),
            m.ncols() == other.ncols(),
            arithmetic_obeys_spec::<T>() ==> forall|i: int, j: int|
                0 <= i < self.nrows() && 0 <= j < other.ncols() ==> #[trigger] m.at(i, j) == dot(
                    *self,
                    *other,
                    i,
                    j,
                    self.ncols(),
                ),
    {
        self.product(other)
    }
}

impl<'a, 'b, T: Copy + From<u8> + Add<Output = T> + Mul<Output = T>> MulSpecImpl<&'b Matrix<T>> for &'a Matrix<T> {
    /// `false`: what `mul` returns depends on how `T`'s own operators behave,
    /// so its `ensures` states it directly instead.
    open spec fn obeys_mul_spec() -> bool {
        false
    }

    open spec fn mul_req(self, other: &'b Matrix<T>) -> bool {
        &&& self.wf()
        &&& other.wf()
        &&& self.ncols() == other.nrows()
        &&& self.nrows() * other.ncols() <= usize::MAX
        &&& sums_fit(*self, *other)
        &&& forall|i: int, j: int, k: int|
            0 <= i < self.nrows() && 0 <= j < other.ncols() && 0 <= k < self.ncols() ==> (
            #[trigger] self.at(i, k)).mul_req(#[trigger] other.at(k, j))
    }

    /// The matrix product: entry `(i, j)` is `dot(self, other, i, j, self.columns)`.
    open spec fn mul_spec(self, other: &'b Matrix<T>) -> Matrix<T> {
        choose|m: Matrix<T>|
            m.wf() && m.nrows() == self.nrows() && m.ncols() == other.ncols() && forall|
                i: int,
                j: int,
            |
                0 <= i < self.nrows() && 0 <= j < other.ncols() ==> #[trigger] m.at(i, j) == dot(
                    *self,
                    *other,
                    i,
                    j,
                    self.ncols(),
                )
    }
}


/// Distinct cells of a row-major buffer sit at distinct positions.
proof fn lemma_cell_injective(i1: int, j1: int, i2: int, j2: int, columns: int)
    requires
        0 <= i1,
        0 <= i2,
        0 <= j1 < columns,
        0 <= j2 < columns,
        i1 * columns + j1 == i2 * columns + j2,
    ensures
        i1 == i2,
        j1 == j2,
{
    let p = i1 * columns + j1;
    lemma_fundamental_div_mod_converse(p, columns, i1, j1);
    lemma_fundamental_div_mod_converse(p, columns, i2, j2);
}

/// Transposing twice gives back the matrix one started from.
pub proof fn lemma_transpose_involutive<T>(m: &Matrix<T>, t: &Matrix<T>, tt: &Matrix<T>)
    requires
        m.wf(),
        t.is_transpose_of(m),
        tt.is_transpose_of(t),
    ensures
        tt.same_shape(m),
        tt.elems() == m.elems(),
{
    assert forall|i: int, j: int| 0 <= i < tt.nrows() && 0 <= j < tt.ncols() implies #[trigger] tt.at(
        i,
        j,
    ) == m.at(i, j) by {
        assert(tt.at(i, j) == t.at(j, i));
        assert(t.at(j, i) == m.at(i, j));
    }
    Matrix::lemma_ext_equal(tt, m);
}

/// After `set(row, column, value)` the entry at `(row, column)` reads `value`
/// and every other entry reads as before.
pub proof fn lemma_read_after_write<T>(
    before: &Matrix<T>,
    after: &Matrix<T>,
    row: int,
    column: int,
    value: T,
)
    requires
        before.wf(),
        0 <= row < before.nrows(),
        0 <= column < before.ncols(),
        after.same_shape(before),
        after.elems() == before.elems().update(row * before.ncols() + column, value),
    ensures
        after.wf(),
        after.at(row, column) == value,
        forall|i: int, j: int|
            0 <= i < before.nrows() && 0 <= j < before.ncols() && (i != row || j != column)
                ==> #[trigger] after.at(i, j) == before.at(i, j),
{
    lemma_cell_index(row, column, before.nrows() as int, before.ncols() as int);
    assert forall|i: int, j: int|
        0 <= i < before.nrows() && 0 <= j < before.ncols() && (i != row || j != column) implies #[trigger] after.at(
        i,
        j,
    ) == before.at(i, j) by {
        lemma_cell_index(i, j, before.nrows() as int, before.ncols() as int);
        if i * before.ncols() + j == row * before.ncols() + column {
            lemma_cell_injective(i, j, row, column, before.ncols() as int);
        }
    }
}

/// Taking all columns of a matrix as one slice gives back the matrix.
pub proof fn lemma_full_column_slice<T>(m: &Matrix<T>, s: &Matrix<T>)
    requires
        m.wf(),
        s.wf(),
        s.nrows() == m.nrows(),
        s.ncols() == m.ncols(),
        forall|i: int, j: int|
            0 <= i < m.nrows() && 0 <= j < m.ncols() ==> #[trigger] s.at(i, j) == m.at(i, 0 + j),
    ensures
        s.elems() == m.elems(),
{
    assert forall|i: int, j: int| 0 <= i < s.nrows() && 0 <= j < s.ncols() implies #[trigger] s.at(
        i,
        j,
    ) == m.at(i, j) by {
        assert(s.at(i, j) == m.at(i, 0 + j));
    }
    Matrix::lemma_ext_equal(s, m);
}

} // verus!
