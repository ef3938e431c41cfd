//! The structure of a network: the shapes of its layers, and how an epoch of
//! training walks through the examples in mini-batches.
use vstd::prelude::*;

verus! {

/// The sizes of one fully connected layer: its weights are an
/// `outputs x inputs` matrix and its bias an `outputs x 1` matrix.
#[derive(Debug, Clone, Copy, PartialEq, Eq, Structural)]
pub struct LayerShape {
    pub inputs: usize,
    pub outputs: usize,
    /// The layer is the last one of the network.
    pub is_output: bool,
}

/// The layers that the architecture `arch` (units per layer, input first)
/// describes: layer `i` maps `arch[i]` units to `arch[i + 1]`.
pub fn layer_shapes(arch: &[usize]) -> (r: Vec<LayerShape>)
    requires
        arch@.len() >= 2,
    ensures
        r@.len() == arch@.len() - 1,
        forall|i: int|
            0 <= i < r@.len() ==> (#[trigger] r@[i]).inputs == arch@[i] && r@[i].outputs == arch@[i
                + 1] && r@[i].is_output == (i == r@.len() - 1),
{
    let n = arch.len() - 1;
    let mut r: Vec<LayerShape> = Vec::new();
    let mut i: usize = 0;
    while i < n
        invariant
            n == arch@.len() - 1,
            i <= n,
            r@.len() == i,
            forall|q: int|
                0 <= q < i ==> (#[trigger] r@[q]).inputs == arch@[q] && r@[q].outputs == arch@[q
                    + 1] && r@[q].is_output == (q == n - 1),
        decreases n - i,
    {
        r.push(LayerShape { inputs: arch[i], outputs: arch[i + 1], is_output: i + 1 == n });
        i = i + 1;
    }
    r
}

/// `ceil(n / d)`.
pub open spec fn ceil_div(n: nat, d: nat) -> nat
    recommends
        d > 0,
{
    (n / d + if n % d == 0 {
        0nat
    } else {
        1nat
    }) as nat
}

/// First column of batch `j`.
pub open spec fn batch_start(j: nat, batch_size: nat) -> nat {
    j * batch_size
}

/// One past the last column of batch `j`: the batch would end at
/// `(j + 1) * batch_size`, but not after the last column.
pub open spec fn batch_end(j: nat, batch_size: nat, columns: nat) -> nat {
    if (j + 1) * batch_size <= columns {
        (j + 1) * batch_size
    } else {
        columns
    }
}

/// Number of mini-batches that cover `columns` examples: `ceil(columns / batch_size)`.
pub fn batch_count(columns: usize, batch_size: usize) -> (r: usize)
    requires
        batch_size > 0,
    ensures
        r == ceil_div(columns as nat, batch_size as nat),
{
    let q = columns / batch_size;
    if columns % batch_size == 0 {
        q
    } else {
        proof {
            vstd::arithmetic::div_mod::lemma_fundamental_div_mod(columns as int, batch_size as int);
            assert(q < usize::MAX) by (nonlinear_arith)
                requires
                    columns == batch_size * q + columns % batch_size,
                    columns % batch_size != 0,
                    batch_size >= 1,
                    q >= 0,
                    columns <= usize::MAX,
            ;
        }
        q + 1
    }
}

/// `ceil(n / d)` is the least count of blocks of `d` that covers `n`:
/// `ceil(n / d) * d` lies in `[n, n + d)`, and batch `j < ceil(n / d)` starts before `n`.
pub proof fn lemma_ceil_div_bounds(n: nat, d: nat)
    requires
        d > 0,
    ensures
        n <= ceil_div(n, d) * d,
        ceil_div(n, d) * d < n + d,
        forall|j: nat| j < ceil_div(n, d) ==> #[trigger] batch_start(j, d) < n,
{
    let q = n / d;
    let r = n % d;
    vstd::arithmetic::div_mod::lemma_fundamental_div_mod(n as int, d as int);
    assert(n == q * d + r) by (nonlinear_arith)
        requires
            n == d * q + r,
    ;
    assert(0 <= r < d) by {
        vstd::arithmetic::div_mod::lemma_mod_bound(n as int, d as int);
    }
    let c = ceil_div(n, d);
    if r == 0 {
        assert(c * d == q * d);
    } else {
        assert(c * d == q * d + d) by (nonlinear_arith)
            requires
                c == q + 1,
        ;
    }
    assert forall|j: nat| j < c implies #[trigger] batch_start(j, d) < n by {
        if r == 0 {
            assert(j * d < q * d) by (nonlinear_arith)
                requires
                    j < q,
                    d > 0,
            ;
        } else {
            assert(j * d <= q * d) by (nonlinear_arith)
                requires
                    j <= q,
                    d > 0,
            ;
        }
    }
}

/// The first column of batch `j` and the number of columns in it.
pub fn batch_bounds(j: usize, batch_size: usize, columns: usize) -> (r: (usize, usize))
    requires
        batch_size > 0,
        j < ceil_div(columns as nat, batch_size as nat),
        columns + batch_size <= usize::MAX,
    ensures
        r.0 == batch_start(j as nat, batch_size as nat),
        r.0 + r.1 == batch_end(j as nat, batch_size as nat, columns as nat),
        0 < r.1 <= batch_size,
{
    proof {
        lemma_ceil_div_bounds(columns as nat, batch_size as nat);
        assert(batch_start(j as nat, batch_size as nat) < columns);
        assert((j + 1) * batch_size == j * batch_size + batch_size) by (nonlinear_arith);
    }
    let start = j * batch_size;
    let end = if (j + 1) * batch_size <= columns {
        (j + 1) * batch_size
    } else {
        columns
    };
    (start, end - start)
}

/// The mini-batches of one epoch, in order, as `(first column, width)`.
pub fn batch_plan(columns: usize, batch_size: usize) -> (r: Vec<(usize, usize)>)
    requires
        batch_size > 0,
        columns + batch_size <= usize::MAX,
    ensures
        r@.len() == ceil_div(columns as nat, batch_size as nat),
        forall|j: int|
            0 <= j < r@.len() ==> (#[trigger] r@[j]).0 == batch_start(j as nat, batch_size as nat)
                && r@[j].0 + r@[j].1 == batch_end(j as nat, batch_size as nat, columns as nat) && 0
                < r@[j].1 <= batch_size,
{
    let n = batch_count(columns, batch_size);
    let mut r: Vec<(usize, usize)> = Vec::new();
    let mut j: usize = 0;
    while j < n
        invariant
            batch_size > 0,
            columns + batch_size <= usize::MAX,
            n == ceil_div(columns as nat, batch_size as nat),
            j <= n,
            r@.len() == j,
            forall|q: int|
                0 <= q < j ==> (#[trigger] r@[q]).0 == batch_start(q as nat, batch_size as nat)
                    && r@[q].0 + r@[q].1 == batch_end(q as nat, batch_size as nat, columns as nat)
                    && 0 < r@[q].1 <= batch_size,
        decreases n - j,
    {
        r.push(batch_bounds(j, batch_size, columns));
        j = j + 1;
    }
    r
}

/// The mini-batches of an epoch cover the columns `0..columns` in order, each
/// column exactly once: the first batch starts at column 0, each batch starts
/// where the one before it ends, the last one ends at the last column, and
/// column `c` lies in batch `c / batch_size`.
pub proof fn lemma_batches_partition_columns(columns: nat, batch_size: nat)
    requires
        batch_size > 0,
    ensures
        batch_start(0, batch_size) == 0,
        forall|j: nat|
            j + 1 < ceil_div(columns, batch_size) ==> #[trigger] batch_end(j, batch_size, columns)
                == batch_start(j + 1, batch_size),
        ceil_div(columns, batch_size) > 0 ==> batch_end(
            (ceil_div(columns, batch_size) - 1) as nat,
            batch_size,
            columns,
        ) == columns,
        forall|c: nat|
            c < columns ==> #[trigger] (c / batch_size) < ceil_div(columns, batch_size) && batch_start(
                c / batch_size,
                batch_size,
            ) <= c < batch_end(c / batch_size, batch_size, columns),
{
    let n = ceil_div(columns, batch_size);
    lemma_ceil_div_bounds(columns, batch_size);
    assert(batch_start(0, batch_size) == 0) by (nonlinear_arith);
    assert forall|j: nat| j + 1 < n implies #[trigger] batch_end(j, batch_size, columns)
        == batch_start(j + 1, batch_size) by {
        assert(batch_start(j + 1, batch_size) < columns);
    }
    if n > 0 {
        let last = (n - 1) as nat;
        assert((last + 1) * batch_size == n * batch_size);
        if n * batch_size < columns {
            assert(false);
        }
    }
    assert forall|c: nat| c < columns implies #[trigger] (c / batch_size) < n && batch_start(
        c / batch_size,
        batch_size,
    ) <= c < batch_end(c / batch_size, batch_size, columns) by {
        let q = c / batch_size;
        vstd::arithmetic::div_mod::lemma_fundamental_div_mod(c as int, batch_size as int);
        vstd::arithmetic::div_mod::lemma_mod_bound(c as int, batch_size as int);
        assert(c == q * batch_size + c % batch_size) by (nonlinear_arith)
            requires
                c == batch_size * q + c % batch_size,
        ;
        assert((q + 1) * batch_size == q * batch_size + batch_size) by (nonlinear_arith);
        if q >= n {
            assert(q * batch_size >= n * batch_size) by (nonlinear_arith)
                requires
                    q >= n,
            ;
        }
    }
}


/// The epochs of a training run that the user can abort between epochs.
///
/// The driver asks `run_next` before each epoch, trains the epoch when it
/// answers `true`, then calls `finish_epoch`, whose result is the progress to
/// report (the number of epochs done).
#[derive(Debug, Clone, Copy)]
pub struct EpochSchedule {
    epochs: u32,
    completed: u32,
}

impl EpochSchedule {
    /// Epochs planned.
    pub closed spec fn planned(&self) -> nat {
        self.epochs as nat
    }

    /// Epochs done so far.
    pub closed spec fn done(&self) -> nat {
        self.completed as nat
    }

    /// A run of `epochs` epochs, none done yet.
    pub fn new(epochs: u32) -> (s: EpochSchedule)
        ensures
            s.planned() == epochs,
            s.done() == 0,
    {
        EpochSchedule { epochs, completed: 0 }
    }

    /// Epochs done so far.
    pub fn completed(&self) -> (n: u32)
        ensures
            n == self.done(),
    {
        self.completed
    }

    /// Whether to train another epoch: while epochs remain and training has
    /// not been aborted.
    pub fn run_next(&self, training: bool) -> (go: bool)
        ensures
            go == (training && self.done() < self.planned()),
    {
        training && self.completed < self.epochs
    }

    /// Records one more epoch as done and returns the number done.
    pub fn finish_epoch(&mut self) -> (n: u32)
        requires
            old(self).done() < old(self).planned(),
        ensures
            final(self).planned() == old(self).planned(),
            final(self).done() == old(self).done() + 1,
            n == final(self).done(),
    {
        self.completed = self.completed + 1;
        self.completed
    }
}

} // verus!
