//! Rings: a sequence of cells of which the first follows the last.

use vstd::arithmetic::div_mod::{lemma_mod_sub_multiples_vanish, lemma_small_mod};
use vstd::prelude::*;

verus! {

/// The cell `k` cells after `start` in a ring of `len` cells.
pub open spec fn cell_after(start: int, k: int, len: int) -> int {
    if start + k < len {
        start + k
    } else {
        start + k - len
    }
}

/// The distance from the cell `start` onwards to `cell` in a ring of `len` cells.
pub open spec fn distance(start: int, cell: int, len: int) -> int {
    if start <= cell {
        cell - start
    } else {
        cell - start + len
    }
}

/// A ring after `samples` have been put into the cells from `start` on.
pub open spec fn ring_store<S>(mem: Seq<S>, start: int, samples: Seq<S>) -> Seq<S> {
    Seq::new(
        mem.len(),
        |cell: int|
            if distance(start, cell, mem.len() as int) < samples.len() {
                samples[distance(start, cell, mem.len() as int)]
            } else {
                mem[cell]
            },
    )
}

/// The contents of `n` cells of a ring from `start` on.
pub open spec fn ring_load<S>(mem: Seq<S>, start: int, n: int) -> Seq<S> {
    Seq::new(n as nat, |k: int| mem[cell_after(start, k, mem.len() as int)])
}

/// What is put into a ring is found in it, and the other cells stay as they were.
pub proof fn law_ring_holds_what_is_stored<S>(mem: Seq<S>, start: int, samples: Seq<S>)
    requires
        0 <= start < mem.len(),
        samples.len() <= mem.len(),
    ensures
        ring_load(ring_store(mem, start, samples), start, samples.len() as int) == samples,
        forall|k: int|
            samples.len() <= k < mem.len() ==> #[trigger] ring_store(
                mem,
                start,
                samples,
            )[cell_after(start, k, mem.len() as int)] == mem[cell_after(
                start,
                k,
                mem.len() as int,
            )],
{
    assert(ring_load(ring_store(mem, start, samples), start, samples.len() as int) =~= samples);
}

/// To store samples in two goes is to store them at once.
pub proof fn law_ring_stores_add_up<S>(mem: Seq<S>, start: int, first: Seq<S>, second: Seq<S>)
    requires
        0 <= start < mem.len(),
        first.len() + second.len() <= mem.len(),
    ensures
        ring_store(
            ring_store(mem, start, first),
            cell_after(start, first.len() as int, mem.len() as int),
            second,
        ) == ring_store(mem, start, first + second),
{
    assert(ring_store(
        ring_store(mem, start, first),
        cell_after(start, first.len() as int, mem.len() as int),
        second,
    ) =~= ring_store(mem, start, first + second));
}

/// To load cells in two goes is to load them at once.
pub proof fn law_ring_loads_add_up<S>(mem: Seq<S>, start: int, m: int, n: int)
    requires
        0 <= start < mem.len(),
        0 <= m,
        0 <= n,
        m + n <= mem.len(),
    ensures
        ring_load(mem, start, m) + ring_load(mem, cell_after(start, m, mem.len() as int), n)
            == ring_load(mem, start, m + n),
{
    assert(ring_load(mem, start, m) + ring_load(mem, cell_after(start, m, mem.len() as int), n)
        =~= ring_load(mem, start, m + n));
}

/// Cells are counted on around the end of the ring, and the distance to a cell is how far one has
/// to count on to come to it.
pub proof fn law_cells_are_counted_around_the_end(start: int, k: int, len: int)
    requires
        0 <= start < len,
        0 <= k < len,
    ensures
        cell_after(start, k, len) == (start + k) % len,
        distance(start, (start + k) % len, len) == k,
{
    if start + k < len {
        lemma_small_mod((start + k) as nat, len as nat);
    } else {
        lemma_small_mod((start + k - len) as nat, len as nat);
        lemma_mod_sub_multiples_vanish(start + k, len);
    }
}

/// Samples that are stored from a cell on lie in that cell and those that follow it around the end
/// of the ring, each in one cell. The cells after them keep what they held.
pub proof fn law_stored_samples_lie_one_after_the_other<S>(
    mem: Seq<S>,
    start: int,
    samples: Seq<S>,
    k: int,
)
    requires
        0 <= start < mem.len(),
        samples.len() <= mem.len(),
        0 <= k < mem.len(),
    ensures
        ring_store(mem, start, samples).len() == mem.len(),
        k < samples.len() ==> ring_store(mem, start, samples)[(start + k) % (mem.len() as int)]
            == samples[k],
        k >= samples.len() ==> ring_store(mem, start, samples)[(start + k) % (mem.len() as int)]
            == mem[(start + k) % (mem.len() as int)],
{
    law_cells_are_counted_around_the_end(start, k, mem.len() as int);
}

/// Samples are loaded from a cell and those that follow it around the end of the ring.
pub proof fn law_loaded_samples_lie_one_after_the_other<S>(mem: Seq<S>, start: int, n: int, k: int)
    requires
        0 <= start < mem.len(),
        0 <= k < n <= mem.len(),
    ensures
        ring_load(mem, start, n).len() == n,
        ring_load(mem, start, n)[k] == mem[(start + k) % (mem.len() as int)],
{
    law_cells_are_counted_around_the_end(start, k, mem.len() as int);
}

} // verus!
