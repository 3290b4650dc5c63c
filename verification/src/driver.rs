//! Simulation of an automaton on every binary row of a given width, the rows
//! handed out to workers in contiguous chunks.

use crate::ca::{CaView, CA};
use crate::enumerate::{all_rows, permutations};
use crate::error::CaError;
use crate::evolution::{history, is_row};
use crate::grid::{row_views, shape_fits};
use crate::rule::Rule;
use itertools::Itertools;
use vstd::arithmetic::div_mod::{lemma_fundamental_div_mod, lemma_mod_bound};
use vstd::arithmetic::mul::{lemma_mul_inequality, lemma_mul_is_commutative};
use vstd::arithmetic::power2::pow2;
use vstd::prelude::*;

verus! {

/// An automaton of rule `table` on the initial row `row`, simulated for `len`
/// generations.
pub open spec fn simulated(table: Seq<u8>, row: Seq<u8>, len: nat) -> CaView {
    CaView { rule: table, input: row, history: Some(history(table, row, len)) }
}

/// One simulated automaton for each of `rows`, in their order.
pub open spec fn run_of(table: Seq<u8>, rows: Seq<Seq<u8>>, len: nat) -> Seq<CaView> {
    Seq::new(rows.len(), |k: int| simulated(table, rows[k], len))
}

/// The automata that a vector holds, as plain values.
pub open spec fn ca_views(automata: Seq<CA>) -> Seq<CaView> {
    Seq::new(automata.len(), |k: int| automata[k]@)
}

/// The initial rows of a sequence of automata.
pub open spec fn inputs_of(automata: Seq<CaView>) -> Seq<Seq<u8>> {
    Seq::new(automata.len(), |k: int| automata[k].input)
}

/// The rows that a vector of chunks holds, chunk by chunk.
pub open spec fn chunk_views(chunks: Seq<Vec<Vec<u8>>>) -> Seq<Seq<Seq<u8>>> {
    Seq::new(chunks.len(), |j: int| row_views(chunks[j]@))
}

/// The number of workers: the number asked for, else what the host offers.
pub open spec fn effective_threads_spec(num_threads: Option<usize>, available: usize) -> usize {
    match num_threads {
        Some(n) => n,
        None => available,
    }
}

/// The size of the chunks into which `total` inputs are split for `threads`
/// workers: `total / threads`, and 1 where that is 0.
pub open spec fn chunk_len(total: nat, threads: nat) -> nat {
    if total / threads == 0 {
        1
    } else {
        total / threads
    }
}

/// How many chunks of `size` items it takes to hold `total` items.
pub open spec fn chunk_count(total: nat, size: nat) -> nat {
    ((total + size - 1) / (size as int)) as nat
}

/// Where chunk `j` starts among `total` items; past the last chunk it is
/// `total`.
pub open spec fn chunk_start(total: nat, size: nat, j: int) -> int {
    if j * size <= total {
        j * size
    } else {
        total as int
    }
}

/// Chunk `j` of `items`: the `size` items from `j * size` on, fewer where
/// `items` ends before.
pub open spec fn chunk_at<A>(items: Seq<A>, size: nat, j: int) -> Seq<A> {
    items.subrange(chunk_start(items.len(), size, j), chunk_start(items.len(), size, j + 1))
}

/// `items` cut into contiguous chunks of `size` items, the last one shorter
/// where `size` does not divide their number.
pub open spec fn partition<A>(items: Seq<A>, size: nat) -> Seq<Seq<A>> {
    Seq::new(chunk_count(items.len(), size), |j: int| chunk_at(items, size, j))
}

/// What the workers return, one sequence of automata for each chunk of the
/// enumeration of width `width`, when the rows are split for `threads`
/// workers.
pub open spec fn worker_runs(table: Seq<u8>, width: nat, len: nat, threads: nat) -> Seq<
    Seq<CaView>,
> {
    Seq::new(
        chunk_count(pow2(width), chunk_len(pow2(width), threads)),
        |j: int| run_of(table, chunk_at(all_rows(width), chunk_len(pow2(width), threads), j), len),
    )
}

/// Every chunk before the last is full and starts at `j * size`; chunks are
/// never empty, and the last one ends where the items end.
pub proof fn lemma_chunk_bounds(total: nat, size: nat, j: int)
    requires
        size >= 1,
        0 <= j < chunk_count(total, size),
    ensures
        chunk_start(total, size, j) == j * size,
        j * size < total,
        chunk_start(total, size, j) < chunk_start(total, size, j + 1) <= total,
        chunk_start(total, size, j + 1) - chunk_start(total, size, j) <= size,
        chunk_start(total, size, chunk_count(total, size) as int) == total,
{
    let count = chunk_count(total, size) as int;
    let padded = total + size - 1;
    lemma_fundamental_div_mod(padded, size as int);
    lemma_mod_bound(padded, size as int);
    // size * count <= total + size - 1 < size * count + size
    assert(size * count <= padded < size * count + size);
    lemma_mul_is_commutative(size as int, count);
    assert(count * size >= total);
    assert((count - 1) * size < total) by (nonlinear_arith)
        requires
            count * size <= total + size - 1,
            size >= 1,
    ;
    assert(j * size <= (count - 1) * size) by {
        lemma_mul_inequality(j, count - 1, size as int);
    }
    assert((j + 1) * size == j * size + size) by (nonlinear_arith);
    assert(count * size <= total ==> count * size == total);
}

/// The first `j` chunks, one after the other, are the items before chunk `j`.
proof fn lemma_partition_prefix<A>(items: Seq<A>, size: nat, j: int)
    requires
        size >= 1,
        0 <= j <= chunk_count(items.len(), size),
    ensures
        partition(items, size).take(j).flatten() == items.take(
            chunk_start(items.len(), size, j),
        ),
    decreases j,
{
    let parts = partition(items, size);
    if j == 0 {
        assert(0 * size == 0) by (nonlinear_arith);
        assert(parts.take(0) =~= Seq::<Seq<A>>::empty());
        assert(parts.take(0).flatten() =~= items.take(0));
    } else {
        lemma_partition_prefix(items, size, j - 1);
        lemma_chunk_bounds(items.len(), size, j - 1);
        assert(parts.take(j) =~= parts.take(j - 1).push(parts[j - 1]));
        parts.take(j - 1).lemma_flatten_push(parts[j - 1]);
        assert(items.take(chunk_start(items.len(), size, j - 1)) + chunk_at(items, size, j - 1)
            =~= items.take(chunk_start(items.len(), size, j)));
    }
}

/// Partition law: the chunks of a partition, one after the other, are the
/// items themselves, so that every item is in exactly one chunk.
pub proof fn lemma_partition_flatten<A>(items: Seq<A>, size: nat)
    requires
        size >= 1,
    ensures
        partition(items, size).flatten() == items,
{
    let parts = partition(items, size);
    let count = chunk_count(items.len(), size) as int;
    lemma_partition_prefix(items, size, count);
    if count > 0 {
        lemma_chunk_bounds(items.len(), size, 0);
    } else {
        // with no chunk there is no item
        let padded = items.len() + size - 1;
        lemma_fundamental_div_mod(padded, size as int);
        lemma_mod_bound(padded, size as int);
        assert(size * 0 == 0) by (nonlinear_arith);
        assert(0 * size == 0) by (nonlinear_arith);
    }
    assert(parts.take(count) =~= parts);
    assert(items.take(items.len() as int) =~= items);
}

/// The results of the workers, one after the other, are the simulated
/// automata of the whole enumeration in its order, whatever the number of
/// workers.
pub proof fn lemma_worker_runs_flatten(table: Seq<u8>, width: nat, len: nat, threads: nat)
    requires
        threads >= 1,
    ensures
        worker_runs(table, width, len, threads).flatten() == run_of(table, all_rows(width), len),
{
    let size = chunk_len(pow2(width), threads);
    let rows = all_rows(width);
    let whole = run_of(table, rows, len);
    let runs = worker_runs(table, width, len, threads);
    assert(runs =~= partition(whole, size)) by {
        assert forall|j: int| 0 <= j < runs.len() implies runs[j] == partition(whole, size)[j] by {
            lemma_chunk_bounds(rows.len(), size, j);
            assert(run_of(table, chunk_at(rows, size, j), len) =~= chunk_at(whole, size, j));
        }
    }
    lemma_partition_flatten(whole, size);
}

/// Thread independence: for any two positive numbers of workers, the automata
/// returned, compared by rule, initial row and history, are the same
/// multiset.
pub proof fn lemma_thread_independence(
    table: Seq<u8>,
    width: nat,
    len: nat,
    threads_a: nat,
    threads_b: nat,
)
    requires
        threads_a >= 1,
        threads_b >= 1,
    ensures
        worker_runs(table, width, len, threads_a).flatten().to_multiset() == worker_runs(
            table,
            width,
            len,
            threads_b,
        ).flatten().to_multiset(),
{
    lemma_worker_runs_flatten(table, width, len, threads_a);
    lemma_worker_runs_flatten(table, width, len, threads_b);
}

/// Driver completeness: the automata of a run are as many as the rows of the
/// enumeration, and their initial rows are those rows, each once.
pub proof fn lemma_run_is_complete(table: Seq<u8>, width: nat, len: nat)
    ensures
        run_of(table, all_rows(width), len).len() == pow2(width),
        inputs_of(run_of(table, all_rows(width), len)) == all_rows(width),
        inputs_of(run_of(table, all_rows(width), len)).to_multiset() == all_rows(
            width,
        ).to_multiset(),
{
    assert(inputs_of(run_of(table, all_rows(width), len)) =~= all_rows(width));
}

/// The number of workers to use: `num_threads` where it is given, else
/// `available`, the parallelism that the host reports.
pub fn effective_threads(num_threads: Option<usize>, available: usize) -> (threads: usize)
    ensures
        threads == effective_threads_spec(num_threads, available),
{
    match num_threads {
        Some(n) => n,
        None => available,
    }
}

/// The chunk size for `total` inputs and `threads` workers.
pub fn chunk_size(total: usize, threads: usize) -> (size: usize)
    requires
        threads >= 1,
    ensures
        size == chunk_len(total as nat, threads as nat),
        size >= 1,
{
    match total / threads {
        0 => 1,
        _ => total / threads,
    }
}

/// `Itertools::chunks` on the rows, each chunk collected into a vector:
/// chunk after chunk of `size` rows in their order, the last chunk shorter
/// where the rows run out, and no chunk empty. The call panics when `size` is
/// 0.
#[verifier::external_body]
fn chunks(rows: Vec<Vec<u8>>, size: usize) -> (chunks: Vec<Vec<Vec<u8>>>)
    requires
        size >= 1,
    ensures
        chunk_views(chunks@) == partition(row_views(rows@), size as nat),
{
    rows.into_iter().chunks(size).into_iter().map(|chunk| chunk.collect_vec()).collect()
}

/// The inputs of all workers: every binary row of width `input_size`, in
/// contiguous chunks of `chunk_size(2^input_size, threads)` rows.
pub fn input_chunks(input_size: usize, threads: usize) -> (chunks: Vec<Vec<Vec<u8>>>)
    requires
        pow2(input_size as nat) <= usize::MAX,
        threads >= 1,
    ensures
        chunk_views(chunks@) == partition(
            all_rows(input_size as nat),
            chunk_len(pow2(input_size as nat), threads as nat),
        ),
{
    let perms = permutations(input_size);
    let chunk_size = chunk_size(perms.len(), threads);
    chunks(perms, chunk_size)
}

/// The work of one worker: an automaton for each row of the chunk, in the
/// order of the chunk, each simulated for `sim_length` generations.
pub fn simulate_chunk(rule: Rule, chunk: Vec<Vec<u8>>, sim_length: usize) -> (results: Vec<CA>)
    requires
        sim_length >= 1,
        forall|k: int|
            0 <= k < chunk@.len() ==> is_row(#[trigger] chunk@[k]@) && shape_fits(
                sim_length as nat,
                chunk@[k]@.len(),
            ),
    ensures
        ca_views(results@) == run_of(rule@, row_views(chunk@), sim_length as nat),
{
    let ghost rows = chunk@;
    let mut results: Vec<CA> = Vec::new();
    for input in it: chunk
        invariant
            sim_length >= 1,
            it.seq() == rows,
            forall|k: int|
                0 <= k < rows.len() ==> is_row(#[trigger] rows[k]@) && shape_fits(
                    sim_length as nat,
                    rows[k]@.len(),
                ),
            results@.len() == it.index(),
            forall|k: int|
                0 <= k < results@.len() ==> (#[trigger] results@[k])@ == simulated(
                    rule@,
                    rows[k]@,
                    sim_length as nat,
                ),
    {
        let mut ca = CA::new(rule, input);
        ca.simulate(sim_length);
        results.push(ca);
    }
    proof {
        assert(ca_views(results@) =~= run_of(rule@, row_views(rows), sim_length as nat));
    }
    results
}

/// What the driver hands back once every worker has been joined: all the
/// automata where no worker failed; else the failure and no automaton, with
/// the number of workers that failed and the message of the first of them.
pub fn join_outcome(results: Vec<CA>, failures: Vec<String>) -> (r: Result<Vec<CA>, CaError>)
    ensures
        failures@.len() == 0 ==> r == Ok::<Vec<CA>, CaError>(results),
        failures@.len() > 0 ==> r == Err::<Vec<CA>, CaError>(
            CaError::WorkerFailure { count: failures@.len() as usize, first: failures@[0] },
        ),
{
    let mut failures = failures;
    let count = failures.len();
    if count == 0 {
        Ok(results)
    } else {
        let first = failures.swap_remove(0);
        Err(CaError::WorkerFailure { count, first })
    }
}

/// Simulate an automaton with the given rule for all possible initial input
/// states of width `input_size`, each for `sim_length` generations.
///
/// The rows are split into chunks for `threads` workers; here the chunks are
/// worked off one after the other, so the automata come back in the order of
/// the enumeration. The number of workers has no part in what is returned.
/// The memory that this takes grows as `2^input_size * sim_length *
/// input_size`.
pub fn simulate_permutations(
    rule: Rule,
    input_size: usize,
    sim_length: usize,
    threads: usize,
) -> (results: Vec<CA>)
    requires
        pow2(input_size as nat) <= usize::MAX,
        sim_length >= 1,
        threads >= 1,
        shape_fits(sim_length as nat, input_size as nat),
    ensures
        results@.len() == pow2(input_size as nat),
        ca_views(results@) == run_of(rule@, all_rows(input_size as nat), sim_length as nat),
        ca_views(results@) == worker_runs(
            rule@,
            input_size as nat,
            sim_length as nat,
            threads as nat,
        ).flatten(),
        inputs_of(ca_views(results@)).to_multiset() == all_rows(input_size as nat).to_multiset(),
{
    let ghost width = input_size as nat;
    let ghost len = sim_length as nat;
    let ghost size = chunk_len(pow2(width), threads as nat);
    let ghost rows = all_rows(width);
    let input_chunks = input_chunks(input_size, threads);
    let ghost parts = chunk_views(input_chunks@);
    let ghost all_chunks = input_chunks@;
    assert(all_chunks.len() == parts.len());
    let mut results: Vec<CA> = Vec::new();
    let ghost mut done: int = 0;
    for chunk in it: input_chunks
        invariant
            done == it.index(),
            sim_length >= 1,
            size >= 1,
            len == sim_length,
            it.seq() == all_chunks,
            all_chunks.len() == chunk_count(rows.len(), size),
            parts == chunk_views(all_chunks),
            parts == partition(rows, size),
            rows == all_rows(width),
            shape_fits(len, width),
            ca_views(results@) == run_of(rule@, rows.take(chunk_start(rows.len(), size, done)), len),
    {
        let ghost j = it.index();
        proof {
            lemma_chunk_bounds(rows.len(), size, j);
            assert(row_views(chunk@) == parts[j]);
            assert(parts[j] == chunk_at(rows, size, j));
            assert forall|k: int| 0 <= k < chunk@.len() implies is_row(#[trigger] chunk@[k]@)
                && shape_fits(len, chunk@[k]@.len()) by {
                assert(row_views(chunk@)[k] == chunk@[k]@);
                assert(chunk@[k]@ == rows[chunk_start(rows.len(), size, j) + k]);
            }
        }
        let ghost before = ca_views(results@);
        let mut part = simulate_chunk(rule, chunk, sim_length);
        let ghost added = ca_views(part@);
        results.append(&mut part);
        proof {
            assert(ca_views(results@) =~= before + added);
            assert(before + added =~= run_of(
                rule@,
                rows.take(chunk_start(rows.len(), size, j + 1)),
                len,
            ));
            done = done + 1;
        }
    }
    proof {
        let count = chunk_count(rows.len(), size) as int;
        assert(done == count);
        if count > 0 {
            lemma_chunk_bounds(rows.len(), size, 0);
        }
        assert(rows.take(rows.len() as int) =~= rows);
        lemma_worker_runs_flatten(rule@, width, len, threads as nat);
        lemma_run_is_complete(rule@, width, len);
    }
    results
}

} // verus!
