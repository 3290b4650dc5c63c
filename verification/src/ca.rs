use crate::error::CaError;
use crate::evolution::{
    count_cells, generation, history, is_row, lemma_count_law, lemma_generation_is_row,
    neighborhood, next_cell, next_row, zero_row,
};
use crate::grid::{
    grid_cells, grid_dim, grid_get, grid_set, grid_sum, grid_width, grid_zeros, shape_fits, Grid,
};
use crate::rule::{is_table, Rule};
use rand::rngs::ThreadRng;
use rand::Rng;
use vstd::prelude::*;

pub use crate::driver::simulate_permutations;
pub use crate::enumerate::permutations;

verus! {

/// What an automaton is, as plain values: its rule table by neighbourhood
/// code, its initial row, and its history grid once it has been simulated.
pub struct CaView {
    pub rule: Seq<u8>,
    pub input: Seq<u8>,
    pub history: Option<Seq<Seq<u8>>>,
}

/// Cellular automaton: a rule, an initial row, and the history of the row
/// under the rule once [`CA::simulate`] has computed it.
#[derive(Debug)]
pub struct CA {
    rule: Rule,
    input: Vec<u8>,
    output: Option<Grid>,
}

impl View for CA {
    type V = CaView;

    closed spec fn view(&self) -> CaView {
        CaView {
            rule: self.rule@,
            input: self.input@,
            history: match self.output {
                Some(grid) => Some(grid@),
                None => None,
            },
        }
    }
}

impl CA {
    /// The initial row is a row of cells, and a history that is present is the
    /// history of that row under the rule, one generation at least.
    #[verifier::type_invariant]
    spec fn well_formed(self) -> bool {
        &&& is_row(self.input@)
        &&& self.output matches Some(grid) ==> {
            &&& grid@.len() >= 1
            &&& grid_width(grid) == self.input@.len()
            &&& shape_fits(grid@.len(), self.input@.len())
            &&& grid@ == history(self.rule@, self.input@, grid@.len())
        }
    }

    /// Build an automaton from a rule and an initial row of cells. Nothing is
    /// evaluated: the history is absent.
    pub fn new(rule: Rule, input: Vec<u8>) -> (ca: CA)
        requires
            is_row(input@),
        ensures
            ca@ == (CaView { rule: rule@, input: input@, history: None }),
    {
        CA { rule, input, output: None }
    }

    /// Compute and store the history of `len` generations, replacing any
    /// earlier one. Row 0 is the initial row; each later row follows from the
    /// one before it: an interior cell is what the rule gives for the three
    /// cells above it, the first and the last cell are 0.
    pub fn simulate(&mut self, len: usize)
        requires
            len >= 1,
            shape_fits(len as nat, old(self)@.input.len()),
        ensures
            final(self)@.rule == old(self)@.rule,
            final(self)@.input == old(self)@.input,
            final(self)@.history == Some(history(old(self)@.rule, old(self)@.input, len as nat)),
            final(self)@.history->0[0] == old(self)@.input,
    {
        proof {
            use_type_invariant(&*self);
            use_type_invariant(&self.rule);
        }
        let ghost table = self.rule@;
        let ghost row = self.input@;
        let width = self.input.len();
        // build the output matrix
        let mut res = grid_zeros(len, width);

        // assign the input to the first row of the output
        for i in 0..width
            invariant
                len >= 1,
                width == self.input.len(),
                row == self.input@,
                grid_width(res) == width,
                grid_cells(res).len() == len,
                forall|t: int| 1 <= t < len ==> #[trigger] grid_cells(res)[t] == zero_row(width as nat),
                grid_cells(res)[0].len() == width,
                forall|c: int| 0 <= c < i ==> #[trigger] grid_cells(res)[0][c] == row[c],
        {
            grid_set(&mut res, 0, i, self.input[i]);
        }
        assert(grid_cells(res)[0] =~= generation(table, row, 0));

        // compute the outputs for N=len steps
        for sim in 0..len - 1
            invariant
                len >= 1,
                width == self.input.len(),
                table == self.rule@,
                row == self.input@,
                is_table(table),
                is_row(row),
                grid_width(res) == width,
                grid_cells(res).len() == len,
                forall|t: int| 0 <= t <= sim ==> #[trigger] grid_cells(res)[t] == generation(table, row, t as nat),
                forall|t: int| sim < t < len ==> #[trigger] grid_cells(res)[t] == zero_row(width as nat),
        {
            let ghost before = grid_cells(res);
            let ghost prev = generation(table, row, sim as nat);
            proof {
                lemma_generation_is_row(table, row, sim as nat);
                assert(before[sim as int] == prev);
                assert(before[sim + 1] == zero_row(width as nat));
            }
            if width >= 2 {
                for i in 1..width - 1
                    invariant
                        width >= 2,
                        sim + 1 < len,
                        width == self.input.len(),
                        table == self.rule@,
                        is_table(table),
                        is_row(prev),
                        prev.len() == width,
                        grid_width(res) == width,
                        grid_cells(res).len() == len,
                        forall|t: int|
                            0 <= t < len && t != sim + 1 ==> #[trigger] grid_cells(res)[t]
                                == before[t],
                        before.len() == len,
                        before[sim as int] == prev,
                        grid_cells(res)[sim + 1].len() == width,
                        forall|c: int|
                            0 <= c < i ==> #[trigger] grid_cells(res)[sim + 1][c] == next_cell(
                                table,
                                prev,
                                c,
                            ),
                        forall|c: int| i <= c < width ==> #[trigger] grid_cells(res)[sim + 1][c] == 0,
                {
                    let neighbors = self.cells_to_neighbors(i, sim, &res);
                    let cell_output = self.rule.lookup(neighbors);
                    grid_set(&mut res, sim + 1, i, cell_output);
                }
            }
            assert(grid_cells(res)[sim + 1] =~= next_row(table, prev));
        }

        proof {
            assert(grid_cells(res) =~= history(table, row, len as nat));
        }
        self.output = Some(res);
    }

    /// The rule of the automaton.
    pub fn rule(&self) -> (rule: Rule)
        ensures
            rule@ == self@.rule,
            is_table(rule@),
    {
        proof {
            use_type_invariant(&self.rule);
        }
        self.rule
    }

    /// Return the initial state of the automaton.
    pub fn input(&self) -> (row: Vec<u8>)
        ensures
            row@ == self@.input,
            is_row(row@),
    {
        proof {
            use_type_invariant(self);
        }
        self.input.clone()
    }

    /// The history grid, once the automaton has been simulated.
    pub fn history(&self) -> (r: Result<&Grid, CaError>)
        ensures
            match self@.history {
                Some(cells) => r matches Ok(grid) && grid_cells(*grid) == cells && grid_width(*grid)
                    == self@.input.len(),
                None => r == Err::<&Grid, CaError>(CaError::NotSimulated),
            },
    {
        proof {
            use_type_invariant(self);
        }
        match &self.output {
            Some(grid) => Ok(grid),
            None => Err(CaError::NotSimulated),
        }
    }

    /// Count the number of cells in an "on" state over the whole history.
    pub fn num_cells_on(&self) -> (r: Result<usize, CaError>)
        ensures
            match self@.history {
                Some(cells) => r matches Ok(n) && n == count_cells(cells, 1),
                None => r == Err::<usize, CaError>(CaError::NotSimulated),
            },
    {
        proof {
            use_type_invariant(self);
            use_type_invariant(&self.rule);
        }
        match &self.output {
            Some(grid) => {
                proof {
                    let len = grid@.len();
                    lemma_count_law(self.rule@, self.input@, len);
                    lemma_cells_fit(len, self.input@.len());
                }
                Ok(grid_sum(grid))
            },
            None => Err(CaError::NotSimulated),
        }
    }

    /// Count the number of cells in an "off" state over the whole history.
    /// Together with the cells that are on they are all `L * W` cells of the
    /// grid.
    pub fn num_cells_off(&self) -> (r: Result<usize, CaError>)
        ensures
            match self@.history {
                Some(cells) => r matches Ok(n) && n == count_cells(cells, 0) && n + count_cells(
                    cells,
                    1,
                ) == cells.len() * self@.input.len(),
                None => r == Err::<usize, CaError>(CaError::NotSimulated),
            },
    {
        proof {
            use_type_invariant(self);
            use_type_invariant(&self.rule);
        }
        match &self.output {
            Some(grid) => {
                proof {
                    let len = grid@.len();
                    lemma_count_law(self.rule@, self.input@, len);
                    lemma_cells_fit(len, self.input@.len());
                }
                let num_on = grid_sum(grid);
                let shape = grid_dim(grid);
                let total_count: usize = shape.0 * shape.1;
                Ok(total_count - num_on)
            },
            None => Err(CaError::NotSimulated),
        }
    }

    /// Encode the neighbors centered around a given index of a row of the grid
    /// as a `u8`: `left * 4 + center * 2 + right`.
    #[inline]
    fn cells_to_neighbors(&self, idx: usize, row: usize, grid: &Grid) -> (code: u8)
        requires
            row < grid_cells(*grid).len(),
            1 <= idx < usize::MAX,
            idx + 1 < grid_cells(*grid)[row as int].len(),
            is_row(grid_cells(*grid)[row as int]),
        ensures
            code == neighborhood(
                grid_cells(*grid)[row as int][idx - 1],
                grid_cells(*grid)[row as int][idx as int],
                grid_cells(*grid)[row as int][idx + 1],
            ),
            code < 8,
    {
        let left: u8 = grid_get(grid, row, idx - 1);
        let center: u8 = grid_get(grid, row, idx);
        let right: u8 = grid_get(grid, row, idx + 1);

        // build a u8 representation of the neighborhood using the final 3 bits of a u8
        let r1: u8 = left << 2;
        let r2: u8 = center << 1;
        let r3: u8 = right;

        // superimpose the 3 cells into a single u8
        let result: u8 = r1 | r2 | r3;
        assert(result == 4 * left + 2 * center + right) by (bit_vector)
            requires
                left <= 1,
                center <= 1,
                right <= 1,
                result == (left << 2) | (center << 1) | right,
        ;
        result
    }
}

/// Determinism: two automata with the same rule and the same initial row,
/// each simulated for `len` generations, hold the same history.
pub proof fn lemma_simulate_deterministic(
    a: CaView,
    b: CaView,
    after_a: CaView,
    after_b: CaView,
    len: nat,
)
    requires
        a.rule == b.rule,
        a.input == b.input,
        after_a.history == Some(history(a.rule, a.input, len)),
        after_b.history == Some(history(b.rule, b.input, len)),
    ensures
        after_a.history == after_b.history,
{
}

/// A grid whose shape `ndarray` accepts holds a number of cells that fits in
/// `usize`.
proof fn lemma_cells_fit(rows: nat, cols: nat)
    requires
        rows >= 1,
        shape_fits(rows, cols),
    ensures
        rows * cols <= isize::MAX,
{
    if cols == 0 {
        assert(rows * cols == 0) by (nonlinear_arith)
            requires
                cols == 0,
        ;
    }
}

/// Generate a default input with a single "on" cell in the center, at index
/// `size / 2`.
pub fn new_default_input(size: usize) -> (input: Vec<u8>)
    requires
        size >= 1,
    ensures
        input@ == Seq::new(
            size as nat,
            |i: int|
                if i == size / 2 {
                    1u8
                } else {
                    0u8
                },
        ),
        is_row(input@),
{
    let mut input: Vec<u8> = vec![0; size];
    let middle = size / 2;
    input[middle] = 1;
    input
}

/// `rand::rngs::ThreadRng`, the handle to a thread's random number generator.
/// Nothing is known of what it holds.
#[verifier::external_type_specification]
#[verifier::external_body]
pub struct ExThreadRng(ThreadRng);

/// `rand::thread_rng`: a handle to the generator of the current thread.
#[verifier::external_body]
fn thread_rng() -> ThreadRng {
    rand::thread_rng()
}

/// `Rng::gen_range` over `low..=high`: a number drawn from that range. Which
/// one is left open: two calls may differ. The call panics on an empty range,
/// hence the `requires`.
#[verifier::external_body]
fn random_between(rng: &mut ThreadRng, low: u8, high: u8) -> (drawn: u8)
    requires
        low <= high,
    ensures
        low <= drawn <= high,
{
    rng.gen_range(low..=high)
}

/// Generate an input of `size` cells, each drawn at random.
pub fn random_input(size: usize) -> (input: Vec<u8>)
    ensures
        input@.len() == size,
        is_row(input@),
{
    let mut rng = thread_rng();
    let mut input: Vec<u8> = Vec::new();
    for i in 0..size
        invariant
            input@.len() == i,
            is_row(input@),
    {
        let cell = random_between(&mut rng, 0, 1);
        input.push(cell);
    }
    input
}

} // verus!
