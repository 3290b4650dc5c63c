use ca4rs::ca;
use ca4rs::driver::effective_threads;
use ca4rs::rule::Rule;

fn default_history(rule_number: u8, input_size: usize, len: usize) -> Vec<Vec<u8>> {
    let r = Rule::number(rule_number).unwrap();
    let input = ca::new_default_input(input_size);
    let mut ca = ca::CA::new(r, input);
    ca.simulate(len);
    ca.history().unwrap().to_rows()
}

#[test]
pub fn lib_basic() {
    let input_size = 301;

    for rule_number in [30, 110, 122, 126] {
        let r = Rule::number(rule_number).unwrap();
        let input = ca::new_default_input(input_size);
        let mut ca = ca::CA::new(r, input);
        ca.simulate(input_size);
        let output = ca.history().unwrap();
        assert_eq!(output.nrows(), input_size);
        assert_eq!(output.ncols(), input_size);
        let truncated_out: Vec<Vec<u8>> =
            output.to_rows().into_iter().take(input_size / 2).collect();
        assert_eq!(truncated_out.len(), 150);
        assert_eq!(truncated_out[0], ca::new_default_input(input_size));
        assert!(truncated_out.iter().all(|row| row.len() == input_size));
    }
}

#[test]
pub fn ca_basic() {
    let input_size = 301;

    let r = Rule::number(30).unwrap();
    let input = ca::new_default_input(input_size);
    let mut ca = ca::CA::new(r, input);
    ca.simulate(input_size / 2);
    let output = ca.history().unwrap();
    assert_eq!(output.nrows(), 150);
    assert_eq!(output.ncols(), 301);
    assert_eq!(output.get(0, 150), Some(1));
    assert_eq!(output.get(1, 149), Some(1));
    assert_eq!(output.get(1, 150), Some(1));
    assert_eq!(output.get(1, 151), Some(1));
    assert_eq!(output.get(1, 148), Some(0));
}

#[test]
pub fn generate_permuations() {
    let perms = ca::permutations(3);
    assert_eq!(perms.len(), 8);

    println!("{:?}", perms);
}

#[test]
pub fn simulate_permutations() {
    let threads = effective_threads(None, 4);
    let results = ca::simulate_permutations(Rule::number(30).unwrap(), 3, 100, threads);

    assert_eq!(results.len(), 8);
}

#[test]
pub fn random_input() {
    let input_size = 501;
    let rule_number = 122;

    let r = Rule::number(rule_number).unwrap();
    let input = ca::random_input(input_size);
    assert_eq!(input.len(), input_size);
    assert!(input.iter().all(|&cell| cell <= 1));
    let mut ca = ca::CA::new(r, input.clone());
    ca.simulate(input_size);
    let output = ca.history().unwrap();
    assert_eq!(output.nrows(), 501);
    assert_eq!(output.ncols(), 501);
    assert_eq!(output.to_rows()[0], input);
}

#[test]
fn rule_30_width_7_three_generations() {
    let r = Rule::number(30).unwrap();
    let mut ca = ca::CA::new(r, vec![0, 0, 0, 1, 0, 0, 0]);
    ca.simulate(3);
    assert_eq!(
        ca.history().unwrap().to_rows(),
        vec![
            vec![0, 0, 0, 1, 0, 0, 0],
            vec![0, 0, 1, 1, 1, 0, 0],
            vec![0, 1, 1, 0, 0, 1, 0],
        ]
    );
}

#[test]
fn rule_90_width_7_three_generations() {
    let r = Rule::number(90).unwrap();
    let mut ca = ca::CA::new(r, vec![0, 0, 0, 1, 0, 0, 0]);
    ca.simulate(3);
    assert_eq!(
        ca.history().unwrap().to_rows(),
        vec![
            vec![0, 0, 0, 1, 0, 0, 0],
            vec![0, 0, 1, 0, 1, 0, 0],
            vec![0, 1, 0, 0, 0, 1, 0],
        ]
    );
}

#[test]
fn rule_0_clears_every_row_past_the_first() {
    for (width, len) in [(3usize, 2usize), (7, 5), (12, 9)] {
        let r = Rule::number(0).unwrap();
        let input: Vec<u8> = (0..width).map(|i| (i % 2) as u8).collect();
        let mut ca = ca::CA::new(r, input.clone());
        ca.simulate(len);
        let rows = ca.history().unwrap().to_rows();
        assert_eq!(rows.len(), len);
        assert_eq!(rows[0], input);
        for row in &rows[1..] {
            assert_eq!(row, &vec![0u8; width]);
        }
    }
}

#[test]
fn rule_255_width_5_two_generations() {
    let r = Rule::number(255).unwrap();
    let mut ca = ca::CA::new(r, vec![0, 0, 0, 0, 0]);
    ca.simulate(2);
    assert_eq!(
        ca.history().unwrap().to_rows(),
        vec![vec![0, 0, 0, 0, 0], vec![0, 1, 1, 1, 0]]
    );
}

#[test]
fn history_row_0_is_the_input() {
    let input = vec![1, 0, 1, 1, 0, 0, 1, 0, 1];
    for rule_number in [0u8, 30, 90, 110, 184, 255] {
        let mut ca = ca::CA::new(Rule::number(rule_number).unwrap(), input.clone());
        ca.simulate(6);
        assert_eq!(ca.history().unwrap().to_rows()[0], input);
        assert_eq!(ca.input(), input);
    }
}

#[test]
fn one_generation_is_the_input_alone() {
    let mut ca = ca::CA::new(Rule::number(110).unwrap(), vec![0, 1, 1, 0]);
    ca.simulate(1);
    assert_eq!(ca.history().unwrap().to_rows(), vec![vec![0, 1, 1, 0]]);
}

#[test]
fn simulate_replaces_an_earlier_history() {
    let mut ca = ca::CA::new(Rule::number(90).unwrap(), vec![0, 0, 1, 0, 0]);
    ca.simulate(4);
    assert_eq!(ca.history().unwrap().nrows(), 4);
    ca.simulate(2);
    assert_eq!(
        ca.history().unwrap().to_rows(),
        vec![vec![0, 0, 1, 0, 0], vec![0, 1, 0, 1, 0]]
    );
}

#[test]
fn two_runs_give_the_same_history() {
    let input = vec![0, 1, 1, 0, 1, 0, 0, 1, 1, 0];
    let mut a = ca::CA::new(Rule::number(110).unwrap(), input.clone());
    let mut b = ca::CA::new(Rule::number(110).unwrap(), input);
    a.simulate(12);
    b.simulate(12);
    assert_eq!(a.history().unwrap().to_rows(), b.history().unwrap().to_rows());
}

#[test]
fn boundary_columns_keep_zero() {
    for rule_number in [30u8, 90, 110, 255] {
        let rows = default_history(rule_number, 9, 7);
        for row in &rows {
            assert_eq!(row[0], 0);
            assert_eq!(row[8], 0);
        }
    }
}

#[test]
fn boundary_cells_past_the_first_row_are_zero() {
    let mut ca = ca::CA::new(Rule::number(255).unwrap(), vec![1, 1, 1, 1]);
    ca.simulate(3);
    assert_eq!(
        ca.history().unwrap().to_rows(),
        vec![vec![1, 1, 1, 1], vec![0, 1, 1, 0], vec![0, 1, 1, 0]]
    );
}

#[test]
fn narrow_rows_have_no_interior() {
    let mut one = ca::CA::new(Rule::number(255).unwrap(), vec![1]);
    one.simulate(2);
    assert_eq!(one.history().unwrap().to_rows(), vec![vec![1], vec![0]]);
    let mut two = ca::CA::new(Rule::number(255).unwrap(), vec![1, 1]);
    two.simulate(2);
    assert_eq!(two.history().unwrap().to_rows(), vec![vec![1, 1], vec![0, 0]]);
    let mut none = ca::CA::new(Rule::number(255).unwrap(), vec![]);
    none.simulate(3);
    assert_eq!(none.history().unwrap().nrows(), 3);
    assert_eq!(none.history().unwrap().ncols(), 0);
    assert_eq!(none.num_cells_on(), Ok(0));
    assert_eq!(none.num_cells_off(), Ok(0));
}

#[test]
fn counts_of_rule_30() {
    let mut ca = ca::CA::new(Rule::number(30).unwrap(), vec![0, 0, 0, 1, 0, 0, 0]);
    ca.simulate(3);
    assert_eq!(ca.num_cells_on(), Ok(7));
    assert_eq!(ca.num_cells_off(), Ok(14));
}

#[test]
fn counts_add_up_to_all_cells() {
    for (rule_number, width, len) in [(30u8, 11usize, 8usize), (110, 16, 5), (0, 4, 9), (255, 6, 1)]
    {
        let r = Rule::number(rule_number).unwrap();
        let mut ca = ca::CA::new(r, ca::new_default_input(width));
        ca.simulate(len);
        let on = ca.num_cells_on().unwrap();
        let off = ca.num_cells_off().unwrap();
        assert_eq!(on + off, len * width);
        let rows = ca.history().unwrap().to_rows();
        let ones = rows.iter().flatten().filter(|&&cell| cell == 1).count();
        assert_eq!(on, ones);
    }
}

#[test]
fn observers_refuse_before_simulation() {
    let ca = ca::CA::new(Rule::number(30).unwrap(), vec![0, 1, 0]);
    assert_eq!(ca.num_cells_on(), Err(ca4rs::CaError::NotSimulated));
    assert_eq!(ca.num_cells_off(), Err(ca4rs::CaError::NotSimulated));
    assert!(matches!(ca.history(), Err(ca4rs::CaError::NotSimulated)));
}

#[test]
fn grid_get_answers_inside_only() {
    let mut ca = ca::CA::new(Rule::number(90).unwrap(), vec![0, 0, 1, 0, 0]);
    ca.simulate(2);
    let grid = ca.history().unwrap();
    assert_eq!(grid.nrows(), 2);
    assert_eq!(grid.ncols(), 5);
    assert_eq!(grid.get(0, 2), Some(1));
    assert_eq!(grid.get(1, 1), Some(1));
    assert_eq!(grid.get(1, 2), Some(0));
    assert_eq!(grid.get(1, 3), Some(1));
    assert_eq!(grid.get(2, 0), None);
    assert_eq!(grid.get(0, 5), None);
}

#[test]
fn default_input_has_one_cell_on_in_the_middle() {
    assert_eq!(ca::new_default_input(1), vec![1]);
    assert_eq!(ca::new_default_input(2), vec![0, 1]);
    assert_eq!(ca::new_default_input(7), vec![0, 0, 0, 1, 0, 0, 0]);
    assert_eq!(ca::new_default_input(8), vec![0, 0, 0, 0, 1, 0, 0, 0]);
}

#[test]
fn random_input_of_no_cells_is_empty() {
    assert_eq!(ca::random_input(0), Vec::<u8>::new());
}

#[test]
fn the_rule_of_an_automaton_is_kept() {
    let ca = ca::CA::new(Rule::number(30).unwrap(), vec![0, 1, 0]);
    let rule = ca.rule();
    for code in 0..8u8 {
        assert_eq!(rule.lookup(code), (30 >> code) & 1);
    }
}
