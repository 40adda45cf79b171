use exercises::control_flow::{
    conditional_loops_with_while, control_flow_questions, countdown_with_for, loop_labels,
    looping_through_collection_with_for, repeating_code_with_loop, returning_values_from_loops,
    Step,
};

#[test]
fn repeating_code_makes_three_passes() {
    assert_eq!(repeating_code_with_loop(), 3);
}

#[test]
fn loop_returns_twice_ten() {
    assert_eq!(returning_values_from_loops(), 20);
}

#[test]
fn labelled_loops_pass_through_eight_steps() {
    let (steps, count) = loop_labels();
    assert_eq!(
        steps,
        vec![
            Step::Count(0),
            Step::Remaining(10),
            Step::Remaining(9),
            Step::Count(1),
            Step::Remaining(10),
            Step::Remaining(9),
            Step::Count(2),
            Step::Remaining(10),
        ]
    );
    assert_eq!(count, 2);
}

#[test]
fn labelled_loops_end_on_the_outer_counter() {
    let (steps, count) = loop_labels();
    let counts: Vec<i32> = steps
        .iter()
        .filter_map(|step| match step {
            Step::Count(c) => Some(*c),
            Step::Remaining(_) => None,
        })
        .collect();
    assert_eq!(counts, vec![0, 1, 2]);
    assert_eq!(counts.last(), Some(&count));
    assert_eq!(steps.last(), Some(&Step::Remaining(10)));
}

#[test]
fn while_counts_down_from_three() {
    assert_eq!(conditional_loops_with_while(), vec![3, 2, 1]);
}

#[test]
fn for_walks_the_array_in_order() {
    assert_eq!(looping_through_collection_with_for(), vec![10, 20, 30, 40, 50]);
}

#[test]
fn for_counts_down_from_three() {
    assert_eq!(countdown_with_for(), vec![3, 2, 1]);
}

#[test]
fn both_countdowns_agree() {
    assert_eq!(countdown_with_for(), conditional_loops_with_while());
}

#[test]
fn questions_end_with_counter_one_and_sum_fifty() {
    assert_eq!(control_flow_questions(), (1, 50));
}
