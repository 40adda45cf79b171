//! Loops, each with the values it passes through stated exactly.

use vstd::prelude::*;

verus! {

/// Goes round a bare `loop` that is left by `break` in its third pass, and
/// returns how many passes were made.
pub fn repeating_code_with_loop() -> (count: i32)
    ensures
        count == 3,
{
    let mut count: i32 = 0;
    loop
        invariant_except_break
            0 <= count < 3,
        ensures
            count == 3,
        decreases 3 - count,
    {
        count += 1;
        if count == 3 {
            break;
        }
    }
    count
}

/// Counts to ten in a `loop` and leaves it with twice the counter.
pub fn returning_values_from_loops() -> (result: i32)
    ensures
        result == 20,
{
    let mut counter: i32 = 0;
    let mut result: i32 = 0;
    loop
        invariant_except_break
            0 <= counter < 10,
        ensures
            result == 20,
        decreases 10 - counter,
    {
        counter += 1;
        if counter == 10 {
            result = counter * 2;
            break;
        }
    }
    result
}

/// One value that the nested loops of [`loop_labels`] pass through.
#[derive(Clone, Copy, Debug, PartialEq, Eq, Structural)]
pub enum Step {
    /// The outer counter at the head of an outer pass.
    Count(i32),
    /// The inner counter at the head of an inner pass.
    Remaining(i32),
}

/// What [`loop_labels`] passes through: two full rounds of the inner loop,
/// then the outer counter at two and the inner one at ten.
pub open spec fn labelled_steps() -> Seq<Step> {
    seq![
        Step::Count(0),
        Step::Remaining(10),
        Step::Remaining(9),
        Step::Count(1),
        Step::Remaining(10),
        Step::Remaining(9),
        Step::Count(2),
        Step::Remaining(10),
    ]
}

/// Runs two nested loops. The inner one counts down from ten and is left
/// at nine by a plain `break`; the outer one counts up and is left from
/// within the inner one, by a `break` with its label, once it has reached
/// two. Returns the values passed through, in order, and the outer counter
/// at the end.
pub fn loop_labels() -> (run: (Vec<Step>, i32))
    ensures
        run.0@ == labelled_steps(),
        run.1 == 2,
{
    let mut steps: Vec<Step> = Vec::new();
    let mut count: i32 = 0;
    'counting_up: loop
        invariant_except_break
            0 <= count <= 2,
            steps@ == labelled_steps().take(3 * count),
        ensures
            count == 2,
            steps@ == labelled_steps(),
        decreases 2 - count,
    {
        steps.push(Step::Count(count));
        let mut remaining: i32 = 10;
        loop
            invariant_except_break
                9 <= remaining <= 10,
                remaining == 9 ==> count < 2,
                steps@ == labelled_steps().take(3 * count + 1 + (10 - remaining)),
            invariant
                0 <= count <= 2,
            ensures
                count < 2,
                steps@ == labelled_steps().take(3 * count + 3),
            decreases remaining,
        {
            steps.push(Step::Remaining(remaining));
            if remaining == 9 {
                break;
            }
            if count == 2 {
                break 'counting_up;
            }
            remaining -= 1;
        }
        count += 1;
    }
    (steps, count)
}

/// Counts down from three with a `while` loop that stops at zero, and
/// returns the numbers counted, in order.
pub fn conditional_loops_with_while() -> (numbers: Vec<i32>)
    ensures
        numbers@ == seq![3i32, 2, 1],
{
    let mut numbers: Vec<i32> = Vec::new();
    let mut number: i32 = 3;
    while number != 0
        invariant
            0 <= number <= 3,
            numbers@ == seq![3i32, 2, 1].take(3 - number),
        decreases number,
    {
        numbers.push(number);
        number -= 1;
    }
    numbers
}

/// Walks through an array of five numbers with a `for` loop and returns
/// them as they come.
pub fn looping_through_collection_with_for() -> (elements: Vec<i32>)
    ensures
        elements@ == seq![10i32, 20, 30, 40, 50],
{
    let a: [i32; 5] = [10, 20, 30, 40, 50];
    let mut elements: Vec<i32> = Vec::new();
    for element in it: a.as_slice().iter()
        invariant
            elements.len() == it.index(),
            forall|i: int| 0 <= i < elements.len() ==> elements@[i] == *it.seq()[i],
    {
        elements.push(*element);
    }
    assert(elements@ == a@);
    elements
}

/// Counts down from three with a `for` loop over a range, and returns the
/// numbers counted, in order.
pub fn countdown_with_for() -> (numbers: Vec<i32>)
    ensures
        numbers@ == seq![3i32, 2, 1],
{
    let mut numbers: Vec<i32> = Vec::new();
    for passed in 0i32..3
        invariant
            numbers@ == seq![3i32, 2, 1].take(passed as int),
    {
        numbers.push(3 - passed);
    }
    numbers
}

/// Answers two questions about loops by running them.
///
/// The first: an outer loop adds one to a counter that starts at zero; an
/// inner loop has the outer one start over while the counter is above ten
/// and is left otherwise, after which the outer loop is left too. It ends,
/// with the counter at one. The second: the sum of an array of ten fives,
/// taken with a `for` loop. Returns the counter and the sum.
pub fn control_flow_questions() -> (answers: (i32, i32))
    ensures
        answers.0 == 1,
        answers.1 == 50,
{
    let mut x: i32 = 0;
    loop
        invariant_except_break
            x == 0,
        ensures
            x == 1,
        decreases 10 - x,
    {
        x += 1;
        let mut start_over = false;
        loop
            invariant_except_break
                x == 1,
                !start_over,
            ensures
                x == 1,
                !start_over,
            decreases 10 - x,
        {
            if x > 10 {
                start_over = true;
                break;
            } else {
                break;
            }
        }
        if start_over {
            continue;
        }
        break;
    }
    let a: [i32; 10] = [5; 10];
    let mut sum: i32 = 0;
    for element in it: a.as_slice().iter()
        invariant
            forall|i: int| 0 <= i < it.seq().len() ==> *it.seq()[i] == 5,
            sum == 5 * it.index(),
            it.seq().len() == 10,
    {
        sum += *element;
    }
    (x, sum)
}

} // verus!
