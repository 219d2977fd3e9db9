use xenos::bt::{bucket_allows, control_start, control_step, sorted_by_priority, Control, ControlStep, TaskInput};

/// Ticks tasks in `order` as the control node says; `outcomes[t]` is task
/// `t`'s result and `names[t]` is recorded when it is ticked.
fn run(kind: Control, order: &[usize], outcomes: &[bool], names: &[char]) -> (bool, String) {
    let mut results = String::new();
    let mut step = control_start(kind, order.len());
    loop {
        match step {
            ControlStep::Tick(i) => {
                let t = order[i];
                results.push(names[t]);
                step = control_step(kind, order.len(), i + 1, outcomes[t]);
            }
            ControlStep::Done(ok) => return (ok, results),
        }
    }
}

#[test]
fn test_priority_sorting() {
    // tasks a, b, c, d of priorities -1, 0, 5, 1; b fails
    let priorities = [-1i8, 0, 5, 1];
    let outcomes = [true, false, true, true];
    let names = ['a', 'b', 'c', 'd'];

    let order = sorted_by_priority(&priorities);

    let (ok, results) = run(Control::Selector, &order, &outcomes, &names);
    assert!(!ok, "Should have failed");

    // The order by priority is cdba, but stop the execution at 'b'
    assert_eq!(results, "cdb");
}

#[test]
fn equal_priorities_keep_their_order() {
    assert_eq!(sorted_by_priority(&[0, 1, 0, 1, 0]), vec![1, 3, 0, 2, 4]);
    assert_eq!(sorted_by_priority(&[]), Vec::<usize>::new());
}

#[test]
fn sequence_stops_at_first_success() {
    let names = ['a', 'b', 'c'];
    assert_eq!(run(Control::Sequence, &[0, 1, 2], &[false, true, true], &names), (true, "ab".to_string()));
    assert_eq!(run(Control::Sequence, &[0, 1, 2], &[false, false, false], &names), (false, "abc".to_string()));
    assert_eq!(run(Control::Sequence, &[], &[], &names), (false, String::new()));
}

#[test]
fn selector_and_all_run_to_the_end_on_success() {
    let names = ['a', 'b', 'c'];
    assert_eq!(run(Control::Selector, &[0, 1, 2], &[true, true, true], &names), (true, "abc".to_string()));
    assert_eq!(run(Control::All, &[0, 1, 2], &[false, false, true], &names), (true, "abc".to_string()));
    assert_eq!(run(Control::Selector, &[], &[], &names), (true, String::new()));
}

#[test]
fn bucket_requirement() {
    assert!(bucket_allows(None, 5000));
    assert!(bucket_allows(Some(5001), 5000));
    assert!(bucket_allows(Some(5000), 5000));
    assert!(!bucket_allows(Some(4999), 5000));
    assert!(bucket_allows(Some(0), -1));
    assert_eq!(().cpu_bucket(), None);
}
