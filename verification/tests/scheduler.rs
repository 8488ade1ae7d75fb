use lark_infer::type_check::full_inference::Base;
use lark_infer::type_check::scheduler::{DeferredOp, Scheduler};
use lark_infer::unify::InferVar;

fn op(id: usize) -> DeferredOp {
    DeferredOp { values: vec![Base { index: id }], op: id, equate: None }
}

fn scheduler_with(vars: usize) -> Scheduler {
    let mut scheduler = Scheduler::new();
    for _ in 0..vars {
        scheduler.add_variable();
    }
    scheduler
}

fn var(index: usize) -> InferVar {
    InferVar { index }
}

fn ids(ops: &[DeferredOp]) -> Vec<usize> {
    ops.iter().map(|op| op.op).collect()
}

fn unresolved(scheduler: &Scheduler) -> Vec<InferVar> {
    let mut output = Vec::new();
    scheduler.untriggered(&mut output);
    output
}

#[test]
fn a_new_scheduler_is_empty() {
    let scheduler = scheduler_with(3);
    assert_eq!(scheduler.variables(), 3);
    assert!(scheduler.room_left());
    assert!(unresolved(&scheduler).is_empty());
}

#[test]
fn trigger_hands_out_what_waits_in_order() {
    let mut scheduler = scheduler_with(2);
    scheduler.enqueue(&vec![var(0)], op(1));
    scheduler.enqueue(&vec![var(1)], op(2));
    scheduler.enqueue(&vec![var(0)], op(3));
    assert_eq!(ids(&scheduler.trigger(var(0))), vec![1, 3]);
    assert_eq!(ids(&scheduler.trigger(var(0))), Vec::<usize>::new());
    assert_eq!(ids(&scheduler.trigger(var(1))), vec![2]);
}

#[test]
fn an_op_on_two_lists_is_handed_out_once() {
    let mut scheduler = scheduler_with(2);
    scheduler.enqueue(&vec![var(0), var(1)], op(7));
    assert_eq!(ids(&scheduler.trigger(var(1))), vec![7]);
    assert_eq!(ids(&scheduler.trigger(var(0))), Vec::<usize>::new());
}

#[test]
fn an_op_listed_twice_under_one_variable_is_handed_out_once() {
    let mut scheduler = scheduler_with(1);
    scheduler.enqueue(&vec![var(0), var(0)], op(7));
    assert_eq!(ids(&scheduler.trigger(var(0))), vec![7]);
}

#[test]
fn a_stale_index_never_finds_a_later_op() {
    let mut scheduler = scheduler_with(2);
    let first = scheduler.enqueue(&vec![var(0), var(1)], op(1));
    assert_eq!(ids(&scheduler.trigger(var(0))), vec![1]);
    // The slot of the first op is free again, and the next op may take it.
    let second = scheduler.enqueue(&vec![var(0)], op(2));
    assert_ne!(first, second);
    // The list of the second variable still holds the index of the first op.
    assert_eq!(ids(&scheduler.trigger(var(1))), Vec::<usize>::new());
    assert_eq!(ids(&scheduler.trigger(var(0))), vec![2]);
}

#[test]
fn indices_are_never_given_out_twice() {
    let mut scheduler = scheduler_with(1);
    let mut seen = Vec::new();
    for round in 0..20 {
        let index = scheduler.enqueue(&vec![var(0)], op(round));
        assert!(!seen.contains(&index));
        seen.push(index);
        if round % 2 == 0 {
            assert_eq!(ids(&scheduler.trigger(var(0))), vec![round]);
        } else {
            let next = scheduler.enqueue(&vec![var(0)], op(100 + round));
            assert!(!seen.contains(&next));
            seen.push(next);
            assert_eq!(ids(&scheduler.trigger(var(0))), vec![round, 100 + round]);
        }
    }
    assert_eq!(seen.len(), 30);
    assert!(ids(&scheduler.trigger(var(0))).is_empty());
}

#[test]
fn untriggered_names_the_variables_that_are_waited_for() {
    let mut scheduler = scheduler_with(4);
    scheduler.enqueue(&vec![var(3), var(1)], op(1));
    scheduler.enqueue(&vec![var(1)], op(2));
    assert_eq!(unresolved(&scheduler), vec![var(1), var(3)]);
    let _ = scheduler.trigger(var(3));
    // The first op is gone: only the second still waits, for variable 1.
    assert_eq!(unresolved(&scheduler), vec![var(1)]);
    let _ = scheduler.trigger(var(1));
    assert!(unresolved(&scheduler).is_empty());
}

#[test]
fn untriggered_adds_to_what_the_output_holds() {
    let mut scheduler = scheduler_with(2);
    scheduler.enqueue(&vec![var(1)], op(1));
    let mut output = vec![var(9)];
    scheduler.untriggered(&mut output);
    assert_eq!(output, vec![var(9), var(1)]);
}

#[test]
fn an_op_that_waits_for_nothing_is_stored_but_never_woken() {
    let mut scheduler = scheduler_with(1);
    scheduler.enqueue(&Vec::new(), op(1));
    assert_eq!(ids(&scheduler.trigger(var(0))), Vec::<usize>::new());
    assert!(unresolved(&scheduler).is_empty());
}

#[test]
fn the_op_that_comes_out_is_the_op_that_went_in() {
    let mut scheduler = scheduler_with(1);
    scheduler.enqueue(
        &vec![var(0)],
        DeferredOp { values: vec![Base { index: 4 }, Base { index: 2 }], op: 11, equate: None },
    );
    let woken = scheduler.trigger(var(0));
    assert_eq!(woken.len(), 1);
    assert_eq!(woken[0].values, vec![Base { index: 4 }, Base { index: 2 }]);
    assert_eq!(woken[0].op, 11);
    assert!(woken[0].equate.is_none());
}
