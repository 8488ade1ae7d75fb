use lark_infer::query_system::{
    apply_edits, line_span, replace_range, Edit, Position, QueryRequest, QuerySystem, Range,
};
use std::collections::VecDeque;

fn open(name: &str) -> QueryRequest {
    QueryRequest::OpenFile(name.to_string(), "contents".to_string())
}

fn edit(name: &str) -> QueryRequest {
    let origin = Position { line: 0, character: 0 };
    QueryRequest::EditFile(
        name.to_string(),
        vec![(Range { start: origin, end: origin }, "x".to_string())],
    )
}

fn hover(task: usize) -> QueryRequest {
    QueryRequest::TypeAtPosition(task, "file".to_string(), Position { line: 1, character: 2 })
}

fn queue(messages: Vec<QueryRequest>) -> VecDeque<QueryRequest> {
    messages.into_iter().collect()
}

#[test]
fn which_requests_change_the_program() {
    assert!(open("a").is_mutation());
    assert!(edit("a").is_mutation());
    assert!(!hover(1).is_mutation());
    assert!(!QueryRequest::Initialize(0).is_mutation());
    let position = Position { line: 0, character: 0 };
    assert!(!QueryRequest::RenameAtPosition(1, "f".to_string(), position, "n".to_string())
        .is_mutation());
    assert!(!QueryRequest::ReferencesAtPosition(1, "f".to_string(), position, true).is_mutation());
    assert!(!QueryRequest::DefinitionAtPosition(1, "f".to_string(), position).is_mutation());
}

#[test]
fn an_empty_queue_gives_nothing_to_do() {
    let mut system = QuerySystem::new();
    let mut messages = VecDeque::new();
    let turn = system.receive_messages(&mut messages);
    assert!(turn.process.is_empty());
    assert!(!turn.check_for_errors);
    assert!(!system.needs_error_check);
}

#[test]
fn questions_are_answered_one_per_turn() {
    let mut system = QuerySystem::new();
    let mut messages = queue(vec![hover(1), hover(2)]);
    let turn = system.receive_messages(&mut messages);
    assert_eq!(turn.process, vec![hover(1)]);
    assert!(!turn.check_for_errors);
    assert_eq!(messages, queue(vec![hover(2)]));
    let turn = system.receive_messages(&mut messages);
    assert_eq!(turn.process, vec![hover(2)]);
    assert!(!turn.check_for_errors);
    assert!(messages.is_empty());
}

#[test]
fn changes_come_first_and_questions_before_them_are_dropped() {
    let mut system = QuerySystem::new();
    let mut messages =
        queue(vec![hover(1), open("a"), hover(2), edit("a"), hover(3), hover(4)]);
    let turn = system.receive_messages(&mut messages);
    assert_eq!(turn.process, vec![open("a"), edit("a"), hover(3)]);
    assert!(!turn.check_for_errors);
    assert!(system.needs_error_check);
    assert_eq!(messages, queue(vec![hover(4)]));

    let turn = system.receive_messages(&mut messages);
    assert_eq!(turn.process, vec![hover(4)]);
    assert!(turn.check_for_errors);
    assert!(!system.needs_error_check);
    assert!(messages.is_empty());

    let turn = system.receive_messages(&mut messages);
    assert!(turn.process.is_empty());
    assert!(!turn.check_for_errors);
}

#[test]
fn errors_are_looked_for_once_the_queue_is_empty_after_a_change() {
    let mut system = QuerySystem::new();
    let mut messages = queue(vec![edit("a")]);
    let turn = system.receive_messages(&mut messages);
    assert_eq!(turn.process, vec![edit("a")]);
    assert!(turn.check_for_errors);
    assert!(!system.needs_error_check);
}

#[test]
fn a_pending_check_outlives_turns_that_leave_requests() {
    let mut system = QuerySystem { needs_error_check: true };
    let mut messages = queue(vec![hover(1), hover(2)]);
    assert!(!system.receive_messages(&mut messages).check_for_errors);
    assert!(system.needs_error_check);
    assert!(system.receive_messages(&mut messages).check_for_errors);
    assert!(!system.needs_error_check);
}

#[test]
fn replace_range_replaces_the_bytes_between() {
    let mut text = b"hello world".to_vec();
    replace_range(&mut text, 6, 11, &b"there".to_vec());
    assert_eq!(text, b"hello there".to_vec());
    replace_range(&mut text, 0, 0, &b">> ".to_vec());
    assert_eq!(text, b">> hello there".to_vec());
    replace_range(&mut text, 3, 9, &Vec::new());
    assert_eq!(text, b">> there".to_vec());
    let len = text.len();
    replace_range(&mut text, len, len, &b"!".to_vec());
    assert_eq!(text, b">> there!".to_vec());
    replace_range(&mut text, 0, len + 1, &Vec::new());
    assert!(text.is_empty());
}

#[test]
fn edits_are_made_one_after_the_other() {
    let mut text = b"abcdef".to_vec();
    let edits = vec![
        Edit { start: 0, end: 1, replacement: b"xyz".to_vec() },
        Edit { start: 6, end: 8, replacement: b"".to_vec() },
    ];
    assert!(apply_edits(&mut text, &edits));
    // The second edit is made to "xyzbcdef".
    assert_eq!(text, b"xyzbcd".to_vec());
    assert!(apply_edits(&mut text, &Vec::new()));
    assert_eq!(text, b"xyzbcd".to_vec());
}

#[test]
fn an_edit_that_does_not_fit_stops_the_editing() {
    let mut text = b"abc".to_vec();
    let edits = vec![
        Edit { start: 1, end: 2, replacement: b"".to_vec() },
        Edit { start: 1, end: 3, replacement: b"no".to_vec() },
        Edit { start: 0, end: 1, replacement: b"never".to_vec() },
    ];
    assert!(!apply_edits(&mut text, &edits));
    assert_eq!(text, b"ac".to_vec());
    let mut text = b"abc".to_vec();
    let backwards = vec![Edit { start: 2, end: 1, replacement: b"".to_vec() }];
    assert!(!apply_edits(&mut text, &backwards));
    assert_eq!(text, b"abc".to_vec());
}

#[test]
fn a_line_spans_from_its_start_to_the_start_of_the_next() {
    let offsets = vec![0, 5, 9, 20];
    assert_eq!(line_span(&offsets, 0), (0, 5));
    assert_eq!(line_span(&offsets, 1), (5, 9));
    assert_eq!(line_span(&offsets, 2), (9, 20));
}
