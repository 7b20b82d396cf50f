use fcp_rust::fcpcore::event_log::EventLog;

#[test]
fn test_append_and_cursor() {
    let mut log = EventLog::new();
    log.append("a");
    log.append("b");
    assert_eq!(log.cursor(), 2);
    assert_eq!(log.length(), 2);
}

#[test]
fn test_recent() {
    let mut log = EventLog::new();
    log.append("a");
    log.append("b");
    log.append("c");

    let got = log.recent(2);
    assert_eq!(got, vec!["b", "c"]);

    let all = log.recent(0);
    assert_eq!(all, vec!["a", "b", "c"]);
}

#[test]
fn test_undo_most_recent() {
    let mut log = EventLog::new();
    log.append("a");
    log.append("b");
    let undone = log.undo(1);
    assert_eq!(undone, vec!["b"]);
    assert_eq!(log.cursor(), 1);
}

#[test]
fn test_undo_multiple() {
    let mut log = EventLog::new();
    log.append("a");
    log.append("b");
    log.append("c");
    let undone = log.undo(2);
    assert_eq!(undone, vec!["c", "b"]);
    assert_eq!(log.cursor(), 1);
}

#[test]
fn test_undo_empty() {
    let mut log: EventLog<&str> = EventLog::new();
    let undone = log.undo(1);
    assert!(undone.is_empty());
}

#[test]
fn test_undo_skips_checkpoints() {
    let mut log = EventLog::new();
    log.append("a");
    log.checkpoint("cp1");
    log.append("b");
    let undone = log.undo(2);
    assert_eq!(undone, vec!["b", "a"]);
}

#[test]
fn test_redo() {
    let mut log = EventLog::new();
    log.append("a");
    log.append("b");
    log.undo(2);
    let redone = log.redo(2);
    assert_eq!(redone, vec!["a", "b"]);
    assert_eq!(log.cursor(), 2);
}

#[test]
fn test_redo_empty() {
    let mut log = EventLog::new();
    log.append("a");
    let redone = log.redo(1);
    assert!(redone.is_empty());
}

#[test]
fn test_redo_skips_checkpoints() {
    let mut log = EventLog::new();
    log.append("a");
    log.checkpoint("cp1");
    log.append("b");
    log.undo(2);
    let redone = log.redo(2);
    assert_eq!(redone, vec!["a", "b"]);
}

#[test]
fn test_truncate_on_append() {
    let mut log = EventLog::new();
    log.append("a");
    log.append("b");
    log.undo(1);
    log.append("c");
    assert_eq!(log.length(), 2);
    let redone = log.redo(1);
    assert!(redone.is_empty());
    let all = log.recent(0);
    assert_eq!(all, vec!["a", "c"]);
}

#[test]
fn test_checkpoint_undo_to() {
    let mut log = EventLog::new();
    log.append("a");
    log.checkpoint("v1");
    log.append("b");
    log.append("c");
    let undone = log.undo_to("v1").unwrap();
    assert_eq!(undone, vec!["c", "b"]);
    let recent = log.recent(0);
    assert_eq!(recent, vec!["a"]);
}

#[test]
fn test_checkpoint_unknown_name() {
    let mut log = EventLog::new();
    log.append("a");
    let result = log.undo_to("nonexistent");
    assert!(result.is_err());
}

#[test]
fn test_checkpoint_removed_on_truncation() {
    let mut log = EventLog::new();
    log.append("a");
    log.checkpoint("v1");
    log.append("b");
    log.undo(2);
    log.append("x");
    let result = log.undo_to("v1");
    assert!(result.is_err(), "checkpoint should be removed after truncation");
}

#[test]
fn test_cursor_starts_at_zero() {
    let log: EventLog<&str> = EventLog::new();
    assert_eq!(log.cursor(), 0);
}

#[test]
fn test_cursor_advances_on_append() {
    let mut log = EventLog::new();
    log.append("a");
    assert_eq!(log.cursor(), 1);
    log.append("b");
    assert_eq!(log.cursor(), 2);
}

#[test]
fn test_cursor_moves_back_on_undo() {
    let mut log = EventLog::new();
    log.append("a");
    log.append("b");
    log.undo(1);
    assert_eq!(log.cursor(), 1);
}

#[test]
fn test_cursor_moves_forward_on_redo() {
    let mut log = EventLog::new();
    log.append("a");
    log.append("b");
    log.undo(1);
    log.redo(1);
    assert_eq!(log.cursor(), 2);
}

#[test]
fn test_can_undo() {
    let mut log: EventLog<&str> = EventLog::new();
    assert!(!log.can_undo(), "CanUndo() should be false for empty log");
    log.append("a");
    assert!(log.can_undo(), "CanUndo() should be true after append");
}

#[test]
fn test_can_redo() {
    let mut log: EventLog<&str> = EventLog::new();
    assert!(!log.can_redo(), "CanRedo() should be false for empty log");
    log.append("a");
    assert!(!log.can_redo(), "CanRedo() should be false at end");
    log.undo(1);
    assert!(log.can_redo(), "CanRedo() should be true after undo");
}

#[test]
fn undo_then_redo_gives_back_the_same_events_in_order() {
    let mut log = EventLog::new();
    log.append(1);
    log.checkpoint("cp");
    log.append(2);
    log.append(3);
    let undone = log.undo(2);
    assert_eq!(undone, vec![3, 2]);
    let redone = log.redo(undone.len());
    assert_eq!(redone, vec![2, 3]);
    assert_eq!(log.cursor(), 4);
}

#[test]
fn undo_past_the_start_stops_at_zero() {
    let mut log = EventLog::new();
    log.checkpoint("start");
    log.append("a");
    let undone = log.undo(5);
    assert_eq!(undone, vec!["a"]);
    assert_eq!(log.cursor(), 0);
    assert!(!log.can_undo());
}

#[test]
fn undo_to_message_quotes_the_name() {
    let mut log: EventLog<u8> = EventLog::new();
    let err = log.undo_to("v2").unwrap_err();
    assert_eq!(err, "cannot undo to \"v2\"");
}

#[test]
fn fresh_checkpoint_can_be_undone_to_with_no_events() {
    let mut log = EventLog::new();
    log.append("a");
    log.checkpoint("here");
    let undone = log.undo_to("here").unwrap();
    assert!(undone.is_empty());
    assert_eq!(log.cursor(), 1);
    assert_eq!(log.recent(0), vec!["a"]);
}

#[test]
fn recent_with_count_over_history_gives_everything() {
    let mut log = EventLog::new();
    log.append("a");
    log.append("b");
    assert_eq!(log.recent(10), vec!["a", "b"]);
}

#[test]
fn default_log_is_empty() {
    let log: EventLog<u8> = EventLog::default();
    assert_eq!(log.cursor(), 0);
    assert_eq!(log.length(), 0);
}

#[test]
fn checkpoint_keeps_applied_events_and_redo_tail() {
    let mut log: EventLog<&str> = EventLog::new();
    log.append("a");
    log.append("b");
    log.undo(1);
    log.checkpoint("v");
    assert_eq!(log.recent(0), vec!["a"]);
    assert!(log.can_redo());
    assert_eq!(log.redo(1), vec!["b"]);
    assert_eq!(log.recent(0), vec!["a", "b"]);
    assert_eq!(log.undo_to("v"), Ok(vec!["b"]));
    assert_eq!(log.recent(0), vec!["a"]);
}

#[test]
fn can_redo_only_with_events_after_the_cursor() {
    let mut log: EventLog<&str> = EventLog::new();
    assert!(!log.can_redo());
    log.append("a");
    assert!(!log.can_redo());
    log.checkpoint("c");
    assert_eq!(log.undo_to("c"), Ok(vec![]));
    assert!(!log.can_redo());
    assert!(log.redo(1).is_empty());
    log.undo(1);
    assert!(log.can_redo());
}
