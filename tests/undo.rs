use tidycraft::undo::{
    current_timestamp, plan_single_undo, summarize_undo, FileOperation, OperationType, UndoManager,
};

fn rename(from: &str, to: &str) -> FileOperation {
    FileOperation {
        operation_type: OperationType::Rename,
        original_path: from.to_string(),
        new_path: Some(to.to_string()),
        timestamp: current_timestamp(),
    }
}

#[test]
fn test_undo_manager_new() {
    let manager = UndoManager::new(10);
    assert_eq!(manager.max_history, 10);
    assert!(manager.history.is_empty());
    assert!(!manager.can_undo());
}

#[test]
fn test_record_batch() {
    let mut manager = UndoManager::new(10);

    let ops = vec![rename("/old/path.txt", "/new/path.txt")];

    let id = manager.record_batch("Test operation".to_string(), ops);

    assert!(!id.is_empty());
    assert!(id.starts_with("op_"));
    assert_eq!(manager.history_count(), 1);
    assert!(manager.can_undo());
}

#[test]
fn test_history_limit() {
    let mut manager = UndoManager::new(3);

    for i in 0..5 {
        let ops = vec![rename(&format!("/old/{}.txt", i), &format!("/new/{}.txt", i))];
        manager.record_batch(format!("Operation {}", i), ops);
    }

    assert_eq!(manager.history_count(), 3);

    let history = manager.get_history();
    assert_eq!(history.len(), 3);
    assert!(history[0].description.contains('4'));
    assert!(history[1].description.contains('3'));
    assert!(history[2].description.contains('2'));
}

#[test]
fn test_get_history() {
    let mut manager = UndoManager::new(10);

    let ops = vec![rename("/a.txt", "/b.txt"), rename("/c.txt", "/d.txt")];

    manager.record_batch("Rename 2 files".to_string(), ops);

    let history = manager.get_history();
    assert_eq!(history.len(), 1);
    assert_eq!(history[0].file_count, 2);
    assert_eq!(history[0].description, "Rename 2 files");
    assert!(history[0].can_undo);
}

#[test]
fn test_undo_already_undone() {
    let mut manager = UndoManager::new(10);

    let ops = vec![rename("/old.txt", "/new.txt")];

    manager.record_batch("Test".to_string(), ops);

    manager.history[0].undone = true;

    assert!(manager.undo_last().is_none());
    assert!(!manager.can_undo());
}

#[test]
fn test_undo_by_id() {
    let mut manager = UndoManager::new(10);

    let ops = vec![rename("/old.txt", "/new.txt")];

    let id = manager.record_batch("Test".to_string(), ops);

    let result = manager.undo_by_id(&id);
    assert!(result.is_some());

    assert!(manager.history[0].undone);
}

#[test]
fn test_clear_history() {
    let mut manager = UndoManager::new(10);

    let ops = vec![rename("/old.txt", "/new.txt")];

    manager.record_batch("Test".to_string(), ops);
    assert_eq!(manager.history_count(), 1);

    manager.clear_history();
    assert_eq!(manager.history_count(), 0);
    assert!(!manager.can_undo());
}

#[test]
fn test_undoable_count() {
    let mut manager = UndoManager::new(10);

    for i in 0..3 {
        let ops = vec![rename(&format!("/old{}.txt", i), &format!("/new{}.txt", i))];
        manager.record_batch(format!("Op {}", i), ops);
    }

    assert_eq!(manager.undoable_count(), 3);

    manager.history[0].undone = true;
    assert_eq!(manager.undoable_count(), 2);
}

#[test]
fn test_get_last_operation_description() {
    let mut manager = UndoManager::new(10);
    assert!(manager.get_last_operation_description().is_none());

    let ops = vec![rename("/a.txt", "/b.txt")];

    manager.record_batch("First operation".to_string(), ops.clone());
    assert_eq!(
        manager.get_last_operation_description(),
        Some("First operation".to_string())
    );

    manager.record_batch("Second operation".to_string(), ops);
    assert_eq!(
        manager.get_last_operation_description(),
        Some("Second operation".to_string())
    );
}

#[test]
fn undo_last_hands_back_operations_newest_first() {
    let mut manager = UndoManager::new(10);
    manager.record_batch("Two".to_string(), vec![rename("/a", "/b"), rename("/c", "/d")]);
    let pending = manager.undo_last().unwrap();
    assert_eq!(pending.description, "Two");
    assert_eq!(pending.operations[0].original_path, "/c");
    assert_eq!(pending.operations[1].original_path, "/a");
    assert!(!manager.can_undo());
    assert!(manager.undo_last().is_none());
}

#[test]
fn planning_an_undo_reports_each_error() {
    let op = rename("/orig.txt", "/renamed.txt");
    let step = plan_single_undo(&op, true, false).unwrap();
    assert_eq!(step.from, "/renamed.txt");
    assert_eq!(step.to, "/orig.txt");
    assert!(!step.create_parent);
    assert_eq!(
        plan_single_undo(&op, false, false).unwrap_err(),
        "Source file not found: /renamed.txt (file may have been modified)"
    );
    assert_eq!(
        plan_single_undo(&op, true, true).unwrap_err(),
        "Target path already exists: /orig.txt"
    );
    let delete = FileOperation {
        operation_type: OperationType::Delete,
        original_path: "/x".to_string(),
        new_path: None,
        timestamp: 0,
    };
    assert_eq!(
        plan_single_undo(&delete, true, false).unwrap_err(),
        "Undo for delete operations is not yet supported"
    );
    let moved = FileOperation {
        operation_type: OperationType::Move,
        original_path: "/x".to_string(),
        new_path: None,
        timestamp: 0,
    };
    assert_eq!(
        plan_single_undo(&moved, true, false).unwrap_err(),
        "Missing new path for move operation"
    );
}

#[test]
fn summarizing_outcomes_counts_failures() {
    let r = summarize_undo(
        "Batch".to_string(),
        vec![Ok(()), Err("bad".to_string()), Ok(())],
    );
    assert_eq!(r.reverted_count, 2);
    assert_eq!(r.failed_count, 1);
    assert!(!r.success);
    assert_eq!(r.errors, vec!["bad".to_string()]);
    assert_eq!(r.operation_description, "Batch");
}

#[test]
fn operation_ids_are_hexadecimal() {
    assert_eq!(tidycraft::undo::format_operation_id(255, 10), "op_ff_0000000a");
    assert_eq!(tidycraft::undo::rand_simple(0xF0, 0x0F), 0xFF);
}
