use brush_core::history::{CommandLineFilter, Direction, History, Item, Query, Timestamp};

fn item(line: &str, secs: Option<i64>) -> Item {
    Item { id: 0, command_line: line.to_owned(), timestamp: secs.map(|s| Timestamp { secs: s, nanos: 0 }), dirty: true }
}

fn lines(items: Vec<&Item>) -> Vec<String> {
    items.into_iter().map(|i| i.command_line.clone()).collect()
}

#[test]
fn added_items_get_increasing_ids() {
    let mut h = History::new();
    assert_eq!(h.add(item("ls", None)).unwrap(), 0);
    assert_eq!(h.add(item("pwd", None)).unwrap(), 1);
    assert_eq!(h.count(), 2);
    let got = h.get_by_id(1).unwrap().unwrap();
    assert_eq!(got.command_line, "pwd");
    assert_eq!(got.id, 1);
    assert!(h.get_by_id(7).unwrap().is_none());
}

#[test]
fn new_item_is_unsaved_and_stamped() {
    let i = Item::new("echo hi");
    assert_eq!(i.command_line, "echo hi");
    assert!(i.dirty);
    assert!(i.timestamp.is_some());
    assert_eq!(i.id, 0);
}

#[test]
fn ids_are_not_reused_after_deletion() {
    let mut h = History::new();
    h.add(item("a", None)).unwrap();
    h.add(item("b", None)).unwrap();
    h.delete_item_by_id(1).unwrap();
    assert_eq!(h.add(item("c", None)).unwrap(), 2);
    assert_eq!(lines(h.iter()), vec!["a", "c"]);
}

#[test]
fn update_of_missing_item_fails() {
    let mut h = History::new();
    h.add(item("a", None)).unwrap();
    assert!(h.update_by_id(5, item("z", None)).is_err());
    h.update_by_id(0, item("z", None)).unwrap();
    assert_eq!(lines(h.iter()), vec!["z"]);
}

#[test]
fn remove_nth_item_removes_by_position() {
    let mut h = History::new();
    h.add(item("a", None)).unwrap();
    h.add(item("b", None)).unwrap();
    h.add(item("c", None)).unwrap();
    let removed = h.remove_nth_item(1).unwrap();
    assert_eq!(removed.command_line, "b");
    assert!(h.remove_nth_item(5).is_none());
    assert_eq!(lines(h.iter()), vec!["a", "c"]);
    h.clear().unwrap();
    assert_eq!(h.count(), 0);
}

#[test]
fn search_filters_and_orders() {
    let mut h = History::new();
    h.add(item("ls", Some(10))).unwrap();
    h.add(item("cd /", Some(20))).unwrap();
    h.add(item("ls -l", Some(30))).unwrap();

    let q = Query { command_line_filter: Some(CommandLineFilter::Prefix("ls".into())), ..Query::default() };
    assert_eq!(lines(h.search(&q)), vec!["ls", "ls -l"]);

    let q = Query {
        direction: Direction::Backward,
        command_line_filter: Some(CommandLineFilter::Prefix("ls".into())),
        ..Query::default()
    };
    assert_eq!(lines(h.search(&q)), vec!["ls -l", "ls"]);

    let q = Query { max_items: Some(1), ..Query::default() };
    assert_eq!(lines(h.search(&q)), vec!["ls"]);

    let q = Query { command_line_filter: Some(CommandLineFilter::Contains("d /".into())), ..Query::default() };
    assert_eq!(lines(h.search(&q)), vec!["cd /"]);

    let q = Query { command_line_filter: Some(CommandLineFilter::Suffix("-l".into())), ..Query::default() };
    assert_eq!(lines(h.search(&q)), vec!["ls -l"]);

    let q = Query { command_line_filter: Some(CommandLineFilter::Exact("ls".into())), ..Query::default() };
    assert_eq!(lines(h.search(&q)), vec!["ls"]);

    let q = Query {
        not_at_or_before_time: Some(Timestamp { secs: 10, nanos: 0 }),
        not_at_or_after_time: Some(Timestamp { secs: 30, nanos: 0 }),
        ..Query::default()
    };
    assert_eq!(lines(h.search(&q)), vec!["cd /"]);

    let q = Query { not_at_or_before_id: Some(0), not_at_or_after_id: Some(2), ..Query::default() };
    assert_eq!(lines(h.search(&q)), vec!["cd /"]);
}

#[test]
fn import_reads_timestamps_and_commands() {
    let file: Vec<String> = vec!["#100".into(), "ls".into(), "pwd".into(), "#bad".into(), "cd".into()];
    let h = History::import_lines(&file);
    let items = h.iter();
    assert_eq!(lines(items.clone()), vec!["ls", "pwd", "cd"]);
    assert_eq!(items[0].timestamp, Some(Timestamp { secs: 100, nanos: 0 }));
    assert_eq!(items[1].timestamp, None);
    assert_eq!(items[2].timestamp, None);
    assert!(items.iter().all(|i| !i.dirty));
    assert_eq!(items[2].id, 2);
}

#[test]
fn flush_writes_timestamps_and_marks_saved() {
    let mut h = History::new();
    h.add(item("ls", Some(100))).unwrap();
    h.add(item("pwd", None)).unwrap();
    assert_eq!(h.flush_lines(true, true), vec!["#100", "ls", "pwd"]);
    // Everything is saved now.
    assert!(h.flush_lines(true, true).is_empty());
    h.add(item("cd", Some(-5))).unwrap();
    assert_eq!(h.flush_lines(true, true), vec!["#-5", "cd"]);
    assert_eq!(h.flush_lines(false, false), vec!["ls", "pwd", "cd"]);
}

#[test]
fn flushed_lines_import_back() {
    let mut h = History::new();
    h.add(item("echo a", Some(42))).unwrap();
    h.add(item("echo b", None)).unwrap();
    let saved = h.flush_lines(false, true);
    let back = History::import_lines(&saved);
    let items = back.iter();
    assert_eq!(lines(items.clone()), vec!["echo a", "echo b"]);
    assert_eq!(items[0].timestamp, Some(Timestamp { secs: 42, nanos: 0 }));
    assert_eq!(items[1].timestamp, None);
}
