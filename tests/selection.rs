use load_workspace::table::{Key, Outcome, StatefulTable};
use load_workspace::workspace::{Timestamp, Workspace};

fn ws(name: &str, secs: i64, nanos: u32) -> Workspace {
    Workspace::new(name, Timestamp { secs, nanos }, format!("/work/{}", name)).unwrap()
}

fn stories(t: &StatefulTable) -> Vec<String> {
    t.workspaces().iter().map(|w| w.story().clone()).collect()
}

fn three() -> StatefulTable {
    StatefulTable::new(vec![ws("OLD", 100, 0), ws("NEW", 300, 0), ws("MID", 200, 0)])
}

#[test]
fn construct_sorts_newest_first() {
    let t = three();
    assert_eq!(stories(&t), vec!["NEW", "MID", "OLD"]);
    assert_eq!(t.selected(), None);
    assert_eq!(t.len(), 3);
}

#[test]
fn construct_compares_nanoseconds() {
    let t = StatefulTable::new(vec![ws("A", 5, 1), ws("B", 5, 999), ws("C", 4, 999_999_999)]);
    assert_eq!(stories(&t), vec!["B", "A", "C"]);
}

#[test]
fn construct_keeps_equal_times() {
    let t = StatefulTable::new(vec![ws("A", 5, 0), ws("B", 5, 0), ws("C", 6, 0)]);
    assert_eq!(stories(&t), vec!["C", "A", "B"]);
    let items = t.workspaces();
    for i in 1..items.len() {
        let (a, b) = (items[i - 1].modified(), items[i].modified());
        assert!((a.secs, a.nanos) >= (b.secs, b.nanos));
    }
}

#[test]
fn construct_empty() {
    let t = StatefulTable::new(Vec::new());
    assert_eq!(t.len(), 0);
}

#[test]
fn next_from_unset_selects_first() {
    let mut t = three();
    t.next();
    assert_eq!(t.selected(), Some(0));
}

#[test]
fn previous_from_unset_selects_first() {
    let mut t = three();
    t.previous();
    assert_eq!(t.selected(), Some(0));
}

#[test]
fn next_wraps_after_len_steps() {
    let mut t = three();
    t.next();
    t.next();
    assert_eq!(t.selected(), Some(1));
    for _ in 0..3 {
        t.next();
    }
    assert_eq!(t.selected(), Some(1));
    t.next();
    t.next();
    assert_eq!(t.selected(), Some(0));
}

#[test]
fn previous_wraps_to_last() {
    let mut t = three();
    t.next();
    t.previous();
    assert_eq!(t.selected(), Some(2));
}

#[test]
fn previous_inverts_next() {
    for start in 0..3 {
        let mut t = three();
        t.next();
        for _ in 0..start {
            t.next();
        }
        t.next();
        t.previous();
        assert_eq!(t.selected(), Some(start));
        t.previous();
        t.next();
        assert_eq!(t.selected(), Some(start));
    }
}

#[test]
fn single_item_navigation_stays() {
    let mut t = StatefulTable::new(vec![ws("ONLY", 1, 0)]);
    t.next();
    t.next();
    assert_eq!(t.selected(), Some(0));
    t.previous();
    assert_eq!(t.selected(), Some(0));
}

#[test]
fn current_without_cursor_takes_first() {
    let mut t = three();
    let w = t.current();
    assert_eq!(w.story(), "NEW");
    assert_eq!(stories(&t), vec!["MID", "OLD"]);
}

#[test]
fn current_takes_cursored_item() {
    let mut t = three();
    t.next();
    t.next();
    let w = t.current();
    assert_eq!(w.story(), "MID");
    assert_eq!(w.path(), "/work/MID");
    assert_eq!(t.len(), 2);
    assert_eq!(stories(&t), vec!["NEW", "OLD"]);
}

#[test]
fn down_then_confirm_selects_newest() {
    let mut t = three();
    assert!(matches!(t.handle_key(Key::Down), Outcome::Running));
    assert_eq!(t.selected(), Some(0));
    match t.handle_key(Key::Confirm) {
        Outcome::Confirmed(w) => assert_eq!(w.story(), "NEW"),
        other => panic!("unexpected {:?}", other),
    }
    assert_eq!(stories(&t), vec!["MID", "OLD"]);
}

#[test]
fn two_downs_then_confirm_selects_second_newest() {
    let mut t = three();
    assert!(matches!(t.handle_key(Key::Down), Outcome::Running));
    assert!(matches!(t.handle_key(Key::Down), Outcome::Running));
    match t.handle_key(Key::Confirm) {
        Outcome::Confirmed(w) => assert_eq!(w.story(), "MID"),
        other => panic!("unexpected {:?}", other),
    }
}

#[test]
fn confirm_right_away_selects_newest() {
    let mut t = three();
    match t.handle_key(Key::Confirm) {
        Outcome::Confirmed(w) => assert_eq!(w.story(), "NEW"),
        other => panic!("unexpected {:?}", other),
    }
}

#[test]
fn quit_yields_nothing() {
    let mut t = three();
    assert!(matches!(t.handle_key(Key::Quit), Outcome::Cancelled));
    let mut t = three();
    t.handle_key(Key::Down);
    t.handle_key(Key::Up);
    assert!(matches!(t.handle_key(Key::Quit), Outcome::Cancelled));
    assert_eq!(t.len(), 3);
}

#[test]
fn other_keys_change_nothing() {
    let mut t = three();
    t.handle_key(Key::Down);
    assert!(matches!(t.handle_key(Key::Other), Outcome::Running));
    assert_eq!(t.selected(), Some(0));
    assert_eq!(t.len(), 3);
}

#[test]
fn up_wraps_in_the_loop() {
    let mut t = three();
    t.handle_key(Key::Up);
    t.handle_key(Key::Up);
    assert_eq!(t.selected(), Some(2));
    match t.handle_key(Key::Confirm) {
        Outcome::Confirmed(w) => assert_eq!(w.story(), "OLD"),
        other => panic!("unexpected {:?}", other),
    }
}
