use liboverlay::merge::{DirAction, DirEvent, MergeTable};

/// A directory stream: a handle and the names that it still holds.
struct Stream {
    handle: usize,
    names: Vec<Vec<u8>>,
    next: usize,
}

fn stream(handle: usize, names: &[&str]) -> Stream {
    Stream { handle, names: names.iter().map(|n| n.as_bytes().to_vec()).collect(), next: 0 }
}

fn read(stream: &mut Stream) -> Option<Vec<u8>> {
    let name = stream.names.get(stream.next).cloned();
    if name.is_some() {
        stream.next += 1;
    }
    name
}

/// One call for the next entry of `upper.handle`, carried out as the table
/// says.
fn next_entry(table: &mut MergeTable, guarded: bool, upper: &mut Stream, lower: &mut Stream) -> Option<Vec<u8>> {
    let dir = upper.handle;
    let mut action = table.readdir(dir, DirEvent::Called { guarded });
    let mut last: Option<Vec<u8>> = None;
    loop {
        match action {
            DirAction::Forward => return read(upper),
            DirAction::ReadUpper => {
                last = read(upper);
                action = table.readdir(dir, DirEvent::Upper { name: last.clone() });
            }
            DirAction::ReadLower { lower: handle } => {
                assert_eq!(handle, lower.handle);
                last = read(lower);
                action = table.readdir(dir, DirEvent::Lower { name: last.clone() });
            }
            DirAction::Yield => return last,
            DirAction::End => return None,
        }
    }
}

fn drain(table: &mut MergeTable, upper: &mut Stream, lower: &mut Stream) -> Vec<String> {
    let mut names = Vec::new();
    while let Some(name) = next_entry(table, false, upper, lower) {
        names.push(String::from_utf8(name).unwrap());
        assert!(names.len() < 100);
    }
    names
}

#[test]
fn merged_listing_yields_upper_then_unshadowed_lower() {
    let mut table = MergeTable::new();
    let mut upper = stream(0x1000, &["b", "c"]);
    let mut lower = stream(0x2000, &["a", "b"]);
    assert_eq!(table.opendir(upper.handle, lower.handle), upper.handle);
    assert_eq!(drain(&mut table, &mut upper, &mut lower), vec!["b", "c", "a"]);
    assert_eq!(next_entry(&mut table, false, &mut upper, &mut lower), None);
}

#[test]
fn merged_listing_keeps_both_orders() {
    let mut table = MergeTable::new();
    let mut upper = stream(7, &[".", "..", "z", "m", "a"]);
    let mut lower = stream(8, &[".", "..", "q", "m", "b", "z", "c"]);
    table.opendir(upper.handle, lower.handle);
    assert_eq!(
        drain(&mut table, &mut upper, &mut lower),
        vec![".", "..", "z", "m", "a", "q", "b", "c"]
    );
}

#[test]
fn merged_listing_of_empty_directories() {
    let mut table = MergeTable::new();
    let mut upper = stream(7, &[]);
    let mut lower = stream(8, &["x"]);
    table.opendir(upper.handle, lower.handle);
    assert_eq!(drain(&mut table, &mut upper, &mut lower), vec!["x"]);

    let mut upper = stream(9, &["x"]);
    let mut lower = stream(10, &[]);
    table.opendir(upper.handle, lower.handle);
    assert_eq!(drain(&mut table, &mut upper, &mut lower), vec!["x"]);

    let mut upper = stream(11, &[]);
    let mut lower = stream(12, &[]);
    table.opendir(upper.handle, lower.handle);
    assert!(drain(&mut table, &mut upper, &mut lower).is_empty());
}

#[test]
fn failed_lower_open_registers_nothing() {
    let mut table = MergeTable::new();
    let mut upper = stream(0x1000, &["b", "c"]);
    let mut lower = stream(0, &["a"]);
    assert_eq!(table.opendir(upper.handle, 0), upper.handle);
    assert_eq!(table.readdir(upper.handle, DirEvent::Called { guarded: false }), DirAction::Forward);
    assert_eq!(drain(&mut table, &mut upper, &mut lower), vec!["b", "c"]);
    assert_eq!(table.closedir(upper.handle), None);
}

#[test]
fn unregistered_handle_is_forwarded() {
    let mut table = MergeTable::new();
    table.opendir(1, 2);
    assert_eq!(table.readdir(3, DirEvent::Called { guarded: false }), DirAction::Forward);
    assert_eq!(table.readdir(2, DirEvent::Called { guarded: false }), DirAction::Forward);
    assert_eq!(table.readdir(1, DirEvent::Called { guarded: false }), DirAction::ReadUpper);
}

#[test]
fn guarded_call_is_forwarded() {
    let mut table = MergeTable::new();
    let mut upper = stream(1, &["b"]);
    let mut lower = stream(2, &["b", "a"]);
    table.opendir(1, 2);
    assert_eq!(table.readdir(1, DirEvent::Called { guarded: true }), DirAction::Forward);
    assert_eq!(next_entry(&mut table, true, &mut upper, &mut lower), Some(b"b".to_vec()));
    assert_eq!(next_entry(&mut table, true, &mut upper, &mut lower), None);
    // What went by while the thread was guarded was not recorded.
    assert_eq!(
        table.readdir(1, DirEvent::Lower { name: Some(b"b".to_vec()) }),
        DirAction::Yield
    );
}

#[test]
fn events_are_answered_one_by_one() {
    let mut table = MergeTable::new();
    table.opendir(10, 20);
    assert_eq!(table.readdir(10, DirEvent::Upper { name: Some(b"b".to_vec()) }), DirAction::Yield);
    assert_eq!(table.readdir(10, DirEvent::Upper { name: Some(b"b".to_vec()) }), DirAction::Yield);
    assert_eq!(table.readdir(10, DirEvent::Upper { name: None }), DirAction::ReadLower { lower: 20 });
    assert_eq!(
        table.readdir(10, DirEvent::Lower { name: Some(b"b".to_vec()) }),
        DirAction::ReadLower { lower: 20 }
    );
    assert_eq!(table.readdir(10, DirEvent::Lower { name: Some(b"a".to_vec()) }), DirAction::Yield);
    // A name from the lower directory is not recorded.
    assert_eq!(table.readdir(10, DirEvent::Lower { name: Some(b"a".to_vec()) }), DirAction::Yield);
    assert_eq!(table.readdir(10, DirEvent::Lower { name: Some(b"".to_vec()) }), DirAction::Yield);
    assert_eq!(table.readdir(10, DirEvent::Lower { name: None }), DirAction::End);
    // Events on a handle that is not registered.
    assert_eq!(table.readdir(11, DirEvent::Upper { name: Some(b"b".to_vec()) }), DirAction::Yield);
    assert_eq!(table.readdir(11, DirEvent::Upper { name: None }), DirAction::End);
    assert_eq!(table.readdir(11, DirEvent::Lower { name: Some(b"b".to_vec()) }), DirAction::Yield);
    assert_eq!(table.readdir(11, DirEvent::Lower { name: None }), DirAction::End);
}

#[test]
fn closedir_of_unregistered_handle_leaves_table_alone() {
    let mut table = MergeTable::new();
    table.opendir(1, 2);
    table.readdir(1, DirEvent::Upper { name: Some(b"b".to_vec()) });
    assert_eq!(table.closedir(5), None);
    assert_eq!(table.closedir(2), None);
    // The entry of handle 1 is as it was.
    assert_eq!(table.readdir(1, DirEvent::Called { guarded: false }), DirAction::ReadUpper);
    assert_eq!(
        table.readdir(1, DirEvent::Lower { name: Some(b"b".to_vec()) }),
        DirAction::ReadLower { lower: 2 }
    );
}

#[test]
fn closedir_hands_out_the_lower_handle_once() {
    let mut table = MergeTable::new();
    table.opendir(1, 2);
    table.opendir(3, 4);
    assert_eq!(table.closedir(1), Some(2));
    assert_eq!(table.closedir(1), None);
    assert_eq!(table.readdir(1, DirEvent::Called { guarded: false }), DirAction::Forward);
    assert_eq!(table.readdir(3, DirEvent::Called { guarded: false }), DirAction::ReadUpper);
    assert_eq!(table.closedir(3), Some(4));
}

#[test]
fn reopening_a_handle_starts_with_nothing_seen() {
    let mut table = MergeTable::new();
    table.opendir(1, 2);
    table.readdir(1, DirEvent::Upper { name: Some(b"b".to_vec()) });
    table.opendir(1, 9);
    assert_eq!(table.readdir(1, DirEvent::Lower { name: Some(b"b".to_vec()) }), DirAction::Yield);
    assert_eq!(table.readdir(1, DirEvent::Upper { name: None }), DirAction::ReadLower { lower: 9 });
    assert_eq!(table.closedir(1), Some(9));
}

#[test]
fn failed_upper_open_is_registered_under_the_null_handle() {
    let mut table = MergeTable::new();
    assert_eq!(table.opendir(0, 2), 0);
    assert_eq!(table.readdir(0, DirEvent::Called { guarded: false }), DirAction::ReadUpper);
    assert_eq!(table.closedir(0), Some(2));
}
