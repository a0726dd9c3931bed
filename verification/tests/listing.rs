use eb::entry::Entry;
use eb::entry::EntryKind;
use eb::entry::EntryTimes;
use eb::entry::FieldSelection;
use eb::entry::TimeKind;
use eb::long::format_long;
use eb::long::format_long_civil;
use eb::timefmt::CivilTime;

fn plain_selection() -> FieldSelection {
    FieldSelection {
        inode: false,
        permissions: true,
        links: true,
        size: true,
        blocks: true,
        user: true,
        group: true,
        modified: false,
        changed: false,
        created: false,
        accessed: false,
        bytes: true,
        binary: false,
        show_hidden: false,
    }
}

fn entry(name: &str, kind: EntryKind, size: u64, mode: u32) -> Entry {
    Entry {
        name: name.to_string(),
        kind,
        size,
        links: 2,
        inode: 42,
        uid: 1000,
        gid: 100,
        blocks: 8,
        mode,
        modified: None,
        changed: None,
        created: None,
        accessed: None,
    }
}

fn no_times() -> EntryTimes {
    EntryTimes { modified: None, changed: None, created: None, accessed: None }
}

#[test]
fn long_lines_align_fields() {
    let e1 = entry("alpha", EntryKind::Regular, 1234, 0o644);
    let mut e2 = entry("beta", EntryKind::Directory, 4096, 0o755);
    e2.links = 11;
    e2.uid = 500;
    e2.blocks = 0;
    let entries = vec![e1, e2];
    let times = vec![no_times(), no_times()];
    let sel = plain_selection();
    let lines = format_long_civil(&entries, &times, &sel);
    assert_eq!(lines.len(), 2);
    assert_eq!(lines[0], ".rw-r--r--  2 1,234 8 1000 100 alpha");
    assert_eq!(lines[1], "drwxr-xr-x 11     - -  500 100 beta");
}

#[test]
fn empty_batch_renders_nothing() {
    let entries: Vec<Entry> = Vec::new();
    let times: Vec<EntryTimes> = Vec::new();
    let sel = plain_selection();
    let lines = format_long_civil(&entries, &times, &sel);
    assert!(lines.is_empty());
}

#[test]
fn long_lines_idempotent() {
    let entries = vec![
        entry("alpha", EntryKind::Regular, 1234, 0o644),
        entry("beta", EntryKind::Directory, 4096, 0o755),
    ];
    let times = vec![no_times(), no_times()];
    let sel = plain_selection();
    let once = format_long_civil(&entries, &times, &sel);
    let twice = format_long_civil(&entries, &times, &sel);
    assert_eq!(once, twice);
}

#[test]
fn hidden_entries_are_excluded_from_both_passes() {
    let wide_hidden = entry(".hidden-with-a-very-long-name", EntryKind::Regular, 123456789, 0o600);
    let entries = vec![
        entry("alpha", EntryKind::Regular, 10, 0o644),
        wide_hidden,
        entry("beta", EntryKind::Regular, 20, 0o644),
    ];
    let times = vec![no_times(), no_times(), no_times()];
    let mut sel = plain_selection();
    let lines = format_long_civil(&entries, &times, &sel);
    // The hidden entry contributes no line and no width: both visible
    // lines use the two-character size column.
    assert_eq!(lines.len(), 2);
    assert_eq!(lines[0], ".rw-r--r-- 2 10 8 1000 100 alpha");
    assert_eq!(lines[1], ".rw-r--r-- 2 20 8 1000 100 beta");
    sel.show_hidden = true;
    let lines = format_long_civil(&entries, &times, &sel);
    assert_eq!(lines.len(), 3);
}

#[test]
fn human_sizes_in_long_lines() {
    let entries = vec![entry("big", EntryKind::Regular, 1536, 0o644)];
    let times = vec![no_times()];
    let mut sel = plain_selection();
    sel.bytes = false;
    sel.binary = true;
    sel.links = false;
    sel.blocks = false;
    sel.user = false;
    sel.group = false;
    let lines = format_long_civil(&entries, &times, &sel);
    assert_eq!(lines[0], ".rw-r--r-- 1.5ki big");
}

#[test]
fn timestamp_columns_render() {
    let entries = vec![entry("note", EntryKind::Regular, 5, 0o644)];
    let times = vec![EntryTimes {
        modified: Some(CivilTime { day: 5, month: 3, hour: 14, minute: 22 }),
        changed: None,
        created: None,
        accessed: None,
    }];
    let mut sel = plain_selection();
    sel.modified = true;
    sel.links = false;
    sel.blocks = false;
    sel.user = false;
    sel.group = false;
    let lines = format_long_civil(&entries, &times, &sel);
    assert_eq!(lines[0], ".rw-r--r-- 5 05 Mar 14:22 note");
}

#[test]
fn missing_timestamp_is_an_error() {
    let entries = vec![entry("note", EntryKind::Regular, 5, 0o644)];
    let mut sel = plain_selection();
    sel.created = true;
    let r = format_long(&entries, &sel);
    match r {
        Err(e) => {
            assert_eq!(e.index, 0);
            assert_eq!(e.kind, TimeKind::Created);
        },
        Ok(_) => panic!("a missing created timestamp must fail"),
    }
}

#[test]
fn out_of_range_timestamp_is_an_error() {
    let mut e = entry("note", EntryKind::Regular, 5, 0o644);
    e.modified = Some(i64::MAX);
    let entries = vec![e];
    let mut sel = plain_selection();
    sel.modified = true;
    match format_long(&entries, &sel) {
        Err(e) => {
            assert_eq!(e.index, 0);
            assert_eq!(e.kind, TimeKind::Modified);
        },
        Ok(_) => panic!("an unrepresentable modified timestamp must fail"),
    }
}

#[test]
fn first_failing_entry_is_reported() {
    let mut good = entry("good", EntryKind::Regular, 1, 0o644);
    good.modified = Some(1_000_000_000);
    let bad = entry("bad", EntryKind::Regular, 1, 0o644);
    let entries = vec![good, bad];
    let mut sel = plain_selection();
    sel.modified = true;
    match format_long(&entries, &sel) {
        Err(e) => {
            assert_eq!(e.index, 1);
            assert_eq!(e.kind, TimeKind::Modified);
        },
        Ok(_) => panic!("a missing modified timestamp must fail"),
    }
}

#[test]
fn first_failing_kind_is_reported_in_canonical_order() {
    let mut e = entry("note", EntryKind::Regular, 1, 0o644);
    e.modified = Some(1_000_000_000);
    // both the changed and the created timestamps are absent; the changed
    // column comes first in canonical order
    let entries = vec![e];
    let mut sel = plain_selection();
    sel.modified = true;
    sel.changed = true;
    sel.created = true;
    match format_long(&entries, &sel) {
        Err(e) => {
            assert_eq!(e.index, 0);
            assert_eq!(e.kind, TimeKind::Changed);
        },
        Ok(_) => panic!("missing changed and created timestamps must fail"),
    }
}

#[test]
fn present_timestamp_formats_through_local_time() {
    let mut e = entry("note", EntryKind::Regular, 5, 0o644);
    e.modified = Some(1_000_000_000);
    let entries = vec![e];
    let mut sel = plain_selection();
    sel.modified = true;
    sel.links = false;
    sel.blocks = false;
    sel.user = false;
    sel.group = false;
    let lines = format_long(&entries, &sel).expect("present timestamp must format");
    assert_eq!(lines.len(), 1);
    // The local rendering of the instant varies with the time zone, but the
    // pattern is always twelve characters between the size column and the
    // name, with the clock colon in a fixed position.
    let line = &lines[0];
    assert_eq!(line.len(), ".rw-r--r-- 5 ".len() + 12 + " note".len());
    assert!(line.ends_with(" note"));
    let time_part = &line[13..25];
    assert_eq!(&time_part[9..10], ":");
}
