//! The data model consumed by the formatters: one filesystem entry's
//! captured metadata, the active field selection, and the error surfaced
//! when a selected timestamp cannot be rendered.

use vstd::prelude::*;

use crate::timefmt::CivilTime;

verus! {

/// The kind of a filesystem object, as far as the display distinguishes it.
#[derive(Clone, Copy, PartialEq, Eq, Structural, Debug)]
pub enum EntryKind {
    Directory,
    Regular,
    Other,
}

/// One filesystem entry's captured metadata. Entries are read-only inputs;
/// the caller guarantees the fields were captured consistently. A timestamp
/// field is `None` when the platform could not provide it.
pub struct Entry {
    pub name: String,
    pub kind: EntryKind,
    pub size: u64,
    pub links: u64,
    pub inode: u64,
    pub uid: u32,
    pub gid: u32,
    pub blocks: u64,
    pub mode: u32,
    pub modified: Option<i64>,
    pub changed: Option<i64>,
    pub created: Option<i64>,
    pub accessed: Option<i64>,
}

/// Which optional columns are active and which size conventions apply.
/// Supplied once per invocation and never mutated during formatting.
#[derive(Clone, Copy)]
pub struct FieldSelection {
    pub inode: bool,
    pub permissions: bool,
    pub links: bool,
    pub size: bool,
    pub blocks: bool,
    pub user: bool,
    pub group: bool,
    pub modified: bool,
    pub changed: bool,
    pub created: bool,
    pub accessed: bool,
    /// Byte-exact sizes instead of human-readable ones.
    pub bytes: bool,
    /// Binary (1024) instead of decimal (1000) size prefixes.
    pub binary: bool,
    /// Keep entries whose name begins with the hidden marker.
    pub show_hidden: bool,
}

/// The four timestamp kinds an entry carries.
#[derive(Clone, Copy, PartialEq, Eq, Structural, Debug)]
pub enum TimeKind {
    Modified,
    Changed,
    Created,
    Accessed,
}

/// A selected timestamp of one entry could not be rendered: the source
/// field was unavailable or outside the representable range.
#[derive(Clone, Copy, PartialEq, Eq, Structural, Debug)]
pub struct FormatError {
    /// The position of the affected entry in the input batch.
    pub index: usize,
    /// The timestamp kind that could not be rendered.
    pub kind: TimeKind,
}

/// One entry's selected timestamps resolved to local civil time.
#[derive(Clone, Copy)]
pub struct EntryTimes {
    pub modified: Option<CivilTime>,
    pub changed: Option<CivilTime>,
    pub created: Option<CivilTime>,
    pub accessed: Option<CivilTime>,
}

/// Whether a name begins with the hidden-entry marker.
pub open spec fn is_hidden_name(name: Seq<char>) -> bool {
    name.len() > 0 && name[0] == '.'
}

/// Whether the selection keeps this entry in the listing.
pub open spec fn visible(e: Entry, sel: FieldSelection) -> bool {
    sel.show_hidden || !is_hidden_name(e.name@)
}

/// Whether the selection shows the timestamp column of kind `k`.
pub open spec fn time_selected(sel: FieldSelection, k: TimeKind) -> bool {
    match k {
        TimeKind::Modified => sel.modified,
        TimeKind::Changed => sel.changed,
        TimeKind::Created => sel.created,
        TimeKind::Accessed => sel.accessed,
    }
}

/// The epoch value an entry carries for timestamp kind `k`.
pub open spec fn epoch_of(e: Entry, k: TimeKind) -> Option<i64> {
    match k {
        TimeKind::Modified => e.modified,
        TimeKind::Changed => e.changed,
        TimeKind::Created => e.created,
        TimeKind::Accessed => e.accessed,
    }
}

/// The entry carries timestamp kind `k` and chrono can represent it.
pub open spec fn epoch_ok(e: Entry, k: TimeKind) -> bool {
    epoch_of(e, k) matches Some(s) && crate::timefmt::epoch_in_range(s)
}

/// Every selected timestamp of this entry is present and representable.
pub open spec fn entry_epochs_ok(e: Entry, sel: FieldSelection) -> bool {
    forall|k: TimeKind| time_selected(sel, k) ==> #[trigger] epoch_ok(e, k)
}

/// Every visible entry of the batch has every selected timestamp present
/// and representable.
pub open spec fn batch_epochs_ok(entries: Seq<Entry>, sel: FieldSelection) -> bool {
    forall|i: int|
        0 <= i < entries.len() && visible(#[trigger] entries[i], sel) ==> entry_epochs_ok(
            entries[i],
            sel,
        )
}

/// The canonical order in which the timestamp columns are resolved and
/// shown: modified, changed, created, accessed.
pub open spec fn kind_rank(k: TimeKind) -> int {
    match k {
        TimeKind::Modified => 0,
        TimeKind::Changed => 1,
        TimeKind::Created => 2,
        TimeKind::Accessed => 3,
    }
}

/// The resolved civil time an `EntryTimes` carries for kind `k`.
pub open spec fn civil_of(t: EntryTimes, k: TimeKind) -> Option<CivilTime> {
    match k {
        TimeKind::Modified => t.modified,
        TimeKind::Changed => t.changed,
        TimeKind::Created => t.created,
        TimeKind::Accessed => t.accessed,
    }
}

/// The resolved times of one entry cover every selected timestamp kind
/// with an in-range civil time.
pub open spec fn entry_times_ok(t: EntryTimes, sel: FieldSelection) -> bool {
    forall|k: TimeKind|
        time_selected(sel, k) ==> ((#[trigger] civil_of(t, k)) matches Some(c) && c.valid())
}

/// The resolved times cover every visible entry of the batch.
pub open spec fn times_ok(entries: Seq<Entry>, times: Seq<EntryTimes>, sel: FieldSelection) -> bool {
    &&& times.len() == entries.len()
    &&& forall|i: int|
        0 <= i < entries.len() && visible(#[trigger] entries[i], sel) ==> entry_times_ok(
            times[i],
            sel,
        )
}

/// Tests whether an entry name begins with the hidden marker.
pub fn name_is_hidden(name: &str) -> (r: bool)
    ensures
        r == is_hidden_name(name@),
{
    if name.unicode_len() == 0 {
        false
    } else {
        name.get_char(0) == '.'
    }
}

} // verus!
