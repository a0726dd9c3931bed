//! The long-form column-width negotiator: a two-pass algorithm that first
//! measures, per active field, the maximum rendered width over the visible
//! entries of a batch, and then renders each visible entry with every field
//! aligned to its column's width.

use vstd::prelude::*;

use crate::entry::civil_of;
use crate::entry::entry_times_ok;
use crate::entry::batch_epochs_ok;
use crate::entry::entry_epochs_ok;
use crate::entry::epoch_of;
use crate::entry::epoch_ok;
use crate::entry::kind_rank;
use crate::entry::name_is_hidden;
use crate::entry::time_selected;
use crate::entry::times_ok;
use crate::entry::visible;
use crate::entry::Entry;
use crate::entry::EntryKind;
use crate::entry::EntryTimes;
use crate::entry::FieldSelection;
use crate::entry::FormatError;
use crate::entry::TimeKind;
use crate::numfmt::dec_digits;
use crate::numfmt::dec_digits_exec;
use crate::numfmt::human_chars;
use crate::numfmt::human_size;
use crate::numfmt::sep_chars;
use crate::numfmt::sep_string;
use crate::perms::perm_chars;
use crate::perms::perm_string;
use crate::text::chars_to_string;
use crate::text::push_chars;
use crate::text::push_spaces;
use crate::text::push_str_chars;
use crate::text::spaces;
use crate::timefmt::civil_from_epoch;
use crate::timefmt::epoch_in_range;
use crate::timefmt::time_chars;
use crate::timefmt::time_string;
use crate::timefmt::CivilTime;

verus! {

/// The optional width-negotiated columns, in canonical render order. The
/// permission column is not here: it has a fixed width.
#[derive(Clone, Copy, PartialEq, Eq, Structural, Debug)]
pub enum Field {
    Inode,
    Links,
    Size,
    Blocks,
    User,
    Group,
    Modified,
    Changed,
    Created,
    Accessed,
}

/// Whether the selection activates column `f`.
pub open spec fn field_active(sel: FieldSelection, f: Field) -> bool {
    match f {
        Field::Inode => sel.inode,
        Field::Links => sel.links,
        Field::Size => sel.size,
        Field::Blocks => sel.blocks,
        Field::User => sel.user,
        Field::Group => sel.group,
        Field::Modified => sel.modified,
        Field::Changed => sel.changed,
        Field::Created => sel.created,
        Field::Accessed => sel.accessed,
    }
}

/// The rendered size column of one entry: a dash for anything but a regular
/// file, else the byte-exact or human-readable rendering.
pub open spec fn size_text(e: Entry, sel: FieldSelection) -> Seq<char> {
    if !(e.kind is Regular) {
        seq!['-']
    } else if sel.bytes {
        sep_string(e.size as nat)
    } else {
        human_size(e.size as nat, sel.binary)
    }
}

/// The rendered timestamp column for a resolved civil time; empty when the
/// time is absent (the renderer is never applied to an absent time).
pub open spec fn time_text(o: Option<CivilTime>) -> Seq<char> {
    match o {
        Some(c) => time_string(c),
        None => Seq::empty(),
    }
}

/// The rendered text of column `f` for one entry.
pub open spec fn field_text(e: Entry, t: EntryTimes, sel: FieldSelection, f: Field) -> Seq<char> {
    match f {
        Field::Inode => dec_digits(e.inode as nat),
        Field::Links => dec_digits(e.links as nat),
        Field::Size => size_text(e, sel),
        Field::Blocks => if e.blocks == 0 {
            seq!['-']
        } else {
            dec_digits(e.blocks as nat)
        },
        Field::User => dec_digits(e.uid as nat),
        Field::Group => dec_digits(e.gid as nat),
        Field::Modified => time_text(t.modified),
        Field::Changed => time_text(t.changed),
        Field::Created => time_text(t.created),
        Field::Accessed => time_text(t.accessed),
    }
}

/// The resolved civil time that rendering column `f` consumes is present
/// and in range; trivial for the non-timestamp columns.
pub open spec fn civil_need(t: EntryTimes, f: Field) -> bool {
    match f {
        Field::Modified => t.modified matches Some(c) && c.valid(),
        Field::Changed => t.changed matches Some(c) && c.valid(),
        Field::Created => t.created matches Some(c) && c.valid(),
        Field::Accessed => t.accessed matches Some(c) && c.valid(),
        _ => true,
    }
}

/// The maximum rendered width of column `f` over the visible entries among
/// the first `n`, or zero when the column is inactive.
pub open spec fn field_width_up_to(
    entries: Seq<Entry>,
    times: Seq<EntryTimes>,
    sel: FieldSelection,
    f: Field,
    n: int,
) -> nat
    decreases n,
{
    if n <= 0 {
        0
    } else {
        let w = field_width_up_to(entries, times, sel, f, n - 1);
        if visible(entries[n - 1], sel) && field_active(sel, f) {
            let l = field_text(entries[n - 1], times[n - 1], sel, f).len();
            if l > w {
                l
            } else {
                w
            }
        } else {
            w
        }
    }
}

/// The column width of field `f` for the whole batch.
pub open spec fn field_width(
    entries: Seq<Entry>,
    times: Seq<EntryTimes>,
    sel: FieldSelection,
    f: Field,
) -> nat {
    field_width_up_to(entries, times, sel, f, entries.len() as int)
}

/// The per-batch column width table: for every negotiated field, the
/// maximum rendered width over the visible entries.
pub struct Widths {
    pub inode: nat,
    pub links: nat,
    pub size: nat,
    pub blocks: nat,
    pub user: nat,
    pub group: nat,
    pub modified: nat,
    pub changed: nat,
    pub created: nat,
    pub accessed: nat,
}

/// The width the table assigns to field `f`.
pub open spec fn width_of(w: Widths, f: Field) -> nat {
    match f {
        Field::Inode => w.inode,
        Field::Links => w.links,
        Field::Size => w.size,
        Field::Blocks => w.blocks,
        Field::User => w.user,
        Field::Group => w.group,
        Field::Modified => w.modified,
        Field::Changed => w.changed,
        Field::Created => w.created,
        Field::Accessed => w.accessed,
    }
}

/// The width table of a batch.
pub open spec fn widths_of(entries: Seq<Entry>, times: Seq<EntryTimes>, sel: FieldSelection) -> Widths {
    Widths {
        inode: field_width(entries, times, sel, Field::Inode),
        links: field_width(entries, times, sel, Field::Links),
        size: field_width(entries, times, sel, Field::Size),
        blocks: field_width(entries, times, sel, Field::Blocks),
        user: field_width(entries, times, sel, Field::User),
        group: field_width(entries, times, sel, Field::Group),
        modified: field_width(entries, times, sel, Field::Modified),
        changed: field_width(entries, times, sel, Field::Changed),
        created: field_width(entries, times, sel, Field::Created),
        accessed: field_width(entries, times, sel, Field::Accessed),
    }
}

/// `s` right-aligned in a column of width `w`, followed by one separating
/// space.
pub open spec fn padded(s: Seq<char>, w: nat) -> Seq<char>
    recommends
        s.len() <= w,
{
    spaces((w - s.len()) as nat) + s + seq![' ']
}

/// The rendered segment of column `f`: the padded text when the column is
/// active, nothing otherwise.
pub open spec fn seg(e: Entry, t: EntryTimes, sel: FieldSelection, f: Field, w: nat) -> Seq<char> {
    if field_active(sel, f) {
        padded(field_text(e, t, sel, f), w)
    } else {
        Seq::empty()
    }
}

/// The fixed-width permission segment: the ten permission characters,
/// left-aligned, followed by one space; nothing when the column is off.
pub open spec fn perm_seg(e: Entry, sel: FieldSelection) -> Seq<char> {
    if sel.permissions {
        perm_string(e.mode, e.kind is Directory) + seq![' ']
    } else {
        Seq::empty()
    }
}

/// One entry's rendered line: the active fields in canonical order - inode,
/// permissions, links, size, blocks, user, group, then the selected
/// timestamps in the order modified, changed, created, accessed - each
/// aligned to its column width, with the entry name appended last, unpadded.
pub open spec fn render_line(e: Entry, t: EntryTimes, sel: FieldSelection, w: Widths) -> Seq<
    char,
> {
    seg(e, t, sel, Field::Inode, w.inode) + perm_seg(e, sel) + seg(e, t, sel, Field::Links, w.links)
        + seg(e, t, sel, Field::Size, w.size) + seg(e, t, sel, Field::Blocks, w.blocks) + seg(
        e,
        t,
        sel,
        Field::User,
        w.user,
    ) + seg(e, t, sel, Field::Group, w.group) + seg(e, t, sel, Field::Modified, w.modified) + seg(
        e,
        t,
        sel,
        Field::Changed,
        w.changed,
    ) + seg(e, t, sel, Field::Created, w.created) + seg(e, t, sel, Field::Accessed, w.accessed)
        + e.name@
}

/// The rendered lines of the visible entries among the first `n`, in input
/// order, under width table `w`.
pub open spec fn lines_up_to(
    entries: Seq<Entry>,
    times: Seq<EntryTimes>,
    sel: FieldSelection,
    w: Widths,
    n: int,
) -> Seq<Seq<char>>
    decreases n,
{
    if n <= 0 {
        Seq::empty()
    } else {
        let rest = lines_up_to(entries, times, sel, w, n - 1);
        if visible(entries[n - 1], sel) {
            rest.push(render_line(entries[n - 1], times[n - 1], sel, w))
        } else {
            rest
        }
    }
}

/// The full long-form rendering of a batch: every visible entry's line, in
/// input order, under the batch's own width table.
pub open spec fn long_lines(
    entries: Seq<Entry>,
    times: Seq<EntryTimes>,
    sel: FieldSelection,
) -> Seq<Seq<char>> {
    lines_up_to(entries, times, sel, widths_of(entries, times, sel), entries.len() as int)
}

/// The executable width table, bit-for-bit the ghost `Widths` over `usize`.
pub struct ColWidths {
    pub inode: usize,
    pub links: usize,
    pub size: usize,
    pub blocks: usize,
    pub user: usize,
    pub group: usize,
    pub modified: usize,
    pub changed: usize,
    pub created: usize,
    pub accessed: usize,
}

/// The ghost width table an executable one denotes.
pub open spec fn widths_view(cw: ColWidths) -> Widths {
    Widths {
        inode: cw.inode as nat,
        links: cw.links as nat,
        size: cw.size as nat,
        blocks: cw.blocks as nat,
        user: cw.user as nat,
        group: cw.group as nat,
        modified: cw.modified as nat,
        changed: cw.changed as nat,
        created: cw.created as nat,
        accessed: cw.accessed as nat,
    }
}

/// Every visible entry's rendered text for an active field fits in that
/// field's negotiated column width.
pub proof fn lemma_field_width_bound(
    entries: Seq<Entry>,
    times: Seq<EntryTimes>,
    sel: FieldSelection,
    f: Field,
    i: int,
    n: int,
)
    requires
        0 <= i < n <= entries.len(),
    ensures
        visible(entries[i], sel) && field_active(sel, f) ==> field_text(
            entries[i],
            times[i],
            sel,
            f,
        ).len() <= field_width_up_to(entries, times, sel, f, n),
    decreases n,
{
    if i < n - 1 {
        lemma_field_width_bound(entries, times, sel, f, i, n - 1);
    }
}

/// The larger of two widths.
pub open spec fn max_nat(a: nat, b: nat) -> nat {
    if a >= b {
        a
    } else {
        b
    }
}

/// The number of visible entries among the first `n`.
pub open spec fn visible_count(entries: Seq<Entry>, sel: FieldSelection, n: int) -> nat
    decreases n,
{
    if n <= 0 {
        0
    } else {
        visible_count(entries, sel, n - 1) + if visible(entries[n - 1], sel) {
            1nat
        } else {
            0nat
        }
    }
}

proof fn lemma_vc_mono(entries: Seq<Entry>, sel: FieldSelection, a: int, b: int)
    requires
        a <= b,
    ensures
        visible_count(entries, sel, a) <= visible_count(entries, sel, b),
    decreases b - a,
{
    if a < b {
        lemma_vc_mono(entries, sel, a, b - 1);
    }
}

proof fn lemma_fw_prefix(
    e1: Seq<Entry>,
    t1: Seq<EntryTimes>,
    e2: Seq<Entry>,
    t2: Seq<EntryTimes>,
    sel: FieldSelection,
    f: Field,
    n: int,
)
    requires
        forall|j: int| 0 <= j < n ==> (#[trigger] e1[j]) == e2[j],
        forall|j: int| 0 <= j < n ==> (#[trigger] t1[j]) == t2[j],
    ensures
        field_width_up_to(e1, t1, sel, f, n) == field_width_up_to(e2, t2, sel, f, n),
    decreases n,
{
    if n > 0 {
        lemma_fw_prefix(e1, t1, e2, t2, sel, f, n - 1);
    }
}

proof fn lemma_lines_prefix(
    e1: Seq<Entry>,
    t1: Seq<EntryTimes>,
    e2: Seq<Entry>,
    t2: Seq<EntryTimes>,
    sel: FieldSelection,
    w: Widths,
    n: int,
)
    requires
        forall|j: int| 0 <= j < n ==> (#[trigger] e1[j]) == e2[j],
        forall|j: int| 0 <= j < n ==> (#[trigger] t1[j]) == t2[j],
    ensures
        lines_up_to(e1, t1, sel, w, n) == lines_up_to(e2, t2, sel, w, n),
    decreases n,
{
    if n > 0 {
        lemma_lines_prefix(e1, t1, e2, t2, sel, w, n - 1);
    }
}

/// Each batch prefix renders one line per visible entry.
pub proof fn lemma_lines_len(
    entries: Seq<Entry>,
    times: Seq<EntryTimes>,
    sel: FieldSelection,
    w: Widths,
    n: int,
)
    ensures
        lines_up_to(entries, times, sel, w, n).len() == visible_count(entries, sel, n),
    decreases n,
{
    if n > 0 {
        lemma_lines_len(entries, times, sel, w, n - 1);
    }
}

proof fn lemma_fw_remove(
    entries: Seq<Entry>,
    times: Seq<EntryTimes>,
    sel: FieldSelection,
    f: Field,
    i: int,
    n: int,
)
    requires
        0 <= i < n <= entries.len(),
        times.len() == entries.len(),
    ensures
        field_width_up_to(entries, times, sel, f, n) == max_nat(
            field_width_up_to(entries.remove(i), times.remove(i), sel, f, n - 1),
            if visible(entries[i], sel) && field_active(sel, f) {
                field_text(entries[i], times[i], sel, f).len()
            } else {
                0
            },
        ),
    decreases n,
{
    entries.remove_ensures(i);
    times.remove_ensures(i);
    let re = entries.remove(i);
    let rt = times.remove(i);
    if i == n - 1 {
        lemma_fw_prefix(re, rt, entries, times, sel, f, n - 1);
    } else {
        lemma_fw_remove(entries, times, sel, f, i, n - 1);
        assert(re[n - 2] == entries[n - 1]);
        assert(rt[n - 2] == times[n - 1]);
    }
}

proof fn lemma_lines_remove(
    entries: Seq<Entry>,
    times: Seq<EntryTimes>,
    sel: FieldSelection,
    w: Widths,
    i: int,
    n: int,
)
    requires
        0 <= i < n <= entries.len(),
        times.len() == entries.len(),
        visible(entries[i], sel),
    ensures
        lines_up_to(entries, times, sel, w, n) == lines_up_to(
            entries.remove(i),
            times.remove(i),
            sel,
            w,
            n - 1,
        ).insert(visible_count(entries, sel, i) as int, render_line(entries[i], times[i], sel, w)),
    decreases n,
{
    entries.remove_ensures(i);
    times.remove_ensures(i);
    let re = entries.remove(i);
    let rt = times.remove(i);
    let line_i = render_line(entries[i], times[i], sel, w);
    let p = visible_count(entries, sel, i) as int;
    if i == n - 1 {
        lemma_lines_prefix(re, rt, entries, times, sel, w, n - 1);
        lemma_lines_len(entries, times, sel, w, n - 1);
        assert(lines_up_to(re, rt, sel, w, n - 1).insert(p, line_i) =~= lines_up_to(
            entries,
            times,
            sel,
            w,
            n - 1,
        ).push(line_i));
    } else {
        lemma_lines_remove(entries, times, sel, w, i, n - 1);
        assert(re[n - 2] == entries[n - 1]);
        assert(rt[n - 2] == times[n - 1]);
        let s = lines_up_to(re, rt, sel, w, n - 2);
        lemma_lines_len(re, rt, sel, w, n - 2);
        assert(visible_count(re, sel, n - 2) >= visible_count(re, sel, i)) by {
            lemma_vc_mono(re, sel, i, n - 2);
        }
        assert(visible_count(re, sel, i) == visible_count(entries, sel, i)) by {
            lemma_vc_prefix(re, entries, sel, i);
        }
        if visible(entries[n - 1], sel) {
            let l2 = render_line(entries[n - 1], times[n - 1], sel, w);
            assert(s.insert(p, line_i).push(l2) =~= s.push(l2).insert(p, line_i));
        }
    }
}

proof fn lemma_vc_prefix(e1: Seq<Entry>, e2: Seq<Entry>, sel: FieldSelection, n: int)
    requires
        forall|j: int| 0 <= j < n ==> (#[trigger] e1[j]) == e2[j],
    ensures
        visible_count(e1, sel, n) == visible_count(e2, sel, n),
    decreases n,
{
    if n > 0 {
        lemma_vc_prefix(e1, e2, sel, n - 1);
    }
}

/// Within one batch, the rendered segment of an active field spans the
/// same character width on every visible line: the negotiated column width
/// plus the one separating space, whichever entry the line shows.
pub proof fn lemma_uniform_field_width(
    entries: Seq<Entry>,
    times: Seq<EntryTimes>,
    sel: FieldSelection,
    f: Field,
    i: int,
)
    requires
        0 <= i < entries.len(),
        visible(entries[i], sel),
        field_active(sel, f),
    ensures
        seg(entries[i], times[i], sel, f, width_of(widths_of(entries, times, sel), f)).len()
            == width_of(widths_of(entries, times, sel), f) + 1,
{
    lemma_field_width_bound(entries, times, sel, f, i, entries.len() as int);
    assert(width_of(widths_of(entries, times, sel), f) == field_width(entries, times, sel, f));
}

/// Removing one visible entry from a batch removes exactly its line: when
/// every active field of that entry fits in the remaining batch's column
/// widths (it held no strict maximum), the width table is unchanged and
/// every other entry renders to the same line as before.
pub proof fn lemma_remove_visible_entry(
    entries: Seq<Entry>,
    times: Seq<EntryTimes>,
    sel: FieldSelection,
    i: int,
)
    requires
        0 <= i < entries.len(),
        times.len() == entries.len(),
        visible(entries[i], sel),
        forall|f: Field|
            field_active(sel, f) ==> (#[trigger] field_text(entries[i], times[i], sel, f)).len()
                <= field_width(entries.remove(i), times.remove(i), sel, f),
    ensures
        widths_of(entries.remove(i), times.remove(i), sel) == widths_of(entries, times, sel),
        long_lines(entries, times, sel) == long_lines(
            entries.remove(i),
            times.remove(i),
            sel,
        ).insert(
            visible_count(entries, sel, i) as int,
            render_line(entries[i], times[i], sel, widths_of(entries, times, sel)),
        ),
        long_lines(entries, times, sel).len() == long_lines(entries.remove(i), times.remove(i), sel).len()
            + 1,
{
    let re = entries.remove(i);
    let rt = times.remove(i);
    entries.remove_ensures(i);
    times.remove_ensures(i);
    let n = entries.len() as int;
    assert(re.len() == n - 1);
    lemma_fw_remove(entries, times, sel, Field::Inode, i, n);
    lemma_fw_remove(entries, times, sel, Field::Links, i, n);
    lemma_fw_remove(entries, times, sel, Field::Size, i, n);
    lemma_fw_remove(entries, times, sel, Field::Blocks, i, n);
    lemma_fw_remove(entries, times, sel, Field::User, i, n);
    lemma_fw_remove(entries, times, sel, Field::Group, i, n);
    lemma_fw_remove(entries, times, sel, Field::Modified, i, n);
    lemma_fw_remove(entries, times, sel, Field::Changed, i, n);
    lemma_fw_remove(entries, times, sel, Field::Created, i, n);
    lemma_fw_remove(entries, times, sel, Field::Accessed, i, n);
    assert(widths_of(re, rt, sel) == widths_of(entries, times, sel));
    let w = widths_of(entries, times, sel);
    lemma_lines_remove(entries, times, sel, w, i, n);
    lemma_lines_len(entries, times, sel, w, n);
    lemma_lines_len(re, rt, sel, w, n - 1);
    lemma_vc_prefix(re, entries, sel, i);
    lemma_vc_mono(re, sel, i, n - 1);
    let p = visible_count(entries, sel, i) as int;
    let lr = lines_up_to(re, rt, sel, w, n - 1);
    assert(lr.insert(p, render_line(entries[i], times[i], sel, w)).len() == lr.len() + 1);
}

proof fn lemma_lines_remove_hidden(
    entries: Seq<Entry>,
    times: Seq<EntryTimes>,
    sel: FieldSelection,
    w: Widths,
    i: int,
    n: int,
)
    requires
        0 <= i < n <= entries.len(),
        times.len() == entries.len(),
        !visible(entries[i], sel),
    ensures
        lines_up_to(entries, times, sel, w, n) == lines_up_to(
            entries.remove(i),
            times.remove(i),
            sel,
            w,
            n - 1,
        ),
    decreases n,
{
    entries.remove_ensures(i);
    times.remove_ensures(i);
    let re = entries.remove(i);
    let rt = times.remove(i);
    if i == n - 1 {
        lemma_lines_prefix(re, rt, entries, times, sel, w, n - 1);
    } else {
        lemma_lines_remove_hidden(entries, times, sel, w, i, n - 1);
        assert(re[n - 2] == entries[n - 1]);
        assert(rt[n - 2] == times[n - 1]);
    }
}

/// Exclusion happens identically in both passes: an entry the selection
/// hides contributes neither a line nor any column width, so removing it
/// from the batch leaves the output untouched.
pub proof fn lemma_hidden_entry_ignored(
    entries: Seq<Entry>,
    times: Seq<EntryTimes>,
    sel: FieldSelection,
    i: int,
)
    requires
        0 <= i < entries.len(),
        times.len() == entries.len(),
        !visible(entries[i], sel),
    ensures
        widths_of(entries.remove(i), times.remove(i), sel) == widths_of(entries, times, sel),
        long_lines(entries, times, sel) == long_lines(entries.remove(i), times.remove(i), sel),
{
    let re = entries.remove(i);
    let rt = times.remove(i);
    entries.remove_ensures(i);
    times.remove_ensures(i);
    let n = entries.len() as int;
    lemma_fw_remove(entries, times, sel, Field::Inode, i, n);
    lemma_fw_remove(entries, times, sel, Field::Links, i, n);
    lemma_fw_remove(entries, times, sel, Field::Size, i, n);
    lemma_fw_remove(entries, times, sel, Field::Blocks, i, n);
    lemma_fw_remove(entries, times, sel, Field::User, i, n);
    lemma_fw_remove(entries, times, sel, Field::Group, i, n);
    lemma_fw_remove(entries, times, sel, Field::Modified, i, n);
    lemma_fw_remove(entries, times, sel, Field::Changed, i, n);
    lemma_fw_remove(entries, times, sel, Field::Created, i, n);
    lemma_fw_remove(entries, times, sel, Field::Accessed, i, n);
    assert(widths_of(re, rt, sel) == widths_of(entries, times, sel));
    lemma_lines_remove_hidden(entries, times, sel, widths_of(entries, times, sel), i, n);
}

/// Long-form rendering is a pure function of the batch, the resolved times
/// and the selection: formatting the same batch twice under the same
/// selection gives identical lines.
pub proof fn lemma_long_lines_deterministic(
    e1: Seq<Entry>,
    t1: Seq<EntryTimes>,
    s1: FieldSelection,
    e2: Seq<Entry>,
    t2: Seq<EntryTimes>,
    s2: FieldSelection,
)
    requires
        e1 == e2,
        t1 == t2,
        s1 == s2,
    ensures
        long_lines(e1, t1, s1) == long_lines(e2, t2, s2),
{
}

/// The rendered size column of one entry, as characters.
pub fn size_chars(e: &Entry, sel: &FieldSelection) -> (r: Vec<char>)
    ensures
        r@ == size_text(*e, *sel),
{
    match e.kind {
        EntryKind::Regular => {
            if sel.bytes {
                sep_chars(e.size)
            } else {
                human_chars(e.size, sel.binary)
            }
        },
        _ => {
            let mut v: Vec<char> = Vec::new();
            v.push('-');
            proof {
                assert(v@ =~= seq!['-']);
            }
            v
        },
    }
}

fn time_field_chars(o: &Option<CivilTime>) -> (r: Vec<char>)
    requires
        *o matches Some(c) && c.valid(),
    ensures
        r@ == time_text(*o),
{
    match o {
        Some(c) => time_chars(c),
        None => vstd::pervasive::unreached(),
    }
}

/// The rendered text of column `f` for one entry, as characters.
fn field_chars(e: &Entry, t: &EntryTimes, sel: &FieldSelection, f: Field) -> (r: Vec<char>)
    requires
        civil_need(*t, f),
    ensures
        r@ == field_text(*e, *t, *sel, f),
{
    match f {
        Field::Inode => dec_digits_exec(e.inode),
        Field::Links => dec_digits_exec(e.links),
        Field::Size => size_chars(e, sel),
        Field::Blocks => {
            if e.blocks == 0 {
                let mut v: Vec<char> = Vec::new();
                v.push('-');
                proof {
                    assert(v@ =~= seq!['-']);
                }
                v
            } else {
                dec_digits_exec(e.blocks)
            }
        },
        Field::User => dec_digits_exec(e.uid as u64),
        Field::Group => dec_digits_exec(e.gid as u64),
        Field::Modified => time_field_chars(&t.modified),
        Field::Changed => time_field_chars(&t.changed),
        Field::Created => time_field_chars(&t.created),
        Field::Accessed => time_field_chars(&t.accessed),
    }
}

fn field_active_exec(sel: &FieldSelection, f: Field) -> (b: bool)
    ensures
        b == field_active(*sel, f),
{
    match f {
        Field::Inode => sel.inode,
        Field::Links => sel.links,
        Field::Size => sel.size,
        Field::Blocks => sel.blocks,
        Field::User => sel.user,
        Field::Group => sel.group,
        Field::Modified => sel.modified,
        Field::Changed => sel.changed,
        Field::Created => sel.created,
        Field::Accessed => sel.accessed,
    }
}

/// Appends `s` right-aligned to width `w` plus one separating space.
fn push_padded(line: &mut Vec<char>, s: &Vec<char>, w: usize)
    requires
        s@.len() <= w,
    ensures
        final(line)@ == old(line)@ + padded(s@, w as nat),
{
    push_spaces(line, w - s.len());
    push_chars(line, s);
    line.push(' ');
    proof {
        assert(line@ =~= old(line)@ + padded(s@, w as nat));
    }
}

fn push_segment(
    out: &mut Vec<char>,
    e: &Entry,
    t: &EntryTimes,
    sel: &FieldSelection,
    f: Field,
    w: usize,
)
    requires
        field_active(*sel, f) ==> civil_need(*t, f),
        field_active(*sel, f) ==> field_text(*e, *t, *sel, f).len() <= w,
    ensures
        final(out)@ == old(out)@ + seg(*e, *t, *sel, f, w as nat),
{
    if field_active_exec(sel, f) {
        let cs = field_chars(e, t, sel, f);
        push_padded(out, &cs, w);
    } else {
        proof {
            assert(out@ =~= old(out)@ + seg(*e, *t, *sel, f, w as nat));
        }
    }
}

fn entry_is_visible(e: &Entry, sel: &FieldSelection) -> (b: bool)
    ensures
        b == visible(*e, *sel),
{
    sel.show_hidden || !name_is_hidden(e.name.as_str())
}

/// Renders one visible entry's line under the negotiated widths, using the
/// size text cached by the measure pass.
#[verifier::rlimit(100)]
#[verifier::spinoff_prover]
fn render_line_exec(
    e: &Entry,
    t: &EntryTimes,
    sel: &FieldSelection,
    cw: &ColWidths,
    size_cache: &Vec<char>,
) -> (r: Vec<char>)
    requires
        entry_times_ok(*t, *sel),
        sel.size ==> size_cache@ == field_text(*e, *t, *sel, Field::Size),
        sel.inode ==> field_text(*e, *t, *sel, Field::Inode).len() <= cw.inode,
        sel.links ==> field_text(*e, *t, *sel, Field::Links).len() <= cw.links,
        sel.size ==> field_text(*e, *t, *sel, Field::Size).len() <= cw.size,
        sel.blocks ==> field_text(*e, *t, *sel, Field::Blocks).len() <= cw.blocks,
        sel.user ==> field_text(*e, *t, *sel, Field::User).len() <= cw.user,
        sel.group ==> field_text(*e, *t, *sel, Field::Group).len() <= cw.group,
        sel.modified ==> field_text(*e, *t, *sel, Field::Modified).len() <= cw.modified,
        sel.changed ==> field_text(*e, *t, *sel, Field::Changed).len() <= cw.changed,
        sel.created ==> field_text(*e, *t, *sel, Field::Created).len() <= cw.created,
        sel.accessed ==> field_text(*e, *t, *sel, Field::Accessed).len() <= cw.accessed,
    ensures
        r@ == render_line(*e, *t, *sel, widths_view(*cw)),
{
    proof {
        assert(time_selected(*sel, TimeKind::Modified) ==> (civil_of(*t, TimeKind::Modified)
            matches Some(c) && c.valid()));
        assert(time_selected(*sel, TimeKind::Changed) ==> (civil_of(*t, TimeKind::Changed)
            matches Some(c) && c.valid()));
        assert(time_selected(*sel, TimeKind::Created) ==> (civil_of(*t, TimeKind::Created)
            matches Some(c) && c.valid()));
        assert(time_selected(*sel, TimeKind::Accessed) ==> (civil_of(*t, TimeKind::Accessed)
            matches Some(c) && c.valid()));
    }
    let mut out: Vec<char> = Vec::new();
    push_segment(&mut out, e, t, sel, Field::Inode, cw.inode);
    proof {
        assert(out@ =~= seg(*e, *t, *sel, Field::Inode, cw.inode as nat));
    }
    if sel.permissions {
        let is_dir = match e.kind {
            EntryKind::Directory => true,
            _ => false,
        };
        let pc = perm_chars(e.mode, is_dir);
        push_chars(&mut out, &pc);
        out.push(' ');
        proof {
            assert(out@ =~= seg(*e, *t, *sel, Field::Inode, cw.inode as nat) + perm_seg(*e, *sel));
        }
    } else {
        proof {
            assert(out@ =~= seg(*e, *t, *sel, Field::Inode, cw.inode as nat) + perm_seg(*e, *sel));
        }
    }
    push_segment(&mut out, e, t, sel, Field::Links, cw.links);
    if sel.size {
        push_padded(&mut out, size_cache, cw.size);
    } else {
        proof {
            let before = out@;
            assert(before + seg(*e, *t, *sel, Field::Size, cw.size as nat) =~= before);
        }
    }
    push_segment(&mut out, e, t, sel, Field::Blocks, cw.blocks);
    push_segment(&mut out, e, t, sel, Field::User, cw.user);
    push_segment(&mut out, e, t, sel, Field::Group, cw.group);
    push_segment(&mut out, e, t, sel, Field::Modified, cw.modified);
    push_segment(&mut out, e, t, sel, Field::Changed, cw.changed);
    push_segment(&mut out, e, t, sel, Field::Created, cw.created);
    push_segment(&mut out, e, t, sel, Field::Accessed, cw.accessed);
    push_str_chars(&mut out, e.name.as_str());
    proof {
        assert(out@ =~= render_line(*e, *t, *sel, widths_view(*cw)));
    }
    out
}

/// The width of field `f` after measuring one more visible entry.
pub open spec fn upd_width(w: nat, e: Entry, t: EntryTimes, sel: FieldSelection, f: Field) -> nat {
    if field_active(sel, f) {
        max_nat(w, field_text(e, t, sel, f).len())
    } else {
        w
    }
}

#[verifier::rlimit(100)]
#[verifier::spinoff_prover]
fn measure_entry(cw: &mut ColWidths, e: &Entry, t: &EntryTimes, sel: &FieldSelection) -> (size_cs:
    Vec<char>)
    requires
        entry_times_ok(*t, *sel),
    ensures
        final(cw).inode as nat == upd_width(old(cw).inode as nat, *e, *t, *sel, Field::Inode),
        final(cw).links as nat == upd_width(old(cw).links as nat, *e, *t, *sel, Field::Links),
        final(cw).size as nat == upd_width(old(cw).size as nat, *e, *t, *sel, Field::Size),
        final(cw).blocks as nat == upd_width(old(cw).blocks as nat, *e, *t, *sel, Field::Blocks),
        final(cw).user as nat == upd_width(old(cw).user as nat, *e, *t, *sel, Field::User),
        final(cw).group as nat == upd_width(old(cw).group as nat, *e, *t, *sel, Field::Group),
        final(cw).modified as nat == upd_width(
            old(cw).modified as nat,
            *e,
            *t,
            *sel,
            Field::Modified,
        ),
        final(cw).changed as nat == upd_width(old(cw).changed as nat, *e, *t, *sel, Field::Changed),
        final(cw).created as nat == upd_width(old(cw).created as nat, *e, *t, *sel, Field::Created),
        final(cw).accessed as nat == upd_width(
            old(cw).accessed as nat,
            *e,
            *t,
            *sel,
            Field::Accessed,
        ),
        sel.size ==> size_cs@ == field_text(*e, *t, *sel, Field::Size),
        !sel.size ==> size_cs@ == Seq::<char>::empty(),
{
    proof {
        assert(time_selected(*sel, TimeKind::Modified) ==> (civil_of(*t, TimeKind::Modified)
            matches Some(c) && c.valid()));
        assert(time_selected(*sel, TimeKind::Changed) ==> (civil_of(*t, TimeKind::Changed)
            matches Some(c) && c.valid()));
        assert(time_selected(*sel, TimeKind::Created) ==> (civil_of(*t, TimeKind::Created)
            matches Some(c) && c.valid()));
        assert(time_selected(*sel, TimeKind::Accessed) ==> (civil_of(*t, TimeKind::Accessed)
            matches Some(c) && c.valid()));
    }
    if sel.inode {
        let cs = field_chars(e, t, sel, Field::Inode);
        if cs.len() > cw.inode {
            cw.inode = cs.len();
        }
    }
    if sel.links {
        let cs = field_chars(e, t, sel, Field::Links);
        if cs.len() > cw.links {
            cw.links = cs.len();
        }
    }
    if sel.blocks {
        let cs = field_chars(e, t, sel, Field::Blocks);
        if cs.len() > cw.blocks {
            cw.blocks = cs.len();
        }
    }
    if sel.user {
        let cs = field_chars(e, t, sel, Field::User);
        if cs.len() > cw.user {
            cw.user = cs.len();
        }
    }
    if sel.group {
        let cs = field_chars(e, t, sel, Field::Group);
        if cs.len() > cw.group {
            cw.group = cs.len();
        }
    }
    if sel.modified {
        let cs = field_chars(e, t, sel, Field::Modified);
        if cs.len() > cw.modified {
            cw.modified = cs.len();
        }
    }
    if sel.changed {
        let cs = field_chars(e, t, sel, Field::Changed);
        if cs.len() > cw.changed {
            cw.changed = cs.len();
        }
    }
    if sel.created {
        let cs = field_chars(e, t, sel, Field::Created);
        if cs.len() > cw.created {
            cw.created = cs.len();
        }
    }
    if sel.accessed {
        let cs = field_chars(e, t, sel, Field::Accessed);
        if cs.len() > cw.accessed {
            cw.accessed = cs.len();
        }
    }
    if sel.size {
        let cs = field_chars(e, t, sel, Field::Size);
        if cs.len() > cw.size {
            cw.size = cs.len();
        }
        cs
    } else {
        let empty: Vec<char> = Vec::new();
        empty
    }
}

/// The measure pass: computes every active field's column width over the
/// visible entries, and caches the size texts so the render pass never
/// recomputes them. The cache holds an empty text for entries the pass
/// excluded.
#[verifier::rlimit(100)]
#[verifier::spinoff_prover]
pub fn measure_widths(entries: &Vec<Entry>, times: &Vec<EntryTimes>, sel: &FieldSelection) -> (r:
    (ColWidths, Vec<Vec<char>>))
    requires
        times_ok(entries@, times@, *sel),
    ensures
        widths_view(r.0) == widths_of(entries@, times@, *sel),
        r.1@.len() == entries@.len(),
        forall|j: int|
            0 <= j < entries@.len() && visible(entries@[j], *sel) && sel.size ==> (#[trigger] r.1@[
                j
            ])@ == field_text(entries@[j], times@[j], *sel, Field::Size),
{
    let n = entries.len();
    let mut cw = ColWidths {
        inode: 0,
        links: 0,
        size: 0,
        blocks: 0,
        user: 0,
        group: 0,
        modified: 0,
        changed: 0,
        created: 0,
        accessed: 0,
    };
    let mut sizes: Vec<Vec<char>> = Vec::new();
    let mut i: usize = 0;
    while i < n
        invariant
            i <= n,
            n == entries@.len(),
            times_ok(entries@, times@, *sel),
            cw.inode as nat == field_width_up_to(entries@, times@, *sel, Field::Inode, i as int),
            cw.links as nat == field_width_up_to(entries@, times@, *sel, Field::Links, i as int),
            cw.size as nat == field_width_up_to(entries@, times@, *sel, Field::Size, i as int),
            cw.blocks as nat == field_width_up_to(entries@, times@, *sel, Field::Blocks, i as int),
            cw.user as nat == field_width_up_to(entries@, times@, *sel, Field::User, i as int),
            cw.group as nat == field_width_up_to(entries@, times@, *sel, Field::Group, i as int),
            cw.modified as nat == field_width_up_to(
                entries@,
                times@,
                *sel,
                Field::Modified,
                i as int,
            ),
            cw.changed as nat == field_width_up_to(
                entries@,
                times@,
                *sel,
                Field::Changed,
                i as int,
            ),
            cw.created as nat == field_width_up_to(
                entries@,
                times@,
                *sel,
                Field::Created,
                i as int,
            ),
            cw.accessed as nat == field_width_up_to(
                entries@,
                times@,
                *sel,
                Field::Accessed,
                i as int,
            ),
            sizes@.len() == i as int,
            forall|j: int|
                0 <= j < i as int && visible(entries@[j], *sel) && sel.size ==> (#[trigger] sizes@[
                    j
                ])@ == field_text(entries@[j], times@[j], *sel, Field::Size),
        decreases n - i,
    {
        let e = &entries[i];
        let t = &times[i];
        if entry_is_visible(e, sel) {
            proof {
                assert(entry_times_ok(times@[i as int], *sel));
            }
            let cs = measure_entry(&mut cw, e, t, sel);
            sizes.push(cs);
        } else {
            let empty: Vec<char> = Vec::new();
            sizes.push(empty);
        }
        i += 1;
    }
    (cw, sizes)
}

/// The render pass over resolved civil times: every visible entry's line in
/// input order, each field aligned to the batch's negotiated column width.
/// The output is a pure function of the batch, the resolved times and the
/// selection, so rendering the same batch twice gives identical lines.
#[verifier::rlimit(100)]
#[verifier::spinoff_prover]
pub fn format_long_civil(entries: &Vec<Entry>, times: &Vec<EntryTimes>, sel: &FieldSelection) -> (r:
    Vec<String>)
    requires
        times_ok(entries@, times@, *sel),
    ensures
        r.deep_view() == long_lines(entries@, times@, *sel),
{
    let (cw, sizes) = measure_widths(entries, times, sel);
    let ghost w = widths_of(entries@, times@, *sel);
    let n = entries.len();
    let mut out: Vec<String> = Vec::new();
    let mut i: usize = 0;
    while i < n
        invariant
            i <= n,
            n == entries@.len(),
            times_ok(entries@, times@, *sel),
            w == widths_of(entries@, times@, *sel),
            widths_view(cw) == w,
            sizes@.len() == entries@.len(),
            forall|j: int|
                0 <= j < entries@.len() && visible(entries@[j], *sel) && sel.size ==> (
                #[trigger] sizes@[j])@ == field_text(entries@[j], times@[j], *sel, Field::Size),
            out.deep_view() == lines_up_to(entries@, times@, *sel, w, i as int),
        decreases n - i,
    {
        let e = &entries[i];
        let t = &times[i];
        if entry_is_visible(e, sel) {
            proof {
                assert(entry_times_ok(times@[i as int], *sel));
                lemma_field_width_bound(entries@, times@, *sel, Field::Inode, i as int, n as int);
                lemma_field_width_bound(entries@, times@, *sel, Field::Links, i as int, n as int);
                lemma_field_width_bound(entries@, times@, *sel, Field::Size, i as int, n as int);
                lemma_field_width_bound(entries@, times@, *sel, Field::Blocks, i as int, n as int);
                lemma_field_width_bound(entries@, times@, *sel, Field::User, i as int, n as int);
                lemma_field_width_bound(entries@, times@, *sel, Field::Group, i as int, n as int);
                lemma_field_width_bound(
                    entries@,
                    times@,
                    *sel,
                    Field::Modified,
                    i as int,
                    n as int,
                );
                lemma_field_width_bound(entries@, times@, *sel, Field::Changed, i as int, n as int);
                lemma_field_width_bound(entries@, times@, *sel, Field::Created, i as int, n as int);
                lemma_field_width_bound(
                    entries@,
                    times@,
                    *sel,
                    Field::Accessed,
                    i as int,
                    n as int,
                );
            }
            let line = render_line_exec(e, t, sel, &cw, &sizes[i]);
            let s = chars_to_string(&line);
            out.push(s);
            proof {
                assert(out.deep_view() =~= lines_up_to(entries@, times@, *sel, w, i + 1));
            }
        } else {
            proof {
                assert(out.deep_view() =~= lines_up_to(entries@, times@, *sel, w, i + 1));
            }
        }
        i += 1;
    }
    out
}

/// A visible entry with a selected timestamp that is absent or out of
/// range makes the whole batch unresolvable, whatever the rest holds.
proof fn lemma_first_failure(entries: Seq<Entry>, sel: FieldSelection, i: int, k: TimeKind)
    requires
        0 <= i < entries.len(),
        visible(entries[i], sel),
        time_selected(sel, k),
        !epoch_ok(entries[i], k),
    ensures
        !entry_epochs_ok(entries[i], sel),
        !batch_epochs_ok(entries, sel),
{
    assert(!entry_epochs_ok(entries[i], sel)) by {
        if entry_epochs_ok(entries[i], sel) {
            assert(epoch_ok(entries[i], k));
        }
    }
    if batch_epochs_ok(entries, sel) {
        assert(entry_epochs_ok(entries[i], sel));
    }
}

/// Resolves every selected timestamp of every visible entry to local civil
/// time. Succeeds exactly when every visible entry carries every selected
/// timestamp and chrono can represent it; otherwise names the first
/// failing entry in input order and, within it, the first failing column
/// in canonical order.
pub fn resolve_times(entries: &Vec<Entry>, sel: &FieldSelection) -> (r: Result<
    Vec<EntryTimes>,
    FormatError,
>)
    ensures
        r matches Ok(ts) ==> times_ok(entries@, ts@, *sel),
        r is Ok <==> batch_epochs_ok(entries@, *sel),
        r matches Err(e) ==> e.index < entries@.len() && visible(entries@[e.index as int], *sel)
            && time_selected(*sel, e.kind) && !epoch_ok(entries@[e.index as int], e.kind),
        r matches Err(e) ==> forall|j: int|
            0 <= j < e.index && visible(entries@[j], *sel) ==> entry_epochs_ok(
                #[trigger] entries@[j],
                *sel,
            ),
        r matches Err(e) ==> forall|k: TimeKind|
            time_selected(*sel, k) && kind_rank(k) < kind_rank(e.kind)
                ==> #[trigger] epoch_ok(entries@[e.index as int], k),
{
    let n = entries.len();
    let mut ts: Vec<EntryTimes> = Vec::new();
    let mut i: usize = 0;
    while i < n
        invariant
            i <= n,
            n == entries@.len(),
            ts@.len() == i as int,
            forall|j: int|
                0 <= j < i as int && visible(entries@[j], *sel) ==> entry_times_ok(
                    #[trigger] ts@[j],
                    *sel,
                ),
            forall|j: int|
                0 <= j < i as int && visible(entries@[j], *sel) ==> entry_epochs_ok(
                    #[trigger] entries@[j],
                    *sel,
                ),
        decreases n - i,
    {
        let e = &entries[i];
        let mut nt = EntryTimes { modified: None, changed: None, created: None, accessed: None };
        if entry_is_visible(e, sel) {
            if sel.modified {
                match resolve_epoch(&e.modified) {
                    Some(c) => {
                        nt.modified = Some(c);
                    },
                    None => {
                        proof {
                            assert(epoch_of(entries@[i as int], TimeKind::Modified) == e.modified);
                            lemma_first_failure(entries@, *sel, i as int, TimeKind::Modified);
                        }
                        return Err(FormatError { index: i, kind: TimeKind::Modified });
                    },
                }
            }
            if sel.changed {
                match resolve_epoch(&e.changed) {
                    Some(c) => {
                        nt.changed = Some(c);
                    },
                    None => {
                        proof {
                            assert(epoch_of(entries@[i as int], TimeKind::Changed) == e.changed);
                            lemma_first_failure(entries@, *sel, i as int, TimeKind::Changed);
                            assert forall|k: TimeKind|
                                time_selected(*sel, k) && kind_rank(k) < kind_rank(
                                    TimeKind::Changed,
                                ) implies #[trigger] epoch_ok(entries@[i as int], k) by {
                                assert(k is Modified);
                                assert(epoch_of(entries@[i as int], k) == e.modified);
                            }
                        }
                        return Err(FormatError { index: i, kind: TimeKind::Changed });
                    },
                }
            }
            if sel.created {
                match resolve_epoch(&e.created) {
                    Some(c) => {
                        nt.created = Some(c);
                    },
                    None => {
                        proof {
                            assert(epoch_of(entries@[i as int], TimeKind::Created) == e.created);
                            lemma_first_failure(entries@, *sel, i as int, TimeKind::Created);
                            assert forall|k: TimeKind|
                                time_selected(*sel, k) && kind_rank(k) < kind_rank(
                                    TimeKind::Created,
                                ) implies #[trigger] epoch_ok(entries@[i as int], k) by {
                                if k is Modified {
                                    assert(epoch_of(entries@[i as int], k) == e.modified);
                                } else {
                                    assert(k is Changed);
                                    assert(epoch_of(entries@[i as int], k) == e.changed);
                                }
                            }
                        }
                        return Err(FormatError { index: i, kind: TimeKind::Created });
                    },
                }
            }
            if sel.accessed {
                match resolve_epoch(&e.accessed) {
                    Some(c) => {
                        nt.accessed = Some(c);
                    },
                    None => {
                        proof {
                            assert(epoch_of(entries@[i as int], TimeKind::Accessed) == e.accessed);
                            lemma_first_failure(entries@, *sel, i as int, TimeKind::Accessed);
                            assert forall|k: TimeKind|
                                time_selected(*sel, k) && kind_rank(k) < kind_rank(
                                    TimeKind::Accessed,
                                ) implies #[trigger] epoch_ok(entries@[i as int], k) by {
                                if k is Modified {
                                    assert(epoch_of(entries@[i as int], k) == e.modified);
                                } else if k is Changed {
                                    assert(epoch_of(entries@[i as int], k) == e.changed);
                                } else {
                                    assert(k is Created);
                                    assert(epoch_of(entries@[i as int], k) == e.created);
                                }
                            }
                        }
                        return Err(FormatError { index: i, kind: TimeKind::Accessed });
                    },
                }
            }
            proof {
                assert forall|k: TimeKind| time_selected(*sel, k) implies (#[trigger] civil_of(
                    nt,
                    k,
                )) matches Some(c) && c.valid() by {
                    if k is Modified {
                        assert(civil_of(nt, k) == nt.modified);
                    } else if k is Changed {
                        assert(civil_of(nt, k) == nt.changed);
                    } else if k is Created {
                        assert(civil_of(nt, k) == nt.created);
                    } else {
                        assert(civil_of(nt, k) == nt.accessed);
                    }
                }
                assert(entry_times_ok(nt, *sel));
                assert forall|k: TimeKind| time_selected(*sel, k) implies #[trigger] epoch_ok(
                    entries@[i as int],
                    k,
                ) by {
                    if k is Modified {
                        assert(epoch_of(entries@[i as int], k) == e.modified);
                    } else if k is Changed {
                        assert(epoch_of(entries@[i as int], k) == e.changed);
                    } else if k is Created {
                        assert(epoch_of(entries@[i as int], k) == e.created);
                    } else {
                        assert(epoch_of(entries@[i as int], k) == e.accessed);
                    }
                }
                assert(entry_epochs_ok(entries@[i as int], *sel));
            }
        }
        ts.push(nt);
        i += 1;
    }
    proof {
        assert(batch_epochs_ok(entries@, *sel));
    }
    Ok(ts)
}

fn resolve_epoch(epoch: &Option<i64>) -> (r: Option<CivilTime>)
    ensures
        r matches Some(c) ==> c.valid(),
        r is Some <==> (*epoch matches Some(s) && epoch_in_range(s)),
{
    match epoch {
        Some(s) => civil_from_epoch(*s),
        None => None,
    }
}

/// Formats a batch of entries in long form: resolves the selected
/// timestamps of the visible entries to local civil time, then renders per
/// `long_lines`. Succeeds exactly when every visible entry carries every
/// selected timestamp and chrono can represent it; otherwise names the
/// first failing entry in input order and, within it, the first failing
/// column in canonical order.
pub fn format_long(entries: &Vec<Entry>, sel: &FieldSelection) -> (r: Result<
    Vec<String>,
    FormatError,
>)
    ensures
        r matches Ok(lines) ==> exists|ts: Seq<EntryTimes>|
            times_ok(entries@, ts, *sel) && lines.deep_view() == long_lines(entries@, ts, *sel),
        r is Ok <==> batch_epochs_ok(entries@, *sel),
        r matches Err(e) ==> e.index < entries@.len() && visible(entries@[e.index as int], *sel)
            && time_selected(*sel, e.kind) && !epoch_ok(entries@[e.index as int], e.kind),
        r matches Err(e) ==> forall|j: int|
            0 <= j < e.index && visible(entries@[j], *sel) ==> entry_epochs_ok(
                #[trigger] entries@[j],
                *sel,
            ),
        r matches Err(e) ==> forall|k: TimeKind|
            time_selected(*sel, k) && kind_rank(k) < kind_rank(e.kind)
                ==> #[trigger] epoch_ok(entries@[e.index as int], k),
{
    match resolve_times(entries, sel) {
        Ok(ts) => {
            let lines = format_long_civil(entries, &ts, sel);
            proof {
                assert(times_ok(entries@, ts@, *sel) && lines.deep_view() == long_lines(
                    entries@,
                    ts@,
                    *sel,
                ));
            }
            Ok(lines)
        },
        Err(e) => Err(e),
    }
}

} // verus!
