//! What the command line lets through, plans, says and shows.

use vstd::prelude::*;

use crate::cli::human::{
    done_line, end_line, state_name, status_row, HumanFold, ShowView,
};
use crate::cli::rules::{
    assigns_from, chunk_option, closing, consent_of, device_line, device_with_path, guarded,
    image_refusal, preview, read_name, row_line, slots_from, table, table_head, table_line, wipe_row,
    write_row, Consent, PlanRowView,
};
use crate::device::{names_platform_device, DeviceInfo};
use crate::engine::plan::{extracted_name, WriteJobView};
use crate::error::ErrorView;
use crate::events::{EventView, OpKind, SlotState};
use crate::laws::exports::{reads, reads_at};
use crate::laws::layouts::{refers, references_are_read_exactly, slots_lie_at_their_unit};
use crate::laws::plans::{points_at, references_resolve_to_their_slot};
use crate::layout::{parsed_assign, parsed_ref, LayoutView, SlotAssignView, SlotRefView};
use crate::search::first_where_is;
use crate::text::{
    dec, dec_is_digits, dec_value, is_space, left_in, range_text, right_in, same_ignoring_case,
    starts_with, trim, trim_back, trim_front,
};
use crate::units::{bytes_text, size_value};

verus! {

// ---------------------------------------------------------------------------
// Options
// ---------------------------------------------------------------------------

/// The chunk size is 8 MiB, or the size that the option gives, which must be
/// whole sectors, not none, and at most 512 MiB.
pub proof fn chunks_are_whole_sectors(text: Option<Seq<char>>, sector: u32, n: int)
    requires
        sector > 0,
    ensures
        text is None ==> chunk_option(text, sector) == Ok::<int, ErrorView>(8388608),
        text matches Some(s) ==> (chunk_option(text, sector) == Ok::<int, ErrorView>(n) <==> {
            &&& 0 < n <= 536870912
            &&& n % sector as int == 0
            &&& size_value(s, sector) == Ok::<u64, ErrorView>(n as u64)
        }),
{
}

proof fn assigns_follow(slots: Seq<Seq<char>>, i: int, acc: Seq<SlotAssignView>)
    requires
        0 <= i <= slots.len(),
        acc.len() == i,
        forall|k: int|
            0 <= k < i ==> parsed_assign(#[trigger] slots[k]) == Ok::<SlotAssignView, ErrorView>(
                acc[k],
            ),
    ensures
        assigns_from(slots, i, acc) is Ok <==> forall|k: int|
            i <= k < slots.len() ==> parsed_assign(#[trigger] slots[k]) is Ok,
        assigns_from(slots, i, acc) matches Ok(v) ==> v.len() == slots.len() && forall|k: int|
            0 <= k < slots.len() ==> parsed_assign(#[trigger] slots[k]) == Ok::<
                SlotAssignView,
                ErrorView,
            >(v[k]),
    decreases slots.len() - i,
{
    if i < slots.len() {
        match parsed_assign(slots[i]) {
            Ok(a) => {
                assigns_follow(slots, i + 1, acc.push(a));
            },
            Err(e) => {},
        }
    }
}

/// Every slot option is taken, in order, as it reads by itself; one that cannot
/// be read refuses all.
pub proof fn slot_options_are_taken_in_order(slots: Seq<Seq<char>>)
    ensures
        assigns_from(slots, 0, Seq::empty()) is Ok <==> forall|k: int|
            0 <= k < slots.len() ==> parsed_assign(#[trigger] slots[k]) is Ok,
        assigns_from(slots, 0, Seq::empty()) matches Ok(v) ==> v.len() == slots.len() && forall|
            k: int,
        |
            0 <= k < slots.len() ==> parsed_assign(#[trigger] slots[k]) == Ok::<
                SlotAssignView,
                ErrorView,
            >(v[k]),
{
    assigns_follow(slots, 0, Seq::empty());
}

/// The text refers to unit `place.1` of bank `place.0`.
pub open spec fn means(layout: LayoutView, s: Seq<char>, place: (int, u32)) -> bool {
    exists|r: SlotRefView| #[trigger]
        refers(s, r) && points_at(layout, r, place.0) && r.unit == place.1
}

/// The text refers to a slot of the layout.
pub open spec fn is_meant(layout: LayoutView, s: Seq<char>) -> bool {
    exists|place: (int, u32)| means(layout, s, place)
}

proof fn meanings(layout: LayoutView, s: Seq<char>)
    ensures
        forall|place: (int, u32)| #[trigger]
            means(layout, s, place) <==> (parsed_ref(s) matches Ok(r) && layout.resolved(r) == Ok::<
                (int, u32),
                ErrorView,
            >(place)),
{
    assert forall|place: (int, u32)| #[trigger] means(layout, s, place) <==> (parsed_ref(
        s,
    ) matches Ok(r) && layout.resolved(r) == Ok::<(int, u32), ErrorView>(place)) by {
        if means(layout, s, place) {
            let r = choose|r: SlotRefView| #[trigger]
                refers(s, r) && points_at(layout, r, place.0) && r.unit == place.1;
            references_are_read_exactly(s, r);
            references_resolve_to_their_slot(layout, r);
        }
        if parsed_ref(s) is Ok {
            let r = parsed_ref(s)->Ok_0;
            references_are_read_exactly(s, r);
            references_resolve_to_their_slot(layout, r);
            if layout.resolved(r) == Ok::<(int, u32), ErrorView>(place) {
                let i = choose|i: int| points_at(layout, r, i);
                assert(points_at(layout, r, i));
                assert(refers(s, r));
            }
        }
    }
}

proof fn slots_follow(
    layout: LayoutView,
    slots: Seq<Seq<char>>,
    i: int,
    acc: Seq<(int, u32)>,
)
    requires
        0 <= i <= slots.len(),
        acc.len() == i,
        forall|k: int| 0 <= k < i ==> means(layout, #[trigger] slots[k], acc[k]),
    ensures
        slots_from(layout, slots, i, acc) is Ok <==> forall|k: int|
            i <= k < slots.len() ==> is_meant(layout, #[trigger] slots[k]),
        slots_from(layout, slots, i, acc) matches Ok(v) ==> v.len() == slots.len() && forall|k: int|
            0 <= k < slots.len() ==> means(layout, #[trigger] slots[k], v[k]),
    decreases slots.len() - i,
{
    if i < slots.len() {
        meanings(layout, slots[i]);
        if parsed_ref(slots[i]) is Ok && layout.resolved(parsed_ref(slots[i])->Ok_0) is Ok {
            let x = layout.resolved(parsed_ref(slots[i])->Ok_0)->Ok_0;
            assert(means(layout, slots[i], x));
            slots_follow(layout, slots, i + 1, acc.push(x));
        } else {
            assert(!is_meant(layout, slots[i]));
        }
    }
}

/// Slot references resolve one by one, each to the bank and unit that it means;
/// one that means none refuses all.
pub proof fn slot_references_are_resolved_in_order(layout: LayoutView, slots: Seq<Seq<char>>)
    ensures
        slots_from(layout, slots, 0, Seq::empty()) is Ok <==> forall|k: int|
            0 <= k < slots.len() ==> is_meant(layout, #[trigger] slots[k]),
        slots_from(layout, slots, 0, Seq::empty()) matches Ok(v) ==> v.len() == slots.len()
            && forall|k: int| 0 <= k < slots.len() ==> means(layout, #[trigger] slots[k], v[k]),
{
    slots_follow(layout, slots, 0, Seq::empty());
}

// ---------------------------------------------------------------------------
// Safety rails
// ---------------------------------------------------------------------------

/// Device `i` is the first of the list with that path, in any case.
pub open spec fn is_listed(devices: Seq<DeviceInfo>, path: Seq<char>, i: int) -> bool {
    &&& 0 <= i < devices.len()
    &&& same_ignoring_case(devices[i].path@, path)
    &&& forall|m: int| 0 <= m < i ==> !same_ignoring_case((#[trigger] devices[m]).path@, path)
}

/// No device of the list has that path.
pub open spec fn is_unlisted(devices: Seq<DeviceInfo>, path: Seq<char>) -> bool {
    forall|m: int|
        0 <= m < devices.len() ==> !same_ignoring_case((#[trigger] devices[m]).path@, path)
}

/// Files have no rails. Of raw devices, the system disk never passes; any other
/// that is listed passes if it is known to be removable, or by force; one that
/// is not listed passes by force alone.
pub proof fn rails_are_exact(path: Seq<char>, force: bool, devices: Seq<DeviceInfo>, i: int)
    ensures
        !names_platform_device(path) ==> guarded(path, force, devices) == Ok::<
            Option<int>,
            ErrorView,
        >(None),
        names_platform_device(path) && is_listed(devices, path, i) ==> (if !devices[i].system && (
        devices[i].removable == Some(true) || force) {
            guarded(path, force, devices) == Ok::<Option<int>, ErrorView>(Some(i))
        } else {
            guarded(path, force, devices) is Err
        }),
        names_platform_device(path) && is_unlisted(devices, path) ==> (if force {
            guarded(path, force, devices) == Ok::<Option<int>, ErrorView>(None)
        } else {
            guarded(path, force, devices) is Err
        }),
{
    let p = device_with_path(path);
    if is_listed(devices, path, i) {
        assert forall|m: int| 0 <= m < i implies !p(#[trigger] devices[m]) by {
            assert(!same_ignoring_case(devices[m].path@, path));
        }
        first_where_is(devices, p, i);
    }
    if is_unlisted(devices, path) {
        assert forall|m: int| 0 <= m < devices.len() implies !p(#[trigger] devices[m]) by {
            assert(!same_ignoring_case(devices[m].path@, path));
        }
        first_where_is(devices, p, devices.len() as int);
    }
}

proof fn whole_text_is_trimmed(s: Seq<char>)
    requires
        s.len() > 0,
        !is_space(s[0]),
        !is_space(s.last()),
    ensures
        trim(s) == s,
{
    assert(trim_front(s) == s);
    assert(trim_back(s) == s);
}

/// A path under `/dev/`, `//./` or `\\.\` names a raw device; one that begins
/// with neither a slash nor a backslash is a file.
pub proof fn raw_devices_are_told_by_their_path(rest: Seq<char>)
    requires
        rest.len() > 0,
        !is_space(rest.last()),
    ensures
        names_platform_device("/dev/"@ + rest),
        names_platform_device("//./"@ + rest),
        names_platform_device("\\\\.\\"@ + rest),
        !is_space(rest[0]) && rest[0] != '/' && rest[0] != '\\' ==> !names_platform_device(rest),
{
    reveal_strlit("/dev/");
    reveal_strlit("//./");
    reveal_strlit("\\\\.\\");
    let a = "/dev/"@ + rest;
    let b = "//./"@ + rest;
    let c = "\\\\.\\"@ + rest;
    assert(a.last() == rest.last() && b.last() == rest.last() && c.last() == rest.last());
    whole_text_is_trimmed(a);
    whole_text_is_trimmed(b);
    whole_text_is_trimmed(c);
    assert(a.take(5) =~= "/dev/"@);
    assert(b.take(4) =~= "//./"@);
    assert(c.take(4) =~= "\\\\.\\"@);
    if !is_space(rest[0]) && rest[0] != '/' && rest[0] != '\\' {
        whole_text_is_trimmed(rest);
        if starts_with(rest, "/dev/"@) {
            assert(rest.take(5)[0] == rest[0]);
        }
        if starts_with(rest, "//./"@) {
            assert(rest.take(4)[0] == rest[0]);
        }
        if starts_with(rest, "\\\\.\\"@) {
            assert(rest.take(4)[0] == rest[0]);
        }
    }
}

/// A plan goes ahead without a question exactly when it was confirmed
/// beforehand; otherwise the user is asked, and an event stream is refused.
pub proof fn plans_need_consent(json: bool, yes: bool)
    ensures
        yes ==> consent_of(json, yes) == Ok::<Consent, ErrorView>(Consent::Given),
        !yes && !json ==> consent_of(json, yes) == Ok::<Consent, ErrorView>(Consent::Ask),
        !yes && json ==> consent_of(json, yes) is Err,
{
}

/// A flat image is assembled in a file alone, and over one that exists only
/// when that was confirmed.
pub proof fn images_are_assembled_in_files(out: Seq<char>, exists_already: bool, yes: bool)
    ensures
        image_refusal(out, exists_already, yes) is None <==> !names_platform_device(out) && (
        exists_already ==> yes),
{
}

/// A command that fails says why and that it is done, and not well; one that
/// succeeds says that it is done, unless it is quiet and nobody reads events.
pub proof fn commands_end_with_their_outcome(error: Option<ErrorView>, quiet: bool, json: bool)
    ensures
        ({
            let c = closing(error, quiet, json);
            &&& error matches Some(e) ==> {
                &&& c.len() == 2
                &&& c[0] == (EventView::Error { message: e.text() })
                &&& c[1] == (EventView::Done { ok: false, detail: Some(e.text()) })
            }
            &&& error is None && (json || !quiet) ==> c.len() == 1 && c[0] == (EventView::Done {
                ok: true,
                detail: None,
            })
            &&& error is None && quiet && !json ==> c.len() == 0
        }),
{
}

// ---------------------------------------------------------------------------
// Texts
// ---------------------------------------------------------------------------

/// `part` stands somewhere in the text.
pub open spec fn has_part(text: Seq<char>, part: Seq<char>) -> bool {
    exists|at: int| #[trigger] part_at(text, part, at)
}

pub open spec fn part_at(text: Seq<char>, part: Seq<char>, at: int) -> bool {
    0 <= at && at + part.len() <= text.len() && text.subrange(at, at + part.len()) == part
}

pub(crate) proof fn part_between(a: Seq<char>, part: Seq<char>, b: Seq<char>)
    ensures
        has_part(a + part + b, part),
        has_part(a + part, part),
        has_part(part + b, part),
        has_part(part, part),
{
    assert((a + part + b).subrange(a.len() as int, (a.len() + part.len()) as int) =~= part);
    assert(part_at(a + part + b, part, a.len() as int));
    assert((a + part).subrange(a.len() as int, (a.len() + part.len()) as int) =~= part);
    assert(part_at(a + part, part, a.len() as int));
    assert((part + b).subrange(0, part.len() as int) =~= part);
    assert(part_at(part + b, part, 0));
    assert(part.subrange(0, part.len() as int) =~= part);
    assert(part_at(part, part, 0));
}

pub(crate) proof fn part_in_more(a: Seq<char>, text: Seq<char>, b: Seq<char>, part: Seq<char>)
    requires
        has_part(text, part),
    ensures
        has_part(a + text + b, part),
        has_part(a + text, part),
        has_part(text + b, part),
{
    let at = choose|at: int| #[trigger] part_at(text, part, at);
    let k = a.len() as int;
    assert((a + text + b).subrange(k + at, k + at + part.len()) =~= part) by {
        assert((a + text + b).subrange(k + at, k + at + part.len()) =~= text.subrange(
            at,
            at + part.len(),
        ));
    }
    assert(part_at(a + text + b, part, k + at));
    assert((a + text).subrange(k + at, k + at + part.len()) =~= text.subrange(at, at + part.len()));
    assert(part_at(a + text, part, k + at));
    assert((text + b).subrange(at, at + part.len()) =~= text.subrange(at, at + part.len()));
    assert(part_at(text + b, part, at));
}

/// What is put into a column stands in it whole, with blanks behind it or in
/// front of it up to the column's width.
pub proof fn columns_keep_their_text(s: Seq<char>, width: nat)
    ensures
        left_in(s, width).take(s.len() as int) == s,
        right_in(s, width).skip(right_in(s, width).len() - s.len()) == s,
        left_in(s, width).len() == right_in(s, width).len(),
        left_in(s, width).len() == if s.len() < width {
            width
        } else {
            s.len()
        },
        forall|i: int| s.len() <= i < left_in(s, width).len() ==> #[trigger] left_in(s, width)[i]
            == ' ',
        forall|i: int|
            0 <= i < right_in(s, width).len() - s.len() ==> #[trigger] right_in(s, width)[i] == ' ',
        has_part(left_in(s, width), s),
        has_part(right_in(s, width), s),
{
    let l = left_in(s, width);
    let r = right_in(s, width);
    assert(l.take(s.len() as int) =~= s);
    assert(r.skip(r.len() - s.len()) =~= s);
    assert(l.subrange(0, s.len() as int) =~= s);
    assert(part_at(l, s, 0));
    assert(r.subrange(r.len() - s.len(), r.len() as int) =~= s);
    assert(part_at(r, s, r.len() - s.len()));
}

// ---------------------------------------------------------------------------
// Plans and tables
// ---------------------------------------------------------------------------

/// A row of a write plan is its job's slot, place, image and length; of a wipe
/// plan its slot, place and whole size, and no image.
pub proof fn plan_rows_are_what_is_done(j: WriteJobView, layout: LayoutView, i: int, unit: u32)
    requires
        layout.addressable(),
        0 <= i < layout.banks.len(),
        unit < layout.banks[i].units,
    ensures
        ({
            let w = write_row(j);
            let x = wipe_row(layout, (i, unit));
            let b = layout.banks[i];
            &&& w.bank == j.bank
            &&& w.unit == j.unit
            &&& w.offset == j.extent.offset
            &&& w.bytes == j.image_len
            &&& w.image == Some(j.image)
            &&& x.bank == b.name
            &&& x.unit == unit
            &&& x.offset == b.base + unit * b.slot_size
            &&& x.bytes == b.slot_size
            &&& x.image is None
        }),
{
    slots_lie_at_their_unit(layout, i, unit);
}

/// A preview says what is about to be done to which device and, in order, a
/// line for every row of the plan; a line for the device if it is known, and
/// one for the TOC if there is one.
#[verifier::rlimit(40)]
pub proof fn previews_show_every_row(
    verb: Seq<char>,
    device: Seq<char>,
    info: Option<DeviceInfo>,
    layout: LayoutView,
    rows: Seq<PlanRowView>,
)
    ensures
        ({
            let p = preview(verb, device, info, layout, rows);
            let first = if info is Some {
                3int
            } else {
                2int
            };
            let last = if layout.toc_offset is Some {
                1int
            } else {
                0int
            };
            &&& p.len() == first + rows.len() + last
            &&& p[0] == "About to "@ + verb + " on "@ + device
            &&& info matches Some(d) ==> has_part(p[1], d.model@)
            &&& forall|k: int|
                0 <= k < rows.len() ==> p[first + k] == row_line(verb, #[trigger] rows[k])
        }),
{
    let p = preview(verb, device, info, layout, rows);
    if info is Some {
        let d = info->0;
        assert(p[1] == device_line(d));
        part_between("  "@, d.model@, " ("@);
        let a = "  "@ + d.model@ + " ("@;
        let rest = (d.bus@ + ", "@ + (match d.removable {
            Some(true) => "removable"@,
            Some(false) => "NON-REMOVABLE"@,
            None => "removability unknown"@,
        }) + "), "@ + (match d.size_bytes {
            Some(n) => bytes_text(n),
            None => "unknown size"@,
        }));
        part_in_more(a, a, rest, d.model@);
        assert(p[1] =~= a + rest);
    }
}

/// A plan's line names the slot and the exact number of bytes, and behind them
/// the image, if there is one.
#[verifier::rlimit(40)]
pub proof fn plan_lines_tell_slot_bytes_and_image(verb: Seq<char>, p: PlanRowView)
    ensures
        ({
            let line = row_line(verb, p);
            let slot = "  "@ + verb + " "@ + (p.bank + ":"@ + dec(p.unit as nat));
            let range = slot + "  bytes "@ + range_text(p.offset as int, p.offset + p.bytes)
                + " ("@;
            &&& line.take(slot.len() as int) == slot
            &&& reads(line, range, p.bytes as nat)
            &&& p.image matches Some(i) ==> line.skip(line.len() - i.len()) == i
        }),
{
    reveal_strlit(" bytes)");
    let line = row_line(verb, p);
    let slot = "  "@ + verb + " "@ + (p.bank + ":"@ + dec(p.unit as nat));
    let range = slot + "  bytes "@ + range_text(p.offset as int, p.offset + p.bytes) + " ("@;
    let n = dec(p.bytes as nat);
    let tail = (match p.image {
        Some(i) => "  <- "@ + i,
        None => ""@,
    });
    dec_is_digits(p.bytes as nat);
    dec_value(p.bytes as nat);
    assert(line == range + n + " bytes)"@ + tail);
    assert(line.take(slot.len() as int) =~= slot);
    assert(line.subrange(0, range.len() as int) =~= range);
    let end = (range.len() + n.len()) as int;
    assert(line.subrange(range.len() as int, end) =~= n);
    assert(line[end] == " bytes)"@[0]);
    assert(reads_at(line, range, p.bytes as nat, 0, end));
    if p.image is Some {
        assert(line.skip(line.len() - p.image->0.len()) =~= p.image->0);
    }
}

/// The device table has a heading and a line for every device, in order, or
/// says that there is none.
pub proof fn tables_list_every_device(devices: Seq<DeviceInfo>)
    ensures
        devices.len() == 0 ==> table(devices).len() == 1,
        devices.len() > 0 ==> {
            &&& table(devices).len() == devices.len() + 1
            &&& table(devices)[0] == table_head()
            &&& forall|k: int|
                0 <= k < devices.len() ==> table(devices)[k + 1] == table_line(#[trigger] devices[k])
        },
{
}

/// A line of the device table begins with the path, and ends with the mark of
/// the system disk for that disk, and else with the model.
#[verifier::rlimit(40)]
pub proof fn table_lines_mark_the_system_disk(d: DeviceInfo)
    ensures
        ({
            let line = table_line(d);
            let mark = d.model@ + "  [SYSTEM DISK]"@;
            &&& line.take(d.path@.len() as int) == d.path@
            &&& d.system ==> line.len() >= mark.len() && line.skip(line.len() - mark.len()) == mark
            &&& !d.system ==> line.len() >= d.model@.len() && line.skip(line.len() - d.model@.len())
                == d.model@
        }),
{
    reveal_strlit("");
    let line = table_line(d);
    let mark = d.model@ + "  [SYSTEM DISK]"@;
    columns_keep_their_text(d.path@, 24);
    let path = left_in(d.path@, 24);
    let size = right_in(
        match d.size_bytes {
            Some(n) => bytes_text(n),
            None => "?"@,
        },
        10,
    );
    let bus = left_in(d.bus@, 8);
    let removable = left_in(
        match d.removable {
            Some(true) => "yes"@,
            Some(false) => "no"@,
            None => "?"@,
        },
        10,
    );
    let front = path + " "@ + size + " "@ + bus + " "@ + removable + " "@;
    assert(line.take(d.path@.len() as int) =~= path.take(d.path@.len() as int));
    if d.system {
        assert(line == front + d.model@ + "  [SYSTEM DISK]"@);
        assert(line.skip(line.len() - mark.len()) =~= mark);
    } else {
        assert(line == front + d.model@ + ""@);
        assert(line.skip(line.len() - d.model@.len()) =~= d.model@);
    }
}

/// An extracted slot's file is named by its bank, its unit and the name that the
/// manifest gives it.
pub proof fn extracted_files_are_named_by_their_slot(layout: LayoutView, i: int, unit: u32)
    ensures
        ({
            let b = layout.banks[i];
            let name = if b.slots.dom().contains(unit) {
                b.slots[unit].name
            } else {
                None
            };
            read_name(layout, (i, unit)) == extracted_name(b.name, unit, name)
        }),
{
}

// ---------------------------------------------------------------------------
// What a terminal shows
// ---------------------------------------------------------------------------

/// Every state of a slot has a name of its own.
pub proof fn states_are_told_apart(a: SlotState, b: SlotState)
    ensures
        state_name(a) == state_name(b) <==> a == b,
{
    reveal_strlit("matches");
    reveal_strlit("MODIFIED (extract before overwriting!)");
    reveal_strlit("differs from manifest image");
    reveal_strlit("wiped (all zeros)");
    reveal_strlit("-");
    assert("matches"@.len() == 7);
    assert("MODIFIED (extract before overwriting!)"@.len() == 38);
    assert("differs from manifest image"@.len() == 27);
    assert("wiped (all zeros)"@.len() == 17);
    assert("-"@.len() == 1);
}

/// A slot's row of a status table shows the bank and unit, the name or that
/// there is none, the state, and the length if it is known.
#[verifier::rlimit(40)]
pub proof fn status_rows_show_the_slot(
    bank: Seq<char>,
    unit: u32,
    state: SlotState,
    name: Option<Seq<char>>,
    length: Option<u64>,
)
    ensures
        ({
            let row = status_row(bank, unit, state, name, length);
            &&& has_part(row, bank + ":"@ + dec(unit as nat))
            &&& has_part(row, state_name(state))
            &&& name matches Some(n) ==> has_part(row, n)
            &&& name is None ==> has_part(row, "(unnamed)"@)
            &&& length matches Some(l) ==> row.skip(row.len() - bytes_text(l).len()) == bytes_text(l)
        }),
{
    let n = dec(unit as nat);
    let row = status_row(bank, unit, state, name, length);
    let shown = match name {
        Some(x) => x,
        None => "(unnamed)"@,
    };
    let size = match length {
        Some(l) => bytes_text(l),
        None => ""@,
    };
    let head = "  ["@ + right_in(n, 2) + "] "@;
    let unit_column = left_in(n, 3);
    columns_keep_their_text(n, 3);
    columns_keep_their_text(shown, 24);
    columns_keep_their_text(state_name(state), 40);
    let rest = unit_column.skip(n.len() as int);
    let slot = bank + ":"@ + n;
    let names = left_in(shown, 24);
    let states = left_in(state_name(state), 40);
    let a = head + bank + ":"@ + unit_column;
    assert(a =~= head + slot + rest) by {
        assert(unit_column.take(n.len() as int) == n);
        assert(unit_column =~= n + rest);
    }
    part_between(head, slot, rest);
    let b = a + " "@ + names;
    part_in_more(a, a, " "@, slot);
    part_in_more(a, a + " "@, names, slot);
    part_in_more(a + " "@, names, names, shown);
    let c = b + " "@ + states;
    part_in_more(b, b, " "@, slot);
    part_in_more(b, b + " "@, states, slot);
    part_in_more(b, b, " "@, shown);
    part_in_more(b, b + " "@, states, shown);
    part_in_more(b + " "@, states, states, state_name(state));
    part_in_more(c, c, " "@, slot);
    part_in_more(c, c + " "@, size, slot);
    part_in_more(c, c, " "@, shown);
    part_in_more(c, c + " "@, size, shown);
    part_in_more(c, c, " "@, state_name(state));
    part_in_more(c, c + " "@, size, state_name(state));
    assert(row == c + " "@ + size);
    if length is Some {
        assert(row.skip(row.len() - size.len()) =~= size);
    }
}

/// The line that ends a slot begins with the operation and the slot, says that
/// it is well exactly when it is, and else gives the reason, if there is one.
#[verifier::rlimit(40)]
pub proof fn slot_ends_tell_the_outcome(
    op: OpKind,
    bank: Seq<char>,
    unit: u32,
    ok: bool,
    detail: Option<Seq<char>>,
)
    ensures
        ({
            let line = end_line(op, bank, unit, ok, detail);
            let front = op.name_text() + " "@ + (bank + ":"@ + dec(unit as nat));
            &&& line.take(front.len() as int) == front
            &&& ok <==> line.skip(front.len() as int) == " ok"@
            &&& !ok ==> has_part(line.skip(front.len() as int), "FAILED"@)
            &&& !ok && detail is Some ==> line.skip(line.len() - detail->0.len()) == detail->0
        }),
{
    reveal_strlit(" ok");
    reveal_strlit(" FAILED: ");
    reveal_strlit(" FAILED");
    reveal_strlit("FAILED");
    let line = end_line(op, bank, unit, ok, detail);
    let front = op.name_text() + " "@ + (bank + ":"@ + dec(unit as nat));
    let tail = if ok {
        " ok"@
    } else {
        match detail {
            Some(d) => " FAILED: "@ + d,
            None => " FAILED"@,
        }
    };
    assert(line == front + tail);
    assert(line.take(front.len() as int) =~= front);
    assert(line.skip(front.len() as int) =~= tail);
    if !ok {
        assert(tail[1] == 'F');
        assert(tail.subrange(1, 7) =~= "FAILED"@);
        assert(part_at(tail, "FAILED"@, 1));
        assert(" ok"@[1] == 'o');
        if detail is Some {
            assert(line.skip(line.len() - detail->0.len()) =~= detail->0);
        }
    }
}

/// A bar stands where the bytes of the slots that ended earlier in its pass and
/// those of the slot in progress bring it; a slot that ends has brought all its
/// bytes, and a new pass begins at nothing.
pub proof fn bars_stand_at_the_bytes_done(
    f: HumanFold,
    op: OpKind,
    bank: Seq<char>,
    unit: u32,
    bytes: u64,
    done: u64,
    ok: bool,
    detail: Option<Seq<char>>,
    total: u64,
)
    requires
        f.bar,
        f.phase_done + bytes <= u64::MAX,
        done <= bytes,
    ensures
        ({
            let started = f.after(EventView::SlotStart { op, bank, unit, bytes });
            let moved = EventView::Progress { bank, unit, bytes_done: done, bytes_total: bytes };
            let end = EventView::SlotEnd { op, bank, unit, ok, detail };
            &&& started.phase_done == f.phase_done
            &&& started.bar
            &&& f.shows(EventView::SlotStart { op, bank, unit, bytes }).contains(
                ShowView::Position(f.phase_done),
            )
            &&& started.shows(moved) == seq![ShowView::Position((f.phase_done + done) as u64)]
            &&& started.after(moved) == started
            &&& started.shows(end)[0] == ShowView::Position((f.phase_done + bytes) as u64)
            &&& started.after(end).phase_done == f.phase_done + bytes
            &&& started.after(end).bar
            &&& f.after(EventView::PhaseStart { op, bytes: total }) == (HumanFold {
                bar: true,
                phase_done: 0,
                slot_len: 0,
            })
            &&& f.shows(EventView::PhaseStart { op, bytes: total }).last() == ShowView::NewBar(total)
        }),
{
    let ev = EventView::SlotStart { op, bank, unit, bytes };
    assert(f.shows(ev)[1] == ShowView::Position(f.phase_done));
}

/// Every slot that ends is told of, but for the slots of a scan, whose outcome
/// is their row; an error or the end of a command closes the bar, if there is
/// one, and is told of.
pub proof fn outcomes_are_always_told(
    f: HumanFold,
    op: OpKind,
    bank: Seq<char>,
    unit: u32,
    ok: bool,
    detail: Option<Seq<char>>,
    message: Seq<char>,
)
    ensures
        ({
            let end = f.shows(EventView::SlotEnd { op, bank, unit, ok, detail });
            let said = ShowView::Said(end_line(op, bank, unit, ok, detail));
            let done = EventView::Done { ok, detail };
            let error = EventView::Error { message };
            &&& op != OpKind::Status ==> end.last() == said
            &&& op == OpKind::Status ==> forall|i: int|
                0 <= i < end.len() ==> !(#[trigger] end[i] is Said)
            &&& f.shows(done).last() == ShowView::Said(done_line(ok, detail))
            &&& f.shows(error).last() == ShowView::Said("error: "@ + message)
            &&& !f.after(done).bar
            &&& !f.after(error).bar
            &&& f.bar ==> f.shows(done)[0] == ShowView::Close && f.shows(error)[0]
                == ShowView::Close
            &&& !f.bar ==> f.shows(done).len() == 1 && f.shows(error).len() == 1
        }),
{
}

/// The last line of a command says whether it is well, and gives its detail.
pub proof fn last_lines_tell_the_outcome(ok: bool, detail: Option<Seq<char>>)
    ensures
        ok ==> done_line(ok, detail).take(4) == "done"@,
        !ok ==> done_line(ok, detail).take(6) == "failed"@,
        detail matches Some(d) ==> done_line(ok, detail).skip(
            done_line(ok, detail).len() - d.len(),
        ) == d,
{
    reveal_strlit("done");
    reveal_strlit("failed");
    let line = done_line(ok, detail);
    if ok {
        assert(line.take(4) =~= "done"@);
    } else {
        assert(line.take(6) =~= "failed"@);
    }
    if detail is Some {
        assert(line.skip(line.len() - detail->0.len()) =~= detail->0);
    }
}

} // verus!
