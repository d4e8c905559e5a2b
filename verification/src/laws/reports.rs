//! What a status scan looks at, and what it says of each slot.

use vstd::prelude::*;

use crate::device::{all_zero, range, Bytes};
use crate::engine::plan::{for_path, ImageFact, ImageFactView, ImageFacts};
use crate::engine::status::{
    classified, probe_for, probes_from, record_report, report_of, status_event,
    SlotStatusReportView, StatusItemView, StatusProbeView,
};
use crate::events::{EventView, SlotState};
use crate::laws::plans::names_image;
use crate::layout::LayoutView;
use crate::search::{first_where, first_where_is, first_where_props};
use crate::toc::{entry_of, sha_hex, TocEntryView, TocView};

verus! {

/// The card holds nothing but zeros in `lo..hi`.
pub open spec fn blank(c: Bytes, lo: int, hi: int) -> bool {
    forall|at: int| lo <= at < hi ==> #[trigger] c(at) == 0
}

/// The report says of `len` bytes at `offset` how they compare with an
/// expected hash: they match if and only if theirs is the same; those that do
/// not are wiped if they are all zero, and else in the state `otherwise`.
pub open spec fn judges(
    r: SlotStatusReportView,
    c: Bytes,
    offset: int,
    len: u64,
    expect: Seq<char>,
    otherwise: SlotState,
) -> bool {
    let held = Seq::new(len as nat, |i: int| c(offset + i));
    &&& r.sha256 == Some(sha_hex(held))
    &&& r.state == SlotState::Matches <==> sha_hex(held) == expect
    &&& sha_hex(held) != expect ==> {
        &&& blank(c, offset, offset + len) ==> r.state == SlotState::Wiped
        &&& !blank(c, offset, offset + len) ==> r.state == otherwise
    }
}

proof fn classes_judge(
    r: SlotStatusReportView,
    c: Bytes,
    offset: int,
    len: u64,
    expect: Seq<char>,
    otherwise: SlotState,
)
    requires
        r.state == classified(range(c, offset, len as nat), expect, otherwise),
        r.sha256 == Some(sha_hex(range(c, offset, len as nat))),
        otherwise != SlotState::Matches,
    ensures
        judges(r, c, offset, len, expect, otherwise),
{
    let held = Seq::new(len as nat, |i: int| c(offset + i));
    assert(range(c, offset, len as nat) =~= held);
    if all_zero(held) {
        assert forall|at: int| offset <= at < offset + len implies #[trigger] c(at) == 0 by {
            assert(held[at - offset] == 0);
        }
    }
    if blank(c, offset, offset + len) {
        assert forall|i: int| 0 <= i < held.len() implies #[trigger] held[i] == 0 by {
            assert(c(offset + i) == 0);
        }
    }
}

/// A slot that is probed by its image matches if and only if its bytes hash as
/// the file does; otherwise it is wiped if those bytes are all zero, and
/// differs if not. One that is probed by its record is judged by the record's
/// hash in the same way, as modified in place of differing. One with nothing to
/// compare against is of unknown state.
pub proof fn reports_judge_what_slots_hold(
    layout: LayoutView,
    c: Bytes,
    item: StatusItemView,
    file_hash: Seq<char>,
)
    requires
        0 <= item.bank_idx < layout.banks.len(),
    ensures
        ({
            let b = layout.banks[item.bank_idx];
            let r = report_of(layout, c, item, file_hash);
            let offset = b.base + item.unit * b.slot_size;
            &&& r.bank == b.name
            &&& r.unit == item.unit
            &&& match item.probe {
                StatusProbeView::Image { file_len, hash_len, .. } => {
                    &&& judges(r, c, offset, hash_len, file_hash, SlotState::Differs)
                    &&& r.length == Some(file_len)
                },
                StatusProbeView::Toc(e) => {
                    &&& judges(r, c, offset, e.length, e.sha256, SlotState::Modified)
                    &&& r.length == Some(e.length)
                    &&& r.name == e.name
                },
                StatusProbeView::Unknown => {
                    &&& r.state == SlotState::Unknown
                    &&& r.length is None
                    &&& r.sha256 is None
                },
            }
            &&& !(item.probe is Toc) && b.slots.dom().contains(item.unit) ==> r.name
                == b.slots[item.unit].name
            &&& !(item.probe is Toc) && !b.slots.dom().contains(item.unit) ==> r.name is None
        }),
{
    let b = layout.banks[item.bank_idx];
    let r = report_of(layout, c, item, file_hash);
    let offset = b.base + item.unit * b.slot_size;
    match item.probe {
        StatusProbeView::Image { hash_len, .. } => {
            classes_judge(r, c, offset, hash_len, file_hash, SlotState::Differs);
        },
        StatusProbeView::Toc(e) => {
            classes_judge(r, c, offset, e.length, e.sha256, SlotState::Modified);
        },
        StatusProbeView::Unknown => {},
    }
}

/// Without a manifest, a record is judged by its own hash, at its own offset
/// and length.
pub proof fn records_judge_what_they_name(c: Bytes, e: TocEntryView)
    ensures
        ({
            let r = record_report(c, e);
            &&& judges(r, c, e.offset as int, e.length, e.sha256, SlotState::Modified)
            &&& r.bank == e.bank
            &&& r.unit == e.unit
            &&& r.name == e.name
            &&& r.length == Some(e.length)
        }),
{
    classes_judge(
        record_report(c, e),
        c,
        e.offset as int,
        e.length,
        e.sha256,
        SlotState::Modified,
    );
}

/// The event of a report says what the report says.
pub proof fn status_events_carry_the_report(r: SlotStatusReportView)
    ensures
        status_event(r) matches EventView::SlotStatus { bank, unit, state, name, length, sha256 }
            && bank == r.bank && unit == r.unit && state == r.state && name == r.name && length
            == r.length && sha256 == r.sha256,
{
}

/// `e` is the first record of a slot in a table.
pub open spec fn is_record(t: TocView, bank: Seq<char>, unit: u32, e: TocEntryView) -> bool {
    exists|k: int|
        0 <= k < t.entries.len() && #[trigger] t.entries[k] == e && e.bank == bank && e.unit == unit
            && forall|m: int|
            0 <= m < k ==> (#[trigger] t.entries[m]).bank != bank || t.entries[m].unit != unit
}

/// The card's table has a record of a slot.
pub open spec fn has_record(toc: Option<TocView>, bank: Seq<char>, unit: u32) -> bool {
    toc is Some && exists|k: int|
        0 <= k < toc->0.entries.len() && (#[trigger] toc->0.entries[k]).bank == bank
            && toc->0.entries[k].unit == unit
}

/// A slot's record is the first that a table holds of it.
pub proof fn records_are_found_first(t: TocView, bank: Seq<char>, unit: u32)
    ensures
        t.found(bank, unit) is Some <==> has_record(Some(t), bank, unit),
        t.found(bank, unit) matches Some(e) ==> is_record(t, bank, unit, e),
{
    let p = entry_of(bank, unit);
    first_where_props(t.entries, p);
    let k = first_where(t.entries, p) as int;
    if k < t.entries.len() {
        assert(p(t.entries[k]));
        assert forall|m: int| 0 <= m < k implies (#[trigger] t.entries[m]).bank != bank
            || t.entries[m].unit != unit by {
            assert(!p(t.entries[m]));
        }
    }
    if has_record(Some(t), bank, unit) {
        let m = choose|m: int|
            0 <= m < t.entries.len() && (#[trigger] t.entries[m]).bank == bank
                && t.entries[m].unit == unit;
        assert(p(t.entries[m]));
        if k == t.entries.len() {
            assert(!p(t.entries[m]));
        }
    }
}

/// The host says first of a path that something of that length is there.
pub open spec fn is_there(facts: ImageFacts, path: Seq<char>, len: u64) -> bool {
    exists|k: int|
        0 <= k < facts.entries@.len() && #[trigger] facts.entries@[k].0@ == path && (
        facts.entries@[k].1 == ImageFact::File(len) || facts.entries@[k].1 == ImageFact::Other(len))
            && forall|m: int| 0 <= m < k ==> #[trigger] facts.entries@[m].0@ != path
}

/// What the host says of a path is what it says first.
pub proof fn facts_tell_what_is_there(facts: ImageFacts, path: Seq<char>)
    ensures
        forall|n: u64| #[trigger]
            is_there(facts, path, n) <==> (facts.fact(path) == ImageFactView::File(n)
                || facts.fact(path) == ImageFactView::Other(n)),
{
    first_where_props(facts.entries@, for_path(path));
    let k = first_where(facts.entries@, for_path(path)) as int;
    assert forall|n: u64| #[trigger] is_there(facts, path, n) <==> (facts.fact(path)
        == ImageFactView::File(n) || facts.fact(path) == ImageFactView::Other(n)) by {
        if is_there(facts, path, n) {
            let m = choose|m: int|
                0 <= m < facts.entries@.len() && #[trigger] facts.entries@[m].0@ == path && (
                facts.entries@[m].1 == ImageFact::File(n) || facts.entries@[m].1
                    == ImageFact::Other(n)) && forall|l: int|
                    0 <= l < m ==> #[trigger] facts.entries@[l].0@ != path;
            assert forall|l: int| 0 <= l < m implies !for_path(path)(
                #[trigger] facts.entries@[l],
            ) by {
                assert(facts.entries@[l].0@ != path);
            }
            first_where_is(facts.entries@, for_path(path), m);
        }
        if facts.fact(path) == ImageFactView::File(n) || facts.fact(path) == ImageFactView::Other(
            n,
        ) {
            assert(facts.entries@[k].0@ == path);
            assert forall|m: int| 0 <= m < k implies #[trigger] facts.entries@[m].0@ != path by {
                assert(!for_path(path)(facts.entries@[m]));
            }
        }
    }
}

/// A slot with a record is probed by its first record, whatever the manifest
/// says. One without is probed by the image that the manifest names, if the
/// host has it, as far as the slot reaches. Any other is not probed.
pub proof fn probes_prefer_records(
    layout: LayoutView,
    i: int,
    unit: u32,
    toc: Option<TocView>,
    facts: ImageFacts,
)
    requires
        0 <= i < layout.banks.len(),
        unit < layout.banks[i].units,
    ensures
        ({
            let b = layout.banks[i];
            let p = probe_for(layout, i, unit, toc, facts);
            &&& p is Toc <==> has_record(toc, b.name, unit)
            &&& p matches StatusProbeView::Toc(e) ==> is_record(toc->0, b.name, unit, e)
            &&& p is Image <==> !has_record(toc, b.name, unit) && exists|path: Seq<char>, n: u64|
                #[trigger] names_image(b, unit, path) && #[trigger] is_there(facts, path, n)
            &&& p matches StatusProbeView::Image { path, file_len, hash_len } ==> {
                &&& names_image(b, unit, path)
                &&& is_there(facts, path, file_len)
                &&& file_len <= b.slot_size ==> hash_len == file_len
                &&& file_len > b.slot_size ==> hash_len == b.slot_size
            }
        }),
{
    let b = layout.banks[i];
    if toc is Some {
        records_are_found_first(toc->0, b.name, unit);
    }
    if b.image_of(unit) is Some {
        let path = b.image_of(unit)->0;
        facts_tell_what_is_there(facts, path);
        assert(names_image(b, unit, path));
        match facts.fact(path) {
            ImageFactView::File(n) => {
                assert(is_there(facts, path, n));
            },
            ImageFactView::Other(n) => {
                assert(is_there(facts, path, n));
            },
            ImageFactView::Missing(_) => {},
        }
    }
}

/// Item `k` is for unit `unit` of bank `i`, probed as that slot is to be.
pub open spec fn looks_at(
    layout: LayoutView,
    toc: Option<TocView>,
    facts: ImageFacts,
    item: StatusItemView,
    i: int,
    unit: u32,
) -> bool {
    item.bank_idx == i && item.unit == unit && item.probe == probe_for(layout, i, unit, toc, facts)
}

/// Place (`i`, `u`) comes before place (`k`, `v`).
pub open spec fn before(i: int, u: int, k: int, v: int) -> bool {
    i < k || (i == k && u < v)
}

#[verifier::rlimit(40)]
proof fn probes_cover(
    layout: LayoutView,
    toc: Option<TocView>,
    facts: ImageFacts,
    i: int,
    u: int,
    acc: Seq<StatusItemView>,
)
    requires
        0 <= i,
        0 <= u,
    ensures
        ({
            let items = probes_from(layout, toc, facts, i, u, acc);
            &&& acc.len() <= items.len()
            &&& forall|k: int| 0 <= k < acc.len() ==> #[trigger] items[k] == acc[k]
            &&& forall|k: int|
                acc.len() <= k < items.len() ==> {
                    let it = #[trigger] items[k];
                    &&& 0 <= it.bank_idx < layout.banks.len()
                    &&& it.unit < layout.banks[it.bank_idx].units
                    &&& !before(it.bank_idx, it.unit as int, i, u)
                    &&& looks_at(layout, toc, facts, it, it.bank_idx, it.unit)
                }
            &&& forall|k: int, m: int|
                acc.len() <= k < m < items.len() ==> before(
                    (#[trigger] items[k]).bank_idx,
                    items[k].unit as int,
                    (#[trigger] items[m]).bank_idx,
                    items[m].unit as int,
                )
            &&& forall|x: int, v: u32|
                0 <= x < layout.banks.len() && v < layout.banks[x].units && !#[trigger] before(
                    x,
                    v as int,
                    i,
                    u,
                ) ==> exists|k: int|
                    acc.len() <= k < items.len() && looks_at(
                        layout,
                        toc,
                        facts,
                        #[trigger] items[k],
                        x,
                        v,
                    )
        }),
    decreases layout.banks.len() - i, layout.banks[i].units - u,
{
    let items = probes_from(layout, toc, facts, i, u, acc);
    if i < layout.banks.len() {
        if u >= layout.banks[i].units {
            probes_cover(layout, toc, facts, i + 1, 0, acc);
            assert forall|x: int, v: u32|
                0 <= x < layout.banks.len() && v < layout.banks[x].units && !#[trigger] before(
                    x,
                    v as int,
                    i,
                    u,
                ) implies exists|k: int|
                acc.len() <= k < items.len() && looks_at(
                    layout,
                    toc,
                    facts,
                    #[trigger] items[k],
                    x,
                    v,
                ) by {
                assert(!before(x, v as int, i + 1, 0));
            }
        } else {
            let item = StatusItemView {
                bank_idx: i,
                unit: u as u32,
                probe: probe_for(layout, i, u as u32, toc, facts),
            };
            let next = acc.push(item);
            probes_cover(layout, toc, facts, i, u + 1, next);
            let at = acc.len() as int;
            assert(items[at] == next[at]);
            assert forall|k: int| 0 <= k < acc.len() implies #[trigger] items[k] == acc[k] by {
                assert(items[k] == next[k]);
            }
            assert forall|x: int, v: u32|
                0 <= x < layout.banks.len() && v < layout.banks[x].units && !#[trigger] before(
                    x,
                    v as int,
                    i,
                    u,
                ) implies exists|k: int|
                acc.len() <= k < items.len() && looks_at(
                    layout,
                    toc,
                    facts,
                    #[trigger] items[k],
                    x,
                    v,
                ) by {
                if x == i && v == u {
                    assert(looks_at(layout, toc, facts, items[at], x, v));
                } else {
                    assert(!before(x, v as int, i, u + 1));
                }
            }
        }
    }
}

/// The layout has a bank `i` with that unit.
pub open spec fn has_slot(layout: LayoutView, i: int, unit: u32) -> bool {
    0 <= i < layout.banks.len() && unit < layout.banks[i].units
}

/// A status scan looks at every unit of every bank, once, in the order of the
/// manifest, and at nothing else.
pub proof fn scans_cover_every_slot(layout: LayoutView, toc: Option<TocView>, facts: ImageFacts)
    ensures
        ({
            let items = probes_from(layout, toc, facts, 0, 0, Seq::empty());
            &&& forall|i: int, unit: u32| #[trigger]
                has_slot(layout, i, unit) ==> exists|k: int|
                    0 <= k < items.len() && looks_at(
                        layout,
                        toc,
                        facts,
                        #[trigger] items[k],
                        i,
                        unit,
                    )
            &&& forall|k: int|
                0 <= k < items.len() ==> {
                    let it = #[trigger] items[k];
                    &&& 0 <= it.bank_idx < layout.banks.len()
                    &&& it.unit < layout.banks[it.bank_idx].units
                    &&& looks_at(layout, toc, facts, it, it.bank_idx, it.unit)
                }
            &&& forall|k: int, m: int|
                0 <= k < m < items.len() ==> before(
                    (#[trigger] items[k]).bank_idx,
                    items[k].unit as int,
                    (#[trigger] items[m]).bank_idx,
                    items[m].unit as int,
                )
        }),
{
    probes_cover(layout, toc, facts, 0, 0, Seq::empty());
    let items = probes_from(layout, toc, facts, 0, 0, Seq::empty());
    assert forall|i: int, unit: u32| #[trigger] has_slot(layout, i, unit) implies exists|k: int|
        0 <= k < items.len() && looks_at(layout, toc, facts, #[trigger] items[k], i, unit) by {
        assert(!before(i, unit as int, 0, 0));
    }
}

} // verus!
