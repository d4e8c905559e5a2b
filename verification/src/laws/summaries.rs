//! What is asked of the host for a plan, shown of it, and announced of it.

use vstd::prelude::*;

use crate::engine::plan::{
    bank_images, extracted_name, layout_images, length_mode, override_images, plan_op, safe_char,
    slot_count, summary_from, summary_item, LengthMode, PlanSummaryItemView, WriteJobView,
};
use crate::engine::plan::ImageFacts;
use crate::error::ErrorView;
use crate::events::OpKind;
use crate::laws::exports::reads_at;
use crate::laws::plans::names_image;
use crate::laws::reports::{before, facts_tell_what_is_there, is_there};
use crate::layout::{slots_lie_in_their_bank, BankView, LayoutView, SlotAssign};
use crate::text::{dec, dec_is_digits, dec_value, is_alnum, is_digit, lowercase};
use crate::units::size_value;

verus! {

// ---------------------------------------------------------------------------
// Image paths
// ---------------------------------------------------------------------------

proof fn override_images_are(overrides: Seq<SlotAssign>)
    ensures
        forall|k: int|
            0 <= k < overrides.len() && (#[trigger] overrides[k])@.image is Some
                ==> override_images(overrides).contains(overrides[k]@.image->0),
        forall|path: Seq<char>| #[trigger]
            override_images(overrides).contains(path) ==> exists|k: int|
                0 <= k < overrides.len() && (#[trigger] overrides[k])@.image == Some(path),
    decreases overrides.len(),
{
    if overrides.len() > 0 {
        let head = overrides.drop_last();
        let rest = override_images(head);
        let all = override_images(overrides);
        override_images_are(head);
        let last = overrides.len() - 1;
        assert forall|k: int|
            0 <= k < overrides.len() && (#[trigger] overrides[k])@.image is Some implies all.contains(
            overrides[k]@.image->0,
        ) by {
            if k < last {
                assert(head[k] == overrides[k]);
                let m = choose|m: int| 0 <= m < rest.len() && rest[m] == overrides[k]@.image->0;
                assert(all[m] == rest[m]);
            } else {
                assert(all[rest.len() as int] == overrides[k]@.image->0);
            }
        }
        assert forall|path: Seq<char>| #[trigger] all.contains(path) implies exists|k: int|
            0 <= k < overrides.len() && (#[trigger] overrides[k])@.image == Some(path) by {
            let m = choose|m: int| 0 <= m < all.len() && all[m] == path;
            if m < rest.len() {
                assert(rest[m] == path);
                assert(rest.contains(path));
                let k = choose|k: int| 0 <= k < head.len() && (#[trigger] head[k])@.image == Some(path);
                assert(overrides[k] == head[k]);
            } else {
                assert(overrides[last]@.image == Some(path));
            }
        }
    }
}

proof fn bank_images_are(b: BankView, n: int)
    requires
        0 <= n <= b.units,
    ensures
        forall|unit: u32, path: Seq<char>|
            unit < n && #[trigger] names_image(b, unit, path) ==> bank_images(b, n).contains(path),
        forall|path: Seq<char>| #[trigger]
            bank_images(b, n).contains(path) ==> exists|unit: u32| names_image(b, unit, path),
    decreases n,
{
    if n > 0 {
        let rest = bank_images(b, n - 1);
        let all = bank_images(b, n);
        bank_images_are(b, n - 1);
        let last = (n - 1) as u32;
        assert forall|unit: u32, path: Seq<char>|
            unit < n && #[trigger] names_image(b, unit, path) implies all.contains(path) by {
            if unit < last {
                let m = choose|m: int| 0 <= m < rest.len() && rest[m] == path;
                assert(all[m] == rest[m]);
            } else {
                assert(all[rest.len() as int] == path);
            }
        }
        assert forall|path: Seq<char>| #[trigger] all.contains(path) implies exists|unit: u32|
            names_image(b, unit, path) by {
            let m = choose|m: int| 0 <= m < all.len() && all[m] == path;
            if m < rest.len() {
                assert(rest[m] == path);
                assert(rest.contains(path));
            } else {
                assert(names_image(b, last, path));
            }
        }
    }
}

proof fn layout_images_are(layout: LayoutView, n: int)
    requires
        0 <= n <= layout.banks.len(),
    ensures
        forall|i: int, unit: u32, path: Seq<char>|
            0 <= i < n && #[trigger] names_image(layout.banks[i], unit, path) ==> layout_images(
                layout,
                n,
            ).contains(path),
        forall|path: Seq<char>| #[trigger]
            layout_images(layout, n).contains(path) ==> exists|i: int, unit: u32|
                0 <= i < n && #[trigger] names_image(layout.banks[i], unit, path),
    decreases n,
{
    if n > 0 {
        let rest = layout_images(layout, n - 1);
        let b = layout.banks[n - 1];
        let own = bank_images(b, b.units as int);
        let all = layout_images(layout, n);
        layout_images_are(layout, n - 1);
        bank_images_are(b, b.units as int);
        assert(all == rest + own);
        assert forall|i: int, unit: u32, path: Seq<char>|
            0 <= i < n && #[trigger] names_image(layout.banks[i], unit, path) implies all.contains(
            path,
        ) by {
            if i < n - 1 {
                assert(rest.contains(path));
                let m = choose|m: int| 0 <= m < rest.len() && rest[m] == path;
                assert(all[m] == path);
            } else {
                assert(own.contains(path));
                let m = choose|m: int| 0 <= m < own.len() && own[m] == path;
                assert(all[rest.len() + m] == path);
            }
        }
        assert forall|path: Seq<char>| #[trigger] all.contains(path) implies exists|
            i: int,
            unit: u32,
        | 0 <= i < n && #[trigger] names_image(layout.banks[i], unit, path) by {
            let m = choose|m: int| 0 <= m < all.len() && all[m] == path;
            if m < rest.len() {
                assert(rest[m] == path);
                assert(rest.contains(path));
                let (i, unit) = choose|i: int, unit: u32|
                    0 <= i < n - 1 && #[trigger] names_image(layout.banks[i], unit, path);
                assert(names_image(layout.banks[i], unit, path));
            } else {
                assert(own[m - rest.len()] == path);
                assert(own.contains(path));
                let unit = choose|unit: u32| names_image(b, unit, path);
                assert(names_image(layout.banks[n - 1], unit, path));
            }
        }
    }
}

/// The host is asked about every image that an override gives or the manifest
/// names, and about no other path.
pub proof fn every_image_is_asked_about(layout: LayoutView, overrides: Seq<SlotAssign>)
    ensures
        ({
            let paths = override_images(overrides) + layout_images(
                layout,
                layout.banks.len() as int,
            );
            &&& forall|k: int|
                0 <= k < overrides.len() && (#[trigger] overrides[k])@.image is Some
                    ==> paths.contains(overrides[k]@.image->0)
            &&& forall|i: int, unit: u32, path: Seq<char>|
                0 <= i < layout.banks.len() && #[trigger] names_image(layout.banks[i], unit, path)
                    ==> paths.contains(path)
            &&& forall|path: Seq<char>| #[trigger]
                paths.contains(path) ==> (exists|k: int|
                    0 <= k < overrides.len() && (#[trigger] overrides[k])@.image == Some(path)) || (
                exists|i: int, unit: u32|
                    0 <= i < layout.banks.len() && #[trigger] names_image(
                        layout.banks[i],
                        unit,
                        path,
                    ))
        }),
{
    let a = override_images(overrides);
    let b = layout_images(layout, layout.banks.len() as int);
    let paths = a + b;
    override_images_are(overrides);
    layout_images_are(layout, layout.banks.len() as int);
    assert forall|path: Seq<char>| a.contains(path) implies #[trigger] paths.contains(path) by {
        let m = choose|m: int| 0 <= m < a.len() && a[m] == path;
        assert(paths[m] == path);
    }
    assert forall|path: Seq<char>| b.contains(path) implies #[trigger] paths.contains(path) by {
        let m = choose|m: int| 0 <= m < b.len() && b[m] == path;
        assert(paths[a.len() + m] == path);
    }
    assert forall|path: Seq<char>| #[trigger] paths.contains(path) implies a.contains(path)
        || b.contains(path) by {
        let m = choose|m: int| 0 <= m < paths.len() && paths[m] == path;
        if m < a.len() {
            assert(a[m] == path);
        } else {
            assert(b[m - a.len()] == path);
        }
    }
}

// ---------------------------------------------------------------------------
// Summaries
// ---------------------------------------------------------------------------

/// The slot is among those that were selected, or none were and it is taken so.
pub open spec fn chosen(selected: Seq<(String, u32)>, bank: Seq<char>, unit: u32) -> bool {
    selected.len() > 0 ==> exists|k: int|
        0 <= k < selected.len() && (#[trigger] selected[k]).0@ == bank && selected[k].1 == unit
}

/// The row shows unit `unit` of bank `b`: its image, its place on the card, and
/// what the host says of the image.
pub open spec fn shows(b: BankView, unit: u32, facts: ImageFacts, row: PlanSummaryItemView) -> bool {
    &&& row.bank == b.name
    &&& row.unit == unit
    &&& row.image is Some
    &&& names_image(b, unit, row.image->0)
    &&& row.offset == b.base + unit * b.slot_size
    &&& row.slot_len == b.slot_size
    &&& row.image_len is Some <==> !row.missing
    &&& row.image_len matches Some(n) ==> is_there(facts, row.image->0, n)
    &&& row.missing ==> forall|n: u64| !is_there(facts, row.image->0, n)
}

proof fn rows_show(b: BankView, unit: u32, facts: ImageFacts)
    requires
        unit < b.units,
        b.image_of(unit) is Some,
        b.end() <= u64::MAX,
    ensures
        shows(b, unit, facts, summary_item(b, unit, facts)),
{
    slots_lie_in_their_bank(b, unit as int);
    facts_tell_what_is_there(facts, b.image_of(unit)->0);
}

/// Unit `unit` of bank `i` exists and is among those that were selected.
pub open spec fn in_selection(
    layout: LayoutView,
    selected: Seq<(String, u32)>,
    i: int,
    unit: u32,
) -> bool {
    &&& 0 <= i < layout.banks.len()
    &&& unit < layout.banks[i].units
    &&& chosen(selected, layout.banks[i].name, unit)
}

/// The row shows a selected slot.
pub open spec fn shows_some(
    layout: LayoutView,
    selected: Seq<(String, u32)>,
    facts: ImageFacts,
    row: PlanSummaryItemView,
) -> bool {
    exists|i: int, unit: u32| #[trigger]
        in_selection(layout, selected, i, unit) && shows(layout.banks[i], unit, facts, row)
}

#[verifier::rlimit(40)]
proof fn summaries_cover(
    layout: LayoutView,
    selected: Seq<(String, u32)>,
    facts: ImageFacts,
    i: int,
    u: int,
    items: Seq<PlanSummaryItemView>,
    unmapped: int,
)
    requires
        layout.addressable(),
        0 <= i,
        0 <= u,
    ensures
        ({
            let r = summary_from(layout, selected, facts, i, u, items, unmapped);
            &&& items.len() <= r.0.len()
            &&& unmapped <= r.1
            &&& forall|k: int| 0 <= k < items.len() ==> #[trigger] r.0[k] == items[k]
            &&& forall|k: int|
                items.len() <= k < r.0.len() ==> shows_some(
                    layout,
                    selected,
                    facts,
                    #[trigger] r.0[k],
                )
            &&& forall|x: int, v: u32| #[trigger]
                in_selection(layout, selected, x, v) && !before(x, v as int, i, u)
                    && layout.banks[x].image_of(v) is Some ==> exists|k: int|
                    items.len() <= k < r.0.len() && shows(layout.banks[x], v, facts, #[trigger] r.0[k])
            &&& (exists|x: int, v: u32| #[trigger]
                in_selection(layout, selected, x, v) && !before(x, v as int, i, u)
                    && layout.banks[x].image_of(v) is None) <==> r.1 > unmapped
            &&& selected.len() == 0 && i < layout.banks.len() && u <= layout.banks[i].units
                ==> r.0.len() + r.1 == items.len() + unmapped + (slot_count(
                layout,
                layout.banks.len() as int,
            ) - slot_count(layout, i) - u)
            &&& i >= layout.banks.len() ==> r == (items, unmapped)
        }),
    decreases layout.banks.len() - i, layout.banks[i].units - u,
{
    let r = summary_from(layout, selected, facts, i, u, items, unmapped);
    if i < layout.banks.len() {
        let b = layout.banks[i];
        if u >= b.units {
            summaries_cover(layout, selected, facts, i + 1, 0, items, unmapped);
            assert forall|x: int, v: u32| #[trigger]
                in_selection(layout, selected, x, v) && !before(x, v as int, i, u) implies !before(
                x,
                v as int,
                i + 1,
                0,
            ) by {}
            assert forall|x: int, v: u32| #[trigger]
                in_selection(layout, selected, x, v) && !before(x, v as int, i + 1, 0) implies !before(
                x,
                v as int,
                i,
                u,
            ) by {}
        } else {
            let unit = u as u32;
            let here = in_selection(layout, selected, i, unit);
            let next = if here && b.image_of(unit) is Some {
                items.push(summary_item(b, unit, facts))
            } else {
                items
            };
            let count = if here && b.image_of(unit) is None {
                unmapped + 1
            } else {
                unmapped
            };
            summaries_cover(layout, selected, facts, i, u + 1, next, count);
            assert forall|x: int, v: u32| #[trigger]
                in_selection(layout, selected, x, v) && !before(x, v as int, i, u) implies (x == i
                && v == unit) || !before(x, v as int, i, u + 1) by {}
            assert forall|x: int, v: u32| #[trigger]
                in_selection(layout, selected, x, v) && !before(x, v as int, i, u + 1) implies !before(
                x,
                v as int,
                i,
                u,
            ) by {}
            assert forall|k: int| 0 <= k < items.len() implies #[trigger] r.0[k] == items[k] by {
                assert(r.0[k] == next[k]);
            }
            if here && b.image_of(unit) is Some {
                let at = items.len() as int;
                assert(r.0[at] == next[at]);
                rows_show(b, unit, facts);
                assert(shows(layout.banks[i], unit, facts, r.0[at]));
                assert(shows_some(layout, selected, facts, r.0[at]));
            }
        }
    }
}

/// A summary has a row for every selected slot that names an image, and no
/// other; it counts slots without an image exactly when some were selected. With
/// nothing selected, rows and counted slots make up all slots.
pub proof fn summaries_show_the_selection(
    layout: LayoutView,
    selected: Seq<(String, u32)>,
    facts: ImageFacts,
)
    requires
        layout.addressable(),
    ensures
        ({
            let r = summary_from(layout, selected, facts, 0, 0, Seq::empty(), 0);
            &&& forall|k: int|
                0 <= k < r.0.len() ==> shows_some(layout, selected, facts, #[trigger] r.0[k])
            &&& forall|i: int, unit: u32, path: Seq<char>|
                #[trigger] in_selection(layout, selected, i, unit) && #[trigger] names_image(
                    layout.banks[i],
                    unit,
                    path,
                ) ==> exists|k: int|
                    0 <= k < r.0.len() && shows(layout.banks[i], unit, facts, #[trigger] r.0[k])
            &&& r.1 > 0 <==> exists|i: int, unit: u32| #[trigger]
                in_selection(layout, selected, i, unit) && !(layout.banks[i].slots.dom().contains(
                    unit,
                ) && layout.banks[i].slots[unit].image is Some)
            &&& selected.len() == 0 && layout.banks.len() > 0 ==> r.0.len() + r.1 == slot_count(
                layout,
                layout.banks.len() as int,
            )
        }),
{
    summaries_cover(layout, selected, facts, 0, 0, Seq::empty(), 0);
    let r = summary_from(layout, selected, facts, 0, 0, Seq::empty(), 0);
    assert forall|i: int, unit: u32, path: Seq<char>|
        #[trigger] in_selection(layout, selected, i, unit) && #[trigger] names_image(
            layout.banks[i],
            unit,
            path,
        ) implies exists|k: int|
        0 <= k < r.0.len() && shows(layout.banks[i], unit, facts, #[trigger] r.0[k]) by {
        assert(!before(i, unit as int, 0, 0));
    }
    if exists|i: int, unit: u32| #[trigger]
        in_selection(layout, selected, i, unit) && !(layout.banks[i].slots.dom().contains(unit)
            && layout.banks[i].slots[unit].image is Some) {
        let (i, unit) = choose|i: int, unit: u32| #[trigger]
            in_selection(layout, selected, i, unit) && !(layout.banks[i].slots.dom().contains(unit)
                && layout.banks[i].slots[unit].image is Some);
        assert(!before(i, unit as int, 0, 0));
        assert(layout.banks[i].image_of(unit) is None);
    }
}

/// The slots of a layout are the units of its banks.
pub proof fn slots_are_counted(layout: LayoutView, n: int)
    ensures
        slot_count(layout, 0) == 0,
        n >= 0 ==> slot_count(layout, n + 1) == slot_count(layout, n) + layout.banks[n].units,
{
}

// ---------------------------------------------------------------------------
// Announcements, lengths and names
// ---------------------------------------------------------------------------

/// An operation that is announced names the slot and the image of its job, the
/// slot's place, and how many bytes are touched: the slot's for a wipe, else the
/// image's.
pub proof fn announced_operations_match_jobs(j: WriteJobView, op: OpKind)
    ensures
        ({
            let p = plan_op(j, op);
            &&& p.op == op
            &&& p.bank == j.bank
            &&& p.unit == j.unit
            &&& p.offset == j.extent.offset
            &&& op == OpKind::Wipe ==> p.bytes == j.extent.len
            &&& op != OpKind::Wipe ==> p.bytes == j.image_len
            &&& p.image == Some(j.image)
        }),
{
}

/// A length is one of three words, in any case, or a size; a text that begins
/// with a digit is always a size.
pub proof fn lengths_are_words_or_sizes(s: Seq<char>, sector: u32)
    ensures
        lowercase(s) == "toc"@ ==> length_mode(s, sector) == Ok::<LengthMode, ErrorView>(
            LengthMode::Toc,
        ),
        lowercase(s) == "canonical"@ ==> length_mode(s, sector) == Ok::<LengthMode, ErrorView>(
            LengthMode::Canonical,
        ),
        lowercase(s) == "slot"@ ==> length_mode(s, sector) == Ok::<LengthMode, ErrorView>(
            LengthMode::Slot,
        ),
        lowercase(s) != "toc"@ && lowercase(s) != "canonical"@ && lowercase(s) != "slot"@
            ==> match length_mode(s, sector) {
            Ok(m) => m is Bytes && size_value(s, sector) == Ok::<u64, ErrorView>(m->Bytes_0),
            Err(e) => size_value(s, sector) == Err::<u64, ErrorView>(e),
        },
        s.len() > 0 && is_digit(s[0]) ==> (length_mode(s, sector) is Ok <==> size_value(
            s,
            sector,
        ) is Ok),
{
    reveal_strlit("toc");
    reveal_strlit("canonical");
    reveal_strlit("slot");
    assert("toc"@.len() != "canonical"@.len());
    assert("toc"@.len() != "slot"@.len());
    assert("canonical"@.len() != "slot"@.len());
    if s.len() > 0 && is_digit(s[0]) {
        assert(lowercase(s)[0] == s[0]);
    }
}

/// A character that may stand in the name of an extracted file.
pub open spec fn is_safe(c: char) -> bool {
    is_alnum(c) || c == '-' || c == '_'
}

/// The name of an extracted file is the bank and the unit, then an underscore
/// and the slot's name if that is not empty, with an underscore for each
/// character that is no ASCII letter, digit, hyphen or underscore, then `.img`.
/// The unit can be read back from it.
#[verifier::rlimit(40)]
pub proof fn extracted_names_tell_the_slot(bank: Seq<char>, unit: u32, name: Option<Seq<char>>)
    ensures
        ({
            let f = extracted_name(bank, unit, name);
            let d = bank.len() + dec(unit as nat).len();
            let n = if name is Some {
                name->0.len() as int
            } else {
                0
            };
            &&& reads_at(f, bank, unit as nat, 0, d as int)
            &&& f.skip(f.len() - 4) == ".img"@
            &&& n == 0 ==> f.len() == d + 4
            &&& n > 0 ==> {
                &&& f.len() == d + 1 + n + 4
                &&& f[d as int] == '_'
                &&& forall|i: int|
                    0 <= i < n ==> is_safe(#[trigger] f[d + 1 + i]) && (is_safe(name->0[i])
                        ==> f[d + 1 + i] == name->0[i]) && (!is_safe(name->0[i]) ==> f[d + 1 + i]
                        == '_')
            }
        }),
{
    reveal_strlit("_");
    reveal_strlit(".img");
    dec_is_digits(unit as nat);
    dec_value(unit as nat);
    let digits = dec(unit as nat);
    let d = bank.len() + digits.len();
    let f = extracted_name(bank, unit, name);
    assert(f.subrange(0, bank.len() as int) =~= bank);
    assert(f.subrange(bank.len() as int, d as int) =~= digits);
    assert(f.skip(f.len() - 4) =~= ".img"@);
    if name is Some && name->0.len() > 0 {
        let n = name->0;
        let safe = n.map_values(|c: char| safe_char(c));
        assert forall|i: int| 0 <= i < n.len() implies is_safe(#[trigger] f[d + 1 + i]) && (is_safe(
            n[i],
        ) ==> f[d + 1 + i] == n[i]) && (!is_safe(n[i]) ==> f[d + 1 + i] == '_') by {
            assert(f[d + 1 + i] == safe[i]);
        }
    }
}

} // verus!
