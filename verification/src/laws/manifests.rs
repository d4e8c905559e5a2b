//! What a layout takes from its manifest, and which manifests are accepted.

use vstd::arithmetic::power2::{lemma_pow2_pos, lemma_pow2_strictly_increases, lemma_pow2_unfold, pow2};
use vstd::prelude::*;

use crate::drive_types::{
    added, added_type_is_found, adding_keeps_other_names, has_name, lookup, DriveTypeView,
};
use crate::error::ErrorView;
use crate::layout::{disjoint, BankView, SlotEntryView, TOC_REGION_LEN};
use crate::manifest::{
    assembled, bank_label, bank_ruling, bank_type_ruling, banks_from, drive_type_ruling,
    geometry_ruling, image_ruling, in_order, in_order_props, manifest_ruling, overlap_from,
    overlap_ruling, recommended_ruling, regions_of, registry_from, repeated_from, sector_of,
    slots_from, spans_fit, starts_after, toc_ruling, RawBank, RawDriveType, RawManifest, RawSlot,
    Region, Ruling,
};
use crate::powers::{is_power, next_power, next_power_props, power_from};
use crate::search::{first_where, first_where_props};
use crate::text::{opt_text, same_ignoring_case};
use crate::units::size_value;

verus! {

// ---------------------------------------------------------------------------
// Powers of two
// ---------------------------------------------------------------------------

proof fn power_from_is_least(n: nat, k: nat, j: nat)
    requires
        pow2(j) >= n,
        k > 0 ==> pow2((k - 1) as nat) < n,
    ensures
        power_from(n, pow2(k)) <= pow2(j),
    decreases (if pow2(k) < n { n - pow2(k) } else { 0 }),
{
    lemma_pow2_pos(k);
    if pow2(k) >= n {
        if j < k {
            if j < k - 1 {
                lemma_pow2_strictly_increases(j, (k - 1) as nat);
            }
        } else if k < j {
            lemma_pow2_strictly_increases(k, j);
        }
    } else {
        lemma_pow2_unfold(k + 1);
        power_from_is_least(n, k + 1, j);
    }
}

/// Rounding up to a power of two gives one, not below the number, and none
/// that is not below the number is smaller.
pub proof fn next_power_is_least(n: nat)
    ensures
        is_power(next_power(n) as int),
        next_power(n) >= n,
        forall|j: nat| #[trigger] pow2(j) >= n ==> next_power(n) <= pow2(j),
{
    next_power_props(n);
    vstd::arithmetic::power2::lemma2_to64();
    assert forall|j: nat| #[trigger] pow2(j) >= n implies next_power(n) <= pow2(j) by {
        power_from_is_least(n, 0, j);
    }
}

/// `p` is the least power of two not below `n`.
pub open spec fn rounds_to(n: nat, p: nat) -> bool {
    &&& is_power(p as int)
    &&& p >= n
    &&& forall|j: nat| #[trigger] pow2(j) >= n ==> p <= pow2(j)
}

proof fn rounds_to_one(n: nat, p: nat)
    requires
        rounds_to(n, p),
    ensures
        p == next_power(n),
{
    next_power_is_least(n);
    let k = choose|k: nat| next_power(n) as int == #[trigger] pow2(k);
    let j = choose|j: nat| p as int == #[trigger] pow2(j);
    assert(pow2(k) >= n);
    assert(pow2(j) >= n);
}

// ---------------------------------------------------------------------------
// Drive types
// ---------------------------------------------------------------------------

/// The entry gives all four counts of a geometry.
pub open spec fn counted(rt: RawDriveType) -> bool {
    rt.cylinders is Some && rt.heads is Some && rt.sectors is Some && rt.bytes_per_sector is Some
}

/// The entry gives none of the counts of a geometry.
pub open spec fn uncounted(rt: RawDriveType) -> bool {
    rt.cylinders is None && rt.heads is None && rt.sectors is None && rt.bytes_per_sector is None
}

/// The image size of an entry is `n`: as it says, or else the product of its
/// counts, or for a stream type its recommended slot.
pub open spec fn has_image_size(rt: RawDriveType, sector: u32, n: u64) -> bool {
    if rt.image_size is Some {
        size_value(rt.image_size->0@, sector) == Ok::<u64, ErrorView>(n)
    } else if counted(rt) {
        &&& n == rt.cylinders->0 * rt.heads->0 * rt.sectors->0 * rt.bytes_per_sector->0
        &&& rt.cylinders->0 * rt.heads->0 * rt.sectors->0 <= u64::MAX
    } else {
        rt.stream == Some(true) && rt.recommended_slot is Some && size_value(
            rt.recommended_slot->0@,
            sector,
        ) == Ok::<u64, ErrorView>(n)
    }
}

/// The recommended slot of an entry with images of `n` bytes is `m`: as it
/// says, or else the least power of two that holds an image.
pub open spec fn has_slot_size(rt: RawDriveType, sector: u32, n: u64, m: u64) -> bool {
    if rt.recommended_slot is Some {
        size_value(rt.recommended_slot->0@, sector) == Ok::<u64, ErrorView>(m)
    } else {
        rounds_to(n as nat, m as nat)
    }
}

/// A drive type entry that is accepted becomes a type of its name: a stream
/// type if and only if the entry says so, with the geometry that it gives, its
/// image size or else the product of its counts, and a slot that holds an image.
pub proof fn drive_types_keep_their_entry(name: Seq<char>, rt: RawDriveType, sector: u32)
    ensures
        drive_type_ruling(name, rt, sector) matches Ruling::Done(t) ==> {
            &&& t.name == name
            &&& t.stream <==> rt.stream == Some(true)
            &&& t.geometry is Some <==> counted(rt)
            &&& t.geometry matches Some(g) ==> {
                &&& rt.cylinders == Some(g.cylinders)
                &&& rt.heads == Some(g.heads)
                &&& rt.sectors == Some(g.sectors)
                &&& rt.bytes_per_sector == Some(g.bytes_per_sector)
            }
            &&& has_image_size(rt, sector, t.image_bytes)
            &&& has_slot_size(rt, sector, t.image_bytes, t.recommended_slot)
            &&& t.image_bytes <= t.recommended_slot
            &&& t.stream ==> t.geometry is None
        },
{
    if drive_type_ruling(name, rt, sector) is Done {
        let t = drive_type_ruling(name, rt, sector)->Done_0;
        next_power_is_least(t.image_bytes as nat);
        if rt.image_size is None && counted(rt) {
            let g = rt.geometry()->0;
            product_is_natural(
                g.cylinders as int,
                g.heads as int,
                g.sectors as int,
                g.bytes_per_sector as int,
            );
        }
    }
}

proof fn product_is_natural(a: int, b: int, c: int, d: int)
    requires
        a >= 0,
        b >= 0,
        c >= 0,
        d >= 0,
    ensures
        a * b * c >= 0,
        a * b * c * d >= 0,
{
    assert(a * b >= 0) by (nonlinear_arith)
        requires
            a >= 0,
            b >= 0,
    ;
    let ab = a * b;
    assert(ab * c >= 0) by (nonlinear_arith)
        requires
            ab >= 0,
            c >= 0,
    ;
    let abc = ab * c;
    assert(abc * d >= 0) by (nonlinear_arith)
        requires
            abc >= 0,
            d >= 0,
    ;
}

/// A drive type entry is accepted exactly when it gives all counts of a
/// geometry or none, and none for stream media, and has an image size that its
/// recommended slot holds.
pub proof fn drive_types_are_accepted_by_rule(name: Seq<char>, rt: RawDriveType, sector: u32)
    ensures
        drive_type_ruling(name, rt, sector) is Done <==> {
            &&& counted(rt) || uncounted(rt)
            &&& rt.stream == Some(true) ==> !counted(rt)
            &&& exists|n: u64, m: u64|
                n <= m && #[trigger] has_image_size(rt, sector, n) && #[trigger] has_slot_size(
                    rt,
                    sector,
                    n,
                    m,
                )
        },
{
    drive_types_keep_their_entry(name, rt, sector);
    if drive_type_ruling(name, rt, sector) is Done {
        let t = drive_type_ruling(name, rt, sector)->Done_0;
        assert(has_image_size(rt, sector, t.image_bytes));
        assert(has_slot_size(rt, sector, t.image_bytes, t.recommended_slot));
    }
    if (counted(rt) || uncounted(rt)) && (rt.stream == Some(true) ==> !counted(rt)) && exists|
        n: u64,
        m: u64,
    |
        n <= m && #[trigger] has_image_size(rt, sector, n) && #[trigger] has_slot_size(
            rt,
            sector,
            n,
            m,
        ) {
        let (n, m) = choose|n: u64, m: u64|
            n <= m && #[trigger] has_image_size(rt, sector, n) && #[trigger] has_slot_size(
                rt,
                sector,
                n,
                m,
            );
        assert(image_ruling(name, rt, sector) == Ruling::Done(n));
        if rt.recommended_slot is None {
            rounds_to_one(n as nat, m as nat);
        }
        assert(recommended_ruling(rt, n, sector) == Ruling::Done(m));
    }
}

/// A name finds the first type that has it in any case, and no other type.
pub proof fn lookups_find_the_first(types: Seq<DriveTypeView>, name: Seq<char>)
    ensures
        lookup(types, name) is Some <==> exists|k: int|
            0 <= k < types.len() && same_ignoring_case((#[trigger] types[k]).name, name),
        lookup(types, name) matches Some(t) ==> exists|k: int|
            0 <= k < types.len() && #[trigger] types[k] == t && same_ignoring_case(t.name, name)
                && forall|m: int|
                0 <= m < k ==> !same_ignoring_case((#[trigger] types[m]).name, name),
{
    let p = has_name(name);
    first_where_props(types, p);
    let k = first_where(types, p) as int;
    if k < types.len() {
        assert(p(types[k]));
        assert forall|m: int| 0 <= m < k implies !same_ignoring_case(
            (#[trigger] types[m]).name,
            name,
        ) by {
            assert(!p(types[m]));
        }
    } else {
        assert forall|m: int| 0 <= m < types.len() implies !same_ignoring_case(
            (#[trigger] types[m]).name,
            name,
        ) by {
            assert(!p(types[m]));
        }
    }
}

/// No entry from `i` on has that name, in any case.
pub open spec fn unnamed_from(types: Seq<(String, RawDriveType)>, i: int, name: Seq<char>) -> bool {
    forall|k: int| i <= k < types.len() ==> !same_ignoring_case(name, (#[trigger] types[k]).0@)
}

proof fn registry_keeps(
    types: Seq<(String, RawDriveType)>,
    sector: u32,
    i: int,
    reg: Seq<DriveTypeView>,
    name: Seq<char>,
)
    requires
        0 <= i <= types.len(),
        unnamed_from(types, i, name),
        registry_from(types, sector, i, reg) is Done,
    ensures
        lookup(registry_from(types, sector, i, reg)->Done_0, name) == lookup(reg, name),
    decreases types.len() - i,
{
    if i < types.len() {
        drive_types_keep_their_entry(types[i].0@, types[i].1, sector);
        let t = drive_type_ruling(types[i].0@, types[i].1, sector)->Done_0;
        registry_keeps(types, sector, i + 1, added(reg, t), name);
        adding_keeps_other_names(reg, t, name);
    }
}

proof fn registry_holds(
    types: Seq<(String, RawDriveType)>,
    sector: u32,
    i: int,
    reg: Seq<DriveTypeView>,
    k: int,
    name: Seq<char>,
)
    requires
        0 <= i <= k < types.len(),
        same_ignoring_case(name, types[k].0@),
        unnamed_from(types, k + 1, name),
        registry_from(types, sector, i, reg) is Done,
    ensures
        drive_type_ruling(types[k].0@, types[k].1, sector) is Done,
        lookup(registry_from(types, sector, i, reg)->Done_0, name) == Some(
            drive_type_ruling(types[k].0@, types[k].1, sector)->Done_0,
        ),
    decreases types.len() - i,
{
    drive_types_keep_their_entry(types[i].0@, types[i].1, sector);
    let t = drive_type_ruling(types[i].0@, types[i].1, sector)->Done_0;
    if i == k {
        registry_keeps(types, sector, i + 1, added(reg, t), name);
        added_type_is_found(reg, t, name);
    } else {
        registry_holds(types, sector, i + 1, added(reg, t), k, name);
    }
}

/// The types of a layout are the entries of its manifest, the last one of a
/// name, and behind them the builtin types: a name that an entry has, in any
/// case, finds that entry's type, and any other finds what it finds among the
/// types that were there.
pub proof fn entries_override_types(
    types: Seq<(String, RawDriveType)>,
    sector: u32,
    reg: Seq<DriveTypeView>,
    name: Seq<char>,
)
    requires
        registry_from(types, sector, 0, reg) is Done,
    ensures
        ({
            let all = registry_from(types, sector, 0, reg)->Done_0;
            &&& unnamed_from(types, 0, name) ==> lookup(all, name) == lookup(reg, name)
            &&& forall|k: int|
                0 <= k < types.len() && same_ignoring_case(name, (#[trigger] types[k]).0@)
                    && unnamed_from(types, k + 1, name) ==> {
                    &&& drive_type_ruling(types[k].0@, types[k].1, sector) is Done
                    &&& lookup(all, name) == Some(
                        drive_type_ruling(types[k].0@, types[k].1, sector)->Done_0,
                    )
                }
        }),
{
    if unnamed_from(types, 0, name) {
        registry_keeps(types, sector, 0, reg, name);
    }
    assert forall|k: int|
        0 <= k < types.len() && same_ignoring_case(name, (#[trigger] types[k]).0@) && unnamed_from(
            types,
            k + 1,
            name,
        ) implies drive_type_ruling(types[k].0@, types[k].1, sector) is Done && lookup(
        registry_from(types, sector, 0, reg)->Done_0,
        name,
    ) == Some(drive_type_ruling(types[k].0@, types[k].1, sector)->Done_0) by {
        registry_holds(types, sector, 0, reg, k, name);
    }
}

// ---------------------------------------------------------------------------
// Banks
// ---------------------------------------------------------------------------

/// The entries from place `lo` to place `hi` name units of the bank, each once.
pub open spec fn units_apart(units: u32, slots: Seq<RawSlot>) -> bool {
    &&& forall|k: int| 0 <= k < slots.len() ==> (#[trigger] slots[k]).unit < units
    &&& forall|k: int, m: int|
        0 <= k < m < slots.len() ==> (#[trigger] slots[k]).unit != (#[trigger] slots[m]).unit
}

/// The map holds the slots that the entries give, with their names and images.
pub open spec fn holds_slots(m: Map<u32, SlotEntryView>, slots: Seq<RawSlot>) -> bool {
    &&& forall|u: u32| #[trigger]
        m.dom().contains(u) <==> exists|k: int|
            0 <= k < slots.len() && (#[trigger] slots[k]).unit == u
    &&& forall|k: int|
        0 <= k < slots.len() ==> {
            let e = m[(#[trigger] slots[k]).unit];
            &&& e.unit == slots[k].unit
            &&& e.name == opt_text(slots[k].name)
            &&& e.image == opt_text(slots[k].image)
        }
}

#[verifier::rlimit(40)]
proof fn slots_are_held(
    ctx: Seq<char>,
    units: u32,
    slots: Seq<RawSlot>,
    i: int,
    acc: Map<u32, SlotEntryView>,
)
    requires
        0 <= i <= slots.len(),
        holds_slots(acc, slots.take(i)),
        units_apart(units, slots.take(i)),
    ensures
        slots_from(ctx, units, slots, i, acc) is Done <==> units_apart(units, slots),
        slots_from(ctx, units, slots, i, acc) matches Ruling::Done(m) ==> holds_slots(m, slots),
        !(slots_from(ctx, units, slots, i, acc) is Overflow),
    decreases slots.len() - i,
{
    if i < slots.len() {
        let s = slots[i];
        let head = slots.take(i);
        let next = slots.take(i + 1);
        if s.unit >= units {
        } else if acc.dom().contains(s.unit) {
            let k = choose|k: int| 0 <= k < head.len() && (#[trigger] head[k]).unit == s.unit;
            assert(slots[k].unit == slots[i].unit);
        } else {
            let m = acc.insert(
                s.unit,
                SlotEntryView { unit: s.unit, name: opt_text(s.name), image: opt_text(s.image) },
            );
            assert forall|k: int| 0 <= k < i implies (#[trigger] next[k]).unit != s.unit by {
                assert(head[k] == next[k]);
            }
            assert(next[i] == s);
            assert(units_apart(units, next)) by {
                assert forall|k: int| 0 <= k < next.len() implies (#[trigger] next[k]).unit < units by {
                    if k < i {
                        assert(next[k] == head[k]);
                    }
                }
                assert forall|k: int, l: int| 0 <= k < l < next.len() implies (
                #[trigger] next[k]).unit != (#[trigger] next[l]).unit by {
                    assert(next[k] == head[k]);
                    if l < i {
                        assert(next[l] == head[l]);
                    }
                }
            }
            assert(holds_slots(m, next)) by {
                assert forall|u: u32| #[trigger] m.dom().contains(u) <==> exists|k: int|
                    0 <= k < next.len() && (#[trigger] next[k]).unit == u by {
                    if m.dom().contains(u) {
                        if u == s.unit {
                            assert(next[i].unit == u);
                        } else {
                            assert(acc.dom().contains(u));
                            let k = choose|k: int|
                                0 <= k < head.len() && (#[trigger] head[k]).unit == u;
                            assert(next[k] == head[k]);
                        }
                    }
                    if exists|k: int| 0 <= k < next.len() && (#[trigger] next[k]).unit == u {
                        let k = choose|k: int| 0 <= k < next.len() && (#[trigger] next[k]).unit == u;
                        if k < i {
                            assert(next[k] == head[k]);
                            assert(acc.dom().contains(u));
                        }
                    }
                }
                assert forall|k: int| 0 <= k < next.len() implies {
                    let e = m[(#[trigger] next[k]).unit];
                    &&& e.unit == next[k].unit
                    &&& e.name == opt_text(next[k].name)
                    &&& e.image == opt_text(next[k].image)
                } by {
                    if k < i {
                        assert(next[k] == head[k]);
                        assert(m[head[k].unit] == acc[head[k].unit]);
                    }
                }
            }
            slots_are_held(ctx, units, slots, i + 1, m);
        }
    } else {
        assert(slots.take(i) =~= slots);
    }
}

/// A bank of the manifest that is accepted has the name, base, slot size and
/// units that its entry gives, the type that its entry names, and exactly the
/// slots of the entry, with their names and images.
pub proof fn banks_keep_their_entry(
    rb: RawBank,
    sector: u32,
    allow_unaligned: bool,
    reg: Seq<DriveTypeView>,
)
    ensures
        bank_ruling(rb, sector, allow_unaligned, reg) matches Ruling::Done(b) ==> {
            &&& b.name == rb.name@
            &&& size_value(rb.base@, sector) == Ok::<u64, ErrorView>(b.base)
            &&& size_value(rb.slot_size@, sector) == Ok::<u64, ErrorView>(b.slot_size)
            &&& b.units == rb.units
            &&& rb.drive_type is None ==> b.drive_type is None
            &&& rb.drive_type matches Some(name) ==> b.drive_type is Some && b.drive_type == lookup(
                reg,
                name@,
            )
            &&& holds_slots(b.slots, rb.slot@)
        },
{
    assert(rb.slot@.take(0) =~= Seq::<RawSlot>::empty());
    slots_are_held(bank_label(rb.name@), rb.units, rb.slot@, 0, Map::empty());
}

/// The base and slot size fit the sector and, unless unaligned ones are
/// allowed, are good for addresses that are put together bit by bit: the slot
/// is a power of two, and the base a multiple of one that holds the bank.
pub open spec fn well_placed(
    base: u64,
    slot_size: u64,
    units: u32,
    sector: u32,
    allow_unaligned: bool,
) -> bool {
    &&& units > 0
    &&& slot_size > 0
    &&& slot_size as int % sector as int == 0
    &&& base as int % sector as int == 0
    &&& !allow_unaligned ==> is_power(slot_size as int) && exists|p: nat|
        p <= u64::MAX && #[trigger] rounds_to((slot_size * units) as nat, p) && base as int % p as int == 0
}

proof fn placement(
    ctx: Seq<char>,
    base: u64,
    slot_size: u64,
    units: u32,
    sector: u32,
    allow_unaligned: bool,
)
    requires
        sector > 0,
    ensures
        geometry_ruling(ctx, base, slot_size, units, sector, allow_unaligned) is Done
            <==> well_placed(base, slot_size, units, sector, allow_unaligned),
{
    let span = slot_size * units;
    assert(span >= 0) by (nonlinear_arith)
        requires
            span == slot_size * units,
            slot_size >= 0,
            units >= 0,
    ;
    next_power_is_least(span as nat);
    if !allow_unaligned {
        if geometry_ruling(ctx, base, slot_size, units, sector, allow_unaligned) is Done {
            assert(rounds_to(span as nat, next_power(span as nat)));
        }
        if well_placed(base, slot_size, units, sector, allow_unaligned) {
            let p = choose|p: nat|
                p <= u64::MAX && #[trigger] rounds_to(span as nat, p) && base as int % p as int == 0;
            rounds_to_one(span as nat, p);
        }
    }
}

/// A bank's type is accepted exactly when it is known and its images fit the
/// slots; stream media has no size, so its type is never refused for that.
pub proof fn stream_types_fit_any_slot(
    ctx: Seq<char>,
    name: Seq<char>,
    slot_size: u64,
    reg: Seq<DriveTypeView>,
)
    ensures
        lookup(reg, name) matches Some(t) ==> t.stream ==> bank_type_ruling(
            ctx,
            Some(name),
            slot_size,
            reg,
        ) == Ruling::Done(Some(t)),
        lookup(reg, name) matches Some(t) ==> !t.stream ==> (bank_type_ruling(
            ctx,
            Some(name),
            slot_size,
            reg,
        ) is Done <==> t.image_bytes <= slot_size),
        lookup(reg, name) is None ==> bank_type_ruling(ctx, Some(name), slot_size, reg) is Refused,
{
}

/// The bank's entry names no type, or one that is known and either a stream
/// type or one whose images fit the slots.
pub open spec fn well_typed(rb: RawBank, slot_size: u64, reg: Seq<DriveTypeView>) -> bool {
    rb.drive_type matches Some(name) ==> {
        &&& lookup(reg, name@) is Some
        &&& lookup(reg, name@)->0.stream || lookup(reg, name@)->0.image_bytes <= slot_size
    }
}

/// A bank of the manifest is accepted exactly when its sizes can be read, it is
/// well placed, its type fits, and its slots are units of it, each named once.
pub proof fn banks_are_accepted_by_rule(
    rb: RawBank,
    sector: u32,
    allow_unaligned: bool,
    reg: Seq<DriveTypeView>,
)
    requires
        sector > 0,
    ensures
        bank_ruling(rb, sector, allow_unaligned, reg) is Done <==> exists|
            base: u64,
            slot_size: u64,
        |
            {
                &&& size_value(rb.base@, sector) == Ok::<u64, ErrorView>(base)
                &&& size_value(rb.slot_size@, sector) == Ok::<u64, ErrorView>(slot_size)
                &&& #[trigger] well_placed(base, slot_size, rb.units, sector, allow_unaligned)
                &&& well_typed(rb, slot_size, reg)
                &&& units_apart(rb.units, rb.slot@)
            },
{
    let ctx = bank_label(rb.name@);
    assert(rb.slot@.take(0) =~= Seq::<RawSlot>::empty());
    slots_are_held(ctx, rb.units, rb.slot@, 0, Map::empty());
    if size_value(rb.base@, sector) is Ok && size_value(rb.slot_size@, sector) is Ok {
        let base = size_value(rb.base@, sector)->Ok_0;
        let slot_size = size_value(rb.slot_size@, sector)->Ok_0;
        placement(ctx, base, slot_size, rb.units, sector, allow_unaligned);
        if bank_ruling(rb, sector, allow_unaligned, reg) is Done {
            assert(well_placed(base, slot_size, rb.units, sector, allow_unaligned));
        }
    }
}

// ---------------------------------------------------------------------------
// The whole manifest
// ---------------------------------------------------------------------------

proof fn banks_follow(
    raw: Seq<RawBank>,
    sector: u32,
    allow_unaligned: bool,
    reg: Seq<DriveTypeView>,
    i: int,
    acc: Seq<BankView>,
)
    requires
        0 <= i <= raw.len(),
        acc.len() == i,
        forall|k: int|
            0 <= k < i ==> bank_ruling(#[trigger] raw[k], sector, allow_unaligned, reg)
                == Ruling::Done(acc[k]),
    ensures
        banks_from(raw, sector, allow_unaligned, reg, i, acc) matches Ruling::Done(banks)
            ==> banks.len() == raw.len() && forall|k: int|
            0 <= k < raw.len() ==> bank_ruling(#[trigger] raw[k], sector, allow_unaligned, reg)
                == Ruling::Done(banks[k]),
        banks_from(raw, sector, allow_unaligned, reg, i, acc) is Done <==> forall|k: int|
            i <= k < raw.len() ==> bank_ruling(#[trigger] raw[k], sector, allow_unaligned, reg) is Done,
    decreases raw.len() - i,
{
    if i < raw.len() {
        match bank_ruling(raw[i], sector, allow_unaligned, reg) {
            Ruling::Done(b) => {
                banks_follow(raw, sector, allow_unaligned, reg, i + 1, acc.push(b));
            },
            _ => {},
        }
    }
}

/// A layout has the banks of its manifest, in their order, each as its entry
/// gives it; the sector size that the manifest gives, or 512 bytes; the TOC
/// region where the manifest puts it, on a sector boundary, or none; and
/// unaligned banks where the manifest allows them.
pub proof fn layouts_keep_their_manifest(raw: RawManifest, base_dir: Seq<char>)
    ensures
        manifest_ruling(raw, base_dir) matches Ruling::Done(v) ==> {
            &&& raw.sector_size matches Some(n) ==> v.sector_size == n
            &&& raw.sector_size is None ==> v.sector_size == 512
            &&& v.allow_unaligned <==> raw.allow_unaligned == Some(true)
            &&& v.base_dir == base_dir
            &&& v.toc_offset is Some <==> raw.toc is Some
            &&& raw.toc matches Some(t) ==> size_value(t@, v.sector_size) == Ok::<u64, ErrorView>(
                v.toc_offset->0,
            ) && v.toc_offset->0 as int % v.sector_size as int == 0
            &&& registry_from(
                raw.drive_types@,
                v.sector_size,
                0,
                crate::drive_types::builtin_types(),
            ) == Ruling::Done(v.registry)
            &&& v.banks.len() == raw.bank@.len() > 0
            &&& forall|i: int|
                0 <= i < v.banks.len() ==> bank_ruling(
                    #[trigger] raw.bank@[i],
                    v.sector_size,
                    v.allow_unaligned,
                    v.registry,
                ) == Ruling::Done(v.banks[i])
        },
{
    if manifest_ruling(raw, base_dir) is Done {
        let v = manifest_ruling(raw, base_dir)->Done_0;
        crate::powers::power_positive(sector_of(raw) as int);
        banks_follow(
            raw.bank@,
            v.sector_size,
            v.allow_unaligned,
            v.registry,
            0,
            Seq::empty(),
        );
    }
}

proof fn distinct_names_pass(banks: Seq<BankView>, i: int)
    requires
        0 <= i,
        forall|a: int, b: int|
            0 <= a < b < banks.len() ==> (#[trigger] banks[a]).name != (#[trigger] banks[b]).name,
    ensures
        repeated_from(banks, i) is None,
    decreases banks.len() - i,
{
    if i < banks.len() {
        distinct_names_pass(banks, i + 1);
    }
}

/// Every region in order is one of the regions, and none stands there twice.
proof fn in_order_is_made_of(regions: Seq<Region>, n: int)
    requires
        0 <= n <= regions.len(),
        forall|i: int| 0 <= i < regions.len() ==> (#[trigger] regions[i]).0 == i,
    ensures
        in_order(regions, n).len() == n,
        forall|p: int|
            0 <= p < n ==> {
                let e = #[trigger] in_order(regions, n)[p];
                e.0 < n && e == regions[e.0 as int]
            },
        forall|p: int, q: int|
            0 <= p < q < n ==> (#[trigger] in_order(regions, n)[p]).0 != (#[trigger] in_order(
                regions,
                n,
            )[q]).0,
    decreases n,
{
    if n > 0 {
        in_order_is_made_of(regions, n - 1);
        let s = in_order(regions, n - 1);
        let e = regions[n - 1];
        first_where_props(s, starts_after(e.1.offset));
        let k = first_where(s, starts_after(e.1.offset)) as int;
        let t = in_order(regions, n);
        assert(t == s.insert(k, e));
        assert forall|p: int| 0 <= p < n implies {
            let x = #[trigger] t[p];
            x.0 < n && x == regions[x.0 as int]
        } by {
            if p < k {
                assert(t[p] == s[p]);
            } else if p > k {
                assert(t[p] == s[p - 1]);
            }
        }
        assert forall|p: int, q: int| 0 <= p < q < n implies (#[trigger] t[p]).0 != (
        #[trigger] t[q]).0 by {
            let sp = if p < k {
                p
            } else {
                p - 1
            };
            let sq = if q < k {
                q
            } else {
                q - 1
            };
            if p != k {
                assert(t[p] == s[sp]);
            }
            if q != k {
                assert(t[q] == s[sq]);
            }
        }
    }
}

proof fn apart_in_order_pass(banks: Seq<BankView>, sorted: Seq<Region>, i: int)
    requires
        0 <= i,
        forall|p: int|
            0 <= p < sorted.len() - 1 ==> (#[trigger] sorted[p]).1.limit() <= sorted[p + 1].1.offset,
    ensures
        !(overlap_from(banks, sorted, i) is Refused),
    decreases sorted.len() - i,
{
    if i + 1 < sorted.len() {
        apart_in_order_pass(banks, sorted, i + 1);
    }
}

/// Banks that nowhere meet, nor meet the TOC region, are not refused for their
/// places.
#[verifier::rlimit(40)]
pub proof fn regions_apart_are_accepted(banks: Seq<BankView>, toc: Option<u64>)
    requires
        banks.len() <= usize::MAX,
        forall|i: int|
            0 <= i < banks.len() ==> (#[trigger] banks[i]).slot_size > 0 && banks[i].units > 0,
        forall|i: int, j: int|
            0 <= i < j < banks.len() ==> disjoint(
                (#[trigger] banks[i]).base as int,
                banks[i].base + banks[i].slot_size * banks[i].units,
                (#[trigger] banks[j]).base as int,
                banks[j].base + banks[j].slot_size * banks[j].units,
            ),
        toc matches Some(t) ==> forall|i: int|
            0 <= i < banks.len() ==> disjoint(
                (#[trigger] banks[i]).base as int,
                banks[i].base + banks[i].slot_size * banks[i].units,
                t as int,
                t + TOC_REGION_LEN,
            ),
    ensures
        !(overlap_ruling(banks, toc) is Refused),
{
    if spans_fit(banks) {
        let regions = regions_of(banks, toc);
        let n = regions.len() as int;
        let sorted = in_order(regions, n);
        assert forall|i: int| 0 <= i < regions.len() implies (#[trigger] regions[i]).0 == i by {}
        in_order_is_made_of(regions, n);
        in_order_props(regions, n);
        assert forall|i: int| 0 <= i < banks.len() implies (#[trigger] banks[i]).size() > 0 by {
            assert(banks[i].slot_size * banks[i].units > 0) by (nonlinear_arith)
                requires
                    banks[i].slot_size > 0,
                    banks[i].units > 0,
            ;
        }
        assert forall|p: int| 0 <= p < sorted.len() - 1 implies (#[trigger] sorted[p]).1.limit()
            <= sorted[p + 1].1.offset by {
            let a = sorted[p];
            let b = sorted[p + 1];
            assert(a.0 != b.0);
            assert(a.1.offset <= b.1.offset);
            assert(a == regions[a.0 as int]);
            assert(b == regions[b.0 as int]);
            if a.0 < banks.len() {
                assert(banks[a.0 as int].size() > 0);
            }
            if b.0 < banks.len() {
                assert(banks[b.0 as int].size() > 0);
            }
        }
        apart_in_order_pass(banks, sorted, 0);
    }
}

/// The drive types of a manifest are accepted exactly when each entry is.
pub proof fn registries_need_every_entry(
    types: Seq<(String, RawDriveType)>,
    sector: u32,
    i: int,
    reg: Seq<DriveTypeView>,
)
    requires
        0 <= i <= types.len(),
    ensures
        registry_from(types, sector, i, reg) is Done <==> forall|k: int|
            i <= k < types.len() ==> drive_type_ruling(
                (#[trigger] types[k]).0@,
                types[k].1,
                sector,
            ) is Done,
    decreases types.len() - i,
{
    if i < types.len() {
        match drive_type_ruling(types[i].0@, types[i].1, sector) {
            Ruling::Done(t) => {
                registries_need_every_entry(types, sector, i + 1, added(reg, t));
            },
            _ => {},
        }
    }
}

/// No two banks meet, and none meets the TOC region.
pub open spec fn all_apart(banks: Seq<BankView>, toc: Option<u64>) -> bool {
    &&& forall|i: int, j: int|
        0 <= i < j < banks.len() ==> disjoint(
            (#[trigger] banks[i]).base as int,
            banks[i].base + banks[i].slot_size * banks[i].units,
            (#[trigger] banks[j]).base as int,
            banks[j].base + banks[j].slot_size * banks[j].units,
        )
    &&& toc matches Some(t) ==> forall|i: int|
        0 <= i < banks.len() ==> disjoint(
            (#[trigger] banks[i]).base as int,
            banks[i].base + banks[i].slot_size * banks[i].units,
            t as int,
            t + 131072,
        )
}

/// The TOC offset of a manifest can be read, and is on a sector boundary.
pub open spec fn toc_in_place(raw: RawManifest, sector: u32, toc: Option<u64>) -> bool {
    match raw.toc {
        None => toc is None,
        Some(t) => toc is Some && size_value(t@, sector) == Ok::<u64, ErrorView>(toc->0)
            && toc->0 as int % sector as int == 0,
    }
}

/// A manifest whose drive types and banks are accepted one by one is accepted
/// exactly when its sectors are a power of two from 256 bytes up, it has a bank,
/// no two banks have one name, the TOC is in place, and no regions meet.
#[verifier::rlimit(40)]
pub proof fn manifests_are_accepted_by_rule(
    raw: RawManifest,
    base_dir: Seq<char>,
    reg: Seq<DriveTypeView>,
    banks: Seq<BankView>,
)
    requires
        sector_of(raw) > 0,
        registry_from(
            raw.drive_types@,
            sector_of(raw),
            0,
            crate::drive_types::builtin_types(),
        ) == Ruling::Done(reg),
        banks_from(
            raw.bank@,
            sector_of(raw),
            raw.allow_unaligned == Some(true),
            reg,
            0,
            Seq::empty(),
        ) == Ruling::Done(banks),
        !(manifest_ruling(raw, base_dir) is Overflow),
    ensures
        manifest_ruling(raw, base_dir) is Done <==> {
            &&& is_power(sector_of(raw) as int)
            &&& sector_of(raw) >= 256
            &&& banks.len() > 0
            &&& forall|a: int, b: int|
                0 <= a < b < banks.len() ==> (#[trigger] banks[a]).name != (
                #[trigger] banks[b]).name
            &&& exists|toc: Option<u64>| #[trigger]
                toc_in_place(raw, sector_of(raw), toc) && all_apart(banks, toc)
        },
{
    let sector = sector_of(raw);
    let allow = raw.allow_unaligned == Some(true);
    banks_follow(raw.bank@, sector, allow, reg, 0, Seq::empty());
    assert(raw.bank@.len() == raw.bank.len());
    assert forall|i: int| 0 <= i < banks.len() implies (#[trigger] banks[i]).slot_size > 0
        && banks[i].units > 0 by {
        assert(bank_ruling(raw.bank@[i], sector, allow, reg) == Ruling::Done(banks[i]));
        banks_keep_their_entry(raw.bank@[i], sector, allow, reg);
        banks_are_accepted_by_rule(raw.bank@[i], sector, allow, reg);
    }
    if manifest_ruling(raw, base_dir) is Done {
        let v = manifest_ruling(raw, base_dir)->Done_0;
        crate::manifest::resolved_layouts_are_valid(raw, base_dir);
        layouts_keep_their_manifest(raw, base_dir);
        assert(v.banks == banks);
        assert forall|i: int| 0 <= i < banks.len() implies (#[trigger] banks[i]).end()
            == banks[i].base + banks[i].slot_size * banks[i].units by {}
        assert(toc_in_place(raw, sector, v.toc_offset));
        assert(all_apart(banks, v.toc_offset));
    }
    if is_power(sector as int) && sector >= 256 && banks.len() > 0 && (forall|a: int, b: int|
        0 <= a < b < banks.len() ==> (#[trigger] banks[a]).name != (#[trigger] banks[b]).name)
        && exists|toc: Option<u64>| #[trigger]
        toc_in_place(raw, sector, toc) && all_apart(banks, toc) {
        let toc = choose|toc: Option<u64>| #[trigger]
            toc_in_place(raw, sector, toc) && all_apart(banks, toc);
        distinct_names_pass(banks, 0);
        assert(toc_ruling(opt_text(raw.toc), sector) == Ruling::Done(toc));
        regions_apart_are_accepted(banks, toc);
        assert(assembled(raw, base_dir, reg, banks) == manifest_ruling(raw, base_dir));
    }
}

} // verus!
