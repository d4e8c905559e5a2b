//! Manifest resolution: from the fields of a manifest file to a validated
//! layout, or the first reason why there is none.

use std::collections::BTreeMap;

use vstd::prelude::*;
use vstd::std_specs::btree::group_btree_axioms;
use vstd::std_specs::iter::IteratorSpec;
use vstd::string::*;

use crate::drive_types::{
    added, builtin_types, lookup, DriveType, DriveTypeView, Geometry, Registry,
};
use crate::error::{Error, ErrorView, Result};
use crate::layout::{
    bank_views, disjoint, opt_type, slots_view, Bank, BankView, Extent, Layout, LayoutView,
    SlotEntry, SlotEntryView, DEFAULT_SECTOR_SIZE, TOC_REGION_LEN,
};
use crate::paths::{join_path, joins_to};
use crate::powers::{
    is_power, is_power_of_two, next_power, next_power_of_two, next_power_props, power_positive,
};
use crate::search::{first_where, first_where_is, first_where_props};
use crate::text::{
    cat2, cat3, cat4, cat5, clone_opt, dec, dec_text, hex_of, hex_text, opt_text, quoted,
    quoted_text,
};
use crate::units::{bytes_text, format_bytes, parse_size, size_value};

verus! {

/// The fields of a manifest file.
#[derive(Debug)]
pub struct RawManifest {
    pub sector_size: Option<u32>,
    /// Size expression of the offset of the on-card TOC region.
    pub toc: Option<String>,
    /// Permit bases and slot sizes that are no powers of two.
    pub allow_unaligned: Option<bool>,
    pub bank: Vec<RawBank>,
    /// Drive types by name, in ascending order of their names.
    pub drive_types: Vec<(String, RawDriveType)>,
}

#[derive(Debug)]
pub struct RawBank {
    pub name: String,
    pub base: String,
    pub slot_size: String,
    pub units: u32,
    pub drive_type: Option<String>,
    pub slot: Vec<RawSlot>,
}

#[derive(Debug)]
pub struct RawSlot {
    pub unit: u32,
    pub name: Option<String>,
    pub image: Option<String>,
}

#[derive(Debug)]
pub struct RawDriveType {
    /// Canonical image size; may be omitted when geometry is given.
    pub image_size: Option<String>,
    pub recommended_slot: Option<String>,
    pub cylinders: Option<u32>,
    pub heads: Option<u32>,
    pub sectors: Option<u32>,
    pub bytes_per_sector: Option<u32>,
    /// Byte-stream media (magtape): variable-length images, no geometry.
    pub stream: Option<bool>,
}

/// What comes of resolving a part of a manifest: a value, a refusal, or an
/// address computation that leaves 64 bits.
pub enum Ruling<T> {
    Done(T),
    Refused(ErrorView),
    Overflow,
}

pub open spec fn refuse<T>(message: Seq<char>) -> Ruling<T> {
    Ruling::Refused(ErrorView::Validation(message))
}

/// What a resolving function returned, `None` standing for overflow.
pub open spec fn ruled<T: View>(r: Option<Result<T>>) -> Ruling<T::V> {
    match r {
        None => Ruling::Overflow,
        Some(Ok(v)) => Ruling::Done(v@),
        Some(Err(e)) => Ruling::Refused(e@),
    }
}

pub open spec fn size_ruling(text: Seq<char>, sector: u32) -> Ruling<u64> {
    match size_value(text, sector) {
        Ok(n) => Ruling::Done(n),
        Err(e) => Ruling::Refused(e),
    }
}

fn size_of(text: &str, sector: u32) -> (r: Option<Result<u64>>)
    ensures
        ruled(r) == size_ruling(text@, sector),
{
    Some(parse_size(text, sector))
}

// ---------------------------------------------------------------------------
// Drive types
// ---------------------------------------------------------------------------

impl RawDriveType {
    pub open spec fn is_stream(self) -> bool {
        self.stream == Some(true)
    }

    /// Every count of a geometry is given.
    pub open spec fn full_geometry(self) -> bool {
        self.cylinders is Some && self.heads is Some && self.sectors is Some
            && self.bytes_per_sector is Some
    }

    /// No count of a geometry is given.
    pub open spec fn no_geometry(self) -> bool {
        self.cylinders is None && self.heads is None && self.sectors is None
            && self.bytes_per_sector is None
    }

    pub open spec fn geometry(self) -> Option<Geometry> {
        if self.full_geometry() {
            Some(
                Geometry {
                    cylinders: self.cylinders->0,
                    heads: self.heads->0,
                    sectors: self.sectors->0,
                    bytes_per_sector: self.bytes_per_sector->0,
                },
            )
        } else {
            None
        }
    }
}

/// The image size of a drive type: as given, or the product of its geometry,
/// or for a stream type its recommended slot.
pub open spec fn image_ruling(name: Seq<char>, rt: RawDriveType, sector: u32) -> Ruling<u64> {
    if rt.image_size is Some {
        size_ruling(rt.image_size->0@, sector)
    } else if rt.full_geometry() {
        if rt.geometry()->0.fits() {
            Ruling::Done(rt.geometry()->0.size() as u64)
        } else {
            Ruling::Overflow
        }
    } else if rt.is_stream() {
        match rt.recommended_slot {
            Some(sz) => size_ruling(sz@, sector),
            None => refuse(
                "stream drive type "@ + quoted(name) + " needs image_size or recommended_slot"@,
            ),
        }
    } else {
        refuse("drive type "@ + quoted(name) + " needs image_size or a full geometry"@)
    }
}

/// The recommended slot of a drive type: as given, or the next power of two.
pub open spec fn recommended_ruling(rt: RawDriveType, image: u64, sector: u32) -> Ruling<u64> {
    match rt.recommended_slot {
        Some(sz) => size_ruling(sz@, sector),
        None => if next_power(image as nat) <= u64::MAX {
            Ruling::Done(next_power(image as nat) as u64)
        } else {
            Ruling::Overflow
        },
    }
}

/// What one drive type entry of a manifest stands for.
pub open spec fn drive_type_ruling(name: Seq<char>, rt: RawDriveType, sector: u32) -> Ruling<
    DriveTypeView,
> {
    if !rt.full_geometry() && !rt.no_geometry() {
        refuse(
            "drive type "@ + quoted(name)
                + ": give all of cylinders/heads/sectors/bytes_per_sector or none"@,
        )
    } else if rt.is_stream() && rt.full_geometry() {
        refuse("drive type "@ + quoted(name) + ": stream media has no C/H/S geometry"@)
    } else {
        match image_ruling(name, rt, sector) {
            Ruling::Done(image) => match recommended_ruling(rt, image, sector) {
                Ruling::Done(slot) => if image > slot {
                    refuse(
                        "drive type "@ + quoted(name) + ": image_size "@ + bytes_text(image)
                            + " exceeds recommended_slot "@ + bytes_text(slot),
                    )
                } else {
                    Ruling::Done(
                        DriveTypeView {
                            name,
                            geometry: rt.geometry(),
                            image_bytes: image,
                            recommended_slot: slot,
                            stream: rt.is_stream(),
                        },
                    )
                },
                Ruling::Refused(e) => Ruling::Refused(e),
                Ruling::Overflow => Ruling::Overflow,
            },
            Ruling::Refused(e) => Ruling::Refused(e),
            Ruling::Overflow => Ruling::Overflow,
        }
    }
}

fn resolve_image(name: &str, rt: &RawDriveType, sector: u32) -> (r: Option<Result<u64>>)
    ensures
        ruled(r) == image_ruling(name@, *rt, sector),
{
    if let Some(sz) = &rt.image_size {
        return size_of(sz, sector);
    }
    if let (Some(cylinders), Some(heads), Some(sectors), Some(bytes_per_sector)) = (
        rt.cylinders,
        rt.heads,
        rt.sectors,
        rt.bytes_per_sector,
    ) {
        let g = Geometry { cylinders, heads, sectors, bytes_per_sector };
        assert(rt.geometry() == Some(g));
        if g.bytes_fit() {
            assert(g.size() >= 0) by (nonlinear_arith)
                requires
                    g.size() == g.cylinders * g.heads * g.sectors * g.bytes_per_sector,
                    g.cylinders >= 0,
                    g.heads >= 0,
                    g.sectors >= 0,
                    g.bytes_per_sector >= 0,
            ;
            return Some(Ok(g.bytes()));
        }
        return None;
    }
    let q = quoted_text(name);
    if rt.stream == Some(true) {
        match &rt.recommended_slot {
            Some(sz) => size_of(sz, sector),
            None => Some(
                Err(
                    Error::Validation(
                        cat3("stream drive type ", &q, " needs image_size or recommended_slot"),
                    ),
                ),
            ),
        }
    } else {
        Some(
            Err(
                Error::Validation(cat3("drive type ", &q, " needs image_size or a full geometry")),
            ),
        )
    }
}

fn resolve_recommended(rt: &RawDriveType, image: u64, sector: u32) -> (r: Option<Result<u64>>)
    ensures
        ruled(r) == recommended_ruling(*rt, image, sector),
{
    match &rt.recommended_slot {
        Some(sz) => size_of(sz, sector),
        None => match next_power_of_two(image) {
            Some(p) => Some(Ok(p)),
            None => None,
        },
    }
}

fn resolve_drive_type(name: &String, rt: &RawDriveType, sector: u32) -> (r: Option<
    Result<DriveType>,
>)
    ensures
        ruled(r) == drive_type_ruling(name@, *rt, sector),
{
    let q = quoted_text(name);
    let full = rt.cylinders.is_some() && rt.heads.is_some() && rt.sectors.is_some()
        && rt.bytes_per_sector.is_some();
    let none = rt.cylinders.is_none() && rt.heads.is_none() && rt.sectors.is_none()
        && rt.bytes_per_sector.is_none();
    if !full && !none {
        return Some(
            Err(
                Error::Validation(
                    cat3(
                        "drive type ",
                        &q,
                        ": give all of cylinders/heads/sectors/bytes_per_sector or none",
                    ),
                ),
            ),
        );
    }
    let stream = rt.stream == Some(true);
    if stream && full {
        return Some(
            Err(
                Error::Validation(
                    cat3("drive type ", &q, ": stream media has no C/H/S geometry"),
                ),
            ),
        );
    }
    let image_bytes: u64 = match resolve_image(name, rt, sector) {
        Some(Ok(n)) => n,
        Some(Err(e)) => {
            return Some(Err(e));
        },
        None => {
            return None;
        },
    };
    let recommended_slot: u64 = match resolve_recommended(rt, image_bytes, sector) {
        Some(Ok(n)) => n,
        Some(Err(e)) => {
            return Some(Err(e));
        },
        None => {
            return None;
        },
    };
    if image_bytes > recommended_slot {
        let a = format_bytes(image_bytes);
        let b = format_bytes(recommended_slot);
        let mut m = cat4("drive type ", &q, ": image_size ", &a);
        m.append(" exceeds recommended_slot ");
        m.append(&b);
        return Some(Err(Error::Validation(m)));
    }
    let geometry = match (rt.cylinders, rt.heads, rt.sectors, rt.bytes_per_sector) {
        (Some(cylinders), Some(heads), Some(sectors), Some(bytes_per_sector)) => Some(
            Geometry { cylinders, heads, sectors, bytes_per_sector },
        ),
        _ => None,
    };
    Some(
        Ok(
            DriveType {
                name: name.clone(),
                geometry,
                image_bytes,
                recommended_slot,
                stream,
            },
        ),
    )
}

/// The registry after the entries from `i` on are added to `reg`.
pub open spec fn registry_from(
    types: Seq<(String, RawDriveType)>,
    sector: u32,
    i: int,
    reg: Seq<DriveTypeView>,
) -> Ruling<Seq<DriveTypeView>>
    decreases types.len() - i,
{
    if i < 0 || i >= types.len() {
        Ruling::Done(reg)
    } else {
        match drive_type_ruling(types[i].0@, types[i].1, sector) {
            Ruling::Done(t) => registry_from(types, sector, i + 1, added(reg, t)),
            Ruling::Refused(e) => Ruling::Refused(e),
            Ruling::Overflow => Ruling::Overflow,
        }
    }
}

fn resolve_registry(types: &Vec<(String, RawDriveType)>, sector: u32) -> (r: Option<
    Result<Registry>,
>)
    ensures
        ruled(r) == registry_from(types@, sector, 0, builtin_types()),
{
    let mut reg = Registry::builtin();
    for i in 0..types.len()
        invariant
            registry_from(types@, sector, 0, builtin_types()) == registry_from(
                types@,
                sector,
                i as int,
                reg@,
            ),
    {
        match resolve_drive_type(&types[i].0, &types[i].1, sector) {
            Some(Ok(t)) => reg.add(t),
            Some(Err(e)) => {
                return Some(Err(e));
            },
            None => {
                return None;
            },
        }
    }
    Some(Ok(reg))
}

// ---------------------------------------------------------------------------
// Banks
// ---------------------------------------------------------------------------

pub open spec fn bank_label(name: Seq<char>) -> Seq<char> {
    "bank "@ + quoted(name)
}

/// The slots of a bank after the entries from `i` on are added to `acc`.
pub open spec fn slots_from(
    ctx: Seq<char>,
    units: u32,
    slots: Seq<RawSlot>,
    i: int,
    acc: Map<u32, SlotEntryView>,
) -> Ruling<Map<u32, SlotEntryView>>
    decreases slots.len() - i,
{
    if i < 0 || i >= slots.len() {
        Ruling::Done(acc)
    } else if slots[i].unit >= units {
        refuse(
            ctx + ": slot unit "@ + dec(slots[i].unit as nat) + " out of range (bank has "@ + dec(
                units as nat,
            ) + " units)"@,
        )
    } else if acc.dom().contains(slots[i].unit) {
        refuse(ctx + ": duplicate slot for unit "@ + dec(slots[i].unit as nat))
    } else {
        slots_from(
            ctx,
            units,
            slots,
            i + 1,
            acc.insert(
                slots[i].unit,
                SlotEntryView {
                    unit: slots[i].unit,
                    name: opt_text(slots[i].name),
                    image: opt_text(slots[i].image),
                },
            ),
        )
    }
}

/// Base and slot size against the sector and, unless overridden, against the
/// power-of-two rules.
pub open spec fn geometry_ruling(
    ctx: Seq<char>,
    base: u64,
    slot_size: u64,
    units: u32,
    sector: u32,
    allow_unaligned: bool,
) -> Ruling<()> {
    let span = slot_size * units;
    let span_pow2 = next_power(span as nat);
    if units == 0 {
        refuse(ctx + ": units must be > 0"@)
    } else if slot_size == 0 || slot_size % (sector as u64) != 0 {
        refuse(
            ctx + ": slot_size "@ + bytes_text(slot_size) + " must be a nonzero multiple of the "@
                + dec(sector as nat) + "-byte sector"@,
        )
    } else if base % (sector as u64) != 0 {
        refuse(ctx + ": base "@ + bytes_text(base) + " is not sector-aligned"@)
    } else if allow_unaligned {
        Ruling::Done(())
    } else if !is_power(slot_size as int) {
        refuse(
            ctx + ": slot_size "@ + bytes_text(slot_size)
                + " is not a power of two (set allow_unaligned = true to override)"@,
        )
    } else if span > u64::MAX || span_pow2 > u64::MAX {
        Ruling::Overflow
    } else if base as int % (span_pow2 as int) != 0 {
        refuse(
            ctx + ": base "@ + bytes_text(base) + " is not aligned to the bank's power-of-two span "@
                + bytes_text(span_pow2 as u64) + "; OR-concatenation address math needs a "@
                + bytes_text(span_pow2 as u64)
                + " boundary (set allow_unaligned = true to override)"@,
        )
    } else {
        Ruling::Done(())
    }
}

/// The drive type of a bank: known, and small enough for the slots unless it
/// is a stream type.
pub open spec fn bank_type_ruling(
    ctx: Seq<char>,
    drive_type: Option<Seq<char>>,
    slot_size: u64,
    reg: Seq<DriveTypeView>,
) -> Ruling<Option<DriveTypeView>> {
    match drive_type {
        None => Ruling::Done(None),
        Some(name) => match lookup(reg, name) {
            None => refuse(ctx + ": unknown drive type "@ + quoted(name)),
            Some(t) => if !t.stream && t.image_bytes > slot_size {
                refuse(
                    ctx + ": slot_size "@ + bytes_text(slot_size) + " is smaller than the "@
                        + t.name + " canonical image ("@ + bytes_text(t.image_bytes) + ")"@,
                )
            } else {
                Ruling::Done(Some(t))
            },
        },
    }
}

/// What one bank entry of a manifest stands for.
pub open spec fn bank_ruling(
    rb: RawBank,
    sector: u32,
    allow_unaligned: bool,
    reg: Seq<DriveTypeView>,
) -> Ruling<BankView> {
    let ctx = bank_label(rb.name@);
    match size_value(rb.base@, sector) {
        Err(e) => Ruling::Refused(e),
        Ok(base) => match size_value(rb.slot_size@, sector) {
            Err(e) => Ruling::Refused(e),
            Ok(slot_size) => match geometry_ruling(
                ctx,
                base,
                slot_size,
                rb.units,
                sector,
                allow_unaligned,
            ) {
                Ruling::Refused(e) => Ruling::Refused(e),
                Ruling::Overflow => Ruling::Overflow,
                Ruling::Done(_) => match bank_type_ruling(
                    ctx,
                    opt_text(rb.drive_type),
                    slot_size,
                    reg,
                ) {
                    Ruling::Refused(e) => Ruling::Refused(e),
                    Ruling::Overflow => Ruling::Overflow,
                    Ruling::Done(drive_type) => match slots_from(
                        ctx,
                        rb.units,
                        rb.slot@,
                        0,
                        Map::empty(),
                    ) {
                        Ruling::Refused(e) => Ruling::Refused(e),
                        Ruling::Overflow => Ruling::Overflow,
                        Ruling::Done(slots) => Ruling::Done(
                            BankView {
                                name: rb.name@,
                                base,
                                slot_size,
                                units: rb.units,
                                drive_type,
                                slots,
                            },
                        ),
                    },
                },
            },
        },
    }
}

fn check_geometry(
    ctx: &str,
    base: u64,
    slot_size: u64,
    units: u32,
    sector: u32,
    allow_unaligned: bool,
) -> (r: Option<Result<()>>)
    requires
        sector > 0,
    ensures
        match r {
            None => geometry_ruling(ctx@, base, slot_size, units, sector, allow_unaligned)
                == Ruling::<()>::Overflow,
            Some(Ok(v)) => geometry_ruling(ctx@, base, slot_size, units, sector, allow_unaligned)
                == Ruling::Done(()),
            Some(Err(e)) => geometry_ruling(ctx@, base, slot_size, units, sector, allow_unaligned)
                == Ruling::<()>::Refused(e@),
        },
{
    if units == 0 {
        return Some(Err(Error::Validation(cat2(ctx, ": units must be > 0"))));
    }
    if slot_size == 0 || slot_size % (sector as u64) != 0 {
        let s = format_bytes(slot_size);
        let q = dec_text(sector as u64);
        let mut m = cat4(ctx, ": slot_size ", &s, " must be a nonzero multiple of the ");
        m.append(&q);
        m.append("-byte sector");
        return Some(Err(Error::Validation(m)));
    }
    if base % (sector as u64) != 0 {
        let b = format_bytes(base);
        return Some(
            Err(Error::Validation(cat4(ctx, ": base ", &b, " is not sector-aligned"))),
        );
    }
    if allow_unaligned {
        return Some(Ok(()));
    }
    if !is_power_of_two(slot_size) {
        let s = format_bytes(slot_size);
        return Some(
            Err(
                Error::Validation(
                    cat4(
                        ctx,
                        ": slot_size ",
                        &s,
                        " is not a power of two (set allow_unaligned = true to override)",
                    ),
                ),
            ),
        );
    }
    let span: u64 = match slot_size.checked_mul(units as u64) {
        Some(n) => n,
        None => {
            return None;
        },
    };
    let span_pow2: u64 = match next_power_of_two(span) {
        Some(p) => p,
        None => {
            return None;
        },
    };
    proof {
        next_power_props(span as nat);
        power_positive(span_pow2 as int);
    }
    if base % span_pow2 != 0 {
        let b = format_bytes(base);
        let p = format_bytes(span_pow2);
        let mut m = cat5(
            ctx,
            ": base ",
            &b,
            " is not aligned to the bank's power-of-two span ",
            &p,
        );
        m.append("; OR-concatenation address math needs a ");
        m.append(&p);
        m.append(" boundary (set allow_unaligned = true to override)");
        return Some(Err(Error::Validation(m)));
    }
    Some(Ok(()))
}

fn resolve_bank_type(
    ctx: &str,
    drive_type: &Option<String>,
    slot_size: u64,
    reg: &Registry,
) -> (r: Result<Option<DriveType>>)
    ensures
        match r {
            Ok(t) => bank_type_ruling(ctx@, opt_text(*drive_type), slot_size, reg@) == Ruling::Done(
                opt_type(t),
            ),
            Err(e) => bank_type_ruling(ctx@, opt_text(*drive_type), slot_size, reg@)
                == Ruling::<Option<DriveTypeView>>::Refused(e@),
        },
{
    match drive_type {
        None => Ok(None),
        Some(name) => match reg.get(name) {
            None => {
                let q = quoted_text(name);
                Err(Error::Validation(cat3(ctx, ": unknown drive type ", &q)))
            },
            Some(t) => {
                if !t.stream && t.image_bytes > slot_size {
                    let s = format_bytes(slot_size);
                    let i = format_bytes(t.image_bytes);
                    let mut m = cat5(ctx, ": slot_size ", &s, " is smaller than the ", &t.name);
                    m.append(" canonical image (");
                    m.append(&i);
                    m.append(")");
                    Err(Error::Validation(m))
                } else {
                    Ok(Some(t.clone()))
                }
            },
        },
    }
}

fn resolve_slots(ctx: &str, units: u32, slots: &Vec<RawSlot>) -> (r: Result<
    BTreeMap<u32, SlotEntry>,
>)
    ensures
        match r {
            Ok(m) => slots_from(ctx@, units, slots@, 0, Map::empty()) == Ruling::Done(
                slots_view(m@),
            ),
            Err(e) => slots_from(ctx@, units, slots@, 0, Map::empty()) == Ruling::<
                Map<u32, SlotEntryView>,
            >::Refused(e@),
        },
{
    broadcast use group_btree_axioms;

    let mut map: BTreeMap<u32, SlotEntry> = BTreeMap::new();
    assert(slots_view(map@) =~= Map::<u32, SlotEntryView>::empty());
    for i in 0..slots.len()
        invariant
            slots_from(ctx@, units, slots@, 0, Map::empty()) == slots_from(
                ctx@,
                units,
                slots@,
                i as int,
                slots_view(map@),
            ),
    {
        broadcast use group_btree_axioms;

        let s = &slots[i];
        if s.unit >= units {
            let u = dec_text(s.unit as u64);
            let n = dec_text(units as u64);
            let mut m = cat5(ctx, ": slot unit ", &u, " out of range (bank has ", &n);
            m.append(" units)");
            return Err(Error::Validation(m));
        }
        if map.contains_key(&s.unit) {
            let u = dec_text(s.unit as u64);
            return Err(Error::Validation(cat3(ctx, ": duplicate slot for unit ", &u)));
        }
        let entry = SlotEntry {
            unit: s.unit,
            name: clone_opt(&s.name),
            image: clone_opt(&s.image),
        };
        let ghost before = map@;
        let ghost e = entry@;
        map.insert(s.unit, entry);
        assert(slots_view(map@) =~= slots_view(before).insert(s.unit, e));
    }
    Ok(map)
}

fn resolve_bank(rb: &RawBank, sector: u32, allow_unaligned: bool, reg: &Registry) -> (r: Option<
    Result<Bank>,
>)
    requires
        sector > 0,
    ensures
        ruled(r) == bank_ruling(*rb, sector, allow_unaligned, reg@),
{
    let base: u64 = match parse_size(&rb.base, sector) {
        Ok(n) => n,
        Err(e) => {
            return Some(Err(e));
        },
    };
    let slot_size: u64 = match parse_size(&rb.slot_size, sector) {
        Ok(n) => n,
        Err(e) => {
            return Some(Err(e));
        },
    };
    let q = quoted_text(&rb.name);
    let ctx = cat2("bank ", &q);
    match check_geometry(&ctx, base, slot_size, rb.units, sector, allow_unaligned) {
        Some(Ok(_)) => {},
        Some(Err(e)) => {
            return Some(Err(e));
        },
        None => {
            return None;
        },
    }
    let drive_type = match resolve_bank_type(&ctx, &rb.drive_type, slot_size, reg) {
        Ok(t) => t,
        Err(e) => {
            return Some(Err(e));
        },
    };
    let slots = match resolve_slots(&ctx, rb.units, &rb.slot) {
        Ok(m) => m,
        Err(e) => {
            return Some(Err(e));
        },
    };
    Some(
        Ok(
            Bank {
                name: rb.name.clone(),
                base,
                slot_size,
                units: rb.units,
                drive_type,
                slots,
            },
        ),
    )
}

/// The banks after the entries from `i` on are put behind `acc`.
pub open spec fn banks_from(
    raw: Seq<RawBank>,
    sector: u32,
    allow_unaligned: bool,
    reg: Seq<DriveTypeView>,
    i: int,
    acc: Seq<BankView>,
) -> Ruling<Seq<BankView>>
    decreases raw.len() - i,
{
    if i < 0 || i >= raw.len() {
        Ruling::Done(acc)
    } else {
        match bank_ruling(raw[i], sector, allow_unaligned, reg) {
            Ruling::Done(b) => banks_from(raw, sector, allow_unaligned, reg, i + 1, acc.push(b)),
            Ruling::Refused(e) => Ruling::Refused(e),
            Ruling::Overflow => Ruling::Overflow,
        }
    }
}

fn resolve_banks(
    raw: &Vec<RawBank>,
    sector: u32,
    allow_unaligned: bool,
    reg: &Registry,
) -> (r: Option<Result<Vec<Bank>>>)
    requires
        sector > 0,
    ensures
        match r {
            None => banks_from(raw@, sector, allow_unaligned, reg@, 0, Seq::empty()) == Ruling::<
                Seq<BankView>,
            >::Overflow,
            Some(Ok(b)) => banks_from(raw@, sector, allow_unaligned, reg@, 0, Seq::empty())
                == Ruling::Done(bank_views(b@)),
            Some(Err(e)) => banks_from(raw@, sector, allow_unaligned, reg@, 0, Seq::empty())
                == Ruling::<Seq<BankView>>::Refused(e@),
        },
{
    let mut banks: Vec<Bank> = Vec::new();
    assert(bank_views(banks@) =~= Seq::<BankView>::empty());
    for i in 0..raw.len()
        invariant
            sector > 0,
            banks_from(raw@, sector, allow_unaligned, reg@, 0, Seq::empty()) == banks_from(
                raw@,
                sector,
                allow_unaligned,
                reg@,
                i as int,
                bank_views(banks@),
            ),
    {
        match resolve_bank(&raw[i], sector, allow_unaligned, reg) {
            Some(Ok(b)) => {
                let ghost before = banks@;
                let ghost v = b@;
                banks.push(b);
                assert(bank_views(banks@) =~= bank_views(before).push(v));
            },
            Some(Err(e)) => {
                return Some(Err(e));
            },
            None => {
                return None;
            },
        }
    }
    Some(Ok(banks))
}

// ---------------------------------------------------------------------------
// Names and overlaps
// ---------------------------------------------------------------------------

/// A later bank has the name of bank `i`.
pub open spec fn name_repeats(banks: Seq<BankView>, i: int) -> bool {
    exists|j: int| i < j < banks.len() && (#[trigger] banks[j]).name == banks[i].name
}

/// The first bank from `i` on whose name a later bank repeats.
pub open spec fn repeated_from(banks: Seq<BankView>, i: int) -> Option<Seq<char>>
    decreases banks.len() - i,
{
    if i < 0 || i >= banks.len() {
        None
    } else if name_repeats(banks, i) {
        Some(banks[i].name)
    } else {
        repeated_from(banks, i + 1)
    }
}

fn check_names(banks: &Vec<Bank>) -> (r: Option<String>)
    ensures
        opt_text(r) == repeated_from(bank_views(banks@), 0),
{
    let ghost v = bank_views(banks@);
    for i in 0..banks.len()
        invariant
            v == bank_views(banks@),
            repeated_from(v, 0) == repeated_from(v, i as int),
    {
        let mut j: usize = i + 1;
        while j < banks.len()
            invariant
                v == bank_views(banks@),
                i < banks@.len(),
                i < j,
                j <= banks@.len(),
                repeated_from(v, 0) == repeated_from(v, i as int),
                forall|k: int| i < k < j ==> (#[trigger] v[k]).name != v[i as int].name,
            decreases banks@.len() - j,
        {
            assert(v[i as int] == banks@[i as int]@);
            assert(v[j as int] == banks@[j as int]@);
            if banks[i].name == banks[j].name {
                return Some(banks[i].name.clone());
            }
            j = j + 1;
        }
        assert(!name_repeats(v, i as int));
    }
    None
}

/// A region of the card with the number of its bank; the TOC region has the
/// number of banks.
pub type Region = (usize, Extent);

pub open spec fn starts_after(offset: u64) -> spec_fn(Region) -> bool {
    |r: Region| r.1.offset > offset
}

/// `e` put into regions in order of offset, behind those of its own offset.
pub open spec fn placed(sorted: Seq<Region>, e: Region) -> Seq<Region> {
    sorted.insert(first_where(sorted, starts_after(e.1.offset)) as int, e)
}

/// The first `n` regions in order of offset.
pub open spec fn in_order(regions: Seq<Region>, n: int) -> Seq<Region>
    decreases n,
{
    if n <= 0 {
        Seq::empty()
    } else {
        placed(in_order(regions, n - 1), regions[n - 1])
    }
}

/// The regions of the banks, then of the TOC.
pub open spec fn regions_of(banks: Seq<BankView>, toc: Option<u64>) -> Seq<Region> {
    let b = Seq::new(
        banks.len(),
        |i: int| (i as usize, Extent { offset: banks[i].base, len: banks[i].size() as u64 }),
    );
    match toc {
        Some(offset) => b.push((banks.len() as usize, Extent { offset, len: TOC_REGION_LEN })),
        None => b,
    }
}

pub open spec fn region_label(banks: Seq<BankView>, idx: int) -> Seq<char> {
    if idx < banks.len() {
        bank_label(banks[idx].name)
    } else {
        "TOC region"@
    }
}

pub open spec fn region_text(banks: Seq<BankView>, r: Region) -> Seq<char> {
    region_label(banks, r.0 as int) + " (0x"@ + hex_of(r.1.offset as nat) + "..0x"@ + hex_of(
        r.1.limit() as nat,
    ) + ")"@
}

/// The first neighbours, from place `i` on, that overlap.
pub open spec fn overlap_from(banks: Seq<BankView>, sorted: Seq<Region>, i: int) -> Ruling<()>
    decreases sorted.len() - i,
{
    if i < 0 || i + 1 >= sorted.len() {
        Ruling::Done(())
    } else if sorted[i].1.limit() > u64::MAX {
        Ruling::Overflow
    } else if sorted[i].1.limit() > sorted[i + 1].1.offset {
        if sorted[i + 1].1.limit() > u64::MAX {
            Ruling::Overflow
        } else {
            refuse(
                region_text(banks, sorted[i]) + " overlaps "@ + region_text(banks, sorted[i + 1]),
            )
        }
    } else {
        overlap_from(banks, sorted, i + 1)
    }
}

/// Every bank's span fits in 64 bits.
pub open spec fn spans_fit(banks: Seq<BankView>) -> bool {
    forall|i: int| 0 <= i < banks.len() ==> (#[trigger] banks[i]).size() <= u64::MAX
}

pub open spec fn overlap_ruling(banks: Seq<BankView>, toc: Option<u64>) -> Ruling<()> {
    if !spans_fit(banks) {
        Ruling::Overflow
    } else {
        let regions = regions_of(banks, toc);
        overlap_from(banks, in_order(regions, regions.len() as int), 0)
    }
}

fn region_name(banks: &Vec<Bank>, r: &Region) -> (t: String)
    requires
        r.1.limit() <= u64::MAX,
    ensures
        t@ == region_text(bank_views(banks@), *r),
{
    let label = if r.0 < banks.len() {
        assert(bank_views(banks@)[r.0 as int] == banks@[r.0 as int]@);
        let q = quoted_text(&banks[r.0].name);
        cat2("bank ", &q)
    } else {
        "TOC region".to_owned()
    };
    let a = hex_text(r.1.offset);
    let b = hex_text(r.1.end());
    let mut t = cat4(&label, " (0x", &a, "..0x");
    t.append(&b);
    t.append(")");
    t
}

fn put_in_order(sorted: &mut Vec<Region>, e: Region)
    ensures
        final(sorted)@ == placed(old(sorted)@, e),
{
    let n: usize = sorted.len();
    let mut k: usize = 0;
    while k < n && sorted[k].1.offset <= e.1.offset
        invariant
            n == sorted@.len(),
            k <= n,
            *sorted == *old(sorted),
            forall|j: int| 0 <= j < k ==> !starts_after(e.1.offset)(#[trigger] sorted@[j]),
        decreases n - k,
    {
        k = k + 1;
    }
    proof {
        first_where_is(sorted@, starts_after(e.1.offset), k as int);
    }
    sorted.insert(k, e);
}

fn check_overlaps(banks: &Vec<Bank>, toc: Option<u64>) -> (r: Option<Result<()>>)
    ensures
        match r {
            None => overlap_ruling(bank_views(banks@), toc) == Ruling::<()>::Overflow,
            Some(Ok(_)) => overlap_ruling(bank_views(banks@), toc) == Ruling::Done(()),
            Some(Err(e)) => overlap_ruling(bank_views(banks@), toc) == Ruling::<()>::Refused(e@),
        },
{
    let ghost v = bank_views(banks@);
    let ghost regions = regions_of(v, toc);
    let mut sorted: Vec<Region> = Vec::new();
    let n: usize = banks.len();
    for i in 0..n
        invariant
            v == bank_views(banks@),
            n == banks@.len(),
            regions == regions_of(v, toc),
            forall|k: int| 0 <= k < i ==> (#[trigger] v[k]).size() <= u64::MAX,
            sorted@ == in_order(regions, i as int),
    {
        let b = &banks[i];
        assert(v[i as int] == b@);
        let span: u64 = match b.slot_size.checked_mul(b.units as u64) {
            Some(s) => s,
            None => {
                assert(!(v[i as int].size() <= u64::MAX));
                return None;
            },
        };
        let e: Region = (i, Extent { offset: b.base, len: span });
        assert(regions[i as int] == e);
        put_in_order(&mut sorted, e);
    }
    assert(spans_fit(v));
    if let Some(offset) = toc {
        let e: Region = (n, Extent { offset, len: TOC_REGION_LEN });
        assert(regions[n as int] == e);
        put_in_order(&mut sorted, e);
    }
    let ghost order = in_order(regions, regions.len() as int);
    assert(sorted@ == order);
    let m: usize = sorted.len();
    if m < 2 {
        return Some(Ok(()));
    }
    let mut i: usize = 0;
    while i < m - 1
        invariant
            2 <= m == sorted@.len(),
            i <= m - 1,
            v == bank_views(banks@),
            sorted@ == order,
            overlap_ruling(v, toc) == overlap_from(v, order, i as int),
        decreases m - i,
    {
        let a = sorted[i];
        let b = sorted[i + 1];
        match a.1.offset.checked_add(a.1.len) {
            None => {
                return None;
            },
            Some(end) => {
                if end > b.1.offset {
                    if b.1.offset.checked_add(b.1.len).is_none() {
                        return None;
                    }
                    let x = region_name(banks, &a);
                    let y = region_name(banks, &b);
                    return Some(Err(Error::Validation(cat3(&x, " overlaps ", &y))));
                }
            },
        }
        i = i + 1;
    }
    Some(Ok(()))
}

// ---------------------------------------------------------------------------
// The whole manifest
// ---------------------------------------------------------------------------

pub open spec fn sector_of(raw: RawManifest) -> u32 {
    match raw.sector_size {
        Some(n) => n,
        None => DEFAULT_SECTOR_SIZE,
    }
}

pub open spec fn toc_ruling(toc: Option<Seq<char>>, sector: u32) -> Ruling<Option<u64>> {
    match toc {
        None => Ruling::Done(None),
        Some(t) => match size_value(t, sector) {
            Err(e) => Ruling::Refused(e),
            Ok(off) => if off % (sector as u64) != 0 {
                refuse("toc offset "@ + bytes_text(off) + " is not sector-aligned"@)
            } else {
                Ruling::Done(Some(off))
            },
        },
    }
}

/// Banks that were resolved, then their names, the TOC and the overlaps.
pub open spec fn assembled(
    raw: RawManifest,
    base_dir: Seq<char>,
    registry: Seq<DriveTypeView>,
    banks: Seq<BankView>,
) -> Ruling<LayoutView> {
    let sector = sector_of(raw);
    match repeated_from(banks, 0) {
        Some(name) => refuse("duplicate bank name "@ + quoted(name)),
        None => match toc_ruling(opt_text(raw.toc), sector) {
            Ruling::Refused(e) => Ruling::Refused(e),
            Ruling::Overflow => Ruling::Overflow,
            Ruling::Done(toc_offset) => match overlap_ruling(banks, toc_offset) {
                Ruling::Refused(e) => Ruling::Refused(e),
                Ruling::Overflow => Ruling::Overflow,
                Ruling::Done(_) => Ruling::Done(
                    LayoutView {
                        sector_size: sector,
                        allow_unaligned: raw.allow_unaligned == Some(true),
                        toc_offset,
                        banks,
                        registry,
                        base_dir,
                    },
                ),
            },
        },
    }
}

/// What a manifest stands for: the layout, or the first reason against it. The
/// checks run in this order: sector size, drive types, banks one by one, bank
/// names, TOC offset, overlaps.
pub open spec fn manifest_ruling(raw: RawManifest, base_dir: Seq<char>) -> Ruling<LayoutView> {
    let sector = sector_of(raw);
    let allow_unaligned = raw.allow_unaligned == Some(true);
    if !is_power(sector as int) || sector < 256 {
        refuse("sector_size "@ + dec(sector as nat) + " must be a power of two >= 256"@)
    } else {
        match registry_from(raw.drive_types@, sector, 0, builtin_types()) {
            Ruling::Refused(e) => Ruling::Refused(e),
            Ruling::Overflow => Ruling::Overflow,
            Ruling::Done(registry) => if raw.bank@.len() == 0 {
                refuse("manifest defines no banks"@)
            } else {
                match banks_from(raw.bank@, sector, allow_unaligned, registry, 0, Seq::empty()) {
                    Ruling::Refused(e) => Ruling::Refused(e),
                    Ruling::Overflow => Ruling::Overflow,
                    Ruling::Done(banks) => assembled(raw, base_dir, registry, banks),
                }
            },
        }
    }
}

fn resolve_toc(toc: &Option<String>, sector: u32) -> (r: Result<Option<u64>>)
    requires
        sector > 0,
    ensures
        match r {
            Ok(t) => toc_ruling(opt_text(*toc), sector) == Ruling::Done(t),
            Err(e) => toc_ruling(opt_text(*toc), sector) == Ruling::<Option<u64>>::Refused(e@),
        },
{
    match toc {
        None => Ok(None),
        Some(t) => match parse_size(t, sector) {
            Err(e) => Err(e),
            Ok(off) => {
                if off % (sector as u64) != 0 {
                    let o = format_bytes(off);
                    Err(Error::Validation(cat3("toc offset ", &o, " is not sector-aligned")))
                } else {
                    Ok(Some(off))
                }
            },
        },
    }
}

/// Resolve a manifest whose image paths are final; `None` when an address
/// computation leaves 64 bits.
pub fn resolve_checked(raw: &RawManifest, base_dir: &str) -> (r: Option<Result<Layout>>)
    ensures
        ruled(r) == manifest_ruling(*raw, base_dir@),
{
    let sector: u32 = match raw.sector_size {
        Some(n) => n,
        None => DEFAULT_SECTOR_SIZE,
    };
    if !is_power_of_two(sector as u64) || sector < 256 {
        let n = dec_text(sector as u64);
        return Some(
            Err(Error::Validation(cat3("sector_size ", &n, " must be a power of two >= 256"))),
        );
    }
    let allow_unaligned = raw.allow_unaligned == Some(true);
    let registry = match resolve_registry(&raw.drive_types, sector) {
        Some(Ok(g)) => g,
        Some(Err(e)) => {
            return Some(Err(e));
        },
        None => {
            return None;
        },
    };
    if raw.bank.len() == 0 {
        return Some(Err(Error::Validation("manifest defines no banks".to_owned())));
    }
    let banks = match resolve_banks(&raw.bank, sector, allow_unaligned, &registry) {
        Some(Ok(b)) => b,
        Some(Err(e)) => {
            return Some(Err(e));
        },
        None => {
            return None;
        },
    };
    if let Some(name) = check_names(&banks) {
        let q = quoted_text(&name);
        return Some(Err(Error::Validation(cat2("duplicate bank name ", &q))));
    }
    let toc_offset = match resolve_toc(&raw.toc, sector) {
        Ok(t) => t,
        Err(e) => {
            return Some(Err(e));
        },
    };
    match check_overlaps(&banks, toc_offset) {
        Some(Ok(_)) => {},
        Some(Err(e)) => {
            return Some(Err(e));
        },
        None => {
            return None;
        },
    }
    Some(
        Ok(
            Layout {
                sector_size: sector,
                allow_unaligned,
                toc_offset,
                banks,
                registry,
                base_dir: base_dir.to_owned(),
            },
        ),
    )
}

// ---------------------------------------------------------------------------
// Image paths
// ---------------------------------------------------------------------------

/// `b` is the slot `a` with its image path joined to `base_dir`.
pub open spec fn slot_joined(base_dir: Seq<char>, a: SlotEntryView, b: SlotEntryView) -> bool {
    &&& a.unit == b.unit
    &&& a.name == b.name
    &&& match (a.image, b.image) {
        (Some(p), Some(q)) => joins_to(base_dir, p, q),
        (None, None) => true,
        _ => false,
    }
}

/// `b` is the bank `a` with its image paths joined to `base_dir`.
pub open spec fn bank_joined(base_dir: Seq<char>, a: BankView, b: BankView) -> bool {
    &&& a.name == b.name
    &&& a.base == b.base
    &&& a.slot_size == b.slot_size
    &&& a.units == b.units
    &&& a.drive_type == b.drive_type
    &&& a.slots.dom() == b.slots.dom()
    &&& forall|u: u32| #[trigger]
        a.slots.dom().contains(u) ==> slot_joined(base_dir, a.slots[u], b.slots[u])
}

/// `b` is the layout `a` with its image paths joined to its base directory.
pub open spec fn layout_joined(a: LayoutView, b: LayoutView) -> bool {
    &&& a.sector_size == b.sector_size
    &&& a.allow_unaligned == b.allow_unaligned
    &&& a.toc_offset == b.toc_offset
    &&& a.registry == b.registry
    &&& a.base_dir == b.base_dir
    &&& a.banks.len() == b.banks.len()
    &&& forall|i: int|
        0 <= i < a.banks.len() ==> bank_joined(
            a.base_dir,
            #[trigger] a.banks[i],
            b.banks[i],
        )
}

fn join_slots(slots: &BTreeMap<u32, SlotEntry>, base_dir: &str) -> (r: BTreeMap<u32, SlotEntry>)
    ensures
        r@.dom() == slots@.dom(),
        forall|u: u32| #[trigger]
            slots@.dom().contains(u) ==> slot_joined(base_dir@, slots@[u]@, r@[u]@),
{
    broadcast use group_btree_axioms;

    let mut out: BTreeMap<u32, SlotEntry> = BTreeMap::new();
    let mut units: Vec<u32> = Vec::new();
    let ghost all = vstd::std_specs::btree::spec_keys_iter(slots).remaining().unref();
    for k in it: slots.keys()
        invariant
            it.seq().unref() == all,
            units@ == all.take(it.index() as int),
    {
        units.push(*k);
        assert(units@ =~= all.take(it.index() as int + 1));
    }
    assert(units@ =~= all);
    for i in 0..units.len()
        invariant
            units@.to_set() == slots@.dom(),
            forall|u: u32| #[trigger]
                out@.dom().contains(u) <==> exists|j: int| 0 <= j < i && #[trigger] units@[j] == u,
            forall|u: u32| #[trigger]
                out@.dom().contains(u) ==> slot_joined(base_dir@, slots@[u]@, out@[u]@),
    {
        broadcast use group_btree_axioms;

        let u: u32 = units[i];
        assert(units@.to_set().contains(u));
        if let Some(e) = slots.get(&u) {
            let image = match &e.image {
                Some(p) => Some(join_path(base_dir, p)),
                None => None,
            };
            let ghost before = out@;
            out.insert(u, SlotEntry { unit: e.unit, name: clone_opt(&e.name), image });
            assert forall|w: u32| #[trigger] out@.dom().contains(w) implies exists|j: int|
                0 <= j < i + 1 && #[trigger] units@[j] == w by {
                if w == u {
                    assert(units@[i as int] == w);
                } else {
                    assert(before.dom().contains(w));
                }
            }
            assert forall|w: u32|
                (exists|j: int| 0 <= j < i + 1 && #[trigger] units@[j] == w) implies #[trigger] out@.dom().contains(w) by {
                let j = choose|j: int| 0 <= j < i + 1 && #[trigger] units@[j] == w;
                if j < i {
                    assert(before.dom().contains(w));
                }
            }
        }
    }
    assert forall|u: u32| #[trigger] slots@.dom().contains(u) <==> out@.dom().contains(u) by {
        if slots@.dom().contains(u) {
            assert(units@.to_set().contains(u));
            assert(units@.contains(u));
        }
        if out@.dom().contains(u) {
            let j = choose|j: int| 0 <= j < units@.len() && #[trigger] units@[j] == u;
            assert(units@.to_set().contains(units@[j]));
        }
    }
    assert(out@.dom() =~= slots@.dom());
    out
}

fn join_layout(layout: Layout, base_dir: &str) -> (r: Layout)
    requires
        layout@.base_dir == base_dir@,
    ensures
        layout_joined(layout@, r@),
{
    let mut banks: Vec<Bank> = Vec::new();
    for i in 0..layout.banks.len()
        invariant
            banks@.len() == i,
            forall|j: int|
                0 <= j < i ==> bank_joined(base_dir@, layout.banks@[j]@, #[trigger] banks@[j]@),
    {
        let b = &layout.banks[i];
        let slots = join_slots(&b.slots, base_dir);
        let drive_type = match &b.drive_type {
            Some(t) => Some(t.clone()),
            None => None,
        };
        let nb = Bank {
            name: b.name.clone(),
            base: b.base,
            slot_size: b.slot_size,
            units: b.units,
            drive_type,
            slots,
        };
        assert(bank_joined(base_dir@, b@, nb@)) by {
            assert(b@.slots.dom() =~= nb@.slots.dom());
        }
        banks.push(nb);
    }
    let r = Layout {
        sector_size: layout.sector_size,
        allow_unaligned: layout.allow_unaligned,
        toc_offset: layout.toc_offset,
        banks,
        registry: layout.registry,
        base_dir: layout.base_dir,
    };
    assert forall|i: int| 0 <= i < layout@.banks.len() implies bank_joined(
        base_dir@,
        #[trigger] layout@.banks[i],
        r@.banks[i],
    ) by {
        assert(bank_joined(base_dir@, layout.banks@[i]@, r.banks@[i]@));
    }
    r
}

/// Resolve a manifest; image paths that are not absolute are taken relative to
/// `base_dir`.
pub fn resolve(raw: &RawManifest, base_dir: &str) -> (r: Result<Layout>)
    requires
        !(manifest_ruling(*raw, base_dir@) is Overflow),
    ensures
        match r {
            Ok(l) => manifest_ruling(*raw, base_dir@) matches Ruling::Done(v) && layout_joined(
                v,
                l@,
            ),
            Err(e) => manifest_ruling(*raw, base_dir@) == Ruling::<LayoutView>::Refused(e@),
        },
        r matches Ok(l) ==> l@.valid(),
{
    match resolve_checked(raw, base_dir) {
        Some(Ok(l)) => {
            let ghost v = l@;
            let joined = join_layout(l, base_dir);
            proof {
                resolved_layouts_are_valid(*raw, base_dir@);
                valid_but_paths(v, joined@);
            }
            Ok(joined)
        },
        Some(Err(e)) => Err(e),
        None => Err(Error::Validation(String::new())),
    }
}

/// Resolve a manifest, with `None` when an address computation leaves 64 bits.
pub fn try_resolve(raw: &RawManifest, base_dir: &str) -> (r: Option<Result<Layout>>)
    ensures
        match r {
            None => manifest_ruling(*raw, base_dir@) is Overflow,
            Some(Ok(l)) => manifest_ruling(*raw, base_dir@) matches Ruling::Done(v)
                && layout_joined(v, l@) && l@.valid(),
            Some(Err(e)) => manifest_ruling(*raw, base_dir@) == Ruling::<LayoutView>::Refused(e@),
        },
{
    if resolve_checked(raw, base_dir).is_none() {
        return None;
    }
    Some(resolve(raw, base_dir))
}

// ---------------------------------------------------------------------------
// What holds of resolved layouts
// ---------------------------------------------------------------------------

proof fn valid_but_paths(a: LayoutView, b: LayoutView)
    requires
        a.valid(),
        layout_joined(a, b),
    ensures
        b.valid(),
{
    assert forall|i: int| 0 <= i < b.banks.len() implies (#[trigger] b.banks[i]).valid(
        b.sector_size,
        b.allow_unaligned,
    ) by {
        assert(bank_joined(a.base_dir, a.banks[i], b.banks[i]));
        assert(a.banks[i].valid(a.sector_size, a.allow_unaligned));
        assert forall|u: u32| #[trigger] b.banks[i].slots.dom().contains(u) implies u
            < b.banks[i].units && b.banks[i].slots[u].unit == u by {
            assert(a.banks[i].slots.dom().contains(u));
        }
    }
    assert forall|i: int, j: int| 0 <= i < j < b.banks.len() implies (#[trigger] b.banks[i]).name
        != (#[trigger] b.banks[j]).name && disjoint(
        b.banks[i].base as int,
        b.banks[i].end(),
        b.banks[j].base as int,
        b.banks[j].end(),
    ) by {
        assert(bank_joined(a.base_dir, a.banks[i], b.banks[i]));
        assert(bank_joined(a.base_dir, a.banks[j], b.banks[j]));
    }
    if b.toc_offset is Some {
        let t = b.toc_offset->0;
        assert forall|i: int| 0 <= i < b.banks.len() implies disjoint(
            (#[trigger] b.banks[i]).base as int,
            b.banks[i].end(),
            t as int,
            t + TOC_REGION_LEN,
        ) by {
            assert(bank_joined(a.base_dir, a.banks[i], b.banks[i]));
        }
    }
}

proof fn slots_from_units(
    ctx: Seq<char>,
    units: u32,
    slots: Seq<RawSlot>,
    i: int,
    acc: Map<u32, SlotEntryView>,
)
    requires
        0 <= i,
        forall|u: u32| #[trigger] acc.dom().contains(u) ==> u < units && acc[u].unit == u,
    ensures
        slots_from(ctx, units, slots, i, acc) matches Ruling::Done(m) ==> forall|u: u32| #[trigger]
            m.dom().contains(u) ==> u < units && m[u].unit == u,
    decreases slots.len() - i,
{
    if i < slots.len() && slots[i].unit < units && !acc.dom().contains(slots[i].unit) {
        let next = acc.insert(
            slots[i].unit,
            SlotEntryView {
                unit: slots[i].unit,
                name: opt_text(slots[i].name),
                image: opt_text(slots[i].image),
            },
        );
        assert forall|u: u32| #[trigger] next.dom().contains(u) implies u < units && next[u].unit
            == u by {
            if u != slots[i].unit {
                assert(acc.dom().contains(u));
            }
        }
        slots_from_units(ctx, units, slots, i + 1, next);
    }
}

/// A bank as resolved is valid but for the size of an unaligned one.
pub open spec fn nearly_valid(b: BankView, sector: u32, allow_unaligned: bool) -> bool {
    b.size() <= u64::MAX ==> b.valid(sector, allow_unaligned)
}

proof fn bank_is_valid(
    rb: RawBank,
    sector: u32,
    allow_unaligned: bool,
    reg: Seq<DriveTypeView>,
)
    requires
        sector > 0,
    ensures
        bank_ruling(rb, sector, allow_unaligned, reg) matches Ruling::Done(b) ==> nearly_valid(
            b,
            sector,
            allow_unaligned,
        ),
{
    slots_from_units(bank_label(rb.name@), rb.units, rb.slot@, 0, Map::empty());
    if bank_ruling(rb, sector, allow_unaligned, reg) is Done {
        let b = bank_ruling(rb, sector, allow_unaligned, reg)->Done_0;
        assert(b.slots == slots_from(bank_label(rb.name@), rb.units, rb.slot@, 0, Map::empty())->Done_0);
        assert(geometry_ruling(
            bank_label(rb.name@),
            b.base,
            b.slot_size,
            b.units,
            sector,
            allow_unaligned,
        ) is Done);
    }
}

proof fn banks_are_valid(
    raw: Seq<RawBank>,
    sector: u32,
    allow_unaligned: bool,
    reg: Seq<DriveTypeView>,
    i: int,
    acc: Seq<BankView>,
)
    requires
        sector > 0,
        0 <= i,
        forall|k: int|
            0 <= k < acc.len() ==> nearly_valid(#[trigger] acc[k], sector, allow_unaligned),
    ensures
        banks_from(raw, sector, allow_unaligned, reg, i, acc) matches Ruling::Done(b) ==> forall|
            k: int,
        |
            0 <= k < b.len() ==> nearly_valid(#[trigger] b[k], sector, allow_unaligned),
    decreases raw.len() - i,
{
    if i < raw.len() {
        bank_is_valid(raw[i], sector, allow_unaligned, reg);
        if bank_ruling(raw[i], sector, allow_unaligned, reg) is Done {
            let b = bank_ruling(raw[i], sector, allow_unaligned, reg)->Done_0;
            banks_are_valid(raw, sector, allow_unaligned, reg, i + 1, acc.push(b));
        }
    }
}

proof fn names_differ(banks: Seq<BankView>, i: int)
    requires
        0 <= i,
        repeated_from(banks, i) is None,
    ensures
        forall|a: int, b: int|
            i <= a < b < banks.len() ==> (#[trigger] banks[a]).name != (#[trigger] banks[b]).name,
    decreases banks.len() - i,
{
    if i < banks.len() {
        names_differ(banks, i + 1);
        assert(!name_repeats(banks, i));
    }
}

/// Regions in order of offset: sorted, and none of the regions is missing.
pub(crate) proof fn in_order_props(regions: Seq<Region>, n: int)
    requires
        0 <= n <= regions.len(),
    ensures
        in_order(regions, n).len() == n,
        forall|p: int, q: int|
            0 <= p <= q < n ==> (#[trigger] in_order(regions, n)[p]).1.offset <= (
            #[trigger] in_order(regions, n)[q]).1.offset,
        forall|i: int| 0 <= i < n ==> in_order(regions, n).contains(#[trigger] regions[i]),
    decreases n,
{
    if n > 0 {
        in_order_props(regions, n - 1);
        let s = in_order(regions, n - 1);
        let e = regions[n - 1];
        first_where_props(s, starts_after(e.1.offset));
        let k = first_where(s, starts_after(e.1.offset)) as int;
        let t = in_order(regions, n);
        assert(t == s.insert(k, e));
        assert forall|p: int, q: int| 0 <= p <= q < n implies (#[trigger] t[p]).1.offset <= (
        #[trigger] t[q]).1.offset by {
            let sp = if p < k {
                p
            } else {
                p - 1
            };
            let sq = if q < k {
                q
            } else {
                q - 1
            };
            if p != k && q != k {
                assert(t[p] == s[sp] && t[q] == s[sq]);
            } else if p == k && q != k {
                assert(t[q] == s[sq]);
                assert(starts_after(e.1.offset)(s[k]));
                assert(s[k].1.offset <= s[sq].1.offset);
            } else if p != k && q == k {
                assert(t[p] == s[sp]);
                assert(!starts_after(e.1.offset)(s[sp]));
            }
        }
        assert forall|i: int| 0 <= i < n implies t.contains(#[trigger] regions[i]) by {
            if i < n - 1 {
                assert(s.contains(regions[i]));
                let p = choose|p: int| 0 <= p < s.len() && s[p] == regions[i];
                if p < k {
                    assert(t[p] == regions[i]);
                } else {
                    assert(t[p + 1] == regions[i]);
                }
            } else {
                assert(t[k] == regions[i]);
            }
        }
    }
}

proof fn neighbours_apart(banks: Seq<BankView>, sorted: Seq<Region>, i: int)
    requires
        0 <= i,
        overlap_from(banks, sorted, i) is Done,
    ensures
        forall|p: int|
            i <= p < sorted.len() - 1 ==> (#[trigger] sorted[p]).1.limit() <= sorted[p
                + 1].1.offset,
    decreases sorted.len() - i,
{
    if i + 1 < sorted.len() {
        neighbours_apart(banks, sorted, i + 1);
    }
}

/// No two regions meet when no neighbours do.
proof fn regions_apart(banks: Seq<BankView>, toc: Option<u64>, i: int, j: int)
    requires
        overlap_ruling(banks, toc) is Done,
        banks.len() <= usize::MAX,
        0 <= i < j < regions_of(banks, toc).len(),
    ensures
        disjoint(
            regions_of(banks, toc)[i].1.offset as int,
            regions_of(banks, toc)[i].1.limit(),
            regions_of(banks, toc)[j].1.offset as int,
            regions_of(banks, toc)[j].1.limit(),
        ),
{
    let regions = regions_of(banks, toc);
    let sorted = in_order(regions, regions.len() as int);
    in_order_props(regions, regions.len() as int);
    neighbours_apart(banks, sorted, 0);
    assert(sorted.contains(regions[i]));
    assert(sorted.contains(regions[j]));
    let p = choose|p: int| 0 <= p < sorted.len() && sorted[p] == regions[i];
    let q = choose|q: int| 0 <= q < sorted.len() && sorted[q] == regions[j];
    assert(regions[i].0 == i && regions[j].0 == j);
    assert(p != q);
    if p < q {
        assert(sorted[p].1.limit() <= sorted[p + 1].1.offset <= sorted[q].1.offset);
    } else {
        assert(sorted[q].1.limit() <= sorted[q + 1].1.offset <= sorted[p].1.offset);
    }
}

/// Every layout that comes of a manifest is valid: sector and bank rules hold,
/// bank names differ, and no two banks, nor a bank and the TOC region, meet.
pub proof fn resolved_layouts_are_valid(raw: RawManifest, base_dir: Seq<char>)
    ensures
        manifest_ruling(raw, base_dir) matches Ruling::Done(v) ==> v.valid(),
{
    if manifest_ruling(raw, base_dir) is Done {
        let v = manifest_ruling(raw, base_dir)->Done_0;
        let sector = sector_of(raw);
        assert(raw.bank@.len() == raw.bank.len());
        power_positive(sector as int);
        banks_are_valid(raw.bank@, sector, v.allow_unaligned, v.registry, 0, Seq::empty());
        names_differ(v.banks, 0);
        let regions = regions_of(v.banks, v.toc_offset);
        banks_from_len(raw.bank@, sector, v.allow_unaligned, v.registry, 0, Seq::empty());
        assert forall|i: int| 0 <= i < v.banks.len() implies (#[trigger] v.banks[i]).valid(
            v.sector_size,
            v.allow_unaligned,
        ) by {
            assert(nearly_valid(v.banks[i], sector, v.allow_unaligned));
        }
        assert forall|i: int, j: int| 0 <= i < j < v.banks.len() implies disjoint(
            (#[trigger] v.banks[i]).base as int,
            v.banks[i].end(),
            (#[trigger] v.banks[j]).base as int,
            v.banks[j].end(),
        ) by {
            assert(v.banks[i].size() >= 0 && v.banks[j].size() >= 0) by {
                size_is_natural(v.banks[i]);
                size_is_natural(v.banks[j]);
            }
            regions_apart(v.banks, v.toc_offset, i, j);
        }
        if v.toc_offset is Some {
            let t = v.toc_offset->0;
            assert forall|i: int| 0 <= i < v.banks.len() implies disjoint(
                (#[trigger] v.banks[i]).base as int,
                v.banks[i].end(),
                t as int,
                t + TOC_REGION_LEN,
            ) by {
                size_is_natural(v.banks[i]);
                regions_apart(v.banks, v.toc_offset, i, v.banks.len() as int);
            }
        }
    }
}

proof fn size_is_natural(b: BankView)
    ensures
        b.size() >= 0,
{
    assert(b.slot_size * b.units >= 0) by (nonlinear_arith)
        requires
            b.slot_size >= 0,
            b.units >= 0,
    ;
}

proof fn banks_from_len(
    raw: Seq<RawBank>,
    sector: u32,
    allow_unaligned: bool,
    reg: Seq<DriveTypeView>,
    i: int,
    acc: Seq<BankView>,
)
    requires
        0 <= i <= raw.len(),
        acc.len() == i,
    ensures
        banks_from(raw, sector, allow_unaligned, reg, i, acc) matches Ruling::Done(b) ==> b.len()
            == raw.len(),
    decreases raw.len() - i,
{
    if i < raw.len() && bank_ruling(raw[i], sector, allow_unaligned, reg) is Done {
        let b = bank_ruling(raw[i], sector, allow_unaligned, reg)->Done_0;
        banks_from_len(raw, sector, allow_unaligned, reg, i + 1, acc.push(b));
    }
}

} // verus!
