//! Drive type registry: canonical flat-image sizes and recommended slot sizes
//! per drive type, extensible by a manifest.

use vstd::prelude::*;
use vstd::string::*;

use crate::search::{find_where, first_where, first_where_is, first_where_props};
use crate::text::{cat4, dec, dec_text, eq_ignoring_case, same_ignoring_case};

verus! {

/// C/H/S geometry. `bytes()` is the canonical flat-image size for drives
/// whose image is exactly cylinders × heads × sectors × bytes_per_sector.
#[derive(Debug, Clone, Copy, PartialEq, Eq, Structural)]
pub struct Geometry {
    pub cylinders: u32,
    pub heads: u32,
    pub sectors: u32,
    pub bytes_per_sector: u32,
}

impl Geometry {
    pub open spec fn sectors_total(&self) -> int {
        self.cylinders * self.heads * self.sectors
    }

    pub open spec fn size(&self) -> int {
        self.sectors_total() * self.bytes_per_sector
    }

    /// Both the sector count and the byte count fit in 64 bits.
    pub open spec fn fits(&self) -> bool {
        self.sectors_total() <= u64::MAX && self.size() <= u64::MAX
    }

    pub fn bytes(&self) -> (r: u64)
        requires
            self.fits(),
        ensures
            r == self.size(),
    {
        let c: u64 = self.cylinders as u64;
        let h: u64 = self.heads as u64;
        let s: u64 = self.sectors as u64;
        let b: u64 = self.bytes_per_sector as u64;
        assert(c * h <= u64::MAX) by (nonlinear_arith)
            requires
                c <= u32::MAX,
                h <= u32::MAX,
        ;
        c * h * s * b
    }

    /// Do the sector count and the byte count fit in 64 bits?
    pub fn bytes_fit(&self) -> (r: bool)
        ensures
            r == self.fits(),
    {
        let c: u128 = self.cylinders as u128;
        let h: u128 = self.heads as u128;
        let s: u128 = self.sectors as u128;
        let b: u128 = self.bytes_per_sector as u128;
        assert(c * h <= u32::MAX * u32::MAX) by (nonlinear_arith)
            requires
                0 <= c <= u32::MAX,
                0 <= h <= u32::MAX,
        ;
        let ch: u128 = c * h;
        assert(ch * s <= u32::MAX * u32::MAX * u32::MAX) by (nonlinear_arith)
            requires
                0 <= ch <= u32::MAX * u32::MAX,
                0 <= s <= u32::MAX,
        ;
        let chs: u128 = ch * s;
        assert(chs * b <= u32::MAX * u32::MAX * u32::MAX * u32::MAX) by (nonlinear_arith)
            requires
                0 <= chs <= u32::MAX * u32::MAX * u32::MAX,
                0 <= b <= u32::MAX,
        ;
        chs <= u64::MAX as u128 && chs * b <= u64::MAX as u128
    }

    /// `77c x 1h x 26s x 128B`.
    pub open spec fn text(&self) -> Seq<char> {
        dec(self.cylinders as nat) + "c x "@ + dec(self.heads as nat) + "h x "@ + dec(
            self.sectors as nat,
        ) + "s x "@ + dec(self.bytes_per_sector as nat) + "B"@
    }

    /// The geometry as a user reads it.
    pub fn display(&self) -> (r: String)
        ensures
            r@ == self.text(),
    {
        let c = dec_text(self.cylinders as u64);
        let h = dec_text(self.heads as u64);
        let s = dec_text(self.sectors as u64);
        let b = dec_text(self.bytes_per_sector as u64);
        let mut out = cat4(&c, "c x ", &h, "h x ");
        out.append(&s);
        out.append("s x ");
        out.append(&b);
        out.append("B");
        out
    }
}

#[derive(Debug)]
pub struct DriveType {
    pub name: String,
    pub geometry: Option<Geometry>,
    /// Canonical flat image size in bytes (what a simulator expects). For
    /// stream types this is the nominal media capacity, for display and
    /// sizing only.
    pub image_bytes: u64,
    /// Recommended power-of-two slot size in bytes.
    pub recommended_slot: u64,
    /// Byte-stream media (magtape): the slot holds a variable-length
    /// container, valid at any length up to the slot. No geometry, no
    /// canonical size.
    pub stream: bool,
}

/// A drive type by its contents.
pub struct DriveTypeView {
    pub name: Seq<char>,
    pub geometry: Option<Geometry>,
    pub image_bytes: u64,
    pub recommended_slot: u64,
    pub stream: bool,
}

impl View for DriveType {
    type V = DriveTypeView;

    open spec fn view(&self) -> DriveTypeView {
        DriveTypeView {
            name: self.name@,
            geometry: self.geometry,
            image_bytes: self.image_bytes,
            recommended_slot: self.recommended_slot,
            stream: self.stream,
        }
    }
}

impl Clone for DriveType {
    fn clone(&self) -> (r: DriveType)
        ensures
            r == *self,
    {
        DriveType {
            name: self.name.clone(),
            geometry: self.geometry,
            image_bytes: self.image_bytes,
            recommended_slot: self.recommended_slot,
            stream: self.stream,
        }
    }
}

/// Geometry from its four counts.
pub fn geom(cylinders: u32, heads: u32, sectors: u32, bytes_per_sector: u32) -> (r: Geometry)
    ensures
        r.cylinders == cylinders,
        r.heads == heads,
        r.sectors == sectors,
        r.bytes_per_sector == bytes_per_sector,
{
    Geometry { cylinders, heads, sectors, bytes_per_sector }
}

pub open spec fn disk(name: Seq<char>, c: u32, h: u32, s: u32, b: u32, image: u64, slot: u64) -> DriveTypeView {
    DriveTypeView {
        name,
        geometry: Some(Geometry { cylinders: c, heads: h, sectors: s, bytes_per_sector: b }),
        image_bytes: image,
        recommended_slot: slot,
        stream: false,
    }
}

pub open spec fn tape(name: Seq<char>, nominal: u64, slot: u64) -> DriveTypeView {
    DriveTypeView {
        name,
        geometry: None,
        image_bytes: nominal,
        recommended_slot: slot,
        stream: true,
    }
}

/// The builtin types. Disk sizes are the exact canonical flat-image byte
/// counts, the product of the geometry; RX02 physical media records track 0 in
/// single density, but flat images are uniform. Tapes carry the nominal
/// capacity of a 2400 ft reel at 1600 bytes per inch.
pub open spec fn builtin_types() -> Seq<DriveTypeView> {
    seq![
        disk("RX01"@, 77, 1, 26, 128, 256256, 524288),
        disk("RX02"@, 77, 1, 26, 256, 512512, 1048576),
        disk("RX50"@, 80, 1, 10, 512, 409600, 524288),
        disk("RX33"@, 80, 2, 15, 512, 1228800, 2097152),
        disk("RX23"@, 80, 2, 18, 512, 1474560, 2097152),
        disk("RX26"@, 80, 2, 36, 512, 2949120, 4194304),
        disk("RL01"@, 256, 2, 40, 256, 5242880, 8388608),
        disk("RL02"@, 512, 2, 40, 256, 10485760, 16777216),
        disk("RK05"@, 203, 2, 12, 512, 2494464, 4194304),
        disk("RP04"@, 411, 19, 22, 512, 87960576, 134217728),
        disk("RP05"@, 411, 19, 22, 512, 87960576, 134217728),
        disk("RP06"@, 815, 19, 22, 512, 174423040, 268435456),
        disk("RM03"@, 823, 5, 32, 512, 67420160, 134217728),
        disk("RM05"@, 823, 19, 32, 512, 256196608, 536870912),
        disk("RP07"@, 630, 32, 50, 512, 516096000, 1073741824),
        tape("TU16"@, 46080000, 67108864),
        tape("TU45"@, 46080000, 67108864),
    ]
}

fn disk_type(name: &str, g: Geometry, slot: u64) -> (r: DriveType)
    requires
        g.fits(),
    ensures
        r@ == disk(
            name@,
            g.cylinders,
            g.heads,
            g.sectors,
            g.bytes_per_sector,
            g.size() as u64,
            slot,
        ),
{
    DriveType {
        name: name.to_owned(),
        geometry: Some(g),
        image_bytes: g.bytes(),
        recommended_slot: slot,
        stream: false,
    }
}

fn tape_type(name: &str, nominal: u64, slot: u64) -> (r: DriveType)
    ensures
        r@ == tape(name@, nominal, slot),
{
    DriveType {
        name: name.to_owned(),
        geometry: None,
        image_bytes: nominal,
        recommended_slot: slot,
        stream: true,
    }
}

/// Drive types by name, in a registry's order; names match up to ASCII case.
pub open spec fn has_name(name: Seq<char>) -> spec_fn(DriveTypeView) -> bool {
    |t: DriveTypeView| same_ignoring_case(t.name, name)
}

/// The first type of that name.
pub open spec fn lookup(types: Seq<DriveTypeView>, name: Seq<char>) -> Option<DriveTypeView> {
    find_where(types, has_name(name))
}

/// The types with `t` in place of the first of its name, or behind them all.
pub open spec fn added(types: Seq<DriveTypeView>, t: DriveTypeView) -> Seq<DriveTypeView> {
    let k = first_where(types, has_name(t.name)) as int;
    if k < types.len() {
        types.update(k, t)
    } else {
        types.push(t)
    }
}

/// Case-insensitive drive type registry.
#[derive(Debug)]
pub struct Registry {
    types: Vec<DriveType>,
}

impl View for Registry {
    type V = Seq<DriveTypeView>;

    closed spec fn view(&self) -> Seq<DriveTypeView> {
        self.types@.map_values(|t: DriveType| t@)
    }
}

impl Clone for Registry {
    fn clone(&self) -> (r: Registry)
        ensures
            r@ == self@,
    {
        let mut types: Vec<DriveType> = Vec::new();
        for i in 0..self.types.len()
            invariant
                types@ == self.types@.take(i as int),
        {
            types.push(self.types[i].clone());
            assert(types@ =~= self.types@.take(i + 1));
        }
        assert(types@ =~= self.types@);
        Registry { types }
    }
}

impl Registry {
    /// The builtin types.
    pub fn builtin() -> (r: Registry)
        ensures
            r@ == builtin_types(),
    {
        let types = vec![
            disk_type("RX01", geom(77, 1, 26, 128), 524288),
            disk_type("RX02", geom(77, 1, 26, 256), 1048576),
            disk_type("RX50", geom(80, 1, 10, 512), 524288),
            disk_type("RX33", geom(80, 2, 15, 512), 2097152),
            disk_type("RX23", geom(80, 2, 18, 512), 2097152),
            disk_type("RX26", geom(80, 2, 36, 512), 4194304),
            disk_type("RL01", geom(256, 2, 40, 256), 8388608),
            disk_type("RL02", geom(512, 2, 40, 256), 16777216),
            disk_type("RK05", geom(203, 2, 12, 512), 4194304),
            disk_type("RP04", geom(411, 19, 22, 512), 134217728),
            disk_type("RP05", geom(411, 19, 22, 512), 134217728),
            disk_type("RP06", geom(815, 19, 22, 512), 268435456),
            disk_type("RM03", geom(823, 5, 32, 512), 134217728),
            disk_type("RM05", geom(823, 19, 32, 512), 536870912),
            disk_type("RP07", geom(630, 32, 50, 512), 1073741824),
            tape_type("TU16", 46080000, 67108864),
            tape_type("TU45", 46080000, 67108864),
        ];
        let r = Registry { types };
        assert(r@ =~= builtin_types());
        r
    }

    /// Index of the first type of that name, or the number of types.
    fn position(&self, name: &str) -> (k: usize)
        ensures
            k == first_where(self@, has_name(name@)),
            k <= self.types@.len(),
            self@.len() == self.types@.len(),
    {
        let n: usize = self.types.len();
        let mut i: usize = 0;
        while i < n && !eq_ignoring_case(&self.types[i].name, name)
            invariant
                n == self.types@.len(),
                i <= n,
                forall|j: int| 0 <= j < i ==> !has_name(name@)(#[trigger] self@[j]),
            decreases n - i,
        {
            assert(self@[i as int] == self.types@[i as int]@);
            i = i + 1;
        }
        proof {
            if i < n {
                assert(self@[i as int] == self.types@[i as int]@);
            }
            first_where_is(self@, has_name(name@), i as int);
        }
        i
    }

    pub fn get(&self, name: &str) -> (r: Option<&DriveType>)
        ensures
            match r {
                Some(t) => lookup(self@, name@) == Some(t@),
                None => lookup(self@, name@) is None,
            },
    {
        let k: usize = self.position(name);
        if k < self.types.len() {
            assert(self@[k as int] == self.types@[k as int]@);
            Some(&self.types[k])
        } else {
            None
        }
    }

    /// Add or replace a type (manifest entries override builtins).
    pub fn add(&mut self, t: DriveType)
        ensures
            final(self)@ == added(old(self)@, t@),
    {
        let k: usize = self.position(&t.name);
        if k < self.types.len() {
            let ghost after = t@;
            self.types[k] = t;
            assert(self@ =~= old(self)@.update(k as int, after));
        } else {
            let ghost after = t@;
            self.types.push(t);
            assert(self@ =~= old(self)@.push(after));
        }
    }

    /// How many types there are.
    pub fn count(&self) -> (n: usize)
        ensures
            n == self@.len(),
    {
        self.types.len()
    }

    /// The types, in order.
    pub fn iter(&self) -> (r: &[DriveType])
        ensures
            r@.map_values(|t: DriveType| t@) == self@,
    {
        self.types.as_slice()
    }
}

/// A type that was added is found under its name, in any case.
pub proof fn added_type_is_found(types: Seq<DriveTypeView>, t: DriveTypeView, name: Seq<char>)
    requires
        same_ignoring_case(name, t.name),
    ensures
        lookup(added(types, t), name) == Some(t),
{
    first_where_props(types, has_name(t.name));
    let k = first_where(types, has_name(t.name)) as int;
    let after = added(types, t);
    assert forall|j: int| 0 <= j < k implies !has_name(name)(#[trigger] after[j]) by {
        assert(after[j] == types[j]);
    }
    first_where_is(after, has_name(name), k);
}

/// Adding a type leaves what is found under every other name.
pub proof fn adding_keeps_other_names(types: Seq<DriveTypeView>, t: DriveTypeView, name: Seq<char>)
    requires
        !same_ignoring_case(name, t.name),
    ensures
        lookup(added(types, t), name) == lookup(types, name),
{
    first_where_props(types, has_name(t.name));
    first_where_props(types, has_name(name));
    let k = first_where(types, has_name(t.name)) as int;
    let m = first_where(types, has_name(name)) as int;
    let after = added(types, t);
    if k < types.len() {
        assert(k != m);
        assert forall|j: int| 0 <= j < m implies !has_name(name)(#[trigger] after[j]) by {
            assert(!has_name(name)(types[j]));
        }
        first_where_is(after, has_name(name), m);
    } else if m < types.len() {
        assert forall|j: int| 0 <= j < m implies !has_name(name)(#[trigger] after[j]) by {
            assert(after[j] == types[j]);
        }
        first_where_is(after, has_name(name), m);
    } else {
        assert forall|j: int| 0 <= j < after.len() implies !has_name(name)(#[trigger] after[j]) by {
            if j < types.len() {
                assert(after[j] == types[j]);
            }
        }
        first_where_is(after, has_name(name), after.len() as int);
    }
}

/// Every builtin disk image is the product of its geometry and fits its
/// recommended slot; every builtin tape has no geometry.
pub proof fn builtin_types_are_consistent()
    ensures
        forall|i: int|
            0 <= i < builtin_types().len() ==> {
                let t = #[trigger] builtin_types()[i];
                &&& t.image_bytes <= t.recommended_slot
                &&& t.stream <==> t.geometry is None
                &&& t.geometry matches Some(g) ==> g.size() == t.image_bytes
            },
{
    let s = builtin_types();
    assert((Geometry { cylinders: 77, heads: 1, sectors: 26, bytes_per_sector: 128 }).size() == 256256) by (nonlinear_arith);
    assert((Geometry { cylinders: 77, heads: 1, sectors: 26, bytes_per_sector: 256 }).size() == 512512) by (nonlinear_arith);
    assert((Geometry { cylinders: 80, heads: 1, sectors: 10, bytes_per_sector: 512 }).size() == 409600) by (nonlinear_arith);
    assert((Geometry { cylinders: 80, heads: 2, sectors: 15, bytes_per_sector: 512 }).size() == 1228800) by (nonlinear_arith);
    assert((Geometry { cylinders: 80, heads: 2, sectors: 18, bytes_per_sector: 512 }).size() == 1474560) by (nonlinear_arith);
    assert((Geometry { cylinders: 80, heads: 2, sectors: 36, bytes_per_sector: 512 }).size() == 2949120) by (nonlinear_arith);
    assert((Geometry { cylinders: 256, heads: 2, sectors: 40, bytes_per_sector: 256 }).size() == 5242880) by (nonlinear_arith);
    assert((Geometry { cylinders: 512, heads: 2, sectors: 40, bytes_per_sector: 256 }).size() == 10485760) by (nonlinear_arith);
    assert((Geometry { cylinders: 203, heads: 2, sectors: 12, bytes_per_sector: 512 }).size() == 2494464) by (nonlinear_arith);
    assert((Geometry { cylinders: 411, heads: 19, sectors: 22, bytes_per_sector: 512 }).size() == 87960576) by (nonlinear_arith);
    assert((Geometry { cylinders: 411, heads: 19, sectors: 22, bytes_per_sector: 512 }).size() == 87960576) by (nonlinear_arith);
    assert((Geometry { cylinders: 815, heads: 19, sectors: 22, bytes_per_sector: 512 }).size() == 174423040) by (nonlinear_arith);
    assert((Geometry { cylinders: 823, heads: 5, sectors: 32, bytes_per_sector: 512 }).size() == 67420160) by (nonlinear_arith);
    assert((Geometry { cylinders: 823, heads: 19, sectors: 32, bytes_per_sector: 512 }).size() == 256196608) by (nonlinear_arith);
    assert((Geometry { cylinders: 630, heads: 32, sectors: 50, bytes_per_sector: 512 }).size() == 516096000) by (nonlinear_arith);
    assert forall|i: int| 0 <= i < s.len() implies {
        let t = #[trigger] s[i];
        &&& t.image_bytes <= t.recommended_slot
        &&& t.stream <==> t.geometry is None
        &&& t.geometry matches Some(g) ==> g.size() == t.image_bytes
    } by {
        if i < 8 {
        } else if i < 12 {
        } else {
        }
    }
}

} // verus!
