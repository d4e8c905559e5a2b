//! Card layout model: banks of equal slots, slot references, byte extents, and
//! the hash that identifies a layout on the card.

use std::collections::BTreeMap;

use vstd::prelude::*;
use vstd::std_specs::btree::group_btree_axioms;
use vstd::string::*;

use crate::drive_types::{DriveType, DriveTypeView, Registry};
use crate::error::{Error, ErrorView, Result};
use crate::powers::{is_power, next_power, next_power_props, or_adds};
use crate::search::{find_where, first_where, first_where_is};
use crate::text::{
    cat2, cat3, cat4, cat5, chars_of, dec, dec_count, dec_text, hex_digit, hex_digit_char, opt_text,
    parse_unsigned, parsed, quoted, quoted_text, same_text, string_of,
};

verus! {

/// Reserved on-card size of the TOC region.
pub const TOC_REGION_LEN: u64 = 131072;

pub const DEFAULT_SECTOR_SIZE: u32 = 512;

#[derive(Debug, Clone)]
pub struct SlotEntry {
    pub unit: u32,
    pub name: Option<String>,
    /// Path of the slot's image file.
    pub image: Option<String>,
}

pub struct SlotEntryView {
    pub unit: u32,
    pub name: Option<Seq<char>>,
    pub image: Option<Seq<char>>,
}

impl View for SlotEntry {
    type V = SlotEntryView;

    open spec fn view(&self) -> SlotEntryView {
        SlotEntryView { unit: self.unit, name: opt_text(self.name), image: opt_text(self.image) }
    }
}

#[derive(Debug)]
pub struct Bank {
    pub name: String,
    pub base: u64,
    pub slot_size: u64,
    pub units: u32,
    pub drive_type: Option<DriveType>,
    pub slots: BTreeMap<u32, SlotEntry>,
}

pub struct BankView {
    pub name: Seq<char>,
    pub base: u64,
    pub slot_size: u64,
    pub units: u32,
    pub drive_type: Option<DriveTypeView>,
    pub slots: Map<u32, SlotEntryView>,
}

pub open spec fn opt_type(t: Option<DriveType>) -> Option<DriveTypeView> {
    match t {
        Some(t) => Some(t@),
        None => None,
    }
}

pub open spec fn slots_view(m: Map<u32, SlotEntry>) -> Map<u32, SlotEntryView> {
    m.map_values(|e: SlotEntry| e@)
}

impl View for Bank {
    type V = BankView;

    open spec fn view(&self) -> BankView {
        BankView {
            name: self.name@,
            base: self.base,
            slot_size: self.slot_size,
            units: self.units,
            drive_type: opt_type(self.drive_type),
            slots: slots_view(self.slots@),
        }
    }
}

impl BankView {
    /// Bytes from the first slot's start to the last one's end.
    pub open spec fn size(self) -> int {
        self.slot_size * self.units
    }

    pub open spec fn end(self) -> int {
        self.base + self.size()
    }

    /// Device offset of a slot.
    pub open spec fn offset_of(self, unit: int) -> int {
        self.base + unit * self.slot_size
    }

    /// The image named for a unit.
    pub open spec fn image_of(self, unit: u32) -> Option<Seq<char>> {
        if self.slots.dom().contains(unit) {
            self.slots[unit].image
        } else {
            None
        }
    }

    /// The name given to a unit.
    pub open spec fn name_of(self, unit: u32) -> Option<Seq<char>> {
        if self.slots.dom().contains(unit) {
            self.slots[unit].name
        } else {
            None
        }
    }

    /// What holds of every bank of a resolved layout with that sector size.
    pub open spec fn valid(self, sector: u32, allow_unaligned: bool) -> bool {
        &&& self.units > 0
        &&& self.slot_size > 0
        &&& self.slot_size as int % (sector as int) == 0
        &&& self.base as int % (sector as int) == 0
        &&& self.size() <= u64::MAX
        &&& !allow_unaligned ==> is_power(self.slot_size as int) && self.base as int % (next_power(
            self.size() as nat,
        ) as int) == 0 && next_power(self.size() as nat) <= u64::MAX
        &&& self.drive_type matches Some(t) ==> !t.stream ==> t.image_bytes <= self.slot_size
        &&& forall|u: u32| #[trigger]
            self.slots.dom().contains(u) ==> u < self.units && self.slots[u].unit == u
    }
}

impl Bank {
    pub fn span(&self) -> (r: u64)
        requires
            self@.size() <= u64::MAX,
        ensures
            r == self@.size(),
    {
        self.slot_size * self.units as u64
    }

    pub fn slot_offset(&self, unit: u32) -> (r: u64)
        requires
            self@.offset_of(unit as int) <= u64::MAX,
        ensures
            r == self@.offset_of(unit as int),
    {
        assert(unit * self.slot_size >= 0) by (nonlinear_arith)
            requires
                unit >= 0,
                self.slot_size >= 0,
        ;
        self.base + unit as u64 * self.slot_size
    }

    /// The image path named for a unit.
    pub fn image_path(&self, unit: u32) -> (r: Option<String>)
        ensures
            opt_text(r) == self@.image_of(unit),
    {
        broadcast use group_btree_axioms;

        match self.slots.get(&unit) {
            Some(e) => crate::text::clone_opt(&e.image),
            None => None,
        }
    }

    /// The name given to a unit.
    pub fn slot_name(&self, unit: u32) -> (r: Option<String>)
        ensures
            opt_text(r) == self@.name_of(unit),
    {
        broadcast use group_btree_axioms;

        match self.slots.get(&unit) {
            Some(e) => crate::text::clone_opt(&e.name),
            None => None,
        }
    }
}

/// A byte range on the device.
#[derive(Debug, Clone, Copy, PartialEq, Eq, Structural)]
pub struct Extent {
    pub offset: u64,
    pub len: u64,
}

impl Extent {
    pub open spec fn limit(self) -> int {
        self.offset + self.len
    }

    pub fn end(&self) -> (r: u64)
        requires
            self.limit() <= u64::MAX,
        ensures
            r == self.limit(),
    {
        self.offset + self.len
    }
}

#[derive(Debug)]
pub struct Layout {
    pub sector_size: u32,
    pub allow_unaligned: bool,
    /// Byte offset of the on-card TOC region, if configured.
    pub toc_offset: Option<u64>,
    pub banks: Vec<Bank>,
    pub registry: Registry,
    /// Directory of the manifest file; image paths resolve against it.
    pub base_dir: String,
}

pub struct LayoutView {
    pub sector_size: u32,
    pub allow_unaligned: bool,
    pub toc_offset: Option<u64>,
    pub banks: Seq<BankView>,
    pub registry: Seq<DriveTypeView>,
    pub base_dir: Seq<char>,
}

pub open spec fn bank_views(banks: Seq<Bank>) -> Seq<BankView> {
    banks.map_values(|b: Bank| b@)
}

impl View for Layout {
    type V = LayoutView;

    open spec fn view(&self) -> LayoutView {
        LayoutView {
            sector_size: self.sector_size,
            allow_unaligned: self.allow_unaligned,
            toc_offset: self.toc_offset,
            banks: bank_views(self.banks@),
            registry: self.registry@,
            base_dir: self.base_dir@,
        }
    }
}

pub open spec fn bank_named(name: Seq<char>) -> spec_fn(BankView) -> bool {
    |b: BankView| b.name == name
}

pub open spec fn disjoint(a: int, a_end: int, b: int, b_end: int) -> bool {
    a_end <= b || b_end <= a
}

impl LayoutView {
    pub open spec fn slot_extent(self, bank_idx: int, unit: int) -> Extent {
        Extent {
            offset: self.banks[bank_idx].offset_of(unit) as u64,
            len: self.banks[bank_idx].slot_size,
        }
    }

    /// Where a bank's first unit of some name is found.
    pub open spec fn bank_index(self, name: Seq<char>) -> nat {
        first_where(self.banks, bank_named(name))
    }

    pub open spec fn toc_extent(self) -> Option<Extent> {
        match self.toc_offset {
            Some(offset) => Some(Extent { offset, len: TOC_REGION_LEN }),
            None => None,
        }
    }

    /// Where a slot reference points, or why it points nowhere.
    pub open spec fn resolved(self, r: SlotRefView) -> std::result::Result<(int, u32), ErrorView> {
        let idx = match r.bank {
            Some(name) => self.bank_index(name) as int,
            None => 0,
        };
        if r.bank is Some && idx >= self.banks.len() {
            Err(ErrorView::Validation("no bank named "@ + quoted(r.bank->0)))
        } else if r.bank is None && self.banks.len() != 1 {
            Err(
                ErrorView::Validation(
                    "slot reference "@ + r.text() + " needs a bank prefix: manifest has "@ + dec(
                        self.banks.len(),
                    ) + " banks"@,
                ),
            )
        } else if r.unit >= self.banks[idx].units {
            Err(
                ErrorView::Validation(
                    "unit "@ + dec(r.unit as nat) + " out of range for bank "@ + quoted(
                        self.banks[idx].name,
                    ) + " ("@ + dec(self.banks[idx].units as nat) + " units)"@,
                ),
            )
        } else {
            Ok((idx, r.unit))
        }
    }

    /// What holds of every resolved layout: sectors, at least one bank, banks valid each
    /// and of different names, and regions that nowhere meet.
    pub open spec fn valid(self) -> bool {
        &&& is_power(self.sector_size as int)
        &&& self.sector_size >= 256
        &&& self.banks.len() > 0
        &&& forall|i: int|
            0 <= i < self.banks.len() ==> (#[trigger] self.banks[i]).valid(
                self.sector_size,
                self.allow_unaligned,
            )
        &&& forall|i: int, j: int|
            0 <= i < j < self.banks.len() ==> (#[trigger] self.banks[i]).name != (
            #[trigger] self.banks[j]).name
        &&& forall|i: int, j: int|
            0 <= i < j < self.banks.len() ==> disjoint(
                (#[trigger] self.banks[i]).base as int,
                self.banks[i].end(),
                (#[trigger] self.banks[j]).base as int,
                self.banks[j].end(),
            )
        &&& self.toc_offset matches Some(t) ==> t as int % (self.sector_size as int) == 0
        &&& self.toc_offset matches Some(t) ==> forall|i: int|
            0 <= i < self.banks.len() ==> disjoint(
                (#[trigger] self.banks[i]).base as int,
                self.banks[i].end(),
                t as int,
                t + TOC_REGION_LEN,
            )
    }

    /// Every region ends at an offset that fits in 64 bits.
    pub open spec fn addressable(self) -> bool {
        &&& forall|i: int|
            0 <= i < self.banks.len() ==> (#[trigger] self.banks[i]).end() <= u64::MAX
        &&& self.toc_offset matches Some(t) ==> t + TOC_REGION_LEN <= u64::MAX
    }

    /// Furthest end among the first `n` banks.
    pub open spec fn banks_end(self, n: int) -> int
        decreases n,
    {
        if n <= 0 {
            0
        } else if self.banks[n - 1].end() > self.banks_end(n - 1) {
            self.banks[n - 1].end()
        } else {
            self.banks_end(n - 1)
        }
    }

    /// Furthest end of any bank or of the TOC region.
    pub open spec fn furthest_end(self) -> int {
        let b = self.banks_end(self.banks.len() as int);
        match self.toc_offset {
            Some(t) => if t + TOC_REGION_LEN > b {
                t + TOC_REGION_LEN
            } else {
                b
            },
            None => b,
        }
    }

    /// One line per bank of what the layout hash covers.
    pub open spec fn bank_lines(self, n: int) -> Seq<char>
        decreases n,
    {
        if n <= 0 {
            Seq::empty()
        } else {
            self.bank_lines(n - 1) + bank_line(self.banks[n - 1])
        }
    }

    /// The text whose hash identifies the layout: sector size, then each
    /// bank's name, base, slot size and unit count.
    pub open spec fn hash_text(self) -> Seq<char> {
        "sector="@ + dec(self.sector_size as nat) + "\n"@ + self.bank_lines(self.banks.len() as int)
    }
}

pub open spec fn bank_line(b: BankView) -> Seq<char> {
    "bank="@ + b.name + " base="@ + dec(b.base as nat) + " slot_size="@ + dec(b.slot_size as nat)
        + " units="@ + dec(b.units as nat) + "\n"@
}

// ---------------------------------------------------------------------------
// Slot references
// ---------------------------------------------------------------------------

/// `bank:unit` slot reference; the bank may be omitted with a single bank.
#[derive(Debug, Clone, PartialEq, Eq)]
pub struct SlotRef {
    pub bank: Option<String>,
    pub unit: u32,
}

pub struct SlotRefView {
    pub bank: Option<Seq<char>>,
    pub unit: u32,
}

impl View for SlotRef {
    type V = SlotRefView;

    open spec fn view(&self) -> SlotRefView {
        SlotRefView { bank: opt_text(self.bank), unit: self.unit }
    }
}

impl SlotRefView {
    pub open spec fn text(self) -> Seq<char> {
        match self.bank {
            Some(b) => b + ":"@ + dec(self.unit as nat),
            None => dec(self.unit as nat),
        }
    }
}

/// `rl:3`.
pub open spec fn slot_name(k: (Seq<char>, u32)) -> Seq<char> {
    k.0 + ":"@ + dec(k.1 as nat)
}

pub fn slot_label(bank: &str, unit: u32) -> (r: String)
    ensures
        r@ == slot_name((bank@, unit)),
{
    let u = dec_text(unit as u64);
    cat3(bank, ":", &u)
}

/// The place of the last `c` in `s`, or -1.
pub open spec fn last_place(s: Seq<char>, c: char) -> int
    decreases s.len(),
{
    if s.len() == 0 {
        -1
    } else if s.last() == c {
        s.len() - 1
    } else {
        last_place(s.drop_last(), c)
    }
}

pub open spec fn is_char(c: char) -> spec_fn(char) -> bool {
    |d: char| d == c
}

pub open spec fn bad_ref(s: Seq<char>) -> ErrorView {
    ErrorView::Validation("bad slot reference "@ + quoted(s) + ": expected [bank:]unit"@)
}

/// The slot that a text refers to: a unit number, with a bank name and a colon
/// in front. The last colon divides them.
pub open spec fn parsed_ref(s: Seq<char>) -> std::result::Result<SlotRefView, ErrorView> {
    let k = last_place(s, ':');
    let bank = if k >= 0 {
        Some(s.take(k))
    } else {
        None
    };
    match parsed(s.skip(k + 1), u32::MAX as nat) {
        Some(n) => if k == 0 {
            Err(bad_ref(s))
        } else {
            Ok(SlotRefView { bank, unit: n as u32 })
        },
        None => Err(bad_ref(s)),
    }
}

fn bad_ref_err(s: &str) -> (r: Error)
    ensures
        r@ == bad_ref(s@),
{
    let q = quoted_text(s);
    Error::Validation(cat3("bad slot reference ", &q, ": expected [bank:]unit"))
}

impl SlotRef {
    /// Parse "rl:1" or "1".
    pub fn parse(s: &str) -> (r: Result<SlotRef>)
        ensures
            match r {
                Ok(v) => parsed_ref(s@) == Ok::<SlotRefView, ErrorView>(v@),
                Err(e) => parsed_ref(s@) == Err::<SlotRefView, ErrorView>(e@),
            },
    {
        let cs = chars_of(s);
        let n: usize = cs.len();
        let mut i: usize = n;
        assert(cs@.take(n as int) =~= cs@);
        while i > 0 && cs[i - 1] != ':'
            invariant
                n == cs@.len(),
                i <= n,
                cs@ == s@,
                last_place(s@, ':') == last_place(s@.take(i as int), ':'),
            decreases i,
        {
            assert(s@.take(i as int).drop_last() =~= s@.take(i - 1));
            i = i - 1;
        }
        assert(last_place(s@, ':') == i - 1) by {
            if i > 0 {
                assert(s@.take(i as int).last() == ':');
            }
        }
        let unit: u32 = match parse_unsigned(&cs, i, u32::MAX as u64) {
            Some(v) => v as u32,
            None => {
                return Err(bad_ref_err(s));
            },
        };
        if i == 0 {
            Ok(SlotRef { bank: None, unit })
        } else if i == 1 {
            Err(bad_ref_err(s))
        } else {
            let bank = string_of(&cs, 0, i - 1);
            assert(bank@ =~= s@.take(i - 1));
            Ok(SlotRef { bank: Some(bank), unit })
        }
    }

    /// The reference as a user writes it.
    pub fn display(&self) -> (r: String)
        ensures
            r@ == self@.text(),
    {
        let unit = dec_text(self.unit as u64);
        match &self.bank {
            Some(b) => cat3(b, ":", &unit),
            None => unit,
        }
    }
}

/// `bank:unit[=image]` as a slot option gives it.
#[derive(Debug, Clone)]
pub struct SlotAssign {
    pub slot: SlotRef,
    pub image: Option<String>,
}

pub struct SlotAssignView {
    pub slot: SlotRefView,
    pub image: Option<Seq<char>>,
}

impl View for SlotAssign {
    type V = SlotAssignView;

    open spec fn view(&self) -> SlotAssignView {
        SlotAssignView { slot: self.slot@, image: opt_text(self.image) }
    }
}

/// The assignment that a text stands for: a slot reference, and behind the
/// first equals sign an image path.
pub open spec fn parsed_assign(s: Seq<char>) -> std::result::Result<SlotAssignView, ErrorView> {
    let k = first_where(s, is_char('=')) as int;
    if k == s.len() {
        match parsed_ref(s) {
            Ok(slot) => Ok(SlotAssignView { slot, image: None }),
            Err(e) => Err(e),
        }
    } else if k + 1 == s.len() {
        Err(
            ErrorView::Validation(
                "bad slot assignment "@ + quoted(s) + ": empty image path"@,
            ),
        )
    } else {
        match parsed_ref(s.take(k)) {
            Ok(slot) => Ok(SlotAssignView { slot, image: Some(s.skip(k + 1)) }),
            Err(e) => Err(e),
        }
    }
}

impl SlotAssign {
    pub fn parse(s: &str) -> (r: Result<SlotAssign>)
        ensures
            match r {
                Ok(v) => parsed_assign(s@) == Ok::<SlotAssignView, ErrorView>(v@),
                Err(e) => parsed_assign(s@) == Err::<SlotAssignView, ErrorView>(e@),
            },
    {
        let cs = chars_of(s);
        let n: usize = cs.len();
        let mut k: usize = 0;
        while k < n && cs[k] != '='
            invariant
                n == cs@.len(),
                k <= n,
                cs@ == s@,
                forall|j: int| 0 <= j < k ==> !is_char('=')(#[trigger] s@[j]),
            decreases n - k,
        {
            k = k + 1;
        }
        proof {
            first_where_is(s@, is_char('='), k as int);
        }
        if k == n {
            let slot = match SlotRef::parse(s) {
                Ok(v) => v,
                Err(e) => {
                    return Err(e);
                },
            };
            return Ok(SlotAssign { slot, image: None });
        }
        if k + 1 == n {
            let q = quoted_text(s);
            return Err(
                Error::Validation(cat3("bad slot assignment ", &q, ": empty image path")),
            );
        }
        let front = string_of(&cs, 0, k);
        let image = string_of(&cs, k + 1, n);
        assert(front@ =~= s@.take(k as int));
        assert(image@ =~= s@.skip(k + 1));
        match SlotRef::parse(&front) {
            Ok(slot) => Ok(SlotAssign { slot, image: Some(image) }),
            Err(e) => Err(e),
        }
    }
}

// ---------------------------------------------------------------------------
// Queries
// ---------------------------------------------------------------------------

impl Layout {
    /// Index of the first bank of that name, or the number of banks.
    pub fn bank_position(&self, name: &str) -> (k: usize)
        ensures
            k == self@.bank_index(name@),
            k <= self.banks@.len(),
    {
        let n: usize = self.banks.len();
        let mut i: usize = 0;
        while i < n && !same_text(&self.banks[i].name, name)
            invariant
                n == self.banks@.len(),
                i <= n,
                forall|j: int| 0 <= j < i ==> !bank_named(name@)(#[trigger] self@.banks[j]),
            decreases n - i,
        {
            assert(self@.banks[i as int] == self.banks@[i as int]@);
            i = i + 1;
        }
        proof {
            if i < n {
                assert(self@.banks[i as int] == self.banks@[i as int]@);
            }
            first_where_is(self@.banks, bank_named(name@), i as int);
        }
        i
    }

    pub fn bank(&self, name: &str) -> (r: Option<&Bank>)
        ensures
            match r {
                Some(b) => find_where(self@.banks, bank_named(name@)) == Some(b@),
                None => find_where(self@.banks, bank_named(name@)) is None,
            },
    {
        let k: usize = self.bank_position(name);
        if k < self.banks.len() {
            assert(self@.banks[k as int] == self.banks@[k as int]@);
            Some(&self.banks[k])
        } else {
            None
        }
    }

    /// Resolve a `SlotRef` to (bank index, unit), validating bounds.
    pub fn resolve_slot(&self, r: &SlotRef) -> (res: Result<(usize, u32)>)
        ensures
            match res {
                Ok(v) => self@.resolved(r@) == Ok::<(int, u32), ErrorView>((v.0 as int, v.1))
                    && v.0 < self.banks@.len(),
                Err(e) => self@.resolved(r@) == Err::<(int, u32), ErrorView>(e@),
            },
    {
        let idx: usize = match &r.bank {
            Some(name) => {
                let k: usize = self.bank_position(name);
                if k >= self.banks.len() {
                    let q = quoted_text(name);
                    return Err(Error::Validation(cat2("no bank named ", &q)));
                }
                k
            },
            None => {
                if self.banks.len() == 1 {
                    0
                } else {
                    let t = r.display();
                    let n = dec_count(self.banks.len());
                    return Err(
                        Error::Validation(
                            cat5(
                                "slot reference ",
                                &t,
                                " needs a bank prefix: manifest has ",
                                &n,
                                " banks",
                            ),
                        ),
                    );
                }
            },
        };
        let bank = &self.banks[idx];
        assert(self@.banks[idx as int] == bank@);
        if r.unit >= bank.units {
            let u = dec_text(r.unit as u64);
            let q = quoted_text(&bank.name);
            let n = dec_text(bank.units as u64);
            let mut m = cat4("unit ", &u, " out of range for bank ", &q);
            m.append(" (");
            m.append(&n);
            m.append(" units)");
            return Err(Error::Validation(m));
        }
        Ok((idx, r.unit))
    }

    pub fn slot_extent(&self, bank_idx: usize, unit: u32) -> (r: Extent)
        requires
            bank_idx < self.banks@.len(),
            self@.banks[bank_idx as int].offset_of(unit as int) <= u64::MAX,
        ensures
            r == self@.slot_extent(bank_idx as int, unit as int),
            r.offset == self@.banks[bank_idx as int].offset_of(unit as int),
            r.len == self@.banks[bank_idx as int].slot_size,
    {
        let b = &self.banks[bank_idx];
        assert(self@.banks[bank_idx as int] == b@);
        Extent { offset: b.slot_offset(unit), len: b.slot_size }
    }

    /// TOC region extent, if configured.
    pub fn toc_extent(&self) -> (r: Option<Extent>)
        ensures
            r == self@.toc_extent(),
    {
        match self.toc_offset {
            Some(offset) => Some(Extent { offset, len: TOC_REGION_LEN }),
            None => None,
        }
    }

    /// Total extent that any configured bank or TOC region may touch.
    pub fn max_extent_end(&self) -> (r: u64)
        requires
            self@.addressable(),
        ensures
            r == self@.furthest_end(),
    {
        let mut far: u64 = 0;
        for i in 0..self.banks.len()
            invariant
                self@.addressable(),
                far == self@.banks_end(i as int),
        {
            let b = &self.banks[i];
            assert(self@.banks[i as int] == b@);
            assert(b@.size() >= 0) by (nonlinear_arith)
                requires
                    b@.size() == b.slot_size * b.units,
            ;
            let end: u64 = b.base + b.span();
            if end > far {
                far = end;
            }
        }
        match self.toc_extent() {
            Some(t) => {
                let end: u64 = t.end();
                if end > far {
                    end
                } else {
                    far
                }
            },
            None => far,
        }
    }

    /// The text whose hash identifies the layout.
    pub fn hash_input(&self) -> (r: String)
        ensures
            r@ == self@.hash_text(),
    {
        let n = dec_text(self.sector_size as u64);
        let head = cat3("sector=", &n, "\n");
        let mut lines = String::new();
        for i in 0..self.banks.len()
            invariant
                lines@ == self@.bank_lines(i as int),
        {
            let b = &self.banks[i];
            assert(self@.banks[i as int] == b@);
            let base = dec_text(b.base);
            let slot = dec_text(b.slot_size);
            let units = dec_text(b.units as u64);
            let mut line = cat4("bank=", &b.name, " base=", &base);
            line.append(" slot_size=");
            line.append(&slot);
            line.append(" units=");
            line.append(&units);
            line.append("\n");
            assert(line@ == bank_line(b@));
            lines.append(&line);
        }
        cat2(&head, &lines)
    }

    /// Stable hash of the geometry-defining parts of the layout, recorded in
    /// the TOC so that a card written with a different layout is detected.
    pub fn layout_hash(&self) -> (r: String)
        ensures
            r@ == self@.hash(),
    {
        let text = self.hash_input();
        let digest = crate::sha::digest_bytes(text.as_str().as_bytes());
        hex(&digest)
    }
}

impl LayoutView {
    pub open spec fn hash(self) -> Seq<char> {
        hex_bytes(crate::sha::digest(vstd::utf8::encode_utf8(self.hash_text())))
    }
}

/// Two lowercase hexadecimal digits per byte.
pub open spec fn hex_bytes(bytes: Seq<u8>) -> Seq<char>
    decreases bytes.len(),
{
    if bytes.len() == 0 {
        Seq::empty()
    } else {
        hex_bytes(bytes.drop_last()).push(hex_digit((bytes.last() / 16) as nat)).push(
            hex_digit((bytes.last() % 16) as nat),
        )
    }
}

pub fn hex(bytes: &[u8]) -> (r: String)
    ensures
        r@ == hex_bytes(bytes@),
{
    let mut out = String::new();
    for i in 0..bytes.len()
        invariant
            out@ == hex_bytes(bytes@.take(i as int)),
    {
        let b: u64 = bytes[i] as u64;
        out.push(hex_digit_char(b / 16));
        out.push(hex_digit_char(b % 16));
        assert(bytes@.take(i + 1).drop_last() =~= bytes@.take(i as int));
    }
    assert(bytes@.take(bytes@.len() as int) =~= bytes@);
    out
}

// ---------------------------------------------------------------------------
// What holds of layouts
// ---------------------------------------------------------------------------

pub(crate) proof fn last_place_is(s: Seq<char>, c: char, k: int)
    requires
        0 <= k < s.len(),
        s[k] == c,
        forall|j: int| k < j < s.len() ==> #[trigger] s[j] != c,
    ensures
        last_place(s, c) == k,
    decreases s.len(),
{
    if s.last() != c {
        assert forall|j: int| k < j < s.len() - 1 implies #[trigger] s.drop_last()[j] != c by {
            assert(s[j] != c);
        }
        last_place_is(s.drop_last(), c, k);
    } else if k < s.len() - 1 {
        assert(s[s.len() - 1] != c);
    }
}

pub(crate) proof fn last_place_none(s: Seq<char>, c: char)
    requires
        forall|j: int| 0 <= j < s.len() ==> #[trigger] s[j] != c,
    ensures
        last_place(s, c) == -1,
    decreases s.len(),
{
    if s.len() > 0 {
        assert(s[s.len() - 1] != c);
        assert forall|j: int| 0 <= j < s.len() - 1 implies #[trigger] s.drop_last()[j] != c by {
            assert(s[j] != c);
        }
        last_place_none(s.drop_last(), c);
    }
}

/// What a slot reference displays reads back as the same reference.
pub proof fn slot_ref_reads_back(r: SlotRefView)
    requires
        r.bank matches Some(b) ==> b.len() > 0,
    ensures
        parsed_ref(r.text()) == Ok::<SlotRefView, ErrorView>(r),
{
    let d = dec(r.unit as nat);
    crate::text::dec_is_digits(r.unit as nat);
    crate::text::dec_parses_back(r.unit as nat, u32::MAX as nat);
    let s = r.text();
    reveal_strlit(":");
    match r.bank {
        Some(b) => {
            assert forall|j: int| b.len() < j < s.len() implies #[trigger] s[j] != ':' by {
                assert(s[j] == d[j - b.len() - 1]);
                assert(crate::text::is_digit(d[j - b.len() - 1]));
            }
            last_place_is(s, ':', b.len() as int);
            assert(s.take(b.len() as int) =~= b);
            assert(s.skip(b.len() as int + 1) =~= d);
        },
        None => {
            assert forall|j: int| 0 <= j < s.len() implies #[trigger] s[j] != ':' by {
                assert(crate::text::is_digit(d[j]));
            }
            last_place_none(s, ':');
            assert(s.skip(0) =~= d);
        },
    }
}

/// Layouts with the same sector size, and banks of the same names, bases, slot
/// sizes and unit counts, have the same hash, whatever their slots hold.
pub proof fn hash_covers_geometry_only(a: LayoutView, b: LayoutView)
    requires
        a.sector_size == b.sector_size,
        a.banks.len() == b.banks.len(),
        forall|i: int|
            0 <= i < a.banks.len() ==> {
                &&& (#[trigger] a.banks[i]).name == b.banks[i].name
                &&& a.banks[i].base == b.banks[i].base
                &&& a.banks[i].slot_size == b.banks[i].slot_size
                &&& a.banks[i].units == b.banks[i].units
            },
    ensures
        a.hash() == b.hash(),
{
    same_lines(a, b, a.banks.len() as int);
}

proof fn same_lines(a: LayoutView, b: LayoutView, n: int)
    requires
        0 <= n <= a.banks.len() == b.banks.len(),
        forall|i: int|
            0 <= i < a.banks.len() ==> {
                &&& (#[trigger] a.banks[i]).name == b.banks[i].name
                &&& a.banks[i].base == b.banks[i].base
                &&& a.banks[i].slot_size == b.banks[i].slot_size
                &&& a.banks[i].units == b.banks[i].units
            },
    ensures
        a.bank_lines(n) == b.bank_lines(n),
    decreases n,
{
    if n > 0 {
        same_lines(a, b, n - 1);
        assert(a.banks[n - 1].name == b.banks[n - 1].name);
    }
}

/// Every slot lies wholly in its bank, behind the slots of lower units.
pub proof fn slots_lie_in_their_bank(b: BankView, unit: int)
    requires
        0 <= unit < b.units,
    ensures
        b.base <= b.offset_of(unit),
        b.offset_of(unit) + b.slot_size <= b.end(),
        forall|lower: int|
            0 <= lower < unit ==> #[trigger] b.offset_of(lower) + b.slot_size <= b.offset_of(unit),
{
    let s = b.slot_size as int;
    let n = b.units as int;
    assert(0 <= unit * s && unit * s + s <= s * n) by (nonlinear_arith)
        requires
            0 <= unit < n,
            s >= 0,
    ;
    assert forall|lower: int| 0 <= lower < unit implies #[trigger] b.offset_of(lower) + b.slot_size
        <= b.offset_of(unit) by {
        assert(lower * s + s <= unit * s) by (nonlinear_arith)
            requires
                0 <= lower < unit,
                s >= 0,
        ;
    }
}

/// In a layout that keeps the alignment rules, a slot's address is the bitwise
/// OR of its bank's base and the unit's share, with no adder.
pub proof fn or_concatenation_is_addition(b: BankView, sector: u32, unit: u32)
    requires
        b.valid(sector, false),
        unit < b.units,
    ensures
        unit * b.slot_size <= u64::MAX,
        b.base | ((unit * b.slot_size) as u64) == b.offset_of(unit as int),
{
    let s = b.slot_size as int;
    let n = b.units as int;
    let u = unit as int;
    next_power_props(b.size() as nat);
    assert(0 <= u * s && u * s + s <= s * n) by (nonlinear_arith)
        requires
            0 <= u < n,
            s > 0,
    ;
    or_adds(b.base, (unit * b.slot_size) as u64, next_power(b.size() as nat) as int);
}

/// The same in blocks: `BASE_LBA | (unit << SLOT_SHIFT) | block` is the block
/// of the card that holds block `block` of the slot.
pub proof fn block_address_needs_no_adder(b: BankView, sector: u32, unit: u32, block: u64)
    requires
        b.valid(sector, false),
        is_power(sector as int),
        unit < b.units,
        block < b.slot_size / (sector as u64),
    ensures
        unit * (b.slot_size / (sector as u64)) <= u64::MAX,
        (b.base / (sector as u64)) | ((unit * (b.slot_size / (sector as u64))) as u64) | block
            == b.offset_of(unit as int) / (sector as int) + block,
        b.offset_of(unit as int) % (sector as int) == 0,
{
    let q = sector as int;
    let s = b.slot_size as int;
    let n = b.units as int;
    let u = unit as int;
    let base = b.base as int;
    let p = next_power(b.size() as nat) as int;
    next_power_props(b.size() as nat);
    crate::powers::power_positive(q);
    crate::powers::power_positive(p);
    let sq = s / q;
    let bq = base / q;
    assert(s == sq * q) by (nonlinear_arith)
        requires
            s % q == 0,
            sq == s / q,
            q > 0,
    ;
    assert(base == bq * q) by (nonlinear_arith)
        requires
            base % q == 0,
            bq == base / q,
            q > 0,
    ;
    assert(sq > 0) by (nonlinear_arith)
        requires
            s == sq * q,
            s > 0,
            q > 0,
    ;
    assert(u * s == (u * sq) * q) by (nonlinear_arith)
        requires
            s == sq * q,
    ;
    assert(b.offset_of(u) == (bq + u * sq) * q) by (nonlinear_arith)
        requires
            b.offset_of(u) == base + u * s,
            base == bq * q,
            u * s == (u * sq) * q,
    ;
    assert(b.offset_of(u) / q == bq + u * sq && b.offset_of(u) % q == 0) by (nonlinear_arith)
        requires
            b.offset_of(u) == (bq + u * sq) * q,
            q > 0,
    ;
    assert(0 <= u * s && u * s + s <= s * n) by (nonlinear_arith)
        requires
            0 <= u < n,
            s > 0,
    ;
    // The bank's power-of-two span in blocks.
    crate::powers::power_divides(p, q, s);
    let pq = p / q;
    assert(u * sq + sq <= pq) by (nonlinear_arith)
        requires
            (u * sq) * q + sq * q <= p,
            p == pq * q,
            q > 0,
    ;
    assert(bq % pq == 0) by {
        let m = base / p;
        assert(base == m * p) by (nonlinear_arith)
            requires
                base % p == 0,
                m == base / p,
                p > 0,
        ;
        assert(bq == m * pq) by (nonlinear_arith)
            requires
                bq * q == m * p,
                p == pq * q,
                q > 0,
        ;
        assert(bq % pq == 0) by (nonlinear_arith)
            requires
                bq == m * pq,
                pq > 0,
        ;
    }
    assert(0 <= u * sq) by (nonlinear_arith)
        requires
            u >= 0,
            sq > 0,
    ;
    assert(pq <= p) by (nonlinear_arith)
        requires
            p == pq * q,
            q >= 1,
            pq >= 0,
    ;
    let base_lba = b.base / (sector as u64);
    let part = (unit * (b.slot_size / (sector as u64))) as u64;
    or_adds(base_lba, part, pq);
    let first = (base_lba | part);
    assert(first == bq + u * sq);
    assert(first as int % sq == 0) by {
        crate::powers::power_multiple(pq, sq);
        let t = pq / sq;
        let m = bq / pq;
        assert(bq == m * pq) by (nonlinear_arith)
            requires
                bq % pq == 0,
                m == bq / pq,
                pq > 0,
        ;
        assert(bq + u * sq == (m * t + u) * sq) by (nonlinear_arith)
            requires
                bq == m * pq,
                pq == t * sq,
        ;
        assert((m * t + u) * sq % sq == 0) by (nonlinear_arith)
            requires
                sq > 0,
        ;
    }
    or_adds(first, block, sq);
}

} // verus!
