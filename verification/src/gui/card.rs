//! The card map: the card to scale, the banks on it, and what its captions say.

use vstd::prelude::*;
use vstd::string::*;

use crate::gui::ops::{OpFold, OpFoldView};
use crate::gui::slots::{count_in_bank, picked_in, Pick, SlotStates};
use crate::layout::{
    slots_lie_in_their_bank, Bank, BankView, Extent, Layout, LayoutView, TOC_REGION_LEN,
};
use crate::search::{find_where, first_where_is};
use crate::text::{cat3, cat4, cat5, dec, dec_text, same_text};
use crate::units::{bytes_text, format_bytes};

verus! {

/// A marketed "8 GB" card in decimal bytes: the reference where no card is
/// selected.
pub const GENERIC_CARD: u64 = 8_000_000_000;

/// The smallest common card size, in decimal GB, that holds `bytes`; none of
/// them may.
pub open spec fn smallest_card(bytes: u64, gb: nat) -> Option<nat>
    decreases 1024 - gb,
{
    if gb == 0 || gb > 512 {
        None
    } else if gb * 1_000_000_000 >= bytes {
        Some(gb)
    } else {
        smallest_card(bytes, gb * 2)
    }
}

pub open spec fn suggestion(bytes: u64) -> Seq<char> {
    match smallest_card(bytes, 1) {
        Some(gb) => "a "@ + dec(gb) + " GB"@,
        None => "a 1 TB"@,
    }
}

/// The smallest common SD card marketing size that fits `bytes`, e.g.
/// "a 16 GB".
pub fn suggest_card(bytes: u64) -> (r: String)
    ensures
        r@ == suggestion(bytes),
{
    let mut gb: u64 = 1;
    while gb <= 512
        invariant
            1 <= gb <= 1024,
            smallest_card(bytes, 1) == smallest_card(bytes, gb as nat),
        decreases 1024 - gb,
    {
        if gb * 1_000_000_000 >= bytes {
            let d = dec_text(gb);
            return cat3("a ", &d, " GB");
        }
        gb = gb * 2;
    }
    "a 1 TB".to_owned()
}

/// The card's length and the layout's, for drawing to scale.
#[derive(Debug, Clone, Copy, PartialEq, Eq, Structural)]
pub struct CardScale {
    pub capacity: u64,
    /// No card is selected; the capacity is the reference card's.
    pub generic: bool,
    pub layout_end: u64,
    /// The byte at the right edge of the map.
    pub scale_end: u64,
    /// The layout does not fit the card.
    pub overflow: bool,
}

pub open spec fn scale_of(layout: LayoutView, card_size: Option<u64>) -> CardScale {
    let capacity = match card_size {
        Some(n) => n,
        None => GENERIC_CARD,
    };
    let end = layout.furthest_end() as u64;
    CardScale {
        capacity,
        generic: card_size is None,
        layout_end: end,
        scale_end: if end > capacity {
            end
        } else {
            capacity
        },
        overflow: end > capacity,
    }
}

/// How to draw a layout on a card of that size.
pub fn card_scale(layout: &Layout, card_size: Option<u64>) -> (r: CardScale)
    requires
        layout@.addressable(),
    ensures
        r == scale_of(layout@, card_size),
{
    let generic = card_size.is_none();
    let capacity = match card_size {
        Some(n) => n,
        None => GENERIC_CARD,
    };
    let layout_end = layout.max_extent_end();
    let overflow = layout_end > capacity;
    CardScale {
        capacity,
        generic,
        layout_end,
        scale_end: if overflow {
            layout_end
        } else {
            capacity
        },
        overflow,
    }
}

/// Does a bank reach past the card's end?
pub fn bank_overflows(bank: &Bank, capacity: u64) -> (r: bool)
    requires
        bank@.end() <= u64::MAX,
    ensures
        r == (bank@.end() > capacity),
{
    assert(bank@.size() >= 0) by (nonlinear_arith)
        requires
            bank@.size() == bank@.slot_size * bank@.units,
            bank@.slot_size >= 0,
            bank@.units >= 0,
    ;
    bank.base + bank.span() > capacity
}

/// Bytes of the occupied slots of the first `n` banks.
pub open spec fn bytes_occupied(layout: LayoutView, states: SlotStates, n: int) -> int
    decreases n,
{
    if n <= 0 {
        0
    } else {
        let b = layout.banks[n - 1];
        bytes_occupied(layout, states, n - 1) + picked_in(
            Pick::Occupied(&states),
            b,
            b.units as int,
        ).len() * b.slot_size
    }
}

/// Sum of the sizes of the first `n` banks.
pub open spec fn bank_bytes(layout: LayoutView, n: int) -> int
    decreases n,
{
    if n <= 0 {
        0
    } else {
        bank_bytes(layout, n - 1) + layout.banks[n - 1].size()
    }
}

/// Bytes of the occupied slots.
pub fn occupied_bytes(layout: &Layout, states: &SlotStates) -> (r: u64)
    requires
        layout@.valid(),
        layout@.addressable(),
    ensures
        r == bytes_occupied(layout@, *states, layout.banks@.len() as int),
{
    proof {
        banks_fit_below_their_end(layout@);
        end_is_addressable(layout@, layout@.banks.len() as int);
    }
    let mut total: u64 = 0;
    let mut i: usize = 0;
    while i < layout.banks.len()
        invariant
            i <= layout.banks@.len(),
            total == bytes_occupied(layout@, *states, i as int),
            total <= bank_bytes(layout@, i as int),
            bank_bytes(layout@, layout.banks@.len() as int) <= u64::MAX,
        decreases layout.banks@.len() - i,
    {
        let bank = &layout.banks[i];
        assert(layout@.banks[i as int] == bank@);
        let count: u32 = count_in_bank(&Pick::Occupied(states), bank);
        let size: u64 = bank.slot_size;
        proof {
            bank_bytes_grow(layout@, i as int + 1, layout@.banks.len() as int);
            assert(count * size <= size * bank.units) by (nonlinear_arith)
                requires
                    count <= bank.units,
                    size >= 0,
            ;
            assert(0 <= count * size) by (nonlinear_arith)
                requires
                    count >= 0,
                    size >= 0,
            ;
        }
        total = total + count as u64 * size;
        i = i + 1;
    }
    total
}

/// Sum of the lengths of the first `n` of some regions, each a start and an end.
spec fn lengths(regions: Seq<(int, int)>, n: int) -> int
    decreases n,
{
    if n <= 0 {
        0
    } else {
        lengths(regions, n - 1) + (regions[n - 1].1 - regions[n - 1].0)
    }
}

proof fn lengths_without(regions: Seq<(int, int)>, k: int, n: int)
    requires
        0 <= k < n <= regions.len(),
    ensures
        lengths(regions.remove(k), n - 1) == lengths(regions, n) - (regions[k].1 - regions[k].0),
    decreases n,
{
    if n - 1 == k {
        lengths_agree(regions.remove(k), regions, k);
    } else {
        lengths_without(regions, k, n - 1);
        assert(regions.remove(k)[n - 2] == regions[n - 1]);
    }
}

proof fn lengths_agree(a: Seq<(int, int)>, b: Seq<(int, int)>, n: int)
    requires
        0 <= n <= a.len(),
        n <= b.len(),
        forall|i: int| 0 <= i < n ==> a[i] == b[i],
    ensures
        lengths(a, n) == lengths(b, n),
    decreases n,
{
    if n > 0 {
        lengths_agree(a, b, n - 1);
    }
}

/// The region that starts last among the first `n`.
proof fn last_start(regions: Seq<(int, int)>, n: int) -> (k: int)
    requires
        0 < n <= regions.len(),
    ensures
        0 <= k < n,
        forall|i: int| 0 <= i < n ==> (#[trigger] regions[i]).0 <= regions[k].0,
    decreases n,
{
    if n == 1 {
        0
    } else {
        let k = last_start(regions, n - 1);
        if regions[n - 1].0 > regions[k].0 {
            n - 1
        } else {
            k
        }
    }
}

proof fn apart_regions_fit(regions: Seq<(int, int)>, limit: int)
    requires
        limit >= 0,
        forall|i: int|
            0 <= i < regions.len() ==> 0 <= (#[trigger] regions[i]).0 < regions[i].1 <= limit,
        forall|i: int, j: int|
            0 <= i < j < regions.len() ==> (#[trigger] regions[i]).1 <= (#[trigger] regions[j]).0
                || regions[j].1 <= regions[i].0,
    ensures
        lengths(regions, regions.len() as int) <= limit,
    decreases regions.len(),
{
    let n = regions.len() as int;
    if n > 0 {
        let k = last_start(regions, n);
        let rest = regions.remove(k);
        assert forall|i: int| 0 <= i < rest.len() implies 0 <= (#[trigger] rest[i]).0 < rest[i].1
            <= regions[k].0 by {
            let m = if i < k {
                i
            } else {
                i + 1
            };
            assert(rest[i] == regions[m]);
            assert(regions[m].0 <= regions[k].0);
        }
        assert forall|i: int, j: int| 0 <= i < j < rest.len() implies (#[trigger] rest[i]).1 <= (
        #[trigger] rest[j]).0 || rest[j].1 <= rest[i].0 by {
            let a = if i < k {
                i
            } else {
                i + 1
            };
            let b = if j < k {
                j
            } else {
                j + 1
            };
            assert(rest[i] == regions[a] && rest[j] == regions[b]);
        }
        apart_regions_fit(rest, regions[k].0);
        lengths_without(regions, k, n);
    }
}

proof fn bank_bytes_are_lengths(layout: LayoutView, regions: Seq<(int, int)>, n: int)
    requires
        0 <= n <= layout.banks.len(),
        regions == layout.banks.map_values(|b: BankView| (b.base as int, b.end())),
    ensures
        bank_bytes(layout, n) == lengths(regions, n),
    decreases n,
{
    if n > 0 {
        bank_bytes_are_lengths(layout, regions, n - 1);
    }
}

proof fn bank_ends_within(layout: LayoutView, i: int, n: int)
    requires
        0 <= i < n <= layout.banks.len(),
    ensures
        layout.banks[i].end() <= layout.banks_end(n),
    decreases n,
{
    if i < n - 1 {
        bank_ends_within(layout, i, n - 1);
    }
}

proof fn banks_end_is_a_place(layout: LayoutView, n: int)
    ensures
        layout.banks_end(n) >= 0,
    decreases n,
{
    if n > 0 {
        banks_end_is_a_place(layout, n - 1);
    }
}

proof fn end_is_addressable(layout: LayoutView, n: int)
    requires
        layout.addressable(),
        0 <= n <= layout.banks.len(),
    ensures
        layout.banks_end(n) <= u64::MAX,
    decreases n,
{
    if n > 0 {
        end_is_addressable(layout, n - 1);
    }
}

/// The banks of a resolved layout never add up to more bytes than a card that
/// holds the layout has.
pub proof fn banks_fit_below_their_end(layout: LayoutView)
    requires
        layout.valid(),
    ensures
        bank_bytes(layout, layout.banks.len() as int) <= layout.furthest_end(),
{
    let regions = layout.banks.map_values(|b: BankView| (b.base as int, b.end()));
    bank_bytes_are_lengths(layout, regions, layout.banks.len() as int);
    assert forall|i: int| 0 <= i < regions.len() implies 0 <= (#[trigger] regions[i]).0
        < regions[i].1 <= layout.furthest_end() by {
        let b = layout.banks[i];
        bank_ends_within(layout, i, layout.banks.len() as int);
        assert(b.valid(layout.sector_size, layout.allow_unaligned));
        assert(b.slot_size * b.units > 0) by (nonlinear_arith)
            requires
                b.slot_size > 0,
                b.units > 0,
        ;
    }
    assert forall|i: int, j: int| 0 <= i < j < regions.len() implies (#[trigger] regions[i]).1 <= (
    #[trigger] regions[j]).0 || regions[j].1 <= regions[i].0 by {
        assert(layout.banks[i].base >= 0 && layout.banks[j].base >= 0);
    }
    banks_end_is_a_place(layout, layout.banks.len() as int);
    apart_regions_fit(regions, layout.furthest_end());
}

proof fn bank_bytes_grow(layout: LayoutView, a: int, b: int)
    requires
        0 <= a <= b <= layout.banks.len(),
    ensures
        bank_bytes(layout, a) <= bank_bytes(layout, b),
    decreases b - a,
{
    if a < b {
        bank_bytes_grow(layout, a, b - 1);
        let last = layout.banks[b - 1];
        assert(last.slot_size * last.units >= 0) by (nonlinear_arith)
            requires
                last.slot_size >= 0,
                last.units >= 0,
        ;
    }
}

/// The line under the map: the layout against the card.
pub open spec fn caption_text(scale: CardScale, occupied: u64) -> Seq<char> {
    if scale.generic {
        "no card selected — shown against a generic 8 GB card · layout "@ + bytes_text(
            scale.layout_end,
        ) + " · occupied slots "@ + bytes_text(occupied)
    } else {
        "layout "@ + bytes_text(scale.layout_end) + " of "@ + bytes_text(scale.capacity)
            + " card · occupied slots "@ + bytes_text(occupied)
    }
}

/// The line under the map.
pub fn caption(scale: &CardScale, occupied: u64) -> (r: String)
    ensures
        r@ == caption_text(*scale, occupied),
{
    let end = format_bytes(scale.layout_end);
    let used = format_bytes(occupied);
    if scale.generic {
        cat4(
            "no card selected — shown against a generic 8 GB card · layout ",
            &end,
            " · occupied slots ",
            &used,
        )
    } else {
        let cap = format_bytes(scale.capacity);
        let head = cat4("layout ", &end, " of ", &cap);
        cat3(&head, " card · occupied slots ", &used)
    }
}

/// What an overflow says: an error on a real card, guidance against the
/// reference card.
pub open spec fn overflow_text(scale: CardScale) -> Option<Seq<char>> {
    if !scale.overflow {
        None
    } else if scale.generic {
        Some(
            "layout needs "@ + bytes_text(scale.layout_end) + " — use "@ + suggestion(
                scale.layout_end,
            ) + " card or larger"@,
        )
    } else {
        Some(
            "⚠ layout overflows the card by "@ + bytes_text(
                (scale.layout_end - scale.capacity) as u64,
            ) + " — writes past the end will fail"@,
        )
    }
}

/// The warning under the map, where the layout does not fit.
pub fn overflow_message(scale: &CardScale) -> (r: Option<String>)
    requires
        scale.overflow ==> scale.layout_end > scale.capacity,
    ensures
        crate::text::opt_text(r) == overflow_text(*scale),
{
    if !scale.overflow {
        None
    } else if scale.generic {
        let end = format_bytes(scale.layout_end);
        let card = suggest_card(scale.layout_end);
        Some(cat5("layout needs ", &end, " — use ", &card, " card or larger"))
    } else {
        let over = format_bytes(scale.layout_end - scale.capacity);
        Some(cat3("⚠ layout overflows the card by ", &over, " — writes past the end will fail"))
    }
}

/// A bank that covers the byte.
pub open spec fn covers(byte: u64) -> spec_fn(BankView) -> bool {
    |b: BankView| b.base <= byte && byte < b.end()
}

/// What is at a byte of the card.
pub open spec fn hover_of(layout: LayoutView, states: SlotStates, byte: u64) -> Seq<char> {
    match find_where(layout.banks, covers(byte)) {
        Some(b) => "bank "@ + b.name + " — "@ + dec(
            picked_in(Pick::Occupied(&states), b, b.units as int).len(),
        ) + "/"@ + dec(b.units as nat) + " slots occupied, "@ + bytes_text(b.slot_size)
            + " each"@,
        None => if layout.toc_offset matches Some(t) && t <= byte && byte < t + TOC_REGION_LEN {
            "on-card TOC"@
        } else {
            "unallocated"@
        },
    }
}

/// The text for the place under the pointer.
pub fn hover_text(layout: &Layout, states: &SlotStates, byte: u64) -> (r: String)
    requires
        layout@.addressable(),
    ensures
        r@ == hover_of(layout@, *states, byte),
{
    let n: usize = layout.banks.len();
    let mut i: usize = 0;
    while i < n
        invariant
            n == layout.banks@.len(),
            i <= n,
            layout@.addressable(),
            forall|j: int| 0 <= j < i ==> !covers(byte)(#[trigger] layout@.banks[j]),
        decreases n - i,
    {
        let b = &layout.banks[i];
        assert(layout@.banks[i as int] == b@);
        proof {
            assert(b@.slot_size * b@.units >= 0) by (nonlinear_arith)
                requires
                    b@.slot_size >= 0,
                    b@.units >= 0,
            ;
        }
        if b.base <= byte && byte < b.base + b.span() {
            proof {
                first_where_is(layout@.banks, covers(byte), i as int);
            }
            let count = dec_text(count_in_bank(&Pick::Occupied(states), b) as u64);
            let units = dec_text(b.units as u64);
            let size = format_bytes(b.slot_size);
            let head = cat5("bank ", &b.name, " — ", &count, "/");
            return cat5(&head, &units, " slots occupied, ", &size, " each");
        }
        i = i + 1;
    }
    proof {
        first_where_is(layout@.banks, covers(byte), n as int);
    }
    let in_toc = match layout.toc_offset {
        Some(t) => t <= byte && byte < t + TOC_REGION_LEN,
        None => false,
    };
    if in_toc {
        "on-card TOC".to_owned()
    } else {
        "unallocated".to_owned()
    }
}

/// A color by its meaning.
#[derive(Debug, Clone, Copy, PartialEq, Eq, Structural)]
pub enum Tone {
    Accent,
    Teal,
    Green,
    Orange,
    Red,
    Dim,
}

/// The color of an overflow: an error on a real card, guidance against the
/// reference card.
pub fn overflow_tone(scale: &CardScale) -> (r: Tone)
    ensures
        r == if scale.generic {
            Tone::Orange
        } else {
            Tone::Red
        },
{
    if scale.generic {
        Tone::Orange
    } else {
        Tone::Red
    }
}

/// The slot in transfer, as the map highlights it.
#[derive(Debug, Clone, Copy, PartialEq, Eq, Structural)]
pub struct Highlight {
    pub extent: Extent,
    pub tone: Tone,
    pub done: u64,
    pub total: u64,
}

pub open spec fn transfer_tone(verb: Seq<char>) -> Tone {
    if verb == "write"@ {
        Tone::Teal
    } else if verb == "verify"@ {
        Tone::Green
    } else if verb == "wipe"@ {
        Tone::Orange
    } else {
        Tone::Accent
    }
}

/// Where the running operation is on the card.
pub open spec fn highlighted(layout: LayoutView, fold: OpFoldView) -> Option<Highlight> {
    match fold.progress {
        Some((bank, unit, done, total)) => {
            let i = layout.bank_index(bank) as int;
            if fold.finished || i >= layout.banks.len() || unit >= layout.banks[i].units {
                None
            } else {
                Some(
                    Highlight {
                        extent: layout.slot_extent(i, unit as int),
                        tone: transfer_tone(fold.verb),
                        done,
                        total,
                    },
                )
            }
        },
        None => None,
    }
}

/// The highlight of the slot that is being transferred.
pub fn highlight(layout: &Layout, fold: &OpFold) -> (r: Option<Highlight>)
    requires
        layout@.addressable(),
    ensures
        r == highlighted(layout@, fold@),
{
    if fold.finished {
        return None;
    }
    match &fold.progress {
        None => None,
        Some(p) => {
            let i: usize = layout.bank_position(&p.0);
            if i >= layout.banks.len() {
                return None;
            }
            assert(layout@.banks[i as int] == layout.banks@[i as int]@);
            if p.1 >= layout.banks[i].units {
                return None;
            }
            proof {
                slots_lie_in_their_bank(layout@.banks[i as int], p.1 as int);
            }
            let extent = layout.slot_extent(i, p.1);
            let tone = if same_text(&fold.verb, "write") {
                Tone::Teal
            } else if same_text(&fold.verb, "verify") {
                Tone::Green
            } else if same_text(&fold.verb, "wipe") {
                Tone::Orange
            } else {
                Tone::Accent
            };
            Some(Highlight { extent, tone, done: p.2, total: p.3 })
        },
    }
}

proof fn some_card_fits(bytes: u64, gb: nat)
    requires
        gb > 0,
    ensures
        smallest_card(bytes, gb) matches Some(n) ==> n * 1_000_000_000 >= bytes && n <= 512,
    decreases 1024 - gb,
{
    if gb <= 512 && gb * 1_000_000_000 < bytes {
        some_card_fits(bytes, gb * 2);
    }
}

/// A suggested card of a common size holds the layout.
pub proof fn suggested_card_fits(bytes: u64)
    ensures
        smallest_card(bytes, 1) matches Some(gb) ==> gb * 1_000_000_000 >= bytes && gb <= 512,
{
    some_card_fits(bytes, 1);
}

} // verus!
