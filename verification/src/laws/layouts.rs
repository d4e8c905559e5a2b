//! Slot references, the reach of a layout, and what identifies it.

use vstd::prelude::*;

use crate::error::ErrorView;
use crate::laws::exports::{hex_count, is_hex, reads, reads_at, reads_in_more, reads_longer};
use crate::layout::{
    bank_line, hex_bytes, is_char, last_place, last_place_is, last_place_none, parsed_assign,
    parsed_ref, slots_lie_in_their_bank, BankView, LayoutView, SlotAssignView, SlotRefView,
};
use crate::search::first_where_is;
use crate::text::{all_digits, dec, dec_is_digits, dec_value, hex_digit, is_digit, parsed, value_of};

verus! {

/// The text is a unit number, at most the largest, with a plus sign in front or
/// without.
pub open spec fn is_unit(s: Seq<char>, unit: u32) -> bool {
    let d = if s.len() > 0 && s[0] == '+' {
        s.skip(1)
    } else {
        s
    };
    d.len() > 0 && all_digits(d) && value_of(d) == unit
}

proof fn units_parse(s: Seq<char>)
    ensures
        forall|unit: u32|
            is_unit(s, unit) <==> parsed(s, u32::MAX as nat) == Some(unit as nat),
{
}

/// The place of the last mark divides a text.
proof fn last_place_divides(s: Seq<char>, c: char)
    ensures
        -1 <= last_place(s, c) < s.len(),
        last_place(s, c) >= 0 ==> s[last_place(s, c)] == c,
        forall|j: int| last_place(s, c) < j < s.len() ==> #[trigger] s[j] != c,
    decreases s.len(),
{
    if s.len() > 0 && s.last() != c {
        last_place_divides(s.drop_last(), c);
        assert forall|j: int| last_place(s, c) < j < s.len() implies #[trigger] s[j] != c by {
            if j < s.len() - 1 {
                assert(s.drop_last()[j] == s[j]);
            }
        }
    }
}

/// The text refers to a unit: alone, or behind a bank that is not empty and the
/// last colon.
pub open spec fn refers(s: Seq<char>, r: SlotRefView) -> bool {
    match r.bank {
        None => is_unit(s, r.unit) && forall|j: int| 0 <= j < s.len() ==> #[trigger] s[j] != ':',
        Some(bank) => {
            let rest = s.skip(bank.len() as int + 1);
            &&& 0 < bank.len() < s.len()
            &&& s.take(bank.len() as int) == bank
            &&& s[bank.len() as int] == ':'
            &&& is_unit(rest, r.unit)
            &&& forall|j: int| 0 <= j < rest.len() ==> #[trigger] rest[j] != ':'
        },
    }
}

/// A slot reference is read exactly from the texts that refer to it.
pub proof fn references_are_read_exactly(s: Seq<char>, r: SlotRefView)
    ensures
        parsed_ref(s) == Ok::<SlotRefView, ErrorView>(r) <==> refers(s, r),
{
    let k = last_place(s, ':');
    last_place_divides(s, ':');
    let rest = s.skip(k + 1);
    units_parse(rest);
    if parsed_ref(s) == Ok::<SlotRefView, ErrorView>(r) {
        assert(is_unit(rest, r.unit));
        if k < 0 {
            assert(rest =~= s);
        } else {
            assert(r.bank == Some(s.take(k)));
            assert forall|j: int| 0 <= j < rest.len() implies #[trigger] rest[j] != ':' by {
                assert(rest[j] == s[k + 1 + j]);
            }
        }
    }
    if refers(s, r) {
        match r.bank {
            None => {
                last_place_none(s, ':');
                assert(rest =~= s);
            },
            Some(bank) => {
                let tail = s.skip(bank.len() as int + 1);
                assert forall|j: int| bank.len() < j < s.len() implies #[trigger] s[j] != ':' by {
                    assert(s[j] == tail[j - bank.len() - 1]);
                }
                last_place_is(s, ':', bank.len() as int);
                assert(s.take(k) =~= bank);
            },
        }
    }
}

/// An assignment is a slot reference, or one with an equals sign and a path
/// behind it: the first equals sign divides them, and the path is kept as it is.
pub proof fn assignments_are_read_exactly(s: Seq<char>, path: Seq<char>, r: SlotRefView)
    requires
        forall|j: int| 0 <= j < s.len() ==> #[trigger] s[j] != '=',
    ensures
        parsed_assign(s) == Ok::<SlotAssignView, ErrorView>(
            SlotAssignView { slot: r, image: None },
        ) <==> refers(s, r),
        parsed_assign(s) matches Ok(a) ==> a.image is None,
        path.len() > 0 ==> (parsed_assign(s + "="@ + path) == Ok::<SlotAssignView, ErrorView>(
            SlotAssignView { slot: r, image: Some(path) },
        ) <==> refers(s, r)),
        path.len() > 0 ==> (parsed_assign(s + "="@ + path) matches Ok(a) ==> a.image == Some(
            path,
        )),
        parsed_assign(s + "="@) is Err,
{
    reveal_strlit("=");
    references_are_read_exactly(s, r);
    let p = is_char('=');
    assert forall|j: int| 0 <= j < s.len() implies !p(#[trigger] s[j]) by {
        assert(s[j] != '=');
    }
    first_where_is(s, p, s.len() as int);
    let t = s + "="@ + path;
    assert forall|j: int| 0 <= j < s.len() implies !p(#[trigger] t[j]) by {
        assert(t[j] == s[j]);
    }
    assert(p(t[s.len() as int]));
    first_where_is(t, p, s.len() as int);
    assert(t.take(s.len() as int) =~= s);
    assert(t.skip(s.len() as int + 1) =~= path);
    let u = s + "="@;
    assert forall|j: int| 0 <= j < s.len() implies !p(#[trigger] u[j]) by {
        assert(u[j] == s[j]);
    }
    assert(p(u[s.len() as int]));
    first_where_is(u, p, s.len() as int);
}

/// A slot of a layout lies at its bank's base and as many slot sizes behind it
/// as its unit says.
pub proof fn slots_lie_at_their_unit(layout: LayoutView, i: int, unit: u32)
    requires
        layout.addressable(),
        0 <= i < layout.banks.len(),
        unit < layout.banks[i].units,
    ensures
        layout.slot_extent(i, unit as int).offset == layout.banks[i].base + unit
            * layout.banks[i].slot_size,
        layout.slot_extent(i, unit as int).len == layout.banks[i].slot_size,
        layout.slot_extent(i, unit as int).limit() == layout.banks[i].base + (unit + 1)
            * layout.banks[i].slot_size,
{
    slots_lie_in_their_bank(layout.banks[i], unit as int);
    let s = layout.banks[i].slot_size as int;
    assert((unit + 1) * s == unit * s + s) by (nonlinear_arith);
}

proof fn banks_end_covers(layout: LayoutView, n: int)
    requires
        0 <= n <= layout.banks.len(),
    ensures
        forall|i: int|
            0 <= i < n ==> (#[trigger] layout.banks[i]).base + layout.banks[i].slot_size
                * layout.banks[i].units <= layout.banks_end(n),
        n == 0 ==> layout.banks_end(n) == 0,
        layout.banks_end(n) == 0 || exists|i: int|
            0 <= i < n && layout.banks_end(n) == (#[trigger] layout.banks[i]).base
                + layout.banks[i].slot_size * layout.banks[i].units,
    decreases n,
{
    if n > 0 {
        banks_end_covers(layout, n - 1);
        let b = layout.banks[n - 1];
        if b.end() > layout.banks_end(n - 1) {
            assert(layout.banks_end(n) == b.base + b.slot_size * b.units);
        }
    }
}

/// A layout reaches as far as its furthest bank or its TOC region: no region
/// ends behind that, and some region ends there, if there is any.
pub proof fn layouts_reach_their_furthest_region(layout: LayoutView)
    ensures
        forall|i: int|
            0 <= i < layout.banks.len() ==> (#[trigger] layout.banks[i]).base
                + layout.banks[i].slot_size * layout.banks[i].units <= layout.furthest_end(),
        layout.toc_offset matches Some(t) ==> t + 131072 <= layout.furthest_end(),
        ({
            ||| layout.furthest_end() == 0
            ||| layout.toc_offset is Some && layout.furthest_end() == layout.toc_offset->0 + 131072
            ||| exists|i: int|
                0 <= i < layout.banks.len() && layout.furthest_end() == (
                #[trigger] layout.banks[i]).base + layout.banks[i].slot_size
                    * layout.banks[i].units
        }),
{
    banks_end_covers(layout, layout.banks.len() as int);
}

// ---------------------------------------------------------------------------
// The layout hash
// ---------------------------------------------------------------------------

proof fn number_reads(key: Seq<char>, n: nat, s: Seq<char>)
    requires
        s.len() > 0,
        !is_digit(s[0]),
    ensures
        reads(key + dec(n) + s, key, n),
{
    dec_is_digits(n);
    dec_value(n);
    let all = key + dec(n) + s;
    let end = (key.len() + dec(n).len()) as int;
    assert(all.subrange(0, key.len() as int) =~= key);
    assert(all.subrange(key.len() as int, end) =~= dec(n));
    assert(reads_at(all, key, n, 0, end));
}

/// The text gives the bank's base, slot size and unit count behind its name.
pub open spec fn identifies(text: Seq<char>, b: BankView) -> bool {
    exists|size_key: Seq<char>, units_key: Seq<char>|
        {
            &&& reads(text, "bank="@ + b.name + " base="@, b.base as nat)
            &&& size_key == "bank="@ + b.name + " base="@ + dec(b.base as nat) + " slot_size="@
            &&& units_key == size_key + dec(b.slot_size as nat) + " units="@
            &&& #[trigger] reads(text, size_key, b.slot_size as nat)
            &&& #[trigger] reads(text, units_key, b.units as nat)
        }
}

#[verifier::rlimit(40)]
proof fn lines_identify(b: BankView)
    ensures
        identifies(bank_line(b), b),
{
    reveal_strlit(" slot_size=");
    reveal_strlit(" units=");
    reveal_strlit("\n");
    let none = Seq::<char>::empty();
    let base_key = "bank="@ + b.name + " base="@;
    let a = base_key + dec(b.base as nat) + " slot_size="@;
    number_reads(base_key, b.base as nat, " slot_size="@);
    let c = a + dec(b.slot_size as nat) + " units="@;
    number_reads(a, b.slot_size as nat, " units="@);
    let line = c + dec(b.units as nat) + "\n"@;
    number_reads(c, b.units as nat, "\n"@);
    assert(bank_line(b) == line);
    reads_longer(a, dec(b.slot_size as nat), " units="@, none, none, base_key, b.base as nat);
    reads_longer(c, dec(b.units as nat), "\n"@, none, none, base_key, b.base as nat);
    reads_longer(c, dec(b.units as nat), "\n"@, none, none, a, b.slot_size as nat);
    assert(reads(line, a, b.slot_size as nat));
    assert(reads(line, c, b.units as nat));
}

#[verifier::rlimit(40)]
proof fn identified_inside(p: Seq<char>, text: Seq<char>, s: Seq<char>, b: BankView)
    requires
        identifies(text, b),
    ensures
        identifies(p + text + s, b),
{
    let base_key = "bank="@ + b.name + " base="@;
    let size_key = base_key + dec(b.base as nat) + " slot_size="@;
    let units_key = size_key + dec(b.slot_size as nat) + " units="@;
    reads_in_more(p, text, s, base_key, b.base as nat);
    reads_in_more(p, text, s, size_key, b.slot_size as nat);
    reads_in_more(p, text, s, units_key, b.units as nat);
    assert(reads(p + text + s, size_key, b.slot_size as nat));
    assert(reads(p + text + s, units_key, b.units as nat));
}

proof fn bank_lines_identify(layout: LayoutView, n: int)
    requires
        0 <= n <= layout.banks.len(),
    ensures
        forall|i: int| 0 <= i < n ==> identifies(layout.bank_lines(n), #[trigger] layout.banks[i]),
    decreases n,
{
    if n > 0 {
        bank_lines_identify(layout, n - 1);
        let rest = layout.bank_lines(n - 1);
        let line = bank_line(layout.banks[n - 1]);
        let none = Seq::<char>::empty();
        assert forall|i: int| 0 <= i < n implies identifies(
            layout.bank_lines(n),
            #[trigger] layout.banks[i],
        ) by {
            if i < n - 1 {
                identified_inside(none, rest, line, layout.banks[i]);
                assert(none + rest + line =~= layout.bank_lines(n));
            } else {
                lines_identify(layout.banks[i]);
                identified_inside(rest, line, none, layout.banks[i]);
                assert(rest + line + none =~= layout.bank_lines(n));
            }
        }
    }
}

/// What the layout hash is taken of gives the sector size and, for every bank,
/// its name, base, slot size and unit count: each can be read back from it.
#[verifier::rlimit(40)]
pub proof fn hashed_text_identifies_the_layout(layout: LayoutView)
    ensures
        reads(layout.hash_text(), "sector="@, layout.sector_size as nat),
        forall|i: int|
            0 <= i < layout.banks.len() ==> identifies(
                layout.hash_text(),
                #[trigger] layout.banks[i],
            ),
{
    reveal_strlit("\n");
    let none = Seq::<char>::empty();
    let first = "sector="@ + dec(layout.sector_size as nat) + "\n"@;
    let lines = layout.bank_lines(layout.banks.len() as int);
    number_reads("sector="@, layout.sector_size as nat, "\n"@);
    reads_in_more(none, first, lines, "sector="@, layout.sector_size as nat);
    assert(none + first + lines =~= layout.hash_text());
    bank_lines_identify(layout, layout.banks.len() as int);
    assert forall|i: int| 0 <= i < layout.banks.len() implies identifies(
        layout.hash_text(),
        #[trigger] layout.banks[i],
    ) by {
        identified_inside(first, lines, none, layout.banks[i]);
        assert(first + lines + none =~= layout.hash_text());
    }
}

/// The two digits at place `i` of a rendering stand for the byte.
pub open spec fn renders(h: Seq<char>, i: int, byte: u8) -> bool {
    &&& is_hex(h[2 * i])
    &&& is_hex(h[2 * i + 1])
    &&& byte == 16 * hex_count(h[2 * i]) + hex_count(h[2 * i + 1])
}

/// Bytes are rendered as two lowercase hexadecimal digits each, in their order,
/// from which each byte can be read back.
pub proof fn rendered_bytes_read_back(bytes: Seq<u8>)
    ensures
        hex_bytes(bytes).len() == 2 * bytes.len(),
        forall|i: int| 0 <= i < bytes.len() ==> renders(hex_bytes(bytes), i, #[trigger] bytes[i]),
    decreases bytes.len(),
{
    if bytes.len() > 0 {
        let head = bytes.drop_last();
        rendered_bytes_read_back(head);
        let all = hex_bytes(bytes);
        let rest = hex_bytes(head);
        assert forall|i: int| 0 <= i < bytes.len() implies renders(all, i, #[trigger] bytes[i]) by {
            if i < head.len() {
                assert(renders(rest, i, head[i]));
                assert(all[2 * i] == rest[2 * i]);
                assert(all[2 * i + 1] == rest[2 * i + 1]);
            } else {
                assert(all[2 * i] == hex_digit((bytes[i] / 16) as nat));
                assert(all[2 * i + 1] == hex_digit((bytes[i] % 16) as nat));
            }
        }
    }
}

} // verus!
