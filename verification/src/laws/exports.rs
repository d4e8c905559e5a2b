//! What can be read back from an export of a layout's addressing constants.

use vstd::arithmetic::power2::{
    lemma2_to64, lemma2_to64_rest, lemma_pow2_strictly_increases, pow2,
};
use vstd::prelude::*;

use crate::error::ErrorView;
use crate::layout::{BankView, LayoutView};
use crate::rtl::{
    bank_comment, bank_part, bit_width, constants, exponent, exported, head, hex_is_short, ident_of,
    lba_digits, params_of, parts_from, pow16, tail, units_width_is_least, BankParams, RtlFormat,
};
use crate::text::{
    all_digits, dec, dec_is_digits, dec_value, hex_digit, hex_of, is_digit, uppercase, value_of,
    zero_pad,
};

verus! {

// ---------------------------------------------------------------------------
// Numbers in a text
// ---------------------------------------------------------------------------

/// Behind `key` stands in the text, up to some other character, the decimal
/// number `n`.
pub open spec fn reads(text: Seq<char>, key: Seq<char>, n: nat) -> bool {
    exists|at: int, end: int| #[trigger] reads_at(text, key, n, at, end)
}

pub open spec fn reads_at(text: Seq<char>, key: Seq<char>, n: nat, at: int, end: int) -> bool {
    &&& 0 <= at
    &&& at + key.len() < end < text.len()
    &&& text.subrange(at, at + key.len()) == key
    &&& all_digits(text.subrange(at + key.len(), end))
    &&& !is_digit(text[end])
    &&& value_of(text.subrange(at + key.len(), end)) == n
}

/// A digit of a hexadecimal number.
pub open spec fn is_hex(c: char) -> bool {
    is_digit(c) || ('a' <= c && c <= 'f')
}

/// What a hexadecimal digit counts.
pub open spec fn hex_count(c: char) -> nat {
    if is_digit(c) {
        (c as u32 - '0' as u32) as nat
    } else {
        (c as u32 - 'a' as u32 + 10) as nat
    }
}

/// The number that hexadecimal digits stand for; underscores among them do not
/// count.
pub open spec fn hex_value(s: Seq<char>) -> nat
    decreases s.len(),
{
    if s.len() == 0 {
        0
    } else if s.last() == '_' {
        hex_value(s.drop_last())
    } else {
        16 * hex_value(s.drop_last()) + hex_count(s.last())
    }
}

/// Behind `key` stands in the text, up to some other character, the
/// hexadecimal number `n`, in eight digits with underscores among them or none.
pub open spec fn reads_hex(text: Seq<char>, key: Seq<char>, n: nat) -> bool {
    exists|at: int, end: int| #[trigger] reads_hex_at(text, key, n, at, end)
}

pub open spec fn reads_hex_at(text: Seq<char>, key: Seq<char>, n: nat, at: int, end: int) -> bool {
    &&& 0 <= at
    &&& at + key.len() < end < text.len()
    &&& text.subrange(at, at + key.len()) == key
    &&& forall|i: int|
        at + key.len() <= i < end ==> is_hex(#[trigger] text[i]) || text[i] == '_'
    &&& !is_hex(text[end])
    &&& text[end] != '_'
    &&& hex_value(text.subrange(at + key.len(), end)) == n
}

#[verifier::rlimit(40)]
pub(crate) proof fn reads_in_more(p: Seq<char>, text: Seq<char>, s: Seq<char>, key: Seq<char>, n: nat)
    requires
        reads(text, key, n),
    ensures
        reads(p + text + s, key, n),
{
    let (at, end) = choose|at: int, end: int| #[trigger] reads_at(text, key, n, at, end);
    let all = p + text + s;
    let k = p.len() as int;
    assert(all.subrange(at + k, at + k + key.len()) =~= text.subrange(at, at + key.len()));
    assert(all.subrange(at + k + key.len(), end + k) =~= text.subrange(at + key.len(), end));
    assert(all[end + k] == text[end]);
    assert(reads_at(all, key, n, at + k, end + k));
}

#[verifier::rlimit(40)]
proof fn reads_hex_in_more(p: Seq<char>, text: Seq<char>, s: Seq<char>, key: Seq<char>, n: nat)
    requires
        reads_hex(text, key, n),
    ensures
        reads_hex(p + text + s, key, n),
{
    let (at, end) = choose|at: int, end: int| #[trigger] reads_hex_at(text, key, n, at, end);
    let all = p + text + s;
    let k = p.len() as int;
    assert(all.subrange(at + k, at + k + key.len()) =~= text.subrange(at, at + key.len()));
    assert(all.subrange(at + k + key.len(), end + k) =~= text.subrange(at + key.len(), end));
    assert forall|i: int| at + k + key.len() <= i < end + k implies is_hex(#[trigger] all[i])
        || all[i] == '_' by {
        assert(all[i] == text[i - k]);
    }
    assert(all[end + k] == text[end]);
    assert(reads_hex_at(all, key, n, at + k, end + k));
}

proof fn decimal_reads(p: Seq<char>, key: Seq<char>, n: nat, s: Seq<char>)
    requires
        s.len() > 0,
        !is_digit(s[0]),
    ensures
        reads(p + key + dec(n) + s, key, n),
{
    dec_is_digits(n);
    dec_value(n);
    let all = p + key + dec(n) + s;
    let at = p.len() as int;
    let end = at + key.len() + dec(n).len();
    assert(all.subrange(at, at + key.len()) =~= key);
    assert(all.subrange(at + key.len(), end) =~= dec(n));
    assert(all[end] == s[0]);
    assert(reads_at(all, key, n, at, end));
}

proof fn hex_reads(p: Seq<char>, key: Seq<char>, d: Seq<char>, n: nat, s: Seq<char>)
    requires
        s.len() > 0,
        !is_hex(s[0]),
        s[0] != '_',
        d.len() > 0,
        forall|i: int| 0 <= i < d.len() ==> is_hex(#[trigger] d[i]) || d[i] == '_',
        hex_value(d) == n,
    ensures
        reads_hex(p + key + d + s, key, n),
{
    let all = p + key + d + s;
    let at = p.len() as int;
    let end = at + key.len() + d.len();
    assert(all.subrange(at, at + key.len()) =~= key);
    assert(all.subrange(at + key.len(), end) =~= d);
    assert(all[end] == s[0]);
    assert forall|i: int| at + key.len() <= i < end implies is_hex(#[trigger] all[i]) || all[i]
        == '_' by {
        assert(all[i] == d[i - at - key.len()]);
    }
    assert(reads_hex_at(all, key, n, at, end));
}

proof fn hex_digit_counts(d: nat)
    requires
        d < 16,
    ensures
        is_hex(hex_digit(d)),
        hex_digit(d) != '_',
        hex_count(hex_digit(d)) == d,
{
}

/// A hexadecimal rendering is made of digits, and reads back as the number.
pub proof fn hex_reads_back(n: nat)
    ensures
        hex_of(n).len() > 0,
        forall|i: int| 0 <= i < hex_of(n).len() ==> is_hex(#[trigger] hex_of(n)[i]),
        hex_value(hex_of(n)) == n,
    decreases n,
{
    if n < 16 {
        hex_digit_counts(n);
        reveal_with_fuel(hex_value, 2);
        assert(hex_of(n).drop_last() =~= Seq::<char>::empty());
    } else {
        hex_reads_back(n / 16);
        hex_digit_counts(n % 16);
        assert(hex_of(n).drop_last() =~= hex_of(n / 16));
        assert(hex_of(n).last() == hex_digit(n % 16));
    }
}

proof fn zeros_do_not_count(z: Seq<char>, s: Seq<char>)
    requires
        forall|i: int| 0 <= i < z.len() ==> #[trigger] z[i] == '0',
    ensures
        hex_value(z + s) == hex_value(s),
    decreases s.len() + z.len(),
{
    let all = z + s;
    if s.len() > 0 {
        assert(all.drop_last() =~= z + s.drop_last());
        assert(all.last() == s.last());
        zeros_do_not_count(z, s.drop_last());
    } else if z.len() > 0 {
        assert(all.drop_last() =~= z.drop_last() + s);
        assert(all.last() == '0');
        assert forall|i: int| 0 <= i < z.drop_last().len() implies #[trigger] z.drop_last()[i]
            == '0' by {
            assert(z[i] == '0');
        }
        zeros_do_not_count(z.drop_last(), s);
    } else {
        assert(all =~= s);
    }
}

proof fn underscore_does_not_count(a: Seq<char>, b: Seq<char>)
    ensures
        hex_value(a + "_"@ + b) == hex_value(a + b),
    decreases b.len(),
{
    reveal_strlit("_");
    let all = a + "_"@ + b;
    if b.len() == 0 {
        assert(all.drop_last() =~= a + b);
        assert(all.last() == '_');
    } else {
        assert(all.drop_last() =~= a + "_"@ + b.drop_last());
        assert((a + b).drop_last() =~= a + b.drop_last());
        assert(all.last() == b.last());
        assert((a + b).last() == b.last());
        underscore_does_not_count(a, b.drop_last());
    }
}

/// A block address is exported in eight hexadecimal digits, in two groups of
/// four where the format groups them, and reads back as the address.
pub proof fn block_addresses_read_back(n: u32)
    ensures
        ({
            let plain = zero_pad(hex_of(n as nat), 8);
            let grouped = lba_digits(n as nat);
            &&& plain.len() == 8
            &&& hex_value(plain) == n
            &&& forall|i: int| 0 <= i < 8 ==> is_hex(#[trigger] plain[i])
            &&& grouped.len() == 9
            &&& grouped[4] == '_'
            &&& hex_value(grouped) == n
            &&& forall|i: int| 0 <= i < 9 ==> is_hex(#[trigger] grouped[i]) || grouped[i] == '_'
        }),
{
    reveal_with_fuel(pow16, 9);
    reveal_strlit("_");
    hex_is_short(n as nat, 8);
    hex_reads_back(n as nat);
    let d = hex_of(n as nat);
    let plain = zero_pad(d, 8);
    let z = Seq::new((8 - d.len()) as nat, |i: int| '0');
    assert(plain =~= z + d);
    zeros_do_not_count(z, d);
    assert forall|i: int| 0 <= i < 8 implies is_hex(#[trigger] plain[i]) by {
        if i >= z.len() {
            assert(plain[i] == d[i - z.len()]);
        }
    }
    underscore_does_not_count(plain.take(4), plain.skip(4));
    assert(plain.take(4) + plain.skip(4) =~= plain);
    let grouped = lba_digits(n as nat);
    assert forall|i: int| 0 <= i < 9 implies is_hex(#[trigger] grouped[i]) || grouped[i] == '_' by {
        if i < 4 {
            assert(grouped[i] == plain[i]);
        } else if i > 4 {
            assert(grouped[i] == plain[i - 1]);
        }
    }
}

// ---------------------------------------------------------------------------
// The constants of a bank
// ---------------------------------------------------------------------------

/// What stands in front of a bank's block address.
pub open spec fn base_key(format: RtlFormat, name: Seq<char>) -> Seq<char> {
    match format {
        RtlFormat::Rust => "pub const "@ + name + "_BASE_LBA: u32 = 0x"@,
        RtlFormat::CHeader => "#define "@ + name + "_BASE_LBA 0x"@,
        _ => "localparam "@ + name + "_BASE_LBA   = 32'h"@,
    }
}

/// What stands in front of a bank's slot shift.
pub open spec fn shift_key(format: RtlFormat, name: Seq<char>) -> Seq<char> {
    match format {
        RtlFormat::Rust => name + "_SLOT_SHIFT: u32 = "@,
        RtlFormat::CHeader => name + "_SLOT_SHIFT "@,
        _ => name + "_SLOT_SHIFT = "@,
    }
}

/// What stands in front of a bank's unit count, and in Verilog of its width.
pub open spec fn units_key(format: RtlFormat, name: Seq<char>) -> Seq<char> {
    match format {
        RtlFormat::Rust => name + "_UNITS: u32 = "@,
        RtlFormat::CHeader => name + "_UNITS "@,
        _ => name + "_UNITS      = "@,
    }
}

/// Under the name of a bank, the text gives the block address `lba`, the slot
/// shift `shift` and `units` units; in Verilog, the units in the least width
/// that holds them.
pub open spec fn gives_constants(
    format: RtlFormat,
    text: Seq<char>,
    name: Seq<char>,
    lba: nat,
    shift: nat,
    units: nat,
) -> bool {
    &&& reads_hex(text, base_key(format, name), lba)
    &&& reads(text, shift_key(format, name), shift)
    &&& match format {
        RtlFormat::Rust => reads(text, units_key(format, name), units),
        RtlFormat::CHeader => reads(text, units_key(format, name), units),
        _ => exists|w: nat|
            {
                &&& #[trigger] reads(text, units_key(format, name), w)
                &&& reads(text, units_key(format, name) + dec(w) + "'d"@, units)
                &&& units < pow2(w)
                &&& units > 0 ==> pow2((w - 1) as nat) <= units
            },
    }
}

#[verifier::rlimit(40)]
proof fn constants_given_in_more(
    format: RtlFormat,
    p: Seq<char>,
    text: Seq<char>,
    s: Seq<char>,
    name: Seq<char>,
    lba: nat,
    shift: nat,
    units: nat,
)
    requires
        gives_constants(format, text, name, lba, shift, units),
    ensures
        gives_constants(format, p + text + s, name, lba, shift, units),
{
    reads_hex_in_more(p, text, s, base_key(format, name), lba);
    reads_in_more(p, text, s, shift_key(format, name), shift);
    match format {
        RtlFormat::Rust => {
            reads_in_more(p, text, s, units_key(format, name), units);
        },
        RtlFormat::CHeader => {
            reads_in_more(p, text, s, units_key(format, name), units);
        },
        _ => {
            let w = choose|w: nat|
                {
                    &&& #[trigger] reads(text, units_key(format, name), w)
                    &&& reads(text, units_key(format, name) + dec(w) + "'d"@, units)
                    &&& units < pow2(w)
                    &&& units > 0 ==> pow2((w - 1) as nat) <= units
                };
            reads_in_more(p, text, s, units_key(format, name), w);
            reads_in_more(p, text, s, units_key(format, name) + dec(w) + "'d"@, units);
        },
    }
}

proof fn joined_alike(a: Seq<char>, b: Seq<char>, c: Seq<char>)
    ensures
        a + (b + c) == a + b + c,
{
    assert(a + (b + c) =~= a + b + c);
}

pub(crate) proof fn reads_longer(
    text: Seq<char>,
    a: Seq<char>,
    b: Seq<char>,
    c: Seq<char>,
    d: Seq<char>,
    key: Seq<char>,
    n: nat,
)
    requires
        reads(text, key, n),
    ensures
        reads(text + a + b, key, n),
        reads(text + a + b + c + d, key, n),
{
    let none = Seq::<char>::empty();
    reads_in_more(none, text, a + b, key, n);
    assert(none + text + (a + b) =~= text + a + b);
    let t = text + a + b;
    reads_in_more(none, t, c + d, key, n);
    assert(none + t + (c + d) =~= t + c + d);
}

proof fn reads_hex_longer(
    text: Seq<char>,
    a: Seq<char>,
    b: Seq<char>,
    c: Seq<char>,
    d: Seq<char>,
    key: Seq<char>,
    n: nat,
)
    requires
        reads_hex(text, key, n),
    ensures
        reads_hex(text + a + b, key, n),
        reads_hex(text + a + b + c + d, key, n),
{
    let none = Seq::<char>::empty();
    reads_hex_in_more(none, text, a + b, key, n);
    assert(none + text + (a + b) =~= text + a + b);
    let t = text + a + b;
    reads_hex_in_more(none, t, c + d, key, n);
    assert(none + t + (c + d) =~= t + c + d);
}

proof fn hex_reads_first(key: Seq<char>, d: Seq<char>, n: nat, s: Seq<char>)
    requires
        s.len() > 0,
        !is_hex(s[0]),
        s[0] != '_',
        d.len() > 0,
        forall|i: int| 0 <= i < d.len() ==> is_hex(#[trigger] d[i]) || d[i] == '_',
        hex_value(d) == n,
    ensures
        reads_hex(key + d + s, key, n),
{
    let none = Seq::<char>::empty();
    hex_reads(none, key, d, n, s);
    assert(none + key =~= key);
}

#[verifier::rlimit(40)]
proof fn rust_constants_read_back(name: Seq<char>, p: BankParams)
    ensures
        gives_constants(
            RtlFormat::Rust,
            constants(RtlFormat::Rust, name, p),
            name,
            p.base_lba as nat,
            p.slot_shift as nat,
            p.units as nat,
        ),
{
    let f = RtlFormat::Rust;
    reveal_strlit(";\npub const ");
    reveal_strlit(";\n");
    let lba = lba_digits(p.base_lba as nat);
    let shift = dec(p.slot_shift as nat);
    let units = dec(p.units as nat);
    block_addresses_read_back(p.base_lba);
    hex_reads_first(base_key(f, name), lba, p.base_lba as nat, ";\npub const "@);
    let a = base_key(f, name) + lba + ";\npub const "@;
    joined_alike(a, name, "_SLOT_SHIFT: u32 = "@);
    decimal_reads(a, shift_key(f, name), p.slot_shift as nat, ";\npub const "@);
    let b = a + name + "_SLOT_SHIFT: u32 = "@ + shift + ";\npub const "@;
    joined_alike(b, name, "_UNITS: u32 = "@);
    decimal_reads(b, units_key(f, name), p.units as nat, ";\n"@);
    reads_longer(b, name, "_UNITS: u32 = "@, units, ";\n"@, shift_key(f, name), p.slot_shift as nat);
    reads_hex_longer(a, name, "_SLOT_SHIFT: u32 = "@, shift, ";\npub const "@, base_key(f, name), p.base_lba as nat);
    reads_hex_longer(b, name, "_UNITS: u32 = "@, units, ";\n"@, base_key(f, name), p.base_lba as nat);
}

#[verifier::rlimit(40)]
proof fn header_constants_read_back(name: Seq<char>, p: BankParams)
    ensures
        gives_constants(
            RtlFormat::CHeader,
            constants(RtlFormat::CHeader, name, p),
            name,
            p.base_lba as nat,
            p.slot_shift as nat,
            p.units as nat,
        ),
{
    let f = RtlFormat::CHeader;
    reveal_strlit("u\n#define ");
    reveal_strlit("\n#define ");
    reveal_strlit("\n");
    let lba = zero_pad(hex_of(p.base_lba as nat), 8);
    let shift = dec(p.slot_shift as nat);
    let units = dec(p.units as nat);
    block_addresses_read_back(p.base_lba);
    hex_reads_first(base_key(f, name), lba, p.base_lba as nat, "u\n#define "@);
    let a = base_key(f, name) + lba + "u\n#define "@;
    joined_alike(a, name, "_SLOT_SHIFT "@);
    decimal_reads(a, shift_key(f, name), p.slot_shift as nat, "\n#define "@);
    let b = a + name + "_SLOT_SHIFT "@ + shift + "\n#define "@;
    joined_alike(b, name, "_UNITS "@);
    decimal_reads(b, units_key(f, name), p.units as nat, "\n"@);
    reads_longer(b, name, "_UNITS "@, units, "\n"@, shift_key(f, name), p.slot_shift as nat);
    reads_hex_longer(a, name, "_SLOT_SHIFT "@, shift, "\n#define "@, base_key(f, name), p.base_lba as nat);
    reads_hex_longer(b, name, "_UNITS "@, units, "\n"@, base_key(f, name), p.base_lba as nat);
}

#[verifier::rlimit(40)]
proof fn verilog_constants_read_back(f: RtlFormat, name: Seq<char>, p: BankParams)
    requires
        f == RtlFormat::Vh || f == RtlFormat::Sv,
    ensures
        gives_constants(
            f,
            constants(f, name, p),
            name,
            p.base_lba as nat,
            p.slot_shift as nat,
            p.units as nat,
        ),
{
    reveal_strlit(";\nlocalparam ");
    reveal_strlit(";\n");
    reveal_strlit("'d");
    let next = ";\nlocalparam "@;
    let last = ";\n"@;
    let mark = "'d"@;
    let none = Seq::<char>::empty();
    let lba = lba_digits(p.base_lba as nat);
    let shift = dec(p.slot_shift as nat);
    let w = bit_width(p.units as nat);
    let width = dec(w);
    let units = dec(p.units as nat);
    units_width_is_least(p.units as nat);
    block_addresses_read_back(p.base_lba);
    hex_reads_first(base_key(f, name), lba, p.base_lba as nat, next);
    let a = base_key(f, name) + lba + next;
    joined_alike(a, name, "_SLOT_SHIFT = "@);
    decimal_reads(a, shift_key(f, name), p.slot_shift as nat, next);
    let b = a + name + "_SLOT_SHIFT = "@ + shift + next;
    joined_alike(b, name, "_UNITS      = "@);
    decimal_reads(b, units_key(f, name), w, mark);
    let c = b + name + "_UNITS      = "@ + width + mark;
    let long = units_key(f, name) + width + mark;
    joined_alike(b, units_key(f, name), width);
    joined_alike(b, units_key(f, name) + width, mark);
    decimal_reads(b, long, p.units as nat, last);
    assert(constants(f, name, p) == c + units + last);
    reads_longer(c, units, last, none, none, units_key(f, name), w);
    reads_longer(b, name, "_UNITS      = "@, width, mark, shift_key(f, name), p.slot_shift as nat);
    reads_longer(c, units, last, none, none, shift_key(f, name), p.slot_shift as nat);
    reads_hex_longer(
        a,
        name,
        "_SLOT_SHIFT = "@,
        shift,
        next,
        base_key(f, name),
        p.base_lba as nat,
    );
    reads_hex_longer(
        b,
        name,
        "_UNITS      = "@,
        width,
        mark,
        base_key(f, name),
        p.base_lba as nat,
    );
    reads_hex_longer(c, units, last, none, none, base_key(f, name), p.base_lba as nat);
}

/// In every format the three constants of a bank can be read back from its
/// lines, and are those that were given.
pub proof fn constants_read_back(format: RtlFormat, name: Seq<char>, p: BankParams)
    ensures
        gives_constants(
            format,
            constants(format, name, p),
            name,
            p.base_lba as nat,
            p.slot_shift as nat,
            p.units as nat,
        ),
{
    match format {
        RtlFormat::Rust => {
            rust_constants_read_back(name, p);
        },
        RtlFormat::CHeader => {
            header_constants_read_back(name, p);
        },
        _ => {
            verilog_constants_read_back(format, name, p);
        },
    }
}

/// The constants of a bank are its base and its slot size, counted in sectors,
/// the slot size as an exponent of two, and its units.
pub proof fn constants_measure_the_bank(b: BankView, sector: u32, p: BankParams)
    requires
        sector > 0,
        b.base as int % sector as int == 0,
        params_of(b, sector) == Ok::<BankParams, ErrorView>(p),
    ensures
        p.base_lba * sector == b.base,
        pow2(p.slot_shift as nat) * sector == b.slot_size,
        p.units == b.units,
{
    let blocks = b.slot_size as int / (sector as int);
    let k = exponent(blocks);
    assert(blocks == pow2(k));
    assert(k < 64) by {
        lemma2_to64();
        lemma2_to64_rest();
        if k >= 64 {
            if k > 64 {
                lemma_pow2_strictly_increases(64, k);
            }
            assert(blocks <= b.slot_size) by (nonlinear_arith)
                requires
                    blocks == b.slot_size as int / (sector as int),
                    sector > 0,
            ;
        }
    }
    assert(blocks * sector == b.slot_size) by (nonlinear_arith)
        requires
            blocks == b.slot_size as int / (sector as int),
            b.slot_size as int % (sector as int) == 0,
            sector > 0,
    ;
    let lba = b.base as int / (sector as int);
    assert(lba * sector == b.base && lba >= 0) by (nonlinear_arith)
        requires
            lba == b.base as int / (sector as int),
            b.base as int % (sector as int) == 0,
            b.base >= 0,
            sector > 0,
    ;
}

proof fn parted(text: Seq<char>, head: Seq<char>)
    requires
        head.len() <= text.len(),
        text.take(head.len() as int) == head,
    ensures
        text == head + text.skip(head.len() as int),
{
    assert(text =~= text.take(head.len() as int) + text.skip(head.len() as int));
}

#[verifier::rlimit(40)]
proof fn parts_give_constants(
    format: RtlFormat,
    layout: LayoutView,
    i: int,
    acc: Seq<char>,
    k: int,
    p: BankParams,
    text: Seq<char>,
)
    requires
        0 <= i <= k < layout.banks.len(),
        params_of(layout.banks[k], layout.sector_size) == Ok::<BankParams, ErrorView>(p),
        parts_from(format, layout, i, acc) == Ok::<Seq<char>, ErrorView>(text),
    ensures
        gives_constants(
            format,
            text,
            uppercase(ident_of(layout.banks[k].name)),
            p.base_lba as nat,
            p.slot_shift as nat,
            p.units as nat,
        ),
    decreases layout.banks.len() - i,
{
    let b = layout.banks[i];
    let q = params_of(b, layout.sector_size)->Ok_0;
    let next = acc + bank_part(format, b, q);
    if i < k {
        parts_give_constants(format, layout, i + 1, next, k, p, text);
    } else {
        let name = uppercase(ident_of(b.name));
        constants_read_back(format, name, p);
        let lines = constants(format, name, p);
        let front = acc + ("\n"@ + bank_comment(b));
        parts_stay(format, layout, i + 1, next, text);
        let rest = text.skip(next.len() as int);
        joined_alike(acc, "\n"@ + bank_comment(b), lines);
        parted(text, next);
        assert(text == front + lines + rest);
        constants_given_in_more(
            format,
            front,
            lines,
            rest,
            name,
            p.base_lba as nat,
            p.slot_shift as nat,
            p.units as nat,
        );
    }
}

proof fn parts_stay(
    format: RtlFormat,
    layout: LayoutView,
    i: int,
    acc: Seq<char>,
    text: Seq<char>,
)
    requires
        0 <= i,
        parts_from(format, layout, i, acc) == Ok::<Seq<char>, ErrorView>(text),
    ensures
        acc.len() <= text.len(),
        text.take(acc.len() as int) == acc,
    decreases layout.banks.len() - i,
{
    if i < layout.banks.len() {
        let p = params_of(layout.banks[i], layout.sector_size)->Ok_0;
        let part = bank_part(format, layout.banks[i], p);
        parts_stay(format, layout, i + 1, acc + part, text);
        assert(text.take(acc.len() as int) =~= (acc + part).take(acc.len() as int)) by {
            assert(text.take((acc + part).len() as int) == acc + part);
            assert forall|j: int| 0 <= j < acc.len() implies text[j] == (acc + part)[j] by {
                assert(text.take((acc + part).len() as int)[j] == (acc + part)[j]);
            }
        }
        assert((acc + part).take(acc.len() as int) =~= acc);
    } else {
        assert(acc.take(acc.len() as int) =~= acc);
    }
}

proof fn parts_need_constants(
    format: RtlFormat,
    layout: LayoutView,
    i: int,
    acc: Seq<char>,
)
    requires
        0 <= i <= layout.banks.len(),
    ensures
        parts_from(format, layout, i, acc) is Ok <==> forall|k: int|
            i <= k < layout.banks.len() ==> params_of(
                #[trigger] layout.banks[k],
                layout.sector_size,
            ) is Ok,
    decreases layout.banks.len() - i,
{
    if i < layout.banks.len() {
        match params_of(layout.banks[i], layout.sector_size) {
            Ok(p) => {
                parts_need_constants(
                    format,
                    layout,
                    i + 1,
                    acc + bank_part(format, layout.banks[i], p),
                );
            },
            Err(e) => {},
        }
    }
}

/// A bank has constants exactly when its slot is a power of two of sectors and
/// its base block fits in 32 bits.
pub proof fn banks_with_constants(b: BankView, sector: u32)
    requires
        sector > 0,
        b.slot_size > 0,
        b.base as int % sector as int == 0,
    ensures
        params_of(b, sector) is Ok <==> exists|lba: u32, shift: nat|
            lba * sector == b.base && #[trigger] pow2(shift) * sector == b.slot_size
                && #[trigger] fits_block(lba),
{
    if params_of(b, sector) is Ok {
        let p = params_of(b, sector)->Ok_0;
        constants_measure_the_bank(b, sector, p);
        assert(fits_block(p.base_lba));
        assert(pow2(p.slot_shift as nat) * sector == b.slot_size);
    }
    if exists|lba: u32, shift: nat|
        lba * sector == b.base && #[trigger] pow2(shift) * sector == b.slot_size
            && #[trigger] fits_block(lba) {
        let (lba, shift) = choose|lba: u32, shift: nat|
            lba * sector == b.base && #[trigger] pow2(shift) * sector == b.slot_size
                && #[trigger] fits_block(lba);
        let n = pow2(shift) as int;
        assert(b.base as int / sector as int == lba) by (nonlinear_arith)
            requires
                lba * sector == b.base,
                sector > 0,
        ;
        assert(b.slot_size as int / sector as int == n && b.slot_size as int % sector as int == 0)
            by (nonlinear_arith)
            requires
                n * sector == b.slot_size,
                sector > 0,
        ;
        assert(crate::powers::is_power(n));
    }
}

/// Every 32-bit number is a block address.
pub open spec fn fits_block(lba: u32) -> bool {
    lba <= u32::MAX
}

/// An export of a layout gives, for every bank of it and in every format, the
/// bank's base and slot size in sectors and its unit count: each can be read
/// back from the text under the bank's name. An export is made exactly when
/// every bank has such constants.
#[verifier::rlimit(40)]
pub proof fn exports_read_back(format: RtlFormat, layout: LayoutView, stem: Seq<char>)
    requires
        layout.sector_size > 0,
        forall|i: int|
            0 <= i < layout.banks.len() ==> (#[trigger] layout.banks[i]).base as int
                % layout.sector_size as int == 0,
    ensures
        exported(format, layout, stem) is Ok <==> forall|i: int|
            0 <= i < layout.banks.len() ==> params_of(
                #[trigger] layout.banks[i],
                layout.sector_size,
            ) is Ok,
        exported(format, layout, stem) matches Ok(text) ==> forall|i: int|
            0 <= i < layout.banks.len() ==> exported_bank(
                format,
                text,
                #[trigger] layout.banks[i],
                layout.sector_size,
            ),
{
    let start = head(format, layout, stem);
    parts_need_constants(format, layout, 0, start);
    if exported(format, layout, stem) is Ok {
        let text = exported(format, layout, stem)->Ok_0;
        let parts = parts_from(format, layout, 0, start)->Ok_0;
        assert forall|i: int| 0 <= i < layout.banks.len() implies exported_bank(
            format,
            text,
            #[trigger] layout.banks[i],
            layout.sector_size,
        ) by {
            let b = layout.banks[i];
            let p = params_of(b, layout.sector_size)->Ok_0;
            let name = uppercase(ident_of(b.name));
            parts_give_constants(format, layout, 0, start, i, p, parts);
            let none = Seq::<char>::empty();
            assert(text =~= none + parts + tail(format));
            constants_given_in_more(
                format,
                none,
                parts,
                tail(format),
                name,
                p.base_lba as nat,
                p.slot_shift as nat,
                p.units as nat,
            );
            constants_measure_the_bank(b, layout.sector_size, p);
        }
    }
}

/// The text gives the bank's base and slot size in sectors, the slot size as an
/// exponent of two, and the bank's units, under its name as an identifier in
/// capitals.
pub open spec fn exported_bank(format: RtlFormat, text: Seq<char>, b: BankView, sector: u32) -> bool {
    exists|lba: nat, shift: nat|
        {
            &&& #[trigger] gives_constants(
                format,
                text,
                uppercase(ident_of(b.name)),
                lba,
                shift,
                b.units as nat,
            )
            &&& lba * sector == b.base
            &&& pow2(shift) * sector == b.slot_size
        }
}

} // verus!
