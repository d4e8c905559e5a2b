//! What numbers become when they are shown: rounded byte counts, identifiers, and
//! the sizes of the builtin drive types.

use vstd::arithmetic::power2::pow2;
use vstd::prelude::*;

use crate::drive_types::{builtin_types, disk, DriveTypeView, Geometry};
use crate::laws::commands::has_part;
use crate::laws::views::{grow, regroup};
use crate::rtl::{bit_width, constants, ident_of, BankParams, RtlFormat};
use crate::text::{
    all_digits, dec, dec_is_digits, dec_value, is_alnum, is_digit, value_of, zero_pad,
};
use crate::units::{bytes_text, nearest_even, rounded53, spacing, two_decimals, GIB, KIB, MIB, TIB};

verus! {

// ---------------------------------------------------------------------------
// Rounding
// ---------------------------------------------------------------------------

/// Rounding gives an integer that is nearest, and of two that are as near the
/// even one.
pub proof fn roundings_are_nearest(num: nat, den: nat)
    requires
        den > 0,
    ensures
        ({
            let n = nearest_even(num, den);
            &&& 2 * num - den <= 2 * (n * den) <= 2 * num + den
            &&& 2 * (n * den) == 2 * num - den || 2 * (n * den) == 2 * num + den ==> n % 2 == 0
        }),
{
    let q = num / den;
    let r = num % den;
    assert(q * den + r == num && 0 <= r < den) by (nonlinear_arith)
        requires
            den > 0,
            q == num / den,
            r == num % den,
    ;
    assert((q + 1) * den == q * den + den) by (nonlinear_arith);
}

proof fn spacings(n: nat, p: nat)
    requires
        p > 0,
    ensures
        ({
            let s = spacing(n, p);
            &&& s >= p
            &&& n < s * 0x20_0000_0000_0000
            &&& s == p || 2 * n >= s * 0x20_0000_0000_0000
        }),
    decreases n + 1 - p,
{
    if n >= p * 0x20_0000_0000_0000 {
        spacings(n, 2 * p);
    }
}

/// A count below two to the power of 53 is kept as it is. Of a larger one at most
/// one part in two to the power of 53 is lost or added.
pub proof fn counts_keep_their_leading_bits(n: nat)
    ensures
        n < 0x20_0000_0000_0000 ==> rounded53(n) == n,
        (rounded53(n) - n) * 0x20_0000_0000_0000 <= n,
        (n - rounded53(n)) * 0x20_0000_0000_0000 <= n,
{
    spacings(n, 1);
    let s = spacing(n, 1);
    let m = nearest_even(n, s);
    roundings_are_nearest(n, s);
    if s == 1 {
        assert(n / 1 == n && n % 1 == 0);
        assert(m == n);
        assert(m * s == n) by (nonlinear_arith)
            requires
                m == n,
                s == 1,
        ;
    } else {
        assert(2 * (m * s - n) <= s && 2 * (n - m * s) <= s);
    }
}

// ---------------------------------------------------------------------------
// Approximate byte counts
// ---------------------------------------------------------------------------

/// The hundredths that a number with two decimals stands for.
pub open spec fn hundredths(t: Seq<char>) -> int {
    let n = t.len() as int;
    100 * value_of(t.take(n - 3)) + 10 * (t[n - 2] as int - '0' as int) + (t[n - 1] as int
        - '0' as int)
}

/// A number as it is shown with two decimals.
pub open spec fn is_decimal(t: Seq<char>) -> bool {
    let n = t.len() as int;
    &&& n >= 4
    &&& all_digits(t.take(n - 3))
    &&& t[n - 3] == '.'
    &&& is_digit(t[n - 2])
    &&& is_digit(t[n - 1])
}

proof fn two_digits(k: nat)
    requires
        k < 100,
    ensures
        ({
            let t = zero_pad(dec(k), 2);
            &&& t.len() == 2
            &&& is_digit(t[0])
            &&& is_digit(t[1])
            &&& 10 * (t[0] as int - '0' as int) + (t[1] as int - '0' as int) == k
        }),
{
    if k >= 10 {
        assert(k / 10 < 10);
        assert(dec(k / 10).len() == 1);
        assert(dec(k).len() == 2);
    } else {
        assert(dec(k).len() == 1);
    }
}

/// Two decimals show the quotient to the nearest hundredth.
pub proof fn decimals_are_near(bytes: nat, unit: nat)
    requires
        unit > 0,
    ensures
        ({
            let t = two_decimals(bytes, unit);
            let h = hundredths(t);
            &&& is_decimal(t)
            &&& bytes < 0x20_0000_0000_0000 ==> 200 * bytes - unit <= 2 * (h * unit) <= 200 * bytes
                + unit
            &&& 200 * rounded53(bytes) - unit <= 2 * (h * unit) <= 200 * rounded53(bytes) + unit
        }),
{
    reveal_strlit(".");
    let h = nearest_even(rounded53(bytes) * 100, unit);
    let a = dec(h / 100);
    let b = zero_pad(dec(h % 100), 2);
    let t = two_decimals(bytes, unit);
    dec_is_digits(h / 100);
    dec_value(h / 100);
    two_digits(h % 100);
    assert(t =~= a + "."@ + b);
    assert(t.len() == a.len() + 3);
    assert(t.take(t.len() - 3) =~= a);
    assert(t[t.len() - 2] == b[0]);
    assert(t[t.len() - 1] == b[1]);
    assert(hundredths(t) == h);
    roundings_are_nearest(rounded53(bytes) * 100, unit);
    counts_keep_their_leading_bits(bytes);
}

/// The text shows about as many bytes in a unit: behind a tilde, and to the
/// nearest hundredth.
pub open spec fn approximates(t: Seq<char>, bytes: u64, unit: int, name: Seq<char>) -> bool {
    exists|d: Seq<char>| #[trigger] is_decimal(d) && t == "~"@ + d + name && (bytes
        < 0x20_0000_0000_0000 ==> 200 * bytes - unit <= 2 * (hundredths(d) * unit) <= 200 * bytes
        + unit)
}

/// A count that is not shown exactly is shown in the largest unit that is not
/// above it.
pub proof fn other_counts_are_approximate(bytes: u64)
    requires
        bytes_text(bytes)[0] == '~',
    ensures
        bytes >= 1024,
        bytes < 1048576 ==> approximates(bytes_text(bytes), bytes, 1024, " KiB"@),
        1048576 <= bytes < 1073741824 ==> approximates(bytes_text(bytes), bytes, 1048576, " MiB"@),
        1073741824 <= bytes < 1099511627776 ==> approximates(
            bytes_text(bytes),
            bytes,
            1073741824,
            " GiB"@,
        ),
        1099511627776 <= bytes ==> approximates(bytes_text(bytes), bytes, 1099511627776, " TiB"@),
{
    starts_with_a_digit((bytes / TIB) as nat, " TiB"@);
    starts_with_a_digit((bytes / GIB) as nat, " GiB"@);
    starts_with_a_digit((bytes / MIB) as nat, " MiB"@);
    starts_with_a_digit((bytes / KIB) as nat, " KiB"@);
    starts_with_a_digit(bytes as nat, " B"@);
    decimals_are_near(bytes as nat, TIB as nat);
    decimals_are_near(bytes as nat, GIB as nat);
    decimals_are_near(bytes as nat, MIB as nat);
    decimals_are_near(bytes as nat, KIB as nat);
}

proof fn starts_with_a_digit(n: nat, name: Seq<char>)
    ensures
        (dec(n) + name)[0] != '~',
{
    dec_is_digits(n);
    assert((dec(n) + name)[0] == dec(n)[0]);
    assert(is_digit(dec(n)[0]));
}

// ---------------------------------------------------------------------------
// Identifiers
// ---------------------------------------------------------------------------

/// An identifier is made of letters, digits and underscores and does not begin
/// with a digit; it has every letter and digit of its text where it stood, but
/// for an underscore that may go before them all.
pub proof fn identifiers_keep_their_letters(s: Seq<char>)
    ensures
        ({
            let r = ident_of(s);
            let shift = r.len() - s.len();
            &&& r.len() > 0
            &&& !is_digit(r[0])
            &&& forall|i: int| 0 <= i < r.len() ==> is_alnum(#[trigger] r[i]) || r[i] == '_'
            &&& shift == 1 <==> s.len() == 0 || is_digit(s[0])
            &&& shift == 0 || (shift == 1 && r[0] == '_')
            &&& forall|i: int|
                0 <= i < s.len() ==> r[i + shift] == if is_alnum(#[trigger] s[i]) {
                    s[i]
                } else {
                    '_'
                }
        }),
{
    reveal_strlit("_");
    crate::rtl::identifiers_are_legal(s);
    let r = ident_of(s);
    let t = s.map_values(|c: char| crate::rtl::ident_char(c));
    assert forall|i: int| 0 <= i < s.len() implies r[i + r.len() - s.len()] == if is_alnum(
        #[trigger] s[i],
    ) {
        s[i]
    } else {
        '_'
    } by {
        assert(t[i] == crate::rtl::ident_char(s[i]));
    }
}

/// A number has as many bits as are needed to hold it, and no more.
pub proof fn widths_hold_their_number(n: nat)
    ensures
        n < pow2(bit_width(n)),
        n > 0 ==> bit_width(n) > 0 && pow2((bit_width(n) - 1) as nat) <= n,
    decreases n,
{
    if n == 0 {
        vstd::arithmetic::power2::lemma2_to64();
    } else {
        let h = n / 2;
        let w = bit_width(h);
        widths_hold_their_number(h);
        vstd::arithmetic::power2::lemma_pow2_unfold(w + 1);
        assert(n < 2 * pow2(w));
        if h > 0 {
            vstd::arithmetic::power2::lemma_pow2_unfold(w);
        } else {
            vstd::arithmetic::power2::lemma2_to64();
        }
    }
}

/// In Verilog a bank's number of units is a literal that is just wide enough for
/// it.
pub proof fn unit_literals_are_wide_enough(
    format: RtlFormat,
    name: Seq<char>,
    p: BankParams,
    w: nat,
)
    requires
        format == RtlFormat::Vh || format == RtlFormat::Sv,
        p.units < pow2(w),
        p.units > 0,
        w > 0,
        pow2((w - 1) as nat) <= p.units,
    ensures
        has_part(
            constants(format, name, p),
            name + "_UNITS      = "@ + dec(w) + "'d"@ + dec(p.units as nat) + ";"@,
        ),
{
    let n = p.units as nat;
    widths_hold_their_number(n);
    let v = bit_width(n);
    if w < v {
        if w < v - 1 {
            vstd::arithmetic::power2::lemma_pow2_strictly_increases(w, (v - 1) as nat);
        }
        assert(false);
    }
    if v < w {
        if v < w - 1 {
            vstd::arithmetic::power2::lemma_pow2_strictly_increases(v, (w - 1) as nat);
        }
        assert(false);
    }
    let head = "localparam "@ + name + "_BASE_LBA   = 32'h"@ + crate::rtl::lba_digits(
        p.base_lba as nat,
    ) + ";\nlocalparam "@ + name + "_SLOT_SHIFT = "@ + dec(p.slot_shift as nat)
        + ";\nlocalparam "@;
    let eq = "_UNITS      = "@;
    let d = dec(w);
    let u = dec(n);
    let part = name + eq + d + "'d"@ + u + ";"@;
    line_ends();
    grow(head, part);
    grow(head + part, "\n"@);
    regroup(head, name + eq + d + "'d"@ + u, ";"@);
    regroup(head, name + eq + d + "'d"@, u);
    regroup(head, name + eq + d, "'d"@);
    regroup(head, name + eq, d);
    regroup(head, name, eq);
    regroup(head + name + eq + d + "'d"@ + u, ";"@, "\n"@);
}

proof fn line_ends()
    ensures
        ";\n"@ == ";"@ + "\n"@,
{
    reveal_strlit(";\n");
    reveal_strlit(";");
    reveal_strlit("\n");
    assert(";\n"@ =~= ";"@ + "\n"@);
}

// ---------------------------------------------------------------------------
// Builtin drive types
// ---------------------------------------------------------------------------

/// A power of two.
pub open spec fn doubles_one(n: int) -> bool
    decreases n,
{
    n == 1 || (n > 1 && n % 2 == 0 && doubles_one(n / 2))
}

/// A disk type whose image has as many bytes as its geometry, or a stream type
/// without a geometry; its slot is a power of two in which the image fits, and
/// less than four times as large.
pub open spec fn fits_its_slot(t: DriveTypeView) -> bool {
    &&& t.stream <==> t.geometry is None
    &&& t.geometry matches Some(g) ==> t.image_bytes == g.cylinders * g.heads * g.sectors
        * g.bytes_per_sector
    &&& doubles_one(t.recommended_slot as int)
    &&& t.image_bytes <= t.recommended_slot < 4 * t.image_bytes
}

/// A builtin disk's image has as many bytes as its geometry, a builtin tape has
/// no geometry, and the recommended slot of either is a power of two in which
/// the image fits, and less than four times as large.
pub proof fn builtin_types_fit_their_slots(k: int)
    requires
        0 <= k < builtin_types().len(),
    ensures
        fits_its_slot(builtin_types()[k]),
{
    powers();
    let types = builtin_types();
    assert(types.len() == 17);
    disk_fits("RX01"@, 77, 1, 26, 128, 256256, 524288);
    disk_fits("RX02"@, 77, 1, 26, 256, 512512, 1048576);
    disk_fits("RX50"@, 80, 1, 10, 512, 409600, 524288);
    disk_fits("RX33"@, 80, 2, 15, 512, 1228800, 2097152);
    disk_fits("RX23"@, 80, 2, 18, 512, 1474560, 2097152);
    disk_fits("RX26"@, 80, 2, 36, 512, 2949120, 4194304);
    disk_fits("RL01"@, 256, 2, 40, 256, 5242880, 8388608);
    disk_fits("RL02"@, 512, 2, 40, 256, 10485760, 16777216);
    disk_fits("RK05"@, 203, 2, 12, 512, 2494464, 4194304);
    disk_fits("RP04"@, 411, 19, 22, 512, 87960576, 134217728);
    disk_fits("RP05"@, 411, 19, 22, 512, 87960576, 134217728);
    disk_fits("RP06"@, 815, 19, 22, 512, 174423040, 268435456);
    disk_fits("RM03"@, 823, 5, 32, 512, 67420160, 134217728);
    disk_fits("RM05"@, 823, 19, 32, 512, 256196608, 536870912);
    disk_fits("RP07"@, 630, 32, 50, 512, 516096000, 1073741824);
}

proof fn disk_fits(name: Seq<char>, c: u32, h: u32, s: u32, b: u32, image: u64, slot: u64)
    requires
        c * h * s * b == image,
        doubles_one(slot as int),
        image <= slot < 4 * image,
    ensures
        fits_its_slot(disk(name, c, h, s, b, image, slot)),
{
}

proof fn powers()
    ensures
        doubles_one(524288),
        doubles_one(1048576),
        doubles_one(2097152),
        doubles_one(4194304),
        doubles_one(8388608),
        doubles_one(16777216),
        doubles_one(67108864),
        doubles_one(134217728),
        doubles_one(268435456),
        doubles_one(536870912),
        doubles_one(1073741824),
{
    reveal_with_fuel(doubles_one, 32);
}

/// A geometry is shown with all four of its numbers, each with its letter.
pub proof fn geometries_are_shown_in_full(g: Geometry)
    ensures
        has_part(g.text(), dec(g.cylinders as nat) + "c x "@),
        has_part(g.text(), dec(g.heads as nat) + "h x "@),
        has_part(g.text(), dec(g.sectors as nat) + "s x "@),
        has_part(g.text(), dec(g.bytes_per_sector as nat) + "B"@),
{
    let a = dec(g.cylinders as nat);
    let b = dec(g.heads as nat);
    let c = dec(g.sectors as nat);
    let d = dec(g.bytes_per_sector as nat);
    let e = Seq::<char>::empty();
    assert(g.text() =~= e + (a + "c x "@) + (b + "h x "@ + (c + "s x "@) + (d + "B"@)));
    assert(g.text() =~= (a + "c x "@) + (b + "h x "@) + ((c + "s x "@) + (d + "B"@)));
    assert(g.text() =~= (a + "c x "@ + (b + "h x "@)) + (c + "s x "@) + (d + "B"@));
    assert(g.text() =~= (a + "c x "@ + (b + "h x "@) + (c + "s x "@)) + (d + "B"@) + e);
    crate::laws::commands::part_between(e, a + "c x "@, b + "h x "@ + (c + "s x "@) + (d + "B"@));
    crate::laws::commands::part_between(a + "c x "@, b + "h x "@, (c + "s x "@) + (d + "B"@));
    crate::laws::commands::part_between(a + "c x "@ + (b + "h x "@), c + "s x "@, d + "B"@);
    crate::laws::commands::part_between(
        a + "c x "@ + (b + "h x "@) + (c + "s x "@),
        d + "B"@,
        e,
    );
}

} // verus!
