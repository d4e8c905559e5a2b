//! Size expressions: plain bytes, binary suffixes (KiB/MiB/GiB/TiB, with bare
//! K/M/G/T as shorthand), or an `NNNs` count of sectors, and the rendering of
//! byte counts.

use vstd::prelude::*;
use vstd::string::*;

use crate::error::{outcome, Error, ErrorView, Result};
use crate::text::{
    all_digits, cat2, cat3, dec, dec_text, digit_here, is_digit, lowercase, lowercase_text,
    parse_unsigned, quoted, quoted_text, same_text, string_of, trim, trimmed, trimmed_chars,
    value_of, zero_pad, zero_padded,
};

verus! {

pub const KIB: u64 = 1024;

pub const MIB: u64 = 1048576;

pub const GIB: u64 = 1073741824;

pub const TIB: u64 = 1099511627776;

/// How many digits stand at the front of `s`.
pub open spec fn digit_run(s: Seq<char>) -> nat
    decreases s.len(),
{
    if s.len() > 0 && is_digit(s[0]) {
        1 + digit_run(s.skip(1))
    } else {
        0
    }
}

/// What a size suffix multiplies by, if it is one.
pub open spec fn suffix_scale(suffix: Seq<char>, sector_size: u32) -> Option<nat> {
    if suffix == ""@ || suffix == "b"@ {
        Some(1)
    } else if suffix == "s"@ {
        Some(sector_size as nat)
    } else if suffix == "k"@ || suffix == "kib"@ {
        Some(KIB as nat)
    } else if suffix == "m"@ || suffix == "mib"@ {
        Some(MIB as nat)
    } else if suffix == "g"@ || suffix == "gib"@ {
        Some(GIB as nat)
    } else if suffix == "t"@ || suffix == "tib"@ {
        Some(TIB as nat)
    } else {
        None
    }
}

pub open spec fn bad_size(t: Seq<char>) -> ErrorView {
    ErrorView::Validation(
        "cannot parse size "@ + quoted(t)
            + ": expected bytes, a KiB/MiB/GiB/TiB suffix, or \"NNNs\" LBAs"@,
    )
}

/// The byte count that a size expression stands for: a run of digits, then an
/// optional suffix in any case, white space being free around both.
pub open spec fn size_value(s: Seq<char>, sector_size: u32) -> std::result::Result<u64, ErrorView> {
    let t = trim(s);
    let k = digit_run(t) as int;
    let n = value_of(t.take(k));
    let scale = suffix_scale(lowercase(trim(t.skip(k))), sector_size);
    if t.len() == 0 {
        Err(ErrorView::Validation("empty size expression"@))
    } else if k == 0 || n > u64::MAX || scale is None {
        Err(bad_size(t))
    } else if n * scale->0 > u64::MAX {
        Err(ErrorView::Validation("size "@ + quoted(t) + " overflows u64"@))
    } else {
        Ok((n * scale->0) as u64)
    }
}

pub(crate) proof fn digit_run_bounds(s: Seq<char>)
    ensures
        digit_run(s) <= s.len(),
        all_digits(s.take(digit_run(s) as int)),
        digit_run(s) < s.len() ==> !is_digit(s[digit_run(s) as int]),
    decreases s.len(),
{
    if s.len() > 0 && is_digit(s[0]) {
        let rest = s.skip(1);
        digit_run_bounds(rest);
        let k = digit_run(rest) as int;
        assert forall|i: int| 0 <= i < k + 1 implies is_digit(#[trigger] s.take(k + 1)[i]) by {
            if i > 0 {
                assert(rest.take(k)[i - 1] == s[i]);
            }
        }
    }
}

pub(crate) proof fn digit_run_is(s: Seq<char>, k: int)
    requires
        0 <= k <= s.len(),
        all_digits(s.take(k)),
        k < s.len() ==> !is_digit(s[k]),
    ensures
        digit_run(s) == k,
{
    digit_run_bounds(s);
    let r = digit_run(s) as int;
    if r < k {
        assert(is_digit(s.take(k)[r]));
    }
    if k < r {
        assert(is_digit(s.take(r)[k]));
    }
}

fn scale_of(suffix: &str, sector_size: u32) -> (r: Option<u64>)
    ensures
        r is Some <==> suffix_scale(suffix@, sector_size) is Some,
        r matches Some(n) ==> suffix_scale(suffix@, sector_size) == Some(n as nat),
{
    if same_text(suffix, "") || same_text(suffix, "b") {
        Some(1)
    } else if same_text(suffix, "s") {
        Some(sector_size as u64)
    } else if same_text(suffix, "k") || same_text(suffix, "kib") {
        Some(KIB)
    } else if same_text(suffix, "m") || same_text(suffix, "mib") {
        Some(MIB)
    } else if same_text(suffix, "g") || same_text(suffix, "gib") {
        Some(GIB)
    } else if same_text(suffix, "t") || same_text(suffix, "tib") {
        Some(TIB)
    } else {
        None
    }
}

fn bad_size_err(t: &str) -> (r: Error)
    ensures
        r@ == bad_size(t@),
{
    let q = quoted_text(t);
    Error::Validation(
        cat3(
            "cannot parse size ",
            &q,
            ": expected bytes, a KiB/MiB/GiB/TiB suffix, or \"NNNs\" LBAs",
        ),
    )
}

/// Parse a size expression. `sector_size` scales the `s` suffix.
pub fn parse_size(s: &str, sector_size: u32) -> (r: Result<u64>)
    ensures
        outcome(r) == size_value(s@, sector_size),
{
    let t = trimmed_chars(s);
    let len: usize = t.len();
    if len == 0 {
        return Err(Error::Validation("empty size expression".to_owned()));
    }
    let text = string_of(&t, 0, len);
    assert(t@.subrange(0, len as int) =~= t@);
    let mut k: usize = 0;
    while k < len && digit_here(t[k])
        invariant
            len == t@.len(),
            k <= len,
            all_digits(t@.take(k as int)),
        decreases len - k,
    {
        k = k + 1;
        assert forall|i: int| 0 <= i < k implies is_digit(#[trigger] t@.take(k as int)[i]) by {
            if i < k - 1 {
                assert(t@.take(k - 1)[i] == t@[i]);
            }
        }
    }
    proof {
        digit_run_is(t@, k as int);
    }
    if k == 0 {
        return Err(bad_size_err(&text));
    }
    let digits = string_of(&t, 0, k);
    let suffix = string_of(&t, k, len);
    assert(t@.subrange(0, k as int) =~= t@.take(k as int));
    assert(t@.subrange(k as int, len as int) =~= t@.skip(k as int));
    let digit_chars = crate::text::chars_of(&digits);
    assert(digit_chars@.skip(0) =~= t@.take(k as int));
    assert(is_digit(digit_chars@[0]));
    let n: u64 = match parse_unsigned(&digit_chars, 0, u64::MAX) {
        Some(n) => n,
        None => {
            return Err(bad_size_err(&text));
        },
    };
    let short = trimmed(&suffix);
    let low = lowercase_text(&short);
    let scale: u64 = match scale_of(&low, sector_size) {
        Some(m) => m,
        None => {
            return Err(bad_size_err(&text));
        },
    };
    match n.checked_mul(scale) {
        Some(v) => Ok(v),
        None => {
            let q = quoted_text(&text);
            Err(Error::Validation(cat3("size ", &q, " overflows u64")))
        },
    }
}

// ---------------------------------------------------------------------------
// Rendering
// ---------------------------------------------------------------------------

/// The integer nearest to `num / den`, the even one when two are as near.
pub open spec fn nearest_even(num: nat, den: nat) -> nat {
    let q = num / den;
    let r = num % den;
    if 2 * r < den || (2 * r == den && q % 2 == 0) {
        q
    } else {
        q + 1
    }
}

/// The spacing of numbers with 53 significant bits around `n`, from `p` up.
pub open spec fn spacing(n: nat, p: nat) -> nat
    decreases n + 1 - p,
{
    if p == 0 || n < p * 0x20_0000_0000_0000 {
        p
    } else {
        spacing(n, 2 * p)
    }
}

/// `n` rounded to 53 significant bits, which is what a binary64 number keeps of it.
pub open spec fn rounded53(n: nat) -> nat {
    nearest_even(n, spacing(n, 1)) * spacing(n, 1)
}

/// `bytes / unit` with two decimals, rounded to the nearest hundredth.
pub open spec fn two_decimals(bytes: nat, unit: nat) -> Seq<char> {
    let h = nearest_even(rounded53(bytes) * 100, unit);
    dec(h / 100) + "."@ + zero_pad(dec(h % 100), 2)
}

/// Is `bytes` a tidy multiple of `unit`?
pub open spec fn tidy(bytes: u64, unit: u64) -> bool {
    bytes >= unit && bytes % unit == 0 && bytes / unit < 10000
}

/// A byte count in the largest unit that renders it exactly with at most four
/// digits, or else approximately in the largest unit not above it.
pub open spec fn bytes_text(bytes: u64) -> Seq<char> {
    if tidy(bytes, TIB) {
        dec((bytes / TIB) as nat) + " TiB"@
    } else if tidy(bytes, GIB) {
        dec((bytes / GIB) as nat) + " GiB"@
    } else if tidy(bytes, MIB) {
        dec((bytes / MIB) as nat) + " MiB"@
    } else if tidy(bytes, KIB) {
        dec((bytes / KIB) as nat) + " KiB"@
    } else if bytes >= TIB {
        "~"@ + two_decimals(bytes as nat, TIB as nat) + " TiB"@
    } else if bytes >= GIB {
        "~"@ + two_decimals(bytes as nat, GIB as nat) + " GiB"@
    } else if bytes >= MIB {
        "~"@ + two_decimals(bytes as nat, MIB as nat) + " MiB"@
    } else if bytes >= KIB {
        "~"@ + two_decimals(bytes as nat, KIB as nat) + " KiB"@
    } else {
        dec(bytes as nat) + " B"@
    }
}

fn round_even(num: u128, den: u128) -> (r: u128)
    requires
        0 < den <= 0x100_0000_0000_0000_0000,
        num <= 0x100_0000_0000_0000_0000,
    ensures
        r == nearest_even(num as nat, den as nat),
        r <= num / den + 1,
{
    let q: u128 = num / den;
    let r: u128 = num % den;
    assert(q <= num) by (nonlinear_arith)
        requires
            q == num / den,
            den > 0,
    ;
    assert(r < den) by (nonlinear_arith)
        requires
            r == num % den,
            den > 0,
    ;
    if 2 * r < den || (2 * r == den && q % 2 == 0) {
        q
    } else {
        q + 1
    }
}

fn spacing_of(n: u64) -> (p: u128)
    ensures
        p == spacing(n as nat, 1),
        0 < p <= 4096,
{
    let mut p: u128 = 1;
    while n as u128 >= p * 0x20_0000_0000_0000
        invariant
            0 < p <= 4096,
            spacing(n as nat, 1) == spacing(n as nat, p as nat),
        decreases 8192 - p,
    {
        p = 2 * p;
    }
    p
}

fn two_decimals_text(bytes: u64, unit: u64) -> (r: String)
    requires
        unit >= KIB,
    ensures
        r@ == two_decimals(bytes as nat, unit as nat),
{
    let p: u128 = spacing_of(bytes);
    let m: u128 = round_even(bytes as u128, p);
    let ghost b = bytes as u128;
    assert(m * p <= b + p) by (nonlinear_arith)
        requires
            m <= b / p + 1,
            0 < p,
    ;
    let kept: u128 = m * p;
    let u: u128 = unit as u128;
    let scaled: u128 = kept * 100;
    let h: u128 = round_even(scaled, u);
    assert(h <= scaled / 1024 + 1) by (nonlinear_arith)
        requires
            h <= scaled / u + 1,
            u >= 1024,
    ;
    let whole = dec_text((h / 100) as u64);
    let cents = dec_text((h % 100) as u64);
    let cents2 = zero_padded(&cents, 2);
    cat3(&whole, ".", &cents2)
}

fn approx_text(bytes: u64, unit: u64, name: &str) -> (r: String)
    requires
        unit >= KIB,
    ensures
        r@ == "~"@ + two_decimals(bytes as nat, unit as nat) + name@,
{
    let t = two_decimals_text(bytes, unit);
    cat3("~", &t, name)
}

fn is_tidy(bytes: u64, unit: u64) -> (r: bool)
    requires
        unit > 0,
    ensures
        r == tidy(bytes, unit),
{
    bytes >= unit && bytes % unit == 0 && bytes / unit < 10000
}

/// Render a byte count in the most compact exact binary unit, or else
/// approximately.
pub fn format_bytes(bytes: u64) -> (r: String)
    ensures
        r@ == bytes_text(bytes),
{
    if is_tidy(bytes, TIB) {
        let n = dec_text(bytes / TIB);
        cat2(&n, " TiB")
    } else if is_tidy(bytes, GIB) {
        let n = dec_text(bytes / GIB);
        cat2(&n, " GiB")
    } else if is_tidy(bytes, MIB) {
        let n = dec_text(bytes / MIB);
        cat2(&n, " MiB")
    } else if is_tidy(bytes, KIB) {
        let n = dec_text(bytes / KIB);
        cat2(&n, " KiB")
    } else if bytes >= TIB {
        approx_text(bytes, TIB, " TiB")
    } else if bytes >= GIB {
        approx_text(bytes, GIB, " GiB")
    } else if bytes >= MIB {
        approx_text(bytes, MIB, " MiB")
    } else if bytes >= KIB {
        approx_text(bytes, KIB, " KiB")
    } else {
        let n = dec_text(bytes);
        cat2(&n, " B")
    }
}

/// A size expression of the digits of `n` alone stands for `n` bytes.
pub proof fn plain_size_reads_back(n: u64, sector_size: u32)
    ensures
        size_value(dec(n as nat), sector_size) == Ok::<u64, ErrorView>(n),
{
    let d = dec(n as nat);
    crate::text::dec_is_digits(n as nat);
    crate::text::dec_value(n as nat);
    assert(is_digit(d[0]));
    assert(is_digit(d.last()));
    assert(trim(d) == d);
    assert(d.take(d.len() as int) =~= d);
    digit_run_is(d, d.len() as int);
    assert(d.skip(d.len() as int) =~= Seq::<char>::empty());
    reveal_strlit("");
    assert(trim(Seq::<char>::empty()) == Seq::<char>::empty());
    assert(lowercase(Seq::<char>::empty()) =~= ""@);
    assert(suffix_scale(""@, sector_size) == Some(1nat));
    let t = trim(d);
    let k = digit_run(t) as int;
    let scale = suffix_scale(lowercase(trim(t.skip(k))), sector_size);
    assert(scale == Some(1nat));
    assert(value_of(t.take(k)) == n);
    assert(value_of(t.take(k)) * scale->0 == n) by (nonlinear_arith)
        requires
            value_of(t.take(k)) == n,
            scale->0 == 1,
    ;
}

} // verus!
