//! What size expressions stand for, and how byte counts are rendered.

use vstd::prelude::*;

use crate::error::ErrorView;
use crate::text::{
    all_digits, dec, dec_is_digits, dec_value, is_digit, is_space, lowercase, trim, trim_back,
    trim_front, value_of,
};
use crate::units::{
    bytes_text, digit_run, digit_run_bounds, digit_run_is, size_value, suffix_scale, tidy, GIB, KIB,
    MIB, TIB,
};

verus! {

/// A text that may follow the digits of a size, and what it multiplies by.
pub open spec fn multiplies(suffix: Seq<char>, sector: u32, factor: nat) -> bool {
    ||| factor == 1 && (suffix == ""@ || suffix == "B"@ || suffix == "b"@)
    ||| factor == sector && (suffix == "s"@ || suffix == "S"@)
    ||| factor == 1024 && (suffix == "K"@ || suffix == "k"@ || suffix == "KiB"@ || suffix
        == "kib"@)
    ||| factor == 1024 * 1024 && (suffix == "M"@ || suffix == "m"@ || suffix == "MiB"@ || suffix
        == "mib"@)
    ||| factor == 1024 * 1024 * 1024 && (suffix == "G"@ || suffix == "g"@ || suffix == "GiB"@
        || suffix == "gib"@)
    ||| factor == 1024 * 1024 * 1024 * 1024 && (suffix == "T"@ || suffix == "t"@ || suffix
        == "TiB"@ || suffix == "tib"@)
}

proof fn split(d: Seq<char>, rest: Seq<char>)
    requires
        d.len() > 0,
        all_digits(d),
        rest.len() > 0 ==> !is_digit(rest[0]) && !is_space(rest.last()),
    ensures
        trim(d + rest) == d + rest,
        digit_run(d + rest) == d.len(),
        (d + rest).take(d.len() as int) == d,
        (d + rest).skip(d.len() as int) == rest,
{
    let s = d + rest;
    assert(is_digit(d[0]));
    assert(is_digit(d.last()));
    assert(s[0] == d[0]);
    if rest.len() > 0 {
        assert(s.last() == rest.last());
    } else {
        assert(s.last() == d.last());
    }
    assert(trim_front(s) == s);
    assert(trim_back(s) == s);
    assert(s.take(d.len() as int) =~= d);
    assert(s.skip(d.len() as int) =~= rest);
    digit_run_is(s, d.len() as int);
}

proof fn scaled(d: Seq<char>, rest: Seq<char>, sector: u32, factor: nat)
    requires
        d.len() > 0,
        all_digits(d),
        rest.len() > 0 ==> !is_digit(rest[0]) && !is_space(rest.last()),
        suffix_scale(lowercase(trim(rest)), sector) == Some(factor),
        factor > 0,
    ensures
        value_of(d) * factor <= u64::MAX ==> size_value(d + rest, sector) == Ok::<u64, ErrorView>(
            (value_of(d) * factor) as u64,
        ),
        value_of(d) * factor > u64::MAX ==> size_value(d + rest, sector) is Err,
{
    split(d, rest);
    assert(value_of(d) <= value_of(d) * factor) by (nonlinear_arith)
        requires
            factor > 0,
    ;
}

#[verifier::rlimit(40)]
proof fn suffixes_known(suffix: Seq<char>, sector: u32, factor: nat)
    requires
        multiplies(suffix, sector, factor),
    ensures
        suffix.len() > 0 ==> !is_digit(suffix[0]) && !is_space(suffix[0]) && !is_space(
            suffix.last(),
        ),
        trim(suffix) == suffix,
        suffix_scale(lowercase(suffix), sector) == Some(factor),
{
    reveal_strlit("");
    reveal_strlit("B");
    reveal_strlit("b");
    reveal_strlit("s");
    reveal_strlit("S");
    reveal_strlit("K");
    reveal_strlit("k");
    reveal_strlit("KiB");
    reveal_strlit("kib");
    reveal_strlit("M");
    reveal_strlit("m");
    reveal_strlit("MiB");
    reveal_strlit("mib");
    reveal_strlit("G");
    reveal_strlit("g");
    reveal_strlit("GiB");
    reveal_strlit("gib");
    reveal_strlit("T");
    reveal_strlit("t");
    reveal_strlit("TiB");
    reveal_strlit("tib");
    let low = lowercase(suffix);
    if suffix == ""@ {
        assert(low =~= ""@);
    } else if suffix == "B"@ || suffix == "b"@ {
        assert(low =~= "b"@);
    } else if suffix == "s"@ || suffix == "S"@ {
        assert(low =~= "s"@);
        assert("s"@[0] != "b"@[0]);
    } else if suffix == "K"@ || suffix == "k"@ {
        assert(low =~= "k"@);
        assert("k"@[0] != "b"@[0] && "k"@[0] != "s"@[0]);
    } else if suffix == "KiB"@ || suffix == "kib"@ {
        assert(low =~= "kib"@);
    } else if suffix == "M"@ || suffix == "m"@ {
        assert(low =~= "m"@);
        assert("m"@[0] != "b"@[0] && "m"@[0] != "s"@[0] && "m"@[0] != "k"@[0]);
    } else if suffix == "MiB"@ || suffix == "mib"@ {
        assert(low =~= "mib"@);
        assert("mib"@[0] != "kib"@[0]);
    } else if suffix == "G"@ || suffix == "g"@ {
        assert(low =~= "g"@);
        assert("g"@[0] != "b"@[0] && "g"@[0] != "s"@[0] && "g"@[0] != "k"@[0] && "g"@[0]
            != "m"@[0]);
    } else if suffix == "GiB"@ || suffix == "gib"@ {
        assert(low =~= "gib"@);
        assert("gib"@[0] != "kib"@[0] && "gib"@[0] != "mib"@[0]);
    } else if suffix == "T"@ || suffix == "t"@ {
        assert(low =~= "t"@);
        assert("t"@[0] != "b"@[0] && "t"@[0] != "s"@[0] && "t"@[0] != "k"@[0] && "t"@[0] != "m"@[0]
            && "t"@[0] != "g"@[0]);
    } else {
        assert(low =~= "tib"@);
        assert("tib"@[0] != "kib"@[0] && "tib"@[0] != "mib"@[0] && "tib"@[0] != "gib"@[0]);
    }
}

/// A size expression of digits and a suffix, one space between them or none,
/// stands for the number times what the suffix multiplies by: bytes, sectors,
/// or the binary units in any case. Where that leaves 64 bits it is refused.
pub proof fn sizes_scale_by_their_suffix(
    digits: Seq<char>,
    suffix: Seq<char>,
    sector: u32,
    factor: nat,
)
    requires
        digits.len() > 0,
        all_digits(digits),
        factor > 0,
        multiplies(suffix, sector, factor),
    ensures
        value_of(digits) * factor <= u64::MAX ==> size_value(digits + suffix, sector) == Ok::<
            u64,
            ErrorView,
        >((value_of(digits) * factor) as u64),
        value_of(digits) * factor > u64::MAX ==> size_value(digits + suffix, sector) is Err,
        suffix.len() > 0 ==> size_value(digits + (" "@ + suffix), sector) is Ok == size_value(
            digits + suffix,
            sector,
        ) is Ok,
        suffix.len() > 0 && size_value(digits + suffix, sector) is Ok ==> size_value(
            digits + (" "@ + suffix),
            sector,
        ) == size_value(digits + suffix, sector),
{
    suffixes_known(suffix, sector, factor);
    scaled(digits, suffix, sector, factor);
    reveal_strlit(" ");
    if suffix.len() > 0 {
        let spaced = " "@ + suffix;
        assert(spaced[0] == ' ');
        assert(spaced.last() == suffix.last());
        assert(spaced.skip(1) =~= suffix);
        assert(trim_front(suffix) == suffix);
        assert(trim_front(spaced) == suffix);
        scaled(digits, spaced, sector, factor);
    }
}

/// What does not begin with a digit is no size.
pub proof fn sizes_begin_with_a_digit(s: Seq<char>, sector: u32)
    ensures
        size_value(s, sector) is Ok ==> trim(s).len() > 0 && is_digit(trim(s)[0]),
{
}

/// Every size is a run of digits, and behind it one of the suffixes, in any case
/// and with white space before it or not: no other text is a size.
pub proof fn sizes_have_a_known_suffix(s: Seq<char>, sector: u32)
    ensures
        size_value(s, sector) matches Ok(n) ==> exists|
            digits: Seq<char>,
            rest: Seq<char>,
            factor: nat,
        |
            {
                &&& trim(s) == digits + rest
                &&& digits.len() > 0
                &&& all_digits(digits)
                &&& #[trigger] multiplies(lowercase(trim(rest)), sector, factor)
                &&& n == #[trigger] value_of(digits) * factor
            },
{
    if size_value(s, sector) is Ok {
        let t = trim(s);
        let k = digit_run(t) as int;
        digit_run_bounds(t);
        let digits = t.take(k);
        let rest = t.skip(k);
        assert(t =~= digits + rest);
        let low = lowercase(trim(rest));
        let factor = suffix_scale(low, sector)->0;
        assert(multiplies(low, sector, factor));
        assert(size_value(s, sector)->Ok_0 == value_of(digits) * factor);
    }
}

/// Digits give the number that they read as from the left: one more digit is
/// ten times the number, and the digit.
pub proof fn digits_read_from_the_left(d: Seq<char>, c: char)
    requires
        all_digits(d),
        is_digit(c),
    ensures
        value_of(Seq::empty()) == 0,
        value_of(d.push(c)) == 10 * value_of(d) + (c as u32 - '0' as u32),
{
    assert(d.push(c).drop_last() =~= d);
}

proof fn exact_text(n: nat, name: Seq<char>, plain: Seq<char>, sector: u32, factor: nat)
    requires
        name == " "@ + plain,
        plain.len() > 0,
        multiplies(plain, sector, factor),
        factor > 0,
        n * factor <= u64::MAX,
    ensures
        size_value(dec(n) + name, sector) == Ok::<u64, ErrorView>((n * factor) as u64),
        (dec(n) + name)[0] != '~',
{
    dec_is_digits(n);
    dec_value(n);
    sizes_scale_by_their_suffix(dec(n), plain, sector, factor);
    assert(is_digit(dec(n)[0]));
}

proof fn names_split()
    ensures
        " TiB"@ == " "@ + "TiB"@,
        " GiB"@ == " "@ + "GiB"@,
        " MiB"@ == " "@ + "MiB"@,
        " KiB"@ == " "@ + "KiB"@,
        " B"@ == " "@ + "B"@,
        "TiB"@.len() > 0,
        "GiB"@.len() > 0,
        "MiB"@.len() > 0,
        "KiB"@.len() > 0,
        "B"@.len() > 0,
{
    reveal_strlit(" ");
    reveal_strlit(" TiB");
    reveal_strlit(" GiB");
    reveal_strlit(" MiB");
    reveal_strlit(" KiB");
    reveal_strlit(" B");
    reveal_strlit("TiB");
    reveal_strlit("GiB");
    reveal_strlit("MiB");
    reveal_strlit("KiB");
    reveal_strlit("B");
    assert(" TiB"@ =~= " "@ + "TiB"@);
    assert(" GiB"@ =~= " "@ + "GiB"@);
    assert(" MiB"@ =~= " "@ + "MiB"@);
    assert(" KiB"@ =~= " "@ + "KiB"@);
    assert(" B"@ =~= " "@ + "B"@);
}

/// The count is a whole number of a unit, below ten thousand of it.
pub open spec fn whole(bytes: u64, unit: u64) -> bool {
    exists|k: u64| 0 < k < 10000 && bytes == #[trigger] (k * unit)
}

/// A byte count is rendered exactly, as a size expression that reads back as
/// it, when it is below 1024 or a whole number of some binary unit, below ten
/// thousand of it; any other rendering begins with a tilde.
#[verifier::rlimit(40)]
pub proof fn exact_counts_read_back(bytes: u64, sector: u32)
    ensures
        bytes_text(bytes).len() > 0,
        bytes_text(bytes)[0] != '~' ==> size_value(bytes_text(bytes), sector) == Ok::<
            u64,
            ErrorView,
        >(bytes),
        bytes_text(bytes)[0] != '~' <==> bytes < 1024 || whole(bytes, 1024) || whole(bytes, 1048576)
            || whole(bytes, 1073741824) || whole(bytes, 1099511627776),
{
    names_split();
    reveal_strlit("~");
    tidy_is_whole(bytes, KIB);
    tidy_is_whole(bytes, MIB);
    tidy_is_whole(bytes, GIB);
    tidy_is_whole(bytes, TIB);
    if tidy(bytes, TIB) {
        exact_text((bytes / TIB) as nat, " TiB"@, "TiB"@, sector, 1024 * 1024 * 1024 * 1024);
    } else if tidy(bytes, GIB) {
        exact_text((bytes / GIB) as nat, " GiB"@, "GiB"@, sector, 1024 * 1024 * 1024);
    } else if tidy(bytes, MIB) {
        exact_text((bytes / MIB) as nat, " MiB"@, "MiB"@, sector, 1024 * 1024);
    } else if tidy(bytes, KIB) {
        exact_text((bytes / KIB) as nat, " KiB"@, "KiB"@, sector, 1024);
    } else if bytes < KIB {
        exact_text(bytes as nat, " B"@, "B"@, sector, 1);
        assert(bytes as nat * 1 == bytes) by (nonlinear_arith);
    }
}

proof fn tidy_is_whole(bytes: u64, unit: u64)
    requires
        unit > 0,
    ensures
        tidy(bytes, unit) <==> whole(bytes, unit),
{
    let k = bytes / unit;
    if tidy(bytes, unit) {
        assert(bytes == k * unit && k > 0) by (nonlinear_arith)
            requires
                unit > 0,
                k == bytes / unit,
                bytes % unit == 0,
                bytes >= unit,
        ;
    }
    if whole(bytes, unit) {
        let j = choose|j: u64| 0 < j < 10000 && bytes == #[trigger] (j * unit);
        assert(bytes % unit == 0 && bytes / unit == j && bytes >= unit) by (nonlinear_arith)
            requires
                bytes == j * unit,
                unit > 0,
                j > 0,
        ;
    }
}

} // verus!
