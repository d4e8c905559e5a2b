//! Layout parameters for hardware and other consumers: a Verilog header, a
//! SystemVerilog package, Rust constants or a C header with, for each bank, the
//! block address of its base, its slots' shift, and its unit count.

use vstd::arithmetic::power2::{lemma_pow2_strictly_increases, pow2};
use vstd::prelude::*;
use vstd::string::*;

use crate::error::{Error, ErrorView, Result};
use crate::layout::{block_address_needs_no_adder, Bank, BankView, Layout, LayoutView};
use crate::paths::{extension_is, path_extension, path_stem, stem_is};
use crate::powers::{exponent_of, is_power};
use crate::text::{
    alnum_here, cat2, cat3, cat5, chars_of, dec, dec_text, digit_here, hex_of, hex_text, is_alnum,
    is_digit, lowercase, lowercase_text, opt_text, quoted, quoted_text, same_text, string_of, uppercase,
    uppercase_text, zero_pad, zero_padded,
};
use crate::units::{bytes_text, format_bytes};

verus! {

#[derive(Debug, Clone, Copy, PartialEq, Eq, Structural)]
pub enum RtlFormat {
    /// Verilog header.
    Vh,
    /// SystemVerilog package.
    Sv,
    Rust,
    CHeader,
}

/// The format of a name.
pub open spec fn format_named(s: Seq<char>) -> Option<RtlFormat> {
    if s == "vh"@ {
        Some(RtlFormat::Vh)
    } else if s == "sv"@ {
        Some(RtlFormat::Sv)
    } else if s == "rs"@ {
        Some(RtlFormat::Rust)
    } else if s == "h"@ {
        Some(RtlFormat::CHeader)
    } else {
        None
    }
}

/// The format that a file extension stands for.
pub open spec fn format_of_extension(ext: Seq<char>) -> Option<RtlFormat> {
    let e = lowercase(ext);
    if e == "v"@ {
        Some(RtlFormat::Vh)
    } else if e == "svh"@ {
        Some(RtlFormat::Sv)
    } else {
        format_named(e)
    }
}

/// The format that an extension stands for, where there is one.
pub open spec fn format_by(ext: Option<Seq<char>>) -> Option<RtlFormat> {
    match ext {
        Some(e) => format_of_extension(e),
        None => None,
    }
}

impl RtlFormat {
    /// Read a format's name.
    pub fn parse(s: &str) -> (r: Result<RtlFormat>)
        ensures
            match r {
                Ok(f) => format_named(s@) == Some(f),
                Err(e) => format_named(s@) is None && e@ == ErrorView::Validation(
                    "unknown RTL format "@ + quoted(s@) + ": expected vh | sv | rs | h"@,
                ),
            },
    {
        if same_text(s, "vh") {
            Ok(RtlFormat::Vh)
        } else if same_text(s, "sv") {
            Ok(RtlFormat::Sv)
        } else if same_text(s, "rs") {
            Ok(RtlFormat::Rust)
        } else if same_text(s, "h") {
            Ok(RtlFormat::CHeader)
        } else {
            let q = quoted_text(s);
            Err(Error::Validation(cat3("unknown RTL format ", &q, ": expected vh | sv | rs | h")))
        }
    }

    /// The format of a file extension.
    pub fn from_extension(ext: &str) -> (r: Option<RtlFormat>)
        ensures
            r == format_of_extension(ext@),
    {
        let e = lowercase_text(ext);
        if same_text(&e, "v") {
            Some(RtlFormat::Vh)
        } else if same_text(&e, "svh") {
            Some(RtlFormat::Sv)
        } else if same_text(&e, "vh") {
            Some(RtlFormat::Vh)
        } else if same_text(&e, "sv") {
            Some(RtlFormat::Sv)
        } else if same_text(&e, "rs") {
            Some(RtlFormat::Rust)
        } else if same_text(&e, "h") {
            Some(RtlFormat::CHeader)
        } else {
            None
        }
    }

    /// The format that an output path's extension stands for, as the machine
    /// divides the path.
    pub fn from_path(path: &str) -> (r: Option<RtlFormat>)
        ensures
            exists|ext: Option<Seq<char>>| #[trigger]
                extension_is(path@, ext) && r == format_by(ext),
    {
        let ext = path_extension(path);
        assert(extension_is(path@, opt_text(ext)));
        match ext {
            Some(e) => RtlFormat::from_extension(&e),
            None => None,
        }
    }

    /// The format of an export: the one asked for, else the one that the
    /// output's extension stands for, else a Verilog header.
    pub fn selected(asked: Option<&str>, by_extension: Option<RtlFormat>) -> (r: Result<RtlFormat>)
        ensures
            match asked {
                Some(s) => match format_named(s@) {
                    Some(f) => r == Ok::<RtlFormat, Error>(f),
                    None => r matches Err(e) && e@ == ErrorView::Validation(
                        "unknown RTL format "@ + quoted(s@) + ": expected vh | sv | rs | h"@,
                    ),
                },
                None => r == Ok::<RtlFormat, Error>(
                    match by_extension {
                        Some(f) => f,
                        None => RtlFormat::Vh,
                    },
                ),
            },
    {
        match asked {
            Some(s) => RtlFormat::parse(s),
            None => match by_extension {
                Some(f) => Ok(f),
                None => Ok(RtlFormat::Vh),
            },
        }
    }
}

/// A stem, or the default one.
pub open spec fn stem_or_default(stem: Option<Seq<char>>) -> Seq<char> {
    match stem {
        Some(s) => s,
        None => "card_layout"@,
    }
}

/// The stem of an output: its file name's, as the machine divides the path, or
/// `card_layout`.
pub fn output_stem(path: &str) -> (r: String)
    ensures
        exists|stem: Option<Seq<char>>| #[trigger]
            stem_is(path@, stem) && r@ == stem_or_default(stem),
{
    let stem = path_stem(path);
    assert(stem_is(path@, opt_text(stem)));
    match stem {
        Some(s) => s,
        None => "card_layout".to_owned(),
    }
}

// ---------------------------------------------------------------------------
// Identifiers and numbers
// ---------------------------------------------------------------------------

/// `c` where it may stand in an identifier, else an underscore.
pub open spec fn ident_char(c: char) -> char {
    if is_alnum(c) {
        c
    } else {
        '_'
    }
}

/// A legal identifier made of a text: other characters become underscores, and
/// an underscore goes before a leading digit, or stands for an empty text.
pub open spec fn ident_of(s: Seq<char>) -> Seq<char> {
    let t = s.map_values(|c: char| ident_char(c));
    if s.len() == 0 || is_digit(s[0]) {
        "_"@ + t
    } else {
        t
    }
}

/// A legal identifier made of a text.
pub fn identifier(s: &str) -> (r: String)
    ensures
        r@ == ident_of(s@),
{
    let cs = chars_of(s);
    let mut out = String::new();
    let mut i: usize = 0;
    while i < cs.len()
        invariant
            i <= cs@.len(),
            cs@ == s@,
            out@ =~= s@.take(i as int).map_values(|c: char| ident_char(c)),
        decreases cs@.len() - i,
    {
        if alnum_here(cs[i]) {
            out.push(cs[i]);
        } else {
            out.push('_');
        }
        i = i + 1;
        assert(out@ =~= s@.take(i as int).map_values(|c: char| ident_char(c)));
    }
    assert(s@.take(i as int) =~= s@);
    if cs.len() == 0 || digit_here(cs[0]) {
        cat2("_", &out)
    } else {
        out
    }
}

pub open spec fn legal_ident(s: Seq<char>) -> bool {
    &&& s.len() > 0
    &&& !is_digit(s[0])
    &&& forall|i: int| 0 <= i < s.len() ==> is_alnum(#[trigger] s[i]) || s[i] == '_'
}

/// Whatever the stem, the package and guard names are legal identifiers.
pub proof fn identifiers_are_legal(s: Seq<char>)
    ensures
        legal_ident(ident_of(s)),
{
    reveal_strlit("_");
    let t = s.map_values(|c: char| ident_char(c));
    assert forall|i: int| 0 <= i < t.len() implies is_alnum(#[trigger] t[i]) || t[i] == '_' by {
        assert(t[i] == ident_char(s[i]));
    }
    let r = ident_of(s);
    if s.len() > 0 {
        assert(t[0] == ident_char(s[0]));
    }
    assert forall|i: int| 0 <= i < r.len() implies is_alnum(#[trigger] r[i]) || r[i] == '_' by {
        if s.len() == 0 || is_digit(s[0]) {
            if i > 0 {
                assert(r[i] == t[i - 1]);
            }
        } else {
            assert(r[i] == t[i]);
        }
    }
}

/// Eight hexadecimal digits in two groups: `0040_0000`.
pub open spec fn lba_digits(n: nat) -> Seq<char> {
    let h = zero_pad(hex_of(n), 8);
    h.take(4) + "_"@ + h.skip(4)
}

pub(crate) proof fn hex_is_short(n: nat, width: nat)
    requires
        n < pow16(width),
        width > 0,
    ensures
        hex_of(n).len() <= width,
    decreases width,
{
    if n >= 16 {
        assert(width > 1) by {
            if width == 1 {
                assert(pow16(1) == 16 * pow16(0));
            }
        }
        assert(n / 16 < pow16((width - 1) as nat)) by {
            assert(pow16(width) == 16 * pow16((width - 1) as nat));
        }
        hex_is_short(n / 16, (width - 1) as nat);
    }
}

pub open spec fn pow16(k: nat) -> nat
    decreases k,
{
    if k == 0 {
        1
    } else {
        16 * pow16((k - 1) as nat)
    }
}

fn lba_text(n: u32) -> (r: String)
    ensures
        r@ == lba_digits(n as nat),
{
    let h = hex_text(n as u64);
    let h = zero_padded(&h, 8);
    proof {
        reveal_with_fuel(pow16, 9);
        hex_is_short(n as nat, 8);
    }
    let cs = chars_of(&h);
    let a = string_of(&cs, 0, 4);
    let b = string_of(&cs, 4, 8);
    assert(a@ =~= h@.take(4));
    assert(b@ =~= h@.skip(4));
    cat3(&a, "_", &b)
}

/// How many bits hold `n`.
pub open spec fn bit_width(n: nat) -> nat
    decreases n,
{
    if n == 0 {
        0
    } else {
        1 + bit_width(n / 2)
    }
}

fn width_of(n: u32) -> (r: u32)
    ensures
        r == bit_width(n as nat),
        r <= n,
    decreases n,
{
    if n == 0 {
        0
    } else {
        1 + width_of(n / 2)
    }
}

/// The exponent of a power of two.
pub open spec fn exponent(n: int) -> nat {
    choose|k: nat| n == #[trigger] pow2(k)
}

proof fn exponent_is(n: int, k: nat)
    requires
        n == pow2(k),
    ensures
        exponent(n) == k,
{
    let e = exponent(n);
    assert(n == pow2(e));
    if e < k {
        lemma_pow2_strictly_increases(e, k);
    }
    if k < e {
        lemma_pow2_strictly_increases(k, e);
    }
}

// ---------------------------------------------------------------------------
// Parameters
// ---------------------------------------------------------------------------

/// The addressing constants of a bank.
#[derive(Debug, Clone, Copy, PartialEq, Eq, Structural)]
pub struct BankParams {
    pub base_lba: u32,
    pub slot_shift: u32,
    pub units: u32,
}

/// The constants of a bank, or why it has none: a slot must be a power of two of
/// sectors, and the base block must fit in 32 bits.
pub open spec fn params_of(b: BankView, sector: u32) -> std::result::Result<BankParams, ErrorView> {
    let lba = b.base as int / (sector as int);
    let blocks = b.slot_size as int / (sector as int);
    if b.slot_size as int % (sector as int) != 0 || !is_power(blocks) {
        Err(
            ErrorView::Validation(
                "bank "@ + quoted(b.name) + ": slot size "@ + bytes_text(b.slot_size)
                    + " is not a power of two of sectors; no SLOT_SHIFT can be given"@,
            ),
        )
    } else if lba > u32::MAX {
        Err(
            ErrorView::Validation(
                "bank "@ + quoted(b.name) + ": base "@ + bytes_text(b.base)
                    + " is past the reach of a 32-bit block address"@,
            ),
        )
    } else {
        Ok(
            BankParams {
                base_lba: lba as u32,
                slot_shift: exponent(blocks) as u32,
                units: b.units,
            },
        )
    }
}

/// The addressing constants of a bank.
pub fn bank_params(bank: &Bank, sector: u32) -> (r: Result<BankParams>)
    requires
        sector > 0,
    ensures
        match r {
            Ok(p) => params_of(bank@, sector) == Ok::<BankParams, ErrorView>(p),
            Err(e) => params_of(bank@, sector) == Err::<BankParams, ErrorView>(e@),
        },
{
    let blocks: u64 = bank.slot_size / sector as u64;
    let whole = bank.slot_size % sector as u64 == 0;
    let shift = match exponent_of(blocks) {
        Some(k) if whole => {
            proof {
                exponent_is(blocks as int, k as nat);
                assert(is_power(blocks as int));
            }
            k
        },
        _ => {
            let q = quoted_text(&bank.name);
            let size = format_bytes(bank.slot_size);
            return Err(
                Error::Validation(
                    cat5(
                        "bank ",
                        &q,
                        ": slot size ",
                        &size,
                        " is not a power of two of sectors; no SLOT_SHIFT can be given",
                    ),
                ),
            );
        },
    };
    let lba: u64 = bank.base / sector as u64;
    if lba > u32::MAX as u64 {
        let q = quoted_text(&bank.name);
        let base = format_bytes(bank.base);
        return Err(
            Error::Validation(
                cat5(
                    "bank ",
                    &q,
                    ": base ",
                    &base,
                    " is past the reach of a 32-bit block address",
                ),
            ),
        );
    }
    Ok(BankParams { base_lba: lba as u32, slot_shift: shift, units: bank.units })
}

// ---------------------------------------------------------------------------
// Export
// ---------------------------------------------------------------------------

/// `// Bank "rl": RL02 x 16, 16 MiB slots @ base 0 B`.
pub open spec fn bank_comment(b: BankView) -> Seq<char> {
    "// Bank \""@ + b.name + "\": "@ + (match b.drive_type {
        Some(t) => t.name + " x "@ + dec(b.units as nat),
        None => dec(b.units as nat) + " units"@,
    }) + ", "@ + bytes_text(b.slot_size) + " slots @ base "@ + bytes_text(b.base) + "\n"@
}

/// The three constants of a bank in a format, each on a line.
pub open spec fn constants(format: RtlFormat, name: Seq<char>, p: BankParams) -> Seq<char> {
    match format {
        RtlFormat::Rust => "pub const "@ + name + "_BASE_LBA: u32 = 0x"@ + lba_digits(
            p.base_lba as nat,
        ) + ";\npub const "@ + name + "_SLOT_SHIFT: u32 = "@ + dec(p.slot_shift as nat)
            + ";\npub const "@ + name + "_UNITS: u32 = "@ + dec(p.units as nat) + ";\n"@,
        RtlFormat::CHeader => "#define "@ + name + "_BASE_LBA 0x"@ + zero_pad(
            hex_of(p.base_lba as nat),
            8,
        ) + "u\n#define "@ + name + "_SLOT_SHIFT "@ + dec(p.slot_shift as nat) + "\n#define "@
            + name + "_UNITS "@ + dec(p.units as nat) + "\n"@,
        _ => "localparam "@ + name + "_BASE_LBA   = 32'h"@ + lba_digits(p.base_lba as nat)
            + ";\nlocalparam "@ + name + "_SLOT_SHIFT = "@ + dec(p.slot_shift as nat)
            + ";\nlocalparam "@ + name + "_UNITS      = "@ + dec(bit_width(p.units as nat)) + "'d"@
            + dec(p.units as nat) + ";\n"@,
    }
}

/// A bank's part of the export, behind an empty line.
pub open spec fn bank_part(format: RtlFormat, b: BankView, p: BankParams) -> Seq<char> {
    "\n"@ + bank_comment(b) + constants(format, uppercase(ident_of(b.name)), p)
}

/// The parts of the banks from `i` on, behind `acc`, in manifest order.
pub open spec fn parts_from(format: RtlFormat, layout: LayoutView, i: int, acc: Seq<char>) -> std::result::Result<
    Seq<char>,
    ErrorView,
>
    decreases layout.banks.len() - i,
{
    if i < 0 || i >= layout.banks.len() {
        Ok(acc)
    } else {
        match params_of(layout.banks[i], layout.sector_size) {
            Err(e) => Err(e),
            Ok(p) => parts_from(format, layout, i + 1, acc + bank_part(format, layout.banks[i], p)),
        }
    }
}

/// What every export begins with.
pub open spec fn head(format: RtlFormat, layout: LayoutView, stem: Seq<char>) -> Seq<char> {
    "// Generated by sdslot export-rtl; do not edit.\n// Sector size: "@ + dec(
        layout.sector_size as nat,
    ) + " bytes.\n"@ + (match format {
        RtlFormat::Sv => "\npackage "@ + ident_of(stem) + ";\n"@,
        RtlFormat::CHeader => "\n#ifndef "@ + uppercase(ident_of(stem)) + "_H\n#define "@
            + uppercase(ident_of(stem)) + "_H\n"@,
        _ => ""@,
    })
}

pub open spec fn tail(format: RtlFormat) -> Seq<char> {
    match format {
        RtlFormat::Sv => "\nendpackage\n"@,
        RtlFormat::CHeader => "\n#endif\n"@,
        _ => ""@,
    }
}

/// The whole export, or the first bank that has no constants.
pub open spec fn exported(format: RtlFormat, layout: LayoutView, stem: Seq<char>) -> std::result::Result<
    Seq<char>,
    ErrorView,
> {
    match parts_from(format, layout, 0, head(format, layout, stem)) {
        Ok(t) => Ok(t + tail(format)),
        Err(e) => Err(e),
    }
}

fn comment_text(b: &Bank) -> (r: String)
    ensures
        r@ == bank_comment(b@),
{
    let units = dec_text(b.units as u64);
    let what = match &b.drive_type {
        Some(t) => cat3(&t.name, " x ", &units),
        None => cat2(&units, " units"),
    };
    let size = format_bytes(b.slot_size);
    let base = format_bytes(b.base);
    let first = cat5("// Bank \"", &b.name, "\": ", &what, ", ");
    cat5(&first, &size, " slots @ base ", &base, "\n")
}

fn constants_text(format: RtlFormat, name: &str, p: &BankParams) -> (r: String)
    ensures
        r@ == constants(format, name@, *p),
{
    let lba = lba_text(p.base_lba);
    let shift = dec_text(p.slot_shift as u64);
    let units = dec_text(p.units as u64);
    match format {
        RtlFormat::Rust => {
            let a = cat5("pub const ", name, "_BASE_LBA: u32 = 0x", &lba, ";\npub const ");
            let b = cat5(&a, name, "_SLOT_SHIFT: u32 = ", &shift, ";\npub const ");
            cat5(&b, name, "_UNITS: u32 = ", &units, ";\n")
        },
        RtlFormat::CHeader => {
            let h = hex_text(p.base_lba as u64);
            let h = zero_padded(&h, 8);
            let a = cat5("#define ", name, "_BASE_LBA 0x", &h, "u\n#define ");
            let b = cat5(&a, name, "_SLOT_SHIFT ", &shift, "\n#define ");
            cat5(&b, name, "_UNITS ", &units, "\n")
        },
        _ => {
            let width = dec_text(width_of(p.units) as u64);
            let a = cat5("localparam ", name, "_BASE_LBA   = 32'h", &lba, ";\nlocalparam ");
            let b = cat5(&a, name, "_SLOT_SHIFT = ", &shift, ";\nlocalparam ");
            let c = cat5(&b, name, "_UNITS      = ", &width, "'d");
            cat3(&c, &units, ";\n")
        },
    }
}

fn head_text(format: RtlFormat, layout: &Layout, stem: &str) -> (r: String)
    ensures
        r@ == head(format, layout@, stem@),
{
    let n = dec_text(layout.sector_size as u64);
    let first = cat3(
        "// Generated by sdslot export-rtl; do not edit.\n// Sector size: ",
        &n,
        " bytes.\n",
    );
    let id = identifier(stem);
    let rest = match format {
        RtlFormat::Sv => cat3("\npackage ", &id, ";\n"),
        RtlFormat::CHeader => {
            let guard = uppercase_text(&id);
            cat5("\n#ifndef ", &guard, "_H\n#define ", &guard, "_H\n")
        },
        _ => "".to_owned(),
    };
    cat2(&first, &rest)
}

/// The layout's addressing constants in a format. Only these are exported: which
/// slots hold an image changes with every write.
pub fn export(layout: &Layout, format: RtlFormat, stem: &str) -> (r: Result<String>)
    requires
        layout.sector_size > 0,
    ensures
        match r {
            Ok(t) => exported(format, layout@, stem@) == Ok::<Seq<char>, ErrorView>(t@),
            Err(e) => exported(format, layout@, stem@) == Err::<Seq<char>, ErrorView>(e@),
        },
{
    let mut out = head_text(format, layout, stem);
    let ghost total = parts_from(format, layout@, 0, out@);
    let mut i: usize = 0;
    while i < layout.banks.len()
        invariant
            i <= layout.banks@.len(),
            layout.sector_size > 0,
            total == parts_from(format, layout@, 0, head(format, layout@, stem@)),
            total == parts_from(format, layout@, i as int, out@),
        decreases layout.banks@.len() - i,
    {
        let bank = &layout.banks[i];
        assert(layout@.banks[i as int] == bank@);
        let p = match bank_params(bank, layout.sector_size) {
            Ok(p) => p,
            Err(e) => {
                return Err(e);
            },
        };
        let comment = comment_text(bank);
        let id = identifier(&bank.name);
        let name = uppercase_text(&id);
        let body = constants_text(format, &name, &p);
        let part = cat3("\n", &comment, &body);
        out.append(&part);
        i = i + 1;
    }
    let end = match format {
        RtlFormat::Sv => "\nendpackage\n",
        RtlFormat::CHeader => "\n#endif\n",
        _ => "",
    };
    out.append(end);
    Ok(out)
}

// ---------------------------------------------------------------------------
// Laws
// ---------------------------------------------------------------------------

/// The exported constants address every block of every slot of a layout that
/// keeps the alignment rules, with no adder:
/// `lba = BASE_LBA | (unit << SLOT_SHIFT) | block`.
pub proof fn exported_constants_address_slots(
    b: BankView,
    sector: u32,
    p: BankParams,
    unit: u32,
    block: u64,
)
    requires
        b.valid(sector, false),
        is_power(sector as int),
        params_of(b, sector) == Ok::<BankParams, ErrorView>(p),
        unit < b.units,
        block < b.slot_size / (sector as u64),
    ensures
        p.base_lba * sector == b.base,
        pow2(p.slot_shift as nat) * sector == b.slot_size,
        unit * pow2(p.slot_shift as nat) <= u64::MAX,
        (p.base_lba as u64) | ((unit * pow2(p.slot_shift as nat)) as u64) | block == b.offset_of(
            unit as int,
        ) / (sector as int) + block,
{
    let blocks = b.slot_size as int / (sector as int);
    crate::powers::power_positive(sector as int);
    let k = exponent(blocks);
    assert(blocks == pow2(k));
    assert(k < 64) by {
        vstd::arithmetic::power2::lemma2_to64();
        vstd::arithmetic::power2::lemma2_to64_rest();
        if k >= 64 {
            if k > 64 {
                lemma_pow2_strictly_increases(64, k);
            }
            assert(blocks <= b.slot_size) by (nonlinear_arith)
                requires
                    blocks == b.slot_size as int / (sector as int),
                    sector > 0,
            ;
        }
    }
    assert(blocks * sector == b.slot_size) by (nonlinear_arith)
        requires
            blocks == b.slot_size as int / (sector as int),
            b.slot_size as int % (sector as int) == 0,
            sector > 0,
    ;
    let lba = b.base as int / (sector as int);
    assert(lba * sector == b.base) by (nonlinear_arith)
        requires
            lba == b.base as int / (sector as int),
            b.base as int % (sector as int) == 0,
            sector > 0,
    ;
    assert(lba >= 0) by (nonlinear_arith)
        requires
            lba == b.base as int / (sector as int),
            b.base >= 0,
            sector > 0,
    ;
    block_address_needs_no_adder(b, sector, unit, block);
}

/// The unit count is emitted at its minimum width: that many bits hold it, and
/// one fewer do not.
pub proof fn units_width_is_least(n: nat)
    ensures
        n < pow2(bit_width(n)),
        n > 0 ==> pow2((bit_width(n) - 1) as nat) <= n,
    decreases n,
{
    vstd::arithmetic::power2::lemma2_to64();
    if n > 0 {
        units_width_is_least(n / 2);
        vstd::arithmetic::power2::lemma_pow2_unfold(bit_width(n));
        if n / 2 > 0 {
            vstd::arithmetic::power2::lemma_pow2_unfold(bit_width(n / 2));
        }
    }
}

/// Every bank of a resolved layout that keeps the alignment rules, and starts within
/// the reach of a 32-bit block address, has constants.
pub proof fn aligned_banks_have_constants(b: BankView, sector: u32)
    requires
        b.valid(sector, false),
        is_power(sector as int),
        b.base as int / (sector as int) <= u32::MAX,
    ensures
        params_of(b, sector) is Ok,
{
    crate::powers::power_positive(sector as int);
    let s = b.slot_size as int;
    let q = sector as int;
    assert(s >= q) by (nonlinear_arith)
        requires
            s > 0,
            q > 0,
            s % q == 0,
    ;
    let i = choose|i: nat| s == #[trigger] pow2(i);
    let j = choose|j: nat| q == #[trigger] pow2(j);
    if i < j {
        lemma_pow2_strictly_increases(i, j);
    }
    vstd::arithmetic::power2::lemma_pow2_adds(j, (i - j) as nat);
    let d = pow2((i - j) as nat) as int;
    assert(s / q == d) by (nonlinear_arith)
        requires
            s == q * d,
            q > 0,
    ;
    assert(is_power(d));
}

} // verus!
