//! What errors say.

use vstd::prelude::*;

use crate::cli::rules::bad_chunk;
use crate::engine::plan::WriteJobView;
use crate::engine::read::file_failure;
use crate::engine::session::{
    job_fault, range_text, sector_mismatch, size_note, slot_text,
};
use crate::engine::verify::{hash_failure, mismatch, HashFailure};
use crate::engine::write::{shrank, suspect};
use crate::error::ErrorView;
use crate::gui::args::unknown_theme;
use crate::laws::commands::has_part;
use crate::laws::views::{grow, regroup};
use crate::layout::{bad_ref, BankView, LayoutView};
use crate::manifest::{region_text, Region};
use crate::text::{dec, hex_of, quoted};
use crate::toc::oversize;
use crate::units::{bad_size, bytes_text};

verus! {

/// The text tells the bytes from `start` up to `end`, in hexadecimal.
pub open spec fn tells_range(t: Seq<char>, start: int, end: int) -> bool {
    has_part(t, "0x"@ + hex_of(start as nat) + "..0x"@ + hex_of(end as nat))
}

/// The text tells a slot as `bank:unit`.
pub open spec fn tells_unit(t: Seq<char>, bank: Seq<char>, unit: u32) -> bool {
    has_part(t, bank + ":"@ + dec(unit as nat))
}

// ---------------------------------------------------------------------------
// Writing
// ---------------------------------------------------------------------------

/// A write that fails on the device says why, and which bytes of which slot may
/// hold anything: those of the piece that was being written.
pub proof fn failed_writes_tell_the_suspect_bytes(
    why: ErrorView,
    j: WriteJobView,
    done: int,
    len: int,
)
    ensures
        ({
            let t = suspect(why, j, done, len)->Device_0;
            &&& suspect(why, j, done, len) is Device
            &&& has_part(t, why.text())
            &&& tells_range(t, j.extent.offset + done, j.extent.offset + done + len)
            &&& tells_unit(t, j.bank, j.unit)
        }),
{
    let a = hex_of((j.extent.offset + done) as nat);
    let b = hex_of((j.extent.offset + done + len) as nat);
    let w = why.text();
    let r = "0x"@ + a + "..0x"@ + b;
    let slot = slot_text(j.bank, j.unit);
    let x = "; suspect byte range "@;
    suspect_words();
    grow(w, x);
    grow(w + x, r);
    grow(w + x + r, " of slot "@);
    grow(w + x + r + " of slot "@, slot);
    regroup(w, x, "0x"@);
    regroup(w + x, "0x"@ + a + "..0x"@, b);
    regroup(w + x, "0x"@ + a, "..0x"@);
    regroup(w + x, "0x"@, a);
}

proof fn suspect_words()
    ensures
        "; suspect byte range 0x"@ == "; suspect byte range "@ + "0x"@,
{
    reveal_strlit("; suspect byte range 0x");
    reveal_strlit("; suspect byte range ");
    reveal_strlit("0x");
    assert("; suspect byte range 0x"@ =~= "; suspect byte range "@ + "0x"@);
}

/// An image that ended early is told by its path, with how much of it was read
/// and how much there should have been.
pub proof fn short_images_are_told(j: WriteJobView, read: int)
    ensures
        ({
            let t = shrank(j, read)->Validation_0;
            &&& shrank(j, read) is Validation
            &&& has_part(t, j.image)
            &&& has_part(t, dec(read as nat) + " of "@ + dec(j.image_len as nat) + " bytes"@)
        }),
{
    let a = dec(read as nat);
    let b = dec(j.image_len as nat);
    let head = "image "@ + j.image;
    let mid = " shrank while being written (read "@;
    let part = a + " of "@ + b + " bytes"@;
    bytes_words();
    grow("image "@, j.image);
    grow(head, mid);
    grow(head + mid, part);
    grow(head + mid + part, ")"@);
    regroup(head + mid, a + " of "@ + b, " bytes"@);
    regroup(head + mid, a + " of "@, b);
    regroup(head + mid, a, " of "@);
    regroup(head + mid + a + " of "@ + b, " bytes"@, ")"@);
}

proof fn bytes_words()
    ensures
        " bytes)"@ == " bytes"@ + ")"@,
        " bytes) exceeds the "@ == " bytes"@ + ") exceeds the "@,
        ") extends past the device capacity ("@ == ")"@ + " extends past the device capacity ("@,
{
    reveal_strlit(" bytes)");
    reveal_strlit(" bytes");
    reveal_strlit(")");
    assert(" bytes)"@ =~= " bytes"@ + ")"@);
    reveal_strlit(" bytes) exceeds the ");
    reveal_strlit(") exceeds the ");
    assert(" bytes) exceeds the "@ =~= " bytes"@ + ") exceeds the "@);
    reveal_strlit(") extends past the device capacity (");
    reveal_strlit(" extends past the device capacity (");
    assert(") extends past the device capacity ("@ =~= ")"@
        + " extends past the device capacity ("@);
}

/// An image that is too long for its slot is told by its path and length, with
/// the slot and its size.
pub proof fn oversized_images_are_told(
    layout: LayoutView,
    j: WriteJobView,
    capacity: u64,
    growable: bool,
    strict: bool,
)
    requires
        j.image_len > j.extent.len,
    ensures
        ({
            let f = job_fault(layout, j, capacity, growable, strict);
            &&& f is Some
            &&& f->0 is Validation
            &&& has_part(f->0->Validation_0, j.image)
            &&& has_part(f->0->Validation_0, dec(j.image_len as nat) + " bytes"@)
            &&& has_part(f->0->Validation_0, bytes_text(j.extent.len))
            &&& tells_unit(f->0->Validation_0, j.bank, j.unit)
        }),
{
    let n = dec(j.image_len as nat);
    let a = "image "@ + j.image + " ("@;
    let part = n + " bytes"@;
    let size = bytes_text(j.extent.len);
    let slot = slot_text(j.bank, j.unit);
    let x = ") exceeds the "@;
    bytes_words();
    grow("image "@, j.image);
    grow("image "@ + j.image, " ("@);
    grow(a, part);
    grow(a + part, x);
    grow(a + part + x, size);
    grow(a + part + x + size, " slot "@);
    grow(a + part + x + size + " slot "@, slot);
    regroup(a, n, " bytes"@);
    regroup(a + n, " bytes"@, x);
}

/// A slot that the device has no room for is told with its bytes and the
/// device's capacity.
pub proof fn slots_past_the_device_are_told(
    layout: LayoutView,
    j: WriteJobView,
    capacity: u64,
    strict: bool,
)
    requires
        j.image_len <= j.extent.len,
        j.extent.offset + j.extent.len > capacity,
    ensures
        ({
            let f = job_fault(layout, j, capacity, false, strict);
            &&& f is Some
            &&& f->0 is Validation
            &&& tells_unit(f->0->Validation_0, j.bank, j.unit)
            &&& tells_range(
                f->0->Validation_0,
                j.extent.offset as int,
                j.extent.offset + j.extent.len,
            )
            &&& has_part(f->0->Validation_0, bytes_text(capacity))
        }),
{
    let slot = slot_text(j.bank, j.unit);
    let r = range_text(j.extent);
    let cap = bytes_text(capacity);
    let x = ") extends past the device capacity ("@;
    let a = "slot "@ + slot;
    grow("slot "@, slot);
    grow(a, " (bytes "@);
    grow(a + " (bytes "@, r);
    grow(a + " (bytes "@ + r, x);
    grow(a + " (bytes "@ + r + x, cap);
    grow(a + " (bytes "@ + r + x + cap, ")"@);
}

/// A slot that reads back otherwise is told with the hash that was read and the
/// one that was expected.
pub proof fn mismatches_tell_both_hashes(j: WriteJobView, actual: Seq<char>, expect: Seq<char>)
    ensures
        ({
            let t = mismatch(j, actual, expect)->VerifyMismatch_0;
            &&& mismatch(j, actual, expect) is VerifyMismatch
            &&& tells_unit(t, j.bank, j.unit)
            &&& has_part(t, "SHA-256 "@ + actual)
            &&& has_part(t, "expected "@ + expect)
        }),
{
    let slot = slot_text(j.bank, j.unit);
    mismatch_words();
    let a = "slot "@ + slot;
    let b = a + " read back with "@;
    let p = "SHA-256 "@ + actual;
    let q = "expected "@ + expect;
    grow("slot "@, slot);
    grow(a, " read back with "@);
    grow(b, p);
    grow(b + p, ", "@);
    grow(b + p + ", "@, q);
    regroup(a, " read back with "@, "SHA-256 "@);
    regroup(b, "SHA-256 "@, actual);
    regroup(b + p, ", "@, "expected "@);
    regroup(b + p + ", "@, "expected "@, expect);
}

proof fn mismatch_words()
    ensures
        " read back with SHA-256 "@ == " read back with "@ + "SHA-256 "@,
        ", expected "@ == ", "@ + "expected "@,
{
    reveal_strlit(" read back with SHA-256 ");
    reveal_strlit(" read back with ");
    reveal_strlit("SHA-256 ");
    assert(" read back with SHA-256 "@ =~= " read back with "@ + "SHA-256 "@);
    reveal_strlit(", expected ");
    reveal_strlit(", ");
    reveal_strlit("expected ");
    assert(", expected "@ =~= ", "@ + "expected "@);
}

/// A note on an image of another size tells the image, its length, the drive type
/// and the type's size.
pub proof fn size_notes_tell_both_sizes(j: WriteJobView, t: crate::drive_types::DriveTypeView)
    ensures
        has_part(size_note(j, t), j.image),
        has_part(size_note(j, t), " is "@ + dec(j.image_len as nat) + " bytes but the canonical "@),
        has_part(size_note(j, t), t.name),
        has_part(size_note(j, t), " image is "@ + dec(t.image_bytes as nat) + " bytes"@),
{
    let a = "image "@ + j.image;
    let n = dec(j.image_len as nat);
    let m = dec(t.image_bytes as nat);
    let w = " bytes but the canonical "@;
    let p = " is "@ + n + w;
    let q = " image is "@ + m + " bytes"@;
    grow("image "@, j.image);
    grow(a, p);
    grow(a + p, t.name);
    grow(a + p + t.name, q);
    regroup(a, " is "@ + n, w);
    regroup(a, " is "@, n);
    regroup(a + p + t.name, " image is "@ + m, " bytes"@);
    regroup(a + p + t.name, " image is "@, m);
}

// ---------------------------------------------------------------------------
// Refusals
// ---------------------------------------------------------------------------

/// A device whose sectors are not the manifest's is told with both sizes.
pub proof fn sector_mismatches_tell_both_sizes(device: u32, manifest: u32)
    ensures
        ({
            let t = sector_mismatch(device, manifest)->Validation_0;
            &&& sector_mismatch(device, manifest) is Validation
            &&& has_part(t, "device sector size "@ + dec(device as nat))
            &&& has_part(t, "manifest sector_size "@ + dec(manifest as nat))
        }),
{
    let a = "device sector size "@ + dec(device as nat);
    let b = "manifest sector_size "@ + dec(manifest as nat);
    sector_words();
    grow(a, " does not match "@);
    grow(a + " does not match "@, b);
    regroup(a, " does not match "@, "manifest sector_size "@);
    regroup(a + " does not match "@, "manifest sector_size "@, dec(manifest as nat));
}

proof fn sector_words()
    ensures
        " does not match manifest sector_size "@ == " does not match "@
            + "manifest sector_size "@,
{
    reveal_strlit(" does not match manifest sector_size ");
    reveal_strlit(" does not match ");
    reveal_strlit("manifest sector_size ");
    assert(" does not match manifest sector_size "@ =~= " does not match "@
        + "manifest sector_size "@);
}

/// What could not be read is quoted: a size, a slot reference, a theme. A table
/// that is too large is told with its length, and a chunk size with the sector's.
pub proof fn refusals_quote_what_was_given(s: Seq<char>, n: nat, sector: u32)
    ensures
        bad_size(s) is Validation && has_part(bad_size(s)->Validation_0, quoted(s)),
        bad_ref(s) is Validation && has_part(bad_ref(s)->Validation_0, quoted(s)),
        has_part(unknown_theme(s), quoted(s)),
        oversize(n) is Validation && has_part(oversize(n)->Validation_0, dec(n)),
        bad_chunk(sector) is Validation && has_part(
            bad_chunk(sector)->Validation_0,
            dec(sector as nat),
        ),
{
    let q = quoted(s);
    grow("cannot parse size "@, q);
    grow(
        "cannot parse size "@ + q,
        ": expected bytes, a KiB/MiB/GiB/TiB suffix, or \"NNNs\" LBAs"@,
    );
    grow("bad slot reference "@, q);
    grow("bad slot reference "@ + q, ": expected [bank:]unit"@);
    grow("unknown theme "@, q);
    grow("unknown theme "@ + q, ": expected default | pdp"@);
    grow("TOC payload ("@, dec(n));
    grow("TOC payload ("@ + dec(n), " bytes) exceeds the 131072-byte TOC region"@);
    let c = "--chunk-size must be a nonzero multiple of the "@;
    grow(c, dec(sector as nat));
    grow(c + dec(sector as nat), "-byte sector, at most 512 MiB"@);
}

/// A file that could not be used is told by its path and what the host said.
pub proof fn file_failures_tell_the_path(
    what: Seq<char>,
    path: Seq<char>,
    said: Seq<char>,
    f: HashFailure,
)
    ensures
        file_failure(what, path, said) is Validation,
        has_part(file_failure(what, path, said)->Validation_0, path),
        has_part(file_failure(what, path, said)->Validation_0, said),
        hash_failure(path, f) is Validation,
        has_part(hash_failure(path, f)->Validation_0, path),
        match f {
            HashFailure::Open(s) => has_part(hash_failure(path, f)->Validation_0, s@),
            HashFailure::Read(s) => has_part(hash_failure(path, f)->Validation_0, s@),
        },
{
    grow(what, path);
    grow(what + path, ": "@);
    grow(what + path + ": "@, said);
    let (w, s) = match f {
        HashFailure::Open(s) => ("cannot open "@, s@),
        HashFailure::Read(s) => ("read error in "@, s@),
    };
    grow(w, path);
    grow(w + path, ": "@);
    grow(w + path + ": "@, s);
}

/// A region of a layout is told by its bank's name, or as the table's, and by its
/// bytes.
pub proof fn regions_are_told_by_name_and_bytes(banks: Seq<BankView>, r: Region)
    ensures
        r.0 < banks.len() ==> has_part(region_text(banks, r), quoted(banks[r.0 as int].name)),
        r.0 >= banks.len() ==> has_part(region_text(banks, r), "TOC region"@),
        tells_range(region_text(banks, r), r.1.offset as int, r.1.offset + r.1.len),
{
    let label = crate::manifest::region_label(banks, r.0 as int);
    let a = hex_of(r.1.offset as nat);
    let b = hex_of(r.1.limit() as nat);
    let p = "0x"@ + a + "..0x"@ + b;
    region_words();
    if r.0 < banks.len() {
        grow("bank "@, quoted(banks[r.0 as int].name));
    }
    grow(label, " ("@);
    grow(label + " ("@, p);
    grow(label + " ("@ + p, ")"@);
    regroup(label, " ("@, "0x"@);
    regroup(label + " ("@, "0x"@ + a + "..0x"@, b);
    regroup(label + " ("@, "0x"@ + a, "..0x"@);
    regroup(label + " ("@, "0x"@, a);
}

proof fn region_words()
    ensures
        " (0x"@ == " ("@ + "0x"@,
{
    reveal_strlit(" (0x");
    reveal_strlit(" (");
    reveal_strlit("0x");
    assert(" (0x"@ =~= " ("@ + "0x"@);
}

} // verus!
