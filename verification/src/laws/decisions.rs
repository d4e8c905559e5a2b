//! What single decisions come to, whatever they are asked.

use vstd::prelude::*;

use crate::cli::rules::{
    check_answer, check_ejectable, check_image_output, device_event, read_outputs, verify_report,
    ReadOutputs,
};
use crate::device::{names_platform_device, DeviceInfo};
use crate::engine::plan::ImageFacts;
use crate::error::{Error, Result};
use crate::events::{Event, EventView};
use crate::gui::backend::{connected_args, needs_elevation, piped_args, CliCommand};
use crate::gui::card::bank_overflows;
use crate::gui::ops::SlotView;
use crate::gui::rows::{missing_image, ready_for_ops, row_name};
use crate::laws::plans::{is_file, names_image};
use crate::layout::{Bank, Layout};
use crate::platform::{mac_device, sort_devices, text_at_most, DiskutilInfo};
use crate::rtl::RtlFormat;
use crate::text::{opt_text, texts, trim};

verus! {

// ---------------------------------------------------------------------------
// The command line
// ---------------------------------------------------------------------------

/// A plan goes on after no answer but `yes`, blanks around it aside.
pub proof fn only_yes_goes_on(line: &str, r: Result<()>)
    requires
        call_ensures(check_answer, (line,), r),
    ensures
        r is Ok <==> trim(line@) == "yes"@,
{
}

/// What names a raw device can be ejected, and nothing else.
pub proof fn only_devices_are_ejected(device: &str, r: Result<()>)
    requires
        call_ensures(check_ejectable, (device,), r),
    ensures
        r is Ok <==> names_platform_device(device@),
{
}

/// A flat image may be assembled in a file that does not exist, or in one that
/// does if that was confirmed, and never on a raw device.
pub proof fn images_do_not_overwrite_unasked(
    out: &str,
    exists_already: bool,
    yes: bool,
    r: Result<()>,
)
    requires
        call_ensures(check_image_output, (out, exists_already, yes), r),
    ensures
        names_platform_device(out@) ==> r is Err,
        exists_already && !yes ==> r is Err,
        !names_platform_device(out@) && (yes || !exists_already) ==> r is Ok,
{
}

/// A verify is well exactly when no slot differs; else it is a mismatch.
pub proof fn verdicts_count_every_difference(mismatches: &Vec<String>, r: Result<()>)
    requires
        call_ensures(verify_report, (mismatches,), r),
    ensures
        r is Ok <==> mismatches@.len() == 0,
        r matches Err(e) ==> e@ is VerifyMismatch,
{
}

/// The event of a listed device says of it all that is listed.
pub proof fn device_events_tell_the_device(d: &DeviceInfo, r: Event)
    requires
        call_ensures(device_event, (d,), r),
    ensures
        r@ matches EventView::Device { path, model, bus, size_bytes, removable, system } && path
            == d.path@ && model == d.model@ && bus == d.bus@ && size_bytes == d.size_bytes
            && removable == d.removable && system == d.system,
{
}

/// One output file is for one slot alone; a directory takes a file for every
/// slot; and one of both must be given, the file counting first.
pub proof fn outputs_fit_the_slots(
    layout: &Layout,
    slots: &Vec<(usize, u32)>,
    out: Option<&str>,
    out_dir: Option<&str>,
    r: Result<ReadOutputs>,
)
    requires
        call_ensures(read_outputs, (layout, slots, out, out_dir), r),
    ensures
        r is Ok <==> (out is Some && slots@.len() == 1) || (out is None && out_dir is Some),
        out is Some && r is Ok ==> (r->Ok_0 matches ReadOutputs::File(f) && f@ == out->0@),
        out is None && r is Ok ==> (r->Ok_0 matches ReadOutputs::Dir(d, names) && d@ == out_dir->0@
            && texts(names@).len() == slots@.len()),
{
}

/// An export has the format that was asked for; without one the format that the
/// output's extension stands for, or else a Verilog header. Only an unknown
/// format that was asked for is refused.
pub proof fn asked_formats_come_first(
    asked: Option<&str>,
    by_extension: Option<RtlFormat>,
    r: Result<RtlFormat>,
)
    requires
        call_ensures(RtlFormat::selected, (asked, by_extension), r),
    ensures
        asked is None && by_extension is Some ==> r == Ok::<RtlFormat, Error>(by_extension->0),
        asked is None && by_extension is None ==> r == Ok::<RtlFormat, Error>(RtlFormat::Vh),
        asked matches Some(s) ==> {
            &&& r == Ok::<RtlFormat, Error>(RtlFormat::Vh) <==> s@ == "vh"@
            &&& r == Ok::<RtlFormat, Error>(RtlFormat::Sv) <==> s@ == "sv"@
            &&& r == Ok::<RtlFormat, Error>(RtlFormat::Rust) <==> s@ == "rs"@
            &&& r == Ok::<RtlFormat, Error>(RtlFormat::CHeader) <==> s@ == "h"@
            &&& r is Err <==> s@ != "vh"@ && s@ != "sv"@ && s@ != "rs"@ && s@ != "h"@
        },
{
    format_words();
}

proof fn format_words()
    ensures
        "vh"@ != "sv"@,
        "vh"@ != "rs"@,
        "sv"@ != "rs"@,
        "vh"@.len() == 2,
        "sv"@.len() == 2,
        "rs"@.len() == 2,
        "h"@.len() == 1,
        "v"@.len() == 1,
        "svh"@.len() == 3,
        "h"@ != "v"@,
{
    reveal_strlit("vh");
    reveal_strlit("sv");
    reveal_strlit("rs");
    reveal_strlit("h");
    reveal_strlit("v");
    reveal_strlit("svh");
    assert("vh"@[0] == 'v' && "sv"@[0] == 's' && "rs"@[0] == 'r' && "h"@[0] == 'h' && "v"@[0]
        == 'v');
}

/// A file extension stands for a format in any case: those of Verilog for its
/// header, those of SystemVerilog for its package, and those of Rust and C.
pub proof fn extensions_stand_for_formats(ext: Seq<char>)
    ensures
        ({
            let e = crate::text::lowercase(ext);
            let f = crate::rtl::format_of_extension(ext);
            &&& f == Some(RtlFormat::Vh) <==> e == "v"@ || e == "vh"@
            &&& f == Some(RtlFormat::Sv) <==> e == "sv"@ || e == "svh"@
            &&& f == Some(RtlFormat::Rust) <==> e == "rs"@
            &&& f == Some(RtlFormat::CHeader) <==> e == "h"@
        }),
{
    format_words();
}

// ---------------------------------------------------------------------------
// Frontends
// ---------------------------------------------------------------------------

/// Elevated rights are needed for raw devices alone.
pub proof fn only_devices_need_elevation(device_arg: Option<&str>, r: bool)
    requires
        call_ensures(needs_elevation, (device_arg,), r),
    ensures
        r <==> device_arg is Some && names_platform_device(device_arg->0@),
{
}

/// Operations start only while none runs, with a layout and with a target.
pub proof fn operations_need_layout_and_target(
    busy: bool,
    has_layout: bool,
    has_target: bool,
    r: bool,
)
    requires
        call_ensures(ready_for_ops, (busy, has_layout, has_target), r),
    ensures
        r ==> !busy && has_layout && has_target,
        !r ==> busy || !has_layout || !has_target,
{
}

/// A row has the name that the card records, or else the manifest's.
pub proof fn recorded_names_come_first(
    shown: Option<&SlotView>,
    bank: &Bank,
    unit: u32,
    r: Option<String>,
)
    requires
        call_ensures(row_name, (shown, bank, unit), r),
    ensures
        shown is Some && shown->0@.name is Some ==> opt_text(r) == shown->0@.name,
        !(shown is Some && shown->0@.name is Some) ==> {
            let b = bank@;
            &&& b.slots.dom().contains(unit) ==> opt_text(r) == b.slots[unit].name
            &&& !b.slots.dom().contains(unit) ==> r is None
        },
{
}

/// An image is missing when the manifest names it and it is no regular file.
pub proof fn missing_images_are_named(
    bank: &Bank,
    unit: u32,
    facts: &ImageFacts,
    r: Option<String>,
)
    requires
        call_ensures(missing_image, (bank, unit, facts), r),
        unit < bank@.units,
    ensures
        r matches Some(p) ==> names_image(bank@, unit, p@) && forall|n: u64|
            !is_file(*facts, p@, n),
        r is None ==> forall|path: Seq<char>| #[trigger]
            names_image(bank@, unit, path) ==> exists|n: u64| is_file(*facts, path, n),
{
    if bank@.image_of(unit) is Some {
        let path = bank@.image_of(unit)->0;
        crate::laws::plans::facts_are_first(*facts, path);
    }
}

/// A bank overflows a card when it ends behind the card's last byte.
pub proof fn overflowing_banks_end_behind_the_card(bank: &Bank, capacity: u64, r: bool)
    requires
        call_ensures(bank_overflows, (bank, capacity), r),
    ensures
        r <==> bank@.base + bank@.slot_size * bank@.units > capacity,
{
}

/// A command is launched with its arguments and, behind them, how its events
/// come back.
pub proof fn launches_add_the_event_channel(
    cmd: &CliCommand,
    address: &str,
    piped: Vec<String>,
    connected: Vec<String>,
)
    requires
        call_ensures(piped_args, (cmd,), piped),
        call_ensures(connected_args, (cmd, address), connected),
    ensures
        ({
            let n = cmd@.args().len() as int;
            &&& texts(piped@).take(n) == cmd@.args()
            &&& piped@.len() == n + 1
            &&& piped@[n]@ == "--json"@
            &&& texts(connected@).take(n) == cmd@.args()
            &&& connected@.len() == n + 2
            &&& connected@[n]@ == "--json-port"@
            &&& connected@[n + 1]@ == address@
        }),
{
    let n = cmd@.args().len() as int;
    assert(texts(piped@).len() == piped@.len());
    assert(texts(connected@).len() == connected@.len());
    assert(texts(piped@).take(n) =~= cmd@.args());
    assert(texts(connected@).take(n) =~= cmd@.args());
    assert(texts(piped@)[n] == piped@[n]@);
    assert(texts(connected@)[n] == connected@[n]@);
    assert(texts(connected@)[n + 1] == connected@[n + 1]@);
}

// ---------------------------------------------------------------------------
// Devices
// ---------------------------------------------------------------------------

/// A disk of macOS is listed by its raw path with what is known of it, unless it
/// is virtual; it is the system disk exactly when it has that name.
pub proof fn mac_disks_are_listed(
    name: &str,
    info: DiskutilInfo,
    system: &Option<String>,
    r: Option<DeviceInfo>,
)
    requires
        call_ensures(mac_device, (name, info, system), r),
    ensures
        r is None <==> info.virtual_device,
        r matches Some(d) ==> {
            &&& d.path@ == "/dev/r"@ + name@
            &&& d.model@ == info.model@
            &&& d.bus@ == info.bus@
            &&& d.size_bytes == info.size_bytes
            &&& d.removable == info.removable
            &&& d.sector_size is None
            &&& d.system <==> system is Some && system->0@ == name@
        },
{
}

/// Sorting a device list loses no device and adds none, and puts the paths in
/// the order of their characters.
pub proof fn sorting_keeps_every_device(
    devices: Vec<DeviceInfo>,
    r: Vec<DeviceInfo>,
    d: DeviceInfo,
)
    requires
        call_ensures(sort_devices, (devices,), r),
    ensures
        r@.to_multiset().count(d) == devices@.to_multiset().count(d),
        forall|i: int, j: int|
            0 <= i < j < r@.len() ==> text_at_most(
                (#[trigger] r@[i]).path@,
                (#[trigger] r@[j]).path@,
            ),
{
}

/// Texts are ordered by the first character in which they differ; a text comes
/// before its continuations.
pub proof fn texts_are_ordered_by_their_first_difference(
    front: Seq<char>,
    a: char,
    b: char,
    x: Seq<char>,
    y: Seq<char>,
)
    ensures
        text_at_most(front, front + x),
        a < b ==> text_at_most(front + (seq![a] + x), front + (seq![b] + y)) && !text_at_most(
            front + (seq![b] + y),
            front + (seq![a] + x),
        ),
    decreases front.len(),
{
    let s = seq![a] + x;
    let t = seq![b] + y;
    if front.len() > 0 {
        let rest = front.skip(1);
        texts_are_ordered_by_their_first_difference(rest, a, b, x, y);
        assert((front + x).skip(1) =~= rest + x);
        assert((front + s).skip(1) =~= rest + s);
        assert((front + t).skip(1) =~= rest + t);
        assert((front + s)[0] == front[0] && (front + t)[0] == front[0]);
        assert((front + x)[0] == front[0]);
    } else {
        assert(front + s =~= s);
        assert(front + t =~= t);
        assert(s[0] == a && t[0] == b);
    }
}

} // verus!
