//! Which commands a graphical frontend runs, and what it shows of a card.

use vstd::prelude::*;

use crate::engine::plan::PlanSummaryItemView;
use crate::events::OpKind;
use crate::gui::backend::{flag, option, shell_quoted, slot_options, CliCommandView};
use crate::gui::card::{highlighted, scale_of, smallest_card};
use crate::gui::dialogs::{
    ejects, present, planned_views, slot_names, writes_of, Modal, ModalOutcomeView,
    PlannedWriteView,
};
use crate::gui::log::logged;
use crate::gui::ops::{applied, GuiMsgView, LogMsgView, OpFoldView, ViewState};
use crate::gui::options::{Options, Warning};
use crate::gui::poll::{fold_all, lines_all, updates_all};
use crate::gui::rows::{bar_bytes, state_text};
use crate::gui::slots::key_views;
use crate::gui::target::TargetView;
use crate::laws::layouts::slots_lie_at_their_unit;
use crate::layout::{bank_named, LayoutView};
use crate::search::first_where_is;
use crate::text::{dec, is_space};

verus! {

// ---------------------------------------------------------------------------
// Command lines
// ---------------------------------------------------------------------------

/// Every slot is an option of its own, in order.
pub proof fn slots_are_passed_in_order(slots: Seq<Seq<char>>)
    ensures
        slot_options(slots).len() == 2 * slots.len(),
        forall|k: int|
            0 <= k < slots.len() ==> passes_slot(slot_options(slots), 0, k, #[trigger] slots[k]),
    decreases slots.len(),
{
    if slots.len() > 0 {
        let head = slots.drop_last();
        slots_are_passed_in_order(head);
        let all = slot_options(slots);
        let rest = slot_options(head);
        assert forall|k: int| 0 <= k < slots.len() implies passes_slot(
            all,
            0,
            k,
            #[trigger] slots[k],
        ) by {
            if k < head.len() {
                assert(passes_slot(rest, 0, k, head[k]));
                assert(all[2 * k] == rest[2 * k]);
                assert(all[2 * k + 1] == rest[2 * k + 1]);
            }
        }
    }
}

/// Behind `from` arguments, slot option `k` is `--slot` and the slot.
pub open spec fn passes_slot(args: Seq<Seq<char>>, from: int, k: int, slot: Seq<char>) -> bool {
    &&& from + 2 * k + 1 < args.len()
    &&& args[from + 2 * k] == "--slot"@
    &&& args[from + 2 * k + 1] == slot
}

/// The arguments name the subcommand, the device, the manifest, and then every
/// slot; `switches` is what is behind these.
pub open spec fn passes_all(
    args: Seq<Seq<char>>,
    word: Seq<char>,
    device: Seq<char>,
    manifest: Seq<char>,
    slots: Seq<Seq<char>>,
    switches: Seq<Seq<char>>,
) -> bool {
    &&& args.len() == 5 + 2 * slots.len() + switches.len()
    &&& args[0] == word
    &&& args[1] == "--device"@
    &&& args[2] == device
    &&& args[3] == "--manifest"@
    &&& args[4] == manifest
    &&& forall|k: int| 0 <= k < slots.len() ==> passes_slot(args, 5, k, #[trigger] slots[k])
    &&& args.skip(5 + 2 * slots.len() as int) == switches
}

proof fn all_is_passed(
    word: Seq<char>,
    device: Seq<char>,
    manifest: Seq<char>,
    slots: Seq<Seq<char>>,
    switches: Seq<Seq<char>>,
)
    ensures
        passes_all(
            seq![word, "--device"@, device, "--manifest"@, manifest] + slot_options(slots)
                + switches,
            word,
            device,
            manifest,
            slots,
            switches,
        ),
{
    let head = seq![word, "--device"@, device, "--manifest"@, manifest];
    let args = head + slot_options(slots) + switches;
    slots_are_passed_in_order(slots);
    assert forall|k: int| 0 <= k < slots.len() implies passes_slot(
        args,
        5,
        k,
        #[trigger] slots[k],
    ) by {
        assert(passes_slot(slot_options(slots), 0, k, slots[k]));
        assert(args[5 + 2 * k] == slot_options(slots)[2 * k]);
        assert(args[5 + 2 * k + 1] == slot_options(slots)[2 * k + 1]);
    }
    assert(args.skip(5 + 2 * slots.len() as int) =~= switches);
}

proof fn switch_words()
    ensures
        "--verify"@ != "--yes"@,
        "--verify"@ != "--force"@,
        "--verify"@ != "--eject"@,
        "--yes"@ != "--force"@,
        "--yes"@ != "--eject"@,
        "--force"@ != "--eject"@,
{
    reveal_strlit("--verify");
    reveal_strlit("--yes");
    reveal_strlit("--force");
    reveal_strlit("--eject");
    assert("--verify"@.len() == 8 && "--yes"@.len() == 5 && "--force"@.len() == 7
        && "--eject"@.len() == 7);
    assert("--force"@[2] == 'f' && "--eject"@[2] == 'e');
}

/// A write passes its device, manifest and slots, and each of its switches if
/// and only if it is on.
#[verifier::rlimit(40)]
pub proof fn writes_are_passed_whole(
    device: Seq<char>,
    manifest: Seq<char>,
    slots: Seq<Seq<char>>,
    verify: bool,
    yes: bool,
    force: bool,
    eject: bool,
)
    ensures
        ({
            let c = CliCommandView::Write { device, manifest, slots, verify, yes, force, eject };
            exists|switches: Seq<Seq<char>>|
                {
                    &&& #[trigger] passes_all(
                        c.args(),
                        "write"@,
                        device,
                        manifest,
                        slots,
                        switches,
                    )
                    &&& switches.contains("--verify"@) <==> verify
                    &&& switches.contains("--yes"@) <==> yes
                    &&& switches.contains("--force"@) <==> force
                    &&& switches.contains("--eject"@) <==> eject
                }
        }),
{
    let c = CliCommandView::Write { device, manifest, slots, verify, yes, force, eject };
    let a = flag("--verify"@, verify);
    let b = flag("--yes"@, yes);
    let d = flag("--force"@, force);
    let e = flag("--eject"@, eject);
    let switches = a + b + d + e;
    switch_words();
    all_is_passed("write"@, device, manifest, slots, switches);
    let head = seq!["write"@, "--device"@, device, "--manifest"@, manifest] + slot_options(slots);
    assert(c.args() =~= head + switches);
    let na = a.len() as int;
    let nb = na + b.len();
    let nd = nb + d.len();
    if verify {
        assert(switches[0] == "--verify"@);
    }
    if yes {
        assert(switches[na] == "--yes"@);
    }
    if force {
        assert(switches[nb] == "--force"@);
    }
    if eject {
        assert(switches[nd] == "--eject"@);
    }
    assert forall|i: int| 0 <= i < switches.len() implies {
        ||| verify && #[trigger] switches[i] == "--verify"@
        ||| yes && switches[i] == "--yes"@
        ||| force && switches[i] == "--force"@
        ||| eject && switches[i] == "--eject"@
    } by {
        if i < na {
            assert(switches[i] == a[i]);
        } else if i < nb {
            assert(switches[i] == b[i - na]);
        } else if i < nd {
            assert(switches[i] == d[i - nb]);
        } else {
            assert(switches[i] == e[i - nd]);
        }
    }
}

/// A wipe passes its device, manifest and slots, and each of its switches if and
/// only if it is on.
pub proof fn wipes_are_passed_whole(
    device: Seq<char>,
    manifest: Seq<char>,
    slots: Seq<Seq<char>>,
    yes: bool,
    force: bool,
)
    ensures
        ({
            let c = CliCommandView::Wipe { device, manifest, slots, yes, force };
            exists|switches: Seq<Seq<char>>|
                {
                    &&& #[trigger] passes_all(c.args(), "wipe"@, device, manifest, slots, switches)
                    &&& switches.len() == (if yes {
                        1int
                    } else {
                        0int
                    }) + (if force {
                        1int
                    } else {
                        0int
                    })
                    &&& switches.contains("--yes"@) <==> yes
                    &&& switches.contains("--force"@) <==> force
                }
        }),
{
    let c = CliCommandView::Wipe { device, manifest, slots, yes, force };
    let a = flag("--yes"@, yes);
    let b = flag("--force"@, force);
    let switches = a + b;
    switch_words();
    all_is_passed("wipe"@, device, manifest, slots, switches);
    let head = seq!["wipe"@, "--device"@, device, "--manifest"@, manifest] + slot_options(slots);
    assert(c.args() =~= head + switches);
    if yes {
        assert(switches[0] == "--yes"@);
    }
    if force {
        assert(switches[a.len() as int] == "--force"@);
    }
}

/// A read passes its device, manifest and slots, and then the output file, the
/// output directory and the length, each behind its option, where it has them.
pub proof fn reads_are_passed_whole(
    device: Seq<char>,
    manifest: Seq<char>,
    slots: Seq<Seq<char>>,
    out: Option<Seq<char>>,
    out_dir: Option<Seq<char>>,
    length: Option<Seq<char>>,
)
    ensures
        ({
            let c = CliCommandView::Read { device, manifest, slots, out, out_dir, length };
            exists|switches: Seq<Seq<char>>|
                {
                    &&& #[trigger] passes_all(c.args(), "read"@, device, manifest, slots, switches)
                    &&& out matches Some(o) ==> switches[0] == "-o"@ && switches[1] == o
                    &&& out is None && out_dir is Some ==> switches[0] == "--out-dir"@ && switches[1]
                        == out_dir->0
                    &&& length matches Some(l) ==> switches.len() >= 2 && switches[switches.len()
                        - 2] == "--length"@ && switches.last() == l
                    &&& out is None && out_dir is None && length is None ==> switches.len() == 0
                }
        }),
{
    let c = CliCommandView::Read { device, manifest, slots, out, out_dir, length };
    let switches = option("-o"@, out) + option("--out-dir"@, out_dir) + option("--length"@, length);
    all_is_passed("read"@, device, manifest, slots, switches);
    let head = seq!["read"@, "--device"@, device, "--manifest"@, manifest] + slot_options(slots);
    assert(c.args() =~= head + switches);
}

/// A verify passes its device, manifest and slots, and a flat image its
/// manifest, output and slots; a listing and an eject pass nothing else.
#[verifier::rlimit(40)]
pub proof fn other_commands_are_passed_whole(
    device: Seq<char>,
    manifest: Seq<char>,
    given: Option<Seq<char>>,
    out: Seq<char>,
    slots: Seq<Seq<char>>,
    verify: bool,
    yes: bool,
)
    ensures
        passes_all(
            (CliCommandView::Verify { device, manifest, slots }).args(),
            "verify"@,
            device,
            manifest,
            slots,
            Seq::empty(),
        ),
        CliCommandView::List.args() == seq!["list"@],
        (CliCommandView::Eject { device }).args() == seq!["eject"@, "--device"@, device],
        ({
            let s = (CliCommandView::Status { device, manifest: given }).args();
            &&& s.take(3) == seq!["status"@, "--device"@, device]
            &&& given matches Some(m) ==> s.len() == 5 && s[3] == "--manifest"@ && s[4] == m
            &&& given is None ==> s.len() == 3
        }),
        ({
            let i = (CliCommandView::Image { manifest, out, slots, verify, yes }).args();
            &&& i[0] == "image"@
            &&& i[1] == "--manifest"@
            &&& i[2] == manifest
            &&& i[3] == "-o"@
            &&& i[4] == out
            &&& forall|k: int| 0 <= k < slots.len() ==> passes_slot(i, 5, k, #[trigger] slots[k])
            &&& i.len() == 5 + 2 * slots.len() + (if verify {
                1int
            } else {
                0int
            }) + (if yes {
                1int
            } else {
                0int
            })
            &&& verify ==> i[5 + 2 * slots.len() as int] == "--verify"@
            &&& yes ==> i.last() == "--yes"@
        }),
{
    all_is_passed("verify"@, device, manifest, slots, Seq::empty());
    let v = (CliCommandView::Verify { device, manifest, slots }).args();
    assert(v + Seq::<Seq<char>>::empty() =~= v);
    let s = (CliCommandView::Status { device, manifest: given }).args();
    assert(s.take(3) =~= seq!["status"@, "--device"@, device]);
    let i = (CliCommandView::Image { manifest, out, slots, verify, yes }).args();
    slots_are_passed_in_order(slots);
    assert forall|k: int| 0 <= k < slots.len() implies passes_slot(i, 5, k, #[trigger] slots[k]) by {
        assert(passes_slot(slot_options(slots), 0, k, slots[k]));
        assert(i[5 + 2 * k] == slot_options(slots)[2 * k]);
        assert(i[5 + 2 * k + 1] == slot_options(slots)[2 * k + 1]);
    }
}

/// An argument is shown as it is, unless it is empty or holds a blank or a
/// quotation mark; then it stands between quotation marks.
pub proof fn arguments_are_quoted_where_needed(arg: Seq<char>)
    ensures
        ({
            let plain = arg.len() > 0 && forall|i: int|
                0 <= i < arg.len() ==> !is_space(#[trigger] arg[i]) && arg[i] != '"';
            let q = shell_quoted(arg);
            &&& plain ==> q == arg
            &&& !plain ==> q.len() >= 2 && q[0] == '"' && q.last() == '"'
        }),
{
    reveal_strlit("\"");
}

// ---------------------------------------------------------------------------
// Dialogs
// ---------------------------------------------------------------------------

/// A confirmed command works on the target and the manifest, with the slots
/// that its dialog names and no others. It is forced exactly where the target is
/// a device that is not known to be removable, verified where that is on, and
/// ejects only after a write of the selection to a removable device.
#[verifier::rlimit(40)]
pub proof fn confirmed_commands_do_what_was_shown(
    m: Modal,
    device: Seq<char>,
    manifest: Seq<char>,
    target: TargetView,
    options: Options,
    out: Seq<char>,
)
    ensures
        match m.command(device, manifest, target, options, out) {
            Some(CliCommandView::Write { device: d, manifest: f, slots, verify, yes, force, eject }) => {
                &&& d == device
                &&& f == manifest
                &&& verify == options.verify
                &&& yes
                &&& force == target.needs_force()
                &&& match m {
                    Modal::ConfirmWrite { bank, unit, image } => slots.len() == 1 && slots[0]
                        == bank@ + ":"@ + dec(unit as nat) + "="@ + image@ && !eject,
                    Modal::ConfirmWriteSelected { planned, .. } => {
                        let go = present(planned_views(planned@));
                        &&& slots.len() == go.len() > 0
                        &&& forall|k: int|
                            0 <= k < go.len() ==> slots[k] == (#[trigger] go[k]).0 + ":"@ + dec(
                                go[k].1 as nat,
                            )
                        &&& eject <==> options.eject_after_write && target.file is None && (
                        target.entry() is Some && target.entry()->0.removable == Some(true))
                    },
                    _ => false,
                }
            },
            Some(CliCommandView::Wipe { device: d, manifest: f, slots, yes, force }) => {
                &&& d == device
                &&& f == manifest
                &&& yes
                &&& force == target.needs_force()
                &&& match m {
                    Modal::ConfirmWipe { bank, unit } => slots.len() == 1 && slots[0] == bank@
                        + ":"@ + dec(unit as nat),
                    Modal::ConfirmWipeSelected { slots: keys } => slots.len() == keys@.len()
                        && forall|k: int|
                        0 <= k < keys@.len() ==> slots[k] == (#[trigger] keys@[k]).0@ + ":"@ + dec(
                            keys@[k].1 as nat,
                        ),
                    _ => false,
                }
            },
            Some(CliCommandView::Read { device: d, manifest: f, slots, out: o, out_dir, length }) => {
                &&& d == device
                &&& f == manifest
                &&& match m {
                    Modal::Extract { bank, unit, length: l } => slots.len() == 1 && slots[0]
                        == bank@ + ":"@ + dec(unit as nat) && o == Some(out) && out_dir is None
                        && length == Some(l.text()),
                    Modal::ConfirmExtractSelected { slots: keys, dir } => slots.len() == keys@.len()
                        && o is None && out_dir == Some(dir@) && length is None && forall|k: int|
                        0 <= k < keys@.len() ==> slots[k] == (#[trigger] keys@[k]).0@ + ":"@ + dec(
                            keys@[k].1 as nat,
                        ),
                    _ => false,
                }
            },
            Some(_) => false,
            None => match m {
                Modal::ConfirmWriteSelected { planned, .. } => present(
                    planned_views(planned@),
                ).len() == 0,
                Modal::Hidden => true,
                Modal::ConfirmAdvanced => true,
                Modal::ConfirmAutoSelect => true,
                _ => false,
            },
        },
{
    match m {
        Modal::ConfirmWipeSelected { slots: keys } => {
            let s = slot_names(key_views(keys@));
            assert forall|k: int| 0 <= k < keys@.len() implies s[k] == (#[trigger] keys@[k]).0@
                + ":"@ + dec(keys@[k].1 as nat) by {
                assert(key_views(keys@)[k] == (keys@[k].0@, keys@[k].1));
            }
        },
        Modal::ConfirmExtractSelected { slots: keys, dir } => {
            let s = slot_names(key_views(keys@));
            assert forall|k: int| 0 <= k < keys@.len() implies s[k] == (#[trigger] keys@[k]).0@
                + ":"@ + dec(keys@[k].1 as nat) by {
                assert(key_views(keys@)[k] == (keys@[k].0@, keys@[k].1));
            }
        },
        Modal::ConfirmWriteSelected { planned, .. } => {
            let go = present(planned_views(planned@));
            let s = slot_names(go);
            assert forall|k: int| 0 <= k < go.len() implies s[k] == (#[trigger] go[k]).0 + ":"@
                + dec(go[k].1 as nat) by {}
        },
        _ => {},
    }
}

/// Confirming turns a dangerous option on where that was asked, runs a command
/// where there is one with a target and a manifest, waits where the dialog lacks
/// something, and else closes it.
pub proof fn confirmations_lead_on(
    m: Modal,
    target: TargetView,
    manifest: Option<Seq<char>>,
    options: Options,
    out: Option<Seq<char>>,
)
    ensures
        ({
            let r = m.confirmed_outcome(target, manifest, options, out);
            let nothing = m matches Modal::ConfirmWriteSelected { planned, .. } && present(
                planned_views(planned@),
            ).len() == 0;
            &&& m is ConfirmAdvanced ==> r == ModalOutcomeView::Enable(Warning::Advanced)
            &&& m is ConfirmAutoSelect ==> r == ModalOutcomeView::Enable(Warning::AutoSelect)
            &&& m is Hidden ==> r is Stay
            &&& m is Extract && out is None ==> r is Stay
            &&& nothing ==> r is Stay
            &&& !(m is Hidden || m is ConfirmAdvanced || m is ConfirmAutoSelect || nothing || (
            m is Extract && out is None)) ==> {
                &&& target.device_arg() is Some && manifest is Some ==> r is Run && Some(r->Run_0)
                    == m.command(
                    target.device_arg()->0,
                    manifest->0,
                    target,
                    options,
                    if out is Some {
                        out->0
                    } else {
                        Seq::empty()
                    },
                )
                &&& !(target.device_arg() is Some && manifest is Some) ==> r is Close
            }
        }),
{
}

/// Every planned write whose image is on disk is written, and no other, in the
/// order of the plan.
pub proof fn present_images_are_written(planned: Seq<PlannedWriteView>, p: PlannedWriteView)
    ensures
        present(Seq::empty()).len() == 0,
        p.missing ==> present(planned.push(p)) == present(planned),
        !p.missing ==> present(planned.push(p)) == present(planned).push((p.bank, p.unit)),
{
    assert(planned.push(p).drop_last() =~= planned);
}

/// Every row of a summary with an image is listed for writing, with its slot,
/// image and place, in order.
pub proof fn summaries_become_writes(items: Seq<PlanSummaryItemView>)
    requires
        forall|k: int| 0 <= k < items.len() ==> (#[trigger] items[k]).image is Some,
    ensures
        writes_of(items).len() == items.len(),
        forall|k: int|
            0 <= k < items.len() ==> {
                let w = writes_of(items)[k];
                let i = #[trigger] items[k];
                &&& w.bank == i.bank
                &&& w.unit == i.unit
                &&& Some(w.image) == i.image
                &&& w.offset == i.offset
                &&& w.slot_len == i.slot_len
                &&& w.missing == i.missing
            },
    decreases items.len(),
{
    if items.len() > 0 {
        let head = items.drop_last();
        assert forall|k: int| 0 <= k < head.len() implies (#[trigger] head[k]).image is Some by {
            assert(head[k] == items[k]);
        }
        summaries_become_writes(head);
        let rest = writes_of(head);
        let all = writes_of(items);
        assert(items[items.len() - 1].image is Some);
        assert forall|k: int| 0 <= k < items.len() implies {
            let w = all[k];
            let i = #[trigger] items[k];
            &&& w.bank == i.bank
            &&& w.unit == i.unit
            &&& Some(w.image) == i.image
            &&& w.offset == i.offset
            &&& w.slot_len == i.slot_len
            &&& w.missing == i.missing
        } by {
            if k < head.len() {
                assert(head[k] == items[k]);
                assert(all[k] == rest[k]);
            }
        }
    }
}

// ---------------------------------------------------------------------------
// The card
// ---------------------------------------------------------------------------

/// A layout is drawn against the selected card, or else a card of eight decimal
/// gigabytes: up to the further of both ends, and as overflowing exactly when the
/// layout's is the further.
pub proof fn layouts_are_drawn_to_scale(layout: LayoutView, card_size: Option<u64>)
    requires
        0 <= layout.furthest_end() <= u64::MAX,
    ensures
        ({
            let s = scale_of(layout, card_size);
            &&& s.generic <==> card_size is None
            &&& card_size matches Some(n) ==> s.capacity == n
            &&& card_size is None ==> s.capacity == 8_000_000_000
            &&& s.layout_end == layout.furthest_end()
            &&& s.overflow <==> layout.furthest_end() > s.capacity
            &&& s.scale_end >= s.capacity
            &&& s.scale_end >= s.layout_end
            &&& s.scale_end == s.capacity || s.scale_end == s.layout_end
        }),
{
}

proof fn smallest_card_from(bytes: u64, gb: nat)
    requires
        gb == 1 || gb == 2 || gb == 4 || gb == 8 || gb == 16 || gb == 32 || gb == 64 || gb == 128
            || gb == 256 || gb == 512 || gb == 1024,
        gb > 1 ==> gb * 500_000_000 < bytes,
    ensures
        match smallest_card(bytes, gb) {
            Some(n) => n * 1_000_000_000 >= bytes && (n > 1 ==> n * 500_000_000 < bytes) && (n == 1
                || n == 2 || n == 4 || n == 8 || n == 16 || n == 32 || n == 64 || n == 128 || n
                == 256 || n == 512),
            None => bytes > 512_000_000_000,
        },
    decreases 1024 - gb,
{
    if gb <= 512 && gb * 1_000_000_000 < bytes {
        smallest_card_from(bytes, gb * 2);
    }
}

/// The card that is suggested for a layout is of a common size, which holds it,
/// and of half that size it would not; there is none only above the largest.
pub proof fn suggested_cards_are_the_smallest(bytes: u64)
    ensures
        match smallest_card(bytes, 1) {
            Some(n) => n * 1_000_000_000 >= bytes && (n > 1 ==> n * 500_000_000 < bytes) && (n == 1
                || n == 2 || n == 4 || n == 8 || n == 16 || n == 32 || n == 64 || n == 128 || n
                == 256 || n == 512),
            None => bytes > 512_000_000_000,
        },
{
    smallest_card_from(bytes, 1);
}

/// The slot in transfer is marked at its place on the card, with its progress,
/// while the operation runs; nothing is marked otherwise, nor a slot that the
/// layout does not have.
pub proof fn transfers_are_marked_at_their_slot(layout: LayoutView, s: OpFoldView, i: int)
    requires
        layout.addressable(),
    ensures
        s.progress is None || s.finished ==> highlighted(layout, s) is None,
        s.progress matches Some(p) ==> !s.finished && 0 <= i < layout.banks.len()
            && layout.banks[i].name == p.0 && (forall|m: int|
            0 <= m < i ==> (#[trigger] layout.banks[m]).name != p.0) ==> {
            let h = highlighted(layout, s);
            &&& h is Some <==> p.1 < layout.banks[i].units
            &&& h matches Some(x) ==> x.extent.offset == layout.banks[i].base + p.1
                * layout.banks[i].slot_size && x.extent.len == layout.banks[i].slot_size && x.done
                == p.2 && x.total == p.3
        },
{
    if s.progress is Some && !s.finished && 0 <= i < layout.banks.len() {
        let p = s.progress->0;
        let q = bank_named(p.0);
        if layout.banks[i].name == p.0 && (forall|m: int|
            0 <= m < i ==> (#[trigger] layout.banks[m]).name != p.0) {
            assert forall|m: int| 0 <= m < i implies !q(#[trigger] layout.banks[m]) by {
                assert(layout.banks[m].name != p.0);
            }
            first_where_is(layout.banks, q, i);
            if p.1 < layout.banks[i].units {
                slots_lie_at_their_unit(layout, i, p.1);
            }
        }
    }
}

// ---------------------------------------------------------------------------
// Rows, bars and the log
// ---------------------------------------------------------------------------

/// States of different meaning have different badges; reading a slot and
/// scanning it look alike.
#[verifier::rlimit(40)]
pub proof fn badges_tell_states_apart(a: ViewState, b: ViewState)
    requires
        a != ViewState::Busy(OpKind::Status),
        b != ViewState::Busy(OpKind::Status),
    ensures
        state_text(a) == state_text(b) <==> a == b,
        state_text(ViewState::Busy(OpKind::Status)) == state_text(ViewState::Busy(OpKind::Read)),
{
    reveal_strlit("writing…");
    reveal_strlit("verifying…");
    reveal_strlit("wiping…");
    reveal_strlit("reading…");
    reveal_strlit("written");
    reveal_strlit("✔ matches");
    reveal_strlit("⚠ modified");
    reveal_strlit("≠ differs");
    reveal_strlit("wiped");
    reveal_strlit("");
    assert("writing…"@.len() == 8 && "verifying…"@.len() == 10 && "wiping…"@.len() == 7
        && "reading…"@.len() == 8 && "written"@.len() == 7 && "✔ matches"@.len() == 9
        && "⚠ modified"@.len() == 10 && "≠ differs"@.len() == 9 && "wiped"@.len() == 5
        && ""@.len() == 0);
    assert("writing…"@[0] != "reading…"@[0]);
    assert("wiping…"@[1] != "written"@[1]);
    assert("verifying…"@[0] != "⚠ modified"@[0]);
    assert("✔ matches"@[0] != "≠ differs"@[0]);
}

/// The bar counts over the whole pass where its total is known and not zero: what
/// earlier slots brought and what the slot in transfer did; else over that slot.
pub proof fn bars_count_over_the_pass(s: OpFoldView)
    ensures
        s.progress matches Some(p) ==> {
            let whole = s.agg_total is Some && s.agg_total->0 > 0;
            &&& whole ==> bar_bytes(s) == Some((s.agg_done + p.2, s.agg_total->0 as int))
            &&& !whole ==> bar_bytes(s) == Some((p.2 as int, p.3 as int))
        },
        s.progress is None && s.finished ==> bar_bytes(s) is None,
        s.progress is None && !s.finished ==> {
            let whole = s.saw_event && s.agg_total is Some && s.agg_total->0 > 0;
            &&& whole ==> bar_bytes(s) == Some((s.agg_done as int, s.agg_total->0 as int))
            &&& !whole ==> bar_bytes(s) == Some((0int, 0int))
        },
{
}

/// A new line of the log is its last, and the lines before it are the newest of
/// those that were there, in their order; an outcome never drops a line.
pub proof fn log_lines_stay_in_order(lines: Seq<Seq<char>>, line: Seq<char>)
    ensures
        ({
            let after = logged(lines, LogMsgView::New(line));
            &&& after.len() > 0
            &&& after.last() == line
            &&& after.len() <= lines.len() + 1
            &&& forall|i: int|
                0 <= i < after.len() - 1 ==> #[trigger] after[i] == lines[lines.len() + 1
                    - after.len() + i]
        }),
{
}

/// Messages are taken in one after the other, each in the state that those
/// before it led to.
pub proof fn messages_are_taken_in_order(
    s: OpFoldView,
    msgs: Seq<GuiMsgView>,
    msg: GuiMsgView,
)
    ensures
        fold_all(s, Seq::empty()) == s,
        fold_all(s, msgs.push(msg)) == applied(fold_all(s, msgs), msg),
        lines_all(s, msgs.push(msg)) == lines_all(s, msgs) + crate::gui::ops::message_lines(
            fold_all(s, msgs),
            msg,
        ),
        updates_all(s, msgs.push(msg)) == updates_all(s, msgs) + crate::gui::ops::message_updates(
            fold_all(s, msgs),
            msg,
        ),
{
    assert(msgs.push(msg).drop_last() =~= msgs);
}

} // verus!
