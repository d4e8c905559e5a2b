//! What the graphical frontend shows and selects.

use vstd::prelude::*;

use crate::engine::plan::ImageFacts;
use crate::events::SlotState;
use crate::gui::backend::CliCommandView;
use crate::gui::card::{
    bytes_occupied, caption_text, hover_of, overflow_text, transfer_tone, CardScale, Tone,
};
use crate::gui::devices::DeviceEntryView;
use crate::gui::dialogs::{
    extent_of, label_of, planned_text, present, preview_text, start_text, PlannedWriteView,
};
use crate::gui::ops::{OpFoldView, SlotViewView, ViewState};
use crate::gui::options::Options;
use crate::gui::rows::{bank_text, bar_line, device_text, state_tone, status_text};
use crate::gui::slots::{
    bank_ticked, empty, hidden_total, picked_in, select, selection_after_scan, Pick, SlotKeyView, SlotSet,
    SlotStates,
};
use crate::gui::target::{states_are_stale, TargetView};
use crate::laws::commands::has_part;
use crate::layout::{Bank, BankView, Layout, LayoutView};
use crate::search::{first_where_is, first_where_props};
use crate::text::dec;
use crate::units::bytes_text;

verus! {

/// A text that grows keeps its parts.
pub(crate) proof fn grow(text: Seq<char>, more: Seq<char>)
    ensures
        has_part(text + more, more),
        has_part(text + more, text),
        forall|p: Seq<char>| has_part(text, p) ==> #[trigger] has_part(text + more, p),
{
    let e = Seq::<char>::empty();
    crate::laws::commands::part_between(text, more, e);
    crate::laws::commands::part_between(e, text, more);
    assert forall|p: Seq<char>| has_part(text, p) implies #[trigger] has_part(text + more, p) by {
        crate::laws::commands::part_in_more(e, text, more, p);
    }
}

pub(crate) proof fn regroup(a: Seq<char>, b: Seq<char>, c: Seq<char>)
    ensures
        a + (b + c) == a + b + c,
{
    assert(a + (b + c) =~= a + b + c);
}

// ---------------------------------------------------------------------------
// Slots
// ---------------------------------------------------------------------------

/// The slots of a bank that have a property are listed once each, in the order
/// of their units.
pub proof fn picked_slots_are_in_order(pick: Pick, bank: BankView, n: int, u: u32)
    requires
        0 <= n <= bank.units,
    ensures
        ({
            let s = picked_in(pick, bank, n);
            &&& s.len() <= n
            &&& s.contains((bank.name, u)) <==> u < n && pick.takes(bank, u)
            &&& forall|i: int, j: int|
                0 <= i < j < s.len() ==> (#[trigger] s[i]).1 < (#[trigger] s[j]).1
            &&& forall|i: int|
                0 <= i < s.len() ==> (#[trigger] s[i]).0 == bank.name && s[i].1 < n && pick.takes(
                    bank,
                    s[i].1,
                )
        }),
    decreases n,
{
    if n > 0 {
        picked_slots_are_in_order(pick, bank, n - 1, u);
        let before = picked_in(pick, bank, n - 1);
        let s = picked_in(pick, bank, n);
        if before.contains((bank.name, u)) {
            let j = choose|j: int| 0 <= j < before.len() && before[j] == (bank.name, u);
            assert(s[j] == (bank.name, u));
        }
        if pick.takes(bank, (n - 1) as u32) {
            assert(s.last() == (bank.name, (n - 1) as u32));
            if s.contains((bank.name, u)) && u != n - 1 {
                let j = choose|j: int| 0 <= j < s.len() && s[j] == (bank.name, u);
                assert(before[j] == (bank.name, u));
            }
        }
    }
}

/// A scan that came to its end narrows the selection to the slots that need
/// writing, where that is asked for; any other scan leaves it.
pub proof fn scans_narrow_the_selection(
    selection: SlotSet,
    narrow: bool,
    completed: bool,
    layout: &Layout,
    states: &SlotStates,
    facts: &ImageFacts,
    r: SlotSet,
    k: SlotKeyView,
)
    requires
        call_ensures(
            selection_after_scan,
            (selection, narrow, completed, layout, states, facts),
            r,
        ),
    ensures
        !narrow || !completed ==> r@ == selection@,
        narrow && completed ==> (r@.contains(k) <==> exists|i: int|
            0 <= i < layout@.banks.len() && (#[trigger] layout@.banks[i]).name == k.0 && k.1
                < layout@.banks[i].units && (Pick::NeedsWrite { states, facts }).takes(
                layout@.banks[i],
                k.1,
            )),
{
    let pick = Pick::NeedsWrite { states, facts };
    crate::gui::slots::picked_slots_are(pick, layout@, layout@.banks.len() as int, k);
}

/// A selection by a property holds the slots that have it, and no others.
pub proof fn selections_hold_what_was_picked(
    pick: &Pick,
    layout: &Layout,
    r: SlotSet,
    k: SlotKeyView,
)
    requires
        call_ensures(select, (pick, layout), r),
    ensures
        r@.contains(k) <==> exists|i: int|
            0 <= i < layout@.banks.len() && (#[trigger] layout@.banks[i]).name == k.0 && k.1
                < layout@.banks[i].units && pick.takes(layout@.banks[i], k.1),
{
    crate::gui::slots::picked_slots_are(*pick, layout@, layout@.banks.len() as int, k);
}

/// A slot of the bank that has a row in the slot map.
pub open spec fn is_shown(states: SlotStates, bank: BankView, u: u32, hide_empty: bool) -> bool {
    u < bank.units && !(hide_empty && empty(states, bank, u))
}

/// A bank is ticked exactly when it has slots to show and every one of them is
/// ticked.
pub proof fn banks_are_ticked_with_all_their_slots(
    bank: &Bank,
    set: &SlotSet,
    states: &SlotStates,
    hide_empty: bool,
    r: bool,
)
    requires
        call_ensures(bank_ticked, (bank, set, states, hide_empty), r),
    ensures
        r ==> forall|u: u32| #[trigger]
            is_shown(*states, bank@, u, hide_empty) ==> set@.contains((bank@.name, u)),
        r ==> exists|u: u32| #[trigger] is_shown(*states, bank@, u, hide_empty),
        !r ==> (exists|u: u32| #[trigger]
            is_shown(*states, bank@, u, hide_empty) && !set@.contains((bank@.name, u))) || (forall|
            u: u32,
        | !#[trigger] is_shown(*states, bank@, u, hide_empty)),
{
    let pick = Pick::Visible { states, hide_empty };
    let visible = picked_in(pick, bank@, bank@.units as int);
    picked_slots_are_in_order(pick, bank@, bank@.units as int, 0);
    assert forall|u: u32| #[trigger]
        is_shown(*states, bank@, u, hide_empty) <==> visible.to_set().contains((bank@.name, u)) by {
        picked_slots_are_in_order(pick, bank@, bank@.units as int, u);
    }
    if r {
        let u = visible[0].1;
        assert(is_shown(*states, bank@, u, hide_empty));
    } else if visible.len() > 0 {
        let k = choose|k: SlotKeyView| #[trigger]
            visible.to_set().contains(k) && !set@.contains(k);
        assert(visible.contains(k));
        let j = choose|j: int| 0 <= j < visible.len() && visible[j] == k;
        assert(visible[j].0 == bank@.name);
        assert(k == (bank@.name, k.1));
        assert(is_shown(*states, bank@, k.1, hide_empty));
    }
}

/// Rows are hidden only where empty rows are.
pub proof fn nothing_is_hidden_unasked(layout: &Layout, states: &SlotStates, r: usize)
    requires
        call_ensures(hidden_total, (layout, states, false), r),
    ensures
        r == 0,
{
}

/// Slot states are dropped when another target is chosen, and kept when none is.
pub proof fn states_belong_to_their_target(shown_for: Option<&str>, now: Option<&str>, r: bool)
    requires
        call_ensures(states_are_stale, (shown_for, now), r),
    ensures
        r ==> now is Some && (shown_for is None || shown_for->0@ != now->0@),
        !r ==> now is None || (shown_for is Some && shown_for->0@ == now->0@),
{
}

/// Green is for slots that match, orange for those that do not hold what was
/// expected, and what runs or was written is teal.
pub proof fn tones_tell_states_apart(state: ViewState, scanning: bool)
    ensures
        state_tone(state) == Tone::Green <==> state == ViewState::Core(SlotState::Matches),
        state_tone(state) == Tone::Orange <==> state == ViewState::Core(SlotState::Modified)
            || state == ViewState::Core(SlotState::Differs),
        state_tone(state) == Tone::Teal <==> state is Busy || state == ViewState::Written,
        state_tone(state) == Tone::Dim <==> state == ViewState::Core(SlotState::Wiped) || state
            == ViewState::Core(SlotState::Unknown),
        forall|v: SlotViewView| v.state == state ==> (#[trigger] status_text(Some(v), scanning)).1
            == state_tone(state),
        status_text(None, scanning).0 == ""@ <==> !scanning,
{
    reveal_strlit("");
    reveal_strlit("…");
    assert(""@.len() == 0 && "…"@.len() == 1);
}

// ---------------------------------------------------------------------------
// The card
// ---------------------------------------------------------------------------

/// Occupied bytes are whole slots, as many in each bank as it has occupied ones.
pub proof fn occupied_bytes_are_whole_slots(layout: LayoutView, states: SlotStates, n: int)
    requires
        0 <= n,
    ensures
        bytes_occupied(layout, states, 0) == 0,
        bytes_occupied(layout, states, n + 1) - bytes_occupied(layout, states, n)
            == layout.banks[n].slot_size * picked_in(
            Pick::Occupied(&states),
            layout.banks[n],
            layout.banks[n].units as int,
        ).len(),
{
    assert(picked_in(
        Pick::Occupied(&states),
        layout.banks[n],
        layout.banks[n].units as int,
    ).len() * layout.banks[n].slot_size == layout.banks[n].slot_size * picked_in(
        Pick::Occupied(&states),
        layout.banks[n],
        layout.banks[n].units as int,
    ).len()) by (nonlinear_arith);
}

/// The byte lies in the bank.
pub open spec fn lies_in(b: BankView, byte: u64) -> bool {
    b.base <= byte < b.base + b.slot_size * b.units
}

/// A byte of a bank shows the bank's name and how many of its slots are
/// occupied; one of the table of contents shows that, and any other nothing.
pub proof fn hovering_tells_the_place(layout: LayoutView, states: SlotStates, byte: u64, i: int)
    requires
        0 <= i < layout.banks.len(),
    ensures
        lies_in(layout.banks[i], byte) && (forall|k: int|
            0 <= k < i ==> !lies_in(#[trigger] layout.banks[k], byte)) ==> {
            let b = layout.banks[i];
            let t = hover_of(layout, states, byte);
            let n = picked_in(Pick::Occupied(&states), b, b.units as int).len();
            &&& has_part(t, "bank "@ + b.name)
            &&& has_part(t, dec(n) + "/"@ + dec(b.units as nat) + " slots occupied"@)
            &&& has_part(t, bytes_text(b.slot_size))
        },
        (forall|k: int|
            0 <= k < layout.banks.len() ==> !lies_in(#[trigger] layout.banks[k], byte)) ==> {
            let toc = layout.toc_offset matches Some(t) && t <= byte < t
                + crate::layout::TOC_REGION_LEN;
            &&& toc ==> hover_of(layout, states, byte) == "on-card TOC"@
            &&& !toc ==> hover_of(layout, states, byte) == "unallocated"@
        },
{
    let f = crate::gui::card::covers(byte);
    assert forall|k: int| 0 <= k < layout.banks.len() implies f(#[trigger] layout.banks[k])
        == lies_in(layout.banks[k], byte) by {}
    first_where_props(layout.banks, f);
    if lies_in(layout.banks[i], byte) && forall|k: int|
        0 <= k < i ==> !lies_in(#[trigger] layout.banks[k], byte) {
        assert(f(layout.banks[i]));
        first_where_is(layout.banks, f, i);
        let b = layout.banks[i];
        let n = picked_in(Pick::Occupied(&states), b, b.units as int).len();
        let t1 = "bank "@ + b.name;
        let mid = dec(n) + "/"@ + dec(b.units as nat) + " slots occupied"@;
        let t2 = t1 + " — "@;
        let t3 = t2 + mid;
        let t4 = t3 + ", "@;
        let t5 = t4 + bytes_text(b.slot_size);
        let t6 = t5 + " each"@;
        grow(t1, " — "@);
        grow(t2, mid);
        grow(t3, ", "@);
        grow(t4, bytes_text(b.slot_size));
        grow(t5, " each"@);
        occupied_words();
        let d = dec(n);
        let u = dec(b.units as nat);
        let w = " slots occupied"@;
        regroup(t2 + d + "/"@ + u, w, ", "@);
        regroup(t2, d + "/"@ + u, w);
        regroup(t2, d + "/"@, u);
        regroup(t2, d, "/"@);
        assert(hover_of(layout, states, byte) == t6);
    }
}

proof fn occupied_words()
    ensures
        " slots occupied, "@ == " slots occupied"@ + ", "@,
        " card · occupied slots "@ == " card"@ + " · occupied slots "@,
{
    reveal_strlit(" slots occupied, ");
    reveal_strlit(" slots occupied");
    reveal_strlit(", ");
    assert(" slots occupied, "@ =~= " slots occupied"@ + ", "@);
    reveal_strlit(" card · occupied slots ");
    reveal_strlit(" card");
    reveal_strlit(" · occupied slots ");
    assert(" card · occupied slots "@ =~= " card"@ + " · occupied slots "@);
}

/// A layout that overflows is told so, on a real card by how much, and without
/// one with a card that it needs; one that fits is not.
pub proof fn overflows_are_told(scale: CardScale)
    requires
        scale.overflow ==> scale.layout_end > scale.capacity,
    ensures
        overflow_text(scale) is Some <==> scale.overflow,
        scale.overflow && !scale.generic ==> has_part(
            overflow_text(scale)->0,
            "overflows the card by "@ + bytes_text((scale.layout_end - scale.capacity) as u64),
        ),
        scale.overflow && scale.generic ==> has_part(
            overflow_text(scale)->0,
            "layout needs "@ + bytes_text(scale.layout_end),
        ),
{
    let by = bytes_text((scale.layout_end - scale.capacity) as u64);
    let end = bytes_text(scale.layout_end);
    reveal_strlit("⚠ layout overflows the card by ");
    reveal_strlit("overflows the card by ");
    reveal_strlit("⚠ layout ");
    assert("⚠ layout overflows the card by "@ =~= "⚠ layout "@ + "overflows the card by "@);
    let part = "overflows the card by "@ + by;
    assert("⚠ layout "@ + part =~= "⚠ layout overflows the card by "@ + by);
    grow("⚠ layout "@, part);
    grow("⚠ layout "@ + part, " — writes past the end will fail"@);
    let t = "layout needs "@ + end;
    let card = crate::gui::card::suggestion(scale.layout_end);
    grow(t, " — use "@);
    grow(t + " — use "@, card);
    grow(t + " — use "@ + card, " card or larger"@);
}

/// The caption tells the layout's end and the occupied bytes, and the card's
/// capacity where there is a card.
pub proof fn captions_tell_the_sizes(scale: CardScale, occupied: u64)
    ensures
        has_part(caption_text(scale, occupied), bytes_text(scale.layout_end)),
        has_part(caption_text(scale, occupied), " · occupied slots "@ + bytes_text(occupied)),
        !scale.generic ==> has_part(
            caption_text(scale, occupied),
            " of "@ + bytes_text(scale.capacity) + " card"@,
        ),
{
    let end = bytes_text(scale.layout_end);
    let cap = bytes_text(scale.capacity);
    let used = bytes_text(occupied);
    let w = " · occupied slots "@;
    let g = "no card selected — shown against a generic 8 GB card · layout "@;
    let tail = w + used;
    grow(g, end);
    grow(g + end, tail);
    regroup(g + end, w, used);
    let mid = " of "@ + cap + " card"@;
    let h = "layout "@ + end;
    grow("layout "@, end);
    grow(h, mid);
    grow(h + mid, tail);
    occupied_words();
    regroup(h + " of "@ + cap, " card"@, w);
    regroup(h, " of "@ + cap, " card"@);
    regroup(h, " of "@, cap);
    regroup(h + mid, w, used);
}

/// Each operation that touches the card has a tone of its own.
pub proof fn operations_have_their_tone(verb: Seq<char>)
    ensures
        transfer_tone(verb) == Tone::Teal <==> verb == "write"@,
        transfer_tone(verb) == Tone::Green <==> verb == "verify"@,
        transfer_tone(verb) == Tone::Orange <==> verb == "wipe"@,
{
    reveal_strlit("write");
    reveal_strlit("verify");
    reveal_strlit("wipe");
    assert("write"@.len() == 5 && "verify"@.len() == 6 && "wipe"@.len() == 4);
}

// ---------------------------------------------------------------------------
// Devices
// ---------------------------------------------------------------------------

/// A device's label tells its model, its size, its bus, and whether it is
/// removable or the system disk.
pub proof fn labels_tell_the_device(d: DeviceEntryView)
    ensures
        has_part(d.label(), d.model),
        d.size_bytes matches Some(n) ==> has_part(d.label(), " — "@ + bytes_text(n)),
        has_part(d.label(), " ("@ + d.bus + ")"@),
        d.removable == Some(true) ==> has_part(d.label(), ", removable"@),
        d.system ==> has_part(d.label(), " [SYSTEM DISK]"@),
{
    let size = match d.size_bytes {
        Some(n) => bytes_text(n),
        None => "?"@,
    };
    let a = d.model;
    let b = " — "@ + size;
    let c = " ("@ + d.bus + ")"@;
    let e = if d.removable == Some(true) {
        ", removable"@
    } else {
        ""@
    };
    let f = if d.system {
        " [SYSTEM DISK]"@
    } else {
        ""@
    };
    grow(a, b);
    grow(a + b, c);
    grow(a + b + c, e);
    grow(a + b + c + e, f);
    regroup(a, " — "@, size);
    regroup(a + b, " ("@ + d.bus, ")"@);
    regroup(a + b, " ("@, d.bus);
    assert(d.label() == a + b + c + e + f);
}

/// A device is listed unless it has no media and only devices that have are
/// asked for. It can be chosen exactly when it may be the target; one that
/// cannot says why.
pub proof fn listed_devices_say_why(d: DeviceEntryView, options: Options)
    ensures
        device_text(d, options) is None <==> !(d.size_bytes is Some && d.size_bytes->0 > 0)
            && !options.show_all,
        device_text(d, options) matches Some(t) ==> {
            &&& t.1 <==> d.size_bytes is Some && d.size_bytes->0 > 0 && !d.system && (d.removable
                == Some(true) || options.advanced)
            &&& has_part(t.0, d.label())
            &&& t.1 ==> t.0 == d.label()
            &&& !t.1 ==> has_part(
                t.0,
                if !(d.size_bytes is Some && d.size_bytes->0 > 0) {
                    "no media"@
                } else if d.system {
                    "system disk — never writable"@
                } else {
                    "non-removable — enable Advanced"@
                },
            )
        },
{
    let r = d.block_reason();
    reveal_strlit("");
    reveal_strlit("no media");
    reveal_strlit("system disk — never writable");
    reveal_strlit("non-removable — enable Advanced");
    assert(""@.len() == 0);
    assert("no media"@.len() > 0 && "system disk — never writable"@.len() > 0
        && "non-removable — enable Advanced"@.len() > 0);
    grow(d.label(), "  ("@);
    grow(d.label() + "  ("@, r);
    grow(d.label() + "  ("@ + r, ")"@);
    let e = Seq::<char>::empty();
    crate::laws::commands::part_between(e, d.label(), e);
}

/// A new device list is announced exactly where that is asked for and the paths
/// changed, and a device that was selected by itself is told.
pub proof fn news_tell_what_changed(
    t: TargetView,
    devices: Seq<DeviceEntryView>,
    announce: bool,
    advanced: bool,
    auto: bool,
    busy: bool,
)
    ensures
        ({
            let news = t.devices_news(devices, announce, advanced, auto, busy);
            let after = t.after_devices(devices, advanced, auto, busy);
            let kept = t.relisted(devices, advanced);
            let same = t.devices.len() == devices.len() && forall|i: int|
                0 <= i < devices.len() ==> (#[trigger] t.devices[i]).path == devices[i].path;
            let by_itself = after.selected != kept.selected;
            &&& after.devices == devices
            &&& after.file == t.file
            &&& by_itself ==> auto && !busy && kept.selected is None && t.file is None
            &&& announce && !same <==> news.len() > 0 && news[0] == "device list updated (hotplug)"@
            &&& by_itself ==> news.len() > 0 && news.last() == "auto-selected removable disk: "@
                + devices[after.selected->0].path
            &&& news.len() == (if announce && !same {
                1int
            } else {
                0
            }) + (if by_itself {
                1int
            } else {
                0
            })
        }),
{
    let pa = crate::gui::target::paths(t.devices);
    let pb = crate::gui::target::paths(devices);
    let same = t.devices.len() == devices.len() && forall|i: int|
        0 <= i < devices.len() ==> (#[trigger] t.devices[i]).path == devices[i].path;
    if same {
        assert(pa =~= pb);
    }
    if pa == pb {
        assert(pa.len() == t.devices.len() && pb.len() == devices.len());
        assert forall|i: int| 0 <= i < devices.len() implies (#[trigger] t.devices[i]).path
            == devices[i].path by {
            assert(pa[i] == t.devices[i].path);
            assert(pb[i] == devices[i].path);
        }
    }
    news_words_differ(devices, t.relisted(devices, advanced).auto_choice(auto, busy));
}

proof fn news_words_differ(devices: Seq<DeviceEntryView>, i: Option<int>)
    ensures
        i matches Some(i) ==> "auto-selected removable disk: "@ + devices[i].path
            != "device list updated (hotplug)"@,
{
    reveal_strlit("auto-selected removable disk: ");
    reveal_strlit("device list updated (hotplug)");
    if let Some(i) = i {
        let s = "auto-selected removable disk: "@ + devices[i].path;
        assert(s[0] == 'a');
        assert("device list updated (hotplug)"@[0] == 'd');
    }
}

/// A file target is shown by its path, before any device; without either the
/// selector asks for one.
pub proof fn targets_are_shown_by_their_name(t: TargetView)
    ensures
        t.file matches Some(f) ==> t.label() == "file: "@ + f,
        t.file is None && t.selected is Some && 0 <= t.selected->0 < t.devices.len()
            ==> t.label() == t.devices[t.selected->0].label(),
        t.file is None && t.selected is None ==> t.label() == "(select a device)"@,
{
}

// ---------------------------------------------------------------------------
// Rows and dialogs
// ---------------------------------------------------------------------------

/// A bank's heading tells its type, how many slots it has and how large they are.
pub proof fn headings_tell_the_bank(b: BankView)
    ensures
        b.drive_type matches Some(t) ==> has_part(bank_text(b), t.name),
        has_part(bank_text(b), dec(b.units as nat) + " slots × "@ + bytes_text(b.slot_size)),
{
    let kind = match b.drive_type {
        Some(t) => t.name + " · "@,
        None => ""@,
    };
    let d = dec(b.units as nat);
    let size = bytes_text(b.slot_size);
    let part = d + " slots × "@ + size;
    if let Some(t) = b.drive_type {
        grow(t.name, " · "@);
    }
    grow(kind, part);
    regroup(kind, d + " slots × "@, size);
    regroup(kind, d, " slots × "@);
}

/// While a slot is in progress the bar tells it, what is done to it, and the
/// share that is done. There is no bar once the operation is finished and no
/// slot is in progress.
pub proof fn bars_tell_the_slot(
    s: OpFoldView,
    label: Seq<char>,
    percent: u32,
    timing: Option<(u64, u64)>,
)
    ensures
        bar_line(s, label, percent, timing) is None <==> s.finished && s.progress is None,
        s.progress matches Some(p) ==> {
            let t = bar_line(s, label, percent, timing)->0;
            &&& has_part(t, s.verb + " "@ + p.0 + ":"@ + dec(p.1 as nat))
            &&& has_part(t, dec(percent as nat) + "% · "@)
            &&& timing matches Some(x) ==> has_part(t, bytes_text(x.1) + "/s"@)
        },
        !s.saw_event && !s.finished && s.progress is None ==> has_part(
            bar_line(s, label, percent, timing)->0,
            "waiting for elevation"@,
        ),
{
    waiting_words();
    grow(label, " — waiting for elevation approval…"@);
    if let Some(p) = s.progress {
        let b = crate::gui::rows::bar_bytes(s)->0;
        let head = s.verb + " "@ + p.0 + ":"@ + dec(p.1 as nat);
        let pc = dec(percent as nat) + "% · "@;
        let done = bytes_text(b.0 as u64);
        let total = bytes_text(b.1 as u64);
        let counts = " — "@ + dec(percent as nat) + "% · "@ + done + " / "@ + total;
        grow(" — "@, pc);
        regroup(" — "@, dec(percent as nat), "% · "@);
        grow(" — "@ + pc, done);
        grow(" — "@ + pc + done, " / "@);
        grow(" — "@ + pc + done + " / "@, total);
        let whole = if s.agg_total matches Some(t) && t > 0 {
            " total"@
        } else {
            ""@
        };
        let time = crate::gui::rows::timing_text(timing);
        grow(head, counts);
        crate::laws::commands::part_in_more(head, counts, whole, pc);
        grow(head + counts, whole);
        grow(head + counts + whole, time);
        if let Some(x) = timing {
            let rate = bytes_text(x.1) + "/s"@;
            let front = " · "@ + crate::gui::ops::elapsed_text(x.0) + " · "@;
            grow(front, rate);
            regroup(front, bytes_text(x.1), "/s"@);
            crate::laws::commands::part_in_more(
                head + counts + whole,
                time,
                Seq::<char>::empty(),
                rate,
            );
        }
    }
}

proof fn waiting_words()
    ensures
        forall|label: Seq<char>| has_part(
            #[trigger] (label + " — waiting for elevation approval…"@),
            "waiting for elevation"@,
        ),
{
    reveal_strlit(" — waiting for elevation approval…");
    reveal_strlit("waiting for elevation");
    reveal_strlit(" — ");
    reveal_strlit(" approval…");
    let w = "waiting for elevation"@;
    assert(" — waiting for elevation approval…"@ =~= " — "@ + w + " approval…"@);
    crate::laws::commands::part_between(" — "@, w, " approval…"@);
    assert forall|label: Seq<char>| has_part(
        #[trigger] (label + " — waiting for elevation approval…"@),
        w,
    ) by {
        crate::laws::commands::part_in_more(
            label,
            " — waiting for elevation approval…"@,
            Seq::<char>::empty(),
            w,
        );
    }
}

/// A line of the preview tells the slot, its byte range and the file, and where
/// the file is missing that the slot is skipped.
pub proof fn previews_tell_every_write(p: PlannedWriteView, file: Seq<char>)
    ensures
        has_part(planned_text(p, file), p.bank + ":"@ + dec(p.unit as nat)),
        has_part(
            planned_text(p, file),
            crate::text::range_text(p.offset as int, p.offset + p.slot_len),
        ),
        has_part(planned_text(p, file), "  <- "@ + file),
        p.missing ==> has_part(planned_text(p, file), "  (file not found — will be skipped)"@),
{
    let slot = p.bank + ":"@ + dec(p.unit as nat);
    let range = crate::text::range_text(p.offset as int, p.offset + p.slot_len);
    let from = "  <- "@ + file;
    let note = if p.missing {
        "  (file not found — will be skipped)"@
    } else {
        ""@
    };
    grow(slot, "  bytes "@);
    grow(slot + "  bytes "@, range);
    grow(slot + "  bytes "@ + range, from);
    regroup(slot + "  bytes "@ + range, "  <- "@, file);
    grow(slot + "  bytes "@ + range + from, note);
    assert(crate::layout::slot_name((p.bank, p.unit)) == slot);
}

/// The preview says how many slots have no image, where some have none; how many
/// files are missing, where some are; and last whether writes are verified.
pub proof fn previews_count_what_is_left_out(
    planned: Seq<PlannedWriteView>,
    no_image: nat,
    verify: bool,
)
    ensures
        ({
            let t = preview_text(planned, no_image, verify);
            let go = present(planned).len();
            &&& t.len() == (if no_image > 0 {
                1int
            } else {
                0
            }) + (if go != planned.len() {
                2int
            } else {
                0
            }) + 1
            &&& no_image > 0 ==> has_part(t[0], dec(no_image) + " selected slot(s) have no image"@)
            &&& go != planned.len() ==> has_part(
                t[t.len() - 3],
                dec((planned.len() - go) as nat) + " image file(s) are missing"@,
            )
            &&& 0 < go < planned.len() ==> has_part(
                t[t.len() - 2],
                dec(go) + " present image(s)"@,
            )
            &&& t.last() == if verify {
                "Only the listed slots are touched; each write is verified."@
            } else {
                "Only the listed slots are touched; verify after write is disabled in Settings."@
            }
        }),
{
    present_are_few(planned);
    let go = present(planned).len();
    let gone = (planned.len() - go) as nat;
    preview_words();
    grow(dec(no_image) + " selected slot(s) have no image"@, " and are ignored."@);
    regroup(dec(no_image), " selected slot(s) have no image"@, " and are ignored."@);
    let rest = " on this PC and will be SKIPPED; their slots are left untouched."@;
    grow(dec(gone) + " image file(s) are missing"@, rest);
    regroup(dec(gone), " image file(s) are missing"@, rest);
    let a = "Continue and write only the "@;
    grow(a, dec(go) + " present image(s)"@);
    grow(a + (dec(go) + " present image(s)"@), "?"@);
    regroup(a, dec(go), " present image(s)"@);
    regroup(a + dec(go), " present image(s)"@, "?"@);
}

proof fn preview_words()
    ensures
        " selected slot(s) have no image and are ignored."@ == " selected slot(s) have no image"@
            + " and are ignored."@,
        " image file(s) are missing on this PC and will be SKIPPED; their slots are left untouched."@
            == " image file(s) are missing"@
            + " on this PC and will be SKIPPED; their slots are left untouched."@,
        " present image(s)?"@ == " present image(s)"@ + "?"@,
{
    reveal_strlit(" selected slot(s) have no image and are ignored.");
    reveal_strlit(" selected slot(s) have no image");
    reveal_strlit(" and are ignored.");
    assert(" selected slot(s) have no image and are ignored."@
        =~= " selected slot(s) have no image"@ + " and are ignored."@);
    reveal_strlit(
        " image file(s) are missing on this PC and will be SKIPPED; their slots are left untouched.",
    );
    reveal_strlit(" image file(s) are missing");
    reveal_strlit(" on this PC and will be SKIPPED; their slots are left untouched.");
    assert(" image file(s) are missing on this PC and will be SKIPPED; their slots are left untouched."@
        =~= " image file(s) are missing"@
        + " on this PC and will be SKIPPED; their slots are left untouched."@);
    reveal_strlit(" present image(s)?");
    reveal_strlit(" present image(s)");
    reveal_strlit("?");
    assert(" present image(s)?"@ =~= " present image(s)"@ + "?"@);
}

proof fn present_are_few(planned: Seq<PlannedWriteView>)
    ensures
        present(planned).len() <= planned.len(),
    decreases planned.len(),
{
    if planned.len() > 0 {
        present_are_few(planned.drop_last());
    }
}

/// The byte range of a slot is that of the first bank of its name: its size, at
/// its unit's place behind the bank's base.
pub proof fn slot_ranges_follow_the_bank(layout: LayoutView, bank: Seq<char>, unit: u32, i: int)
    requires
        0 <= i < layout.banks.len(),
        layout.banks[i].name == bank,
        forall|k: int| 0 <= k < i ==> (#[trigger] layout.banks[k]).name != bank,
    ensures
        extent_of(layout, bank, unit) matches Some(x) && x.0 == layout.banks[i].base
            + layout.banks[i].slot_size * unit && x.1 == x.0 + x.2 && x.2
            == layout.banks[i].slot_size,
{
    let f = crate::layout::bank_named(bank);
    assert(f(layout.banks[i]));
    assert forall|k: int| 0 <= k < i implies !f(#[trigger] layout.banks[k]) by {}
    first_where_is(layout.banks, f, i);
    let b = layout.banks[i];
    assert(b.slot_size * unit == unit * b.slot_size) by (nonlinear_arith);
}

/// An image is labelled by its file name, or else by its path.
pub proof fn images_are_labelled_by_file_name(path: Seq<char>, name: Seq<char>)
    ensures
        label_of(path, Some(name)) == name,
        label_of(path, None) == path,
{
}

/// A started command is told by its name, and to a developer as a command line of
/// the tool.
pub proof fn started_commands_are_told(cmd: CliCommandView)
    ensures
        has_part(start_text(cmd, false), cmd.label()),
        start_text(cmd, true).len() >= 2,
        start_text(cmd, true).take(2) == "$ "@,
{
    grow("starting "@, cmd.label());
    grow("starting "@ + cmd.label(), "…"@);
    reveal_strlit("$ ");
    assert("$ "@.len() == 2);
    assert(start_text(cmd, true).take(2) =~= "$ "@);
}

} // verus!
