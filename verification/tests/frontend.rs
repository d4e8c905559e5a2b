use std::time::Duration;

use sdslot::device::DeviceInfo;
use sdslot::engine::plan::{ImageFact, ImageFacts};
use sdslot::events::{Event, OpKind, SlotState};
use sdslot::gui::args::{parse_args, Launch, ThemeKind};
use sdslot::gui::backend::{
    administrator_script, connected_args, equivalent_command, launch_parameters, needs_elevation,
    piped_args, shell_quote, sudo_hint, CliCommand,
};
use sdslot::gui::card::{
    bank_overflows, caption, card_scale, highlight, hover_text, occupied_bytes, overflow_message,
    overflow_tone, suggest_card, Tone,
};
use sdslot::gui::devices::DeviceEntry;
use sdslot::gui::dialogs::{
    extract_line, plan_selected_writes, planned_lines, present_slots, preview_notes, slot_range,
    start_line, wipe_line, LengthChoice, Modal, ModalOutcome, PlannedWrite,
};
use sdslot::gui::icon::{icon_rgba, ICON_SIZE};
use sdslot::gui::log::{Log, LOG_LINES};
use sdslot::gui::ops::{
    format_elapsed, needs_write, GuiMsg, LogMsg, OpFold, SlotOutcome, SlotUpdate, SlotView,
    ViewState,
};
use sdslot::gui::options::{Options, Switch, Warning};
use sdslot::gui::poll::{absorb, message_fits};
use sdslot::gui::rows::{
    bank_note, bar_counts, bar_text, device_row, missing_image, ready_for_ops, row_name,
    state_label, status_cell,
};
use sdslot::gui::slots::{
    bank_ticked, hidden_total, pick_slots, prune_hidden, select, selection_after_scan, slot_is_empty,
    slot_occupied, tick_bank, Pick, SlotSet, SlotStates,
};
use sdslot::gui::target::{states_are_stale, Target};
use sdslot::layout::Layout;
use sdslot::manifest::{resolve, RawBank, RawManifest, RawSlot};

fn device(path: &str, size: Option<u64>, removable: Option<bool>, system: bool) -> DeviceEntry {
    DeviceEntry {
        path: path.to_string(),
        model: "SD Card".to_string(),
        bus: "USB".to_string(),
        size_bytes: size,
        removable,
        system,
    }
}

fn entry() -> DeviceEntry {
    device("/dev/sdb", Some(16_000_000_000), Some(true), false)
}

#[test]
fn label_notes_removable_and_system() {
    assert!(entry().label().contains("removable"));
    let sys = DeviceEntry {
        system: true,
        ..entry()
    };
    assert!(sys.label().contains("SYSTEM DISK"));
}

#[test]
fn label_is_spelled_out() {
    let d = device("/dev/sdb", Some(16 << 30), Some(true), true);
    assert_eq!(
        d.label(),
        "SD Card — 16 GiB (USB), removable [SYSTEM DISK]"
    );
    assert_eq!(device("x", None, None, false).label(), "SD Card — ? (USB)");
}

#[test]
fn media_and_removability_predicates() {
    assert!(entry().has_media());
    assert!(entry().is_removable());
    let empty = DeviceEntry {
        size_bytes: Some(0),
        removable: None,
        ..entry()
    };
    assert!(!empty.has_media());
    assert!(!empty.is_removable());
}

#[test]
fn entries_come_from_enumerated_devices() {
    let d = DeviceEntry::of(DeviceInfo {
        path: "/dev/sdc".to_string(),
        model: "Reader".to_string(),
        bus: "usb".to_string(),
        size_bytes: None,
        sector_size: Some(512),
        removable: Some(true),
        system: false,
    });
    assert_eq!(d.path, "/dev/sdc");
    assert_eq!(d.block_reason(), "no media");
    assert!(!d.selectable(true));
}

fn slot_view(u: &((String, u32), SlotUpdate)) -> Option<(ViewState, Option<u64>)> {
    match &u.1 {
        SlotUpdate::Status(v) => Some((v.state, v.length)),
        SlotUpdate::Outcome(SlotOutcome::SetTo { state, length }) => Some((*state, *length)),
        SlotUpdate::Outcome(SlotOutcome::Cleared) => {
            Some((ViewState::Core(SlotState::Wiped), None))
        }
    }
}

fn start(op: OpKind, bank: &str, unit: u32, bytes: u64) -> GuiMsg {
    GuiMsg::Event(Event::SlotStart {
        op,
        bank: bank.to_string(),
        unit,
        bytes,
    })
}

fn end(op: OpKind, bank: &str, unit: u32, ok: bool, detail: Option<&str>) -> GuiMsg {
    GuiMsg::Event(Event::SlotEnd {
        op,
        bank: bank.to_string(),
        unit,
        ok,
        detail: detail.map(|d| d.to_string()),
    })
}

#[test]
fn only_a_matching_slot_needs_no_write() {
    assert!(!needs_write(Some(ViewState::Core(SlotState::Matches))));
    for state in [
        SlotState::Differs,
        SlotState::Modified,
        SlotState::Wiped,
        SlotState::Unknown,
    ] {
        assert!(needs_write(Some(ViewState::Core(state))));
    }
    assert!(needs_write(Some(ViewState::Written)));
    assert!(needs_write(None));
}

#[test]
fn format_elapsed_picks_the_right_units() {
    assert_eq!(format_elapsed(Duration::from_secs(0).as_secs()), "0s");
    assert_eq!(format_elapsed(Duration::from_secs(59).as_secs()), "59s");
    assert_eq!(format_elapsed(Duration::from_secs(60).as_secs()), "1m 00s");
    assert_eq!(format_elapsed(Duration::from_secs(65).as_secs()), "1m 05s");
    assert_eq!(
        format_elapsed(Duration::from_secs(3599).as_secs()),
        "59m 59s"
    );
    assert_eq!(
        format_elapsed(Duration::from_secs(3600).as_secs()),
        "1h 00m"
    );
    assert_eq!(
        format_elapsed(Duration::from_secs(3725).as_secs()),
        "1h 02m"
    );
}

#[test]
fn phase_start_resets_the_aggregate() {
    let mut fold = OpFold::new("write");
    fold.agg_done = 999;
    let (_, _) = fold.apply(GuiMsg::Event(Event::PhaseStart {
        op: OpKind::Write,
        bytes: 4096,
    }));
    assert_eq!(fold.agg_total, Some(4096));
    assert_eq!(fold.agg_done, 0);
    assert!(fold.phase_started_at.is_some());
}

#[test]
fn write_then_verify_phases_each_get_their_own_aggregate() {
    let mut fold = OpFold::new("write");
    fold.apply(GuiMsg::Event(Event::PhaseStart {
        op: OpKind::Write,
        bytes: 1000,
    }));
    fold.apply(start(OpKind::Write, "rl", 0, 1000));
    fold.apply(end(OpKind::Write, "rl", 0, true, None));
    assert_eq!(fold.agg_done, 1000);

    fold.apply(GuiMsg::Event(Event::PhaseStart {
        op: OpKind::Verify,
        bytes: 1000,
    }));
    assert_eq!(fold.agg_done, 0);
    assert_eq!(fold.agg_total, Some(1000));
}

#[test]
fn slot_end_folds_bytes_into_the_aggregate_for_status_too() {
    let mut fold = OpFold::new("status");
    fold.apply(GuiMsg::Event(Event::PhaseStart {
        op: OpKind::Status,
        bytes: 2048,
    }));
    fold.apply(start(OpKind::Status, "rl", 0, 2048));
    let (lines, _) = fold.apply(end(OpKind::Status, "rl", 0, true, None));
    assert_eq!(fold.agg_done, 2048);
    assert_eq!(fold.progress, None);
    assert!(lines.is_empty());
}

#[test]
fn write_slot_end_produces_written_outcome() {
    let mut fold = OpFold::new("write");
    fold.apply(start(OpKind::Write, "rl", 1, 512));
    let (lines, updates) = fold.apply(end(OpKind::Write, "rl", 1, true, None));
    assert_eq!(updates.len(), 1);
    assert!(matches!(
        slot_view(&updates[0]),
        Some((ViewState::Written, Some(512)))
    ));
    assert!(matches!(&lines[0], LogMsg::Complete { suffix, .. } if suffix == " Ok."));
}

#[test]
fn failed_verify_marks_the_slot_differing() {
    let mut fold = OpFold::new("verify");
    fold.apply(start(OpKind::Verify, "rp", 0, 256));
    let (_, updates) = fold.apply(end(OpKind::Verify, "rp", 0, false, Some("mismatch")));
    assert!(matches!(
        slot_view(&updates[0]),
        Some((ViewState::Core(SlotState::Differs), Some(256)))
    ));
}

#[test]
fn successful_wipe_clears_the_slot() {
    let mut fold = OpFold::new("wipe");
    let (_, updates) = fold.apply(end(OpKind::Wipe, "rl", 2, true, None));
    assert!(matches!(
        &updates[0].1,
        SlotUpdate::Outcome(SlotOutcome::Cleared)
    ));
}

#[test]
fn note_event_logs_its_message() {
    let mut fold = OpFold::new("write");
    let (lines, updates) = fold.apply(GuiMsg::Event(Event::Note {
        message: "\\\\.\\PhysicalDrive2 ejected — safe to remove".to_string(),
    }));
    assert!(updates.is_empty());
    assert!(matches!(&lines[0], LogMsg::New(l) if l.contains("ejected")));
}

#[test]
fn exited_marks_finished_and_notes_a_nonzero_code() {
    let mut fold = OpFold::new("write");
    fold.progress = Some(("rl".to_string(), 0, 10, 100));
    let (lines, _) = fold.apply(GuiMsg::Exited(Some(1)));
    assert!(fold.finished);
    assert_eq!(fold.exit_code, Some(1));
    assert!(fold.progress.is_none());
    assert!(matches!(&lines[0], LogMsg::New(l) if l.contains("CLI exited")));
    assert!(matches!(&lines[0], LogMsg::New(l) if l == "CLI exited with Some(1)"));
}

#[test]
fn an_exit_without_a_code_says_so() {
    let mut fold = OpFold::new("write");
    let (lines, _) = fold.apply(GuiMsg::Exited(None));
    assert!(matches!(&lines[0], LogMsg::New(l) if l == "CLI exited with None"));
    let mut fold = OpFold::new("write");
    let (lines, _) = fold.apply(GuiMsg::Exited(Some(0)));
    assert!(lines.is_empty());
}

#[test]
fn canceled_exit_gets_its_own_note_not_the_exit_code_line() {
    let mut fold = OpFold::new("write");
    fold.request_cancel();
    let (lines, _) = fold.apply(GuiMsg::Exited(Some(1)));
    assert_eq!(lines.len(), 1);
    assert!(matches!(&lines[0], LogMsg::New(l) if l.contains("canceled")));
}

#[test]
fn failures_are_logged_with_their_reason() {
    let mut fold = OpFold::new("write");
    let (lines, _) = fold.apply(end(OpKind::Write, "rl", 0, false, Some("disk gone")));
    assert!(matches!(&lines[0], LogMsg::Complete { start, suffix, fallback }
        if start == "write rl:0…" && suffix == " FAILED: disk gone"
        && fallback == "write rl:0 FAILED: disk gone"));
    let (lines, _) = fold.apply(GuiMsg::Event(Event::Done {
        ok: false,
        detail: Some("x".to_string()),
    }));
    assert!(matches!(&lines[0], LogMsg::New(l) if l == "failed: x"));
    let (lines, _) = fold.apply(GuiMsg::Event(Event::Error {
        message: "y".to_string(),
    }));
    assert!(matches!(&lines[0], LogMsg::New(l) if l == "error: y"));
    let (lines, _) = fold.apply(GuiMsg::Note("z".to_string()));
    assert!(matches!(&lines[0], LogMsg::New(l) if l == "z"));
}

#[test]
fn theme_kind_parses() {
    assert_eq!(ThemeKind::parse("default").unwrap(), ThemeKind::Default);
    assert_eq!(ThemeKind::parse("PDP").unwrap(), ThemeKind::Pdp);
    assert_eq!(ThemeKind::parse("pdp11").unwrap(), ThemeKind::Pdp);
    assert!(ThemeKind::parse("solarized").is_err());
}

fn launch(args: &[&str]) -> Launch {
    let v: Vec<Option<String>> = args.iter().map(|a| Some(a.to_string())).collect();
    parse_args(&v)
}

#[test]
fn launch_arguments() {
    assert!(matches!(
        launch(&[]),
        Launch::Open { manifest: None, theme: ThemeKind::Default }
    ));
    assert!(matches!(
        launch(&["--theme", "pdp", "card.toml"]),
        Launch::Open { manifest: Some(2), theme: ThemeKind::Pdp }
    ));
    assert!(matches!(
        launch(&["-m", "-odd.toml"]),
        Launch::Open { manifest: Some(1), .. }
    ));
    assert!(matches!(launch(&["-"]), Launch::Open { manifest: Some(0), .. }));
    assert!(matches!(launch(&["x", "-h"]), Launch::Help));
    assert!(matches!(launch(&["--version"]), Launch::Version));
    assert!(matches!(
        parse_args(&vec![None]),
        Launch::Open { manifest: Some(0), .. }
    ));
    let refused = |args: &[&str], text: &str, shown: bool| match launch(args) {
        Launch::Refused { message, usage } => {
            assert_eq!(message, text);
            assert_eq!(usage, shown);
        }
        other => panic!("{other:?}"),
    };
    refused(&["-m"], "--manifest needs a file argument", false);
    refused(&["--theme"], "--theme needs a name argument", false);
    refused(&["--theme", "x"], "unknown theme \"x\": expected default | pdp", true);
    refused(&["--wat"], "unknown option \"--wat\"", true);
    refused(&["a", "b"], "more than one layout manifest given", true);
}

#[test]
fn commands_become_arguments() {
    let write = CliCommand::Write {
        device: "/dev/sdb".to_string(),
        manifest: "my card.toml".to_string(),
        slots: vec!["rl:0".to_string(), "rl:1=a\"b.img".to_string()],
        verify: true,
        yes: true,
        force: false,
        eject: true,
    };
    let args = write.to_args();
    assert_eq!(
        args,
        vec![
            "write", "--device", "/dev/sdb", "--manifest", "my card.toml", "--slot", "rl:0",
            "--slot", "rl:1=a\"b.img", "--verify", "--yes", "--eject",
        ]
    );
    assert_eq!(
        equivalent_command(&args),
        "sdslot write --device /dev/sdb --manifest \"my card.toml\" --slot rl:0 \
         --slot \"rl:1=a\\\"b.img\" --verify --yes --eject"
    );
    assert_eq!(write.label(), "write");
    assert_eq!(write.device(), Some("/dev/sdb"));
    assert!(needs_elevation(write.device()));
    assert_eq!(piped_args(&CliCommand::List), vec!["list", "--json"]);
    assert_eq!(CliCommand::List.device(), None);
    assert!(!needs_elevation(None));
    assert!(!needs_elevation(Some("card.img")));
    let eject = CliCommand::Eject {
        device: "d".to_string(),
    };
    assert_eq!(
        connected_args(&eject, "127.0.0.1:9"),
        vec!["eject", "--device", "d", "--json-port", "127.0.0.1:9"]
    );
}

#[test]
fn every_command_has_its_arguments() {
    let s = |t: &str| t.to_string();
    let line = |c: CliCommand| equivalent_command(&c.to_args());
    assert_eq!(
        line(CliCommand::Status {
            device: s("d"),
            manifest: Some(s("m"))
        }),
        "sdslot status --device d --manifest m"
    );
    assert_eq!(
        line(CliCommand::Status {
            device: s("d"),
            manifest: None
        }),
        "sdslot status --device d"
    );
    assert_eq!(
        line(CliCommand::Read {
            device: s("d"),
            manifest: s("m"),
            slots: vec![s("a:1")],
            out: Some(s("o")),
            out_dir: Some(s("p")),
            length: Some(s("toc")),
        }),
        "sdslot read --device d --manifest m --slot a:1 -o o --out-dir p --length toc"
    );
    assert_eq!(
        line(CliCommand::Wipe {
            device: s("d"),
            manifest: s("m"),
            slots: vec![s("a:1"), s("a:2")],
            yes: true,
            force: true,
        }),
        "sdslot wipe --device d --manifest m --slot a:1 --slot a:2 --yes --force"
    );
    assert_eq!(
        line(CliCommand::Verify {
            device: s("d"),
            manifest: s("m"),
            slots: vec![],
        }),
        "sdslot verify --device d --manifest m"
    );
    assert_eq!(
        line(CliCommand::Image {
            manifest: s("m"),
            out: s("o"),
            slots: vec![],
            verify: true,
            yes: true,
        }),
        "sdslot image --manifest m -o o --verify --yes"
    );
}

#[test]
fn arguments_are_quoted_where_needed() {
    assert_eq!(shell_quote(""), "\"\"");
    assert_eq!(shell_quote("plain"), "plain");
    assert_eq!(shell_quote("a b"), "\"a b\"");
    assert_eq!(shell_quote("a\"b"), "\"a\\\"b\"");
    let args = vec!["it's".to_string(), "b c".to_string()];
    assert_eq!(launch_parameters(&args), "it's \"b c\"");
    assert_eq!(
        administrator_script("/bin/x", &args),
        "do shell script \"'/bin/x' 'it'\\\\''s' 'b c'\" with administrator privileges"
    );
    assert_eq!(
        sudo_hint(&args),
        "pkexec is not available; run this from a terminal instead: sudo sdslot it's \"b c\""
    );
}

fn raw_slot(unit: u32, name: Option<&str>, image: Option<&str>) -> RawSlot {
    RawSlot {
        unit,
        name: name.map(|s| s.to_string()),
        image: image.map(|s| s.to_string()),
    }
}

/// Bank `rl`: four 1 MiB slots at 16 MiB, unit 0 and 2 with images.
fn layout() -> Layout {
    let raw = RawManifest {
        sector_size: Some(512),
        toc: Some("8MiB".to_string()),
        allow_unaligned: None,
        bank: vec![RawBank {
            name: "rl".to_string(),
            base: "16MiB".to_string(),
            slot_size: "1MiB".to_string(),
            units: 4,
            drive_type: None,
            slot: vec![
                raw_slot(0, Some("alpha"), Some("/x/alpha.img")),
                raw_slot(1, Some("named"), None),
                raw_slot(2, None, Some("/x/beta.img")),
            ],
        }],
        drive_types: vec![],
    };
    resolve(&raw, "/x").unwrap()
}

fn facts() -> ImageFacts {
    ImageFacts {
        entries: vec![
            ("/x/alpha.img".to_string(), ImageFact::File(700_000)),
            (
                "/x/beta.img".to_string(),
                ImageFact::Missing("gone".to_string()),
            ),
        ],
    }
}

fn status(state: SlotState) -> SlotUpdate {
    SlotUpdate::Status(SlotView {
        state: ViewState::Core(state),
        name: Some("known".to_string()),
        length: Some(512),
    })
}

#[test]
fn slot_states_follow_updates() {
    let mut s = SlotStates::new();
    assert!(s.get("rl", 0).is_none());
    s.apply("rl", 0, status(SlotState::Matches));
    s.apply(
        "rl",
        0,
        SlotUpdate::Outcome(SlotOutcome::SetTo {
            state: ViewState::Busy(OpKind::Write),
            length: None,
        }),
    );
    let v = s.get("rl", 0).unwrap();
    assert_eq!(v.state, ViewState::Busy(OpKind::Write));
    assert_eq!(v.name.as_deref(), Some("known"));
    assert_eq!(v.length, Some(512));
    s.apply("rl", 1, SlotUpdate::Outcome(SlotOutcome::Cleared));
    assert_eq!(
        s.get("rl", 1).unwrap().state,
        ViewState::Core(SlotState::Wiped)
    );
    s.apply(
        "rl",
        2,
        SlotUpdate::Outcome(SlotOutcome::SetTo {
            state: ViewState::Busy(OpKind::Verify),
            length: Some(9),
        }),
    );
    s.settle();
    assert_eq!(
        s.get("rl", 0).unwrap().state,
        ViewState::Core(SlotState::Differs)
    );
    assert_eq!(s.get("rl", 2).unwrap().state, ViewState::Written);
    assert_eq!(s.get("rl", 2).unwrap().length, Some(9));
    assert!(s.get("rp", 0).is_none());
}

#[test]
fn occupancy_and_emptiness() {
    let l = layout();
    let bank = &l.banks[0];
    let mut s = SlotStates::new();
    assert!(slot_occupied(&s, bank, 0));
    assert!(!slot_occupied(&s, bank, 1));
    assert!(!slot_is_empty(&s, bank, 1));
    assert!(slot_is_empty(&s, bank, 3));
    s.apply("rl", 3, status(SlotState::Modified));
    assert!(slot_occupied(&s, bank, 3));
    assert!(!slot_is_empty(&s, bank, 3));
    s.apply("rl", 1, status(SlotState::Wiped));
    assert!(!slot_occupied(&s, bank, 1));
}

#[test]
fn selections() {
    let l = layout();
    let f = facts();
    let s = SlotStates::new();
    let auto = select(&Pick::ImageOnDisk(&f), &l);
    assert_eq!(auto.len(), 1);
    assert!(auto.contains("rl", 0));
    let all = select(
        &Pick::Visible {
            states: &s,
            hide_empty: true,
        },
        &l,
    );
    assert_eq!(all.len(), 3);
    assert_eq!(hidden_total(&l, &s, true), 1);
    assert_eq!(hidden_total(&l, &s, false), 0);
    let order = pick_slots(&Pick::Ticked(&all), &l);
    assert_eq!(
        order,
        vec![
            ("rl".to_string(), 0),
            ("rl".to_string(), 1),
            ("rl".to_string(), 2)
        ]
    );
    let mut set = SlotSet::new();
    set.insert("rl", 3);
    set.insert("rl", 3);
    set.insert("rl", 0);
    assert_eq!(set.len(), 2);
    prune_hidden(&mut set, &l, &s, true);
    assert!(!set.contains("rl", 3));
    assert!(set.contains("rl", 0));
    assert!(!bank_ticked(&l.banks[0], &set, &s, true));
    tick_bank(&l.banks[0], &mut set, &s, true, true);
    assert!(bank_ticked(&l.banks[0], &set, &s, true));
    assert!(!set.contains("rl", 3));
    set.tick("rl", 0, false);
    assert!(!set.contains("rl", 0));
}

#[test]
fn a_completed_scan_narrows_the_selection() {
    let l = layout();
    let f = facts();
    let mut s = SlotStates::new();
    let fresh = || {
        let mut set = SlotSet::new();
        set.insert("rl", 3);
        set
    };
    let needed = selection_after_scan(fresh(), true, true, &l, &s, &f);
    assert_eq!(needed.len(), 1);
    assert!(needed.contains("rl", 0));
    s.apply("rl", 0, status(SlotState::Matches));
    let needed = selection_after_scan(fresh(), true, true, &l, &s, &f);
    assert_eq!(needed.len(), 0);
    assert!(selection_after_scan(fresh(), true, false, &l, &s, &f).contains("rl", 3));
    assert!(selection_after_scan(fresh(), false, true, &l, &s, &f).contains("rl", 3));
}

#[test]
fn target_follows_the_device_path() {
    let mut t = Target::new();
    assert_eq!(t.label(), "(select a device)");
    let sda = device("/dev/sda", Some(1 << 40), Some(false), true);
    let sdb = entry();
    let sdc = device("/dev/sdc", Some(8_000_000_000), Some(false), false);
    let news = t.apply_devices(vec![sda.clone(), sdb.clone()], true, false, false, false);
    assert_eq!(news, vec!["device list updated (hotplug)"]);
    assert_eq!(t.selected, None);
    t.choose_device(1);
    assert_eq!(t.device_arg().as_deref(), Some("/dev/sdb"));
    assert!(!t.needs_force());
    assert!(t.is_device());
    let news = t.apply_devices(vec![sdb.clone(), sda.clone()], false, false, false, false);
    assert!(news.is_empty());
    assert_eq!(t.selected, Some(0));
    assert_eq!(t.card_size(), Some(16_000_000_000));
    t.apply_devices(vec![sda.clone()], true, false, false, false);
    assert_eq!(t.device_arg(), None);
    t.apply_devices(vec![sda.clone(), sdc.clone()], true, true, false, false);
    t.choose_device(1);
    assert!(t.needs_force());
    t.prune(true);
    assert_eq!(t.selected, Some(1));
    t.prune(false);
    assert_eq!(t.selected, None);
    t.choose_file("card.img".to_string());
    assert_eq!(t.label(), "file: card.img");
    assert_eq!(t.card_size(), None);
    assert!(!t.is_device());
}

#[test]
fn auto_select_takes_the_first_removable_disk() {
    let list = || {
        vec![
            device("/dev/sda", Some(1 << 40), Some(true), true),
            device("/dev/sdb", None, Some(true), false),
            entry(),
        ]
    };
    let mut t = Target::new();
    let news = t.apply_devices(list(), false, false, true, false);
    assert_eq!(t.selected, Some(2));
    assert_eq!(news, vec!["auto-selected removable disk: /dev/sdb"]);
    let mut busy = Target::new();
    busy.apply_devices(list(), false, false, true, true);
    assert_eq!(busy.selected, None);
    let mut file = Target::new();
    file.choose_file("x".to_string());
    file.apply_devices(list(), false, false, true, false);
    assert_eq!(file.selected, None);
}

#[test]
fn statuses_go_stale_with_another_target() {
    assert!(!states_are_stale(Some("a"), None));
    assert!(!states_are_stale(Some("a"), Some("a")));
    assert!(states_are_stale(Some("a"), Some("b")));
    assert!(states_are_stale(None, Some("b")));
}

#[test]
fn the_log_keeps_its_last_lines() {
    let mut log = Log::new();
    for i in 0..LOG_LINES + 5 {
        log.push(format!("{i}"));
    }
    assert_eq!(log.lines.len(), LOG_LINES);
    assert_eq!(log.lines[0], "5");
    log.apply(LogMsg::New("write rl:0…".to_string()));
    let done = || LogMsg::Complete {
        start: "write rl:0…".to_string(),
        suffix: " Ok.".to_string(),
        fallback: "write rl:0 Ok.".to_string(),
    };
    log.apply(done());
    assert_eq!(log.lines.last().unwrap(), "write rl:0… Ok.");
    log.apply(done());
    assert_eq!(log.lines.last().unwrap(), "write rl:0 Ok.");
}

#[test]
fn a_batch_of_messages_is_taken_in() {
    let mut fold = OpFold::new("write");
    let mut states = SlotStates::new();
    let mut log = Log::new();
    let first = start(OpKind::Write, "rl", 0, 10);
    assert!(message_fits(&fold, &first));
    absorb(
        &mut fold,
        &mut states,
        &mut log,
        vec![first, end(OpKind::Write, "rl", 0, true, None)],
    );
    assert_eq!(states.get("rl", 0).unwrap().state, ViewState::Written);
    assert_eq!(log.lines, vec!["write rl:0… Ok."]);
    absorb(
        &mut fold,
        &mut states,
        &mut log,
        vec![start(OpKind::Wipe, "rl", 1, 10), GuiMsg::Exited(Some(0))],
    );
    assert_eq!(
        states.get("rl", 1).unwrap().state,
        ViewState::Core(SlotState::Differs)
    );
    assert!(fold.finished);
    fold.agg_kind = Some(OpKind::Wipe);
    fold.agg_done = u64::MAX;
    fold.progress = Some(("rl".to_string(), 1, 0, 10));
    assert!(!message_fits(&fold, &end(OpKind::Wipe, "rl", 1, true, None)));
}

#[test]
fn defaults_are_safe_and_verify_is_on() {
    let d = Options::default();
    assert!(!d.show_all);
    assert!(!d.advanced);
    assert!(!d.select_first_removable);
    assert!(d.verify);
    assert!(d.eject_after_write);
    assert!(d.select_needed);
    assert!(!d.hide_empty_slots);
    assert!(!d.hide_log);
    assert!(!d.developer_mode);
}

#[test]
fn switches_and_warnings() {
    let mut o = Options::default();
    let f = o.flip(Switch::Advanced, true);
    assert_eq!(f.ask, Some(Warning::Advanced));
    assert!(!o.advanced && !f.save);
    assert_eq!(
        o.enable(Warning::Advanced),
        "advanced mode enabled: non-removable disks are selectable"
    );
    assert!(o.advanced);
    let f = o.flip(Switch::Advanced, false);
    assert!(f.prune_device && f.save && !o.advanced);
    let f = o.flip(Switch::HideEmpty, true);
    assert!(f.prune_slots && o.hide_empty_slots);
    let f = o.flip(Switch::AutoSelect, true);
    assert_eq!(f.ask, Some(Warning::AutoSelect));
    o.enable(Warning::AutoSelect);
    assert!(o.select_first_removable);
    assert!(o.flip(Switch::ShowAll, true).prune_device && o.show_all);
    o.flip(Switch::Verify, false);
    o.flip(Switch::Eject, false);
    o.flip(Switch::Needed, false);
    o.flip(Switch::HideLog, true);
    o.flip(Switch::Developer, true);
    assert!(!o.verify && !o.eject_after_write && !o.select_needed);
    assert!(o.hide_log && o.developer_mode);
}

fn planned() -> Vec<PlannedWrite> {
    let l = layout();
    let selected = vec![
        ("rl".to_string(), 0),
        ("rl".to_string(), 1),
        ("rl".to_string(), 2),
    ];
    let (planned, no_image) = plan_selected_writes(&l, &selected, &facts()).unwrap();
    assert_eq!(no_image, 1);
    planned
}

#[test]
fn the_write_preview_lists_and_skips() {
    let p = planned();
    assert_eq!(p.len(), 2);
    assert_eq!(present_slots(&p), vec![("rl".to_string(), 0)]);
    assert_eq!(
        planned_lines(&p),
        vec![
            (
                "rl:0  bytes 0x0001000000..0x0001100000  <- alpha.img".to_string(),
                false
            ),
            (
                "rl:2  bytes 0x0001200000..0x0001300000  <- beta.img  \
                 (file not found — will be skipped)"
                    .to_string(),
                true
            ),
        ]
    );
    assert_eq!(
        preview_notes(&p, 1, true),
        vec![
            "1 selected slot(s) have no image and are ignored.",
            "1 image file(s) are missing on this PC and will be SKIPPED; their slots are left \
             untouched.",
            "Continue and write only the 1 present image(s)?",
            "Only the listed slots are touched; each write is verified.",
        ]
    );
    assert_eq!(
        preview_notes(&vec![], 0, false),
        vec!["Only the listed slots are touched; verify after write is disabled in Settings."]
    );
    let none = plan_selected_writes(&layout(), &vec![("rl".to_string(), 3)], &facts());
    assert!(none.is_none());
    assert!(plan_selected_writes(&layout(), &vec![], &facts()).is_none());
}

#[test]
fn dialogs_run_commands() {
    let mut t = Target::new();
    t.apply_devices(vec![entry()], false, false, false, false);
    t.choose_device(0);
    let o = Options::default();
    let m = Some("card.toml".to_string());
    let line = |modal: &Modal, out: &Option<String>| match modal.confirm(&t, &m, &o, out) {
        ModalOutcome::Run(c) => equivalent_command(&c.to_args()),
        other => panic!("{other:?}"),
    };
    assert_eq!(
        line(&Modal::ConfirmWriteSelected { planned: planned(), no_image: 1 }, &None),
        "sdslot write --device /dev/sdb --manifest card.toml --slot rl:0 --verify --yes --eject"
    );
    let single = Modal::ConfirmWrite {
        bank: "rl".to_string(),
        unit: 1,
        image: "a b.img".to_string(),
    };
    assert_eq!(
        line(&single, &None),
        "sdslot write --device /dev/sdb --manifest card.toml --slot \"rl:1=a b.img\" --verify --yes"
    );
    assert_eq!(
        line(
            &Modal::ConfirmExtractSelected {
                slots: vec![("rl".to_string(), 0)],
                dir: "out".to_string()
            },
            &None
        ),
        "sdslot read --device /dev/sdb --manifest card.toml --slot rl:0 --out-dir out"
    );
    assert_eq!(
        line(
            &Modal::ConfirmWipeSelected {
                slots: vec![("rl".to_string(), 0), ("rl".to_string(), 1)]
            },
            &None
        ),
        "sdslot wipe --device /dev/sdb --manifest card.toml --slot rl:0 --slot rl:1 --yes"
    );
    assert_eq!(
        line(
            &Modal::ConfirmWipe {
                bank: "rl".to_string(),
                unit: 3
            },
            &None
        ),
        "sdslot wipe --device /dev/sdb --manifest card.toml --slot rl:3 --yes"
    );
    let extract = Modal::Extract {
        bank: "rl".to_string(),
        unit: 3,
        length: LengthChoice::Toc,
    };
    assert_eq!(
        line(&extract, &Some("o.dsk".to_string())),
        "sdslot read --device /dev/sdb --manifest card.toml --slot rl:3 -o o.dsk --length toc"
    );
    assert!(matches!(extract.confirm(&t, &m, &o, &None), ModalOutcome::Stay));
    assert!(matches!(single.confirm(&t, &None, &o, &None), ModalOutcome::Close));
    assert!(matches!(
        single.confirm(&Target::new(), &m, &o, &None),
        ModalOutcome::Close
    ));
    assert!(matches!(Modal::Hidden.confirm(&t, &m, &o, &None), ModalOutcome::Stay));
    assert!(matches!(
        Modal::ConfirmAdvanced.confirm(&t, &m, &o, &None),
        ModalOutcome::Enable(Warning::Advanced)
    ));
    assert!(matches!(
        Modal::ConfirmAutoSelect.confirm(&t, &m, &o, &None),
        ModalOutcome::Enable(Warning::AutoSelect)
    ));
}

#[test]
fn dialog_lines() {
    let l = layout();
    assert_eq!(
        slot_range(&l, "rl", 1).unwrap(),
        "bytes 0x0001100000..0x0001200000 (1 MiB slot)"
    );
    assert_eq!(slot_range(&l, "xx", 1), None);
    assert_eq!(
        wipe_line(&l, "rl", 1).unwrap(),
        "rl:1  bytes 0x0001100000..0x0001200000 (1 MiB)"
    );
    assert_eq!(extract_line(&l, "rl", 0), "rl:0 → rl0_alpha.img");
    assert_eq!(extract_line(&l, "rl", 3), "rl:3 → rl3.img");
    assert_eq!(start_line(&CliCommand::List, true), "$ sdslot list");
    assert_eq!(start_line(&CliCommand::List, false), "starting list…");
}

#[test]
fn card_map_captions() {
    let l = layout();
    let states = SlotStates::new();
    assert_eq!(occupied_bytes(&l, &states), 2 << 20);
    let generic = card_scale(&l, None);
    assert!(generic.generic && !generic.overflow);
    assert_eq!(generic.capacity, 8_000_000_000);
    assert_eq!(generic.scale_end, 8_000_000_000);
    assert_eq!(
        caption(&generic, 2 << 20),
        "no card selected — shown against a generic 8 GB card · layout 20 MiB · occupied slots 2 MiB"
    );
    assert_eq!(overflow_message(&generic), None);
    let small = card_scale(&l, Some(18 << 20));
    assert!(small.overflow);
    assert_eq!(small.scale_end, 20 << 20);
    assert_eq!(overflow_tone(&small), Tone::Red);
    assert_eq!(overflow_tone(&generic), Tone::Orange);
    assert_eq!(
        caption(&small, 0),
        "layout 20 MiB of 18 MiB card · occupied slots 0 B"
    );
    assert_eq!(
        overflow_message(&small).unwrap(),
        "⚠ layout overflows the card by 2 MiB — writes past the end will fail"
    );
    let mut grown = card_scale(&l, None);
    grown.layout_end = 9_000_000_000;
    grown.overflow = true;
    assert!(overflow_message(&grown)
        .unwrap()
        .ends_with(" — use a 16 GB card or larger"));
    assert!(bank_overflows(&l.banks[0], 18 << 20));
    assert!(!bank_overflows(&l.banks[0], 20 << 20));
    assert_eq!(
        hover_text(&l, &states, 17 << 20),
        "bank rl — 2/4 slots occupied, 1 MiB each"
    );
    assert_eq!(hover_text(&l, &states, 8 << 20), "on-card TOC");
    assert_eq!(hover_text(&l, &states, 0), "unallocated");
}

#[test]
fn suggested_cards() {
    assert_eq!(suggest_card(0), "a 1 GB");
    assert_eq!(suggest_card(1_000_000_001), "a 2 GB");
    assert_eq!(suggest_card(8_000_000_000), "a 8 GB");
    assert_eq!(suggest_card(512_000_000_000), "a 512 GB");
    assert_eq!(suggest_card(512_000_000_001), "a 1 TB");
}

#[test]
fn the_transferring_slot_is_highlighted() {
    let l = layout();
    let mut fold = OpFold::new("write");
    assert!(highlight(&l, &fold).is_none());
    fold.apply(start(OpKind::Write, "rl", 1, 100));
    let h = highlight(&l, &fold).unwrap();
    assert_eq!(h.extent.offset, 17 << 20);
    assert_eq!(h.extent.len, 1 << 20);
    assert_eq!(h.tone, Tone::Teal);
    assert_eq!((h.done, h.total), (0, 100));
    fold.apply(start(OpKind::Status, "rl", 3, 100));
    assert_eq!(highlight(&l, &fold).unwrap().tone, Tone::Accent);
    fold.apply(start(OpKind::Status, "rl", 4, 100));
    assert!(highlight(&l, &fold).is_none());
}

#[test]
fn rows_and_badges() {
    let l = layout();
    let bank = &l.banks[0];
    assert_eq!(
        state_label(ViewState::Core(SlotState::Matches)),
        ("✔ matches", Tone::Green)
    );
    assert_eq!(
        state_label(ViewState::Busy(OpKind::Verify)),
        ("verifying…", Tone::Teal)
    );
    assert_eq!(status_cell(None, true), ("…", Tone::Dim));
    assert_eq!(status_cell(None, false), ("", Tone::Dim));
    let view = SlotView {
        state: ViewState::Core(SlotState::Modified),
        name: None,
        length: None,
    };
    assert_eq!(status_cell(Some(&view), true), ("⚠ modified", Tone::Orange));
    assert_eq!(row_name(Some(&view), bank, 0).as_deref(), Some("alpha"));
    assert_eq!(row_name(None, bank, 3), None);
    assert_eq!(bank_note(bank), "4 slots × 1 MiB");
    assert_eq!(missing_image(bank, 0, &facts()), None);
    assert_eq!(
        missing_image(bank, 2, &facts()).as_deref(),
        Some("/x/beta.img")
    );
    assert!(ready_for_ops(false, true, true));
    assert!(!ready_for_ops(true, true, true));
    let o = Options::default();
    assert_eq!(device_row(&device("x", None, None, false), &o), None);
    assert_eq!(
        device_row(&device("x", Some(1 << 30), None, false), &o),
        Some((
            "SD Card — 1 GiB (USB)  (non-removable — enable Advanced)".to_string(),
            false
        ))
    );
    assert_eq!(
        device_row(&device("x", Some(1 << 30), Some(true), false), &o),
        Some(("SD Card — 1 GiB (USB), removable".to_string(), true))
    );
}

#[test]
fn progress_bar_texts() {
    let mut fold = OpFold::new("write");
    assert_eq!(bar_counts(&fold), Some((0, 0)));
    assert_eq!(
        bar_text(&fold, "write", 0, None).unwrap(),
        "write — waiting for elevation approval…"
    );
    fold.apply(start(OpKind::Write, "rl", 1, 4096));
    assert_eq!(
        bar_text(&fold, "write", 0, None).unwrap(),
        "write rl:1 — 0% · 0 B / 4 KiB"
    );
    fold.apply(GuiMsg::Event(Event::PhaseStart {
        op: OpKind::Write,
        bytes: 8192,
    }));
    fold.apply(GuiMsg::Event(Event::Progress {
        bank: "rl".to_string(),
        unit: 1,
        bytes_done: 1024,
        bytes_total: 4096,
    }));
    assert_eq!(bar_counts(&fold), Some((1024, 8192)));
    assert_eq!(
        bar_text(&fold, "write", 13, Some((65, 2048))).unwrap(),
        "write rl:1 — 13% · 1 KiB / 8 KiB total · 1m 05s · 2 KiB/s"
    );
    fold.apply(end(OpKind::Write, "rl", 1, true, None));
    assert_eq!(
        bar_text(&fold, "write", 50, None).unwrap(),
        "write — 50% · 4 KiB / 8 KiB total"
    );
    fold.apply(GuiMsg::Exited(Some(0)));
    assert_eq!(bar_text(&fold, "write", 100, None), None);
    let mut idle = OpFold::new("list");
    idle.apply(GuiMsg::Event(Event::Note {
        message: "x".to_string(),
    }));
    assert_eq!(bar_text(&idle, "list", 0, None).unwrap(), "list — working…");
}

#[test]
fn the_icon_is_a_card() {
    let px = icon_rgba();
    assert_eq!(px.len(), ICON_SIZE * ICON_SIZE * 4);
    let at = |x: usize, y: usize| {
        let i = (y * ICON_SIZE + x) * 4;
        [px[i], px[i + 1], px[i + 2], px[i + 3]]
    };
    assert_eq!(at(0, 0), [0, 0, 0, 0]);
    assert_eq!(at(51, 4), [0, 0, 0, 0]);
    assert_eq!(at(12, 4), [0x51, 0x87, 0xbd, 0xff]);
    assert_eq!(at(16, 10), [0x22, 0x3a, 0x55, 0xff]);
    assert_eq!(at(18, 9), [0xd9, 0xa8, 0x21, 0xff]);
    assert_eq!(at(18, 22), [0x38, 0xa0, 0x38, 0xff]);
    assert_eq!(at(18, 30), [0x5a, 0x9b, 0xd8, 0xff]);
    assert_eq!(at(18, 38), [0xd0, 0x80, 0x20, 0xff]);
    assert_eq!(at(18, 46), [0x6e, 0x78, 0x84, 0xff]);
}
