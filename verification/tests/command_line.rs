use sdslot::cli::human::{state_str, HumanFold, Show};
use sdslot::cli::rules::{
    check_answer, check_ejectable, check_image_output, closing_events, consent, device_event,
    device_guard, device_table, eject_note, engine_opts, no_toc_error, output_paths, parse_assigns,
    plan_preview, read_outputs, resolve_slots, verify_report, wipe_plan, write_plan, Consent, Eject,
    ReadOutputs,
};
use sdslot::device::DeviceInfo;
use sdslot::engine::plan::{plan_writes, ImageFact, ImageFacts, DEFAULT_CHUNK_SIZE};
use sdslot::error::Error;
use sdslot::events::{Event, OpKind, SlotState};
use sdslot::layout::Layout;
use sdslot::manifest::{resolve, RawBank, RawManifest, RawSlot};

fn strings(v: &[&str]) -> Vec<String> {
    v.iter().map(|s| s.to_string()).collect()
}

fn layout() -> Layout {
    let bank = |name: &str, base: &str, slot: Vec<RawSlot>| RawBank {
        name: name.to_string(),
        base: base.to_string(),
        slot_size: "1MiB".to_string(),
        units: 4,
        drive_type: None,
        slot,
    };
    let raw = RawManifest {
        sector_size: None,
        toc: Some("8MiB".to_string()),
        allow_unaligned: None,
        bank: vec![
            bank(
                "rl",
                "16MiB",
                vec![RawSlot {
                    unit: 0,
                    name: Some("alpha one".to_string()),
                    image: Some("/x/alpha.img".to_string()),
                }],
            ),
            bank("rk", "32MiB", vec![]),
        ],
        drive_types: vec![],
    };
    resolve(&raw, "/x").unwrap()
}

fn disk(path: &str, removable: Option<bool>, system: bool) -> DeviceInfo {
    DeviceInfo {
        path: path.to_string(),
        model: "Card \"A\"".to_string(),
        bus: "usb".to_string(),
        size_bytes: Some(16 << 30),
        sector_size: Some(512),
        removable,
        system,
    }
}

#[test]
fn chunk_sizes() {
    let o = engine_opts(None, true, false, 512).unwrap();
    assert_eq!(o.chunk_size, DEFAULT_CHUNK_SIZE);
    assert!(o.strict_size && !o.verify);
    assert_eq!(
        engine_opts(Some("64KiB"), false, true, 512)
            .unwrap()
            .chunk_size,
        65536
    );
    assert_eq!(
        engine_opts(Some("4s"), false, true, 512).unwrap().chunk_size,
        2048
    );
    let text = "--chunk-size must be a nonzero multiple of the 512-byte sector, at most 512 MiB";
    for bad in ["0", "100", "513MiB"] {
        let e = engine_opts(Some(bad), false, false, 512).unwrap_err();
        assert_eq!(e.message(), text, "{bad}");
        assert_eq!(e.exit_code(), 1);
    }
    assert_eq!(
        engine_opts(Some("512MiB"), false, false, 512)
            .unwrap()
            .chunk_size,
        512 << 20
    );
    assert!(engine_opts(Some("x"), false, false, 512).is_err());
}

#[test]
fn slot_options() {
    let v = parse_assigns(&strings(&["rl:0", "rk:1=a=b.img"])).unwrap();
    assert_eq!(v.len(), 2);
    assert_eq!(v[1].image.as_deref(), Some("a=b.img"));
    assert!(parse_assigns(&strings(&["rl:0", "oops"])).is_err());
    let l = layout();
    assert_eq!(
        resolve_slots(&l, &strings(&["rk:1", "rl:3"])).unwrap(),
        vec![(1, 1), (0, 3)]
    );
    assert!(resolve_slots(&l, &strings(&["rk:4"])).is_err());
    assert!(resolve_slots(&l, &strings(&["x:"])).is_err());
}

#[test]
fn the_rails_hold() {
    let list = vec![
        disk("/dev/sda", Some(true), true),
        disk("/dev/sdb", Some(true), false),
        disk("/dev/sdc", None, false),
    ];
    assert_eq!(device_guard("card.img", false, &list).unwrap(), None);
    assert_eq!(device_guard("/dev/SDB", false, &list).unwrap(), Some(1));
    let refused = |path: &str, force: bool| {
        device_guard(path, force, &list).unwrap_err().message()
    };
    assert_eq!(
        refused("/dev/sda", true),
        "/dev/sda is the system/boot disk; refusing to write it"
    );
    assert_eq!(
        refused("/dev/sdc", false),
        "/dev/sdc is not a removable device (model \"Card \\\"A\\\"\"); pass --force if you are sure"
    );
    assert_eq!(
        refused("/dev/sdx", false),
        "/dev/sdx was not found by device enumeration; pass --force if you are sure"
    );
    assert_eq!(device_guard("/dev/sdc", true, &list).unwrap(), Some(2));
    assert_eq!(device_guard("/dev/sdx", true, &list).unwrap(), None);
}

#[test]
fn the_plan_is_shown_in_full() {
    let l = layout();
    let facts = ImageFacts {
        entries: vec![("/x/alpha.img".to_string(), ImageFact::File(700_000))],
    };
    let jobs = plan_writes(&l, &vec![], &facts).unwrap();
    let d = disk("/dev/sdb", Some(true), false);
    assert_eq!(
        plan_preview("write", "/dev/sdb", Some(&d), &l, &write_plan(&jobs)),
        strings(&[
            "About to write on /dev/sdb",
            "  Card \"A\" (usb, removable), 16 GiB",
            "  sector size 512 bytes",
            "  write rl:0  bytes 0x0001000000..0x00010aae60 (700000 bytes)  <- /x/alpha.img",
            "  TOC update at 0x0000800000",
        ])
    );
    let mut odd = disk("/dev/sdc", Some(false), false);
    odd.size_bytes = None;
    assert_eq!(
        plan_preview("wipe", "f", Some(&odd), &l, &wipe_plan(&l, &vec![(1, 3)])),
        strings(&[
            "About to wipe on f",
            "  Card \"A\" (usb, NON-REMOVABLE), unknown size",
            "  sector size 512 bytes",
            "  wipe rk:3  bytes 0x0002300000..0x0002400000 (1048576 bytes)",
            "  TOC update at 0x0000800000",
        ])
    );
    assert_eq!(plan_preview("wipe", "f", None, &l, &vec![]).len(), 3);
}

#[test]
fn consent_is_asked_for() {
    assert_eq!(consent(false, true).unwrap(), Consent::Given);
    assert_eq!(consent(true, true).unwrap(), Consent::Given);
    assert_eq!(consent(false, false).unwrap(), Consent::Ask);
    assert_eq!(
        consent(true, false).unwrap_err().message(),
        "--json/--json-port runs are non-interactive; pass --yes to confirm the plan"
    );
    assert!(check_answer(" yes\n").is_ok());
    for no in ["y\n", "", "YES"] {
        assert_eq!(
            check_answer(no).unwrap_err().message(),
            "aborted: confirmation not given"
        );
    }
}

#[test]
fn the_device_table() {
    assert_eq!(
        device_table(&vec![]),
        strings(&["no block devices found (try an elevated prompt / sudo)"])
    );
    let mut blank = disk("/dev/a-path-that-is-longer-than-its-column", None, false);
    blank.size_bytes = None;
    let rows = device_table(&vec![disk("/dev/sda", Some(false), true), blank]);
    assert_eq!(
        rows[0],
        "DEVICE                         SIZE BUS      REMOVABLE  MODEL"
    );
    assert_eq!(
        rows[1],
        "/dev/sda                     16 GiB usb      no         Card \"A\"  [SYSTEM DISK]"
    );
    assert_eq!(
        rows[2],
        "/dev/a-path-that-is-longer-than-its-column          ? usb      ?          Card \"A\""
    );
    match device_event(&disk("/dev/sda", Some(false), true)) {
        Event::Device { path, system, .. } => {
            assert_eq!(path, "/dev/sda");
            assert!(system);
        }
        other => panic!("{other:?}"),
    }
}

#[test]
fn extraction_outputs() {
    let l = layout();
    let one = vec![(0usize, 0u32)];
    let two = vec![(0usize, 0u32), (1usize, 2u32)];
    let o = read_outputs(&l, &one, Some("o.img"), None).unwrap();
    assert_eq!(output_paths(&o), strings(&["o.img"]));
    assert_eq!(
        read_outputs(&l, &two, Some("o.img"), None)
            .unwrap_err()
            .message(),
        "-o names a single output file; use --out-dir with multiple slots"
    );
    assert_eq!(
        read_outputs(&l, &one, None, None).unwrap_err().message(),
        "give -o <file> for one slot or --out-dir <dir>"
    );
    let d = read_outputs(&l, &two, None, Some("out")).unwrap();
    assert!(matches!(&d, ReadOutputs::Dir(dir, _) if dir == "out"));
    let paths = output_paths(&d);
    assert_eq!(paths.len(), 2);
    assert!(paths[0].ends_with("rl0_alpha_one.img"));
    assert!(paths[1].ends_with("rk2.img"));
    assert!(paths[0].starts_with("out"));
}

#[test]
fn verdicts_and_checks() {
    assert!(verify_report(&vec![]).is_ok());
    let e = verify_report(&strings(&["rl:0", "rk:1"])).unwrap_err();
    assert_eq!(
        e.message(),
        "2 slot(s) differ from their manifest images: rl:0, rk:1"
    );
    assert_eq!(e.exit_code(), 3);
    assert!(check_image_output("card.img", false, false).is_ok());
    assert!(check_image_output("card.img", true, true).is_ok());
    assert_eq!(
        check_image_output("card.img", true, false)
            .unwrap_err()
            .message(),
        "card.img already exists; pass --yes to overwrite it"
    );
    assert_eq!(
        check_image_output("/dev/sdb", false, true)
            .unwrap_err()
            .message(),
        "image writes a regular file; use `sdslot write` for raw devices"
    );
    assert!(check_ejectable("/dev/sdb").is_ok());
    let e = check_ejectable("card.img").unwrap_err();
    assert!(e.message().contains("not an ejectable device"));
    assert_eq!(e.exit_code(), 1);
    assert_eq!(
        no_toc_error("/dev/sdb").message(),
        "no TOC found on /dev/sdb; pass --manifest for a slot-by-slot hash probe"
    );
}

#[test]
fn eject_notes() {
    assert_eq!(
        eject_note("\\\\.\\PhysicalDrive2", &Eject::Done),
        "\\\\.\\PhysicalDrive2 ejected — safe to remove"
    );
    assert!(eject_note("card.img", &Eject::Ignored).contains("--eject ignored"));
    assert_eq!(
        eject_note("d", &Eject::Failed("busy".to_string())),
        "warning: cannot eject d: busy"
    );
}

#[test]
fn commands_end_with_events() {
    assert!(closing_events(&Ok(()), true, false).is_empty());
    assert!(matches!(
        closing_events(&Ok(()), true, true)[..],
        [Event::Done { ok: true, detail: None }]
    ));
    assert_eq!(closing_events(&Ok(()), false, false).len(), 1);
    let failed: Result<(), Error> = Err(Error::device("gone"));
    let evs = closing_events(&failed, true, false);
    assert!(matches!(&evs[0], Event::Error { message } if message == "gone"));
    assert!(
        matches!(&evs[1], Event::Done { ok: false, detail: Some(d) } if d == "gone")
    );
}

fn said(shows: &[Show]) -> Vec<String> {
    shows
        .iter()
        .map(|s| match s {
            Show::NewBar(n) => format!("bar {n}"),
            Show::Close => "close".to_string(),
            Show::Message(m) => format!("message {m}"),
            Show::Position(n) => format!("at {n}"),
            Show::Said(l) => format!("err {l}"),
            Show::Row(l) => format!("out {l}"),
        })
        .collect()
}

#[test]
fn one_bar_for_a_pass() {
    let mut h = HumanFold::new();
    let s = |t: &str| t.to_string();
    let begin = |unit: u32| Event::SlotStart {
        op: OpKind::Write,
        bank: s("rl"),
        unit,
        bytes: 100,
    };
    let finish = |unit: u32, ok: bool, detail: Option<String>| Event::SlotEnd {
        op: OpKind::Write,
        bank: s("rl"),
        unit,
        ok,
        detail,
    };
    let phase = Event::PhaseStart {
        op: OpKind::Write,
        bytes: 200,
    };
    assert_eq!(said(&h.apply(&phase)), vec!["bar 200"]);
    assert_eq!(
        said(&h.apply(&begin(0))),
        vec!["message write rl:0", "at 0"]
    );
    let progress = Event::Progress {
        bank: s("rl"),
        unit: 0,
        bytes_done: 60,
        bytes_total: 100,
    };
    assert!(h.takes(&progress));
    assert_eq!(said(&h.apply(&progress)), vec!["at 60"]);
    assert_eq!(
        said(&h.apply(&finish(0, true, Some(s("sha"))))),
        vec!["at 100", "err write rl:0 ok"]
    );
    assert_eq!(
        said(&h.apply(&begin(1))),
        vec!["message write rl:1", "at 100"]
    );
    assert_eq!(
        said(&h.apply(&finish(1, false, Some(s("bad"))))),
        vec!["at 200", "err write rl:1 FAILED: bad"]
    );
    assert_eq!(said(&h.apply(&phase)), vec!["close", "bar 200"]);
    let done = Event::Done {
        ok: false,
        detail: Some(s("bad")),
    };
    assert_eq!(said(&h.apply(&done)), vec!["close", "err failed: bad"]);
    let note = Event::Note { message: s("hi") };
    assert_eq!(said(&h.apply(&note)), vec!["err hi"]);
    let error = Event::Error { message: s("no") };
    assert_eq!(said(&h.apply(&error)), vec!["err error: no"]);
    h.phase_done = u64::MAX;
    h.slot_len = 1;
    assert!(!h.takes(&finish(0, true, None)));
}

#[test]
fn status_rows_are_columns() {
    let mut h = HumanFold::new();
    let row = |state: SlotState, name: Option<&str>, length: Option<u64>| Event::SlotStatus {
        bank: "rl".to_string(),
        unit: 3,
        state,
        name: name.map(|n| n.to_string()),
        length,
        sha256: None,
    };
    assert_eq!(
        said(&h.apply(&row(SlotState::Matches, Some("alpha"), Some(1024)))),
        vec![format!(
            "out   [ 3] rl:3   {:<24} {:<40} 1 KiB",
            "alpha", "matches"
        )]
    );
    assert_eq!(
        said(&h.apply(&row(SlotState::Modified, None, None))),
        vec![format!(
            "out   [ 3] rl:3   {:<24} {:<40} ",
            "(unnamed)", "MODIFIED (extract before overwriting!)"
        )]
    );
    assert_eq!(state_str(SlotState::Wiped), "wiped (all zeros)");
    assert_eq!(state_str(SlotState::Differs), "differs from manifest image");
    assert_eq!(state_str(SlotState::Unknown), "-");
    let end = Event::SlotEnd {
        op: OpKind::Status,
        bank: "rl".to_string(),
        unit: 3,
        ok: true,
        detail: None,
    };
    assert!(h.apply(&end).is_empty());
}
