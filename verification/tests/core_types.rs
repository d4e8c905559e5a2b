use sdslot::buffer::{AlignedBuf, BUFFER_ALIGN};
use sdslot::device::{is_platform_device_path, MemDevice, RawDevice};
use sdslot::drive_types::{geom, DriveType, Registry};
use sdslot::engine::plan::{extract_filename, LengthMode, DEFAULT_CHUNK_SIZE};
use sdslot::error::Result;
use sdslot::events::{Event, EventLog, EventSink, NullSink, OpKind, EVENT_SCHEMA_VERSION};
use sdslot::layout::{SlotAssign, SlotRef, TOC_REGION_LEN};
use sdslot::powers::{exponent_of, is_power_of_two, next_power_of_two};
use sdslot::text::{dec_text, hex_text, parse_unsigned, signed_text, trimmed};
use sdslot::toc::{
    now_unix, round_up, sha256_hex, time_stamp, Toc, TocEntry, HEADER_LEN, TOC_MAGIC, TOC_VERSION,
};

struct MockDevice;

impl RawDevice for MockDevice {
    fn sector_size(&self) -> u32 {
        512
    }
    fn capacity_bytes(&self) -> u64 {
        0
    }
    fn write_at(&mut self, _offset: u64, _buf: &[u8]) -> Result<()> {
        Ok(())
    }
    fn read_at(&mut self, _offset: u64, _buf: &mut [u8]) -> Result<()> {
        Ok(())
    }
    fn flush(&mut self) -> Result<()> {
        Ok(())
    }
}

#[test]
fn test_device_defaults() {
    let mut d = MockDevice;
    assert!(!d.growable());
    assert!(d.ensure_len(100).is_ok());
}

#[test]
fn canonical_sizes_are_exact() {
    let r = Registry::builtin();
    let expect = [
        ("RX01", 256_256u64),
        ("RX02", 512_512),
        ("RX50", 409_600),
        ("RX33", 1_228_800),
        ("RX23", 1_474_560),
        ("RX26", 2_949_120),
        ("RL01", 5_242_880),
        ("RL02", 10_485_760),
        ("RK05", 2_494_464),
        ("RP04", 87_960_576),
        ("RP05", 87_960_576),
        ("RP06", 174_423_040),
        ("RM03", 67_420_160),
        ("RM05", 256_196_608),
        ("RP07", 516_096_000),
    ];
    for (name, bytes) in expect {
        let t = r.get(name).unwrap_or_else(|| panic!("missing {name}"));
        assert_eq!(t.image_bytes, bytes, "{name}");
        assert!(
            t.image_bytes <= t.recommended_slot,
            "{name} image exceeds recommended slot"
        );
        assert!(t.recommended_slot.is_power_of_two(), "{name} slot not pow2");
        assert!(!t.stream, "{name} is a disk type");
    }
}

#[test]
fn stream_types_have_no_geometry() {
    let r = Registry::builtin();
    for name in ["TU16", "TU45"] {
        let t = r.get(name).unwrap_or_else(|| panic!("missing {name}"));
        assert!(t.stream, "{name} is stream media");
        assert!(t.geometry.is_none(), "{name} has no C/H/S geometry");
        assert_eq!(t.image_bytes, 46_080_000, "{name} nominal capacity");
        assert!(t.recommended_slot.is_power_of_two(), "{name} slot not pow2");
        assert!(t.image_bytes <= t.recommended_slot, "{name} slot too small");
    }
    assert!(r.get("tu45").is_some(), "case-insensitive");
}

#[test]
fn lookup_is_case_insensitive() {
    let r = Registry::builtin();
    assert!(r.get("rl02").is_some());
    assert!(r.get("Rp06").is_some());
    assert!(r.get("rx50").is_some());
    assert!(r.get("RX99").is_none());
}

#[test]
fn add_overrides_and_extends() {
    let mut r = Registry::builtin();
    let builtin_count = r.iter().iter().count();
    r.add(DriveType {
        name: "rl02".to_string(),
        geometry: None,
        image_bytes: 42,
        recommended_slot: 64,
        stream: false,
    });
    assert_eq!(r.get("RL02").unwrap().image_bytes, 42);
    assert_eq!(r.iter().iter().count(), builtin_count);
    r.add(DriveType {
        name: "RK07".to_string(),
        geometry: None,
        image_bytes: 100,
        recommended_slot: 128,
        stream: false,
    });
    assert_eq!(r.iter().iter().count(), builtin_count + 1);
    assert_eq!(r.get("rk07").unwrap().image_bytes, 100);
}

#[test]
fn geometry_displays_and_computes() {
    let r = Registry::builtin();
    let rx01 = r.get("RX01").unwrap().geometry.unwrap();
    assert_eq!(rx01.display(), "77c x 1h x 26s x 128B");
    assert_eq!(rx01.bytes(), 256_256);

    let g = geom(10, 2, 8, 512);
    assert_eq!(g.cylinders, 10);
}

#[test]
fn aligned_buf_is_4k_aligned_and_zeroed() {
    for len in [1, 511, 512, 4096, DEFAULT_CHUNK_SIZE] {
        let mut buf = AlignedBuf::new(len);
        assert_eq!(
            buf.as_slice().as_ptr().align_offset(BUFFER_ALIGN),
            0,
            "len {len}"
        );
        assert_eq!(buf.len(), len);
        assert!(
            buf.as_slice().iter().all(|&b| b == 0),
            "len {len} not zeroed"
        );
        buf.set(0, 0xa5);
        buf.zero();
        assert_eq!(buf.as_slice()[0], 0);
    }
}

#[test]
fn aligned_buf_holds_what_is_put() {
    let mut buf = AlignedBuf::new(8);
    buf.put(&[1, 2, 3]);
    assert_eq!(buf.as_slice(), &[1, 2, 3, 0, 0, 0, 0, 0]);
    buf.zero_range(1, 3);
    assert_eq!(buf.front(4), &[1, 0, 0, 0]);
}

fn assert_send<T: Send>() {}

#[test]
fn aligned_buf_is_send() {
    assert_send::<AlignedBuf>();
}

#[test]
fn round_up_to_sector() {
    assert_eq!(round_up(0, 512), 0);
    assert_eq!(round_up(1, 512), 512);
    assert_eq!(round_up(512, 512), 512);
    assert_eq!(round_up(700_000, 512), 700_416);
}

#[test]
fn extract_filenames_are_safe_and_stable() {
    assert_eq!(extract_filename("rl", 0, None), "rl0.img");
    assert_eq!(
        extract_filename("rl", 0, Some("xxdp-rl02")),
        "rl0_xxdp-rl02.img"
    );
    assert_eq!(
        extract_filename("rp", 7, Some("2.11 BSD!")),
        "rp7_2_11_BSD_.img"
    );
}

#[test]
fn length_mode_parses() {
    assert_eq!(LengthMode::parse("toc", 512).unwrap(), LengthMode::Toc);
    assert_eq!(
        LengthMode::parse("CANONICAL", 512).unwrap(),
        LengthMode::Canonical
    );
    assert_eq!(LengthMode::parse("slot", 512).unwrap(), LengthMode::Slot);
    assert_eq!(
        LengthMode::parse("10MiB", 512).unwrap(),
        LengthMode::Bytes(10 << 20)
    );
    assert!(LengthMode::parse("bogus", 512).is_err());
}

#[test]
fn op_kind_display_names() {
    let expect = [
        (OpKind::Write, "write"),
        (OpKind::Read, "read"),
        (OpKind::Wipe, "wipe"),
        (OpKind::Verify, "verify"),
        (OpKind::Status, "status"),
    ];
    for (kind, name) in expect {
        assert_eq!(kind.name(), name);
    }
}

#[test]
fn display_verbs() {
    assert_eq!(OpKind::Status.verb(), "reading");
    assert_eq!(OpKind::Write.verb(), "write");
    assert_eq!(OpKind::Read.verb(), "read");
    assert_eq!(OpKind::Wipe.verb(), "wipe");
    assert_eq!(OpKind::Verify.verb(), "verify");
    assert_eq!(EVENT_SCHEMA_VERSION, 2);
}

struct Counting<'a>(&'a mut u32);

impl EventSink for Counting<'_> {
    fn emit(&mut self, _ev: &Event) {
        *self.0 += 1;
    }
}

#[test]
fn null_and_closure_sinks() {
    let ev = Event::Done {
        ok: true,
        detail: None,
    };
    NullSink.emit(&ev);
    let mut count = 0;
    let mut counting = Counting(&mut count);
    counting.emit(&ev);
    counting.emit(&ev);
    assert_eq!(count, 2);
}

#[test]
fn an_event_log_keeps_events_in_order() {
    let mut log = EventLog::new();
    log.emit(&Event::Note {
        message: "a".to_string(),
    });
    log.emit(&Event::Done {
        ok: false,
        detail: Some("b".to_string()),
    });
    assert_eq!(log.events.len(), 2);
    assert!(matches!(&log.events[0], Event::Note { message } if message == "a"));
    assert!(
        matches!(&log.events[1], Event::Done { ok: false, detail: Some(d) } if d == "b")
    );
}

fn entry(bank: &str, unit: u32, length: u64) -> TocEntry {
    TocEntry {
        bank: bank.to_string(),
        unit,
        offset: 0,
        name: None,
        length,
        sha256: sha256_hex(b"x"),
        written_unix: 0,
    }
}

#[test]
fn upsert_replaces_and_remove_drops() {
    let mut toc = Toc::new("hash".to_string());
    toc.upsert(entry("rl", 0, 100));
    toc.upsert(entry("rl", 1, 200));
    toc.upsert(entry("rl", 0, 300));
    assert_eq!(toc.entries.len(), 2);
    assert_eq!(toc.find("rl", 0).unwrap().length, 300);
    toc.remove("rl", 0);
    assert!(toc.find("rl", 0).is_none());
    assert!(toc.find("rl", 1).is_some());
}

#[test]
fn header_constants_are_stable() {
    assert_eq!(TOC_MAGIC, *b"SDSLTOC\x01");
    assert_eq!(TOC_VERSION, 1);
    assert_eq!(HEADER_LEN, 48);
    assert_eq!(TOC_REGION_LEN, 128 * 1024);
}

#[test]
fn sha256_of_known_texts() {
    assert_eq!(
        sha256_hex(b"abc"),
        "ba7816bf8f01cfea414140de5dae2223b00361a396177a9cb410ff61f20015ad"
    );
    assert_eq!(
        sha256_hex(b""),
        "e3b0c44298fc1c149afbf4c8996fb92427ae41e4649b934ca495991b7852b855"
    );
}

#[test]
fn the_clock_runs() {
    assert!(now_unix() > 0);
    assert_eq!(time_stamp(Some(17)), 17);
    assert_eq!(time_stamp(None), 0);
}

#[test]
fn file_device_path_detection() {
    assert!(is_platform_device_path("\\\\.\\PhysicalDrive2"));
    assert!(is_platform_device_path("/dev/sdb"));
    assert!(is_platform_device_path("/dev/rdisk4"));
    assert!(!is_platform_device_path("card.img"));
    assert!(!is_platform_device_path("C:\\temp\\card.img"));
}

#[test]
fn slot_reference_parse_errors() {
    assert!(SlotRef::parse(":1").is_err());
    assert!(SlotRef::parse("rl:").is_err());
    assert!(SlotRef::parse("rl:x").is_err());
    assert!(SlotAssign::parse("rl:1=").is_err());
    assert_eq!(SlotRef::parse("rl:3").unwrap().display(), "rl:3");
    assert_eq!(SlotRef::parse("3").unwrap().display(), "3");
}

#[test]
fn bad_slot_references_are_quoted() {
    let e = SlotRef::parse("rl:\"x\"").unwrap_err();
    assert_eq!(
        e.message(),
        "bad slot reference \"rl:\\\"x\\\"\": expected [bank:]unit"
    );
}

#[test]
fn a_growing_device_zero_fills_and_extends() {
    let mut dev = MemDevice::new(512, true, 0);
    assert_eq!(dev.sector_size(), 512);
    assert!(dev.growable());

    dev.write_at(1024, &[0xAAu8; 512]).unwrap();
    assert_eq!(dev.capacity_bytes(), 1536);

    let mut buf = [0xFFu8; 1024];
    dev.read_at(1024, &mut buf).unwrap();
    assert!(buf[..512].iter().all(|&b| b == 0xAA));
    assert!(buf[512..].iter().all(|&b| b == 0));

    dev.ensure_len(4096).unwrap();
    assert_eq!(dev.capacity_bytes(), 4096);
    dev.ensure_len(2048).unwrap();
    assert_eq!(dev.capacity_bytes(), 4096);
    dev.flush().unwrap();
}

#[test]
fn a_card_of_fixed_size_refuses_to_grow() {
    let mut dev = MemDevice::new(512, false, 1024);
    assert!(dev.write_at(1024, &[1u8; 512]).is_err());
    assert!(dev.ensure_len(4096).is_ok());
    assert_eq!(dev.capacity_bytes(), 1024);
}

#[test]
fn powers_of_two() {
    assert_eq!(exponent_of(1), Some(0));
    assert_eq!(exponent_of(1 << 63), Some(63));
    assert_eq!(exponent_of(0), None);
    assert_eq!(exponent_of(12), None);
    assert!(is_power_of_two(4096));
    assert!(!is_power_of_two(0));
    assert_eq!(next_power_of_two(5), Some(8));
    assert_eq!(next_power_of_two(u64::MAX), None);
}

#[test]
fn numbers_as_text() {
    assert_eq!(dec_text(0), "0");
    assert_eq!(dec_text(18_446_744_073_709_551_615), "18446744073709551615");
    assert_eq!(hex_text(0xdeadbeef), "deadbeef");
    assert_eq!(signed_text(-2147483648), "-2147483648");
    assert_eq!(signed_text(7), "7");
    assert_eq!(trimmed(" \u{a0}x y\t\n"), "x y");
    let digits: Vec<char> = "x+042".chars().collect();
    assert_eq!(parse_unsigned(&digits, 1, 100), Some(42));
    assert_eq!(parse_unsigned(&digits, 1, 41), None);
    assert_eq!(parse_unsigned(&digits, 0, 100), None);
}
