use std::collections::BTreeMap;

use sdslot::device::{MemDevice, RawDevice};
use sdslot::engine::plan::{
    image_paths, plan_ops, plan_writes, summarize_plan, EngineOpts, ImageFact, ImageFacts,
    LengthMode, ReadJob, WriteJob,
};
use sdslot::engine::read::{reads_fit, ReadNeed};
use sdslot::engine::session::{is_usable, Session};
use sdslot::engine::status::{
    items_fit, records_fit, status_from_card, SlotStatusReport, StatusItem, StatusNeed, StatusProbe,
};
use sdslot::engine::stream::{chunk_fits, hash_device_range, hash_device_range_detect_zero};
use sdslot::engine::verify::{file_sha256, HashFailure};
use sdslot::engine::wipe::wipes_fit;
use sdslot::engine::write::{jobs_fit, WriteNeed};
use sdslot::error::{Error, Result};
use sdslot::events::{Event, EventLog, EventSink, NullSink, OpKind, SlotState};
use sdslot::layout::{Extent, Layout, SlotAssign, SlotRef};
use sdslot::manifest::{resolve, RawBank, RawManifest, RawSlot};
use sdslot::sha::Hasher;
use sdslot::toc::{
    can_search, next_probe, probe_toc, read_toc, sha256_hex, write_toc, Toc, TocEntry, HEADER_LEN, TOC_MAGIC, TOC_VERSION,
};

type Files = BTreeMap<String, Vec<u8>>;

fn slot(unit: u32, name: Option<&str>, image: Option<&str>) -> RawSlot {
    RawSlot {
        unit,
        name: name.map(|s| s.to_string()),
        image: image.map(|s| s.to_string()),
    }
}

fn bank(
    name: &str,
    base: &str,
    slot_size: &str,
    units: u32,
    kind: Option<&str>,
    slots: Vec<RawSlot>,
) -> RawBank {
    RawBank {
        name: name.to_string(),
        base: base.to_string(),
        slot_size: slot_size.to_string(),
        units,
        drive_type: kind.map(|s| s.to_string()),
        slot: slots,
    }
}

fn make(toc: Option<&str>, banks: Vec<RawBank>) -> Layout {
    let raw = RawManifest {
        sector_size: Some(512),
        toc: toc.map(|s| s.to_string()),
        allow_unaligned: None,
        bank: banks,
        drive_types: vec![],
    };
    resolve(&raw, "/x").unwrap()
}

/// Deterministic pseudo-random content, distinct per seed.
fn pattern(len: usize, seed: u8) -> Vec<u8> {
    let mut state = seed as u32 | 0x100;
    (0..len)
        .map(|_| {
            state = state.wrapping_mul(1103515245).wrapping_add(12345);
            (state >> 16) as u8
        })
        .collect()
}

struct Fixture {
    files: Files,
    layout: Layout,
    card: MemDevice,
}

fn fixture() -> Fixture {
    let layout = make(
        Some("8MiB"),
        vec![bank(
            "rl",
            "16MiB",
            "1MiB",
            4,
            None,
            vec![
                slot(0, Some("alpha"), Some("alpha.img")),
                slot(2, Some("beta"), Some("beta.img")),
            ],
        )],
    );
    let mut files = Files::new();
    files.insert("/x/alpha.img".to_string(), pattern(700_000, 1));
    files.insert("/x/beta.img".to_string(), pattern(1 << 20, 2));
    Fixture {
        files,
        layout,
        card: MemDevice::new(512, true, 0),
    }
}

fn facts_of(files: &Files, paths: &[String]) -> ImageFacts {
    ImageFacts {
        entries: paths
            .iter()
            .map(|p| {
                let fact = match files.get(p) {
                    Some(f) => ImageFact::File(f.len() as u64),
                    None if p.ends_with('/') => ImageFact::Other(4096),
                    None => ImageFact::Missing("No such file".to_string()),
                };
                (p.clone(), fact)
            })
            .collect(),
    }
}

fn plan(f: &Fixture, overrides: Vec<SlotAssign>) -> Result<Vec<WriteJob>> {
    let facts = facts_of(&f.files, &image_paths(&f.layout, &overrides));
    plan_writes(&f.layout, &overrides, &facts)
}

fn small_chunks() -> EngineOpts {
    EngineOpts {
        chunk_size: 128 * 1024,
        ..EngineOpts::default()
    }
}

fn encode(toc: &Toc) -> Vec<u8> {
    let entries: Vec<serde_json::Value> = toc
        .entries
        .iter()
        .map(|e| {
            let mut m = serde_json::Map::new();
            m.insert("bank".to_string(), e.bank.clone().into());
            m.insert("unit".to_string(), e.unit.into());
            m.insert("offset".to_string(), e.offset.into());
            if let Some(n) = &e.name {
                m.insert("name".to_string(), n.clone().into());
            }
            m.insert("length".to_string(), e.length.into());
            m.insert("sha256".to_string(), e.sha256.clone().into());
            m.insert("written_unix".to_string(), e.written_unix.into());
            serde_json::Value::Object(m)
        })
        .collect();
    let mut m = serde_json::Map::new();
    m.insert("version".to_string(), toc.version.into());
    m.insert("layout_hash".to_string(), toc.layout_hash.clone().into());
    m.insert("entries".to_string(), serde_json::Value::Array(entries));
    serde_json::to_vec(&serde_json::Value::Object(m)).unwrap()
}

fn decode(payload: &[u8]) -> Option<Toc> {
    let v: serde_json::Value = serde_json::from_slice(payload).ok()?;
    let entries = v
        .get("entries")?
        .as_array()?
        .iter()
        .map(|e| {
            Some(TocEntry {
                bank: e.get("bank")?.as_str()?.to_string(),
                unit: e.get("unit")?.as_u64()? as u32,
                offset: e.get("offset")?.as_u64()?,
                name: e
                    .get("name")
                    .and_then(|n| n.as_str())
                    .map(|n| n.to_string()),
                length: e.get("length")?.as_u64()?,
                sha256: e.get("sha256")?.as_str()?.to_string(),
                written_unix: e.get("written_unix")?.as_u64()?,
            })
        })
        .collect::<Option<Vec<TocEntry>>>()?;
    Some(Toc {
        version: v.get("version")?.as_u64()? as u32,
        layout_hash: v.get("layout_hash")?.as_str()?.to_string(),
        entries,
    })
}

fn load_toc<D: RawDevice>(s: &mut Session<D>) -> Result<()> {
    if let Some(payload) = s.load_toc()? {
        s.store_toc(decode(&payload));
    }
    Ok(())
}

fn write_jobs<D: RawDevice, S: EventSink>(
    s: &mut Session<D>,
    files: &Files,
    jobs: Vec<WriteJob>,
    opts: &EngineOpts,
    sink: &mut S,
) -> Result<()> {
    let mut run = s.write_slots(jobs, opts, sink);
    loop {
        match run.need() {
            WriteNeed::Open(job) => {
                let opened = match files.get(&run.jobs[job].image) {
                    Some(_) => Ok(()),
                    None => Err("No such file".to_string()),
                };
                s.image_opened(&mut run, opened, sink)?;
            }
            WriteNeed::Read { job, offset, want } => {
                let file = &files[&run.jobs[job].image];
                let start = (offset as usize).min(file.len());
                let end = (start + want).min(file.len());
                s.image_bytes(&mut run, Ok(file[start..end].to_vec()), sink)?;
            }
            WriteNeed::Commit => {
                load_toc(s)?;
                let toc = s.toc_after_writes(&run);
                let payload = encode(&toc);
                return s.finish_writes(&run, toc, &payload, sink);
            }
        }
    }
}

fn write_all(f: &mut Fixture, opts: &EngineOpts) {
    let jobs = plan(f, vec![]).unwrap();
    let mut s = Session::new(&mut f.card, &f.layout).unwrap();
    s.validate_writes(&jobs, opts).unwrap();
    write_jobs(&mut s, &f.files, jobs, opts, &mut NullSink).unwrap();
}

fn file_hash(files: &Files, path: &str) -> std::result::Result<String, HashFailure> {
    match files.get(path) {
        Some(f) => {
            let mut h = Hasher::new();
            h.update(f);
            Ok(file_sha256(h))
        }
        None => Err(HashFailure::Open("No such file".to_string())),
    }
}

fn status(f: &mut Fixture, opts: &EngineOpts) -> Result<Vec<SlotStatusReport>> {
    let facts = facts_of(&f.files, &image_paths(&f.layout, &vec![]));
    let mut s = Session::new(&mut f.card, &f.layout)?;
    load_toc(&mut s)?;
    let items = s.plan_status(&facts);
    let mut run = s.status(items, opts, &mut NullSink);
    loop {
        match run.need() {
            StatusNeed::Hash(path) => {
                let h = file_hash(&f.files, &path);
                s.status_step(&mut run, h, &mut NullSink)?;
            }
            StatusNeed::Nothing => s.status_step(&mut run, Ok(String::new()), &mut NullSink)?,
            StatusNeed::Done => return Ok(run.reports),
        }
    }
}

fn verify(f: &mut Fixture, opts: &EngineOpts) -> Result<Vec<String>> {
    let jobs = plan(f, vec![]).unwrap();
    let mut s = Session::new(&mut f.card, &f.layout)?;
    let mut run = s.verify_slots(jobs, opts, &mut NullSink);
    while let Some(path) = run.need() {
        let h = file_hash(&f.files, path);
        s.image_hashed(&mut run, h, &mut NullSink)?;
    }
    Ok(run.mismatches)
}

fn read_jobs<D: RawDevice>(
    s: &mut Session<D>,
    jobs: Vec<ReadJob>,
    opts: &EngineOpts,
) -> Result<Files> {
    let mut out = Files::new();
    let mut run = s.read_slots(jobs, opts, &mut NullSink);
    loop {
        match run.need() {
            ReadNeed::Create(job) => {
                out.insert(run.jobs[job].out_path.clone(), vec![]);
                s.file_created(&mut run, Ok(()), &mut NullSink)?;
            }
            ReadNeed::Append(job) => {
                let data = s.read_chunk(&run)?;
                out.get_mut(&run.jobs[job].out_path).unwrap().extend(data);
                s.chunk_written(&mut run, Ok(()), &mut NullSink)?;
            }
            ReadNeed::Sync(_) => s.file_synced(&mut run, Ok(()), &mut NullSink)?,
            ReadNeed::Done => return Ok(out),
        }
    }
}

fn wipe<D: RawDevice>(
    s: &mut Session<D>,
    slots: Vec<(usize, u32)>,
    opts: &EngineOpts,
) -> Result<()> {
    s.wipe_slots(&slots, opts, &mut NullSink)?;
    load_toc(s)?;
    let toc = s.toc_after_wipe(&slots);
    let payload = encode(&toc);
    s.commit_toc(toc, &payload)
}

fn toc_on(card: &mut MemDevice, offset: u64) -> Option<Toc> {
    read_toc(card, offset).unwrap().and_then(|p| decode(&p))
}

#[test]
fn write_read_verify_wipe_roundtrip() {
    let mut f = fixture();
    let opts = EngineOpts {
        verify: true,
        ..small_chunks()
    };
    write_all(&mut f, &opts);

    let alpha = pattern(700_000, 1);
    let base = 16 << 20;
    assert_eq!(&f.card.data[base..base + 700_000], &alpha[..]);
    let padded_end = base + 700_416;
    assert!(f.card.data[base + 700_000..padded_end].iter().all(|&b| b == 0));
    let beta = pattern(1 << 20, 2);
    let beta_base = base + 2 * (1 << 20);
    assert_eq!(&f.card.data[beta_base..beta_base + (1 << 20)], &beta[..]);

    let card_toc = toc_on(&mut f.card, 8 << 20).expect("toc");
    assert_eq!(card_toc.layout_hash, f.layout.layout_hash());
    assert_eq!(card_toc.entries.len(), 2);
    let e0 = card_toc.find("rl", 0).expect("rl:0 entry");
    assert_eq!(e0.length, 700_000);
    assert_eq!(e0.offset, 16 << 20);
    assert_eq!(e0.name.as_deref(), Some("alpha"));

    let reports = status(&mut f, &opts).unwrap();
    let by_key = |b: &str, u: u32| {
        reports
            .iter()
            .find(|r| r.bank == b && r.unit == u)
            .unwrap()
            .state
    };
    assert_eq!(by_key("rl", 0), SlotState::Matches);
    assert_eq!(by_key("rl", 2), SlotState::Matches);
    assert_eq!(by_key("rl", 1), SlotState::Unknown);

    let (_, payload) = probe_toc(&mut f.card, 0).unwrap().expect("probe finds TOC");
    let found = decode(&payload).unwrap();
    let toc_reports = status_from_card(&mut f.card, &found, &opts, &mut NullSink).unwrap();
    assert_eq!(toc_reports.len(), 2);
    assert!(toc_reports.iter().all(|r| r.state == SlotState::Matches));

    let mut session = Session::new(&mut f.card, &f.layout).unwrap();
    load_toc(&mut session).unwrap();
    let len = session.resolve_length(0, 0, Some(LengthMode::Toc)).unwrap();
    assert_eq!(len, 700_000);
    let job = ReadJob {
        bank_idx: 0,
        unit: 0,
        length: len,
        out_path: "out.img".to_string(),
    };
    let out = read_jobs(&mut session, vec![job], &opts).unwrap();
    assert_eq!(out["out.img"], alpha);

    let len = session
        .resolve_length(0, 0, Some(LengthMode::Slot))
        .unwrap();
    assert_eq!(len, 1 << 20);
    assert!(session
        .resolve_length(0, 0, Some(LengthMode::Canonical))
        .is_err());
    assert_eq!(session.resolve_length(0, 0, None).unwrap(), 700_000);

    assert!(verify(&mut f, &opts).unwrap().is_empty());

    f.card.data[(16 << 20) + 100] ^= 0xff;
    assert_eq!(verify(&mut f, &opts).unwrap(), vec!["rl:0".to_string()]);
    let reports = status(&mut f, &opts).unwrap();
    assert_eq!(
        reports.iter().find(|r| r.unit == 0).unwrap().state,
        SlotState::Modified
    );

    let mut session = Session::new(&mut f.card, &f.layout).unwrap();
    wipe(&mut session, vec![(0, 0)], &opts).unwrap();
    assert!(f.card.data[16 << 20..(16 << 20) + (1 << 20)]
        .iter()
        .all(|&b| b == 0));
    assert_eq!(
        &f.card.data[beta_base..beta_base + (1 << 20)],
        &pattern(1 << 20, 2)[..]
    );
    let card_toc = toc_on(&mut f.card, 8 << 20).unwrap();
    assert!(card_toc.find("rl", 0).is_none());
    assert!(card_toc.find("rl", 2).is_some());

    let reports = status(&mut f, &opts).unwrap();
    let state_of = |u: u32| reports.iter().find(|r| r.unit == u).unwrap().state;
    assert_eq!(state_of(0), SlotState::Wiped);
    assert_eq!(state_of(2), SlotState::Matches);
}

#[test]
fn override_writes_only_named_slot() {
    let mut f = fixture();
    let opts = small_chunks();
    let gamma = pattern(300_000, 3);
    f.files.insert("/x/gamma.img".to_string(), gamma.clone());

    let assign = SlotAssign::parse("rl:1=/x/gamma.img").unwrap();
    let jobs = plan(&f, vec![assign]).unwrap();
    assert_eq!(jobs.len(), 1);
    assert_eq!((jobs[0].bank.as_str(), jobs[0].unit), ("rl", 1));

    let mut s = Session::new(&mut f.card, &f.layout).unwrap();
    write_jobs(&mut s, &f.files, jobs, &opts, &mut NullSink).unwrap();

    let slot1 = (16 << 20) + (1 << 20);
    assert_eq!(&f.card.data[slot1..slot1 + 300_000], &gamma[..]);
    assert!(f.card.data[16 << 20..(16 << 20) + 1000]
        .iter()
        .all(|&b| b == 0));
}

#[test]
fn oversized_image_is_rejected() {
    let mut f = fixture();
    f.files
        .insert("/x/big.img".to_string(), pattern((1 << 20) + 1, 4));
    let assign = SlotAssign::parse("rl:0=/x/big.img").unwrap();
    let jobs = plan(&f, vec![assign]).unwrap();
    let err = Session::new(&mut f.card, &f.layout)
        .unwrap()
        .validate_writes(&jobs, &small_chunks())
        .expect_err("oversized image must be rejected");
    assert!(err.message().contains("exceeds"));
}

fn rl02() -> Fixture {
    let layout = make(
        None,
        vec![
            bank(
                "rl",
                "0",
                "16MiB",
                2,
                Some("RL02"),
                vec![slot(0, None, Some("short.rl02"))],
            ),
            bank("tu", "64MiB", "64MiB", 1, Some("TU16"), vec![]),
        ],
    );
    let mut files = Files::new();
    files.insert("/x/short.rl02".to_string(), pattern(1000, 5));
    Fixture {
        files,
        layout,
        card: MemDevice::new(512, true, 0),
    }
}

#[test]
fn strict_size_enforces_canonical() {
    let mut f = rl02();
    let jobs = plan(&f, vec![]).unwrap();
    let s = Session::new(&mut f.card, &f.layout).unwrap();
    let lax = s
        .validate_writes(&jobs, &EngineOpts::default())
        .expect("non-strict is a warning");
    assert_eq!(lax.len(), 1);
    assert!(lax[0].contains("canonical"));

    let strict = EngineOpts {
        strict_size: true,
        ..EngineOpts::default()
    };
    let err = s
        .validate_writes(&jobs, &strict)
        .expect_err("strict must reject");
    assert!(err.message().contains("canonical"));
}

#[test]
fn stream_types_have_no_canonical_size() {
    let mut f = rl02();
    let assign = SlotAssign::parse("tu:0=/x/short.rl02").unwrap();
    let jobs = plan(&f, vec![assign]).unwrap();
    let strict = EngineOpts {
        strict_size: true,
        ..EngineOpts::default()
    };
    let mut s = Session::new(&mut f.card, &f.layout).unwrap();
    assert!(s.validate_writes(&jobs, &strict).unwrap().is_empty());
    load_toc(&mut s).unwrap();
    assert!(s.resolve_length(1, 0, Some(LengthMode::Canonical)).is_err());
    assert_eq!(s.resolve_length(1, 0, None).unwrap(), 64 << 20);
    assert_eq!(s.resolve_length(0, 0, None).unwrap(), 10_485_760);
    assert!(s.length_needs_toc(1, None));
    assert!(!s.length_needs_toc(0, Some(LengthMode::Slot)));
}

#[test]
fn a_card_that_is_too_small_is_refused() {
    let mut f = fixture();
    f.card = MemDevice::new(512, false, 17 << 20);
    let jobs = plan(&f, vec![]).unwrap();
    let s = Session::new(&mut f.card, &f.layout).unwrap();
    let err = s.validate_writes(&jobs, &small_chunks()).unwrap_err();
    assert!(err.message().contains("capacity"), "{}", err.message());
    assert_eq!(err.exit_code(), 1);
}

#[test]
fn sector_sizes_must_agree() {
    let f = fixture();
    let mut card = MemDevice::new(4096, true, 0);
    let err = match Session::new(&mut card, &f.layout) {
        Ok(_) => panic!("accepted"),
        Err(e) => e,
    };
    assert_eq!(
        err.message(),
        "device sector size 4096 does not match manifest sector_size 512"
    );
}

#[test]
fn flat_image_spans_full_layout() {
    let mut f = fixture();
    write_all(&mut f, &small_chunks());
    Session::new(&mut f.card, &f.layout)
        .unwrap()
        .extend_to_full_layout()
        .unwrap();
    assert_eq!(f.card.capacity_bytes(), f.layout.max_extent_end());
}

#[test]
fn toc_survives_corruption_gracefully() {
    let mut f = fixture();
    write_all(&mut f, &small_chunks());
    f.card.data[(8 << 20) + 100] ^= 0xff;
    assert!(read_toc(&mut f.card, 8 << 20).unwrap().is_none());
}

#[test]
fn plan_and_length_error_branches() {
    let mut f = fixture();
    write_all(&mut f, &small_chunks());

    let a = SlotAssign::parse("rl:1=/x/alpha.img").unwrap();
    let b = SlotAssign::parse("rl:1=/x/beta.img").unwrap();
    let err = plan(&f, vec![a, b]).expect_err("duplicate slot");
    assert!(err.message().contains("more than once"));

    let missing = SlotAssign::parse("rl:1=no-such-file.img").unwrap();
    let err = plan(&f, vec![missing]).expect_err("missing image");
    assert!(err.message().contains("cannot open image"));

    let err = Session::new(&mut f.card, &f.layout)
        .unwrap()
        .resolve_length(0, 0, Some(LengthMode::Bytes(2 << 20)))
        .expect_err("length exceeds slot");
    assert!(err.message().contains("exceeds"));
}

#[test]
fn zero_detection_distinguishes_blank_from_data() {
    let mut f = fixture();
    let opts = small_chunks();
    write_all(&mut f, &opts);
    let (_, zeroed) = hash_device_range_detect_zero(
        &mut f.card,
        16 << 20,
        700_000,
        opts.chunk_size,
        &mut NullSink,
        "rl",
        0,
    )
    .unwrap();
    assert!(!zeroed);
    let (_, zeroed) = hash_device_range_detect_zero(
        &mut f.card,
        (16 << 20) + (1 << 20),
        1 << 20,
        opts.chunk_size,
        &mut NullSink,
        "rl",
        1,
    )
    .unwrap();
    assert!(zeroed);
}

#[test]
fn a_hashed_range_is_its_bytes_hash() {
    let mut card = MemDevice::new(512, true, 0);
    let data = pattern(2048, 9);
    card.write_at(512, &data).unwrap();
    let mut log = EventLog::new();
    let h = hash_device_range(&mut card, 512, 1500, 512, &mut log, "rl", 3).unwrap();
    assert_eq!(h, sha256_hex(&data[..1500]));
    let done: Vec<u64> = log
        .events
        .iter()
        .map(|e| match e {
            Event::Progress { bytes_done, .. } => *bytes_done,
            other => panic!("{other:?}"),
        })
        .collect();
    assert_eq!(done, vec![512, 1024, 1500]);
}

#[test]
fn toc_header_validation_rejects_corruption() {
    let mut f = fixture();
    write_all(&mut f, &small_chunks());
    let toc_off: u64 = 8 << 20;
    let at = toc_off as usize;
    let valid = f.card.data.clone();

    f.card.data[at + 8] = 0x7f;
    assert!(read_toc(&mut f.card, toc_off).unwrap().is_none());

    f.card.data = valid.clone();
    f.card.data[at + 12..at + 16].copy_from_slice(&u32::MAX.to_le_bytes());
    assert!(read_toc(&mut f.card, toc_off).unwrap().is_none());

    f.card.data = valid.clone();
    f.card.data[at] = b'X';
    assert!(read_toc(&mut f.card, toc_off).unwrap().is_none());

    f.card.data = valid;
    assert!(read_toc(&mut f.card, toc_off).unwrap().is_some());
}

#[test]
fn toc_rejects_oversize_payload_on_write() {
    let mut f = fixture();
    let mut giant = Toc::new("h".to_string());
    giant.upsert(TocEntry {
        bank: "rl".to_string(),
        unit: 0,
        offset: 0,
        name: Some("x".repeat(200_000)),
        length: 1,
        sha256: String::new(),
        written_unix: 0,
    });
    let err = write_toc(&mut f.card, 8 << 20, &encode(&giant)).expect_err("oversize TOC");
    assert!(err.message().contains("exceeds"));
}

fn entry(bank: &str, unit: u32, length: u64) -> TocEntry {
    TocEntry {
        bank: bank.to_string(),
        unit,
        offset: 0,
        name: None,
        length,
        sha256: sha256_hex(b"x"),
        written_unix: 0,
    }
}

#[test]
fn test_toc_read_write_probe() {
    let mut dev = MemDevice::new(512, true, 0);
    dev.ensure_len(2 * 1024 * 1024).unwrap();

    assert!(probe_toc(&mut dev, 0).unwrap().is_none());

    let mut toc = Toc::new("some-layout-hash".to_string());
    toc.upsert(entry("rl", 0, 10_485_760));
    toc.upsert(entry("rp", 0, 200_000_000));

    let offset = 1024 * 1024;
    write_toc(&mut dev, offset, &encode(&toc)).unwrap();

    let read = toc_on(&mut dev, offset).expect("should read toc");
    assert_eq!(read.layout_hash, "some-layout-hash");
    assert_eq!(read.entries.len(), 2);

    let (at, payload) = probe_toc(&mut dev, 0).unwrap().expect("should probe toc");
    assert_eq!(at, offset);
    assert_eq!(decode(&payload).unwrap().layout_hash, "some-layout-hash");

    let mut big_toc = Toc::new("big-layout-hash".to_string());
    for i in 0..30 {
        big_toc.upsert(entry("rl", i, 10_485_760));
    }
    write_toc(&mut dev, offset, &encode(&big_toc)).unwrap();
    let read_big = toc_on(&mut dev, offset).expect("should read big toc");
    assert_eq!(read_big.entries.len(), 30);

    let payload = b"{invalid-json}";
    let total = (HEADER_LEN + payload.len()).div_ceil(512) * 512;
    let mut buf = vec![0u8; total];
    buf[..8].copy_from_slice(&TOC_MAGIC);
    buf[8..12].copy_from_slice(&TOC_VERSION.to_le_bytes());
    buf[12..16].copy_from_slice(&(payload.len() as u32).to_le_bytes());
    let digest = sha256_hex(payload);
    for i in 0..32 {
        buf[16 + i] = u8::from_str_radix(&digest[2 * i..2 * i + 2], 16).unwrap();
    }
    buf[HEADER_LEN..HEADER_LEN + payload.len()].copy_from_slice(payload);
    dev.write_at(offset, &buf).unwrap();
    assert!(toc_on(&mut dev, offset).is_none());
    assert_eq!(read_toc(&mut dev, offset).unwrap().unwrap(), payload);

    buf[HEADER_LEN] ^= 0xff;
    dev.write_at(offset, &buf).unwrap();
    assert!(read_toc(&mut dev, offset).unwrap().is_none());
}

#[test]
fn test_engine_uncovered_branches() {
    let layout = make(
        None,
        vec![bank(
            "rl",
            "0",
            "16MiB",
            2,
            None,
            vec![slot(0, Some("test-slot"), None)],
        )],
    );
    let f = Fixture {
        files: Files::new(),
        layout,
        card: MemDevice::new(512, true, 0),
    };
    let facts = facts_of(&f.files, &image_paths(&f.layout, &vec![]));

    let all = summarize_plan(&f.layout, &vec![], &facts);
    assert_eq!(all.unmapped_count, 2);
    assert_eq!(all.items.len(), 0);

    let sel = summarize_plan(&f.layout, &vec![("rl".to_string(), 0)], &facts);
    assert_eq!(sel.items.len(), 0);

    let err1 = plan(&f, vec![]).unwrap_err();
    assert!(err1.message().contains("manifest names no images"));

    let assign_no_img = SlotAssign::parse("rl:0").unwrap();
    let err2 = plan(&f, vec![assign_no_img]).unwrap_err();
    assert!(err2.message().contains("has no image in the manifest"));

    let assign_dir = SlotAssign {
        slot: SlotRef::parse("rl:0").unwrap(),
        image: Some("/x/".to_string()),
    };
    let err3 = plan(&f, vec![assign_dir]).unwrap_err();
    assert!(err3.message().contains("is not a regular file"));

    let jobs = vec![WriteJob {
        bank: "rl".to_string(),
        unit: 0,
        slot_name: Some("test".to_string()),
        image: "test.img".to_string(),
        image_len: 100,
        extent: Extent {
            offset: 0,
            len: 1000,
        },
    }];
    let ev_wipe = plan_ops("dev", &f.layout, &jobs, OpKind::Wipe);
    if let Event::Plan { ops, .. } = ev_wipe {
        assert_eq!(ops[0].bytes, 1000);
    } else {
        panic!("expected plan event");
    }
}

#[test]
fn a_write_run_tells_its_story() {
    let mut f = fixture();
    let opts = EngineOpts {
        verify: true,
        chunk_size: 512 * 1024,
        ..EngineOpts::default()
    };
    let assign = SlotAssign::parse("rl:0").unwrap();
    let jobs = plan(&f, vec![assign]).unwrap();
    let mut log = EventLog::new();
    let mut s = Session::new(&mut f.card, &f.layout).unwrap();
    write_jobs(&mut s, &f.files, jobs, &opts, &mut log).unwrap();
    let story: Vec<String> = log
        .events
        .iter()
        .map(|e| match e {
            Event::PhaseStart { op, bytes } => format!("phase {} {bytes}", op.name()),
            Event::SlotStart { op, unit, bytes, .. } => {
                format!("start {} {unit} {bytes}", op.name())
            }
            Event::Progress { bytes_done, .. } => format!("at {bytes_done}"),
            Event::SlotEnd { op, ok, .. } => format!("end {} {ok}", op.name()),
            other => panic!("{other:?}"),
        })
        .collect();
    assert_eq!(
        story,
        vec![
            "phase write 700000",
            "start write 0 700000",
            "at 524288",
            "at 700000",
            "end write true",
            "phase verify 700000",
            "start verify 0 700000",
            "at 524288",
            "at 700000",
            "end verify true",
        ]
    );
}

#[test]
fn a_shrinking_image_is_noticed() {
    let mut f = fixture();
    let jobs = plan(&f, vec![]).unwrap();
    f.files
        .insert("/x/alpha.img".to_string(), pattern(600_000, 1));
    let mut s = Session::new(&mut f.card, &f.layout).unwrap();
    let err = write_jobs(&mut s, &f.files, jobs, &small_chunks(), &mut NullSink).unwrap_err();
    assert!(err.message().contains("600000"), "{}", err.message());
}

#[test]
fn a_vanished_image_is_reported() {
    let mut f = fixture();
    let jobs = plan(&f, vec![]).unwrap();
    f.files.remove("/x/alpha.img");
    let mut s = Session::new(&mut f.card, &f.layout).unwrap();
    let err = write_jobs(&mut s, &f.files, jobs, &small_chunks(), &mut NullSink).unwrap_err();
    assert_eq!(
        err.message(),
        "cannot open image /x/alpha.img: No such file"
    );
    let err = verify_missing(&mut f);
    assert_eq!(err.exit_code(), 1);
}

fn verify_missing(f: &mut Fixture) -> Error {
    let jobs = vec![WriteJob {
        bank: "rl".to_string(),
        unit: 0,
        slot_name: None,
        image: "/x/alpha.img".to_string(),
        image_len: 10,
        extent: Extent {
            offset: 16 << 20,
            len: 1 << 20,
        },
    }];
    let mut s = Session::new(&mut f.card, &f.layout).unwrap();
    let mut run = s.verify_slots(jobs, &small_chunks(), &mut NullSink);
    let h = file_hash(&f.files, "/x/alpha.img");
    s.image_hashed(&mut run, h, &mut NullSink).unwrap_err()
}

#[test]
fn writes_leave_other_slots_alone() {
    let mut f = fixture();
    f.card.ensure_len(20 << 20).unwrap();
    let other = pattern(1 << 20, 7);
    f.card.write_at((16 << 20) + (1 << 20), &other).unwrap();
    write_all(&mut f, &small_chunks());
    let at = (16 << 20) + (1 << 20);
    assert_eq!(&f.card.data[at..at + (1 << 20)], &other[..]);
    let mut s = Session::new(&mut f.card, &f.layout).unwrap();
    wipe(&mut s, vec![(0, 0), (0, 2)], &small_chunks()).unwrap();
    assert_eq!(&f.card.data[at..at + (1 << 20)], &other[..]);
    assert_eq!(toc_on(&mut f.card, 8 << 20).unwrap().entries.len(), 0);
}

#[test]
fn a_foreign_toc_is_replaced() {
    let mut f = fixture();
    f.card.ensure_len(20 << 20).unwrap();
    let mut foreign = Toc::new("another layout".to_string());
    foreign.upsert(entry("zz", 9, 1));
    write_toc(&mut f.card, 8 << 20, &encode(&foreign)).unwrap();
    write_all(&mut f, &small_chunks());
    let toc = toc_on(&mut f.card, 8 << 20).unwrap();
    assert!(toc.find("zz", 9).is_none());
    assert_eq!(toc.entries.len(), 2);
}

#[test]
fn a_failing_device_fails_the_run() {
    let f = fixture();
    let jobs = plan(&f, vec![]).unwrap();
    let mut card = MemDevice::new(512, false, 16 << 20);
    let mut s = Session::new(&mut card, &f.layout).unwrap();
    let err = write_jobs(&mut s, &f.files, jobs, &small_chunks(), &mut NullSink).unwrap_err();
    assert!(err.message().contains("suspect"), "{}", err.message());
    assert_eq!(err.exit_code(), 2);
}

#[test]
fn what_does_not_fit_is_told() {
    let f = fixture();
    assert!(is_usable(&f.layout));
    let far = make(None, vec![bank("rl", "0", "1MiB", 1, None, vec![])]);
    assert!(is_usable(&far));
    let high = make(
        Some("36028797018963967s"),
        vec![bank("rl", "0", "1MiB", 1, None, vec![])],
    );
    assert!(!is_usable(&high));

    assert!(chunk_fits(1024, 512));
    assert!(!chunk_fits(1000, 512));
    assert!(!chunk_fits(0, 512));
    assert!(!chunk_fits(512, 0));
    assert!(!chunk_fits(usize::MAX - 511, 512));

    let mut jobs = plan(&f, vec![]).unwrap();
    assert!(jobs_fit(&jobs, 512));
    jobs[0].image_len = u64::MAX;
    jobs[0].extent.len = u64::MAX;
    assert!(!jobs_fit(&jobs, 512));

    let read = |bank_idx: usize, length: u64| {
        vec![ReadJob {
            bank_idx,
            unit: 0,
            length,
            out_path: "o".to_string(),
        }]
    };
    assert!(reads_fit(&f.layout, &read(0, 1000)));
    assert!(!reads_fit(&f.layout, &read(0, u64::MAX)));
    assert!(!reads_fit(&f.layout, &read(1, 1000)));

    assert!(wipes_fit(&f.layout, &vec![(0, 0), (0, 3)]));
    assert!(!wipes_fit(&f.layout, &vec![(0, 4)]));
    assert!(!wipes_fit(&f.layout, &vec![(1, 0)]));

    let item = |bank_idx: usize, hash_len: u64| {
        vec![StatusItem {
            bank_idx,
            unit: 0,
            probe: StatusProbe::Image {
                path: "i".to_string(),
                file_len: hash_len,
                hash_len,
            },
        }]
    };
    assert!(items_fit(&f.layout, &item(0, 1000)));
    assert!(!items_fit(&f.layout, &item(0, u64::MAX)));
    assert!(!items_fit(&f.layout, &item(1, 1000)));

    let mut toc = Toc::new(f.layout.layout_hash());
    let entry = |offset: u64, length: u64| TocEntry {
        bank: "rl".to_string(),
        unit: 0,
        offset,
        name: None,
        length,
        sha256: String::new(),
        written_unix: 0,
    };
    toc.upsert(entry(512, 1000));
    assert!(records_fit(&toc, 512));
    toc.upsert(entry(u64::MAX - 1000, 1000));
    assert!(!records_fit(&toc, 512));

    assert!(can_search(&f.card));
    assert!(!can_search(&MemDevice::new(1, true, 0)));
}

#[test]
fn one_slot_is_read_with_no_phase() {
    let mut card = MemDevice::new(512, true, 0);
    let f = fixture();
    card.write_at(18 << 20, &pattern(1024, 7)).unwrap();
    let mut s = Session::new(&mut card, &f.layout).unwrap();
    let mut run = s.read_slot(0, 2, 700, "o.img", &small_chunks());
    let mut log = EventLog::new();
    assert_eq!(run.need(), ReadNeed::Create(0));
    s.file_created(&mut run, Ok(()), &mut log).unwrap();
    assert_eq!(s.read_chunk(&run).unwrap(), pattern(1024, 7)[..700].to_vec());
    s.chunk_written(&mut run, Ok(()), &mut log).unwrap();
    s.file_synced(&mut run, Ok(()), &mut log).unwrap();
    assert_eq!(run.need(), ReadNeed::Done);
    assert_eq!(run.jobs[0].out_path, "o.img");
    assert_eq!(log.events.len(), 3);
    assert!(matches!(
        log.events[0],
        Event::SlotStart {
            op: OpKind::Read,
            unit: 2,
            bytes: 700,
            ..
        }
    ));
}

/// A card that notes the calls made on it.
struct Noting {
    card: MemDevice,
    calls: Vec<String>,
}

impl RawDevice for Noting {
    fn sector_size(&self) -> u32 {
        self.card.sector_size()
    }
    fn capacity_bytes(&self) -> u64 {
        self.card.capacity_bytes()
    }
    fn growable(&self) -> bool {
        self.card.growable()
    }
    fn write_at(&mut self, offset: u64, buf: &[u8]) -> Result<()> {
        self.calls.push(format!("write {offset}+{}", buf.len()));
        self.card.write_at(offset, buf)
    }
    fn read_at(&mut self, offset: u64, buf: &mut [u8]) -> Result<()> {
        self.calls.push(format!("read {offset}+{}", buf.len()));
        self.card.read_at(offset, buf)
    }
    fn flush(&mut self) -> Result<()> {
        self.calls.push("flush".to_string());
        self.card.flush()
    }
}

fn noting(growing: bool) -> Noting {
    Noting {
        card: MemDevice::new(512, growing, 0),
        calls: vec![],
    }
}

#[test]
fn a_commit_ends_with_a_flush() {
    let f = fixture();
    let mut dev = noting(true);
    write_toc(&mut dev, 512, &b"{}".to_vec()).unwrap();
    assert_eq!(dev.calls, vec!["write 512+512"]);
    dev.calls.clear();
    let mut s = Session::new(&mut dev, &f.layout).unwrap();
    let toc = Toc::new(f.layout.layout_hash());
    let payload = encode(&toc);
    s.commit_toc(toc, &payload).unwrap();
    assert_eq!(dev.calls.len(), 2);
    assert!(dev.calls[0].starts_with("write 8388608+"));
    assert_eq!(dev.calls[1], "flush");

    let bare = make(None, vec![bank("rl", "0", "1MiB", 1, None, vec![])]);
    let mut dev = noting(true);
    let mut s = Session::new(&mut dev, &bare).unwrap();
    s.commit_toc(Toc::new(bare.layout_hash()), &vec![]).unwrap();
    assert_eq!(dev.calls, vec!["flush"]);
}

#[test]
fn a_refused_session_makes_no_call() {
    let f = fixture();
    let mut dev = noting(true);
    dev.card.sector = 4096;
    assert!(Session::new(&mut dev, &f.layout).is_err());
    assert!(dev.calls.is_empty());
}

#[test]
fn bounds_are_checked_unless_the_device_grows() {
    let f = fixture();
    let jobs = plan(&f, vec![]).unwrap();
    let mut grows = noting(true);
    let s = Session::new(&mut grows, &f.layout).unwrap();
    assert!(s.validate_writes(&jobs, &small_chunks()).unwrap().is_empty());
    let mut fixed = noting(false);
    let s = Session::new(&mut fixed, &f.layout).unwrap();
    assert!(s
        .validate_writes(&jobs, &small_chunks())
        .unwrap_err()
        .message()
        .contains("extends past the device capacity"));
}

#[test]
fn reads_ask_for_whole_sectors() {
    let f = fixture();
    let mut dev = noting(true);
    hash_device_range(&mut dev, 512, 700, 512, &mut NullSink, "rl", 0).unwrap();
    assert_eq!(dev.calls, vec!["read 512+512", "read 1024+512"]);
    dev.calls.clear();
    let mut s = Session::new(&mut dev, &f.layout).unwrap();
    let mut run = s.read_slot(0, 0, 700, "o", &small_chunks());
    s.file_created(&mut run, Ok(()), &mut NullSink).unwrap();
    assert_eq!(s.read_chunk(&run).unwrap().len(), 700);
    assert_eq!(dev.calls, vec!["read 16777216+1024"]);
    dev.calls.clear();
    assert!(read_toc(&mut dev, 0).unwrap().is_none());
    assert_eq!(dev.calls, vec!["read 0+4096"]);
}

#[test]
fn sectors_larger_than_the_table_region_work() {
    let raw = RawManifest {
        sector_size: Some(262144),
        toc: Some("0".to_string()),
        allow_unaligned: None,
        bank: vec![bank("rl", "1MiB", "1MiB", 1, None, vec![])],
        drive_types: vec![],
    };
    let layout = resolve(&raw, "/x").unwrap();
    let mut dev = Noting {
        card: MemDevice::new(262144, true, 2 << 20),
        calls: vec![],
    };
    dev.card.data[1 << 20] = 7;
    let toc = Toc::new(layout.layout_hash());
    let payload = encode(&toc);
    let mut s = Session::new(&mut dev, &layout).unwrap();
    s.commit_toc(toc, &payload).unwrap();
    assert_eq!(read_toc(&mut dev, 0).unwrap(), Some(payload));
    assert_eq!(
        dev.calls,
        vec!["write 0+262144", "flush", "read 0+262144"]
    );
    assert_eq!(dev.card.data[1 << 20], 7);
}

#[test]
fn the_search_goes_on_behind_what_is_no_table() {
    // Not a whole number of steps.
    let mut card = MemDevice::new(512, false, (3 << 20) + 200 * 1024);
    write_toc(&mut card, 1 << 20, &b"no table".to_vec()).unwrap();
    write_toc(&mut card, 3 << 20, &b"{}".to_vec()).unwrap();
    let (at, _) = probe_toc(&mut card, 0).unwrap().unwrap();
    assert_eq!(at, 1 << 20);
    let from = next_probe(&card, at).unwrap();
    assert_eq!(from, 2 << 20);
    let (at, payload) = probe_toc(&mut card, from).unwrap().unwrap();
    assert_eq!(at, 3 << 20);
    assert_eq!(payload, b"{}".to_vec());
    assert_eq!(next_probe(&card, at), None);
}

#[test]
fn image_paths_are_the_named_ones() {
    let f = fixture();
    let over = vec![
        SlotAssign::parse("rl:3=x.img").unwrap(),
        SlotAssign::parse("rl:0").unwrap(),
    ];
    assert_eq!(
        image_paths(&f.layout, &over),
        vec!["x.img", "/x/alpha.img", "/x/beta.img"]
    );
}
