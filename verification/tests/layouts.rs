use sdslot::layout::{hex, Layout, SlotAssign, SlotRef};
use sdslot::manifest::{resolve, try_resolve, RawBank, RawDriveType, RawManifest, RawSlot};
use sdslot::rtl::{export, identifier, output_stem, RtlFormat};

const GOLDEN: &str = r#"
sector_size = 512
toc = "496MiB"

[[bank]]
name       = "rl"
base       = "0"
slot_size  = "16MiB"
units      = 8
drive_type = "RL02"

  [[bank.slot]]
  unit  = 0
  name  = "xxdp-rl02"
  image = "images/xxdp25.rl02"

  [[bank.slot]]
  unit  = 1
  name  = "rt11-work"
  image = "images/rt11work.rl02"

[[bank]]
name       = "rp"
base       = "2GiB"
slot_size  = "256MiB"
units      = 8
drive_type = "RP06"

  [[bank.slot]]
  unit  = 7
  name  = "211bsd"
  image = "images/211bsd_rp06.dsk"
"#;

fn text(t: &toml::Table, key: &str) -> Option<String> {
    t.get(key).map(|v| v.as_str().unwrap().to_string())
}

fn number(t: &toml::Table, key: &str) -> Option<u32> {
    t.get(key).map(|v| v.as_integer().unwrap() as u32)
}

fn flag(t: &toml::Table, key: &str) -> Option<bool> {
    t.get(key).map(|v| v.as_bool().unwrap())
}

fn tables<'a>(t: &'a toml::Table, key: &str) -> Vec<&'a toml::Table> {
    match t.get(key) {
        Some(v) => v
            .as_array()
            .unwrap()
            .iter()
            .map(|x| x.as_table().unwrap())
            .collect(),
        None => vec![],
    }
}

fn raw(manifest: &str) -> RawManifest {
    let t: toml::Table = manifest.parse().unwrap();
    let bank = tables(&t, "bank")
        .into_iter()
        .map(|b| RawBank {
            name: text(b, "name").unwrap(),
            base: text(b, "base").unwrap(),
            slot_size: text(b, "slot_size").unwrap(),
            units: number(b, "units").unwrap(),
            drive_type: text(b, "drive_type"),
            slot: tables(b, "slot")
                .into_iter()
                .map(|s| RawSlot {
                    unit: number(s, "unit").unwrap(),
                    name: text(s, "name"),
                    image: text(s, "image"),
                })
                .collect(),
        })
        .collect();
    let mut drive_types: Vec<(String, RawDriveType)> = match t.get("drive_types") {
        Some(v) => v
            .as_table()
            .unwrap()
            .iter()
            .map(|(name, d)| {
                let d = d.as_table().unwrap();
                (
                    name.clone(),
                    RawDriveType {
                        image_size: text(d, "image_size"),
                        recommended_slot: text(d, "recommended_slot"),
                        cylinders: number(d, "cylinders"),
                        heads: number(d, "heads"),
                        sectors: number(d, "sectors"),
                        bytes_per_sector: number(d, "bytes_per_sector"),
                        stream: flag(d, "stream"),
                    },
                )
            })
            .collect(),
        None => vec![],
    };
    drive_types.sort_by(|a, b| a.0.cmp(&b.0));
    RawManifest {
        sector_size: number(&t, "sector_size"),
        toc: text(&t, "toc"),
        allow_unaligned: flag(&t, "allow_unaligned"),
        bank,
        drive_types,
    }
}

fn load(manifest: &str) -> Layout {
    resolve(&raw(manifest), ".").expect("layout should parse")
}

fn expect_reject(manifest: &str, needle: &str) {
    match resolve(&raw(manifest), ".") {
        Ok(_) => panic!("layout unexpectedly accepted (wanted error containing {needle:?})"),
        Err(e) => {
            let msg = e.message();
            assert!(msg.contains(needle), "error {msg:?} lacks {needle:?}");
            assert_eq!(e.exit_code(), 1);
        }
    }
}

#[test]
fn golden_layout_resolves() {
    let l = load(GOLDEN);
    assert_eq!(l.sector_size, 512);
    assert_eq!(l.toc_offset, Some(496 << 20));
    assert_eq!(l.banks.len(), 2);

    let rl = &l.banks[0];
    assert_eq!(rl.name, "rl");
    assert_eq!(rl.base, 0);
    assert_eq!(rl.slot_size, 16 << 20);
    assert_eq!(rl.units, 8);
    assert_eq!(rl.drive_type.as_ref().unwrap().image_bytes, 10_485_760);
    assert_eq!(rl.slots.len(), 2);

    let rp = &l.banks[1];
    assert_eq!(rp.base, 2 << 30);
    assert_eq!(rp.slot_offset(7), (2 << 30) + 7 * (256 << 20));

    for bank in &l.banks {
        for unit in 0..bank.units {
            assert_eq!(
                bank.base | (u64::from(unit) * bank.slot_size),
                bank.base + u64::from(unit) * bank.slot_size,
                "bank {} unit {unit}",
                bank.name
            );
        }
    }

    assert_eq!(l.max_extent_end(), (2u64 << 30) + 8 * (256u64 << 20));
}

#[test]
fn rejects_base_not_aligned_to_span() {
    expect_reject(
        r#"
[[bank]]
name = "rp"
base = "512MiB"
slot_size = "256MiB"
units = 8
drive_type = "RP06"
"#,
        "aligned to the bank's power-of-two span",
    );
    let l = load(
        r#"
allow_unaligned = true

[[bank]]
name = "rp"
base = "512MiB"
slot_size = "256MiB"
units = 8
drive_type = "RP06"
"#,
    );
    assert_eq!(l.banks[0].base, 512 << 20);
}

#[test]
fn slot_refs_resolve() {
    let l = load(GOLDEN);
    assert_eq!(
        l.resolve_slot(&SlotRef::parse("rl:1").unwrap()).unwrap(),
        (0, 1)
    );
    assert_eq!(
        l.resolve_slot(&SlotRef::parse("rp:7").unwrap()).unwrap(),
        (1, 7)
    );
    assert!(l.resolve_slot(&SlotRef::parse("1").unwrap()).is_err());
    assert!(l.resolve_slot(&SlotRef::parse("rk:0").unwrap()).is_err());
    assert!(l.resolve_slot(&SlotRef::parse("rl:8").unwrap()).is_err());

    let assign = SlotAssign::parse("rl:1=foo.rl02").unwrap();
    assert_eq!(assign.slot, SlotRef::parse("rl:1").unwrap());
    assert_eq!(assign.image.unwrap(), "foo.rl02");
}

#[test]
fn unresolved_references_say_why() {
    let l = load(GOLDEN);
    let said = |s: &str| {
        l.resolve_slot(&SlotRef::parse(s).unwrap())
            .unwrap_err()
            .message()
    };
    assert_eq!(
        said("1"),
        "slot reference 1 needs a bank prefix: manifest has 2 banks"
    );
    assert_eq!(said("rk:0"), "no bank named \"rk\"");
    assert_eq!(
        said("rl:8"),
        "unit 8 out of range for bank \"rl\" (8 units)"
    );
}

#[test]
fn single_bank_allows_bare_unit() {
    let l = load(
        r#"
[[bank]]
name = "rl"
base = "0"
slot_size = "16MiB"
units = 4
"#,
    );
    assert_eq!(
        l.resolve_slot(&SlotRef::parse("2").unwrap()).unwrap(),
        (0, 2)
    );
}

#[test]
fn rtl_export_matches_design_example() {
    let l = load(GOLDEN);
    let vh = export(&l, RtlFormat::Vh, "card_layout").unwrap();
    assert!(
        vh.contains("localparam RL_BASE_LBA   = 32'h0000_0000;"),
        "{vh}"
    );
    assert!(vh.contains("localparam RL_SLOT_SHIFT = 15;"), "{vh}");
    assert!(
        vh.contains("localparam RP_BASE_LBA   = 32'h0040_0000;"),
        "{vh}"
    );
    assert!(vh.contains("localparam RP_SLOT_SHIFT = 19;"), "{vh}");
    assert!(vh.contains("localparam RP_UNITS      = 4'd8;"), "{vh}");

    let sv = export(&l, RtlFormat::Sv, "card_layout").unwrap();
    assert!(sv.contains("package card_layout;"), "{sv}");
    assert!(sv.contains("endpackage"), "{sv}");

    let rs = export(&l, RtlFormat::Rust, "card_layout").unwrap();
    assert!(
        rs.contains("pub const RP_BASE_LBA: u32 = 0x0040_0000;"),
        "{rs}"
    );

    let h = export(&l, RtlFormat::CHeader, "card_layout").unwrap();
    assert!(h.contains("#ifndef CARD_LAYOUT_H"), "{h}");
    assert!(h.contains("#define RP_SLOT_SHIFT 19"), "{h}");
}

const SHIPPED: &str = r#"
sector_size = 512

[[bank]]
name       = "rl"
base       = "0"
slot_size  = "16MiB"
units      = 16
drive_type = "RL02"

[[bank]]
name       = "rx"
base       = "256MiB"
slot_size  = "4MiB"
units      = 16
drive_type = "RX02"

[[bank]]
name       = "tm"
base       = "4GiB"
slot_size  = "512MiB"
units      = 8

[[bank]]
name       = "rp"
base       = "2GiB"
slot_size  = "256MiB"
units      = 8
drive_type = "RP06"
"#;

#[test]
fn verilog_export_word_for_word() {
    let vh = export(&load(SHIPPED), RtlFormat::Vh, "card_layout").unwrap();
    assert_eq!(
        vh,
        r#"// Generated by sdslot export-rtl; do not edit.
// Sector size: 512 bytes.

// Bank "rl": RL02 x 16, 16 MiB slots @ base 0 B
localparam RL_BASE_LBA   = 32'h0000_0000;
localparam RL_SLOT_SHIFT = 15;
localparam RL_UNITS      = 5'd16;

// Bank "rx": RX02 x 16, 4 MiB slots @ base 256 MiB
localparam RX_BASE_LBA   = 32'h0008_0000;
localparam RX_SLOT_SHIFT = 13;
localparam RX_UNITS      = 5'd16;

// Bank "tm": 8 units, 512 MiB slots @ base 4 GiB
localparam TM_BASE_LBA   = 32'h0080_0000;
localparam TM_SLOT_SHIFT = 20;
localparam TM_UNITS      = 4'd8;

// Bank "rp": RP06 x 8, 256 MiB slots @ base 2 GiB
localparam RP_BASE_LBA   = 32'h0040_0000;
localparam RP_SLOT_SHIFT = 19;
localparam RP_UNITS      = 4'd8;
"#
    );
}

#[test]
fn exported_constants_address_every_slot() {
    let l = load(SHIPPED);
    for bank in &l.banks {
        let p = sdslot::rtl::bank_params(bank, l.sector_size).unwrap();
        for unit in 0..bank.units {
            for block in [0u64, 7, (bank.slot_size / 512) - 1] {
                let lba = u64::from(p.base_lba) | (u64::from(unit) << p.slot_shift) | block;
                assert_eq!(lba * 512, bank.slot_offset(unit) + block * 512);
            }
        }
    }
}

#[test]
fn other_formats_word_for_word() {
    let l = load(
        "[[bank]]\nname=\"rk\"\nbase=\"4MiB\"\nslot_size=\"4MiB\"\nunits=1\ndrive_type=\"RK05\"\n",
    );
    let head = "// Generated by sdslot export-rtl; do not edit.\n// Sector size: 512 bytes.\n";
    let bank = "\n// Bank \"rk\": RK05 x 1, 4 MiB slots @ base 4 MiB\n";
    assert_eq!(
        export(&l, RtlFormat::Rust, "x").unwrap(),
        format!(
            "{head}{bank}pub const RK_BASE_LBA: u32 = 0x0000_2000;\n\
             pub const RK_SLOT_SHIFT: u32 = 13;\npub const RK_UNITS: u32 = 1;\n"
        )
    );
    assert_eq!(
        export(&l, RtlFormat::CHeader, "9-my card").unwrap(),
        format!(
            "{head}\n#ifndef _9_MY_CARD_H\n#define _9_MY_CARD_H\n{bank}\
             #define RK_BASE_LBA 0x00002000u\n#define RK_SLOT_SHIFT 13\n#define RK_UNITS 1\n\
             \n#endif\n"
        )
    );
    assert_eq!(
        export(&l, RtlFormat::Sv, "9-my card").unwrap(),
        format!(
            "{head}\npackage _9_my_card;\n{bank}localparam RK_BASE_LBA   = 32'h0000_2000;\n\
             localparam RK_SLOT_SHIFT = 13;\nlocalparam RK_UNITS      = 1'd1;\n\nendpackage\n"
        )
    );
    let far = load(
        "[[bank]]\nname=\"z\"\nbase=\"4096TiB\"\nslot_size=\"4MiB\"\nunits=1\n",
    );
    assert_eq!(
        export(&far, RtlFormat::Vh, "x").unwrap_err().message(),
        "bank \"z\": base 4096 TiB is past the reach of a 32-bit block address"
    );
}

#[test]
fn export_formats() {
    assert_eq!(RtlFormat::parse("vh").unwrap(), RtlFormat::Vh);
    assert_eq!(RtlFormat::parse("sv").unwrap(), RtlFormat::Sv);
    assert_eq!(RtlFormat::parse("rs").unwrap(), RtlFormat::Rust);
    assert_eq!(RtlFormat::parse("h").unwrap(), RtlFormat::CHeader);
    assert_eq!(
        RtlFormat::parse("vhdl").unwrap_err().message(),
        "unknown RTL format \"vhdl\": expected vh | sv | rs | h"
    );
    assert_eq!(RtlFormat::from_path("out/x.svh"), Some(RtlFormat::Sv));
    assert_eq!(RtlFormat::from_path("x.V"), Some(RtlFormat::Vh));
    assert_eq!(RtlFormat::from_path("x.txt"), None);
    assert_eq!(RtlFormat::from_path("-"), None);
    assert_eq!(
        RtlFormat::selected(Some("h"), Some(RtlFormat::Sv)).unwrap(),
        RtlFormat::CHeader
    );
    assert_eq!(
        RtlFormat::selected(None, Some(RtlFormat::Sv)).unwrap(),
        RtlFormat::Sv
    );
    assert_eq!(RtlFormat::selected(None, None).unwrap(), RtlFormat::Vh);
    assert!(RtlFormat::selected(Some("x"), None).is_err());
    assert_eq!(output_stem("out/card_layout.vh"), "card_layout");
    assert_eq!(output_stem("/"), "card_layout");
    assert_eq!(identifier(""), "_");
    assert_eq!(identifier("2x.y"), "_2x_y");
    assert_eq!(identifier("ok_1"), "ok_1");
}

#[test]
fn rejects_overlapping_banks() {
    expect_reject(
        r#"
[[bank]]
name = "a"
base = "0"
slot_size = "16MiB"
units = 8

[[bank]]
name = "b"
base = "64MiB"
slot_size = "16MiB"
units = 4
"#,
        "overlaps",
    );
}

#[test]
fn rejects_toc_inside_bank() {
    expect_reject(
        r#"
toc = "16MiB"

[[bank]]
name = "a"
base = "0"
slot_size = "16MiB"
units = 4
"#,
        "overlaps",
    );
}

#[test]
fn rejects_non_power_of_two_slot() {
    expect_reject(
        r#"
[[bank]]
name = "a"
base = "0"
slot_size = "12MiB"
units = 4
"#,
        "power of two",
    );
}

#[test]
fn allow_unaligned_overrides_pow2_rule() {
    let l = load(
        r#"
allow_unaligned = true

[[bank]]
name = "a"
base = "0"
slot_size = "12MiB"
units = 4
"#,
    );
    assert_eq!(l.banks[0].slot_size, 12 << 20);
    assert!(export(&l, RtlFormat::Vh, "x").is_err());
}

#[test]
fn rejects_slot_smaller_than_drive_type() {
    expect_reject(
        r#"
[[bank]]
name = "a"
base = "0"
slot_size = "8MiB"
units = 4
drive_type = "RL02"
"#,
        "smaller than",
    );
}

#[test]
fn rejects_unit_out_of_range_and_duplicates() {
    expect_reject(
        r#"
[[bank]]
name = "a"
base = "0"
slot_size = "16MiB"
units = 2

  [[bank.slot]]
  unit = 2
"#,
        "out of range",
    );
    expect_reject(
        r#"
[[bank]]
name = "a"
base = "0"
slot_size = "16MiB"
units = 2

  [[bank.slot]]
  unit = 0

  [[bank.slot]]
  unit = 0
"#,
        "duplicate",
    );
}

#[test]
fn rejects_unknown_drive_types() {
    expect_reject(
        r#"
[[bank]]
name = "a"
base = "0"
slot_size = "16MiB"
units = 2
drive_type = "RX99"
"#,
        "unknown drive type",
    );
}

#[test]
fn rejects_structural_errors() {
    expect_reject("", "defines no banks");
    expect_reject(
        "sector_size = 100\n[[bank]]\nname=\"a\"\nbase=\"0\"\nslot_size=\"16MiB\"\nunits=1\n",
        "power of two",
    );
    expect_reject(
        "[[bank]]\nname=\"a\"\nbase=\"0\"\nslot_size=\"16MiB\"\nunits=0\n",
        "units must be > 0",
    );
    expect_reject(
        "[[bank]]\nname=\"a\"\nbase=\"1000\"\nslot_size=\"16MiB\"\nunits=1\n",
        "not sector-aligned",
    );
    expect_reject(
        "[[bank]]\nname=\"a\"\nbase=\"0\"\nslot_size=\"1000\"\nunits=1\n",
        "nonzero multiple",
    );
    expect_reject(
        "toc = \"1000\"\n[[bank]]\nname=\"a\"\nbase=\"0\"\nslot_size=\"16MiB\"\nunits=1\n",
        "not sector-aligned",
    );
    expect_reject(
        "[[bank]]\nname=\"a\"\nbase=\"0\"\nslot_size=\"16MiB\"\nunits=1\n\
         [[bank]]\nname=\"a\"\nbase=\"64MiB\"\nslot_size=\"16MiB\"\nunits=1\n",
        "duplicate bank name",
    );
}

#[test]
fn rejects_bad_drive_type_definitions() {
    expect_reject(
        "[drive_types.X]\ncylinders = 10\n\
         [[bank]]\nname=\"a\"\nbase=\"0\"\nslot_size=\"16MiB\"\nunits=1\n",
        "give all of",
    );
    expect_reject(
        "[drive_types.X]\nrecommended_slot = \"1MiB\"\n\
         [[bank]]\nname=\"a\"\nbase=\"0\"\nslot_size=\"16MiB\"\nunits=1\n",
        "needs image_size",
    );
    expect_reject(
        "[drive_types.X]\nimage_size = \"10MiB\"\nrecommended_slot = \"1MiB\"\n\
         [[bank]]\nname=\"a\"\nbase=\"0\"\nslot_size=\"16MiB\"\nunits=1\n",
        "exceeds recommended_slot",
    );
}

#[test]
fn rejects_stream_types_with_geometry() {
    let manifest = "[drive_types.T]\nstream = true\nimage_size = \"1MiB\"\ncylinders = 1\n\
                    [[bank]]\nname=\"a\"\nbase=\"0\"\nslot_size=\"16MiB\"\nunits=1\n";
    assert!(resolve(&raw(manifest), ".").is_err());
}

#[test]
fn custom_drive_types_extend_registry() {
    let l = load(
        r#"
[drive_types.RX50]
image_size = "409600"
recommended_slot = "512KiB"

[drive_types.RK07]
cylinders = 815
heads = 3
sectors = 22
bytes_per_sector = 512

[[bank]]
name = "rx"
base = "0"
slot_size = "512KiB"
units = 4
drive_type = "RX50"
"#,
    );
    assert_eq!(l.registry.get("RX50").unwrap().image_bytes, 409_600);
    let rk07 = l.registry.get("rk07").unwrap();
    assert_eq!(rk07.image_bytes, 815 * 3 * 22 * 512);
    assert_eq!(l.banks[0].drive_type.as_ref().unwrap().name, "RX50");
}

#[test]
fn layout_hash_tracks_geometry_not_slots() {
    let a = load(GOLDEN);
    let b = load(&GOLDEN.replace("xxdp-rl02", "renamed-slot"));
    assert_eq!(a.layout_hash(), b.layout_hash());
    let c = load(&GOLDEN.replacen("units      = 8", "units      = 16", 1));
    assert_ne!(a.layout_hash(), c.layout_hash());
}

#[test]
fn layout_hash_is_the_sha256_of_its_text() {
    let a = load(GOLDEN);
    let text = "sector=512\nbank=rl base=0 slot_size=16777216 units=8\n\
                bank=rp base=2147483648 slot_size=268435456 units=8\n";
    assert_eq!(a.layout_hash(), sdslot::toc::sha256_hex(text.as_bytes()));
    assert_eq!(hex(&[0x00, 0xff, 0x1a]), "00ff1a");
}

#[test]
fn image_paths_are_taken_from_the_manifest_directory() {
    let with = |image: &str| {
        let text = format!(
            "[[bank]]\nname=\"rl\"\nbase=\"0\"\nslot_size=\"16MiB\"\nunits=1\n\
             [[bank.slot]]\nunit=0\nimage=\"{image}\"\n"
        );
        resolve(&raw(&text), "/cards").unwrap().banks[0]
            .image_path(0)
            .unwrap()
    };
    assert_eq!(with("/test/image.rl02"), "/test/image.rl02");
    assert_eq!(with("a/b.rl02"), "/cards/a/b.rl02");
}

#[test]
fn a_layout_ends_with_its_furthest_bank() {
    let l = load(
        "sector_size = 512\n[[bank]]\nname = \"rl\"\nbase = \"0\"\nslot_size = \"16MiB\"\nunits = 4\n",
    );
    assert_eq!(l.max_extent_end(), 4 * 16 * 1024 * 1024);
    assert_eq!(l.toc_extent(), None);
}

#[test]
fn sizes_past_64_bits_are_caught() {
    let m = raw(
        "allow_unaligned = true\n[[bank]]\nname=\"a\"\nbase=\"0\"\nslot_size=\"16777215TiB\"\nunits=4\n",
    );
    assert!(try_resolve(&m, ".").is_none());
}
