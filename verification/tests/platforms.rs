use sdslot::device::{elevation_hint, DeviceInfo};
use sdslot::lines::{has_text, split_lines, split_once, split_word};
use sdslot::platform::{
    bus_name, cstr_at, disk_name, diskutil_info, is_arrival_or_removal, is_block_event,
    is_whole_disk, linux_device, mac_device, model_name, physical_drive, read_number,
    root_disk_name, sort_devices, system_disk_name, volume_path, windows_device, DriveDescriptor,
    LinuxDisk,
};
use sdslot::transfer::{
    check_whole, full_disk_access_hint, host_error, linux_open_context, next_step, AtEnd, Host,
    Piece, Step,
};

#[test]
fn text_is_taken_apart() {
    assert_eq!(split_lines("a\r\n\nb"), vec!["a", "", "b"]);
    assert_eq!(split_lines("a\n"), vec!["a"]);
    assert!(split_lines("").is_empty());
    assert_eq!(split_lines("a\r"), vec!["a\r"]);
    assert_eq!(
        split_once("a:b:c", ':'),
        Some(("a".to_string(), "b:c".to_string()))
    );
    assert_eq!(split_once("abc", ':'), None);
    assert_eq!(
        split_word("  one two "),
        ("one".to_string(), " two ".to_string())
    );
    assert_eq!(split_word("  "), (String::new(), String::new()));
    assert!(has_text("x usb y", "usb"));
    assert!(has_text("usb", ""));
    assert!(!has_text("us", "usb"));
}

#[test]
fn the_root_disk_comes_from_the_mount_table() {
    let root = |dev: &str| root_disk_name(&format!("proc /proc proc rw 0 0\n{dev} / ext4 rw 0 0\n"));
    assert_eq!(root("/dev/sda2").as_deref(), Some("sda"));
    assert_eq!(root("/dev/nvme0n1p3").as_deref(), Some("nvme0n1"));
    assert_eq!(root("/dev/mmcblk0p1").as_deref(), Some("mmcblk0"));
    assert_eq!(root("/dev/sdp1").as_deref(), Some("sdp"));
    assert_eq!(root("/dev/dm").as_deref(), Some("dm"));
    assert_eq!(root("/dev/sda").as_deref(), Some("sda"));
    assert_eq!(root("/dev/sdaa12").as_deref(), Some("sdaa"));
    assert_eq!(root("/dev/vda1").as_deref(), Some("vda"));
    assert_eq!(root("/dev/xvdf1").as_deref(), Some("xvdf"));
    assert_eq!(root("/dev/nvme0n1").as_deref(), Some("nvme0n1"));
    assert_eq!(root("/dev/mmcblk0").as_deref(), Some("mmcblk0"));
    assert_eq!(root("/dev/md127").as_deref(), Some("md127"));
    assert_eq!(root("/dev/pmem0p2").as_deref(), Some("pmem0"));
    assert_eq!(root("overlay"), None);
    assert_eq!(root_disk_name("/dev/sda1 /boot ext4\n"), None);
}

fn linux(name: &str, size: Option<u64>) -> LinuxDisk {
    LinuxDisk {
        name: name.to_string(),
        size,
        removable: Some("1\n".to_string()),
        model: Some(" Card Reader \n".to_string()),
        device_name: None,
        logical_block_size: Some("512\n".to_string()),
        link: "../../../usb1/1-1".to_string(),
    }
}

#[test]
fn linux_block_devices() {
    let root = Some("sda".to_string());
    let d = linux_device(&linux("sdb", Some(100)), &root).unwrap();
    assert_eq!(d.path, "/dev/sdb");
    assert_eq!(d.model, "Card Reader");
    assert_eq!(d.bus, "usb");
    assert_eq!(d.size_bytes, Some(51200));
    assert_eq!(d.sector_size, Some(512));
    assert_eq!(d.removable, Some(true));
    assert!(!d.system);
    assert!(linux_device(&linux("sda", None), &root).unwrap().system);
    let whole = root_disk_name("/dev/nvme0n1 / ext4 rw 0 0\n");
    assert!(linux_device(&linux("nvme0n1", None), &whole).unwrap().system);
    assert_eq!(linux_device(&linux("sda", None), &root).unwrap().size_bytes, None);
    for name in ["ram0", "zram1", "loop7"] {
        assert!(linux_device(&linux(name, Some(1)), &root).is_none());
    }
    assert!(linux_device(&linux("sdb", Some(0)), &root).is_none());
    let bus = |name: &str, link: &str| {
        let mut x = linux(name, Some(1));
        x.link = link.to_string();
        x.model = None;
        x.device_name = Some("N".to_string());
        x.logical_block_size = Some("many".to_string());
        x.removable = None;
        let d = linux_device(&x, &None).unwrap();
        assert_eq!(d.model, "N");
        assert_eq!(d.sector_size, None);
        assert_eq!(d.removable, None);
        d.bus
    };
    assert_eq!(bus("nvme0n1", "usb"), "nvme");
    assert_eq!(bus("mmcblk0", "usb"), "mmc");
    assert_eq!(bus("sda", "../ata1"), "ata");
    assert_eq!(bus("vda", "../virtio"), "unknown");
    assert_eq!(read_number(" +42\n", 100), Some(42));
    assert_eq!(read_number("43", 42), None);
}

#[test]
fn devices_are_listed_by_path() {
    let d = |path: &str| DeviceInfo {
        path: path.to_string(),
        model: String::new(),
        bus: String::new(),
        size_bytes: None,
        sector_size: None,
        removable: None,
        system: false,
    };
    let sorted: Vec<String> = sort_devices(vec![d("/dev/sdb"), d("/dev/nvme0n1"), d("/dev/sd"), d("/dev/sda")])
        .into_iter()
        .map(|d| d.path)
        .collect();
    assert_eq!(
        sorted,
        vec!["/dev/nvme0n1", "/dev/sd", "/dev/sda", "/dev/sdb"]
    );
}

#[test]
fn mac_disks() {
    assert_eq!(disk_name("/dev/rdisk4").as_deref(), Some("disk4"));
    assert_eq!(disk_name("/dev/disk4").as_deref(), Some("disk4"));
    assert_eq!(disk_name("disk4"), None);
    assert!(is_whole_disk("disk0"));
    assert!(is_whole_disk("disk12"));
    assert!(!is_whole_disk("disk0s1"));
    assert!(!is_whole_disk("rdisk0"));
    let text = "   Device / Media Name:  SDXC Reader\n   Protocol:  USB\n\
                Removable Media:           Removable\n\
                Disk Size:  31.9 GB (31914983424 Bytes) (exactly 62333952 512-Byte-Units)\n\
                Virtual:  No\nno colon here\n";
    let info = diskutil_info(text);
    assert_eq!(info.model, "SDXC Reader");
    assert_eq!(info.bus, "usb");
    assert_eq!(info.size_bytes, Some(31_914_983_424));
    assert_eq!(info.removable, Some(true));
    assert!(!info.virtual_device);
    let d = mac_device("disk4", info, &Some("disk0".to_string())).unwrap();
    assert_eq!(d.path, "/dev/rdisk4");
    assert!(!d.system);
    let blank = diskutil_info("");
    assert_eq!(blank.model, "(unknown)");
    assert_eq!(blank.bus, "unknown");
    assert!(mac_device("disk0", blank, &Some("disk0".to_string())).unwrap().system);
    assert!(diskutil_info("Protocol: Disk Image\n").virtual_device);
    assert!(mac_device("disk5", diskutil_info("Virtual: Yes\n"), &None).is_none());
    assert_eq!(diskutil_info("Removable Media: Fixed\n").removable, Some(false));
    assert_eq!(diskutil_info("Disk Size: unknown\n").size_bytes, None);
    assert_eq!(
        system_disk_name("   Device:  x\n   Part of Whole:  disk0 \n").as_deref(),
        Some("disk0")
    );
    assert_eq!(system_disk_name(""), None);
}

#[test]
fn windows_descriptors() {
    assert_eq!(bus_name(7), "usb");
    assert_eq!(bus_name(12), "sd");
    assert_eq!(bus_name(15), "virtual");
    assert_eq!(bus_name(99), "unknown");
    let mut buf = b"\0\0 Vendor \0Product\0tail".to_vec();
    assert_eq!(cstr_at(&buf, 2).as_deref(), Some("Vendor"));
    assert_eq!(cstr_at(&buf, 11).as_deref(), Some("Product"));
    assert_eq!(cstr_at(&buf, 0), None);
    assert_eq!(cstr_at(&buf, 1), None);
    assert_eq!(cstr_at(&buf, 19), None);
    assert_eq!(cstr_at(&buf, 1000), None);
    buf[3] = 0xff;
    assert_eq!(cstr_at(&buf, 2).as_deref(), Some("\u{fffd}endor"));
    let s = |t: &str| Some(t.to_string());
    assert_eq!(model_name(s("V"), s("P")), "V P");
    assert_eq!(model_name(s("V"), None), "V");
    assert_eq!(model_name(None, s("P")), "P");
    assert_eq!(model_name(None, None), "(unknown)");
    assert_eq!(physical_drive(12), "\\\\.\\PhysicalDrive12");
}

#[test]
fn hotplug_events() {
    assert!(is_block_event(b"add@/x\0SUBSYSTEM=block\0"));
    assert!(!is_block_event(b"add@/x\0SUBSYSTEM=usb\0"));
    assert!(!is_block_event(b"SUBSYSTEM"));
    assert!(is_arrival_or_removal(0x8000));
    assert!(is_arrival_or_removal(0x8004));
    assert!(!is_arrival_or_removal(7));
    assert!(!elevation_hint(true).is_empty());
    assert_eq!(elevation_hint(false), "re-run with sudo");
}

#[test]
fn windows_drives() {
    let d = DriveDescriptor {
        vendor: Some("Generic".to_string()),
        product: Some("STORAGE DEVICE".to_string()),
        bus_type: 7,
        removable: true,
    };
    assert_eq!(
        windows_device(2, Some(d), Some(8_000_000_000), Some((512, 7)), Some(0)),
        DeviceInfo {
            path: "\\\\.\\PhysicalDrive2".to_string(),
            model: "Generic STORAGE DEVICE".to_string(),
            bus: "usb".to_string(),
            size_bytes: Some(8_000_000_000),
            sector_size: Some(512),
            removable: Some(true),
            system: false,
        }
    );
    let unknown = windows_device(0, None, None, Some((4096, 1 << 40)), Some(0));
    assert_eq!(unknown.model, "(unknown)");
    assert_eq!(unknown.bus, "unknown");
    assert_eq!(unknown.size_bytes, Some(1 << 40));
    assert_eq!(unknown.removable, None);
    assert!(unknown.system);
    assert_eq!(windows_device(1, None, None, None, None).size_bytes, None);
    assert_eq!(
        volume_path("\\\\?\\Volume{0}\\"),
        "\\\\?\\Volume{0}"
    );
    assert_eq!(volume_path("\\"), "");
}

#[test]
fn transfers_go_piece_by_piece() {
    let step = |done: usize, piece: Piece, end: AtEnd| next_step(1000, 10, done, piece, end);
    assert_eq!(step(0, Piece::Moved(4), AtEnd::Fault), Step::Call(4));
    assert_eq!(step(4, Piece::Interrupted, AtEnd::Fault), Step::Call(4));
    assert_eq!(step(4, Piece::Moved(6), AtEnd::Fault), Step::Complete);
    assert_eq!(step(4, Piece::Moved(0), AtEnd::Zeros), Step::Fill(4));
    assert_eq!(step(4, Piece::Moved(0), AtEnd::Fault), Step::Ended(1004));
    assert_eq!(step(4, Piece::Moved(0), AtEnd::Again), Step::Call(4));
    assert_eq!(step(4, Piece::Failed, AtEnd::Zeros), Step::Refused);
    assert!(check_whole(true, 5, 8, 8).is_ok());
    assert_eq!(
        check_whole(true, 5, 7, 8).unwrap_err().message(),
        "short read at offset 5: 7 of 8 bytes"
    );
    assert_eq!(
        check_whole(false, 5, 0, 8).unwrap_err().message(),
        "short write at offset 5: 0 of 8 bytes"
    );
}

#[test]
fn refusals_come_with_a_hint() {
    let words = |host: Host, code: Option<i32>, root: bool| {
        host_error(host, code, root, "cannot open x", "no").message()
    };
    assert_eq!(
        words(Host::Linux, Some(13), false),
        "cannot open x: no (re-run with sudo)"
    );
    assert_eq!(words(Host::Linux, Some(1), true), "cannot open x: no");
    assert_eq!(
        words(Host::Mac, Some(13), false),
        "cannot open x: no (re-run with sudo)"
    );
    assert_eq!(
        words(Host::Mac, Some(1), false),
        format!("cannot open x: no ({})", full_disk_access_hint(false))
    );
    assert!(words(Host::Mac, Some(1), true).contains("(already running as root — macOS requires"));
    assert!(!full_disk_access_hint(false).contains("root"));
    assert_eq!(
        words(Host::Windows, Some(5), false),
        "cannot open x: no (run from an elevated (Administrator) prompt)"
    );
    assert_eq!(words(Host::Windows, None, false), "cannot open x: no");
    assert_eq!(
        linux_open_context("/dev/sdb", Some(16)),
        "cannot open /dev/sdb (device is in use — unmount its filesystems first)"
    );
    assert_eq!(linux_open_context("/dev/sdb", Some(2)), "cannot open /dev/sdb");
}
