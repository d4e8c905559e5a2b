use sdslot::error::{dev_err, val_err, Error};
use sdslot::units::{format_bytes, parse_size};

#[test]
fn parses_plain_and_suffixed() {
    assert_eq!(parse_size("0", 512).unwrap(), 0);
    assert_eq!(parse_size("512", 512).unwrap(), 512);
    assert_eq!(parse_size("16MiB", 512).unwrap(), 16 << 20);
    assert_eq!(parse_size("512MiB", 512).unwrap(), 512 << 20);
    assert_eq!(parse_size("2GiB", 512).unwrap(), 2 << 30);
    assert_eq!(parse_size("1TiB", 512).unwrap(), 1 << 40);
    assert_eq!(parse_size("8KiB", 512).unwrap(), 8 << 10);
    assert_eq!(parse_size(" 4 MiB ", 512).unwrap(), 4 << 20);
    assert_eq!(parse_size("16mib", 512).unwrap(), 16 << 20);
    assert_eq!(parse_size("3M", 512).unwrap(), 3 << 20);
}

#[test]
fn parses_lba_suffix() {
    assert_eq!(parse_size("2048s", 512).unwrap(), 2048 * 512);
    assert_eq!(parse_size("100s", 4096).unwrap(), 100 * 4096);
}

#[test]
fn rejects_garbage() {
    assert!(parse_size("", 512).is_err());
    assert!(parse_size("MiB", 512).is_err());
    assert!(parse_size("12XB", 512).is_err());
    assert!(parse_size("-5", 512).is_err());
    assert!(parse_size("99999999999999999999", 512).is_err());
}

#[test]
fn size_errors_say_what_is_wrong() {
    assert_eq!(parse_size("  ", 512).unwrap_err().message(), "empty size expression");
    assert_eq!(
        parse_size(" 12\"XB ", 512).unwrap_err().message(),
        "cannot parse size \"12\\\"XB\": expected bytes, a KiB/MiB/GiB/TiB suffix, or \"NNNs\" LBAs"
    );
    assert_eq!(
        parse_size("99999999TiB", 512).unwrap_err().message(),
        "size \"99999999TiB\" overflows u64"
    );
}

#[test]
fn formats() {
    assert_eq!(format_bytes(16 << 20), "16 MiB");
    assert_eq!(format_bytes(512), "512 B");
    assert_eq!(format_bytes(10_485_760), "10 MiB");
    assert_eq!(format_bytes(31_914_983_424), "~29.72 GiB");
    assert_eq!(format_bytes(2_000_398_934_016), "~1.82 TiB");
    assert_eq!(format_bytes(1_000), "1000 B");
}

#[test]
fn approximations_round_like_binary64() {
    let units: [(u64, &str); 4] = [
        (1 << 40, "TiB"),
        (1 << 30, "GiB"),
        (1 << 20, "MiB"),
        (1 << 10, "KiB"),
    ];
    let mut n: u64 = 1025;
    for step in 0..4000u64 {
        let (m, name) = *units.iter().find(|(m, _)| n >= *m).unwrap();
        let tidy = units
            .iter()
            .any(|(m, _)| n >= *m && n % *m == 0 && n / *m < 10_000);
        if !tidy {
            let want = format!("~{:.2} {name}", n as f64 / m as f64);
            assert_eq!(format_bytes(n), want);
        }
        n = n.wrapping_mul(6364136223846793005).wrapping_add(step * 2 + 1) >> (step % 50);
        if n < 1025 {
            n += 1025;
        }
    }
    assert_eq!(format_bytes(u64::MAX), format!("~{:.2} TiB", u64::MAX as f64 / (1u64 << 40) as f64));
    assert_eq!(format_bytes(10368 << 20), "~10.12 GiB");
    assert_eq!(format_bytes((10 << 30) + (384 << 20)), format!("~{:.2} GiB", 10.375f64));
}

#[test]
fn exit_codes_match_design() {
    assert_eq!(Error::Validation("x".into()).exit_code(), 1);
    assert_eq!(Error::Device("x".into()).exit_code(), 2);
    assert_eq!(Error::VerifyMismatch("x".into()).exit_code(), 3);
}

#[test]
fn wrappers_classify_and_keep_context() {
    let io = || std::io::Error::new(std::io::ErrorKind::NotFound, "gone");
    let d = dev_err("opening /dev/x", io());
    assert!(matches!(d, Error::Device(_)));
    assert!(d.message().contains("opening /dev/x"));
    let v = val_err("image foo.img", io());
    assert!(matches!(v, Error::Validation(_)));
    assert!(v.message().contains("gone"));

    assert!(matches!(Error::validation("v"), Error::Validation(_)));
    assert!(matches!(Error::device("d"), Error::Device(_)));
    assert!(matches!(Error::verify_mismatch("m"), Error::VerifyMismatch(_)));
}
