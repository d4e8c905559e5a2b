//! What the platforms' own descriptions of their disks amount to: mount tables
//! and block device attributes on Linux, disk information on macOS, device
//! descriptors on Windows.

use vstd::prelude::*;
use vstd::string::*;

use crate::device::DeviceInfo;
use crate::layout::{last_place, last_place_is};
use crate::lines::{
    before_mark, behind_mark, behind_word, has_text, holds_text, lines_of, place, skip_chars,
    split_lines, split_once, split_word, trim_digits, word,
};
use crate::text::{
    all_digits, begins_with, cat2, cat3, chars_of, dec, dec_is_digits, dec_text, digit_here, eq_ignoring_case,
    is_digit, is_lower, lowercase, lowercase_text, opt_text, parse_unsigned, parsed, same_ignoring_case,
    same_text, starts_with, string_of, texts, trim, trimmed,
};

verus! {

pub struct DeviceInfoView {
    pub path: Seq<char>,
    pub model: Seq<char>,
    pub bus: Seq<char>,
    pub size_bytes: Option<u64>,
    pub sector_size: Option<u32>,
    pub removable: Option<bool>,
    pub system: bool,
}

pub open spec fn info_view(d: DeviceInfo) -> DeviceInfoView {
    DeviceInfoView {
        path: d.path@,
        model: d.model@,
        bus: d.bus@,
        size_bytes: d.size_bytes,
        sector_size: d.sector_size,
        removable: d.removable,
        system: d.system,
    }
}

/// The number that a trimmed text writes, when it is at most `max`.
pub open spec fn number_in(s: Seq<char>, max: nat) -> Option<nat> {
    parsed(trim(s), max)
}

/// The number that a text writes, white space around it aside.
pub fn read_number(s: &str, max: u64) -> (r: Option<u64>)
    ensures
        (match r {
            Some(n) => Some(n as nat),
            None => None,
        }) == number_in(s@, max as nat),
{
    let t = trimmed(s);
    let cs = chars_of(&t);
    assert(cs@.skip(0) =~= t@);
    parse_unsigned(&cs, 0, max)
}

// ---------------------------------------------------------------------------
// Linux
// ---------------------------------------------------------------------------

/// The device name of a mount table's line, if it mounts a device at the root.
pub open spec fn root_source(line: Seq<char>) -> Option<Seq<char>> {
    let dev = word(line);
    let at = word(behind_word(line));
    if at == "/"@ && starts_with(dev, "/dev/"@) {
        Some(dev.skip("/dev/"@.len() as int))
    } else {
        None
    }
}

/// The first root device among the lines from `i` on.
pub open spec fn root_source_from(lines: Seq<Seq<char>>, i: int) -> Option<Seq<char>>
    decreases lines.len() - i,
{
    if i < 0 || i >= lines.len() {
        None
    } else if root_source(lines[i]) is Some {
        root_source(lines[i])
    } else {
        root_source_from(lines, i + 1)
    }
}

/// A name that ends in a partition number behind the name of a disk that itself
/// ends in a digit.
pub open spec fn numbered_partition(name: Seq<char>) -> bool {
    let p = last_place(name, 'p');
    p >= 1 && p + 1 < name.len() && all_digits(name.skip(p + 1)) && is_digit(name[p - 1])
}

/// A disk of one of the families that are told apart by letters, such as `sda`.
/// The number of a partition follows such a name directly; all other disks end
/// in digits of their own.
pub open spec fn lettered_disk(name: Seq<char>) -> bool {
    &&& forall|i: int| 0 <= i < name.len() ==> is_lower(#[trigger] name[i])
    &&& {
        ||| starts_with(name, "sd"@) && name.len() > 2
        ||| starts_with(name, "hd"@) && name.len() > 2
        ||| starts_with(name, "vd"@) && name.len() > 2
        ||| starts_with(name, "xvd"@) && name.len() > 3
        ||| starts_with(name, "ubd"@) && name.len() > 3
        ||| starts_with(name, "dasd"@) && name.len() > 4
    }
}

/// The disk that a block device is or is on: `nvme0n1p3` and `nvme0n1` are on
/// `nvme0n1`, `mmcblk0p1` on `mmcblk0`, `sda2` on `sda`.
pub open spec fn disk_of(name: Seq<char>) -> Seq<char> {
    if numbered_partition(name) {
        name.take(last_place(name, 'p'))
    } else if lettered_disk(trim_digits(name)) {
        trim_digits(name)
    } else {
        name
    }
}

fn is_lettered_disk(name: &str) -> (r: bool)
    ensures
        r == lettered_disk(name@),
{
    let cs = chars_of(name);
    let n: usize = cs.len();
    let mut i: usize = 0;
    while i < n
        invariant
            cs@ == name@,
            n == cs@.len(),
            i <= n,
            forall|j: int| 0 <= j < i ==> is_lower(#[trigger] name@[j]),
        decreases n - i,
    {
        if !('a' <= cs[i] && cs[i] <= 'z') {
            assert(!is_lower(name@[i as int]));
            return false;
        }
        i = i + 1;
    }
    (begins_with(name, "sd") && n > 2) || (begins_with(name, "hd") && n > 2) || (begins_with(
        name,
        "vd",
    ) && n > 2) || (begins_with(name, "xvd") && n > 3) || (begins_with(name, "ubd") && n > 3) || (
    begins_with(name, "dasd") && n > 4)
}

fn disk_of_name(name: &str) -> (r: String)
    ensures
        r@ == disk_of(name@),
{
    let cs = chars_of(name);
    let n: usize = cs.len();
    let mut i: usize = n;
    assert(name@.take(n as int) =~= name@);
    while i > 0 && cs[i - 1] != 'p'
        invariant
            cs@ == name@,
            n == cs@.len(),
            i <= n,
            last_place(name@, 'p') == last_place(name@.take(i as int), 'p'),
        decreases i,
    {
        assert(name@.take(i as int).drop_last() =~= name@.take(i - 1));
        i = i - 1;
    }
    // The letter stands at `i - 1`, if anywhere.
    assert(last_place(name@, 'p') == i - 1) by {
        if i > 0 {
            assert(name@.take(i as int).last() == 'p');
        }
    }
    if i >= 2 && i < n && digit_here(cs[i - 2]) {
        let mut k: usize = i;
        while k < n && digit_here(cs[k])
            invariant
                cs@ == name@,
                n == cs@.len(),
                2 <= i <= k <= n,
                forall|j: int| i <= j < k ==> is_digit(#[trigger] cs@[j]),
            decreases n - k,
        {
            k = k + 1;
        }
        let ghost rest = name@.skip(i as int);
        if k == n {
            assert forall|j: int| 0 <= j < rest.len() implies is_digit(#[trigger] rest[j]) by {
                assert(rest[j] == cs@[i + j]);
            }
            let r = string_of(&cs, 0, i - 1);
            assert(r@ =~= name@.take(i - 1));
            return r;
        }
        assert(rest[k - i] == cs@[k as int]);
        assert(!all_digits(rest));
    }
    let mut e: usize = n;
    while e > 0 && digit_here(cs[e - 1])
        invariant
            cs@ == name@,
            n == cs@.len(),
            e <= n,
            trim_digits(name@) == trim_digits(name@.take(e as int)),
        decreases e,
    {
        assert(name@.take(e as int).drop_last() =~= name@.take(e - 1));
        e = e - 1;
    }
    let stem = string_of(&cs, 0, e);
    assert(stem@ =~= name@.take(e as int));
    assert(trim_digits(name@) == stem@);
    assert(!numbered_partition(name@));
    if is_lettered_disk(&stem) {
        stem
    } else {
        name.to_owned()
    }
}

proof fn trim_digits_from(stem: Seq<char>, digits: Seq<char>)
    requires
        all_digits(digits),
        stem.len() == 0 || !is_digit(stem.last()),
    ensures
        trim_digits(stem + digits) == stem,
    decreases digits.len(),
{
    let s = stem + digits;
    if digits.len() == 0 {
        assert(s =~= stem);
    } else {
        assert(is_digit(digits.last()));
        assert(s.drop_last() =~= stem + digits.drop_last());
        trim_digits_from(stem, digits.drop_last());
    }
}

/// The name of a disk and the names of its partitions all lead to the disk. A
/// disk is lettered, or it ends in a digit and partition numbers stand behind a
/// `p`.
pub proof fn disks_and_partitions_lead_to_the_disk(disk: Seq<char>, number: nat)
    requires
        lettered_disk(disk) || {
            &&& disk.len() > 0
            &&& is_digit(disk.last())
            &&& !numbered_partition(disk)
            &&& !lettered_disk(trim_digits(disk))
        },
    ensures
        disk_of(disk) == disk,
        lettered_disk(disk) ==> disk_of(disk + dec(number)) == disk,
        !lettered_disk(disk) ==> disk_of(disk + "p"@ + dec(number)) == disk,
{
    let digits = dec(number);
    dec_is_digits(number);
    if lettered_disk(disk) {
        assert(is_lower(disk[disk.len() - 1]));
        trim_digits_from(disk, Seq::empty());
        assert(disk + Seq::<char>::empty() =~= disk);
        trim_digits_from(disk, digits);
        let part = disk + digits;
        // Whatever stands before a `p` is a letter.
        assert(!numbered_partition(disk)) by {
            if numbered_partition(disk) {
                assert(is_lower(disk[last_place(disk, 'p') - 1]));
            }
        }
        assert(!numbered_partition(part)) by {
            let p = last_place(part, 'p');
            if numbered_partition(part) {
                last_place_holds(part, 'p');
                if p < disk.len() {
                    assert(part[p - 1] == disk[p - 1]);
                    assert(is_lower(disk[p - 1]));
                } else {
                    assert(part[p] == digits[p - disk.len()]);
                    assert(is_digit(digits[p - disk.len()]));
                }
            }
        }
    } else {
        reveal_strlit("p");
        let part = disk + "p"@ + digits;
        let p = disk.len() as int;
        assert forall|j: int| p < j < part.len() implies #[trigger] part[j] != 'p' by {
            assert(part[j] == digits[j - p - 1]);
            assert(is_digit(digits[j - p - 1]));
        }
        last_place_is(part, 'p', p);
        assert(part.skip(p + 1) =~= digits);
        assert(part.take(p) =~= disk);
        assert(part[p - 1] == disk.last());
    }
}

proof fn last_place_holds(s: Seq<char>, c: char)
    ensures
        last_place(s, c) >= 0 ==> last_place(s, c) < s.len() && s[last_place(s, c)] == c,
    decreases s.len(),
{
    if s.len() > 0 && s.last() != c {
        last_place_holds(s.drop_last(), c);
    }
}

/// The whole disk that holds the root filesystem, by the mount table.
pub open spec fn root_disk_in(mounts: Seq<char>) -> Option<Seq<char>> {
    match root_source_from(lines_of(mounts), 0) {
        Some(name) => Some(disk_of(name)),
        None => None,
    }
}

/// The whole disk that holds the root filesystem, such as `sda` or `nvme0n1`.
pub fn root_disk_name(mounts: &str) -> (r: Option<String>)
    ensures
        opt_text(r) == root_disk_in(mounts@),
{
    let lines = split_lines(mounts);
    let ghost all = texts(lines@);
    let mut i: usize = 0;
    while i < lines.len()
        invariant
            i <= lines@.len(),
            all == texts(lines@),
            all == lines_of(mounts@),
            root_source_from(all, 0) == root_source_from(all, i as int),
        decreases lines@.len() - i,
    {
        assert(all[i as int] == lines@[i as int]@);
        let (dev, rest) = split_word(&lines[i]);
        let (at, _) = split_word(&rest);
        if same_text(&at, "/") && begins_with(&dev, "/dev/") {
            let n: usize = "/dev/".unicode_len();
            let name = skip_chars(&dev, n);
            return Some(disk_of_name(&name));
        }
        i = i + 1;
    }
    None
}

/// A block device's attributes, as its directory gives them.
#[derive(Debug)]
pub struct LinuxDisk {
    pub name: String,
    /// Size in units of 512 bytes, whatever the sector size.
    pub size: Option<u64>,
    pub removable: Option<String>,
    pub model: Option<String>,
    pub device_name: Option<String>,
    pub logical_block_size: Option<String>,
    /// Where the device's link points.
    pub link: String,
}

/// RAM disks and loop devices are never a card.
pub open spec fn synthetic(name: Seq<char>) -> bool {
    starts_with(name, "ram"@) || starts_with(name, "zram"@) || starts_with(name, "loop"@)
}

pub open spec fn linux_bus(name: Seq<char>, link: Seq<char>) -> Seq<char> {
    if starts_with(name, "nvme"@) {
        "nvme"@
    } else if starts_with(name, "mmcblk"@) {
        "mmc"@
    } else if holds_text(link, "usb"@) {
        "usb"@
    } else if holds_text(link, "ata"@) {
        "ata"@
    } else {
        "unknown"@
    }
}

/// The device of a block device's attributes. Synthetic and empty ones are none.
pub open spec fn linux_info(d: LinuxDisk, root: Option<Seq<char>>) -> Option<DeviceInfoView> {
    if synthetic(d.name@) || d.size == Some(0u64) {
        None
    } else {
        Some(
            DeviceInfoView {
                path: "/dev/"@ + d.name@,
                model: match (d.model, d.device_name) {
                    (Some(m), _) => trim(m@),
                    (None, Some(n)) => trim(n@),
                    (None, None) => "(unknown)"@,
                },
                bus: linux_bus(d.name@, d.link@),
                size_bytes: match d.size {
                    Some(n) => Some((n * 512) as u64),
                    None => None,
                },
                sector_size: match d.logical_block_size {
                    Some(t) => match number_in(t@, u32::MAX as nat) {
                        Some(n) => Some(n as u32),
                        None => None,
                    },
                    None => None,
                },
                removable: match d.removable {
                    Some(t) => Some(trim(t@) == "1"@),
                    None => None,
                },
                system: root == Some(d.name@),
            },
        )
    }
}

/// The device of a block device's attributes; `root` is the disk that holds the
/// root filesystem.
pub fn linux_device(d: &LinuxDisk, root: &Option<String>) -> (r: Option<DeviceInfo>)
    requires
        d.size matches Some(n) ==> n * 512 <= u64::MAX,
    ensures
        (match r {
            Some(i) => Some(info_view(i)),
            None => None,
        }) == linux_info(*d, opt_text(*root)),
{
    if begins_with(&d.name, "ram") || begins_with(&d.name, "zram") || begins_with(&d.name, "loop") {
        return None;
    }
    let size_bytes = match d.size {
        Some(n) => {
            if n == 0 {
                return None;
            }
            Some(n * 512)
        },
        None => None,
    };
    let model = match &d.model {
        Some(m) => trimmed(m),
        None => match &d.device_name {
            Some(n) => trimmed(n),
            None => "(unknown)".to_owned(),
        },
    };
    let sector_size = match &d.logical_block_size {
        Some(t) => match read_number(t, u32::MAX as u64) {
            Some(n) => {
                assert(number_in(t@, u32::MAX as nat) == Some(n as nat));
                assert(n <= u32::MAX);
                Some(n as u32)
            },
            None => None,
        },
        None => None,
    };
    let removable = match &d.removable {
        Some(t) => {
            let t = trimmed(t);
            Some(same_text(&t, "1"))
        },
        None => None,
    };
    let bus = if begins_with(&d.name, "nvme") {
        "nvme"
    } else if begins_with(&d.name, "mmcblk") {
        "mmc"
    } else if has_text(&d.link, "usb") {
        "usb"
    } else if has_text(&d.link, "ata") {
        "ata"
    } else {
        "unknown"
    };
    let system = match root {
        Some(name) => same_text(name, &d.name),
        None => false,
    };
    Some(
        DeviceInfo {
            path: cat2("/dev/", &d.name),
            model,
            bus: bus.to_owned(),
            size_bytes,
            sector_size,
            removable,
            system,
        },
    )
}

// ---------------------------------------------------------------------------
// Order of the list
// ---------------------------------------------------------------------------

/// `a` stands at or before `b` in the order of texts: by the first character in
/// which they differ, a shorter text before its continuations.
pub open spec fn text_at_most(a: Seq<char>, b: Seq<char>) -> bool
    decreases a.len(),
{
    if a.len() == 0 {
        true
    } else if b.len() == 0 {
        false
    } else if a[0] == b[0] {
        text_at_most(a.skip(1), b.skip(1))
    } else {
        a[0] < b[0]
    }
}

proof fn order_is_total(a: Seq<char>, b: Seq<char>)
    ensures
        text_at_most(a, b) || text_at_most(b, a),
    decreases a.len(),
{
    if a.len() > 0 && b.len() > 0 && a[0] == b[0] {
        order_is_total(a.skip(1), b.skip(1));
    }
}

proof fn order_is_transitive(a: Seq<char>, b: Seq<char>, c: Seq<char>)
    requires
        text_at_most(a, b),
        text_at_most(b, c),
    ensures
        text_at_most(a, c),
    decreases a.len(),
{
    if a.len() > 0 && a[0] == b[0] && b[0] == c[0] {
        order_is_transitive(a.skip(1), b.skip(1), c.skip(1));
    }
}

fn text_precedes(a: &str, b: &str) -> (r: bool)
    ensures
        r == text_at_most(a@, b@),
{
    let x = chars_of(a);
    let y = chars_of(b);
    let mut i: usize = 0;
    assert(a@.skip(0) =~= a@ && b@.skip(0) =~= b@);
    while i < x.len() && i < y.len() && x[i] == y[i]
        invariant
            x@ == a@,
            y@ == b@,
            i <= x@.len(),
            i <= y@.len(),
            text_at_most(a@, b@) == text_at_most(a@.skip(i as int), b@.skip(i as int)),
        decreases x@.len() - i,
    {
        assert(a@.skip(i as int).skip(1) =~= a@.skip(i + 1));
        assert(b@.skip(i as int).skip(1) =~= b@.skip(i + 1));
        i = i + 1;
    }
    if i >= x.len() {
        true
    } else if i >= y.len() {
        false
    } else {
        x[i] < y[i]
    }
}

/// The list is in the order of its paths.
pub open spec fn by_path(v: Seq<DeviceInfo>) -> bool {
    forall|i: int, j: int|
        0 <= i < j < v.len() ==> text_at_most((#[trigger] v[i]).path@, (#[trigger] v[j]).path@)
}

/// Put a list of devices in the order of their paths.
pub fn sort_devices(devices: Vec<DeviceInfo>) -> (r: Vec<DeviceInfo>)
    ensures
        by_path(r@),
        r@.to_multiset() == devices@.to_multiset(),
{
    let mut rest = devices;
    let mut out: Vec<DeviceInfo> = Vec::new();
    proof {
        assert(out@ + rest@ =~= devices@);
    }
    while rest.len() > 0
        invariant
            by_path(out@),
            (out@ + rest@).to_multiset() == devices@.to_multiset(),
        decreases rest@.len(),
    {
        let ghost before = rest@;
        let ghost sorted = out@;
        let d = rest.remove(0);
        let mut k: usize = out.len();
        proof {
            assert forall|j: int| k <= j < sorted.len() implies text_at_most(
                d.path@,
                (#[trigger] sorted[j]).path@,
            ) by {}
        }
        while k > 0 && !text_precedes(&out[k - 1].path, &d.path)
            invariant
                k <= out@.len(),
                out@ == sorted,
                by_path(sorted),
                forall|j: int|
                    k <= j < sorted.len() ==> text_at_most(d.path@, (#[trigger] sorted[j]).path@),
            decreases k,
        {
            proof {
                order_is_total(sorted[k - 1].path@, d.path@);
            }
            k = k - 1;
        }
        let ghost item = d;
        out.insert(k, d);
        proof {
            assert(out@ =~= sorted.insert(k as int, item));
            assert forall|i: int, j: int| 0 <= i < j < out@.len() implies text_at_most(
                (#[trigger] out@[i]).path@,
                (#[trigger] out@[j]).path@,
            ) by {
                if j == k {
                    assert(out@[i] == sorted[i]);
                    if i < k - 1 {
                        assert(text_at_most(sorted[i].path@, sorted[k - 1].path@));
                        order_is_transitive(
                            sorted[i].path@,
                            sorted[k - 1].path@,
                            item.path@,
                        );
                    }
                } else if i == k {
                    assert(out@[j] == sorted[j - 1]);
                } else {
                    let a = if i < k {
                        i
                    } else {
                        i - 1
                    };
                    let b = if j < k {
                        j
                    } else {
                        j - 1
                    };
                    assert(out@[i] == sorted[a] && out@[j] == sorted[b]);
                }
            }
            vstd::seq_lib::lemma_multiset_commutative(sorted, before);
            assert(before =~= seq![item] + rest@);
            vstd::seq_lib::lemma_multiset_commutative(seq![item], rest@);
            vstd::seq_lib::lemma_multiset_commutative(out@, rest@);
            sorted.insert_ensures(k as int, item);
            broadcast use vstd::seq_lib::group_to_multiset_ensures;

            assert(out@.to_multiset() == sorted.to_multiset().insert(item));
            assert(seq![item].to_multiset() == vstd::multiset::Multiset::empty().insert(item)) by {
                assert(seq![item] =~= Seq::empty().push(item));
            }
            assert((out@ + rest@).to_multiset() =~= (sorted + before).to_multiset());
        }
    }
    assert(out@ + rest@ =~= out@);
    out
}

// ---------------------------------------------------------------------------
// macOS
// ---------------------------------------------------------------------------

/// `/dev/rdisk4` is disk `disk4`.
pub open spec fn mac_disk(path: Seq<char>) -> Option<Seq<char>> {
    if starts_with(path, "/dev/"@) {
        let name = path.skip("/dev/"@.len() as int);
        Some(
            if name.len() > 0 && name[0] == 'r' {
                name.skip(1)
            } else {
                name
            },
        )
    } else {
        None
    }
}

/// The disk's own name behind a raw device path.
pub fn disk_name(path: &str) -> (r: Option<String>)
    ensures
        opt_text(r) == mac_disk(path@),
{
    if !begins_with(path, "/dev/") {
        return None;
    }
    let n: usize = "/dev/".unicode_len();
    let name = skip_chars(path, n);
    let cs = chars_of(&name);
    if cs.len() > 0 && cs[0] == 'r' {
        Some(skip_chars(&name, 1))
    } else {
        Some(name)
    }
}

/// A whole disk's name: `disk0`, not `disk0s1`, and not the raw alias.
pub open spec fn names_whole_disk(name: Seq<char>) -> bool {
    starts_with(name, "disk"@) && forall|i: int|
        "disk"@.len() <= i < name.len() ==> is_digit(#[trigger] name[i])
}

/// Is it a whole disk's name?
pub fn is_whole_disk(name: &str) -> (r: bool)
    ensures
        r == names_whole_disk(name@),
{
    if !begins_with(name, "disk") {
        return false;
    }
    let cs = chars_of(name);
    let mut i: usize = "disk".unicode_len();
    while i < cs.len()
        invariant
            cs@ == name@,
            "disk"@.len() <= i <= cs@.len(),
            starts_with(name@, "disk"@),
            forall|j: int| "disk"@.len() <= j < i ==> is_digit(#[trigger] name@[j]),
        decreases cs@.len() - i,
    {
        if !digit_here(cs[i]) {
            assert(!is_digit(name@[i as int]));
            return false;
        }
        i = i + 1;
    }
    true
}

/// What `diskutil info` says of a disk.
#[derive(Debug)]
pub struct DiskutilInfo {
    pub model: String,
    pub bus: String,
    pub size_bytes: Option<u64>,
    pub removable: Option<bool>,
    /// A virtual disk image rather than physical media.
    pub virtual_device: bool,
}

pub struct DiskutilView {
    pub model: Seq<char>,
    pub bus: Seq<char>,
    pub size_bytes: Option<u64>,
    pub removable: Option<bool>,
    pub virtual_device: bool,
}

impl View for DiskutilInfo {
    type V = DiskutilView;

    open spec fn view(&self) -> DiskutilView {
        DiskutilView {
            model: self.model@,
            bus: self.bus@,
            size_bytes: self.size_bytes,
            removable: self.removable,
            virtual_device: self.virtual_device,
        }
    }
}

pub open spec fn nothing_known() -> DiskutilView {
    DiskutilView {
        model: "(unknown)"@,
        bus: "unknown"@,
        size_bytes: None,
        removable: None,
        virtual_device: false,
    }
}

/// The byte count of a size such as `31.9 GB (31914983424 Bytes) (exactly ...)`:
/// the first word behind the first bracket.
pub open spec fn bracketed_bytes(value: Seq<char>) -> Option<nat> {
    if place(value, '(') >= value.len() {
        None
    } else {
        parsed(word(before_mark(behind_mark(value, '('), '(')), u64::MAX as nat)
    }
}

/// What is known after one more line.
pub open spec fn after_line(info: DiskutilView, line: Seq<char>) -> DiskutilView {
    let key = trim(before_mark(line, ':'));
    let value = trim(behind_mark(line, ':'));
    if place(line, ':') >= line.len() {
        info
    } else if key == "Device / Media Name"@ {
        DiskutilView { model: value, ..info }
    } else if key == "Protocol"@ {
        DiskutilView {
            bus: lowercase(value),
            virtual_device: info.virtual_device || holds_text(lowercase(value), "disk image"@),
            ..info
        }
    } else if key == "Virtual"@ {
        DiskutilView {
            virtual_device: info.virtual_device || starts_with(value, "Yes"@),
            ..info
        }
    } else if key == "Removable Media"@ {
        DiskutilView { removable: Some(same_ignoring_case(value, "removable"@)), ..info }
    } else if key == "Disk Size"@ {
        match bracketed_bytes(value) {
            Some(n) => DiskutilView { size_bytes: Some(n as u64), ..info },
            None => info,
        }
    } else {
        info
    }
}

/// What is known after the first `n` lines.
pub open spec fn after_lines(lines: Seq<Seq<char>>, n: int) -> DiskutilView
    decreases n,
{
    if n <= 0 {
        nothing_known()
    } else {
        after_line(after_lines(lines, n - 1), lines[n - 1])
    }
}

fn bytes_in_brackets(value: &str) -> (r: Option<u64>)
    ensures
        (match r {
            Some(n) => Some(n as nat),
            None => None,
        }) == bracketed_bytes(value@),
{
    match split_once(value, '(') {
        None => None,
        Some((_, rest)) => {
            let part = match split_once(&rest, '(') {
                Some((a, _)) => a,
                None => {
                    assert(before_mark(rest@, '(') =~= rest@) by {
                        crate::search::first_where_props(rest@, crate::layout::is_char('('));
                    }
                    rest
                },
            };
            let (w, _) = split_word(&part);
            let cs = chars_of(&w);
            assert(cs@.skip(0) =~= w@);
            parse_unsigned(&cs, 0, u64::MAX)
        },
    }
}

/// Read what `diskutil info` printed.
pub fn diskutil_info(text: &str) -> (r: DiskutilInfo)
    ensures
        r@ == after_lines(lines_of(text@), lines_of(text@).len() as int),
{
    let lines = split_lines(text);
    let ghost all = texts(lines@);
    let mut info = DiskutilInfo {
        model: "(unknown)".to_owned(),
        bus: "unknown".to_owned(),
        size_bytes: None,
        removable: None,
        virtual_device: false,
    };
    let mut i: usize = 0;
    assert(all.len() == lines@.len());
    while i < lines.len()
        invariant
            i <= lines@.len(),
            all == texts(lines@),
            all == lines_of(text@),
            info@ == after_lines(all, i as int),
        decreases lines@.len() - i,
    {
        assert(all[i as int] == lines@[i as int]@);
        if let Some((key, value)) = split_once(&lines[i], ':') {
            let key = trimmed(&key);
            let value = trimmed(&value);
            if same_text(&key, "Device / Media Name") {
                info.model = value;
            } else if same_text(&key, "Protocol") {
                info.bus = lowercase_text(&value);
                if has_text(&info.bus, "disk image") {
                    info.virtual_device = true;
                }
            } else if same_text(&key, "Virtual") {
                if begins_with(&value, "Yes") {
                    info.virtual_device = true;
                }
            } else if same_text(&key, "Removable Media") {
                info.removable = Some(eq_ignoring_case(&value, "removable"));
            } else if same_text(&key, "Disk Size") {
                if let Some(n) = bytes_in_brackets(&value) {
                    info.size_bytes = Some(n);
                }
            }
        }
        i = i + 1;
    }
    info
}

/// The whole disk that a `diskutil info` of the root names.
pub open spec fn whole_from(lines: Seq<Seq<char>>, i: int) -> Option<Seq<char>>
    decreases lines.len() - i,
{
    if i < 0 || i >= lines.len() {
        None
    } else if place(lines[i], ':') < lines[i].len() && trim(before_mark(lines[i], ':'))
        == "Part of Whole"@ {
        Some(trim(behind_mark(lines[i], ':')))
    } else {
        whole_from(lines, i + 1)
    }
}

/// The whole disk behind the boot volume, such as `disk0`.
pub fn system_disk_name(text: &str) -> (r: Option<String>)
    ensures
        opt_text(r) == whole_from(lines_of(text@), 0),
{
    let lines = split_lines(text);
    let ghost all = texts(lines@);
    let mut i: usize = 0;
    while i < lines.len()
        invariant
            i <= lines@.len(),
            all == texts(lines@),
            all == lines_of(text@),
            whole_from(all, 0) == whole_from(all, i as int),
        decreases lines@.len() - i,
    {
        assert(all[i as int] == lines@[i as int]@);
        if let Some((key, value)) = split_once(&lines[i], ':') {
            let key = trimmed(&key);
            if same_text(&key, "Part of Whole") {
                return Some(trimmed(&value));
            }
        }
        i = i + 1;
    }
    None
}

/// The device of a disk, unless it is a disk image.
pub fn mac_device(name: &str, info: DiskutilInfo, system: &Option<String>) -> (r: Option<DeviceInfo>)
    ensures
        (match r {
            Some(d) => Some(info_view(d)),
            None => None,
        }) == (if info@.virtual_device {
            None
        } else {
            Some(
                DeviceInfoView {
                    path: "/dev/r"@ + name@,
                    model: info@.model,
                    bus: info@.bus,
                    size_bytes: info@.size_bytes,
                    sector_size: None,
                    removable: info@.removable,
                    system: opt_text(*system) == Some(name@),
                },
            )
        }),
{
    if info.virtual_device {
        return None;
    }
    let is_system = match system {
        Some(s) => same_text(s, name),
        None => false,
    };
    Some(
        DeviceInfo {
            path: cat2("/dev/r", name),
            model: info.model,
            bus: info.bus,
            size_bytes: info.size_bytes,
            sector_size: None,
            removable: info.removable,
            system: is_system,
        },
    )
}

// ---------------------------------------------------------------------------
// Windows
// ---------------------------------------------------------------------------

/// The name of a storage bus type.
pub open spec fn bus_text(bus_type: u8) -> Seq<char> {
    match bus_type {
        1 => "scsi"@,
        2 => "atapi"@,
        3 => "ata"@,
        4 => "1394"@,
        7 => "usb"@,
        8 => "raid"@,
        9 => "iscsi"@,
        10 => "sas"@,
        11 => "sata"@,
        12 => "sd"@,
        13 => "mmc"@,
        14 => "virtual"@,
        15 => "virtual"@,
        16 => "spaces"@,
        17 => "nvme"@,
        _ => "unknown"@,
    }
}

/// The name of a storage bus type.
pub fn bus_name(bus_type: u8) -> (r: &'static str)
    ensures
        r@ == bus_text(bus_type),
{
    match bus_type {
        1 => "scsi",
        2 => "atapi",
        3 => "ata",
        4 => "1394",
        7 => "usb",
        8 => "raid",
        9 => "iscsi",
        10 => "sas",
        11 => "sata",
        12 => "sd",
        13 => "mmc",
        14 => "virtual",
        15 => "virtual",
        16 => "spaces",
        17 => "nvme",
        _ => "unknown",
    }
}

/// The text of bytes, what is not UTF-8 replaced.
pub uninterp spec fn lossy(bytes: Seq<u8>) -> Seq<char>;

/// `String::from_utf8_lossy`: the result is named, a function of the bytes alone.
#[verifier::external_body]
fn lossy_text(bytes: &Vec<u8>) -> (r: String)
    ensures
        r@ == lossy(bytes@),
{
    String::from_utf8_lossy(bytes).into_owned()
}

/// Where the first zero byte stands from `from` on, or the length.
pub open spec fn zero_from(buf: Seq<u8>, from: int) -> int
    decreases buf.len() - from,
{
    if from < 0 || from >= buf.len() || buf[from] == 0 {
        from
    } else {
        zero_from(buf, from + 1)
    }
}

/// The text at an offset of a descriptor: it ends with a zero byte, and an
/// offset of zero, or outside, is none.
pub open spec fn text_at(buf: Seq<u8>, offset: u32) -> Option<Seq<char>> {
    let end = zero_from(buf, offset as int);
    if offset == 0 || offset >= buf.len() || end >= buf.len() {
        None
    } else {
        let t = trim(lossy(buf.subrange(offset as int, end)));
        if t.len() == 0 {
            None
        } else {
            Some(t)
        }
    }
}

/// The bytes of the text at an offset of a descriptor.
fn bytes_at(buf: &Vec<u8>, offset: u32) -> (r: Option<Vec<u8>>)
    ensures
        match r {
            Some(b) => offset > 0 && offset < buf@.len() && zero_from(buf@, offset as int)
                < buf@.len() && b@ == buf@.subrange(offset as int, zero_from(buf@, offset as int)),
            None => offset == 0 || offset >= buf@.len() || zero_from(buf@, offset as int)
                >= buf@.len(),
        },
{
    let off: usize = offset as usize;
    if off == 0 || off >= buf.len() {
        return None;
    }
    let mut out: Vec<u8> = Vec::new();
    let mut i: usize = off;
    while i < buf.len() && buf[i] != 0
        invariant
            off == offset as int,
            off <= i <= buf@.len(),
            zero_from(buf@, off as int) == zero_from(buf@, i as int),
            out@ == buf@.subrange(off as int, i as int),
        decreases buf@.len() - i,
    {
        out.push(buf[i]);
        i = i + 1;
        assert(out@ =~= buf@.subrange(off as int, i as int));
    }
    if i < buf.len() {
        Some(out)
    } else {
        None
    }
}

/// A descriptor's text from its decoded form: trimmed, and none if nothing is
/// left.
pub fn descriptor_text(decoded: &str) -> (r: Option<String>)
    ensures
        opt_text(r) == (if trim(decoded@).len() == 0 {
            None
        } else {
            Some(trim(decoded@))
        }),
{
    let t = trimmed(decoded);
    if t.unicode_len() == 0 {
        None
    } else {
        Some(t)
    }
}

/// The text at an offset of a device descriptor.
pub fn cstr_at(buf: &Vec<u8>, offset: u32) -> (r: Option<String>)
    ensures
        opt_text(r) == text_at(buf@, offset),
{
    match bytes_at(buf, offset) {
        Some(b) => {
            let t = lossy_text(&b);
            descriptor_text(&t)
        },
        None => None,
    }
}

/// The model that vendor and product make.
pub open spec fn model_of(vendor: Option<Seq<char>>, product: Option<Seq<char>>) -> Seq<char> {
    match (vendor, product) {
        (Some(v), Some(p)) => v + " "@ + p,
        (Some(v), None) => v,
        (None, Some(p)) => p,
        (None, None) => "(unknown)"@,
    }
}

/// The model that vendor and product make.
pub fn model_name(vendor: Option<String>, product: Option<String>) -> (r: String)
    ensures
        r@ == model_of(opt_text(vendor), opt_text(product)),
{
    match vendor {
        Some(v) => match product {
            Some(p) => cat3(&v, " ", &p),
            None => v,
        },
        None => match product {
            Some(p) => p,
            None => "(unknown)".to_owned(),
        },
    }
}

/// The path of a physical drive.
pub fn physical_drive(n: u32) -> (r: String)
    ensures
        r@ == "\\\\.\\PhysicalDrive"@ + dec(n as nat),
{
    let d = dec_text(n as u64);
    cat2("\\\\.\\PhysicalDrive", &d)
}

/// What a drive's descriptor says.
#[derive(Debug)]
pub struct DriveDescriptor {
    pub vendor: Option<String>,
    pub product: Option<String>,
    pub bus_type: u8,
    pub removable: bool,
}

/// The device of physical drive `n`. Its length is the size, or else what its
/// geometry (sector size and disk size) says.
pub open spec fn windows_info(
    n: u32,
    descriptor: Option<DriveDescriptor>,
    length: Option<u64>,
    geometry: Option<(u32, u64)>,
    system: Option<u32>,
) -> DeviceInfoView {
    DeviceInfoView {
        path: "\\\\.\\PhysicalDrive"@ + dec(n as nat),
        model: match descriptor {
            Some(d) => model_of(opt_text(d.vendor), opt_text(d.product)),
            None => "(unknown)"@,
        },
        bus: match descriptor {
            Some(d) => bus_text(d.bus_type),
            None => "unknown"@,
        },
        size_bytes: match (length, geometry) {
            (Some(len), _) => Some(len),
            (None, Some(g)) => Some(g.1),
            (None, None) => None,
        },
        sector_size: match geometry {
            Some(g) => Some(g.0),
            None => None,
        },
        removable: match descriptor {
            Some(d) => Some(d.removable),
            None => None,
        },
        system: system == Some(n),
    }
}

/// The device of a physical drive; what could not be queried is unknown.
pub fn windows_device(
    n: u32,
    descriptor: Option<DriveDescriptor>,
    length: Option<u64>,
    geometry: Option<(u32, u64)>,
    system: Option<u32>,
) -> (r: DeviceInfo)
    ensures
        info_view(r) == windows_info(n, descriptor, length, geometry, system),
{
    let (model, bus, removable) = match descriptor {
        Some(d) => (model_name(d.vendor, d.product), bus_name(d.bus_type), Some(d.removable)),
        None => ("(unknown)".to_owned(), "unknown", None),
    };
    let size_bytes: Option<u64> = match length {
        Some(len) => Some(len),
        None => match geometry {
            Some(g) => Some(g.1),
            None => None,
        },
    };
    let sector_size: Option<u32> = match geometry {
        Some(g) => Some(g.0),
        None => None,
    };
    DeviceInfo {
        path: physical_drive(n),
        model,
        bus: bus.to_owned(),
        size_bytes,
        sector_size,
        removable,
        system: system == Some(n),
    }
}

/// A text without the backslashes at its end.
pub open spec fn without_backslashes(s: Seq<char>) -> Seq<char>
    decreases s.len(),
{
    if s.len() > 0 && s.last() == '\\' {
        without_backslashes(s.drop_last())
    } else {
        s
    }
}

/// The path by which a volume is opened: its name without the backslash at the
/// end.
pub fn volume_path(name: &str) -> (r: String)
    ensures
        r@ == without_backslashes(name@),
{
    let mut cs = chars_of(name);
    while cs.len() > 0 && cs[cs.len() - 1] == '\\'
        invariant
            without_backslashes(cs@) == without_backslashes(name@),
        decreases cs@.len(),
    {
        cs.pop();
    }
    let n: usize = cs.len();
    assert(cs@.subrange(0, n as int) =~= cs@);
    string_of(&cs, 0, n)
}

// ---------------------------------------------------------------------------
// Hotplug
// ---------------------------------------------------------------------------

/// The mark of a kernel event on a block device.
pub open spec fn block_mark() -> Seq<u8> {
    seq![
        83u8,
        85u8,
        66u8,
        83u8,
        89u8,
        83u8,
        84u8,
        69u8,
        77u8,
        61u8,
        98u8,
        108u8,
        111u8,
        99u8,
        107u8,
    ]
}

pub open spec fn mark_at(data: Seq<u8>, i: int) -> bool {
    0 <= i && i + 15 <= data.len() && data.subrange(i, i + 15) == block_mark()
}

fn mark_here(data: &[u8], i: usize) -> (r: bool)
    requires
        i + 15 <= data@.len(),
    ensures
        r == mark_at(data@, i as int),
{
    let mark: [u8; 15] = [83, 85, 66, 83, 89, 83, 84, 69, 77, 61, 98, 108, 111, 99, 107];
    assert(mark@ =~= block_mark());
    let ghost part = data@.subrange(i as int, i + 15);
    let n: usize = data.len();
    let mut k: usize = 0;
    while k < 15
        invariant
            k <= 15,
            n == data@.len(),
            i + 15 <= data@.len(),
            mark@ == block_mark(),
            mark@.len() == 15,
            part == data@.subrange(i as int, i + 15),
            forall|j: int| 0 <= j < k ==> #[trigger] part[j] == mark@[j],
        decreases 15 - k,
    {
        assert(part[k as int] == data@[i + k]);
        if data[i + k] != mark[k] {
            assert(part != block_mark());
            return false;
        }
        k = k + 1;
    }
    assert(part =~= block_mark());
    true
}

/// Does a kernel event tell of a block device? It does where `SUBSYSTEM=block`
/// stands in it.
pub fn is_block_event(data: &[u8]) -> (r: bool)
    ensures
        r == exists|i: int| mark_at(data@, i),
{
    let n: usize = data.len();
    let mut i: usize = 0;
    while i < n && n - i >= 15
        invariant
            n == data@.len(),
            i <= n,
            forall|j: int| 0 <= j < i ==> !mark_at(data@, j),
        decreases n - i,
    {
        if mark_here(data, i) {
            return true;
        }
        i = i + 1;
    }
    assert forall|j: int| !mark_at(data@, j) by {
        if mark_at(data@, j) {
            assert(j < i);
        }
    }
    false
}

/// Does a device-change message tell of an arrival or a removal?
pub fn is_arrival_or_removal(event: u32) -> (r: bool)
    ensures
        r == (event == 0x8000 || event == 0x8004),
{
    event == 0x8000 || event == 0x8004
}

} // verus!
