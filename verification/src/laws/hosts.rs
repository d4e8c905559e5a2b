//! How texts are taken apart, and what is read from what hosts say.

use vstd::prelude::*;

use crate::gui::args::{launch_from, theme_named, word_of, LaunchView, ThemeKind, Word};
use crate::gui::icon::pixel;
use crate::layout::{is_char, last_place, last_place_is};
use crate::lines::{
    before_mark, behind_mark, behind_word, holds_text, lines_of, place, space_char, trim_digits,
    word,
};
use crate::platform::{
    after_line, after_lines, bracketed_bytes, bus_text, disk_of, linux_bus, linux_info, mac_disk,
    model_of, names_whole_disk, nothing_known, root_disk_in, root_source, root_source_from,
    whole_from, windows_info, without_backslashes, DiskutilView, DriveDescriptor, LinuxDisk,
};
use crate::search::{first_where_is, first_where_props};
use crate::text::{
    all_digits, dec, is_digit, is_lower, is_space, joined, lower, lowercase, opt_text, parsed,
    replaced, same_ignoring_case, signed_dec, starts_with, trim, trim_back, trim_front, upper,
    uppercase, value_of,
};
use crate::transfer::{denial_hint, step_after, AtEnd, Host, Piece, Step};
use crate::units::size_value;

verus! {

// ---------------------------------------------------------------------------
// Texts
// ---------------------------------------------------------------------------

/// White space in front of a text, and behind it, does not count when the text
/// is trimmed, nor around a size.
pub proof fn white_space_around_does_not_count(s: Seq<char>, c: char, sector: u32)
    requires
        is_space(c),
    ensures
        trim(seq![c] + s) == trim(s),
        trim(s.push(c)) == trim(s),
        size_value(seq![c] + s, sector) == size_value(s, sector),
        size_value(s.push(c), sector) == size_value(s, sector),
{
    let t = seq![c] + s;
    assert(t.skip(1) =~= s);
    assert(trim_front(t) == trim_front(s));
    trim_pushed(s, c);
}

proof fn trim_pushed(s: Seq<char>, c: char)
    requires
        is_space(c),
    ensures
        trim(s.push(c)) == trim(s),
    decreases s.len(),
{
    let t = s.push(c);
    if s.len() > 0 && is_space(s[0]) {
        assert(t.skip(1) =~= s.skip(1).push(c));
        trim_pushed(s.skip(1), c);
        assert(trim_front(t) == trim_front(s.skip(1).push(c)));
        assert(trim_front(s) == trim_front(s.skip(1)));
    } else if s.len() > 0 {
        assert(t[0] == s[0]);
        assert(trim_front(t) == t);
        assert(trim_front(s) == s);
        assert(t.drop_last() =~= s);
        assert(trim_back(t) == trim_back(s));
    } else {
        assert(t.skip(1) =~= Seq::<char>::empty());
        assert(trim_front(t) == trim_front(t.skip(1)));
        assert(trim_front(t) =~= s);
    }
}

/// A trimmed text is empty, or begins and ends with no white space.
pub proof fn trimmed_texts_have_no_white_space_around(s: Seq<char>)
    ensures
        trim(s).len() > 0 ==> !is_space(trim(s)[0]) && !is_space(trim(s).last()),
        s.len() > 0 && !is_space(s[0]) && !is_space(s.last()) ==> trim(s) == s,
{
    trimmed_front(s);
    trimmed_back(trim_front(s));
    if s.len() > 0 && !is_space(s[0]) && !is_space(s.last()) {
        assert(trim_front(s) == s);
        assert(trim_back(s) == s);
    }
}

proof fn trimmed_front(s: Seq<char>)
    ensures
        trim_front(s).len() > 0 ==> !is_space(trim_front(s)[0]),
    decreases s.len(),
{
    if s.len() > 0 && is_space(s[0]) {
        trimmed_front(s.skip(1));
    }
}

proof fn trimmed_back(s: Seq<char>)
    ensures
        trim_back(s).len() > 0 ==> !is_space(trim_back(s).last()) && trim_back(s)[0] == s[0],
    decreases s.len(),
{
    if s.len() > 0 && is_space(s.last()) {
        trimmed_back(s.drop_last());
    }
}

/// Lowering a text changes its ASCII capitals into their small letters and
/// nothing else, and raising it the other way round; texts that differ in case
/// alone are the same but for case.
pub proof fn case_changes_letters_alone(s: Seq<char>, i: int)
    requires
        0 <= i < s.len(),
    ensures
        lowercase(s).len() == s.len(),
        uppercase(s).len() == s.len(),
        'A' <= s[i] && s[i] <= 'Z' ==> lowercase(s)[i] as u32 == s[i] as u32 + 32,
        !('A' <= s[i] && s[i] <= 'Z') ==> lowercase(s)[i] == s[i],
        'a' <= s[i] && s[i] <= 'z' ==> uppercase(s)[i] as u32 == s[i] as u32 - 32,
        !('a' <= s[i] && s[i] <= 'z') ==> uppercase(s)[i] == s[i],
        same_ignoring_case(uppercase(s), s),
        same_ignoring_case(lowercase(s), s),
{
    assert(lowercase(uppercase(s)) =~= lowercase(s)) by {
        assert forall|k: int| 0 <= k < s.len() implies lowercase(uppercase(s))[k] == lowercase(
            s,
        )[k] by {
            assert(lower(upper(s[k])) == lower(s[k]));
        }
    }
    assert(lowercase(lowercase(s)) =~= lowercase(s)) by {
        assert forall|k: int| 0 <= k < s.len() implies lowercase(lowercase(s))[k] == lowercase(
            s,
        )[k] by {
            assert(lower(lower(s[k])) == lower(s[k]));
        }
    }
}

/// Replacing a character changes it wherever it stands, and no other.
pub proof fn replacing_goes_character_by_character(s: Seq<char>, d: char, c: char, by: Seq<char>)
    ensures
        replaced(Seq::empty(), c, by) == Seq::<char>::empty(),
        d == c ==> replaced(s.push(d), c, by) == replaced(s, c, by) + by,
        d != c ==> replaced(s.push(d), c, by) == replaced(s, c, by).push(d),
{
    assert(s.push(d).drop_last() =~= s);
    if d != c {
        assert(replaced(s, c, by) + seq![d] =~= replaced(s, c, by).push(d));
    }
}

/// Joined texts stand in their order, with the separator between neighbours.
pub proof fn joined_texts_stand_in_order(parts: Seq<Seq<char>>, part: Seq<char>, sep: Seq<char>)
    ensures
        joined(Seq::empty(), sep) == Seq::<char>::empty(),
        joined(seq![part], sep) == part,
        parts.len() > 0 ==> joined(parts.push(part), sep) == joined(parts, sep) + sep + part,
{
    assert(parts.push(part).drop_last() =~= parts);
}

/// A number below zero is rendered with a minus sign in front of its size.
pub proof fn signs_are_rendered(n: int)
    ensures
        n >= 0 ==> signed_dec(n) == dec(n as nat),
        n < 0 ==> signed_dec(n) == "-"@ + dec((-n) as nat),
{
}

proof fn place_behind(a: Seq<char>, c: char, b: Seq<char>)
    requires
        forall|i: int| 0 <= i < a.len() ==> #[trigger] a[i] != c,
    ensures
        place(a + seq![c] + b, c) == a.len(),
        place(a, c) == a.len(),
        (a + seq![c] + b).take(a.len() as int) == a,
        (a + seq![c] + b).skip(a.len() as int + 1) == b,
{
    let s = a + seq![c] + b;
    let p = is_char(c);
    assert forall|j: int| 0 <= j < a.len() implies !p(#[trigger] s[j]) by {
        assert(s[j] == a[j]);
    }
    assert(p(s[a.len() as int]));
    first_where_is(s, p, a.len() as int);
    assert forall|j: int| 0 <= j < a.len() implies !p(#[trigger] a[j]) by {
        assert(a[j] != c);
    }
    first_where_is(a, p, a.len() as int);
    assert(s.take(a.len() as int) =~= a);
    assert(s.skip(a.len() as int + 1) =~= b);
}

/// The first mark divides a text.
pub proof fn marks_divide_texts(a: Seq<char>, c: char, b: Seq<char>)
    requires
        forall|i: int| 0 <= i < a.len() ==> #[trigger] a[i] != c,
    ensures
        before_mark(a + seq![c] + b, c) == a,
        behind_mark(a + seq![c] + b, c) == b,
{
    place_behind(a, c, b);
}

/// A text is divided into lines at its line feeds; a carriage return before one
/// does not count, and behind the last line feed an empty line is none.
pub proof fn lines_end_at_line_feeds(a: Seq<char>, rest: Seq<char>)
    requires
        forall|i: int| 0 <= i < a.len() ==> #[trigger] a[i] != '\n',
    ensures
        lines_of(Seq::empty()).len() == 0,
        a.len() > 0 ==> lines_of(a) == seq![a],
        a.len() == 0 || a.last() != '\r' ==> lines_of(a + seq!['\n'] + rest) == seq![a] + lines_of(
            rest,
        ),
        lines_of(a + seq!['\r'] + seq!['\n'] + rest) == seq![a] + lines_of(rest),
{
    place_behind(a, '\n', rest);
    let b = a + seq!['\r'];
    assert forall|i: int| 0 <= i < b.len() implies #[trigger] b[i] != '\n' by {
        if i < a.len() {
            assert(b[i] == a[i]);
        }
    }
    place_behind(b, '\n', rest);
    assert(b.drop_last() =~= a);
}

/// The first word of a text ends at white space; white space in front of it does
/// not count.
pub proof fn words_end_at_white_space(gap: Seq<char>, w: Seq<char>, rest: Seq<char>)
    requires
        forall|i: int| 0 <= i < gap.len() ==> is_space(#[trigger] gap[i]),
        forall|i: int| 0 <= i < w.len() ==> !is_space(#[trigger] w[i]),
        w.len() > 0,
        rest.len() > 0 ==> is_space(rest[0]),
    ensures
        word(gap + w + rest) == w,
        behind_word(gap + w + rest) == rest,
{
    let s = gap + w + rest;
    gap_is_trimmed(gap, w + rest);
    let t = w + rest;
    assert(s =~= gap + t);
    let p = space_char();
    assert forall|j: int| 0 <= j < w.len() implies !p(#[trigger] t[j]) by {
        assert(t[j] == w[j]);
    }
    if rest.len() > 0 {
        assert(p(t[w.len() as int]));
    }
    first_where_is(t, p, w.len() as int);
    assert(t.take(w.len() as int) =~= w);
    assert(t.skip(w.len() as int) =~= rest);
}

proof fn gap_is_trimmed(gap: Seq<char>, t: Seq<char>)
    requires
        forall|i: int| 0 <= i < gap.len() ==> is_space(#[trigger] gap[i]),
        t.len() > 0 ==> !is_space(t[0]),
    ensures
        trim_front(gap + t) == t,
    decreases gap.len(),
{
    if gap.len() > 0 {
        assert((gap + t)[0] == gap[0]);
        assert((gap + t).skip(1) =~= gap.skip(1) + t);
        assert forall|i: int| 0 <= i < gap.skip(1).len() implies is_space(
            #[trigger] gap.skip(1)[i],
        ) by {
            assert(gap.skip(1)[i] == gap[i + 1]);
        }
        gap_is_trimmed(gap.skip(1), t);
    } else {
        assert(gap + t =~= t);
    }
}

/// Digits at the end of a text are dropped, all of them and nothing else.
pub proof fn digits_at_the_end_are_dropped(a: Seq<char>, d: Seq<char>)
    requires
        all_digits(d),
        a.len() > 0 ==> !is_digit(a.last()),
    ensures
        trim_digits(a + d) == a,
    decreases d.len(),
{
    if d.len() > 0 {
        assert((a + d).last() == d.last());
        assert(is_digit(d[d.len() - 1]));
        assert((a + d).drop_last() =~= a + d.drop_last());
        assert forall|i: int| 0 <= i < d.drop_last().len() implies is_digit(
            #[trigger] d.drop_last()[i],
        ) by {
            assert(d.drop_last()[i] == d[i]);
        }
        digits_at_the_end_are_dropped(a, d.drop_last());
    } else {
        assert(a + d =~= a);
    }
}

/// Backslashes at the end of a text are dropped, all of them and nothing else.
pub proof fn backslashes_at_the_end_are_dropped(a: Seq<char>, n: nat)
    requires
        a.len() > 0 ==> a.last() != '\\',
    ensures
        without_backslashes(a + Seq::new(n, |i: int| '\\')) == a,
    decreases n,
{
    let b = Seq::new(n, |i: int| '\\');
    if n > 0 {
        let c = Seq::new((n - 1) as nat, |i: int| '\\');
        assert((a + b).last() == '\\');
        assert((a + b).drop_last() =~= a + c);
        backslashes_at_the_end_are_dropped(a, (n - 1) as nat);
    } else {
        assert(a + b =~= a);
    }
}

// ---------------------------------------------------------------------------
// Linux
// ---------------------------------------------------------------------------

/// The disk of the root filesystem is that of the first line of the mount table
/// that mounts a device at the root; a table with no such line names none.
pub proof fn root_disks_come_from_the_first_root_mount(lines: Seq<Seq<char>>, i: int, k: int)
    requires
        0 <= i <= k < lines.len(),
        forall|m: int| i <= m < k ==> root_source(#[trigger] lines[m]) is None,
    ensures
        root_source(lines[k]) is Some ==> root_source_from(lines, i) == root_source(lines[k]),
        root_source(lines[k]) is None && k == lines.len() - 1 ==> root_source_from(lines, i) is None,
    decreases k - i,
{
    if i < k {
        root_disks_come_from_the_first_root_mount(lines, i + 1, k);
    } else if k == lines.len() - 1 {
        assert(root_source_from(lines, i + 1) is None);
    }
}

/// A line of the mount table gives a root device exactly when its first word is
/// a path under `/dev/` and its second is the root.
pub proof fn root_mounts_are_told_by_their_words(
    name: Seq<char>,
    at: Seq<char>,
    rest: Seq<char>,
)
    requires
        forall|i: int| 0 <= i < name.len() ==> !is_space(#[trigger] name[i]),
        forall|i: int| 0 <= i < at.len() ==> !is_space(#[trigger] at[i]),
        at.len() > 0,
        rest.len() > 0 ==> is_space(rest[0]),
    ensures
        at == "/"@ ==> root_source("/dev/"@ + name + (" "@ + at + rest)) == Some(name),
        at != "/"@ ==> root_source("/dev/"@ + name + (" "@ + at + rest)) is None,
{
    reveal_strlit("/dev/");
    reveal_strlit(" ");
    let none = Seq::<char>::empty();
    let dev = "/dev/"@ + name;
    assert forall|i: int| 0 <= i < dev.len() implies !is_space(#[trigger] dev[i]) by {
        if i >= 5 {
            assert(dev[i] == name[i - 5]);
        }
    }
    let tail = " "@ + at + rest;
    let line = dev + tail;
    assert(tail[0] == ' ');
    words_end_at_white_space(none, dev, tail);
    assert(none + dev + tail =~= line);
    words_end_at_white_space(" "@, at, rest);
    assert(dev.take(5) =~= "/dev/"@);
    assert(dev.skip(5) =~= name);
}

/// A block device is listed unless it is made up by the kernel or is known to
/// be empty. It is under `/dev/`, has 512 bytes for every block that is
/// counted, is removable exactly when its attribute says 1, and is the system
/// disk exactly when it holds the root.
pub proof fn linux_disks_are_listed(d: LinuxDisk, root: Option<Seq<char>>)
    requires
        d.size matches Some(n) ==> n * 512 <= u64::MAX,
    ensures
        linux_info(d, root) is None <==> d.size == Some(0u64) || starts_with(d.name@, "ram"@)
            || starts_with(d.name@, "zram"@) || starts_with(d.name@, "loop"@),
        linux_info(d, root) matches Some(i) ==> {
            &&& i.path == "/dev/"@ + d.name@
            &&& d.size matches Some(n) ==> i.size_bytes is Some && i.size_bytes->0 == n * 512
            &&& d.size is None ==> i.size_bytes is None
            &&& i.system <==> root == Some(d.name@)
            &&& i.removable == Some(true) <==> d.removable is Some && trim(d.removable->0@) == "1"@
            &&& i.removable is None <==> d.removable is None
            &&& i.sector_size matches Some(n) ==> d.logical_block_size is Some && parsed(
                trim(d.logical_block_size->0@),
                u32::MAX as nat,
            ) == Some(n as nat)
            &&& i.sector_size is None && d.logical_block_size is Some ==> parsed(
                trim(d.logical_block_size->0@),
                u32::MAX as nat,
            ) is None
            &&& d.model matches Some(m) ==> i.model == trim(m@)
            &&& d.model is None && d.device_name is Some ==> i.model == trim(d.device_name->0@)
        },
{
}

// ---------------------------------------------------------------------------
// macOS
// ---------------------------------------------------------------------------

/// A disk is the same by its raw path and by its other one; a path elsewhere is
/// no disk.
pub proof fn mac_disks_have_two_paths(name: Seq<char>)
    requires
        name.len() > 0,
        name[0] != 'r',
    ensures
        mac_disk("/dev/"@ + name) == Some(name),
        mac_disk("/dev/r"@ + name) == Some(name),
        name[0] != '/' ==> mac_disk(name) is None,
{
    reveal_strlit("/dev/");
    reveal_strlit("/dev/r");
    let a = "/dev/"@ + name;
    let b = "/dev/r"@ + name;
    assert(a.take(5) =~= "/dev/"@);
    assert(b.take(5) =~= "/dev/"@);
    assert(a.skip(5) =~= name);
    assert(b.skip(5).skip(1) =~= name);
    assert(b.skip(5)[0] == 'r');
    if name[0] != '/' && starts_with(name, "/dev/"@) {
        assert(name.take(5)[0] == name[0]);
    }
}

/// A whole disk is named `disk` and a number; a part of one has more behind it.
pub proof fn whole_disks_are_numbered(d: Seq<char>, c: char, rest: Seq<char>)
    requires
        all_digits(d),
        !is_digit(c),
    ensures
        names_whole_disk("disk"@ + d),
        !names_whole_disk("disk"@ + d + (seq![c] + rest)),
        !names_whole_disk("r"@ + rest),
{
    reveal_strlit("disk");
    reveal_strlit("r");
    let a = "disk"@ + d;
    assert(a.take(4) =~= "disk"@);
    assert forall|i: int| 4 <= i < a.len() implies is_digit(#[trigger] a[i]) by {
        assert(a[i] == d[i - 4]);
    }
    let b = a + (seq![c] + rest);
    assert(b[a.len() as int] == c);
    let e = "r"@ + rest;
    if starts_with(e, "disk"@) {
        assert(e.take(4)[0] == e[0]);
    }
}

/// A size is the number behind the first bracket.
#[verifier::rlimit(40)]
pub proof fn sizes_stand_in_brackets(front: Seq<char>, d: Seq<char>, rest: Seq<char>)
    requires
        forall|i: int| 0 <= i < front.len() ==> #[trigger] front[i] != '(',
        d.len() > 0,
        all_digits(d),
        rest.len() > 0,
        is_space(rest[0]),
    ensures
        value_of(d) <= u64::MAX ==> bracketed_bytes(front + seq!['('] + (d + rest)) == Some(
            value_of(d),
        ),
        value_of(d) > u64::MAX ==> bracketed_bytes(front + seq!['('] + (d + rest)) is None,
        bracketed_bytes(front) is None,
{
    let inner = d + rest;
    let value = front + seq!['('] + inner;
    place_behind(front, '(', inner);
    assert(behind_mark(value, '(') == inner);
    let p = is_char('(');
    first_where_props(inner, p);
    let k = place(inner, '(');
    assert forall|i: int| 0 <= i < d.len() implies #[trigger] inner[i] == d[i] && is_digit(d[i]) by {}
    if k < d.len() {
        assert(p(inner[k]));
        assert(is_digit(inner[k]));
    }
    if k == d.len() {
        assert(p(inner[k]));
        assert(inner[k] == rest[0]);
    }
    let part = inner.take(k);
    let tail = part.skip(d.len() as int);
    assert(part =~= d + tail);
    assert forall|i: int| 0 <= i < d.len() implies !is_space(#[trigger] d[i]) by {
        assert(is_digit(d[i]));
    }
    if tail.len() > 0 {
        assert(tail[0] == rest[0]);
    }
    let none = Seq::<char>::empty();
    words_end_at_white_space(none, d, tail);
    assert(none + d + tail =~= part);
    assert(word(part) == d);
    assert(is_digit(d[0]));
}

/// A line of `diskutil info` says what its key stands for and leaves the rest:
/// the model, the bus in small letters, whether the media is removable, the
/// size, and whether the disk is virtual, which stays so. Any other line says
/// nothing.
#[verifier::rlimit(40)]
pub proof fn disk_lines_say_one_thing(
    info: DiskutilView,
    key: Seq<char>,
    value: Seq<char>,
)
    requires
        forall|i: int| 0 <= i < key.len() ==> #[trigger] key[i] != ':',
    ensures
        ({
            let next = after_line(info, key + seq![':'] + value);
            let k = trim(key);
            let v = trim(value);
            &&& k == "Device / Media Name"@ ==> next == (DiskutilView { model: v, ..info })
            &&& k == "Protocol"@ ==> next.bus == lowercase(v) && next.model == info.model
                && next.size_bytes == info.size_bytes && next.removable == info.removable
            &&& k == "Removable Media"@ ==> next == (DiskutilView {
                removable: Some(same_ignoring_case(v, "removable"@)),
                ..info
            })
            &&& k == "Disk Size"@ && bracketed_bytes(v) is Some ==> next == (DiskutilView {
                size_bytes: Some(bracketed_bytes(v)->0 as u64),
                ..info
            })
            &&& k == "Virtual"@ ==> next == (DiskutilView {
                virtual_device: info.virtual_device || starts_with(v, "Yes"@),
                ..info
            })
            &&& info.virtual_device ==> next.virtual_device
            &&& k != "Device / Media Name"@ && k != "Protocol"@ && k != "Removable Media"@ && k
                != "Disk Size"@ && k != "Virtual"@ ==> next == info
            &&& after_line(info, key) == info
        }),
{
    place_behind(key, ':', value);
    reveal_strlit("Device / Media Name");
    reveal_strlit("Protocol");
    reveal_strlit("Virtual");
    reveal_strlit("Removable Media");
    reveal_strlit("Disk Size");
    assert("Device / Media Name"@.len() == 19 && "Protocol"@.len() == 8 && "Virtual"@.len() == 7
        && "Removable Media"@.len() == 15 && "Disk Size"@.len() == 9);
}

/// Lines are taken in order, from knowing nothing.
pub proof fn disk_lines_are_taken_in_order(lines: Seq<Seq<char>>, n: int)
    requires
        0 <= n,
    ensures
        after_lines(lines, 0) == nothing_known(),
        after_lines(lines, n + 1) == after_line(after_lines(lines, n), lines[n]),
        nothing_known().size_bytes is None,
        nothing_known().removable is None,
        !nothing_known().virtual_device,
{
}

// ---------------------------------------------------------------------------
// Windows
// ---------------------------------------------------------------------------

/// A physical drive has its number in its path; its length is the size, or else
/// its geometry's; it is the system disk exactly when it has that number; and
/// without a descriptor it is not known whether it is removable.
pub proof fn physical_drives_are_listed(
    n: u32,
    descriptor: Option<DriveDescriptor>,
    length: Option<u64>,
    geometry: Option<(u32, u64)>,
    system: Option<u32>,
)
    ensures
        ({
            let i = windows_info(n, descriptor, length, geometry, system);
            &&& i.path == "\\\\.\\PhysicalDrive"@ + dec(n as nat)
            &&& length is Some ==> i.size_bytes == length
            &&& length is None ==> (geometry matches Some(g) ==> i.size_bytes == Some(g.1))
            &&& length is None && geometry is None ==> i.size_bytes is None
            &&& geometry matches Some(g) ==> i.sector_size == Some(g.0)
            &&& geometry is None ==> i.sector_size is None
            &&& i.system <==> system == Some(n)
            &&& descriptor matches Some(d) ==> i.removable == Some(d.removable) && i.bus == bus_text(
                d.bus_type,
            ) && i.model == model_of(opt_text(d.vendor), opt_text(d.product))
            &&& descriptor is None ==> i.removable is None
        }),
{
}

proof fn bus_words()
    ensures
        "scsi"@.len() == 4,
        "atapi"@.len() == 5,
        "ata"@.len() == 3,
        "1394"@.len() == 4,
        "usb"@.len() == 3,
        "raid"@.len() == 4,
        "iscsi"@.len() == 5,
        "sas"@.len() == 3,
        "sata"@.len() == 4,
        "sd"@.len() == 2,
        "mmc"@.len() == 3,
        "virtual"@.len() == 7,
        "spaces"@.len() == 6,
        "nvme"@.len() == 4,
        "unknown"@.len() == 7,
        "scsi"@[0] == 's' && "scsi"@[1] == 'c',
        "1394"@[0] == '1',
        "raid"@[0] == 'r',
        "sata"@[0] == 's' && "sata"@[1] == 'a',
        "nvme"@[0] == 'n',
        "ata"@[0] == 'a',
        "usb"@[0] == 'u',
        "sas"@[0] == 's',
        "mmc"@[0] == 'm',
        "atapi"@[0] == 'a',
        "iscsi"@[0] == 'i',
        "virtual"@[0] == 'v',
        "unknown"@[0] == 'u',
{
    reveal_strlit("scsi");
    reveal_strlit("atapi");
    reveal_strlit("ata");
    reveal_strlit("1394");
    reveal_strlit("usb");
    reveal_strlit("raid");
    reveal_strlit("iscsi");
    reveal_strlit("sas");
    reveal_strlit("sata");
    reveal_strlit("sd");
    reveal_strlit("mmc");
    reveal_strlit("virtual");
    reveal_strlit("spaces");
    reveal_strlit("nvme");
    reveal_strlit("unknown");
}

/// Every bus that has a name is told by it from the others.
#[verifier::rlimit(40)]
pub proof fn buses_are_told_apart(bus_type: u8)
    ensures
        bus_text(bus_type) == "scsi"@ <==> bus_type == 1,
        bus_text(bus_type) == "atapi"@ <==> bus_type == 2,
        bus_text(bus_type) == "ata"@ <==> bus_type == 3,
        bus_text(bus_type) == "1394"@ <==> bus_type == 4,
        bus_text(bus_type) == "usb"@ <==> bus_type == 7,
        bus_text(bus_type) == "raid"@ <==> bus_type == 8,
        bus_text(bus_type) == "iscsi"@ <==> bus_type == 9,
        bus_text(bus_type) == "sas"@ <==> bus_type == 10,
        bus_text(bus_type) == "sata"@ <==> bus_type == 11,
        bus_text(bus_type) == "sd"@ <==> bus_type == 12,
        bus_text(bus_type) == "mmc"@ <==> bus_type == 13,
        bus_text(bus_type) == "virtual"@ <==> bus_type == 14 || bus_type == 15,
        bus_text(bus_type) == "spaces"@ <==> bus_type == 16,
        bus_text(bus_type) == "nvme"@ <==> bus_type == 17,
        bus_text(bus_type) == "unknown"@ <==> bus_type == 0 || bus_type == 5 || bus_type == 6
            || bus_type > 17,
{
    bus_words();
}

/// The bus of a Linux disk is told by its name, for cards and flash drives that
/// have names of their own, and else by where its link points.
pub proof fn linux_buses_are_told_by_name_and_link(name: Seq<char>, link: Seq<char>)
    ensures
        starts_with(name, "nvme"@) ==> linux_bus(name, link) == "nvme"@,
        starts_with(name, "mmcblk"@) ==> linux_bus(name, link) == "mmc"@,
        !starts_with(name, "nvme"@) && !starts_with(name, "mmcblk"@) ==> {
            &&& holds_text(link, "usb"@) ==> linux_bus(name, link) == "usb"@
            &&& !holds_text(link, "usb"@) && holds_text(link, "ata"@) ==> linux_bus(name, link)
                == "ata"@
            &&& !holds_text(link, "usb"@) && !holds_text(link, "ata"@) ==> linux_bus(name, link)
                == "unknown"@
        },
{
    reveal_strlit("nvme");
    reveal_strlit("mmcblk");
    if starts_with(name, "nvme"@) && starts_with(name, "mmcblk"@) {
        assert(name.take(4)[0] == name[0]);
        assert(name.take(6)[0] == name[0]);
    }
}

/// The model is the vendor and the product, as far as they are known.
pub proof fn models_name_vendor_and_product(v: Seq<char>, p: Seq<char>)
    ensures
        model_of(Some(v), Some(p)) == v + " "@ + p,
        model_of(Some(v), None) == v,
        model_of(None, Some(p)) == p,
{
}

// ---------------------------------------------------------------------------
// Transfers and denials
// ---------------------------------------------------------------------------

/// A call that fails ends a transfer; one that is interrupted is made again; one
/// that moves bytes moves the transfer on by as many, to its end if they were
/// the last; one that moves none does what the end of the medium calls for.
pub proof fn steps_follow_what_was_moved(
    offset: u64,
    len: usize,
    done: usize,
    n: usize,
    end: AtEnd,
)
    requires
        done < len,
        offset + len <= u64::MAX,
        n <= len - done,
    ensures
        step_after(offset, len, done, Piece::Failed, end) == Step::Refused,
        step_after(offset, len, done, Piece::Interrupted, end) == Step::Call(done),
        n == len - done ==> step_after(offset, len, done, Piece::Moved(n), end) == Step::Complete,
        0 < n < len - done ==> (step_after(
            offset,
            len,
            done,
            Piece::Moved(n),
            end,
        ) matches Step::Call(k) && k == done + n),
        end == AtEnd::Zeros ==> step_after(offset, len, done, Piece::Moved(0), end) == Step::Fill(
            done,
        ),
        end == AtEnd::Fault ==> (step_after(
            offset,
            len,
            done,
            Piece::Moved(0),
            end,
        ) matches Step::Ended(at) && at == offset + done),
        end == AtEnd::Again ==> step_after(offset, len, done, Piece::Moved(0), end) == Step::Call(
            done,
        ),
{
}

/// A denial is explained exactly where the host's error code stands for one.
pub proof fn denials_are_explained(host: Host, code: Option<i32>, root: bool)
    ensures
        denial_hint(host, code, root) is Some <==> {
            ||| host == Host::Linux && code == Some(13i32)
            ||| host == Host::Mac && code == Some(13i32)
            ||| host == Host::Mac && code == Some(1i32)
            ||| host == Host::Windows && code == Some(5i32)
        },
        host != Host::Windows && code == Some(13i32) ==> denial_hint(host, code, root)
            == denial_hint(Host::Linux, code, !root),
{
}

// ---------------------------------------------------------------------------
// Arguments of the window
// ---------------------------------------------------------------------------

proof fn option_words()
    ensures
        "-h"@ != "-V"@,
        "-h"@ != "-m"@,
        "-V"@ != "-m"@,
        "--help"@.len() == 6,
        "--version"@.len() == 9,
        "--manifest"@.len() == 10,
        "--theme"@.len() == 7,
        "-h"@.len() == 2,
        "-V"@.len() == 2,
        "-m"@.len() == 2,
{
    reveal_strlit("-h");
    reveal_strlit("-V");
    reveal_strlit("-m");
    reveal_strlit("--help");
    reveal_strlit("--version");
    reveal_strlit("--manifest");
    reveal_strlit("--theme");
    assert("-h"@[1] == 'h' && "-V"@[1] == 'V' && "-m"@[1] == 'm');
}

/// Each option is known by its words; any other text that begins with a hyphen
/// and has more behind it is an unknown one, and all else is a path.
#[verifier::rlimit(40)]
pub proof fn words_are_told_apart(s: Seq<char>)
    ensures
        word_of(Some(s)) is Help <==> s == "-h"@ || s == "--help"@,
        word_of(Some(s)) is Version <==> s == "-V"@ || s == "--version"@,
        word_of(Some(s)) is Manifest <==> s == "-m"@ || s == "--manifest"@,
        word_of(Some(s)) is Theme <==> s == "--theme"@,
        s.len() <= 1 || s[0] != '-' ==> word_of(Some(s)) is Path,
        word_of(Some(s)) is Path ==> s.len() <= 1 || s[0] != '-',
        word_of(None) is Path,
{
    option_words();
    reveal_strlit("-h");
    reveal_strlit("-V");
    reveal_strlit("-m");
    reveal_strlit("--help");
    reveal_strlit("--version");
    reveal_strlit("--manifest");
    reveal_strlit("--theme");
}

/// The manifest of a launch is an argument: the first that is a path or stands
/// behind the option; a second one refuses the launch. What was read so far
/// stays.
pub proof fn launches_have_one_manifest(
    args: Seq<Option<String>>,
    i: int,
    manifest: Option<int>,
    theme: ThemeKind,
)
    requires
        0 <= i,
    ensures
        launch_from(args, i, manifest, theme) matches LaunchView::Open { manifest: m, theme: t } ==> {
            &&& manifest is Some ==> m == manifest
            &&& manifest is None && m is Some ==> i <= m->0 < args.len()
            &&& i < args.len() && manifest is None && word_of(opt_text(args[i])) is Path ==> m
                == Some(i)
            &&& i + 1 < args.len() && manifest is None && word_of(opt_text(args[i])) is Manifest
                ==> m == Some(i + 1)
        },
        i >= args.len() ==> launch_from(args, i, manifest, theme) == (LaunchView::Open {
            manifest,
            theme,
        }),
        i < args.len() && manifest is Some && (word_of(opt_text(args[i])) is Path || word_of(
            opt_text(args[i]),
        ) is Manifest) ==> launch_from(args, i, manifest, theme) is Refused,
        i < args.len() && word_of(opt_text(args[i])) is Help ==> launch_from(
            args,
            i,
            manifest,
            theme,
        ) is Help,
        i < args.len() && word_of(opt_text(args[i])) is Version ==> launch_from(
            args,
            i,
            manifest,
            theme,
        ) is Version,
        i < args.len() && word_of(opt_text(args[i])) is Unknown ==> launch_from(
            args,
            i,
            manifest,
            theme,
        ) is Refused,
        i == args.len() - 1 && (word_of(opt_text(args[i])) is Manifest || word_of(
            opt_text(args[i]),
        ) is Theme) ==> launch_from(args, i, manifest, theme) is Refused,
    decreases args.len() - i,
{
    if i < args.len() {
        match word_of(opt_text(args[i])) {
            Word::Manifest => {
                if i + 1 < args.len() && manifest is None {
                    launches_have_one_manifest(args, i + 2, Some(i + 1), theme);
                }
            },
            Word::Theme => {
                if i + 1 < args.len() {
                    let name = crate::gui::args::theme_arg(args[i + 1]);
                    if theme_named(name) is Some {
                        launches_have_one_manifest(args, i + 2, manifest, theme_named(name)->0);
                    }
                }
            },
            Word::Path => {
                if manifest is None {
                    launches_have_one_manifest(args, i + 1, Some(i), theme);
                }
            },
            _ => {},
        }
    }
}

/// A theme option at the end of the arguments sets the theme that it names, in
/// any case, and refuses any other name.
pub proof fn themes_are_named_in_any_case(
    args: Seq<Option<String>>,
    i: int,
    manifest: Option<int>,
    theme: ThemeKind,
)
    requires
        0 <= i,
        i + 2 == args.len(),
        word_of(opt_text(args[i])) is Theme,
        args[i + 1] is Some,
    ensures
        ({
            let name = lowercase(args[i + 1]->0@);
            let r = launch_from(args, i, manifest, theme);
            &&& name == "default"@ || name == "blue"@ ==> r == (LaunchView::Open {
                manifest,
                theme: ThemeKind::Default,
            })
            &&& name == "pdp"@ || name == "pdp11"@ ==> r == (LaunchView::Open {
                manifest,
                theme: ThemeKind::Pdp,
            })
            &&& name != "default"@ && name != "blue"@ && name != "pdp"@ && name != "pdp11"@
                ==> r is Refused
        }),
{
    reveal_strlit("default");
    reveal_strlit("blue");
    reveal_strlit("pdp");
    reveal_strlit("pdp11");
    assert("default"@.len() == 7 && "blue"@.len() == 4 && "pdp"@.len() == 3 && "pdp11"@.len() == 5);
    let name = crate::gui::args::theme_arg(args[i + 1]);
    if theme_named(name) is Some {
        launches_have_one_manifest(args, i + 2, manifest, theme_named(name)->0);
    }
}

// ---------------------------------------------------------------------------
// Disks and partitions
// ---------------------------------------------------------------------------

/// The families of disks that are told apart by letters.
pub open spec fn is_family(f: Seq<char>) -> bool {
    f == "sd"@ || f == "hd"@ || f == "vd"@ || f == "xvd"@ || f == "ubd"@ || f == "dasd"@
}

/// A partition of a lettered disk is the disk's name and a number, and leads to
/// the disk, as the disk itself does.
pub proof fn lettered_partitions_lead_to_their_disk(
    family: Seq<char>,
    letters: Seq<char>,
    d: Seq<char>,
)
    requires
        is_family(family),
        letters.len() > 0,
        forall|i: int| 0 <= i < letters.len() ==> is_lower(#[trigger] letters[i]),
        all_digits(d),
    ensures
        disk_of(family + letters + d) == family + letters,
{
    reveal_strlit("sd");
    reveal_strlit("hd");
    reveal_strlit("vd");
    reveal_strlit("xvd");
    reveal_strlit("ubd");
    reveal_strlit("dasd");
    let disk = family + letters;
    let name = disk + d;
    assert(disk.take(family.len() as int) =~= family);
    assert forall|i: int| 0 <= i < disk.len() implies is_lower(#[trigger] disk[i]) by {
        if i >= family.len() {
            assert(disk[i] == letters[i - family.len()]);
        } else {
            assert(disk[i] == family[i]);
        }
    }
    assert(is_lower(disk.last()));
    digits_at_the_end_are_dropped(disk, d);
    last_place_is_found(name, 'p');
    let p = last_place(name, 'p');
    if p >= disk.len() {
        assert(name[p] == d[p - disk.len()]);
        assert(is_digit('p'));
    }
    if p >= 1 {
        assert(name[p - 1] == disk[p - 1]);
        assert(is_lower(name[p - 1]));
    }
}

/// A partition of a disk that is itself numbered is the disk's name, a `p` and a
/// number, and leads to the disk.
pub proof fn numbered_partitions_lead_to_their_disk(disk: Seq<char>, d: Seq<char>)
    requires
        disk.len() > 0,
        is_digit(disk.last()),
        d.len() > 0,
        all_digits(d),
    ensures
        disk_of(disk + seq!['p'] + d) == disk,
{
    let name = disk + seq!['p'] + d;
    let k = disk.len() as int;
    assert(name[k] == 'p');
    assert forall|j: int| k < j < name.len() implies #[trigger] name[j] != 'p' by {
        assert(name[j] == d[j - k - 1]);
        assert(is_digit(d[j - k - 1]));
    }
    last_place_is(name, 'p', k);
    assert(name.skip(k + 1) =~= d);
    assert(name[k - 1] == disk.last());
    assert(name.take(k) =~= disk);
}

proof fn last_place_is_found(s: Seq<char>, c: char)
    ensures
        -1 <= last_place(s, c) < s.len(),
        last_place(s, c) >= 0 ==> s[last_place(s, c)] == c,
    decreases s.len(),
{
    if s.len() > 0 && s.last() != c {
        last_place_is_found(s.drop_last(), c);
    }
}

/// The root disk of a mount table is the one that its first root mount is on.
pub proof fn root_disks_hold_the_root_mount(mounts: Seq<char>, k: int)
    requires
        0 <= k < lines_of(mounts).len(),
        forall|m: int| 0 <= m < k ==> root_source(#[trigger] lines_of(mounts)[m]) is None,
        root_source(lines_of(mounts)[k]) is Some,
    ensures
        root_disk_in(mounts) == Some(disk_of(root_source(lines_of(mounts)[k])->0)),
{
    root_disks_come_from_the_first_root_mount(lines_of(mounts), 0, k);
}

/// The system disk of macOS is the value of the first line that says of which
/// whole disk the volume is a part.
pub proof fn system_disks_are_named_by_their_line(
    lines: Seq<Seq<char>>,
    i: int,
    k: int,
    value: Seq<char>,
)
    requires
        0 <= i <= k < lines.len(),
        lines[k] == "Part of Whole"@ + seq![':'] + value,
        forall|m: int|
            i <= m < k ==> !has_key(#[trigger] lines[m], "Part of Whole"@),
    ensures
        whole_from(lines, i) == Some(trim(value)),
    decreases k - i,
{
    if i < k {
        system_disks_are_named_by_their_line(lines, i + 1, k, value);
        assert(!has_key(lines[i], "Part of Whole"@));
    } else {
        let key = "Part of Whole"@;
        reveal_strlit("Part of Whole");
        assert forall|j: int| 0 <= j < key.len() implies #[trigger] key[j] != ':' by {}
        place_behind(key, ':', value);
        assert(trim(key) == key) by {
            assert(key.len() == 13);
            assert(!is_space(key[0]));
            assert(!is_space(key.last()));
        }
    }
}

/// The line has a key, white space around it aside, in front of its first colon.
pub open spec fn has_key(line: Seq<char>, key: Seq<char>) -> bool {
    place(line, ':') < line.len() && trim(before_mark(line, ':')) == key
}

// ---------------------------------------------------------------------------
// The icon
// ---------------------------------------------------------------------------

/// The icon is a card with its upper right corner cut: opaque there, and
/// nothing around it.
pub proof fn icons_are_opaque_on_the_card_alone(x: int, y: int)
    ensures
        ({
            let card = 12 <= x < 52 && 4 <= y < 60 && x - 40 <= y - 6;
            &&& card ==> pixel(x, y).3 == 0xff
            &&& !card ==> pixel(x, y) == (0u8, 0u8, 0u8, 0u8)
        }),
{
}

} // verus!
