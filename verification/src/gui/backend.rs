//! Every action of the graphical frontend is one invocation of the command
//! line tool: what it is called with, and what that looks like to the user.

use vstd::prelude::*;
use vstd::string::*;

use crate::device::{is_platform_device_path, names_platform_device};
use crate::text::{
    cat2, cat3, chars_of, is_space, join_texts, joined, opt_text, push_text, push_texts,
    replace_char, replaced, space_here, texts,
};

verus! {

#[allow(inconsistent_fields)]
#[derive(Debug)]
pub enum CliCommand {
    List,
    Status { device: String, manifest: Option<String> },
    Write {
        device: String,
        manifest: String,
        slots: Vec<String>,
        verify: bool,
        yes: bool,
        force: bool,
        eject: bool,
    },
    Read {
        device: String,
        manifest: String,
        slots: Vec<String>,
        out: Option<String>,
        out_dir: Option<String>,
        length: Option<String>,
    },
    Wipe { device: String, manifest: String, slots: Vec<String>, yes: bool, force: bool },
    Verify { device: String, manifest: String, slots: Vec<String> },
    Image { manifest: String, out: String, slots: Vec<String>, verify: bool, yes: bool },
    Eject { device: String },
}

#[allow(inconsistent_fields)]
pub enum CliCommandView {
    List,
    Status { device: Seq<char>, manifest: Option<Seq<char>> },
    Write {
        device: Seq<char>,
        manifest: Seq<char>,
        slots: Seq<Seq<char>>,
        verify: bool,
        yes: bool,
        force: bool,
        eject: bool,
    },
    Read {
        device: Seq<char>,
        manifest: Seq<char>,
        slots: Seq<Seq<char>>,
        out: Option<Seq<char>>,
        out_dir: Option<Seq<char>>,
        length: Option<Seq<char>>,
    },
    Wipe { device: Seq<char>, manifest: Seq<char>, slots: Seq<Seq<char>>, yes: bool, force: bool },
    Verify { device: Seq<char>, manifest: Seq<char>, slots: Seq<Seq<char>> },
    Image {
        manifest: Seq<char>,
        out: Seq<char>,
        slots: Seq<Seq<char>>,
        verify: bool,
        yes: bool,
    },
    Eject { device: Seq<char> },
}

impl View for CliCommand {
    type V = CliCommandView;

    open spec fn view(&self) -> CliCommandView {
        match self {
            CliCommand::List => CliCommandView::List,
            CliCommand::Status { device, manifest } => CliCommandView::Status {
                device: device@,
                manifest: opt_text(*manifest),
            },
            CliCommand::Write { device, manifest, slots, verify, yes, force, eject } => {
                CliCommandView::Write {
                    device: device@,
                    manifest: manifest@,
                    slots: texts(slots@),
                    verify: *verify,
                    yes: *yes,
                    force: *force,
                    eject: *eject,
                }
            },
            CliCommand::Read { device, manifest, slots, out, out_dir, length } => {
                CliCommandView::Read {
                    device: device@,
                    manifest: manifest@,
                    slots: texts(slots@),
                    out: opt_text(*out),
                    out_dir: opt_text(*out_dir),
                    length: opt_text(*length),
                }
            },
            CliCommand::Wipe { device, manifest, slots, yes, force } => CliCommandView::Wipe {
                device: device@,
                manifest: manifest@,
                slots: texts(slots@),
                yes: *yes,
                force: *force,
            },
            CliCommand::Verify { device, manifest, slots } => CliCommandView::Verify {
                device: device@,
                manifest: manifest@,
                slots: texts(slots@),
            },
            CliCommand::Image { manifest, out, slots, verify, yes } => CliCommandView::Image {
                manifest: manifest@,
                out: out@,
                slots: texts(slots@),
                verify: *verify,
                yes: *yes,
            },
            CliCommand::Eject { device } => CliCommandView::Eject { device: device@ },
        }
    }
}

/// `--flag`, where it is on.
pub open spec fn flag(name: Seq<char>, on: bool) -> Seq<Seq<char>> {
    if on {
        seq![name]
    } else {
        Seq::empty()
    }
}

/// `--option value`, where there is a value.
pub open spec fn option(name: Seq<char>, value: Option<Seq<char>>) -> Seq<Seq<char>> {
    match value {
        Some(v) => seq![name, v],
        None => Seq::empty(),
    }
}

/// `--slot s` for every slot, in order.
pub open spec fn slot_options(slots: Seq<Seq<char>>) -> Seq<Seq<char>>
    decreases slots.len(),
{
    if slots.len() == 0 {
        Seq::empty()
    } else {
        slot_options(slots.drop_last()) + seq!["--slot"@, slots.last()]
    }
}

impl CliCommandView {
    /// The subcommand.
    pub open spec fn label(self) -> Seq<char> {
        match self {
            CliCommandView::List => "list"@,
            CliCommandView::Status { .. } => "status"@,
            CliCommandView::Write { .. } => "write"@,
            CliCommandView::Read { .. } => "read"@,
            CliCommandView::Wipe { .. } => "wipe"@,
            CliCommandView::Verify { .. } => "verify"@,
            CliCommandView::Image { .. } => "image"@,
            CliCommandView::Eject { .. } => "eject"@,
        }
    }

    /// The device that the command works on.
    pub open spec fn device(self) -> Option<Seq<char>> {
        match self {
            CliCommandView::List => None,
            CliCommandView::Image { .. } => None,
            CliCommandView::Status { device, .. } => Some(device),
            CliCommandView::Write { device, .. } => Some(device),
            CliCommandView::Read { device, .. } => Some(device),
            CliCommandView::Wipe { device, .. } => Some(device),
            CliCommandView::Verify { device, .. } => Some(device),
            CliCommandView::Eject { device } => Some(device),
        }
    }

    /// The command's arguments: the subcommand, its device, manifest and
    /// output, the slots, then the switches.
    pub open spec fn args(self) -> Seq<Seq<char>> {
        match self {
            CliCommandView::List => seq!["list"@],
            CliCommandView::Status { device, manifest } => seq!["status"@, "--device"@, device]
                + option("--manifest"@, manifest),
            CliCommandView::Write { device, manifest, slots, verify, yes, force, eject } => seq![
                "write"@,
                "--device"@,
                device,
                "--manifest"@,
                manifest,
            ] + slot_options(slots) + flag("--verify"@, verify) + flag("--yes"@, yes) + flag(
                "--force"@,
                force,
            ) + flag("--eject"@, eject),
            CliCommandView::Read { device, manifest, slots, out, out_dir, length } => seq![
                "read"@,
                "--device"@,
                device,
                "--manifest"@,
                manifest,
            ] + slot_options(slots) + option("-o"@, out) + option("--out-dir"@, out_dir) + option(
                "--length"@,
                length,
            ),
            CliCommandView::Wipe { device, manifest, slots, yes, force } => seq![
                "wipe"@,
                "--device"@,
                device,
                "--manifest"@,
                manifest,
            ] + slot_options(slots) + flag("--yes"@, yes) + flag("--force"@, force),
            CliCommandView::Verify { device, manifest, slots } => seq![
                "verify"@,
                "--device"@,
                device,
                "--manifest"@,
                manifest,
            ] + slot_options(slots),
            CliCommandView::Image { manifest, out, slots, verify, yes } => seq![
                "image"@,
                "--manifest"@,
                manifest,
                "-o"@,
                out,
            ] + slot_options(slots) + flag("--verify"@, verify) + flag("--yes"@, yes),
            CliCommandView::Eject { device } => seq!["eject"@, "--device"@, device],
        }
    }
}

fn push_flag(args: &mut Vec<String>, name: &str, on: bool)
    ensures
        texts(final(args)@) == texts(old(args)@) + flag(name@, on),
{
    if on {
        push_text(args, name);
    }
    assert(texts(args@) =~= texts(old(args)@) + flag(name@, on));
}

fn push_option(args: &mut Vec<String>, name: &str, value: &Option<String>)
    ensures
        texts(final(args)@) == texts(old(args)@) + option(name@, opt_text(*value)),
{
    if let Some(v) = value {
        push_text(args, name);
        push_text(args, v);
    }
    assert(texts(args@) =~= texts(old(args)@) + option(name@, opt_text(*value)));
}

fn push_slots(args: &mut Vec<String>, slots: &Vec<String>)
    ensures
        texts(final(args)@) == texts(old(args)@) + slot_options(texts(slots@)),
{
    let ghost start = texts(args@);
    let ghost all = texts(slots@);
    let mut i: usize = 0;
    assert(texts(args@) =~= start + slot_options(all.take(0)));
    while i < slots.len()
        invariant
            i <= slots@.len(),
            all == texts(slots@),
            texts(args@) == start + slot_options(all.take(i as int)),
        decreases slots@.len() - i,
    {
        push_text(args, "--slot");
        push_text(args, &slots[i]);
        proof {
            let next = all.take(i as int + 1);
            assert(next.drop_last() =~= all.take(i as int));
            assert(next.last() == slots@[i as int]@);
            assert(texts(args@) =~= start + slot_options(next));
        }
        i = i + 1;
    }
    assert(all.take(i as int) =~= all);
}

fn first_args(a: &str, b: &str, c: &str, d: &str, e: &str) -> (r: Vec<String>)
    ensures
        texts(r@) == seq![a@, b@, c@, d@, e@],
{
    let mut args: Vec<String> = Vec::new();
    push_text(&mut args, a);
    push_text(&mut args, b);
    push_text(&mut args, c);
    push_text(&mut args, d);
    push_text(&mut args, e);
    assert(texts(args@) =~= seq![a@, b@, c@, d@, e@]);
    args
}

impl CliCommand {
    /// The subcommand's name.
    pub fn label(&self) -> (r: &'static str)
        ensures
            r@ == self@.label(),
    {
        match self {
            CliCommand::List => "list",
            CliCommand::Status { .. } => "status",
            CliCommand::Write { .. } => "write",
            CliCommand::Read { .. } => "read",
            CliCommand::Wipe { .. } => "wipe",
            CliCommand::Verify { .. } => "verify",
            CliCommand::Image { .. } => "image",
            CliCommand::Eject { .. } => "eject",
        }
    }

    /// The device that the command works on, if it works on one.
    pub fn device(&self) -> (r: Option<&str>)
        ensures
            (match r {
                Some(d) => Some(d@),
                None => None,
            }) == self@.device(),
    {
        match self {
            CliCommand::List => None,
            CliCommand::Image { .. } => None,
            CliCommand::Status { device, .. } => Some(device.as_str()),
            CliCommand::Write { device, .. } => Some(device.as_str()),
            CliCommand::Read { device, .. } => Some(device.as_str()),
            CliCommand::Wipe { device, .. } => Some(device.as_str()),
            CliCommand::Verify { device, .. } => Some(device.as_str()),
            CliCommand::Eject { device } => Some(device.as_str()),
        }
    }

    /// The arguments to call the command line tool with.
    pub fn to_args(&self) -> (r: Vec<String>)
        ensures
            texts(r@) == self@.args(),
    {
        match self {
            CliCommand::List => {
                let mut args: Vec<String> = Vec::new();
                push_text(&mut args, "list");
                assert(texts(args@) =~= seq!["list"@]);
                args
            },
            CliCommand::Status { device, manifest } => {
                let mut args: Vec<String> = Vec::new();
                push_text(&mut args, "status");
                push_text(&mut args, "--device");
                push_text(&mut args, device);
                assert(texts(args@) =~= seq!["status"@, "--device"@, device@]);
                push_option(&mut args, "--manifest", manifest);
                args
            },
            CliCommand::Write { device, manifest, slots, verify, yes, force, eject } => {
                let mut args = first_args("write", "--device", device, "--manifest", manifest);
                push_slots(&mut args, slots);
                push_flag(&mut args, "--verify", *verify);
                push_flag(&mut args, "--yes", *yes);
                push_flag(&mut args, "--force", *force);
                push_flag(&mut args, "--eject", *eject);
                args
            },
            CliCommand::Read { device, manifest, slots, out, out_dir, length } => {
                let mut args = first_args("read", "--device", device, "--manifest", manifest);
                push_slots(&mut args, slots);
                push_option(&mut args, "-o", out);
                push_option(&mut args, "--out-dir", out_dir);
                push_option(&mut args, "--length", length);
                args
            },
            CliCommand::Wipe { device, manifest, slots, yes, force } => {
                let mut args = first_args("wipe", "--device", device, "--manifest", manifest);
                push_slots(&mut args, slots);
                push_flag(&mut args, "--yes", *yes);
                push_flag(&mut args, "--force", *force);
                args
            },
            CliCommand::Verify { device, manifest, slots } => {
                let mut args = first_args("verify", "--device", device, "--manifest", manifest);
                push_slots(&mut args, slots);
                args
            },
            CliCommand::Image { manifest, out, slots, verify, yes } => {
                let mut args = first_args("image", "--manifest", manifest, "-o", out);
                push_slots(&mut args, slots);
                push_flag(&mut args, "--verify", *verify);
                push_flag(&mut args, "--yes", *yes);
                args
            },
            CliCommand::Eject { device } => {
                let mut args: Vec<String> = Vec::new();
                push_text(&mut args, "eject");
                push_text(&mut args, "--device");
                push_text(&mut args, device);
                assert(texts(args@) =~= seq!["eject"@, "--device"@, device@]);
                args
            },
        }
    }
}

// ---------------------------------------------------------------------------
// Command lines as text
// ---------------------------------------------------------------------------

/// The argument holds a blank or a quotation mark, or nothing.
pub open spec fn wants_quotes(arg: Seq<char>) -> bool {
    arg.len() == 0 || exists|i: int| 0 <= i < arg.len() && (is_space(#[trigger] arg[i]) || arg[i] == '"')
}

/// The argument as it is typed: between quotation marks where it needs them,
/// its own quotation marks behind a backslash.
pub open spec fn shell_quoted(arg: Seq<char>) -> Seq<char> {
    if wants_quotes(arg) {
        "\""@ + replaced(arg, '"', "\\\""@) + "\""@
    } else {
        arg
    }
}

pub open spec fn all_shell_quoted(args: Seq<Seq<char>>) -> Seq<Seq<char>> {
    args.map_values(|a: Seq<char>| shell_quoted(a))
}

/// One argument of a command line, quoted where it needs it.
pub fn shell_quote(arg: &str) -> (r: String)
    ensures
        r@ == shell_quoted(arg@),
{
    let cs = chars_of(arg);
    let mut plain = cs.len() > 0;
    let mut i: usize = 0;
    while i < cs.len() && plain
        invariant
            i <= cs@.len(),
            cs@ == arg@,
            plain ==> cs@.len() > 0 && forall|j: int|
                0 <= j < i ==> !is_space(#[trigger] cs@[j]) && cs@[j] != '"',
            !plain ==> wants_quotes(arg@),
        decreases cs@.len() - i,
    {
        if space_here(cs[i]) || cs[i] == '"' {
            plain = false;
            assert(is_space(arg@[i as int]) || arg@[i as int] == '"');
        }
        i = i + 1;
    }
    if plain {
        arg.to_owned()
    } else {
        let inner = replace_char(arg, '"', "\\\"");
        cat3("\"", &inner, "\"")
    }
}

fn quote_all(args: &Vec<String>) -> (r: Vec<String>)
    ensures
        texts(r@) == all_shell_quoted(texts(args@)),
{
    let mut out: Vec<String> = Vec::new();
    let mut i: usize = 0;
    assert(texts(out@) =~= all_shell_quoted(texts(args@).take(0)));
    while i < args.len()
        invariant
            i <= args@.len(),
            texts(out@) == all_shell_quoted(texts(args@).take(i as int)),
        decreases args@.len() - i,
    {
        let q = shell_quote(&args[i]);
        push_text(&mut out, &q);
        i = i + 1;
        assert(texts(out@) =~= all_shell_quoted(texts(args@).take(i as int)));
    }
    assert(texts(args@).take(i as int) =~= texts(args@));
    out
}

/// The command line that does the same, for learning and bug reports.
pub fn equivalent_command(args: &Vec<String>) -> (r: String)
    ensures
        r@ == joined(seq!["sdslot"@] + all_shell_quoted(texts(args@)), " "@),
{
    let quoted = quote_all(args);
    let mut parts: Vec<String> = Vec::new();
    push_text(&mut parts, "sdslot");
    push_texts(&mut parts, &quoted);
    assert(texts(parts@) =~= seq!["sdslot"@] + all_shell_quoted(texts(args@)));
    join_texts(&parts, " ")
}

/// The parameters of an elevated launch, as one text.
pub fn launch_parameters(args: &Vec<String>) -> (r: String)
    ensures
        r@ == joined(all_shell_quoted(texts(args@)), " "@),
{
    let quoted = quote_all(args);
    join_texts(&quoted, " ")
}

/// An argument between single quotation marks, its own ones spliced in.
pub open spec fn single_quoted(arg: Seq<char>) -> Seq<char> {
    "'"@ + replaced(arg, '\'', "'\\''"@) + "'"@
}

/// The script that runs a program with administrator rights: its command line
/// in single quotation marks, made fit for a script's string.
pub open spec fn administrator_script_text(exe: Seq<char>, args: Seq<Seq<char>>) -> Seq<char> {
    let line = joined((seq![exe] + args).map_values(|a: Seq<char>| single_quoted(a)), " "@);
    "do shell script \""@ + replaced(replaced(line, '\\', "\\\\"@), '"', "\\\""@)
        + "\" with administrator privileges"@
}

/// The script that runs the tool with administrator rights.
pub fn administrator_script(exe: &str, args: &Vec<String>) -> (r: String)
    ensures
        r@ == administrator_script_text(exe@, texts(args@)),
{
    let ghost all = seq![exe@] + texts(args@);
    let ghost quoted_all = all.map_values(|a: Seq<char>| single_quoted(a));
    let mut quoted: Vec<String> = Vec::new();
    let first = replace_char(exe, '\'', "'\\''");
    let first = cat3("'", &first, "'");
    push_text(&mut quoted, &first);
    assert(texts(quoted@) =~= quoted_all.take(1));
    let mut i: usize = 0;
    while i < args.len()
        invariant
            i <= args@.len(),
            all == seq![exe@] + texts(args@),
            quoted_all == all.map_values(|a: Seq<char>| single_quoted(a)),
            texts(quoted@) == quoted_all.take(i as int + 1),
        decreases args@.len() - i,
    {
        let inner = replace_char(&args[i], '\'', "'\\''");
        let q = cat3("'", &inner, "'");
        push_text(&mut quoted, &q);
        assert(quoted_all[i as int + 1] == single_quoted(args@[i as int]@));
        assert(quoted_all.take(i as int + 2) =~= quoted_all.take(i as int + 1).push(
            quoted_all[i as int + 1],
        ));
        i = i + 1;
    }
    assert(quoted_all.take(i as int + 1) =~= quoted_all);
    let line = join_texts(&quoted, " ");
    let once = replace_char(&line, '\\', "\\\\");
    let twice = replace_char(&once, '"', "\\\"");
    cat3("do shell script \"", &twice, "\" with administrator privileges")
}

/// What to tell the user where no elevation prompt can be shown.
pub fn sudo_hint(args: &Vec<String>) -> (r: String)
    ensures
        r@ == "pkexec is not available; run this from a terminal instead: sudo "@ + joined(
            seq!["sdslot"@] + all_shell_quoted(texts(args@)),
            " "@,
        ),
{
    let line = equivalent_command(args);
    cat2("pkexec is not available; run this from a terminal instead: sudo ", &line)
}

/// Does this operation's target need elevated raw-device access?
pub fn needs_elevation(device_arg: Option<&str>) -> (r: bool)
    ensures
        r == (device_arg matches Some(d) && names_platform_device(d@)),
{
    match device_arg {
        Some(d) => is_platform_device_path(d),
        None => false,
    }
}

/// The arguments of a launch whose events come over standard output.
pub fn piped_args(cmd: &CliCommand) -> (r: Vec<String>)
    ensures
        texts(r@) == cmd@.args().push("--json"@),
{
    let mut args = cmd.to_args();
    push_text(&mut args, "--json");
    args
}

/// The arguments of a launch whose events come to a local address.
pub fn connected_args(cmd: &CliCommand, address: &str) -> (r: Vec<String>)
    ensures
        texts(r@) == cmd@.args().push("--json-port"@).push(address@),
{
    let mut args = cmd.to_args();
    push_text(&mut args, "--json-port");
    push_text(&mut args, address);
    args
}

} // verus!
