//! Transfers that the host makes in pieces, what to do after each piece, and the
//! words for accesses that the host refuses.

use vstd::prelude::*;
use vstd::string::*;

use crate::device::elevation_hint;
use crate::error::{Error, ErrorView, Result};
use crate::text::{cat2, cat3, cat4, cat5, dec, dec_text};

verus! {

/// What one call to the host did.
#[derive(Debug, Clone, Copy, PartialEq, Eq, Structural)]
pub enum Piece {
    /// It moved that many bytes; none stands for the end of the medium.
    Moved(usize),
    /// It was interrupted before it moved any.
    Interrupted,
    Failed,
}

/// What a call that moves nothing means.
#[derive(Debug, Clone, Copy, PartialEq, Eq, Structural)]
pub enum AtEnd {
    /// Past the end of a file everything reads as zeros.
    Zeros,
    /// A block device is read inside its capacity only.
    Fault,
    /// A write that moves nothing is made again.
    Again,
}

/// What to do after a call.
#[derive(Debug, Clone, Copy, PartialEq, Eq, Structural)]
pub enum Step {
    /// Call again, from that many bytes on.
    Call(usize),
    /// Everything is moved.
    Complete,
    /// Fill with zeros from that many bytes on, and be done.
    Fill(usize),
    /// Give up: the medium ends at that offset.
    Ended(u64),
    /// Give up: the host refused.
    Refused,
}

/// What to do about a transfer of `len` bytes at `offset`, of which `done` were
/// moved, after one more call.
pub open spec fn step_after(offset: u64, len: usize, done: usize, piece: Piece, end: AtEnd) -> Step {
    match piece {
        Piece::Failed => Step::Refused,
        Piece::Interrupted => Step::Call(done),
        Piece::Moved(n) => if n > 0 && done + n == len {
            Step::Complete
        } else if n > 0 {
            Step::Call((done + n) as usize)
        } else {
            match end {
                AtEnd::Zeros => Step::Fill(done),
                AtEnd::Fault => Step::Ended((offset + done) as u64),
                AtEnd::Again => Step::Call(done),
            }
        },
    }
}

/// Decide how a transfer goes on after a call to the host.
pub fn next_step(offset: u64, len: usize, done: usize, piece: Piece, end: AtEnd) -> (r: Step)
    requires
        offset + len <= u64::MAX,
        done < len,
        piece matches Piece::Moved(n) ==> n <= len - done,
    ensures
        r == step_after(offset, len, done, piece, end),
{
    match piece {
        Piece::Failed => Step::Refused,
        Piece::Interrupted => Step::Call(done),
        Piece::Moved(n) => {
            if n > 0 {
                if done + n == len {
                    Step::Complete
                } else {
                    Step::Call(done + n)
                }
            } else {
                match end {
                    AtEnd::Zeros => Step::Fill(done),
                    AtEnd::Fault => Step::Ended(offset + done as u64),
                    AtEnd::Again => Step::Call(done),
                }
            }
        },
    }
}

/// How many bytes a run of calls moved.
pub open spec fn moved(pieces: Seq<Piece>) -> nat
    decreases pieces.len(),
{
    if pieces.len() == 0 {
        0
    } else {
        moved(pieces.drop_last()) + match pieces.last() {
            Piece::Moved(n) => n as nat,
            _ => 0,
        }
    }
}

/// What follows a run of calls, each made only where the ones before asked for
/// it; nothing where one call too many was made.
pub open spec fn steps_after(offset: u64, len: usize, pieces: Seq<Piece>, end: AtEnd) -> Option<Step>
    decreases pieces.len(),
{
    if pieces.len() == 0 {
        Some(
            if len == 0 {
                Step::Complete
            } else {
                Step::Call(0)
            },
        )
    } else {
        match steps_after(offset, len, pieces.drop_last(), end) {
            Some(Step::Call(done)) => Some(step_after(offset, len, done, pieces.last(), end)),
            _ => None,
        }
    }
}

/// No call moves more than what is still asked for.
pub open spec fn pieces_fit(len: usize, pieces: Seq<Piece>) -> bool {
    forall|i: int|
        0 <= i < pieces.len() ==> moved(#[trigger] pieces.take(i + 1)) <= len
}

/// A transfer in pieces goes on exactly behind the bytes that were moved, and is
/// complete only when all of them were.
pub proof fn pieces_make_the_whole(offset: u64, len: usize, pieces: Seq<Piece>, end: AtEnd)
    requires
        pieces_fit(len, pieces),
    ensures
        match steps_after(offset, len, pieces, end) {
            Some(Step::Call(done)) => done == moved(pieces) && done < len,
            Some(Step::Complete) => moved(pieces) == len,
            Some(Step::Fill(done)) => done == moved(pieces) && done < len,
            _ => true,
        },
    decreases pieces.len(),
{
    if pieces.len() > 0 {
        let before = pieces.drop_last();
        assert forall|i: int| 0 <= i < before.len() implies moved(#[trigger] before.take(i + 1))
            <= len by {
            assert(before.take(i + 1) =~= pieces.take(i + 1));
        }
        pieces_make_the_whole(offset, len, before, end);
        assert(pieces.take(pieces.len() - 1 + 1) =~= pieces);
    }
}

// ---------------------------------------------------------------------------
// Refused accesses
// ---------------------------------------------------------------------------

#[derive(Debug, Clone, Copy, PartialEq, Eq, Structural)]
pub enum Host {
    Linux,
    Mac,
    Windows,
}

/// What grants access to raw disks on macOS, where being root is not enough.
pub open spec fn full_disk_access(root: bool) -> Seq<char> {
    (if root {
        "already running as root — "@
    } else {
        ""@
    })
        + "macOS requires Full Disk Access for raw disk devices: grant it to the app that launched sdslot (sdslot-gui.app, Terminal, iTerm2, …) under System Settings > Privacy & Security > Full Disk Access, then quit and relaunch that app"@
}

/// What grants access to raw disks on macOS, where being root is not enough.
pub fn full_disk_access_hint(root: bool) -> (r: String)
    ensures
        r@ == full_disk_access(root),
{
    let prefix = if root {
        "already running as root — "
    } else {
        ""
    };
    cat2(
        prefix,
        "macOS requires Full Disk Access for raw disk devices: grant it to the app that launched sdslot (sdslot-gui.app, Terminal, iTerm2, …) under System Settings > Privacy & Security > Full Disk Access, then quit and relaunch that app",
    )
}

/// The hint for an error code of the host, where it stands for a denial. On
/// macOS the file mode and the privacy gate deny with different codes, and only
/// the first is lifted by elevation.
pub open spec fn denial_hint(host: Host, code: Option<i32>, root: bool) -> Option<Seq<char>> {
    match (host, code) {
        (Host::Linux, Some(13)) => Some("re-run with sudo"@),
        (Host::Mac, Some(13)) => Some("re-run with sudo"@),
        (Host::Mac, Some(1)) => Some(full_disk_access(root)),
        (Host::Windows, Some(5)) => Some("run from an elevated (Administrator) prompt"@),
        _ => None,
    }
}

/// The device error for an error of the host: the context, what the host said,
/// and the hint where it is a denial.
pub fn host_error(host: Host, code: Option<i32>, root: bool, ctx: &str, said: &str) -> (r: Error)
    ensures
        r@ == ErrorView::Device(
            ctx@ + ": "@ + said@ + (match denial_hint(host, code, root) {
                Some(h) => " ("@ + h + ")"@,
                None => ""@,
            }),
        ),
{
    let denied = match code {
        Some(c) => match host {
            Host::Linux => if c == 13 {
                Some(elevation_hint(false).to_owned())
            } else {
                None
            },
            Host::Mac => if c == 13 {
                Some(elevation_hint(false).to_owned())
            } else if c == 1 {
                Some(full_disk_access_hint(root))
            } else {
                None
            },
            Host::Windows => if c == 5 {
                Some(elevation_hint(true).to_owned())
            } else {
                None
            },
        },
        None => None,
    };
    let hint = match denied {
        Some(h) => cat3(" (", &h, ")"),
        None => "".to_owned(),
    };
    Error::Device(cat4(ctx, ": ", said, &hint))
}

/// The context of a device that could not be opened on Linux: a mounted one is
/// in use.
pub fn linux_open_context(path: &str, code: Option<i32>) -> (r: String)
    ensures
        r@ == "cannot open "@ + path@ + (if code == Some(16i32) {
            " (device is in use — unmount its filesystems first)"@
        } else {
            ""@
        }),
{
    let busy = match code {
        Some(c) => c == 16,
        None => false,
    };
    if busy {
        cat3("cannot open ", path, " (device is in use — unmount its filesystems first)")
    } else {
        cat3("cannot open ", path, "")
    }
}

/// Hold what a call moved against what it was asked to: Windows transfers are
/// whole or failed.
pub fn check_whole(reading: bool, offset: u64, got: u32, len: usize) -> (r: Result<()>)
    ensures
        match r {
            Ok(_) => got == len,
            Err(e) => got != len && e@ == ErrorView::Device(
                (if reading {
                    "short read at offset "@
                } else {
                    "short write at offset "@
                }) + dec(offset as nat) + ": "@ + dec(got as nat) + " of "@ + dec(len as nat)
                    + " bytes"@,
            ),
        },
{
    if got as usize == len {
        return Ok(());
    }
    let at = dec_text(offset);
    let n = dec_text(got as u64);
    let want = dec_text(len as u64);
    let start = if reading {
        "short read at offset "
    } else {
        "short write at offset "
    };
    let head = cat5(start, &at, ": ", &n, " of ");
    Err(Error::Device(cat3(&head, &want, " bytes")))
}

} // verus!
