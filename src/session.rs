use vstd::prelude::*;
use vstd::string::StringSliceAdditionalSpecFns;
use crate::error::ErrorKind;
use crate::search::SearchCommand;
use crate::show::ShowCommand;

verus! {

/// Shells for which a completion script can be written.
#[derive(Clone, Copy, Debug, PartialEq, Eq, Structural)]
pub enum Shell {
    Bash,
    Zsh,
    Fish,
    Elvish,
    PowerShell,
}

/// `complete SHELL`: print a shell-completion script.
pub struct CompleteCommand {
    pub shell: Shell,
}

/// `listen PATH`: open a target and serve queries on it.
pub struct ListenCommand {
    pub path: String,
}

/// The subcommands.
pub enum Commands {
    Complete(CompleteCommand),
    Listen(ListenCommand),
    Search(SearchCommand),
    Show(ShowCommand),
}

/// The parsed command line.
pub struct Options {
    pub command: Commands,
}

/// The record a client sends to start a query.
pub struct Start {
    pub options: Options,
    pub colored: bool,
    pub hyperlink: bool,
}

/// How a query ended.
#[derive(Clone, Copy, Debug, PartialEq, Eq, Structural)]
pub enum ExitCode {
    Success,
    Failure,
}

/// The record a server sends when a query ends.
#[derive(Clone, Copy, Debug, PartialEq, Eq, Structural)]
pub struct Exit {
    pub code: ExitCode,
}

/// The largest payload a frame can carry.
pub const MAX_FRAME: usize = 65535;

impl Commands {
    /// Whether the command runs in a session; `listen` and `complete` run
    /// locally and never travel.
    pub fn is_remote(&self) -> (r: bool)
        ensures
            r == (self is Search || self is Show),
    {
        match self {
            Commands::Search(_) | Commands::Show(_) => true,
            Commands::Complete(_) | Commands::Listen(_) => false,
        }
    }
}

impl Exit {
    /// The exit record for a query's outcome.
    pub fn from_outcome(ok: bool) -> (r: Exit)
        ensures
            r.code == if ok {
                ExitCode::Success
            } else {
                ExitCode::Failure
            },
    {
        Exit {
            code: if ok {
                ExitCode::Success
            } else {
                ExitCode::Failure
            },
        }
    }

    /// The process status a client exits with.
    pub fn status(&self) -> (r: i32)
        ensures
            r == if self.code == ExitCode::Success {
                0i32
            } else {
                1i32
            },
    {
        match self.code {
            ExitCode::Success => 0,
            ExitCode::Failure => 1,
        }
    }
}

/// A frame: the payload's length as a little-endian `u16`, then the payload.
pub open spec fn frame(payload: Seq<u8>) -> Seq<u8> {
    seq![(payload.len() % 256) as u8, (payload.len() / 256) as u8] + payload
}

/// The payload length that a frame header announces.
pub open spec fn header_len(h0: u8, h1: u8) -> nat {
    h0 as nat + 256 * h1 as nat
}

/// The payload at the start of `buf` and the bytes it took, if the whole
/// frame is there.
pub open spec fn unframe(buf: Seq<u8>) -> Option<(Seq<u8>, nat)> {
    if buf.len() < 2 {
        None
    } else {
        let n = header_len(buf[0], buf[1]);
        if buf.len() < 2 + n {
            None
        } else {
            Some((buf.subrange(2, (2 + n) as int), 2 + n))
        }
    }
}

/// Frames a payload; one longer than the 16-bit prefix can state is refused.
pub fn encode_frame(payload: &[u8]) -> (r: Result<Vec<u8>, ErrorKind>)
    ensures
        payload@.len() <= MAX_FRAME ==> r is Ok && r->Ok_0@ == frame(payload@),
        payload@.len() > MAX_FRAME ==> r == Err::<Vec<u8>, ErrorKind>(ErrorKind::TooLong),
{
    let n = payload.len();
    if n > MAX_FRAME {
        return Err(ErrorKind::TooLong);
    }
    let mut out: Vec<u8> = Vec::new();
    out.push((n % 256) as u8);
    out.push((n / 256) as u8);
    crate::text::push_all(&mut out, payload);
    assert(out@ =~= frame(payload@));
    Ok(out)
}

/// The payload length announced by a two-byte frame header.
pub fn frame_len(h0: u8, h1: u8) -> (r: usize)
    ensures
        r == header_len(h0, h1),
{
    h0 as usize + 256 * (h1 as usize)
}

/// Takes the first frame off `buf`: its payload and the number of bytes
/// used, or `None` while the frame is incomplete.
pub fn decode_frame(buf: &[u8]) -> (r: Option<(Vec<u8>, usize)>)
    ensures
        match unframe(buf@) {
            Some((p, n)) => r is Some && r->Some_0.0@ == p && r->Some_0.1 == n,
            None => r is None,
        },
{
    if buf.len() < 2 {
        return None;
    }
    let n = frame_len(buf[0], buf[1]);
    if buf.len() - 2 < n {
        return None;
    }
    let p = vstd::slice::slice_to_vec(vstd::slice::slice_subrange(buf, 2, 2 + n));
    Some((p, 2 + n))
}

/// A framed payload reads back whole, whatever follows it.
pub proof fn lemma_frame_round_trip(payload: Seq<u8>, rest: Seq<u8>)
    requires
        payload.len() <= MAX_FRAME,
    ensures
        unframe(frame(payload) + rest) == Some((payload, (payload.len() + 2) as nat)),
{
    let b = frame(payload) + rest;
    let n = payload.len();
    assert(header_len(b[0], b[1]) == n) by {
        assert(b[0] == (n % 256) as u8);
        assert(b[1] == (n / 256) as u8);
    }
    assert(b.subrange(2, (2 + n) as int) =~= payload);
}

/// The session socket's file name: the hash of the working directory, a
/// dash, and the hash of the target.
pub fn socket_name(cwd_hash: &str, target_hash: &str) -> (r: Vec<u8>)
    ensures
        r@ == vstd::utf8::encode_utf8(cwd_hash@) + seq![45u8] + vstd::utf8::encode_utf8(
            target_hash@,
        ),
{
    let mut out: Vec<u8> = Vec::new();
    crate::text::push_all(&mut out, cwd_hash.as_bytes());
    out.push(45);
    crate::text::push_all(&mut out, target_hash.as_bytes());
    assert(out@ =~= vstd::utf8::encode_utf8(cwd_hash@) + seq![45u8] + vstd::utf8::encode_utf8(
        target_hash@,
    ));
    out
}

pub open spec fn starts_with(name: Seq<u8>, prefix: Seq<u8>) -> bool {
    prefix.len() <= name.len() && name.subrange(0, prefix.len() as int) == prefix
}

fn has_prefix(name: &[u8], prefix: &[u8]) -> (r: bool)
    ensures
        r == starts_with(name@, prefix@),
{
    if prefix.len() > name.len() {
        return false;
    }
    let mut i: usize = 0;
    while i < prefix.len()
        invariant
            prefix@.len() <= name@.len(),
            i <= prefix@.len(),
            forall|m: int| 0 <= m < i ==> name@[m] == prefix@[m],
        decreases prefix@.len() - i,
    {
        if name[i] != prefix[i] {
            return false;
        }
        i = i + 1;
    }
    assert(name@.subrange(0, prefix@.len() as int) =~= prefix@);
    true
}

/// The session a client picks among the socket names found: the first one
/// that starts with the working directory's hash, else the first one.
pub open spec fn pick_spec(names: Seq<Vec<u8>>, prefix: Seq<u8>) -> Option<int> {
    if exists|i: int| 0 <= i < names.len() && starts_with(names[i]@, prefix) {
        Some(
            choose|i: int|
                0 <= i < names.len() && starts_with(names[i]@, prefix) && forall|m: int|
                    0 <= m < i ==> !starts_with(names[m]@, prefix),
        )
    } else if names.len() > 0 {
        Some(0)
    } else {
        None
    }
}

/// Picks the session socket, as `pick_spec` states.
pub fn pick_session(names: &Vec<Vec<u8>>, prefix: &[u8]) -> (r: Option<usize>)
    ensures
        match pick_spec(names@, prefix@) {
            Some(i) => r == Some(i as usize),
            None => r is None,
        },
{
    let mut i: usize = 0;
    while i < names.len()
        invariant
            i <= names@.len(),
            forall|m: int| 0 <= m < i ==> !starts_with(names@[m]@, prefix@),
        decreases names@.len() - i,
    {
        if has_prefix(names[i].as_slice(), prefix) {
            proof {
                let c = choose|c: int|
                    0 <= c < names@.len() && starts_with(names@[c]@, prefix@) && forall|m: int|
                        0 <= m < c ==> !starts_with(names@[m]@, prefix@);
                assert(c == i as int) by {
                    if c < i {
                    } else if c > i {
                    }
                }
            }
            return Some(i);
        }
        i = i + 1;
    }
    if names.len() > 0 {
        Some(0)
    } else {
        None
    }
}

} // verus!
