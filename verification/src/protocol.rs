//! The local IPC protocol: method names, conflict resolutions, the routing
//! of a request to an engine operation, and the length-prefixed framing.
//!
//! A frame is a 4-byte little-endian length followed by that many bytes of
//! JSON. A length above [`MAX_FRAME`] is refused.

use vstd::prelude::*;
use crate::text::{owned, push_str, str_eq};

verus! {

pub const METHOD_SNAPSHOT: &'static str = "snapshot";
pub const METHOD_STATUS: &'static str = "status";
pub const METHOD_ACTIVITY: &'static str = "activity";
pub const METHOD_SYNC_NOW: &'static str = "sync_now";
pub const METHOD_PAUSE: &'static str = "pause";
pub const METHOD_RESUME: &'static str = "resume";
pub const METHOD_RESOLVE_CONFLICT: &'static str = "resolve_conflict";
pub const METHOD_SEARCH: &'static str = "search";
pub const METHOD_INDEX_NOW: &'static str = "index_now";

/// The largest message body a reader accepts: 64 MiB.
pub const MAX_FRAME: u32 = 67108864;

/// How to resolve a both-sides conflict from the UI.
#[derive(Debug, Clone, Copy, PartialEq, Eq, Structural)]
pub enum Resolution {
    KeepLocal,
    KeepRemote,
    KeepBoth,
}

/// The wire name of a resolution.
pub open spec fn resolution_name(r: Resolution) -> Seq<char> {
    match r {
        Resolution::KeepLocal => "keep_local"@,
        Resolution::KeepRemote => "keep_remote"@,
        Resolution::KeepBoth => "keep_both"@,
    }
}

impl Resolution {
    /// The wire name (`keep_local`, `keep_remote`, `keep_both`).
    pub fn name(&self) -> (s: &'static str)
        ensures
            s@ == resolution_name(*self),
    {
        match self {
            Resolution::KeepLocal => "keep_local",
            Resolution::KeepRemote => "keep_remote",
            Resolution::KeepBoth => "keep_both",
        }
    }

    /// The resolution with wire name `s`, if any.
    pub fn from_name(s: &str) -> (r: Option<Resolution>)
        ensures
            match r {
                Some(x) => resolution_name(x) == s@,
                None => forall|x: Resolution| resolution_name(x) != s@,
            },
    {
        if str_eq(s, "keep_local") {
            Some(Resolution::KeepLocal)
        } else if str_eq(s, "keep_remote") {
            Some(Resolution::KeepRemote)
        } else if str_eq(s, "keep_both") {
            Some(Resolution::KeepBoth)
        } else {
            proof {
                assert forall|x: Resolution| resolution_name(x) != s@ by {
                    match x {
                        Resolution::KeepLocal => {},
                        Resolution::KeepRemote => {},
                        Resolution::KeepBoth => {},
                    }
                }
            }
            None
        }
    }
}

/// The engine operation a request asks for.
#[derive(Debug, Clone, Copy, PartialEq, Eq, Structural)]
pub enum Route {
    Snapshot,
    Status,
    Activity,
    SyncNow,
    Pause,
    Resume,
    ResolveConflict,
    /// A method the daemon does not serve.
    Unknown,
}

/// The operation that method `m` names.
pub open spec fn spec_route(m: Seq<char>) -> Route {
    if m == "snapshot"@ {
        Route::Snapshot
    } else if m == "status"@ {
        Route::Status
    } else if m == "activity"@ {
        Route::Activity
    } else if m == "sync_now"@ {
        Route::SyncNow
    } else if m == "pause"@ {
        Route::Pause
    } else if m == "resume"@ {
        Route::Resume
    } else if m == "resolve_conflict"@ {
        Route::ResolveConflict
    } else {
        Route::Unknown
    }
}

/// The operation that method `m` names.
pub fn route(m: &str) -> (r: Route)
    ensures
        r == spec_route(m@),
{
    if str_eq(m, METHOD_SNAPSHOT) {
        Route::Snapshot
    } else if str_eq(m, METHOD_STATUS) {
        Route::Status
    } else if str_eq(m, METHOD_ACTIVITY) {
        Route::Activity
    } else if str_eq(m, METHOD_SYNC_NOW) {
        Route::SyncNow
    } else if str_eq(m, METHOD_PAUSE) {
        Route::Pause
    } else if str_eq(m, METHOD_RESUME) {
        Route::Resume
    } else if str_eq(m, METHOD_RESOLVE_CONFLICT) {
        Route::ResolveConflict
    } else {
        Route::Unknown
    }
}

/// The error answered to a method the daemon does not serve.
pub fn unknown_method(m: &str) -> (s: String)
    ensures
        s@ == "unknown method: "@ + m@,
{
    let mut s = owned("unknown method: ");
    push_str(&mut s, m);
    s
}

/// The arguments of a `resolve_conflict` request, or the error answered:
/// `missing 'key'` without a string `key`, `missing/invalid 'resolution'`
/// without a known resolution name.
pub fn resolve_args(key: Option<String>, resolution: Option<String>) -> (r: Result<(String, Resolution), String>)
    ensures
        match key {
            None => r matches Err(e) && e@ == "missing 'key'"@,
            Some(k) => match resolution {
                Some(n) if exists|x: Resolution| resolution_name(x) == n@ => r matches Ok((k2, x))
                    && k2@ == k@ && resolution_name(x) == n@,
                _ => r matches Err(e) && e@ == "missing/invalid 'resolution'"@,
            },
        },
{
    let k = match key {
        Some(k) => k,
        None => {
            return Err(owned("missing 'key'"));
        },
    };
    let parsed = match &resolution {
        Some(n) => Resolution::from_name(n.as_str()),
        None => None,
    };
    match parsed {
        Some(x) => Ok((k, x)),
        None => Err(owned("missing/invalid 'resolution'")),
    }
}

/// The four little-endian bytes of `n`.
pub open spec fn le_bytes(n: u32) -> Seq<u8> {
    seq![(n % 256) as u8, ((n / 256) % 256) as u8, ((n / 65536) % 256) as u8, (n / 16777216) as u8]
}

/// The number whose little-endian bytes are `b`.
pub open spec fn le_value(b: Seq<u8>) -> int {
    b[0] + 256 * b[1] + 65536 * b[2] + 16777216 * b[3]
}

/// The frame header of a body of `len` bytes: its length, cut to 32 bits,
/// in little-endian order.
pub fn frame_header(len: usize) -> (h: [u8; 4])
    ensures
        h@ == le_bytes((len as int % 4294967296) as u32),
{
    let n: u32 = (len as u64 % 4294967296u64) as u32;
    let h: [u8; 4] = [(n % 256) as u8, ((n / 256) % 256) as u8, ((n / 65536) % 256) as u8, (n / 16777216) as u8];
    assert(h@ =~= le_bytes(n));
    h
}

/// `body` framed: its header followed by the body.
pub fn frame(body: &[u8]) -> (f: Vec<u8>)
    ensures
        f@ == le_bytes((body@.len() as int % 4294967296) as u32) + body@,
{
    let h = frame_header(body.len());
    let mut f: Vec<u8> = Vec::new();
    f.push(h[0]);
    f.push(h[1]);
    f.push(h[2]);
    f.push(h[3]);
    let mut i: usize = 0;
    while i < body.len()
        invariant
            i <= body@.len(),
            f@ == h@ + body@.take(i as int),
        decreases body@.len() - i,
    {
        f.push(body[i]);
        assert(body@.take(i + 1) =~= body@.take(i as int).push(body@[i as int]));
        i += 1;
    }
    assert(body@.take(body@.len() as int) =~= body@);
    assert(f@ =~= h@ + body@);
    f
}

/// Why a frame header was refused.
#[derive(Debug, Clone, Copy, PartialEq, Eq, Structural)]
pub enum FrameError {
    /// The announced body is larger than [`MAX_FRAME`].
    TooLarge,
}

/// The body length that `header` announces, refused above [`MAX_FRAME`].
pub fn body_len(header: [u8; 4]) -> (r: Result<usize, FrameError>)
    ensures
        le_value(header@) <= 67108864 ==> r == Ok::<usize, FrameError>(le_value(header@) as usize),
        le_value(header@) > 67108864 ==> r == Err::<usize, FrameError>(FrameError::TooLarge),
{
    let n: u32 = header[0] as u32 + 256 * (header[1] as u32) + 65536 * (header[2] as u32) + 16777216 * (header[3] as u32);
    if n > MAX_FRAME {
        Err(FrameError::TooLarge)
    } else {
        Ok(n as usize)
    }
}

/// A body no larger than [`MAX_FRAME`] is read back at its own length from
/// the header it was framed with.
pub proof fn law_header_round_trip(len: nat)
    requires
        len <= 67108864,
    ensures
        le_value(le_bytes((len % 4294967296) as u32)) == len,
{
    let n = (len % 4294967296) as u32;
    assert(n == len);
    let b = le_bytes(n);
    assert(le_value(b) == n) by (nonlinear_arith)
        requires
            b == seq![(n % 256) as u8, ((n / 256) % 256) as u8, ((n / 65536) % 256) as u8, (n / 16777216) as u8],
            n < 4294967296,
    {
        assert(b[0] == n % 256);
        assert(b[1] == (n / 256) % 256);
        assert(b[2] == (n / 65536) % 256);
        assert(b[3] == n / 16777216);
    }
}

} // verus!
