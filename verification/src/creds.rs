//! Credential resolution.
//!
//! Secrets are looked up, in order of priority, from command-line flags,
//! the OS keychain, environment variables, and lastly a `credentials.toml`
//! file that must not be readable by group or others. This module holds the
//! decisions; the lookups themselves are I/O done by the caller.

use vstd::prelude::*;
use crate::error::Error;
use crate::text::{owned, push_char, push_str};

verus! {

/// The service name used in the OS keychain.
pub const SERVICE: &'static str = "wunderdrive";

/// A pair of S3 long-term credentials.
#[derive(Debug, Clone, PartialEq, Eq)]
pub struct Credentials {
    pub access_key_id: String,
    pub secret_access_key: String,
}

/// The keychain account of a bucket: `bucket@endpoint`, or the bucket alone
/// without an endpoint.
pub open spec fn spec_account_name(bucket: Seq<char>, endpoint: Option<Seq<char>>) -> Seq<char> {
    match endpoint {
        Some(e) => bucket + "@"@ + e,
        None => bucket,
    }
}

/// The keychain account name for a bucket at an endpoint, so that several
/// buckets are stored under distinct entries.
pub fn account_name(bucket: &str, endpoint: Option<&str>) -> (r: String)
    ensures
        r@ == spec_account_name(bucket@, match endpoint {
            Some(e) => Some(e@),
            None => None,
        }),
{
    match endpoint {
        Some(e) => {
            let mut s = owned(bucket);
            push_str(&mut s, "@");
            push_str(&mut s, e);
            s
        },
        None => owned(bucket),
    }
}

/// The keychain entry holding the access key id of `account`.
pub fn access_key_entry(account: &str) -> (r: String)
    ensures
        r@ == account@ + "/access_key_id"@,
{
    let mut s = owned(account);
    push_str(&mut s, "/access_key_id");
    s
}

/// The keychain entry holding the secret access key of `account`.
pub fn secret_key_entry(account: &str) -> (r: String)
    ensures
        r@ == account@ + "/secret_access_key"@,
{
    let mut s = owned(account);
    push_str(&mut s, "/secret_access_key");
    s
}

/// What a keychain read found.
#[derive(Debug, Clone, PartialEq, Eq)]
pub enum Lookup {
    Found(String),
    /// The entry does not exist.
    NoEntry,
    /// The keychain failed, with its message.
    Failed(String),
}

/// A keychain read as a result: a missing entry is no value, a failure an
/// error.
pub fn lookup_result(l: Lookup) -> (r: Result<Option<String>, Error>)
    ensures
        match l {
            Lookup::Found(s) => r == Ok::<Option<String>, Error>(Some(s)),
            Lookup::NoEntry => r == Ok::<Option<String>, Error>(None),
            Lookup::Failed(m) => r == Err::<Option<String>, Error>(Error::Keyring(m)),
        },
{
    match l {
        Lookup::Found(s) => Ok(Some(s)),
        Lookup::NoEntry => Ok(None),
        Lookup::Failed(m) => Err(Error::Keyring(m)),
    }
}

/// Credentials when both halves are given.
pub fn pair(id: Option<String>, secret: Option<String>) -> (r: Option<Credentials>)
    ensures
        match (id, secret) {
            (Some(i), Some(s)) => r == Some(Credentials { access_key_id: i, secret_access_key: s }),
            _ => r is None,
        },
{
    match (id, secret) {
        (Some(i), Some(s)) => Some(Credentials { access_key_id: i, secret_access_key: s }),
        _ => None,
    }
}

/// The first of two optional values.
pub open spec fn first_of<T>(a: Option<T>, b: Option<T>) -> Option<T> {
    match a {
        Some(x) => Some(x),
        None => b,
    }
}

/// Credentials from the environment: `WUNDERDRIVE_ACCESS_KEY_ID`, else
/// `AWS_ACCESS_KEY_ID`; `WUNDERDRIVE_SECRET_ACCESS_KEY`, else
/// `AWS_SECRET_ACCESS_KEY`; both halves are needed.
pub fn env_credentials(
    own_id: Option<String>,
    aws_id: Option<String>,
    own_secret: Option<String>,
    aws_secret: Option<String>,
) -> (r: Option<Credentials>)
    ensures
        match (first_of(own_id, aws_id), first_of(own_secret, aws_secret)) {
            (Some(i), Some(s)) => r == Some(Credentials { access_key_id: i, secret_access_key: s }),
            _ => r is None,
        },
{
    let id = match own_id {
        Some(x) => Some(x),
        None => aws_id,
    };
    let secret = match own_secret {
        Some(x) => Some(x),
        None => aws_secret,
    };
    pair(id, secret)
}

/// A place credentials are looked up, in order of priority.
#[derive(Debug, Clone, Copy, PartialEq, Eq, Structural)]
pub enum Source {
    /// The command-line flags.
    Flags,
    /// The OS keychain.
    Keychain,
    /// The environment variables.
    Environment,
    /// The `credentials.toml` file.
    File,
}

/// What the resolver does after reading a source: read the next one, or
/// stop with its answer.
#[derive(Debug, Clone, PartialEq, Eq)]
pub enum ResolveStep {
    Read(Source),
    Done(Option<Credentials>),
}

/// The source read after `s`, if any.
pub open spec fn next_source(s: Source) -> Option<Source> {
    match s {
        Source::Flags => Some(Source::Keychain),
        Source::Keychain => Some(Source::Environment),
        Source::Environment => Some(Source::File),
        Source::File => None,
    }
}

/// After reading `source`, which gave `found` (usable credentials or none):
/// credentials found end the search; otherwise the next source is read,
/// and after the file there are none.
pub fn resolve_step(source: Source, found: Option<Credentials>) -> (r: ResolveStep)
    ensures
        r == resolve_step_spec(source, found),
{
    match found {
        Some(c) => ResolveStep::Done(Some(c)),
        None => match source {
            Source::Flags => ResolveStep::Read(Source::Keychain),
            Source::Keychain => ResolveStep::Read(Source::Environment),
            Source::Environment => ResolveStep::Read(Source::File),
            Source::File => ResolveStep::Done(None),
        },
    }
}

/// The source that each one found, as the resolver would read it.
pub open spec fn found_in(
    s: Source,
    flags: Option<Credentials>,
    keychain: Option<Credentials>,
    env: Option<Credentials>,
    file: Option<Credentials>,
) -> Option<Credentials> {
    match s {
        Source::Flags => flags,
        Source::Keychain => keychain,
        Source::Environment => env,
        Source::File => file,
    }
}

/// How many sources come after `s`.
pub open spec fn sources_after(s: Source) -> nat {
    match s {
        Source::Flags => 3,
        Source::Keychain => 2,
        Source::Environment => 1,
        Source::File => 0,
    }
}

/// The resolver's answer when it reads from `s` on, each source giving what
/// [`found_in`] says, and steps as [`resolve_step`] does.
pub open spec fn resolve_from(
    s: Source,
    flags: Option<Credentials>,
    keychain: Option<Credentials>,
    env: Option<Credentials>,
    file: Option<Credentials>,
) -> Option<Credentials>
    decreases sources_after(s),
{
    match resolve_step_spec(s, found_in(s, flags, keychain, env, file)) {
        ResolveStep::Done(c) => c,
        ResolveStep::Read(n) => if sources_after(n) < sources_after(s) {
            resolve_from(n, flags, keychain, env, file)
        } else {
            None
        },
    }
}

/// What [`resolve_step`] gives.
pub open spec fn resolve_step_spec(source: Source, found: Option<Credentials>) -> ResolveStep {
    match found {
        Some(c) => ResolveStep::Done(Some(c)),
        None => match next_source(source) {
            Some(n) => ResolveStep::Read(n),
            None => ResolveStep::Done(None),
        },
    }
}

/// Credentials are resolved in priority order: the resolver, started at
/// the flags and stepped with [`resolve_step`], answers with the flags'
/// pair if given, else the keychain's, else the environment's, else the
/// file's, else none.
pub proof fn law_priority_order(
    flags: Option<Credentials>,
    keychain: Option<Credentials>,
    env: Option<Credentials>,
    file: Option<Credentials>,
)
    ensures
        resolve_from(Source::Flags, flags, keychain, env, file) == first_of(
            flags,
            first_of(keychain, first_of(env, file)),
        ),
{
    reveal_with_fuel(resolve_from, 4);
}

/// A tier that fails is skipped: only credentials it found count.
pub fn usable(r: Result<Option<Credentials>, Error>) -> (c: Option<Credentials>)
    ensures
        match r {
            Ok(Some(x)) => c == Some(x),
            _ => c is None,
        },
{
    match r {
        Ok(Some(x)) => Some(x),
        _ => None,
    }
}

/// The lowest six mode bits: the group and others permissions.
pub open spec fn shared_bits(mode: u32) -> int {
    (mode % 64) as int
}

/// `n` in octal, without leading zeros.
pub open spec fn octal(n: nat) -> Seq<char>
    decreases n,
{
    if n < 8 {
        seq![((48 + n) as char)]
    } else {
        octal(n / 8) + seq![((48 + n % 8) as char)]
    }
}

/// `s` padded on the left with `0` to at least `w` characters.
pub open spec fn zero_pad(s: Seq<char>, w: nat) -> Seq<char>
    decreases w,
{
    if s.len() >= w {
        s
    } else {
        zero_pad(s, (w - 1) as nat).push('0')
    }
}

/// `n` in octal, padded with zeros to four digits (`{:04o}`).
pub open spec fn octal4(n: nat) -> Seq<char> {
    Seq::new((if octal(n).len() >= 4 { 0 } else { 4 - octal(n).len() }) as nat, |i: int| '0') + octal(n)
}

fn push_octal(out: &mut String, n: u32)
    ensures
        final(out)@ == old(out)@ + octal(n as nat),
    decreases n,
{
    let ghost start = out@;
    if n >= 8 {
        push_octal(out, n / 8);
    }
    let d: u8 = (n % 8) as u8;
    let c: char = (48u8 + d) as char;
    let ghost mid = out@;
    push_char(out, c);
    proof {
        if n >= 8 {
            assert(octal(n as nat) == octal((n / 8) as nat) + seq![c]);
        } else {
            assert(octal(n as nat) == seq![c]);
        }
        assert(out@ =~= start + octal(n as nat));
    }
}

/// `n` in octal, at least four digits.
pub fn octal_padded(n: u32) -> (s: String)
    ensures
        s@ == octal4(n as nat),
{
    let mut digits = String::new();
    push_octal(&mut digits, n);
    let len = digits.as_str().unicode_len();
    let mut out = String::new();
    let pad: usize = if len >= 4 { 0 } else { 4 - len };
    let mut i: usize = 0;
    while i < pad
        invariant
            i <= pad,
            out@ == Seq::new(i as nat, |k: int| '0'),
        decreases pad - i,
    {
        push_char(&mut out, '0');
        assert(out@ =~= Seq::new((i + 1) as nat, |k: int| '0'));
        i += 1;
    }
    push_str(&mut out, digits.as_str());
    assert(out@ =~= octal4(n as nat));
    out
}

/// The message refusing a credentials file at `path` with mode `mode`.
pub open spec fn too_permissive(path: Seq<char>, mode: u32) -> Seq<char> {
    "credentials file "@ + path + " is too permissive (mode "@ + octal4(mode as nat)
        + "); expected 0600 or stricter. Run: chmod 600 "@ + path
}

/// A credentials file may be read only if neither group nor others have
/// any permission on it (`mode & 0o077 == 0`).
pub fn check_mode(path: &str, mode: u32) -> (r: Result<(), Error>)
    ensures
        shared_bits(mode) == 0 ==> r is Ok,
        shared_bits(mode) != 0 ==> (r matches Err(Error::Config(m)) && m@ == too_permissive(path@, mode)),
{
    let shared = mode & 63u32;
    assert(shared == mode % 64) by (bit_vector)
        requires
            shared == mode & 63u32,
    ;
    if shared != 0 {
        let mut m = owned("credentials file ");
        push_str(&mut m, path);
        push_str(&mut m, " is too permissive (mode ");
        let o = octal_padded(mode);
        push_str(&mut m, o.as_str());
        push_str(&mut m, "); expected 0600 or stricter. Run: chmod 600 ");
        push_str(&mut m, path);
        Err(Error::Config(m))
    } else {
        Ok(())
    }
}

} // verus!
