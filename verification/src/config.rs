//! User configuration (non-secret connection details and sync policy).

use vstd::prelude::*;
use crate::error::Error;
use crate::keypath::path_push;
use crate::text::{chars_of, opt_view, owned, push_char, starts_with, string_of, sub_chars};

verus! {

/// On-disk configuration. Everything here is non-secret.
#[derive(Debug, Clone)]
pub struct Config {
    /// S3 endpoint, e.g. `https://s3.example.com`; for AWS itself it may be
    /// omitted and derived from `region`.
    pub endpoint: Option<String>,
    /// Region, required even for non-AWS providers (SigV4 needs one).
    pub region: String,
    /// Bucket name.
    pub bucket: String,
    /// Optional key prefix inside the bucket (treated as a virtual folder).
    pub prefix: String,
    /// Local mirror root. `~` is expanded.
    pub local_root: String,
    /// Remote poll interval in seconds.
    pub remote_poll_secs: u64,
    /// Full local rescan interval in seconds.
    pub local_rescan_secs: u64,
    /// Lazy download: remote objects appear as stubs; bytes are fetched only
    /// on explicit materialize.
    pub lazy: bool,
}

/// Default remote poll interval: 45 seconds.
pub fn default_remote_poll() -> (r: u64)
    ensures
        r == 45,
{
    45
}

/// Default full local rescan interval: 300 seconds.
pub fn default_local_rescan() -> (r: u64)
    ensures
        r == 300,
{
    300
}

/// Lazy download is on by default for new installs.
pub fn default_lazy() -> (r: bool)
    ensures
        r,
{
    true
}

/// `p` with a leading `~` replaced by `home`: `~` alone becomes `home`, and
/// `~/rest` becomes `home` joined with `rest`. Without a home directory, or
/// without a leading `~`, `p` is unchanged.
pub open spec fn spec_expand_tilde(p: Seq<char>, home: Option<Seq<char>>) -> Seq<char> {
    if starts_with(p, "~/"@) {
        match home {
            Some(h) => path_push(h, p.skip(2)),
            None => p,
        }
    } else if p == "~"@ {
        match home {
            Some(h) => h,
            None => p,
        }
    } else {
        p
    }
}

/// The prefix with a `/` appended unless it is empty or ends in one.
pub open spec fn spec_normal_prefix(prefix: Seq<char>) -> Seq<char> {
    if prefix.len() > 0 && prefix.last() != '/' {
        prefix.push('/')
    } else {
        prefix
    }
}

/// The user's home directory (`dirs::home_dir`), as a string. It depends on
/// the environment: nothing is stated of it.
#[verifier::external_body]
fn home_dir() -> Option<String> {
    dirs::home_dir().map(|h| h.to_string_lossy().into_owned())
}

/// Expand a leading `~` in `p` against the given home directory.
pub fn expand_tilde_with(p: &str, home: Option<String>) -> (r: String)
    ensures
        r@ == spec_expand_tilde(p@, match home {
            Some(h) => Some(h@),
            None => None,
        }),
{
    proof {
        reveal_strlit("~/");
        reveal_strlit("~");
        reveal_strlit("/");
    }
    let v = chars_of(p);
    if v.len() >= 2 && v[0] == '~' && v[1] == '/' {
        assert(v@.take(2) =~= "~/"@);
        match home {
            Some(h) => {
                let rest = sub_chars(v.as_slice(), 2, v.len());
                assert(rest@ =~= p@.skip(2));
                let hv = chars_of(h.as_str());
                if rest.len() > 0 && rest[0] == '/' {
                    string_of(rest.as_slice())
                } else if hv.len() > 0 && hv[hv.len() - 1] != '/' {
                    let mut out = h;
                    push_char(&mut out, '/');
                    let rs = string_of(rest.as_slice());
                    crate::text::push_str(&mut out, rs.as_str());
                    assert(out@ =~= hv@ + "/"@ + rest@);
                    out
                } else {
                    let mut out = h;
                    let rs = string_of(rest.as_slice());
                    crate::text::push_str(&mut out, rs.as_str());
                    out
                }
            },
            None => owned(p),
        }
    } else {
        proof {
            if starts_with(p@, "~/"@) {
                assert(p@.take(2)[0] == '~');
                assert(p@.take(2)[1] == '/');
            }
        }
        if v.len() == 1 && v[0] == '~' {
            assert(p@ =~= "~"@);
            match home {
                Some(h) => h,
                None => owned(p),
            }
        } else {
            proof {
                if p@ == "~"@ {
                    assert(p@[0] == '~');
                }
            }
            owned(p)
        }
    }
}

/// Expand a leading `~` in `p` to the user's home directory.
pub fn expand_tilde(p: &str) -> (r: String)
    ensures
        exists|home: Option<Seq<char>>| r@ == spec_expand_tilde(p@, home),
{
    let home = home_dir();
    let ghost hv = opt_view(home);
    let r = expand_tilde_with(p, home);
    assert(r@ == spec_expand_tilde(p@, hv));
    r
}

impl Config {
    /// Normalise the prefix (a non-empty prefix ends in `/`) and expand `~`
    /// in `local_root` against `home`.
    pub fn expand_with(&mut self, home: Option<String>)
        ensures
            final(self).prefix@ == spec_normal_prefix(old(self).prefix@),
            final(self).local_root@ == spec_expand_tilde(old(self).local_root@, match home {
                Some(h) => Some(h@),
                None => None,
            }),
            final(self).endpoint == old(self).endpoint,
            final(self).region == old(self).region,
            final(self).bucket == old(self).bucket,
            final(self).remote_poll_secs == old(self).remote_poll_secs,
            final(self).local_rescan_secs == old(self).local_rescan_secs,
            final(self).lazy == old(self).lazy,
    {
        self.local_root = expand_tilde_with(self.local_root.as_str(), home);
        let pv = chars_of(self.prefix.as_str());
        if pv.len() > 0 && pv[pv.len() - 1] != '/' {
            push_char(&mut self.prefix, '/');
        }
    }

    /// Expand `~` in `local_root` and normalise the prefix.
    pub fn expand(&mut self) -> (r: Result<(), Error>)
        ensures
            r is Ok,
            final(self).prefix@ == spec_normal_prefix(old(self).prefix@),
            exists|home: Option<Seq<char>>|
                final(self).local_root@ == spec_expand_tilde(old(self).local_root@, home),
            final(self).endpoint == old(self).endpoint,
            final(self).region == old(self).region,
            final(self).bucket == old(self).bucket,
            final(self).remote_poll_secs == old(self).remote_poll_secs,
            final(self).local_rescan_secs == old(self).local_rescan_secs,
            final(self).lazy == old(self).lazy,
    {
        let home = home_dir();
        let ghost hv = opt_view(home);
        self.expand_with(home);
        assert(self.local_root@ == spec_expand_tilde(old(self).local_root@, hv));
        Ok(())
    }
}

} // verus!
