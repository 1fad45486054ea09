//! Command-line flags of the daemon.

use vstd::prelude::*;
use crate::keyed::views;
use crate::text::{chars_of, owned, starts_with, str_eq, str_starts_with, string_of, sub_chars};

verus! {

/// The value given for `flag` in `args`: the argument after the first
/// `flag` (none when `flag` is last), or the rest of the first `flag=...`,
/// whichever comes first.
pub open spec fn spec_arg_value(args: Seq<Seq<char>>, flag: Seq<char>) -> Option<Seq<char>>
    decreases args.len(),
{
    if args.len() == 0 {
        None
    } else if args[0] == flag {
        if args.len() > 1 {
            Some(args[1])
        } else {
            None
        }
    } else if starts_with(args[0], flag + "="@) {
        Some(args[0].skip(flag.len() + 1int))
    } else {
        spec_arg_value(args.drop_first(), flag)
    }
}

/// The value given for `flag` in `args` (see [`spec_arg_value`]).
pub fn arg_value(args: &Vec<String>, flag: &str) -> (r: Option<String>)
    ensures
        match r {
            Some(v) => spec_arg_value(views(args@), flag@) == Some(v@),
            None => spec_arg_value(views(args@), flag@) is None,
        },
{
    let ghost all = views(args@);
    let mut with_eq = owned(flag);
    crate::text::push_char(&mut with_eq, '=');
    let pv = chars_of(with_eq.as_str());
    proof {
        reveal_strlit("=");
        assert(pv@ =~= flag@ + "="@);
    }
    let mut i: usize = 0;
    assert(all.skip(0) =~= all);
    while i < args.len()
        invariant
            i <= args@.len(),
            all == views(args@),
            pv@ == flag@ + "="@,
            pv@.len() == flag@.len() + 1,
            spec_arg_value(all, flag@) == spec_arg_value(all.skip(i as int), flag@),
        decreases args@.len() - i,
    {
        let a = &args[i];
        assert(all.skip(i as int)[0] == a@);
        if str_eq(a.as_str(), flag) {
            if i + 1 < args.len() {
                assert(all.skip(i as int)[1] == args@[i + 1]@);
                return Some(args[i + 1].clone());
            } else {
                return None;
            }
        }
        let av = chars_of(a.as_str());
        if str_starts_with(av.as_slice(), pv.as_slice()) {
            let rest = sub_chars(av.as_slice(), pv.len(), av.len());
            assert(rest@ =~= a@.skip(flag@.len() + 1int));
            return Some(string_of(rest.as_slice()));
        }
        assert(all.skip(i as int).drop_first() =~= all.skip(i + 1));
        i += 1;
    }
    None
}

} // verus!
