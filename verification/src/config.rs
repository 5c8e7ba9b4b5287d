//! The vast.ai API base and how an override of it is read.
use vstd::prelude::*;
use vstd::string::*;
use crate::text::{chars_of, string_of_range, trim, trim_seq};

verus! {

/// The API base used when no override is set.
pub const VAST_API_BASE_DEFAULT: &'static str = "https://console.vast.ai/api/v0";

/// `s` without any trailing `c`.
pub open spec fn strip_trailing(s: Seq<char>, c: char) -> Seq<char>
    decreases s.len(),
{
    if s.len() > 0 && s.last() == c {
        strip_trailing(s.drop_last(), c)
    } else {
        s
    }
}

/// The API base, given the value of `$VAST_URL` (`None` when unset): the value, trimmed and
/// without trailing slashes, unless it is blank; else the default.
pub open spec fn api_base_spec(env: Option<Seq<char>>) -> Seq<char> {
    match env {
        Some(u) => if trim_seq(u).len() > 0 {
            strip_trailing(trim_seq(u), '/')
        } else {
            VAST_API_BASE_DEFAULT@
        },
        None => VAST_API_BASE_DEFAULT@,
    }
}

/// `strip_trailing(s, c)` followed by some number of `c` is `s`, and does not itself end in `c`.
pub proof fn lemma_strip_trailing(s: Seq<char>, c: char) -> (n: nat)
    ensures
        strip_trailing(s, c) + Seq::new(n, |i: int| c) == s,
        strip_trailing(s, c).len() == 0 || strip_trailing(s, c).last() != c,
    decreases s.len(),
{
    if s.len() > 0 && s.last() == c {
        let m = lemma_strip_trailing(s.drop_last(), c);
        let t = strip_trailing(s.drop_last(), c);
        assert(t + Seq::new(m + 1, |i: int| c) =~= (t + Seq::new(m, |i: int| c)).push(c));
        assert(s.drop_last().push(c) =~= s);
        m + 1
    } else {
        assert(strip_trailing(s, c) + Seq::new(0, |i: int| c) =~= s);
        0
    }
}

/// A blank or missing override uses the public API.
pub proof fn lemma_api_base_default(env: Option<Seq<char>>)
    requires
        env is None || trim_seq(env.unwrap()).len() == 0,
    ensures
        api_base_spec(env) == "https://console.vast.ai/api/v0"@,
{
}

/// A non-blank override is used trimmed, with its trailing slashes (and only those) removed.
pub proof fn lemma_api_base_override(u: Seq<char>) -> (n: nat)
    requires
        trim_seq(u).len() > 0,
    ensures
        api_base_spec(Some(u)) + Seq::new(n, |i: int| '/') == trim_seq(u),
        api_base_spec(Some(u)).len() == 0 || api_base_spec(Some(u)).last() != '/',
{
    lemma_strip_trailing(trim_seq(u), '/')
}

/// The API base, given the value of `$VAST_URL`.
pub fn api_base_from(env: Option<&str>) -> (r: String)
    ensures
        r@ == api_base_spec(match env {
            Some(s) => Some(s@),
            None => None,
        }),
{
    match env {
        Some(u) => {
            let t = trim(u);
            if t.as_str().is_empty() {
                return String::from_str(VAST_API_BASE_DEFAULT);
            }
            let v = chars_of(t.as_str());
            let mut k: usize = v.len();
            assert(v@.subrange(0, k as int) =~= v@);
            while k > 0 && v[k - 1] == '/'
                invariant
                    k <= v.len(),
                    strip_trailing(v@, '/') == strip_trailing(v@.subrange(0, k as int), '/'),
                decreases k,
            {
                assert(v@.subrange(0, k as int).drop_last() =~= v@.subrange(0, k - 1));
                k = k - 1;
            }
            string_of_range(&v, 0, k)
        },
        None => String::from_str(VAST_API_BASE_DEFAULT),
    }
}

} // verus!
