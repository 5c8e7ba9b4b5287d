//! API-key handling: where the key comes from (first source that holds one wins), how it is
//! read from text, and how it is masked for display.
use vstd::prelude::*;
use vstd::string::*;
use crate::text::{
    chars_of, decimal, decimal_seq, push_char, trim, trim_seq,
};

verus! {

/// The exact command that mints the least-privilege key the tool needs.
pub const MINT_CMD: &'static str =
    "vastai create api-key --name vastline --permissions '{\"api\": {\"instance_read\": {}, \"user_read\": {}}}'";

/// Where a key was found, in order of precedence.
#[derive(Clone, Copy, PartialEq, Eq, Debug, Structural)]
pub enum Source {
    Env,
    VastlineFile,
    VastaiFile,
}

/// The human-readable name of a key source.
pub open spec fn describe_spec(s: Source) -> Seq<char> {
    match s {
        Source::Env => "$VAST_API_KEY (environment)"@,
        Source::VastlineFile => "~/.config/vastline/vast_api_key"@,
        Source::VastaiFile => "~/.config/vastai/vast_api_key (vast CLI)"@,
    }
}

impl Source {
    /// The human-readable name of this source.
    pub fn describe(self) -> (r: &'static str)
        ensures
            r@ == describe_spec(self),
    {
        match self {
            Source::Env => "$VAST_API_KEY (environment)",
            Source::VastlineFile => "~/.config/vastline/vast_api_key",
            Source::VastaiFile => "~/.config/vastai/vast_api_key (vast CLI)",
        }
    }
}

/// A key together with the source it came from.
#[derive(Debug)]
pub struct Resolved {
    pub key: String,
    pub source: Source,
}

/// The key held by a text (a file's content, an environment value, an argument): the text
/// without surrounding white space, or nothing when that is empty.
pub open spec fn key_text_spec(raw: Seq<char>) -> Option<Seq<char>> {
    if trim_seq(raw).len() == 0 {
        None
    } else {
        Some(trim_seq(raw))
    }
}

/// The key held by `raw`, trimmed; `None` when only white space remains.
pub fn key_from_text(raw: &str) -> (r: Option<String>)
    ensures
        match r {
            Some(k) => key_text_spec(raw@) == Some(k@),
            None => key_text_spec(raw@) is None,
        },
{
    let t = trim(raw);
    if t.as_str().is_empty() {
        None
    } else {
        Some(t)
    }
}

/// The key in use and its source, given what each source holds, in order of precedence:
/// the environment value, vastline's key file, then the vast CLI's key file.
pub open spec fn resolve_spec(
    env: Option<Seq<char>>,
    vastline_file: Option<Seq<char>>,
    vastai_file: Option<Seq<char>>,
) -> Option<(Seq<char>, Source)> {
    let from = |t: Option<Seq<char>>|
        match t {
            Some(raw) => key_text_spec(raw),
            None => None,
        };
    if from(env) is Some {
        Some((from(env).unwrap(), Source::Env))
    } else if from(vastline_file) is Some {
        Some((from(vastline_file).unwrap(), Source::VastlineFile))
    } else if from(vastai_file) is Some {
        Some((from(vastai_file).unwrap(), Source::VastaiFile))
    } else {
        None
    }
}

/// The view of an optional text.
pub open spec fn opt_view(t: Option<&str>) -> Option<Seq<char>> {
    match t {
        Some(s) => Some(s@),
        None => None,
    }
}

fn key_from_opt(t: Option<&str>) -> (r: Option<String>)
    ensures
        match r {
            Some(k) => opt_view(t) is Some && key_text_spec(opt_view(t).unwrap()) == Some(k@),
            None => opt_view(t) is None || key_text_spec(opt_view(t).unwrap()) is None,
        },
{
    match t {
        Some(s) => key_from_text(s),
        None => None,
    }
}

/// Resolve the key from the first source that holds one: the value of `$VAST_API_KEY`, the
/// content of vastline's key file, the content of the vast CLI's key file (`None` for a source
/// that is unset or unreadable).
pub fn resolve_from(env: Option<&str>, vastline_file: Option<&str>, vastai_file: Option<&str>) -> (r:
    Option<Resolved>)
    ensures
        match r {
            Some(res) => resolve_spec(opt_view(env), opt_view(vastline_file), opt_view(vastai_file))
                == Some((res.key@, res.source)),
            None => resolve_spec(opt_view(env), opt_view(vastline_file), opt_view(vastai_file)) is None,
        },
{
    if let Some(k) = key_from_opt(env) {
        return Some(Resolved { key: k, source: Source::Env });
    }
    if let Some(k) = key_from_opt(vastline_file) {
        return Some(Resolved { key: k, source: Source::VastlineFile });
    }
    if let Some(k) = key_from_opt(vastai_file) {
        return Some(Resolved { key: k, source: Source::VastaiFile });
    }
    None
}

/// A non-blank `$VAST_API_KEY` wins over both key files.
pub proof fn lemma_env_wins(env: Seq<char>, vastline_file: Option<Seq<char>>, vastai_file: Option<Seq<char>>)
    requires
        trim_seq(env).len() > 0,
    ensures
        resolve_spec(Some(env), vastline_file, vastai_file) == Some((trim_seq(env), Source::Env)),
{
}

/// Without a usable environment value, a non-blank vastline key file wins over the vast CLI's.
pub proof fn lemma_vastline_file_wins(env: Option<Seq<char>>, vastline_file: Seq<char>, vastai_file: Option<Seq<char>>)
    requires
        env is None || trim_seq(env.unwrap()).len() == 0,
        trim_seq(vastline_file).len() > 0,
    ensures
        resolve_spec(env, Some(vastline_file), vastai_file) == Some(
            (trim_seq(vastline_file), Source::VastlineFile),
        ),
{
}

/// When neither the environment value nor vastline's key file holds a key (unset, unreadable or
/// blank), a non-blank vast CLI key file is used, trimmed, whether or not vastline's key file
/// exists.
pub proof fn lemma_vast_cli_key_reused(
    env: Option<Seq<char>>,
    vastline_file: Option<Seq<char>>,
    vastai_file: Seq<char>,
)
    requires
        env is None || trim_seq(env.unwrap()).len() == 0,
        vastline_file is None || trim_seq(vastline_file.unwrap()).len() == 0,
        trim_seq(vastai_file).len() > 0,
    ensures
        resolve_spec(env, vastline_file, Some(vastai_file)) == Some(
            (trim_seq(vastai_file), Source::VastaiFile),
        ),
{
}

/// With no source holding a key, there is none to use.
pub proof fn lemma_no_key_anywhere(
    env: Option<Seq<char>>,
    vastline_file: Option<Seq<char>>,
    vastai_file: Option<Seq<char>>,
)
    requires
        env is None || trim_seq(env.unwrap()).len() == 0,
        vastline_file is None || trim_seq(vastline_file.unwrap()).len() == 0,
        vastai_file is None || trim_seq(vastai_file.unwrap()).len() == 0,
    ensures
        resolve_spec(env, vastline_file, vastai_file) is None,
{
}

/// Whatever key is used, it is the trimmed, non-blank content of the source reported.
pub proof fn lemma_resolved_key_comes_from_its_source(
    env: Option<Seq<char>>,
    vastline_file: Option<Seq<char>>,
    vastai_file: Option<Seq<char>>,
)
    ensures
        resolve_spec(env, vastline_file, vastai_file) matches Some((k, src)) ==> {
            let raw = match src {
                Source::Env => env,
                Source::VastlineFile => vastline_file,
                Source::VastaiFile => vastai_file,
            };
            &&& raw is Some
            &&& k == trim_seq(raw.unwrap())
            &&& k.len() > 0
        },
{
}

/// A key masked for display: up to 12 characters it is all stars, one per character; longer,
/// its first six characters, `…(`, its length in characters and ` chars)`.
pub open spec fn mask_spec(key: Seq<char>) -> Seq<char> {
    if key.len() <= 12 {
        Seq::new(key.len(), |i: int| '*')
    } else {
        key.take(6) + "…("@ + decimal_seq(key.len()) + " chars)"@
    }
}

/// Mask a key for display.
pub fn mask(key: &str) -> (r: String)
    ensures
        r@ == mask_spec(key@),
{
    let v = chars_of(key);
    let n = v.len();
    let mut r = String::new();
    if n <= 12 {
        let mut i: usize = 0;
        while i < n
            invariant
                i <= n,
                r@ == Seq::new(i as nat, |j: int| '*'),
            decreases n - i,
        {
            push_char(&mut r, '*');
            i = i + 1;
            assert(r@ =~= Seq::new(i as nat, |j: int| '*'));
        }
        assert(r@ =~= mask_spec(key@));
        r
    } else {
        let mut i: usize = 0;
        while i < 6
            invariant
                i <= 6 < n == v@.len(),
                v@ == key@,
                r@ == key@.take(i as int),
            decreases 6 - i,
        {
            push_char(&mut r, v[i]);
            i = i + 1;
            assert(r@ =~= key@.take(i as int));
        }
        r.append("…(");
        let len_text = decimal(n as u64);
        r.append(len_text.as_str());
        r.append(" chars)");
        r
    }
}

/// A key of at most 12 characters shows as exactly as many stars and nothing else.
pub proof fn lemma_mask_short_key(key: Seq<char>)
    requires
        key.len() <= 12,
    ensures
        mask_spec(key).len() == key.len(),
        forall|i: int| 0 <= i < key.len() ==> mask_spec(key)[i] == '*',
{
}

/// A longer key shows its first six characters, then `…(`, its length in characters and
/// ` chars)`.
pub proof fn lemma_mask_long_key(key: Seq<char>)
    requires
        key.len() > 12,
    ensures
        mask_spec(key).take(6) == key.take(6),
        mask_spec(key).skip(6) == "…("@ + decimal_seq(key.len()) + " chars)"@,
{
    let m = key.take(6) + "…("@ + decimal_seq(key.len()) + " chars)"@;
    assert(m.take(6) =~= key.take(6));
    assert(m.skip(6) =~= "…("@ + decimal_seq(key.len()) + " chars)"@);
}

/// What a masked key shows depends only on the key's length and, for keys longer than 12
/// characters, on its first six characters: nothing past the sixth character ever shows.
pub proof fn lemma_mask_hides_rest(k1: Seq<char>, k2: Seq<char>)
    requires
        k1.len() == k2.len(),
        k1.len() <= 12 || k1.take(6) == k2.take(6),
    ensures
        mask_spec(k1) == mask_spec(k2),
{
    if k1.len() <= 12 {
        assert(mask_spec(k1) =~= mask_spec(k2));
    }
}

} // verus!
