//! The proxy's configuration: the forwarding secret, chosen from what the
//! environment and the secret file hold.

use vstd::prelude::*;

use vstd::string::StringSliceAdditionalSpecFns;
use vstd::utf8::encode_utf8;

verus! {

/// Unicode `White_Space`, the whitespace of `char::is_whitespace`.
pub open spec fn is_white_space(c: char) -> bool {
    let n = c as u32;
    (0x9 <= n <= 0xd) || n == 0x20 || n == 0x85 || n == 0xa0 || n == 0x1680 || (0x2000 <= n
        <= 0x200a) || n == 0x2028 || n == 0x2029 || n == 0x202f || n == 0x205f || n == 0x3000
}

/// `s` without its leading whitespace.
pub open spec fn trim_start(s: Seq<char>) -> Seq<char>
    decreases s.len(),
{
    if s.len() > 0 && is_white_space(s[0]) {
        trim_start(s.drop_first())
    } else {
        s
    }
}

/// `s` without its trailing whitespace.
pub open spec fn trim_end(s: Seq<char>) -> Seq<char>
    decreases s.len(),
{
    if s.len() > 0 && is_white_space(s.last()) {
        trim_end(s.drop_last())
    } else {
        s
    }
}

/// `s` without its leading and trailing whitespace.
pub open spec fn trimmed(s: Seq<char>) -> Seq<char> {
    trim_end(trim_start(s))
}

/// `str::trim`: the string without leading and trailing Unicode whitespace,
/// as its documentation defines it.
#[verifier::external_body]
fn trim(s: &str) -> (r: &str)
    ensures
        r@ == trimmed(s@),
{
    s.trim()
}

/// The forwarding secret that the proxy uses: the value of the environment
/// variable when it is set and not empty; else the contents of the secret
/// file without surrounding whitespace, when the file was read and they are
/// not empty; else no secret at all.
pub open spec fn spec_forwarding_secret(env_value: Option<Seq<char>>, file_contents: Option<
    Seq<char>,
>) -> Seq<u8> {
    match env_value {
        Some(v) if v.len() > 0 => encode_utf8(v),
        _ => match file_contents {
            Some(c) if trimmed(c).len() > 0 => encode_utf8(trimmed(c)),
            _ => Seq::empty(),
        },
    }
}

/// A set, non-empty environment value is the secret, whatever the file
/// holds; otherwise the secret is the file's trimmed contents when they are
/// not empty, and nothing when the file is absent or holds only whitespace.
pub proof fn lemma_env_secret_wins(env_value: Option<Seq<char>>, file_contents: Option<Seq<char>>)
    ensures
        env_value matches Some(v) ==> (v.len() > 0 ==> spec_forwarding_secret(env_value, file_contents)
            == encode_utf8(v)),
        (env_value is None || env_value.unwrap().len() == 0) ==> spec_forwarding_secret(
            env_value,
            file_contents,
        ) == (match file_contents {
            Some(c) => if trimmed(c).len() > 0 {
                encode_utf8(trimmed(c))
            } else {
                Seq::empty()
            },
            None => Seq::<u8>::empty(),
        }),
        spec_forwarding_secret(None, None) == Seq::<u8>::empty(),
{
}

/// The view of an optional string.
pub open spec fn opt_view(s: Option<&str>) -> Option<Seq<char>> {
    match s {
        Some(v) => Some(v@),
        None => None,
    }
}

fn bytes_of(s: &str) -> (out: Vec<u8>)
    ensures
        out@ == encode_utf8(s@),
{
    let bytes = s.as_bytes();
    let mut out = Vec::new();
    let mut i: usize = 0;
    while i < bytes.len()
        invariant
            i <= bytes@.len(),
            bytes@ == s.spec_bytes(),
            out@ == bytes@.take(i as int),
        decreases bytes@.len() - i,
    {
        out.push(bytes[i]);
        i = i + 1;
        assert(out@ =~= bytes@.take(i as int));
    }
    assert(bytes@.take(i as int) =~= bytes@);
    out
}

/// Chooses the forwarding secret from the value of the secret's environment
/// variable and the contents of the secret file (each `None` when absent or
/// unreadable).
pub fn forwarding_secret_from(env_value: Option<&str>, file_contents: Option<&str>) -> (secret: Vec<
    u8,
>)
    ensures
        secret@ == spec_forwarding_secret(opt_view(env_value), opt_view(file_contents)),
        env_value matches Some(v) ==> (v@.len() > 0 ==> secret@ == encode_utf8(v@)),
        (env_value is None || env_value.unwrap()@.len() == 0) ==> secret@ == (match file_contents {
            Some(c) => if trimmed(c@).len() > 0 {
                encode_utf8(trimmed(c@))
            } else {
                Seq::empty()
            },
            None => Seq::<u8>::empty(),
        }),
{
    proof {
        lemma_env_secret_wins(opt_view(env_value), opt_view(file_contents));
    }
    if let Some(val) = env_value {
        if !val.is_empty() {
            return bytes_of(val);
        }
    }
    if let Some(contents) = file_contents {
        let t = trim(contents);
        if !t.is_empty() {
            return bytes_of(t);
        }
    }
    Vec::new()
}

/// The proxy's configuration.
#[derive(Clone)]
pub struct Config {
    pub forwarding_secret: Vec<u8>,
}

impl Config {
    /// The configuration for the given environment value and secret file
    /// contents (see `forwarding_secret_from`).
    pub fn from_sources(env_value: Option<&str>, file_contents: Option<&str>) -> (c: Config)
        ensures
            c.forwarding_secret@ == spec_forwarding_secret(opt_view(env_value), opt_view(file_contents)),
    {
        Config { forwarding_secret: forwarding_secret_from(env_value, file_contents) }
    }
}

} // verus!
