//! Text helpers: joining paths, and reading the output of a process.
use vstd::prelude::*;
use vstd::utf8::{decode_utf8, valid_utf8};

verus! {

/// `a`, then `b`.
pub fn concat(a: &str, b: &str) -> (r: String)
    ensures
        r@ == a@ + b@,
{
    let mut s = a.to_string();
    s.append(b);
    s
}

/// The path `rel` below `root`, with a `/` between the two.
pub open spec fn joined(root: Seq<char>, rel: Seq<char>) -> Seq<char> {
    root + seq!['/'] + rel
}

pub fn join_path(root: &str, rel: &str) -> (r: String)
    ensures
        r@ == joined(root@, rel@),
{
    let mut s = root.to_string();
    s.append("/");
    proof {
        reveal_strlit("/");
    }
    s.append(rel);
    s
}

/// `t` is `s` with each `/` written as the host's path separator, `/` or
/// `\`, the same one throughout; every other character is kept.
pub open spec fn is_host_form(t: Seq<char>, s: Seq<char>) -> bool {
    &&& t.len() == s.len()
    &&& forall|i: int| 0 <= i < s.len() && s[i] != '/' ==> #[trigger] t[i] == s[i]
    &&& forall|i: int| 0 <= i < s.len() && s[i] == '/' ==> (#[trigger] t[i] == '/' || t[i] == '\\')
    &&& forall|i: int, j: int|
        0 <= i < s.len() && 0 <= j < s.len() && s[i] == '/' && s[j] == '/' ==> #[trigger] t[i]
            == #[trigger] t[j]
}

/// Relies on `str::replace` with `std::path::MAIN_SEPARATOR_STR`, which is
/// `/` or `\`: each `/` is replaced by that one-character string.
#[verifier::external_body]
pub(crate) fn to_host_separators(s: &str) -> (r: String)
    ensures
        is_host_form(r@, s@),
{
    s.replace('/', std::path::MAIN_SEPARATOR_STR)
}

/// The characters that Unicode calls White_Space.
pub open spec fn is_white_space(c: char) -> bool {
    ||| c == '\t'
    ||| c == '\n'
    ||| c == '\x0B'
    ||| c == '\x0C'
    ||| c == '\r'
    ||| c == ' '
    ||| c == '\u{85}'
    ||| c == '\u{A0}'
    ||| c == '\u{1680}'
    ||| ('\u{2000}' <= c && c <= '\u{200A}')
    ||| c == '\u{2028}'
    ||| c == '\u{2029}'
    ||| c == '\u{202F}'
    ||| c == '\u{205F}'
    ||| c == '\u{3000}'
}

/// `t` is `s` without its leading and trailing white space.
pub open spec fn is_trim_of(t: Seq<char>, s: Seq<char>) -> bool {
    exists|a: int, b: int|
        {
            &&& 0 <= a <= b <= s.len()
            &&& t == s.subrange(a, b)
            &&& forall|k: int| 0 <= k < a ==> is_white_space(#[trigger] s[k])
            &&& forall|k: int| b <= k < s.len() ==> is_white_space(#[trigger] s[k])
            &&& a < b ==> !is_white_space(s[a]) && !is_white_space(s[b - 1])
        }
}

/// Relies on `str::trim`: removes leading and trailing White_Space.
#[verifier::external_body]
pub(crate) fn trim(s: &str) -> (r: String)
    ensures
        is_trim_of(r@, s@),
{
    s.trim().to_string()
}

/// What `String::from_utf8_lossy` makes of bytes: the text they encode when
/// they are UTF-8, otherwise that text with U+FFFD for each invalid run.
pub uninterp spec fn lossy_text(b: Seq<u8>) -> Seq<char>;

/// Relies on `String::from_utf8_lossy`: valid UTF-8 is decoded as it is.
#[verifier::external_body]
pub(crate) fn decode_lossy(b: &[u8]) -> (r: String)
    ensures
        r@ == lossy_text(b@),
        valid_utf8(b@) ==> r@ == decode_utf8(b@),
{
    String::from_utf8_lossy(b).into_owned()
}

/// Relies on `std::str::from_utf8`: succeeds exactly on valid UTF-8.
#[verifier::external_body]
pub(crate) fn decode_strict(b: &[u8]) -> (r: Option<String>)
    ensures
        r is Some <==> valid_utf8(b@),
        r is Some ==> r->0@ == decode_utf8(b@),
{
    match std::str::from_utf8(b) {
        Ok(s) => Some(s.to_string()),
        Err(_) => None,
    }
}

} // verus!
