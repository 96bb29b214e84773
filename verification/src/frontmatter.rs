//! Splitting an optional front-matter header block from body content. A
//! header is delimited at the start of the text by the marker line `---`
//! repeated twice; when no complete block is present, the header is empty
//! and the content is the whole text.

use crate::json::{json_is_null, json_null, yaml_parses, yaml_to_value, yaml_value_of};
use crate::strutil::{is_space, is_space_char, trim_chars, trim_front};
use vstd::prelude::*;
use vstd::string::StrSliceExecFns;

verus! {

/// The marker line that delimits a front-matter block.
pub open spec fn marker() -> Seq<char> {
    seq!['-', '-', '-', '\n']
}

/// The marker line occurs in `s` at position `p`.
pub open spec fn marker_at(s: Seq<char>, p: int) -> bool {
    0 <= p && p + 4 <= s.len() && s.subrange(p, p + 4) == marker()
}

/// `s` opens with the marker line.
pub open spec fn has_open(s: Seq<char>) -> bool {
    marker_at(s, 0)
}

/// A closing marker line occurs somewhere after the opening one.
pub open spec fn close_exists(s: Seq<char>) -> bool {
    exists|p: int| p >= 4 && marker_at(s, p)
}

/// The position of the first closing marker line.
pub open spec fn first_close(s: Seq<char>) -> int {
    choose|p: int|
        p >= 4 && marker_at(s, p) && (forall|q: int| 4 <= q < p ==> !marker_at(s, q))
}

/// The header/content split of a text: when a complete front-matter block is
/// delimited at the start, the header is the text between the two marker
/// lines and the content is the text after the closing one, both trimmed of
/// surrounding whitespace; otherwise the header is empty and the content is
/// the text itself.
pub open spec fn front_split(s: Seq<char>) -> (Seq<char>, Seq<char>) {
    if has_open(s) && close_exists(s) {
        let p = first_close(s);
        (trim_chars(s.subrange(4, p)), trim_chars(s.subrange(p + 4, s.len() as int)))
    } else {
        (Seq::<char>::empty(), s)
    }
}

proof fn lemma_least_close(s: Seq<char>, p: int)
    requires
        p >= 4,
        marker_at(s, p),
    ensures
        exists|m: int|
            m >= 4 && marker_at(s, m) && (forall|q: int| 4 <= q < m ==> !marker_at(s, q)),
    decreases p,
{
    if exists|q: int| 4 <= q < p && marker_at(s, q) {
        let q = choose|q: int| 4 <= q < p && marker_at(s, q);
        lemma_least_close(s, q);
    } else {
        assert(p >= 4 && marker_at(s, p) && (forall|q: int| 4 <= q < p ==> !marker_at(s, q)));
    }
}

/// The first closing marker is unique: a position that carries a marker with
/// none before it is `first_close`.
proof fn lemma_first_close_is(s: Seq<char>, p: int)
    requires
        p >= 4,
        marker_at(s, p),
        forall|q: int| 4 <= q < p ==> !marker_at(s, q),
    ensures
        close_exists(s),
        first_close(s) == p,
{
    lemma_least_close(s, p);
    let m = first_close(s);
    assert(m >= 4 && marker_at(s, m) && (forall|q: int| 4 <= q < m ==> !marker_at(s, q)));
    if m < p {
        assert(!marker_at(s, m));
    } else if p < m {
        assert(!marker_at(s, p));
    }
}

/// Whether the marker line occurs at character position `p` of `text`.
fn marker_check(text: &str, p: usize) -> (r: bool)
    requires
        p + 4 <= text@.len(),
        text@.len() <= usize::MAX,
    ensures
        r == marker_at(text@, p as int),
{
    let r = text.get_char(p) == '-' && text.get_char(p + 1) == '-' && text.get_char(p + 2) == '-'
        && text.get_char(p + 3) == '\n';
    proof {
        if r {
            assert(text@.subrange(p as int, p + 4) =~= marker());
        } else {
            if text@.subrange(p as int, p + 4) == marker() {
                assert(text@[p as int] == marker()[0]);
                assert(text@[p + 1] == marker()[1]);
                assert(text@[p + 2] == marker()[2]);
                assert(text@[p + 3] == marker()[3]);
            }
        }
    }
    r
}

/// Trims surrounding whitespace from `s`.
fn trim_str(s: &str) -> (r: String)
    ensures
        r@ == trim_chars(s@),
{
    let n = s.unicode_len();
    let mut a: usize = 0;
    while a < n && is_space_char(s.get_char(a))
        invariant
            n == s@.len(),
            0 <= a <= n,
            forall|i: int| 0 <= i < a ==> is_space(s@[i]),
        decreases n - a,
    {
        a = a + 1;
    }
    proof {
        crate::strutil::lemma_trim_front(s@, a as int);
    }
    if a == n {
        proof {
            assert(trim_front(s@) =~= Seq::<char>::empty());
            assert(trim_chars(s@) =~= Seq::<char>::empty());
        }
        return String::new();
    }
    let mut b: usize = n;
    while b > a && is_space_char(s.get_char(b - 1))
        invariant
            n == s@.len(),
            a <= b <= n,
            !is_space(s@[a as int]),
            forall|i: int| b <= i < n ==> is_space(s@[i]),
        decreases b,
    {
        b = b - 1;
    }
    proof {
        assert(b > a);
        let t = s@.subrange(a as int, n as int);
        assert(trim_front(s@) == t);
        assert(forall|i: int| b - a <= i < t.len() ==> is_space(#[trigger] t[i]));
        assert(!is_space(t[b - a - 1]));
        crate::strutil::lemma_trim_back(t, b - a as int);
        assert(t.subrange(0, b - a as int) =~= s@.subrange(a as int, b as int));
    }
    let out = s.substring_char(a, b);
    out.to_owned()
}

/// Splits an optional front-matter header from body content, returning both
/// as independent values; the header is the empty string when no complete
/// front-matter block is delimited at the start of the text.
pub fn lexer(text: &str) -> (r: (String, String))
    ensures
        r.0@ == front_split(text@).0,
        r.1@ == front_split(text@).1,
{
    let n = text.unicode_len();
    if n < 4 || !marker_check(text, 0) {
        return (String::new(), text.to_owned());
    }
    let mut p: usize = 4;
    while p <= n - 4
        invariant
            n == text@.len(),
            4 <= n,
            4 <= p,
            has_open(text@),
            forall|q: int| 4 <= q < p ==> !marker_at(text@, q),
        decreases n - p,
    {
        if marker_check(text, p) {
            proof {
                lemma_first_close_is(text@, p as int);
            }
            let header = text.substring_char(4, p);
            let body = text.substring_char(p + 4, n);
            return (trim_str(header), trim_str(body));
        }
        p = p + 1;
    }
    proof {
        assert(!close_exists(text@)) by {
            if close_exists(text@) {
                let q = choose|q: int| q >= 4 && marker_at(text@, q);
                assert(q + 4 <= n);
                assert(q < p);
                assert(!marker_at(text@, q));
            }
        }
    }
    (String::new(), text.to_owned())
}

/// Decodes a front-matter header into structured data: an empty header
/// decodes to the null value, and any other header is parsed as YAML,
/// returning nothing when the header is malformed.
pub fn to_json(matter: &str) -> (r: Option<serde_json::Value>)
    ensures
        matter@.len() == 0 ==> (r matches Some(v) && json_is_null(v)),
        matter@.len() > 0 ==> (r is Some <==> yaml_parses(matter@)),
        matter@.len() > 0 ==> (r matches Some(v) ==> v == yaml_value_of(matter@)),
{
    if matter.unicode_len() == 0 {
        return Some(json_null());
    }
    match yaml_to_value(matter) {
        Ok(v) => Some(v),
        Err(_) => None,
    }
}

} // verus!
