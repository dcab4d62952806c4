//! URL path segments for vault and note names.

use vstd::prelude::*;
use crate::text::{map_chars, lemma_map_chars_push, chars_of, push_char};

verus! {

/// The askama error type, carried by the filter's result.
#[verifier::external_type_specification]
#[verifier::external_body]
pub struct ExAskamaError(askama::Error);

/// How one character of a name is written in a URL path segment.
pub open spec fn pathify_char(c: char) -> Seq<char> {
    if c == ' ' {
        seq!['_']
    } else if c == '/' {
        seq!['%', '2', 'F']
    } else {
        seq![c]
    }
}

pub open spec fn pathify_map() -> spec_fn(char) -> Seq<char> {
    |c: char| pathify_char(c)
}

/// A name written as a URL path segment: spaces become `_`, slashes `%2F`.
pub open spec fn pathified(s: Seq<char>) -> Seq<char> {
    map_chars(s, pathify_map())
}

/// How one character of a URL path segment is read back into a name.
pub open spec fn unpath_char(c: char) -> Seq<char> {
    if c == '_' {
        seq![' ']
    } else {
        seq![c]
    }
}

pub open spec fn unpath_map() -> spec_fn(char) -> Seq<char> {
    |c: char| unpath_char(c)
}

/// A URL path segment read back as a name: every `_` becomes a space.
pub open spec fn name_of_segment(s: Seq<char>) -> Seq<char> {
    map_chars(s, unpath_map())
}

/// How one character is written in HTML text.
pub open spec fn html_text_char(c: char) -> Seq<char> {
    if c == '&' {
        seq!['&', 'a', 'm', 'p', ';']
    } else if c == '<' {
        seq!['&', 'l', 't', ';']
    } else if c == '>' {
        seq!['&', 'g', 't', ';']
    } else {
        seq![c]
    }
}

pub open spec fn html_text_map() -> spec_fn(char) -> Seq<char> {
    |c: char| html_text_char(c)
}

/// Text escaped for use between HTML tags: `&`, `<` and `>` become entities.
pub open spec fn html_text(s: Seq<char>) -> Seq<char> {
    map_chars(s, html_text_map())
}

/// `html_escape::encode_text`, taken as an owned `String`.
/// Claimed, as its source shows: every `&`, `<` and `>` is replaced by
/// `&amp;`, `&lt;` and `&gt;`, and every other character is kept.
#[verifier::external_body]
pub(crate) fn encode_html_text(s: &str) -> (r: String)
    ensures
        r@ == html_text(s@),
{
    html_escape::encode_text(s).into_owned()
}

/// The path segment for a name (as `pathify`, without the filter's result).
pub fn pathify_str(s: &str) -> (r: String)
    ensures
        r@ == pathified(s@),
{
    let cs = chars_of(s);
    let mut r = String::new();
    let mut i: usize = 0;
    while i < cs.len()
        invariant
            i <= cs.len(),
            cs@ == s@,
            r@ == pathified(cs@.take(i as int)),
        decreases cs.len() - i,
    {
        let c = cs[i];
        proof {
            assert(cs@.take(i + 1) =~= cs@.take(i as int).push(c));
            lemma_map_chars_push(cs@.take(i as int), c, pathify_map());
        }
        if c == ' ' {
            push_char(&mut r, '_');
        } else if c == '/' {
            push_char(&mut r, '%');
            push_char(&mut r, '2');
            push_char(&mut r, 'F');
        } else {
            push_char(&mut r, c);
        }
        assert(r@ =~= pathified(cs@.take(i + 1)));
        i = i + 1;
    }
    assert(cs@.take(i as int) =~= cs@);
    r
}

/// Template filter: writes a vault or note name as a URL path segment,
/// replacing each space with `_` and each `/` with `%2F`. Never fails.
pub fn pathify(s: &str) -> (r: askama::Result<String>)
    ensures
        r matches Ok(p) && p@ == pathified(s@),
{
    Ok(pathify_str(s))
}

/// The name that a URL path segment names: every `_` read as a space.
pub fn name_from_segment(seg: &str) -> (r: String)
    ensures
        r@ == name_of_segment(seg@),
{
    let cs = chars_of(seg);
    let mut r = String::new();
    let mut i: usize = 0;
    while i < cs.len()
        invariant
            i <= cs.len(),
            cs@ == seg@,
            r@ == name_of_segment(cs@.take(i as int)),
        decreases cs.len() - i,
    {
        let c = cs[i];
        proof {
            assert(cs@.take(i + 1) =~= cs@.take(i as int).push(c));
            lemma_map_chars_push(cs@.take(i as int), c, unpath_map());
        }
        if c == '_' {
            push_char(&mut r, ' ');
        } else {
            push_char(&mut r, c);
        }
        assert(r@ =~= name_of_segment(cs@.take(i + 1)));
        i = i + 1;
    }
    assert(cs@.take(i as int) =~= cs@);
    r
}

/// A name without `_` and `/` is read back from its path segment unchanged:
/// the route that a generated link points to names the same vault or note.
pub proof fn lemma_segment_round_trip(s: Seq<char>)
    requires
        !s.contains('_'),
        !s.contains('/'),
    ensures
        name_of_segment(pathified(s)) == s,
    decreases s.len(),
{
    if s.len() > 0 {
        let p = s.drop_last();
        let c = s.last();
        assert(!p.contains('_') && !p.contains('/')) by {
            if p.contains('_') {
                let k = choose|k: int| 0 <= k < p.len() && p[k] == '_';
                assert(s[k] == '_');
            }
            if p.contains('/') {
                let k = choose|k: int| 0 <= k < p.len() && p[k] == '/';
                assert(s[k] == '/');
            }
        }
        lemma_segment_round_trip(p);
        assert(s[s.len() - 1] == c);
        assert(c != '_' && c != '/');
        crate::text::lemma_map_chars_concat(pathified(p), pathify_char(c), unpath_map());
        assert(pathify_char(c) =~= seq![if c == ' ' { '_' } else { c }]);
        assert(map_chars(pathify_char(c), unpath_map()) =~= seq![c]) by {
            let d = if c == ' ' { '_' } else { c };
            lemma_map_chars_push(Seq::empty(), d, unpath_map());
            assert(Seq::<char>::empty().push(d) =~= seq![d]);
        }
        assert(p.push(c) =~= s);
        assert(name_of_segment(pathified(s)) =~= s);
    }
}

/// A path segment holds no spaces.
pub proof fn lemma_pathified_has_no_space(s: Seq<char>)
    ensures
        !pathified(s).contains(' '),
    decreases s.len(),
{
    if s.len() > 0 {
        lemma_pathified_has_no_space(s.drop_last());
        let a = pathified(s.drop_last());
        let b = pathify_char(s.last());
        assert(pathified(s) == a + b);
        if (a + b).contains(' ') {
            let k = choose|k: int| 0 <= k < (a + b).len() && (a + b)[k] == ' ';
            if k < a.len() {
                assert(a[k] == ' ');
            }
        }
    }
}

} // verus!
