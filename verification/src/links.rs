//! Wiki links `[[target]]` and `[[target|label]]` rewritten as Markdown links
//! into the vault's note routes.

use vstd::prelude::*;
use crate::text::{chars_of, slice_chars, append_chars, push_char};
use crate::paths::{pathified, html_text, pathify_str, encode_html_text};

verus! {

broadcast use vstd::string::group_string_axioms;

/// The first index at or after `i` that holds `]`, or the length of `s`.
pub open spec fn run_end(s: Seq<char>, i: int) -> int
    decreases s.len() - i,
{
    if i < 0 || i >= s.len() || s[i] == ']' {
        i
    } else {
        run_end(s, i + 1)
    }
}

/// The first index at or after `i` that holds `|`, or the length of `s`.
pub open spec fn first_bar(s: Seq<char>, i: int) -> int
    decreases s.len() - i,
{
    if i < 0 || i >= s.len() {
        s.len() as int
    } else if s[i] == '|' {
        i
    } else {
        first_bar(s, i + 1)
    }
}

/// A wiki link starts at `i`: `[[`, a non-empty run of characters other
/// than `]`, then `]]`.
pub open spec fn link_at(s: Seq<char>, i: int) -> bool {
    &&& 0 <= i
    &&& i + 2 <= s.len()
    &&& s[i] == '['
    &&& s[i + 1] == '['
    &&& run_end(s, i + 2) > i + 2
    &&& run_end(s, i + 2) + 2 <= s.len()
    &&& s[run_end(s, i + 2) + 1] == ']'
}

/// The inside of the wiki link that starts at `i`.
pub open spec fn link_body(s: Seq<char>, i: int) -> Seq<char> {
    s.subrange(i + 2, run_end(s, i + 2))
}

/// The link has a label: a `|` after the first character of its inside and
/// before its last.
pub open spec fn has_label(c: Seq<char>) -> bool {
    first_bar(c, 1) < c.len() - 1
}

/// The note that a wiki link with inside `c` names.
pub open spec fn link_target(c: Seq<char>) -> Seq<char> {
    if has_label(c) {
        c.take(first_bar(c, 1))
    } else {
        c
    }
}

/// `t` without its first `|`.
pub open spec fn drop_first_bar(t: Seq<char>) -> Seq<char> {
    if first_bar(t, 0) < t.len() {
        t.take(first_bar(t, 0)) + t.skip(first_bar(t, 0) + 1)
    } else {
        t
    }
}

/// The text shown for a wiki link with inside `c`.
pub open spec fn link_label(c: Seq<char>) -> Seq<char> {
    if has_label(c) {
        c.skip(first_bar(c, 1) + 1)
    } else {
        drop_first_bar(c)
    }
}

/// The URL path of a note in a vault, escaped for HTML.
pub open spec fn note_url(vault: Seq<char>, note: Seq<char>) -> Seq<char> {
    "/vault/"@ + html_text(pathified(vault)) + "/note/"@ + html_text(pathified(note))
}

/// A Markdown link labelled `label` to the note `note` of `vault`.
pub open spec fn note_link(label: Seq<char>, vault: Seq<char>, note: Seq<char>) -> Seq<char> {
    "["@ + label + "]("@ + note_url(vault, note) + ")"@
}

/// What the wiki link with inside `c` becomes.
pub open spec fn rewritten_link(c: Seq<char>, vault: Seq<char>) -> Seq<char> {
    note_link(link_label(c), vault, link_target(c))
}

/// The text from index `i` on with every wiki link rewritten, scanning from
/// the left and resuming after each link.
pub open spec fn links_from(s: Seq<char>, vault: Seq<char>, i: int) -> Seq<char>
    decreases s.len() - i,
{
    if i < 0 || i >= s.len() {
        Seq::empty()
    } else if link_at(s, i) {
        rewritten_link(link_body(s, i), vault) + links_from(s, vault, run_end(s, i + 2) + 2)
    } else {
        seq![s[i]] + links_from(s, vault, i + 1)
    }
}

/// The text with every wiki link rewritten.
pub open spec fn converted_links(s: Seq<char>, vault: Seq<char>) -> Seq<char> {
    links_from(s, vault, 0)
}

fn find_run_end(cs: &Vec<char>, i: usize) -> (j: usize)
    requires
        i <= cs.len(),
    ensures
        j == run_end(cs@, i as int),
        i <= j <= cs.len(),
{
    let mut j = i;
    while j < cs.len() && cs[j] != ']'
        invariant
            i <= j <= cs.len(),
            run_end(cs@, j as int) == run_end(cs@, i as int),
        decreases cs.len() - j,
    {
        j = j + 1;
    }
    j
}

fn find_bar(cs: &Vec<char>, i: usize) -> (j: usize)
    requires
        i <= cs.len(),
    ensures
        j == first_bar(cs@, i as int),
        i <= j <= cs.len(),
{
    let mut j = i;
    while j < cs.len() && cs[j] != '|'
        invariant
            i <= j <= cs.len(),
            first_bar(cs@, j as int) == first_bar(cs@, i as int),
        decreases cs.len() - j,
    {
        j = j + 1;
    }
    j
}

/// The Markdown link for a wiki link with inside `c`; `vault_part` is the
/// vault's name as an escaped path segment.
fn rewritten_link_exec(c: &Vec<char>, vault_part: &String, Ghost(vault): Ghost<Seq<char>>) -> (r:
    String)
    requires
        vault_part@ == html_text(pathified(vault)),
    ensures
        r@ == rewritten_link(c@, vault),
{
    let n = c.len();
    let mut label_at_bar = false;
    let mut k: usize = 0;
    if n >= 1 {
        k = find_bar(c, 1);
        label_at_bar = k < n - 1;
    }
    proof {
        if n >= 1 {
            assert(label_at_bar == has_label(c@));
        } else {
            assert(first_bar(c@, 1) == 0);
            assert(!has_label(c@));
        }
    }
    let label: Vec<char>;
    let target: Vec<char>;
    if label_at_bar {
        label = slice_chars(c, k + 1, n);
        target = slice_chars(c, 0, k);
        assert(label@ =~= c@.skip(k + 1));
        assert(target@ =~= c@.take(k as int));
    } else {
        let b = find_bar(c, 0);
        if b < n {
            let l = slice_chars(c, 0, b);
            let rest = slice_chars(c, b + 1, n);
            let mut l2 = l.clone();
            assert(l2@ == l@);
            let ghost l0 = l@;
            let mut idx: usize = 0;
            while idx < rest.len()
                invariant
                    idx <= rest.len(),
                    l2@ == l0 + rest@.take(idx as int),
                decreases rest.len() - idx,
            {
                l2.push(rest[idx]);
                assert(rest@.take(idx + 1) =~= rest@.take(idx as int).push(rest@[idx as int]));
                idx = idx + 1;
            }
            assert(rest@.take(idx as int) =~= rest@);
            assert(l2@ =~= c@.take(b as int) + c@.skip(b + 1));
            label = l2;
        } else {
            label = c.clone();
            assert(label@ =~= c@);
        }
        target = c.clone();
        assert(target@ =~= c@);
    }
    let target_str = crate::text::string_of(&target);
    let target_path = pathify_str(target_str.as_str());
    let target_part = encode_html_text(target_path.as_str());
    let mut r = String::new();
    r.append("[");
    append_chars(&mut r, &label);
    r.append("](");
    r.append("/vault/");
    r.append(vault_part.as_str());
    r.append("/note/");
    r.append(target_part.as_str());
    r.append(")");
    assert(r@ =~= rewritten_link(c@, vault));
    r
}

/// Rewrites every wiki link of a note into a Markdown link to the note's
/// route in the vault `vault_name`: `[[target]]` becomes
/// `[target](/vault/<vault>/note/<target>)` and `[[target|label]]` becomes
/// `[label](/vault/<vault>/note/<target>)`, where names are written as path
/// segments and escaped for HTML. Other text is kept.
pub fn convert_links(in_md: String, vault_name: &String) -> (r: String)
    ensures
        r@ == converted_links(in_md@, vault_name@),
{
    let cs = chars_of(in_md.as_str());
    let vault_path = pathify_str(vault_name.as_str());
    let vault_part = encode_html_text(vault_path.as_str());
    let mut out = String::new();
    let mut i: usize = 0;
    while i < cs.len()
        invariant
            i <= cs.len(),
            cs@ == in_md@,
            vault_part@ == html_text(pathified(vault_name@)),
            out@ + links_from(cs@, vault_name@, i as int) == converted_links(cs@, vault_name@),
        decreases cs.len() - i,
    {
        let mut linked = false;
        if i + 1 < cs.len() && cs[i] == '[' && cs[i + 1] == '[' {
            let j = find_run_end(&cs, i + 2);
            if j > i + 2 && j < cs.len() - 1 && cs[j + 1] == ']' {
                assert(link_at(cs@, i as int));
                let body = slice_chars(&cs, i + 2, j);
                let piece = rewritten_link_exec(&body, &vault_part, Ghost(vault_name@));
                let ghost before = out@;
                out.append(piece.as_str());
                assert(out@ + links_from(cs@, vault_name@, j + 2) =~= before + links_from(
                    cs@,
                    vault_name@,
                    i as int,
                ));
                i = j + 2;
                linked = true;
            }
        }
        if !linked {
            assert(!link_at(cs@, i as int));
            let ghost before = out@;
            push_char(&mut out, cs[i]);
            assert(out@ + links_from(cs@, vault_name@, i + 1) =~= before + links_from(
                cs@,
                vault_name@,
                i as int,
            ));
            i = i + 1;
        }
    }
    assert(out@ =~= converted_links(cs@, vault_name@));
    out
}

/// No two `[` in a row from index `i` on.
pub open spec fn no_link_opener_from(s: Seq<char>, i: int) -> bool {
    forall|k: int| i <= k && k + 1 < s.len() ==> !(s[k] == '[' && #[trigger] s[k + 1] == '[')
}

proof fn lemma_links_from_plain(s: Seq<char>, vault: Seq<char>, i: int)
    requires
        0 <= i <= s.len(),
        no_link_opener_from(s, i),
    ensures
        links_from(s, vault, i) == s.skip(i),
    decreases s.len() - i,
{
    if i < s.len() {
        assert(!link_at(s, i)) by {
            if i + 1 < s.len() {
                assert(!(s[i] == '[' && s[i + 1] == '['));
            }
        }
        lemma_links_from_plain(s, vault, i + 1);
        assert(seq![s[i]] + s.skip(i + 1) =~= s.skip(i));
    } else {
        assert(s.skip(i) =~= Seq::<char>::empty());
    }
}

/// A note without `[[` is left unchanged by `convert_links`.
pub proof fn lemma_plain_text_unchanged(s: Seq<char>, vault: Seq<char>)
    requires
        no_link_opener_from(s, 0),
    ensures
        converted_links(s, vault) == s,
{
    lemma_links_from_plain(s, vault, 0);
    assert(s.skip(0) =~= s);
}

proof fn lemma_run_end_at(s: Seq<char>, i: int, j: int)
    requires
        0 <= i <= j <= s.len(),
        forall|k: int| i <= k < j ==> s[k] != ']',
        j == s.len() || s[j] == ']',
    ensures
        run_end(s, i) == j,
    decreases j - i,
{
    if i < j {
        lemma_run_end_at(s, i + 1, j);
    }
}

proof fn lemma_first_bar_at(s: Seq<char>, i: int, j: int)
    requires
        0 <= i <= j <= s.len(),
        forall|k: int| i <= k < j ==> s[k] != '|',
        j == s.len() || s[j] == '|',
    ensures
        first_bar(s, i) == j,
    decreases j - i,
{
    if i < j {
        lemma_first_bar_at(s, i + 1, j);
    }
}

/// The wiki link with inside `c`, alone: `[[`, `c`, `]]`.
pub open spec fn wiki_link(c: Seq<char>) -> Seq<char> {
    seq!['[', '['] + c + seq![']', ']']
}

proof fn lemma_single_link(c: Seq<char>, vault: Seq<char>)
    requires
        c.len() > 0,
        forall|k: int| 0 <= k < c.len() ==> c[k] != ']',
    ensures
        converted_links(wiki_link(c), vault) == rewritten_link(c, vault),
{
    let s = wiki_link(c);
    assert forall|k: int| 2 <= k < 2 + c.len() implies s[k] != ']' by {
        assert(s[k] == c[k - 2]);
    }
    lemma_run_end_at(s, 2, (2 + c.len()) as int);
    assert(link_at(s, 0));
    assert(link_body(s, 0) =~= c);
    assert(links_from(s, vault, (2 + c.len() + 2) as int) == Seq::<char>::empty());
    assert(converted_links(s, vault) =~= rewritten_link(c, vault));
}

/// A labelled wiki link `[[t|l]]` becomes `[l](/vault/<vault>/note/<t>)`,
/// where the vault and the target `t` are both written as path segments and
/// escaped for HTML.
pub proof fn lemma_labelled_link(t: Seq<char>, l: Seq<char>, vault: Seq<char>)
    requires
        t.len() > 0,
        l.len() > 0,
        forall|k: int| 0 <= k < t.len() ==> t[k] != ']' && t[k] != '|',
        forall|k: int| 0 <= k < l.len() ==> l[k] != ']',
    ensures
        converted_links(wiki_link(t + seq!['|'] + l), vault) == "["@ + l + "]("@ + "/vault/"@
            + html_text(pathified(vault)) + "/note/"@ + html_text(pathified(t)) + ")"@,
{
    let c = t + seq!['|'] + l;
    assert forall|k: int| 0 <= k < c.len() implies c[k] != ']' by {
        if k < t.len() {
            assert(c[k] == t[k]);
        } else if k > t.len() {
            assert(c[k] == l[k - t.len() - 1]);
        }
    }
    lemma_single_link(c, vault);
    assert forall|k: int| 1 <= k < t.len() implies c[k] != '|' by {
        assert(c[k] == t[k]);
    }
    lemma_first_bar_at(c, 1, t.len() as int);
    assert(has_label(c));
    assert(link_target(c) =~= t);
    assert(link_label(c) =~= l);
    assert(rewritten_link(c, vault) =~= "["@ + l + "]("@ + "/vault/"@ + html_text(pathified(vault))
        + "/note/"@ + html_text(pathified(t)) + ")"@);
}

/// A wiki link without label `[[t]]` becomes `[t](/vault/<vault>/note/<t>)`,
/// where the vault and the target are written as path segments and escaped
/// for HTML.
pub proof fn lemma_plain_link(t: Seq<char>, vault: Seq<char>)
    requires
        t.len() > 0,
        forall|k: int| 0 <= k < t.len() ==> t[k] != ']' && t[k] != '|',
    ensures
        converted_links(wiki_link(t), vault) == "["@ + t + "]("@ + "/vault/"@ + html_text(
            pathified(vault),
        ) + "/note/"@ + html_text(pathified(t)) + ")"@,
{
    lemma_single_link(t, vault);
    if t.len() > 1 {
        lemma_first_bar_at(t, 1, t.len() as int);
    }
    lemma_first_bar_at(t, 0, t.len() as int);
    assert(!has_label(t));
    assert(link_target(t) == t);
    assert(link_label(t) == t);
    assert(rewritten_link(t, vault) =~= "["@ + t + "]("@ + "/vault/"@ + html_text(pathified(vault))
        + "/note/"@ + html_text(pathified(t)) + ")"@);
}

} // verus!
