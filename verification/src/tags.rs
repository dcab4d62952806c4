//! Condensing tag lists: a tag that a longer tag of the list continues with
//! `/` is left out.

use vstd::prelude::*;
use crate::text::chars_of;

verus! {

broadcast use vstd::string::group_string_axioms;

/// `other` continues `tag` with a `/`: it starts with `tag` followed by `/`.
pub open spec fn continues_tag(tag: Seq<char>, other: Seq<char>) -> bool {
    &&& tag.len() < other.len()
    &&& other.take(tag.len() as int) == tag
    &&& other[tag.len() as int] == '/'
}

/// Some tag of `tags` continues `t`.
pub open spec fn has_longer_path(tags: Seq<Seq<char>>, t: Seq<char>) -> bool {
    exists|j: int| 0 <= j < tags.len() && continues_tag(t, #[trigger] tags[j])
}

pub open spec fn kept_in(tags: Seq<Seq<char>>) -> spec_fn(Seq<char>) -> bool {
    |t: Seq<char>| !has_longer_path(tags, t)
}

/// The tags of `tags` that no tag of `tags` continues, in their order.
pub open spec fn condensed(tags: Seq<Seq<char>>) -> Seq<Seq<char>> {
    tags.filter(kept_in(tags))
}

pub open spec fn tags_view(v: Seq<String>) -> Seq<Seq<char>> {
    v.map_values(|t: String| t@)
}

fn continues_tag_exec(tag: &Vec<char>, other: &Vec<char>) -> (r: bool)
    ensures
        r == continues_tag(tag@, other@),
{
    if tag.len() >= other.len() {
        return false;
    }
    let mut k: usize = 0;
    while k < tag.len()
        invariant
            k <= tag.len() < other.len(),
            forall|p: int| 0 <= p < k ==> other@[p] == tag@[p],
        decreases tag.len() - k,
    {
        if other[k] != tag[k] {
            assert(other@.take(tag@.len() as int)[k as int] != tag@[k as int]);
            return false;
        }
        k = k + 1;
    }
    assert(other@.take(tag@.len() as int) =~= tag@);
    other[tag.len()] == '/'
}

/// Leaves out every tag of the list that another tag of the list continues
/// with `/` (so `a` goes when `a/b` is there), keeping the others in their
/// order, duplicates included.
pub fn condense_tags(in_taglist: Vec<String>) -> (r: Vec<String>)
    ensures
        tags_view(r@) == condensed(tags_view(in_taglist@)),
{
    let ghost tags = tags_view(in_taglist@);
    let mut tv: Vec<Vec<char>> = Vec::new();
    let mut n: usize = 0;
    while n < in_taglist.len()
        invariant
            n <= in_taglist.len(),
            tags == tags_view(in_taglist@),
            tv@.len() == n,
            forall|p: int| 0 <= p < n ==> (#[trigger] tv@[p])@ == tags[p],
        decreases in_taglist.len() - n,
    {
        tv.push(chars_of(in_taglist[n].as_str()));
        n = n + 1;
    }
    let mut out_taglist: Vec<String> = Vec::new();
    let mut i: usize = 0;
    while i < in_taglist.len()
        invariant
            i <= in_taglist.len(),
            tags == tags_view(in_taglist@),
            tv@.len() == in_taglist.len(),
            forall|p: int| 0 <= p < in_taglist.len() ==> (#[trigger] tv@[p])@ == tags[p],
            tags_view(out_taglist@) == tags.take(i as int).filter(kept_in(tags)),
        decreases in_taglist.len() - i,
    {
        let mut found_longer_path = false;
        let mut j: usize = 0;
        while j < in_taglist.len()
            invariant
                j <= in_taglist.len(),
                i < in_taglist.len(),
                tags == tags_view(in_taglist@),
                tv@.len() == in_taglist.len(),
                forall|p: int| 0 <= p < in_taglist.len() ==> (#[trigger] tv@[p])@ == tags[p],
                found_longer_path ==> has_longer_path(tags, tags[i as int]),
                !found_longer_path ==> forall|p: int|
                    0 <= p < j ==> !continues_tag(tags[i as int], #[trigger] tags[p]),
            ensures
                found_longer_path ==> has_longer_path(tags, tags[i as int]),
                !found_longer_path ==> forall|p: int|
                    0 <= p < in_taglist.len() ==> !continues_tag(tags[i as int], #[trigger] tags[p]),
            decreases in_taglist.len() - j,
        {
            if continues_tag_exec(&tv[i], &tv[j]) {
                found_longer_path = true;
                assert(continues_tag(tags[i as int], tags[j as int]));
                break;
            }
            j = j + 1;
        }
        let ghost before = tags_view(out_taglist@);
        if !found_longer_path {
            out_taglist.push(in_taglist[i].clone());
            assert(tags_view(out_taglist@) =~= before.push(tags[i as int]));
        }
        proof {
            assert(tags.take(i + 1).drop_last() =~= tags.take(i as int));
            assert(tags.take(i + 1).last() == tags[i as int]);
            assert(kept_in(tags)(tags[i as int]) == !found_longer_path);
            let t1 = tags.take(i + 1);
            reveal_with_fuel(Seq::<_>::filter, 1);
            assert(t1.filter(kept_in(tags)) == if kept_in(tags)(t1.last()) {
                t1.drop_last().filter(kept_in(tags)).push(t1.last())
            } else {
                t1.drop_last().filter(kept_in(tags))
            });
            assert(tags_view(out_taglist@) == t1.filter(kept_in(tags)));
        }
        i = i + 1;
    }
    assert(tags.take(i as int) =~= tags);
    out_taglist
}

proof fn lemma_filter_all<A>(s: Seq<A>, p: spec_fn(A) -> bool)
    requires
        forall|i: int| 0 <= i < s.len() ==> p(#[trigger] s[i]),
    ensures
        s.filter(p) == s,
    decreases s.len(),
{
    reveal_with_fuel(Seq::<_>::filter, 1);
    if s.len() > 0 {
        lemma_filter_all(s.drop_last(), p);
        assert(p(s[s.len() - 1]));
        assert(s.drop_last().push(s.last()) =~= s);
    }
}

/// No tag of a condensed list is continued by another tag of it, and every
/// tag of it comes from the input.
pub proof fn lemma_condensed_tags_are_leaves(tags: Seq<Seq<char>>)
    ensures
        forall|i: int|
            0 <= i < condensed(tags).len() ==> !has_longer_path(condensed(tags), #[trigger] condensed(tags)[i]),
        forall|i: int| 0 <= i < condensed(tags).len() ==> tags.contains(#[trigger] condensed(tags)[i]),
{
    let c = condensed(tags);
    broadcast use vstd::seq_lib::group_filter_ensures;
    assert forall|i: int| 0 <= i < c.len() implies tags.contains(#[trigger] c[i]) by {
        assert(c.contains(c[i]));
        tags.lemma_filter_contains_rev(kept_in(tags), c[i]);
    }
    assert forall|i: int| 0 <= i < c.len() implies !has_longer_path(c, #[trigger] c[i]) by {
        assert(kept_in(tags)(c[i]));
        if has_longer_path(c, c[i]) {
            let j = choose|j: int| 0 <= j < c.len() && continues_tag(c[i], #[trigger] c[j]);
            assert(c.contains(c[j]));
            tags.lemma_filter_contains_rev(kept_in(tags), c[j]);
            let m = choose|m: int| 0 <= m < tags.len() && tags[m] == c[j];
            assert(continues_tag(c[i], tags[m]));
        }
    }
}

/// Condensing a condensed list changes nothing.
pub proof fn lemma_condense_idempotent(tags: Seq<Seq<char>>)
    ensures
        condensed(condensed(tags)) == condensed(tags),
{
    let c = condensed(tags);
    lemma_condensed_tags_are_leaves(tags);
    assert forall|i: int| 0 <= i < c.len() implies kept_in(c)(#[trigger] c[i]) by {
    }
    lemma_filter_all(c, kept_in(c));
}

/// How many times `a` occurs in `s`.
pub open spec fn occurrences(s: Seq<Seq<char>>, a: Seq<char>) -> nat
    decreases s.len(),
{
    if s.len() == 0 {
        0
    } else {
        occurrences(s.drop_last(), a) + if s.last() == a {
            1nat
        } else {
            0nat
        }
    }
}

proof fn lemma_occurrences_contains(s: Seq<Seq<char>>, a: Seq<char>)
    ensures
        occurrences(s, a) > 0 <==> s.contains(a),
    decreases s.len(),
{
    if s.len() > 0 {
        lemma_occurrences_contains(s.drop_last(), a);
        if s.drop_last().contains(a) {
            let k = choose|k: int| 0 <= k < s.drop_last().len() && s.drop_last()[k] == a;
            assert(s[k] == a);
        }
        if s.contains(a) && s.last() != a {
            let k = choose|k: int| 0 <= k < s.len() && s[k] == a;
            assert(k < s.len() - 1);
            assert(s.drop_last()[k] == a);
        }
    }
}

proof fn lemma_occurrences_filter(s: Seq<Seq<char>>, p: spec_fn(Seq<char>) -> bool, a: Seq<char>)
    ensures
        occurrences(s.filter(p), a) == if p(a) {
            occurrences(s, a)
        } else {
            0
        },
    decreases s.len(),
{
    reveal_with_fuel(Seq::<_>::filter, 1);
    if s.len() > 0 {
        lemma_occurrences_filter(s.drop_last(), p, a);
        let f = s.drop_last().filter(p);
        if p(s.last()) {
            assert(f.push(s.last()).drop_last() =~= f);
        }
    }
}

/// Whether a tag has a longer path depends only on which tags occur.
proof fn lemma_same_tags_same_kept(x: Seq<Seq<char>>, y: Seq<Seq<char>>)
    requires
        forall|a: Seq<char>| x.contains(a) <==> y.contains(a),
    ensures
        kept_in(x) == kept_in(y),
{
    assert forall|t: Seq<char>| has_longer_path(x, t) <==> has_longer_path(y, t) by {
        if has_longer_path(x, t) {
            let j = choose|j: int| 0 <= j < x.len() && continues_tag(t, #[trigger] x[j]);
            assert(x.contains(x[j]));
            let m = choose|m: int| 0 <= m < y.len() && y[m] == x[j];
            assert(continues_tag(t, y[m]));
        }
        if has_longer_path(y, t) {
            let j = choose|j: int| 0 <= j < y.len() && continues_tag(t, #[trigger] y[j]);
            assert(y.contains(y[j]));
            let m = choose|m: int| 0 <= m < x.len() && x[m] == y[j];
            assert(continues_tag(t, x[m]));
        }
    }
    assert(kept_in(x) =~= kept_in(y));
}

/// Which tags are kept does not depend on the order of the list: two lists
/// holding every tag equally often condense to lists holding every tag
/// equally often.
pub proof fn lemma_condense_order_independent(x: Seq<Seq<char>>, y: Seq<Seq<char>>)
    requires
        forall|a: Seq<char>| occurrences(x, a) == occurrences(y, a),
    ensures
        forall|a: Seq<char>| occurrences(condensed(x), a) == occurrences(condensed(y), a),
{
    assert forall|a: Seq<char>| x.contains(a) <==> y.contains(a) by {
        lemma_occurrences_contains(x, a);
        lemma_occurrences_contains(y, a);
    }
    lemma_same_tags_same_kept(x, y);
    assert forall|a: Seq<char>| occurrences(condensed(x), a) == occurrences(condensed(y), a) by {
        lemma_occurrences_filter(x, kept_in(x), a);
        lemma_occurrences_filter(y, kept_in(y), a);
    }
}

/// Condensing a list written twice gives the condensed list twice.
pub proof fn lemma_condense_doubled(x: Seq<Seq<char>>)
    ensures
        condensed(x + x) == condensed(x) + condensed(x),
{
    assert forall|a: Seq<char>| (x + x).contains(a) <==> x.contains(a) by {
        if (x + x).contains(a) {
            let k = choose|k: int| 0 <= k < (x + x).len() && (x + x)[k] == a;
            if k < x.len() {
                assert(x[k] == a);
            } else {
                assert(x[k - x.len()] == a);
            }
        }
        if x.contains(a) {
            let k = choose|k: int| 0 <= k < x.len() && x[k] == a;
            assert((x + x)[k] == a);
        }
    }
    lemma_same_tags_same_kept(x + x, x);
    Seq::filter_distributes_over_add(x, x, kept_in(x));
}

/// A tag of the list is left out exactly when some tag of the list starts
/// with it followed by `/`; a tag that another merely starts with (as `rust`
/// and `rustacean`) is kept.
pub proof fn lemma_dropped_iff_continued(tags: Seq<Seq<char>>, t: Seq<char>)
    requires
        tags.contains(t),
    ensures
        !condensed(tags).contains(t) <==> exists|j: int|
            0 <= j < tags.len() && t.len() < (#[trigger] tags[j]).len() && tags[j].take(
                t.len() as int,
            ) == t && tags[j][t.len() as int] == '/',
{
    broadcast use vstd::seq_lib::group_filter_ensures;

    let i = choose|i: int| 0 <= i < tags.len() && tags[i] == t;
    if condensed(tags).contains(t) {
        let k = choose|k: int| 0 <= k < condensed(tags).len() && condensed(tags)[k] == t;
        assert(kept_in(tags)(condensed(tags)[k]));
        assert(!has_longer_path(tags, t));
        if exists|j: int|
            0 <= j < tags.len() && t.len() < (#[trigger] tags[j]).len() && tags[j].take(
                t.len() as int,
            ) == t && tags[j][t.len() as int] == '/' {
            let j = choose|j: int|
                0 <= j < tags.len() && t.len() < (#[trigger] tags[j]).len() && tags[j].take(
                    t.len() as int,
                ) == t && tags[j][t.len() as int] == '/';
            assert(continues_tag(t, tags[j]));
        }
    } else {
        if !has_longer_path(tags, t) {
            assert(kept_in(tags)(tags[i]));
            tags.lemma_filter_contains(kept_in(tags), i);
        }
        let j = choose|j: int| 0 <= j < tags.len() && continues_tag(t, #[trigger] tags[j]);
        assert(t.len() < tags[j].len() && tags[j].take(t.len() as int) == t && tags[j][t.len() as int]
            == '/');
    }
}

} // verus!
