//! Search answers: checking a query, highlighting snippets, excerpting
//! bodies, and assembling the JSON-ready response for a list of hits.

use vstd::prelude::*;
use vstd::utf8::*;
use crate::tags::{condense_tags, condensed, tags_view};

verus! {

broadcast use {vstd::string::group_string_axioms, vstd::seq::group_seq_axioms};

/// One search hit as returned to the browser.
pub struct SearchResult {
    pub title: String,
    pub tags: Vec<String>,
    pub body: String,
    pub vault: String,
}

/// The body of a search answer.
pub struct SearchResponse {
    pub success: bool,
    pub message: Option<String>,
    pub results: Option<Vec<SearchResult>>,
}

pub ghost struct SearchResultView {
    pub title: Seq<char>,
    pub tags: Seq<Seq<char>>,
    pub body: Seq<char>,
    pub vault: Seq<char>,
}

pub ghost struct SearchResponseView {
    pub success: bool,
    pub message: Option<Seq<char>>,
    pub results: Option<Seq<SearchResultView>>,
}

impl View for SearchResult {
    type V = SearchResultView;

    open spec fn view(&self) -> SearchResultView {
        SearchResultView {
            title: self.title@,
            tags: tags_view(self.tags@),
            body: self.body@,
            vault: self.vault@,
        }
    }
}

pub open spec fn results_view(v: Seq<SearchResult>) -> Seq<SearchResultView> {
    v.map_values(|r: SearchResult| r@)
}

impl View for SearchResponse {
    type V = SearchResponseView;

    open spec fn view(&self) -> SearchResponseView {
        SearchResponseView {
            success: self.success,
            message: crate::dataview::opt_view(self.message),
            results: match self.results {
                Some(v) => Some(results_view(v@)),
                None => None,
            },
        }
    }
}

/// Builds a search answer from its three parts.
pub fn respond_to_search(
    success: bool,
    message: Option<String>,
    results: Option<Vec<SearchResult>>,
) -> (r: SearchResponse)
    ensures
        r.success == success,
        r.message == message,
        r.results == results,
{
    SearchResponse { success, message, results }
}

/// A search answer with its HTTP status code.
pub struct SearchReply {
    pub status: u16,
    pub response: SearchResponse,
}

/// A failed answer with message `m`.
pub open spec fn failure(m: Seq<char>) -> SearchResponseView {
    SearchResponseView { success: false, message: Some(m), results: None }
}

/// The longest query, in bytes, that is searched for.
pub const MAX_QUERY_BYTES: usize = 1000;

/// The answer that a query is refused with before any search, if it is:
/// an empty query, or one longer than `MAX_QUERY_BYTES` bytes in UTF-8,
/// gets status 400.
pub open spec fn query_refusal(query: &str) -> Option<(u16, SearchResponseView)> {
    if query@.len() == 0 {
        Some((400u16, failure("Empty search body!"@)))
    } else if encode_utf8(query@).len() > MAX_QUERY_BYTES {
        Some((400u16, failure("Search body was too long!"@)))
    } else {
        None
    }
}

fn failure_reply(status: u16, m: &str) -> (r: SearchReply)
    ensures
        r.status == status,
        r.response@ == failure(m@),
{
    SearchReply {
        status,
        response: respond_to_search(false, Some(String::from_str(m)), None),
    }
}

/// Checks a search query before searching: returns the refusal answer for
/// an empty or too long query, and `None` for a query to search for.
pub fn check_search_query(query: &str) -> (r: Option<SearchReply>)
    ensures
        match query_refusal(query) {
            Some((status, resp)) => r matches Some(reply) && reply.status == status
                && reply.response@ == resp,
            None => r is None,
        },
{
    if query.is_empty() {
        Some(failure_reply(400, "Empty search body!"))
    } else if query.as_bytes().len() > MAX_QUERY_BYTES {
        Some(failure_reply(400, "Search body was too long!"))
    } else {
        None
    }
}

/// A search snippet: a fragment of a note's body and the byte ranges of it
/// that match the query.
pub struct SnippetText {
    pub fragment: String,
    pub highlighted: Vec<(usize, usize)>,
}

/// The byte ranges lie inside the fragment, in order, without overlap, and
/// start and end on character boundaries.
pub open spec fn ranges_fit(frag: Seq<u8>, ranges: Seq<(usize, usize)>) -> bool {
    &&& forall|k: int|
        0 <= k < ranges.len() ==> {
            &&& (#[trigger] ranges[k]).0 <= ranges[k].1 <= frag.len()
            &&& is_char_boundary(frag, ranges[k].0 as int)
            &&& is_char_boundary(frag, ranges[k].1 as int)
        }
    &&& forall|k: int, m: int| 0 <= k < m < ranges.len() ==> #[trigger] ranges[k].1 <= #[trigger] ranges[m].0
}

pub open spec fn bold_open() -> Seq<u8> {
    encode_utf8("<b>"@)
}

pub open spec fn bold_close() -> Seq<u8> {
    encode_utf8("</b>"@)
}

/// The bytes of `frag` from `start` on, with each range of `ranges` wrapped
/// in `<b>` and `</b>`.
pub open spec fn highlighted_from(frag: Seq<u8>, ranges: Seq<(usize, usize)>, start: int) -> Seq<
    u8,
>
    decreases ranges.len(),
{
    if ranges.len() == 0 {
        frag.subrange(start, frag.len() as int)
    } else {
        frag.subrange(start, ranges[0].0 as int) + bold_open() + frag.subrange(
            ranges[0].0 as int,
            ranges[0].1 as int,
        ) + bold_close() + highlighted_from(frag, ranges.drop_first(), ranges[0].1 as int)
    }
}

/// The snippet's fragment with its matches in bold, as UTF-8 bytes.
pub open spec fn highlighted(s: SnippetText) -> Seq<u8> {
    highlighted_from(encode_utf8(s.fragment@), s.highlighted@, 0)
}

/// The snippet can be highlighted: its ranges fit its fragment.
pub open spec fn snippet_fits(s: SnippetText) -> bool {
    ranges_fit(encode_utf8(s.fragment@), s.highlighted@)
}

/// A stretch of valid UTF-8 between two character boundaries is valid UTF-8.
proof fn lemma_valid_piece(bytes: Seq<u8>, a: int, b: int)
    requires
        valid_utf8(bytes),
        0 <= a <= b <= bytes.len(),
        is_char_boundary(bytes, a),
        is_char_boundary(bytes, b),
    ensures
        valid_utf8(bytes.subrange(a, b)),
{
    let suffix = bytes.subrange(a, bytes.len() as int);
    valid_utf8_split(bytes, a);
    assert(valid_utf8(suffix));
    if b == bytes.len() {
        assert(suffix.subrange(0, b - a) =~= suffix);
        assert(bytes.subrange(a, b) =~= suffix);
    } else {
        is_char_boundary_iff_not_is_continuation_byte(bytes, b);
        is_char_boundary_iff_not_is_continuation_byte(suffix, b - a);
        assert(suffix[b - a] == bytes[b]);
        valid_utf8_split(suffix, b - a);
        assert(suffix.subrange(0, b - a) =~= bytes.subrange(a, b));
    }
}

/// `String::from_utf8` on bytes known to be valid UTF-8.
/// Claimed, as its documentation says: the string holds the characters that
/// the bytes encode.
#[verifier::external_body]
fn string_from_utf8(v: Vec<u8>) -> (r: String)
    requires
        valid_utf8(v@),
    ensures
        r@ == decode_utf8(v@),
{
    String::from_utf8(v).unwrap()
}

fn append_bytes(out: &mut Vec<u8>, src: &[u8], from: usize, to: usize)
    requires
        from <= to <= src@.len(),
    ensures
        final(out)@ == old(out)@ + src@.subrange(from as int, to as int),
{
    let mut i = from;
    while i < to
        invariant
            from <= i <= to <= src@.len(),
            out@ == old(out)@ + src@.subrange(from as int, i as int),
        decreases to - i,
    {
        out.push(src[i]);
        assert(src@.subrange(from as int, i + 1) =~= src@.subrange(from as int, i as int).push(
            src@[i as int],
        ));
        i = i + 1;
    }
}

/// Whether the snippet's ranges fit its fragment (see `ranges_fit`).
pub fn snippet_is_well_formed(s: &SnippetText) -> (r: bool)
    ensures
        r == snippet_fits(*s),
{
    let frag = s.fragment.as_str();
    let n = frag.as_bytes().len();
    let ghost bytes = encode_utf8(s.fragment@);
    let ranges = &s.highlighted;
    let mut prev_end: usize = 0;
    let mut k: usize = 0;
    while k < ranges.len()
        invariant
            k <= ranges.len(),
            ranges == &s.highlighted,
            frag@ == s.fragment@,
            n == bytes.len(),
            bytes == encode_utf8(frag@),
            k > 0 ==> prev_end == ranges@[k - 1].1,
            ranges_fit(bytes, ranges@.take(k as int)),
        decreases ranges.len() - k,
    {
        let (a, b) = ranges[k];
        if !(a <= b && b <= n && frag.is_char_boundary(a) && frag.is_char_boundary(b)) {
            assert(!ranges_fit(bytes, ranges@)) by {
                assert(ranges@[k as int] == (a, b));
            }
            return false;
        }
        if k > 0 && prev_end > a {
            assert(!ranges_fit(bytes, ranges@)) by {
                assert(ranges@[k - 1].1 > ranges@[k as int].0);
            }
            return false;
        }
        assert forall|p: int, m: int| 0 <= p < m < k + 1 implies #[trigger] ranges@.take(
            k + 1,
        )[p].1 <= #[trigger] ranges@.take(k + 1)[m].0 by {
            if m == k && p < k - 1 {
                assert(ranges@.take(k as int)[p] == ranges@[p]);
                assert(ranges@.take(k as int)[p].1 <= ranges@.take(k as int)[k - 1].0);
                assert(ranges@.take(k as int)[k - 1].0 <= ranges@.take(k as int)[k - 1].1);
            } else if m < k {
                assert(ranges@.take(k as int)[p].1 <= ranges@.take(k as int)[m].0);
            }
        }
        prev_end = b;
        k = k + 1;
    }
    assert(ranges@.take(k as int) =~= ranges@);
    true
}

fn highlight_bytes(frag: &[u8], ranges: &Vec<(usize, usize)>) -> (r: Vec<u8>)
    requires
        valid_utf8(frag@),
        ranges_fit(frag@, ranges@),
    ensures
        r@ == highlighted_from(frag@, ranges@, 0),
        valid_utf8(r@),
{
    let open = "<b>".as_bytes();
    let close = "</b>".as_bytes();
    proof {
        encode_utf8_valid_utf8("<b>"@);
        encode_utf8_valid_utf8("</b>"@);
        is_char_boundary_start_end_of_seq(frag@);
    }
    let mut out: Vec<u8> = Vec::new();
    let mut start: usize = 0;
    let mut k: usize = 0;
    assert(ranges@.skip(0) =~= ranges@);
    while k < ranges.len()
        invariant
            k <= ranges.len(),
            start <= frag@.len(),
            valid_utf8(frag@),
            ranges_fit(frag@, ranges@),
            is_char_boundary(frag@, start as int),
            k < ranges.len() ==> start <= ranges@[k as int].0,
            open@ == bold_open(),
            close@ == bold_close(),
            valid_utf8(open@),
            valid_utf8(close@),
            valid_utf8(out@),
            out@ + highlighted_from(frag@, ranges@.skip(k as int), start as int) == highlighted_from(
                frag@,
                ranges@,
                0,
            ),
        decreases ranges.len() - k,
    {
        let (a, b) = ranges[k];
        assert(ranges@.skip(k as int)[0] == ranges@[k as int]);
        assert(ranges@.skip(k as int).drop_first() =~= ranges@.skip(k + 1));
        let ghost before = out@;
        proof {
            lemma_valid_piece(frag@, start as int, a as int);
            lemma_valid_piece(frag@, a as int, b as int);
        }
        append_bytes(&mut out, frag, start, a);
        let ghost o1 = out@;
        append_bytes(&mut out, open, 0, open.len());
        assert(open@.subrange(0, open@.len() as int) =~= open@);
        let ghost o2 = out@;
        append_bytes(&mut out, frag, a, b);
        let ghost o3 = out@;
        append_bytes(&mut out, close, 0, close.len());
        assert(close@.subrange(0, close@.len() as int) =~= close@);
        proof {
            valid_utf8_concat(before, frag@.subrange(start as int, a as int));
            valid_utf8_concat(o1, open@);
            valid_utf8_concat(o2, frag@.subrange(a as int, b as int));
            valid_utf8_concat(o3, close@);
            if k + 1 < ranges.len() {
                assert(ranges@[k as int].1 <= ranges@[k + 1].0);
            }
        }
        assert(out@ + highlighted_from(frag@, ranges@.skip(k + 1), b as int) =~= before
            + highlighted_from(frag@, ranges@.skip(k as int), start as int));
        start = b;
        k = k + 1;
    }
    proof {
        lemma_valid_piece(frag@, start as int, frag@.len() as int);
        valid_utf8_concat(out@, frag@.subrange(start as int, frag@.len() as int));
    }
    let ghost before = out@;
    append_bytes(&mut out, frag, start, frag.len());
    assert(ranges@.skip(k as int).len() == 0);
    assert(out@ =~= highlighted_from(frag@, ranges@, 0));
    out
}

/// The snippet's fragment with each highlighted range wrapped in `<b>` and
/// `</b>`.
pub fn highlight(snippet: &SnippetText) -> (r: String)
    requires
        snippet_fits(*snippet),
    ensures
        encode_utf8(r@) == highlighted(*snippet),
        r@ == decode_utf8(highlighted(*snippet)),
{
    let bytes = snippet.fragment.as_str().as_bytes();
    proof {
        encode_utf8_valid_utf8(snippet.fragment@);
    }
    let out = highlight_bytes(bytes, &snippet.highlighted);
    let r = string_from_utf8(out);
    proof {
        decode_utf8_encode_utf8(out@);
        encode_utf8_decode_utf8(r@);
    }
    r
}

/// How many grapheme clusters of a body are shown when a hit has no snippet.
pub const EXCERPT_GRAPHEMES: usize = 150;

/// The extended grapheme clusters of a text, in order, as
/// `unicode_segmentation` splits it.
pub uninterp spec fn grapheme_clusters(s: Seq<char>) -> Seq<Seq<char>>;

/// `UnicodeSegmentation::graphemes(s, true)`, each cluster copied into a
/// `String`. Claimed: the clusters are `grapheme_clusters` of the text, and,
/// as the iterator walks the text from start to end without gaps, their
/// concatenation is the text. Where the cluster boundaries fall is not
/// stated.
#[verifier::external_body]
fn graphemes(s: &str) -> (r: Vec<String>)
    ensures
        r@.map_values(|g: String| g@) == grapheme_clusters(s@),
        r@.map_values(|g: String| g@).flatten() == s@,
{
    unicode_segmentation::UnicodeSegmentation::graphemes(s, true).map(|g| g.to_string()).collect()
}

/// The first `n` elements of `s`, or all of them when there are fewer.
pub open spec fn first_n<A>(s: Seq<A>, n: int) -> Seq<A> {
    if s.len() <= n {
        s
    } else {
        s.take(n)
    }
}

/// A body shortened for display: its first `EXCERPT_GRAPHEMES` grapheme
/// clusters, then `...`.
pub open spec fn excerpt_of(body: Seq<char>) -> Seq<char> {
    first_n(grapheme_clusters(body), EXCERPT_GRAPHEMES as int).flatten() + "..."@
}

/// Shortens a body for display: its first `EXCERPT_GRAPHEMES` grapheme
/// clusters, then `...`.
pub fn body_excerpt(body: &str) -> (r: String)
    ensures
        r@ == excerpt_of(body@),
        grapheme_clusters(body@).len() <= EXCERPT_GRAPHEMES ==> r@ == body@ + "..."@,
        exists|p: Seq<char>| r@ == p + "..."@ && body@.take(p.len() as int) == p,
{
    let g = graphemes(body);
    let ghost gs = g@.map_values(|x: String| x@);
    let n = if g.len() <= EXCERPT_GRAPHEMES {
        g.len()
    } else {
        EXCERPT_GRAPHEMES
    };
    let mut r = String::new();
    let mut k: usize = 0;
    while k < n
        invariant
            k <= n <= g.len(),
            gs == g@.map_values(|x: String| x@),
            r@ == gs.take(k as int).flatten(),
        decreases n - k,
    {
        r.append(g[k].as_str());
        proof {
            assert(gs.take(k + 1) =~= gs.take(k as int).push(gs[k as int]));
            gs.take(k as int).lemma_flatten_push(gs[k as int]);
        }
        k = k + 1;
    }
    proof {
        if gs.len() <= EXCERPT_GRAPHEMES {
            assert(gs.take(k as int) =~= gs);
        }
    }
    r.append("...");
    proof {
        lemma_excerpt_is_prefix(body@);
    }
    r
}

/// Where the clusters of a body spell it, its excerpt is a beginning of
/// the body followed by `...`: the whole body when it has at most
/// `EXCERPT_GRAPHEMES` clusters, else exactly its first `EXCERPT_GRAPHEMES`
/// clusters.
pub proof fn lemma_excerpt_is_prefix(body: Seq<char>)
    requires
        grapheme_clusters(body).flatten() == body,
    ensures
        exists|p: Seq<char>| excerpt_of(body) == p + "..."@ && body.take(p.len() as int) == p,
        grapheme_clusters(body).len() <= EXCERPT_GRAPHEMES ==> excerpt_of(body) == body + "..."@,
        grapheme_clusters(body).len() > EXCERPT_GRAPHEMES ==> excerpt_of(body) == grapheme_clusters(
            body,
        ).take(EXCERPT_GRAPHEMES as int).flatten() + "..."@,
{
    let gs = grapheme_clusters(body);
    let n = if gs.len() <= EXCERPT_GRAPHEMES {
        gs.len() as int
    } else {
        EXCERPT_GRAPHEMES as int
    };
    let p = gs.take(n).flatten();
    assert(gs =~= gs.take(n) + gs.skip(n));
    vstd::seq_lib::lemma_flatten_concat(gs.take(n), gs.skip(n));
    assert(body == p + gs.skip(n).flatten());
    assert(body.take(p.len() as int) =~= p);
    if gs.len() <= EXCERPT_GRAPHEMES {
        assert(gs.take(n) =~= gs);
    }
    assert(excerpt_of(body) == p + "..."@);
}

/// One search hit as read from the index: the stored title, vault and body
/// (where stored as text), the stored tags, and the snippet of the body.
pub struct SearchHit {
    pub title: Option<String>,
    pub vault: Option<String>,
    pub body: Option<String>,
    pub tags: Vec<String>,
    pub snippet: SnippetText,
}

/// The text of an optional field, empty where absent.
pub open spec fn or_empty(o: Option<String>) -> Seq<char> {
    match o {
        Some(s) => s@,
        None => Seq::empty(),
    }
}

/// The body shown for a hit: its highlighted snippet between `...` marks,
/// or, when the snippet highlights nothing, the excerpt of its body (empty
/// where the body is absent). The body is shown as it is: no step removes
/// Markdown markup from it.
pub open spec fn result_body(h: SearchHit) -> Seq<char> {
    if h.snippet.highlighted@.len() == 0 {
        match h.body {
            Some(b) => excerpt_of(b@),
            None => Seq::empty(),
        }
    } else {
        "..."@ + decode_utf8(highlighted(h.snippet)) + "..."@
    }
}

/// The result shown for a hit.
pub open spec fn hit_result(h: SearchHit) -> SearchResultView {
    SearchResultView {
        title: or_empty(h.title),
        tags: condensed(tags_view(h.tags@)),
        body: result_body(h),
        vault: or_empty(h.vault),
    }
}

fn or_empty_exec(o: &Option<String>) -> (r: String)
    ensures
        r@ == or_empty(*o),
{
    match o {
        Some(s) => s.clone(),
        None => String::new(),
    }
}

/// The result shown for a hit (see `hit_result`).
pub fn search_result(hit: &SearchHit) -> (r: SearchResult)
    requires
        snippet_fits(hit.snippet),
    ensures
        r@ == hit_result(*hit),
{
    let body = if hit.snippet.highlighted.len() == 0 {
        match &hit.body {
            Some(b) => body_excerpt(b.as_str()),
            None => String::new(),
        }
    } else {
        let h = highlight(&hit.snippet);
        let mut b = String::new();
        b.append("...");
        b.append(h.as_str());
        b.append("...");
        b
    };
    SearchResult {
        title: or_empty_exec(&hit.title),
        tags: condense_tags(hit.tags.clone()),
        body,
        vault: or_empty_exec(&hit.vault),
    }
}

/// What the search engine made of a query.
pub enum SearchOutcome {
    /// The query could not be parsed.
    ParseFailed,
    /// The search itself failed.
    SearchFailed,
    /// The search found these hits, best first.
    Hits(Vec<SearchHit>),
}

/// The hit's vault is one of `known`.
pub open spec fn vault_known(h: SearchHit, known: Seq<Seq<char>>) -> bool {
    known.contains(or_empty(h.vault))
}

/// The hits before index `i` all name a known vault.
pub open spec fn known_before(hs: Seq<SearchHit>, known: Seq<Seq<char>>, i: int) -> bool {
    forall|j: int| 0 <= j < i ==> vault_known(#[trigger] hs[j], known)
}

/// The status and answer for a search outcome, given the names of the
/// vaults served: a query that does not parse gets 500, a failed search 400,
/// hits of an unknown vault 500, and otherwise the results of all hits in
/// order, with 200.
pub open spec fn reply_for(outcome: SearchOutcome, known: Seq<Seq<char>>) -> (u16, SearchResponseView) {
    match outcome {
        SearchOutcome::ParseFailed => (500u16, failure("Something went wrong on our end!"@)),
        SearchOutcome::SearchFailed => (400u16, failure("Search body was malformed!"@)),
        SearchOutcome::Hits(hs) => if known_before(hs@, known, hs@.len() as int) {
            (
                200u16,
                SearchResponseView {
                    success: true,
                    message: None,
                    results: Some(hs@.map_values(|h: SearchHit| hit_result(h))),
                },
            )
        } else {
            (
                500u16,
                failure(
                    "Something went wrong on our end! Could not find vault in search result."@,
                ),
            )
        },
    }
}

/// The snippets that are highlighted while answering fit their fragments:
/// that of each hit reached before a hit of an unknown vault.
pub open spec fn snippets_fit_until_unknown(outcome: SearchOutcome, known: Seq<Seq<char>>) -> bool {
    match outcome {
        SearchOutcome::Hits(hs) => forall|i: int|
            0 <= i < hs@.len() && known_before(hs@, known, i) ==> snippet_fits(
                #[trigger] hs@[i].snippet,
            ),
        _ => true,
    }
}

pub open spec fn names_view(v: Seq<String>) -> Seq<Seq<char>> {
    v.map_values(|s: String| s@)
}

fn contains_name(names: &Vec<String>, name: &String) -> (r: bool)
    ensures
        r == names_view(names@).contains(name@),
{
    let mut k: usize = 0;
    while k < names.len()
        invariant
            k <= names.len(),
            forall|p: int| 0 <= p < k ==> names@[p]@ != name@,
        decreases names.len() - k,
    {
        if names[k] == *name {
            assert(names_view(names@)[k as int] == name@);
            return true;
        }
        k = k + 1;
    }
    assert(!names_view(names@).contains(name@)) by {
        if names_view(names@).contains(name@) {
            let p = choose|p: int| 0 <= p < names@.len() && names_view(names@)[p] == name@;
            assert(names@[p]@ == name@);
        }
    }
    false
}

/// Answers a search from what the engine made of the query and the names
/// of the vaults served (see `reply_for`).
pub fn search_reply(outcome: SearchOutcome, known_vaults: &Vec<String>) -> (r: SearchReply)
    requires
        snippets_fit_until_unknown(outcome, names_view(known_vaults@)),
    ensures
        (r.status, r.response@) == reply_for(outcome, names_view(known_vaults@)),
{
    let ghost known = names_view(known_vaults@);
    let ghost whole = outcome;
    match outcome {
        SearchOutcome::ParseFailed => failure_reply(500, "Something went wrong on our end!"),
        SearchOutcome::SearchFailed => failure_reply(400, "Search body was malformed!"),
        SearchOutcome::Hits(hs) => {
            let ghost hits = hs@;
            let mut results: Vec<SearchResult> = Vec::new();
            let mut i: usize = 0;
            while i < hs.len()
                invariant
                    i <= hs.len(),
                    hits == hs@,
                    whole == SearchOutcome::Hits(hs),
                    whole == outcome,
                    known == names_view(known_vaults@),
                    forall|p: int|
                        0 <= p < hits.len() && known_before(hits, known, p) ==> snippet_fits(
                            #[trigger] hits[p].snippet,
                        ),
                    known_before(hits, known, i as int),
                    results_view(results@) == hits.take(i as int).map_values(
                        |h: SearchHit| hit_result(h),
                    ),
                decreases hs.len() - i,
            {
                let result = search_result(&hs[i]);
                let vault_name = or_empty_exec(&hs[i].vault);
                if !contains_name(known_vaults, &vault_name) {
                    assert(!known_before(hits, known, hits.len() as int)) by {
                        assert(!vault_known(hits[i as int], known));
                    }

                    return failure_reply(
                        500,
                        "Something went wrong on our end! Could not find vault in search result.",
                    );
                }
                let ghost before = results_view(results@);
                results.push(result);
                assert(results_view(results@) =~= before.push(hit_result(hits[i as int])));
                assert(hits.take(i + 1).map_values(|h: SearchHit| hit_result(h)) =~= hits.take(
                    i as int,
                ).map_values(|h: SearchHit| hit_result(h)).push(hit_result(hits[i as int])));
                i = i + 1;
            }
            assert(hits.take(i as int) =~= hits);
            SearchReply { status: 200, response: respond_to_search(true, None, Some(results)) }
        },
    }
}

/// Every answer is consistent: it succeeds exactly when its status is 200,
/// and it carries results exactly when it succeeds, and a message exactly
/// when it fails.
pub proof fn lemma_reply_consistent(outcome: SearchOutcome, known: Seq<Seq<char>>)
    ensures
        reply_for(outcome, known).1.success <==> reply_for(outcome, known).0 == 200,
        reply_for(outcome, known).1.results is Some <==> reply_for(outcome, known).1.success,
        reply_for(outcome, known).1.message is Some <==> !reply_for(outcome, known).1.success,
{
}

/// A query refused before searching always gets status 400 and no results.
pub proof fn lemma_refusal_is_bad_request(query: &str)
    ensures
        query_refusal(query) matches Some((status, resp)) ==> status == 400 && !resp.success
            && resp.results is None && resp.message is Some,
{
}

/// The answer to a search request, refused or searched, is consistent:
/// it succeeds exactly when its status is 200; a successful answer carries
/// results and no message, a failed one a message and no results.
pub proof fn lemma_search_answer_consistent(
    query: &str,
    outcome: SearchOutcome,
    known: Seq<Seq<char>>,
)
    ensures
        ({
            let (status, resp) = match query_refusal(query) {
                Some(refused) => refused,
                None => reply_for(outcome, known),
            };
            &&& resp.success <==> status == 200
            &&& resp.success ==> resp.message is None && resp.results is Some
            &&& !resp.success ==> resp.message is Some && resp.results is None
        }),
{
}

/// A snippet that highlights nothing is shown as its fragment unchanged.
pub proof fn lemma_no_highlight_keeps_fragment(s: SnippetText)
    requires
        s.highlighted@.len() == 0,
    ensures
        decode_utf8(highlighted(s)) == s.fragment@,
{
    let b = encode_utf8(s.fragment@);
    assert(b.subrange(0, b.len() as int) =~= b);
    encode_utf8_decode_utf8(s.fragment@);
}

/// Answers a search as `search_reply` does where every snippet that is
/// highlighted fits its fragment, and returns `None` where one does not:
/// highlighting it would slice the fragment inside a character or out of
/// order. Snippets of hits after the first hit of an unknown vault are not
/// looked at, as the answer stops there.
pub fn search_reply_checked(outcome: SearchOutcome, known_vaults: &Vec<String>) -> (r: Option<
    SearchReply,
>)
    ensures
        r is None <==> !snippets_fit_until_unknown(outcome, names_view(known_vaults@)),
        r matches Some(reply) ==> (reply.status, reply.response@) == reply_for(
            outcome,
            names_view(known_vaults@),
        ),
{
    let ghost known = names_view(known_vaults@);
    if let SearchOutcome::Hits(hs) = &outcome {
        let ghost hits = hs@;
        let mut all_known = true;
        let mut i: usize = 0;
        while i < hs.len()
            invariant
                i <= hs.len(),
                hits == hs@,
                outcome == SearchOutcome::Hits(*hs),
                known == names_view(known_vaults@),
                all_known == known_before(hits, known, i as int),
                forall|p: int|
                    0 <= p < i && known_before(hits, known, p) ==> snippet_fits(
                        #[trigger] hits[p].snippet,
                    ),
            decreases hs.len() - i,
        {
            if all_known {
                if !snippet_is_well_formed(&hs[i].snippet) {
                    assert(!snippets_fit_until_unknown(outcome, known)) by {
                        assert(!snippet_fits(hits[i as int].snippet));
                    }
                    return None;
                }
                let vault_name = or_empty_exec(&hs[i].vault);
                all_known = contains_name(known_vaults, &vault_name);
            } else {
                assert(!known_before(hits, known, i + 1));
            }
            assert forall|p: int| 0 <= p < i + 1 && known_before(hits, known, p) implies snippet_fits(
                #[trigger] hits[p].snippet,
            ) by {
                if p == i {
                    assert(known_before(hits, known, i as int));
                }
            }
            i = i + 1;
        }
        assert forall|p: int| 0 <= p < hits.len() && known_before(hits, known, p) implies snippet_fits(
            #[trigger] hits[p].snippet,
        ) by {}
    }
    Some(search_reply(outcome, known_vaults))
}

} // verus!
