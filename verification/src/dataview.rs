//! Dataview query blocks (```` ```dataview ```` fences) of a note, and their
//! replacement by the rendered answers of the vault's query engine.

use vstd::prelude::*;
use crate::text::{chars_of, slice_chars, push_char, string_of};
use crate::paths::{pathified, html_text, pathify_str, encode_html_text};
use crate::links::note_link;

verus! {

broadcast use vstd::string::group_string_axioms;

/// One line of a list answer.
pub struct ListEntry {
    pub note_name: Option<String>,
    pub additional_info: Option<String>,
}

/// The answer of the vault's query engine to one query.
pub enum QueryOutput {
    /// The query listed these entries.
    List(Vec<ListEntry>),
    /// The query failed with these messages.
    Errors(Vec<String>),
}

pub ghost struct ListEntryView {
    pub note_name: Option<Seq<char>>,
    pub additional_info: Option<Seq<char>>,
}

pub ghost enum QueryOutputView {
    List(Seq<ListEntryView>),
    Errors(Seq<Seq<char>>),
}

pub open spec fn opt_view(o: Option<String>) -> Option<Seq<char>> {
    match o {
        Some(s) => Some(s@),
        None => None,
    }
}

impl View for ListEntry {
    type V = ListEntryView;

    open spec fn view(&self) -> ListEntryView {
        ListEntryView {
            note_name: opt_view(self.note_name),
            additional_info: opt_view(self.additional_info),
        }
    }
}

impl View for QueryOutput {
    type V = QueryOutputView;

    open spec fn view(&self) -> QueryOutputView {
        match self {
            QueryOutput::List(v) => QueryOutputView::List(v@.map_values(|e: ListEntry| e@)),
            QueryOutput::Errors(v) => QueryOutputView::Errors(v@.map_values(|s: String| s@)),
        }
    }
}

pub open spec fn outputs_view(v: Seq<QueryOutput>) -> Seq<QueryOutputView> {
    v.map_values(|o: QueryOutput| o@)
}

/// The Markdown line for one entry of a list answer.
pub open spec fn list_line(e: ListEntryView, vault: Seq<char>) -> Seq<char> {
    "- "@ + match e.note_name {
        Some(n) => note_link(n, vault, n),
        None => Seq::empty(),
    } + match e.additional_info {
        Some(a) => ": "@ + a,
        None => Seq::empty(),
    } + "\n"@
}

pub open spec fn list_lines(items: Seq<ListEntryView>, vault: Seq<char>) -> Seq<char>
    decreases items.len(),
{
    if items.len() == 0 {
        Seq::empty()
    } else {
        list_lines(items.drop_last(), vault) + list_line(items.last(), vault)
    }
}

/// The Markdown quote line for one error message.
pub open spec fn error_line(e: Seq<char>) -> Seq<char> {
    "\n> `Dataview Error: "@ + e + "`"@
}

pub open spec fn error_lines(errs: Seq<Seq<char>>) -> Seq<char>
    decreases errs.len(),
{
    if errs.len() == 0 {
        Seq::empty()
    } else {
        error_lines(errs.drop_last()) + error_line(errs.last())
    }
}

/// The Markdown that stands in place of a query block with answer `o`.
pub open spec fn rendered_output(o: QueryOutputView, vault: Seq<char>) -> Seq<char> {
    match o {
        QueryOutputView::List(items) => if items.len() == 0 {
            "\n> `Dataview: No results to show for list query.`\n"@
        } else {
            list_lines(items, vault)
        },
        QueryOutputView::Errors(errs) => error_lines(errs) + "\n"@,
    }
}

pub open spec fn is_line_break(c: char) -> bool {
    c == '\n' || c == '\r'
}

pub open spec fn block_opener() -> Seq<char> {
    seq!['`', '`', '`', 'd', 'a', 't', 'a', 'v', 'i', 'e', 'w']
}

/// ```` ```dataview ```` and a line break start at `i`.
pub open spec fn opens_block(s: Seq<char>, i: int) -> bool {
    &&& 0 <= i
    &&& i + 12 <= s.len()
    &&& s.subrange(i, i + 11) == block_opener()
    &&& is_line_break(s[i + 11])
}

/// A line break and ```` ``` ```` start at `q`.
pub open spec fn closes_block(s: Seq<char>, q: int) -> bool {
    &&& 0 <= q
    &&& q + 4 <= s.len()
    &&& is_line_break(s[q])
    &&& s[q + 1] == '`'
    &&& s[q + 2] == '`'
    &&& s[q + 3] == '`'
}

/// The first index at or after `q` where a block closes, or the length of
/// `s` when none does.
pub open spec fn block_close(s: Seq<char>, q: int) -> int
    decreases s.len() - q,
{
    if q < 0 || q + 4 > s.len() {
        s.len() as int
    } else if closes_block(s, q) {
        q
    } else {
        block_close(s, q + 1)
    }
}

/// Where a block closes lies between `q` and the end, and a block does close there.
pub proof fn lemma_block_close_bounds(s: Seq<char>, q: int)
    requires
        0 <= q <= s.len(),
    ensures
        q <= block_close(s, q) <= s.len(),
        block_close(s, q) < s.len() ==> closes_block(s, block_close(s, q)),
    decreases s.len() - q,
{
    if q + 4 <= s.len() && !closes_block(s, q) {
        lemma_block_close_bounds(s, q + 1);
    }
}

/// A query block starts at `i` and is closed.
pub open spec fn block_at(s: Seq<char>, i: int) -> bool {
    opens_block(s, i) && block_close(s, i + 12) + 4 <= s.len()
}

/// The query text of the block that starts at `i`.
pub open spec fn block_query(s: Seq<char>, i: int) -> Seq<char> {
    s.subrange(i + 12, block_close(s, i + 12))
}

/// The index just after the block that starts at `i`.
pub open spec fn block_end(s: Seq<char>, i: int) -> int {
    block_close(s, i + 12) + 4
}

/// The queries of the blocks from index `i` on, scanning from the left and
/// resuming after each block.
pub open spec fn queries_from(s: Seq<char>, i: int) -> Seq<Seq<char>>
    decreases s.len() - i,
{
    if i < 0 || i >= s.len() {
        Seq::empty()
    } else if block_at(s, i) {
        proof {
            lemma_block_close_bounds(s, i + 12);
        }
        seq![block_query(s, i)] + queries_from(s, block_end(s, i))
    } else {
        queries_from(s, i + 1)
    }
}

/// The queries of all blocks of a note, in order.
pub open spec fn dataview_queries_of(s: Seq<char>) -> Seq<Seq<char>> {
    queries_from(s, 0)
}

/// The text from `i` on, each block replaced by the rendering of the next
/// answer of `outs`.
pub open spec fn dataview_from(
    s: Seq<char>,
    vault: Seq<char>,
    outs: Seq<QueryOutputView>,
    i: int,
) -> Seq<char>
    decreases s.len() - i,
{
    if i < 0 || i >= s.len() {
        Seq::empty()
    } else if block_at(s, i) {
        proof {
            lemma_block_close_bounds(s, i + 12);
        }
        rendered_output(outs[0], vault) + dataview_from(s, vault, outs.drop_first(), block_end(s, i))
    } else {
        seq![s[i]] + dataview_from(s, vault, outs, i + 1)
    }
}

/// The note with its `k`-th query block replaced by the rendering of `outs[k]`.
pub open spec fn converted_dataview(s: Seq<char>, vault: Seq<char>, outs: Seq<QueryOutputView>) -> Seq<
    char,
> {
    dataview_from(s, vault, outs, 0)
}

fn find_block_close(cs: &Vec<char>, q: usize) -> (r: usize)
    requires
        q <= cs.len(),
    ensures
        r == block_close(cs@, q as int),
        q <= r <= cs.len(),
{
    proof {
        lemma_block_close_bounds(cs@, q as int);
    }
    let mut j = q;
    while j < cs.len() && cs.len() - j >= 4 && !((cs[j] == '\n' || cs[j] == '\r') && cs[j + 1]
        == '`' && cs[j + 2] == '`' && cs[j + 3] == '`')
        invariant
            q <= j <= cs.len(),
            block_close(cs@, j as int) == block_close(cs@, q as int),
        decreases cs.len() - j,
    {
        j = j + 1;
    }
    if j < cs.len() && cs.len() - j >= 4 {
        j
    } else {
        cs.len()
    }
}

fn opens_block_exec(cs: &Vec<char>, i: usize) -> (r: bool)
    ensures
        r == opens_block(cs@, i as int),
{
    if i < cs.len() && cs.len() - i >= 12 {
        let r = cs[i] == '`' && cs[i + 1] == '`' && cs[i + 2] == '`' && cs[i + 3] == 'd' && cs[i
            + 4] == 'a' && cs[i + 5] == 't' && cs[i + 6] == 'a' && cs[i + 7] == 'v' && cs[i + 8]
            == 'i' && cs[i + 9] == 'e' && cs[i + 10] == 'w' && (cs[i + 11] == '\n' || cs[i + 11]
            == '\r');
        proof {
            if r {
                assert(cs@.subrange(i as int, i + 11) =~= block_opener());
            } else if cs@.subrange(i as int, i + 11) == block_opener() {
                assert(cs@.subrange(i as int, i + 11)[0] == cs@[i as int]);
                assert(cs@.subrange(i as int, i + 11)[1] == cs@[i + 1]);
                assert(cs@.subrange(i as int, i + 11)[2] == cs@[i + 2]);
                assert(cs@.subrange(i as int, i + 11)[3] == cs@[i + 3]);
                assert(cs@.subrange(i as int, i + 11)[4] == cs@[i + 4]);
                assert(cs@.subrange(i as int, i + 11)[5] == cs@[i + 5]);
                assert(cs@.subrange(i as int, i + 11)[6] == cs@[i + 6]);
                assert(cs@.subrange(i as int, i + 11)[7] == cs@[i + 7]);
                assert(cs@.subrange(i as int, i + 11)[8] == cs@[i + 8]);
                assert(cs@.subrange(i as int, i + 11)[9] == cs@[i + 9]);
                assert(cs@.subrange(i as int, i + 11)[10] == cs@[i + 10]);
            }
        }
        r
    } else {
        false
    }
}

/// Returns the index just after the block that starts at `i`, if one does.
fn block_at_exec(cs: &Vec<char>, i: usize) -> (r: Option<usize>)
    ensures
        r is Some <==> block_at(cs@, i as int),
        r matches Some(e) ==> e == block_end(cs@, i as int) && i + 16 <= e <= cs.len(),
{
    if opens_block_exec(cs, i) {
        let n = cs.len();
        assert(i + 12 <= n);
        let q = find_block_close(cs, i + 12);
        if q < cs.len() && cs.len() - q >= 4 {
            Some(q + 4)
        } else {
            None
        }
    } else {
        None
    }
}

/// The query texts of the ```` ```dataview ```` blocks of a note, in order.
/// A block is ```` ```dataview ````, a line break, the query, a line break
/// and ```` ``` ````; the query ends at the first such closing fence.
pub fn dataview_queries(md: &str) -> (r: Vec<String>)
    ensures
        r@.map_values(|q: String| q@) == dataview_queries_of(md@),
{
    let cs = chars_of(md);
    let mut r: Vec<String> = Vec::new();
    let mut i: usize = 0;
    while i < cs.len()
        invariant
            i <= cs.len(),
            cs@ == md@,
            r@.map_values(|q: String| q@) + queries_from(cs@, i as int) == dataview_queries_of(
                cs@,
            ),
        decreases cs.len() - i,
    {
        match block_at_exec(&cs, i) {
            Some(e) => {
                let qc = slice_chars(&cs, i + 12, e - 4);
                let q = string_of(&qc);
                let ghost before = r@.map_values(|q: String| q@);
                r.push(q);
                assert(r@.map_values(|q: String| q@) =~= before.push(q@));
                assert(r@.map_values(|q: String| q@) + queries_from(cs@, e as int) =~= before
                    + queries_from(cs@, i as int));
                i = e;
            },
            None => {
                i = i + 1;
            },
        }
    }
    assert(r@.map_values(|q: String| q@) =~= dataview_queries_of(cs@));
    r
}

/// The Markdown link to note `name` of the vault, labelled with the name;
/// `vault_part` is the vault's name as an escaped path segment.
fn note_link_exec(name: &String, vault_part: &String, Ghost(vault): Ghost<Seq<char>>) -> (r: String)
    requires
        vault_part@ == html_text(pathified(vault)),
    ensures
        r@ == note_link(name@, vault, name@),
{
    let path = pathify_str(name.as_str());
    let part = encode_html_text(path.as_str());
    let mut r = String::new();
    r.append("[");
    r.append(name.as_str());
    r.append("](");
    r.append("/vault/");
    r.append(vault_part.as_str());
    r.append("/note/");
    r.append(part.as_str());
    r.append(")");
    assert(r@ =~= note_link(name@, vault, name@));
    r
}

fn list_line_exec(e: &ListEntry, vault_part: &String, Ghost(vault): Ghost<Seq<char>>) -> (r: String)
    requires
        vault_part@ == html_text(pathified(vault)),
    ensures
        r@ == list_line(e@, vault),
{
    let mut r = String::new();
    r.append("- ");
    let ghost after_dash = r@;
    match &e.note_name {
        Some(n) => {
            let link = note_link_exec(n, vault_part, Ghost(vault));
            r.append(link.as_str());
        },
        None => {},
    }
    let ghost after_name = r@;
    match &e.additional_info {
        Some(a) => {
            r.append(": ");
            r.append(a.as_str());
        },
        None => {},
    }
    let ghost after_info = r@;
    r.append("\n");
    proof {
        let name_part = match e@.note_name {
            Some(n) => note_link(n, vault, n),
            None => Seq::<char>::empty(),
        };
        let info_part = match e@.additional_info {
            Some(a) => ": "@ + a,
            None => Seq::<char>::empty(),
        };
        assert(after_name =~= "- "@ + name_part);
        assert(after_info =~= "- "@ + name_part + info_part);
        assert(r@ =~= list_line(e@, vault));
    }
    r
}

/// The Markdown that stands in place of a query block whose answer is `o`:
/// a list answer becomes one `- ` line per entry (a link to the entry's
/// note, then `: ` and its additional information, each where present), or
/// a quoted notice when it is empty; an error answer becomes one quoted
/// line per message, then a line break.
pub fn render_query_output(o: &QueryOutput, vault_name: &String) -> (r: String)
    ensures
        r@ == rendered_output(o@, vault_name@),
{
    let vault_path = pathify_str(vault_name.as_str());
    let vault_part = encode_html_text(vault_path.as_str());
    render_output_exec(o, &vault_part, Ghost(vault_name@))
}

fn render_output_exec(o: &QueryOutput, vault_part: &String, Ghost(vault): Ghost<Seq<char>>) -> (r:
    String)
    requires
        vault_part@ == html_text(pathified(vault)),
    ensures
        r@ == rendered_output(o@, vault),
{
    let mut r = String::new();
    match o {
        QueryOutput::List(items) => {
            if items.len() == 0 {
                r.append("\n> `Dataview: No results to show for list query.`\n");
            } else {
                let ghost iv = items@.map_values(|e: ListEntry| e@);
                let mut k: usize = 0;
                while k < items.len()
                    invariant
                        k <= items.len(),
                        iv == items@.map_values(|e: ListEntry| e@),
                        vault_part@ == html_text(pathified(vault)),
                        r@ == list_lines(iv.take(k as int), vault),
                    decreases items.len() - k,
                {
                    let line = list_line_exec(&items[k], vault_part, Ghost(vault));
                    r.append(line.as_str());
                    assert(iv.take(k + 1).drop_last() =~= iv.take(k as int));
                    assert(iv.take(k + 1).last() == items@[k as int]@);
                    k = k + 1;
                }
                assert(iv.take(k as int) =~= iv);
            }
        },
        QueryOutput::Errors(errs) => {
            let ghost ev = errs@.map_values(|s: String| s@);
            let mut k: usize = 0;
            while k < errs.len()
                invariant
                    k <= errs.len(),
                    ev == errs@.map_values(|s: String| s@),
                    r@ == error_lines(ev.take(k as int)),
                decreases errs.len() - k,
            {
                let ghost before = r@;
                r.append("\n> `Dataview Error: ");
                r.append(errs[k].as_str());
                r.append("`");
                assert(ev.take(k + 1).drop_last() =~= ev.take(k as int));
                assert(ev.take(k + 1).last() == errs@[k as int]@);
                assert(r@ =~= before + error_line(errs@[k as int]@));
                k = k + 1;
            }
            assert(ev.take(k as int) =~= ev);
            r.append("\n");
        },
    }
    r
}

/// Replaces the `k`-th ```` ```dataview ```` block of a note (see
/// `dataview_queries`) with the rendering of `outputs[k]`, the vault's
/// answer to its query; other text is kept.
pub fn convert_dataview(in_md: String, vault_name: &String, outputs: &Vec<QueryOutput>) -> (r:
    String)
    requires
        outputs@.len() == dataview_queries_of(in_md@).len(),
    ensures
        r@ == converted_dataview(in_md@, vault_name@, outputs_view(outputs@)),
{
    let cs = chars_of(in_md.as_str());
    let vault_path = pathify_str(vault_name.as_str());
    let vault_part = encode_html_text(vault_path.as_str());
    let ghost ov = outputs_view(outputs@);
    let ghost vault = vault_name@;
    let mut out = String::new();
    let mut i: usize = 0;
    let mut k: usize = 0;
    assert(ov.skip(0) =~= ov);
    while i < cs.len()
        invariant
            i <= cs.len(),
            k <= outputs.len(),
            cs@ == in_md@,
            ov == outputs_view(outputs@),
            vault == vault_name@,
            vault_part@ == html_text(pathified(vault)),
            ov.skip(k as int).len() == queries_from(cs@, i as int).len(),
            out@ + dataview_from(cs@, vault, ov.skip(k as int), i as int) == converted_dataview(
                cs@,
                vault,
                ov,
            ),
        decreases cs.len() - i,
    {
        match block_at_exec(&cs, i) {
            Some(e) => {
                assert(ov.skip(k as int)[0] == outputs@[k as int]@);
                assert(ov.skip(k as int).drop_first() =~= ov.skip(k + 1));
                let piece = render_output_exec(&outputs[k], &vault_part, Ghost(vault));
                let ghost before = out@;
                out.append(piece.as_str());
                assert(out@ + dataview_from(cs@, vault, ov.skip(k + 1), e as int) =~= before
                    + dataview_from(cs@, vault, ov.skip(k as int), i as int));
                i = e;
                k = k + 1;
            },
            None => {
                let ghost before = out@;
                push_char(&mut out, cs[i]);
                assert(out@ + dataview_from(cs@, vault, ov.skip(k as int), i + 1) =~= before
                    + dataview_from(cs@, vault, ov.skip(k as int), i as int));
                i = i + 1;
            },
        }
    }
    assert(out@ =~= converted_dataview(cs@, vault, ov));
    out
}

proof fn lemma_dataview_from_plain(s: Seq<char>, vault: Seq<char>, outs: Seq<QueryOutputView>, i: int)
    requires
        0 <= i <= s.len(),
        queries_from(s, i).len() == 0,
    ensures
        dataview_from(s, vault, outs, i) == s.skip(i),
    decreases s.len() - i,
{
    if i < s.len() {
        assert(!block_at(s, i));
        lemma_dataview_from_plain(s, vault, outs, i + 1);
        assert(seq![s[i]] + s.skip(i + 1) =~= s.skip(i));
    } else {
        assert(s.skip(i) =~= Seq::<char>::empty());
    }
}

/// A note without query blocks is left unchanged by `convert_dataview`,
/// whatever answers are given.
pub proof fn lemma_no_blocks_unchanged(s: Seq<char>, vault: Seq<char>, outs: Seq<QueryOutputView>)
    requires
        dataview_queries_of(s).len() == 0,
    ensures
        converted_dataview(s, vault, outs) == s,
{
    lemma_dataview_from_plain(s, vault, outs, 0);
    assert(s.skip(0) =~= s);
}

proof fn lemma_block_close_at(s: Seq<char>, i: int, j: int)
    requires
        0 <= i <= j,
        forall|k: int| i <= k < j ==> !closes_block(s, k),
        closes_block(s, j),
    ensures
        block_close(s, i) == j,
    decreases j - i,
{
    if i < j {
        lemma_block_close_at(s, i + 1, j);
    }
}

proof fn lemma_block_close_shift(p: Seq<char>, r: Seq<char>, k: int)
    requires
        0 <= k,
    ensures
        block_close(p + r, p.len() + k) == p.len() + block_close(r, k),
    decreases r.len() - k,
{
    let s = p + r;
    if k + 4 <= r.len() {
        assert(closes_block(s, p.len() + k) == closes_block(r, k)) by {
            assert(s[p.len() + k] == r[k]);
            assert(s[p.len() + k + 1] == r[k + 1]);
            assert(s[p.len() + k + 2] == r[k + 2]);
            assert(s[p.len() + k + 3] == r[k + 3]);
        }
        if !closes_block(r, k) {
            lemma_block_close_shift(p, r, k + 1);
        }
    }
}

proof fn lemma_block_at_shift(p: Seq<char>, r: Seq<char>, j: int)
    requires
        0 <= j,
    ensures
        block_at(p + r, p.len() + j) == block_at(r, j),
        block_at(r, j) ==> block_end(p + r, p.len() + j) == p.len() + block_end(r, j)
            && block_query(p + r, p.len() + j) == block_query(r, j),
{
    let s = p + r;
    if j + 12 <= r.len() {
        assert(s.subrange(p.len() + j, p.len() + j + 11) =~= r.subrange(j, j + 11));
        assert(s[p.len() + j + 11] == r[j + 11]);
        lemma_block_close_shift(p, r, j + 12);
        if block_at(r, j) {
            lemma_block_close_bounds(r, j + 12);
            assert(block_query(s, p.len() + j) =~= block_query(r, j));
        }
    }
}

proof fn lemma_dataview_from_shift(
    p: Seq<char>,
    r: Seq<char>,
    vault: Seq<char>,
    outs: Seq<QueryOutputView>,
    j: int,
)
    requires
        0 <= j <= r.len(),
    ensures
        dataview_from(p + r, vault, outs, p.len() + j) == dataview_from(r, vault, outs, j),
        queries_from(p + r, p.len() + j) == queries_from(r, j),
    decreases r.len() - j,
{
    if j < r.len() {
        lemma_block_at_shift(p, r, j);
        if block_at(r, j) {
            lemma_block_close_bounds(r, j + 12);
            lemma_dataview_from_shift(p, r, vault, outs.drop_first(), block_end(r, j));
            lemma_dataview_from_shift(p, r, vault, outs, block_end(r, j));
        } else {
            lemma_dataview_from_shift(p, r, vault, outs, j + 1);
        }
        assert((p + r)[p.len() + j] == r[j]);
    }
}

/// A query block alone: ```` ```dataview ````, a line break, the query `q`,
/// a line break and ```` ``` ````.
pub open spec fn query_block(q: Seq<char>) -> Seq<char> {
    seq!['`', '`', '`', 'd', 'a', 't', 'a', 'v', 'i', 'e', 'w', '\n'] + q + seq!['\n', '`', '`', '`']
}

/// A note that starts with a query block (its query on one line) is
/// rendered as the answer to that query, `o`, followed by the rest of the
/// note rendered with the remaining answers: each block gets the answer to
/// its own query, in order. Its queries are that query, then those of the
/// rest.
pub proof fn lemma_leading_block(
    q: Seq<char>,
    rest: Seq<char>,
    vault: Seq<char>,
    o: QueryOutputView,
    outs: Seq<QueryOutputView>,
)
    requires
        forall|k: int| 0 <= k < q.len() ==> q[k] != '\n' && q[k] != '\r',
    ensures
        converted_dataview(query_block(q) + rest, vault, seq![o] + outs) == rendered_output(o, vault)
            + converted_dataview(rest, vault, outs),
        dataview_queries_of(query_block(q) + rest) == seq![q] + dataview_queries_of(rest),
{
    let b = query_block(q);
    let s = b + rest;
    let n = q.len() as int;
    assert(s.subrange(0, 11) =~= block_opener());
    assert(s[11] == '\n');
    assert forall|k: int| 12 <= k < 12 + n implies !closes_block(s, k) by {
        assert(s[k] == q[k - 12]);
    }
    assert(s[12 + n] == '\n');
    assert(s[12 + n + 1] == '`');
    assert(s[12 + n + 2] == '`');
    assert(s[12 + n + 3] == '`');
    lemma_block_close_at(s, 12, 12 + n);
    assert(block_at(s, 0));
    assert(block_end(s, 0) == b.len());
    assert(block_query(s, 0) =~= q);
    assert((seq![o] + outs).drop_first() =~= outs);
    assert((seq![o] + outs)[0] == o);
    lemma_dataview_from_shift(b, rest, vault, outs, 0);
}

} // verus!
