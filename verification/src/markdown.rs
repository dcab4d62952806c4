//! Preparing a note for rendering: wiki links and query blocks are
//! rewritten; the options that comrak renders notes with.

use vstd::prelude::*;
use crate::links::{convert_links, converted_links};
use crate::dataview::{
    convert_dataview, converted_dataview, dataview_queries, dataview_queries_of, outputs_view,
    QueryOutput,
};

verus! {

broadcast use vstd::string::group_string_axioms;

/// The Markdown options that notes are rendered with (each one a comrak
/// option of the same name; `unsafe_html` is comrak's raw-HTML render option).
pub struct MarkdownOptions {
    pub strikethrough: bool,
    pub tagfilter: bool,
    pub table: bool,
    pub autolink: bool,
    pub tasklist: bool,
    pub superscript: bool,
    pub header_ids: Option<String>,
    pub footnotes: bool,
    pub front_matter_delimiter: Option<String>,
    pub underline: bool,
    pub spoiler: bool,
    pub unsafe_html: bool,
    pub hardbreaks: bool,
}

pub ghost struct MarkdownOptionsView {
    pub strikethrough: bool,
    pub tagfilter: bool,
    pub table: bool,
    pub autolink: bool,
    pub tasklist: bool,
    pub superscript: bool,
    pub header_ids: Option<Seq<char>>,
    pub footnotes: bool,
    pub front_matter_delimiter: Option<Seq<char>>,
    pub underline: bool,
    pub spoiler: bool,
    pub unsafe_html: bool,
    pub hardbreaks: bool,
}

impl View for MarkdownOptions {
    type V = MarkdownOptionsView;

    open spec fn view(&self) -> MarkdownOptionsView {
        MarkdownOptionsView {
            strikethrough: self.strikethrough,
            tagfilter: self.tagfilter,
            table: self.table,
            autolink: self.autolink,
            tasklist: self.tasklist,
            superscript: self.superscript,
            header_ids: crate::dataview::opt_view(self.header_ids),
            footnotes: self.footnotes,
            front_matter_delimiter: crate::dataview::opt_view(self.front_matter_delimiter),
            underline: self.underline,
            spoiler: self.spoiler,
            unsafe_html: self.unsafe_html,
            hardbreaks: self.hardbreaks,
        }
    }
}

/// The options notes are rendered with: every extension above on, header
/// ids without prefix, `---` front matter, raw HTML kept, soft line breaks
/// rendered as hard ones.
pub open spec fn note_options() -> MarkdownOptionsView {
    MarkdownOptionsView {
        strikethrough: true,
        tagfilter: true,
        table: true,
        autolink: true,
        tasklist: true,
        superscript: true,
        header_ids: Some(Seq::empty()),
        footnotes: true,
        front_matter_delimiter: Some(seq!['-', '-', '-']),
        underline: true,
        spoiler: true,
        unsafe_html: true,
        hardbreaks: true,
    }
}

/// The options notes are rendered with.
pub fn markdown_options() -> (r: MarkdownOptions)
    ensures
        r@ == note_options(),
{
    let r = MarkdownOptions {
        strikethrough: true,
        tagfilter: true,
        table: true,
        autolink: true,
        tasklist: true,
        superscript: true,
        header_ids: Some(String::new()),
        footnotes: true,
        front_matter_delimiter: Some(crate::text::string_of(&vec!['-', '-', '-'])),
        underline: true,
        spoiler: true,
        unsafe_html: true,
        hardbreaks: true,
    };
    assert(r@.front_matter_delimiter == Some(seq!['-', '-', '-']));
    r
}

/// The Markdown of a note with its wiki links rewritten, before its query
/// blocks are answered.
pub open spec fn linked_note(md: Seq<char>, vault: Seq<char>) -> Seq<char> {
    converted_links(md, vault)
}

/// The queries to put to the vault for a note, in the order that `parse_md`
/// expects their answers: those of the note's query blocks once its wiki
/// links are rewritten.
pub fn note_queries(in_md: &String, vault_name: &String) -> (r: Vec<String>)
    ensures
        r@.map_values(|q: String| q@) == dataview_queries_of(linked_note(in_md@, vault_name@)),
{
    let linked = convert_links(in_md.clone(), vault_name);
    dataview_queries(linked.as_str())
}

/// The Markdown of a note of the vault `vault_name` made ready for
/// rendering: its wiki links are rewritten (`convert_links`), then its query
/// blocks are replaced by the rendered answers `outputs` to `note_queries`
/// (`convert_dataview`).
pub fn prepare_md(in_md: String, vault_name: &String, outputs: &Vec<QueryOutput>) -> (r: String)
    requires
        outputs@.len() == dataview_queries_of(linked_note(in_md@, vault_name@)).len(),
    ensures
        r@ == converted_dataview(linked_note(in_md@, vault_name@), vault_name@, outputs_view(outputs@)),
{
    let linked = convert_links(in_md, vault_name);
    convert_dataview(linked, vault_name, outputs)
}

} // verus!
