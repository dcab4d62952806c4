use vault_web::dataview::{convert_dataview, dataview_queries, render_query_output, ListEntry, QueryOutput};
use vault_web::links::convert_links;
use vault_web::markdown::{markdown_options, note_queries, prepare_md};
use vault_web::paths::{name_from_segment, pathify, pathify_str};
use vault_web::tags::condense_tags;

fn s(x: &str) -> String {
    x.to_string()
}

fn links(md: &str, vault: &str) -> String {
    convert_links(s(md), &s(vault))
}

#[test]
fn pathify_replaces_spaces_and_slashes() {
    assert_eq!(pathify("My Note/part two").unwrap(), "My_Note%2Fpart_two");
    assert_eq!(pathify_str("plain"), "plain");
    assert_eq!(pathify_str(""), "");
}

#[test]
fn segment_names_read_underscores_as_spaces() {
    assert_eq!(name_from_segment("My_Note"), "My Note");
    assert_eq!(name_from_segment(&pathify_str("Daily log 2024")), "Daily log 2024");
}

#[test]
fn wiki_link_without_label() {
    assert_eq!(
        links("see [[My Note]] now", "My Vault"),
        "see [My Note](/vault/My_Vault/note/My_Note) now"
    );
}

#[test]
fn wiki_link_with_label() {
    assert_eq!(links("[[target|shown text]]", "v"), "[shown text](/vault/v/note/target)");
    assert_eq!(links("[[a|b|c]]", "v"), "[b|c](/vault/v/note/a)");
}

#[test]
fn wiki_link_bar_at_edges() {
    assert_eq!(links("[[a|]]", "v"), "[a](/vault/v/note/a|)");
    assert_eq!(links("[[|b]]", "v"), "[b](/vault/v/note/|b)");
}

#[test]
fn wiki_link_escapes_html_in_url() {
    assert_eq!(links("[[x<y & z]]", "a/b"), "[x<y & z](/vault/a%2Fb/note/x&lt;y_&amp;_z)");
}

#[test]
fn text_without_links_is_kept() {
    assert_eq!(links("no links [here] or [[ there", "v"), "no links [here] or [[ there");
    assert_eq!(links("[[]]", "v"), "[[]]");
    assert_eq!(links("[[a]b]]", "v"), "[[a]b]]");
    assert_eq!(links("", "v"), "");
}

#[test]
fn wiki_link_after_extra_bracket() {
    assert_eq!(links("[[[a]]", "v"), "[[a](/vault/v/note/[a)");
    assert_eq!(links("[[a]] and [[b]]", "v"), "[a](/vault/v/note/a) and [b](/vault/v/note/b)");
}

#[test]
fn dataview_queries_are_found_in_order() {
    let md = "intro\n```dataview\nLIST FROM #a\n```\nmid\r```dataview\rTABLE x\r```";
    assert_eq!(dataview_queries(md), vec![s("LIST FROM #a"), s("TABLE x")]);
    assert!(dataview_queries("```dataview\n```").is_empty());
    assert!(dataview_queries("```dataview no newline\n```").is_empty());
    assert_eq!(dataview_queries("```dataview\n\n```"), vec![s("")]);
}

#[test]
fn dataview_list_answer() {
    let md = s("a\n```dataview\nLIST\n```\nb");
    let out = QueryOutput::List(vec![
        ListEntry { note_name: Some(s("Note One")), additional_info: Some(s("info")) },
        ListEntry { note_name: None, additional_info: None },
    ]);
    assert_eq!(
        convert_dataview(md, &s("V x"), &vec![out]),
        "a\n- [Note One](/vault/V_x/note/Note_One): info\n- \n\nb"
    );
}

#[test]
fn dataview_empty_list_and_errors() {
    assert_eq!(
        render_query_output(&QueryOutput::List(vec![]), &s("v")),
        "\n> `Dataview: No results to show for list query.`\n"
    );
    assert_eq!(
        render_query_output(&QueryOutput::Errors(vec![s("bad"), s("worse")]), &s("v")),
        "\n> `Dataview Error: bad`\n> `Dataview Error: worse`\n"
    );
    assert_eq!(render_query_output(&QueryOutput::Errors(vec![]), &s("v")), "\n");
}

#[test]
fn dataview_text_without_blocks_is_kept() {
    assert_eq!(convert_dataview(s("```rust\nx\n```"), &s("v"), &vec![]), "```rust\nx\n```");
}

#[test]
fn note_preparation_rewrites_links_then_blocks() {
    let md = s("[[Home]]\n```dataview\nLIST\n```");
    let qs = note_queries(&md, &s("v"));
    assert_eq!(qs, vec![s("LIST")]);
    let out = prepare_md(md, &s("v"), &vec![QueryOutput::List(vec![])]);
    assert_eq!(out, "[Home](/vault/v/note/Home)\n\n> `Dataview: No results to show for list query.`\n");
}

#[test]
fn markdown_options_of_notes() {
    let o = markdown_options();
    assert!(o.strikethrough && o.tagfilter && o.table && o.autolink && o.tasklist);
    assert!(o.superscript && o.footnotes && o.underline && o.spoiler && o.unsafe_html && o.hardbreaks);
    assert_eq!(o.header_ids, Some(s("")));
    assert_eq!(o.front_matter_delimiter, Some(s("---")));
}

#[test]
fn condense_tags_drops_parents() {
    let tags = vec![s("a"), s("a/b"), s("c"), s("ab"), s("a/b/c")];
    assert_eq!(condense_tags(tags), vec![s("c"), s("ab"), s("a/b/c")]);
}

#[test]
fn condense_tags_keeps_duplicates_and_order() {
    let tags = vec![s("x"), s("y"), s("x")];
    assert_eq!(condense_tags(tags), vec![s("x"), s("y"), s("x")]);
    assert_eq!(condense_tags(vec![]), Vec::<String>::new());
    assert_eq!(condense_tags(vec![s("a/"), s("a")]), vec![s("a/")]);
}

#[test]
fn condense_tags_twice_is_once() {
    let tags = vec![s("a"), s("a/b"), s("b"), s("b/c/d"), s("b/c")];
    let once = condense_tags(tags);
    assert_eq!(condense_tags(once.clone()), once);
}

#[test]
fn condense_tags_ignores_order() {
    let a = condense_tags(vec![s("a"), s("a/b"), s("c")]);
    let mut b = condense_tags(vec![s("c"), s("a/b"), s("a")]);
    b.sort();
    let mut a_sorted = a.clone();
    a_sorted.sort();
    assert_eq!(a_sorted, b);
}

#[test]
fn condense_tags_of_doubled_list() {
    let x = vec![s("a"), s("a/b"), s("d")];
    let doubled = [x.clone(), x.clone()].concat();
    let once = condense_tags(x);
    assert_eq!(condense_tags(doubled), [once.clone(), once].concat());
}
