use vault_web::search::{
    body_excerpt, check_search_query, highlight, respond_to_search, search_reply, search_result,
    snippet_is_well_formed, SearchHit, SearchOutcome, SnippetText,
};

fn s(x: &str) -> String {
    x.to_string()
}

fn hit(vault: &str, snippet: SnippetText, body: Option<&str>) -> SearchHit {
    SearchHit {
        title: Some(s("T")),
        vault: Some(s(vault)),
        body: body.map(s),
        tags: vec![s("x"), s("x/y")],
        snippet,
    }
}

fn no_snippet() -> SnippetText {
    SnippetText { fragment: s(""), highlighted: vec![] }
}

#[test]
fn empty_query_is_refused() {
    let r = check_search_query("").unwrap();
    assert_eq!(r.status, 400);
    assert!(!r.response.success);
    assert_eq!(r.response.message, Some(s("Empty search body!")));
    assert!(r.response.results.is_none());
}

#[test]
fn long_query_is_refused() {
    let q = "a".repeat(1001);
    let r = check_search_query(&q).unwrap();
    assert_eq!(r.status, 400);
    assert_eq!(r.response.message, Some(s("Search body was too long!")));
    assert!(check_search_query(&"a".repeat(1000)).is_none());
    // 500 characters of two bytes each are 1000 bytes
    assert!(check_search_query(&"é".repeat(500)).is_none());
    assert!(check_search_query(&"é".repeat(501)).is_some());
}

#[test]
fn ordinary_query_is_accepted() {
    assert!(check_search_query("tag:rust").is_none());
}

#[test]
fn highlight_wraps_ranges() {
    let sn = SnippetText { fragment: s("hello world"), highlighted: vec![(0, 5), (6, 11)] };
    assert!(snippet_is_well_formed(&sn));
    assert_eq!(highlight(&sn), "<b>hello</b> <b>world</b>");
    let none = SnippetText { fragment: s("plain"), highlighted: vec![] };
    assert_eq!(highlight(&none), "plain");
}

#[test]
fn highlight_with_multibyte_text() {
    let sn = SnippetText { fragment: s("café au lait"), highlighted: vec![(0, 5)] };
    assert!(snippet_is_well_formed(&sn));
    assert_eq!(highlight(&sn), "<b>café</b> au lait");
}

#[test]
fn ill_formed_snippets_are_detected() {
    let inside_char = SnippetText { fragment: s("café"), highlighted: vec![(0, 4)] };
    assert!(!snippet_is_well_formed(&inside_char));
    let out_of_order = SnippetText { fragment: s("abcdef"), highlighted: vec![(3, 4), (1, 2)] };
    assert!(!snippet_is_well_formed(&out_of_order));
    let too_long = SnippetText { fragment: s("ab"), highlighted: vec![(1, 3)] };
    assert!(!snippet_is_well_formed(&too_long));
}

#[test]
fn excerpt_of_long_and_short_bodies() {
    let long = "a".repeat(200);
    assert_eq!(body_excerpt(&long), format!("{}...", "a".repeat(150)));
    assert_eq!(body_excerpt("short"), "short...");
    assert_eq!(body_excerpt(""), "...");
    // a letter with a combining accent is one cluster
    let clusters = "e\u{301}".repeat(151);
    assert_eq!(body_excerpt(&clusters), format!("{}...", "e\u{301}".repeat(150)));
}

#[test]
fn result_of_hit_with_snippet() {
    let sn = SnippetText { fragment: s("a match here"), highlighted: vec![(2, 7)] };
    let r = search_result(&hit("V", sn, Some("ignored")));
    assert_eq!(r.title, "T");
    assert_eq!(r.vault, "V");
    assert_eq!(r.tags, vec![s("x/y")]);
    assert_eq!(r.body, "...a <b>match</b> here...");
}

#[test]
fn result_of_hit_without_snippet() {
    let r = search_result(&hit("V", no_snippet(), Some("body text")));
    assert_eq!(r.body, "body text...");
    let r = search_result(&hit("V", no_snippet(), None));
    assert_eq!(r.body, "");
    let bare = SearchHit { title: None, vault: None, body: None, tags: vec![], snippet: no_snippet() };
    let r = search_result(&bare);
    assert_eq!((r.title.as_str(), r.vault.as_str()), ("", ""));
}

#[test]
fn reply_with_known_vaults() {
    let hits = vec![hit("A", no_snippet(), Some("one")), hit("B", no_snippet(), Some("two"))];
    let r = search_reply(SearchOutcome::Hits(hits), &vec![s("A"), s("B")]);
    assert_eq!(r.status, 200);
    assert!(r.response.success);
    assert!(r.response.message.is_none());
    let results = r.response.results.unwrap();
    assert_eq!(results.len(), 2);
    assert_eq!(results[1].body, "two...");
}

#[test]
fn reply_with_unknown_vault() {
    let hits = vec![hit("A", no_snippet(), None), hit("Z", no_snippet(), None)];
    let r = search_reply(SearchOutcome::Hits(hits), &vec![s("A")]);
    assert_eq!(r.status, 500);
    assert!(!r.response.success);
    assert_eq!(
        r.response.message,
        Some(s("Something went wrong on our end! Could not find vault in search result."))
    );
}

#[test]
fn reply_to_failed_parse_and_search() {
    let r = search_reply(SearchOutcome::ParseFailed, &vec![]);
    assert_eq!(r.status, 500);
    assert_eq!(r.response.message, Some(s("Something went wrong on our end!")));
    let r = search_reply(SearchOutcome::SearchFailed, &vec![]);
    assert_eq!(r.status, 400);
    assert_eq!(r.response.message, Some(s("Search body was malformed!")));
    let r = search_reply(SearchOutcome::Hits(vec![]), &vec![]);
    assert_eq!(r.status, 200);
    assert_eq!(r.response.results.unwrap().len(), 0);
}

#[test]
fn respond_to_search_keeps_parts() {
    let r = respond_to_search(false, Some(s("m")), None);
    assert!(!r.success);
    assert_eq!(r.message, Some(s("m")));
    assert!(r.results.is_none());
}

#[test]
fn checked_reply_stops_at_misfit_snippets() {
    let bad = SnippetText { fragment: s("café"), highlighted: vec![(0, 4)] };
    let hits = vec![hit("A", bad, None)];
    assert!(vault_web::search::search_reply_checked(SearchOutcome::Hits(hits), &vec![s("A")]).is_none());
    // a misfit snippet after a hit of an unknown vault is never reached
    let bad = SnippetText { fragment: s("café"), highlighted: vec![(0, 4)] };
    let hits = vec![hit("Z", no_snippet(), None), hit("A", bad, None)];
    let r = vault_web::search::search_reply_checked(SearchOutcome::Hits(hits), &vec![s("A")]).unwrap();
    assert_eq!(r.status, 500);
    let ok = vault_web::search::search_reply_checked(SearchOutcome::SearchFailed, &vec![]).unwrap();
    assert_eq!(ok.status, 400);
}
