//! The layout of the full-text search index: its fields, the document that
//! each note becomes, and the fields that queries search.

use vstd::prelude::*;

verus! {

broadcast use vstd::string::group_string_axioms;

/// The fields of the search index.
#[derive(PartialEq, Eq, Structural, Clone, Copy, Debug)]
pub enum IndexField {
    Title,
    Vault,
    Tag,
    Body,
}

/// How a field's text is indexed: split into words, or kept whole.
#[derive(PartialEq, Eq, Structural, Clone, Copy, Debug)]
pub enum FieldKind {
    Words,
    Whole,
}

/// The memory budget of the index writer, in bytes.
pub const INDEX_WRITER_MEMORY: usize = 50_000_000;

/// The most hits that one search returns.
pub const SEARCH_LIMIT: usize = 50;

/// The name of a field in the index schema.
pub open spec fn spec_field_name(f: IndexField) -> Seq<char> {
    match f {
        IndexField::Title => "title"@,
        IndexField::Vault => "vault"@,
        IndexField::Tag => "tag"@,
        IndexField::Body => "body"@,
    }
}

/// How a field is indexed: titles and bodies by words, vaults and tags
/// whole.
pub open spec fn spec_field_kind(f: IndexField) -> FieldKind {
    match f {
        IndexField::Title | IndexField::Body => FieldKind::Words,
        IndexField::Vault | IndexField::Tag => FieldKind::Whole,
    }
}

/// Whether a field's text is stored in the index: every field is.
pub open spec fn spec_field_stored(f: IndexField) -> bool {
    true
}

/// Whether a field's text is stored in the index, so that hits can show it.
pub fn field_stored(f: IndexField) -> (r: bool)
    ensures
        r == spec_field_stored(f),
{
    true
}

/// The name of a field in the index schema.
pub fn field_name(f: IndexField) -> (r: String)
    ensures
        r@ == spec_field_name(f),
{
    match f {
        IndexField::Title => String::from_str("title"),
        IndexField::Vault => String::from_str("vault"),
        IndexField::Tag => String::from_str("tag"),
        IndexField::Body => String::from_str("body"),
    }
}

/// How a field is indexed.
pub fn field_kind(f: IndexField) -> (r: FieldKind)
    ensures
        r == spec_field_kind(f),
{
    match f {
        IndexField::Title | IndexField::Body => FieldKind::Words,
        IndexField::Vault | IndexField::Tag => FieldKind::Whole,
    }
}

/// The fields of the schema, in the order they are added to it.
pub fn schema_fields() -> (r: Vec<IndexField>)
    ensures
        r@ == seq![IndexField::Title, IndexField::Vault, IndexField::Tag, IndexField::Body],
{
    vec![IndexField::Title, IndexField::Vault, IndexField::Tag, IndexField::Body]
}

/// The fields that a query searches when it names none.
pub fn default_query_fields() -> (r: Vec<IndexField>)
    ensures
        r@ == seq![IndexField::Title, IndexField::Body, IndexField::Vault],
{
    vec![IndexField::Title, IndexField::Body, IndexField::Vault]
}

/// The document that a note becomes: its title, its vault, one value per
/// tag in order, and its body.
pub open spec fn document_of(
    title: Seq<char>,
    vault: Seq<char>,
    tags: Seq<Seq<char>>,
    body: Seq<char>,
) -> Seq<(IndexField, Seq<char>)> {
    seq![(IndexField::Title, title), (IndexField::Vault, vault)] + tags.map_values(
        |t: Seq<char>| (IndexField::Tag, t),
    ) + seq![(IndexField::Body, body)]
}

pub open spec fn document_view(d: Seq<(IndexField, String)>) -> Seq<(IndexField, Seq<char>)> {
    d.map_values(|e: (IndexField, String)| (e.0, e.1@))
}

/// The document that a note of a vault becomes in the index (see
/// `document_of`).
pub fn note_document(title: &String, vault: &String, tags: &Vec<String>, body: &String) -> (r: Vec<
    (IndexField, String),
>)
    ensures
        document_view(r@) == document_of(
            title@,
            vault@,
            tags@.map_values(|t: String| t@),
            body@,
        ),
{
    let ghost tv = tags@.map_values(|t: String| t@);
    let mut r: Vec<(IndexField, String)> = Vec::new();
    r.push((IndexField::Title, title.clone()));
    r.push((IndexField::Vault, vault.clone()));
    let mut k: usize = 0;
    while k < tags.len()
        invariant
            k <= tags.len(),
            tv == tags@.map_values(|t: String| t@),
            document_view(r@) == seq![(IndexField::Title, title@), (IndexField::Vault, vault@)]
                + tv.take(k as int).map_values(|t: Seq<char>| (IndexField::Tag, t)),
        decreases tags.len() - k,
    {
        let ghost before = document_view(r@);
        r.push((IndexField::Tag, tags[k].clone()));
        assert(document_view(r@) =~= before.push((IndexField::Tag, tv[k as int])));
        assert(tv.take(k + 1).map_values(|t: Seq<char>| (IndexField::Tag, t)) =~= tv.take(
            k as int,
        ).map_values(|t: Seq<char>| (IndexField::Tag, t)).push((IndexField::Tag, tv[k as int])));
        k = k + 1;
    }
    let ghost before = document_view(r@);
    r.push((IndexField::Body, body.clone()));
    assert(tv.take(k as int) =~= tv);
    assert(document_view(r@) =~= before.push((IndexField::Body, body@)));
    r
}

} // verus!
