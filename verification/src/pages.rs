//! The data that the HTML pages are rendered from, and the choices of what
//! a page shows.

use vstd::prelude::*;

verus! {

broadcast use vstd::string::group_string_axioms;

/// The frame of every page: its title and colour scheme.
pub struct BaseTemplate<'a> {
    pub pagetitle: &'a str,
    pub dark_mode: bool,
}

/// A note as shown on its page: its name, its tags and its rendered body.
pub struct Note {
    pub name: String,
    pub tags: Vec<String>,
    pub content: String,
}

/// The name of the note that a vault's page opens with when it has one.
pub open spec fn index_note_name() -> Seq<char> {
    "Index"@
}

/// The note that a vault's page opens with, among the vault's notes in
/// their order: the note named `Index` if there is one, else the first
/// note; none for a vault without notes.
pub open spec fn landing_note_of(names: Seq<Seq<char>>) -> Option<int> {
    if names.contains(index_note_name()) {
        Some(choose|i: int| 0 <= i < names.len() && names[i] == index_note_name() && forall|j: int|
            0 <= j < i ==> names[j] != index_note_name())
    } else if names.len() > 0 {
        Some(0)
    } else {
        None
    }
}

/// Chooses the note that a vault's page opens with (see `landing_note_of`).
pub fn landing_note(note_names: &Vec<String>) -> (r: Option<usize>)
    ensures
        match landing_note_of(note_names@.map_values(|s: String| s@)) {
            Some(i) => r == Some(i as usize),
            None => r is None,
        },
{
    let ghost names = note_names@.map_values(|s: String| s@);
    let index = String::from_str("Index");
    let mut k: usize = 0;
    while k < note_names.len()
        invariant
            k <= note_names.len(),
            names == note_names@.map_values(|s: String| s@),
            index@ == index_note_name(),
            forall|j: int| 0 <= j < k ==> names[j] != index_note_name(),
        decreases note_names.len() - k,
    {
        if note_names[k] == index {
            proof {
                assert(names[k as int] == index_note_name());
                let c = choose|i: int| 0 <= i < names.len() && names[i] == index_note_name()
                    && forall|j: int| 0 <= j < i ==> names[j] != index_note_name();
                assert(names.contains(index_note_name()));
                assert(c == k) by {
                    if c < k {
                    } else if c > k {
                        assert(names[k as int] != index_note_name());
                    }
                }
            }
            return Some(k);
        }
        k = k + 1;
    }
    assert(!names.contains(index_note_name()));
    if note_names.len() > 0 {
        Some(0)
    } else {
        None
    }
}

} // verus!
