//! Sets of names held in a `Vec<String>` without repeats.
use vstd::prelude::*;

use crate::tree::same_text;

verus! {

/// The texts of a sequence of strings.
pub open spec fn texts(v: Seq<String>) -> Seq<Seq<char>> {
    v.map_values(|s: String| s@)
}

/// The set of texts of a sequence of strings.
pub open spec fn text_set(v: Seq<String>) -> Set<Seq<char>> {
    texts(v).to_set()
}

/// A sequence of strings used as a set: no text occurs twice.
pub open spec fn is_name_set(v: Seq<String>) -> bool {
    texts(v).no_duplicates()
}

/// Whether `names` holds the text `s`.
pub fn contains_text(names: &Vec<String>, s: &str) -> (r: bool)
    ensures
        r == text_set(names@).contains(s@),
{
    let mut i: usize = 0;
    while i < names.len()
        invariant
            i <= names@.len(),
            forall|j: int| 0 <= j < i ==> names@[j]@ != s@,
        decreases names.len() - i,
    {
        if same_text(names[i].as_str(), s) {
            assert(texts(names@)[i as int] == s@);
            return true;
        }
        i = i + 1;
    }
    assert(!texts(names@).contains(s@));
    false
}

/// Adds `name` to the name set `names`, unless it is there already.
pub fn insert_name(names: &mut Vec<String>, name: String)
    requires
        is_name_set(old(names)@),
    ensures
        is_name_set(final(names)@),
        text_set(final(names)@) == text_set(old(names)@).insert(name@),
{
    if contains_text(names, name.as_str()) {
        assert(text_set(names@).insert(name@) == text_set(names@));
    } else {
        let ghost before = names@;
        names.push(name);
        proof {
            assert(texts(names@) == texts(before).push(name@));
            texts(before).lemma_push_to_set_commute(name@);
            assert(!texts(before).contains(name@));
            assert forall|i: int, j: int|
                0 <= i < texts(names@).len() && 0 <= j < texts(names@).len() && i != j
                implies texts(names@)[i] != texts(names@)[j] by {
                if i == before.len() {
                    assert(texts(before)[j] == texts(names@)[j]);
                } else if j == before.len() {
                    assert(texts(before)[i] == texts(names@)[i]);
                }
            }
        }
    }
}

} // verus!
