//! Texts as sequences of characters: views of strings and lists without repeats.
use vstd::prelude::*;

verus! {

/// The characters of a text that may be absent.
pub open spec fn option_text(text: Option<String>) -> Option<Seq<char>> {
    match text {
        Some(s) => Some(s@),
        None => None,
    }
}

/// The characters of each text of a list.
pub open spec fn texts(list: Seq<String>) -> Seq<Seq<char>> {
    list.map_values(|s: String| s@)
}

/// A list without its repeats: each text once, at the place where it first came.
pub open spec fn distinct(list: Seq<Seq<char>>) -> Seq<Seq<char>>
    decreases list.len(),
{
    if list.len() == 0 {
        Seq::empty()
    } else {
        let rest = distinct(list.drop_last());
        if rest.contains(list.last()) {
            rest
        } else {
            rest.push(list.last())
        }
    }
}

/// A list without its repeats holds the texts of the list, and none twice.
pub proof fn lemma_distinct(list: Seq<Seq<char>>)
    ensures
        distinct(list).no_duplicates(),
        distinct(list).len() <= list.len(),
        forall|text: Seq<char>| distinct(list).contains(text) <==> list.contains(text),
    decreases list.len(),
{
    if list.len() > 0 {
        let shorter = list.drop_last();
        let rest = distinct(shorter);
        lemma_distinct(shorter);
        assert forall|text: Seq<char>| distinct(list).contains(text) <==> list.contains(text) by {
            assert(rest.contains(text) <==> shorter.contains(text));
            if list.contains(text) {
                let i = choose|i: int| 0 <= i < list.len() && list[i] == text;
                if i < shorter.len() {
                    assert(shorter[i] == text);
                    assert(shorter.contains(text));
                    let j = choose|j: int| 0 <= j < rest.len() && rest[j] == text;
                    assert(distinct(list)[j] == text);
                } else {
                    if !rest.contains(text) {
                        assert(distinct(list)[rest.len() as int] == text);
                    }
                }
            }
            if distinct(list).contains(text) {
                let j = choose|j: int| 0 <= j < distinct(list).len() && distinct(list)[j] == text;
                if j < rest.len() {
                    assert(rest[j] == text);
                    assert(rest.contains(text));
                    assert(shorter.contains(text));
                    let i = choose|i: int| 0 <= i < shorter.len() && shorter[i] == text;
                    assert(list[i] == text);
                } else {
                    assert(list[list.len() - 1] == text);
                }
            }
        }
    }
}

/// Whether a list holds a text.
pub fn contains_text(list: &Vec<String>, text: &String) -> (found: bool)
    ensures
        found == texts(list@).contains(text@),
{
    let mut i: usize = 0;
    while i < list.len()
        invariant
            i <= list.len(),
            forall|j: int| 0 <= j < i ==> texts(list@)[j] != text@,
        decreases list.len() - i,
    {
        if list[i] == *text {
            assert(texts(list@)[i as int] == text@);
            return true;
        }
        i = i + 1;
    }
    false
}

/// Copies a list without its repeats.
pub fn distinct_texts(list: &Vec<String>) -> (kept: Vec<String>)
    ensures
        texts(kept@) == distinct(texts(list@)),
{
    let mut kept: Vec<String> = Vec::new();
    let mut i: usize = 0;
    assert(texts(list@).take(0) =~= Seq::<Seq<char>>::empty());
    assert(texts(kept@) =~= Seq::<Seq<char>>::empty());
    while i < list.len()
        invariant
            i <= list.len(),
            texts(kept@) == distinct(texts(list@).take(i as int)),
        decreases list.len() - i,
    {
        let ghost before = texts(kept@);
        assert(texts(list@).take(i + 1).drop_last() =~= texts(list@).take(i as int));
        assert(texts(list@).take(i + 1).last() == list@[i as int]@);
        if !contains_text(&kept, &list[i]) {
            kept.push(list[i].clone());
            assert(texts(kept@) =~= before.push(list@[i as int]@));
        }
        i = i + 1;
    }
    assert(texts(list@).take(list.len() as int) =~= texts(list@));
    kept
}

} // verus!
