//! Lists of strings in which nothing occurs twice.
//!
//! A list without repetition stands for a set whose order is fixed: an element
//! sits where it was first seen.

use vstd::prelude::*;

verus! {

/// `s` with `a` added at the end unless `s` holds it already.
pub open spec fn insert_distinct<A>(s: Seq<A>, a: A) -> Seq<A> {
    if s.contains(a) {
        s
    } else {
        s.push(a)
    }
}

/// `s` with the elements of `more` added one by one, in order, each unless it
/// is already there.
pub open spec fn merge_distinct<A>(s: Seq<A>, more: Seq<A>) -> Seq<A>
    decreases more.len(),
{
    if more.len() == 0 {
        s
    } else {
        insert_distinct(merge_distinct(s, more.drop_last()), more.last())
    }
}

/// `s` without its repeated elements: every element stays at the place of its
/// first occurrence.
pub open spec fn first_occurrences<A>(s: Seq<A>) -> Seq<A> {
    merge_distinct(Seq::empty(), s)
}

/// Adding an element to a list without repetition keeps it so, and adds
/// exactly that element to what the list holds.
pub proof fn lemma_insert_distinct<A>(s: Seq<A>, a: A)
    requires
        s.no_duplicates(),
    ensures
        insert_distinct(s, a).no_duplicates(),
        forall|x: A| #[trigger] insert_distinct(s, a).contains(x) <==> (s.contains(x) || x == a),
{
    let t = insert_distinct(s, a);
    if !s.contains(a) {
        assert forall|x: A| #[trigger] t.contains(x) <==> (s.contains(x) || x == a) by {
            if t.contains(x) {
                let i = choose|i: int| 0 <= i < t.len() && t[i] == x;
                if i < s.len() {
                    assert(s[i] == x);
                }
            }
            if s.contains(x) {
                let i = choose|i: int| 0 <= i < s.len() && s[i] == x;
                assert(t[i] == x);
            }
            if x == a {
                assert(t[s.len() as int] == x);
            }
        }
    }
}

/// Merging into a list without repetition keeps it so; the result holds what
/// either list held, and begins with the list merged into.
pub proof fn lemma_merge_distinct<A>(s: Seq<A>, more: Seq<A>)
    requires
        s.no_duplicates(),
    ensures
        merge_distinct(s, more).no_duplicates(),
        forall|x: A| #[trigger]
            merge_distinct(s, more).contains(x) <==> (s.contains(x) || more.contains(x)),
        s.len() <= merge_distinct(s, more).len() <= s.len() + more.len(),
        merge_distinct(s, more).take(s.len() as int) == s,
    decreases more.len(),
{
    let out = merge_distinct(s, more);
    if more.len() == 0 {
        assert forall|x: A| #[trigger] out.contains(x) <==> (s.contains(x) || more.contains(x)) by {}
        assert(out.take(s.len() as int) =~= s);
    } else {
        let init = more.drop_last();
        let before = merge_distinct(s, init);
        lemma_merge_distinct(s, init);
        lemma_insert_distinct(before, more.last());
        assert forall|x: A| #[trigger] out.contains(x) <==> (s.contains(x) || more.contains(x)) by {
            if more.contains(x) {
                let i = choose|i: int| 0 <= i < more.len() && more[i] == x;
                if i < init.len() {
                    assert(init[i] == x);
                }
            }
            if init.contains(x) {
                let i = choose|i: int| 0 <= i < init.len() && init[i] == x;
                assert(more[i] == x);
            }
            if x == more.last() {
                assert(more[more.len() - 1] == x);
            }
        }
        assert(out.take(s.len() as int) =~= before.take(s.len() as int));
    }
}

/// `first_occurrences` holds nothing twice and holds exactly the elements of
/// its argument.
pub proof fn lemma_first_occurrences<A>(s: Seq<A>)
    ensures
        first_occurrences(s).no_duplicates(),
        forall|x: A| #[trigger] first_occurrences(s).contains(x) <==> s.contains(x),
        first_occurrences(s).to_set() == s.to_set(),
        first_occurrences(s).len() <= s.len(),
{
    let out = first_occurrences(s);
    lemma_merge_distinct(Seq::<A>::empty(), s);
    assert forall|x: A| #[trigger] out.contains(x) <==> s.contains(x) by {
        assert(!Seq::<A>::empty().contains(x));
    }
    assert(out.to_set() =~= s.to_set());
}

/// Merging a list that brings nothing new changes nothing.
pub proof fn lemma_merge_known<A>(s: Seq<A>, more: Seq<A>)
    requires
        forall|i: int| 0 <= i < more.len() ==> s.contains(#[trigger] more[i]),
    ensures
        merge_distinct(s, more) == s,
    decreases more.len(),
{
    if more.len() > 0 {
        let init = more.drop_last();
        assert forall|i: int| 0 <= i < init.len() implies s.contains(#[trigger] init[i]) by {
            assert(init[i] == more[i]);
        }
        lemma_merge_known(s, init);
        assert(s.contains(more[more.len() - 1]));
    }
}

/// Merging the same list a second time changes nothing.
pub proof fn lemma_merge_idempotent<A>(s: Seq<A>, more: Seq<A>)
    requires
        s.no_duplicates(),
    ensures
        merge_distinct(merge_distinct(s, more), more) == merge_distinct(s, more),
{
    let once = merge_distinct(s, more);
    lemma_merge_distinct(s, more);
    assert forall|i: int| 0 <= i < more.len() implies once.contains(#[trigger] more[i]) by {
        assert(more.contains(more[i]));
    }
    lemma_merge_known(once, more);
}

/// Merging one element after another is merging them in one go.
pub proof fn lemma_merge_concat<A>(s: Seq<A>, a: Seq<A>, b: Seq<A>)
    ensures
        merge_distinct(merge_distinct(s, a), b) == merge_distinct(s, a + b),
    decreases b.len(),
{
    if b.len() == 0 {
        assert(a + b =~= a);
    } else {
        lemma_merge_concat(s, a, b.drop_last());
        assert((a + b).drop_last() =~= a + b.drop_last());
        assert((a + b).last() == b.last());
    }
}

/// A list without repetition is its own list of first occurrences.
pub proof fn lemma_first_occurrences_of_distinct<A>(s: Seq<A>)
    requires
        s.no_duplicates(),
    ensures
        first_occurrences(s) == s,
    decreases s.len(),
{
    if s.len() == 0 {
        assert(s =~= Seq::empty());
    } else {
        let init = s.drop_last();
        lemma_first_occurrences_of_distinct(init);
        if init.contains(s.last()) {
            let i = choose|i: int| 0 <= i < init.len() && init[i] == s.last();
            assert(s[i] == s[s.len() - 1]);
        }
        assert(init.push(s.last()) =~= s);
    }
}

/// Removing repetitions a second time changes nothing.
pub proof fn lemma_first_occurrences_idempotent<A>(s: Seq<A>)
    ensures
        first_occurrences(first_occurrences(s)) == first_occurrences(s),
{
    lemma_first_occurrences(s);
    lemma_first_occurrences_of_distinct(first_occurrences(s));
}

/// Whether `items` holds a string with the text of `needle`.
pub fn contains_string(items: &Vec<String>, needle: &String) -> (found: bool)
    ensures
        found == items.deep_view().contains(needle@),
{
    let mut i: usize = 0;
    while i < items.len()
        invariant
            i <= items.len(),
            forall|j: int| 0 <= j < i ==> items.deep_view()[j] != needle@,
        decreases items.len() - i,
    {
        if items[i] == *needle {
            assert(items.deep_view()[i as int] == needle@);
            return true;
        }
        i += 1;
    }
    false
}

/// Adds `item` at the end of `items` unless a string with the same text is there.
pub fn push_distinct(items: &mut Vec<String>, item: String)
    ensures
        final(items).deep_view() == insert_distinct(old(items).deep_view(), item@),
{
    if !contains_string(items, &item) {
        items.push(item);
        assert(items.deep_view() =~= old(items).deep_view().push(item@));
    }
}

/// Adds each string of `more` to `items`, in order, unless it is there already.
pub fn extend_distinct(items: &mut Vec<String>, more: &Vec<String>)
    ensures
        final(items).deep_view() == merge_distinct(old(items).deep_view(), more.deep_view()),
{
    let ghost added = more.deep_view();
    let mut i: usize = 0;
    while i < more.len()
        invariant
            i <= more.len(),
            added == more.deep_view(),
            items.deep_view() == merge_distinct(old(items).deep_view(), added.take(i as int)),
        decreases more.len() - i,
    {
        let item = more[i].clone();
        push_distinct(items, item);
        proof {
            let next = added.take(i + 1);
            assert(next.drop_last() =~= added.take(i as int));
            assert(next.last() == more[i as int]@);
        }
        i += 1;
    }
    assert(added.take(i as int) =~= added);
}

/// The strings of `items` without repetition, each at its first occurrence.
pub fn distinct(items: &Vec<String>) -> (out: Vec<String>)
    ensures
        out.deep_view() == first_occurrences(items.deep_view()),
{
    let mut out: Vec<String> = Vec::new();
    assert(out.deep_view() =~= Seq::<Seq<char>>::empty());
    extend_distinct(&mut out, items);
    out
}

} // verus!
