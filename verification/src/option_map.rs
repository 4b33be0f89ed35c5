//! Named settings, each name once, in the order of the names.

use vstd::prelude::*;
use vstd::string::StrSliceExecFns;

use crate::options::{same_text, texts};

verus! {

/// Whether a text comes before another: it is a beginning of the other, or it has the smaller
/// character where they first differ.
pub open spec fn precedes(left: Seq<char>, right: Seq<char>) -> bool {
    exists|i: int| #[trigger] differ_at(left, right, i)
}

/// Whether a text comes before another because of place `i`.
pub open spec fn differ_at(left: Seq<char>, right: Seq<char>, i: int) -> bool {
    &&& 0 <= i <= left.len()
    &&& i < right.len()
    &&& forall|j: int| 0 <= j < i ==> left[j] == right[j]
    &&& i < left.len() ==> left[i] < right[i]
}

/// Whether each name comes before those behind it.
pub open spec fn ascending(list: Seq<(Seq<char>, Seq<char>)>) -> bool {
    forall|i: int, j: int|
        0 <= i < j < list.len() ==> precedes((#[trigger] list[i]).0, (#[trigger] list[j]).0)
}

/// What comes before a text that comes before a third one comes before that one too.
proof fn lemma_precedes_transitive(first: Seq<char>, second: Seq<char>, third: Seq<char>)
    requires
        precedes(first, second),
        precedes(second, third),
    ensures
        precedes(first, third),
{
    let i = choose|i: int| #[trigger] differ_at(first, second, i);
    let j = choose|j: int| #[trigger] differ_at(second, third, j);
    if i <= j {
        assert(differ_at(first, third, i));
    } else {
        assert(differ_at(first, third, j));
    }
}

/// Finds whether a text comes before another.
fn comes_before(left: &str, right: &str) -> (before: bool)
    ensures
        before == precedes(left@, right@),
        !before ==> left@ == right@ || precedes(right@, left@),
{
    let mut i: usize = 0;
    while i < left.unicode_len() && i < right.unicode_len()
        invariant
            i <= left@.len(),
            i <= right@.len(),
            forall|j: int| 0 <= j < i ==> left@[j] == right@[j],
        decreases left@.len() - i,
    {
        let own: char = left.get_char(i);
        let other: char = right.get_char(i);
        if own < other {
            assert(differ_at(left@, right@, i as int));
            return true;
        }
        if own > other {
            assert(differ_at(right@, left@, i as int));
            return false;
        }
        i = i + 1;
    }
    if i < right.unicode_len() {
        assert(differ_at(left@, right@, i as int));
        true
    } else {
        if i < left.unicode_len() {
            assert(differ_at(right@, left@, i as int));
        } else {
            assert(left@ =~= right@);
        }
        false
    }
}

/// A value takes the place of an earlier one.
proof fn lemma_replaced(
    list: Seq<(Seq<char>, Seq<char>)>,
    place: int,
    name: Seq<char>,
    value: Seq<char>,
)
    requires
        ascending(list),
        0 <= place < list.len(),
        list[place].0 == name,
    ensures
        holds(list.update(place, (name, value)), list, name, value),
{
    let after = list.update(place, (name, value));
    assert(after[place] == (name, value));
    assert forall|known: Seq<char>, found: Seq<char>| known != name implies (#[trigger] after.contains(
        (known, found),
    ) <==> list.contains((known, found))) by {
        if list.contains((known, found)) {
            let i = list.index_of((known, found));
            assert(after[i] == list[i]);
        }
    }
    assert forall|found: Seq<char>| #[trigger] after.contains((name, found)) implies found == value by {
        let i = choose|i: int| 0 <= i < after.len() && after[i] == (name, found);
        if i != place {
            lemma_never_before_itself(name);
        }
    }
}

/// A name finds its place among the others.
proof fn lemma_inserted(
    list: Seq<(Seq<char>, Seq<char>)>,
    place: int,
    name: Seq<char>,
    value: Seq<char>,
)
    requires
        ascending(list),
        0 <= place <= list.len(),
        forall|j: int| 0 <= j < place ==> precedes((#[trigger] list[j]).0, name),
        place < list.len() ==> precedes(name, list[place].0),
    ensures
        holds(list.insert(place, (name, value)), list, name, value),
{
    let after = list.insert(place, (name, value));
    assert(after[place] == (name, value));
    assert forall|j: int| place <= j < list.len() implies precedes(name, (#[trigger] list[j]).0) by {
        if place < j {
            lemma_precedes_transitive(name, list[place].0, list[j].0);
        }
    }
    assert forall|i: int, j: int| 0 <= i < j < after.len() implies precedes(
        (#[trigger] after[i]).0,
        (#[trigger] after[j]).0,
    ) by {
        let own = if i < place {
            i
        } else {
            i - 1
        };
        let other = if j < place {
            j
        } else {
            j - 1
        };
        if i != place {
            assert(after[i] == list[own]);
        }
        if j != place {
            assert(after[j] == list[other]);
        }
    }
    assert forall|known: Seq<char>, found: Seq<char>| known != name implies (#[trigger] after.contains(
        (known, found),
    ) <==> list.contains((known, found))) by {
        if list.contains((known, found)) {
            let i = list.index_of((known, found));
            assert(after[if i < place {
                i
            } else {
                i + 1
            }] == list[i]);
        }
        if after.contains((known, found)) {
            let i = after.index_of((known, found));
            assert(list[if i < place {
                i
            } else {
                i - 1
            }] == after[i]);
        }
    }
    assert forall|found: Seq<char>| #[trigger] after.contains((name, found)) implies found == value by {
        let i = choose|i: int| 0 <= i < after.len() && after[i] == (name, found);
        if i != place {
            lemma_never_before_itself(name);
            assert(after[i] == list[if i < place {
                i
            } else {
                i - 1
            }]);
        }
    }
}

/// No text comes before itself.
proof fn lemma_never_before_itself(text: Seq<char>)
    ensures
        !precedes(text, text),
{
    assert forall|i: int| !(#[trigger] differ_at(text, text, i)) by {}
}

/// Whether a list is in order and holds a name with a value, and otherwise what another one holds.
pub open spec fn holds(
    after: Seq<(Seq<char>, Seq<char>)>,
    before: Seq<(Seq<char>, Seq<char>)>,
    name: Seq<char>,
    value: Seq<char>,
) -> bool {
    &&& ascending(after)
    &&& forall|known: Seq<char>, found: Seq<char>| #[trigger]
        after.contains((known, found)) <==> if known == name {
            found == value
        } else {
            before.contains((known, found))
        }
}

/// What is behind the first of a list in order is what the list holds besides it.
proof fn lemma_rest(list: Seq<(Seq<char>, Seq<char>)>)
    requires
        ascending(list),
        list.len() > 0,
    ensures
        ascending(list.skip(1)),
        forall|entry: (Seq<char>, Seq<char>)| #[trigger]
            list.skip(1).contains(entry) <==> list.contains(entry) && entry != list[0],
{
    let rest = list.skip(1);
    assert forall|entry: (Seq<char>, Seq<char>)| #[trigger]
        rest.contains(entry) <==> list.contains(entry) && entry != list[0] by {
        if rest.contains(entry) {
            let i = rest.index_of(entry);
            assert(list[i + 1] == entry);
            lemma_never_before_itself(list[0].0);
        }
        if list.contains(entry) && entry != list[0] {
            let i = list.index_of(entry);
            assert(rest[i - 1] == entry);
        }
    }
}

/// Two lists in order that hold the same names with the same values are the same list.
pub proof fn law_same_entries(
    first: Seq<(Seq<char>, Seq<char>)>,
    second: Seq<(Seq<char>, Seq<char>)>,
)
    requires
        ascending(first),
        ascending(second),
        forall|entry: (Seq<char>, Seq<char>)| #[trigger]
            first.contains(entry) <==> second.contains(entry),
    ensures
        first == second,
    decreases first.len(),
{
    if first.len() == 0 {
        if second.len() > 0 {
            assert(second.contains(second[0]));
            assert(first.contains(second[0]));
        }
        assert(first =~= second);
    } else {
        assert(first.contains(first[0]));
        assert(second.contains(first[0]));
        let i = choose|i: int| 0 <= i < second.len() && second[i] == first[0];
        assert(second.contains(second[0]));
        assert(first.contains(second[0]));
        let j = choose|j: int| 0 <= j < first.len() && first[j] == second[0];
        if i > 0 {
            if j > 0 {
                lemma_precedes_transitive(first[0].0, second[0].0, first[0].0);
            }
            lemma_never_before_itself(first[0].0);
        }
        lemma_rest(first);
        lemma_rest(second);
        assert forall|entry: (Seq<char>, Seq<char>)| #[trigger]
            first.skip(1).contains(entry) <==> second.skip(1).contains(entry) by {
            assert(first.contains(entry) <==> second.contains(entry));
        }
        law_same_entries(first.skip(1), second.skip(1));
        assert(first =~= seq![first[0]] + first.skip(1));
        assert(second =~= seq![second[0]] + second.skip(1));
    }
}

/// Named settings.
#[derive(Debug)]
pub struct OptionMap {
    entries: Vec<(String, String)>,
}

impl View for OptionMap {
    type V = Seq<(Seq<char>, Seq<char>)>;

    closed spec fn view(&self) -> Seq<(Seq<char>, Seq<char>)> {
        texts(self.entries@)
    }
}

impl OptionMap {
    #[verifier::type_invariant]
    spec fn ordered(self) -> bool {
        ascending(texts(self.entries@))
    }

    /// No settings.
    pub fn new() -> (map: Self)
        ensures
            map@.len() == 0,
    {
        OptionMap { entries: Vec::new() }
    }

    /// Names a setting, in place of an earlier one with the same name.
    pub fn insert(&mut self, name: String, value: String)
        ensures
            holds(final(self)@, old(self)@, name@, value@),
    {
        let mut map = OptionMap::new();
        std::mem::swap(self, &mut map);
        proof {
            use_type_invariant(&map);
        }
        let OptionMap { mut entries } = map;
        let ghost before = texts(entries@);
        let mut i: usize = 0;
        while i < entries.len() && comes_before(entries[i].0.as_str(), name.as_str())
            invariant
                i <= before.len(),
                before == texts(entries@),
                ascending(before),
                forall|j: int| 0 <= j < i ==> precedes((#[trigger] before[j]).0, name@),
            decreases before.len() - i,
        {
            i = i + 1;
        }
        let known = i < entries.len() && same_text(entries[i].0.as_str(), name.as_str());
        let entry = (name, value);
        if known {
            entries.set(i, entry);
            proof {
                lemma_replaced(before, i as int, name@, value@);
                assert(texts(entries@) =~= before.update(i as int, (name@, value@)));
            }
        } else {
            entries.insert(i, entry);
            proof {
                lemma_inserted(before, i as int, name@, value@);
                assert(texts(entries@) =~= before.insert(i as int, (name@, value@)));
            }
        }
        *self = OptionMap { entries };
    }

    /// The settings, in the order of their names.
    pub fn entries(&self) -> (entries: &[(String, String)])
        ensures
            texts(entries@) == self@,
            ascending(self@),
    {
        proof {
            use_type_invariant(self);
        }
        self.entries.as_slice()
    }
}

impl Clone for OptionMap {
    fn clone(&self) -> (map: Self)
        ensures
            map@ == self@,
    {
        proof {
            use_type_invariant(self);
        }
        let mut entries: Vec<(String, String)> = Vec::new();
        let mut i: usize = 0;
        while i < self.entries.len()
            invariant
                i <= self.entries@.len(),
                texts(entries@) == texts(self.entries@).take(i as int),
            decreases self.entries@.len() - i,
        {
            let name: String = self.entries[i].0.clone();
            let value: String = self.entries[i].1.clone();
            let ghost before = texts(entries@);
            entries.push((name, value));
            i = i + 1;
            assert(texts(entries@) =~= before.push((name@, value@)));
            assert(texts(entries@) =~= texts(self.entries@).take(i as int));
        }
        assert(texts(entries@) =~= texts(self.entries@));
        OptionMap { entries }
    }
}

impl Default for OptionMap {
    fn default() -> (map: Self)
        ensures
            map@.len() == 0,
    {
        OptionMap::new()
    }
}

} // verus!
