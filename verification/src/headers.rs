use vstd::prelude::*;
use vstd::string::StringExecFns;

use crate::head::{field_pairs, HeaderField};
use crate::text::{
    lemma_text_less_irreflexive, lemma_text_less_total, lemma_text_less_transitive, text_is_less,
    text_less,
};

verus! {

/// Header names appear in strictly ascending order.
pub open spec fn sorted_names(entries: Seq<(Seq<char>, Seq<char>)>) -> bool {
    forall|i: int, j: int|
        0 <= i < j < entries.len() ==> text_less(#[trigger] entries[i].0, #[trigger] entries[j].0)
}

/// The map from name to value that the entries hold.
pub open spec fn entries_map(entries: Seq<(Seq<char>, Seq<char>)>) -> Map<Seq<char>, Seq<char>>
    decreases entries.len(),
{
    if entries.len() == 0 {
        Map::empty()
    } else {
        entries_map(entries.drop_last()).insert(entries.last().0, entries.last().1)
    }
}

/// In sorted entries each name appears once, and the map holds its value.
pub proof fn lemma_entries_map_index(entries: Seq<(Seq<char>, Seq<char>)>, i: int)
    requires
        sorted_names(entries),
        0 <= i < entries.len(),
    ensures
        entries_map(entries).contains_key(entries[i].0),
        entries_map(entries)[entries[i].0] == entries[i].1,
    decreases entries.len(),
{
    let prefix = entries.drop_last();
    if i < entries.len() - 1 {
        assert(sorted_names(prefix)) by {
            assert forall|a: int, b: int| 0 <= a < b < prefix.len() implies text_less(
                #[trigger] prefix[a].0,
                #[trigger] prefix[b].0,
            ) by {
                assert(prefix[a] == entries[a] && prefix[b] == entries[b]);
                assert(text_less(entries[a].0, entries[b].0));
            }
        }
        lemma_entries_map_index(prefix, i);
        assert(prefix[i] == entries[i]);
        assert(text_less(entries[i].0, entries[entries.len() - 1].0));
        lemma_text_less_irreflexive(entries[i].0);
    }
}

/// The map's names are exactly the names of the entries.
pub proof fn lemma_entries_map_domain(entries: Seq<(Seq<char>, Seq<char>)>, name: Seq<char>)
    ensures
        entries_map(entries).contains_key(name) <==> exists|i: int|
            0 <= i < entries.len() && #[trigger] entries[i].0 == name,
    decreases entries.len(),
{
    if entries.len() > 0 {
        let prefix = entries.drop_last();
        lemma_entries_map_domain(prefix, name);
        if entries_map(entries).contains_key(name) {
            if name == entries.last().0 {
                assert(entries[entries.len() - 1].0 == name);
            } else {
                let i = choose|i: int| 0 <= i < prefix.len() && #[trigger] prefix[i].0 == name;
                assert(entries[i].0 == name);
            }
        }
        if exists|i: int| 0 <= i < entries.len() && #[trigger] entries[i].0 == name {
            let i = choose|i: int| 0 <= i < entries.len() && #[trigger] entries[i].0 == name;
            if i < entries.len() - 1 {
                assert(prefix[i].0 == name);
            }
        }
    }
}

/// Putting `(name, value)` at its place in sorted entries, over an entry of
/// the same name or before the first entry whose name sorts after it, keeps the
/// entries sorted and adds the pair to their map.
proof fn lemma_put_entry(
    old_e: Seq<(Seq<char>, Seq<char>)>,
    p: int,
    name: Seq<char>,
    value: Seq<char>,
    replace: bool,
) -> (new_e: Seq<(Seq<char>, Seq<char>)>)
    requires
        sorted_names(old_e),
        0 <= p <= old_e.len(),
        forall|i: int| 0 <= i < p ==> text_less(#[trigger] old_e[i].0, name),
        p < old_e.len() ==> !text_less(old_e[p].0, name),
        replace == (p < old_e.len() && old_e[p].0 == name),
    ensures
        new_e == if replace {
            old_e.update(p, (name, value))
        } else {
            old_e.insert(p, (name, value))
        },
        sorted_names(new_e),
        entries_map(new_e) == entries_map(old_e).insert(name, value),
{
    let new_e = if replace {
        old_e.update(p, (name, value))
    } else {
        old_e.insert(p, (name, value))
    };
    if p < old_e.len() && !replace {
        lemma_text_less_total(old_e[p].0, name);
        assert(text_less(name, old_e[p].0));
    }
    assert forall|i: int, j: int| 0 <= i < j < new_e.len() implies text_less(
        #[trigger] new_e[i].0,
        #[trigger] new_e[j].0,
    ) by {
        if replace {
            if i == p {
                assert(text_less(old_e[i].0, old_e[j].0));
            } else if j == p {
                assert(text_less(old_e[i].0, old_e[j].0));
            } else {
                assert(text_less(old_e[i].0, old_e[j].0));
            }
        } else {
            if j < p {
                assert(text_less(old_e[i].0, old_e[j].0));
            } else if j == p {
            } else if i < p {
                if i < j - 1 {
                    assert(text_less(old_e[i].0, old_e[j - 1].0));
                } else {
                    assert(text_less(old_e[i].0, name));
                    lemma_text_less_transitive(old_e[i].0, name, old_e[p].0);
                }
            } else if i == p {
                if j - 1 > p {
                    assert(text_less(old_e[p].0, old_e[j - 1].0));
                    lemma_text_less_transitive(name, old_e[p].0, old_e[j - 1].0);
                }
            } else {
                assert(text_less(old_e[i - 1].0, old_e[j - 1].0));
            }
        }
    }
    let target = entries_map(old_e).insert(name, value);
    assert forall|q: Seq<char>| #[trigger] entries_map(new_e).contains_key(q) <==> target.contains_key(q) by {
        lemma_entries_map_domain(new_e, q);
        lemma_entries_map_domain(old_e, q);
        if entries_map(new_e).contains_key(q) && q != name {
            let i = choose|i: int| 0 <= i < new_e.len() && #[trigger] new_e[i].0 == q;
            if replace || i < p {
                assert(old_e[i].0 == q);
            } else {
                assert(old_e[i - 1].0 == q);
            }
        }
        if target.contains_key(q) {
            if q == name {
                assert(new_e[p].0 == q);
            } else {
                let i = choose|i: int| 0 <= i < old_e.len() && #[trigger] old_e[i].0 == q;
                if replace || i < p {
                    assert(new_e[i].0 == q);
                } else {
                    assert(new_e[i + 1].0 == q);
                }
            }
        }
    }
    assert forall|q: Seq<char>| #[trigger] entries_map(new_e).contains_key(q) implies entries_map(new_e)[q] == target[q] by {
        lemma_entries_map_domain(new_e, q);
        let i = choose|i: int| 0 <= i < new_e.len() && #[trigger] new_e[i].0 == q;
        lemma_entries_map_index(new_e, i);
        if q != name {
            let k = if replace || i < p { i } else { i - 1 };
            assert(old_e[k] == new_e[i]);
            lemma_entries_map_index(old_e, k);
        } else {
            lemma_entries_map_index(new_e, p);
        }
    }
    assert(entries_map(new_e) =~= target);
    new_e
}

/// Taking the entry at `p` out of sorted entries keeps them sorted and takes
/// its name out of their map.
proof fn lemma_take_entry(old_e: Seq<(Seq<char>, Seq<char>)>, p: int)
    requires
        sorted_names(old_e),
        0 <= p < old_e.len(),
    ensures
        sorted_names(old_e.remove(p)),
        entries_map(old_e.remove(p)) == entries_map(old_e).remove(old_e[p].0),
{
    let new_e = old_e.remove(p);
    let name = old_e[p].0;
    assert forall|i: int, j: int| 0 <= i < j < new_e.len() implies text_less(
        #[trigger] new_e[i].0,
        #[trigger] new_e[j].0,
    ) by {
        let a = if i < p { i } else { i + 1 };
        let b = if j < p { j } else { j + 1 };
        assert(new_e[i] == old_e[a] && new_e[j] == old_e[b]);
        assert(text_less(old_e[a].0, old_e[b].0));
    }
    let target = entries_map(old_e).remove(name);
    assert forall|q: Seq<char>| #[trigger] entries_map(new_e).contains_key(q) <==> target.contains_key(q) by {
        lemma_entries_map_domain(new_e, q);
        lemma_entries_map_domain(old_e, q);
        if entries_map(new_e).contains_key(q) {
            let i = choose|i: int| 0 <= i < new_e.len() && #[trigger] new_e[i].0 == q;
            let a = if i < p { i } else { i + 1 };
            assert(old_e[a].0 == q);
            if q == name {
                if a < p {
                    assert(text_less(old_e[a].0, old_e[p].0));
                } else {
                    assert(text_less(old_e[p].0, old_e[a].0));
                }
                lemma_text_less_irreflexive(q);
            }
        }
        if target.contains_key(q) {
            let i = choose|i: int| 0 <= i < old_e.len() && #[trigger] old_e[i].0 == q;
            assert(i != p);
            let k = if i < p { i } else { i - 1 };
            assert(new_e[k].0 == q);
        }
    }
    assert forall|q: Seq<char>| #[trigger] entries_map(new_e).contains_key(q) implies entries_map(new_e)[q] == target[q] by {
        lemma_entries_map_domain(new_e, q);
        let i = choose|i: int| 0 <= i < new_e.len() && #[trigger] new_e[i].0 == q;
        lemma_entries_map_index(new_e, i);
        let a = if i < p { i } else { i + 1 };
        assert(old_e[a] == new_e[i]);
        lemma_entries_map_index(old_e, a);
    }
    assert(entries_map(new_e) =~= target);
}

/// After `insert(name, value)` turned `before` into `after`, the field `name`
/// reads `value`, and every other field reads as it did before.
pub proof fn lemma_read_after_insert(
    before: HeaderMap,
    after: HeaderMap,
    name: Seq<char>,
    value: Seq<char>,
    other: Seq<char>,
)
    requires
        after.spec_map() == before.spec_map().insert(name, value),
    ensures
        after.spec_map().contains_key(name),
        after.spec_map()[name] == value,
        other != name ==> after.spec_map().contains_key(other) == before.spec_map().contains_key(
            other,
        ),
        other != name && before.spec_map().contains_key(other) ==> after.spec_map()[other]
            == before.spec_map()[other],
{
}

/// Header fields kept in ascending order of their names, each name once, as a
/// `BTreeMap<String, String>` keeps them.
pub struct HeaderMap {
    entries: Vec<HeaderField>,
}

impl HeaderMap {
    /// The entries, in ascending order of names.
    pub closed spec fn spec_entries(&self) -> Seq<(Seq<char>, Seq<char>)> {
        field_pairs(self.entries@)
    }

    #[verifier::type_invariant]
    closed spec fn names_sorted(self) -> bool {
        sorted_names(field_pairs(self.entries@))
    }

    /// The map from name to value.
    pub open spec fn spec_map(&self) -> Map<Seq<char>, Seq<char>> {
        entries_map(self.spec_entries())
    }

    /// An empty map.
    pub fn new() -> (res: HeaderMap)
        ensures
            res.spec_entries() == Seq::<(Seq<char>, Seq<char>)>::empty(),
            res.spec_map() == Map::<Seq<char>, Seq<char>>::empty(),
    {
        let res = HeaderMap { entries: Vec::new() };
        assert(res.spec_entries() =~= Seq::<(Seq<char>, Seq<char>)>::empty());
        res
    }

    /// Number of fields.
    pub fn len(&self) -> (res: usize)
        ensures
            res == self.spec_entries().len(),
    {
        self.entries.len()
    }

    /// The fields in ascending order of names.
    pub fn entries(&self) -> (res: &Vec<HeaderField>)
        ensures
            field_pairs(res@) == self.spec_entries(),
            sorted_names(self.spec_entries()),
    {
        proof {
            use_type_invariant(self);
        }
        &self.entries
    }

    /// Position of the first entry whose name does not sort before `name`.
    fn position(&self, name: &str) -> (res: usize)
        ensures
            res <= self.spec_entries().len(),
            forall|i: int| 0 <= i < res ==> text_less(#[trigger] self.spec_entries()[i].0, name@),
            res < self.spec_entries().len() ==> !text_less(self.spec_entries()[res as int].0, name@),
    {
        let mut i: usize = 0;
        while i < self.entries.len() && text_is_less(self.entries[i].name.as_str(), name)
            invariant
                i <= self.entries.len(),
                forall|k: int| 0 <= k < i ==> text_less(#[trigger] self.spec_entries()[k].0, name@),
            decreases self.entries.len() - i,
        {
            i += 1;
        }
        i
    }

    /// The value of the field named `name`.
    pub fn get(&self, name: &str) -> (res: Option<&String>)
        ensures
            self.spec_map().contains_key(name@) ==> (res matches Some(v) && v@ == self.spec_map()[name@]),
            !self.spec_map().contains_key(name@) ==> res is None,
    {
        proof {
            use_type_invariant(self);
        }
        let p = self.position(name);
        let ghost e = self.spec_entries();
        proof {
            lemma_entries_map_domain(e, name@);
        }
        let wanted = String::from_str(name);
        if p < self.entries.len() && self.entries[p].name == wanted {
            proof {
                lemma_entries_map_index(e, p as int);
            }
            Some(&self.entries[p].value)
        } else {
            proof {
                if exists|i: int| 0 <= i < e.len() && #[trigger] e[i].0 == name@ {
                    let i = choose|i: int| 0 <= i < e.len() && #[trigger] e[i].0 == name@;
                    lemma_text_less_irreflexive(name@);
                    if i > p {
                        lemma_text_less_total(e[p as int].0, name@);
                    }
                }
            }
            None
        }
    }

    /// Takes the field `name` out of the map and gives its value, if it had
    /// one.
    pub fn remove(&mut self, name: &str) -> (res: Option<String>)
        ensures
            final(self).spec_map() == old(self).spec_map().remove(name@),
            old(self).spec_map().contains_key(name@) ==> (res matches Some(v) && v@ == old(
                self,
            ).spec_map()[name@]),
            !old(self).spec_map().contains_key(name@) ==> res is None,
    {
        proof {
            use_type_invariant(&*self);
        }
        let p = self.position(name);
        let ghost old_e = self.spec_entries();
        proof {
            lemma_entries_map_domain(old_e, name@);
        }
        let wanted = String::from_str(name);
        if p < self.entries.len() && self.entries[p].name == wanted {
            proof {
                lemma_entries_map_index(old_e, p as int);
                lemma_take_entry(old_e, p as int);
            }
            let mut entries: Vec<HeaderField> = Vec::new();
            std::mem::swap(&mut entries, &mut self.entries);
            let field = entries.remove(p);
            assert(field_pairs(entries@) =~= old_e.remove(p as int));
            std::mem::swap(&mut entries, &mut self.entries);
            Some(field.value)
        } else {
            proof {
                if exists|i: int| 0 <= i < old_e.len() && #[trigger] old_e[i].0 == name@ {
                    let i = choose|i: int| 0 <= i < old_e.len() && #[trigger] old_e[i].0 == name@;
                    lemma_text_less_irreflexive(name@);
                    if i > p {
                        lemma_text_less_total(old_e[p as int].0, name@);
                    }
                }
                assert(self.spec_map() =~= old(self).spec_map().remove(name@));
            }
            None
        }
    }

    /// Sets the value of the field `name`, replacing any value it had.
    pub fn insert(&mut self, name: String, value: String)
        ensures
            final(self).spec_map() == old(self).spec_map().insert(name@, value@),
    {
        proof {
            use_type_invariant(&*self);
        }
        let p = self.position(name.as_str());
        let ghost old_e = self.spec_entries();
        let replace = p < self.entries.len() && self.entries[p].name == name;
        let ghost new_e = lemma_put_entry(old_e, p as int, name@, value@, replace);
        let mut entries: Vec<HeaderField> = Vec::new();
        std::mem::swap(&mut entries, &mut self.entries);
        let field = HeaderField { name, value };
        if replace {
            entries.set(p, field);
        } else {
            entries.insert(p, field);
        }
        assert(field_pairs(entries@) =~= new_e);
        std::mem::swap(&mut entries, &mut self.entries);
    }
}


} // verus!
