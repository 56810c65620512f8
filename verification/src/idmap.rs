//! The identifier map: which identifier an outside scheme gives to each token name.

use crate::names::{insertion_point, lemma_insert_sorted, lemma_insertion_point_absent,
    lemma_sorted_len, lemma_sorted_unique, strictly_sorted, NameSet};
use crate::text::{is_same_name, lemma_name_lt_irreflexive, same_name};
use vstd::prelude::*;

verus! {

/// The names of a sequence of entries, in the order of the entries.
pub open spec fn entry_names<T>(e: Seq<(Seq<char>, T)>) -> Seq<Seq<char>> {
    e.map_values(|p: (Seq<char>, T)| p.0)
}

/// The entries stand in name order, so no name has two entries.
pub open spec fn sorted_entries<T>(e: Seq<(Seq<char>, T)>) -> bool {
    strictly_sorted(entry_names(e))
}

/// Some entry has exactly the name `k`.
pub open spec fn has_key<T>(e: Seq<(Seq<char>, T)>, k: Seq<char>) -> bool {
    entry_names(e).contains(k)
}

/// The map that the entries spell out.
pub open spec fn entries_map<T>(e: Seq<(Seq<char>, T)>) -> Map<Seq<char>, T> {
    Map::new(|k: Seq<char>| has_key(e, k), |k: Seq<char>| e[entry_names(e).index_of(k)].1)
}

/// Some entry's name is `name` up to the case of ASCII letters.
pub open spec fn matches_any<T>(e: Seq<(Seq<char>, T)>, name: Seq<char>) -> bool {
    exists|i: int| 0 <= i < e.len() && same_name((#[trigger] e[i]).0, name)
}

/// Entry `i` is the first one, in the order of the entries, whose name is `name` up to the
/// case of ASCII letters.
pub open spec fn is_first_match<T>(e: Seq<(Seq<char>, T)>, name: Seq<char>, i: int) -> bool {
    &&& 0 <= i < e.len()
    &&& same_name(e[i].0, name)
    &&& forall|j: int| 0 <= j < i ==> !same_name((#[trigger] e[j]).0, name)
}

/// The identifier that the entries give to a rule called `name`: that of the entry with
/// exactly this name if there is one; else that of the first entry whose name differs from it
/// only in the case of ASCII letters; else none.
pub open spec fn mapped_id<T>(e: Seq<(Seq<char>, T)>, name: Seq<char>) -> Option<T> {
    if has_key(e, name) {
        Some(e[entry_names(e).index_of(name)].1)
    } else if matches_any(e, name) {
        Some(e[choose|i: int| is_first_match(e, name, i)].1)
    } else {
        None
    }
}

/// The entries give a name an identifier just when some entry's name is that name, up to the
/// case of ASCII letters.
pub proof fn lemma_mapped_id_some<T>(e: Seq<(Seq<char>, T)>, name: Seq<char>)
    ensures
        mapped_id(e, name) is Some <==> matches_any(e, name),
{
    if has_key(e, name) {
        let j = entry_names(e).index_of(name);
        assert(same_name(e[j].0, name));
    }
}

/// The pairs of name and identifier of a list, with each name as a sequence of characters.
pub open spec fn pair_views<T>(pairs: Seq<(String, T)>) -> Seq<(Seq<char>, T)> {
    pairs.map_values(|p: (String, T)| (p.0@, p.1))
}

/// The map that the pairs build when they are inserted one after another, the first pair
/// first: where a name comes twice, its last pair stays.
pub open spec fn pairs_map<T>(pairs: Seq<(Seq<char>, T)>) -> Map<Seq<char>, T>
    decreases pairs.len(),
{
    if pairs.len() == 0 {
        Map::empty()
    } else {
        pairs_map(pairs.drop_last()).insert(pairs.last().0, pairs.last().1)
    }
}

/// No two pairs have the same name.
pub open spec fn distinct_names<T>(pairs: Seq<(Seq<char>, T)>) -> bool {
    forall|i: int, j: int|
        0 <= i < pairs.len() && 0 <= j < pairs.len() && i != j
            ==> (#[trigger] pairs[i]).0 != (#[trigger] pairs[j]).0
}

/// The map built from pairs with distinct names holds just these pairs.
pub proof fn lemma_pairs_map_holds<T>(pairs: Seq<(Seq<char>, T)>)
    requires
        distinct_names(pairs),
    ensures
        forall|k: Seq<char>, v: T|
            (pairs_map(pairs).dom().contains(k) && pairs_map(pairs)[k] == v) <==> pairs.contains(
                (k, v),
            ),
    decreases pairs.len(),
{
    if pairs.len() > 0 {
        let front = pairs.drop_last();
        let last = pairs.last();
        assert(distinct_names(front));
        lemma_pairs_map_holds(front);
        assert forall|k: Seq<char>, v: T|
            (pairs_map(pairs).dom().contains(k) && pairs_map(pairs)[k] == v) <==> pairs.contains(
                (k, v),
            ) by {
            if pairs.contains((k, v)) {
                let i = choose|i: int| 0 <= i < pairs.len() && pairs[i] == (k, v);
                if i < pairs.len() - 1 {
                    assert(front[i] == (k, v));
                    assert(front.contains((k, v)));
                }
            }
            if pairs_map(pairs).dom().contains(k) && pairs_map(pairs)[k] == v && k != last.0 {
                assert(front.contains((k, v)));
            }
        }
    }
}

/// In sorted entries, the entry at index `i` is the one its name leads to.
pub proof fn lemma_key_at<T>(e: Seq<(Seq<char>, T)>, i: int)
    requires
        sorted_entries(e),
        0 <= i < e.len(),
    ensures
        has_key(e, e[i].0),
        entry_names(e).index_of(e[i].0) == i,
        entries_map(e).dom().contains(e[i].0),
        entries_map(e)[e[i].0] == e[i].1,
{
    let names = entry_names(e);
    assert(names[i] == e[i].0);
    lemma_name_lt_irreflexive(names[i]);
}

/// Sorted entries that spell out the same map are the same entries.
pub proof fn lemma_entries_unique<T>(a: Seq<(Seq<char>, T)>, b: Seq<(Seq<char>, T)>)
    requires
        sorted_entries(a),
        sorted_entries(b),
        entries_map(a) == entries_map(b),
    ensures
        a == b,
{
    let na = entry_names(a);
    let nb = entry_names(b);
    assert forall|k: Seq<char>| na.to_set().contains(k) == nb.to_set().contains(k) by {
        assert(entries_map(a).dom().contains(k) == has_key(a, k));
        assert(entries_map(b).dom().contains(k) == has_key(b, k));
    }
    assert(na.to_set() =~= nb.to_set());
    lemma_sorted_unique(na, nb);
    assert(a.len() == na.len() && b.len() == nb.len());
    assert forall|i: int| 0 <= i < a.len() implies a[i] == b[i] by {
        lemma_key_at(a, i);
        lemma_key_at(b, i);
        assert(na[i] == a[i].0 && nb[i] == b[i].0);
    }
    assert(a =~= b);
}

/// Putting a new name's entry at its insertion point adds the name to the map.
pub proof fn lemma_entries_insert<T>(e: Seq<(Seq<char>, T)>, pos: int, name: Seq<char>, id: T)
    requires
        sorted_entries(e),
        insertion_point(entry_names(e), name, pos),
    ensures
        sorted_entries(e.insert(pos, (name, id))),
        entries_map(e.insert(pos, (name, id))) == entries_map(e).insert(name, id),
{
    let t = e.insert(pos, (name, id));
    lemma_insert_sorted(entry_names(e), name, pos);
    assert(entry_names(t) =~= entry_names(e).insert(pos, name));
    assert forall|k: Seq<char>|
        entries_map(t).dom().contains(k) == entries_map(e).insert(name, id).dom().contains(
            k,
        ) by {
        assert(entry_names(t).to_set().contains(k) == entry_names(e).to_set().insert(
            name,
        ).contains(k));
    }
    lemma_insertion_point_absent(entry_names(e), name, pos);
    assert forall|k: Seq<char>| entries_map(t).dom().contains(k) implies entries_map(t)[k]
        == entries_map(e).insert(name, id)[k] by {
        let i = entry_names(t).index_of(k);
        lemma_key_at(t, i);
        if i < pos {
            lemma_key_at(e, i);
        } else if i > pos {
            lemma_key_at(e, i - 1);
        }
    }
}

/// Giving the entry at `pos` a new identifier changes the map at its name only.
pub proof fn lemma_entries_update<T>(e: Seq<(Seq<char>, T)>, pos: int, id: T)
    requires
        sorted_entries(e),
        0 <= pos < e.len(),
    ensures
        sorted_entries(e.update(pos, (e[pos].0, id))),
        entries_map(e.update(pos, (e[pos].0, id))) == entries_map(e).insert(e[pos].0, id),
{
    let name = e[pos].0;
    let t = e.update(pos, (name, id));
    assert(entry_names(t) =~= entry_names(e));
    lemma_key_at(e, pos);
    assert forall|k: Seq<char>| entries_map(t).dom().contains(k) implies entries_map(t)[k]
        == entries_map(e).insert(name, id)[k] by {
        let i = entry_names(t).index_of(k);
        lemma_key_at(t, i);
        if i != pos {
            lemma_key_at(e, i);
        }
    }
}

/// A map from token names to identifiers, as an outside scheme hands them out. The map owns
/// its names and walks its entries in name order, which depends on nothing but the map.
pub struct RuleIdMap<T> {
    keys: NameSet,
    ids: Vec<T>,
}

impl<T> View for RuleIdMap<T> {
    type V = Map<Seq<char>, T>;

    open spec fn view(&self) -> Map<Seq<char>, T> {
        entries_map(self.entries())
    }
}

impl<T> RuleIdMap<T> {
    /// The entries of the map, name and identifier, in name order.
    pub closed spec fn entries(&self) -> Seq<(Seq<char>, T)> {
        Seq::new(self.ids@.len(), |i: int| (self.keys.seq()[i], self.ids@[i]))
    }

    /// Each name has one identifier, and the names are held in strictly increasing order.
    #[verifier::type_invariant]
    pub closed spec fn wf(&self) -> bool {
        &&& self.keys.wf()
        &&& self.keys.seq().len() == self.ids@.len()
    }

    /// The entries of a well-formed map stand in name order.
    pub proof fn lemma_sorted(&self)
        requires
            self.wf(),
        ensures
            sorted_entries(self.entries()),
    {
    }
}

impl<T: Copy> RuleIdMap<T> {
    /// The map without entries.
    pub fn new() -> (m: Self)
        ensures
            m.entries() == Seq::<(Seq<char>, T)>::empty(),
            m@ == Map::<Seq<char>, T>::empty(),
    {
        RuleIdMap { keys: NameSet::new(), ids: Vec::new() }
    }

    /// The number of entries of the map.
    pub fn len(&self) -> (n: usize)
        ensures
            n == self.entries().len(),
            self@.dom().finite(),
            n == self@.dom().len(),
    {
        proof {
            use_type_invariant(self);
            self.lemma_sorted();
            lemma_sorted_len(entry_names(self.entries()));
            assert(self@.dom() =~= entry_names(self.entries()).to_set());
        }
        self.ids.len()
    }

    /// The name of the `i`-th entry in name order, if there are that many.
    pub fn name_at(&self, i: usize) -> (r: Option<&String>)
        ensures
            i < self.entries().len() ==> r is Some && r.unwrap()@ == self.entries()[i as int].0,
            i >= self.entries().len() ==> r is None,
    {
        proof {
            use_type_invariant(self);
        }
        self.keys.get(i)
    }

    /// The identifier of the `i`-th entry in name order, if there are that many.
    pub fn id_at(&self, i: usize) -> (r: Option<T>)
        ensures
            r == (if i < self.entries().len() {
                Some(self.entries()[i as int].1)
            } else {
                None
            }),
    {
        if i < self.ids.len() {
            Some(self.ids[i])
        } else {
            None
        }
    }

    /// Gives `name` the identifier `id`, in place of the one it had, if any.
    pub fn insert(&mut self, name: String, id: T)
        ensures
            final(self)@ == old(self)@.insert(name@, id),
    {
        proof {
            use_type_invariant(&*self);
            self.lemma_sorted();
        }
        let ghost before = self.entries();
        let mut taken = RuleIdMap::new();
        std::mem::swap(self, &mut taken);
        let RuleIdMap { mut keys, mut ids } = taken;
        let (pos, added) = keys.place(name);
        if added {
            ids.insert(pos, id);
            proof {
                lemma_entries_insert(before, pos as int, name@, id);
            }
        } else {
            ids[pos] = id;
            proof {
                lemma_entries_update(before, pos as int, id);
            }
        }
        let after = RuleIdMap { keys, ids };
        proof {
            if added {
                assert(after.entries() =~= before.insert(pos as int, (name@, id)));
            } else {
                assert(after.entries() =~= before.update(pos as int, (name@, id)));
            }
        }
        *self = after;
    }

    /// The map that holds the pairs of the list, inserted one after another.
    pub fn from_pairs(pairs: Vec<(String, T)>) -> (m: Self)
        ensures
            m@ == pairs_map(pair_views(pairs@)),
    {
        let mut m = RuleIdMap::new();
        let ghost all = pair_views(pairs@);
        for pair in it: pairs
            invariant
                it.seq() == pairs@,
                all == pair_views(pairs@),
                m@ == pairs_map(all.take(it.index() as int)),
        {
            proof {
                assert(all.take(it.index() + 1).drop_last() =~= all.take(it.index() as int));
            }
            let (name, id) = pair;
            m.insert(name, id);
        }
        assert(all.take(all.len() as int) =~= all);
        m
    }

    /// The identifier that the map holds for exactly this name.
    pub fn get(&self, name: &str) -> (r: Option<T>)
        ensures
            r == (if self@.dom().contains(name@) {
                Some(self@[name@])
            } else {
                None
            }),
    {
        proof {
            use_type_invariant(self);
            self.lemma_sorted();
        }
        let (pos, found) = self.keys.locate(name);
        if found {
            proof {
                lemma_key_at(self.entries(), pos as int);
            }
            Some(self.ids[pos])
        } else {
            None
        }
    }

    /// The identifier that the map gives to a rule called `name`: see [`mapped_id`].
    pub fn lookup(&self, name: &str) -> (r: Option<T>)
        ensures
            r == mapped_id(self.entries(), name@),
    {
        proof {
            use_type_invariant(self);
            self.lemma_sorted();
        }
        let (pos, found) = self.keys.locate(name);
        if found {
            proof {
                lemma_key_at(self.entries(), pos as int);
            }
            return Some(self.ids[pos]);
        }
        let n: usize = self.len();
        let mut i: usize = 0;
        while i < n
            invariant
                0 <= i <= n,
                n == self.entries().len(),
                !has_key(self.entries(), name@),
                forall|j: int|
                    0 <= j < i ==> !same_name((#[trigger] self.entries()[j]).0, name@),
            decreases n - i,
        {
            let key = self.name_at(i).unwrap();
            if is_same_name(key.as_str(), name) {
                proof {
                    let e = self.entries();
                    assert(is_first_match(e, name@, i as int));
                    let first = choose|c: int| is_first_match(e, name@, c);
                    assert(first == i);
                }
                return self.id_at(i);
            }
            i += 1;
        }
        None
    }
}

/// A map lists its entries in an order that depends on nothing but the map: two maps that
/// hold the same identifiers for the same names have the same entries in the same order.
pub proof fn lemma_map_order<T: Copy>(a: RuleIdMap<T>, b: RuleIdMap<T>)
    requires
        a.wf(),
        b.wf(),
        a@ == b@,
    ensures
        a.entries() == b.entries(),
{
    a.lemma_sorted();
    b.lemma_sorted();
    lemma_entries_unique(a.entries(), b.entries());
}

} // verus!
