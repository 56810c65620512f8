//! Sets of names, kept in name order.

use crate::text::{is_name_lt, lemma_name_lt_irreflexive, lemma_name_lt_total,
    lemma_name_lt_transitive, name_lt};
use vstd::prelude::*;

verus! {

/// Every name comes before all the names after it; so no name occurs twice.
pub open spec fn strictly_sorted(s: Seq<Seq<char>>) -> bool {
    forall|i: int, j: int| 0 <= i < j < s.len() ==> name_lt(#[trigger] s[i], #[trigger] s[j])
}

/// `name` belongs at index `pos` of the sorted sequence `s`: all names before `pos` come before
/// it, and it comes before all names from `pos` on.
pub open spec fn insertion_point(s: Seq<Seq<char>>, name: Seq<char>, pos: int) -> bool {
    &&& 0 <= pos <= s.len()
    &&& forall|j: int| 0 <= j < pos ==> name_lt(#[trigger] s[j], name)
    &&& forall|j: int| pos <= j < s.len() ==> name_lt(name, #[trigger] s[j])
}

/// A name that has an insertion point in `s` does not occur in `s`.
pub proof fn lemma_insertion_point_absent(s: Seq<Seq<char>>, name: Seq<char>, pos: int)
    requires
        insertion_point(s, name, pos),
    ensures
        !s.contains(name),
{
    lemma_name_lt_irreflexive(name);
}

/// A sorted sequence holds each of its names once, so it is as long as its set of names is
/// large.
pub proof fn lemma_sorted_len(s: Seq<Seq<char>>)
    requires
        strictly_sorted(s),
    ensures
        s.to_set().finite(),
        s.to_set().len() == s.len(),
{
    assert forall|i: int, j: int| 0 <= i < s.len() && 0 <= j < s.len() && i != j implies s[i]
        != s[j] by {
        lemma_name_lt_irreflexive(s[i]);
    }
    s.unique_seq_to_set();
    vstd::seq_lib::seq_to_set_is_finite(s);
}

/// Inserting a name at its insertion point keeps the sequence sorted and adds the name to the
/// set of names.
pub proof fn lemma_insert_sorted(s: Seq<Seq<char>>, name: Seq<char>, pos: int)
    requires
        strictly_sorted(s),
        insertion_point(s, name, pos),
    ensures
        strictly_sorted(s.insert(pos, name)),
        s.insert(pos, name).to_set() == s.to_set().insert(name),
{
    let t = s.insert(pos, name);
    assert forall|x: Seq<char>| t.to_set().contains(x) == s.to_set().insert(name).contains(
        x,
    ) by {
        if s.contains(x) {
            let i = choose|i: int| 0 <= i < s.len() && s[i] == x;
            if i < pos {
                assert(t[i] == x);
            } else {
                assert(t[i + 1] == x);
            }
        }
        if x == name {
            assert(t[pos] == x);
        }
    }
}

/// Two sorted sequences that hold the same names are the same sequence.
pub proof fn lemma_sorted_unique(a: Seq<Seq<char>>, b: Seq<Seq<char>>)
    requires
        strictly_sorted(a),
        strictly_sorted(b),
        a.to_set() == b.to_set(),
    ensures
        a == b,
    decreases a.len(),
{
    if a.len() == 0 || b.len() == 0 {
        if a.len() > 0 {
            assert(b.to_set().contains(a[0]));
        }
        if b.len() > 0 {
            assert(a.to_set().contains(b[0]));
        }
    } else {
        assert(b.to_set().contains(a[0]));
        assert(a.to_set().contains(b[0]));
        let j = choose|j: int| 0 <= j < b.len() && b[j] == a[0];
        let i = choose|i: int| 0 <= i < a.len() && a[i] == b[0];
        if i > 0 && j > 0 {
            lemma_name_lt_transitive(a[0], a[i], b[j]);
            lemma_name_lt_irreflexive(a[0]);
        }
        assert(a[0] == b[0]);
        let a1 = a.drop_first();
        let b1 = b.drop_first();
        assert forall|x: Seq<char>| a1.to_set().contains(x) == b1.to_set().contains(x) by {
            lemma_name_lt_irreflexive(x);
            if a1.contains(x) {
                let k = choose|k: int| 0 <= k < a1.len() && a1[k] == x;
                assert(b.to_set().contains(x));
                let m = choose|m: int| 0 <= m < b.len() && b[m] == x;
                assert(b1[m - 1] == x);
            }
            if b1.contains(x) {
                let k = choose|k: int| 0 <= k < b1.len() && b1[k] == x;
                assert(a.to_set().contains(x));
                let m = choose|m: int| 0 <= m < a.len() && a[m] == x;
                assert(a1[m - 1] == x);
            }
        }
        assert(a1.to_set() =~= b1.to_set());
        assert(strictly_sorted(a1));
        assert(strictly_sorted(b1));
        lemma_sorted_unique(a1, b1);
        assert(a =~= seq![a[0]] + a1);
        assert(b =~= seq![b[0]] + b1);
    }
}

/// A finite set of names. Its names can be walked in name order, which depends on nothing
/// but the set.
pub struct NameSet {
    names: Vec<String>,
}

impl View for NameSet {
    type V = Set<Seq<char>>;

    open spec fn view(&self) -> Set<Seq<char>> {
        self.seq().to_set()
    }
}

impl NameSet {
    /// The names of the set, in name order.
    pub closed spec fn seq(&self) -> Seq<Seq<char>> {
        self.names@.map_values(|n: String| n@)
    }

    /// The names are held in strictly increasing order.
    #[verifier::type_invariant]
    pub open spec fn wf(&self) -> bool {
        strictly_sorted(self.seq())
    }

    /// The empty set.
    pub fn new() -> (s: Self)
        ensures
            s.seq() == Seq::<Seq<char>>::empty(),
            s@ == Set::<Seq<char>>::empty(),
    {
        NameSet { names: Vec::new() }
    }

    /// The number of names in the set.
    pub fn len(&self) -> (n: usize)
        ensures
            n == self.seq().len(),
            self@.finite(),
            n == self@.len(),
    {
        proof {
            use_type_invariant(self);
            lemma_sorted_len(self.seq());
        }
        self.names.len()
    }

    /// Whether the set holds no name.
    pub fn is_empty(&self) -> (b: bool)
        ensures
            b == (self@ == Set::<Seq<char>>::empty()),
    {
        let b = self.names.len() == 0;
        proof {
            if b {
                assert(self@ =~= Set::<Seq<char>>::empty());
            } else {
                assert(self@.contains(self.seq()[0]));
            }
        }
        b
    }

    /// The `i`-th name in name order, if there are that many.
    pub fn get(&self, i: usize) -> (r: Option<&String>)
        ensures
            i < self.seq().len() ==> r is Some && r.unwrap()@ == self.seq()[i as int],
            i >= self.seq().len() ==> r is None,
    {
        if i < self.names.len() {
            Some(&self.names[i])
        } else {
            None
        }
    }

    /// Where `name` stands in the set, or where it belongs: the index of `name` and `true`
    /// when the set holds it, else its insertion point and `false`.
    pub(crate) fn locate(&self, name: &str) -> (r: (usize, bool))
        ensures
            self.wf(),
            r.1 == self@.contains(name@),
            r.1 ==> r.0 < self.seq().len() && self.seq()[r.0 as int] == name@,
            !r.1 ==> insertion_point(self.seq(), name@, r.0 as int),
    {
        proof {
            use_type_invariant(self);
        }
        let mut lo: usize = 0;
        let mut hi: usize = self.names.len();
        while lo < hi
            invariant
                0 <= lo <= hi <= self.names.len(),
                self.seq().len() == self.names.len(),
                strictly_sorted(self.seq()),
                forall|j: int| 0 <= j < lo ==> name_lt(#[trigger] self.seq()[j], name@),
                forall|j: int|
                    hi <= j < self.seq().len() ==> name_lt(name@, #[trigger] self.seq()[j]),
            decreases hi - lo,
        {
            let mid: usize = lo + (hi - lo) / 2;
            let at_mid: &String = &self.names[mid];
            assert(at_mid@ == self.seq()[mid as int]);
            if is_name_lt(at_mid.as_str(), name) {
                proof {
                    assert forall|j: int| 0 <= j < mid + 1 implies name_lt(
                        #[trigger] self.seq()[j],
                        name@,
                    ) by {
                        if j < mid {
                            lemma_name_lt_transitive(self.seq()[j], self.seq()[mid as int], name@);
                        }
                    }
                }
                lo = mid + 1;
            } else if is_name_lt(name, at_mid.as_str()) {
                proof {
                    assert forall|j: int| mid <= j < self.seq().len() implies name_lt(
                        name@,
                        #[trigger] self.seq()[j],
                    ) by {
                        if j > mid {
                            lemma_name_lt_transitive(name@, self.seq()[mid as int], self.seq()[j]);
                        }
                    }
                }
                hi = mid;
            } else {
                proof {
                    lemma_name_lt_total(at_mid@, name@);
                }
                return (mid, true);
            }
        }
        proof {
            lemma_insertion_point_absent(self.seq(), name@, lo as int);
        }
        (lo, false)
    }

    /// Whether the set holds exactly this name.
    pub fn contains(&self, name: &str) -> (b: bool)
        ensures
            b == self@.contains(name@),
    {
        self.locate(name).1
    }

    /// Adds `name` to the set, and says where it stands now and whether it was new.
    pub(crate) fn place(&mut self, name: String) -> (r: (usize, bool))
        ensures
            final(self).wf(),
            final(self)@ == old(self)@.insert(name@),
            r.1 == !old(self)@.contains(name@),
            r.1 ==> insertion_point(old(self).seq(), name@, r.0 as int) && final(self).seq()
                == old(self).seq().insert(r.0 as int, name@),
            !r.1 ==> final(self).seq() == old(self).seq() && r.0 < old(self).seq().len() && old(
                self,
            ).seq()[r.0 as int] == name@,
    {
        let (pos, found) = self.locate(name.as_str());
        if found {
            (pos, false)
        } else {
            let ghost before = self.seq();
            let mut names: Vec<String> = Vec::new();
            std::mem::swap(&mut names, &mut self.names);
            names.insert(pos, name);
            proof {
                lemma_insert_sorted(before, name@, pos as int);
                assert(names@.map_values(|n: String| n@) =~= before.insert(pos as int, name@));
            }
            self.names = names;
            (pos, true)
        }
    }

    /// Adds `name` to the set; `true` when the set did not hold it before.
    pub fn insert(&mut self, name: String) -> (added: bool)
        ensures
            final(self)@ == old(self)@.insert(name@),
            added == !old(self)@.contains(name@),
    {
        self.place(name).1
    }
}

} // verus!
