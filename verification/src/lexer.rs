//! The rule table of a lexer, and its reconciliation with an identifier map.

use crate::idmap::{entry_names, has_key, lemma_mapped_id_some, mapped_id, matches_any,
    RuleIdMap};
use crate::names::NameSet;
use crate::text::{is_same_name, same_name};
use crate::tokid::TokenId;
use vstd::prelude::*;

verus! {

/// One lexing rule: a pattern, the name of the token it produces, if it has one, and the
/// token's identifier, if one is assigned.
pub struct Rule<T> {
    /// The identifier of the token, if one is assigned.
    pub tok_id: Option<T>,
    /// The name of the token, if the rule produces one.
    pub name: Option<String>,
    /// The pattern, a regular expression as it was written.
    pub re_str: String,
}

/// What a rule holds, with its texts as sequences of characters.
pub struct RuleView<T> {
    pub tok_id: Option<T>,
    pub name: Option<Seq<char>>,
    pub re_str: Seq<char>,
}

impl<T> View for Rule<T> {
    type V = RuleView<T>;

    open spec fn view(&self) -> RuleView<T> {
        RuleView {
            tok_id: self.tok_id,
            name: match self.name {
                Some(n) => Some(n@),
                None => None,
            },
            re_str: self.re_str@,
        }
    }
}

impl<T> Rule<T> {
    /// The rule with this identifier, name and pattern.
    pub fn new(tok_id: Option<T>, name: Option<String>, re_str: String) -> (r: Self)
        ensures
            r.tok_id == tok_id,
            r.name == name,
            r.re_str == re_str,
    {
        Rule { tok_id, name, re_str }
    }
}

/// The views of a sequence of rules, in the same order.
pub open spec fn rule_views<T>(rules: Seq<Rule<T>>) -> Seq<RuleView<T>> {
    rules.map_values(|r: Rule<T>| r@)
}

/// The rule as reconciliation leaves it: a named rule for which the entries hold an
/// identifier takes that identifier; any other rule stays as it is.
pub open spec fn reconciled_rule<T>(r: RuleView<T>, e: Seq<(Seq<char>, T)>) -> RuleView<T> {
    match r.name {
        Some(n) => match mapped_id(e, n) {
            Some(id) => RuleView { tok_id: Some(id), name: r.name, re_str: r.re_str },
            None => r,
        },
        None => r,
    }
}

/// The table as reconciliation leaves it: each rule reconciled, in its place.
pub open spec fn reconciled<T>(table: Seq<RuleView<T>>, e: Seq<(Seq<char>, T)>) -> Seq<
    RuleView<T>,
> {
    table.map_values(|r: RuleView<T>| reconciled_rule(r, e))
}

/// Some rule of the table is called exactly `n`.
pub open spec fn rule_named<T>(table: Seq<RuleView<T>>, n: Seq<char>) -> bool {
    exists|i: int| 0 <= i < table.len() && (#[trigger] table[i]).name == Some(n)
}

/// Some rule of the table has a name that is `k` up to the case of ASCII letters.
pub open spec fn matches_rule<T>(table: Seq<RuleView<T>>, k: Seq<char>) -> bool {
    exists|i: int|
        0 <= i < table.len() && (#[trigger] table[i]).name is Some && same_name(
            table[i].name.unwrap(),
            k,
        )
}

/// The names of the entries that correspond to no rule of the table.
pub open spec fn missing_from_lexer<T>(table: Seq<RuleView<T>>, e: Seq<(Seq<char>, T)>) -> Set<
    Seq<char>,
> {
    Set::new(|k: Seq<char>| has_key(e, k) && !matches_rule(table, k))
}

/// The names of the rules that correspond to no entry.
pub open spec fn missing_from_parser<T>(table: Seq<RuleView<T>>, e: Seq<(Seq<char>, T)>) -> Set<
    Seq<char>,
> {
    Set::new(|n: Seq<char>| rule_named(table, n) && !matches_any(e, n))
}

/// Rules `i` and `j`, `i` before `j`, both have an identifier, and it is the same number.
pub open spec fn ids_clash<T: TokenId>(table: Seq<RuleView<T>>, i: int, j: int) -> bool {
    &&& 0 <= i < j < table.len()
    &&& table[i].tok_id is Some
    &&& table[j].tok_id is Some
    &&& table[i].tok_id.unwrap().number() == table[j].tok_id.unwrap().number()
}

/// No two rules of the table claim the same identifier.
pub open spec fn ids_distinct<T: TokenId>(table: Seq<RuleView<T>>) -> bool {
    forall|i: int, j: int| !ids_clash(table, i, j)
}

/// The rule table of a lexer: its rules in order of priority, the first rule first.
pub struct LexerDef<T> {
    rules: Vec<Rule<T>>,
}

impl<T> View for LexerDef<T> {
    type V = Seq<RuleView<T>>;

    closed spec fn view(&self) -> Seq<RuleView<T>> {
        rule_views(self.rules@)
    }
}

impl<T: TokenId> LexerDef<T> {
    /// The table of the rules, in their order.
    pub fn new(rules: Vec<Rule<T>>) -> (d: Self)
        ensures
            d@ == rule_views(rules@),
    {
        LexerDef { rules }
    }

    /// The number of rules.
    pub fn len(&self) -> (n: usize)
        ensures
            n == self@.len(),
    {
        self.rules.len()
    }

    /// The rule at place `idx`, counting from 0, if the table has that many rules.
    pub fn get_rule(&self, idx: usize) -> (r: Option<&Rule<T>>)
        ensures
            idx < self@.len() ==> r is Some && r.unwrap()@ == self@[idx as int],
            idx >= self@.len() ==> r is None,
    {
        if idx < self.rules.len() {
            Some(&self.rules[idx])
        } else {
            None
        }
    }

    /// Whether some rule has a name that is `name` up to the case of ASCII letters.
    pub fn has_rule_like(&self, name: &str) -> (b: bool)
        ensures
            b == matches_rule(self@, name@),
    {
        let n: usize = self.rules.len();
        let mut i: usize = 0;
        while i < n
            invariant
                0 <= i <= n,
                n == self.rules@.len(),
                n == self@.len(),
                forall|j: int|
                    0 <= j < i ==> !((#[trigger] self@[j]).name is Some && same_name(
                        self@[j].name.unwrap(),
                        name@,
                    )),
            decreases n - i,
        {
            assert(self@[i as int] == self.rules@[i as int]@);
            match &self.rules[i].name {
                Some(rule_name) => {
                    if is_same_name(rule_name.as_str(), name) {
                        return true;
                    }
                },
                None => {},
            }
            i += 1;
        }
        false
    }

    /// Reconciles the table with `map`. Each named rule for which `map` holds an identifier
    /// takes it: the identifier of the entry with exactly the rule's name, or else that of
    /// the first entry, in name order, whose name differs from it only in the case of ASCII
    /// letters. Rules that share a name all take the same identifier. A rule without a name,
    /// or with a name that `map` lacks, keeps what it has.
    ///
    /// Returns the names in `map` that correspond to no rule, then the names of the rules
    /// that correspond to no entry of `map`. Nothing here fails: whether a mismatch is an
    /// error is for the caller to say.
    pub fn set_rule_ids(&mut self, map: &RuleIdMap<T>) -> (r: (NameSet, NameSet))
        ensures
            final(self)@ == reconciled(old(self)@, map.entries()),
            r.0@ == missing_from_lexer(old(self)@, map.entries()),
            r.1@ == missing_from_parser(old(self)@, map.entries()),
    {
        let ghost table = self@;
        let ghost e = map.entries();
        let mut from_lexer = NameSet::new();
        let m: usize = map.len();
        let mut k: usize = 0;
        while k < m
            invariant
                0 <= k <= m,
                m == e.len(),
                e == map.entries(),
                table == self@,
                from_lexer@ == missing_from_lexer(table, e.take(k as int)),
            decreases m - k,
        {
            let key = map.name_at(k).unwrap();
            proof {
                lemma_missing_from_lexer_step(table, e, k as int);
            }
            if !self.has_rule_like(key.as_str()) {
                from_lexer.insert(key.clone());
            }
            k += 1;
        }
        assert(e.take(m as int) =~= e);
        let mut from_parser = NameSet::new();
        let n: usize = self.rules.len();
        let mut i: usize = 0;
        while i < n
            invariant
                0 <= i <= n,
                n == self.rules@.len(),
                n == table.len(),
                e == map.entries(),
                forall|j: int|
                    0 <= j < i ==> (#[trigger] self.rules@[j])@ == reconciled_rule(table[j], e),
                forall|j: int| i <= j < n ==> (#[trigger] self.rules@[j])@ == table[j],
                from_parser@ == missing_from_parser(table.take(i as int), e),
            decreases n - i,
        {
            proof {
                lemma_missing_from_parser_step(table, e, i as int);
            }
            let mut found: Option<T> = None;
            let mut unmatched: Option<String> = None;
            match &self.rules[i].name {
                Some(name) => {
                    found = map.lookup(name.as_str());
                    if found.is_none() {
                        unmatched = Some(name.clone());
                    }
                },
                None => {},
            }
            if let Some(id) = found {
                self.rules[i].tok_id = Some(id);
            }
            if let Some(name) = unmatched {
                from_parser.insert(name);
            }
            i += 1;
        }
        proof {
            assert(table.take(n as int) =~= table);
        }
        (from_lexer, from_parser)
    }

    /// Looks for two rules that claim the same identifier. Of all such pairs it returns the one
    /// whose later rule comes first in the table, with the earliest rule that clashes with it.
    pub fn find_id_clash(&self) -> (r: Option<(usize, usize)>)
        ensures
            r is None <==> ids_distinct(self@),
            r matches Some((i, j)) ==> {
                &&& ids_clash(self@, i as int, j as int)
                &&& forall|p: int, q: int|
                    ids_clash(self@, p, q) ==> j < q || (j == q && i <= p)
            },
    {
        let n: usize = self.rules.len();
        let mut j: usize = 0;
        while j < n
            invariant
                0 <= j <= n,
                n == self.rules@.len(),
                n == self@.len(),
                forall|p: int, q: int| 0 <= q < j ==> !ids_clash(self@, p, q),
            decreases n - j,
        {
            if let Some(later) = self.rules[j].tok_id {
                let mut i: usize = 0;
                while i < j
                    invariant
                        0 <= i <= j < n,
                        n == self.rules@.len(),
                        n == self@.len(),
                        self@[j as int].tok_id == Some(later),
                        forall|p: int, q: int| 0 <= q < j ==> !ids_clash(self@, p, q),
                        forall|p: int| 0 <= p < i ==> !ids_clash(self@, p, j as int),
                    decreases j - i,
                {
                    if let Some(earlier) = self.rules[i].tok_id {
                        if earlier.is_negative() == later.is_negative() && earlier.magnitude()
                            == later.magnitude() {
                            assert(ids_clash(self@, i as int, j as int));
                            return Some((i, j));
                        }
                    }
                    i += 1;
                }
            }
            j += 1;
        }
        None
    }
}

/// The entries before place `k + 1` give the names that the lexer lacks among the entries
/// before place `k`, and the name of entry `k` if no rule corresponds to it.
pub proof fn lemma_missing_from_lexer_step<T>(
    table: Seq<RuleView<T>>,
    e: Seq<(Seq<char>, T)>,
    k: int,
)
    requires
        0 <= k < e.len(),
    ensures
        missing_from_lexer(table, e.take(k + 1)) == (if matches_rule(table, e[k].0) {
            missing_from_lexer(table, e.take(k))
        } else {
            missing_from_lexer(table, e.take(k)).insert(e[k].0)
        }),
{
    let prev = e.take(k);
    let next = e.take(k + 1);
    assert forall|x: Seq<char>| has_key(next, x) == (has_key(prev, x) || e[k].0 == x) by {
        let pn = entry_names(prev);
        let nn = entry_names(next);
        if has_key(next, x) {
            let j = choose|j: int| 0 <= j < nn.len() && nn[j] == x;
            if j < k {
                assert(pn[j] == x);
            }
        }
        if has_key(prev, x) {
            let j = choose|j: int| 0 <= j < pn.len() && pn[j] == x;
            assert(nn[j] == x);
        }
        if e[k].0 == x {
            assert(nn[k] == x);
        }
    }
}

/// The rules before place `i + 1` give the names that the parser lacks among the rules before
/// place `i`, and the name of rule `i` if it has one and no entry corresponds to it.
pub proof fn lemma_missing_from_parser_step<T>(
    table: Seq<RuleView<T>>,
    e: Seq<(Seq<char>, T)>,
    i: int,
)
    requires
        0 <= i < table.len(),
    ensures
        missing_from_parser(table.take(i + 1), e) == (match table[i].name {
            Some(n) => if mapped_id(e, n) is Some {
                missing_from_parser(table.take(i), e)
            } else {
                missing_from_parser(table.take(i), e).insert(n)
            },
            None => missing_from_parser(table.take(i), e),
        }),
{
    let prev = table.take(i);
    let next = table.take(i + 1);
    assert forall|x: Seq<char>| rule_named(next, x) == (rule_named(prev, x) || table[i].name
        == Some(x)) by {
        if rule_named(next, x) {
            let j = choose|j: int| 0 <= j < next.len() && (#[trigger] next[j]).name == Some(x);
            if j < i {
                assert(prev[j].name == Some(x));
            }
        }
        if rule_named(prev, x) {
            let j = choose|j: int| 0 <= j < prev.len() && (#[trigger] prev[j]).name == Some(x);
            assert(next[j].name == Some(x));
        }
        if table[i].name == Some(x) {
            assert(next[i].name == Some(x));
        }
    }
    if let Some(n) = table[i].name {
        lemma_mapped_id_some(e, n);
    }
}

} // verus!
