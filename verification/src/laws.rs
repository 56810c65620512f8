//! What holds of the compiler as a whole, proved from the definitions of its parts.

use crate::compile::reconciled_with;
use crate::idmap::{distinct_names, entry_names, has_key, lemma_map_order, lemma_pairs_map_holds,
    matches_any, pairs_map, RuleIdMap};
use crate::lexer::{matches_rule, missing_from_lexer, missing_from_parser, rule_named, RuleView};
use crate::names::{lemma_sorted_unique, NameSet};
use crate::render::{artifact_text, constants_of, constructor_close, constructor_open, escaped,
    header_text, lemma_replace_concat, replace_char, replacement, rule_lines, rule_text,
    unescaped};
use crate::text::same_name;
use crate::tokid::TokenId;
use crate::writer::{action_for, content_after, WriteAction};
use vstd::prelude::*;

verus! {

/// Writing is idempotent. Reconciling a reconciled table with the same identifier map
/// changes nothing. So once a module has been written with success, the target holds its
/// text, and compiling the same table, with the same identifier map, for the same module
/// name a second time leaves the target untouched.
pub proof fn second_write_keeps_target<T: TokenId>(
    table: Seq<RuleView<T>>,
    entries: Option<Seq<(Seq<char>, T)>>,
    module: Seq<char>,
    existing: Option<Seq<char>>,
)
    ensures
        ({
            let once = reconciled_with(table, entries);
            let text = artifact_text(once, entries, module);
            let written = content_after(existing, text, action_for(existing, text));
            let twice = reconciled_with(once, entries);
            &&& twice == once
            &&& written == Some(text)
            &&& action_for(written, artifact_text(twice, entries, module)) == WriteAction::Keep
            &&& content_after(written, text, WriteAction::Keep) == written
        }),
{
    let once = reconciled_with(table, entries);
    assert(reconciled_with(once, entries) =~= once);
}

/// Rendering is deterministic. The text is a function of the table, of what the identifier
/// map holds and of the module name: two maps that hold the same identifiers for the same
/// names, however each was built, give the same text.
pub proof fn render_is_deterministic<T: TokenId>(
    table: Seq<RuleView<T>>,
    a: RuleIdMap<T>,
    b: RuleIdMap<T>,
    module: Seq<char>,
)
    requires
        a.wf(),
        b.wf(),
        a@ == b@,
    ensures
        a.entries() == b.entries(),
        artifact_text(table, Some(a.entries()), module) == artifact_text(
            table,
            Some(b.entries()),
            module,
        ),
{
    lemma_map_order(a, b);
}

/// An identifier map does not depend on the order in which it is handed over. Two lists of
/// pairs, each with a name at most once, that hold the same pairs build the same map,
/// whatever the order of either list.
pub proof fn map_ignores_order_of_pairs<T>(p: Seq<(Seq<char>, T)>, q: Seq<(Seq<char>, T)>)
    requires
        distinct_names(p),
        distinct_names(q),
        p.to_set() == q.to_set(),
    ensures
        pairs_map(p) == pairs_map(q),
{
    lemma_pairs_map_holds(p);
    lemma_pairs_map_holds(q);
    let a = pairs_map(p);
    let b = pairs_map(q);
    assert forall|k: Seq<char>| #[trigger] a.dom().contains(k) == b.dom().contains(k) by {
        if a.dom().contains(k) {
            assert(q.to_set().contains((k, a[k])));
        }
        if b.dom().contains(k) {
            assert(p.to_set().contains((k, b[k])));
        }
    }
    assert forall|k: Seq<char>| a.dom().contains(k) implies #[trigger] a[k] == b[k] by {
        assert(q.to_set().contains((k, a[k])));
    }
}

/// A report lists its names in an order that depends on nothing but the names: two name sets
/// that hold the same names list them in the same order.
pub proof fn report_order_is_determined(a: NameSet, b: NameSet)
    requires
        a.wf(),
        b.wf(),
        a@ == b@,
    ensures
        a.seq() == b.seq(),
{
    lemma_sorted_unique(a.seq(), b.seq());
}

/// Reconciliation is complete. Every name of the identifier map that corresponds to no rule
/// is reported as missing from the lexer, and every rule name that corresponds to no entry of
/// the map is reported as missing from the parser. A name that was matched, on either side,
/// is in neither report, and no name is in both.
pub proof fn reconciliation_is_complete<T>(table: Seq<RuleView<T>>, e: Seq<(Seq<char>, T)>)
    ensures
        forall|k: Seq<char>|
            has_key(e, k) && !matches_rule(table, k) ==> #[trigger] missing_from_lexer(
                table,
                e,
            ).contains(k),
        forall|n: Seq<char>|
            rule_named(table, n) && !matches_any(e, n) ==> #[trigger] missing_from_parser(
                table,
                e,
            ).contains(n),
        forall|n: Seq<char>|
            rule_named(table, n) && matches_any(e, n) ==> !(#[trigger] missing_from_lexer(
                table,
                e,
            ).contains(n)) && !missing_from_parser(table, e).contains(n),
        forall|k: Seq<char>|
            has_key(e, k) && matches_rule(table, k) ==> !(#[trigger] missing_from_lexer(
                table,
                e,
            ).contains(k)) && !missing_from_parser(table, e).contains(k),
        missing_from_lexer(table, e).disjoint(missing_from_parser(table, e)),
{
    assert forall|n: Seq<char>| rule_named(table, n) implies matches_rule(table, n) by {
        let i = choose|i: int| 0 <= i < table.len() && (#[trigger] table[i]).name == Some(n);
        assert(same_name(table[i].name.unwrap(), n));
    }
    assert forall|k: Seq<char>| has_key(e, k) implies matches_any(e, k) by {
        let j = entry_names(e).index_of(k);
        assert(same_name(e[j].0, k));
    }
}

/// The order of the rules is preserved. Reconciliation, whatever the identifier map holds,
/// leaves each rule in its place with its name and its pattern; and the footer of the module
/// builds the rules in table order: its rule lines are the lines of the rules of the table,
/// one for each, the first rule first.
pub proof fn rule_order_is_preserved<T: TokenId>(
    table: Seq<RuleView<T>>,
    entries: Option<Seq<(Seq<char>, T)>>,
    module: Seq<char>,
)
    ensures
        ({
            let after = reconciled_with(table, entries);
            &&& after.len() == table.len()
            &&& forall|i: int|
                0 <= i < table.len() ==> (#[trigger] after[i]).name == table[i].name
                    && after[i].re_str == table[i].re_str
            &&& rule_lines(after).len() == table.len()
            &&& forall|i: int|
                0 <= i < table.len() ==> #[trigger] rule_lines(after)[i] == rule_text(after[i])
            &&& artifact_text(after, entries, module) == header_text(module) + constants_of(
                entries,
            ) + constructor_open::<T>() + rule_lines(after).flatten() + constructor_close()
                + "}"@
        }),
{
}

/// Patterns round-trip through escaping. The escaped form of a pattern, read back with a
/// backslash taken to make the next character stand for itself, is the pattern.
pub proof fn escape_round_trip(pattern: Seq<char>)
    ensures
        unescaped(escaped(pattern)) == pattern,
    decreases pattern.len(),
{
    let slash = seq!['\\', '\\'];
    let quote = seq!['\\', '"'];
    if pattern.len() > 0 {
        let x = pattern[0];
        let rest = pattern.drop_first();
        assert(pattern =~= seq![x] + rest);
        lemma_replace_concat(seq![x], rest, '\\', slash);
        let first = replace_char(seq![x], '\\', slash);
        assert(first =~= replacement(x, '\\', slash)) by {
            reveal_with_fuel(replace_char, 2);
        }
        let doubled_rest = replace_char(rest, '\\', slash);
        lemma_replace_concat(first, doubled_rest, '"', quote);
        let head = replace_char(first, '"', quote);
        assert(escaped(pattern) == head + escaped(rest));
        escape_round_trip(rest);
        if x == '\\' {
            assert(head =~= slash) by {
                reveal_with_fuel(replace_char, 3);
            }
            assert((head + escaped(rest)).skip(2) =~= escaped(rest));
        } else if x == '"' {
            assert(head =~= quote) by {
                reveal_with_fuel(replace_char, 2);
            }
            assert((head + escaped(rest)).skip(2) =~= escaped(rest));
        } else {
            assert(head =~= seq![x]) by {
                reveal_with_fuel(replace_char, 2);
            }
            assert((head + escaped(rest)).skip(1) =~= escaped(rest));
        }
    }
}

} // verus!
