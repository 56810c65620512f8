//! From a rule table and an identifier map to the generated module and the diagnostics.

use crate::idmap::RuleIdMap;
use crate::lexer::{ids_clash, ids_distinct, missing_from_lexer, missing_from_parser, reconciled,
    LexerDef, RuleView};
use crate::names::NameSet;
use crate::render::{artifact_text, entries_of, render};
use crate::text::text_of;
use crate::tokid::TokenId;
use crate::writer::{action_for, write_action, WriteAction};
use vstd::prelude::*;

verus! {

/// The table as reconciliation with the entries leaves it; without entries, the table itself.
pub open spec fn reconciled_with<T>(
    table: Seq<RuleView<T>>,
    entries: Option<Seq<(Seq<char>, T)>>,
) -> Seq<RuleView<T>> {
    match entries {
        Some(e) => reconciled(table, e),
        None => table,
    }
}

/// The names of the entries that correspond to no rule, if there are entries.
pub open spec fn lexer_gaps<T>(
    table: Seq<RuleView<T>>,
    entries: Option<Seq<(Seq<char>, T)>>,
) -> Option<Set<Seq<char>>> {
    match entries {
        Some(e) => Some(missing_from_lexer(table, e)),
        None => None,
    }
}

/// The names of the rules that correspond to no entry, if there are entries.
pub open spec fn parser_gaps<T>(
    table: Seq<RuleView<T>>,
    entries: Option<Seq<(Seq<char>, T)>>,
) -> Option<Set<Seq<char>>> {
    match entries {
        Some(e) => Some(missing_from_parser(table, e)),
        None => None,
    }
}

/// The names that a set of names holds, if there is a set.
pub open spec fn names_of(set: Option<NameSet>) -> Option<Set<Seq<char>>> {
    match set {
        Some(s) => Some(s@),
        None => None,
    }
}

/// The name of the module generated for the lexer source `stem`: the stem and `_l`.
pub open spec fn module_name_text(stem: Seq<char>) -> Seq<char> {
    stem + "_l"@
}

/// The name of the module generated for the lexer source `stem`.
pub fn module_name(stem: &str) -> (name: String)
    ensures
        name@ == module_name_text(stem@),
{
    let mut name = String::new();
    name.append(stem);
    name.append("_l");
    name
}

/// Reconciles the table with the identifier map, if there is one. Without a map the table
/// stays as it is and there are no diagnostics. With a map each named rule for which the map
/// holds an identifier takes it, and the diagnostics are the names in the map that
/// correspond to no rule, then the names of the rules that correspond to no entry; either
/// set may be empty.
pub fn reconcile<T: TokenId>(table: &mut LexerDef<T>, mapping: Option<&RuleIdMap<T>>) -> (r: (
    Option<NameSet>,
    Option<NameSet>,
))
    ensures
        final(table)@ == reconciled_with(old(table)@, entries_of(mapping)),
        names_of(r.0) == lexer_gaps(old(table)@, entries_of(mapping)),
        names_of(r.1) == parser_gaps(old(table)@, entries_of(mapping)),
{
    match mapping {
        Some(map) => {
            let (from_lexer, from_parser) = table.set_rule_ids(map);
            (Some(from_lexer), Some(from_parser))
        },
        None => (None, None),
    }
}

/// What compiling a rule table gives.
pub struct Compiled {
    /// The text of the generated module.
    pub text: String,
    /// Whether the target has to be written.
    pub action: WriteAction,
    /// The names in the identifier map that correspond to no rule.
    pub missing_from_lexer: Option<NameSet>,
    /// The names of the rules that correspond to no entry of the identifier map.
    pub missing_from_parser: Option<NameSet>,
    /// Two rules that claim the same identifier after reconciliation, by their places in
    /// the table, if there are any.
    pub id_clash: Option<(usize, usize)>,
}

/// Compiles the table into the module called `module_name`: reconciles the table with the
/// identifier map, renders the reconciled table, and decides whether the target, which holds
/// `existing`, has to be written. A mismatch between table and map, or two rules with one
/// identifier, is reported and does not stop the compilation.
pub fn compile<T: TokenId>(
    table: &mut LexerDef<T>,
    mapping: Option<&RuleIdMap<T>>,
    module_name: &str,
    existing: Option<&str>,
) -> (c: Compiled)
    ensures
        final(table)@ == reconciled_with(old(table)@, entries_of(mapping)),
        c.text@ == artifact_text(final(table)@, entries_of(mapping), module_name@),
        c.action == action_for(text_of(existing), c.text@),
        names_of(c.missing_from_lexer) == lexer_gaps(old(table)@, entries_of(mapping)),
        names_of(c.missing_from_parser) == parser_gaps(old(table)@, entries_of(mapping)),
        c.id_clash is None <==> ids_distinct(final(table)@),
        c.id_clash matches Some((i, j)) ==> {
            &&& ids_clash(final(table)@, i as int, j as int)
            &&& forall|p: int, q: int|
                ids_clash(final(table)@, p, q) ==> j < q || (j == q && i <= p)
        },
{
    let (missing_from_lexer, missing_from_parser) = reconcile(table, mapping);
    let id_clash = table.find_id_clash();
    let text = render(table, mapping, module_name);
    let action = write_action(existing, text.as_str());
    Compiled { text, action, missing_from_lexer, missing_from_parser, id_clash }
}

} // verus!
