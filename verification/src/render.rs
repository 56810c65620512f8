//! The text of the generated module.
//!
//! The module has three parts: a header that opens the module and imports the runtime types;
//! one constant for each entry of the identifier map, in name order; and a footer that defines
//! `lexerdef()`, which builds the rule table, rule by rule in table order, and closes the module.

use crate::idmap::RuleIdMap;
use crate::lexer::{LexerDef, RuleView};
use crate::text::{number_text, push_decimal, push_upper, text_of, upper};
use crate::tokid::TokenId;
use vstd::prelude::*;

verus! {

/// What `{:?}` writes for a string: the string between double quotes, with the characters
/// escaped that `Debug` for `str` escapes. It is a function of the string alone.
pub uninterp spec fn debug_quoted(s: Seq<char>) -> Seq<char>;

/// Formats `s` with `{:?}`, which calls `<str as core::fmt::Debug>::fmt`. Nothing is proved
/// of the text that comes back: the contract gives it its name, [`debug_quoted`], and what
/// is written round it is [`push_rule`]'s to say.
#[verifier::external_body]
fn debug_quote(s: &str) -> (r: String)
    ensures
        r@ == debug_quoted(s@),
{
    format!("{:?}", s)
}

/// What stands for the character `x` when `c` is replaced by `with`.
pub open spec fn replacement(x: char, c: char, with: Seq<char>) -> Seq<char> {
    if x == c {
        with
    } else {
        seq![x]
    }
}

/// `s` with each occurrence of the character `c` replaced by `with`.
pub open spec fn replace_char(s: Seq<char>, c: char, with: Seq<char>) -> Seq<char>
    decreases s.len(),
{
    if s.len() == 0 {
        Seq::empty()
    } else {
        replace_char(s.drop_last(), c, with) + replacement(s.last(), c, with)
    }
}

/// Replacing a character goes piece by piece: what stands for `a + b` is what stands for `a`
/// and then what stands for `b`.
pub proof fn lemma_replace_concat(a: Seq<char>, b: Seq<char>, c: char, with: Seq<char>)
    ensures
        replace_char(a + b, c, with) == replace_char(a, c, with) + replace_char(b, c, with),
    decreases b.len(),
{
    if b.len() > 0 {
        assert((a + b).drop_last() =~= a + b.drop_last());
        lemma_replace_concat(a, b.drop_last(), c, with);
    }
}

/// A pattern as it stands between the double quotes of a string literal: first each backslash
/// is doubled, then each double quote gets a backslash in front.
pub open spec fn escaped(pattern: Seq<char>) -> Seq<char> {
    replace_char(replace_char(pattern, '\\', seq!['\\', '\\']), '"', seq!['\\', '"'])
}

/// The pattern that an escaped pattern stands for: a backslash makes the character after it
/// stand for itself.
pub open spec fn unescaped(s: Seq<char>) -> Seq<char>
    decreases s.len(),
{
    if s.len() == 0 {
        Seq::empty()
    } else if s[0] == '\\' && s.len() >= 2 {
        seq![s[1]] + unescaped(s.skip(2))
    } else {
        seq![s[0]] + unescaped(s.skip(1))
    }
}

/// How a rule's identifier is written: `Some(..)` round its decimal numeral, or `None`.
pub open spec fn id_text<T: TokenId>(tok_id: Option<T>) -> Seq<char> {
    match tok_id {
        Some(id) => "Some("@ + number_text(id.number()) + ")"@,
        None => "None"@,
    }
}

/// How a rule's name is written, given the name already quoted: `Some(..)` round an owned
/// copy of the quoted name, or `None`.
pub open spec fn name_text(quoted_name: Option<Seq<char>>) -> Seq<char> {
    match quoted_name {
        Some(q) => "Some("@ + q + ".to_string())"@,
        None => "None"@,
    }
}

/// The line that builds one rule, from its identifier, its name already quoted, and its
/// pattern.
pub open spec fn rule_line<T: TokenId>(
    tok_id: Option<T>,
    quoted_name: Option<Seq<char>>,
    re_str: Seq<char>,
) -> Seq<char> {
    "\nRule::new("@ + id_text(tok_id) + ", "@ + name_text(quoted_name) + ", \""@ + escaped(re_str)
        + "\".to_string()).unwrap(),"@
}

/// A rule's name as `{:?}` quotes it, if the rule has a name.
pub open spec fn quoted(name: Option<Seq<char>>) -> Option<Seq<char>> {
    match name {
        Some(n) => Some(debug_quoted(n)),
        None => None,
    }
}

/// The line that builds the rule `r`.
pub open spec fn rule_text<T: TokenId>(r: RuleView<T>) -> Seq<char> {
    rule_line(r.tok_id, quoted(r.name), r.re_str)
}

/// The lines that build the rules of the table, one for each rule, in table order.
pub open spec fn rule_lines<T: TokenId>(table: Seq<RuleView<T>>) -> Seq<Seq<char>> {
    table.map_values(|r: RuleView<T>| rule_text(r))
}

/// The import of the runtime types.
pub open spec fn import_text() -> Seq<char> {
    "use lrlex::{LexerDef, Rule};\n\n"@
}

/// The definition of `lexerdef()` up to its first rule.
pub open spec fn constructor_open<T: TokenId>() -> Seq<char> {
    "pub fn lexerdef() -> LexerDef<"@ + T::rust_type() + "> {\n    let rules = vec!["@
}

/// The definition of `lexerdef()` after its last rule.
pub open spec fn constructor_close() -> Seq<char> {
    "\n];\n    LexerDef::new(rules)\n}\n"@
}

/// The definition of `lexerdef()`, which builds the table: the lines of its rules, in table
/// order, between the opening and the closing text.
pub open spec fn constructor_text<T: TokenId>(table: Seq<RuleView<T>>) -> Seq<char> {
    constructor_open::<T>() + rule_lines(table).flatten() + constructor_close()
}

/// The constant that one entry of the identifier map becomes: `T_` and the name in upper
/// case, with the entry's identifier as its value. Names that differ only in the case of
/// ASCII letters give constants of one name.
pub open spec fn constant_text<T: TokenId>(entry: (Seq<char>, T)) -> Seq<char> {
    "#[allow(dead_code)]\nconst T_"@ + upper(entry.0) + ": "@ + T::rust_type() + " = "@
        + number_text(entry.1.number()) + ";\n"@
}

/// The constants of the entries, one for each entry, in the order of the entries.
pub open spec fn constant_lines<T: TokenId>(e: Seq<(Seq<char>, T)>) -> Seq<Seq<char>> {
    e.map_values(|entry: (Seq<char>, T)| constant_text(entry))
}

/// The constants of all the entries as one text.
pub open spec fn constants_text<T: TokenId>(e: Seq<(Seq<char>, T)>) -> Seq<char> {
    constant_lines(e).flatten()
}

/// The constants of the identifier map, if there is one.
pub open spec fn constants_of<T: TokenId>(entries: Option<Seq<(Seq<char>, T)>>) -> Seq<char> {
    match entries {
        Some(e) => constants_text(e),
        None => Seq::empty(),
    }
}

/// The header of the module called `module`: it opens the module and imports the runtime
/// types.
pub open spec fn header_text(module: Seq<char>) -> Seq<char> {
    "mod "@ + module + " {"@ + import_text()
}

/// The whole module: header, constants, footer.
pub open spec fn artifact_text<T: TokenId>(
    table: Seq<RuleView<T>>,
    entries: Option<Seq<(Seq<char>, T)>>,
    module: Seq<char>,
) -> Seq<char> {
    header_text(module) + constants_of(entries) + constructor_text(table) + "}"@
}

/// The entries of the identifier map, if there is one.
pub open spec fn entries_of<T>(mapping: Option<&RuleIdMap<T>>) -> Option<Seq<(Seq<char>, T)>> {
    match mapping {
        Some(m) => Some(m.entries()),
        None => None,
    }
}

/// Appends the decimal numeral of the identifier `id` to `out`.
pub fn push_id<T: TokenId>(out: &mut String, id: T)
    ensures
        final(out)@ == old(out)@ + number_text(id.number()),
{
    if id.is_negative() {
        out.push('-');
    }
    push_decimal(out, id.magnitude());
}

/// Appends `s` to `out`, with each occurrence of the character `c` replaced by `with`.
pub fn push_replaced(out: &mut String, s: &str, c: char, with: &str)
    ensures
        final(out)@ == old(out)@ + replace_char(s@, c, with@),
{
    let ghost before = out@;
    for x in it: s.chars()
        invariant
            it.seq() == s@,
            out@ == before + replace_char(s@.take(it.index() as int), c, with@),
    {
        assert(s@.take(it.index() + 1).drop_last() =~= s@.take(it.index() as int));
        if x == c {
            out.append(with);
        } else {
            out.push(x);
        }
    }
    assert(s@.take(s@.len() as int) =~= s@);
}

/// Appends the pattern `re_str` to `out`, escaped for a string literal.
pub fn push_escaped(out: &mut String, re_str: &str)
    ensures
        final(out)@ == old(out)@ + escaped(re_str@),
{
    let mut doubled = String::new();
    proof {
        reveal_strlit("\\\\");
        reveal_strlit("\\\"");
        assert("\\\\"@ =~= seq!['\\', '\\']);
        assert("\\\""@ =~= seq!['\\', '"']);
    }
    push_replaced(&mut doubled, re_str, '\\', "\\\\");
    push_replaced(out, doubled.as_str(), '"', "\\\"");
}

/// Appends the line that builds one rule to `outs`. The name comes already quoted, as `{:?}`
/// writes it.
pub fn push_rule<T: TokenId>(
    outs: &mut String,
    tok_id: Option<T>,
    quoted_name: Option<&str>,
    re_str: &str,
)
    ensures
        final(outs)@ == old(outs)@ + rule_line(tok_id, text_of(quoted_name), re_str@),
{
    outs.append("\nRule::new(");
    match tok_id {
        Some(id) => {
            outs.append("Some(");
            push_id(outs, id);
            outs.append(")");
        },
        None => {
            outs.append("None");
        },
    }
    outs.append(", ");
    match quoted_name {
        Some(q) => {
            outs.append("Some(");
            outs.append(q);
            outs.append(".to_string())");
        },
        None => {
            outs.append("None");
        },
    }
    outs.append(", \"");
    push_escaped(outs, re_str);
    outs.append("\".to_string()).unwrap(),");
}

/// Appends the constant of one entry of the identifier map to `outs`.
pub fn push_constant<T: TokenId>(outs: &mut String, name: &str, id: T)
    ensures
        final(outs)@ == old(outs)@ + constant_text((name@, id)),
{
    outs.append("#[allow(dead_code)]\nconst T_");
    push_upper(outs, name);
    outs.append(": ");
    let id_type = T::rust_type_string();
    outs.append(id_type.as_str());
    outs.append(" = ");
    push_id(outs, id);
    outs.append(";\n");
}

impl<T: TokenId> LexerDef<T> {
    /// Appends the lines that build the rules of the table to `outs`, in table order.
    pub fn pp_rules(&self, outs: &mut String)
        ensures
            final(outs)@ == old(outs)@ + rule_lines(self@).flatten(),
    {
        let ghost before = outs@;
        let n: usize = self.len();
        let mut i: usize = 0;
        while i < n
            invariant
                0 <= i <= n,
                n == self@.len(),
                outs@ == before + rule_lines(self@.take(i as int)).flatten(),
            decreases n - i,
        {
            let rule = self.get_rule(i).unwrap();
            proof {
                let done = self@.take(i as int);
                assert(self@.take(i + 1) =~= done.push(self@[i as int]));
                assert(rule_lines(done.push(self@[i as int])) =~= rule_lines(done).push(
                    rule_text(self@[i as int]),
                ));
                rule_lines(done).lemma_flatten_push(rule_text(self@[i as int]));
            }
            match &rule.name {
                Some(name) => {
                    let q = debug_quote(name.as_str());
                    push_rule(outs, rule.tok_id, Some(q.as_str()), rule.re_str.as_str());
                },
                None => {
                    push_rule(outs, rule.tok_id, None, rule.re_str.as_str());
                },
            }
            i += 1;
        }
        assert(self@.take(n as int) =~= self@);
    }

    /// Appends the definition of `lexerdef()` to `outs`.
    pub fn pp_constructor(&self, outs: &mut String)
        ensures
            final(outs)@ == old(outs)@ + constructor_text(self@),
    {
        outs.append("pub fn lexerdef() -> LexerDef<");
        let id_type = T::rust_type_string();
        outs.append(id_type.as_str());
        outs.append("> {\n    let rules = vec![");
        self.pp_rules(outs);
        outs.append("\n];\n    LexerDef::new(rules)\n}\n");
    }

    /// Appends the table as Rust source to `outs`: the import of the runtime types, then the
    /// definition of `lexerdef()`.
    pub fn rust_pp(&self, outs: &mut String)
        ensures
            final(outs)@ == old(outs)@ + import_text() + constructor_text(self@),
    {
        outs.append("use lrlex::{LexerDef, Rule};\n\n");
        self.pp_constructor(outs);
    }
}

/// Appends the constants of all the entries of `map` to `outs`, in name order.
pub fn push_constants<T: TokenId>(outs: &mut String, map: &RuleIdMap<T>)
    ensures
        final(outs)@ == old(outs)@ + constants_text(map.entries()),
{
    let ghost before = outs@;
    let ghost e = map.entries();
    let n: usize = map.len();
    let mut i: usize = 0;
    while i < n
        invariant
            0 <= i <= n,
            n == e.len(),
            e == map.entries(),
            outs@ == before + constant_lines(e.take(i as int)).flatten(),
        decreases n - i,
    {
        let name = map.name_at(i).unwrap();
        let id = map.id_at(i).unwrap();
        proof {
            let done = e.take(i as int);
            assert(e.take(i + 1) =~= done.push(e[i as int]));
            assert(constant_lines(done.push(e[i as int])) =~= constant_lines(done).push(
                constant_text(e[i as int]),
            ));
            constant_lines(done).lemma_flatten_push(constant_text(e[i as int]));
        }
        push_constant(outs, name.as_str(), id);
        i += 1;
    }
    assert(e.take(n as int) =~= e);
}

/// Renders the module called `module_name` for the table: the header, one constant for each
/// entry of `mapping`, whether or not a rule has its name, and the footer with the rules in
/// table order. The text depends on nothing but what the table and the map hold.
pub fn render<T: TokenId>(
    table: &LexerDef<T>,
    mapping: Option<&RuleIdMap<T>>,
    module_name: &str,
) -> (text: String)
    ensures
        text@ == artifact_text(table@, entries_of(mapping), module_name@),
{
    let mut outs = String::new();
    outs.append("mod ");
    outs.append(module_name);
    outs.append(" {");
    outs.append("use lrlex::{LexerDef, Rule};\n\n");
    match mapping {
        Some(map) => {
            push_constants(&mut outs, map);
        },
        None => {},
    }
    table.pp_constructor(&mut outs);
    outs.append("}");
    outs
}

} // verus!
