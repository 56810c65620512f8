use lrlex::render::{push_constant, push_constants, push_escaped, push_replaced, push_rule};
use lrlex::{reconcile, render, LexerDef, Rule, RuleIdMap};

fn rule<T>(tok_id: Option<T>, name: Option<&str>, pattern: &str) -> Rule<T> {
    Rule::new(tok_id, name.map(|n| n.to_string()), pattern.to_string())
}

fn calc_table() -> LexerDef<u32> {
    LexerDef::new(vec![
        rule(Some(0), Some("num"), "[0-9]+"),
        rule(Some(1), Some("plus"), "\\+"),
    ])
}

fn calc_ids() -> RuleIdMap<u32> {
    let mut map = RuleIdMap::new();
    map.insert("num".to_string(), 1);
    map.insert("plus".to_string(), 2);
    map.insert("minus".to_string(), 3);
    map
}

fn unescape(text: &str) -> String {
    let mut out = String::new();
    let mut chars = text.chars();
    while let Some(c) = chars.next() {
        if c == '\\' {
            match chars.next() {
                Some(d) => out.push(d),
                None => out.push(c),
            }
        } else {
            out.push(c);
        }
    }
    out
}

fn escape(pattern: &str) -> String {
    let mut out = String::new();
    push_escaped(&mut out, pattern);
    out
}

#[test]
fn replaced_text_has_each_occurrence_replaced() {
    let mut out = String::from(">");
    push_replaced(&mut out, "a.b..c", '.', "::");
    assert_eq!(out, ">a::b::::c");
    let mut same = String::new();
    push_replaced(&mut same, "abc", 'x', "yy");
    assert_eq!(same, "abc");
    let mut gone = String::new();
    push_replaced(&mut gone, "a-b-", '-', "");
    assert_eq!(gone, "ab");
}

#[test]
fn escaping_doubles_backslashes_and_guards_quotes() {
    assert_eq!(escape("[0-9]+"), "[0-9]+");
    assert_eq!(escape("\\+"), "\\\\+");
    assert_eq!(escape("\""), "\\\"");
    assert_eq!(escape("\\\""), "\\\\\\\"");
    assert_eq!(escape("a\\b\"c"), "a\\\\b\\\"c");
    assert_eq!(escape(""), "");
}

#[test]
fn escaping_agrees_with_two_passes_of_replace() {
    let patterns = ["", "abc", "\\", "\"", "\\\"", "\"\\", "\\\\\"\"", "a\\nb\"c\"\\", "é\\€\""];
    for pattern in patterns.iter() {
        assert_eq!(escape(pattern), pattern.replace("\\", "\\\\").replace("\"", "\\\""));
    }
}

#[test]
fn escaped_pattern_reads_back_as_the_pattern() {
    let patterns = [
        "\\\"",
        "a\\b\"c",
        "\"[^\"\\\\]*\"",
        "\\\\",
        "\"\"",
        "\\",
        "\"",
        "plain",
        "",
        "\\d+\\.\\d*",
    ];
    for pattern in patterns.iter() {
        assert_eq!(unescape(&escape(pattern)), *pattern);
    }
}

#[test]
fn rule_line_with_id_and_name() {
    let mut out = String::new();
    push_rule(&mut out, Some(7u8), Some("\"x\""), "a\\b\"c");
    assert_eq!(out, "\nRule::new(Some(7), Some(\"x\".to_string()), \"a\\\\b\\\"c\".to_string()).unwrap(),");
}

#[test]
fn rule_line_without_id_or_name() {
    let mut out = String::from("vec![");
    push_rule::<u16>(&mut out, None, None, "[ \\t]+");
    assert_eq!(out, "vec![\nRule::new(None, None, \"[ \\\\t]+\".to_string()).unwrap(),");
}

#[test]
fn constant_of_an_entry() {
    let mut out = String::new();
    push_constant(&mut out, "left_brace", 12u16);
    assert_eq!(out, "#[allow(dead_code)]\nconst T_LEFT_BRACE: u16 = 12;\n");
}

#[test]
fn constants_come_in_name_order() {
    let mut out = String::from("//\n");
    push_constants(&mut out, &calc_ids());
    assert_eq!(
        out,
        "//\n#[allow(dead_code)]\nconst T_MINUS: u32 = 3;\n#[allow(dead_code)]\nconst T_NUM: u32 = 1;\n#[allow(dead_code)]\nconst T_PLUS: u32 = 2;\n"
    );
    let mut none = String::new();
    push_constants(&mut none, &RuleIdMap::<u32>::new());
    assert_eq!(none, "");
}

#[test]
fn rust_pp_writes_import_and_constructor() {
    let table = calc_table();
    let mut out = String::new();
    table.rust_pp(&mut out);
    let expected = "use lrlex::{LexerDef, Rule};\n\n\
pub fn lexerdef() -> LexerDef<u32> {\n    let rules = vec![\n\
Rule::new(Some(0), Some(\"num\".to_string()), \"[0-9]+\".to_string()).unwrap(),\n\
Rule::new(Some(1), Some(\"plus\".to_string()), \"\\\\+\".to_string()).unwrap(),\n\
];\n    LexerDef::new(rules)\n}\n";
    assert_eq!(out, expected);
}

#[test]
fn rust_pp_appends_to_what_is_there() {
    let table: LexerDef<u8> = LexerDef::new(Vec::new());
    let mut out = String::from("mod empty_l {");
    table.rust_pp(&mut out);
    assert_eq!(
        out,
        "mod empty_l {use lrlex::{LexerDef, Rule};\n\npub fn lexerdef() -> LexerDef<u8> {\n    let rules = vec![\n];\n    LexerDef::new(rules)\n}\n"
    );
}

#[test]
fn pp_rules_and_constructor_are_the_parts_of_rust_pp() {
    let table = calc_table();
    let mut rules = String::new();
    table.pp_rules(&mut rules);
    assert_eq!(
        rules,
        "\nRule::new(Some(0), Some(\"num\".to_string()), \"[0-9]+\".to_string()).unwrap(),\nRule::new(Some(1), Some(\"plus\".to_string()), \"\\\\+\".to_string()).unwrap(),"
    );
    let mut constructor = String::new();
    table.pp_constructor(&mut constructor);
    let mut whole = String::new();
    table.rust_pp(&mut whole);
    assert_eq!(whole, format!("use lrlex::{{LexerDef, Rule}};\n\n{}", constructor));
    assert_eq!(
        constructor,
        format!("pub fn lexerdef() -> LexerDef<u32> {{\n    let rules = vec![{}\n];\n    LexerDef::new(rules)\n}}\n", rules)
    );
}

#[test]
fn render_with_map_has_header_constants_and_footer() {
    let mut table = calc_table();
    let map = calc_ids();
    reconcile(&mut table, Some(&map));
    let text = render(&table, Some(&map), "calc_l");
    let expected = "mod calc_l {use lrlex::{LexerDef, Rule};\n\n\
#[allow(dead_code)]\nconst T_MINUS: u32 = 3;\n\
#[allow(dead_code)]\nconst T_NUM: u32 = 1;\n\
#[allow(dead_code)]\nconst T_PLUS: u32 = 2;\n\
pub fn lexerdef() -> LexerDef<u32> {\n    let rules = vec![\n\
Rule::new(Some(1), Some(\"num\".to_string()), \"[0-9]+\".to_string()).unwrap(),\n\
Rule::new(Some(2), Some(\"plus\".to_string()), \"\\\\+\".to_string()).unwrap(),\n\
];\n    LexerDef::new(rules)\n}\n}";
    assert_eq!(text, expected);
    assert!(text.contains("const T_NUM: u32 = 1;"));
    assert!(text.contains("const T_PLUS: u32 = 2;"));
    assert!(text.contains("const T_MINUS: u32 = 3;"));
}

#[test]
fn render_without_map_has_no_constants() {
    let table = calc_table();
    let text = render(&table, None, "calc_l");
    let expected = "mod calc_l {use lrlex::{LexerDef, Rule};\n\n\
pub fn lexerdef() -> LexerDef<u32> {\n    let rules = vec![\n\
Rule::new(Some(0), Some(\"num\".to_string()), \"[0-9]+\".to_string()).unwrap(),\n\
Rule::new(Some(1), Some(\"plus\".to_string()), \"\\\\+\".to_string()).unwrap(),\n\
];\n    LexerDef::new(rules)\n}\n}";
    assert_eq!(text, expected);
    assert!(!text.contains("const"));
}

#[test]
fn render_with_empty_map_has_no_constants() {
    let table = calc_table();
    let map: RuleIdMap<u32> = RuleIdMap::new();
    assert_eq!(render(&table, Some(&map), "calc_l"), render(&table, None, "calc_l"));
}

#[test]
fn render_writes_a_constant_for_each_entry_matched_or_not() {
    let table: LexerDef<u64> = LexerDef::new(vec![rule(Some(1), Some("a"), "a")]);
    let mut map: RuleIdMap<u64> = RuleIdMap::new();
    map.insert("zed".to_string(), 26);
    map.insert("a".to_string(), 1);
    let text = render(&table, Some(&map), "m");
    let expected = "mod m {use lrlex::{LexerDef, Rule};\n\n\
#[allow(dead_code)]\nconst T_A: u64 = 1;\n\
#[allow(dead_code)]\nconst T_ZED: u64 = 26;\n\
pub fn lexerdef() -> LexerDef<u64> {\n    let rules = vec![\n\
Rule::new(Some(1), Some(\"a\".to_string()), \"a\".to_string()).unwrap(),\n\
];\n    LexerDef::new(rules)\n}\n}";
    assert_eq!(text, expected);
}

#[test]
fn render_does_not_depend_on_how_the_map_was_built() {
    let table = calc_table();
    let mut other = RuleIdMap::new();
    other.insert("minus".to_string(), 3);
    other.insert("plus".to_string(), 0);
    other.insert("num".to_string(), 1);
    other.insert("plus".to_string(), 2);
    let first = render(&table, Some(&calc_ids()), "calc_l");
    let second = render(&table, Some(&other), "calc_l");
    assert_eq!(first, second);
    assert_eq!(first, render(&table, Some(&calc_ids()), "calc_l"));
}

#[test]
fn rules_are_rendered_in_table_order_whatever_the_map_holds() {
    let patterns = ["zz", "a", "mm", "b", "yy"];
    let names = ["z", "a", "m", "b", "y"];
    let mut rules = Vec::new();
    for i in 0..5 {
        rules.push(rule(Some(i as u32), Some(names[i]), patterns[i]));
    }
    let mut table = LexerDef::new(rules);
    let mut map = RuleIdMap::new();
    map.insert("y".to_string(), 50);
    map.insert("a".to_string(), 40);
    map.insert("q".to_string(), 30);
    reconcile(&mut table, Some(&map));
    let text = render(&table, Some(&map), "order_l");
    let mut last = text.find("let rules = vec![").unwrap();
    for pattern in patterns.iter() {
        let at = text.find(&format!("\"{}\".to_string()).unwrap(),", pattern)).unwrap();
        assert!(at > last);
        last = at;
    }
    let footer = &text[text.find("pub fn lexerdef()").unwrap()..];
    let expected = "pub fn lexerdef() -> LexerDef<u32> {\n    let rules = vec![\n\
Rule::new(Some(0), Some(\"z\".to_string()), \"zz\".to_string()).unwrap(),\n\
Rule::new(Some(40), Some(\"a\".to_string()), \"a\".to_string()).unwrap(),\n\
Rule::new(Some(2), Some(\"m\".to_string()), \"mm\".to_string()).unwrap(),\n\
Rule::new(Some(3), Some(\"b\".to_string()), \"b\".to_string()).unwrap(),\n\
Rule::new(Some(50), Some(\"y\".to_string()), \"yy\".to_string()).unwrap(),\n\
];\n    LexerDef::new(rules)\n}\n}";
    assert_eq!(footer, expected);
}

#[test]
fn names_are_quoted_as_debug_quotes_them() {
    let table: LexerDef<u8> = LexerDef::new(vec![
        rule(None, Some("say \"hi\""), "hi"),
        rule(Some(3), Some("back\\slash"), "\\\\"),
        rule(Some(4), Some("tab\there"), "\\t"),
    ]);
    let mut out = String::new();
    table.pp_rules(&mut out);
    let expected = "\nRule::new(None, Some(\"say \\\"hi\\\"\".to_string()), \"hi\".to_string()).unwrap(),\
\nRule::new(Some(3), Some(\"back\\\\slash\".to_string()), \"\\\\\\\\\".to_string()).unwrap(),\
\nRule::new(Some(4), Some(\"tab\\there\".to_string()), \"\\\\t\".to_string()).unwrap(),";
    assert_eq!(out, expected);
}

#[test]
fn identifier_type_is_written_as_its_rust_name() {
    let small: LexerDef<u8> = LexerDef::new(vec![rule(Some(255), None, "x")]);
    assert!(render(&small, None, "m").contains("-> LexerDef<u8> {"));
    let wide: LexerDef<usize> = LexerDef::new(vec![rule(Some(70000), None, "x")]);
    let text = render(&wide, None, "m");
    assert!(text.contains("-> LexerDef<usize> {"));
    assert!(text.contains("Rule::new(Some(70000), None, \"x\".to_string()).unwrap(),"));
    let mut map: RuleIdMap<u16> = RuleIdMap::new();
    map.insert("k".to_string(), 65535);
    let short: LexerDef<u16> = LexerDef::new(Vec::new());
    assert!(render(&short, Some(&map), "m").contains("const T_K: u16 = 65535;\n"));
}

#[test]
fn signed_identifiers_are_rendered_with_their_sign() {
    let table: LexerDef<i16> = LexerDef::new(vec![
        rule(Some(-3), Some("neg"), "-"),
        rule(Some(4), Some("pos"), "\\+"),
    ]);
    let mut map: RuleIdMap<i16> = RuleIdMap::new();
    map.insert("low".to_string(), -32768);
    let text = render(&table, Some(&map), "signed_l");
    let expected = "mod signed_l {use lrlex::{LexerDef, Rule};\n\n\
#[allow(dead_code)]\nconst T_LOW: i16 = -32768;\n\
pub fn lexerdef() -> LexerDef<i16> {\n    let rules = vec![\n\
Rule::new(Some(-3), Some(\"neg\".to_string()), \"-\".to_string()).unwrap(),\n\
Rule::new(Some(4), Some(\"pos\".to_string()), \"\\\\+\".to_string()).unwrap(),\n\
];\n    LexerDef::new(rules)\n}\n}";
    assert_eq!(text, expected);
}
