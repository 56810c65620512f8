//! Character-level text helpers: ASCII case folding, the order on names, decimal numerals.
//!
//! Strings are modelled by their view, a `Seq<char>`. Every executable function here walks
//! its arguments once, front to back.

use vstd::prelude::*;
use vstd::std_specs::iter::IteratorSpec;

verus! {

/// `String::push` appends the character to the end of the string, and nothing else changes.
pub assume_specification[ String::push ](s: &mut String, ch: char)
    ensures
        final(s)@ == old(s)@.push(ch),
;

/// The ASCII upper-case form of `c`: `'a'..='z'` become `'A'..='Z'`, every other character
/// stays as it is.
pub open spec fn ascii_upper(c: char) -> char {
    if 'a' <= c && c <= 'z' {
        ((c as u32) - 32) as char
    } else {
        c
    }
}

/// A name with every character in its ASCII upper-case form.
pub open spec fn upper(s: Seq<char>) -> Seq<char> {
    s.map_values(|c: char| ascii_upper(c))
}

/// Two names are the same name when they differ at most in the case of ASCII letters.
pub open spec fn same_name(a: Seq<char>, b: Seq<char>) -> bool {
    upper(a) == upper(b)
}

/// Strict lexicographic order on names, character by character, by code point. A proper
/// prefix comes before the names it starts.
pub open spec fn name_lt(a: Seq<char>, b: Seq<char>) -> bool
    decreases a.len(),
{
    if b.len() == 0 {
        false
    } else if a.len() == 0 {
        true
    } else if a[0] != b[0] {
        a[0] < b[0]
    } else {
        name_lt(a.drop_first(), b.drop_first())
    }
}

/// The text of a string that may be missing, as a sequence of characters.
pub open spec fn text_of(s: Option<&str>) -> Option<Seq<char>> {
    match s {
        Some(t) => Some(t@),
        None => None,
    }
}

/// The character of the decimal digit `d`, for `d < 10`.
pub open spec fn digit_char(d: nat) -> char {
    ('0' as u32 + d) as char
}

/// The decimal numeral of `n`, without sign or leading zeros; `0` is written `"0"`.
pub open spec fn decimal_text(n: nat) -> Seq<char>
    decreases n,
{
    if n < 10 {
        seq![digit_char(n)]
    } else {
        decimal_text(n / 10).push(digit_char(n % 10))
    }
}

/// The decimal numeral of the integer `n`: that of its distance from zero, after a minus
/// sign where `n` is below zero.
pub open spec fn number_text(n: int) -> Seq<char> {
    if n < 0 {
        seq!['-'] + decimal_text((-n) as nat)
    } else {
        decimal_text(n as nat)
    }
}

/// No name comes before itself.
pub proof fn lemma_name_lt_irreflexive(a: Seq<char>)
    ensures
        !name_lt(a, a),
    decreases a.len(),
{
    if a.len() > 0 {
        lemma_name_lt_irreflexive(a.drop_first());
    }
}

/// What comes before a name comes before all that the name comes before.
pub proof fn lemma_name_lt_transitive(a: Seq<char>, b: Seq<char>, c: Seq<char>)
    requires
        name_lt(a, b),
        name_lt(b, c),
    ensures
        name_lt(a, c),
    decreases a.len(),
{
    if a.len() > 0 && a[0] == b[0] && b[0] == c[0] {
        lemma_name_lt_transitive(a.drop_first(), b.drop_first(), c.drop_first());
    }
}

/// Any two names are equal or ordered one way round.
pub proof fn lemma_name_lt_total(a: Seq<char>, b: Seq<char>)
    ensures
        name_lt(a, b) || a == b || name_lt(b, a),
    decreases a.len(),
{
    if a.len() > 0 && b.len() > 0 && a[0] == b[0] {
        lemma_name_lt_total(a.drop_first(), b.drop_first());
        if a.drop_first() == b.drop_first() {
            assert(a =~= seq![a[0]] + a.drop_first());
            assert(b =~= seq![b[0]] + b.drop_first());
        }
    }
}

/// `same_name` can be decided front to back: two non-empty names are the same name when their
/// first characters fold to one character and the rest are the same name.
pub proof fn lemma_same_name_unfold(a: Seq<char>, b: Seq<char>)
    ensures
        same_name(a, b) == (if a.len() == 0 || b.len() == 0 {
            a.len() == b.len()
        } else {
            ascii_upper(a[0]) == ascii_upper(b[0]) && same_name(a.drop_first(), b.drop_first())
        }),
{
    if a.len() == 0 || b.len() == 0 {
        if a.len() == b.len() {
            assert(upper(a) =~= upper(b));
        }
    } else {
        assert(upper(a.drop_first()) =~= upper(a).drop_first());
        assert(upper(b.drop_first()) =~= upper(b).drop_first());
        assert(upper(a) =~= seq![ascii_upper(a[0])] + upper(a.drop_first()));
        assert(upper(b) =~= seq![ascii_upper(b[0])] + upper(b.drop_first()));
        if upper(a) == upper(b) {
            assert(upper(a)[0] == upper(b)[0]);
        }
    }
}

/// The ASCII upper-case form of `c`.
pub fn to_ascii_upper(c: char) -> (r: char)
    ensures
        r == ascii_upper(c),
{
    if 'a' <= c && c <= 'z' {
        let b: u8 = c as u8;
        (b - 32) as char
    } else {
        c
    }
}

/// Appends the ASCII upper-case form of `s` to `out`.
pub fn push_upper(out: &mut String, s: &str)
    ensures
        final(out)@ == old(out)@ + upper(s@),
{
    let ghost before = out@;
    for c in it: s.chars()
        invariant
            it.seq() == s@,
            out@ == before + upper(s@.take(it.index() as int)),
    {
        out.push(to_ascii_upper(c));
    }
}

/// Whether `a` comes before `b` in name order.
pub fn is_name_lt(a: &str, b: &str) -> (r: bool)
    ensures
        r == name_lt(a@, b@),
{
    let mut ia = a.chars();
    let mut ib = b.chars();
    loop
        invariant
            name_lt(a@, b@) == name_lt(ia.remaining(), ib.remaining()),
            ia.obeys_prophetic_iter_laws(),
            ib.obeys_prophetic_iter_laws(),
            ia.decrease() is Some,
        decreases ia.decrease()->0,
    {
        let ca = ia.next();
        let cb = ib.next();
        match (ca, cb) {
            (_, None) => {
                return false;
            },
            (None, Some(_)) => {
                return true;
            },
            (Some(x), Some(y)) => {
                if x != y {
                    return x < y;
                }
            },
        }
    }
}

/// Whether `a` and `b` differ at most in the case of ASCII letters.
pub fn is_same_name(a: &str, b: &str) -> (r: bool)
    ensures
        r == same_name(a@, b@),
{
    let mut ia = a.chars();
    let mut ib = b.chars();
    loop
        invariant
            same_name(a@, b@) == same_name(ia.remaining(), ib.remaining()),
            ia.obeys_prophetic_iter_laws(),
            ib.obeys_prophetic_iter_laws(),
            ia.decrease() is Some,
        decreases ia.decrease()->0,
    {
        proof {
            lemma_same_name_unfold(ia.remaining(), ib.remaining());
        }
        let ca = ia.next();
        let cb = ib.next();
        match (ca, cb) {
            (None, None) => {
                return true;
            },
            (Some(x), Some(y)) => {
                if to_ascii_upper(x) != to_ascii_upper(y) {
                    return false;
                }
            },
            _ => {
                return false;
            },
        }
    }
}

/// Whether `a` and `b` are the same text, character for character.
pub fn is_same_text(a: &str, b: &str) -> (r: bool)
    ensures
        r == (a@ == b@),
{
    let mut ia = a.chars();
    let mut ib = b.chars();
    loop
        invariant
            (a@ == b@) == (ia.remaining() == ib.remaining()),
            ia.obeys_prophetic_iter_laws(),
            ib.obeys_prophetic_iter_laws(),
            ia.decrease() is Some,
        decreases ia.decrease()->0,
    {
        let ghost ra = ia.remaining();
        let ghost rb = ib.remaining();
        let ca = ia.next();
        let cb = ib.next();
        match (ca, cb) {
            (None, None) => {
                assert(ra =~= rb);
                return true;
            },
            (Some(x), Some(y)) => {
                if x != y {
                    return false;
                }
                assert(ra =~= seq![x] + ra.drop_first());
                assert(rb =~= seq![y] + rb.drop_first());
            },
            _ => {
                return false;
            },
        }
    }
}

/// Appends the decimal numeral of `n` to `out`.
pub fn push_decimal(out: &mut String, n: u64)
    ensures
        final(out)@ == old(out)@ + decimal_text(n as nat),
    decreases n,
{
    if n >= 10 {
        push_decimal(out, n / 10);
    }
    let d: u8 = (n % 10) as u8;
    out.push((48u8 + d) as char);
}

} // verus!
