//! Token identifier types: the integers a generated lexer can number its tokens with.
//!
//! The Rust name of each type comes from the `typename` crate, which generated code agrees
//! with: an identifier is declared there under the name that `typename` gives its type.

use typename::TypeName;
use vstd::prelude::*;

verus! {

/// A token identifier type. An identifier is a number, and its type has a Rust name, under
/// which generated code declares identifiers.
pub trait TokenId: Copy + Sized {
    /// The identifier as a number.
    spec fn number(self) -> int;

    /// The Rust name of the identifier type, as generated code writes it.
    spec fn rust_type() -> Seq<char>;

    /// Whether the identifier is below zero.
    fn is_negative(self) -> (b: bool)
        ensures
            b == (self.number() < 0),
    ;

    /// How far the identifier is from zero.
    fn magnitude(self) -> (m: u64)
        ensures
            m as int == (if self.number() < 0 {
                -self.number()
            } else {
                self.number()
            }),
    ;

    /// The Rust name of the identifier type.
    fn rust_type_string() -> (s: String)
        ensures
            s@ == Self::rust_type(),
    ;
}

/// `typename::TypeName::type_name_of` on a `u8`: the canonical name of a primitive type is
/// its keyword, `u8`, whatever the value.
#[verifier::external_body]
fn name_of_u8(v: u8) -> (s: String)
    ensures
        s@ == "u8"@,
{
    v.type_name_of()
}

impl TokenId for u8 {
    open spec fn number(self) -> int {
        self as int
    }

    open spec fn rust_type() -> Seq<char> {
        "u8"@
    }

    fn is_negative(self) -> (b: bool) {
        false
    }

    fn magnitude(self) -> (m: u64) {
        self as u64
    }

    fn rust_type_string() -> (s: String) {
        name_of_u8(0)
    }
}

/// `typename::TypeName::type_name_of` on a `u16`: the canonical name of a primitive type is
/// its keyword, `u16`, whatever the value.
#[verifier::external_body]
fn name_of_u16(v: u16) -> (s: String)
    ensures
        s@ == "u16"@,
{
    v.type_name_of()
}

impl TokenId for u16 {
    open spec fn number(self) -> int {
        self as int
    }

    open spec fn rust_type() -> Seq<char> {
        "u16"@
    }

    fn is_negative(self) -> (b: bool) {
        false
    }

    fn magnitude(self) -> (m: u64) {
        self as u64
    }

    fn rust_type_string() -> (s: String) {
        name_of_u16(0)
    }
}

/// `typename::TypeName::type_name_of` on a `u32`: the canonical name of a primitive type is
/// its keyword, `u32`, whatever the value.
#[verifier::external_body]
fn name_of_u32(v: u32) -> (s: String)
    ensures
        s@ == "u32"@,
{
    v.type_name_of()
}

impl TokenId for u32 {
    open spec fn number(self) -> int {
        self as int
    }

    open spec fn rust_type() -> Seq<char> {
        "u32"@
    }

    fn is_negative(self) -> (b: bool) {
        false
    }

    fn magnitude(self) -> (m: u64) {
        self as u64
    }

    fn rust_type_string() -> (s: String) {
        name_of_u32(0)
    }
}

/// `typename::TypeName::type_name_of` on a `u64`: the canonical name of a primitive type is
/// its keyword, `u64`, whatever the value.
#[verifier::external_body]
fn name_of_u64(v: u64) -> (s: String)
    ensures
        s@ == "u64"@,
{
    v.type_name_of()
}

impl TokenId for u64 {
    open spec fn number(self) -> int {
        self as int
    }

    open spec fn rust_type() -> Seq<char> {
        "u64"@
    }

    fn is_negative(self) -> (b: bool) {
        false
    }

    fn magnitude(self) -> (m: u64) {
        self as u64
    }

    fn rust_type_string() -> (s: String) {
        name_of_u64(0)
    }
}

/// `typename::TypeName::type_name_of` on a `usize`: the canonical name of a primitive type is
/// its keyword, `usize`, whatever the value.
#[verifier::external_body]
fn name_of_usize(v: usize) -> (s: String)
    ensures
        s@ == "usize"@,
{
    v.type_name_of()
}

impl TokenId for usize {
    open spec fn number(self) -> int {
        self as int
    }

    open spec fn rust_type() -> Seq<char> {
        "usize"@
    }

    fn is_negative(self) -> (b: bool) {
        false
    }

    fn magnitude(self) -> (m: u64) {
        self as u64
    }

    fn rust_type_string() -> (s: String) {
        name_of_usize(0)
    }
}

/// `typename::TypeName::type_name_of` on a `i8`: the canonical name of a primitive type is
/// its keyword, `i8`, whatever the value.
#[verifier::external_body]
fn name_of_i8(v: i8) -> (s: String)
    ensures
        s@ == "i8"@,
{
    v.type_name_of()
}

impl TokenId for i8 {
    open spec fn number(self) -> int {
        self as int
    }

    open spec fn rust_type() -> Seq<char> {
        "i8"@
    }

    fn is_negative(self) -> (b: bool) {
        self < 0
    }

    fn magnitude(self) -> (m: u64) {
        let wide: i128 = self as i128;
        if wide < 0 {
            (0 - wide) as u64
        } else {
            wide as u64
        }
    }

    fn rust_type_string() -> (s: String) {
        name_of_i8(0)
    }
}

/// `typename::TypeName::type_name_of` on a `i16`: the canonical name of a primitive type is
/// its keyword, `i16`, whatever the value.
#[verifier::external_body]
fn name_of_i16(v: i16) -> (s: String)
    ensures
        s@ == "i16"@,
{
    v.type_name_of()
}

impl TokenId for i16 {
    open spec fn number(self) -> int {
        self as int
    }

    open spec fn rust_type() -> Seq<char> {
        "i16"@
    }

    fn is_negative(self) -> (b: bool) {
        self < 0
    }

    fn magnitude(self) -> (m: u64) {
        let wide: i128 = self as i128;
        if wide < 0 {
            (0 - wide) as u64
        } else {
            wide as u64
        }
    }

    fn rust_type_string() -> (s: String) {
        name_of_i16(0)
    }
}

/// `typename::TypeName::type_name_of` on a `i32`: the canonical name of a primitive type is
/// its keyword, `i32`, whatever the value.
#[verifier::external_body]
fn name_of_i32(v: i32) -> (s: String)
    ensures
        s@ == "i32"@,
{
    v.type_name_of()
}

impl TokenId for i32 {
    open spec fn number(self) -> int {
        self as int
    }

    open spec fn rust_type() -> Seq<char> {
        "i32"@
    }

    fn is_negative(self) -> (b: bool) {
        self < 0
    }

    fn magnitude(self) -> (m: u64) {
        let wide: i128 = self as i128;
        if wide < 0 {
            (0 - wide) as u64
        } else {
            wide as u64
        }
    }

    fn rust_type_string() -> (s: String) {
        name_of_i32(0)
    }
}

/// `typename::TypeName::type_name_of` on a `i64`: the canonical name of a primitive type is
/// its keyword, `i64`, whatever the value.
#[verifier::external_body]
fn name_of_i64(v: i64) -> (s: String)
    ensures
        s@ == "i64"@,
{
    v.type_name_of()
}

impl TokenId for i64 {
    open spec fn number(self) -> int {
        self as int
    }

    open spec fn rust_type() -> Seq<char> {
        "i64"@
    }

    fn is_negative(self) -> (b: bool) {
        self < 0
    }

    fn magnitude(self) -> (m: u64) {
        let wide: i128 = self as i128;
        if wide < 0 {
            (0 - wide) as u64
        } else {
            wide as u64
        }
    }

    fn rust_type_string() -> (s: String) {
        name_of_i64(0)
    }
}

/// `typename::TypeName::type_name_of` on a `isize`: the canonical name of a primitive type is
/// its keyword, `isize`, whatever the value.
#[verifier::external_body]
fn name_of_isize(v: isize) -> (s: String)
    ensures
        s@ == "isize"@,
{
    v.type_name_of()
}

impl TokenId for isize {
    open spec fn number(self) -> int {
        self as int
    }

    open spec fn rust_type() -> Seq<char> {
        "isize"@
    }

    fn is_negative(self) -> (b: bool) {
        self < 0
    }

    fn magnitude(self) -> (m: u64) {
        let wide: i128 = self as i128;
        if wide < 0 {
            (0 - wide) as u64
        } else {
            wide as u64
        }
    }

    fn rust_type_string() -> (s: String) {
        name_of_isize(0)
    }
}

} // verus!
