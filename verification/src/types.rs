//! The primitive integer type that stores a fixed-point number.

use vstd::prelude::*;
use vstd::string::StringExecFns;
use crate::math::{power_of_two_bit_length, storage_width};
use crate::syntax::{error_message, parse_type, spanned_error};
use crate::text::{decimal_string, decimal_text};

verus! {

/// The name of the primitive integer type with the given prefix (`i` or `u`)
/// that is just wide enough for `bits` bits.
pub open spec fn integer_type_text(bits: int, prefix: char) -> Seq<char> {
    seq![prefix] + decimal_text(storage_width(bits) as nat)
}

/// A type name, qualified so that no local item can shadow it.
pub open spec fn qualified_type_text(name: Seq<char>) -> Seq<char> {
    "::core::primitive::"@ + name
}

/// The text of the diagnostic for asking for more bits than the widest
/// integer type with the given prefix has.
pub open spec fn largest_type_text(prefix: Seq<char>) -> Seq<char> {
    prefix + "64 is the largest supported type"@
}

/// The error of asking for more bits than the widest integer type has: its
/// message names that type, and it points at the number of bits asked for.
fn largest_type_error(bits: u8, prefix: &str) -> (error: syn::Error)
    ensures
        error_message(error) == largest_type_text(prefix@),
{
    let mut message: String = String::from_str(prefix);
    message.append("64 is the largest supported type");
    let tokens: String = decimal_string(bits as u64);
    spanned_error(tokens.as_str(), message.as_str())
}

/// Returns the name of the narrowest primitive integer type that holds `bits`
/// bits: signed for the prefix `i`, unsigned for `u`. Above 64 bits there is
/// no such type, and the error says which type is the largest.
pub fn integer_type_string(bits: u8, prefix: char) -> (name: Result<String, syn::Error>)
    requires
        prefix == 'i' || prefix == 'u',
    ensures
        bits <= 64 ==> name is Ok && name->Ok_0@ == integer_type_text(bits as int, prefix),
        bits > 64 ==> name is Err && error_message(name->Err_0) == largest_type_text(
            seq![prefix],
        ),
{
    proof {
        reveal_strlit("i");
        reveal_strlit("u");
    }
    let prefix_text: &str = if prefix == 'i' {
        "i"
    } else {
        "u"
    };
    assert(prefix_text@ =~= seq![prefix]);
    match power_of_two_bit_length(bits) {
        Some(width) => {
            let mut name: String = String::from_str(prefix_text);
            let digits: String = decimal_string(width as u64);
            name.append(digits.as_str());
            assert(name@ =~= integer_type_text(bits as int, prefix));
            Ok(name)
        },
        None => Err(largest_type_error(bits, prefix_text)),
    }
}

/// The name of the narrowest signed integer type that holds `bits` bits.
pub fn signed_integer_type_string(bits: u8) -> (name: Result<String, syn::Error>)
    ensures
        bits <= 64 ==> name is Ok && name->Ok_0@ == integer_type_text(bits as int, 'i'),
        bits > 64 ==> name is Err && error_message(name->Err_0) == largest_type_text(seq!['i']),
{
    integer_type_string(bits, 'i')
}

/// The name of the narrowest unsigned integer type that holds `bits` bits.
pub fn unsigned_integer_type_string(bits: u8) -> (name: Result<String, syn::Error>)
    ensures
        bits <= 64 ==> name is Ok && name->Ok_0@ == integer_type_text(bits as int, 'u'),
        bits > 64 ==> name is Err && error_message(name->Err_0) == largest_type_text(seq!['u']),
{
    integer_type_string(bits, 'u')
}

/// Qualifies a primitive type's name with `::core::primitive::`.
pub fn qualified_type_name(s: &str) -> (text: String)
    ensures
        text@ == qualified_type_text(s@),
{
    let mut text: String = String::from_str("::core::primitive::");
    text.append(s);
    text
}

/// Parses the qualified name of a primitive type, which
/// [`qualified_type_name`] makes of `s`, as a type. The parser decides
/// whether that succeeds.
pub fn core_primitive_type(s: &str) -> (parsed: Result<syn::Type, syn::Error>) {
    let text: String = qualified_type_name(s);
    parse_type(text.as_str())
}

/// The qualified signed integer type that is just wide enough for `bits`
/// bits. Above 64 bits it fails, and the error says that `i64` is the largest
/// type; otherwise the parser is handed the qualified name of the type and
/// decides.
pub fn signed_int_qualified(bits: u8) -> (parsed: Result<syn::Type, syn::Error>)
    ensures
        bits > 64 ==> parsed is Err && error_message(parsed->Err_0) == largest_type_text(
            seq!['i'],
        ),
{
    match signed_integer_type_string(bits) {
        Ok(name) => core_primitive_type(name.as_str()),
        Err(error) => Err(error),
    }
}

/// The qualified unsigned integer type that is just wide enough for `bits`
/// bits. Above 64 bits it fails, and the error says that `u64` is the largest
/// type; otherwise the parser is handed the qualified name of the type and
/// decides.
pub fn unsigned_int_qualified(bits: u8) -> (parsed: Result<syn::Type, syn::Error>)
    ensures
        bits > 64 ==> parsed is Err && error_message(parsed->Err_0) == largest_type_text(
            seq!['u'],
        ),
{
    match unsigned_integer_type_string(bits) {
        Ok(name) => core_primitive_type(name.as_str()),
        Err(error) => Err(error),
    }
}

} // verus!
