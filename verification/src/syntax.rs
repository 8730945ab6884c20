//! The syntax-tree crates that a declaration of a fixed-point type is built
//! with. Nothing here is proved: each contract states what the crate's
//! source shows of the function it wraps.

use vstd::prelude::*;

verus! {

#[verifier::external_type_specification]
#[verifier::external_body]
pub struct ExType(syn::Type);

#[verifier::external_type_specification]
#[verifier::external_body]
pub struct ExError(syn::Error);

#[verifier::external_type_specification]
#[verifier::external_body]
pub struct ExLiteral(proc_macro2::Literal);

/// The characters that a literal holds: what its `Display` prints.
pub uninterp spec fn literal_text(literal: proc_macro2::Literal) -> Seq<char>;

/// The message that an error holds: what its `Display` prints.
pub uninterp spec fn error_message(error: syn::Error) -> Seq<char>;

/// Whether `ch` is a decimal digit or one of the upper-case letters `A` to
/// `F`.
pub open spec fn is_upper_hex_digit(ch: char) -> bool {
    ('0' <= ch && ch <= '9') || ('A' <= ch && ch <= 'F')
}

/// The texts `0x` followed by one or more upper-case hexadecimal digits.
pub open spec fn is_hex_literal_text(text: Seq<char>) -> bool {
    &&& text.len() >= 3
    &&& text[0] == '0'
    &&& text[1] == 'x'
    &&& forall|i: int| 2 <= i < text.len() ==> is_upper_hex_digit(#[trigger] text[i])
}

/// `syn::parse_str`, for a `syn::Type`: lexes the text into tokens and parses
/// all of them as one type. Which lexer is at work depends on whether the
/// call is made inside a macro expansion, so nothing is claimed of the
/// outcome: neither that it succeeds, nor of the syntax tree, nor of the
/// error.
#[verifier::external_body]
pub(crate) fn parse_type(text: &str) -> (parsed: Result<syn::Type, syn::Error>) {
    syn::parse_str::<syn::Type>(text)
}

/// `syn::Error::new_spanned`, with a string as the tokens to point at: makes
/// an error whose one message is `message`. It never fails. Where the error
/// points, and on which thread it was made, is not part of the contract.
#[verifier::external_body]
pub(crate) fn spanned_error(tokens: &str, message: &str) -> (error: syn::Error)
    ensures
        error_message(error) == message@,
{
    syn::Error::new_spanned(tokens, message)
}

/// `proc_macro2::Literal`'s `FromStr`, on the text of a hexadecimal integer
/// literal. The lexer reads `0x` and then at least one hexadecimal digit as
/// an integer literal, so the parse succeeds on every text admitted here, and
/// the literal keeps the text as it was given. Where the literal points is
/// not part of the contract.
#[verifier::external_body]
pub(crate) fn literal_from_hex_text(text: &str) -> (literal: proc_macro2::Literal)
    requires
        is_hex_literal_text(text@),
    ensures
        literal_text(literal) == text@,
{
    text.parse::<proc_macro2::Literal>().unwrap()
}

} // verus!
