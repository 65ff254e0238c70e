//! Errors raised while reading expressions and literals, and their model.
use vstd::prelude::*;
use crate::value::AttributeType;

verus! {

/// The grammar rule that an input was read as.
#[derive(Debug, Copy, Clone, Hash, PartialEq, Eq, Structural)]
pub enum GrammarRule {
    Literal,
    Path,
    SortKey,
    SortKeyStr,
    SortKeyNumber,
    MapLiteral,
    SetAction,
    RemoveAction,
}

/// An input that the grammar does not accept as the rule it was read as.
#[derive(Debug, Clone, Hash, PartialEq, Eq)]
pub struct SyntaxError {
    pub rule: GrammarRule,
    pub input: String,
}

/// A syntax error together with a reading of the input that the lenient grammar accepts.
#[derive(Debug, Clone, Hash, PartialEq, Eq)]
pub struct ParsingErrorWithSuggestError {
    pub parse_error: SyntaxError,
    pub suggest: String,
}

/// The error context of an unexpected end of a string
#[derive(Debug, Clone, Hash, Eq, PartialEq)]
pub struct EscapeCharUnexpectedEndOfSequenceError {
    pub handling_target: String,
    pub escape_pos: usize,
}

/// The error context of an invalid unicode character
#[derive(Debug, Clone, Hash, Eq, PartialEq)]
pub struct InvalidUnicodeCharError {
    pub handling_target: String,
    pub escape_pos: usize,
}

/// The error context of an unexpected character a string
#[derive(Debug, Clone, Hash, Eq, PartialEq)]
pub struct EscapeCharError {
    pub handling_target: String,
    pub invalid_char: char,
    pub escape_pos: usize,
}

/// The error context of an unexpected escape byte
#[derive(Debug, Clone, Hash, Eq, PartialEq)]
pub struct EscapeByteError {
    pub handling_target: String,
    pub escape_byte: u8,
    pub escape_pos: usize,
}

/// The error context of invalid type
#[derive(Debug, Clone, Hash, Eq, PartialEq)]
pub struct InvalidTypesError {
    pub expected_type: AttributeType,
    pub actual_type: AttributeType,
}

/// The error context of invalid type, with a reading that has the expected type
#[derive(Debug, Clone, Hash, Eq, PartialEq)]
pub struct InvalidTypesWithSuggestError {
    pub expected_type: AttributeType,
    pub actual_type: AttributeType,
    pub suggest: String,
}

/// Why a base64 text could not be decoded.
#[derive(Debug, Copy, Clone, Hash, PartialEq, Eq, Structural)]
pub enum Base64Error {
    /// An invalid byte at the given offset.
    InvalidByte(usize, u8),
    /// The number of base64 symbols is invalid.
    InvalidLength(usize),
    /// The last symbol encodes bits that would be discarded.
    InvalidLastSymbol(usize, u8),
    /// The padding is not as configured.
    InvalidPadding,
}

/// The error context of a parsing error
#[derive(Debug, Clone, Eq, PartialEq)]
pub enum ParseError {
    ParsingError(SyntaxError),
    ParsingErrorWithSuggest(ParsingErrorWithSuggestError),
    UnexpectedEndOfSequence(EscapeCharUnexpectedEndOfSequenceError),
    InvalidUnicodeChar(InvalidUnicodeCharError),
    InvalidEscapeChar(EscapeCharError),
    InvalidEscapeByte(EscapeByteError),
    InvalidBeginsWith(String),
    InvalidTypes(InvalidTypesError),
    InvalidTypesWithSuggest(InvalidTypesWithSuggestError),
    Base64DecodeError(Base64Error),
}

/// The model of [`ParseError`].
pub enum ParseErrorSpec {
    Syntax(GrammarRule, Seq<char>),
    SyntaxWithSuggest(GrammarRule, Seq<char>, Seq<char>),
    UnexpectedEnd(Seq<char>, int),
    InvalidUnicode(Seq<char>, int),
    InvalidEscapeChar(Seq<char>, char, int),
    InvalidEscapeByte(Seq<char>, u8, int),
    InvalidBeginsWith(Seq<char>),
    InvalidTypes(AttributeType, AttributeType),
    InvalidTypesWithSuggest(AttributeType, AttributeType, Seq<char>),
    Base64(Base64Error),
}

impl View for ParseError {
    type V = ParseErrorSpec;

    open spec fn view(&self) -> ParseErrorSpec {
        match self {
            ParseError::ParsingError(e) => ParseErrorSpec::Syntax(e.rule, e.input@),
            ParseError::ParsingErrorWithSuggest(e) => ParseErrorSpec::SyntaxWithSuggest(
                e.parse_error.rule,
                e.parse_error.input@,
                e.suggest@,
            ),
            ParseError::UnexpectedEndOfSequence(e) => ParseErrorSpec::UnexpectedEnd(
                e.handling_target@,
                e.escape_pos as int,
            ),
            ParseError::InvalidUnicodeChar(e) => ParseErrorSpec::InvalidUnicode(
                e.handling_target@,
                e.escape_pos as int,
            ),
            ParseError::InvalidEscapeChar(e) => ParseErrorSpec::InvalidEscapeChar(
                e.handling_target@,
                e.invalid_char,
                e.escape_pos as int,
            ),
            ParseError::InvalidEscapeByte(e) => ParseErrorSpec::InvalidEscapeByte(
                e.handling_target@,
                e.escape_byte,
                e.escape_pos as int,
            ),
            ParseError::InvalidBeginsWith(s) => ParseErrorSpec::InvalidBeginsWith(s@),
            ParseError::InvalidTypes(e) => ParseErrorSpec::InvalidTypes(
                e.expected_type,
                e.actual_type,
            ),
            ParseError::InvalidTypesWithSuggest(e) => ParseErrorSpec::InvalidTypesWithSuggest(
                e.expected_type,
                e.actual_type,
                e.suggest@,
            ),
            ParseError::Base64DecodeError(e) => ParseErrorSpec::Base64(*e),
        }
    }
}

/// A result whose error is a [`ParseError`], taken to its model.
pub open spec fn result_view<T: View>(r: Result<T, ParseError>) -> Result<T::V, ParseErrorSpec> {
    match r {
        Ok(v) => Ok(v@),
        Err(e) => Err(e@),
    }
}

} // verus!
