//! Token serialization categories and the separator rule.
//!
//! When two token runs are concatenated without whitespace in between, some
//! pairs would re-tokenize as a single token (`1` before `em` becomes the
//! dimension `1em`).  Each token is put in a category; the table below says
//! for which pairs of categories an empty comment `/**/` must be inserted,
//! following the CSS Syntax serialization rules.

use vstd::prelude::*;

verus! {

/// The serialization category of a token, used to decide whether two
/// adjacent tokens would fuse.  `Nothing` is the sentinel for "no token yet".
#[derive(Clone, Copy, PartialEq, Eq, Structural, Debug)]
pub enum SerType {
    Nothing,
    WhiteSpace,
    AtKeywordOrHash,
    Number,
    Dimension,
    Percentage,
    UrlOrBadUrl,
    Function,
    Ident,
    Cdc,
    DashMatch,
    SubstringMatch,
    OpenParen,
    DelimHash,
    DelimAt,
    DelimDotOrPlus,
    DelimMinus,
    DelimQuestion,
    DelimAssorted,
    DelimEquals,
    DelimBar,
    DelimSlash,
    DelimAsterisk,
    DelimPercent,
    Other,
}

/// Whether a token of category `a`, written immediately before a token of
/// category `b`, needs a `/**/` separator so the two do not fuse.
pub open spec fn spec_needs_separator(a: SerType, b: SerType) -> bool {
    match a {
        SerType::Ident => matches!(
            b,
            SerType::Ident | SerType::Function | SerType::UrlOrBadUrl | SerType::DelimMinus
                | SerType::Number | SerType::Percentage | SerType::Dimension | SerType::Cdc
                | SerType::OpenParen
        ),
        SerType::AtKeywordOrHash | SerType::Dimension => matches!(
            b,
            SerType::Ident | SerType::Function | SerType::UrlOrBadUrl | SerType::DelimMinus
                | SerType::Number | SerType::Percentage | SerType::Dimension | SerType::Cdc
        ),
        SerType::DelimHash | SerType::DelimMinus => matches!(
            b,
            SerType::Ident | SerType::Function | SerType::UrlOrBadUrl | SerType::DelimMinus
                | SerType::Number | SerType::Percentage | SerType::Dimension
        ),
        SerType::Number => matches!(
            b,
            SerType::Ident | SerType::Function | SerType::UrlOrBadUrl | SerType::DelimMinus
                | SerType::Number | SerType::Percentage | SerType::DelimPercent
                | SerType::Dimension
        ),
        SerType::DelimAt => matches!(
            b,
            SerType::Ident | SerType::Function | SerType::UrlOrBadUrl | SerType::DelimMinus
        ),
        SerType::DelimDotOrPlus => matches!(
            b,
            SerType::Number | SerType::Percentage | SerType::Dimension
        ),
        SerType::DelimAssorted | SerType::DelimAsterisk => matches!(b, SerType::DelimEquals),
        SerType::DelimBar => matches!(
            b,
            SerType::DelimEquals | SerType::DelimBar | SerType::DashMatch
        ),
        SerType::DelimSlash => matches!(b, SerType::DelimAsterisk | SerType::SubstringMatch),
        _ => false,
    }
}

/// Executable form of the separator table.
pub fn needs_separator(a: SerType, b: SerType) -> (r: bool)
    ensures
        r == spec_needs_separator(a, b),
{
    match a {
        SerType::Ident => matches!(
            b,
            SerType::Ident | SerType::Function | SerType::UrlOrBadUrl | SerType::DelimMinus
                | SerType::Number | SerType::Percentage | SerType::Dimension | SerType::Cdc
                | SerType::OpenParen
        ),
        SerType::AtKeywordOrHash | SerType::Dimension => matches!(
            b,
            SerType::Ident | SerType::Function | SerType::UrlOrBadUrl | SerType::DelimMinus
                | SerType::Number | SerType::Percentage | SerType::Dimension | SerType::Cdc
        ),
        SerType::DelimHash | SerType::DelimMinus => matches!(
            b,
            SerType::Ident | SerType::Function | SerType::UrlOrBadUrl | SerType::DelimMinus
                | SerType::Number | SerType::Percentage | SerType::Dimension
        ),
        SerType::Number => matches!(
            b,
            SerType::Ident | SerType::Function | SerType::UrlOrBadUrl | SerType::DelimMinus
                | SerType::Number | SerType::Percentage | SerType::DelimPercent
                | SerType::Dimension
        ),
        SerType::DelimAt => matches!(
            b,
            SerType::Ident | SerType::Function | SerType::UrlOrBadUrl | SerType::DelimMinus
        ),
        SerType::DelimDotOrPlus => matches!(
            b,
            SerType::Number | SerType::Percentage | SerType::Dimension
        ),
        SerType::DelimAssorted | SerType::DelimAsterisk => matches!(b, SerType::DelimEquals),
        SerType::DelimBar => matches!(
            b,
            SerType::DelimEquals | SerType::DelimBar | SerType::DashMatch
        ),
        SerType::DelimSlash => matches!(b, SerType::DelimAsterisk | SerType::SubstringMatch),
        _ => false,
    }
}

} // verus!
