//! The token model, and the trusted boundary to the `cssparser` tokenizer.
//!
//! The engine works on a flat list of tokens.  Each token carries the kind
//! the grammar reads, the unescaped name (for identifiers and functions),
//! the delimiter character (for delimiter tokens) and its verbatim source
//! text.  A nested block (`f(…)`, `(…)`, `[…]`, `{…}`) appears as its
//! opening token, the tokens of its contents, and a closing `BlockEndTok`
//! marker whose text is the closing delimiter (empty when the block was
//! implicitly closed at the end of the input).
//!
//! Tokenization itself is trusted: `toks_of` names what `cssparser` yields
//! for given input bytes.  Everything the rest of the crate needs of the
//! token list beyond that — that the texts concatenate back to the input,
//! and that block markers balance — is checked at run time by `tokenize`,
//! not assumed.

use vstd::prelude::*;
use crate::sertype::SerType;

verus! {

/// What the declaration-value grammar distinguishes in a token.
#[derive(Clone, Copy, PartialEq, Eq, Structural, Debug)]
pub enum TokKind {
    /// An identifier; `name` holds its unescaped value.
    IdentTok,
    /// An at-keyword or (id-)hash token.
    AtOrHash,
    /// An unquoted `url(…)` token.
    UrlTok,
    /// A bad-url token: a parse error in a declaration value.
    BadUrlTok,
    /// A bad-string token: a parse error in a declaration value.
    BadStringTok,
    /// An unmatched `)`, `]` or `}`: a parse error in a declaration value.
    CloseTok,
    /// A delimiter token; `ch` holds the character.
    DelimTok,
    NumberTok,
    PercentageTok,
    DimensionTok,
    WhiteSpaceTok,
    CommentTok,
    SemicolonTok,
    CommaTok,
    DashMatchTok,
    SubstringMatchTok,
    CdcTok,
    /// A function token; `name` holds its unescaped name and a nested block
    /// follows.
    FunctionTok,
    ParenOpenTok,
    SquareOpenTok,
    CurlyOpenTok,
    /// Any other token (quoted string, colon, CDO, the remaining match
    /// tokens).
    OtherTok,
    /// End of a nested block; not a real token.
    BlockEndTok,
}

/// One token as the engine sees it.
pub struct Tok {
    pub kind: TokKind,
    /// Unescaped identifier or function name; empty otherwise.
    pub name: Vec<u8>,
    /// The delimiter character for `DelimTok`; a space otherwise.
    pub ch: char,
    /// The verbatim source text of the token.
    pub text: Vec<u8>,
}

/// The mathematical value of one token.
pub struct TokV {
    pub kind: TokKind,
    pub name: Seq<u8>,
    pub ch: char,
    pub text: Seq<u8>,
}

impl View for Tok {
    type V = TokV;

    open spec fn view(&self) -> TokV {
        TokV { kind: self.kind, name: self.name@, ch: self.ch, text: self.text@ }
    }
}

/// The values of a token list.
pub open spec fn toks_view(ts: Seq<Tok>) -> Seq<TokV> {
    ts.map_values(|t: Tok| t@)
}

/// The token list that the CSS tokenizer yields for the given input bytes,
/// nested blocks flattened with `BlockEndTok` markers.  Tokenization is a
/// function of the input text alone.
pub uninterp spec fn toks_of(s: Seq<u8>) -> Seq<TokV>;

/// Whether this kind opens a nested block.
pub open spec fn spec_is_open(k: TokKind) -> bool {
    k == TokKind::FunctionTok || k == TokKind::ParenOpenTok || k == TokKind::SquareOpenTok
        || k == TokKind::CurlyOpenTok
}

/// Executable form of `spec_is_open`.
pub fn is_open(k: TokKind) -> (r: bool)
    ensures
        r == spec_is_open(k),
{
    matches!(
        k,
        TokKind::FunctionTok | TokKind::ParenOpenTok | TokKind::SquareOpenTok
            | TokKind::CurlyOpenTok
    )
}

/// How one token changes the block nesting depth.
pub open spec fn depth_delta(k: TokKind) -> int {
    if spec_is_open(k) {
        1
    } else if k == TokKind::BlockEndTok {
        -1
    } else {
        0
    }
}

/// The nesting depth after the first `n` tokens.
pub open spec fn depth_prefix(ts: Seq<TokV>, n: int) -> int
    decreases n,
{
    if n <= 0 {
        0
    } else {
        depth_prefix(ts, n - 1) + depth_delta(ts[n - 1].kind)
    }
}

/// A well-formed token list: block markers balance and never close more
/// blocks than were opened.
pub open spec fn wf_toks(ts: Seq<TokV>) -> bool {
    &&& forall|n: int| 0 <= n <= ts.len() ==> depth_prefix(ts, n) >= 0
    &&& depth_prefix(ts, ts.len() as int) == 0
}

/// The concatenation of the verbatim texts of a token list.
pub open spec fn concat_texts(ts: Seq<TokV>) -> Seq<u8>
    decreases ts.len(),
{
    if ts.len() == 0 {
        Seq::empty()
    } else {
        concat_texts(ts.drop_last()) + ts.last().text
    }
}

/// A clean tokenization: the markers balance and the token texts
/// concatenate back to the input, so that text can be reassembled from
/// token runs.
pub open spec fn clean_toks(s: Seq<u8>) -> bool {
    &&& wf_toks(toks_of(s))
    &&& concat_texts(toks_of(s)) == s
}

/// The serialization category of a token kind.
pub open spec fn spec_ser_of(k: TokKind, ch: char) -> SerType {
    match k {
        TokKind::IdentTok => SerType::Ident,
        TokKind::AtOrHash => SerType::AtKeywordOrHash,
        TokKind::UrlTok => SerType::UrlOrBadUrl,
        TokKind::BadUrlTok => SerType::UrlOrBadUrl,
        TokKind::DelimTok => spec_ser_of_delim(ch),
        TokKind::NumberTok => SerType::Number,
        TokKind::PercentageTok => SerType::Percentage,
        TokKind::DimensionTok => SerType::Dimension,
        TokKind::WhiteSpaceTok => SerType::WhiteSpace,
        TokKind::CommentTok => SerType::DelimSlash,
        TokKind::DashMatchTok => SerType::DashMatch,
        TokKind::SubstringMatchTok => SerType::SubstringMatch,
        TokKind::CdcTok => SerType::Cdc,
        TokKind::FunctionTok => SerType::Function,
        TokKind::ParenOpenTok => SerType::OpenParen,
        _ => SerType::Other,
    }
}

/// The serialization category of a delimiter token.
pub open spec fn spec_ser_of_delim(ch: char) -> SerType {
    match ch {
        '#' => SerType::DelimHash,
        '@' => SerType::DelimAt,
        '.' => SerType::DelimDotOrPlus,
        '+' => SerType::DelimDotOrPlus,
        '-' => SerType::DelimMinus,
        '?' => SerType::DelimQuestion,
        '$' => SerType::DelimAssorted,
        '^' => SerType::DelimAssorted,
        '~' => SerType::DelimAssorted,
        '%' => SerType::DelimPercent,
        '=' => SerType::DelimEquals,
        '|' => SerType::DelimBar,
        '/' => SerType::DelimSlash,
        '*' => SerType::DelimAsterisk,
        _ => SerType::Other,
    }
}

/// Executable form of `spec_ser_of`.
pub fn ser_of(t: &Tok) -> (r: SerType)
    ensures
        r == spec_ser_of(t@.kind, t@.ch),
{
    match t.kind {
        TokKind::IdentTok => SerType::Ident,
        TokKind::AtOrHash => SerType::AtKeywordOrHash,
        TokKind::UrlTok => SerType::UrlOrBadUrl,
        TokKind::BadUrlTok => SerType::UrlOrBadUrl,
        TokKind::DelimTok => ser_of_delim(t.ch),
        TokKind::NumberTok => SerType::Number,
        TokKind::PercentageTok => SerType::Percentage,
        TokKind::DimensionTok => SerType::Dimension,
        TokKind::WhiteSpaceTok => SerType::WhiteSpace,
        TokKind::CommentTok => SerType::DelimSlash,
        TokKind::DashMatchTok => SerType::DashMatch,
        TokKind::SubstringMatchTok => SerType::SubstringMatch,
        TokKind::CdcTok => SerType::Cdc,
        TokKind::FunctionTok => SerType::Function,
        TokKind::ParenOpenTok => SerType::OpenParen,
        _ => SerType::Other,
    }
}

/// Executable form of `spec_ser_of_delim`.
pub fn ser_of_delim(ch: char) -> (r: SerType)
    ensures
        r == spec_ser_of_delim(ch),
{
    match ch {
        '#' => SerType::DelimHash,
        '@' => SerType::DelimAt,
        '.' | '+' => SerType::DelimDotOrPlus,
        '-' => SerType::DelimMinus,
        '?' => SerType::DelimQuestion,
        '$' | '^' | '~' => SerType::DelimAssorted,
        '%' => SerType::DelimPercent,
        '=' => SerType::DelimEquals,
        '|' => SerType::DelimBar,
        '/' => SerType::DelimSlash,
        '*' => SerType::DelimAsterisk,
        _ => SerType::Other,
    }
}

#[verifier::external_type_specification]
#[verifier::external_body]
pub struct ExParser<'i>(cssparser::Parser<'i>);

#[verifier::external_type_specification]
#[verifier::external_body]
pub struct ExToken<'i>(cssparser::Token<'i>);

/// Relies on cssparser's `Parser` to tokenize CSS text.  The token stream,
/// with nested blocks flattened behind `BlockEndTok` markers, depends on the
/// input bytes alone, which `toks_of` names.
#[verifier::external_body]
fn tokenize_raw(css: &Vec<u8>) -> (r: Vec<Tok>)
    ensures
        toks_view(r@) == toks_of(css@),
{
    let text = String::from_utf8_lossy(css).into_owned();
    let mut parser = cssparser::Parser::new(&text);
    // Without this, blocks past the parser's depth limit would be dropped
    // from the flattening; recursion depth is then bounded by the input
    // alone, as it is everywhere else in this crate.
    parser.set_nested_block_limit(0);
    let mut out = Vec::new();
    tokenize_level(&mut parser, &mut out);
    out
}

/// Relies on cssparser's `Parser::next_including_whitespace_and_comments`
/// and `Parser::slice` to walk the tokens of one nesting level and their
/// verbatim texts.
#[verifier::external_body]
fn tokenize_level<'i>(parser: &mut cssparser::Parser<'i>, out: &mut Vec<Tok>) {
    loop {
        let before = parser.position();
        let tok = match parser.next_including_whitespace_and_comments() {
            Ok(t) => t.clone(),
            Err(_) => return,
        };
        let text = parser.slice(before..parser.position()).as_bytes().to_vec();
        let converted = conv_token(&tok, text);
        let opens = is_open(converted.kind);
        out.push(converted);
        if opens {
            tokenize_block(parser, out);
        }
    }
}

/// Relies on cssparser's `Parser::parse_nested_block` to recurse into one
/// nested block; appends the tokens of its contents and the `BlockEndTok`
/// marker carrying the closing delimiter's text.
#[verifier::external_body]
fn tokenize_block<'i>(parser: &mut cssparser::Parser<'i>, out: &mut Vec<Tok>) {
    let start_inner = parser.position();
    let inner_end = parser
        .parse_nested_block(|p| {
            tokenize_level(p, out);
            Ok::<cssparser::SourcePosition, cssparser::ParseError<()>>(p.position())
        })
        .unwrap_or(start_inner);
    let text = parser.slice(inner_end..parser.position()).as_bytes().to_vec();
    out.push(Tok { kind: TokKind::BlockEndTok, name: Vec::new(), ch: ' ', text });
}

/// Relies on cssparser's `Token`: moves the unescaped name of identifier
/// and function tokens and the character of delimiter tokens into the
/// engine's token record.
#[verifier::external_body]
fn conv_token(t: &cssparser::Token, text: Vec<u8>) -> Tok {
    let (kind, name, ch) = match t {
        cssparser::Token::Ident(s) => (TokKind::IdentTok, s.as_bytes().to_vec(), ' '),
        cssparser::Token::Function(s) => (TokKind::FunctionTok, s.as_bytes().to_vec(), ' '),
        cssparser::Token::Delim(c) => (TokKind::DelimTok, Vec::new(), *c),
        _ => (conv_kind(t), Vec::new(), ' '),
    };
    Tok { kind, name, ch, text }
}

/// Relies on cssparser's `Token`: tells the remaining variants apart, one
/// arm each.
#[verifier::external_body]
fn conv_kind(t: &cssparser::Token) -> TokKind {
    match t {
        cssparser::Token::AtKeyword(_) => TokKind::AtOrHash,
        cssparser::Token::Hash(_) => TokKind::AtOrHash,
        cssparser::Token::IDHash(_) => TokKind::AtOrHash,
        cssparser::Token::UnquotedUrl(_) => TokKind::UrlTok,
        cssparser::Token::BadUrl(_) => TokKind::BadUrlTok,
        cssparser::Token::BadString(_) => TokKind::BadStringTok,
        cssparser::Token::Number { .. } => TokKind::NumberTok,
        cssparser::Token::Percentage { .. } => TokKind::PercentageTok,
        cssparser::Token::Dimension { .. } => TokKind::DimensionTok,
        cssparser::Token::ParenthesisBlock => TokKind::ParenOpenTok,
        _ => conv_kind_rest(t),
    }
}

/// Relies on cssparser's `Token`: tells the remaining variants apart, one
/// arm each.
#[verifier::external_body]
fn conv_kind_rest(t: &cssparser::Token) -> TokKind {
    match t {
        cssparser::Token::WhiteSpace(_) => TokKind::WhiteSpaceTok,
        cssparser::Token::Comment(_) => TokKind::CommentTok,
        cssparser::Token::Semicolon => TokKind::SemicolonTok,
        cssparser::Token::Comma => TokKind::CommaTok,
        cssparser::Token::DashMatch => TokKind::DashMatchTok,
        cssparser::Token::SubstringMatch => TokKind::SubstringMatchTok,
        cssparser::Token::CDC => TokKind::CdcTok,
        cssparser::Token::SquareBracketBlock => TokKind::SquareOpenTok,
        cssparser::Token::CurlyBracketBlock => TokKind::CurlyOpenTok,
        _ => conv_kind_close(t),
    }
}

/// Relies on cssparser's `Token`: tells the closing variants apart, one arm
/// each.
#[verifier::external_body]
fn conv_kind_close(t: &cssparser::Token) -> TokKind {
    match t {
        cssparser::Token::CloseParenthesis => TokKind::CloseTok,
        cssparser::Token::CloseSquareBracket => TokKind::CloseTok,
        cssparser::Token::CloseCurlyBracket => TokKind::CloseTok,
        _ => TokKind::OtherTok,
    }
}

/// Check that block markers balance, as `wf_toks` states.
fn check_wf(ts: &Vec<Tok>) -> (r: bool)
    ensures
        r == wf_toks(toks_view(ts@)),
{
    let ghost tv = toks_view(ts@);
    let mut depth: usize = 0;
    let mut i: usize = 0;
    while i < ts.len()
        invariant
            0 <= i <= ts.len(),
            tv == toks_view(ts@),
            tv.len() == ts@.len(),
            depth == depth_prefix(tv, i as int),
            forall|n: int| 0 <= n <= i ==> depth_prefix(tv, n) >= 0,
            depth <= i,
        decreases ts.len() - i,
    {
        proof {
            assert(tv[i as int] == ts@[i as int]@);
        }
        let k = ts[i].kind;
        if matches!(k, TokKind::BlockEndTok) {
            if depth == 0 {
                proof {
                    assert(depth_prefix(tv, i + 1) == -1);
                    assert(!wf_toks(tv));
                }
                return false;
            }
            depth = depth - 1;
        } else if is_open(k) {
            depth = depth + 1;
        }
        i = i + 1;
    }
    proof {
        assert(i == tv.len());
    }
    depth == 0
}

/// Concatenate the verbatim texts of a token list.
pub fn concat_texts_exec(ts: &Vec<Tok>) -> (r: Vec<u8>)
    ensures
        r@ == concat_texts(toks_view(ts@)),
{
    let ghost tv = toks_view(ts@);
    let mut out: Vec<u8> = Vec::new();
    let mut i: usize = 0;
    while i < ts.len()
        invariant
            0 <= i <= ts.len(),
            tv == toks_view(ts@),
            tv.len() == ts@.len(),
            out@ == concat_texts(tv.subrange(0, i as int)),
        decreases ts.len() - i,
    {
        proof {
            assert(tv[i as int] == ts@[i as int]@);
            assert(tv.subrange(0, i + 1).drop_last() =~= tv.subrange(0, i as int));
            assert(tv.subrange(0, i + 1).last() == tv[i as int]);
        }
        crate::bytes::push_bytes(&mut out, &ts[i].text);
        i = i + 1;
    }
    proof {
        assert(tv.subrange(0, tv.len() as int) =~= tv);
    }
    out
}

/// Tokenize input bytes.
///
/// Returns the token list when the tokenization is clean — markers balance
/// and the texts reassemble the input — and `None` otherwise.
pub fn tokenize(css: &Vec<u8>) -> (r: Option<Vec<Tok>>)
    ensures
        r matches Some(ts) ==> toks_view(ts@) == toks_of(css@) && clean_toks(css@),
        r is None ==> !clean_toks(css@),
{
    let ts = tokenize_raw(css);
    if !check_wf(&ts) {
        return None;
    }
    let cat = concat_texts_exec(&ts);
    if crate::bytes::bytes_eq(&cat, css) {
        Some(ts)
    } else {
        None
    }
}

} // verus!
