use vstd::prelude::*;

verus! {

//==============================================================================================
//        Lua tokens
//==============================================================================================

#[verifier::external_type_specification]
#[verifier::external_body]
pub struct ExTokenType(lualexer::TokenType);

/// The kinds of token of Lua source.
#[derive(PartialEq, Eq, Structural, Clone, Copy, Debug)]
pub enum TokenKind {
    Comment,
    Identifier,
    Keyword,
    Number,
    String,
    Symbol,
    Whitespace,
}

/// One token of Lua source: its kind and its text.
#[derive(Debug)]
pub struct LuaToken {
    pub kind: TokenKind,
    pub content: String,
}

impl View for LuaToken {
    type V = (TokenKind, Seq<char>);

    open spec fn view(&self) -> (TokenKind, Seq<char>) {
        (self.kind, self.content@)
    }
}

pub open spec fn token_models(v: Seq<LuaToken>) -> Seq<(TokenKind, Seq<char>)> {
    v.map_values(|t: LuaToken| t@)
}

/// The tokens, whitespace left out, that lualexer's fast lexer reads from `source`, or
/// `None` where it reports an error. They depend on `source` alone.
pub uninterp spec fn lua_tokens(source: Seq<char>) -> Option<Seq<(TokenKind, Seq<char>)>>;

/// The byte ranges, line endings left out, of the lines that line-span's `line_spans`
/// finds in `text`. They depend on `text` alone.
pub uninterp spec fn line_span_ranges(text: Seq<char>) -> Seq<(usize, usize)>;

/// The text that std's `str::get` gives for the byte range `start..end` of `text`, or
/// `None` when the range is out of bounds or splits a character.
pub uninterp spec fn str_byte_range(text: Seq<char>, start: usize, end: usize) -> Option<Seq<char>>;

/// lualexer's `TokenType`, taken one variant for one.
#[verifier::external_body]
fn token_kind(kind: &lualexer::TokenType) -> TokenKind {
    match kind {
        lualexer::TokenType::Comment => TokenKind::Comment,
        lualexer::TokenType::Identifier => TokenKind::Identifier,
        lualexer::TokenType::Keyword => TokenKind::Keyword,
        lualexer::TokenType::Number => TokenKind::Number,
        lualexer::TokenType::String => TokenKind::String,
        lualexer::TokenType::Symbol => TokenKind::Symbol,
        lualexer::TokenType::Whitespace => TokenKind::Whitespace,
    }
}

/// lualexer's `Lexer::<FastTokenizer>::parse`: the tokens of `source`, or `None` when
/// the lexer reports an error.
#[verifier::external_body]
pub(crate) fn lex_lua(source: &str) -> (r: Option<Vec<LuaToken>>)
    ensures
        match r {
            Some(v) => lua_tokens(source@) == Some(token_models(v@)),
            None => lua_tokens(source@) is None,
        },
{
    match lualexer::Lexer::<lualexer::FastTokenizer>::new().parse(source) {
        Ok(tokens) => Some(tokens.iter().map(|t| LuaToken {
            kind: token_kind(t.get_type()),
            content: t.get_content().to_string(),
        }).collect()),
        Err(_) => None,
    }
}

/// line-span's `line_spans`, each line taken as its byte range without the line ending.
#[verifier::external_body]
pub(crate) fn line_ranges(text: &str) -> (r: Vec<(usize, usize)>)
    ensures
        r@ == line_span_ranges(text@),
{
    line_span::LineSpanExt::line_spans(text).map(|span| (span.start(), span.end())).collect()
}

/// std's `str::get` on the byte range `start..end`.
#[verifier::external_body]
pub(crate) fn text_between_bytes(text: &str, start: usize, end: usize) -> (r: Option<String>)
    ensures
        match r {
            Some(s) => str_byte_range(text@, start, end) == Some(s@),
            None => str_byte_range(text@, start, end) is None,
        },
{
    text.get(start..end).map(|s| s.to_string())
}

} // verus!
