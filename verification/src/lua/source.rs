use vstd::prelude::*;
use vstd::string::StrSliceExecFns;

use crate::common::entries::{push_new, push_new_text, text_views};
use crate::common::text::text_eq;
use crate::lua::tokens::{
    LuaToken, TokenKind, lex_lua, line_ranges, line_span_ranges, lua_tokens, str_byte_range,
    text_between_bytes, token_models,
};

verus! {

//==============================================================================================
//        LuaSource
//==============================================================================================

/// A Lua file: where it was read from and its text.
#[derive(Debug)]
pub struct LuaSource {
    path: String,
    source: String,
}

/// A borrowed `LuaSource`.
pub struct LuaSourceRef<'a> {
    pub source: &'a LuaSource,
}

/// A character that std's `char::is_whitespace` counts as whitespace: one of those with
/// Unicode's `White_Space` property.
pub open spec fn is_white_space(c: char) -> bool {
    let n = c as int;
    ||| 0x9 <= n <= 0xd
    ||| n == 0x20 || n == 0x85 || n == 0xa0 || n == 0x1680
    ||| 0x2000 <= n <= 0x200a
    ||| n == 0x2028 || n == 0x2029 || n == 0x202f || n == 0x205f || n == 0x3000
}

/// `text` without its leading whitespace.
pub open spec fn trim_front(text: Seq<char>) -> Seq<char>
    decreases text.len(),
{
    if text.len() > 0 && is_white_space(text[0]) {
        trim_front(text.drop_first())
    } else {
        text
    }
}

/// `text` without its trailing whitespace.
pub open spec fn trim_back(text: Seq<char>) -> Seq<char>
    decreases text.len(),
{
    if text.len() > 0 && is_white_space(text.last()) {
        trim_back(text.drop_last())
    } else {
        text
    }
}

/// The text std's `str::trim` leaves of `text`: the text without leading and trailing
/// whitespace.
pub open spec fn trimmed(text: Seq<char>) -> Seq<char> {
    trim_back(trim_front(text))
}

/// std's `str::trim`, which removes the leading and trailing characters that have the
/// `White_Space` property, as its documentation says.
#[verifier::external_body]
fn trim_text(text: &str) -> (r: &str)
    ensures
        r@ == trimmed(text@),
{
    text.trim()
}

/// `s` starts with `prefix`.
pub open spec fn starts_with(s: Seq<char>, prefix: Seq<char>) -> bool {
    s.len() >= prefix.len() && s.take(prefix.len() as int) == prefix
}

pub fn text_starts_with(s: &str, prefix: &str) -> (r: bool)
    ensures
        r == starts_with(s@, prefix@),
{
    let n = s.unicode_len();
    let k = prefix.unicode_len();
    if n < k {
        return false;
    }
    let head = s.substring_char(0, k);
    text_eq(head, prefix)
}

/// The dependency that a `---@dep` comment names: the rest of the comment, trimmed and
/// without a leading `self.`, when it holds no space.
pub open spec fn dep_of_comment(content: Seq<char>) -> Option<Seq<char>> {
    if starts_with(content, "---@dep"@) {
        let tail = trimmed(content.skip(7));
        let tail = if starts_with(tail, "self."@) {
            tail.skip(5)
        } else {
            tail
        };
        if tail.contains(' ') {
            None
        } else {
            Some(tail)
        }
    } else {
        None
    }
}

/// The parts of a path joined with `.`.
pub open spec fn join_dotted(parts: Seq<Seq<char>>) -> Seq<char>
    decreases parts.len(),
{
    if parts.len() == 0 {
        Seq::empty()
    } else if parts.len() == 1 {
        parts[0]
    } else {
        join_dotted(parts.drop_last()) + "."@ + parts.last()
    }
}

/// `deps` with the path `parts` added, when it has any part.
pub open spec fn finish_path(deps: Seq<Seq<char>>, parts: Seq<Seq<char>>) -> Seq<Seq<char>> {
    if parts.len() > 0 {
        push_new(deps, join_dotted(parts))
    } else {
        deps
    }
}

/// The dependencies found from token `i` on, given those found so far and, when a `self`
/// has just been read, the parts of the path after it read so far. A `---@dep` comment
/// names one; so does `self` followed by `.name` parts. A token that ends such a path is
/// not looked at again.
pub open spec fn scan_deps(
    t: Seq<(TokenKind, Seq<char>)>,
    i: int,
    deps: Seq<Seq<char>>,
    path: Option<Seq<Seq<char>>>,
) -> Seq<Seq<char>>
    decreases t.len() - i,
{
    if i < 0 || i >= t.len() {
        match path {
            Some(p) => finish_path(deps, p),
            None => deps,
        }
    } else {
        match path {
            None => {
                if t[i].0 == TokenKind::Comment {
                    scan_deps(
                        t,
                        i + 1,
                        match dep_of_comment(t[i].1) {
                            Some(d) => push_new(deps, d),
                            None => deps,
                        },
                        None,
                    )
                } else if t[i].0 == TokenKind::Identifier && t[i].1 == "self"@ {
                    scan_deps(t, i + 1, deps, Some(Seq::empty()))
                } else {
                    scan_deps(t, i + 1, deps, None)
                }
            },
            Some(p) => {
                if t[i].0 != TokenKind::Symbol || t[i].1 != "."@ {
                    scan_deps(t, i + 1, finish_path(deps, p), None)
                } else if i + 1 >= t.len() {
                    finish_path(deps, p)
                } else if t[i + 1].0 == TokenKind::Identifier {
                    scan_deps(t, i + 2, deps, Some(p.push(t[i + 1].1)))
                } else {
                    scan_deps(t, i + 2, deps, Some(p))
                }
            },
        }
    }
}

/// The dependencies a function's tokens name, each once, in the order first found.
pub open spec fn token_dependencies(t: Seq<(TokenKind, Seq<char>)>) -> Seq<Seq<char>> {
    scan_deps(t, 0, Seq::empty(), None)
}

/// The text of lines `start` to `end` (counted from 1; lines past the last are left
/// out), or `None` where lines `start..end` cannot be read: `start` is 0, `end` comes
/// before `start`, `start` is past the last line, or the byte range is not one of `text`.
pub open spec fn lines_text(text: Seq<char>, start: usize, end: usize) -> Option<Seq<char>> {
    let ranges = line_span_ranges(text);
    if 1 <= start <= end && start <= ranges.len() {
        let last = if end <= ranges.len() {
            end as int
        } else {
            ranges.len() as int
        };
        str_byte_range(text, ranges[start - 1].0, ranges[last - 1].1)
    } else {
        None
    }
}

/// The tokens of lines `start` to `end` of `text`, where they can be read and lexed.
pub open spec fn lines_tokens(text: Seq<char>, start: usize, end: usize) -> Option<
    Seq<(TokenKind, Seq<char>)>,
> {
    match lines_text(text, start, end) {
        Some(s) => lua_tokens(s),
        None => None,
    }
}

/// Where a function is defined, when that is known, its lines can be read and lexed.
pub open spec fn tokenizable(text: Seq<char>, line_defined: Option<usize>, last_line_defined: Option<usize>) -> bool {
    match (line_defined, last_line_defined) {
        (Some(s), Some(e)) => lines_tokens(text, s, e) is Some,
        _ => true,
    }
}

/// `parts` joined with `.`.
pub fn join_with_dots(parts: &Vec<String>) -> (r: String)
    ensures
        r@ == join_dotted(text_views(parts@)),
{
    if parts.len() == 0 {
        proof {
            assert(text_views(parts@).len() == 0);
        }
        return String::new();
    }
    let mut out = parts[0].clone();
    let mut k: usize = 1;
    proof {
        assert(text_views(parts@.take(1)) =~= seq![parts@[0]@]);
    }
    while k < parts.len()
        invariant
            1 <= k <= parts@.len(),
            out@ == join_dotted(text_views(parts@.take(k as int))),
        decreases parts@.len() - k,
    {
        out.append(".");
        out.append(parts[k].as_str());
        proof {
            reveal_strlit(".");
            assert(text_views(parts@.take(k + 1)).drop_last() =~= text_views(parts@.take(k as int)));
            assert(text_views(parts@.take(k + 1)).last() == parts@[k as int]@);
        }
        k = k + 1;
    }
    proof {
        assert(parts@.take(parts@.len() as int) =~= parts@);
    }
    out
}

/// The dependencies that a function's tokens name: `---@dep` comments, and the paths
/// read as `self.a.b`. Each is listed once, in the order first found.
pub fn dependencies_of_tokens(tokens: &Vec<LuaToken>) -> (r: Vec<String>)
    ensures
        text_views(r@) == token_dependencies(token_models(tokens@)),
{
    let ghost t = token_models(tokens@);
    let mut deps: Vec<String> = Vec::new();
    let mut in_path = false;
    let mut parts: Vec<String> = Vec::new();
    let mut i: usize = 0;
    proof {
        assert(text_views(deps@) =~= Seq::<Seq<char>>::empty());
        reveal_strlit("self");
        reveal_strlit(".");
    }
    while i < tokens.len()
        invariant
            0 <= i <= tokens@.len(),
            t == token_models(tokens@),
            t.len() == tokens@.len(),
            token_dependencies(t) == scan_deps(
                t,
                i as int,
                text_views(deps@),
                if in_path {
                    Some(text_views(parts@))
                } else {
                    None
                },
            ),
        decreases tokens@.len() - i,
    {
        assert(t[i as int] == tokens@[i as int]@);
        if !in_path {
            if tokens[i].kind == TokenKind::Comment {
                parse_dep_comment(tokens[i].content.as_str(), &mut deps);
                i = i + 1;
            } else if tokens[i].kind == TokenKind::Identifier && text_eq(tokens[i].content.as_str(), "self") {
                in_path = true;
                parts = Vec::new();
                proof {
                    assert(text_views(parts@) =~= Seq::<Seq<char>>::empty());
                }
                i = i + 1;
            } else {
                i = i + 1;
            }
        } else {
            if tokens[i].kind != TokenKind::Symbol || !text_eq(tokens[i].content.as_str(), ".") {
                finish(&mut deps, &parts);
                in_path = false;
                i = i + 1;
            } else if i + 1 >= tokens.len() {
                finish(&mut deps, &parts);
                in_path = false;
                i = tokens.len();
            } else {
                assert(t[i + 1] == tokens@[i + 1]@);
                if tokens[i + 1].kind == TokenKind::Identifier {
                    let ghost before = parts@;
                    parts.push(tokens[i + 1].content.clone());
                    proof {
                        assert(text_views(parts@) =~= text_views(before).push(t[i + 1].1));
                    }
                }
                i = i + 2;
            }
        }
    }
    proof {
        assert(i >= t.len());
    }
    if in_path {
        assert(token_dependencies(t) == finish_path(text_views(deps@), text_views(parts@)));
        finish(&mut deps, &parts);
    } else {
        assert(token_dependencies(t) == text_views(deps@));
    }
    deps
}

/// Adds the path `parts`, joined with `.`, when it has any part.
fn finish(deps: &mut Vec<String>, parts: &Vec<String>)
    ensures
        text_views(final(deps)@) == finish_path(text_views(old(deps)@), text_views(parts@)),
{
    if parts.len() > 0 {
        let joined = join_with_dots(parts);
        push_new_text(deps, joined);
    }
}

/// Adds the dependency a `---@dep` comment names, unless it is there already.
pub fn parse_dep_comment(content: &str, deps: &mut Vec<String>)
    ensures
        text_views(final(deps)@) == match dep_of_comment(content@) {
            Some(d) => push_new(text_views(old(deps)@), d),
            None => text_views(old(deps)@),
        },
{
    proof {
        reveal_strlit("---@dep");
        reveal_strlit("self.");
    }
    if text_starts_with(content, "---@dep") {
        let n = content.unicode_len();
        let rest = content.substring_char(7, n);
        proof {
            assert(rest@ =~= content@.skip(7));
        }
        let mut tail = trim_text(rest);
        if text_starts_with(tail, "self.") {
            let m = tail.unicode_len();
            let shorter = tail.substring_char(5, m);
            proof {
                assert(shorter@ =~= tail@.skip(5));
            }
            tail = shorter;
        }
        if !has_space(tail) {
            push_new_text(deps, tail.to_owned());
        }
    }
}

fn has_space(s: &str) -> (r: bool)
    ensures
        r == s@.contains(' '),
{
    let n = s.unicode_len();
    let mut i: usize = 0;
    while i < n
        invariant
            n == s@.len(),
            0 <= i <= n,
            forall|j: int| 0 <= j < i ==> s@[j] != ' ',
        decreases n - i,
    {
        if s.get_char(i) == ' ' {
            return true;
        }
        i = i + 1;
    }
    false
}

impl LuaSource {
    /// A source read from `path`, with text `source`.
    pub fn new(path: String, source: String) -> (r: LuaSource)
        ensures
            r.path_view() == path@,
            r.source_view() == source@,
    {
        LuaSource { path, source }
    }

    pub closed spec fn path_view(&self) -> Seq<char> {
        self.path@
    }

    pub closed spec fn source_view(&self) -> Seq<char> {
        self.source@
    }

    pub fn path(&self) -> (r: &str)
        ensures
            r@ == self.path_view(),
    {
        self.path.as_str()
    }

    pub fn source(&self) -> (r: &str)
        ensures
            r@ == self.source_view(),
    {
        self.source.as_str()
    }

    /// The tokens of the lines a function is defined on, when those are known.
    pub fn tokenize_function(&self, line_defined: Option<usize>, last_line_defined: Option<usize>) -> (r:
        Option<Vec<LuaToken>>)
        requires
            tokenizable(self.source_view(), line_defined, last_line_defined),
        ensures
            match (line_defined, last_line_defined) {
                (Some(s), Some(e)) => r is Some && lines_tokens(self.source_view(), s, e) == Some(
                    token_models(r->0@),
                ),
                _ => r is None,
            },
    {
        let r = self.try_tokenize_function(line_defined, last_line_defined);
        match r {
            Some(Some(tokens)) => Some(tokens),
            _ => None,
        }
    }

    /// Like `tokenize_function`, with `Some(None)` where the lines cannot be read or lexed.
    fn try_tokenize_function(&self, line_defined: Option<usize>, last_line_defined: Option<usize>) -> (r:
        Option<Option<Vec<LuaToken>>>)
        ensures
            match (line_defined, last_line_defined) {
                (Some(s), Some(e)) => r is Some && match r->0 {
                    Some(v) => lines_tokens(self.source_view(), s, e) == Some(token_models(v@)),
                    None => lines_tokens(self.source_view(), s, e) is None,
                },
                _ => r is None,
            },
    {
        let (start, end) = match (line_defined, last_line_defined) {
            (Some(s), Some(e)) => (s, e),
            _ => return None,
        };
        let ranges = line_ranges(self.source.as_str());
        if start < 1 || end < start || start > ranges.len() {
            return Some(None);
        }
        let last = if end <= ranges.len() {
            end
        } else {
            ranges.len()
        };
        let text = match text_between_bytes(self.source.as_str(), ranges[start - 1].0, ranges[last - 1].1) {
            Some(text) => text,
            None => return Some(None),
        };
        Some(lex_lua(text.as_str()))
    }

    /// The stat paths a function reads: those named by `---@dep` comments and those read
    /// as `self.a.b`, each once, in the order first found. Nothing when it is not known
    /// where the function is defined.
    pub fn method_dependencies(&self, line_defined: Option<usize>, last_line_defined: Option<usize>) -> (r: Vec<
        String,
    >)
        requires
            tokenizable(self.source_view(), line_defined, last_line_defined),
        ensures
            text_views(r@) == match (line_defined, last_line_defined) {
                (Some(s), Some(e)) => token_dependencies(lines_tokens(self.source_view(), s, e)->0),
                _ => Seq::empty(),
            },
    {
        match self.tokenize_function(line_defined, last_line_defined) {
            Some(tokens) => dependencies_of_tokens(&tokens),
            None => {
                let r: Vec<String> = Vec::new();
                proof {
                    assert(text_views(r@) =~= Seq::<Seq<char>>::empty());
                }
                r
            },
        }
    }

    /// Like `method_dependencies`, but `None` where the lines of the function cannot be
    /// read or lexed.
    pub fn try_method_dependencies(&self, line_defined: Option<usize>, last_line_defined: Option<usize>) -> (r:
        Option<Vec<String>>)
        ensures
            r is None <==> !tokenizable(self.source_view(), line_defined, last_line_defined),
            r is Some ==> text_views(r->0@) == match (line_defined, last_line_defined) {
                (Some(s), Some(e)) => token_dependencies(lines_tokens(self.source_view(), s, e)->0),
                _ => Seq::empty(),
            },
    {
        match self.try_tokenize_function(line_defined, last_line_defined) {
            Some(Some(tokens)) => Some(dependencies_of_tokens(&tokens)),
            Some(None) => None,
            None => {
                let r: Vec<String> = Vec::new();
                proof {
                    assert(text_views(r@) =~= Seq::<Seq<char>>::empty());
                }
                Some(r)
            },
        }
    }
}

impl Clone for LuaSource {
    fn clone(&self) -> (r: Self)
        ensures
            r.path_view() == self.path_view(),
            r.source_view() == self.source_view(),
    {
        LuaSource { path: self.path.clone(), source: self.source.clone() }
    }
}

} // verus!

verus! {

proof fn lemma_scan_distinct(
    t: Seq<(TokenKind, Seq<char>)>,
    i: int,
    deps: Seq<Seq<char>>,
    path: Option<Seq<Seq<char>>>,
)
    requires
        crate::common::entries::distinct_keys(deps),
    ensures
        crate::common::entries::distinct_keys(scan_deps(t, i, deps, path)),
    decreases t.len() - i,
{
    if let Some(p) = path {
        if p.len() > 0 {
            crate::common::entries::lemma_push_new_distinct(deps, join_dotted(p));
        }
    }
    if 0 <= i < t.len() {
        match path {
            None => {
                if t[i].0 == TokenKind::Comment {
                    if let Some(d) = dep_of_comment(t[i].1) {
                        crate::common::entries::lemma_push_new_distinct(deps, d);
                        lemma_scan_distinct(t, i + 1, push_new(deps, d), None);
                    } else {
                        lemma_scan_distinct(t, i + 1, deps, None);
                    }
                } else if t[i].0 == TokenKind::Identifier && t[i].1 == "self"@ {
                    lemma_scan_distinct(t, i + 1, deps, Some(Seq::empty()));
                } else {
                    lemma_scan_distinct(t, i + 1, deps, None);
                }
            },
            Some(p) => {
                if t[i].0 != TokenKind::Symbol || t[i].1 != "."@ {
                    lemma_scan_distinct(t, i + 1, finish_path(deps, p), None);
                } else if i + 1 >= t.len() {
                } else if t[i + 1].0 == TokenKind::Identifier {
                    lemma_scan_distinct(t, i + 2, deps, Some(p.push(t[i + 1].1)));
                } else {
                    lemma_scan_distinct(t, i + 2, deps, Some(p));
                }
            },
        }
    }
}

/// A `---@dep` comment followed by a space and a name names that name, written bare or as
/// `self.` and the name, when the name holds no space and neither starts nor ends with
/// whitespace.
pub proof fn law_dep_comment_names(n: Seq<char>)
    requires
        n.len() > 0,
        !n.contains(' '),
        !is_white_space(n[0]),
        !is_white_space(n.last()),
        !starts_with(n, "self."@),
    ensures
        dep_of_comment("---@dep "@ + n) == Some(n),
        dep_of_comment("---@dep self."@ + n) == Some(n),
{
    reveal_strlit("---@dep ");
    reveal_strlit("---@dep");
    reveal_strlit("---@dep self.");
    reveal_strlit("self.");
    let c1 = "---@dep "@ + n;
    assert(c1.take(7) =~= "---@dep"@);
    assert(c1.skip(7) =~= seq![' '] + n);
    assert((seq![' '] + n).drop_first() =~= n);
    assert(trim_front(seq![' '] + n) == trim_front(n));
    assert(trim_front(n) == n);
    assert(trim_back(n) == n);
    assert(trimmed(c1.skip(7)) == n);
    let c2 = "---@dep self."@ + n;
    let sn = "self."@ + n;
    assert(c2.take(7) =~= "---@dep"@);
    assert(c2.skip(7) =~= seq![' '] + sn);
    assert((seq![' '] + sn).drop_first() =~= sn);
    assert(sn[0] == 's');
    assert(trim_front(seq![' '] + sn) == trim_front(sn));
    assert(trim_front(sn) == sn);
    assert(sn.last() == n.last());
    assert(trim_back(sn) == sn);
    assert(sn.take(5) =~= "self."@);
    assert(sn.skip(5) =~= n);
}

/// The dependencies of a function are listed once each.
pub proof fn law_dependencies_listed_once(t: Seq<(TokenKind, Seq<char>)>)
    ensures
        crate::common::entries::distinct_keys(token_dependencies(t)),
{
    lemma_scan_distinct(t, 0, Seq::empty(), None);
}

} // verus!
