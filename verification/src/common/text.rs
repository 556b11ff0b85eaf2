use vstd::prelude::*;
use vstd::string::StrSliceExecFns;

verus! {

//==============================================================================================
//        Splitting text at a character
//==============================================================================================

/// `i` is the position of the first `c` in `p`.
pub open spec fn is_first_char(p: Seq<char>, c: char, i: int) -> bool {
    &&& 0 <= i < p.len()
    &&& p[i] == c
    &&& forall|j: int| 0 <= j < i ==> p[j] != c
}

/// Position of the first `c` in `p` (meaningful when `p.contains(c)`).
pub open spec fn first_char(p: Seq<char>, c: char) -> int {
    choose|i: int| is_first_char(p, c, i)
}

/// What comes before the first `c`, or all of `p` when there is none.
pub open spec fn before_char(p: Seq<char>, c: char) -> Seq<char> {
    if p.contains(c) {
        p.subrange(0, first_char(p, c))
    } else {
        p
    }
}

/// What comes after the first `c`, if there is one.
pub open spec fn after_char(p: Seq<char>, c: char) -> Option<Seq<char>> {
    if p.contains(c) {
        Some(p.subrange(first_char(p, c) + 1, p.len() as int))
    } else {
        None
    }
}

pub proof fn lemma_first_char(p: Seq<char>, c: char, i: int)
    requires
        0 <= i < p.len(),
        p[i] == c,
    ensures
        p.contains(c),
        is_first_char(p, c, first_char(p, c)),
        first_char(p, c) <= i,
    decreases i,
{
    if exists|j: int| 0 <= j < i && p[j] == c {
        let j = choose|j: int| 0 <= j < i && p[j] == c;
        lemma_first_char(p, c, j);
    } else {
        assert(is_first_char(p, c, i));
    }
}

pub proof fn lemma_first_char_unique(p: Seq<char>, c: char, i: int)
    requires
        is_first_char(p, c, i),
    ensures
        first_char(p, c) == i,
{
    lemma_first_char(p, c, i);
    let f = first_char(p, c);
    if f < i {
        assert(p[f] != c);
    } else if i < f {
        assert(p[i] != c);
    }
}

/// Splits `p` at its first `c`: what comes before, and what comes after if there is a `c`.
pub fn split_once_at(p: &str, c: char) -> (r: (&str, Option<&str>))
    ensures
        r.0@ == before_char(p@, c),
        r.1 is Some <==> after_char(p@, c) is Some,
        r.1 is Some ==> r.1->0@ == after_char(p@, c)->0,
{
    let n = p.unicode_len();
    let mut i: usize = 0;
    while i < n
        invariant
            n == p@.len(),
            0 <= i <= n,
            forall|j: int| 0 <= j < i ==> p@[j] != c,
        decreases n - i,
    {
        if p.get_char(i) == c {
            proof {
                assert(is_first_char(p@, c, i as int));
                lemma_first_char_unique(p@, c, i as int);
            }
            let head = p.substring_char(0, i);
            let tail = p.substring_char(i + 1, n);
            return (head, Some(tail));
        }
        i = i + 1;
    }
    proof {
        if p@.contains(c) {
            let j = choose|j: int| 0 <= j < p@.len() && p@[j] == c;
            assert(p@[j] != c);
        }
    }
    (p, None)
}

/// `s` ends with `c`.
pub open spec fn ends_with_char(s: Seq<char>, c: char) -> bool {
    s.len() > 0 && s.last() == c
}

/// Whether `s` ends with `c`, and `s` without that last character if so.
pub fn strip_last_char(s: &str, c: char) -> (r: (bool, &str))
    ensures
        r.0 == ends_with_char(s@, c),
        r.1@ == (if r.0 { s@.drop_last() } else { s@ }),
{
    let n = s.unicode_len();
    if n > 0 && s.get_char(n - 1) == c {
        let body = s.substring_char(0, n - 1);
        proof {
            assert(body@ =~= s@.drop_last());
        }
        (true, body)
    } else {
        (false, s)
    }
}

} // verus!

verus! {

/// Whether two texts are the same.
pub fn text_eq(a: &str, b: &str) -> (r: bool)
    ensures
        r == (a@ == b@),
{
    a.to_owned() == b.to_owned()
}

} // verus!

verus! {

//==============================================================================================
//        Joining and changing texts
//==============================================================================================

/// `parts` joined with `sep` between each two.
pub open spec fn joined(parts: Seq<Seq<char>>, sep: Seq<char>) -> Seq<char>
    decreases parts.len(),
{
    if parts.len() == 0 {
        Seq::empty()
    } else if parts.len() == 1 {
        parts[0]
    } else {
        joined(parts.drop_last(), sep) + sep + parts.last()
    }
}

pub open spec fn views_of(v: Seq<String>) -> Seq<Seq<char>> {
    v.map_values(|s: String| s@)
}

/// `parts` joined with `sep`.
pub fn join_texts(parts: &Vec<String>, sep: &str) -> (r: String)
    ensures
        r@ == joined(views_of(parts@), sep@),
{
    if parts.len() == 0 {
        return String::new();
    }
    let mut out = parts[0].clone();
    let mut k: usize = 1;
    proof {
        assert(views_of(parts@.take(1)) =~= seq![parts@[0]@]);
    }
    while k < parts.len()
        invariant
            1 <= k <= parts@.len(),
            out@ == joined(views_of(parts@.take(k as int)), sep@),
        decreases parts@.len() - k,
    {
        out.append(sep);
        out.append(parts[k].as_str());
        proof {
            assert(views_of(parts@.take(k + 1)).drop_last() =~= views_of(parts@.take(k as int)));
            assert(views_of(parts@.take(k + 1)).last() == parts@[k as int]@);
        }
        k = k + 1;
    }
    proof {
        assert(parts@.take(parts@.len() as int) =~= parts@);
    }
    out
}

/// `s` with every space turned into a `-`.
pub open spec fn dashed(s: Seq<char>) -> Seq<char> {
    s.map_values(|c: char| if c == ' ' { '-' } else { c })
}

/// Dashing a text keeps its length, turns every space into `-`, keeps every other
/// character, and so leaves no space behind.
pub proof fn law_dashed_replaces_every_space(s: Seq<char>)
    ensures
        dashed(s).len() == s.len(),
        forall|i: int| 0 <= i < s.len() && s[i] == ' ' ==> #[trigger] dashed(s)[i] == '-',
        forall|i: int| 0 <= i < s.len() && s[i] != ' ' ==> #[trigger] dashed(s)[i] == s[i],
        !dashed(s).contains(' '),
{
    if dashed(s).contains(' ') {
        let i = choose|i: int| 0 <= i < dashed(s).len() && dashed(s)[i] == ' ';
        assert(dashed(s)[i] == (if s[i] == ' ' { '-' } else { s[i] }));
    }
}

/// `s` with every space turned into a `-`.
pub fn replace_spaces(s: &str) -> (r: String)
    ensures
        r@ == dashed(s@),
{
    let n = s.unicode_len();
    let mut out = String::new();
    let mut i: usize = 0;
    proof {
        reveal_strlit("-");
    }
    while i < n
        invariant
            n == s@.len(),
            0 <= i <= n,
            out@ == dashed(s@.take(i as int)),
        decreases n - i,
    {
        let ghost before = out@;
        if s.get_char(i) == ' ' {
            out.append("-");
        } else {
            out.append(s.substring_char(i, i + 1));
        }
        proof {
            reveal_strlit("-");
            assert(s@.subrange(i as int, i + 1) =~= seq![s@[i as int]]);
            assert(dashed(s@.take(i + 1)) =~= dashed(s@.take(i as int)).push(
                if s@[i as int] == ' ' { '-' } else { s@[i as int] },
            ));
            assert(out@ =~= dashed(s@.take(i + 1)));
        }
        i = i + 1;
    }
    proof {
        assert(s@.take(n as int) =~= s@);
    }
    out
}

/// The text std's `str::to_lowercase` gives for `s`: its lowercase form by Unicode's rules.
pub uninterp spec fn lowercased(s: Seq<char>) -> Seq<char>;

/// std's `str::to_lowercase`.
#[verifier::external_body]
pub(crate) fn to_lowercase(s: &str) -> (r: String)
    ensures
        r@ == lowercased(s@),
{
    s.to_lowercase()
}

} // verus!
