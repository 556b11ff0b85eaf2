use vstd::prelude::*;
use vstd::string::StrSliceExecFns;

verus! {

/// `i` is the position of the first `.` in `p`.
pub open spec fn is_first_dot(p: Seq<char>, i: int) -> bool {
    &&& 0 <= i < p.len()
    &&& p[i] == '.'
    &&& forall|j: int| 0 <= j < i ==> p[j] != '.'
}

/// `p` holds a separator.
pub open spec fn has_dot(p: Seq<char>) -> bool {
    exists|i: int| is_first_dot(p, i)
}

/// Position of the first separator of `p` (meaningful when `has_dot(p)`).
pub open spec fn first_dot(p: Seq<char>) -> int {
    choose|i: int| is_first_dot(p, i)
}

/// The first segment of a dotted path.
pub open spec fn path_head(p: Seq<char>) -> Seq<char> {
    if has_dot(p) {
        p.subrange(0, first_dot(p))
    } else {
        p
    }
}

/// Everything after the first separator, if there is one.
pub open spec fn path_tail(p: Seq<char>) -> Option<Seq<char>> {
    if has_dot(p) {
        Some(p.subrange(first_dot(p) + 1, p.len() as int))
    } else {
        None
    }
}

/// All segments of a dotted path, in order.
pub open spec fn path_parts(p: Seq<char>) -> Seq<Seq<char>>
    decreases p.len(),
{
    if has_dot(p) {
        seq![path_head(p)] + path_parts(p.subrange(first_dot(p) + 1, p.len() as int))
    } else {
        seq![p]
    }
}

/// Joining `a` and `b` with a separator, unless `a` is empty.
pub open spec fn join_path(a: Seq<char>, b: Seq<char>) -> Seq<char> {
    if a.len() == 0 {
        b
    } else {
        a + seq!['.'] + b
    }
}

pub proof fn lemma_first_dot_unique(p: Seq<char>, i: int)
    requires
        is_first_dot(p, i),
    ensures
        has_dot(p),
        first_dot(p) == i,
{
    let k = first_dot(p);
    assert(is_first_dot(p, k));
    if k < i {
        assert(p[k] != '.');
    } else if i < k {
        assert(p[i] != '.');
    }
}

/// Splits `p` at its first `.`.
pub fn split_first_dot(p: &str) -> (r: (&str, Option<&str>))
    ensures
        r.0@ == path_head(p@),
        r.1 is Some <==> path_tail(p@) is Some,
        r.1 is Some ==> r.1->0@ == path_tail(p@)->0,
{
    let n = p.unicode_len();
    let mut i: usize = 0;
    while i < n
        invariant
            n == p@.len(),
            0 <= i <= n,
            forall|j: int| 0 <= j < i ==> p@[j] != '.',
        decreases n - i,
    {
        if p.get_char(i) == '.' {
            proof {
                lemma_first_dot_unique(p@, i as int);
            }
            let head = p.substring_char(0, i);
            let tail = p.substring_char(i + 1, n);
            return (head, Some(tail));
        }
        i = i + 1;
    }
    proof {
        if has_dot(p@) {
            let k = first_dot(p@);
            assert(is_first_dot(p@, k));
            assert(p@[k] != '.');
        }
    }
    (p, None)
}

} // verus!

verus! {

/// Something that names a field of a stat block by a dotted path.
pub trait StatBlockPath {
    spec fn path_view(&self) -> Seq<char>;

    fn as_str(&self) -> (r: &str)
        ensures
            r@ == self.path_view(),
    ;

    /// All segments of the path.
    fn in_parts(&self) -> (r: Vec<&str>)
        ensures
            r@.len() == path_parts(self.path_view()).len(),
            forall|i: int| 0 <= i < r@.len() ==> #[trigger] r@[i]@ == path_parts(self.path_view())[i],
    {
        split_all_dots(self.as_str())
    }

    /// The first segment and the rest of the path.
    fn next(&self) -> (r: (&str, Option<&str>))
        ensures
            r.0@ == path_head(self.path_view()),
            r.1 is Some <==> path_tail(self.path_view()) is Some,
            r.1 is Some ==> r.1->0@ == path_tail(self.path_view())->0,
    {
        split_first_dot(self.as_str())
    }

    fn is_empty(&self) -> (r: bool)
        ensures
            r == (self.path_view().len() == 0),
    {
        self.as_str().is_empty()
    }

    /// `self.other`, or `other` alone when `self` is empty.
    fn append_path(&self, other: &str) -> (r: String)
        ensures
            r@ == join_path(self.path_view(), other@),
    {
        join_paths(self.as_str(), other)
    }
}

impl<'a> StatBlockPath for &'a str {
    open spec fn path_view(&self) -> Seq<char> {
        (**self)@
    }

    fn as_str(&self) -> (r: &str) {
        *self
    }
}

impl<'a> StatBlockPath for &'a String {
    open spec fn path_view(&self) -> Seq<char> {
        (**self)@
    }

    fn as_str(&self) -> (r: &str) {
        (**self).as_str()
    }
}

/// Splits `p` at every `.`.
pub fn split_all_dots(p: &str) -> (r: Vec<&str>)
    ensures
        r@.len() == path_parts(p@).len(),
        forall|i: int| 0 <= i < r@.len() ==> #[trigger] r@[i]@ == path_parts(p@)[i],
    decreases p@.len(),
{
    let (head, tail) = split_first_dot(p);
    match tail {
        None => {
            let mut r = Vec::new();
            r.push(head);
            r
        },
        Some(t) => {
            proof {
                assert(is_first_dot(p@, first_dot(p@)));
            }
            let rest = split_all_dots(t);
            let mut r = Vec::new();
            r.push(head);
            let mut k: usize = 0;
            while k < rest.len()
                invariant
                    r@.len() == k + 1,
                    r@[0]@ == path_head(p@),
                    0 <= k <= rest@.len(),
                    forall|i: int| 0 <= i < k ==> #[trigger] r@[i + 1]@ == rest@[i]@,
                decreases rest@.len() - k,
            {
                r.push(rest[k]);
                k = k + 1;
            }
            proof {
                let parts = path_parts(p@);
                assert(parts == seq![path_head(p@)] + path_parts(t@));
                assert forall|i: int| 0 <= i < r@.len() implies #[trigger] r@[i]@ == parts[i] by {
                    if i > 0 {
                        assert(r@[(i - 1) + 1]@ == rest@[i - 1]@);
                    }
                }
            }
            r
        },
    }
}

/// Joins two paths with a `.`, leaving out the separator when `a` is empty.
pub fn join_paths(a: &str, b: &str) -> (r: String)
    ensures
        r@ == join_path(a@, b@),
{
    if a.is_empty() {
        b.to_owned()
    } else {
        let mut r = a.to_owned();
        r.append(".");
        r.append(b);
        proof {
            reveal_strlit(".");
        }
        r
    }
}

} // verus!
