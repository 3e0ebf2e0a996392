//! Splitting a command line into arguments: white space separates them and
//! double quotes group text that may hold white space.

use vstd::prelude::*;

use crate::text::{
    is_white_space, is_whitespace, lemma_leading_ws, lemma_trailing_ws, str_trim_end,
    str_trim_start, trim_end, trim_start,
};
use vstd::string::StrSliceExecFns;

verus! {

/// Number of characters before the first `"` (the length when there is none).
pub open spec fn until_quote(t: Seq<char>) -> nat
    decreases t.len(),
{
    if t.len() > 0 && t[0] != '"' {
        1 + until_quote(t.drop_first())
    } else {
        0
    }
}

/// Number of characters before the first white space (the length when there
/// is none).
pub open spec fn until_ws(t: Seq<char>) -> nat
    decreases t.len(),
{
    if t.len() > 0 && !is_white_space(t[0]) {
        1 + until_ws(t.drop_first())
    } else {
        0
    }
}

/// The next argument of `line` and what is left of the line after it.
///
/// Leading white space is skipped. A `"` opens a quoted argument that runs to
/// the next `"` (or the end of the line) and the rest of the line starts
/// right after that quote; otherwise the argument runs to the next white
/// space. Trailing white space is cut from the argument, and an empty
/// argument ends the sequence: nothing of the line is left after it.
pub open spec fn spec_next_arg(line: Seq<char>) -> (Option<Seq<char>>, Seq<char>) {
    let s = trim_start(line);
    let (res, rest) = if s.len() > 0 && s[0] == '"' {
        let t = s.drop_first();
        let q = until_quote(t);
        if q < t.len() {
            (t.take(q as int), t.skip(q + 1int))
        } else {
            (t, Seq::empty())
        }
    } else {
        let w = until_ws(s);
        (s.take(w as int), s.skip(w as int))
    };
    let arg = trim_end(res);
    if arg.len() > 0 {
        (Some(arg), rest)
    } else {
        (None, Seq::empty())
    }
}

proof fn lemma_until_quote_from(t: Seq<char>, from: int)
    requires
        0 <= from <= t.len(),
        forall|i: int| 0 <= i < from ==> #[trigger] t[i] != '"',
        from < t.len() ==> t[from] == '"',
    ensures
        until_quote(t) == from,
    decreases from,
{
    if from > 0 {
        assert forall|i: int| 0 <= i < from - 1 implies #[trigger] t.drop_first()[i] != '"' by {
            assert(t.drop_first()[i] == t[i + 1]);
        }
        lemma_until_quote_from(t.drop_first(), from - 1);
    }
}

proof fn lemma_until_ws_from(t: Seq<char>, from: int)
    requires
        0 <= from <= t.len(),
        forall|i: int| 0 <= i < from ==> !is_white_space(#[trigger] t[i]),
        from < t.len() ==> is_white_space(t[from]),
    ensures
        until_ws(t) == from,
    decreases from,
{
    if from > 0 {
        assert forall|i: int| 0 <= i < from - 1 implies !is_white_space(
            #[trigger] t.drop_first()[i],
        ) by {
            assert(t.drop_first()[i] == t[i + 1]);
        }
        lemma_until_ws_from(t.drop_first(), from - 1);
    }
}

/// The arguments of a command line, taken one at a time.
#[derive(Debug, Clone, Copy, PartialEq, Eq, Hash, Default)]
pub struct ArgsIter<'a> {
    line: &'a str,
}

impl<'a> ArgsIter<'a> {
    /// What is left of the line.
    pub closed spec fn rest(&self) -> Seq<char> {
        self.line@
    }

    pub fn new(line: &'a str) -> (r: Self)
        ensures
            r.rest() == line@,
    {
        ArgsIter { line }
    }

    /// The next argument, or `None` when the next argument is empty.
    pub fn next_arg(&mut self) -> (r: Option<&'a str>)
        ensures
            spec_next_arg(old(self).rest()).0 == match r {
                Some(a) => Some(a@),
                None => None::<Seq<char>>,
            },
            final(self).rest() == spec_next_arg(old(self).rest()).1,
            r is None ==> final(self).rest() == Seq::<char>::empty(),
    {
        let s = str_trim_start(self.line);
        let n = s.unicode_len();
        let res;
        if n > 0 && s.get_char(0) == '"' {
            let t = s.substring_char(1, n);
            let m = n - 1;
            let mut q: usize = 0;
            while q < m && t.get_char(q) != '"'
                invariant
                    m == t@.len(),
                    q <= m,
                    forall|i: int| 0 <= i < q ==> #[trigger] t@[i] != '"',
                decreases m - q,
            {
                q = q + 1;
            }
            proof {
                lemma_until_quote_from(t@, q as int);
                assert(t@ =~= s@.drop_first());
            }
            if q < m {
                res = t.substring_char(0, q);
                self.line = t.substring_char(q + 1, m);
            } else {
                res = t;
                self.line = t.substring_char(m, m);
                proof {
                    assert(self.line@ =~= Seq::<char>::empty());
                }
            }
        } else {
            let mut w: usize = 0;
            while w < n && !is_whitespace(s.get_char(w))
                invariant
                    n == s@.len(),
                    w <= n,
                    forall|i: int| 0 <= i < w ==> !is_white_space(#[trigger] s@[i]),
                decreases n - w,
            {
                w = w + 1;
            }
            proof {
                lemma_until_ws_from(s@, w as int);
            }
            res = s.substring_char(0, w);
            self.line = s.substring_char(w, n);
        }
        let arg = str_trim_end(res);
        if arg.unicode_len() > 0 {
            Some(arg)
        } else {
            self.line = arg.substring_char(0, 0);
            proof {
                assert(self.line@ =~= Seq::<char>::empty());
            }
            None
        }
    }
}

/// An argument is never empty and never ends with white space; an argument
/// that is not quoted holds no white space at all. A line that is not used
/// up yet always gets shorter, and an empty line yields nothing.
pub proof fn law_next_arg_shape(line: Seq<char>)
    ensures
        spec_next_arg(line).0 matches Some(a) ==> {
            &&& a.len() > 0
            &&& !is_white_space(a.last())
            &&& !(trim_start(line)[0] == '"') ==> forall|i: int|
                0 <= i < a.len() ==> !is_white_space(#[trigger] a[i])
        },
        line.len() > 0 ==> spec_next_arg(line).1.len() < line.len(),
        line.len() == 0 ==> spec_next_arg(line) == (None::<Seq<char>>, Seq::<char>::empty()),
{
    let s = trim_start(line);
    lemma_leading_ws(line);
    let (res, rest) = if s.len() > 0 && s[0] == '"' {
        let t = s.drop_first();
        let q = until_quote(t);
        lemma_until_quote_len(t);
        if q < t.len() {
            (t.take(q as int), t.skip(q + 1int))
        } else {
            (t, Seq::<char>::empty())
        }
    } else {
        let w = until_ws(s);
        lemma_until_ws_len(s);
        (s.take(w as int), s.skip(w as int))
    };
    lemma_trailing_ws(res);
    if line.len() == 0 {
        assert(s =~= Seq::<char>::empty());
        assert(rest =~= Seq::<char>::empty());
    }
}

/// Once the arguments run out they stay out: after `None`, nothing is left
/// of the line, and every later step yields `None` again.
pub proof fn law_next_arg_fused(line: Seq<char>)
    ensures
        spec_next_arg(line).0 is None ==> {
            &&& spec_next_arg(line).1 == Seq::<char>::empty()
            &&& spec_next_arg(spec_next_arg(line).1) == (None::<Seq<char>>, Seq::<char>::empty())
        },
{
    law_next_arg_shape(Seq::<char>::empty());
}

proof fn lemma_until_quote_len(t: Seq<char>)
    ensures
        until_quote(t) <= t.len(),
        until_quote(t) < t.len() ==> t[until_quote(t) as int] == '"',
    decreases t.len(),
{
    if t.len() > 0 && t[0] != '"' {
        lemma_until_quote_len(t.drop_first());
    }
}

proof fn lemma_until_ws_len(t: Seq<char>)
    ensures
        until_ws(t) <= t.len(),
        forall|i: int| 0 <= i < until_ws(t) ==> !is_white_space(#[trigger] t[i]),
        t.len() > 0 && !is_white_space(t[0]) ==> until_ws(t) > 0,
    decreases t.len(),
{
    if t.len() > 0 && !is_white_space(t[0]) {
        lemma_until_ws_len(t.drop_first());
        assert forall|i: int| 0 <= i < until_ws(t) implies !is_white_space(#[trigger] t[i]) by {
            if i > 0 {
                assert(t[i] == t.drop_first()[i - 1]);
            }
        }
    }
}

/// A quoted argument ends at the first closing quote: when the line, past
/// its leading white space, is a quote, then text `x` without quotes, then a
/// quote and the rest `r`, the argument is `x` without its trailing white
/// space and what is left of the line is `r` (or, when that argument is
/// empty, the arguments end).
pub proof fn law_quoted_arg_ends_at_first_quote(line: Seq<char>, x: Seq<char>, r: Seq<char>)
    requires
        trim_start(line) == seq!['"'] + x + seq!['"'] + r,
        forall|i: int| 0 <= i < x.len() ==> x[i] != '"',
    ensures
        spec_next_arg(line) == if trim_end(x).len() > 0 {
            (Some(trim_end(x)), r)
        } else {
            (None::<Seq<char>>, Seq::<char>::empty())
        },
{
    let s = trim_start(line);
    let t = s.drop_first();
    assert(t =~= x + seq!['"'] + r);
    lemma_until_quote_from(t, x.len() as int);
    assert(t.take(x.len() as int) =~= x);
    assert(t.skip(x.len() + 1int) =~= r);
}

/// An argument that opens with a quote never holds a quote.
pub proof fn law_quoted_arg_has_no_quote(line: Seq<char>)
    requires
        trim_start(line).len() > 0,
        trim_start(line)[0] == '"',
    ensures
        spec_next_arg(line).0 matches Some(a) ==> forall|i: int| 0 <= i < a.len() ==> a[i] != '"',
{
    let s = trim_start(line);
    let t = s.drop_first();
    lemma_until_quote_before(t);
    lemma_until_quote_len(t);
    let q = until_quote(t);
    let res = if q < t.len() {
        t.take(q as int)
    } else {
        t
    };
    lemma_trailing_ws(res);
    assert forall|i: int| 0 <= i < trim_end(res).len() implies #[trigger] trim_end(res)[i] != '"' by {
        assert(trim_end(res)[i] == res[i]);
        assert(res[i] == t[i]);
    }
}

proof fn lemma_until_quote_before(t: Seq<char>)
    ensures
        forall|i: int| 0 <= i < until_quote(t) ==> #[trigger] t[i] != '"',
    decreases t.len(),
{
    lemma_until_quote_len(t);
    if t.len() > 0 && t[0] != '"' {
        lemma_until_quote_before(t.drop_first());
        lemma_until_quote_len(t.drop_first());
        assert forall|i: int| 0 <= i < until_quote(t) implies #[trigger] t[i] != '"' by {
            if i > 0 {
                assert(t[i] == t.drop_first()[i - 1]);
            }
        }
    }
}

/// An argument without quotes runs up to the next white space: when the
/// line, past its leading white space, is a word `x` without white space
/// that does not open with a quote, followed by `r` that is empty or opens
/// with white space, the argument is `x` and what is left is `r`.
pub proof fn law_word_ends_at_white_space(line: Seq<char>, x: Seq<char>, r: Seq<char>)
    requires
        trim_start(line) == x + r,
        x.len() > 0,
        x[0] != '"',
        forall|i: int| 0 <= i < x.len() ==> !is_white_space(#[trigger] x[i]),
        r.len() > 0 ==> is_white_space(r[0]),
    ensures
        spec_next_arg(line) == (Some(x), r),
{
    let s = trim_start(line);
    assert forall|i: int| 0 <= i < x.len() implies !is_white_space(#[trigger] s[i]) by {
        assert(s[i] == x[i]);
    }
    if r.len() > 0 {
        assert(s[x.len() as int] == r[0]);
    }
    lemma_until_ws_from(s, x.len() as int);
    assert(s.take(x.len() as int) =~= x);
    assert(s.skip(x.len() as int) =~= r);
    assert(!is_white_space(x.last()));
    assert(trim_end(x) =~= x);
}

} // verus!
