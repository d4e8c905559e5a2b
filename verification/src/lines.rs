//! Taking text apart: lines, words, and the two sides of a mark.

use vstd::prelude::*;
use vstd::string::*;

use crate::layout::is_char;
use crate::search::{first_where, first_where_is};
use crate::text::{
    chars_of, is_digit, is_space, same_text, space_here, string_of, texts, trim_front,
};

verus! {

/// Where `c` first stands in `s`, or the length.
pub open spec fn place(s: Seq<char>, c: char) -> int {
    first_where(s, is_char(c)) as int
}

/// A line's text without the carriage return that precedes its line feed.
pub open spec fn without_return(s: Seq<char>) -> Seq<char> {
    if s.len() > 0 && s.last() == '\r' {
        s.drop_last()
    } else {
        s
    }
}

/// The lines of a text: each ends with a line feed, with or without a carriage
/// return before it, but the last need not.
pub open spec fn lines_of(s: Seq<char>) -> Seq<Seq<char>>
    decreases s.len(),
{
    let k = place(s, '\n');
    if s.len() == 0 {
        Seq::empty()
    } else if k >= s.len() {
        seq![s]
    } else {
        seq![without_return(s.take(k))] + lines_of(s.skip(k + 1))
    }
}

/// Where `c` first stands in `cs[from..]`, counted from the front of `cs`; the
/// length where it does not.
fn find_char(cs: &Vec<char>, from: usize, c: char) -> (r: usize)
    requires
        from <= cs@.len(),
    ensures
        from <= r <= cs@.len(),
        r - from == place(cs@.skip(from as int), c),
        r < cs@.len() ==> cs@[r as int] == c,
{
    let ghost s = cs@.skip(from as int);
    let mut i: usize = from;
    while i < cs.len() && cs[i] != c
        invariant
            from <= i <= cs@.len(),
            s == cs@.skip(from as int),
            forall|j: int| 0 <= j < i - from ==> !is_char(c)(#[trigger] s[j]),
        decreases cs@.len() - i,
    {
        assert(s[i - from] == cs@[i as int]);
        i = i + 1;
    }
    proof {
        if i < cs@.len() {
            assert(s[i - from] == cs@[i as int]);
        }
        first_where_is(s, is_char(c), i - from);
    }
    i
}

/// The lines of a text.
pub fn split_lines(s: &str) -> (r: Vec<String>)
    ensures
        texts(r@) == lines_of(s@),
{
    let cs = chars_of(s);
    let mut out: Vec<String> = Vec::new();
    let mut i: usize = 0;
    proof {
        assert(s@.skip(0) =~= s@);
        assert(texts(out@) + lines_of(s@.skip(0)) =~= lines_of(s@));
    }
    while i < cs.len()
        invariant
            cs@ == s@,
            i <= cs@.len(),
            texts(out@) + lines_of(s@.skip(i as int)) == lines_of(s@),
        decreases cs@.len() - i,
    {
        let ghost rest = s@.skip(i as int);
        let ghost before = out@;
        let k: usize = find_char(&cs, i, '\n');
        let end: usize = if k < cs.len() && k > i && cs[k - 1] == '\r' {
            k - 1
        } else {
            k
        };
        let line = string_of(&cs, i, end);
        let ghost l = line@;
        out.push(line);
        proof {
            assert(texts(out@) =~= texts(before).push(l));
            if k < cs@.len() {
                assert(rest.take(k - i) =~= s@.subrange(i as int, k as int));
                assert(l =~= without_return(rest.take(k - i)));
                assert(rest.skip(k - i + 1) =~= s@.skip(k + 1));
                assert(texts(out@) + lines_of(s@.skip(k + 1)) =~= texts(before) + (seq![l]
                    + lines_of(s@.skip(k + 1))));
            } else {
                assert(l =~= rest);
                assert(s@.skip(k as int) =~= Seq::<char>::empty());
                assert(texts(out@) + lines_of(s@.skip(k as int)) =~= texts(before) + seq![l]);
            }
        }
        i = if k < cs.len() {
            k + 1
        } else {
            k
        };
    }
    proof {
        assert(s@.skip(i as int) =~= Seq::<char>::empty());
        assert(texts(out@) + lines_of(s@.skip(i as int)) =~= texts(out@));
    }
    out
}

/// What stands before the first `c`.
pub open spec fn before_mark(s: Seq<char>, c: char) -> Seq<char> {
    s.take(place(s, c))
}

/// What stands behind the first `c`.
pub open spec fn behind_mark(s: Seq<char>, c: char) -> Seq<char> {
    s.skip(place(s, c) + 1)
}

/// The two sides of the first `c`, where there is one.
pub fn split_once(s: &str, c: char) -> (r: Option<(String, String)>)
    ensures
        match r {
            Some((a, b)) => place(s@, c) < s@.len() && a@ == before_mark(s@, c) && b@
                == behind_mark(s@, c),
            None => place(s@, c) >= s@.len(),
        },
{
    let cs = chars_of(s);
    assert(cs@.skip(0) =~= s@);
    let k: usize = find_char(&cs, 0, c);
    if k < cs.len() {
        let a = string_of(&cs, 0, k);
        let b = string_of(&cs, k + 1, cs.len());
        assert(a@ =~= before_mark(s@, c));
        assert(b@ =~= behind_mark(s@, c));
        Some((a, b))
    } else {
        None
    }
}

pub open spec fn space_char() -> spec_fn(char) -> bool {
    |c: char| is_space(c)
}

/// The first word of a text: what stands between white space.
pub open spec fn word(s: Seq<char>) -> Seq<char> {
    let t = trim_front(s);
    t.take(first_where(t, space_char()) as int)
}

/// What stands behind the first word.
pub open spec fn behind_word(s: Seq<char>) -> Seq<char> {
    let t = trim_front(s);
    t.skip(first_where(t, space_char()) as int)
}

/// The first word of a text, and what stands behind it.
pub fn split_word(s: &str) -> (r: (String, String))
    ensures
        r.0@ == word(s@),
        r.1@ == behind_word(s@),
{
    let cs = chars_of(s);
    let n: usize = cs.len();
    let mut i: usize = 0;
    assert(s@.skip(0) =~= s@);
    while i < n && space_here(cs[i])
        invariant
            cs@ == s@,
            n == cs@.len(),
            i <= n,
            trim_front(s@) == trim_front(s@.skip(i as int)),
        decreases n - i,
    {
        assert(s@.skip(i as int).skip(1) =~= s@.skip(i + 1));
        i = i + 1;
    }
    let ghost t = s@.skip(i as int);
    assert(trim_front(s@) == t);
    let mut j: usize = i;
    while j < n && !space_here(cs[j])
        invariant
            cs@ == s@,
            n == cs@.len(),
            i <= j <= n,
            t == s@.skip(i as int),
            forall|k: int| 0 <= k < j - i ==> !space_char()(#[trigger] t[k]),
        decreases n - j,
    {
        assert(t[j - i] == cs@[j as int]);
        j = j + 1;
    }
    proof {
        if j < n {
            assert(t[j - i] == cs@[j as int]);
        }
        first_where_is(t, space_char(), j - i);
    }
    let a = string_of(&cs, i, j);
    let b = string_of(&cs, j, n);
    assert(a@ =~= word(s@));
    assert(b@ =~= behind_word(s@));
    (a, b)
}

/// `t` stands somewhere in `s`.
pub open spec fn holds_text(s: Seq<char>, t: Seq<char>) -> bool {
    exists|i: int| 0 <= i && i + t.len() <= s.len() && #[trigger] s.subrange(i, i + t.len()) == t
}

/// Does `t` stand somewhere in `s`?
pub fn has_text(s: &str, t: &str) -> (r: bool)
    ensures
        r == holds_text(s@, t@),
{
    let n: usize = s.unicode_len();
    let m: usize = t.unicode_len();
    if m > n {
        return false;
    }
    let mut i: usize = 0;
    while i <= n - m
        invariant
            n == s@.len(),
            m == t@.len(),
            m <= n,
            i <= n - m + 1,
            forall|j: int| 0 <= j < i ==> #[trigger] s@.subrange(j, j + m) != t@,
        decreases n - m + 1 - i,
    {
        let part = s.substring_char(i, i + m);
        if same_text(part, t) {
            assert(s@.subrange(i as int, i + t@.len()) == t@);
            return true;
        }
        if i == n - m {
            assert forall|j: int| 0 <= j && j + t@.len() <= s@.len() implies #[trigger] s@.subrange(
                j,
                j + t@.len(),
            ) != t@ by {
                assert(j <= i);
            }
            return false;
        }
        i = i + 1;
    }
    false
}

/// `s` without digits at the end.
pub open spec fn trim_digits(s: Seq<char>) -> Seq<char>
    decreases s.len(),
{
    if s.len() > 0 && is_digit(s.last()) {
        trim_digits(s.drop_last())
    } else {
        s
    }
}

/// `s` without its first `n` characters.
pub fn skip_chars(s: &str, n: usize) -> (r: String)
    requires
        n <= s@.len(),
    ensures
        r@ == s@.skip(n as int),
{
    let cs = chars_of(s);
    let r = string_of(&cs, n, cs.len());
    assert(r@ =~= s@.skip(n as int));
    r
}

} // verus!
