//! Text as sequences of characters: searching and replacing substrings.

use vstd::prelude::*;

verus! {

/// `pat` stands in `s` at index `i`.
pub open spec fn occurs_at(s: Seq<char>, pat: Seq<char>, i: int) -> bool {
    &&& 0 <= i
    &&& i + pat.len() <= s.len()
    &&& s.subrange(i, i + pat.len()) == pat
}

/// `pat` stands somewhere in `s`.
pub open spec fn occurs_in(s: Seq<char>, pat: Seq<char>) -> bool {
    exists|i: int| occurs_at(s, pat, i)
}

/// `s` with every occurrence of `pat` replaced by `to`. Occurrences are found
/// from left to right and do not overlap; an empty `pat` occurs nowhere.
pub open spec fn replaced(s: Seq<char>, pat: Seq<char>, to: Seq<char>) -> Seq<char>
    decreases s.len(),
{
    if pat.len() == 0 || s.len() < pat.len() {
        s
    } else if s.subrange(0, pat.len() as int) == pat {
        to + replaced(s.subrange(pat.len() as int, s.len() as int), pat, to)
    } else {
        seq![s[0]] + replaced(s.subrange(1, s.len() as int), pat, to)
    }
}

/// The texts of a list of strings.
pub open spec fn texts(strings: Seq<String>) -> Seq<Seq<char>> {
    Seq::new(strings.len(), |i: int| strings[i]@)
}

/// The texts of `parts` in a row, with `sep` between each two.
pub open spec fn joined(parts: Seq<Seq<char>>, sep: Seq<char>) -> Seq<char>
    decreases parts.len(),
{
    if parts.len() == 0 {
        Seq::empty()
    } else if parts.len() == 1 {
        parts[0]
    } else {
        joined(parts.drop_last(), sep) + sep + parts.last()
    }
}

/// The characters of `s`, in order.
pub fn to_chars(s: &str) -> (chars: Vec<char>)
    ensures
        chars@ == s@,
{
    let mut chars: Vec<char> = Vec::new();
    for c in it: s.chars()
        invariant
            chars@ == it.seq().take(it.index()),
            it.seq() == s@,
    {
        chars.push(c);
    }
    chars
}

/// Appends one character to `s`.
///
/// Trusted: this is `String::push`, which the standard library documents as
/// appending the given character to the end of the string.
#[verifier::external_body]
fn push_char(s: &mut String, c: char)
    ensures
        final(s)@ == old(s)@.push(c),
{
    s.push(c);
}

/// Whether `pat` stands in `text` at index `i`.
pub fn matches_at(text: &Vec<char>, pat: &Vec<char>, i: usize) -> (found: bool)
    ensures
        found == occurs_at(text@, pat@, i as int),
{
    let n: usize = text.len();
    let m: usize = pat.len();
    if i > n || m > n - i {
        return false;
    }
    let mut k: usize = 0;
    while k < m
        invariant
            i + m <= n,
            n == text.len(),
            m == pat.len(),
            k <= m,
            text@.subrange(i as int, i + k) == pat@.subrange(0, k as int),
        decreases m - k,
    {
        if text[i + k] != pat[k] {
            return false;
        }
        k += 1;
    }
    assert(pat@.subrange(0, m as int) == pat@);
    true
}

/// `text` with every occurrence of `pat` replaced by `to`.
pub fn replace_all(text: &str, pat: &str, to: &str) -> (out: String)
    ensures
        out@ == replaced(text@, pat@, to@),
{
    let chars = to_chars(text);
    let pattern = to_chars(pat);
    let n: usize = chars.len();
    let m: usize = pattern.len();
    let mut out = String::new();
    let mut i: usize = 0;
    assert(chars@.subrange(0, n as int) == chars@);
    while i < n
        invariant
            i <= n,
            n == chars.len(),
            m == pattern.len(),
            chars@ == text@,
            pattern@ == pat@,
            out@ + replaced(chars@.subrange(i as int, n as int), pat@, to@) == replaced(
                text@,
                pat@,
                to@,
            ),
        decreases n - i,
    {
        let ghost rest = chars@.subrange(i as int, n as int);
        if m > 0 && matches_at(&chars, &pattern, i) {
            assert(rest.subrange(0, m as int) == chars@.subrange(i as int, i + m));
            assert(rest.subrange(m as int, rest.len() as int) == chars@.subrange(
                i + m,
                n as int,
            ));
            out.append(to);
            i += m;
        } else {
            assert(rest.subrange(1, rest.len() as int) == chars@.subrange(i + 1, n as int));
            proof {
                if m > 0 && rest.len() >= m {
                    assert(rest.subrange(0, m as int) == chars@.subrange(i as int, i + m));
                } else {
                    lemma_replaced_short(rest.subrange(1, rest.len() as int), pat@, to@);
                }
            }
            push_char(&mut out, chars[i]);
            i += 1;
        }
    }
    out
}

/// Text that is empty or shorter than the pattern is left as it is.
proof fn lemma_replaced_short(s: Seq<char>, pat: Seq<char>, to: Seq<char>)
    requires
        pat.len() == 0 || s.len() < pat.len(),
    ensures
        replaced(s, pat, to) == s,
{
}

/// An occurrence in a tail of `s` is an occurrence in `s`, further to the right.
proof fn lemma_occurs_in_tail(s: Seq<char>, q: Seq<char>, from: int, i: int)
    requires
        0 <= from <= s.len(),
        occurs_at(s.subrange(from, s.len() as int), q, i),
    ensures
        occurs_at(s, q, from + i),
{
    assert(s.subrange(from, s.len() as int).subrange(i, i + q.len()) == s.subrange(
        from + i,
        from + i + q.len(),
    ));
}

/// A tail of a text without `q` is without `q`.
proof fn lemma_tail_without(s: Seq<char>, q: Seq<char>, from: int)
    requires
        0 <= from <= s.len(),
        !occurs_in(s, q),
    ensures
        !occurs_in(s.subrange(from, s.len() as int), q),
{
    assert forall|i: int| !occurs_at(s.subrange(from, s.len() as int), q, i) by {
        if occurs_at(s.subrange(from, s.len() as int), q, i) {
            lemma_occurs_in_tail(s, q, from, i);
        }
    }
}

/// Replacing leaves a text alone in which the pattern does not occur.
pub proof fn lemma_replaced_without_occurrence(s: Seq<char>, pat: Seq<char>, to: Seq<char>)
    requires
        !occurs_in(s, pat),
    ensures
        replaced(s, pat, to) == s,
    decreases s.len(),
{
    if pat.len() > 0 && s.len() >= pat.len() {
        assert(!occurs_at(s, pat, 0));
        lemma_tail_without(s, pat, 1);
        lemma_replaced_without_occurrence(s.subrange(1, s.len() as int), pat, to);
    }
}

/// Where the replacement text `to` is separate from `q` in this sense, no
/// occurrence of `q` can share a character with an inserted copy of `to`:
/// `to` is not empty, its first character stands nowhere in `q` but perhaps at
/// the start, the first character of `q` stands nowhere in `to` but perhaps at
/// the start, and `to` does not begin as `q` does.
pub open spec fn separate(to: Seq<char>, q: Seq<char>) -> bool {
    &&& to.len() > 0
    &&& forall|j: int| 0 < j < q.len() ==> q[j] != to[0]
    &&& forall|i: int| 0 < i < to.len() ==> to[i] != q[0]
    &&& to[0] == q[0] ==> to.len() >= q.len() && to.subrange(0, q.len() as int) != q
}

/// A start of the replaced text that is free of the first character of `to`
/// was copied from the start of `s`.
proof fn lemma_prefix_of_replaced(s: Seq<char>, pat: Seq<char>, to: Seq<char>, w: Seq<char>)
    requires
        to.len() > 0,
        forall|j: int| 0 <= j < w.len() ==> w[j] != to[0],
        w.is_prefix_of(replaced(s, pat, to)),
    ensures
        w.is_prefix_of(s),
    decreases s.len(),
{
    if w.len() > 0 && pat.len() > 0 && s.len() >= pat.len() {
        if s.subrange(0, pat.len() as int) == pat {
            assert(w[0] == replaced(s, pat, to)[0]);
        } else {
            let w_rest = w.subrange(1, w.len() as int);
            lemma_prefix_of_replaced(s.subrange(1, s.len() as int), pat, to, w_rest);
            assert forall|j: int| 0 <= j < w.len() implies w[j] == s[j] by {
                if j > 0 {
                    assert(w[j] == w_rest[j - 1]);
                }
            }
        }
    }
}

/// What a replacement leaves free of `q`: where `to` is separate from `q`, and
/// `q` is the replaced pattern itself or does not occur in `s`, `q` does not
/// occur in the result.
pub proof fn lemma_replaced_is_without(
    s: Seq<char>,
    pat: Seq<char>,
    to: Seq<char>,
    q: Seq<char>,
)
    requires
        pat.len() > 0,
        q.len() > 0,
        separate(to, q),
        q == pat || !occurs_in(s, q),
    ensures
        !occurs_in(replaced(s, pat, to), q),
    decreases s.len(),
{
    let r = replaced(s, pat, to);
    let m = pat.len() as int;
    let k = q.len() as int;
    if s.len() >= m && s.subrange(0, m) == pat {
        let rest = s.subrange(m, s.len() as int);
        let r_rest = replaced(rest, pat, to);
        if q != pat {
            lemma_tail_without(s, q, m);
        }
        lemma_replaced_is_without(rest, pat, to, q);
        assert forall|i: int| !occurs_at(r, q, i) by {
            if occurs_at(r, q, i) {
                if i >= to.len() {
                    assert(r.subrange(i, i + k) == r_rest.subrange(i - to.len(), i - to.len() + k));
                    assert(occurs_at(r_rest, q, i - to.len()));
                } else if i == 0 {
                    assert(r.subrange(0, k) == to.subrange(0, k));
                }
            }
        }
    } else if s.len() >= m {
        let rest = s.subrange(1, s.len() as int);
        let r_rest = replaced(rest, pat, to);
        if q != pat {
            lemma_tail_without(s, q, 1);
        }
        lemma_replaced_is_without(rest, pat, to, q);
        assert forall|i: int| !occurs_at(r, q, i) by {
            if occurs_at(r, q, i) {
                if i >= 1 {
                    assert(r.subrange(i, i + k) == r_rest.subrange(i - 1, i - 1 + k));
                    assert(occurs_at(r_rest, q, i - 1));
                } else {
                    let w = q.subrange(1, k);
                    lemma_prefix_of_replaced(rest, pat, to, w);
                    assert(s.subrange(0, k) == q) by {
                        assert forall|j: int| 0 < j < k implies s[j] == q[j] by {
                            assert(rest.subrange(0, k - 1)[j - 1] == w[j - 1]);
                        }
                    }
                    assert(occurs_at(s, q, 0));
                }
            }
        }
    }
}

/// Text in which the pattern can start nowhere is copied as it is, and what
/// follows it is replaced on its own.
proof fn lemma_replaced_after_inert(w: Seq<char>, y: Seq<char>, pat: Seq<char>, to: Seq<char>)
    requires
        pat.len() > 0,
        forall|i: int| 0 <= i < w.len() ==> w[i] != pat[0],
    ensures
        replaced(w + y, pat, to) == w + replaced(y, pat, to),
    decreases w.len(),
{
    let s = w + y;
    if w.len() > 0 {
        let w_rest = w.subrange(1, w.len() as int);
        assert(s.subrange(1, s.len() as int) == w_rest + y);
        lemma_replaced_after_inert(w_rest, y, pat, to);
        if s.len() < pat.len() {
            lemma_replaced_short(w_rest + y, pat, to);
            lemma_replaced_short(y, pat, to);
        }
    }
}

/// A text that is separate from the pattern is kept wherever it stands: what
/// is before it and what is after it are replaced on their own.
pub proof fn lemma_replaced_keeps(
    x: Seq<char>,
    mid: Seq<char>,
    y: Seq<char>,
    pat: Seq<char>,
    to: Seq<char>,
)
    requires
        pat.len() > 0,
        separate(mid, pat),
    ensures
        replaced(x + mid + y, pat, to) == replaced(x, pat, to) + mid + replaced(y, pat, to),
    decreases x.len(),
{
    let s = x + mid + y;
    let m = pat.len() as int;
    if x.len() == 0 {
        let mid_rest = mid.subrange(1, mid.len() as int);
        assert(s.subrange(1, s.len() as int) == mid_rest + y);
        lemma_replaced_after_inert(mid_rest, y, pat, to);
        if s.len() >= m {
            if s.subrange(0, m) == pat {
                assert(s.subrange(0, m) == mid.subrange(0, m));
            }
        } else {
            lemma_replaced_short(mid_rest + y, pat, to);
            lemma_replaced_short(y, pat, to);
        }
    } else if x.len() >= m {
        assert(x.subrange(0, m) == s.subrange(0, m));
        if x.subrange(0, m) == pat {
            let x_rest = x.subrange(m, x.len() as int);
            assert(s.subrange(m, s.len() as int) == x_rest + mid + y);
            lemma_replaced_keeps(x_rest, mid, y, pat, to);
        } else {
            let x_rest = x.subrange(1, x.len() as int);
            assert(s.subrange(1, s.len() as int) == x_rest + mid + y);
            lemma_replaced_keeps(x_rest, mid, y, pat, to);
        }
    } else {
        let x_rest = x.subrange(1, x.len() as int);
        assert(s.subrange(1, s.len() as int) == x_rest + mid + y);
        lemma_replaced_keeps(x_rest, mid, y, pat, to);
        lemma_replaced_short(x, pat, to);
        lemma_replaced_short(x_rest, pat, to);
        if s.len() >= m && s.subrange(0, m) == pat {
            assert(s.subrange(0, m)[x.len() as int] == mid[0]);
        }
    }
}

/// No end of `pat` but the whole is also a start of it, so two occurrences of
/// `pat` never overlap.
pub open spec fn unbordered(pat: Seq<char>) -> bool {
    forall|k: int| 0 < k < pat.len() ==> pat.skip(pat.len() - k) != #[trigger] pat.take(k)
}

/// Each occurrence of an unbordered pattern is replaced by itself: what stands
/// before it and what stands after it are replaced on their own.
pub proof fn lemma_replaced_around(a: Seq<char>, b: Seq<char>, pat: Seq<char>, to: Seq<char>)
    requires
        pat.len() > 0,
        unbordered(pat),
    ensures
        replaced(a + pat + b, pat, to) == replaced(a, pat, to) + to + replaced(b, pat, to),
    decreases a.len(),
{
    let s = a + pat + b;
    let m = pat.len() as int;
    if a.len() == 0 {
        assert(s.subrange(0, m) == pat);
        assert(s.subrange(m, s.len() as int) == b);
    } else if s.subrange(0, m) == pat {
        if a.len() >= m {
            let a_rest = a.subrange(m, a.len() as int);
            assert(a.subrange(0, m) == s.subrange(0, m));
            assert(s.subrange(m, s.len() as int) == a_rest + pat + b);
            lemma_replaced_around(a_rest, b, pat, to);
        } else {
            let k = m - a.len();
            assert(pat.skip(m - k) == pat.take(k));
        }
    } else {
        let a_rest = a.subrange(1, a.len() as int);
        assert(s.subrange(1, s.len() as int) == a_rest + pat + b);
        lemma_replaced_around(a_rest, b, pat, to);
        if a.len() < m {
            lemma_replaced_short(a_rest, pat, to);
        } else {
            assert(a.subrange(0, m) == s.subrange(0, m));
        }
    }
}

} // verus!
