//! Character and sequence primitives shared by the lexer pipeline.
//!
//! The mathematical model works on `Seq<char>`; the executable code works on
//! `Vec<char>` and converts to and from `String` at the library boundary.
//! Whitespace here is the ASCII whitespace relevant to assembly source.

use vstd::prelude::*;

verus! {

/// The characters treated as whitespace by trimming and tokenization.
pub open spec fn is_space(c: char) -> bool {
    c == ' ' || c == '\t' || c == '\r' || c == '\n'
}

/// Decimal digit, as used by the register patterns `d<digit>` / `a<digit>`.
pub open spec fn is_digit(c: char) -> bool {
    48 <= c as u32 && c as u32 <= 57
}

/// ASCII lowercasing of one character; other characters are unchanged.
pub open spec fn lower_char(c: char) -> char {
    if 65 <= c as u32 && c as u32 <= 90 {
        ((c as u32 + 32) as u8) as char
    } else {
        c
    }
}

/// ASCII lowercasing of a whole sequence.
pub open spec fn lower_seq(s: Seq<char>) -> Seq<char> {
    s.map_values(|c: char| lower_char(c))
}

/// Drops leading whitespace.
pub open spec fn trim_front(s: Seq<char>) -> Seq<char>
    decreases s.len(),
{
    if s.len() > 0 && is_space(s[0]) {
        trim_front(s.drop_first())
    } else {
        s
    }
}

/// Drops trailing whitespace.
pub open spec fn trim_back(s: Seq<char>) -> Seq<char>
    decreases s.len(),
{
    if s.len() > 0 && is_space(s.last()) {
        trim_back(s.drop_last())
    } else {
        s
    }
}

/// Drops leading and trailing whitespace.
pub open spec fn trim_seq(s: Seq<char>) -> Seq<char> {
    trim_back(trim_front(s))
}

/// Index of the first occurrence of `c` in `s`, or -1 if absent.
pub open spec fn find_char(s: Seq<char>, c: char) -> int
    decreases s.len(),
{
    if s.len() == 0 {
        -1
    } else if s[0] == c {
        0
    } else {
        let r = find_char(s.drop_first(), c);
        if r == -1 {
            -1
        } else {
            r + 1
        }
    }
}

/// Number of occurrences of `c` in `s`.
pub open spec fn count_char(s: Seq<char>, c: char) -> int
    decreases s.len(),
{
    if s.len() == 0 {
        0
    } else {
        count_char(s.drop_last(), c) + if s.last() == c { 1int } else { 0int }
    }
}

/// Literal, leftmost, non-overlapping replacement of `pat` by `rep`.
/// An empty pattern never matches.
pub open spec fn replace_all(s: Seq<char>, pat: Seq<char>, rep: Seq<char>) -> Seq<char>
    decreases s.len(),
{
    if pat.len() == 0 || s.len() < pat.len() {
        s
    } else if s.take(pat.len() as int) == pat {
        rep + replace_all(s.skip(pat.len() as int), pat, rep)
    } else {
        seq![s[0]] + replace_all(s.drop_first(), pat, rep)
    }
}

/// Scan state of a plain split on one separator: pieces already emitted and
/// the piece in progress.
pub open spec fn split_char_state(s: Seq<char>, sep: char) -> (Seq<Seq<char>>, Seq<char>)
    decreases s.len(),
{
    if s.len() == 0 {
        (Seq::empty(), Seq::empty())
    } else {
        let (ps, cur) = split_char_state(s.drop_last(), sep);
        if s.last() == sep {
            (ps.push(cur), Seq::empty())
        } else {
            (ps, cur.push(s.last()))
        }
    }
}

/// Split on every occurrence of `sep`, keeping empty pieces, as `str::split`
/// on a single character does.
pub open spec fn split_char(s: Seq<char>, sep: char) -> Seq<Seq<char>> {
    let (ps, cur) = split_char_state(s, sep);
    ps.push(cur)
}

/// Scan state of whitespace tokenization: maximal runs of non-space
/// characters emitted so far and the run in progress.
pub open spec fn ws_tokens_state(s: Seq<char>) -> (Seq<Seq<char>>, Seq<char>)
    decreases s.len(),
{
    if s.len() == 0 {
        (Seq::empty(), Seq::empty())
    } else {
        let (ts, cur) = ws_tokens_state(s.drop_last());
        if is_space(s.last()) {
            if cur.len() > 0 {
                (ts.push(cur), Seq::empty())
            } else {
                (ts, cur)
            }
        } else {
            (ts, cur.push(s.last()))
        }
    }
}

/// The whitespace-delimited tokens of `s` (no empty tokens).
pub open spec fn ws_tokens(s: Seq<char>) -> Seq<Seq<char>> {
    let (ts, cur) = ws_tokens_state(s);
    if cur.len() > 0 {
        ts.push(cur)
    } else {
        ts
    }
}

/// Drops one trailing carriage return, as line splitting does before a
/// line feed.
pub open spec fn strip_cr(s: Seq<char>) -> Seq<char> {
    if s.len() > 0 && s.last() == '\r' {
        s.drop_last()
    } else {
        s
    }
}

/// Scan state of physical-line splitting.
pub open spec fn split_lines_state(s: Seq<char>) -> (Seq<Seq<char>>, Seq<char>)
    decreases s.len(),
{
    if s.len() == 0 {
        (Seq::empty(), Seq::empty())
    } else {
        let (ls, cur) = split_lines_state(s.drop_last());
        if s.last() == '\n' {
            (ls.push(strip_cr(cur)), Seq::empty())
        } else {
            (ls, cur.push(s.last()))
        }
    }
}

/// The physical lines of `s`: split at `'\n'`, one `'\r'` stripped before
/// each line feed, and no empty final line after a trailing line feed.
pub open spec fn split_lines(s: Seq<char>) -> Seq<Seq<char>> {
    let (ls, cur) = split_lines_state(s);
    if cur.len() > 0 {
        ls.push(cur)
    } else {
        ls
    }
}

/// Joins `parts` with a single `sep` between consecutive parts.
pub open spec fn join_with(parts: Seq<Seq<char>>, sep: char) -> Seq<char>
    decreases parts.len(),
{
    if parts.len() == 0 {
        Seq::empty()
    } else if parts.len() == 1 {
        parts[0]
    } else {
        parts[0] + seq![sep] + join_with(parts.drop_first(), sep)
    }
}

/// Relies on std's `String::push`: appends one character at the end of the
/// string.
#[verifier::external_body]
pub fn push_char(s: &mut String, c: char)
    ensures
        final(s)@ == old(s)@.push(c),
{
    s.push(c)
}

/// Executable test for [`is_space`].
pub fn is_space_x(c: char) -> (r: bool)
    ensures
        r == is_space(c),
{
    c == ' ' || c == '\t' || c == '\r' || c == '\n'
}

/// Executable ASCII lowercasing of one character.
pub fn lower_char_x(c: char) -> (r: char)
    ensures
        r == lower_char(c),
{
    let u: u32 = c as u32;
    if 65 <= u && u <= 90 {
        ((u + 32) as u8) as char
    } else {
        c
    }
}

/// The characters of `s`, in order.
pub fn chars_of(s: &str) -> (v: Vec<char>)
    ensures
        v@ == s@,
{
    let n = s.unicode_len();
    let mut v: Vec<char> = Vec::new();
    let mut i: usize = 0;
    while i < n
        invariant
            n == s@.len(),
            i <= n,
            v@ == s@.take(i as int),
        decreases n - i,
    {
        v.push(s.get_char(i));
        i = i + 1;
        proof {
            assert(s@.take(i as int) =~= s@.take(i as int - 1).push(s@[i as int - 1]));
        }
    }
    proof {
        assert(s@.take(n as int) =~= s@);
    }
    v
}

/// A `String` holding exactly the characters of `v`.
pub fn string_of(v: &Vec<char>) -> (s: String)
    ensures
        s@ == v@,
{
    let mut s = String::new();
    let mut i: usize = 0;
    while i < v.len()
        invariant
            i <= v@.len(),
            s@ == v@.take(i as int),
        decreases v@.len() - i,
    {
        push_char(&mut s, v[i]);
        i = i + 1;
        proof {
            assert(v@.take(i as int) =~= v@.take(i as int - 1).push(v@[i as int - 1]));
        }
    }
    proof {
        assert(v@.take(v@.len() as int) =~= v@);
    }
    s
}

/// Copies `v[i..j]` into a fresh vector.
pub fn subvec(v: &Vec<char>, i: usize, j: usize) -> (r: Vec<char>)
    requires
        i <= j <= v@.len(),
    ensures
        r@ == v@.subrange(i as int, j as int),
{
    let mut r: Vec<char> = Vec::new();
    let mut k: usize = i;
    while k < j
        invariant
            i <= k <= j <= v@.len(),
            r@ == v@.subrange(i as int, k as int),
        decreases j - k,
    {
        r.push(v[k]);
        k = k + 1;
        proof {
            assert(v@.subrange(i as int, k as int) =~= v@.subrange(i as int, k as int - 1).push(
                v@[k as int - 1],
            ));
        }
    }
    r
}

pub proof fn lemma_trim_front_skip(s: Seq<char>, i: int)
    requires
        0 <= i <= s.len(),
        forall|j: int| 0 <= j < i ==> is_space(s[j]),
    ensures
        trim_front(s) == trim_front(s.skip(i)),
    decreases i,
{
    if i > 0 {
        assert(is_space(s[0]));
        assert(trim_front(s) == trim_front(s.drop_first()));
        lemma_trim_front_skip(s.drop_first(), i - 1);
        assert(s.drop_first().skip(i - 1) =~= s.skip(i));
    } else {
        assert(s.skip(0) =~= s);
    }
}

pub proof fn lemma_trim_back_take(s: Seq<char>, h: int)
    requires
        0 <= h <= s.len(),
        forall|j: int| h <= j < s.len() ==> is_space(s[j]),
    ensures
        trim_back(s) == trim_back(s.take(h)),
    decreases s.len() - h,
{
    if h < s.len() {
        assert(is_space(s.last()));
        assert(trim_back(s) == trim_back(s.drop_last()));
        assert(s.drop_last() =~= s.take(s.len() - 1));
        lemma_trim_back_take(s.take(s.len() - 1), h);
        assert(s.take(s.len() - 1).take(h) =~= s.take(h));
    } else {
        assert(s.take(h) =~= s);
    }
}

/// Trimming removes characters only from the ends: the result is a subrange.
pub proof fn lemma_trim_front_len(s: Seq<char>)
    ensures
        trim_front(s).len() <= s.len(),
        trim_front(s).len() > 0 ==> !is_space(trim_front(s)[0]),
    decreases s.len(),
{
    if s.len() > 0 && is_space(s[0]) {
        lemma_trim_front_len(s.drop_first());
    }
}

pub proof fn lemma_trim_back_len(s: Seq<char>)
    ensures
        trim_back(s).len() <= s.len(),
        trim_back(s).len() > 0 ==> !is_space(trim_back(s).last()),
    decreases s.len(),
{
    if s.len() > 0 && is_space(s.last()) {
        lemma_trim_back_len(s.drop_last());
    }
}

pub proof fn lemma_trim_len(s: Seq<char>)
    ensures
        trim_seq(s).len() <= s.len(),
    decreases s.len(),
{
    lemma_trim_front_len(s);
    lemma_trim_back_len(trim_front(s));
}

/// A sequence that neither starts nor ends in whitespace trims to itself, so
/// trimming is idempotent.
pub proof fn lemma_trim_idem(s: Seq<char>)
    ensures
        trim_seq(trim_seq(s)) == trim_seq(s),
{
    let t = trim_seq(s);
    lemma_trim_front_len(s);
    lemma_trim_back_len(trim_front(s));
    if t.len() > 0 {
        lemma_trim_back_keeps_front(trim_front(s));
        assert(!is_space(t[0]));
        assert(trim_front(t) == t);
        assert(trim_back(t) == t);
    } else {
        assert(trim_front(t) == t);
        assert(trim_back(t) == t);
    }
}

/// Trimming the back keeps the first character when the result is nonempty.
pub proof fn lemma_trim_back_keeps_front(s: Seq<char>)
    ensures
        trim_back(s).len() > 0 ==> trim_back(s)[0] == s[0],
    decreases s.len(),
{
    if s.len() > 0 && is_space(s.last()) {
        lemma_trim_back_keeps_front(s.drop_last());
    }
}

/// Trims `v` on both ends.
pub fn trim_vec(v: &Vec<char>) -> (r: Vec<char>)
    ensures
        r@ == trim_seq(v@),
{
    let n = v.len();
    let mut lo: usize = 0;
    while lo < n && is_space_x(v[lo])
        invariant
            n == v@.len(),
            lo <= n,
            forall|j: int| 0 <= j < lo ==> is_space(v@[j]),
        decreases n - lo,
    {
        lo = lo + 1;
    }
    proof {
        lemma_trim_front_skip(v@, lo as int);
    }
    if lo == n {
        proof {
            assert(v@.skip(lo as int) =~= Seq::<char>::empty());
            assert(trim_front(v@) =~= Seq::<char>::empty());
        }
        let r: Vec<char> = Vec::new();
        return r;
    }
    // v[lo] is not whitespace, so trim_front(v@) == v@.skip(lo)
    proof {
        assert(v@.skip(lo as int)[0] == v@[lo as int]);
        assert(trim_front(v@) == v@.skip(lo as int));
    }
    let mut hi: usize = n;
    while hi > lo && is_space_x(v[hi - 1])
        invariant
            lo < n == v@.len(),
            lo <= hi <= n,
            forall|j: int| hi <= j < n ==> is_space(v@[j]),
        decreases hi,
    {
        hi = hi - 1;
    }
    proof {
        let f = v@.skip(lo as int);
        assert(forall|j: int| hi - lo <= j < f.len() ==> is_space(#[trigger] f[j]));
        lemma_trim_back_take(f, hi - lo);
        assert(f.take(hi - lo) =~= v@.subrange(lo as int, hi as int));
        // the last kept character is not whitespace, so trim_back is identity
        assert(!is_space(v@[hi - 1]));
        assert(v@.subrange(lo as int, hi as int).last() == v@[hi - 1]);
        assert(trim_back(v@.subrange(lo as int, hi as int)) == v@.subrange(lo as int, hi as int));
    }
    subvec(v, lo, hi)
}

/// Views of a sequence of character vectors, elementwise.
pub open spec fn vcs_view(l: Seq<Vec<char>>) -> Seq<Seq<char>> {
    Seq::new(
        l.len(),
        |i: int|
            if 0 <= i < l.len() {
                l[i]@
            } else {
                Seq::empty()
            },
    )
}

pub proof fn lemma_vcs_view_push(l: Seq<Vec<char>>, v: Vec<char>)
    ensures
        vcs_view(l.push(v)) == vcs_view(l).push(v@),
{
    assert(vcs_view(l.push(v)) =~= vcs_view(l).push(v@));
}

/// Splits `v` at every occurrence of `sep`, keeping empty pieces.
#[verifier::loop_isolation(false)]
pub fn split_char_x(v: &Vec<char>, sep: char) -> (r: Vec<Vec<char>>)
    ensures
        vcs_view(r@) == split_char(v@, sep),
{
    let mut pieces: Vec<Vec<char>> = Vec::new();
    let mut cur: Vec<char> = Vec::new();
    let mut i: usize = 0;
    while i < v.len()
        invariant
            i <= v@.len(),
            (vcs_view(pieces@), cur@) == split_char_state(v@.take(i as int), sep),
        decreases v@.len() - i,
    {
        let c = v[i];
        if c == sep {
            proof {
                lemma_vcs_view_push(pieces@, cur);
            }
            pieces.push(cur);
            cur = Vec::new();
        } else {
            cur.push(c);
        }
        i = i + 1;
        proof {
            assert(v@.take(i as int).drop_last() =~= v@.take(i as int - 1));
            assert(v@.take(i as int).last() == v@[i as int - 1]);
        }
    }
    proof {
        assert(v@.take(v@.len() as int) =~= v@);
        lemma_vcs_view_push(pieces@, cur);
    }
    pieces.push(cur);
    pieces
}

/// The whitespace-delimited tokens of `v`.
#[verifier::loop_isolation(false)]
pub fn ws_tokens_x(v: &Vec<char>) -> (r: Vec<Vec<char>>)
    ensures
        vcs_view(r@) == ws_tokens(v@),
{
    let mut toks: Vec<Vec<char>> = Vec::new();
    let mut cur: Vec<char> = Vec::new();
    let mut i: usize = 0;
    while i < v.len()
        invariant
            i <= v@.len(),
            (vcs_view(toks@), cur@) == ws_tokens_state(v@.take(i as int)),
        decreases v@.len() - i,
    {
        let c = v[i];
        if is_space_x(c) {
            if cur.len() > 0 {
                proof {
                    lemma_vcs_view_push(toks@, cur);
                }
                toks.push(cur);
                cur = Vec::new();
            }
        } else {
            cur.push(c);
        }
        i = i + 1;
        proof {
            assert(v@.take(i as int).drop_last() =~= v@.take(i as int - 1));
            assert(v@.take(i as int).last() == v@[i as int - 1]);
        }
    }
    proof {
        assert(v@.take(v@.len() as int) =~= v@);
    }
    if cur.len() > 0 {
        proof {
            lemma_vcs_view_push(toks@, cur);
        }
        toks.push(cur);
    }
    toks
}

/// True when no character of `v[a..b]` is whitespace.
pub open spec fn non_space_range(s: Seq<char>, a: int, b: int) -> bool {
    forall|j: int| a <= j < b ==> !is_space(s[j])
}

/// Executable check for [`non_space_range`].
pub fn non_space_range_x(v: &Vec<char>, a: usize, b: usize) -> (r: bool)
    requires
        a <= b <= v@.len(),
    ensures
        r == non_space_range(v@, a as int, b as int),
{
    let mut j: usize = a;
    while j < b
        invariant
            a <= j <= b <= v@.len(),
            forall|k: int| a <= k < j ==> !is_space(v@[k]),
        decreases b - j,
    {
        if is_space_x(v[j]) {
            return false;
        }
        j = j + 1;
    }
    true
}

/// Whether `c` occurs in `v`.
pub fn contains_char_x(v: &Vec<char>, c: char) -> (r: bool)
    ensures
        r == v@.contains(c),
{
    let mut j: usize = 0;
    while j < v.len()
        invariant
            j <= v@.len(),
            forall|k: int| 0 <= k < j ==> v@[k] != c,
        decreases v@.len() - j,
    {
        if v[j] == c {
            assert(v@[j as int] == c);
            return true;
        }
        j = j + 1;
    }
    false
}

/// Properties of [`find_char`]: it is the first occurrence, or -1.
pub proof fn lemma_find_char(s: Seq<char>, c: char)
    ensures
        find_char(s, c) == -1 ==> !s.contains(c),
        find_char(s, c) != -1 ==> {
            &&& 0 <= find_char(s, c) < s.len()
            &&& s[find_char(s, c)] == c
            &&& forall|j: int| 0 <= j < find_char(s, c) ==> s[j] != c
        },
    decreases s.len(),
{
    if s.len() > 0 && s[0] != c {
        let d = s.drop_first();
        lemma_find_char(d, c);
        let r = find_char(d, c);
        if r == -1 {
            assert forall|i: int| 0 <= i < s.len() implies s[i] != c by {
                if i > 0 {
                    assert(d[i - 1] == s[i]);
                    assert(!d.contains(c));
                }
            }
        } else {
            assert(s[r + 1] == d[r]);
            assert forall|j: int| 0 <= j < r + 1 implies s[j] != c by {
                if j > 0 {
                    assert(d[j - 1] == s[j]);
                }
            }
        }
    }
}

/// Position of the first occurrence of `c` in `v`, if any.
pub fn find_char_x(v: &Vec<char>, c: char) -> (r: Option<usize>)
    ensures
        r is Some ==> find_char(v@, c) == r->0 as int,
        r is None ==> find_char(v@, c) == -1,
{
    let mut j: usize = 0;
    while j < v.len()
        invariant
            j <= v@.len(),
            forall|k: int| 0 <= k < j ==> v@[k] != c,
        decreases v@.len() - j,
    {
        if v[j] == c {
            proof {
                lemma_find_char_prefix(v@, c, j as int);
            }
            return Some(j);
        }
        j = j + 1;
    }
    proof {
        lemma_find_char(v@, c);
        if find_char(v@, c) != -1 {
            assert(v@[find_char(v@, c)] == c);
        }
    }
    None
}

/// If the characters before `i` differ from `c` and `s[i] == c`, then `i` is
/// the first occurrence.
pub proof fn lemma_find_char_prefix(s: Seq<char>, c: char, i: int)
    requires
        0 <= i < s.len(),
        s[i] == c,
        forall|k: int| 0 <= k < i ==> s[k] != c,
    ensures
        find_char(s, c) == i,
    decreases i,
{
    if i > 0 {
        lemma_find_char_prefix(s.drop_first(), c, i - 1);
    }
}

/// Appending one part to a join appends a separator and the part (or is the
/// part itself when the join was empty).
pub proof fn lemma_join_push(parts: Seq<Seq<char>>, x: Seq<char>, sep: char)
    ensures
        join_with(parts.push(x), sep) == if parts.len() == 0 {
            x
        } else {
            join_with(parts, sep) + seq![sep] + x
        },
    decreases parts.len(),
{
    if parts.len() == 0 {
        assert(parts.push(x)[0] == x);
    } else {
        assert(parts.push(x).drop_first() =~= parts.drop_first().push(x));
        lemma_join_push(parts.drop_first(), x, sep);
        if parts.len() == 1 {
            assert(parts.push(x)[0] == parts[0]);
            assert(join_with(parts, sep) == parts[0]);
        } else {
            assert(join_with(parts, sep) == parts[0] + seq![sep] + join_with(
                parts.drop_first(),
                sep,
            ));
            assert(parts.push(x)[0] == parts[0]);
            assert((parts[0] + seq![sep] + (join_with(parts.drop_first(), sep) + seq![sep] + x))
                =~= (parts[0] + seq![sep] + join_with(parts.drop_first(), sep)) + seq![sep] + x);
        }
    }
}

} // verus!
