//! Character-level text handling shared by every parser of the agent:
//! whitespace, trimming, lines, whitespace-separated words, and the
//! conversions between byte buffers, `str` and character vectors.
use vstd::prelude::*;

verus! {

// ---------------------------------------------------------------------------
//  Whitespace
// ---------------------------------------------------------------------------

/// The characters with the Unicode `White_Space` property.
pub open spec fn is_space(c: char) -> bool {
    let u = c as u32;
    ||| 0x09 <= u && u <= 0x0d
    ||| u == 0x20 || u == 0x85 || u == 0xa0 || u == 0x1680
    ||| 0x2000 <= u && u <= 0x200a
    ||| u == 0x2028 || u == 0x2029 || u == 0x202f || u == 0x205f || u == 0x3000
}

/// Whether `c` is a whitespace character (the Unicode `White_Space` property).
pub fn is_whitespace(c: char) -> (b: bool)
    ensures
        b == is_space(c),
{
    let u = c as u32;
    (0x09 <= u && u <= 0x0d) || u == 0x20 || u == 0x85 || u == 0xa0 || u == 0x1680 || (0x2000
        <= u && u <= 0x200a) || u == 0x2028 || u == 0x2029 || u == 0x202f || u == 0x205f || u
        == 0x3000
}

// ---------------------------------------------------------------------------
//  Trimming
// ---------------------------------------------------------------------------

/// `s` without its leading whitespace.
pub open spec fn trim_start(s: Seq<char>) -> Seq<char>
    decreases s.len(),
{
    if s.len() > 0 && is_space(s[0]) {
        trim_start(s.drop_first())
    } else {
        s
    }
}

/// `s` without its trailing whitespace.
pub open spec fn trim_end(s: Seq<char>) -> Seq<char>
    decreases s.len(),
{
    if s.len() > 0 && is_space(s.last()) {
        trim_end(s.drop_last())
    } else {
        s
    }
}

/// `s` without leading and trailing whitespace.
pub open spec fn trim(s: Seq<char>) -> Seq<char> {
    trim_end(trim_start(s))
}

proof fn lemma_trim_start_shape(s: Seq<char>)
    ensures
        trim_start(s).len() == 0 || !is_space(trim_start(s)[0]),
    decreases s.len(),
{
    if s.len() > 0 && is_space(s[0]) {
        lemma_trim_start_shape(s.drop_first());
    }
}

proof fn lemma_trim_end_shape(s: Seq<char>)
    ensures
        trim_end(s).len() <= s.len(),
        trim_end(s) == s.take(trim_end(s).len() as int),
        trim_end(s).len() == 0 || !is_space(trim_end(s).last()),
    decreases s.len(),
{
    if s.len() > 0 && is_space(s.last()) {
        lemma_trim_end_shape(s.drop_last());
        assert(s.drop_last().take(trim_end(s).len() as int) =~= s.take(trim_end(s).len() as int));
    } else {
        assert(s.take(s.len() as int) =~= s);
    }
}

/// Trimmed text has no whitespace at either end, so trimming it again
/// changes nothing.
pub proof fn lemma_trim_idempotent(s: Seq<char>)
    ensures
        trim(trim(s)) == trim(s),
        trim(s).len() == 0 || (!is_space(trim(s)[0]) && !is_space(trim(s).last())),
{
    let u = trim_start(s);
    let t = trim(s);
    lemma_trim_start_shape(s);
    lemma_trim_end_shape(u);
    if t.len() > 0 {
        assert(t[0] == u[0]);
        assert(trim_start(t) == t);
        assert(trim_end(t) == t);
    } else {
        assert(trim_start(t) == t);
    }
}

/// Bounds `(a, b)` such that `s[a..b]` is `s[lo..hi]` trimmed.
pub fn trim_bounds(s: &[char], lo: usize, hi: usize) -> (r: (usize, usize))
    requires
        lo <= hi <= s@.len(),
    ensures
        lo <= r.0 <= r.1 <= hi,
        s@.subrange(r.0 as int, r.1 as int) == trim(s@.subrange(lo as int, hi as int)),
{
    let mut a = lo;
    while a < hi && is_whitespace(s[a])
        invariant
            lo <= a <= hi <= s@.len(),
            trim_start(s@.subrange(lo as int, hi as int)) == trim_start(
                s@.subrange(a as int, hi as int),
            ),
        decreases hi - a,
    {
        assert(s@.subrange(a as int, hi as int).drop_first() =~= s@.subrange(
            a + 1,
            hi as int,
        ));
        a = a + 1;
    }
    let mut b = hi;
    while b > a && is_whitespace(s[b - 1])
        invariant
            lo <= a <= b <= hi <= s@.len(),
            trim_end(s@.subrange(a as int, hi as int)) == trim_end(
                s@.subrange(a as int, b as int),
            ),
        decreases b - a,
    {
        assert(s@.subrange(a as int, b as int).drop_last() =~= s@.subrange(
            a as int,
            b - 1,
        ));
        b = b - 1;
    }
    (a, b)
}

// ---------------------------------------------------------------------------
//  Prefixes, equality, containment
// ---------------------------------------------------------------------------

/// Whether `s` begins with `p`.
pub open spec fn starts_with(s: Seq<char>, p: Seq<char>) -> bool {
    p.len() <= s.len() && s.take(p.len() as int) == p
}

/// Whether `p` occurs in `s` as a contiguous piece.
pub open spec fn contains_piece(s: Seq<char>, p: Seq<char>) -> bool {
    exists|i: int| 0 <= i && i + p.len() <= s.len() && #[trigger] s.subrange(i, i + p.len()) == p
}

/// Whether `s[lo..hi]` equals `p`.
pub fn range_equals(s: &[char], lo: usize, hi: usize, p: &[char]) -> (b: bool)
    requires
        lo <= hi <= s@.len(),
    ensures
        b == (s@.subrange(lo as int, hi as int) == p@),
{
    if hi - lo != p.len() {
        return false;
    }
    let mut i: usize = 0;
    while i < p.len()
        invariant
            lo <= hi <= s@.len(),
            hi - lo == p@.len(),
            i <= p@.len(),
            forall|k: int| 0 <= k < i ==> s@[lo + k] == p@[k],
        decreases p.len() - i,
    {
        if s[lo + i] != p[i] {
            assert(s@.subrange(lo as int, hi as int)[i as int] != p@[i as int]);
            return false;
        }
        i = i + 1;
    }
    assert(s@.subrange(lo as int, hi as int) =~= p@);
    true
}

/// Whether `s[lo..hi]` begins with `p`.
pub fn range_starts_with(s: &[char], lo: usize, hi: usize, p: &[char]) -> (b: bool)
    requires
        lo <= hi <= s@.len(),
    ensures
        b == starts_with(s@.subrange(lo as int, hi as int), p@),
{
    if hi - lo < p.len() {
        return false;
    }
    let end = lo + p.len();
    let r = range_equals(s, lo, end, p);
    assert(s@.subrange(lo as int, hi as int).take(p@.len() as int) =~= s@.subrange(
        lo as int,
        end as int,
    ));
    r
}

/// Whether `p` occurs in `s`.
pub fn contains_chars(s: &[char], p: &[char]) -> (b: bool)
    ensures
        b == contains_piece(s@, p@),
{
    if p.len() > s.len() {
        return false;
    }
    if p.len() == 0 {
        assert(s@.subrange(0, 0int + p@.len()) =~= p@);
        return true;
    }
    let plen = p.len();
    let slen = s.len();
    let last = slen - plen;
    let mut i: usize = 0;
    while i <= last
        invariant
            last + plen == slen,
            slen == s@.len(),
            plen == p@.len(),
            p@.len() > 0,
            i <= last + 1,
            forall|k: int| 0 <= k < i ==> #[trigger] s@.subrange(k, k + p@.len()) != p@,
        decreases last + 1 - i,
    {
        if range_equals(s, i, i + plen, p) {
            return true;
        }
        i = i + 1;
    }
    assert forall|k: int| 0 <= k && k + p@.len() <= s@.len() implies #[trigger] s@.subrange(
        k,
        k + p@.len(),
    ) != p@ by {
        assert(k <= last);
    }
    false
}

// ---------------------------------------------------------------------------
//  Lines
// ---------------------------------------------------------------------------

/// The number of characters of `s` before the first `c` (all of `s` when it has none).
pub open spec fn prefix_before(s: Seq<char>, c: char) -> nat
    decreases s.len(),
{
    if s.len() == 0 {
        0
    } else if s[0] == c {
        0
    } else {
        1 + prefix_before(s.drop_first(), c)
    }
}

/// `l` without one trailing carriage return.
pub open spec fn strip_cr(l: Seq<char>) -> Seq<char> {
    if l.len() > 0 && l.last() == '\r' {
        l.drop_last()
    } else {
        l
    }
}

/// The lines of `s`: pieces ended by `\n` (a `\r` right before that `\n`
/// is dropped), and a last piece without `\n` when it is not empty.
pub open spec fn lines(s: Seq<char>) -> Seq<Seq<char>>
    decreases s.len(),
{
    if s.len() == 0 {
        seq![]
    } else {
        let k = prefix_before(s, '\n');
        if k >= s.len() {
            seq![s]
        } else {
            seq![strip_cr(s.take(k as int))] + lines(s.skip(k + 1 as int))
        }
    }
}

/// The first line of `s`, or nothing when `s` is empty.
pub open spec fn first_line(s: Seq<char>) -> Seq<char> {
    if lines(s).len() > 0 {
        lines(s)[0]
    } else {
        seq![]
    }
}

/// The first `c` of `s` is at `k` when `s[..k]` holds none and `s[k]` is one
/// (or `k` is the end of `s`).
pub proof fn lemma_prefix_before(s: Seq<char>, c: char, k: int)
    requires
        0 <= k <= s.len(),
        forall|i: int| 0 <= i < k ==> s[i] != c,
        k == s.len() || s[k] == c,
    ensures
        prefix_before(s, c) == k,
    decreases k,
{
    if k > 0 {
        lemma_prefix_before(s.drop_first(), c, k - 1);
    }
}

/// No character before the first `c` is a `c`.
pub proof fn lemma_prefix_before_excludes(s: Seq<char>, c: char)
    ensures
        prefix_before(s, c) <= s.len(),
        forall|i: int| 0 <= i < prefix_before(s, c) ==> #[trigger] s[i] != c,
    decreases s.len(),
{
    if s.len() > 0 && s[0] != c {
        lemma_prefix_before_excludes(s.drop_first(), c);
        assert forall|i: int| 0 <= i < prefix_before(s, c) implies #[trigger] s[i] != c by {
            if i > 0 {
                assert(s[i] == s.drop_first()[i - 1]);
            }
        }
    }
}

/// When `s` holds a `c`, [`prefix_before`] stops at one.
pub proof fn lemma_prefix_before_found(s: Seq<char>, c: char)
    ensures
        prefix_before(s, c) < s.len() ==> s[prefix_before(s, c) as int] == c,
    decreases s.len(),
{
    if s.len() > 0 && s[0] != c {
        lemma_prefix_before_found(s.drop_first(), c);
        if prefix_before(s, c) < s.len() {
            assert(s[prefix_before(s, c) as int] == s.drop_first()[prefix_before(s.drop_first(), c) as int]);
        }
    }
}

/// No `c` among the first `k` characters puts the first `c` at or after `k`.
pub proof fn lemma_prefix_before_at_least(s: Seq<char>, c: char, k: int)
    requires
        0 <= k <= s.len(),
        forall|i: int| 0 <= i < k ==> s[i] != c,
    ensures
        prefix_before(s, c) >= k,
    decreases k,
{
    if k > 0 {
        lemma_prefix_before_at_least(s.drop_first(), c, k - 1);
    }
}

/// A line ended by CR LF is the first line, without its line end.
pub proof fn lemma_first_line_crlf(l: Seq<char>, rest: Seq<char>)
    requires
        forall|i: int| 0 <= i < l.len() ==> l[i] != '\n',
    ensures
        first_line(l + seq!['\r', '\n'] + rest) == l,
{
    let s = l + seq!['\r', '\n'] + rest;
    assert forall|i: int| 0 <= i < l.len() + 1 implies s[i] != '\n' by {
        if i < l.len() {
            assert(s[i] == l[i]);
        }
    }
    lemma_prefix_before(s, '\n', l.len() + 1int);
    assert(s.take(l.len() + 1int) =~= l.push('\r'));
    assert(l.push('\r').drop_last() =~= l);
}

/// A text is read line by line: a piece without `\n`, ended by `\n`, is
/// its first line (without a carriage return just before the `\n`), and the
/// lines after it are those of the rest; a non-empty text without `\n` is one
/// line.
pub proof fn lemma_lines_step(l: Seq<char>, rest: Seq<char>)
    requires
        forall|i: int| 0 <= i < l.len() ==> l[i] != '\n',
    ensures
        lines(l + seq!['\n'] + rest) == seq![
            if l.len() > 0 && l.last() == '\r' {
                l.drop_last()
            } else {
                l
            },
        ] + lines(rest),
        l.len() > 0 ==> lines(l) == seq![l],
{
    let s = l + seq!['\n'] + rest;
    assert forall|i: int| 0 <= i < l.len() implies s[i] != '\n' by {
        assert(s[i] == l[i]);
    }
    lemma_prefix_before(s, '\n', l.len() as int);
    assert(s.take(l.len() as int) =~= l);
    assert(s.skip(l.len() + 1int) =~= rest);
    lemma_prefix_before(l, '\n', l.len() as int);
}

/// The position of the first `c` in `s[lo..hi]`, or `hi` when there is none.
pub fn find_char(s: &[char], lo: usize, hi: usize, c: char) -> (k: usize)
    requires
        lo <= hi <= s@.len(),
    ensures
        lo <= k <= hi,
        k == lo + prefix_before(s@.subrange(lo as int, hi as int), c),
{
    let mut k = lo;
    while k < hi && s[k] != c
        invariant
            lo <= k <= hi <= s@.len(),
            forall|i: int| lo <= i < k ==> s@[i] != c,
        decreases hi - k,
    {
        k = k + 1;
    }
    proof {
        lemma_prefix_before(s@.subrange(lo as int, hi as int), c, k - lo);
    }
    k
}

/// The character ranges of the lines of `s`, in order.
pub fn line_ranges(s: &[char]) -> (r: Vec<(usize, usize)>)
    ensures
        r@.len() == lines(s@).len(),
        forall|k: int|
            #![trigger r@[k]]
            0 <= k < r@.len() ==> r@[k].0 <= r@[k].1 <= s@.len() && s@.subrange(
                r@[k].0 as int,
                r@[k].1 as int,
            ) == lines(s@)[k],
{
    let mut r: Vec<(usize, usize)> = Vec::new();
    let ghost mut done: Seq<Seq<char>> = seq![];
    let n = s.len();
    let mut i: usize = 0;
    assert(s@.skip(0) =~= s@);
    while i < n
        invariant
            n == s@.len(),
            i <= n,
            lines(s@) == done + lines(s@.skip(i as int)),
            r@.len() == done.len(),
            forall|k: int|
                #![trigger r@[k]]
                0 <= k < r@.len() ==> r@[k].0 <= r@[k].1 <= s@.len() && s@.subrange(
                    r@[k].0 as int,
                    r@[k].1 as int,
                ) == done[k],
        decreases n - i,
    {
        let ghost rest = s@.skip(i as int);
        assert(rest =~= s@.subrange(i as int, n as int));
        let j = find_char(s, i, n, '\n');
        if j == n {
            assert(lines(rest) == seq![rest]);
            let ghost old_r = r@;
            let ghost old_done = done;
            r.push((i, n));
            proof {
                done = done.push(rest);
                assert(s@.subrange(i as int, n as int) == done[done.len() - 1]);
                assert forall|k: int| #![trigger r@[k]] 0 <= k < r@.len() implies r@[k].0 <= r@[k].1 <= s@.len()
                    && s@.subrange(r@[k].0 as int, r@[k].1 as int) == done[k] by {
                    if k < old_r.len() {
                        assert(r@[k] == old_r[k]);
                        assert(done[k] == old_done[k]);
                    }
                }
                assert(s@.skip(n as int) =~= seq![]);
                assert(lines(s@) =~= done + lines(s@.skip(n as int)));
            }
            i = n;
        } else {
            let mut e = j;
            if e > i && s[e - 1] == '\r' {
                e = e - 1;
            }
            let ghost line = strip_cr(rest.take(j - i));
            assert(rest.skip(j - i + 1) =~= s@.skip(j + 1));
            assert(lines(rest) == seq![line] + lines(s@.skip(j + 1)));
            assert(s@.subrange(i as int, e as int) =~= line);
            let ghost old_r = r@;
            let ghost old_done = done;
            r.push((i, e));
            proof {
                done = done.push(line);
                assert(s@.subrange(i as int, e as int) == done[done.len() - 1]);
                assert forall|k: int| #![trigger r@[k]] 0 <= k < r@.len() implies r@[k].0 <= r@[k].1 <= s@.len()
                    && s@.subrange(r@[k].0 as int, r@[k].1 as int) == done[k] by {
                    if k < old_r.len() {
                        assert(r@[k] == old_r[k]);
                        assert(done[k] == old_done[k]);
                    }
                }
                assert(lines(s@) =~= done + lines(s@.skip(j + 1)));
            }
            i = j + 1;
        }
    }
    assert(s@.skip(n as int) =~= seq![]);
    assert(lines(s@) =~= done);
    r
}

// ---------------------------------------------------------------------------
//  Whitespace-separated words
// ---------------------------------------------------------------------------

/// The number of leading characters of `s` before the first whitespace.
pub open spec fn word_len(s: Seq<char>) -> nat
    decreases s.len(),
{
    if s.len() == 0 || is_space(s[0]) {
        0
    } else {
        1 + word_len(s.drop_first())
    }
}

/// A word is no longer than the text it starts, and a text that starts with
/// a non-whitespace character starts with a non-empty word.
pub proof fn lemma_word_len_bounds(s: Seq<char>)
    ensures
        word_len(s) <= s.len(),
        s.len() > 0 && !is_space(s[0]) ==> word_len(s) >= 1,
    decreases s.len(),
{
    if s.len() > 0 && !is_space(s[0]) {
        lemma_word_len_bounds(s.drop_first());
    }
}

/// The maximal non-empty runs of non-whitespace characters of `s`, in order.
pub open spec fn words(s: Seq<char>) -> Seq<Seq<char>>
    decreases s.len(),
{
    if s.len() == 0 {
        seq![]
    } else if is_space(s[0]) {
        words(s.drop_first())
    } else {
        proof {
            lemma_word_len_bounds(s);
        }
        seq![s.take(word_len(s) as int)] + words(s.skip(word_len(s) as int))
    }
}

proof fn lemma_word_len(s: Seq<char>, k: int)
    requires
        0 <= k <= s.len(),
        forall|i: int| 0 <= i < k ==> !is_space(s[i]),
        k == s.len() || is_space(s[k]),
    ensures
        word_len(s) == k,
    decreases k,
{
    if k > 0 {
        lemma_word_len(s.drop_first(), k - 1);
    }
}

proof fn lemma_word_chars(s: Seq<char>)
    ensures
        forall|i: int| 0 <= i < word_len(s) ==> !is_space(#[trigger] s[i]),
    decreases s.len(),
{
    lemma_word_len_bounds(s);
    if s.len() > 0 && !is_space(s[0]) {
        lemma_word_chars(s.drop_first());
        assert forall|i: int| 0 <= i < word_len(s) implies !is_space(#[trigger] s[i]) by {
            if i > 0 {
                assert(s[i] == s.drop_first()[i - 1]);
            }
        }
    }
}

/// Every word is non-empty and holds no whitespace.
pub proof fn lemma_words_shape(s: Seq<char>)
    ensures
        forall|k: int|
            0 <= k < words(s).len() ==> #[trigger] words(s)[k].len() > 0 && forall|i: int|
                0 <= i < words(s)[k].len() ==> !is_space(words(s)[k][i]),
    decreases s.len(),
{
    if s.len() == 0 {
    } else if is_space(s[0]) {
        lemma_words_shape(s.drop_first());
        assert(words(s) == words(s.drop_first()));
    } else {
        let w = word_len(s);
        lemma_word_len_bounds(s);
        lemma_word_chars(s);
        lemma_words_shape(s.skip(w as int));
        let rest = words(s.skip(w as int));
        assert(words(s) == seq![s.take(w as int)] + rest);
        assert forall|k: int| 0 <= k < words(s).len() implies #[trigger] words(s)[k].len() > 0
            && forall|i: int| 0 <= i < words(s)[k].len() ==> !is_space(words(s)[k][i]) by {
            if k == 0 {
                assert(words(s)[0] == s.take(w as int));
                assert forall|i: int| 0 <= i < words(s)[k].len() implies !is_space(
                    words(s)[k][i],
                ) by {
                    assert(words(s)[k][i] == s[i]);
                }
            } else {
                assert(words(s)[k] == rest[k - 1]);
            }
        }
    }
}

/// Whitespace before a text adds no words.
pub proof fn lemma_words_skip_space(c: char, b: Seq<char>)
    requires
        is_space(c),
    ensures
        words(seq![c] + b) == words(b),
{
    assert((seq![c] + b).drop_first() =~= b);
}

/// A run of non-whitespace followed by whitespace is the first word.
pub proof fn lemma_words_cons(a: Seq<char>, c: char, b: Seq<char>)
    requires
        a.len() > 0,
        forall|i: int| 0 <= i < a.len() ==> !is_space(#[trigger] a[i]),
        is_space(c),
    ensures
        words(a + seq![c] + b) == seq![a] + words(seq![c] + b),
{
    let s = a + seq![c] + b;
    assert forall|i: int| 0 <= i < a.len() implies !is_space(#[trigger] s[i]) by {
        assert(s[i] == a[i]);
    }
    lemma_word_len(s, a.len() as int);
    assert(s.take(a.len() as int) =~= a);
    assert(s.skip(a.len() as int) =~= seq![c] + b);
}

/// A text of non-whitespace alone is one word.
pub proof fn lemma_words_single(a: Seq<char>)
    requires
        a.len() > 0,
        forall|i: int| 0 <= i < a.len() ==> !is_space(#[trigger] a[i]),
    ensures
        words(a) == seq![a],
{
    lemma_word_len(a, a.len() as int);
    assert(a.take(a.len() as int) =~= a);
    assert(a.skip(a.len() as int) =~= Seq::<char>::empty());
    assert(words(Seq::<char>::empty()) == Seq::<Seq<char>>::empty());
    assert(words(a) =~= seq![a]);
}

/// The first word of a text that starts with `k` non-whitespace characters
/// holds at least those `k`.
pub proof fn lemma_first_word_prefix(x: Seq<char>, k: int)
    requires
        0 < k <= x.len(),
        forall|i: int| 0 <= i < k ==> !is_space(#[trigger] x[i]),
    ensures
        words(x).len() > 0,
        words(x)[0] == x.take(word_len(x) as int),
        k <= word_len(x) <= x.len(),
    decreases k,
{
    lemma_word_len_bounds(x);
    if k > 1 {
        let d = x.drop_first();
        assert forall|i: int| 0 <= i < k - 1 implies !is_space(#[trigger] d[i]) by {
            assert(d[i] == x[i + 1]);
        }
        lemma_first_word_prefix(d, k - 1);
    }
}

/// Trimming keeps one contiguous piece of the text and drops only
/// whitespace around it.
pub proof fn lemma_trim_piece(s: Seq<char>)
    ensures
        exists|i: int, j: int|
            0 <= i <= j <= s.len() && #[trigger] s.subrange(i, j) == trim(s) && (forall|k: int|
                0 <= k < i ==> is_space(s[k])) && (forall|k: int| j <= k < s.len() ==> is_space(s[k])),
{
    let (i, j) = lemma_trim_bounds(s);
    assert(s.subrange(i, j) == trim(s));
}

/// Where the trimmed text lies in `s`, with only whitespace around it.
pub proof fn lemma_trim_bounds(s: Seq<char>) -> (r: (int, int))
    ensures
        0 <= r.0 <= r.1 <= s.len(),
        s.subrange(r.0, r.1) == trim(s),
        forall|k: int| 0 <= k < r.0 ==> is_space(s[k]),
        forall|k: int| r.1 <= k < s.len() ==> is_space(s[k]),
{
    let i = lemma_trim_start_at(s);
    let u = s.skip(i);
    let j = lemma_trim_end_at(u);
    assert(s.subrange(i, i + j) =~= u.take(j));
    assert forall|k: int| i + j <= k < s.len() implies is_space(s[k]) by {
        assert(s[k] == u[k - i]);
    }
    (i, i + j)
}

proof fn lemma_trim_start_at(s: Seq<char>) -> (i: int)
    ensures
        0 <= i <= s.len(),
        trim_start(s) == s.skip(i),
        forall|k: int| 0 <= k < i ==> is_space(s[k]),
    decreases s.len(),
{
    if s.len() > 0 && is_space(s[0]) {
        let i = lemma_trim_start_at(s.drop_first());
        assert(s.drop_first().skip(i) =~= s.skip(i + 1));
        assert forall|k: int| 0 <= k < i + 1 implies is_space(s[k]) by {
            if k > 0 {
                assert(s[k] == s.drop_first()[k - 1]);
            }
        }
        i + 1
    } else {
        assert(s.skip(0) =~= s);
        0
    }
}

proof fn lemma_trim_end_at(s: Seq<char>) -> (j: int)
    ensures
        0 <= j <= s.len(),
        trim_end(s) == s.take(j),
        forall|k: int| j <= k < s.len() ==> is_space(s[k]),
    decreases s.len(),
{
    if s.len() > 0 && is_space(s.last()) {
        let j = lemma_trim_end_at(s.drop_last());
        assert(s.drop_last().take(j) =~= s.take(j));
        assert forall|k: int| j <= k < s.len() implies is_space(s[k]) by {
            if k < s.len() - 1 {
                assert(s[k] == s.drop_last()[k]);
            }
        }
        j
    } else {
        assert(s.take(s.len() as int) =~= s);
        s.len() as int
    }
}

/// The character ranges of the words of `s[lo..hi]`, in order.
pub fn word_ranges(s: &[char], lo: usize, hi: usize) -> (r: Vec<(usize, usize)>)
    requires
        lo <= hi <= s@.len(),
    ensures
        r@.len() == words(s@.subrange(lo as int, hi as int)).len(),
        forall|k: int|
            #![trigger r@[k]]
            0 <= k < r@.len() ==> lo <= r@[k].0 <= r@[k].1 <= hi && s@.subrange(
                r@[k].0 as int,
                r@[k].1 as int,
            ) == words(s@.subrange(lo as int, hi as int))[k],
{
    let ghost whole = s@.subrange(lo as int, hi as int);
    let mut r: Vec<(usize, usize)> = Vec::new();
    let ghost mut done: Seq<Seq<char>> = seq![];
    let mut i: usize = lo;
    while i < hi
        invariant
            lo <= i <= hi <= s@.len(),
            whole == s@.subrange(lo as int, hi as int),
            words(whole) == done + words(s@.subrange(i as int, hi as int)),
            r@.len() == done.len(),
            forall|k: int|
                #![trigger r@[k]]
                0 <= k < r@.len() ==> lo <= r@[k].0 <= r@[k].1 <= hi && s@.subrange(
                    r@[k].0 as int,
                    r@[k].1 as int,
                ) == done[k],
        decreases hi - i,
    {
        let ghost rest = s@.subrange(i as int, hi as int);
        if is_whitespace(s[i]) {
            assert(rest.drop_first() =~= s@.subrange(i + 1, hi as int));
            i = i + 1;
        } else {
            let ghost old_done = done;
            let mut j = i;
            while j < hi && !is_whitespace(s[j])
                invariant
                    i <= j <= hi <= s@.len(),
                    forall|t: int| i <= t < j ==> !is_space(s@[t]),
                decreases hi - j,
            {
                j = j + 1;
            }
            proof {
                lemma_word_len(rest, j - i);
                assert(rest.take(j - i) =~= s@.subrange(i as int, j as int));
                assert(rest.skip(j - i) =~= s@.subrange(j as int, hi as int));
                done = done.push(s@.subrange(i as int, j as int));
                assert(s@.subrange(i as int, j as int) == done[done.len() - 1]);
                assert(words(whole) =~= done + words(s@.subrange(j as int, hi as int)));
            }
            let ghost old_r = r@;
            r.push((i, j));
            assert forall|k: int| #![trigger r@[k]] 0 <= k < r@.len() implies lo <= r@[k].0 <= r@[k].1 <= hi
                && s@.subrange(r@[k].0 as int, r@[k].1 as int) == done[k] by {
                if k < old_r.len() {
                    assert(r@[k] == old_r[k]);
                    assert(done[k] == old_done[k]);
                }
            }
            i = j;
        }
    }
    assert(s@.subrange(hi as int, hi as int) =~= seq![]);
    assert(words(whole) =~= done);
    r
}

// ---------------------------------------------------------------------------
//  Conversions
// ---------------------------------------------------------------------------

/// The characters of `s`.
pub fn chars_of(s: &str) -> (v: Vec<char>)
    ensures
        v@ == s@,
{
    let mut v: Vec<char> = Vec::new();
    for c in it: s.chars()
        invariant
            v@ == it.seq().take(it.index() as int),
    {
        v.push(c);
    }
    v
}

/// Appends `c` to `s` (std's `String::push`): the text afterwards is the
/// text before with `c` at its end.
#[verifier::external_body]
pub(crate) fn push_char(s: &mut String, c: char)
    ensures
        final(s)@ == old(s)@.push(c),
{
    s.push(c);
}

/// Appends the characters `v[lo..hi]` to `out`.
pub fn push_range(out: &mut String, v: &[char], lo: usize, hi: usize)
    requires
        lo <= hi <= v@.len(),
    ensures
        final(out)@ == old(out)@ + v@.subrange(lo as int, hi as int),
{
    let mut i = lo;
    while i < hi
        invariant
            lo <= i <= hi <= v@.len(),
            out@ == old(out)@ + v@.subrange(lo as int, i as int),
        decreases hi - i,
    {
        push_char(out, v[i]);
        assert(v@.subrange(lo as int, i + 1) =~= v@.subrange(lo as int, i as int).push(v@[i as int]));
        i = i + 1;
    }
}

/// A new string holding the characters `v[lo..hi]`.
pub fn string_of(v: &[char], lo: usize, hi: usize) -> (r: String)
    requires
        lo <= hi <= v@.len(),
    ensures
        r@ == v@.subrange(lo as int, hi as int),
{
    let mut r = String::new();
    push_range(&mut r, v, lo, hi);
    assert(r@ =~= v@.subrange(lo as int, hi as int));
    r
}

/// `s` without leading and trailing whitespace, as a new string.
pub fn trimmed(s: &str) -> (r: String)
    ensures
        r@ == trim(s@),
{
    let chars = chars_of(s);
    let (a, b) = trim_bounds(chars.as_slice(), 0, chars.len());
    assert(chars@.subrange(0, chars@.len() as int) =~= s@);
    string_of(chars.as_slice(), a, b)
}

/// What std's `String::from_utf8_lossy` makes of `bytes`: each maximal
/// invalid UTF-8 sequence replaced by U+FFFD.
pub uninterp spec fn utf8_lossy(bytes: Seq<u8>) -> Seq<char>;

/// Decodes `bytes` as UTF-8, replacing invalid sequences (std's
/// `String::from_utf8_lossy`). The result is named by `utf8_lossy`; on valid
/// UTF-8 it is the decoded text, as the function's documentation states.
#[verifier::external_body]
pub(crate) fn decode_lossy(bytes: &[u8]) -> (s: String)
    ensures
        s@ == utf8_lossy(bytes@),
        vstd::utf8::valid_utf8(bytes@) ==> s@ == vstd::utf8::decode_utf8(bytes@),
{
    String::from_utf8_lossy(bytes).into_owned()
}

/// What std's `str::to_lowercase` makes of `text` (the Unicode lowercase mapping).
pub uninterp spec fn lowercase(text: Seq<char>) -> Seq<char>;

/// The lowercase form of `s` (std's `str::to_lowercase`); the result is
/// named by `lowercase`, whose tables this library does not restate.
#[verifier::external_body]
pub(crate) fn to_lowercase(s: &str) -> (r: String)
    ensures
        r@ == lowercase(s@),
{
    s.to_lowercase()
}

} // verus!
