//! Character-level text primitives shared by the editor, the body format and
//! the listings. Everything here works on the `Seq<char>` view of a string:
//! what counts as whitespace, how words are counted, how text is trimmed,
//! and how numbers are written in decimal.

use vstd::prelude::*;

verus! {

// ---------------------------------------------------------------------------
// Whitespace and words
// ---------------------------------------------------------------------------

/// Unicode `White_Space`, the set `char::is_whitespace` answers for.
pub open spec fn is_ws(c: char) -> bool {
    let u = c as u32;
    ||| 9 <= u <= 13
    ||| u == 32
    ||| u == 0x85
    ||| u == 0xA0
    ||| u == 0x1680
    ||| 0x2000 <= u <= 0x200A
    ||| u == 0x2028
    ||| u == 0x2029
    ||| u == 0x202F
    ||| u == 0x205F
    ||| u == 0x3000
}

/// Whether `c` is whitespace (the same set as `char::is_whitespace`).
pub fn is_whitespace(c: char) -> (b: bool)
    ensures
        b == is_ws(c),
{
    let u = c as u32;
    (9 <= u && u <= 13) || u == 32 || u == 0x85 || u == 0xA0 || u == 0x1680 || (0x2000 <= u && u
        <= 0x200A) || u == 0x2028 || u == 0x2029 || u == 0x202F || u == 0x205F || u == 0x3000
}

/// Position `i` starts a word: a non-whitespace character at the start of
/// the text or right after whitespace.
pub open spec fn word_start(s: Seq<char>, i: int) -> bool {
    !is_ws(s[i]) && (i == 0 || is_ws(s[i - 1]))
}

/// Number of maximal runs of non-whitespace characters: what
/// `split_whitespace().count()` counts.
pub open spec fn words_in(s: Seq<char>) -> nat
    decreases s.len(),
{
    if s.len() == 0 {
        0
    } else {
        words_in(s.drop_last()) + if word_start(s, s.len() - 1) {
            1nat
        } else {
            0nat
        }
    }
}

/// A word needs a character of its own, so there are never more words than
/// characters.
pub proof fn lemma_words_le_len(s: Seq<char>)
    ensures
        words_in(s) <= s.len(),
    decreases s.len(),
{
    if s.len() > 0 {
        lemma_words_le_len(s.drop_last());
    }
}

/// Word counting over a prefix looks only at the prefix.
pub proof fn lemma_words_take_step(s: Seq<char>, i: int)
    requires
        0 <= i < s.len(),
    ensures
        words_in(s.take(i + 1)) == words_in(s.take(i)) + if word_start(s, i) {
            1nat
        } else {
            0nat
        },
{
    assert(s.take(i + 1).drop_last() =~= s.take(i));
}

/// Counts the words of `v` (runs of non-whitespace characters).
pub fn count_words_chars(v: &[char]) -> (n: usize)
    ensures
        n == words_in(v@),
{
    let mut n: usize = 0;
    let mut i: usize = 0;
    while i < v.len()
        invariant
            0 <= i <= v.len(),
            n == words_in(v@.take(i as int)),
            n <= i,
        decreases v.len() - i,
    {
        proof {
            lemma_words_take_step(v@, i as int);
        }
        let starts = !is_whitespace(v[i]) && (i == 0 || is_whitespace(v[i - 1]));
        if starts {
            n = n + 1;
        }
        i = i + 1;
    }
    assert(v@.take(v.len() as int) =~= v@);
    n
}

/// Counts the words of `s`, as `s.split_whitespace().count()` does.
pub fn count_words(s: &str) -> (n: usize)
    ensures
        n == words_in(s@),
{
    let v = chars_of(s);
    count_words_chars(v.as_slice())
}

// ---------------------------------------------------------------------------
// Scanning
// ---------------------------------------------------------------------------

/// First index at or after `i` that is not whitespace (or the length).
pub open spec fn skip_ws(s: Seq<char>, i: int) -> int
    decreases s.len() - i,
{
    if 0 <= i < s.len() && is_ws(s[i]) {
        skip_ws(s, i + 1)
    } else {
        i
    }
}

/// First index at or after `i` that is whitespace (or the length).
pub open spec fn skip_non_ws(s: Seq<char>, i: int) -> int
    decreases s.len() - i,
{
    if 0 <= i < s.len() && !is_ws(s[i]) {
        skip_non_ws(s, i + 1)
    } else {
        i
    }
}

/// Walking back from `j` while the character before it is whitespace,
/// never below `lo`.
pub open spec fn back_ws(s: Seq<char>, lo: int, j: int) -> int
    decreases j - lo,
{
    if lo < j <= s.len() && is_ws(s[j - 1]) {
        back_ws(s, lo, j - 1)
    } else {
        j
    }
}

/// Walking back from `j` while the character before it is not whitespace,
/// never below `lo`.
pub open spec fn back_non_ws(s: Seq<char>, lo: int, j: int) -> int
    decreases j - lo,
{
    if lo < j <= s.len() && !is_ws(s[j - 1]) {
        back_non_ws(s, lo, j - 1)
    } else {
        j
    }
}

pub proof fn lemma_skip_ws_bounds(s: Seq<char>, i: int)
    requires
        0 <= i <= s.len(),
    ensures
        i <= skip_ws(s, i) <= s.len(),
        skip_ws(s, i) < s.len() ==> !is_ws(s[skip_ws(s, i)]),
        forall|k: int| i <= k < skip_ws(s, i) ==> is_ws(#[trigger] s[k]),
    decreases s.len() - i,
{
    if i < s.len() && is_ws(s[i]) {
        lemma_skip_ws_bounds(s, i + 1);
    }
}

pub proof fn lemma_skip_non_ws_bounds(s: Seq<char>, i: int)
    requires
        0 <= i <= s.len(),
    ensures
        i <= skip_non_ws(s, i) <= s.len(),
        skip_non_ws(s, i) < s.len() ==> is_ws(s[skip_non_ws(s, i)]),
        forall|k: int| i <= k < skip_non_ws(s, i) ==> !is_ws(#[trigger] s[k]),
    decreases s.len() - i,
{
    if i < s.len() && !is_ws(s[i]) {
        lemma_skip_non_ws_bounds(s, i + 1);
    }
}

pub proof fn lemma_back_ws_bounds(s: Seq<char>, lo: int, j: int)
    requires
        0 <= lo <= j <= s.len(),
    ensures
        lo <= back_ws(s, lo, j) <= j,
        back_ws(s, lo, j) > lo ==> !is_ws(s[back_ws(s, lo, j) - 1]),
        forall|k: int| back_ws(s, lo, j) <= k < j ==> is_ws(#[trigger] s[k]),
    decreases j - lo,
{
    if lo < j && is_ws(s[j - 1]) {
        lemma_back_ws_bounds(s, lo, j - 1);
    }
}

pub proof fn lemma_back_non_ws_bounds(s: Seq<char>, lo: int, j: int)
    requires
        0 <= lo <= j <= s.len(),
    ensures
        lo <= back_non_ws(s, lo, j) <= j,
        back_non_ws(s, lo, j) > lo ==> is_ws(s[back_non_ws(s, lo, j) - 1]),
        forall|k: int| back_non_ws(s, lo, j) <= k < j ==> !is_ws(#[trigger] s[k]),
    decreases j - lo,
{
    if lo < j && !is_ws(s[j - 1]) {
        lemma_back_non_ws_bounds(s, lo, j - 1);
    }
}

/// `skip_ws(s, 0)` computed by a loop.
pub fn scan_skip_ws(v: &[char], start: usize) -> (i: usize)
    requires
        start <= v.len(),
    ensures
        i as int == skip_ws(v@, start as int),
        start <= i <= v.len(),
{
    let mut i = start;
    while i < v.len() && is_whitespace(v[i])
        invariant
            start <= i <= v.len(),
            skip_ws(v@, start as int) == skip_ws(v@, i as int),
        decreases v.len() - i,
    {
        i = i + 1;
    }
    i
}

pub fn scan_skip_non_ws(v: &[char], start: usize) -> (i: usize)
    requires
        start <= v.len(),
    ensures
        i as int == skip_non_ws(v@, start as int),
        start <= i <= v.len(),
{
    let mut i = start;
    while i < v.len() && !is_whitespace(v[i])
        invariant
            start <= i <= v.len(),
            skip_non_ws(v@, start as int) == skip_non_ws(v@, i as int),
        decreases v.len() - i,
    {
        i = i + 1;
    }
    i
}

pub fn scan_back_ws(v: &[char], lo: usize, start: usize) -> (j: usize)
    requires
        lo <= start <= v.len(),
    ensures
        j as int == back_ws(v@, lo as int, start as int),
        lo <= j <= start,
{
    let mut j = start;
    while j > lo && is_whitespace(v[j - 1])
        invariant
            lo <= j <= start,
            start <= v.len(),
            back_ws(v@, lo as int, start as int) == back_ws(v@, lo as int, j as int),
        decreases j - lo,
    {
        j = j - 1;
    }
    j
}

pub fn scan_back_non_ws(v: &[char], lo: usize, start: usize) -> (j: usize)
    requires
        lo <= start <= v.len(),
    ensures
        j as int == back_non_ws(v@, lo as int, start as int),
        lo <= j <= start,
{
    let mut j = start;
    while j > lo && !is_whitespace(v[j - 1])
        invariant
            lo <= j <= start,
            start <= v.len(),
            back_non_ws(v@, lo as int, start as int) == back_non_ws(v@, lo as int, j as int),
        decreases j - lo,
    {
        j = j - 1;
    }
    j
}

// ---------------------------------------------------------------------------
// Logical lines
// ---------------------------------------------------------------------------

/// Position just after the last `'\n'` before `pos` (or 0): where the
/// logical line holding `pos` starts.
pub open spec fn line_start(s: Seq<char>, pos: int) -> int
    decreases pos,
{
    if pos <= 0 || pos > s.len() {
        0
    } else if s[pos - 1] == '\n' {
        pos
    } else {
        line_start(s, pos - 1)
    }
}

/// Position of the first `'\n'` at or after `pos` (or the length): where
/// the logical line holding `pos` ends.
pub open spec fn line_end(s: Seq<char>, pos: int) -> int
    decreases s.len() - pos,
{
    if pos < 0 || pos >= s.len() {
        s.len() as int
    } else if s[pos] == '\n' {
        pos
    } else {
        line_end(s, pos + 1)
    }
}

/// Number of `'\n'` characters in `s`.
pub open spec fn nl_count(s: Seq<char>) -> nat
    decreases s.len(),
{
    if s.len() == 0 {
        0
    } else {
        nl_count(s.drop_last()) + if s.last() == '\n' {
            1nat
        } else {
            0nat
        }
    }
}

/// There are never more newlines than characters.
pub proof fn lemma_nl_count_le(s: Seq<char>)
    ensures
        nl_count(s) <= s.len(),
    decreases s.len(),
{
    if s.len() > 0 {
        lemma_nl_count_le(s.drop_last());
    }
}

pub proof fn lemma_line_start_bounds(s: Seq<char>, pos: int)
    requires
        0 <= pos <= s.len(),
    ensures
        0 <= line_start(s, pos) <= pos,
        line_start(s, pos) > 0 ==> s[line_start(s, pos) - 1] == '\n',
        forall|k: int| line_start(s, pos) <= k < pos ==> #[trigger] s[k] != '\n',
    decreases pos,
{
    if pos > 0 && s[pos - 1] != '\n' {
        lemma_line_start_bounds(s, pos - 1);
    }
}

pub proof fn lemma_line_end_bounds(s: Seq<char>, pos: int)
    requires
        0 <= pos <= s.len(),
    ensures
        pos <= line_end(s, pos) <= s.len(),
        line_end(s, pos) < s.len() ==> s[line_end(s, pos)] == '\n',
        forall|k: int| pos <= k < line_end(s, pos) ==> #[trigger] s[k] != '\n',
    decreases s.len() - pos,
{
    if pos < s.len() && s[pos] != '\n' {
        lemma_line_end_bounds(s, pos + 1);
    }
}

/// `line_start(v, pos)` computed by a backward scan.
pub fn scan_line_start(v: &[char], pos: usize) -> (i: usize)
    requires
        pos <= v.len(),
    ensures
        i as int == line_start(v@, pos as int),
        i <= pos,
{
    let mut i = pos;
    while i > 0 && v[i - 1] != '\n'
        invariant
            i <= pos <= v.len(),
            line_start(v@, pos as int) == line_start(v@, i as int),
        decreases i,
    {
        i = i - 1;
    }
    i
}

/// `line_end(v, pos)` computed by a forward scan.
pub fn scan_line_end(v: &[char], pos: usize) -> (i: usize)
    requires
        pos <= v.len(),
    ensures
        i as int == line_end(v@, pos as int),
        pos <= i <= v.len(),
{
    let mut i = pos;
    while i < v.len() && v[i] != '\n'
        invariant
            pos <= i <= v.len(),
            line_end(v@, pos as int) == line_end(v@, i as int),
        decreases v.len() - i,
    {
        i = i + 1;
    }
    i
}

/// Counts the `'\n'` characters of `v`.
pub fn count_newlines(v: &[char]) -> (n: usize)
    ensures
        n == nl_count(v@),
{
    let mut n: usize = 0;
    let mut i: usize = 0;
    while i < v.len()
        invariant
            i <= v.len(),
            n == nl_count(v@.take(i as int)),
            n <= i,
        decreases v.len() - i,
    {
        assert(v@.take(i + 1).drop_last() =~= v@.take(i as int));
        if v[i] == '\n' {
            n = n + 1;
        }
        i = i + 1;
    }
    assert(v@.take(v.len() as int) =~= v@);
    n
}

/// The characters of `a` followed by those of `b`.
pub fn chars_of2(a: &str, b: &str) -> (v: Vec<char>)
    ensures
        v@ == a@ + b@,
{
    let mut v = chars_of(a);
    for c in it: b.chars()
        invariant
            v@ == a@ + it.seq().take(it.index() as int),
    {
        v.push(c);
        assert(a@ + it.seq().take(it.index() + 1) =~= (a@ + it.seq().take(it.index() as int)).push(c));
    }
    assert(b@.take(b@.len() as int) =~= b@);
    v
}

// ---------------------------------------------------------------------------
// Trimming
// ---------------------------------------------------------------------------

/// Start of `s` with its leading whitespace run removed.
pub open spec fn trim_lo(s: Seq<char>) -> int {
    skip_ws(s, 0)
}

/// End of `s` with its trailing whitespace run removed (never before the
/// trimmed start).
pub open spec fn trim_hi(s: Seq<char>) -> int {
    back_ws(s, trim_lo(s), s.len() as int)
}

/// `str::trim`: the text without its leading and trailing whitespace.
pub open spec fn trim(s: Seq<char>) -> Seq<char> {
    s.subrange(trim_lo(s), trim_hi(s))
}

/// `str::trim_end`: the text without its trailing whitespace.
pub open spec fn trim_end(s: Seq<char>) -> Seq<char> {
    s.subrange(0, back_ws(s, 0, s.len() as int))
}

/// Walking back over whitespace inside `s[lo..hi]` is walking back over the
/// whitespace at the end of that slice.
pub proof fn lemma_back_ws_slice(s: Seq<char>, lo: int, hi: int, j: int)
    requires
        0 <= lo <= j <= hi <= s.len(),
    ensures
        back_ws(s, lo, j) - lo == back_ws(s.subrange(lo, hi), 0, j - lo),
    decreases j - lo,
{
    let t = s.subrange(lo, hi);
    if lo < j && is_ws(s[j - 1]) {
        assert(t[j - lo - 1] == s[j - 1]);
        lemma_back_ws_slice(s, lo, hi, j - 1);
    } else if lo < j {
        assert(t[j - lo - 1] == s[j - 1]);
    }
}

/// Trimming trimmed text changes nothing.
pub proof fn lemma_trim_trim(s: Seq<char>)
    ensures
        trim(trim(s)) == trim(s),
{
    let lo = trim_lo(s);
    let hi = trim_hi(s);
    lemma_skip_ws_bounds(s, 0);
    lemma_back_ws_bounds(s, lo, s.len() as int);
    let t = trim(s);
    if t.len() > 0 {
        assert(t[0] == s[lo]);
        assert(!is_ws(t[0]));
        assert(skip_ws(t, 0) == 0);
        assert(t[t.len() - 1] == s[hi - 1]);
        assert(back_ws(t, 0, t.len() as int) == t.len());
    }
    assert(trim(t) =~= t);
}

/// Index range of the trimmed text.
pub fn trim_range(v: &[char]) -> (r: (usize, usize))
    ensures
        r.0 as int == trim_lo(v@),
        r.1 as int == trim_hi(v@),
        r.0 <= r.1 <= v.len(),
{
    let lo = scan_skip_ws(v, 0);
    let hi = scan_back_ws(v, lo, v.len());
    (lo, hi)
}

/// `s.trim().to_string()`.
pub fn trimmed(s: &str) -> (r: String)
    ensures
        r@ == trim(s@),
{
    let v = chars_of(s);
    let (lo, hi) = trim_range(v.as_slice());
    string_of_range(v.as_slice(), lo, hi)
}

/// Whether `s.trim().is_empty()`.
pub fn is_blank(s: &str) -> (b: bool)
    ensures
        b == (trim(s@).len() == 0),
{
    let v = chars_of(s);
    let (lo, hi) = trim_range(v.as_slice());
    lo == hi
}

/// `a.trim() == b.trim()`.
pub fn trimmed_eq(a: &str, b: &str) -> (r: bool)
    ensures
        r == (trim(a@) == trim(b@)),
{
    let va = chars_of(a);
    let vb = chars_of(b);
    let (alo, ahi) = trim_range(va.as_slice());
    let (blo, bhi) = trim_range(vb.as_slice());
    range_eq(va.as_slice(), alo, ahi, vb.as_slice(), blo, bhi)
}

/// Whether two index ranges hold the same characters.
pub fn range_eq(a: &[char], alo: usize, ahi: usize, b: &[char], blo: usize, bhi: usize) -> (r:
    bool)
    requires
        alo <= ahi <= a.len(),
        blo <= bhi <= b.len(),
    ensures
        r == (a@.subrange(alo as int, ahi as int) == b@.subrange(blo as int, bhi as int)),
{
    if ahi - alo != bhi - blo {
        proof {
            assert(a@.subrange(alo as int, ahi as int).len() != b@.subrange(
                blo as int,
                bhi as int,
            ).len());
        }
        return false;
    }
    let n = ahi - alo;
    let mut k: usize = 0;
    while k < n
        invariant
            k <= n,
            n == ahi - alo,
            n == bhi - blo,
            alo <= ahi <= a.len(),
            blo <= bhi <= b.len(),
            forall|t: int|
                0 <= t < k ==> #[trigger] a@.subrange(alo as int, ahi as int)[t] == b@.subrange(
                    blo as int,
                    bhi as int,
                )[t],
        decreases n - k,
    {
        if a[alo + k] != b[blo + k] {
            proof {
                assert(a@.subrange(alo as int, ahi as int)[k as int] != b@.subrange(
                    blo as int,
                    bhi as int,
                )[k as int]);
            }
            return false;
        }
        k = k + 1;
    }
    assert(a@.subrange(alo as int, ahi as int) =~= b@.subrange(blo as int, bhi as int));
    true
}

/// Whether two character slices are equal.
pub fn chars_eq(a: &[char], b: &[char]) -> (r: bool)
    ensures
        r == (a@ == b@),
{
    let r = range_eq(a, 0, a.len(), b, 0, b.len());
    assert(a@.subrange(0, a.len() as int) =~= a@);
    assert(b@.subrange(0, b.len() as int) =~= b@);
    r
}

/// Whether two strings hold the same characters.
pub fn str_eq(a: &str, b: &str) -> (r: bool)
    ensures
        r == (a@ == b@),
{
    let va = chars_of(a);
    let vb = chars_of(b);
    chars_eq(va.as_slice(), vb.as_slice())
}

// ---------------------------------------------------------------------------
// Ordering
// ---------------------------------------------------------------------------

/// Lexicographic order of character sequences by code point. This is the
/// byte order of their UTF-8 encodings, the order `String` compares by.
pub open spec fn seq_lt(a: Seq<char>, b: Seq<char>) -> bool
    decreases a.len(),
{
    if a.len() == 0 {
        b.len() > 0
    } else if b.len() == 0 {
        false
    } else if a[0] != b[0] {
        a[0] < b[0]
    } else {
        seq_lt(a.drop_first(), b.drop_first())
    }
}

pub proof fn lemma_seq_lt_irrefl(a: Seq<char>)
    ensures
        !seq_lt(a, a),
    decreases a.len(),
{
    if a.len() > 0 {
        lemma_seq_lt_irrefl(a.drop_first());
    }
}

pub proof fn lemma_seq_lt_trans(a: Seq<char>, b: Seq<char>, c: Seq<char>)
    requires
        seq_lt(a, b),
        seq_lt(b, c),
    ensures
        seq_lt(a, c),
    decreases a.len(),
{
    if a.len() > 0 && b.len() > 0 && c.len() > 0 && a[0] == b[0] && b[0] == c[0] {
        lemma_seq_lt_trans(a.drop_first(), b.drop_first(), c.drop_first());
    }
}

pub proof fn lemma_seq_lt_total(a: Seq<char>, b: Seq<char>)
    ensures
        a == b || seq_lt(a, b) || seq_lt(b, a),
    decreases a.len(),
{
    if a.len() > 0 && b.len() > 0 && a[0] == b[0] {
        lemma_seq_lt_total(a.drop_first(), b.drop_first());
        if a.drop_first() == b.drop_first() {
            assert(a =~= seq![a[0]] + a.drop_first());
            assert(b =~= seq![b[0]] + b.drop_first());
        }
    } else if a.len() == 0 && b.len() == 0 {
        assert(a =~= b);
    }
}

/// `seq_lt` on two strings.
pub fn str_less(a: &str, b: &str) -> (r: bool)
    ensures
        r == seq_lt(a@, b@),
{
    let va = chars_of(a);
    let vb = chars_of(b);
    let mut i: usize = 0;
    assert(a@.skip(0) =~= a@);
    assert(b@.skip(0) =~= b@);
    while i < va.len() && i < vb.len() && va[i] == vb[i]
        invariant
            i <= va.len(),
            i <= vb.len(),
            va@ == a@,
            vb@ == b@,
            seq_lt(a@, b@) == seq_lt(a@.skip(i as int), b@.skip(i as int)),
        decreases va.len() - i,
    {
        assert(a@.skip(i as int).drop_first() =~= a@.skip(i + 1));
        assert(b@.skip(i as int).drop_first() =~= b@.skip(i + 1));
        i = i + 1;
    }
    let ghost sa = a@.skip(i as int);
    let ghost sb = b@.skip(i as int);
    if i == va.len() {
        assert(sa.len() == 0);
        i < vb.len()
    } else if i == vb.len() {
        assert(sb.len() == 0);
        false
    } else {
        assert(sa[0] == va@[i as int]);
        assert(sb[0] == vb@[i as int]);
        va[i] < vb[i]
    }
}

// ---------------------------------------------------------------------------
// Building strings
// ---------------------------------------------------------------------------

/// `String::push`: appends one character.
#[verifier::external_body]
pub(crate) fn push_char(s: &mut String, c: char)
    ensures
        final(s)@ == old(s)@.push(c),
{
    s.push(c);
}

/// `String::pop`: removes and returns the last character, if any.
#[verifier::external_body]
pub(crate) fn pop_char(s: &mut String) -> (c: Option<char>)
    ensures
        old(s)@.len() == 0 ==> c.is_none() && final(s)@ == old(s)@,
        old(s)@.len() > 0 ==> c == Some(old(s)@.last()) && final(s)@ == old(s)@.drop_last(),
{
    s.pop()
}

/// Appends `t` to `s`.
pub fn push_str(s: &mut String, t: &str)
    ensures
        final(s)@ == old(s)@ + t@,
{
    s.append(t);
}

/// The characters of `s`, in order.
pub fn chars_of(s: &str) -> (v: Vec<char>)
    ensures
        v@ == s@,
{
    let mut v: Vec<char> = Vec::new();
    for c in it: s.chars()
        invariant
            v@ == it.seq().take(it.index() as int),
    {
        v.push(c);
    }
    v
}

/// A string holding `v[lo..hi]`.
pub fn string_of_range(v: &[char], lo: usize, hi: usize) -> (s: String)
    requires
        lo <= hi <= v.len(),
    ensures
        s@ == v@.subrange(lo as int, hi as int),
{
    let mut s = String::new();
    let mut i = lo;
    while i < hi
        invariant
            lo <= i <= hi <= v.len(),
            s@ == v@.subrange(lo as int, i as int),
        decreases hi - i,
    {
        push_char(&mut s, v[i]);
        assert(v@.subrange(lo as int, i + 1) =~= v@.subrange(lo as int, i as int).push(v@[i as int]));
        i = i + 1;
    }
    s
}

/// A string holding the characters of `v`.
pub fn string_of(v: &[char]) -> (s: String)
    ensures
        s@ == v@,
{
    let s = string_of_range(v, 0, v.len());
    assert(v@.subrange(0, v.len() as int) =~= v@);
    s
}

/// An owned copy of a string slice.
pub fn owned(t: &str) -> (s: String)
    ensures
        s@ == t@,
{
    String::from_str(t)
}

/// `a` followed by `b`.
pub fn concat2(a: &str, b: &str) -> (s: String)
    ensures
        s@ == a@ + b@,
{
    let mut s = owned(a);
    push_str(&mut s, b);
    s
}

/// `parts` joined with `'\n'` between them.
pub open spec fn join_nl(parts: Seq<Seq<char>>) -> Seq<char>
    decreases parts.len(),
{
    if parts.len() == 0 {
        Seq::empty()
    } else if parts.len() == 1 {
        parts[0]
    } else {
        join_nl(parts.drop_last()) + seq!['\n'] + parts.last()
    }
}

/// Appending one more part to a join.
pub proof fn lemma_join_nl_push(parts: Seq<Seq<char>>, p: Seq<char>)
    ensures
        join_nl(parts.push(p)) == if parts.len() == 0 {
            p
        } else {
            join_nl(parts) + seq!['\n'] + p
        },
{
    assert(parts.push(p).drop_last() =~= parts);
}

/// `parts` joined with `sep` between them.
pub open spec fn join_with(parts: Seq<Seq<char>>, sep: Seq<char>) -> Seq<char>
    decreases parts.len(),
{
    if parts.len() == 0 {
        Seq::empty()
    } else if parts.len() == 1 {
        parts[0]
    } else {
        join_with(parts.drop_last(), sep) + sep + parts.last()
    }
}

/// Appending one more part to a join.
pub proof fn lemma_join_with_push(parts: Seq<Seq<char>>, sep: Seq<char>, p: Seq<char>)
    ensures
        join_with(parts.push(p), sep) == if parts.len() == 0 {
            p
        } else {
            join_with(parts, sep) + sep + p
        },
{
    assert(parts.push(p).drop_last() =~= parts);
}

// ---------------------------------------------------------------------------
// Case
// ---------------------------------------------------------------------------

/// The lowercase form of `s`, as `str::to_lowercase` gives it.
pub uninterp spec fn lowercase(s: Seq<char>) -> Seq<char>;

/// `str::to_lowercase`: the lowercase form of `s` (Unicode lowercase
/// mapping). Nothing is claimed of the mapping beyond naming its result.
#[verifier::external_body]
pub(crate) fn to_lower(s: &str) -> (r: String)
    ensures
        r@ == lowercase(s@),
{
    s.to_lowercase()
}

// ---------------------------------------------------------------------------
// Decimal numbers
// ---------------------------------------------------------------------------

/// The character of a decimal digit.
pub open spec fn digit_char(d: nat) -> char {
    if d == 0 {
        '0'
    } else if d == 1 {
        '1'
    } else if d == 2 {
        '2'
    } else if d == 3 {
        '3'
    } else if d == 4 {
        '4'
    } else if d == 5 {
        '5'
    } else if d == 6 {
        '6'
    } else if d == 7 {
        '7'
    } else if d == 8 {
        '8'
    } else {
        '9'
    }
}

/// `n` written in decimal, without leading zeros: what `{}` prints for an
/// unsigned integer.
pub open spec fn dec(n: nat) -> Seq<char>
    decreases n,
{
    if n < 10 {
        seq![digit_char(n)]
    } else {
        dec(n / 10).push(digit_char(n % 10))
    }
}

/// `n` written in decimal with a leading `-` when negative: what `{}` prints
/// for a signed integer.
pub open spec fn dec_int(n: int) -> Seq<char> {
    if n < 0 {
        seq!['-'] + dec((-n) as nat)
    } else {
        dec(n as nat)
    }
}

/// `n` written with at least two digits, zero-padded: what `{:02}` prints.
pub open spec fn dec2(n: nat) -> Seq<char> {
    if n < 10 {
        seq!['0', digit_char(n)]
    } else {
        dec(n)
    }
}

fn digit(d: u64) -> (c: char)
    requires
        d < 10,
    ensures
        c == digit_char(d as nat),
{
    if d == 0 {
        '0'
    } else if d == 1 {
        '1'
    } else if d == 2 {
        '2'
    } else if d == 3 {
        '3'
    } else if d == 4 {
        '4'
    } else if d == 5 {
        '5'
    } else if d == 6 {
        '6'
    } else if d == 7 {
        '7'
    } else if d == 8 {
        '8'
    } else {
        '9'
    }
}

/// Appends `n` in decimal.
pub fn push_dec(s: &mut String, n: u64)
    ensures
        final(s)@ == old(s)@ + dec(n as nat),
    decreases n,
{
    if n >= 10 {
        push_dec(s, n / 10);
    }
    push_char(s, digit(n % 10));
    proof {
        if n >= 10 {
            assert(dec(n as nat) == dec((n / 10) as nat).push(digit_char((n % 10) as nat)));
        }
    }
    assert(final(s)@ =~= old(s)@ + dec(n as nat));
}

/// Appends a `usize` in decimal.
pub fn push_usize(s: &mut String, n: usize)
    ensures
        final(s)@ == old(s)@ + dec(n as nat),
{
    push_dec(s, n as u64);
}

/// Appends `n` in decimal, with a leading `-` when negative.
pub fn push_i64(s: &mut String, n: i64)
    ensures
        final(s)@ == old(s)@ + dec_int(n as int),
{
    if n < 0 {
        push_char(s, '-');
        let m: u64 = if n == i64::MIN {
            9223372036854775808u64
        } else {
            (-n) as u64
        };
        push_dec(s, m);
        assert(final(s)@ =~= old(s)@ + dec_int(n as int));
    } else {
        push_dec(s, n as u64);
    }
}

/// Appends `n` zero-padded to two digits.
pub fn push_dec2(s: &mut String, n: u64)
    ensures
        final(s)@ == old(s)@ + dec2(n as nat),
{
    if n < 10 {
        push_char(s, '0');
        push_char(s, digit(n));
        assert(final(s)@ =~= old(s)@ + dec2(n as nat));
    } else {
        push_dec(s, n);
    }
}

/// `n` in decimal, as a new string.
pub fn usize_string(n: usize) -> (s: String)
    ensures
        s@ == dec(n as nat),
{
    let mut s = String::new();
    push_usize(&mut s, n);
    assert(s@ =~= dec(n as nat));
    s
}

} // verus!
