//! Character-level helpers for the macro text format: whitespace, trimming,
//! splitting, and decimal integers, each with the mathematical meaning it has
//! on a sequence of characters.

use vstd::prelude::*;

verus! {

/// The characters that Unicode lists as White_Space.
pub open spec fn is_ws(c: char) -> bool {
    ||| c == ' '
    ||| ('\t' <= c && c <= '\r')
    ||| c == '\u{85}'
    ||| c == '\u{A0}'
    ||| c == '\u{1680}'
    ||| ('\u{2000}' <= c && c <= '\u{200A}')
    ||| c == '\u{2028}'
    ||| c == '\u{2029}'
    ||| c == '\u{202F}'
    ||| c == '\u{205F}'
    ||| c == '\u{3000}'
}

/// Index of the first non-whitespace character at or after `i` (or the length).
pub open spec fn skip_ws(s: Seq<char>, i: int) -> int
    decreases s.len() - i,
{
    if i < 0 || i >= s.len() {
        s.len() as int
    } else if is_ws(s[i]) {
        skip_ws(s, i + 1)
    } else {
        i
    }
}

/// One past the last non-whitespace character before `j` (or zero).
pub open spec fn skip_ws_back(s: Seq<char>, j: int) -> int
    decreases j,
{
    if j <= 0 || j > s.len() {
        0
    } else if is_ws(s[j - 1]) {
        skip_ws_back(s, j - 1)
    } else {
        j
    }
}

/// `s` without leading and trailing whitespace.
pub open spec fn trim(s: Seq<char>) -> Seq<char> {
    let lo = skip_ws(s, 0);
    let hi = skip_ws_back(s, s.len() as int);
    if lo < hi {
        s.subrange(lo, hi)
    } else {
        Seq::empty()
    }
}

pub open spec fn has_prefix(s: Seq<char>, p: Seq<char>) -> bool {
    p.len() <= s.len() && s.subrange(0, p.len() as int) == p
}

pub open spec fn has_suffix(s: Seq<char>, p: Seq<char>) -> bool {
    p.len() <= s.len() && s.subrange(s.len() - p.len(), s.len() as int) == p
}

/// Position of the leftmost occurrence of `p` in `s` that starts at or after `i`.
pub open spec fn find_from(s: Seq<char>, p: Seq<char>, i: int) -> Option<int>
    decreases s.len() - i,
{
    if i < 0 || i >= s.len() || i + p.len() > s.len() {
        None
    } else if s.subrange(i, i + p.len()) == p {
        Some(i)
    } else {
        find_from(s, p, i + 1)
    }
}

pub proof fn lemma_find_from_bounds(s: Seq<char>, p: Seq<char>, i: int)
    ensures
        find_from(s, p, i) matches Some(j) ==> i <= j && j + p.len() <= s.len() && s.subrange(
            j,
            j + p.len(),
        ) == p,
    decreases s.len() - i,
{
    if !(i < 0 || i >= s.len() || i + p.len() > s.len()) && s.subrange(i, i + p.len()) != p {
        lemma_find_from_bounds(s, p, i + 1);
    }
}

/// The pieces of `s[start..]` between occurrences of `c`, scanning from `i`;
/// the current piece began at `start`.
pub open spec fn split_from(s: Seq<char>, c: char, i: int, start: int) -> Seq<Seq<char>>
    decreases s.len() - i,
{
    if i < 0 || i >= s.len() {
        seq![s.subrange(start, s.len() as int)]
    } else if s[i] == c {
        seq![s.subrange(start, i)] + split_from(s, c, i + 1, i + 1)
    } else {
        split_from(s, c, i + 1, start)
    }
}

/// `s` cut at every `c`: one more piece than there are `c`s, empty ones kept.
pub open spec fn split_char(s: Seq<char>, c: char) -> Seq<Seq<char>> {
    split_from(s, c, 0, 0)
}

/// The maximal whitespace-free runs of `s[i..]`; `start` is where the run in
/// progress began, or negative outside a run.
pub open spec fn words_from(s: Seq<char>, i: int, start: int) -> Seq<Seq<char>>
    decreases s.len() - i,
{
    if i < 0 || i >= s.len() {
        if start >= 0 {
            seq![s.subrange(start, s.len() as int)]
        } else {
            Seq::empty()
        }
    } else if is_ws(s[i]) {
        if start >= 0 {
            seq![s.subrange(start, i)] + words_from(s, i + 1, -1)
        } else {
            words_from(s, i + 1, -1)
        }
    } else {
        words_from(s, i + 1, if start >= 0 { start } else { i })
    }
}

/// The whitespace-separated words of `s`, in order.
pub open spec fn words(s: Seq<char>) -> Seq<Seq<char>> {
    words_from(s, 0, -1)
}

pub open spec fn is_digit(c: char) -> bool {
    '0' <= c && c <= '9'
}

pub open spec fn digit_value(c: char) -> nat {
    (c as u32 - '0' as u32) as nat
}

pub open spec fn digit_char(d: nat) -> char {
    if d == 0 { '0' } else if d == 1 { '1' } else if d == 2 { '2' } else if d == 3 { '3' }
    else if d == 4 { '4' } else if d == 5 { '5' } else if d == 6 { '6' } else if d == 7 { '7' }
    else if d == 8 { '8' } else { '9' }
}

pub open spec fn all_digits(s: Seq<char>) -> bool {
    forall|k: int| 0 <= k < s.len() ==> is_digit(#[trigger] s[k])
}

/// The number that a run of decimal digits denotes.
pub open spec fn digits_value(s: Seq<char>) -> nat
    decreases s.len(),
{
    if s.len() == 0 {
        0
    } else {
        digits_value(s.drop_last()) * 10 + digit_value(s.last())
    }
}

/// The decimal digits of `n`, without sign or leading zeros.
pub open spec fn dec(n: nat) -> Seq<char>
    decreases n,
{
    if n < 10 {
        seq![digit_char(n)]
    } else {
        dec(n / 10) + seq![digit_char(n % 10)]
    }
}

/// A signed integer in decimal, with a `-` for negative values.
pub open spec fn signed_dec(v: int) -> Seq<char> {
    if v < 0 {
        seq!['-'] + dec((-v) as nat)
    } else {
        dec(v as nat)
    }
}

/// The value of an unsigned decimal: an optional `+`, then at least one digit,
/// and no more than `limit`.
pub open spec fn parse_unsigned(s: Seq<char>, limit: nat) -> Option<nat> {
    let d = if s.len() > 0 && s[0] == '+' { s.drop_first() } else { s };
    if d.len() > 0 && all_digits(d) && digits_value(d) <= limit {
        Some(digits_value(d))
    } else {
        None
    }
}

/// The value of an `i32` in decimal: an optional sign, then at least one digit.
pub open spec fn parse_i32(s: Seq<char>) -> Option<i32> {
    if s.len() > 0 && s[0] == '-' {
        let d = s.drop_first();
        if d.len() > 0 && all_digits(d) && digits_value(d) <= 0x8000_0000 {
            Some((0 - digits_value(d)) as i32)
        } else {
            None
        }
    } else {
        match parse_unsigned(s, 0x7fff_ffff) {
            Some(v) => Some(v as i32),
            None => None,
        }
    }
}

pub proof fn lemma_digits_prefix_le(s: Seq<char>, k: int)
    requires
        0 <= k <= s.len(),
    ensures
        digits_value(s.subrange(0, k)) <= digits_value(s),
    decreases s.len(),
{
    if k < s.len() {
        assert(s.drop_last() =~= s.subrange(0, s.len() - 1));
        lemma_digits_prefix_le(s.drop_last(), k);
        assert(s.drop_last().subrange(0, k) =~= s.subrange(0, k));
    } else {
        assert(s.subrange(0, k) =~= s);
    }
}

pub proof fn lemma_digit_char(d: nat)
    requires
        d < 10,
    ensures
        is_digit(digit_char(d)),
        digit_value(digit_char(d)) == d,
{
}

pub proof fn lemma_dec(n: nat)
    ensures
        dec(n).len() > 0,
        all_digits(dec(n)),
        digits_value(dec(n)) == n,
    decreases n,
{
    if n < 10 {
        lemma_digit_char(n);
        assert(dec(n).drop_last() =~= Seq::<char>::empty());
        assert(digits_value(Seq::<char>::empty()) == 0);
    } else {
        lemma_dec(n / 10);
        lemma_digit_char(n % 10);
        let d = dec(n);
        assert(d.drop_last() =~= dec(n / 10));
        assert(d.last() == digit_char(n % 10));
        assert((n / 10) * 10 + n % 10 == n) by (nonlinear_arith);
        assert forall|k: int| 0 <= k < d.len() implies is_digit(#[trigger] d[k]) by {
            if k < d.len() - 1 {
                assert(d[k] == dec(n / 10)[k]);
            }
        }
    }
}

/// A signed decimal reads back as the value it was written from.
pub proof fn lemma_signed_dec(v: i32)
    requires
        v != i32::MIN,
    ensures
        parse_i32(signed_dec(v as int)) == Some(v),
        signed_dec(v as int).len() > 0,
        forall|k: int| 0 <= k < signed_dec(v as int).len() ==> !is_ws(#[trigger] signed_dec(v as int)[k]),
{
    let s = signed_dec(v as int);
    if v < 0 {
        lemma_dec((-v) as nat);
        assert(s.drop_first() =~= dec((-v) as nat));
        assert forall|k: int| 0 <= k < s.len() implies !is_ws(#[trigger] s[k]) by {
            if k > 0 {
                assert(s[k] == dec((-v) as nat)[k - 1]);
                assert(is_digit(dec((-v) as nat)[k - 1]));
            }
        }
    } else {
        lemma_dec(v as nat);
        assert(is_digit(s[0]));
        assert forall|k: int| 0 <= k < s.len() implies !is_ws(#[trigger] s[k]) by {
            assert(is_digit(s[k]));
        }
    }
}

/// An unsigned decimal reads back as the value it was written from.
pub proof fn lemma_dec_parses(n: nat, limit: nat)
    requires
        n <= limit,
    ensures
        parse_unsigned(dec(n), limit) == Some(n),
        dec(n).len() > 0,
        forall|k: int| 0 <= k < dec(n).len() ==> !is_ws(#[trigger] dec(n)[k]) && dec(n)[k] != '+',
{
    lemma_dec(n);
    assert(is_digit(dec(n)[0]));
    assert forall|k: int| 0 <= k < dec(n).len() implies !is_ws(#[trigger] dec(n)[k]) && dec(n)[k]
        != '+' by {
        assert(is_digit(dec(n)[k]));
    }
}

/// Text with no whitespace at either end is its own trim.
pub proof fn lemma_trim_unchanged(s: Seq<char>)
    requires
        s.len() > 0,
        !is_ws(s[0]),
        !is_ws(s.last()),
    ensures
        trim(s) == s,
{
    assert(s.subrange(0, s.len() as int) =~= s);
}

/// Inside a run without whitespace, the scan for words only moves on.
pub proof fn lemma_words_run(s: Seq<char>, i: int, j: int, start: int)
    requires
        0 <= start <= i <= j <= s.len(),
        forall|k: int| i <= k < j ==> !is_ws(#[trigger] s[k]),
    ensures
        words_from(s, i, start) == words_from(s, j, start),
    decreases j - i,
{
    if i < j {
        lemma_words_run(s, i + 1, j, start);
    }
}

/// Two whitespace-free words joined by one space are read back as those words.
pub proof fn lemma_two_words(a: Seq<char>, b: Seq<char>)
    requires
        a.len() > 0,
        b.len() > 0,
        forall|k: int| 0 <= k < a.len() ==> !is_ws(#[trigger] a[k]),
        forall|k: int| 0 <= k < b.len() ==> !is_ws(#[trigger] b[k]),
    ensures
        words(a + seq![' '] + b) == seq![a, b],
{
    let s = a + seq![' '] + b;
    let n = a.len() as int;
    assert forall|k: int| 1 <= k < n implies !is_ws(#[trigger] s[k]) by {
        assert(s[k] == a[k]);
    }
    assert(s[0] == a[0]);
    lemma_words_run(s, 1, n, 0);
    assert(s[n] == ' ');
    assert(s.subrange(0, n) =~= a);
    assert(s[n + 1] == b[0]);
    assert forall|k: int| n + 2 <= k < s.len() implies !is_ws(#[trigger] s[k]) by {
        assert(s[k] == b[k - n - 1]);
    }
    lemma_words_run(s, n + 2, s.len() as int, n + 1);
    assert(s.subrange(n + 1, s.len() as int) =~= b);
    assert(words_from(s, n + 1, -1) == words_from(s, n + 2, n + 1));
    assert(words(s) =~= seq![a, b]);
}

/// Between separators, the split only moves on.
pub proof fn lemma_split_run(s: Seq<char>, c: char, i: int, j: int, start: int)
    requires
        0 <= i <= j <= s.len(),
        forall|k: int| i <= k < j ==> #[trigger] s[k] != c,
    ensures
        split_from(s, c, i, start) == split_from(s, c, j, start),
    decreases j - i,
{
    if i < j {
        lemma_split_run(s, c, i + 1, j, start);
    }
}

/// Two pieces without `c`, joined by one `c`, split back into those pieces.
pub proof fn lemma_split_two(a: Seq<char>, b: Seq<char>, c: char)
    requires
        !a.contains(c),
        !b.contains(c),
    ensures
        split_char(a + seq![c] + b, c) == seq![a, b],
{
    let s = a + seq![c] + b;
    let n = a.len() as int;
    assert forall|k: int| 0 <= k < n implies #[trigger] s[k] != c by {
        assert(s[k] == a[k]);
    }
    lemma_split_run(s, c, 0, n, 0);
    assert(s[n] == c);
    assert forall|k: int| n + 1 <= k < s.len() implies #[trigger] s[k] != c by {
        assert(s[k] == b[k - n - 1]);
    }
    lemma_split_run(s, c, n + 1, s.len() as int, n + 1);
    assert(s.subrange(0, n) =~= a);
    assert(s.subrange(n + 1, s.len() as int) =~= b);
    assert(split_char(s, c) =~= seq![a, b]);
}

/// Splitting text that ends with `c` and a last piece without `c`: the
/// pieces of the text before it, then that last piece.
pub proof fn lemma_split_append(x: Seq<char>, y: Seq<char>, c: char, i: int, start: int)
    requires
        !y.contains(c),
        0 <= start <= i <= x.len(),
    ensures
        split_from(x + seq![c] + y, c, i, start) == split_from(x, c, i, start).push(y),
    decreases x.len() - i,
{
    let s = x + seq![c] + y;
    let n = x.len() as int;
    if i < n {
        assert(s[i] == x[i]);
        if x[i] == c {
            lemma_split_append(x, y, c, i + 1, i + 1);
            assert(s.subrange(start, i) =~= x.subrange(start, i));
            assert(split_from(s, c, i, start) =~= split_from(x, c, i, start).push(y));
        } else {
            lemma_split_append(x, y, c, i + 1, start);
        }
    } else {
        assert forall|k: int| n + 1 <= k < s.len() implies #[trigger] s[k] != c by {
            assert(s[k] == y[k - n - 1]);
        }
        lemma_split_run(s, c, n + 1, s.len() as int, n + 1);
        assert(s[n] == c);
        assert(s.subrange(start, n) =~= x.subrange(start, n));
        assert(s.subrange(n + 1, s.len() as int) =~= y);
        assert(split_from(s, c, i, start) =~= split_from(x, c, i, start).push(y));
    }
}

/// Text without `c` is one piece.
pub proof fn lemma_split_single(y: Seq<char>, c: char)
    requires
        !y.contains(c),
    ensures
        split_char(y, c) == seq![y],
{
    assert forall|k: int| 0 <= k < y.len() implies #[trigger] y[k] != c by {
        assert(y.contains(y[k]));
    }
    lemma_split_run(y, c, 0, y.len() as int, 0);
    assert(y.subrange(0, y.len() as int) =~= y);
}

/// The first occurrence of `p` is at `j` when no character before it (from
/// `i`) starts `p`.
pub proof fn lemma_find_at(s: Seq<char>, p: Seq<char>, i: int, j: int)
    requires
        p.len() > 0,
        0 <= i <= j,
        j + p.len() <= s.len(),
        s.subrange(j, j + p.len()) == p,
        forall|k: int| i <= k < j ==> #[trigger] s[k] != p[0],
    ensures
        find_from(s, p, i) == Some(j),
    decreases j - i,
{
    if i < j {
        assert(s.subrange(i, i + p.len())[0] == s[i]);
        lemma_find_at(s, p, i + 1, j);
    }
}

/// There is no occurrence of `p` from `i` on when no character there starts `p`.
pub proof fn lemma_find_none(s: Seq<char>, p: Seq<char>, i: int)
    requires
        p.len() > 0,
        0 <= i,
        forall|k: int| i <= k < s.len() ==> #[trigger] s[k] != p[0],
    ensures
        find_from(s, p, i) is None,
    decreases s.len() - i,
{
    if i < s.len() && i + p.len() <= s.len() {
        assert(s.subrange(i, i + p.len())[0] == s[i]);
        lemma_find_none(s, p, i + 1);
    }
}

proof fn lemma_skip_ws_lands(s: Seq<char>, i: int)
    requires
        0 <= i <= s.len(),
    ensures
        i <= skip_ws(s, i) <= s.len(),
        skip_ws(s, i) < s.len() ==> !is_ws(s[skip_ws(s, i)]),
    decreases s.len() - i,
{
    if i < s.len() && is_ws(s[i]) {
        lemma_skip_ws_lands(s, i + 1);
    }
}

proof fn lemma_skip_ws_back_lands(s: Seq<char>, j: int)
    requires
        0 <= j <= s.len(),
    ensures
        0 <= skip_ws_back(s, j) <= j,
        skip_ws_back(s, j) > 0 ==> !is_ws(s[skip_ws_back(s, j) - 1]),
    decreases j,
{
    if j > 0 && is_ws(s[j - 1]) {
        lemma_skip_ws_back_lands(s, j - 1);
    }
}

/// Trimming twice is trimming once.
pub proof fn lemma_trim_idempotent(s: Seq<char>)
    ensures
        trim(trim(s)) == trim(s),
{
    lemma_skip_ws_lands(s, 0);
    lemma_skip_ws_back_lands(s, s.len() as int);
    let t = trim(s);
    if t.len() > 0 {
        lemma_trim_unchanged(t);
    } else {
        assert(trim(t) =~= t);
    }
}

/// Whether `s[from..]` begins with `p`.
pub fn starts_at(s: &str, from: usize, p: &str) -> (r: bool)
    requires
        from <= s@.len(),
    ensures
        r == has_prefix(s@.subrange(from as int, s@.len() as int), p@),
{
    let n = s.unicode_len();
    let m = p.unicode_len();
    if m > n - from {
        return false;
    }
    let mut k: usize = 0;
    while k < m
        invariant
            n == s@.len(),
            m == p@.len(),
            from + m <= n,
            k <= m,
            forall|j: int| 0 <= j < k ==> s@[from + j] == p@[j],
        decreases m - k,
    {
        if s.get_char(from + k) != p.get_char(k) {
            assert(s@.subrange(from as int, n as int).subrange(0, m as int)[k as int] != p@[k as int]);
            return false;
        }
        k = k + 1;
    }
    assert(s@.subrange(from as int, n as int).subrange(0, m as int) =~= p@);
    true
}

/// `s` without leading and trailing whitespace.
pub fn trim_str(s: &str) -> (r: &str)
    ensures
        r@ == trim(s@),
{
    let n = s.unicode_len();
    let mut lo: usize = 0;
    while lo < n && is_ws_char(s.get_char(lo))
        invariant
            n == s@.len(),
            lo <= n,
            skip_ws(s@, 0) == skip_ws(s@, lo as int),
        decreases n - lo,
    {
        lo = lo + 1;
    }
    let mut hi: usize = n;
    while hi > 0 && is_ws_char(s.get_char(hi - 1))
        invariant
            n == s@.len(),
            hi <= n,
            skip_ws_back(s@, n as int) == skip_ws_back(s@, hi as int),
        decreases hi,
    {
        hi = hi - 1;
    }
    if lo < hi {
        s.substring_char(lo, hi)
    } else {
        let e = s.substring_char(0, 0);
        assert(e@ =~= Seq::<char>::empty());
        e
    }
}

pub fn is_ws_char(c: char) -> (r: bool)
    ensures
        r == is_ws(c),
{
    c == ' ' || ('\t' <= c && c <= '\r') || c == '\u{85}' || c == '\u{A0}' || c == '\u{1680}'
        || ('\u{2000}' <= c && c <= '\u{200A}') || c == '\u{2028}' || c == '\u{2029}'
        || c == '\u{202F}' || c == '\u{205F}' || c == '\u{3000}'
}

/// Position of the leftmost `p` in `s` at or after `from`.
pub fn find_str(s: &str, p: &str, from: usize) -> (r: Option<usize>)
    requires
        from <= s@.len(),
        p@.len() > 0,
    ensures
        match r {
            Some(i) => find_from(s@, p@, from as int) == Some(i as int),
            None => find_from(s@, p@, from as int) is None,
        },
{
    let n = s.unicode_len();
    let m = p.unicode_len();
    let mut i: usize = from;
    while m <= n - i
        invariant
            n == s@.len(),
            m == p@.len(),
            m > 0,
            from <= i <= n,
            find_from(s@, p@, from as int) == find_from(s@, p@, i as int),
        decreases n - i,
    {
        if starts_at(s, i, p) {
            assert(s@.subrange(i as int, n as int).subrange(0, m as int) =~= s@.subrange(
                i as int,
                i + m,
            ));
            return Some(i);
        }
        assert(s@.subrange(i as int, n as int).subrange(0, m as int) =~= s@.subrange(
            i as int,
            i + m,
        ));
        i = i + 1;
    }
    None
}

/// The pieces of `s` between occurrences of `c`.
pub fn split_on_char(s: &str, c: char) -> (r: Vec<&str>)
    ensures
        r@.len() == split_char(s@, c).len(),
        forall|k: int| 0 <= k < r@.len() ==> (#[trigger] r@[k])@ == split_char(s@, c)[k],
{
    let n = s.unicode_len();
    let mut out: Vec<&str> = Vec::new();
    let mut start: usize = 0;
    let mut i: usize = 0;
    let ghost mut done: Seq<Seq<char>> = Seq::empty();
    while i < n
        invariant
            n == s@.len(),
            start <= i <= n,
            split_char(s@, c) == done + split_from(s@, c, i as int, start as int),
            out@.len() == done.len(),
            forall|k: int| 0 <= k < out@.len() ==> (#[trigger] out@[k])@ == done[k],
        decreases n - i,
    {
        if s.get_char(i) == c {
            let piece = s.substring_char(start, i);
            out.push(piece);
            proof {
                assert(done + split_from(s@, c, i as int, start as int) =~= done.push(piece@)
                    + split_from(s@, c, i + 1, i + 1));
                done = done.push(piece@);
            }
            start = i + 1;
        }
        i = i + 1;
    }
    let piece = s.substring_char(start, n);
    out.push(piece);
    proof {
        assert(split_char(s@, c) =~= done.push(piece@));
    }
    out
}

/// The whitespace-separated words of `s`.
pub fn split_words(s: &str) -> (r: Vec<&str>)
    ensures
        r@.len() == words(s@).len(),
        forall|k: int| 0 <= k < r@.len() ==> (#[trigger] r@[k])@ == words(s@)[k],
{
    let n = s.unicode_len();
    let mut out: Vec<&str> = Vec::new();
    let mut in_word = false;
    let mut start: usize = 0;
    let mut i: usize = 0;
    let ghost mut done: Seq<Seq<char>> = Seq::empty();
    while i < n
        invariant
            n == s@.len(),
            i <= n,
            in_word ==> start < i,
            words(s@) == done + words_from(s@, i as int, if in_word { start as int } else { -1 }),
            out@.len() == done.len(),
            forall|k: int| 0 <= k < out@.len() ==> (#[trigger] out@[k])@ == done[k],
        decreases n - i,
    {
        if is_ws_char(s.get_char(i)) {
            if in_word {
                let w = s.substring_char(start, i);
                out.push(w);
                proof {
                    assert(done + words_from(s@, i as int, start as int) =~= done.push(w@)
                        + words_from(s@, i + 1, -1));
                    done = done.push(w@);
                }
                in_word = false;
            }
        } else if !in_word {
            in_word = true;
            start = i;
        }
        i = i + 1;
    }
    if in_word {
        let w = s.substring_char(start, n);
        out.push(w);
        proof {
            assert(words(s@) =~= done.push(w@));
        }
    } else {
        assert(words(s@) =~= done);
    }
    out
}

/// The value of a run of digits, if `s` is one and its value is at most `limit`.
pub fn parse_digits(s: &str, from: usize, limit: u64) -> (r: Option<u64>)
    requires
        from <= s@.len(),
    ensures
        ({
            let d = s@.subrange(from as int, s@.len() as int);
            match r {
                Some(v) => d.len() > 0 && all_digits(d) && digits_value(d) <= limit && v
                    == digits_value(d),
                None => !(d.len() > 0 && all_digits(d) && digits_value(d) <= limit),
            }
        }),
{
    let n = s.unicode_len();
    let ghost d = s@.subrange(from as int, n as int);
    if from == n {
        return None;
    }
    let mut v: u64 = 0;
    let mut i: usize = from;
    while i < n
        invariant
            n == s@.len(),
            d == s@.subrange(from as int, n as int),
            from <= i <= n,
            v <= limit,
            all_digits(d.subrange(0, i - from)),
            v == digits_value(d.subrange(0, i - from)),
        decreases n - i,
    {
        let c = s.get_char(i);
        if !('0' <= c && c <= '9') {
            assert(d[i - from] == c);
            return None;
        }
        let dv = (c as u32 - '0' as u32) as u64;
        assert(d.subrange(0, i + 1 - from).drop_last() =~= d.subrange(0, i - from));
        assert(d.subrange(0, i + 1 - from).last() == c);
        assert(all_digits(d.subrange(0, i + 1 - from)));
        match v.checked_mul(10) {
            Some(t) => match t.checked_add(dv) {
                Some(w) => {
                    if w > limit {
                        proof {
                            lemma_digits_prefix_le(d, i + 1 - from);
                        }
                        return None;
                    }
                    v = w;
                },
                None => {
                    proof {
                        lemma_digits_prefix_le(d, i + 1 - from);
                    }
                    return None;
                },
            },
            None => {
                proof {
                    lemma_digits_prefix_le(d, i + 1 - from);
                }
                return None;
            },
        }
        i = i + 1;
    }
    assert(d.subrange(0, n - from) =~= d);
    Some(v)
}

/// Reads an unsigned decimal (optional `+`) of at most `limit`.
pub fn parse_unsigned_str(s: &str, limit: u64) -> (r: Option<u64>)
    ensures
        match r {
            Some(v) => parse_unsigned(s@, limit as nat) == Some(v as nat),
            None => parse_unsigned(s@, limit as nat) is None,
        },
{
    let n = s.unicode_len();
    let from: usize = if n > 0 && s.get_char(0) == '+' {
        1
    } else {
        0
    };
    assert(s@.subrange(1, n as int) =~= s@.drop_first());
    assert(s@.subrange(0, n as int) =~= s@);
    parse_digits(s, from, limit)
}

/// Reads an `i32` in decimal, with an optional sign.
pub fn parse_i32_str(s: &str) -> (r: Option<i32>)
    ensures
        r == parse_i32(s@),
{
    let n = s.unicode_len();
    if n > 0 && s.get_char(0) == '-' {
        assert(s@.subrange(1, n as int) =~= s@.drop_first());
        match parse_digits(s, 1, 0x8000_0000) {
            Some(v) => Some((0 - (v as i64)) as i32),
            None => None,
        }
    } else {
        match parse_unsigned_str(s, 0x7fff_ffff) {
            Some(v) => Some(v as i32),
            None => None,
        }
    }
}

/// The single-character text of a decimal digit.
fn digit_text(d: u64) -> (r: &'static str)
    requires
        d < 10,
    ensures
        r@ == seq![digit_char(d as nat)],
{
    proof {
        reveal_strlit("0");
        reveal_strlit("1");
        reveal_strlit("2");
        reveal_strlit("3");
        reveal_strlit("4");
        reveal_strlit("5");
        reveal_strlit("6");
        reveal_strlit("7");
        reveal_strlit("8");
        reveal_strlit("9");
    }
    let r = if d == 0 { "0" } else if d == 1 { "1" } else if d == 2 { "2" } else if d == 3 { "3" }
    else if d == 4 { "4" } else if d == 5 { "5" } else if d == 6 { "6" } else if d == 7 { "7" }
    else if d == 8 { "8" } else { "9" };
    assert(r@ =~= seq![digit_char(d as nat)]);
    r
}

/// Appends `n` in decimal.
pub fn push_dec(out: &mut String, n: u64)
    ensures
        final(out)@ == old(out)@ + dec(n as nat),
    decreases n,
{
    if n >= 10 {
        push_dec(out, n / 10);
    }
    out.append(digit_text(n % 10));
    assert(final(out)@ =~= old(out)@ + dec(n as nat));
}

/// Appends `v` in decimal, with a `-` when negative.
pub fn push_signed(out: &mut String, v: i32)
    ensures
        final(out)@ == old(out)@ + signed_dec(v as int),
{
    proof {
        reveal_strlit("-");
    }
    if v < 0 {
        out.append("-");
        let m: u64 = (0 - (v as i64)) as u64;
        push_dec(out, m);
        assert(final(out)@ =~= old(out)@ + signed_dec(v as int));
    } else {
        push_dec(out, v as u64);
    }
}

} // verus!
