//! Character-sequence primitives on which every page generator is built.
//!
//! Text is modelled as `Seq<char>` (the view of `str` and `String`).
//! Executable helpers work on a `Vec<char>` together with a range `lo..hi`
//! and state their results over `v@.subrange(lo, hi)`.
use vstd::prelude::*;

verus! {

// ---------------------------------------------------------------------------
// Specifications
// ---------------------------------------------------------------------------

/// `p` occurs in `s` at position `i`.
pub open spec fn match_at(s: Seq<char>, p: Seq<char>, i: int) -> bool {
    0 <= i && i + p.len() <= s.len() && s.subrange(i, i + p.len()) == p
}

/// First position at or after `i` where `p` occurs in `s`.
pub open spec fn find_from(s: Seq<char>, p: Seq<char>, i: nat) -> Option<int>
    decreases s.len() + 1 - i,
{
    if i + p.len() > s.len() {
        None
    } else if match_at(s, p, i as int) {
        Some(i as int)
    } else {
        find_from(s, p, i + 1)
    }
}

/// First position where `p` occurs in `s` (what `str::find` returns, counted in chars).
pub open spec fn find(s: Seq<char>, p: Seq<char>) -> Option<int> {
    find_from(s, p, 0)
}

/// `s` begins with `p`.
pub open spec fn starts_with(s: Seq<char>, p: Seq<char>) -> bool {
    p.len() <= s.len() && s.take(p.len() as int) == p
}

/// `s` ends with `p`.
pub open spec fn ends_with(s: Seq<char>, p: Seq<char>) -> bool {
    p.len() <= s.len() && s.skip(s.len() - p.len()) == p
}

/// Last position of `c` in `s`.
pub open spec fn rfind_char(s: Seq<char>, c: char) -> Option<int>
    decreases s.len(),
{
    if s.len() == 0 {
        None
    } else if s.last() == c {
        Some(s.len() - 1)
    } else {
        rfind_char(s.drop_last(), c)
    }
}

/// Every non-overlapping occurrence of `p` at or after `i`, scanning left to
/// right, replaced by `r` (the behaviour of `str::replace`).
pub open spec fn replace_from(s: Seq<char>, p: Seq<char>, r: Seq<char>, i: nat) -> Seq<char>
    decreases s.len() - i,
{
    if i >= s.len() {
        Seq::empty()
    } else if p.len() > 0 && match_at(s, p, i as int) {
        r + replace_from(s, p, r, i + p.len())
    } else {
        seq![s[i as int]] + replace_from(s, p, r, i + 1)
    }
}

/// `s` with every occurrence of `p` replaced by `r`.
pub open spec fn replace(s: Seq<char>, p: Seq<char>, r: Seq<char>) -> Seq<char> {
    replace_from(s, p, r, 0)
}

/// Replacing every `c` with text that holds no `c` leaves no `c`.
pub proof fn lemma_replace_char_removes(s: Seq<char>, c: char, r: Seq<char>, i: nat)
    requires
        forall|k: int| 0 <= k < r.len() ==> r[k] != c,
    ensures
        forall|k: int|
            0 <= k < replace_from(s, seq![c], r, i).len() ==> #[trigger] replace_from(s, seq![c], r, i)[k] != c,
    decreases s.len() - i,
{
    let out = replace_from(s, seq![c], r, i);
    if i < s.len() {
        lemma_replace_char_removes(s, c, r, i + 1);
        let rest = replace_from(s, seq![c], r, i + 1);
        if match_at(s, seq![c], i as int) {
            assert forall|k: int| 0 <= k < out.len() implies #[trigger] out[k] != c by {
                if k >= r.len() {
                    assert(out[k] == rest[k - r.len()]);
                }
            }
        } else {
            if s[i as int] == c {
                assert(s.subrange(i as int, i + 1int) =~= seq![c]);
            }
            assert forall|k: int| 0 <= k < out.len() implies #[trigger] out[k] != c by {
                if k > 0 {
                    assert(out[k] == rest[k - 1]);
                }
            }
        }
    }
}

/// Text without `c` is a single piece when split at `c`.
pub proof fn lemma_split_char_none(a: Seq<char>, c: char)
    requires
        !a.contains(c),
    ensures
        split_char(a, c) == seq![a],
    decreases a.len(),
{
    if a.len() > 0 {
        assert(!a.drop_last().contains(c)) by {
            if a.drop_last().contains(c) {
                let k = choose|k: int| 0 <= k < a.drop_last().len() && a.drop_last()[k] == c;
                assert(a[k] == c);
            }
        }
        lemma_split_char_none(a.drop_last(), c);
        assert(a.last() != c) by {
            assert(a[a.len() - 1] == a.last());
        }
        assert(a.drop_last().push(a.last()) == a);
        assert(split_char(a, c) =~~= seq![a]);
    } else {
        assert(a =~= Seq::<char>::empty());
    }
}

/// Splitting at `c` two texts joined by `c` gives the pieces of each.
pub proof fn lemma_split_char_concat(a: Seq<char>, b: Seq<char>, c: char)
    ensures
        split_char(a + seq![c] + b, c) == split_char(a, c) + split_char(b, c),
    decreases b.len(),
{
    let s = a + seq![c] + b;
    if b.len() == 0 {
        assert(s.drop_last() == a);
        assert(split_char(b, c) == seq![Seq::<char>::empty()]);
    } else {
        lemma_split_char_concat(a, b.drop_last(), c);
        assert(s.drop_last() == a + seq![c] + b.drop_last());
        assert(s.last() == b.last());
        lemma_split_char_len(b.drop_last(), c);
        lemma_split_char_len(a, c);
    }
}

/// Splitting gives at least one piece.
pub proof fn lemma_split_char_len(s: Seq<char>, c: char)
    ensures
        split_char(s, c).len() >= 1,
    decreases s.len(),
{
    if s.len() > 0 {
        lemma_split_char_len(s.drop_last(), c);
    }
}

/// Trimming ignores a leading whitespace character.
pub proof fn lemma_trim_ws_front(w: char, s: Seq<char>)
    requires
        is_ws(w),
    ensures
        trim(seq![w] + s) == trim(s),
{
    assert((seq![w] + s).drop_first() == s);
}

proof fn lemma_trim_start_push(s: Seq<char>, w: char)
    requires
        is_ws(w),
    ensures
        trim_start(s.push(w)) == if trim_start(s).len() == 0 {
            Seq::<char>::empty()
        } else {
            trim_start(s).push(w)
        },
    decreases s.len(),
{
    assert(s.push(w).len() > 0);
    if s.len() == 0 {
        assert(s.push(w)[0] == w);
        assert(s.push(w).drop_first() == Seq::<char>::empty());
        assert(trim_start(Seq::<char>::empty()) == Seq::<char>::empty());
    } else {
        assert(s.push(w)[0] == s[0]);
        if is_ws(s[0]) {
            lemma_trim_start_push(s.drop_first(), w);
            assert(s.push(w).drop_first() == s.drop_first().push(w));
        }
    }
}

/// Trimming ignores a trailing whitespace character.
pub proof fn lemma_trim_ws_back(s: Seq<char>, w: char)
    requires
        is_ws(w),
    ensures
        trim(s.push(w)) == trim(s),
{
    lemma_trim_start_push(s, w);
    if trim_start(s).len() > 0 {
        assert(trim_start(s).push(w).drop_last() == trim_start(s));
    }
}

/// A pattern does not start where the text differs from its first two characters.
pub proof fn lemma_no_match_at(s: Seq<char>, p: Seq<char>, k: int)
    requires
        p.len() >= 2,
        0 <= k,
        k + 1 < s.len(),
        s[k] != p[0] || s[k + 1] != p[1],
    ensures
        !match_at(s, p, k),
{
    if match_at(s, p, k) {
        assert(s.subrange(k, k + p.len())[0] == s[k]);
        assert(s.subrange(k, k + p.len())[1] == s[k + 1]);
    }
}

/// Where `p` occurs at no position from `i` on, replacing it from `i` keeps
/// the text.
pub proof fn lemma_replace_from_no_match(x: Seq<char>, p: Seq<char>, r: Seq<char>, i: nat)
    requires
        i <= x.len(),
        forall|k: int| i <= k ==> !match_at(x, p, k),
    ensures
        replace_from(x, p, r, i) == x.skip(i as int),
    decreases x.len() - i,
{
    if i < x.len() {
        lemma_replace_from_no_match(x, p, r, i + 1);
        assert(x.skip(i as int) == seq![x[i as int]] + x.skip((i + 1) as int));
    } else {
        assert(x.skip(i as int) =~= Seq::<char>::empty());
    }
}

/// Replacing in `a + b` from a position in `b` is replacing in `b`.
pub proof fn lemma_replace_shift(a: Seq<char>, b: Seq<char>, p: Seq<char>, r: Seq<char>, j: nat)
    ensures
        replace_from(a + b, p, r, a.len() + j) == replace_from(b, p, r, j),
    decreases b.len() - j,
{
    let s = a + b;
    let i = a.len() + j;
    if j < b.len() {
        assert(s[i as int] == b[j as int]);
        assert(match_at(s, p, i as int) == match_at(b, p, j as int)) by {
            if i + p.len() <= s.len() {
                assert(s.subrange(i as int, (i + p.len()) as int) =~= b.subrange(j as int, (j + p.len()) as int));
            }
        }
        if p.len() > 0 && match_at(b, p, j as int) {
            lemma_replace_shift(a, b, p, r, j + p.len());
        } else {
            lemma_replace_shift(a, b, p, r, j + 1);
        }
    }
}

/// Where `p` starts nowhere in `s` between `i` and `m`, replacing from `i`
/// copies those characters and goes on from `m`.
pub proof fn lemma_replace_copy(s: Seq<char>, p: Seq<char>, r: Seq<char>, i: nat, m: nat)
    requires
        i <= m <= s.len(),
        forall|k: int| i <= k < m ==> !match_at(s, p, k),
    ensures
        replace_from(s, p, r, i) == s.subrange(i as int, m as int) + replace_from(s, p, r, m),
    decreases m - i,
{
    if i < m {
        lemma_replace_copy(s, p, r, i + 1, m);
        assert(s.subrange(i as int, m as int) =~= seq![s[i as int]] + s.subrange((i + 1) as int, m as int));
    } else {
        assert(s.subrange(i as int, m as int) =~= Seq::<char>::empty());
    }
}

/// Replacing in `a + b` is replacing in `a` and in `b` when no occurrence
/// starting in `a` runs past its end.
pub proof fn lemma_replace_split(a: Seq<char>, b: Seq<char>, p: Seq<char>, r: Seq<char>, i: nat)
    requires
        i <= a.len(),
        forall|k: int| i <= k < a.len() && match_at(a + b, p, k) ==> k + p.len() <= a.len(),
    ensures
        replace_from(a + b, p, r, i) == replace_from(a, p, r, i) + replace(b, p, r),
    decreases a.len() - i,
{
    let s = a + b;
    if i == a.len() {
        lemma_replace_shift(a, b, p, r, 0);
        assert(replace_from(a, p, r, i) == Seq::<char>::empty());
    } else {
        assert(s[i as int] == a[i as int]);
        if p.len() > 0 && match_at(s, p, i as int) {
            assert(s.subrange(i as int, (i + p.len()) as int) =~= a.subrange(i as int, (i + p.len()) as int));
            lemma_replace_split(a, b, p, r, i + p.len());
        } else {
            if p.len() > 0 && match_at(a, p, i as int) {
                assert(s.subrange(i as int, (i + p.len()) as int) =~= a.subrange(i as int, (i + p.len()) as int));
            }
            lemma_replace_split(a, b, p, r, i + 1);
        }
    }
}

/// Unicode `White_Space`, which `char::is_whitespace` tests.
pub open spec fn is_ws(c: char) -> bool {
    ||| ('\u{9}' <= c && c <= '\u{d}')
    ||| c == ' '
    ||| c == '\u{85}'
    ||| c == '\u{a0}'
    ||| c == '\u{1680}'
    ||| ('\u{2000}' <= c && c <= '\u{200a}')
    ||| c == '\u{2028}'
    ||| c == '\u{2029}'
    ||| c == '\u{202f}'
    ||| c == '\u{205f}'
    ||| c == '\u{3000}'
}

/// `s` without leading whitespace.
pub open spec fn trim_start(s: Seq<char>) -> Seq<char>
    decreases s.len(),
{
    if s.len() > 0 && is_ws(s[0]) {
        trim_start(s.drop_first())
    } else {
        s
    }
}

/// `s` without trailing whitespace.
pub open spec fn trim_end(s: Seq<char>) -> Seq<char>
    decreases s.len(),
{
    if s.len() > 0 && is_ws(s.last()) {
        trim_end(s.drop_last())
    } else {
        s
    }
}

/// `s` without leading and trailing whitespace (`str::trim`).
pub open spec fn trim(s: Seq<char>) -> Seq<char> {
    trim_end(trim_start(s))
}

/// `s` without the leading run of `c` (`str::trim_start_matches` with a char).
pub open spec fn trim_start_char(s: Seq<char>, c: char) -> Seq<char>
    decreases s.len(),
{
    if s.len() > 0 && s[0] == c {
        trim_start_char(s.drop_first(), c)
    } else {
        s
    }
}

/// `s` without the trailing run of `c` (`str::trim_end_matches` with a char).
pub open spec fn trim_end_char(s: Seq<char>, c: char) -> Seq<char>
    decreases s.len(),
{
    if s.len() > 0 && s.last() == c {
        trim_end_char(s.drop_last(), c)
    } else {
        s
    }
}

/// The pieces of `s` between occurrences of `c` (`str::split` with a char).
pub open spec fn split_char(s: Seq<char>, c: char) -> Seq<Seq<char>>
    decreases s.len(),
{
    if s.len() == 0 {
        seq![Seq::empty()]
    } else {
        let init = split_char(s.drop_last(), c);
        if s.last() == c {
            init.push(Seq::empty())
        } else {
            init.update(init.len() - 1, init.last().push(s.last()))
        }
    }
}

/// A line with its trailing carriage return removed.
pub open spec fn strip_cr(l: Seq<char>) -> Seq<char> {
    if l.len() > 0 && l.last() == '\r' {
        l.drop_last()
    } else {
        l
    }
}

/// The lines of `s` (`str::lines`): split at `\n`, a final empty piece
/// dropped, and a `\r` right before a `\n` removed (a last line without
/// `\n` keeps its `\r`).
pub open spec fn lines(s: Seq<char>) -> Seq<Seq<char>> {
    if s.len() == 0 {
        Seq::empty()
    } else {
        let pieces = split_char(s, '\n');
        let kept = if s.last() == '\n' {
            pieces.drop_last()
        } else {
            pieces
        };
        Seq::new(
            kept.len(),
            |k: int|
                if k + 1 < pieces.len() {
                    strip_cr(kept[k])
                } else {
                    kept[k]
                },
        )
    }
}

/// The pieces joined, with `sep` between neighbours.
pub open spec fn join(xs: Seq<Seq<char>>, sep: Seq<char>) -> Seq<char>
    decreases xs.len(),
{
    if xs.len() == 0 {
        Seq::empty()
    } else if xs.len() == 1 {
        xs[0]
    } else {
        join(xs.drop_last(), sep) + sep + xs.last()
    }
}

/// The pieces written one after another.
pub open spec fn concat(xs: Seq<Seq<char>>) -> Seq<char>
    decreases xs.len(),
{
    if xs.len() == 0 {
        Seq::empty()
    } else {
        concat(xs.drop_last()) + xs.last()
    }
}

/// The code of the ASCII lowercase form of `c`.
pub open spec fn ascii_lower(c: char) -> u32 {
    if 'A' <= c && c <= 'Z' {
        ((c as u32) + 32) as u32
    } else {
        c as u32
    }
}

/// `a` and `b` are equal when ASCII letters are compared without case
/// (`str::eq_ignore_ascii_case`).
pub open spec fn eq_ignore_ascii_case(a: Seq<char>, b: Seq<char>) -> bool {
    a.len() == b.len() && forall|i: int| 0 <= i < a.len() ==> ascii_lower(#[trigger] a[i]) == ascii_lower(b[i])
}

/// The decimal digit `d` as a character.
pub open spec fn digit(d: int) -> char {
    (48 + d) as char
}

/// Decimal text of `n`, as `format!("{}", n)` writes it.
pub open spec fn dec(n: nat) -> Seq<char>
    decreases n,
{
    if n < 10 {
        seq![digit(n as int)]
    } else {
        dec(n / 10).push(digit((n % 10) as int))
    }
}

/// Decimal text of a signed `n`.
pub open spec fn dec_int(n: int) -> Seq<char> {
    if n < 0 {
        seq!['-'] + dec((-n) as nat)
    } else {
        dec(n as nat)
    }
}

/// Decimal text of `n` padded with zeros to two digits (`{:02}`).
pub open spec fn dec2(n: nat) -> Seq<char> {
    if n < 10 {
        seq!['0'] + dec(n)
    } else {
        dec(n)
    }
}

pub open spec fn is_digit(c: char) -> bool {
    '0' <= c && c <= '9'
}

pub open spec fn all_digits(s: Seq<char>) -> bool {
    forall|i: int| 0 <= i < s.len() ==> is_digit(#[trigger] s[i])
}

/// The number written by the decimal digits `s`.
pub open spec fn digits_value(s: Seq<char>) -> nat
    decreases s.len(),
{
    if s.len() == 0 {
        0
    } else {
        digits_value(s.drop_last()) * 10 + ((s.last() as int - 48) as nat)
    }
}

/// The text `str::parse` reads for an unsigned integer no larger than `max`.
pub open spec fn parse_uint(s: Seq<char>, max: nat) -> Option<nat> {
    if s.len() == 0 || (s.len() == 1 && (s[0] == '+' || s[0] == '-')) {
        None
    } else {
        let d = if s[0] == '+' {
            s.drop_first()
        } else {
            s
        };
        if all_digits(d) && digits_value(d) <= max {
            Some(digits_value(d))
        } else {
            None
        }
    }
}

/// The text `str::parse` reads for a signed integer in `min..=max`.
pub open spec fn parse_int(s: Seq<char>, min: int, max: int) -> Option<int> {
    if s.len() == 0 || (s.len() == 1 && (s[0] == '+' || s[0] == '-')) {
        None
    } else {
        let neg = s[0] == '-';
        let d = if s[0] == '+' || s[0] == '-' {
            s.drop_first()
        } else {
            s
        };
        let v: int = if neg {
            -digits_value(d)
        } else {
            digits_value(d) as int
        };
        if all_digits(d) && min <= v <= max {
            Some(v)
        } else {
            None
        }
    }
}

/// The result of `str::to_lowercase` on `s`: lowercase as defined by the
/// Unicode derived property `Lowercase`.
pub uninterp spec fn lowercase(s: Seq<char>) -> Seq<char>;

// ---------------------------------------------------------------------------
// Lemmas
// ---------------------------------------------------------------------------

/// What `find_from` returns: the first match at or after `i`.
pub proof fn lemma_find_from(s: Seq<char>, p: Seq<char>, i: nat)
    ensures
        match find_from(s, p, i) {
            Some(j) => i <= j && match_at(s, p, j) && forall|k: int| i <= k < j ==> !match_at(s, p, k),
            None => forall|k: int| i <= k ==> !match_at(s, p, k),
        },
    decreases s.len() + 1 - i,
{
    if i + p.len() > s.len() {
    } else if match_at(s, p, i as int) {
    } else {
        lemma_find_from(s, p, i + 1);
    }
}

/// `find` is the first match.
pub proof fn lemma_find(s: Seq<char>, p: Seq<char>)
    ensures
        match find(s, p) {
            Some(j) => 0 <= j && j + p.len() <= s.len() && match_at(s, p, j) && forall|k: int|
                0 <= k < j ==> !match_at(s, p, k),
            None => forall|k: int| 0 <= k ==> !match_at(s, p, k),
        },
{
    lemma_find_from(s, p, 0);
}

/// The first occurrence is the one with none before it.
pub proof fn lemma_find_at(s: Seq<char>, p: Seq<char>, i: int)
    requires
        match_at(s, p, i),
        forall|j: int| 0 <= j < i ==> !match_at(s, p, j),
    ensures
        find(s, p) == Some(i),
{
    lemma_find(s, p);
}

/// Joining one more piece adds the separator and the piece.
pub proof fn lemma_join_push(xs: Seq<Seq<char>>, sep: Seq<char>, x: Seq<char>)
    ensures
        join(xs.push(x), sep) == if xs.len() == 0 {
            x
        } else {
            join(xs, sep) + sep + x
        },
{
    assert(xs.push(x).drop_last() == xs);
}

// ---------------------------------------------------------------------------
// Executable helpers
// ---------------------------------------------------------------------------

/// Appends a character (`String::push`).
#[verifier::external_body]
pub(crate) fn push_char(s: &mut String, c: char)
    ensures
        final(s)@ == old(s)@.push(c),
{
    s.push(c);
}

/// Appends text.
pub(crate) fn push_str(s: &mut String, t: &str)
    ensures
        final(s)@ == old(s)@ + t@,
{
    s.append(t);
}

/// The lowercase form of `s` (`str::to_lowercase`); the result is named by `lowercase`.
#[verifier::external_body]
pub(crate) fn to_lowercase(s: &str) -> (r: String)
    ensures
        r@ == lowercase(s@),
{
    s.to_lowercase()
}

/// The characters of `s`.
pub fn chars_of(s: &str) -> (v: Vec<char>)
    ensures
        v@ == s@,
{
    let mut v: Vec<char> = Vec::new();
    for c in it: s.chars()
        invariant
            v@ == it.seq().take(it.index() as int),
            it.seq() == s@,
    {
        v.push(c);
    }
    v
}

/// Appends `v[lo..hi]`.
pub fn push_range(out: &mut String, v: &Vec<char>, lo: usize, hi: usize)
    requires
        lo <= hi <= v.len(),
    ensures
        final(out)@ == old(out)@ + v@.subrange(lo as int, hi as int),
{
    let mut i = lo;
    while i < hi
        invariant
            lo <= i <= hi <= v.len(),
            out@ == old(out)@ + v@.subrange(lo as int, i as int),
        decreases hi - i,
    {
        push_char(out, v[i]);
        assert(v@.subrange(lo as int, i + 1) == v@.subrange(lo as int, i as int).push(v@[i as int]));
        i += 1;
    }
}

/// Appends every character of `v`.
pub fn push_all(out: &mut String, v: &Vec<char>)
    ensures
        final(out)@ == old(out)@ + v@,
{
    push_range(out, v, 0, v.len());
    assert(v@.subrange(0, v.len() as int) == v@);
}

/// `v[lo..hi]` as a `String`.
pub fn string_of(v: &Vec<char>, lo: usize, hi: usize) -> (r: String)
    requires
        lo <= hi <= v.len(),
    ensures
        r@ == v@.subrange(lo as int, hi as int),
{
    let mut r = String::new();
    push_range(&mut r, v, lo, hi);
    r
}

/// Whether `p` occurs in `v[lo..hi]` at absolute position `i`.
pub fn matches_at(v: &Vec<char>, lo: usize, hi: usize, p: &Vec<char>, i: usize) -> (b: bool)
    requires
        lo <= i <= hi <= v.len(),
    ensures
        b == match_at(v@.subrange(lo as int, hi as int), p@, i - lo),
{
    let ghost s = v@.subrange(lo as int, hi as int);
    if p.len() > hi - i {
        return false;
    }
    let mut k: usize = 0;
    while k < p.len()
        invariant
            lo <= i <= hi <= v.len(),
            p.len() <= hi - i,
            k <= p.len(),
            s == v@.subrange(lo as int, hi as int),
            forall|j: int| 0 <= j < k ==> v@[i + j] == p@[j],
        decreases p.len() - k,
    {
        if v[i + k] != p[k] {
            assert(s.subrange(i - lo, i - lo + p.len())[k as int] == v@[i + k]);
            return false;
        }
        k += 1;
    }
    assert(s.subrange(i - lo, i - lo + p.len()) =~= p@);
    true
}

/// First occurrence of `p` in `v[lo..hi]`, as an absolute position.
pub fn find_in(v: &Vec<char>, lo: usize, hi: usize, p: &Vec<char>) -> (r: Option<usize>)
    requires
        lo <= hi <= v.len(),
    ensures
        match r {
            Some(i) => lo <= i && i + p.len() <= hi && find(v@.subrange(lo as int, hi as int), p@) == Some(
                i - lo,
            ),
            None => find(v@.subrange(lo as int, hi as int), p@) is None,
        },
{
    let ghost s = v@.subrange(lo as int, hi as int);
    proof {
        lemma_find(s, p@);
    }
    if p.len() > hi - lo {
        assert forall|k: int| 0 <= k implies !match_at(s, p@, k) by {}
        return None;
    }
    let last = hi - p.len();
    let mut i = lo;
    while i <= last
        invariant
            lo <= i,
            lo <= last,
            last + p.len() == hi,
            lo <= hi <= v.len(),
            s == v@.subrange(lo as int, hi as int),
            forall|k: int| 0 <= k < i - lo ==> !match_at(s, p@, k),
        ensures
            forall|k: int| 0 <= k <= last - lo ==> !match_at(s, p@, k),
        decreases last + 1 - i,
    {
        if matches_at(v, lo, hi, p, i) {
            proof {
                lemma_find(s, p@);
                match find(s, p@) {
                    Some(j) => {
                        if j < i - lo {
                            assert(!match_at(s, p@, j));
                        }
                        if j > i - lo {
                            assert(!match_at(s, p@, i - lo));
                        }
                    },
                    None => {
                        assert(!match_at(s, p@, i - lo));
                    },
                }
            }
            return Some(i);
        }
        if i == last {
            break;
        }
        i += 1;
    }
    proof {
        lemma_find(s, p@);
    }
    assert forall|k: int| 0 <= k implies !match_at(s, p@, k) by {
        if k > last - lo {
            assert(k + p@.len() > s.len());
        }
    }
    None
}

/// Last position of `c` in `v[lo..hi]`, as an absolute position.
pub fn rfind_char_in(v: &Vec<char>, lo: usize, hi: usize, c: char) -> (r: Option<usize>)
    requires
        lo <= hi <= v.len(),
    ensures
        match r {
            Some(i) => lo <= i < hi && rfind_char(v@.subrange(lo as int, hi as int), c) == Some(i - lo),
            None => rfind_char(v@.subrange(lo as int, hi as int), c) is None,
        },
{
    let mut j = hi;
    while j > lo
        invariant
            lo <= j <= hi <= v.len(),
            rfind_char(v@.subrange(lo as int, hi as int), c) == rfind_char(v@.subrange(lo as int, j as int), c),
        decreases j,
    {
        assert(v@.subrange(lo as int, j as int).drop_last() == v@.subrange(lo as int, j - 1));
        if v[j - 1] == c {
            return Some(j - 1);
        }
        j -= 1;
    }
    None
}

/// Whether `v[lo..hi]` begins with `p`.
pub fn starts_with_at(v: &Vec<char>, lo: usize, hi: usize, p: &Vec<char>) -> (b: bool)
    requires
        lo <= hi <= v.len(),
    ensures
        b == starts_with(v@.subrange(lo as int, hi as int), p@),
{
    let b = matches_at(v, lo, hi, p, lo);
    let ghost s = v@.subrange(lo as int, hi as int);
    proof {
        if p@.len() <= s.len() {
            assert(s.subrange(0, p@.len() as int) == s.take(p@.len() as int));
        }
    }
    b
}

/// Whether `v[lo..hi]` ends with `p`.
pub fn ends_with_at(v: &Vec<char>, lo: usize, hi: usize, p: &Vec<char>) -> (b: bool)
    requires
        lo <= hi <= v.len(),
    ensures
        b == ends_with(v@.subrange(lo as int, hi as int), p@),
{
    let ghost s = v@.subrange(lo as int, hi as int);
    if p.len() > hi - lo {
        return false;
    }
    let b = matches_at(v, lo, hi, p, hi - p.len());
    proof {
        assert(s.subrange(s.len() - p@.len(), s.len() as int) == s.skip(s.len() - p@.len()));
    }
    b
}

/// Whether `v[lo..hi]` equals `p`.
pub fn range_eq(v: &Vec<char>, lo: usize, hi: usize, p: &Vec<char>) -> (b: bool)
    requires
        lo <= hi <= v.len(),
    ensures
        b == (v@.subrange(lo as int, hi as int) == p@),
{
    if hi - lo != p.len() {
        return false;
    }
    let b = matches_at(v, lo, hi, p, lo);
    proof {
        let s = v@.subrange(lo as int, hi as int);
        assert(s.subrange(0, p@.len() as int) == s);
    }
    b
}

/// Whether two character vectors are equal.
pub fn seq_eq(a: &Vec<char>, b: &Vec<char>) -> (r: bool)
    ensures
        r == (a@ == b@),
{
    let r = range_eq(a, 0, a.len(), b);
    assert(a@.subrange(0, a.len() as int) == a@);
    r
}

/// `char::is_whitespace`.
pub fn is_whitespace(c: char) -> (b: bool)
    ensures
        b == is_ws(c),
{
    ('\u{9}' <= c && c <= '\u{d}') || c == ' ' || c == '\u{85}' || c == '\u{a0}' || c == '\u{1680}'
        || ('\u{2000}' <= c && c <= '\u{200a}') || c == '\u{2028}' || c == '\u{2029}' || c == '\u{202f}'
        || c == '\u{205f}' || c == '\u{3000}'
}

/// The bounds of `v[lo..hi]` with leading and trailing whitespace removed.
pub fn trim_range(v: &Vec<char>, lo: usize, hi: usize) -> (r: (usize, usize))
    requires
        lo <= hi <= v.len(),
    ensures
        lo <= r.0 <= r.1 <= hi,
        v@.subrange(r.0 as int, r.1 as int) == trim(v@.subrange(lo as int, hi as int)),
{
    let mut a = lo;
    while a < hi && is_whitespace(v[a])
        invariant
            lo <= a <= hi <= v.len(),
            trim_start(v@.subrange(lo as int, hi as int)) == trim_start(v@.subrange(a as int, hi as int)),
        decreases hi - a,
    {
        assert(v@.subrange(a as int, hi as int).drop_first() == v@.subrange(a + 1, hi as int));
        a += 1;
    }
    let mut b = hi;
    while b > a && is_whitespace(v[b - 1])
        invariant
            lo <= a <= b <= hi <= v.len(),
            trim_start(v@.subrange(lo as int, hi as int)) == v@.subrange(a as int, hi as int),
            trim_end(v@.subrange(a as int, hi as int)) == trim_end(v@.subrange(a as int, b as int)),
        decreases b,
    {
        assert(v@.subrange(a as int, b as int).drop_last() == v@.subrange(a as int, b - 1));
        b -= 1;
    }
    (a, b)
}

/// The bounds of `v[lo..hi]` with the leading run of `c` removed.
pub fn trim_start_char_range(v: &Vec<char>, lo: usize, hi: usize, c: char) -> (a: usize)
    requires
        lo <= hi <= v.len(),
    ensures
        lo <= a <= hi,
        v@.subrange(a as int, hi as int) == trim_start_char(v@.subrange(lo as int, hi as int), c),
{
    let mut a = lo;
    while a < hi && v[a] == c
        invariant
            lo <= a <= hi <= v.len(),
            trim_start_char(v@.subrange(lo as int, hi as int), c) == trim_start_char(
                v@.subrange(a as int, hi as int),
                c,
            ),
        decreases hi - a,
    {
        assert(v@.subrange(a as int, hi as int).drop_first() == v@.subrange(a + 1, hi as int));
        a += 1;
    }
    a
}

/// The bounds of `v[lo..hi]` with the trailing run of `c` removed.
pub fn trim_end_char_range(v: &Vec<char>, lo: usize, hi: usize, c: char) -> (b: usize)
    requires
        lo <= hi <= v.len(),
    ensures
        lo <= b <= hi,
        v@.subrange(lo as int, b as int) == trim_end_char(v@.subrange(lo as int, hi as int), c),
{
    let mut b = hi;
    while b > lo && v[b - 1] == c
        invariant
            lo <= b <= hi <= v.len(),
            trim_end_char(v@.subrange(lo as int, hi as int), c) == trim_end_char(
                v@.subrange(lo as int, b as int),
                c,
            ),
        decreases b,
    {
        assert(v@.subrange(lo as int, b as int).drop_last() == v@.subrange(lo as int, b - 1));
        b -= 1;
    }
    b
}

/// Appends `v[lo..hi]` with every occurrence of `p` replaced by `r`.
pub fn push_replaced(out: &mut String, v: &Vec<char>, lo: usize, hi: usize, p: &Vec<char>, r: &str)
    requires
        lo <= hi <= v.len(),
        p@.len() > 0,
    ensures
        final(out)@ == old(out)@ + replace(v@.subrange(lo as int, hi as int), p@, r@),
{
    let ghost s = v@.subrange(lo as int, hi as int);
    let mut i = lo;
    while i < hi
        invariant
            lo <= i <= hi <= v.len(),
            p@.len() > 0,
            s == v@.subrange(lo as int, hi as int),
            old(out)@ + replace(s, p@, r@) == out@ + replace_from(s, p@, r@, (i - lo) as nat),
        decreases hi - i,
    {
        if matches_at(v, lo, hi, p, i) {
            push_str(out, r);
            i += p.len();
        } else {
            push_char(out, v[i]);
            i += 1;
        }
    }
    assert(replace_from(s, p@, r@, (i - lo) as nat) == Seq::<char>::empty());
}

/// `s` with every occurrence of `p` replaced by `r` (`str::replace`).
pub fn replace_str(s: &str, p: &str, r: &str) -> (out: String)
    requires
        p@.len() > 0,
    ensures
        out@ == replace(s@, p@, r@),
{
    let v = chars_of(s);
    let pv = chars_of(p);
    let mut out = String::new();
    push_replaced(&mut out, &v, 0, v.len(), &pv, r);
    assert(v@.subrange(0, v.len() as int) == v@);
    out
}

/// The bounds of the pieces of `v[lo..hi]` between occurrences of `c`.
pub fn split_ranges(v: &Vec<char>, lo: usize, hi: usize, c: char) -> (r: Vec<(usize, usize)>)
    requires
        lo <= hi <= v.len(),
    ensures
        r.len() == split_char(v@.subrange(lo as int, hi as int), c).len(),
        forall|k: int|
            0 <= k < r.len() ==> lo <= (#[trigger] r[k]).0 <= r[k].1 <= hi && v@.subrange(r[k].0 as int, r[k].1 as int)
                == split_char(v@.subrange(lo as int, hi as int), c)[k],
{
    let mut r: Vec<(usize, usize)> = Vec::new();
    let mut start = lo;
    let mut i = lo;
    assert(v@.subrange(lo as int, lo as int) == Seq::<char>::empty());
    while i < hi
        invariant
            lo <= start <= i <= hi <= v.len(),
            split_char(v@.subrange(lo as int, i as int), c).len() == r.len() + 1,
            split_char(v@.subrange(lo as int, i as int), c).last() == v@.subrange(start as int, i as int),
            forall|k: int|
                0 <= k < r.len() ==> lo <= (#[trigger] r[k]).0 <= r[k].1 <= hi && v@.subrange(r[k].0 as int, r[k].1 as int)
                    == split_char(v@.subrange(lo as int, i as int), c)[k],
        decreases hi - i,
    {
        let ghost prev = split_char(v@.subrange(lo as int, i as int), c);
        assert(v@.subrange(lo as int, i + 1).drop_last() == v@.subrange(lo as int, i as int));
        assert(v@.subrange(lo as int, i + 1).last() == v@[i as int]);
        if v[i] == c {
            r.push((start, i));
            start = i + 1;
            assert(v@.subrange(start as int, i + 1) == Seq::<char>::empty());
        } else {
            assert(v@.subrange(start as int, i + 1) == v@.subrange(start as int, i as int).push(v@[i as int]));
        }
        i += 1;
    }
    r.push((start, hi));
    r
}

/// The bounds of the lines of `v[lo..hi]` (`str::lines`).
pub fn line_ranges(v: &Vec<char>, lo: usize, hi: usize) -> (r: Vec<(usize, usize)>)
    requires
        lo <= hi <= v.len(),
    ensures
        r.len() == lines(v@.subrange(lo as int, hi as int)).len(),
        forall|k: int|
            0 <= k < r.len() ==> lo <= (#[trigger] r[k]).0 <= r[k].1 <= hi && v@.subrange(r[k].0 as int, r[k].1 as int)
                == lines(v@.subrange(lo as int, hi as int))[k],
{
    let ghost s = v@.subrange(lo as int, hi as int);
    if lo == hi {
        return Vec::new();
    }
    let pieces = split_ranges(v, lo, hi, '\n');
    let n = if v[hi - 1] == '\n' {
        pieces.len() - 1
    } else {
        pieces.len()
    };
    let ghost pieces_spec = split_char(s, '\n');
    let ghost kept = if s.last() == '\n' {
        pieces_spec.drop_last()
    } else {
        pieces_spec
    };
    assert(s.last() == v@[hi - 1]);
    let mut r: Vec<(usize, usize)> = Vec::new();
    let mut k: usize = 0;
    while k < n
        invariant
            lo < hi <= v.len(),
            n == kept.len(),
            n <= pieces.len(),
            pieces.len() == pieces_spec.len(),
            s == v@.subrange(lo as int, hi as int),
            kept == (if s.last() == '\n' {
                pieces_spec.drop_last()
            } else {
                pieces_spec
            }),
            forall|j: int|
                0 <= j < pieces.len() ==> lo <= (#[trigger] pieces[j]).0 <= pieces[j].1 <= hi && v@.subrange(
                    pieces[j].0 as int,
                    pieces[j].1 as int,
                ) == pieces_spec[j],
            k <= n,
            r.len() == k,
            forall|j: int|
                0 <= j < k ==> lo <= (#[trigger] r[j]).0 <= r[j].1 <= hi && v@.subrange(r[j].0 as int, r[j].1 as int)
                    == (if j + 1 < pieces_spec.len() {
                    strip_cr(kept[j])
                } else {
                    kept[j]
                }),
        decreases n - k,
    {
        let (a, b) = pieces[k];
        assert(kept[k as int] == pieces_spec[k as int]);
        if k + 1 < pieces.len() && b > a && v[b - 1] == '\r' {
            assert(v@.subrange(a as int, b - 1) == v@.subrange(a as int, b as int).drop_last());
            r.push((a, b - 1));
        } else {
            r.push((a, b));
        }
        k += 1;
    }
    r
}

/// Appends the decimal text of `n`.
pub fn push_dec(out: &mut String, n: u64)
    ensures
        final(out)@ == old(out)@ + dec(n as nat),
    decreases n,
{
    if n >= 10 {
        push_dec(out, n / 10);
    }
    let d = (n % 10) as u8;
    let c = (d + 48u8) as char;
    assert(c == digit((n % 10) as int));
    push_char(out, c);
    proof {
        if n < 10 {
            assert(n % 10 == n);
        }
    }
}

/// Appends the decimal text of `n`, padded to two digits.
pub fn push_dec2(out: &mut String, n: u64)
    ensures
        final(out)@ == old(out)@ + dec2(n as nat),
{
    if n < 10 {
        push_char(out, '0');
    }
    push_dec(out, n);
    proof {
        if n < 10 {
            assert(out@ == old(out)@ + (seq!['0'] + dec(n as nat)));
        }
    }
}

/// Appends the decimal text of a signed `n`.
pub fn push_dec_i64(out: &mut String, n: i64)
    ensures
        final(out)@ == old(out)@ + dec_int(n as int),
{
    if n < 0 {
        push_char(out, '-');
        let m: u64 = if n == i64::MIN {
            9223372036854775808u64
        } else {
            (-n) as u64
        };
        push_dec(out, m);
        assert(out@ == old(out)@ + (seq!['-'] + dec((-n) as nat)));
    } else {
        push_dec(out, n as u64);
    }
}

/// The decimal text of `n` as a `String`.
pub fn dec_string(n: u64) -> (r: String)
    ensures
        r@ == dec(n as nat),
{
    let mut r = String::new();
    push_dec(&mut r, n);
    r
}

proof fn lemma_digits_value_mono(s: Seq<char>, i: int)
    requires
        0 <= i <= s.len(),
        all_digits(s),
    ensures
        digits_value(s.take(i)) <= digits_value(s),
    decreases s.len() - i,
{
    if i < s.len() {
        lemma_digits_value_mono(s, i + 1);
        assert(s.take(i + 1).drop_last() == s.take(i));
        assert(is_digit(s[i]));
    } else {
        assert(s.take(i) == s);
    }
}

/// Reads the digits `v[lo..hi]` as a number no larger than `max`.
fn parse_digits(v: &Vec<char>, lo: usize, hi: usize, max: u64) -> (r: Option<u64>)
    requires
        lo <= hi <= v.len(),
    ensures
        match r {
            Some(n) => all_digits(v@.subrange(lo as int, hi as int)) && n == digits_value(
                v@.subrange(lo as int, hi as int),
            ) && n <= max,
            None => !(all_digits(v@.subrange(lo as int, hi as int)) && digits_value(
                v@.subrange(lo as int, hi as int),
            ) <= max),
        },
{
    let ghost s = v@.subrange(lo as int, hi as int);
    let mut acc: u64 = 0;
    let mut i = lo;
    while i < hi
        invariant
            lo <= i <= hi <= v.len(),
            s == v@.subrange(lo as int, hi as int),
            all_digits(s.take(i - lo)),
            acc == digits_value(s.take(i - lo)),
            acc <= max,
        decreases hi - i,
    {
        let c = v[i];
        assert(s.take(i - lo + 1).drop_last() == s.take(i - lo));
        assert(s.take(i - lo + 1).last() == c);
        if !('0' <= c && c <= '9') {
            assert(!is_digit(s[i - lo]));
            return None;
        }
        let d = (c as u32 - 48) as u64;
        if d > max || acc > (max - d) / 10 {
            proof {
                assert(all_digits(s.take(i - lo + 1)));
                assert(digits_value(s.take(i - lo + 1)) == acc * 10 + d);
                if d <= max {
                    assert(acc * 10 + d > max) by (nonlinear_arith)
                        requires
                            acc > (max - d) / 10,
                            d <= max,
                    ;
                }
                if all_digits(s) {
                    lemma_digits_value_mono(s, i - lo + 1);
                }
            }
            return None;
        }
        assert(acc * 10 + d <= max) by (nonlinear_arith)
            requires
                acc <= (max - d) / 10,
                d <= max,
        ;
        acc = acc * 10 + d;
        assert(all_digits(s.take(i - lo + 1)));
        i += 1;
    }
    assert(s.take(hi - lo) == s);
    Some(acc)
}

/// Reads `v[lo..hi]` as `str::parse` reads an unsigned integer no larger than `max`.
pub fn parse_uint_range(v: &Vec<char>, lo: usize, hi: usize, max: u64) -> (r: Option<u64>)
    requires
        lo <= hi <= v.len(),
    ensures
        match r {
            Some(n) => parse_uint(v@.subrange(lo as int, hi as int), max as nat) == Some(n as nat),
            None => parse_uint(v@.subrange(lo as int, hi as int), max as nat) is None,
        },
{
    let ghost s = v@.subrange(lo as int, hi as int);
    if lo == hi || (hi - lo == 1 && (v[lo] == '+' || v[lo] == '-')) {
        return None;
    }
    assert(s[0] == v@[lo as int]);
    let start = if v[lo] == '+' {
        lo + 1
    } else {
        lo
    };
    assert(v@.subrange(lo + 1, hi as int) == s.drop_first());
    parse_digits(v, start, hi, max)
}

/// Reads `v[lo..hi]` as `str::parse` reads an `i32`.
pub fn parse_i32_range(v: &Vec<char>, lo: usize, hi: usize) -> (r: Option<i32>)
    requires
        lo <= hi <= v.len(),
    ensures
        match r {
            Some(n) => parse_int(v@.subrange(lo as int, hi as int), i32::MIN as int, i32::MAX as int) == Some(
                n as int,
            ),
            None => parse_int(v@.subrange(lo as int, hi as int), i32::MIN as int, i32::MAX as int) is None,
        },
{
    let ghost s = v@.subrange(lo as int, hi as int);
    if lo == hi || (hi - lo == 1 && (v[lo] == '+' || v[lo] == '-')) {
        return None;
    }
    assert(s[0] == v@[lo as int]);
    let neg = v[lo] == '-';
    let start = if v[lo] == '+' || v[lo] == '-' {
        lo + 1
    } else {
        lo
    };
    assert(v@.subrange(lo + 1, hi as int) == s.drop_first());
    let limit: u64 = if neg {
        2147483648
    } else {
        2147483647
    };
    match parse_digits(v, start, hi, limit) {
        Some(n) => {
            if neg {
                if n == 2147483648 {
                    Some(i32::MIN)
                } else {
                    Some(-(n as i32))
                }
            } else {
                Some(n as i32)
            }
        },
        None => None,
    }
}

/// Whether `v[lo..hi]` equals `p` when ASCII letters are compared without case.
pub fn eq_ignore_ascii_case_range(v: &Vec<char>, lo: usize, hi: usize, p: &Vec<char>) -> (b: bool)
    requires
        lo <= hi <= v.len(),
    ensures
        b == eq_ignore_ascii_case(v@.subrange(lo as int, hi as int), p@),
{
    let ghost s = v@.subrange(lo as int, hi as int);
    if hi - lo != p.len() {
        return false;
    }
    let mut k: usize = 0;
    while k < p.len()
        invariant
            lo <= hi <= v.len(),
            hi - lo == p.len(),
            k <= p.len(),
            s == v@.subrange(lo as int, hi as int),
            forall|j: int| 0 <= j < k ==> ascii_lower(#[trigger] s[j]) == ascii_lower(p@[j]),
        decreases p.len() - k,
    {
        let a = v[lo + k];
        let b = p[k];
        let la: u32 = if 'A' <= a && a <= 'Z' {
            (a as u32) + 32
        } else {
            a as u32
        };
        let lb: u32 = if 'A' <= b && b <= 'Z' {
            (b as u32) + 32
        } else {
            b as u32
        };
        assert(s[k as int] == a);
        if la != lb {
            return false;
        }
        k += 1;
    }
    true
}

// ---------------------------------------------------------------------------
// Occurrence
// ---------------------------------------------------------------------------

/// `w` stands somewhere in `s`, as one contiguous piece.
pub open spec fn occurs_in(s: Seq<char>, w: Seq<char>) -> bool {
    exists|i: int| 0 <= i && i + w.len() <= s.len() && #[trigger] s.subrange(i, i + w.len()) == w
}

/// A piece stands in any text built around it.
pub proof fn lemma_occurs_mid(a: Seq<char>, w: Seq<char>, b: Seq<char>)
    ensures
        occurs_in(a + w + b, w),
{
    assert((a + w + b).subrange(a.len() as int, (a.len() + w.len()) as int) =~= w);
}

/// What stands in a piece of `s` stands in `s`.
pub proof fn lemma_occurs_trans(s: Seq<char>, x: Seq<char>, w: Seq<char>)
    requires
        occurs_in(s, x),
        occurs_in(x, w),
    ensures
        occurs_in(s, w),
{
    let i = choose|i: int| 0 <= i && i + x.len() <= s.len() && #[trigger] s.subrange(i, i + x.len()) == x;
    let j = choose|j: int| 0 <= j && j + w.len() <= x.len() && #[trigger] x.subrange(j, j + w.len()) == w;
    assert(s.subrange(i + j, i + j + w.len()) =~= x.subrange(j, j + w.len()));
}

/// A piece of `x` stands in any text built around `x`.
pub proof fn lemma_occurs_around(a: Seq<char>, x: Seq<char>, b: Seq<char>, w: Seq<char>)
    requires
        occurs_in(x, w),
    ensures
        occurs_in(a + x + b, w),
{
    lemma_occurs_mid(a, x, b);
    lemma_occurs_trans(a + x + b, x, w);
}

} // verus!
