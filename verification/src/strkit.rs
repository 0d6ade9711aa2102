//! Character-sequence utilities shared by the request parser and the
//! response encoder: substring search, splitting on a separator,
//! ASCII case folding, and decimal / hexadecimal rendering.

use vstd::prelude::*;

verus! {

/// The pattern `pat` occurs in `s` at position `i`.
pub open spec fn has_at(s: Seq<char>, pat: Seq<char>, i: int) -> bool {
    0 <= i && i + pat.len() <= s.len() && (forall|k: int|
        0 <= k < pat.len() ==> s[i + k] == pat[k])
}

/// Position of the first occurrence of `pat` in `s` at or after `from`.
pub open spec fn find_from(s: Seq<char>, pat: Seq<char>, from: int) -> Option<int>
    decreases s.len() - from,
{
    if from < 0 || from + pat.len() > s.len() {
        None
    } else if has_at(s, pat, from) {
        Some(from)
    } else {
        find_from(s, pat, from + 1)
    }
}

pub proof fn lemma_find_from_some(s: Seq<char>, pat: Seq<char>, from: int, i: int)
    requires
        find_from(s, pat, from) == Some(i),
    ensures
        from <= i,
        has_at(s, pat, i),
        forall|j: int| from <= j < i ==> !has_at(s, pat, j),
    decreases s.len() - from,
{
    if !(from < 0 || from + pat.len() > s.len()) && !has_at(s, pat, from) {
        lemma_find_from_some(s, pat, from + 1, i);
    }
}

pub proof fn lemma_find_from_none(s: Seq<char>, pat: Seq<char>, from: int)
    requires
        0 <= from,
        find_from(s, pat, from) == None::<int>,
    ensures
        forall|j: int| from <= j ==> !has_at(s, pat, j),
    decreases s.len() - from,
{
    if from + pat.len() > s.len() {
        assert(forall|j: int| from <= j ==> !has_at(s, pat, j));
    } else {
        lemma_find_from_none(s, pat, from + 1);
    }
}

/// The first occurrence at or after `from` is exactly the position that
/// occurs and has no occurrence before it.
pub proof fn lemma_find_from_is(s: Seq<char>, pat: Seq<char>, from: int, i: int)
    requires
        0 <= from <= i,
        has_at(s, pat, i),
        forall|j: int| from <= j < i ==> !has_at(s, pat, j),
    ensures
        find_from(s, pat, from) == Some(i),
    decreases i - from,
{
    if from < i {
        lemma_find_from_is(s, pat, from + 1, i);
    }
}

pub proof fn lemma_find_from_is_none(s: Seq<char>, pat: Seq<char>, from: int)
    requires
        0 <= from,
        forall|j: int| from <= j ==> !has_at(s, pat, j),
    ensures
        find_from(s, pat, from) == None::<int>,
    decreases s.len() - from,
{
    if !(from + pat.len() > s.len()) {
        lemma_find_from_is_none(s, pat, from + 1);
    }
}

/// Occurrences in a suffix of `s` are occurrences in `s`, shifted.
pub proof fn lemma_find_from_shift(s: Seq<char>, pat: Seq<char>, from: int)
    requires
        0 <= from <= s.len(),
    ensures
        match find_from(s, pat, from) {
            Some(i) => find_from(s.subrange(from, s.len() as int), pat, 0) == Some(i - from),
            None => find_from(s.subrange(from, s.len() as int), pat, 0) == None::<int>,
        },
{
    let t = s.subrange(from, s.len() as int);
    assert forall|d: int| 0 <= d implies has_at(t, pat, d) == has_at(s, pat, from + d) by {
        if d + pat.len() <= t.len() {
            assert(forall|k: int| 0 <= k < pat.len() ==> #[trigger] t[d + k] == s[from + d + k]);
        }
    }
    match find_from(s, pat, from) {
        Some(i) => {
            lemma_find_from_some(s, pat, from, i);
            assert(forall|j: int| 0 <= j < i - from ==> !has_at(t, pat, j));
            lemma_find_from_is(t, pat, 0, i - from);
        },
        None => {
            lemma_find_from_none(s, pat, from);
            assert(forall|j: int| 0 <= j ==> !has_at(t, pat, j));
            lemma_find_from_is_none(t, pat, 0);
        },
    }
}

/// Substring search on a `&str`, agreeing with `find_from`.
pub fn find_sub(s: &str, pat: &str, from: usize) -> (r: Option<usize>)
    requires
        pat@.len() >= 1,
        from <= s@.len(),
    ensures
        match r {
            Some(i) => find_from(s@, pat@, from as int) == Some(i as int),
            None => find_from(s@, pat@, from as int) == None::<int>,
        },
{
    let n = s.unicode_len();
    let m = pat.unicode_len();
    if m > n {
        proof {
            lemma_find_from_is_none(s@, pat@, from as int);
        }
        return None;
    }
    let mut i = from;
    while i <= n - m
        invariant
            from <= i <= n,
            m >= 1,
            m <= n,
            n == s@.len(),
            m == pat@.len(),
            forall|j: int| from <= j < i ==> !has_at(s@, pat@, j),
        decreases n - i,
    {
        let mut k: usize = 0;
        let mut all = true;
        while k < m
            invariant
                0 <= k <= m,
                i + m <= n,
                n == s@.len(),
                m == pat@.len(),
                all ==> (forall|q: int| 0 <= q < k ==> s@[i + q] == pat@[q]),
                !all ==> !has_at(s@, pat@, i as int),
            decreases m - k,
        {
            if s.get_char(i + k) != pat.get_char(k) {
                all = false;
                proof {
                    assert(!has_at(s@, pat@, i as int));
                }
                k = m;
            } else {
                k = k + 1;
            }
        }
        if all {
            proof {
                assert(has_at(s@, pat@, i as int));
                lemma_find_from_is(s@, pat@, from as int, i as int);
            }
            return Some(i);
        }
        i = i + 1;
    }
    proof {
        assert forall|j: int| from <= j implies !has_at(s@, pat@, j) by {
            if j < i {
            } else {
                assert(j + pat@.len() > s@.len());
            }
        }
        lemma_find_from_is_none(s@, pat@, from as int);
    }
    None
}

/// Character-for-character string equality.
pub fn str_eq(a: &str, b: &str) -> (r: bool)
    ensures
        r == (a@ == b@),
{
    let n = a.unicode_len();
    if n != b.unicode_len() {
        return false;
    }
    let mut i: usize = 0;
    while i < n
        invariant
            0 <= i <= n,
            n == a@.len(),
            n == b@.len(),
            forall|j: int| 0 <= j < i ==> a@[j] == b@[j],
        decreases n - i,
    {
        if a.get_char(i) != b.get_char(i) {
            return false;
        }
        i = i + 1;
    }
    proof {
        assert(a@ =~= b@);
    }
    true
}

/// Whether `s` begins with `p`.
pub fn str_starts_with(s: &str, p: &str) -> (r: bool)
    ensures
        r == has_at(s@, p@, 0),
{
    let n = s.unicode_len();
    let m = p.unicode_len();
    if m > n {
        return false;
    }
    let mut i: usize = 0;
    while i < m
        invariant
            0 <= i <= m,
            m <= n,
            n == s@.len(),
            m == p@.len(),
            forall|j: int| 0 <= j < i ==> s@[j] == p@[j],
        decreases m - i,
    {
        if s.get_char(i) != p.get_char(i) {
            return false;
        }
        i = i + 1;
    }
    true
}

/// An owned copy of `s[a..b]`, counted in characters.
pub fn sub_string(s: &str, a: usize, b: usize) -> (r: String)
    requires
        a <= b <= s@.len(),
    ensures
        r@ == s@.subrange(a as int, b as int),
{
    s.substring_char(a, b).to_owned()
}

/// Relies on alloc's String::push: appends the one character to the string.
pub assume_specification[ String::push ](s: &mut String, c: char)
    ensures
        final(s)@ == old(s)@.push(c),
;

/// ASCII upper-case letters fold to lower case; everything else is kept.
pub open spec fn fold_char(c: char) -> char {
    if c == 'A' { 'a' } else if c == 'B' { 'b' } else if c == 'C' { 'c' }
    else if c == 'D' { 'd' } else if c == 'E' { 'e' } else if c == 'F' { 'f' }
    else if c == 'G' { 'g' } else if c == 'H' { 'h' } else if c == 'I' { 'i' }
    else if c == 'J' { 'j' } else if c == 'K' { 'k' } else if c == 'L' { 'l' }
    else if c == 'M' { 'm' } else if c == 'N' { 'n' } else if c == 'O' { 'o' }
    else if c == 'P' { 'p' } else if c == 'Q' { 'q' } else if c == 'R' { 'r' }
    else if c == 'S' { 's' } else if c == 'T' { 't' } else if c == 'U' { 'u' }
    else if c == 'V' { 'v' } else if c == 'W' { 'w' } else if c == 'X' { 'x' }
    else if c == 'Y' { 'y' } else if c == 'Z' { 'z' } else { c }
}

pub open spec fn fold_chars(s: Seq<char>) -> Seq<char> {
    Seq::new(s.len(), |i: int| fold_char(s[i]))
}

pub fn exec_fold_char(c: char) -> (r: char)
    ensures
        r == fold_char(c),
{
    if c == 'A' { 'a' } else if c == 'B' { 'b' } else if c == 'C' { 'c' }
    else if c == 'D' { 'd' } else if c == 'E' { 'e' } else if c == 'F' { 'f' }
    else if c == 'G' { 'g' } else if c == 'H' { 'h' } else if c == 'I' { 'i' }
    else if c == 'J' { 'j' } else if c == 'K' { 'k' } else if c == 'L' { 'l' }
    else if c == 'M' { 'm' } else if c == 'N' { 'n' } else if c == 'O' { 'o' }
    else if c == 'P' { 'p' } else if c == 'Q' { 'q' } else if c == 'R' { 'r' }
    else if c == 'S' { 's' } else if c == 'T' { 't' } else if c == 'U' { 'u' }
    else if c == 'V' { 'v' } else if c == 'W' { 'w' } else if c == 'X' { 'x' }
    else if c == 'Y' { 'y' } else if c == 'Z' { 'z' } else { c }
}

/// `s` with its ASCII letters folded to lower case.
pub fn fold_str(s: &str) -> (r: String)
    ensures
        r@ == fold_chars(s@),
{
    let n = s.unicode_len();
    let mut r = String::new();
    let mut i: usize = 0;
    while i < n
        invariant
            0 <= i <= n,
            n == s@.len(),
            r@ == fold_chars(s@.subrange(0, i as int)),
        decreases n - i,
    {
        r.push(exec_fold_char(s.get_char(i)));
        proof {
            assert(r@ =~= fold_chars(s@.subrange(0, i + 1)));
        }
        i = i + 1;
    }
    proof {
        assert(s@.subrange(0, n as int) =~= s@);
    }
    r
}

/// The pieces of `s` between occurrences of the separator `sep`,
/// in order; a string without the separator is one piece.
pub open spec fn split_by(s: Seq<char>, sep: Seq<char>) -> Seq<Seq<char>>
    decreases s.len()
    via split_by_decreases
{
    if sep.len() == 0 {
        seq![s]
    } else {
        match find_from(s, sep, 0) {
            None => seq![s],
            Some(i) => seq![s.subrange(0, i)] + split_by(
                s.subrange(i + sep.len(), s.len() as int),
                sep,
            ),
        }
    }
}

#[via_fn]
proof fn split_by_decreases(s: Seq<char>, sep: Seq<char>) {
    if sep.len() > 0 {
        match find_from(s, sep, 0) {
            Some(i) => {
                lemma_find_from_some(s, sep, 0, i);
            },
            None => {},
        }
    }
}

/// Splitting on a `&str`, agreeing with `split_by`.
pub fn split_str(s: &str, sep: &str) -> (r: Vec<String>)
    requires
        sep@.len() >= 1,
    ensures
        r.deep_view() == split_by(s@, sep@),
{
    let n = s.unicode_len();
    let seplen = sep.unicode_len();
    let mut out: Vec<String> = Vec::new();
    let mut pos: usize = 0;
    proof {
        assert(s@.subrange(0, n as int) =~= s@);
        assert(out.deep_view() =~= Seq::<Seq<char>>::empty());
    }
    loop
        invariant
            pos <= n,
            n == s@.len(),
            seplen == sep@.len(),
            seplen >= 1,
            split_by(s@, sep@) == out.deep_view() + split_by(
                s@.subrange(pos as int, n as int),
                sep@,
            ),
        decreases n - pos,
    {
        let ghost tail = s@.subrange(pos as int, n as int);
        proof {
            lemma_find_from_shift(s@, sep@, pos as int);
        }
        match find_sub(s, sep, pos) {
            Some(i) => {
                proof {
                    lemma_find_from_some(s@, sep@, pos as int, i as int);
                    assert(tail.subrange(0, i - pos) =~= s@.subrange(pos as int, i as int));
                    assert(tail.subrange(i - pos + sep@.len(), tail.len() as int) =~= s@.subrange(
                        i + sep@.len(),
                        n as int,
                    ));
                }
                let piece = sub_string(s, pos, i);
                let ghost old_deep = out.deep_view();
                out.push(piece);
                proof {
                    assert(out.deep_view() =~= old_deep.push(piece@));
                    assert(out.deep_view() + split_by(
                        s@.subrange(i + sep@.len(), n as int),
                        sep@,
                    ) =~= split_by(s@, sep@));
                }
                pos = i + seplen;
            },
            None => {
                let piece = sub_string(s, pos, n);
                let ghost old_deep = out.deep_view();
                out.push(piece);
                proof {
                    assert(split_by(tail, sep@) =~= seq![tail]);
                    assert(out.deep_view() =~= old_deep.push(piece@));
                    assert(out.deep_view() =~= split_by(s@, sep@));
                }
                return out;
            },
        }
    }
}

pub open spec fn digit_char(d: int) -> char {
    if d == 0 { '0' } else if d == 1 { '1' } else if d == 2 { '2' }
    else if d == 3 { '3' } else if d == 4 { '4' } else if d == 5 { '5' }
    else if d == 6 { '6' } else if d == 7 { '7' } else if d == 8 { '8' }
    else { '9' }
}

/// The decimal rendering of `n`, without a sign and without leading zeros.
pub open spec fn dec_chars(n: int) -> Seq<char>
    decreases n,
{
    if n < 10 {
        seq![digit_char(n)]
    } else {
        dec_chars(n / 10).push(digit_char(n % 10))
    }
}

fn exec_digit_char(d: usize) -> (r: char)
    requires
        d < 10,
    ensures
        r == digit_char(d as int),
{
    if d == 0 { '0' } else if d == 1 { '1' } else if d == 2 { '2' }
    else if d == 3 { '3' } else if d == 4 { '4' } else if d == 5 { '5' }
    else if d == 6 { '6' } else if d == 7 { '7' } else if d == 8 { '8' }
    else { '9' }
}

/// `n` rendered in decimal.
pub fn dec_string(n: usize) -> (r: String)
    ensures
        r@ == dec_chars(n as int),
    decreases n,
{
    if n < 10 {
        let mut r = String::new();
        r.push(exec_digit_char(n));
        proof {
            assert(r@ =~= dec_chars(n as int));
        }
        r
    } else {
        let mut r = dec_string(n / 10);
        r.push(exec_digit_char(n % 10));
        r
    }
}

pub open spec fn hex_digit(d: int) -> char {
    if d == 0 { '0' } else if d == 1 { '1' } else if d == 2 { '2' }
    else if d == 3 { '3' } else if d == 4 { '4' } else if d == 5 { '5' }
    else if d == 6 { '6' } else if d == 7 { '7' } else if d == 8 { '8' }
    else if d == 9 { '9' } else if d == 10 { 'A' } else if d == 11 { 'B' }
    else if d == 12 { 'C' } else if d == 13 { 'D' } else if d == 14 { 'E' }
    else { 'F' }
}

/// One byte as two upper-case hexadecimal digits.
pub open spec fn hex_byte(b: u8) -> Seq<char> {
    seq![hex_digit(b as int / 16), hex_digit(b as int % 16)]
}

/// A byte sequence as two-digit upper-case hexadecimal pairs joined
/// by single spaces.
pub open spec fn hex_pairs(bs: Seq<u8>) -> Seq<char>
    decreases bs.len(),
{
    if bs.len() == 0 {
        Seq::empty()
    } else if bs.len() == 1 {
        hex_byte(bs[0])
    } else {
        hex_pairs(bs.drop_last()) + seq![' '] + hex_byte(bs.last())
    }
}

fn exec_hex_digit(d: u8) -> (r: char)
    requires
        d < 16,
    ensures
        r == hex_digit(d as int),
{
    if d == 0 { '0' } else if d == 1 { '1' } else if d == 2 { '2' }
    else if d == 3 { '3' } else if d == 4 { '4' } else if d == 5 { '5' }
    else if d == 6 { '6' } else if d == 7 { '7' } else if d == 8 { '8' }
    else if d == 9 { '9' } else if d == 10 { 'A' } else if d == 11 { 'B' }
    else if d == 12 { 'C' } else if d == 13 { 'D' } else if d == 14 { 'E' }
    else { 'F' }
}

/// The bytes rendered as space-separated upper-case hex pairs.
pub fn to_hex_string(bytes: Vec<u8>) -> (r: String)
    ensures
        r@ == hex_pairs(bytes@),
{
    let mut r = String::new();
    let mut i: usize = 0;
    while i < bytes.len()
        invariant
            0 <= i <= bytes@.len(),
            r@ == hex_pairs(bytes@.subrange(0, i as int)),
        decreases bytes@.len() - i,
    {
        if i > 0 {
            r.push(' ');
        }
        let b = bytes[i];
        r.push(exec_hex_digit(b / 16));
        r.push(exec_hex_digit(b % 16));
        proof {
            let pre = bytes@.subrange(0, i + 1);
            assert(pre.drop_last() =~= bytes@.subrange(0, i as int));
            assert(pre.last() == bytes@[i as int]);
            assert(r@ =~= hex_pairs(pre));
        }
        i = i + 1;
    }
    proof {
        assert(bytes@.subrange(0, bytes@.len() as int) =~= bytes@);
    }
    r
}

/// `s` with every trailing NUL character removed.
pub open spec fn strip_nuls(s: Seq<char>) -> Seq<char>
    decreases s.len(),
{
    if s.len() > 0 && s.last() == '\0' {
        strip_nuls(s.drop_last())
    } else {
        s
    }
}

pub fn strip_trailing_nuls(s: &str) -> (r: String)
    ensures
        r@ == strip_nuls(s@),
{
    let n = s.unicode_len();
    let mut e = n;
    proof {
        assert(s@.subrange(0, n as int) =~= s@);
    }
    while e > 0 && s.get_char(e - 1) == '\0'
        invariant
            0 <= e <= n,
            n == s@.len(),
            strip_nuls(s@.subrange(0, e as int)) == strip_nuls(s@),
        decreases e,
    {
        proof {
            let cur = s@.subrange(0, e as int);
            assert(cur.drop_last() =~= s@.subrange(0, e - 1));
        }
        e = e - 1;
    }
    proof {
        let cur = s@.subrange(0, e as int);
        assert(strip_nuls(cur) == cur);
    }
    sub_string(s, 0, e)
}

} // verus!
