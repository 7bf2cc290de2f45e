use vstd::prelude::*;

verus! {

/// Whitespace as the document grammars treat it: space, tab, carriage return,
/// newline.
pub open spec fn is_ws(c: char) -> bool {
    c == ' ' || c == '\t' || c == '\r' || c == '\n'
}

/// Position of the first character at or after `i` that is not whitespace,
/// capped at the end of the text.
pub open spec fn ws_to(s: Seq<char>, i: int) -> int
    decreases s.len() - i,
{
    if 0 <= i < s.len() && is_ws(s[i]) {
        ws_to(s, i + 1)
    } else {
        i
    }
}

pub proof fn lemma_ws_to(s: Seq<char>, i: int)
    requires
        0 <= i <= s.len(),
    ensures
        i <= ws_to(s, i) <= s.len(),
        forall|k: int| i <= k < ws_to(s, i) ==> is_ws(s[k]),
        ws_to(s, i) < s.len() ==> !is_ws(s[ws_to(s, i)]),
    decreases s.len() - i,
{
    if i < s.len() && is_ws(s[i]) {
        lemma_ws_to(s, i + 1);
    }
}

/// True when the text `lit` occurs in `s` exactly at position `i`.
pub open spec fn lit_at(s: Seq<char>, i: int, lit: Seq<char>) -> bool {
    &&& 0 <= i
    &&& i + lit.len() <= s.len()
    &&& s.subrange(i, i + lit.len()) == lit
}

/// The clamped continuation position of a parser: a production that consumed
/// text up to `j` hands `j` on, and a production that failed to advance past
/// `i` is forced one step forward so that recursion over positions is visibly
/// finite.  Every successful production of these grammars consumes at least
/// one character, so the clamp never changes a reachable result.
pub open spec fn adv(i: int, j: int) -> int {
    if j > i {
        j
    } else {
        i + 1
    }
}

/// Skips whitespace starting at `i`; returns the first non-whitespace position.
pub fn skip_ws(s: &str, i: usize, n: usize) -> (r: usize)
    requires
        n == s@.len(),
        s@.len() <= usize::MAX,
        i <= n,
    ensures
        r == ws_to(s@, i as int),
        i <= r <= n,
{
    proof {
        lemma_ws_to(s@, i as int);
    }
    let mut p = i;
    while p < n
        invariant
            i <= p <= n,
            n == s@.len(),
            s@.len() <= usize::MAX,
            ws_to(s@, i as int) == ws_to(s@, p as int),
        ensures
            i <= p <= n,
            ws_to(s@, p as int) == p as int,
            ws_to(s@, i as int) == ws_to(s@, p as int),
        decreases n - p,
    {
        let c = s.get_char(p);
        if c == ' ' || c == '\t' || c == '\r' || c == '\n' {
            p = p + 1;
        } else {
            break;
        }
    }
    p
}

/// Tests whether the literal `lit` occurs in `s` exactly at position `i`.
pub fn match_lit(s: &str, i: usize, n: usize, lit: &str) -> (r: bool)
    requires
        n == s@.len(),
        s@.len() <= usize::MAX,
        i <= n,
    ensures
        r == lit_at(s@, i as int, lit@),
{
    let m = lit.unicode_len();
    if m > n - i {
        return false;
    }
    let mut k: usize = 0;
    while k < m
        invariant
            0 <= k <= m,
            m == lit@.len(),
            n == s@.len(),
            s@.len() <= usize::MAX,
            i + m <= n,
            forall|q: int| 0 <= q < k ==> s@[i + q] == lit@[q],
        ensures
            k == m ==> forall|q: int| 0 <= q < m ==> s@[i + q] == lit@[q],
            k < m ==> s@[i + k] != lit@[k as int],
        decreases m - k,
    {
        let a = s.get_char(i + k);
        let b = lit.get_char(k);
        if a != b {
            break;
        }
        k = k + 1;
    }
    if k == m {
        proof {
            assert(s@.subrange(i as int, i + lit@.len()) =~= lit@);
        }
        true
    } else {
        proof {
            if lit_at(s@, i as int, lit@) {
                assert(s@.subrange(i as int, i + lit@.len())[k as int] == lit@[k as int]);
            }
        }
        false
    }
}

/// Character-for-character equality of two text slices.
pub fn str_eq(a: &str, b: &str) -> (r: bool)
    ensures
        r == (a@ == b@),
{
    let n = a.unicode_len();
    let m = b.unicode_len();
    if n != m {
        return false;
    }
    let r = match_lit(a, 0, n, b);
    proof {
        if r {
            assert(a@.subrange(0, a@.len() as int) =~= a@);
        } else {
            if a@ == b@ {
                assert(a@.subrange(0, b@.len() as int) =~= b@);
            }
        }
    }
    r
}

/// Position of the first occurrence of `c` at or after `i`, capped at the end
/// of the text when there is none.
pub open spec fn find_char(s: Seq<char>, i: int, c: char) -> int
    decreases s.len() - i,
{
    if 0 <= i < s.len() && s[i] != c {
        find_char(s, i + 1, c)
    } else {
        i
    }
}

pub proof fn lemma_find_char(s: Seq<char>, i: int, c: char)
    requires
        0 <= i <= s.len(),
    ensures
        i <= find_char(s, i, c) <= s.len(),
        forall|k: int| i <= k < find_char(s, i, c) ==> s[k] != c,
        find_char(s, i, c) < s.len() ==> s[find_char(s, i, c)] == c,
    decreases s.len() - i,
{
    if i < s.len() && s[i] != c {
        lemma_find_char(s, i + 1, c);
    }
}

/// Scans for the first occurrence of `c` at or after `i`; returns its
/// position, or the end of the text when there is none.
pub fn find_char_at(s: &str, i: usize, n: usize, c: char) -> (r: usize)
    requires
        n == s@.len(),
        s@.len() <= usize::MAX,
        i <= n,
    ensures
        r == find_char(s@, i as int, c),
        i <= r <= n,
{
    proof {
        lemma_find_char(s@, i as int, c);
    }
    let mut p = i;
    while p < n
        invariant
            i <= p <= n,
            n == s@.len(),
            s@.len() <= usize::MAX,
            find_char(s@, i as int, c) == find_char(s@, p as int, c),
        ensures
            i <= p <= n,
            find_char(s@, p as int, c) == p as int,
            find_char(s@, i as int, c) == find_char(s@, p as int, c),
        decreases n - p,
    {
        let x = s.get_char(p);
        if x == c {
            break;
        }
        p = p + 1;
    }
    p
}

/// Position of the first occurrence of the text `pat` at or after `i`, capped
/// at the end of the text when there is none.
pub open spec fn find_lit(s: Seq<char>, i: int, pat: Seq<char>) -> int
    decreases s.len() - i,
{
    if 0 <= i < s.len() && !lit_at(s, i, pat) {
        find_lit(s, i + 1, pat)
    } else {
        i
    }
}

pub proof fn lemma_find_lit(s: Seq<char>, i: int, pat: Seq<char>)
    requires
        0 <= i <= s.len(),
        pat.len() > 0,
    ensures
        i <= find_lit(s, i, pat) <= s.len(),
        find_lit(s, i, pat) < s.len() ==> lit_at(s, find_lit(s, i, pat), pat),
        forall|k: int| i <= k < find_lit(s, i, pat) ==> !lit_at(s, k, pat),
    decreases s.len() - i,
{
    if i < s.len() && !lit_at(s, i, pat) {
        lemma_find_lit(s, i + 1, pat);
    }
}

/// Scans for the first occurrence of the literal `pat` at or after `i`.
pub fn find_lit_at(s: &str, i: usize, n: usize, pat: &str) -> (r: usize)
    requires
        n == s@.len(),
        s@.len() <= usize::MAX,
        i <= n,
        pat@.len() > 0,
    ensures
        r == find_lit(s@, i as int, pat@),
        i <= r <= n,
{
    proof {
        lemma_find_lit(s@, i as int, pat@);
    }
    let mut p = i;
    while p < n
        invariant
            i <= p <= n,
            n == s@.len(),
            s@.len() <= usize::MAX,
            pat@.len() > 0,
            find_lit(s@, i as int, pat@) == find_lit(s@, p as int, pat@),
        ensures
            i <= p <= n,
            find_lit(s@, p as int, pat@) == p as int,
            find_lit(s@, i as int, pat@) == find_lit(s@, p as int, pat@),
        decreases n - p,
    {
        if match_lit(s, p, n, pat) {
            break ;
        }
        p = p + 1;
    }
    p
}

/// End of the text once trailing whitespace is removed: the position after
/// the last non-whitespace character, or zero when every character is
/// whitespace.
pub open spec fn trim_end_to(s: Seq<char>) -> int
    decreases s.len(),
{
    if s.len() > 0 && is_ws(s[s.len() - 1]) {
        trim_end_to(s.drop_last())
    } else {
        s.len() as int
    }
}

pub proof fn lemma_trim_end_to(s: Seq<char>)
    ensures
        0 <= trim_end_to(s) <= s.len(),
        forall|k: int| trim_end_to(s) <= k < s.len() ==> is_ws(s[k]),
        trim_end_to(s) > 0 ==> !is_ws(s[trim_end_to(s) - 1]),
    decreases s.len(),
{
    if s.len() > 0 && is_ws(s[s.len() - 1]) {
        lemma_trim_end_to(s.drop_last());
        assert forall|k: int| trim_end_to(s) <= k < s.len() implies is_ws(s[k]) by {
            if k < s.len() - 1 {
                assert(s.drop_last()[k] == s[k]);
            }
        }
    }
}

/// Scans backwards over trailing whitespace; returns the position after the
/// last non-whitespace character.
pub fn skip_trailing_ws(s: &str, n: usize) -> (r: usize)
    requires
        n == s@.len(),
        s@.len() <= usize::MAX,
    ensures
        r == trim_end_to(s@),
{
    proof {
        assert(s@.subrange(0, s@.len() as int) =~= s@);
    }
    let mut t = n;
    while t > 0
        invariant
            0 <= t <= n,
            n == s@.len(),
            s@.len() <= usize::MAX,
            trim_end_to(s@.subrange(0, t as int)) == trim_end_to(s@),
        ensures
            0 <= t <= n,
            trim_end_to(s@.subrange(0, t as int)) == trim_end_to(s@),
            trim_end_to(s@.subrange(0, t as int)) == t as int,
        decreases t,
    {
        let c = s.get_char(t - 1);
        if c == ' ' || c == '\t' || c == '\r' || c == '\n' {
            proof {
                assert(s@.subrange(0, t as int).drop_last() =~= s@.subrange(0, t - 1));
            }
            t = t - 1;
        } else {
            assert(trim_end_to(s@.subrange(0, t as int)) == t as int);
            break ;
        }
    }
    proof {
        if t == 0 {
            assert(s@.subrange(0, 0).len() == 0);
        }
    }
    t
}

/// A character that may start a name: an ASCII letter or an underscore.
pub open spec fn is_name_start_char(c: char) -> bool {
    ('a' <= c && c <= 'z') || ('A' <= c && c <= 'Z') || c == '_'
}

/// A character that may continue a name: a name-start character, a digit, a
/// hyphen or a dot.
pub open spec fn is_name_char(c: char) -> bool {
    is_name_start_char(c) || is_digit(c) || c == '-' || c == '.'
}

/// Position of the first character at or after `i` that cannot continue a
/// name, capped at the end of the text.
pub open spec fn name_to(s: Seq<char>, i: int) -> int
    decreases s.len() - i,
{
    if 0 <= i < s.len() && is_name_char(s[i]) {
        name_to(s, i + 1)
    } else {
        i
    }
}

pub proof fn lemma_name_to(s: Seq<char>, i: int)
    requires
        0 <= i <= s.len(),
    ensures
        i <= name_to(s, i) <= s.len(),
        forall|k: int| i <= k < name_to(s, i) ==> is_name_char(s[k]),
        name_to(s, i) < s.len() ==> !is_name_char(s[name_to(s, i)]),
    decreases s.len() - i,
{
    if i < s.len() && is_name_char(s[i]) {
        lemma_name_to(s, i + 1);
    }
}

/// Skips name characters starting at `i`.
pub fn skip_name_chars(s: &str, i: usize, n: usize) -> (r: usize)
    requires
        n == s@.len(),
        s@.len() <= usize::MAX,
        i <= n,
    ensures
        r == name_to(s@, i as int),
        i <= r <= n,
{
    proof {
        lemma_name_to(s@, i as int);
    }
    let mut p = i;
    while p < n
        invariant
            i <= p <= n,
            n == s@.len(),
            s@.len() <= usize::MAX,
            name_to(s@, i as int) == name_to(s@, p as int),
        ensures
            i <= p <= n,
            name_to(s@, p as int) == p as int,
            name_to(s@, i as int) == name_to(s@, p as int),
        decreases n - p,
    {
        let c = s.get_char(p);
        if (c >= 'a' && c <= 'z') || (c >= 'A' && c <= 'Z') || c == '_' || (c >= '0' && c <= '9')
            || c == '-' || c == '.' {
            p = p + 1;
        } else {
            break ;
        }
    }
    p
}

/// Position of the first character at or after `i` that is not a hexadecimal
/// digit, capped at the end of the text.
pub open spec fn hex_to(s: Seq<char>, i: int) -> int
    decreases s.len() - i,
{
    if 0 <= i < s.len() && is_hex_digit(s[i]) {
        hex_to(s, i + 1)
    } else {
        i
    }
}

pub proof fn lemma_hex_to(s: Seq<char>, i: int)
    requires
        0 <= i <= s.len(),
    ensures
        i <= hex_to(s, i) <= s.len(),
        forall|k: int| i <= k < hex_to(s, i) ==> is_hex_digit(s[k]),
        hex_to(s, i) < s.len() ==> !is_hex_digit(s[hex_to(s, i)]),
    decreases s.len() - i,
{
    if i < s.len() && is_hex_digit(s[i]) {
        lemma_hex_to(s, i + 1);
    }
}

/// Skips hexadecimal digits starting at `i`.
pub fn skip_hex_digits(s: &str, i: usize, n: usize) -> (r: usize)
    requires
        n == s@.len(),
        s@.len() <= usize::MAX,
        i <= n,
    ensures
        r == hex_to(s@, i as int),
        i <= r <= n,
{
    proof {
        lemma_hex_to(s@, i as int);
    }
    let mut p = i;
    while p < n
        invariant
            i <= p <= n,
            n == s@.len(),
            s@.len() <= usize::MAX,
            hex_to(s@, i as int) == hex_to(s@, p as int),
        ensures
            i <= p <= n,
            hex_to(s@, p as int) == p as int,
            hex_to(s@, i as int) == hex_to(s@, p as int),
        decreases n - p,
    {
        let c = s.get_char(p);
        if (c >= '0' && c <= '9') || (c >= 'a' && c <= 'f') || (c >= 'A' && c <= 'F') {
            p = p + 1;
        } else {
            break ;
        }
    }
    p
}

/// The number a sequence of decimal digits denotes.
pub open spec fn dec_num(s: Seq<char>) -> int
    decreases s.len(),
{
    if s.len() == 0 {
        0
    } else {
        dec_num(s.drop_last()) * 10 + digit_val(s.last())
    }
}

/// The number a sequence of hexadecimal digits denotes.
pub open spec fn hex_num(s: Seq<char>) -> int
    decreases s.len(),
{
    if s.len() == 0 {
        0
    } else {
        hex_num(s.drop_last()) * 16 + hex_val(s.last())
    }
}

pub proof fn lemma_dec_num_bound(s: Seq<char>)
    requires
        forall|k: int| 0 <= k < s.len() ==> is_digit(s[k]),
    ensures
        0 <= dec_num(s),
        s.len() <= 1 ==> dec_num(s) <= 9,
        s.len() <= 2 ==> dec_num(s) <= 99,
        s.len() <= 3 ==> dec_num(s) <= 999,
        s.len() <= 4 ==> dec_num(s) <= 9999,
        s.len() <= 5 ==> dec_num(s) <= 99999,
        s.len() <= 6 ==> dec_num(s) <= 999999,
    decreases s.len(),
{
    if s.len() > 0 {
        assert(forall|k: int| 0 <= k < s.drop_last().len() ==> is_digit(#[trigger] s.drop_last()[k]));
        lemma_dec_num_bound(s.drop_last());
    }
}

pub proof fn lemma_hex_num_bound(s: Seq<char>)
    requires
        forall|k: int| 0 <= k < s.len() ==> is_hex_digit(s[k]),
    ensures
        0 <= hex_num(s),
        s.len() <= 1 ==> hex_num(s) <= 0xf,
        s.len() <= 2 ==> hex_num(s) <= 0xff,
        s.len() <= 3 ==> hex_num(s) <= 0xfff,
        s.len() <= 4 ==> hex_num(s) <= 0xffff,
        s.len() <= 5 ==> hex_num(s) <= 0xfffff,
        s.len() <= 6 ==> hex_num(s) <= 0xffffff,
    decreases s.len(),
{
    if s.len() > 0 {
        assert(forall|k: int|
            0 <= k < s.drop_last().len() ==> is_hex_digit(#[trigger] s.drop_last()[k]));
        lemma_hex_num_bound(s.drop_last());
    }
}

/// The text with every occurrence of `pat` replaced by `v`, scanning left
/// to right.
pub open spec fn spec_render(t: Seq<char>, pat: Seq<char>, v: Seq<char>) -> Seq<char>
    decreases t.len(),
{
    if pat.len() == 0 {
        t
    } else {
        let j = find_lit(t, 0, pat);
        if 0 <= j && j + pat.len() <= t.len() && lit_at(t, j, pat) {
            t.subrange(0, j) + v + spec_render(t.subrange(j + pat.len(), t.len() as int), pat, v)
        } else {
            t
        }
    }
}

/// True when `pat` occurs somewhere in `t`.
pub open spec fn contains_lit(t: Seq<char>, pat: Seq<char>) -> bool {
    lit_at(t, find_lit(t, 0, pat), pat)
}

/// Replaces every occurrence of `pat` in `t` by `v`, scanning left to right.
pub fn replace_all(t: &str, pat: &str, v: &str) -> (r: String)
    requires
        pat@.len() > 0,
    ensures
        r@ == spec_render(t@, pat@, v@),
    decreases t@.len(),
{
    proof {
        lemma_find_lit(t@, 0, pat@);
    }
    let n = t.unicode_len();
    let m = pat.unicode_len();
    let j = find_lit_at(t, 0, n, pat);
    if j < n {
        let mut out = t.substring_char(0, j).to_owned();
        out.append(v);
        let rest = t.substring_char(j + m, n);
        let tail = replace_all(rest, pat, v);
        out.append(tail.as_str());
        out
    } else {
        t.to_owned()
    }
}

/// Reports whether `pat` occurs somewhere in `t`.
pub fn contains_str(t: &str, pat: &str) -> (r: bool)
    requires
        pat@.len() > 0,
    ensures
        r == contains_lit(t@, pat@),
{
    proof {
        lemma_find_lit(t@, 0, pat@);
    }
    let n = t.unicode_len();
    let j = find_lit_at(t, 0, n, pat);
    if j < n {
        true
    } else {
        false
    }
}

/// A decimal digit.
pub open spec fn is_digit(c: char) -> bool {
    '0' <= c && c <= '9'
}

/// The numeric value of a decimal digit.
pub open spec fn digit_val(c: char) -> int {
    c as int - '0' as int
}

/// A hexadecimal digit.
pub open spec fn is_hex_digit(c: char) -> bool {
    ||| '0' <= c && c <= '9'
    ||| 'a' <= c && c <= 'f'
    ||| 'A' <= c && c <= 'F'
}

/// The numeric value of a hexadecimal digit.
pub open spec fn hex_val(c: char) -> int {
    if '0' <= c && c <= '9' {
        c as int - '0' as int
    } else if 'a' <= c && c <= 'f' {
        10 + c as int - 'a' as int
    } else {
        10 + c as int - 'A' as int
    }
}

/// An ASCII letter or digit.
pub open spec fn is_ascii_alnum(c: char) -> bool {
    ||| '0' <= c && c <= '9'
    ||| 'a' <= c && c <= 'z'
    ||| 'A' <= c && c <= 'Z'
}

/// Position of the first character at or after `i` that is not a decimal
/// digit, capped at the end of the text.
pub open spec fn digits_to(s: Seq<char>, i: int) -> int
    decreases s.len() - i,
{
    if 0 <= i < s.len() && is_digit(s[i]) {
        digits_to(s, i + 1)
    } else {
        i
    }
}

pub proof fn lemma_digits_to(s: Seq<char>, i: int)
    requires
        0 <= i <= s.len(),
    ensures
        i <= digits_to(s, i) <= s.len(),
        forall|k: int| i <= k < digits_to(s, i) ==> is_digit(s[k]),
        digits_to(s, i) < s.len() ==> !is_digit(s[digits_to(s, i)]),
    decreases s.len() - i,
{
    if i < s.len() && is_digit(s[i]) {
        lemma_digits_to(s, i + 1);
    }
}

/// Skips decimal digits starting at `i`; returns the first non-digit position.
pub fn skip_digits(s: &str, i: usize, n: usize) -> (r: usize)
    requires
        n == s@.len(),
        s@.len() <= usize::MAX,
        i <= n,
    ensures
        r == digits_to(s@, i as int),
        i <= r <= n,
{
    proof {
        lemma_digits_to(s@, i as int);
    }
    let mut p = i;
    while p < n
        invariant
            i <= p <= n,
            n == s@.len(),
            s@.len() <= usize::MAX,
            digits_to(s@, i as int) == digits_to(s@, p as int),
        ensures
            i <= p <= n,
            digits_to(s@, p as int) == p as int,
            digits_to(s@, i as int) == digits_to(s@, p as int),
        decreases n - p,
    {
        let c = s.get_char(p);
        if c >= '0' && c <= '9' {
            p = p + 1;
        } else {
            break;
        }
    }
    p
}

} // verus!
