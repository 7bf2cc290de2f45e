use vstd::prelude::*;

use crate::parser::{
    error_matches, spliced, split_path, split_str, splice_text, CodecError, FindOutcome,
    FormatCodec,
};
use crate::text::{
    adv, digits_to, lit_at, lemma_digits_to, lemma_ws_to, match_lit, skip_digits, skip_ws, ws_to,
};
use crate::utils::TextSpan;

verus! {

// ---------------------------------------------------------------------------
// The mathematical account of the document grammar.
//
// A document is modelled as a tree over the character sequence of the buffer.
// String leaves carry only the range of buffer positions holding their raw
// text (escape sequences are kept undecoded), so that a leaf names exactly
// the characters a replace may overwrite.  Object entries pair the raw key
// text with the entry's value; numbers and booleans are recognised but carry
// no replaceable text.
// ---------------------------------------------------------------------------

/// The parse tree of a document, as specification-level data.
pub enum SpecJson {
    Null,
    Bool(bool),
    Num,
    Text { start: int, end: int },
    Arr(Seq<SpecJson>),
    Obj(Seq<(Seq<char>, SpecJson)>),
}

/// A character that may stand unescaped inside a string literal: anything
/// that is not a control character, a backslash or a double quote.
pub open spec fn is_json_str_char(c: char) -> bool {
    !is_control_char(c) && c != '\\' && c != '"'
}

/// A control character (the Unicode Cc category).
pub open spec fn is_control_char(c: char) -> bool {
    (c as int) < 0x20 || (0x7f <= c as int && c as int <= 0x9f)
}

/// The only characters that may follow a backslash inside a string literal:
/// the grammar supports exactly the escapes `\"`, `\n` and `\\`.
pub open spec fn is_json_escape(c: char) -> bool {
    c == '"' || c == 'n' || c == '\\'
}

/// End of a string body starting at `i`: the position of the first character
/// that neither stands on its own nor forms a supported escape.  `None` when
/// a backslash is followed by an unsupported character, which makes the whole
/// document malformed.
pub open spec fn str_body_end(s: Seq<char>, i: int) -> Option<int>
    decreases s.len() - i,
{
    if i < 0 {
        None
    } else if i >= s.len() {
        Some(i)
    } else if is_json_str_char(s[i]) {
        str_body_end(s, i + 1)
    } else if s[i] == '\\' {
        if i + 1 < s.len() && is_json_escape(s[i + 1]) {
            str_body_end(s, i + 2)
        } else {
            None
        }
    } else {
        Some(i)
    }
}

pub proof fn lemma_str_body_end(s: Seq<char>, i: int)
    requires
        0 <= i <= s.len(),
    ensures
        str_body_end(s, i) matches Some(j) ==> i <= j <= s.len(),
    decreases s.len() - i,
{
    if i < s.len() && is_json_str_char(s[i]) {
        lemma_str_body_end(s, i + 1);
    } else if i < s.len() && s[i] == '\\' && i + 1 < s.len() && is_json_escape(s[i + 1]) {
        lemma_str_body_end(s, i + 2);
    }
}

/// A string literal at `i`: an opening quote, a string body, a closing quote.
/// On success: the position after the closing quote, and the range holding
/// the raw body text.
pub open spec fn spec_string(s: Seq<char>, i: int) -> Option<(int, int, int)> {
    if 0 <= i < s.len() && s[i] == '"' {
        match str_body_end(s, i + 1) {
            Some(j) => if j < s.len() && s[j] == '"' {
                Some((j + 1, i + 1, j))
            } else {
                None
            },
            None => None,
        }
    } else {
        None
    }
}

pub proof fn lemma_spec_string(s: Seq<char>, i: int)
    requires
        0 <= i <= s.len(),
    ensures
        spec_string(s, i) matches Some((j, cs, ce)) ==> i < j <= s.len() && i < cs <= ce < j,
{
    if 0 <= i < s.len() && s[i] == '"' {
        lemma_str_body_end(s, i + 1);
    }
}

/// End of a number token at `i`: an optional sign, digits with an optional
/// fraction part, and an optional exponent, as long as at least one digit is
/// present.  `None` when no number starts at `i`.
pub open spec fn spec_number_end(s: Seq<char>, i: int) -> Option<int> {
    let p0 = if 0 <= i < s.len() && (s[i] == '+' || s[i] == '-') {
        i + 1
    } else {
        i
    };
    let d1 = digits_to(s, p0);
    let frac_end = if d1 < s.len() && s[d1] == '.' {
        digits_to(s, d1 + 1)
    } else {
        d1
    };
    let has_digits = d1 > p0 || frac_end > d1 + 1;
    if !has_digits {
        None
    } else {
        if frac_end < s.len() && (s[frac_end] == 'e' || s[frac_end] == 'E') {
            let x0 = if frac_end + 1 < s.len() && (s[frac_end + 1] == '+' || s[frac_end + 1]
                == '-') {
                frac_end + 2
            } else {
                frac_end + 1
            };
            if digits_to(s, x0) > x0 {
                Some(digits_to(s, x0))
            } else {
                Some(frac_end)
            }
        } else {
            Some(frac_end)
        }
    }
}

pub proof fn lemma_spec_number_end(s: Seq<char>, i: int)
    requires
        0 <= i <= s.len(),
    ensures
        spec_number_end(s, i) matches Some(j) ==> i < j <= s.len(),
{
    let p0 = if 0 <= i < s.len() && (s[i] == '+' || s[i] == '-') {
        i + 1
    } else {
        i
    };
    lemma_digits_to(s, p0);
    let d1 = digits_to(s, p0);
    if d1 < s.len() && s[d1] == '.' {
        lemma_digits_to(s, d1 + 1);
    }
    let frac_end = if d1 < s.len() && s[d1] == '.' {
        digits_to(s, d1 + 1)
    } else {
        d1
    };
    if frac_end < s.len() && (s[frac_end] == 'e' || s[frac_end] == 'E') {
        let x0 = if frac_end + 1 < s.len() && (s[frac_end + 1] == '+' || s[frac_end + 1] == '-') {
            frac_end + 2
        } else {
            frac_end + 1
        };
        if x0 <= s.len() {
            lemma_digits_to(s, x0);
        }
    }
}

/// The measure that bounds how much text a production may still consume.
pub open spec fn rem(s: Seq<char>, i: int) -> int {
    if i < s.len() {
        s.len() - i
    } else {
        0
    }
}

/// A value at `i`, after optional leading whitespace: an object, an array, a
/// string, a literal `true`, `false` or `null`, or a number.  On success: the
/// position after the value, and the value itself.
pub open spec fn spec_value(s: Seq<char>, i: int) -> Option<(int, SpecJson)>
    decreases rem(s, i), 0int,
{
    if !(0 <= i < s.len()) {
        None
    } else {
        let p = ws_to(s, i);
        if !(0 <= p < s.len()) {
            None
        } else if s[p] == '{' {
            spec_object(s, adv(i, p + 1))
        } else if s[p] == '[' {
            spec_array(s, adv(i, p + 1))
        } else if s[p] == '"' {
            match spec_string(s, p) {
                Some((j, cs, ce)) => Some((j, SpecJson::Text { start: cs, end: ce })),
                None => None,
            }
        } else if lit_at(s, p, "true"@) {
            Some((p + "true"@.len(), SpecJson::Bool(true)))
        } else if lit_at(s, p, "false"@) {
            Some((p + "false"@.len(), SpecJson::Bool(false)))
        } else if lit_at(s, p, "null"@) {
            Some((p + "null"@.len(), SpecJson::Null))
        } else {
            match spec_number_end(s, p) {
                Some(j) => Some((j, SpecJson::Num)),
                None => None,
            }
        }
    }
}

/// One object entry at `i`: optional whitespace, a key string, optional
/// whitespace, a colon, then a value.  On success: the position after the
/// value, the raw key text and the value.
pub open spec fn spec_member(s: Seq<char>, i: int) -> Option<(int, (Seq<char>, SpecJson))>
    decreases rem(s, i), 1int,
{
    if !(0 <= i < s.len()) {
        None
    } else {
        let p = ws_to(s, i);
        match spec_string(s, p) {
            None => None,
            Some((j, ks, ke)) => {
                let c = ws_to(s, j);
                if 0 <= c < s.len() && s[c] == ':' {
                    match spec_value(s, adv(i, c + 1)) {
                        Some((k, v)) => Some((k, (s.subrange(ks, ke), v))),
                        None => None,
                    }
                } else {
                    None
                }
            },
        }
    }
}

/// The entries of an object body starting at `i`: a possibly empty list of
/// entries separated by optional whitespace and a comma.  Returns the
/// position after the last entry (unchanged when there is none) and the
/// entries in document order.
pub open spec fn spec_members(s: Seq<char>, i: int) -> (int, Seq<(Seq<char>, SpecJson)>)
    decreases rem(s, i), 2int,
{
    if !(0 <= i < s.len()) {
        (i, Seq::empty())
    } else {
        match spec_member(s, i) {
            None => (i, Seq::empty()),
            Some((j, kv)) => {
                let (k, rest) = spec_members_tail(s, adv(i, j));
                (k, seq![kv] + rest)
            },
        }
    }
}

/// Further object entries after a complete entry ending at `i`: whenever
/// optional whitespace, a comma and another entry follow, the entry is taken
/// and the scan continues; otherwise the list ends at `i`.
pub open spec fn spec_members_tail(s: Seq<char>, i: int) -> (int, Seq<(Seq<char>, SpecJson)>)
    decreases rem(s, i), 2int,
{
    if !(0 <= i < s.len()) {
        (i, Seq::empty())
    } else {
        let t = ws_to(s, i);
        if 0 <= t < s.len() && s[t] == ',' {
            match spec_member(s, adv(i, t + 1)) {
                None => (i, Seq::empty()),
                Some((j, kv)) => {
                    let (k, rest) = spec_members_tail(s, adv(i, j));
                    (k, seq![kv] + rest)
                },
            }
        } else {
            (i, Seq::empty())
        }
    }
}

/// An object whose opening brace ended just before `i`: its entries, optional
/// whitespace, and the closing brace.
pub open spec fn spec_object(s: Seq<char>, i: int) -> Option<(int, SpecJson)>
    decreases rem(s, i), 3int,
{
    if !(0 <= i <= s.len()) {
        None
    } else {
        let (j, items) = spec_members(s, i);
        let w = ws_to(s, j);
        if 0 <= w < s.len() && s[w] == '}' {
            Some((w + 1, SpecJson::Obj(items)))
        } else {
            None
        }
    }
}

/// The elements of an array body starting at `i`, like `spec_members` but
/// with plain values.
pub open spec fn spec_elems(s: Seq<char>, i: int) -> (int, Seq<SpecJson>)
    decreases rem(s, i), 2int,
{
    if !(0 <= i < s.len()) {
        (i, Seq::empty())
    } else {
        match spec_value(s, i) {
            None => (i, Seq::empty()),
            Some((j, v)) => {
                let (k, rest) = spec_elems_tail(s, adv(i, j));
                (k, seq![v] + rest)
            },
        }
    }
}

/// Further array elements after a complete element ending at `i`.
pub open spec fn spec_elems_tail(s: Seq<char>, i: int) -> (int, Seq<SpecJson>)
    decreases rem(s, i), 2int,
{
    if !(0 <= i < s.len()) {
        (i, Seq::empty())
    } else {
        let t = ws_to(s, i);
        if 0 <= t < s.len() && s[t] == ',' {
            match spec_value(s, adv(i, t + 1)) {
                None => (i, Seq::empty()),
                Some((j, v)) => {
                    let (k, rest) = spec_elems_tail(s, adv(i, j));
                    (k, seq![v] + rest)
                },
            }
        } else {
            (i, Seq::empty())
        }
    }
}

/// An array whose opening bracket ended just before `i`: its elements,
/// optional whitespace, and the closing bracket.
pub open spec fn spec_array(s: Seq<char>, i: int) -> Option<(int, SpecJson)>
    decreases rem(s, i), 3int,
{
    if !(0 <= i <= s.len()) {
        None
    } else {
        let (j, elems) = spec_elems(s, i);
        let w = ws_to(s, j);
        if 0 <= w < s.len() && s[w] == ']' {
            Some((w + 1, SpecJson::Arr(elems)))
        } else {
            None
        }
    }
}

/// The root of a document: after optional whitespace, an object, an array or
/// the literal `null`.  Text after the root value is ignored.
pub open spec fn spec_root(s: Seq<char>) -> Option<SpecJson> {
    let p = ws_to(s, 0);
    if !(0 <= p < s.len()) {
        None
    } else if s[p] == '{' {
        match spec_object(s, p + 1) {
            Some((j, v)) => Some(v),
            None => None,
        }
    } else if s[p] == '[' {
        match spec_array(s, p + 1) {
            Some((j, v)) => Some(v),
            None => None,
        }
    } else if lit_at(s, p, "null"@) {
        Some(SpecJson::Null)
    } else {
        None
    }
}

// ---------------------------------------------------------------------------
// Well-formedness: every text range a parse produces lies inside the buffer.
// ---------------------------------------------------------------------------

/// All text ranges in the tree lie inside a buffer of length `n`.
pub open spec fn spans_wf(v: SpecJson, n: int) -> bool
    decreases v,
{
    match v {
        SpecJson::Null => true,
        SpecJson::Bool(b) => true,
        SpecJson::Num => true,
        SpecJson::Text { start, end } => 0 <= start <= end <= n,
        SpecJson::Arr(elems) => forall|k: int|
            0 <= k < elems.len() ==> spans_wf(#[trigger] elems[k], n),
        SpecJson::Obj(ms) => forall|k: int| 0 <= k < ms.len() ==> spans_wf((#[trigger] ms[k]).1, n),
    }
}

pub proof fn lemma_value_wf(s: Seq<char>, i: int)
    ensures
        spec_value(s, i) matches Some((j, v)) ==> i < j <= s.len() && spans_wf(v, s.len() as int),
    decreases rem(s, i), 0int,
{
    reveal_strlit("true");
    reveal_strlit("false");
    reveal_strlit("null");
    if 0 <= i < s.len() {
        lemma_ws_to(s, i);
        let p = ws_to(s, i);
        if 0 <= p < s.len() {
            if s[p] == '{' {
                lemma_object_wf(s, adv(i, p + 1));
            } else if s[p] == '[' {
                lemma_array_wf(s, adv(i, p + 1));
            } else if s[p] == '"' {
                lemma_spec_string(s, p);
            } else if lit_at(s, p, "true"@) || lit_at(s, p, "false"@) || lit_at(s, p, "null"@) {
            } else {
                lemma_spec_number_end(s, p);
            }
        }
    }
}

pub proof fn lemma_member_wf(s: Seq<char>, i: int)
    ensures
        spec_member(s, i) matches Some((j, kv)) ==> i < j <= s.len() && spans_wf(
            kv.1,
            s.len() as int,
        ),
    decreases rem(s, i), 1int,
{
    if 0 <= i < s.len() {
        lemma_ws_to(s, i);
        let p = ws_to(s, i);
        lemma_spec_string(s, p);
        match spec_string(s, p) {
            None => {},
            Some((j, ks, ke)) => {
                lemma_ws_to(s, j);
                let c = ws_to(s, j);
                if 0 <= c < s.len() && s[c] == ':' {
                    lemma_value_wf(s, adv(i, c + 1));
                }
            },
        }
    }
}

pub proof fn lemma_members_wf(s: Seq<char>, i: int)
    ensures
        ({
            let (j, items) = spec_members(s, i);
            &&& i <= j
            &&& (0 <= i <= s.len() ==> j <= s.len())
            &&& forall|k: int| 0 <= k < items.len() ==> spans_wf((#[trigger] items[k]).1, s.len() as int)
        }),
    decreases rem(s, i), 2int,
{
    if 0 <= i < s.len() {
        lemma_member_wf(s, i);
        match spec_member(s, i) {
            None => {},
            Some((j, kv)) => {
                lemma_members_tail_wf(s, adv(i, j));
            },
        }
    }
}

pub proof fn lemma_members_tail_wf(s: Seq<char>, i: int)
    ensures
        ({
            let (j, items) = spec_members_tail(s, i);
            &&& i <= j
            &&& (0 <= i <= s.len() ==> j <= s.len())
            &&& forall|k: int| 0 <= k < items.len() ==> spans_wf((#[trigger] items[k]).1, s.len() as int)
        }),
    decreases rem(s, i), 2int,
{
    if 0 <= i < s.len() {
        lemma_ws_to(s, i);
        let t = ws_to(s, i);
        if 0 <= t < s.len() && s[t] == ',' {
            lemma_member_wf(s, adv(i, t + 1));
            match spec_member(s, adv(i, t + 1)) {
                None => {},
                Some((j, kv)) => {
                    lemma_members_tail_wf(s, adv(i, j));
                },
            }
        }
    }
}

pub proof fn lemma_object_wf(s: Seq<char>, i: int)
    ensures
        spec_object(s, i) matches Some((j, v)) ==> i < j <= s.len() && spans_wf(v, s.len() as int),
    decreases rem(s, i), 3int,
{
    if 0 <= i <= s.len() {
        lemma_members_wf(s, i);
        let (j, items) = spec_members(s, i);
        lemma_ws_to(s, j);
        let n = s.len() as int;
        assert(spans_wf(SpecJson::Obj(items), n));
    }
}

pub proof fn lemma_elems_wf(s: Seq<char>, i: int)
    ensures
        ({
            let (j, elems) = spec_elems(s, i);
            &&& i <= j
            &&& (0 <= i <= s.len() ==> j <= s.len())
            &&& forall|k: int| 0 <= k < elems.len() ==> spans_wf(#[trigger] elems[k], s.len() as int)
        }),
    decreases rem(s, i), 2int,
{
    if 0 <= i < s.len() {
        lemma_value_wf(s, i);
        match spec_value(s, i) {
            None => {},
            Some((j, v)) => {
                lemma_elems_tail_wf(s, adv(i, j));
            },
        }
    }
}

pub proof fn lemma_elems_tail_wf(s: Seq<char>, i: int)
    ensures
        ({
            let (j, elems) = spec_elems_tail(s, i);
            &&& i <= j
            &&& (0 <= i <= s.len() ==> j <= s.len())
            &&& forall|k: int| 0 <= k < elems.len() ==> spans_wf(#[trigger] elems[k], s.len() as int)
        }),
    decreases rem(s, i), 2int,
{
    if 0 <= i < s.len() {
        lemma_ws_to(s, i);
        let t = ws_to(s, i);
        if 0 <= t < s.len() && s[t] == ',' {
            lemma_value_wf(s, adv(i, t + 1));
            match spec_value(s, adv(i, t + 1)) {
                None => {},
                Some((j, v)) => {
                    lemma_elems_tail_wf(s, adv(i, j));
                },
            }
        }
    }
}

pub proof fn lemma_array_wf(s: Seq<char>, i: int)
    ensures
        spec_array(s, i) matches Some((j, v)) ==> i < j <= s.len() && spans_wf(v, s.len() as int),
    decreases rem(s, i), 3int,
{
    if 0 <= i <= s.len() {
        lemma_elems_wf(s, i);
        let (j, elems) = spec_elems(s, i);
        lemma_ws_to(s, j);
        let n = s.len() as int;
        assert(spans_wf(SpecJson::Arr(elems), n));
    }
}

pub proof fn lemma_root_wf(s: Seq<char>)
    ensures
        spec_root(s) matches Some(v) ==> spans_wf(v, s.len() as int),
{
    lemma_ws_to(s, 0);
    let p = ws_to(s, 0);
    if 0 <= p < s.len() {
        if s[p] == '{' {
            lemma_object_wf(s, p + 1);
        } else if s[p] == '[' {
            lemma_array_wf(s, p + 1);
        }
    }
}

// ---------------------------------------------------------------------------
// The executable parse tree, built fresh on every call and discarded after.
// ---------------------------------------------------------------------------

/// A parsed document value.  String leaves carry the range of buffer
/// positions holding their raw text; object entries keep their raw key text.
pub enum JsonValue {
    Null,
    Boolean(bool),
    Num,
    Str(TextSpan),
    Array(Vec<JsonValue>),
    Object(Vec<(String, JsonValue)>),
}

/// The specification-level tree a parsed value stands for.
pub open spec fn jview(v: JsonValue) -> SpecJson
    decreases v,
{
    match v {
        JsonValue::Null => SpecJson::Null,
        JsonValue::Boolean(b) => SpecJson::Bool(b),
        JsonValue::Num => SpecJson::Num,
        JsonValue::Str(sp) => SpecJson::Text { start: sp.start as int, end: sp.end as int },
        JsonValue::Array(elems) => SpecJson::Arr(aview(elems@)),
        JsonValue::Object(ms) => SpecJson::Obj(mview(ms@)),
    }
}

/// The specification-level image of a list of array elements.
pub open spec fn aview(elems: Seq<JsonValue>) -> Seq<SpecJson>
    decreases elems,
{
    Seq::new(
        elems.len(),
        |k: int|
            if 0 <= k < elems.len() {
                jview(elems[k])
            } else {
                SpecJson::Null
            },
    )
}

/// The specification-level image of a list of object entries.
pub open spec fn mview(ms: Seq<(String, JsonValue)>) -> Seq<(Seq<char>, SpecJson)>
    decreases ms,
{
    Seq::new(
        ms.len(),
        |k: int|
            if 0 <= k < ms.len() {
                (ms[k].0@, jview(ms[k].1))
            } else {
                (Seq::empty(), SpecJson::Null)
            },
    )
}

pub proof fn lemma_aview_push(elems: Seq<JsonValue>, x: JsonValue)
    ensures
        aview(elems.push(x)) == aview(elems) + seq![jview(x)],
{
    assert(aview(elems.push(x)) =~= aview(elems) + seq![jview(x)]);
}

pub proof fn lemma_mview_push(ms: Seq<(String, JsonValue)>, x: (String, JsonValue))
    ensures
        mview(ms.push(x)) == mview(ms) + seq![(x.0@, jview(x.1))],
{
    assert(mview(ms.push(x)) =~= mview(ms) + seq![(x.0@, jview(x.1))]);
}

// ---------------------------------------------------------------------------
// The executable parser, proved to return exactly what the grammar functions
// above describe.
// ---------------------------------------------------------------------------

/// Scans a string body starting at `i`; returns where it ends, or `None` on
/// an unsupported escape.
fn p_str_body(s: &str, i: usize, n: usize) -> (r: Option<usize>)
    requires
        n == s@.len(),
        s@.len() <= usize::MAX,
        i <= n,
    ensures
        match r {
            Some(j) => str_body_end(s@, i as int) == Some(j as int) && i <= j <= n,
            None => str_body_end(s@, i as int) is None,
        },
{
    let mut p = i;
    loop
        invariant
            i <= p <= n,
            n == s@.len(),
            s@.len() <= usize::MAX,
            str_body_end(s@, i as int) == str_body_end(s@, p as int),
        decreases n - p,
    {
        if p >= n {
            return Some(p);
        }
        let c = s.get_char(p);
        let u = c as u32;
        if !(u < 0x20 || (0x7f <= u && u <= 0x9f)) && c != '\\' && c != '"' {
            assert(is_json_str_char(s@[p as int]));
            p = p + 1;
        } else if c == '\\' {
            if p + 1 < n {
                let e = s.get_char(p + 1);
                if e == '"' || e == 'n' || e == '\\' {
                    p = p + 2;
                } else {
                    return None;
                }
            } else {
                return None;
            }
        } else {
            assert(!is_json_str_char(s@[p as int]) && s@[p as int] != '\\');
            return Some(p);
        }
    }
}

/// Parses a string literal at `i`; returns the position after the closing
/// quote and the range of the raw body text.
fn p_string(s: &str, i: usize, n: usize) -> (r: Option<(usize, TextSpan)>)
    requires
        n == s@.len(),
        s@.len() <= usize::MAX,
        i <= n,
    ensures
        match r {
            Some((j, sp)) => spec_string(s@, i as int) == Some(
                (j as int, sp.start as int, sp.end as int),
            ) && i < j <= n && sp.start <= sp.end <= n,
            None => spec_string(s@, i as int) is None,
        },
{
    if i >= n {
        return None;
    }
    if s.get_char(i) != '"' {
        return None;
    }
    match p_str_body(s, i + 1, n) {
        None => None,
        Some(j) => {
            if j < n && s.get_char(j) == '"' {
                Some((j + 1, TextSpan { start: i + 1, end: j }))
            } else {
                None
            }
        },
    }
}

/// Scans a number token at `i`; returns the position after it.
fn p_number_end(s: &str, i: usize, n: usize) -> (r: Option<usize>)
    requires
        n == s@.len(),
        s@.len() <= usize::MAX,
        i <= n,
    ensures
        match r {
            Some(j) => spec_number_end(s@, i as int) == Some(j as int) && i < j <= n,
            None => spec_number_end(s@, i as int) is None,
        },
{
    proof {
        lemma_spec_number_end(s@, i as int);
    }
    let p0 = if i < n {
        let c = s.get_char(i);
        if c == '+' || c == '-' {
            i + 1
        } else {
            i
        }
    } else {
        i
    };
    let d1 = skip_digits(s, p0, n);
    let mut has_digits = d1 > p0;
    let frac_end = if d1 < n && s.get_char(d1) == '.' {
        let f = skip_digits(s, d1 + 1, n);
        if f > d1 + 1 {
            has_digits = true;
        }
        f
    } else {
        d1
    };
    if !has_digits {
        return None;
    }
    if frac_end < n {
        let e = s.get_char(frac_end);
        if e == 'e' || e == 'E' {
            let x0 = if frac_end + 1 < n {
                let sg = s.get_char(frac_end + 1);
                if sg == '+' || sg == '-' {
                    frac_end + 2
                } else {
                    frac_end + 1
                }
            } else {
                frac_end + 1
            };
            let xd = skip_digits(s, x0, n);
            if xd > x0 {
                return Some(xd);
            } else {
                return Some(frac_end);
            }
        }
    }
    Some(frac_end)
}

/// Parses a value at `i`, after optional leading whitespace.
fn p_value(s: &str, i: usize, n: usize) -> (r: Option<(usize, JsonValue)>)
    requires
        n == s@.len(),
        s@.len() <= usize::MAX,
        i <= n,
    ensures
        match r {
            Some((j, v)) => spec_value(s@, i as int) == Some((j as int, jview(v))) && i < j <= n,
            None => spec_value(s@, i as int) is None,
        },
    decreases n - i, 0int,
{
    proof {
        lemma_value_wf(s@, i as int);
    }
    let p = skip_ws(s, i, n);
    if p >= n {
        return None;
    }
    let c = s.get_char(p);
    if c == '{' {
        proof {
            assert(adv(i as int, p + 1) == p + 1);
        }
        match p_object(s, p + 1, n) {
            Some((j, v)) => Some((j, v)),
            None => None,
        }
    } else if c == '[' {
        proof {
            assert(adv(i as int, p + 1) == p + 1);
        }
        match p_array(s, p + 1, n) {
            Some((j, v)) => Some((j, v)),
            None => None,
        }
    } else if c == '"' {
        match p_string(s, p, n) {
            Some((j, sp)) => Some((j, JsonValue::Str(sp))),
            None => None,
        }
    } else if match_lit(s, p, n, "true") {
        proof {
            reveal_strlit("true");
        }
        Some((p + 4, JsonValue::Boolean(true)))
    } else if match_lit(s, p, n, "false") {
        proof {
            reveal_strlit("false");
        }
        Some((p + 5, JsonValue::Boolean(false)))
    } else if match_lit(s, p, n, "null") {
        proof {
            reveal_strlit("null");
        }
        Some((p + 4, JsonValue::Null))
    } else {
        match p_number_end(s, p, n) {
            Some(j) => Some((j, JsonValue::Num)),
            None => None,
        }
    }
}

/// Parses one object entry at `i`: key string, colon, value.
fn p_member(s: &str, i: usize, n: usize) -> (r: Option<(usize, String, JsonValue)>)
    requires
        n == s@.len(),
        s@.len() <= usize::MAX,
        i <= n,
    ensures
        match r {
            Some((j, key, v)) => spec_member(s@, i as int) == Some((j as int, (key@, jview(v))))
                && i < j <= n,
            None => spec_member(s@, i as int) is None,
        },
    decreases n - i, 1int,
{
    if i >= n {
        return None;
    }
    let p = skip_ws(s, i, n);
    match p_string(s, p, n) {
        None => None,
        Some((j, ksp)) => {
            let c = skip_ws(s, j, n);
            if c < n && s.get_char(c) == ':' {
                proof {
                    assert(adv(i as int, c + 1) == c + 1);
                }
                match p_value(s, c + 1, n) {
                    Some((k, v)) => {
                        let key = s.substring_char(ksp.start, ksp.end).to_owned();
                        Some((k, key, v))
                    },
                    None => None,
                }
            } else {
                None
            }
        },
    }
}

/// Parses an object body whose opening brace ended just before `i`.
fn p_object(s: &str, i: usize, n: usize) -> (r: Option<(usize, JsonValue)>)
    requires
        n == s@.len(),
        s@.len() <= usize::MAX,
        i <= n,
    ensures
        match r {
            Some((j, v)) => spec_object(s@, i as int) == Some((j as int, jview(v))) && i < j <= n,
            None => spec_object(s@, i as int) is None,
        },
    decreases n - i, 3int,
{
    let mut items: Vec<(String, JsonValue)> = Vec::new();
    let mut cur = i;
    match p_member(s, i, n) {
        None => {
            assert(spec_members(s@, i as int) == (i as int, Seq::<(Seq<char>, SpecJson)>::empty()));
            assert(mview(items@) =~= Seq::<(Seq<char>, SpecJson)>::empty());
        },
        Some((j0, key0, v0)) => {
            proof {
                assert(adv(i as int, j0 as int) == j0 as int);
            }
            items.push((key0, v0));
            cur = j0;
            proof {
                lemma_mview_push(Seq::empty(), (key0, v0));
                assert(mview(Seq::<(String, JsonValue)>::empty()) =~= Seq::<(
                    Seq<char>,
                    SpecJson,
                )>::empty());
            }
            loop
                invariant
                    i < cur <= n,
                    n == s@.len(),
                    s@.len() <= usize::MAX,
                    spec_members(s@, i as int).0 == spec_members_tail(s@, cur as int).0,
                    spec_members(s@, i as int).1 == mview(items@) + spec_members_tail(
                        s@,
                        cur as int,
                    ).1,
                ensures
                    i < cur <= n,
                    spec_members(s@, i as int).0 == cur as int,
                    spec_members(s@, i as int).1 == mview(items@),
                decreases n - cur,
            {
                let t = skip_ws(s, cur, n);
                if t < n && s.get_char(t) == ',' {
                    proof {
                        assert(adv(cur as int, (t + 1) as int) == (t + 1) as int);
                    }
                    match p_member(s, t + 1, n) {
                        Some((j2, key2, v2)) => {
                            proof {
                                assert(adv(cur as int, j2 as int) == j2 as int);
                                assert(spec_members_tail(s@, cur as int).1 == seq![
                                    (key2@, jview(v2)),
                                ] + spec_members_tail(s@, j2 as int).1);
                                lemma_mview_push(items@, (key2, v2));
                            }
                            let ghost olditems = items@;
                            items.push((key2, v2));
                            proof {
                                assert(mview(items@) + spec_members_tail(s@, j2 as int).1
                                    =~= mview(olditems) + spec_members_tail(s@, cur as int).1);
                            }
                            cur = j2;
                        },
                        None => {
                            assert(spec_members_tail(s@, cur as int) == (
                                cur as int,
                                Seq::<(Seq<char>, SpecJson)>::empty(),
                            ));
                            assert(mview(items@) + Seq::<(Seq<char>, SpecJson)>::empty()
                                =~= mview(items@));
                            break;
                        },
                    }
                } else {
                    assert(spec_members_tail(s@, cur as int) == (
                        cur as int,
                        Seq::<(Seq<char>, SpecJson)>::empty(),
                    ));
                    assert(mview(items@) + Seq::<(Seq<char>, SpecJson)>::empty() =~= mview(
                        items@,
                    ));
                    break;
                }
            }
        },
    }
    let w = skip_ws(s, cur, n);
    if w < n && s.get_char(w) == '}' {
        let out = JsonValue::Object(items);
        assert(jview(out) == SpecJson::Obj(mview(out->Object_0@)));
        Some((w + 1, out))
    } else {
        None
    }
}

/// Parses an array body whose opening bracket ended just before `i`.
fn p_array(s: &str, i: usize, n: usize) -> (r: Option<(usize, JsonValue)>)
    requires
        n == s@.len(),
        s@.len() <= usize::MAX,
        i <= n,
    ensures
        match r {
            Some((j, v)) => spec_array(s@, i as int) == Some((j as int, jview(v))) && i < j <= n,
            None => spec_array(s@, i as int) is None,
        },
    decreases n - i, 3int,
{
    let mut elems: Vec<JsonValue> = Vec::new();
    let mut cur = i;
    match p_value(s, i, n) {
        None => {
            assert(spec_elems(s@, i as int) == (i as int, Seq::<SpecJson>::empty()));
            assert(aview(elems@) =~= Seq::<SpecJson>::empty());
        },
        Some((j0, v0)) => {
            proof {
                assert(adv(i as int, j0 as int) == j0 as int);
            }
            elems.push(v0);
            cur = j0;
            proof {
                lemma_aview_push(Seq::empty(), elems[0]);
                assert(aview(Seq::<JsonValue>::empty()) =~= Seq::<SpecJson>::empty());
            }
            loop
                invariant
                    i < cur <= n,
                    n == s@.len(),
                    s@.len() <= usize::MAX,
                    spec_elems(s@, i as int).0 == spec_elems_tail(s@, cur as int).0,
                    spec_elems(s@, i as int).1 == aview(elems@) + spec_elems_tail(
                        s@,
                        cur as int,
                    ).1,
                ensures
                    i < cur <= n,
                    spec_elems(s@, i as int).0 == cur as int,
                    spec_elems(s@, i as int).1 == aview(elems@),
                decreases n - cur,
            {
                let t = skip_ws(s, cur, n);
                if t < n && s.get_char(t) == ',' {
                    proof {
                        assert(adv(cur as int, (t + 1) as int) == (t + 1) as int);
                    }
                    match p_value(s, t + 1, n) {
                        Some((j2, v2)) => {
                            proof {
                                assert(adv(cur as int, j2 as int) == j2 as int);
                                assert(spec_elems_tail(s@, cur as int).1 == seq![jview(v2)]
                                    + spec_elems_tail(s@, j2 as int).1);
                                lemma_aview_push(elems@, v2);
                            }
                            let ghost oldelems = elems@;
                            elems.push(v2);
                            proof {
                                assert(aview(elems@) + spec_elems_tail(s@, j2 as int).1 =~= aview(
                                    oldelems,
                                ) + spec_elems_tail(s@, cur as int).1);
                            }
                            cur = j2;
                        },
                        None => {
                            assert(spec_elems_tail(s@, cur as int) == (
                                cur as int,
                                Seq::<SpecJson>::empty(),
                            ));
                            assert(aview(elems@) + Seq::<SpecJson>::empty() =~= aview(elems@));
                            break;
                        },
                    }
                } else {
                    assert(spec_elems_tail(s@, cur as int) == (
                        cur as int,
                        Seq::<SpecJson>::empty(),
                    ));
                    assert(aview(elems@) + Seq::<SpecJson>::empty() =~= aview(elems@));
                    break;
                }
            }
        },
    }
    let w = skip_ws(s, cur, n);
    if w < n && s.get_char(w) == ']' {
        let out = JsonValue::Array(elems);
        assert(jview(out) == SpecJson::Arr(aview(out->Array_0@)));
        Some((w + 1, out))
    } else {
        None
    }
}

/// Parses a whole document: after optional whitespace, an object, an array or
/// the literal `null`.  Text after the root value is ignored.
pub fn p_root(s: &str) -> (r: Option<JsonValue>)
    ensures
        match r {
            Some(v) => spec_root(s@) == Some(jview(v)),
            None => spec_root(s@) is None,
        },
{
    let n = s.unicode_len();
    let p = skip_ws(s, 0, n);
    if p >= n {
        return None;
    }
    let c = s.get_char(p);
    if c == '{' {
        match p_object(s, p + 1, n) {
            Some((j, v)) => Some(v),
            None => None,
        }
    } else if c == '[' {
        match p_array(s, p + 1, n) {
            Some((j, v)) => Some(v),
            None => None,
        }
    } else if match_lit(s, p, n, "null") {
        Some(JsonValue::Null)
    } else {
        None
    }
}

// ---------------------------------------------------------------------------
// Path navigation: walk the tree along `.`-separated keys to a string leaf.
// ---------------------------------------------------------------------------

/// The value stored under `key` in an object: entries later in document order
/// shadow earlier ones with the same key, as an unordered mapping built from
/// the entry list would store them.
pub open spec fn obj_get(ms: Seq<(Seq<char>, SpecJson)>, key: Seq<char>) -> Option<SpecJson>
    decreases ms.len(),
{
    if ms.len() == 0 {
        None
    } else if ms.last().0 == key {
        Some(ms.last().1)
    } else {
        obj_get(ms.drop_last(), key)
    }
}

/// Walking the tree from segment `k` on: every remaining segment must index
/// an object, and the last segment's value must be a string leaf.
pub open spec fn spec_nav(v: SpecJson, segs: Seq<Seq<char>>, k: int) -> FindOutcome
    decreases segs.len() - k,
{
    if k >= segs.len() {
        match v {
            SpecJson::Text { start, end } => FindOutcome::Found { start, end },
            _ => FindOutcome::NoLeaf,
        }
    } else {
        match v {
            SpecJson::Obj(ms) => match obj_get(ms, segs[k]) {
                Some(v2) => spec_nav(v2, segs, k + 1),
                None => FindOutcome::KeyMissing { key: segs[k] },
            },
            _ => FindOutcome::NotAnObject,
        }
    }
}

/// Resolving a `.`-separated path against a document: parse the document,
/// then walk the tree.  This function is the codec's whole contract.
pub open spec fn json_find(doc: Seq<char>, path: Seq<char>) -> FindOutcome {
    match spec_root(doc) {
        None => FindOutcome::ParseFail,
        Some(v) => spec_nav(v, split_path(path, '.'), 0),
    }
}

pub proof fn lemma_obj_get_found(ms: Seq<(Seq<char>, SpecJson)>, key: Seq<char>, q: int)
    requires
        0 <= q < ms.len(),
        ms[q].0 == key,
        forall|r: int| q < r < ms.len() ==> (#[trigger] ms[r]).0 != key,
    ensures
        obj_get(ms, key) == Some(ms[q].1),
    decreases ms.len(),
{
    if q + 1 < ms.len() {
        lemma_obj_get_found(ms.drop_last(), key, q);
    }
}

pub proof fn lemma_obj_get_none(ms: Seq<(Seq<char>, SpecJson)>, key: Seq<char>)
    requires
        forall|r: int| 0 <= r < ms.len() ==> (#[trigger] ms[r]).0 != key,
    ensures
        obj_get(ms, key) is None,
    decreases ms.len(),
{
    if ms.len() > 0 {
        lemma_obj_get_none(ms.drop_last(), key);
    }
}

pub proof fn lemma_obj_get_wf(ms: Seq<(Seq<char>, SpecJson)>, key: Seq<char>, n: int)
    requires
        forall|k: int| 0 <= k < ms.len() ==> spans_wf((#[trigger] ms[k]).1, n),
    ensures
        obj_get(ms, key) matches Some(v2) ==> spans_wf(v2, n),
    decreases ms.len(),
{
    if ms.len() > 0 && ms.last().0 != key {
        lemma_obj_get_wf(ms.drop_last(), key, n);
    }
}

/// Whatever leaf navigation finds lies inside a buffer of length `n` when the
/// tree's text ranges do.
pub proof fn lemma_nav_wf(v: SpecJson, segs: Seq<Seq<char>>, k: int, n: int)
    requires
        spans_wf(v, n),
    ensures
        spec_nav(v, segs, k) matches FindOutcome::Found { start, end } ==> 0 <= start <= end <= n,
    decreases segs.len() - k,
{
    if k >= segs.len() {
    } else {
        match v {
            SpecJson::Obj(ms) => {
                lemma_obj_get_wf(ms, segs[k], n);
                match obj_get(ms, segs[k]) {
                    Some(v2) => {
                        lemma_nav_wf(v2, segs, k + 1, n);
                    },
                    None => {},
                }
            },
            _ => {},
        }
    }
}

/// A found leaf always lies inside the document.
pub proof fn lemma_json_find_in_range(doc: Seq<char>, path: Seq<char>)
    ensures
        json_find(doc, path) matches FindOutcome::Found { start, end } ==> 0 <= start <= end
            <= doc.len(),
{
    lemma_root_wf(doc);
    match spec_root(doc) {
        None => {},
        Some(v) => {
            lemma_nav_wf(v, split_path(path, '.'), 0, doc.len() as int);
        },
    }
}

/// Writing a leaf's own text back over its range reproduces the document
/// exactly: extracting a value and replacing it with itself is the identity.
pub proof fn lemma_json_replace_self_identity(doc: Seq<char>, path: Seq<char>, start: int, end: int)
    requires
        json_find(doc, path) == (FindOutcome::Found { start, end }),
    ensures
        spliced(doc, start, end, doc.subrange(start, end)) == doc,
{
    lemma_json_find_in_range(doc, path);
    crate::parser::lemma_splice_same_is_identity(doc, start, end);
}

/// How navigation can fail, before the failure is phrased as a `CodecError`.
enum NavErr {
    NotObj,
    Missing(String),
    Leaf,
}

/// Walks the parsed tree along the path segments from index `k` on.
fn nav(v: &JsonValue, segs: &Vec<String>, k: usize) -> (r: Result<TextSpan, NavErr>)
    requires
        k <= segs@.len(),
    ensures
        match spec_nav(jview(*v), segs.deep_view(), k as int) {
            FindOutcome::Found { start, end } => r matches Ok(sp) && sp.start == start && sp.end
                == end,
            FindOutcome::NotAnObject => r matches Err(e) && e is NotObj,
            FindOutcome::KeyMissing { key } => r matches Err(e) && (e matches NavErr::Missing(ks)
                && ks@ == key),
            FindOutcome::NoLeaf => r matches Err(e) && e is Leaf,
            FindOutcome::ParseFail => false,
        },
    decreases segs@.len() - k,
{
    let nsegs = segs.len();
    if k == nsegs {
        match v {
            JsonValue::Str(sp) => Ok(*sp),
            _ => Err(NavErr::Leaf),
        }
    } else {
        let seg: &String = &segs[k];
        proof {
            assert(segs.deep_view()[k as int] == segs@[k as int]@);
        }
        match v {
            JsonValue::Object(ms) => {
                let mut q = ms.len();
                let mut found = false;
                loop
                    invariant_except_break
                        !found,
                    invariant
                        0 <= q <= ms@.len(),
                        seg@ == segs@[k as int]@,
                        !found ==> forall|r2: int|
                            q <= r2 < ms@.len() ==> (#[trigger] ms@[r2]).0@ != seg@,
                    ensures
                        !found ==> forall|r2: int|
                            0 <= r2 < ms@.len() ==> (#[trigger] ms@[r2]).0@ != seg@,
                        found ==> q < ms@.len() && ms@[q as int].0@ == seg@ && forall|r2: int|
                            q < r2 < ms@.len() ==> (#[trigger] ms@[r2]).0@ != seg@,
                    decreases q,
                {
                    if q == 0 {
                        break ;
                    }
                    q = q - 1;
                    let entry_key: &String = &ms[q].0;
                    assert(entry_key@ == ms@[q as int].0@);
                    if crate::text::str_eq(entry_key.as_str(), seg.as_str()) {
                        assert(q < ms@.len());
                        assert(ms@[q as int].0@ == seg@);
                        assert(forall|r2: int|
                            q < r2 < ms@.len() ==> (#[trigger] ms@[r2]).0@ != seg@);
                        found = true;
                        break ;
                    }
                }
                if found {
                    proof {
                        assert forall|r2: int| q < r2 < mview(ms@).len() implies (
                        #[trigger] mview(ms@)[r2]).0 != seg@ by {
                            assert(ms@[r2].0@ != seg@);
                        }
                        assert(mview(ms@)[q as int].0 == ms@[q as int].0@);
                        lemma_obj_get_found(mview(ms@), seg@, q as int);
                        assert(mview(ms@)[q as int].1 == jview(ms@[q as int].1));
                        assert(segs.deep_view()[k as int] == seg@);
                        assert(jview(*v) == SpecJson::Obj(mview(ms@)));
                    }
                    nav(&ms[q].1, segs, k + 1)
                } else {
                    proof {
                        assert forall|r2: int| 0 <= r2 < mview(ms@).len() implies (
                        #[trigger] mview(ms@)[r2]).0 != seg@ by {
                            assert(ms@[r2].0@ != seg@);
                        }
                        lemma_obj_get_none(mview(ms@), seg@);
                    }
                    Err(NavErr::Missing(segs[k].clone()))
                }
            },
            _ => Err(NavErr::NotObj),
        }
    }
}

// ---------------------------------------------------------------------------
// The codec itself.
// ---------------------------------------------------------------------------

/// A document held as one owned text buffer, edited by span-preserving
/// replacement.  Every call re-parses the current buffer, so the buffer is
/// the single source of truth.
pub struct JsonString {
    inner: String,
}

impl View for JsonString {
    type V = Seq<char>;

    closed spec fn view(&self) -> Seq<char> {
        self.inner@
    }
}

impl JsonString {
    /// Wraps a document text in a codec.
    pub fn new(input: &str) -> (r: Self)
        ensures
            r@ == input@,
    {
        JsonString { inner: input.to_owned() }
    }

    /// The current document text, for persistence.
    pub fn to_string(&self) -> (r: String)
        ensures
            r@ == self@,
    {
        self.inner.clone()
    }

    /// Resolves a path against the current buffer and returns the leaf's
    /// range, or the precise failure.
    fn locate(&self, path: &str) -> (r: Result<TextSpan, CodecError>)
        ensures
            match json_find(self@, path@) {
                FindOutcome::Found { start, end } => r matches Ok(sp) && sp.start == start
                    && sp.end == end && 0 <= start <= end <= self@.len(),
                o => r matches Err(e) && error_matches(e, o, path@, "Error during parsing"@),
            },
    {
        proof {
            lemma_json_find_in_range(self@, path@);
        }
        match p_root(self.inner.as_str()) {
            None => Err(CodecError::Parse("Error during parsing".to_owned())),
            Some(tree) => {
                let segs = split_str(path, '.');
                match nav(&tree, &segs, 0) {
                    Ok(sp) => Ok(sp),
                    Err(NavErr::NotObj) => Err(CodecError::NotAnObject),
                    Err(NavErr::Missing(kk)) => Err(CodecError::KeyNotFound(kk)),
                    Err(NavErr::Leaf) => Err(CodecError::LeafNotFound(path.to_owned())),
                }
            },
        }
    }
}

impl FormatCodec for JsonString {
    open spec fn doc(&self) -> Seq<char> {
        self@
    }

    open spec fn find(doc: Seq<char>, path: Seq<char>) -> FindOutcome {
        json_find(doc, path)
    }

    open spec fn parse_detail(doc: Seq<char>) -> Seq<char> {
        "Error during parsing"@
    }

    fn extract(&self, path: &str) -> (r: Result<Option<String>, CodecError>) {
        match self.locate(path) {
            Ok(sp) => {
                let text = self.inner.as_str().substring_char(sp.start, sp.end).to_owned();
                Ok(Some(text))
            },
            Err(e) => Err(e),
        }
    }

    fn replace(&mut self, path: &str, value: &str) -> (r: Result<(), CodecError>) {
        match self.locate(path) {
            Ok(sp) => {
                let n = self.inner.as_str().unicode_len();
                let out = splice_text(self.inner.as_str(), n, sp.start, sp.end, value);
                self.inner = out;
                Ok(())
            },
            Err(e) => Err(e),
        }
    }
}

} // verus!
