use vstd::prelude::*;

use crate::parser::xml::qname::QualifiedName;
use crate::parser::xml::value::Value;
use crate::parser::xml::xdmerror::{Error, ErrorKind};
use crate::text::{
    adv, dec_num, digits_to, find_lit, find_lit_at, hex_num, hex_to, is_digit, is_hex_digit,
    is_name_start_char, is_ws, lemma_dec_num_bound, lemma_digits_to, lemma_find_lit,
    lemma_hex_num_bound, lemma_hex_to,
    lemma_name_to, lemma_trim_end_to, lemma_ws_to, lit_at, match_lit, name_to, skip_digits,
    skip_hex_digits, skip_name_chars, skip_trailing_ws, skip_ws, trim_end_to, ws_to,
};
use crate::utils::TextSpan;

verus! {

// ---------------------------------------------------------------------------
// The mathematical account of the document grammar.
//
// A document is an optional declaration, an optional document type
// declaration holding general-entity declarations, and exactly one root
// element; nothing may follow the root element but whitespace.  Text content
// is kept as ranges of the buffer wherever it was read verbatim; characters
// produced by resolving a reference are marked as decoded and can never be
// the target of a replace.
// ---------------------------------------------------------------------------

/// A qualified name, as specification-level data.  The parser resolves no
/// namespace URIs, so `nsuri` is always absent in parsed names.
pub struct SpecQName {
    pub nsuri: Option<Seq<char>>,
    pub prefix: Option<Seq<char>>,
    pub local: Seq<char>,
}

/// An atomic text value: a range of the buffer, or one decoded character.
pub enum SpecXmlValue {
    Span { start: int, end: int },
    Decoded(char),
}

/// A node of the parse tree, as specification-level data.
pub enum SpecXml {
    Element { name: SpecQName, attrs: Seq<SpecXml>, children: Seq<SpecXml> },
    Attribute { name: SpecQName, value: SpecXmlValue },
    Text(SpecXmlValue),
    Pi { name: Seq<char>, value: SpecXmlValue },
    Comment(SpecXmlValue),
    Dtd { name: SpecQName, value: SpecXmlValue },
    Reference(SpecQName),
}

/// The document declaration, as specification-level data.
pub struct SpecDecl {
    pub version: Seq<char>,
    pub encoding: Option<Seq<char>>,
    pub standalone: Option<Seq<char>>,
}

/// A whole parsed document, as specification-level data.
pub struct SpecDoc {
    pub xmldecl: Option<SpecDecl>,
    pub prologue: Seq<SpecXml>,
    pub content: Seq<SpecXml>,
}

/// The measure that bounds how much text a production may still consume.
pub open spec fn rem(s: Seq<char>, i: int) -> int {
    if i < s.len() {
        s.len() - i
    } else {
        0
    }
}

// --- names -----------------------------------------------------------------

/// A name at `i`: a name-start character followed by name characters.
pub open spec fn spec_ncname(s: Seq<char>, i: int) -> Option<(int, Seq<char>)> {
    if 0 <= i < s.len() && is_name_start_char(s[i]) {
        let j = name_to(s, i + 1);
        Some((j, s.subrange(i, j)))
    } else {
        None
    }
}

/// A possibly prefixed name at `i`: one name, or two names joined by a
/// colon.  A colon not followed by a name ends an unprefixed name.
pub open spec fn spec_qualname(s: Seq<char>, i: int) -> Option<(int, SpecQName)> {
    match spec_ncname(s, i) {
        None => None,
        Some((j, p1)) => if j < s.len() && s[j] == ':' {
            match spec_ncname(s, j + 1) {
                Some((k, l)) => Some(
                    (k, SpecQName { nsuri: None, prefix: Some(p1), local: l }),
                ),
                None => Some((j, SpecQName { nsuri: None, prefix: None, local: p1 })),
            }
        } else {
            Some((j, SpecQName { nsuri: None, prefix: None, local: p1 }))
        },
    }
}

pub proof fn lemma_spec_ncname(s: Seq<char>, i: int)
    ensures
        spec_ncname(s, i) matches Some((j, nm)) ==> 0 <= i < j <= s.len(),
{
    if 0 <= i < s.len() && is_name_start_char(s[i]) {
        lemma_name_to(s, i + 1);
    }
}

pub proof fn lemma_spec_qualname(s: Seq<char>, i: int)
    ensures
        spec_qualname(s, i) matches Some((j, nm)) ==> 0 <= i < j <= s.len(),
{
    lemma_spec_ncname(s, i);
    match spec_ncname(s, i) {
        None => {},
        Some((j, p1)) => {
            if j < s.len() && s[j] == ':' {
                lemma_spec_ncname(s, j + 1);
            }
        },
    }
}

// --- quoted strings --------------------------------------------------------

/// A character that may stand unescaped inside a quoted attribute value: an
/// ASCII letter or digit, whitespace, or one of a small set of punctuation
/// characters.
pub open spec fn is_xml_attr_char(c: char) -> bool {
    ||| crate::text::is_ascii_alnum(c)
    ||| is_ws(c)
    ||| c == '-'
    ||| c == '.'
    ||| c == ':'
    ||| c == '/'
    ||| c == '$'
    ||| c == '{'
    ||| c == '}'
    ||| c == '*'
}

/// The only characters that may follow a backslash in a quoted value.
pub open spec fn is_xml_escape(c: char) -> bool {
    c == '"' || c == 'n' || c == '\\'
}

/// End of a quoted-value body starting at `i`, as for string literals:
/// `None` on an unsupported escape.
pub open spec fn xml_str_body_end(s: Seq<char>, i: int) -> Option<int>
    decreases s.len() - i,
{
    if i < 0 {
        None
    } else if i >= s.len() {
        Some(i)
    } else if s[i] == '\\' {
        if i + 1 < s.len() && is_xml_escape(s[i + 1]) {
            xml_str_body_end(s, i + 2)
        } else {
            None
        }
    } else if is_xml_attr_char(s[i]) {
        xml_str_body_end(s, i + 1)
    } else {
        Some(i)
    }
}

pub proof fn lemma_xml_str_body_end(s: Seq<char>, i: int)
    requires
        0 <= i <= s.len(),
    ensures
        xml_str_body_end(s, i) matches Some(j) ==> i <= j <= s.len(),
    decreases s.len() - i,
{
    if i < s.len() {
        if s[i] == '\\' && i + 1 < s.len() && is_xml_escape(s[i + 1]) {
            lemma_xml_str_body_end(s, i + 2);
        } else if s[i] != '\\' && is_xml_attr_char(s[i]) {
            lemma_xml_str_body_end(s, i + 1);
        }
    }
}

/// A quoted value at `i`, delimited by single or double quotes.  On success:
/// the position after the closing quote and the range of the raw body.
pub open spec fn spec_dstring(s: Seq<char>, i: int) -> Option<(int, int, int)> {
    if 0 <= i < s.len() && (s[i] == '\'' || s[i] == '"') {
        match xml_str_body_end(s, i + 1) {
            Some(j) => if j < s.len() && s[j] == s[i] {
                Some((j + 1, i + 1, j))
            } else {
                None
            },
            None => None,
        }
    } else {
        None
    }
}

pub proof fn lemma_spec_dstring(s: Seq<char>, i: int)
    ensures
        spec_dstring(s, i) matches Some((j, vs, ve)) ==> 0 <= i < j <= s.len() && i < vs <= ve
            < j,
{
    if 0 <= i < s.len() && (s[i] == '\'' || s[i] == '"') {
        lemma_xml_str_body_end(s, i + 1);
    }
}

// --- the document declaration ----------------------------------------------

/// The document declaration at `i`: version, then optional encoding and
/// standalone fields, each written `name = "value"`.
pub open spec fn spec_xmldecl(s: Seq<char>, i: int) -> Option<(int, SpecDecl)> {
    if !lit_at(s, i, "<?xml"@) {
        None
    } else {
        let a = ws_to(s, i + "<?xml"@.len());
        if !lit_at(s, a, "version"@) {
            None
        } else {
            let b = ws_to(s, a + "version"@.len());
            if !(b < s.len() && s[b] == '=') {
                None
            } else {
                match spec_dstring(s, ws_to(s, b + 1)) {
                    None => None,
                    Some((d, vs, ve)) => spec_xmldecl_enc(
                        s,
                        ws_to(s, d),
                        s.subrange(vs, ve),
                    ),
                }
            }
        }
    }
}

/// The rest of a declaration after the version: an optional encoding field.
pub open spec fn spec_xmldecl_enc(s: Seq<char>, i: int, version: Seq<char>) -> Option<
    (int, SpecDecl),
> {
    if lit_at(s, i, "encoding"@) {
        let b = ws_to(s, i + "encoding"@.len());
        if !(b < s.len() && s[b] == '=') {
            None
        } else {
            match spec_dstring(s, ws_to(s, b + 1)) {
                None => None,
                Some((d, es, ee)) => spec_xmldecl_sa(
                    s,
                    ws_to(s, d),
                    version,
                    Some(s.subrange(es, ee)),
                ),
            }
        }
    } else {
        spec_xmldecl_sa(s, i, version, None)
    }
}

/// The rest of a declaration after the encoding: an optional standalone
/// field, then the closing `?>`.
pub open spec fn spec_xmldecl_sa(
    s: Seq<char>,
    i: int,
    version: Seq<char>,
    encoding: Option<Seq<char>>,
) -> Option<(int, SpecDecl)> {
    if lit_at(s, i, "standalone"@) {
        let b = ws_to(s, i + "standalone"@.len());
        if !(b < s.len() && s[b] == '=') {
            None
        } else {
            match spec_dstring(s, ws_to(s, b + 1)) {
                None => None,
                Some((d, ss, se)) => {
                    let e = ws_to(s, d);
                    if lit_at(s, e, "?>"@) {
                        Some(
                            (
                                e + 2,
                                SpecDecl {
                                    version,
                                    encoding,
                                    standalone: Some(s.subrange(ss, se)),
                                },
                            ),
                        )
                    } else {
                        None
                    }
                },
            }
        }
    } else {
        if lit_at(s, i, "?>"@) {
            Some((i + 2, SpecDecl { version, encoding, standalone: None }))
        } else {
            None
        }
    }
}

// --- references and escapes ------------------------------------------------

/// A Unicode scalar value: a code point that a character can hold.
pub open spec fn is_scalar_value(u: int) -> bool {
    0 <= u && (u < 0xD800 || (0xE000 <= u && u <= 0x10FFFF))
}

/// End of a reference starting at an ampersand at `i`: a named entity
/// reference or a numeric character reference, up to and including the
/// semicolon.  Only the extent matters here.
pub open spec fn spec_ref_end(s: Seq<char>, i: int) -> Option<int> {
    if !(0 <= i < s.len() && s[i] == '&') {
        None
    } else if i + 1 < s.len() && s[i + 1] == '#' {
        if i + 2 < s.len() && s[i + 2] == 'x' {
            let h = hex_to(s, i + 3);
            if h > i + 3 && h < s.len() && s[h] == ';' {
                Some(h + 1)
            } else {
                None
            }
        } else {
            let d = digits_to(s, i + 2);
            if d > i + 2 && d < s.len() && s[d] == ';' {
                Some(d + 1)
            } else {
                None
            }
        }
    } else {
        match spec_qualname(s, i + 1) {
            Some((j, nm)) => if j < s.len() && s[j] == ';' {
                Some(j + 1)
            } else {
                None
            },
            None => None,
        }
    }
}

pub proof fn lemma_spec_ref_end(s: Seq<char>, i: int)
    ensures
        spec_ref_end(s, i) matches Some(j) ==> 0 <= i < j <= s.len(),
{
    if 0 <= i < s.len() && s[i] == '&' {
        if i + 1 < s.len() && s[i + 1] == '#' {
            if i + 2 < s.len() && s[i + 2] == 'x' {
                if i + 3 <= s.len() {
                    lemma_hex_to(s, i + 3);
                }
            } else {
                if i + 2 <= s.len() {
                    lemma_digits_to(s, i + 2);
                }
            }
        } else {
            lemma_spec_qualname(s, i + 1);
        }
    }
}

/// A named entity reference in content: `&name;`, kept unresolved.
pub open spec fn spec_entityref(s: Seq<char>, i: int) -> Option<(int, SpecXml)> {
    if !(0 <= i < s.len() && s[i] == '&') {
        None
    } else {
        match spec_qualname(s, i + 1) {
            Some((j, nm)) => if j < s.len() && s[j] == ';' {
                Some((j + 1, SpecXml::Reference(nm)))
            } else {
                None
            },
            None => None,
        }
    }
}

/// An escape in content: one of the five named escapes, or a numeric
/// character reference of one to six digits resolving to a scalar value.
/// The result is a decoded character, no longer tied to the buffer.
pub open spec fn spec_escape(s: Seq<char>, i: int) -> Option<(int, SpecXml)> {
    if lit_at(s, i, "&#x"@) {
        let h = hex_to(s, i + 3);
        if h > i + 3 && h <= i + 9 && h < s.len() && s[h] == ';' {
            let u = hex_num(s.subrange(i + 3, h));
            if is_scalar_value(u) {
                Some((h + 1, SpecXml::Text(SpecXmlValue::Decoded(((u as u32) as char)))))
            } else {
                None
            }
        } else {
            None
        }
    } else if lit_at(s, i, "&#"@) {
        let d = digits_to(s, i + 2);
        if d > i + 2 && d <= i + 8 && d < s.len() && s[d] == ';' {
            let u = dec_num(s.subrange(i + 2, d));
            if is_scalar_value(u) {
                Some((d + 1, SpecXml::Text(SpecXmlValue::Decoded(((u as u32) as char)))))
            } else {
                None
            }
        } else {
            None
        }
    } else if lit_at(s, i, "&gt;"@) {
        Some((i + 4, SpecXml::Text(SpecXmlValue::Decoded('>'))))
    } else if lit_at(s, i, "&lt;"@) {
        Some((i + 4, SpecXml::Text(SpecXmlValue::Decoded('<'))))
    } else if lit_at(s, i, "&amp;"@) {
        Some((i + 5, SpecXml::Text(SpecXmlValue::Decoded('&'))))
    } else if lit_at(s, i, "&quot;"@) {
        Some((i + 6, SpecXml::Text(SpecXmlValue::Decoded('"'))))
    } else if lit_at(s, i, "&apos;"@) {
        Some((i + 6, SpecXml::Text(SpecXmlValue::Decoded('\''))))
    } else {
        None
    }
}

// --- character data ---------------------------------------------------------

/// A character that may appear in a document at all.
pub open spec fn is_xml_char(c: char) -> bool {
    (c as int) >= 1 && (c as int) != 0xFFFE && (c as int) != 0xFFFF
}

/// End of a literal character run starting at `i`: the first position
/// holding `<`, `&`, the sequence `]]>`, or a character the grammar rejects.
pub open spec fn literal_to(s: Seq<char>, i: int) -> int
    decreases s.len() - i,
{
    if 0 <= i < s.len() && s[i] != '<' && s[i] != '&' && !lit_at(s, i, "]]>"@) && is_xml_char(
        s[i],
    ) {
        literal_to(s, i + 1)
    } else {
        i
    }
}

pub proof fn lemma_literal_to(s: Seq<char>, i: int)
    requires
        0 <= i <= s.len(),
    ensures
        i <= literal_to(s, i) <= s.len(),
    decreases s.len() - i,
{
    if 0 <= i < s.len() && s[i] != '<' && s[i] != '&' && !lit_at(s, i, "]]>"@) && is_xml_char(
        s[i],
    ) {
        lemma_literal_to(s, i + 1);
    }
}

/// A run of literal character data at `i`, kept as a range of the buffer.
pub open spec fn spec_literal(s: Seq<char>, i: int) -> Option<(int, SpecXml)> {
    if 0 <= i <= s.len() {
        let j = literal_to(s, i);
        if j > i {
            Some((j, SpecXml::Text(SpecXmlValue::Span { start: i, end: j })))
        } else {
            None
        }
    } else {
        None
    }
}

/// A CDATA section at `i`, its content kept as a range of the buffer.
pub open spec fn spec_cdata(s: Seq<char>, i: int) -> Option<(int, SpecXml)> {
    if lit_at(s, i, "<![CDATA["@) {
        let e = find_lit(s, i + 9, "]]>"@);
        if e < s.len() {
            Some((e + 3, SpecXml::Text(SpecXmlValue::Span { start: i + 9, end: e })))
        } else {
            None
        }
    } else {
        None
    }
}

/// A processing instruction at `i`: `<?`, a target name, then everything up
/// to `?>`.
pub open spec fn spec_pi(s: Seq<char>, i: int) -> Option<(int, SpecXml)> {
    if lit_at(s, i, "<?"@) {
        let a = ws_to(s, i + 2);
        match spec_ncname(s, a) {
            None => None,
            Some((j, nm)) => {
                let b = ws_to(s, j);
                if b <= s.len() {
                    let e = find_lit(s, b, "?>"@);
                    if e < s.len() {
                        Some(
                            (
                                e + 2,
                                SpecXml::Pi {
                                    name: nm,
                                    value: SpecXmlValue::Span { start: b, end: e },
                                },
                            ),
                        )
                    } else {
                        None
                    }
                } else {
                    None
                }
            },
        }
    } else {
        None
    }
}

/// A comment at `i`: `<!--`, text containing no `--`, then `-->`.
pub open spec fn spec_comment(s: Seq<char>, i: int) -> Option<(int, SpecXml)> {
    if lit_at(s, i, "<!--"@) {
        let e = find_lit(s, i + 4, "--"@);
        if e < s.len() && lit_at(s, e, "-->"@) {
            Some((e + 3, SpecXml::Comment(SpecXmlValue::Span { start: i + 4, end: e })))
        } else {
            None
        }
    } else {
        None
    }
}

// --- attributes -------------------------------------------------------------

/// One attribute at `i`: mandatory whitespace, a name, `=`, a quoted value.
pub open spec fn spec_attr(s: Seq<char>, i: int) -> Option<(int, SpecXml)>
    decreases rem(s, i), 0int,
{
    if !(0 <= i < s.len() && is_ws(s[i])) {
        None
    } else {
        let a = ws_to(s, i);
        match spec_qualname(s, a) {
            None => None,
            Some((j, nm)) => {
                let b = ws_to(s, j);
                if b < s.len() && s[b] == '=' {
                    match spec_dstring(s, ws_to(s, b + 1)) {
                        Some((d, vs, ve)) => Some(
                            (
                                d,
                                SpecXml::Attribute {
                                    name: nm,
                                    value: SpecXmlValue::Span { start: vs, end: ve },
                                },
                            ),
                        ),
                        None => None,
                    }
                } else {
                    None
                }
            },
        }
    }
}

/// The attributes of a tag, in order.
pub open spec fn spec_attrs_list(s: Seq<char>, i: int) -> (int, Seq<SpecXml>)
    decreases rem(s, i), 1int,
{
    if !(0 <= i < s.len()) {
        (i, Seq::empty())
    } else {
        match spec_attr(s, i) {
            None => (i, Seq::empty()),
            Some((j, a)) => {
                let (k, rest) = spec_attrs_list(s, adv(i, j));
                (k, seq![a] + rest)
            },
        }
    }
}

/// Two attributes written with the same name (prefix and local name).
pub open spec fn same_attr_written_name(a: SpecXml, b: SpecXml) -> bool {
    match (a, b) {
        (
            SpecXml::Attribute { name: n1, value: v1 },
            SpecXml::Attribute { name: n2, value: v2 },
        ) => n1.prefix == n2.prefix && n1.local == n2.local,
        _ => false,
    }
}

/// Whether a tag carries two attributes with the same written name, which
/// makes the document malformed.
pub open spec fn attrs_have_dup(l: Seq<SpecXml>) -> bool {
    exists|p: int, q: int| 0 <= p < q < l.len() && same_attr_written_name(l[p], l[q])
}

// --- elements and content ---------------------------------------------------

/// An element at `i`: `<`, a name, attributes, then either `/>` or `>`
/// followed by content and a closing tag.  The closing tag's name is not
/// compared against the opening tag's, a knowing gap of this grammar.
pub open spec fn spec_element(s: Seq<char>, i: int) -> Option<(int, SpecXml)>
    decreases rem(s, i), 0int,
{
    if !(0 <= i < s.len() && s[i] == '<') {
        None
    } else {
        match spec_qualname(s, i + 1) {
            None => None,
            Some((j, name)) => {
                let (k, attrs) = spec_attrs_list(s, adv(i, j));
                if attrs_have_dup(attrs) {
                    None
                } else {
                    let w = ws_to(s, k);
                    if lit_at(s, w, "/>"@) {
                        Some(
                            (w + 2, SpecXml::Element { name, attrs, children: Seq::empty() }),
                        )
                    } else if w < s.len() && s[w] == '>' {
                        let cw = ws_to(s, w + 1);
                        let (e, children) = spec_content(s, adv(i, cw));
                        if lit_at(s, e, "</"@) {
                            match spec_qualname(s, e + 2) {
                                None => None,
                                Some((f, end_name)) => {
                                    let g = ws_to(s, f);
                                    if g < s.len() && s[g] == '>' {
                                        Some((g + 1, SpecXml::Element { name, attrs, children }))
                                    } else {
                                        None
                                    }
                                },
                            }
                        } else {
                            None
                        }
                    } else {
                        None
                    }
                }
            },
        }
    }
}

/// One item of element content, tried in order: a CDATA section, an escape,
/// a literal character run, a child element, an entity reference, a
/// processing instruction, a comment.
pub open spec fn spec_content_item(s: Seq<char>, i: int) -> Option<(int, SpecXml)>
    decreases rem(s, i), 1int,
{
    if !(0 <= i < s.len()) {
        None
    } else if spec_cdata(s, i) is Some {
        spec_cdata(s, i)
    } else if spec_escape(s, i) is Some {
        spec_escape(s, i)
    } else if spec_literal(s, i) is Some {
        spec_literal(s, i)
    } else if spec_element(s, i) is Some {
        spec_element(s, i)
    } else if spec_entityref(s, i) is Some {
        spec_entityref(s, i)
    } else if spec_pi(s, i) is Some {
        spec_pi(s, i)
    } else {
        spec_comment(s, i)
    }
}

/// The content of an element: items collected until none matches.
pub open spec fn spec_content(s: Seq<char>, i: int) -> (int, Seq<SpecXml>)
    decreases rem(s, i), 2int,
{
    if !(0 <= i < s.len()) {
        (i, Seq::empty())
    } else {
        match spec_content_item(s, i) {
            None => (i, Seq::empty()),
            Some((j, nd)) => {
                let (k, rest) = spec_content(s, adv(i, j));
                (k, seq![nd] + rest)
            },
        }
    }
}

// --- the document type declaration ------------------------------------------

/// End of an entity value body: characters other than the quote and `&`,
/// with references allowed.
pub open spec fn ev_body_end(s: Seq<char>, i: int, q: char) -> int
    decreases rem(s, i),
{
    if !(0 <= i < s.len()) {
        i
    } else if s[i] == q {
        i
    } else if s[i] == '&' {
        match spec_ref_end(s, i) {
            Some(j) => ev_body_end(s, adv(i, j), q),
            None => i,
        }
    } else {
        ev_body_end(s, i + 1, q)
    }
}

pub proof fn lemma_ev_body_end(s: Seq<char>, i: int, q: char)
    requires
        0 <= i <= s.len(),
    ensures
        i <= ev_body_end(s, i, q) <= s.len(),
    decreases rem(s, i),
{
    if 0 <= i < s.len() {
        if s[i] == q {
        } else if s[i] == '&' {
            lemma_spec_ref_end(s, i);
            match spec_ref_end(s, i) {
                Some(j) => {
                    lemma_ev_body_end(s, adv(i, j), q);
                },
                None => {},
            }
        } else {
            lemma_ev_body_end(s, i + 1, q);
        }
    }
}

/// A general entity declaration: `<!ENTITY`, a name, a quoted value, `>`.
/// The value is kept as the range of its raw text.
pub open spec fn spec_entitydecl(s: Seq<char>, i: int) -> Option<(int, SpecXml)> {
    if !lit_at(s, i, "<!ENTITY"@) {
        None
    } else if !(i + 8 < s.len() && is_ws(s[i + 8])) {
        None
    } else {
        let a = ws_to(s, i + 8);
        match spec_qualname(s, a) {
            None => None,
            Some((j, nm)) => if !(j < s.len() && is_ws(s[j])) {
                None
            } else {
                let b = ws_to(s, j);
                if b < s.len() && (s[b] == '\'' || s[b] == '"') {
                    let e = ev_body_end(s, b + 1, s[b]);
                    if e < s.len() && s[e] == s[b] {
                        let c = ws_to(s, e + 1);
                        if c < s.len() && s[c] == '>' {
                            Some(
                                (
                                    c + 1,
                                    SpecXml::Dtd {
                                        name: nm,
                                        value: SpecXmlValue::Span { start: b + 1, end: e },
                                    },
                                ),
                            )
                        } else {
                            None
                        }
                    } else {
                        None
                    }
                } else {
                    None
                }
            },
        }
    }
}

/// One item of the internal subset: an entity declaration, a processing
/// instruction, or a comment.
pub open spec fn spec_subset_item(s: Seq<char>, i: int) -> Option<(int, SpecXml)> {
    if spec_entitydecl(s, i) is Some {
        spec_entitydecl(s, i)
    } else if spec_pi(s, i) is Some {
        spec_pi(s, i)
    } else {
        spec_comment(s, i)
    }
}

/// The items of the internal subset, each optionally preceded by
/// whitespace.
pub open spec fn spec_subset_list(s: Seq<char>, i: int) -> (int, Seq<SpecXml>)
    decreases rem(s, i),
{
    if !(0 <= i < s.len()) {
        (i, Seq::empty())
    } else {
        match spec_subset_item(s, ws_to(s, i)) {
            None => (i, Seq::empty()),
            Some((j, nd)) => {
                let (k, rest) = spec_subset_list(s, adv(i, j));
                (k, seq![nd] + rest)
            },
        }
    }
}

/// The document type declaration: `<!DOCTYPE`, a name, an optional internal
/// subset in brackets, then `>`.  External identifiers are not supported.
pub open spec fn spec_doctype(s: Seq<char>, i: int) -> Option<(int, Seq<SpecXml>)> {
    if !lit_at(s, i, "<!DOCTYPE"@) {
        None
    } else if !(i + 9 < s.len() && is_ws(s[i + 9])) {
        None
    } else {
        let a = ws_to(s, i + 9);
        match spec_qualname(s, a) {
            None => None,
            Some((j, nm)) => {
                let c = ws_to(s, j);
                if c < s.len() && s[c] == '[' {
                    let (d, decls) = spec_subset_list(s, adv(i, c + 1));
                    let f = ws_to(s, d);
                    if f < s.len() && s[f] == ']' {
                        let g = ws_to(s, f + 1);
                        if g < s.len() && s[g] == '>' {
                            Some((g + 1, decls))
                        } else {
                            None
                        }
                    } else {
                        None
                    }
                } else if c < s.len() && s[c] == '>' {
                    Some((c + 1, Seq::empty()))
                } else {
                    None
                }
            },
        }
    }
}

// --- the whole document ------------------------------------------------------

/// Where the root element must start once the optional declaration has been
/// read.
pub open spec fn decl_end(s: Seq<char>) -> int {
    match spec_xmldecl(s, ws_to(s, 0)) {
        Some((a, d)) => ws_to(s, a),
        None => ws_to(s, 0),
    }
}

/// Where the root element must start once the optional declaration and the
/// optional document type declaration have been read.
pub open spec fn prolog_end(s: Seq<char>) -> int {
    match spec_doctype(s, decl_end(s)) {
        Some((b, decls)) => ws_to(s, b),
        None => decl_end(s),
    }
}

/// A whole document: optional whitespace, an optional declaration, an
/// optional document type declaration, exactly one root element, and nothing
/// after it but whitespace.
pub open spec fn spec_document(s: Seq<char>) -> Option<SpecDoc> {
    let t1 = trim_end_to(s);
    match spec_element(s, prolog_end(s)) {
        Some((e, root)) => if e == t1 {
            Some(
                SpecDoc {
                    xmldecl: match spec_xmldecl(s, ws_to(s, 0)) {
                        Some((a, d)) => Some(d),
                        None => None,
                    },
                    prologue: match spec_doctype(s, decl_end(s)) {
                        Some((b, decls)) => decls,
                        None => Seq::empty(),
                    },
                    content: seq![root],
                },
            )
        } else {
            None
        },
        None => None,
    }
}

/// The text left over when a root element parses but does not reach the end
/// of the trimmed document: the range of the extra characters.  `None` when
/// the document is complete or no root element parses at all.
pub open spec fn spec_document_tail(s: Seq<char>) -> Option<(int, int)> {
    let t1 = trim_end_to(s);
    match spec_element(s, prolog_end(s)) {
        Some((e, root)) => if e == t1 {
            None
        } else {
            Some((e, if t1 > e {
                t1
            } else {
                e
            }))
        },
        None => None,
    }
}

// ---------------------------------------------------------------------------
// Well-formedness: every text range a parse produces lies inside the buffer.
// ---------------------------------------------------------------------------

/// The ranges of an atomic value lie inside a buffer of length `n`.
pub open spec fn xval_wf(v: SpecXmlValue, n: int) -> bool {
    match v {
        SpecXmlValue::Span { start, end } => 0 <= start <= end <= n,
        SpecXmlValue::Decoded(c) => true,
    }
}

/// All text ranges in a node lie inside a buffer of length `n`.
pub open spec fn xml_spans_wf(v: SpecXml, n: int) -> bool
    decreases v,
{
    match v {
        SpecXml::Element { name, attrs, children } => (forall|k: int|
            0 <= k < attrs.len() ==> xml_spans_wf(#[trigger] attrs[k], n)) && (forall|k: int|
            0 <= k < children.len() ==> xml_spans_wf(#[trigger] children[k], n)),
        SpecXml::Attribute { name, value } => xval_wf(value, n),
        SpecXml::Text(v2) => xval_wf(v2, n),
        SpecXml::Pi { name, value } => xval_wf(value, n),
        SpecXml::Comment(v2) => xval_wf(v2, n),
        SpecXml::Dtd { name, value } => xval_wf(value, n),
        SpecXml::Reference(nm) => true,
    }
}

pub proof fn lemma_spec_escape(s: Seq<char>, i: int)
    requires
        0 <= i <= s.len(),
    ensures
        spec_escape(s, i) matches Some((j, nd)) ==> i < j <= s.len() && xml_spans_wf(
            nd,
            s.len() as int,
        ),
{
    reveal_strlit("&#x");
    reveal_strlit("&#");
    reveal_strlit("&gt;");
    reveal_strlit("&lt;");
    reveal_strlit("&amp;");
    reveal_strlit("&quot;");
    reveal_strlit("&apos;");
    if i + 3 <= s.len() {
        lemma_hex_to(s, i + 3);
    }
    if i + 2 <= s.len() {
        lemma_digits_to(s, i + 2);
    }
}

pub proof fn lemma_spec_literal(s: Seq<char>, i: int)
    requires
        0 <= i <= s.len(),
    ensures
        spec_literal(s, i) matches Some((j, nd)) ==> i < j <= s.len() && xml_spans_wf(
            nd,
            s.len() as int,
        ),
{
    lemma_literal_to(s, i);
}

pub proof fn lemma_spec_cdata(s: Seq<char>, i: int)
    requires
        0 <= i <= s.len(),
    ensures
        spec_cdata(s, i) matches Some((j, nd)) ==> i < j <= s.len() && xml_spans_wf(
            nd,
            s.len() as int,
        ),
{
    reveal_strlit("<![CDATA[");
    reveal_strlit("]]>");
    if lit_at(s, i, "<![CDATA["@) {
        lemma_find_lit(s, i + 9, "]]>"@);
    }
}

pub proof fn lemma_spec_pi(s: Seq<char>, i: int)
    requires
        0 <= i <= s.len(),
    ensures
        spec_pi(s, i) matches Some((j, nd)) ==> i < j <= s.len() && xml_spans_wf(
            nd,
            s.len() as int,
        ),
{
    reveal_strlit("<?");
    reveal_strlit("?>");
    if lit_at(s, i, "<?"@) {
        lemma_ws_to(s, i + 2);
        lemma_spec_ncname(s, ws_to(s, i + 2));
        match spec_ncname(s, ws_to(s, i + 2)) {
            None => {},
            Some((j, nm)) => {
                lemma_ws_to(s, j);
                let b = ws_to(s, j);
                if b <= s.len() {
                    lemma_find_lit(s, b, "?>"@);
                }
            },
        }
    }
}

pub proof fn lemma_spec_comment(s: Seq<char>, i: int)
    requires
        0 <= i <= s.len(),
    ensures
        spec_comment(s, i) matches Some((j, nd)) ==> i < j <= s.len() && xml_spans_wf(
            nd,
            s.len() as int,
        ),
{
    reveal_strlit("<!--");
    reveal_strlit("--");
    reveal_strlit("-->");
    if lit_at(s, i, "<!--"@) {
        lemma_find_lit(s, i + 4, "--"@);
    }
}

pub proof fn lemma_spec_entityref(s: Seq<char>, i: int)
    requires
        0 <= i <= s.len(),
    ensures
        spec_entityref(s, i) matches Some((j, nd)) ==> i < j <= s.len() && xml_spans_wf(
            nd,
            s.len() as int,
        ),
{
    if 0 <= i < s.len() && s[i] == '&' {
        lemma_spec_qualname(s, i + 1);
    }
}

pub proof fn lemma_attr_wf(s: Seq<char>, i: int)
    ensures
        spec_attr(s, i) matches Some((j, a)) ==> i < j <= s.len() && xml_spans_wf(
            a,
            s.len() as int,
        ),
    decreases rem(s, i), 0int,
{
    if 0 <= i < s.len() && is_ws(s[i]) {
        lemma_ws_to(s, i);
        let a = ws_to(s, i);
        lemma_spec_qualname(s, a);
        match spec_qualname(s, a) {
            None => {},
            Some((j, nm)) => {
                lemma_ws_to(s, j);
                let b = ws_to(s, j);
                if b < s.len() && s[b] == '=' {
                    lemma_ws_to(s, b + 1);
                    lemma_spec_dstring(s, ws_to(s, b + 1));
                }
            },
        }
    }
}

pub proof fn lemma_attrs_list_wf(s: Seq<char>, i: int)
    ensures
        ({
            let (j, l) = spec_attrs_list(s, i);
            &&& i <= j
            &&& (0 <= i <= s.len() ==> j <= s.len())
            &&& forall|k: int| 0 <= k < l.len() ==> xml_spans_wf(#[trigger] l[k], s.len() as int)
        }),
    decreases rem(s, i), 1int,
{
    if 0 <= i < s.len() {
        lemma_attr_wf(s, i);
        match spec_attr(s, i) {
            None => {},
            Some((j, a)) => {
                lemma_attrs_list_wf(s, adv(i, j));
            },
        }
    }
}

pub proof fn lemma_element_wf(s: Seq<char>, i: int)
    ensures
        spec_element(s, i) matches Some((j, v)) ==> i < j <= s.len() && xml_spans_wf(
            v,
            s.len() as int,
        ),
    decreases rem(s, i), 0int,
{
    reveal_strlit("/>");
    reveal_strlit("</");
    if 0 <= i < s.len() && s[i] == '<' {
        lemma_spec_qualname(s, i + 1);
        match spec_qualname(s, i + 1) {
            None => {},
            Some((j, name)) => {
                lemma_attrs_list_wf(s, adv(i, j));
                let (k, attrs) = spec_attrs_list(s, adv(i, j));
                if !attrs_have_dup(attrs) {
                    lemma_ws_to(s, k);
                    let w = ws_to(s, k);
                    if lit_at(s, w, "/>"@) {
                        let v = SpecXml::Element { name, attrs, children: Seq::empty() };
                        assert(xml_spans_wf(v, s.len() as int));
                    } else if w < s.len() && s[w] == '>' {
                        lemma_ws_to(s, w + 1);
                        let cw = ws_to(s, w + 1);
                        lemma_content_wf(s, adv(i, cw));
                        let (e, children) = spec_content(s, adv(i, cw));
                        if lit_at(s, e, "</"@) {
                            lemma_spec_qualname(s, e + 2);
                            match spec_qualname(s, e + 2) {
                                None => {},
                                Some((f, end_name)) => {
                                    lemma_ws_to(s, f);
                                    let g = ws_to(s, f);
                                    if g < s.len() && s[g] == '>' {
                                        let v = SpecXml::Element { name, attrs, children };
                                        assert(xml_spans_wf(v, s.len() as int));
                                    }
                                },
                            }
                        }
                    }
                }
            },
        }
    }
}

pub proof fn lemma_content_item_wf(s: Seq<char>, i: int)
    ensures
        spec_content_item(s, i) matches Some((j, nd)) ==> i < j <= s.len() && xml_spans_wf(
            nd,
            s.len() as int,
        ),
    decreases rem(s, i), 1int,
{
    if 0 <= i < s.len() {
        lemma_spec_cdata(s, i);
        lemma_spec_escape(s, i);
        lemma_spec_literal(s, i);
        lemma_element_wf(s, i);
        lemma_spec_entityref(s, i);
        lemma_spec_pi(s, i);
        lemma_spec_comment(s, i);
    }
}

pub proof fn lemma_content_wf(s: Seq<char>, i: int)
    ensures
        ({
            let (j, l) = spec_content(s, i);
            &&& i <= j
            &&& (0 <= i <= s.len() ==> j <= s.len())
            &&& forall|k: int| 0 <= k < l.len() ==> xml_spans_wf(#[trigger] l[k], s.len() as int)
        }),
    decreases rem(s, i), 2int,
{
    if 0 <= i < s.len() {
        lemma_content_item_wf(s, i);
        match spec_content_item(s, i) {
            None => {},
            Some((j, nd)) => {
                lemma_content_wf(s, adv(i, j));
            },
        }
    }
}

pub proof fn lemma_spec_entitydecl(s: Seq<char>, i: int)
    requires
        0 <= i <= s.len(),
    ensures
        spec_entitydecl(s, i) matches Some((j, nd)) ==> i < j <= s.len() && xml_spans_wf(
            nd,
            s.len() as int,
        ),
{
    reveal_strlit("<!ENTITY");
    if lit_at(s, i, "<!ENTITY"@) && i + 8 < s.len() && is_ws(s[i + 8]) {
        lemma_ws_to(s, i + 8);
        let a = ws_to(s, i + 8);
        lemma_spec_qualname(s, a);
        match spec_qualname(s, a) {
            None => {},
            Some((j, nm)) => {
                if j < s.len() && is_ws(s[j]) {
                    lemma_ws_to(s, j);
                    let b = ws_to(s, j);
                    if b < s.len() && (s[b] == '\'' || s[b] == '"') {
                        lemma_ev_body_end(s, b + 1, s[b]);
                        let e = ev_body_end(s, b + 1, s[b]);
                        if e < s.len() && s[e] == s[b] {
                            lemma_ws_to(s, e + 1);
                        }
                    }
                }
            },
        }
    }
}

pub proof fn lemma_subset_list_wf(s: Seq<char>, i: int)
    ensures
        ({
            let (j, l) = spec_subset_list(s, i);
            &&& i <= j
            &&& (0 <= i <= s.len() ==> j <= s.len())
            &&& forall|k: int| 0 <= k < l.len() ==> xml_spans_wf(#[trigger] l[k], s.len() as int)
        }),
    decreases rem(s, i),
{
    if 0 <= i < s.len() {
        lemma_ws_to(s, i);
        let t = ws_to(s, i);
        lemma_spec_entitydecl(s, t);
        lemma_spec_pi(s, t);
        lemma_spec_comment(s, t);
        match spec_subset_item(s, t) {
            None => {},
            Some((j, nd)) => {
                lemma_subset_list_wf(s, adv(i, j));
            },
        }
    }
}

pub proof fn lemma_spec_doctype(s: Seq<char>, i: int)
    requires
        0 <= i <= s.len(),
    ensures
        ({
            let r = spec_doctype(s, i);
            r matches Some((j, l)) ==> i < j <= s.len() && forall|k: int|
                0 <= k < l.len() ==> xml_spans_wf(#[trigger] l[k], s.len() as int)
        }),
{
    reveal_strlit("<!DOCTYPE");
    if lit_at(s, i, "<!DOCTYPE"@) && i + 9 < s.len() && is_ws(s[i + 9]) {
        lemma_ws_to(s, i + 9);
        let a = ws_to(s, i + 9);
        lemma_spec_qualname(s, a);
        match spec_qualname(s, a) {
            None => {},
            Some((j, nm)) => {
                lemma_ws_to(s, j);
                let c = ws_to(s, j);
                if c < s.len() && s[c] == '[' {
                    lemma_subset_list_wf(s, adv(i, c + 1));
                    let (d, decls) = spec_subset_list(s, adv(i, c + 1));
                    lemma_ws_to(s, d);
                    let f = ws_to(s, d);
                    if f < s.len() && s[f] == ']' {
                        lemma_ws_to(s, f + 1);
                    }
                }
            },
        }
    }
}

// ---------------------------------------------------------------------------
// The executable parse tree, built fresh on every call and discarded after.
// ---------------------------------------------------------------------------

/// A declaration found in the document type declaration.  Only general
/// entities are supported; the entity value is kept as the range of its raw
/// text.
#[derive(Clone, Debug)]
pub enum DtdDecl {
    GeneralEntity(QualifiedName, TextSpan),
}

/// A node of the parsed document tree.
pub enum XMLNode {
    /// Element name, attributes, content.
    Element(QualifiedName, Vec<XMLNode>, Vec<XMLNode>),
    Attribute(QualifiedName, Value),
    Text(Value),
    PI(String, Value),
    Comment(Value),
    Dtd(DtdDecl),
    Reference(QualifiedName),
}

/// The document declaration.
#[derive(Clone, Debug)]
pub struct XMLdecl {
    version: String,
    encoding: Option<String>,
    standalone: Option<String>,
}

impl View for XMLdecl {
    type V = SpecDecl;

    closed spec fn view(&self) -> SpecDecl {
        SpecDecl {
            version: self.version@,
            encoding: self.encoding.deep_view(),
            standalone: self.standalone.deep_view(),
        }
    }
}

/// A whole parsed document: the declaration, the prologue, the root element,
/// and anything after it (always empty in this grammar).
pub struct XMLDocument {
    pub prologue: Vec<XMLNode>,
    pub content: Vec<XMLNode>,
    pub epilogue: Vec<XMLNode>,
    pub xmldecl: Option<XMLdecl>,
}

/// The specification-level image of a parsed name.
pub open spec fn qview(q: QualifiedName) -> SpecQName {
    SpecQName { nsuri: q.nsuri_view(), prefix: q.prefix_view(), local: q.local_view() }
}

/// The specification-level image of an atomic value.
pub open spec fn vview(v: Value) -> SpecXmlValue {
    match v {
        Value::Text(sp) => SpecXmlValue::Span { start: sp.start as int, end: sp.end as int },
        Value::Decoded(c) => SpecXmlValue::Decoded(c),
    }
}

/// The specification-level image of a parsed node.
pub open spec fn xview(nd: XMLNode) -> SpecXml
    decreases nd,
{
    match nd {
        XMLNode::Element(q, attrs, children) => SpecXml::Element {
            name: qview(q),
            attrs: xsview(attrs@),
            children: xsview(children@),
        },
        XMLNode::Attribute(q, v) => SpecXml::Attribute { name: qview(q), value: vview(v) },
        XMLNode::Text(v) => SpecXml::Text(vview(v)),
        XMLNode::PI(nm, v) => SpecXml::Pi { name: nm@, value: vview(v) },
        XMLNode::Comment(v) => SpecXml::Comment(vview(v)),
        XMLNode::Dtd(d) => match d {
            DtdDecl::GeneralEntity(q, sp) => SpecXml::Dtd {
                name: qview(q),
                value: SpecXmlValue::Span { start: sp.start as int, end: sp.end as int },
            },
        },
        XMLNode::Reference(q) => SpecXml::Reference(qview(q)),
    }
}

/// The specification-level image of a list of parsed nodes.
pub open spec fn xsview(l: Seq<XMLNode>) -> Seq<SpecXml>
    decreases l,
{
    Seq::new(
        l.len(),
        |k: int|
            if 0 <= k < l.len() {
                xview(l[k])
            } else {
                SpecXml::Text(SpecXmlValue::Decoded(' '))
            },
    )
}

pub proof fn lemma_xsview_push(l: Seq<XMLNode>, x: XMLNode)
    ensures
        xsview(l.push(x)) == xsview(l) + seq![xview(x)],
{
    assert(xsview(l.push(x)) =~= xsview(l) + seq![xview(x)]);
}

/// Every text range of a parsed document lies inside the document.
pub proof fn lemma_document_wf(s: Seq<char>)
    ensures
        spec_document(s) matches Some(d) ==> forall|k: int|
            0 <= k < d.content.len() ==> xml_spans_wf(#[trigger] d.content[k], s.len() as int),
{
    lemma_ws_to(s, 0);
    lemma_element_wf(s, prolog_end(s));
}

// ---------------------------------------------------------------------------
// The executable parser, proved to return exactly what the grammar functions
// above describe.
// ---------------------------------------------------------------------------

/// Relies on char::from_u32: it returns a character exactly when the value
/// is a Unicode scalar value, and that character casts back to the value.
#[verifier::external_body]
fn char_from_u32(u: u32) -> (r: Option<char>)
    ensures
        r is Some <==> is_scalar_value(u as int),
        r matches Some(c) ==> c as u32 == u,
{
    char::from_u32(u)
}

/// Computes the number denoted by the decimal digits in `[a, d)`.
fn dec_value(s: &str, a: usize, d: usize, n: usize) -> (r: u32)
    requires
        n == s@.len(),
        s@.len() <= usize::MAX,
        a <= d <= n,
        d - a <= 6,
        forall|k: int| a <= k < d ==> is_digit(s@[k]),
    ensures
        r as int == dec_num(s@.subrange(a as int, d as int)),
{
    let mut acc: u32 = 0;
    let mut p = a;
    proof {
        assert(s@.subrange(a as int, a as int) =~= Seq::<char>::empty());
    }
    while p < d
        invariant
            a <= p <= d <= n,
            n == s@.len(),
            s@.len() <= usize::MAX,
            d - a <= 6,
            forall|k: int| a <= k < d ==> is_digit(s@[k]),
            acc as int == dec_num(s@.subrange(a as int, p as int)),
        decreases d - p,
    {
        let c = s.get_char(p);
        proof {
            assert(forall|k: int|
                0 <= k < s@.subrange(a as int, p as int).len() ==> is_digit(
                    #[trigger] s@.subrange(a as int, p as int)[k],
                ));
            lemma_dec_num_bound(s@.subrange(a as int, p as int));
            assert(s@.subrange(a as int, p + 1).drop_last() =~= s@.subrange(a as int, p as int));
        }
        acc = acc * 10 + (c as u32 - 48);
        p = p + 1;
    }
    proof {
        assert(s@.subrange(a as int, p as int) =~= s@.subrange(a as int, d as int));
    }
    acc
}

/// Computes the number denoted by the hexadecimal digits in `[a, d)`.
fn hex_value(s: &str, a: usize, d: usize, n: usize) -> (r: u32)
    requires
        n == s@.len(),
        s@.len() <= usize::MAX,
        a <= d <= n,
        d - a <= 6,
        forall|k: int| a <= k < d ==> is_hex_digit(s@[k]),
    ensures
        r as int == hex_num(s@.subrange(a as int, d as int)),
{
    let mut acc: u32 = 0;
    let mut p = a;
    proof {
        assert(s@.subrange(a as int, a as int) =~= Seq::<char>::empty());
    }
    while p < d
        invariant
            a <= p <= d <= n,
            n == s@.len(),
            s@.len() <= usize::MAX,
            d - a <= 6,
            forall|k: int| a <= k < d ==> is_hex_digit(s@[k]),
            acc as int == hex_num(s@.subrange(a as int, p as int)),
        decreases d - p,
    {
        let c = s.get_char(p);
        proof {
            assert(forall|k: int|
                0 <= k < s@.subrange(a as int, p as int).len() ==> is_hex_digit(
                    #[trigger] s@.subrange(a as int, p as int)[k],
                ));
            lemma_hex_num_bound(s@.subrange(a as int, p as int));
            assert(s@.subrange(a as int, p + 1).drop_last() =~= s@.subrange(a as int, p as int));
        }
        let hv: u32 = if c >= '0' && c <= '9' {
            c as u32 - 48
        } else if c >= 'a' && c <= 'f' {
            c as u32 - 97 + 10
        } else {
            c as u32 - 65 + 10
        };
        acc = acc * 16 + hv;
        p = p + 1;
    }
    proof {
        assert(s@.subrange(a as int, p as int) =~= s@.subrange(a as int, d as int));
    }
    acc
}

/// Parses a name at `i` and returns its text.
fn x_ncname(s: &str, i: usize, n: usize) -> (r: Option<(usize, String)>)
    requires
        n == s@.len(),
        s@.len() <= usize::MAX,
        i <= n,
    ensures
        match r {
            Some((j, nm)) => spec_ncname(s@, i as int) == Some((j as int, nm@)) && i < j <= n,
            None => spec_ncname(s@, i as int) is None,
        },
{
    proof {
        lemma_spec_ncname(s@, i as int);
    }
    if i >= n {
        return None;
    }
    let c = s.get_char(i);
    if (c >= 'a' && c <= 'z') || (c >= 'A' && c <= 'Z') || c == '_' {
        let j = skip_name_chars(s, i + 1, n);
        let nm = s.substring_char(i, j).to_owned();
        Some((j, nm))
    } else {
        None
    }
}

/// Parses a possibly prefixed name at `i`.
fn x_qualname(s: &str, i: usize, n: usize) -> (r: Option<(usize, QualifiedName)>)
    requires
        n == s@.len(),
        s@.len() <= usize::MAX,
        i <= n,
    ensures
        match r {
            Some((j, q)) => spec_qualname(s@, i as int) == Some((j as int, qview(q))) && i < j
                <= n,
            None => spec_qualname(s@, i as int) is None,
        },
{
    match x_ncname(s, i, n) {
        None => None,
        Some((j, p1)) => {
            if j < n && s.get_char(j) == ':' {
                match x_ncname(s, j + 1, n) {
                    Some((k, l)) => Some((k, QualifiedName::new(None, Some(p1), l))),
                    None => Some((j, QualifiedName::new(None, None, p1))),
                }
            } else {
                Some((j, QualifiedName::new(None, None, p1)))
            }
        },
    }
}

/// Scans a quoted-value body starting at `i`.
fn x_str_body(s: &str, i: usize, n: usize) -> (r: Option<usize>)
    requires
        n == s@.len(),
        s@.len() <= usize::MAX,
        i <= n,
    ensures
        match r {
            Some(j) => xml_str_body_end(s@, i as int) == Some(j as int) && i <= j <= n,
            None => xml_str_body_end(s@, i as int) is None,
        },
{
    let mut p = i;
    loop
        invariant
            i <= p <= n,
            n == s@.len(),
            s@.len() <= usize::MAX,
            xml_str_body_end(s@, i as int) == xml_str_body_end(s@, p as int),
        decreases n - p,
    {
        if p >= n {
            return Some(p);
        }
        let c = s.get_char(p);
        if c == '\\' {
            if p + 1 < n {
                let e = s.get_char(p + 1);
                if e == '"' || e == 'n' || e == '\\' {
                    p = p + 2;
                } else {
                    return None;
                }
            } else {
                return None;
            }
        } else if (c >= 'a' && c <= 'z') || (c >= 'A' && c <= 'Z') || (c >= '0' && c <= '9') || c
            == ' ' || c == '\t' || c == '\r' || c == '\n' || c == '-' || c == '.' || c == ':' || c
            == '/' || c == '$' || c == '{' || c == '}' || c == '*' {
            assert(is_xml_attr_char(s@[p as int]));
            p = p + 1;
        } else {
            assert(!is_xml_attr_char(s@[p as int]) && s@[p as int] != '\\');
            return Some(p);
        }
    }
}

/// Parses a quoted value at `i`; returns the position after the closing
/// quote and the range of the raw body.
fn x_dstring(s: &str, i: usize, n: usize) -> (r: Option<(usize, TextSpan)>)
    requires
        n == s@.len(),
        s@.len() <= usize::MAX,
        i <= n,
    ensures
        match r {
            Some((j, sp)) => spec_dstring(s@, i as int) == Some(
                (j as int, sp.start as int, sp.end as int),
            ) && i < j <= n,
            None => spec_dstring(s@, i as int) is None,
        },
{
    if i >= n {
        return None;
    }
    let q = s.get_char(i);
    if q != '\'' && q != '"' {
        return None;
    }
    match x_str_body(s, i + 1, n) {
        None => None,
        Some(j) => {
            if j < n && s.get_char(j) == q {
                Some((j + 1, TextSpan { start: i + 1, end: j }))
            } else {
                None
            }
        },
    }
}

/// Parses an escape in content at `i`.
fn x_escape(s: &str, i: usize, n: usize) -> (r: Option<(usize, XMLNode)>)
    requires
        n == s@.len(),
        s@.len() <= usize::MAX,
        i <= n,
    ensures
        match r {
            Some((j, nd)) => spec_escape(s@, i as int) == Some((j as int, xview(nd))) && i < j
                <= n,
            None => spec_escape(s@, i as int) is None,
        },
{
    proof {
        lemma_spec_escape(s@, i as int);
        reveal_strlit("&#x");
        reveal_strlit("&#");
        reveal_strlit("&gt;");
        reveal_strlit("&lt;");
        reveal_strlit("&amp;");
        reveal_strlit("&quot;");
        reveal_strlit("&apos;");
    }
    if match_lit(s, i, n, "&#x") {
        let h = skip_hex_digits(s, i + 3, n);
        if h > i + 3 && h - i <= 9 && h < n && s.get_char(h) == ';' {
            proof {
                crate::text::lemma_hex_to(s@, i + 3);
            }
            let u = hex_value(s, i + 3, h, n);
            if u < 0xD800 || (0xE000 <= u && u <= 0x10FFFF) {
                match char_from_u32(u) {
                    Some(c) => {
                        proof {
                            vstd::utf8::char_u32_cast(c, u);
                        }
                        Some((h + 1, XMLNode::Text(Value::Decoded(c))))
                    },
                    None => vstd::pervasive::unreached(),
                }
            } else {
                None
            }
        } else {
            None
        }
    } else if match_lit(s, i, n, "&#") {
        let d = skip_digits(s, i + 2, n);
        if d > i + 2 && d - i <= 8 && d < n && s.get_char(d) == ';' {
            proof {
                crate::text::lemma_digits_to(s@, i + 2);
            }
            let u = dec_value(s, i + 2, d, n);
            proof {
                lemma_dec_num_bound(s@.subrange(i + 2, d as int));
            }
            if u < 0xD800 || (0xE000 <= u && u <= 0x10FFFF) {
                match char_from_u32(u) {
                    Some(c) => {
                        proof {
                            vstd::utf8::char_u32_cast(c, u);
                        }
                        Some((d + 1, XMLNode::Text(Value::Decoded(c))))
                    },
                    None => vstd::pervasive::unreached(),
                }
            } else {
                None
            }
        } else {
            None
        }
    } else if match_lit(s, i, n, "&gt;") {
        Some((i + 4, XMLNode::Text(Value::Decoded('>'))))
    } else if match_lit(s, i, n, "&lt;") {
        Some((i + 4, XMLNode::Text(Value::Decoded('<'))))
    } else if match_lit(s, i, n, "&amp;") {
        Some((i + 5, XMLNode::Text(Value::Decoded('&'))))
    } else if match_lit(s, i, n, "&quot;") {
        Some((i + 6, XMLNode::Text(Value::Decoded('"'))))
    } else if match_lit(s, i, n, "&apos;") {
        Some((i + 6, XMLNode::Text(Value::Decoded('\''))))
    } else {
        None
    }
}

/// Parses a named entity reference at `i`.
fn x_entityref(s: &str, i: usize, n: usize) -> (r: Option<(usize, XMLNode)>)
    requires
        n == s@.len(),
        s@.len() <= usize::MAX,
        i <= n,
    ensures
        match r {
            Some((j, nd)) => spec_entityref(s@, i as int) == Some((j as int, xview(nd))) && i < j
                <= n,
            None => spec_entityref(s@, i as int) is None,
        },
{
    if i >= n || s.get_char(i) != '&' {
        return None;
    }
    match x_qualname(s, i + 1, n) {
        None => None,
        Some((j, nm)) => {
            if j < n && s.get_char(j) == ';' {
                Some((j + 1, XMLNode::Reference(nm)))
            } else {
                None
            }
        },
    }
}

/// Scans a literal character run at `i`.
fn x_literal(s: &str, i: usize, n: usize) -> (r: Option<(usize, XMLNode)>)
    requires
        n == s@.len(),
        s@.len() <= usize::MAX,
        i <= n,
    ensures
        match r {
            Some((j, nd)) => spec_literal(s@, i as int) == Some((j as int, xview(nd))) && i < j
                <= n,
            None => spec_literal(s@, i as int) is None,
        },
{
    proof {
        lemma_literal_to(s@, i as int);
        reveal_strlit("]]>");
    }
    let mut p = i;
    loop
        invariant
            i <= p <= n,
            n == s@.len(),
            s@.len() <= usize::MAX,
            literal_to(s@, i as int) == literal_to(s@, p as int),
        ensures
            i <= p <= n,
            literal_to(s@, i as int) == p as int,
        decreases n - p,
    {
        if p >= n {
            break ;
        }
        let c = s.get_char(p);
        let u = c as u32;
        if c != '<' && c != '&' && !match_lit(s, p, n, "]]>") && u >= 1 && u != 0xFFFE && u
            != 0xFFFF {
            assert(is_xml_char(s@[p as int]));
            p = p + 1;
        } else {
            break ;
        }
    }
    if p > i {
        Some((p, XMLNode::Text(Value::Text(TextSpan { start: i, end: p }))))
    } else {
        None
    }
}

/// Parses a CDATA section at `i`.
fn x_cdata(s: &str, i: usize, n: usize) -> (r: Option<(usize, XMLNode)>)
    requires
        n == s@.len(),
        s@.len() <= usize::MAX,
        i <= n,
    ensures
        match r {
            Some((j, nd)) => spec_cdata(s@, i as int) == Some((j as int, xview(nd))) && i < j
                <= n,
            None => spec_cdata(s@, i as int) is None,
        },
{
    proof {
        lemma_spec_cdata(s@, i as int);
        reveal_strlit("<![CDATA[");
        reveal_strlit("]]>");
    }
    if !match_lit(s, i, n, "<![CDATA[") {
        return None;
    }
    let e = find_lit_at(s, i + 9, n, "]]>");
    if e < n {
        Some((e + 3, XMLNode::Text(Value::Text(TextSpan { start: i + 9, end: e }))))
    } else {
        None
    }
}

/// Parses a processing instruction at `i`.
fn x_pi(s: &str, i: usize, n: usize) -> (r: Option<(usize, XMLNode)>)
    requires
        n == s@.len(),
        s@.len() <= usize::MAX,
        i <= n,
    ensures
        match r {
            Some((j, nd)) => spec_pi(s@, i as int) == Some((j as int, xview(nd))) && i < j <= n,
            None => spec_pi(s@, i as int) is None,
        },
{
    proof {
        lemma_spec_pi(s@, i as int);
        reveal_strlit("<?");
        reveal_strlit("?>");
    }
    if !match_lit(s, i, n, "<?") {
        return None;
    }
    let a = skip_ws(s, i + 2, n);
    match x_ncname(s, a, n) {
        None => None,
        Some((j, nm)) => {
            let b = skip_ws(s, j, n);
            let e = find_lit_at(s, b, n, "?>");
            if e < n {
                Some((e + 2, XMLNode::PI(nm, Value::Text(TextSpan { start: b, end: e }))))
            } else {
                None
            }
        },
    }
}

/// Parses a comment at `i`.
fn x_comment(s: &str, i: usize, n: usize) -> (r: Option<(usize, XMLNode)>)
    requires
        n == s@.len(),
        s@.len() <= usize::MAX,
        i <= n,
    ensures
        match r {
            Some((j, nd)) => spec_comment(s@, i as int) == Some((j as int, xview(nd))) && i < j
                <= n,
            None => spec_comment(s@, i as int) is None,
        },
{
    proof {
        lemma_spec_comment(s@, i as int);
        reveal_strlit("<!--");
        reveal_strlit("--");
        reveal_strlit("-->");
    }
    if !match_lit(s, i, n, "<!--") {
        return None;
    }
    let e = find_lit_at(s, i + 4, n, "--");
    if e < n && match_lit(s, e, n, "-->") {
        Some((e + 3, XMLNode::Comment(Value::Text(TextSpan { start: i + 4, end: e }))))
    } else {
        None
    }
}

/// Parses the document declaration at `i`.
fn x_xmldecl(s: &str, i: usize, n: usize) -> (r: Option<(usize, XMLdecl)>)
    requires
        n == s@.len(),
        s@.len() <= usize::MAX,
        i <= n,
    ensures
        match r {
            Some((j, d)) => spec_xmldecl(s@, i as int) == Some((j as int, d@)) && j <= n,
            None => spec_xmldecl(s@, i as int) is None,
        },
{
    proof {
        reveal_strlit("<?xml");
        reveal_strlit("version");
    }
    if !match_lit(s, i, n, "<?xml") {
        return None;
    }
    let a = skip_ws(s, i + 5, n);
    if !match_lit(s, a, n, "version") {
        return None;
    }
    let b = skip_ws(s, a + 7, n);
    if !(b < n && s.get_char(b) == '=') {
        return None;
    }
    let c = skip_ws(s, b + 1, n);
    match x_dstring(s, c, n) {
        None => None,
        Some((d, vsp)) => {
            proof {
                lemma_spec_dstring(s@, c as int);
            }
            let version = s.substring_char(vsp.start, vsp.end).to_owned();
            let e = skip_ws(s, d, n);
            x_xmldecl_enc(s, e, n, version)
        },
    }
}

/// Parses the rest of a declaration after the version field.
fn x_xmldecl_enc(s: &str, i: usize, n: usize, version: String) -> (r: Option<(usize, XMLdecl)>)
    requires
        n == s@.len(),
        s@.len() <= usize::MAX,
        i <= n,
    ensures
        match r {
            Some((j, d)) => spec_xmldecl_enc(s@, i as int, version@) == Some((j as int, d@)) && j
                <= n,
            None => spec_xmldecl_enc(s@, i as int, version@) is None,
        },
{
    proof {
        reveal_strlit("encoding");
    }
    if match_lit(s, i, n, "encoding") {
        let b = skip_ws(s, i + 8, n);
        if !(b < n && s.get_char(b) == '=') {
            return None;
        }
        let c = skip_ws(s, b + 1, n);
        match x_dstring(s, c, n) {
            None => None,
            Some((d, esp)) => {
                proof {
                    lemma_spec_dstring(s@, c as int);
                }
                let enc = s.substring_char(esp.start, esp.end).to_owned();
                let e = skip_ws(s, d, n);
                x_xmldecl_sa(s, e, n, version, Some(enc))
            },
        }
    } else {
        x_xmldecl_sa(s, i, n, version, None)
    }
}

/// Parses the rest of a declaration after the encoding field.
fn x_xmldecl_sa(s: &str, i: usize, n: usize, version: String, encoding: Option<String>) -> (r:
    Option<(usize, XMLdecl)>)
    requires
        n == s@.len(),
        s@.len() <= usize::MAX,
        i <= n,
    ensures
        match r {
            Some((j, d)) => spec_xmldecl_sa(s@, i as int, version@, encoding.deep_view()) == Some(
                (j as int, d@),
            ) && j <= n,
            None => spec_xmldecl_sa(s@, i as int, version@, encoding.deep_view()) is None,
        },
{
    proof {
        reveal_strlit("standalone");
        reveal_strlit("?>");
    }
    if match_lit(s, i, n, "standalone") {
        let b = skip_ws(s, i + 10, n);
        if !(b < n && s.get_char(b) == '=') {
            return None;
        }
        let c = skip_ws(s, b + 1, n);
        match x_dstring(s, c, n) {
            None => None,
            Some((d, ssp)) => {
                proof {
                    lemma_spec_dstring(s@, c as int);
                }
                let sa = s.substring_char(ssp.start, ssp.end).to_owned();
                let e = skip_ws(s, d, n);
                if match_lit(s, e, n, "?>") {
                    Some((e + 2, XMLdecl { version, encoding, standalone: Some(sa) }))
                } else {
                    None
                }
            },
        }
    } else {
        if match_lit(s, i, n, "?>") {
            Some((i + 2, XMLdecl { version, encoding, standalone: None }))
        } else {
            None
        }
    }
}

/// Parses one attribute at `i`.
fn x_attr(s: &str, i: usize, n: usize) -> (r: Option<(usize, XMLNode)>)
    requires
        n == s@.len(),
        s@.len() <= usize::MAX,
        i <= n,
    ensures
        match r {
            Some((j, a)) => spec_attr(s@, i as int) == Some((j as int, xview(a))) && i < j <= n,
            None => spec_attr(s@, i as int) is None,
        },
{
    proof {
        lemma_attr_wf(s@, i as int);
    }
    if i >= n {
        return None;
    }
    let c0 = s.get_char(i);
    if !(c0 == ' ' || c0 == '\t' || c0 == '\r' || c0 == '\n') {
        return None;
    }
    let a = skip_ws(s, i, n);
    match x_qualname(s, a, n) {
        None => None,
        Some((j, nm)) => {
            let b = skip_ws(s, j, n);
            if b < n && s.get_char(b) == '=' {
                let c = skip_ws(s, b + 1, n);
                match x_dstring(s, c, n) {
                    Some((d, vsp)) => Some((d, XMLNode::Attribute(nm, Value::Text(vsp)))),
                    None => None,
                }
            } else {
                None
            }
        },
    }
}

/// Parses the attribute list of a tag.
fn x_attrs_list(s: &str, i: usize, n: usize) -> (r: (usize, Vec<XMLNode>))
    requires
        n == s@.len(),
        s@.len() <= usize::MAX,
        i <= n,
    ensures
        spec_attrs_list(s@, i as int) == (r.0 as int, xsview(r.1@)),
        i <= r.0 <= n,
{
    let mut acc: Vec<XMLNode> = Vec::new();
    let mut cur = i;
    proof {
        assert(xsview(acc@) =~= Seq::<SpecXml>::empty());
    }
    loop
        invariant
            i <= cur <= n,
            n == s@.len(),
            s@.len() <= usize::MAX,
            spec_attrs_list(s@, i as int).0 == spec_attrs_list(s@, cur as int).0,
            spec_attrs_list(s@, i as int).1 == xsview(acc@) + spec_attrs_list(s@, cur as int).1,
        ensures
            i <= cur <= n,
            spec_attrs_list(s@, i as int).0 == cur as int,
            spec_attrs_list(s@, i as int).1 == xsview(acc@),
        decreases n - cur,
    {
        if cur >= n {
            assert(spec_attrs_list(s@, cur as int) == (cur as int, Seq::<SpecXml>::empty()));
            assert(xsview(acc@) + Seq::<SpecXml>::empty() =~= xsview(acc@));
            break ;
        }
        match x_attr(s, cur, n) {
            Some((j, a)) => {
                proof {
                    assert(adv(cur as int, j as int) == j as int);
                    assert(spec_attrs_list(s@, cur as int).1 == seq![xview(a)]
                        + spec_attrs_list(s@, j as int).1);
                    lemma_xsview_push(acc@, a);
                }
                let ghost oldacc = acc@;
                acc.push(a);
                proof {
                    assert(xsview(acc@) + spec_attrs_list(s@, j as int).1 =~= xsview(oldacc)
                        + spec_attrs_list(s@, cur as int).1);
                }
                cur = j;
            },
            None => {
                assert(spec_attrs_list(s@, cur as int) == (cur as int, Seq::<SpecXml>::empty()));
                assert(xsview(acc@) + Seq::<SpecXml>::empty() =~= xsview(acc@));
                break ;
            },
        }
    }
    (cur, acc)
}

/// Checks whether two attributes in the list are written with the same name.
fn attrs_dup(attrs: &Vec<XMLNode>) -> (r: bool)
    ensures
        r == attrs_have_dup(xsview(attrs@)),
{
    let m = attrs.len();
    let mut p: usize = 0;
    while p < m
        invariant
            0 <= p <= m,
            m == attrs@.len(),
            forall|a: int, b: int|
                0 <= a < b < m && a < p ==> !same_attr_written_name(
                    #[trigger] xsview(attrs@)[a],
                    #[trigger] xsview(attrs@)[b],
                ),
        ensures
            p == m,
            forall|a: int, b: int|
                0 <= a < b < m ==> !same_attr_written_name(
                    #[trigger] xsview(attrs@)[a],
                    #[trigger] xsview(attrs@)[b],
                ),
        decreases m - p,
    {
        let mut q: usize = p + 1;
        while q < m
            invariant
                0 <= p < q <= m,
                m == attrs@.len(),
                forall|b: int|
                    p < b < q ==> !same_attr_written_name(
                        xsview(attrs@)[p as int],
                        #[trigger] xsview(attrs@)[b],
                    ),
            ensures
                q == m,
                forall|b: int|
                    p < b < m ==> !same_attr_written_name(
                        xsview(attrs@)[p as int],
                        #[trigger] xsview(attrs@)[b],
                    ),
            decreases m - q,
        {
            let is_same = match (&attrs[p], &attrs[q]) {
                (XMLNode::Attribute(n1, v1), XMLNode::Attribute(n2, v2)) => n1.same_written_name(
                    n2,
                ),
                _ => false,
            };
            if is_same {
                proof {
                    assert(same_attr_written_name(
                        xsview(attrs@)[p as int],
                        xsview(attrs@)[q as int],
                    ));
                    assert(attrs_have_dup(xsview(attrs@)));
                }
                return true;
            }
            assert(!same_attr_written_name(xsview(attrs@)[p as int], xsview(attrs@)[q as int]));
            q = q + 1;
        }
        p = p + 1;
    }
    proof {
        assert(!attrs_have_dup(xsview(attrs@)));
    }
    false
}

/// Parses an element at `i`.
fn x_element(s: &str, i: usize, n: usize) -> (r: Option<(usize, XMLNode)>)
    requires
        n == s@.len(),
        s@.len() <= usize::MAX,
        i <= n,
    ensures
        match r {
            Some((j, v)) => spec_element(s@, i as int) == Some((j as int, xview(v))) && i < j
                <= n,
            None => spec_element(s@, i as int) is None,
        },
    decreases n - i, 0int,
{
    proof {
        lemma_element_wf(s@, i as int);
        reveal_strlit("/>");
        reveal_strlit("</");
    }
    if i >= n || s.get_char(i) != '<' {
        return None;
    }
    match x_qualname(s, i + 1, n) {
        None => None,
        Some((j, name)) => {
            proof {
                assert(adv(i as int, j as int) == j as int);
            }
            let (k, attrs) = x_attrs_list(s, j, n);
            if attrs_dup(&attrs) {
                return None;
            }
            let w = skip_ws(s, k, n);
            if match_lit(s, w, n, "/>") {
                let children: Vec<XMLNode> = Vec::new();
                proof {
                    assert(xsview(children@) =~= Seq::<SpecXml>::empty());
                }
                Some((w + 2, XMLNode::Element(name, attrs, children)))
            } else if w < n && s.get_char(w) == '>' {
                let cw = skip_ws(s, w + 1, n);
                proof {
                    assert(adv(i as int, cw as int) == cw as int);
                }
                let (e, children) = x_content(s, cw, n);
                if match_lit(s, e, n, "</") {
                    match x_qualname(s, e + 2, n) {
                        None => None,
                        Some((f, end_name)) => {
                            let g = skip_ws(s, f, n);
                            if g < n && s.get_char(g) == '>' {
                                Some((g + 1, XMLNode::Element(name, attrs, children)))
                            } else {
                                None
                            }
                        },
                    }
                } else {
                    None
                }
            } else {
                None
            }
        },
    }
}

/// Parses one item of element content at `i`.
fn x_content_item(s: &str, i: usize, n: usize) -> (r: Option<(usize, XMLNode)>)
    requires
        n == s@.len(),
        s@.len() <= usize::MAX,
        i <= n,
    ensures
        match r {
            Some((j, nd)) => spec_content_item(s@, i as int) == Some((j as int, xview(nd))) && i
                < j <= n,
            None => spec_content_item(s@, i as int) is None,
        },
    decreases n - i, 1int,
{
    proof {
        lemma_content_item_wf(s@, i as int);
    }
    if i >= n {
        return None;
    }
    match x_cdata(s, i, n) {
        Some(r) => {
            return Some(r);
        },
        None => {},
    }
    match x_escape(s, i, n) {
        Some(r) => {
            return Some(r);
        },
        None => {},
    }
    match x_literal(s, i, n) {
        Some(r) => {
            return Some(r);
        },
        None => {},
    }
    match x_element(s, i, n) {
        Some(r) => {
            return Some(r);
        },
        None => {},
    }
    match x_entityref(s, i, n) {
        Some(r) => {
            return Some(r);
        },
        None => {},
    }
    match x_pi(s, i, n) {
        Some(r) => {
            return Some(r);
        },
        None => {},
    }
    x_comment(s, i, n)
}

/// Parses the content of an element: items collected until none matches.
fn x_content(s: &str, i: usize, n: usize) -> (r: (usize, Vec<XMLNode>))
    requires
        n == s@.len(),
        s@.len() <= usize::MAX,
        i <= n,
    ensures
        spec_content(s@, i as int) == (r.0 as int, xsview(r.1@)),
        i <= r.0 <= n,
    decreases n - i, 2int,
{
    let mut acc: Vec<XMLNode> = Vec::new();
    let mut cur = i;
    proof {
        assert(xsview(acc@) =~= Seq::<SpecXml>::empty());
    }
    loop
        invariant
            i <= cur <= n,
            n == s@.len(),
            s@.len() <= usize::MAX,
            spec_content(s@, i as int).0 == spec_content(s@, cur as int).0,
            spec_content(s@, i as int).1 == xsview(acc@) + spec_content(s@, cur as int).1,
        ensures
            i <= cur <= n,
            spec_content(s@, i as int).0 == cur as int,
            spec_content(s@, i as int).1 == xsview(acc@),
        decreases n - cur,
    {
        if cur >= n {
            assert(spec_content(s@, cur as int) == (cur as int, Seq::<SpecXml>::empty()));
            assert(xsview(acc@) + Seq::<SpecXml>::empty() =~= xsview(acc@));
            break ;
        }
        match x_content_item(s, cur, n) {
            Some((j, nd)) => {
                proof {
                    assert(adv(cur as int, j as int) == j as int);
                    assert(spec_content(s@, cur as int).1 == seq![xview(nd)] + spec_content(
                        s@,
                        j as int,
                    ).1);
                    lemma_xsview_push(acc@, nd);
                }
                let ghost oldacc = acc@;
                acc.push(nd);
                proof {
                    assert(xsview(acc@) + spec_content(s@, j as int).1 =~= xsview(oldacc)
                        + spec_content(s@, cur as int).1);
                }
                cur = j;
            },
            None => {
                assert(spec_content(s@, cur as int) == (cur as int, Seq::<SpecXml>::empty()));
                assert(xsview(acc@) + Seq::<SpecXml>::empty() =~= xsview(acc@));
                break ;
            },
        }
    }
    (cur, acc)
}

/// Scans an entity value body starting at `i`, delimited by the quote `q`.
fn x_ev_body(s: &str, i: usize, n: usize, q: char) -> (r: usize)
    requires
        n == s@.len(),
        s@.len() <= usize::MAX,
        i <= n,
    ensures
        r == ev_body_end(s@, i as int, q),
        i <= r <= n,
{
    proof {
        lemma_ev_body_end(s@, i as int, q);
    }
    let mut p = i;
    loop
        invariant
            i <= p <= n,
            n == s@.len(),
            s@.len() <= usize::MAX,
            ev_body_end(s@, i as int, q) == ev_body_end(s@, p as int, q),
        ensures
            i <= p <= n,
            ev_body_end(s@, p as int, q) == p as int,
            ev_body_end(s@, i as int, q) == ev_body_end(s@, p as int, q),
        decreases n - p,
    {
        if p >= n {
            break ;
        }
        let c = s.get_char(p);
        if c == q {
            break ;
        }
        if c == '&' {
            match x_ref_end(s, p, n) {
                Some(j) => {
                    proof {
                        assert(adv(p as int, j as int) == j as int);
                    }
                    p = j;
                },
                None => {
                    break ;
                },
            }
        } else {
            p = p + 1;
        }
    }
    p
}

/// Scans a reference starting at an ampersand at `i`, returning the position
/// after its semicolon.
fn x_ref_end(s: &str, i: usize, n: usize) -> (r: Option<usize>)
    requires
        n == s@.len(),
        s@.len() <= usize::MAX,
        i <= n,
    ensures
        match r {
            Some(j) => spec_ref_end(s@, i as int) == Some(j as int) && i < j <= n,
            None => spec_ref_end(s@, i as int) is None,
        },
{
    proof {
        lemma_spec_ref_end(s@, i as int);
    }
    if i >= n || s.get_char(i) != '&' {
        return None;
    }
    if i + 1 < n && s.get_char(i + 1) == '#' {
        if i + 2 < n && s.get_char(i + 2) == 'x' {
            let h = skip_hex_digits(s, i + 3, n);
            if h > i + 3 && h < n && s.get_char(h) == ';' {
                Some(h + 1)
            } else {
                None
            }
        } else {
            let d = skip_digits(s, i + 2, n);
            if d > i + 2 && d < n && s.get_char(d) == ';' {
                Some(d + 1)
            } else {
                None
            }
        }
    } else {
        match x_qualname(s, i + 1, n) {
            Some((j, nm)) => {
                if j < n && s.get_char(j) == ';' {
                    Some(j + 1)
                } else {
                    None
                }
            },
            None => None,
        }
    }
}

/// Parses a general entity declaration at `i`.
fn x_entitydecl(s: &str, i: usize, n: usize) -> (r: Option<(usize, XMLNode)>)
    requires
        n == s@.len(),
        s@.len() <= usize::MAX,
        i <= n,
    ensures
        match r {
            Some((j, nd)) => spec_entitydecl(s@, i as int) == Some((j as int, xview(nd))) && i
                < j <= n,
            None => spec_entitydecl(s@, i as int) is None,
        },
{
    proof {
        lemma_spec_entitydecl(s@, i as int);
        reveal_strlit("<!ENTITY");
    }
    if !match_lit(s, i, n, "<!ENTITY") {
        return None;
    }
    if !(i + 8 < n) {
        return None;
    }
    let c0 = s.get_char(i + 8);
    if !(c0 == ' ' || c0 == '\t' || c0 == '\r' || c0 == '\n') {
        return None;
    }
    let a = skip_ws(s, i + 8, n);
    match x_qualname(s, a, n) {
        None => None,
        Some((j, nm)) => {
            if !(j < n) {
                return None;
            }
            let c1 = s.get_char(j);
            if !(c1 == ' ' || c1 == '\t' || c1 == '\r' || c1 == '\n') {
                return None;
            }
            let b = skip_ws(s, j, n);
            if b < n {
                let qc = s.get_char(b);
                if qc == '\'' || qc == '"' {
                    let e = x_ev_body(s, b + 1, n, qc);
                    if e < n && s.get_char(e) == qc {
                        let c = skip_ws(s, e + 1, n);
                        if c < n && s.get_char(c) == '>' {
                            Some(
                                (
                                    c + 1,
                                    XMLNode::Dtd(
                                        DtdDecl::GeneralEntity(
                                            nm,
                                            TextSpan { start: b + 1, end: e },
                                        ),
                                    ),
                                ),
                            )
                        } else {
                            None
                        }
                    } else {
                        None
                    }
                } else {
                    None
                }
            } else {
                None
            }
        },
    }
}

/// Parses one item of the internal subset at `i`.
fn x_subset_item(s: &str, i: usize, n: usize) -> (r: Option<(usize, XMLNode)>)
    requires
        n == s@.len(),
        s@.len() <= usize::MAX,
        i <= n,
    ensures
        match r {
            Some((j, nd)) => spec_subset_item(s@, i as int) == Some((j as int, xview(nd))) && i
                < j <= n,
            None => spec_subset_item(s@, i as int) is None,
        },
{
    proof {
        lemma_spec_entitydecl(s@, i as int);
        lemma_spec_pi(s@, i as int);
        lemma_spec_comment(s@, i as int);
    }
    match x_entitydecl(s, i, n) {
        Some(r) => {
            return Some(r);
        },
        None => {},
    }
    match x_pi(s, i, n) {
        Some(r) => {
            return Some(r);
        },
        None => {},
    }
    x_comment(s, i, n)
}

/// Parses the items of the internal subset.
fn x_subset_list(s: &str, i: usize, n: usize) -> (r: (usize, Vec<XMLNode>))
    requires
        n == s@.len(),
        s@.len() <= usize::MAX,
        i <= n,
    ensures
        spec_subset_list(s@, i as int) == (r.0 as int, xsview(r.1@)),
        i <= r.0 <= n,
{
    let mut acc: Vec<XMLNode> = Vec::new();
    let mut cur = i;
    proof {
        assert(xsview(acc@) =~= Seq::<SpecXml>::empty());
    }
    loop
        invariant
            i <= cur <= n,
            n == s@.len(),
            s@.len() <= usize::MAX,
            spec_subset_list(s@, i as int).0 == spec_subset_list(s@, cur as int).0,
            spec_subset_list(s@, i as int).1 == xsview(acc@) + spec_subset_list(
                s@,
                cur as int,
            ).1,
        ensures
            i <= cur <= n,
            spec_subset_list(s@, i as int).0 == cur as int,
            spec_subset_list(s@, i as int).1 == xsview(acc@),
        decreases n - cur,
    {
        if cur >= n {
            assert(spec_subset_list(s@, cur as int) == (cur as int, Seq::<SpecXml>::empty()));
            assert(xsview(acc@) + Seq::<SpecXml>::empty() =~= xsview(acc@));
            break ;
        }
        let t = skip_ws(s, cur, n);
        match x_subset_item(s, t, n) {
            Some((j, nd)) => {
                proof {
                    assert(adv(cur as int, j as int) == j as int);
                    assert(spec_subset_list(s@, cur as int).1 == seq![xview(nd)]
                        + spec_subset_list(s@, j as int).1);
                    lemma_xsview_push(acc@, nd);
                }
                let ghost oldacc = acc@;
                acc.push(nd);
                proof {
                    assert(xsview(acc@) + spec_subset_list(s@, j as int).1 =~= xsview(oldacc)
                        + spec_subset_list(s@, cur as int).1);
                }
                cur = j;
            },
            None => {
                assert(spec_subset_list(s@, cur as int) == (cur as int, Seq::<SpecXml>::empty()));
                assert(xsview(acc@) + Seq::<SpecXml>::empty() =~= xsview(acc@));
                break ;
            },
        }
    }
    (cur, acc)
}

/// Parses the document type declaration at `i`.
fn x_doctype(s: &str, i: usize, n: usize) -> (r: Option<(usize, Vec<XMLNode>)>)
    requires
        n == s@.len(),
        s@.len() <= usize::MAX,
        i <= n,
    ensures
        match r {
            Some((j, l)) => spec_doctype(s@, i as int) == Some((j as int, xsview(l@))) && i < j
                <= n,
            None => spec_doctype(s@, i as int) is None,
        },
{
    proof {
        lemma_spec_doctype(s@, i as int);
        reveal_strlit("<!DOCTYPE");
    }
    if !match_lit(s, i, n, "<!DOCTYPE") {
        return None;
    }
    if !(i + 9 < n) {
        return None;
    }
    let c0 = s.get_char(i + 9);
    if !(c0 == ' ' || c0 == '\t' || c0 == '\r' || c0 == '\n') {
        return None;
    }
    let a = skip_ws(s, i + 9, n);
    match x_qualname(s, a, n) {
        None => None,
        Some((j, nm)) => {
            let c = skip_ws(s, j, n);
            if c < n && s.get_char(c) == '[' {
                proof {
                    assert(adv(i as int, (c + 1) as int) == (c + 1) as int);
                }
                let (d, decls) = x_subset_list(s, c + 1, n);
                let f = skip_ws(s, d, n);
                if f < n && s.get_char(f) == ']' {
                    let g = skip_ws(s, f + 1, n);
                    if g < n && s.get_char(g) == '>' {
                        Some((g + 1, decls))
                    } else {
                        None
                    }
                } else {
                    None
                }
            } else if c < n && s.get_char(c) == '>' {
                let empty: Vec<XMLNode> = Vec::new();
                proof {
                    assert(xsview(empty@) =~= Seq::<SpecXml>::empty());
                }
                Some((c + 1, empty))
            } else {
                None
            }
        },
    }
}

impl XMLDocument {
    /// Parses a whole document: optional whitespace, an optional
    /// declaration, an optional document type declaration, exactly one root
    /// element, and nothing after it but whitespace.  Text after the root
    /// element is reported with its own diagnostic, naming the extra
    /// characters.
    pub fn parse(input: &str) -> (r: Result<XMLDocument, Error>)
        ensures
            match spec_document(input@) {
                Some(d) => r matches Ok(doc) && xsview(doc.content@) == d.content && xsview(
                    doc.prologue@,
                ) == d.prologue && doc.epilogue@.len() == 0 && (match (doc.xmldecl, d.xmldecl) {
                    (Some(x), Some(sd)) => x@ == sd,
                    (None, None) => true,
                    _ => false,
                }),
                None => r matches Err(e) && e.kind == ErrorKind::Unknown && (match
                    spec_document_tail(input@) {
                    Some(ft) => e.message@ == "extra characters after expression: \""@
                        + input@.subrange(ft.0, ft.1) + "\""@,
                    None => e.message@ == "could not parse document"@,
                }),
            },
    {
        let n = input.unicode_len();
        let t0 = skip_ws(input, 0, n);
        let t1 = skip_trailing_ws(input, n);
        let (p1, xd) = match x_xmldecl(input, t0, n) {
            Some((a, d)) => (skip_ws(input, a, n), Some(d)),
            None => (t0, None),
        };
        let (p2, prologue) = match x_doctype(input, p1, n) {
            Some((b, decls)) => (skip_ws(input, b, n), decls),
            None => {
                let empty: Vec<XMLNode> = Vec::new();
                proof {
                    assert(xsview(empty@) =~= Seq::<SpecXml>::empty());
                }
                (p1, empty)
            },
        };
        match x_element(input, p2, n) {
            Some((e, root)) => {
                if e == t1 {
                    let doc = XMLDocument {
                        prologue,
                        content: vec![root],
                        epilogue: Vec::new(),
                        xmldecl: xd,
                    };
                    proof {
                        assert(xsview(doc.content@) =~= seq![xview(root)]);
                    }
                    Ok(doc)
                } else {
                    let hi = if t1 > e {
                        t1
                    } else {
                        e
                    };
                    proof {
                        lemma_trim_end_to(input@);
                    }
                    let mut msg = "extra characters after expression: \"".to_owned();
                    msg.append(input.substring_char(e, hi));
                    msg.append("\"");
                    proof {
                        assert(msg@ =~= "extra characters after expression: \""@
                            + input@.subrange(e as int, hi as int) + "\""@);
                    }
                    Err(Error::new(ErrorKind::Unknown, msg))
                }
            },
            None => Err(Error::new(ErrorKind::Unknown, "could not parse document".to_owned())),
        }
    }
}

} // verus!
