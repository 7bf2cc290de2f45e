use vstd::prelude::*;

use crate::text::{find_char, find_char_at};

pub mod json;
pub mod xml;

verus! {

/// How resolving a path against a document can end.
///
/// `Found` carries the half-open range of buffer positions holding the leaf
/// text; the other variants name the precise failure.
pub enum FindOutcome {
    Found { start: int, end: int },
    ParseFail,
    NotAnObject,
    KeyMissing { key: Seq<char> },
    NoLeaf,
}

/// An error returned by a codec: the document could not be parsed, the path
/// did not resolve, or the resolved value is not a replaceable text leaf.
/// A parse failure carries its diagnostic text.
#[derive(Clone, Debug)]
pub enum CodecError {
    Parse(String),
    NotAnObject,
    KeyNotFound(String),
    LeafNotFound(String),
}

impl CodecError {
    /// A human-readable description of the failure.
    pub fn message(&self) -> (r: String)
        ensures
            match self {
                CodecError::Parse(d) => r@ == d@,
                CodecError::NotAnObject => r@ == "Parsed value is not an object"@,
                CodecError::KeyNotFound(k) => r@ == "Could not find key "@ + k@,
                CodecError::LeafNotFound(p) => r@ == "Could not find "@ + p@,
            },
    {
        match self {
            CodecError::Parse(d) => d.clone(),
            CodecError::NotAnObject => "Parsed value is not an object".to_owned(),
            CodecError::KeyNotFound(k) => {
                let mut m = "Could not find key ".to_owned();
                m.append(k.as_str());
                m
            },
            CodecError::LeafNotFound(p) => {
                let mut m = "Could not find ".to_owned();
                m.append(p.as_str());
                m
            },
        }
    }
}

/// The error a codec must return for each failing outcome of `find`, given
/// the path the caller asked for and the diagnostic a parse failure of the
/// document carries.
pub open spec fn error_matches(
    e: CodecError,
    o: FindOutcome,
    path: Seq<char>,
    parse_msg: Seq<char>,
) -> bool {
    match o {
        FindOutcome::Found { start, end } => false,
        FindOutcome::ParseFail => e matches CodecError::Parse(d) && d@ == parse_msg,
        FindOutcome::NotAnObject => e is NotAnObject,
        FindOutcome::KeyMissing { key } => e matches CodecError::KeyNotFound(k) && k@ == key,
        FindOutcome::NoLeaf => e matches CodecError::LeafNotFound(p) && p@ == path,
    }
}

/// The text after overwriting the range `[start, end)` of `doc` with `value`.
pub open spec fn spliced(doc: Seq<char>, start: int, end: int, value: Seq<char>) -> Seq<char> {
    doc.subrange(0, start) + value + doc.subrange(end, doc.len() as int)
}

/// The uniform contract both document codecs implement.
///
/// A codec owns a text buffer; `find` is the codec's mathematical account of
/// path resolution against that buffer.  `extract` returns exactly the text
/// of the leaf that `find` locates, `replace` overwrites exactly that range
/// and nothing else, and both report the precise failure otherwise.  A
/// failing `replace` leaves the buffer untouched.
pub trait FormatCodec: Sized {
    /// The current document text.
    spec fn doc(&self) -> Seq<char>;

    /// Path resolution, as a function of the document and path alone.
    spec fn find(doc: Seq<char>, path: Seq<char>) -> FindOutcome;

    /// The diagnostic a parse failure of this document carries.
    spec fn parse_detail(doc: Seq<char>) -> Seq<char>;

    /// Returns the text of the leaf at `path`, or the precise failure.
    fn extract(&self, path: &str) -> (r: Result<Option<String>, CodecError>)
        ensures
            match Self::find(self.doc(), path@) {
                FindOutcome::Found { start, end } => r matches Ok(v) && v matches Some(s) && s@
                    == self.doc().subrange(start, end),
                o => r matches Err(e) && error_matches(
                    e,
                    o,
                    path@,
                    Self::parse_detail(self.doc()),
                ),
            },
    ;

    /// Overwrites the leaf at `path` with `value`, leaving every other
    /// character of the document unchanged; on failure the document is
    /// untouched.
    fn replace(&mut self, path: &str, value: &str) -> (r: Result<(), CodecError>)
        ensures
            match Self::find(old(self).doc(), path@) {
                FindOutcome::Found { start, end } => {
                    &&& r is Ok
                    &&& final (self).doc() == spliced(old(self).doc(), start, end, value@)
                },
                o => {
                    &&& final (self).doc() == old(self).doc()
                    &&& r matches Err(e) && error_matches(
                        e,
                        o,
                        path@,
                        Self::parse_detail(old(self).doc()),
                    )
                },
            },
    ;
}

/// Splitting a path on its separator: the list of segments, in order.  A text
/// without the separator is a single segment; each separator starts a new
/// segment, so adjacent separators and separators at either end produce empty
/// segments, exactly as the codecs look keys up.
pub open spec fn split_from(p: Seq<char>, i: int, sep: char) -> Seq<Seq<char>>
    decreases p.len() - i,
{
    let j = find_char(p, i, sep);
    if 0 <= i && i <= j && j < p.len() && p[j] == sep {
        seq![p.subrange(i, j)] + split_from(p, j + 1, sep)
    } else {
        seq![p.subrange(if 0 <= i && i <= p.len() { i } else { 0 }, p.len() as int)]
    }
}

/// The segments of a whole path.
pub open spec fn split_path(p: Seq<char>, sep: char) -> Seq<Seq<char>> {
    split_from(p, 0, sep)
}

/// Splits a path string on the separator character.
pub fn split_str(p: &str, sep: char) -> (r: Vec<String>)
    ensures
        r.deep_view() == split_path(p@, sep),
{
    let n = p.unicode_len();
    let mut out: Vec<String> = Vec::new();
    let mut cur: usize = 0;
    loop
        invariant
            cur <= n,
            n == p@.len(),
            p@.len() <= usize::MAX,
            split_path(p@, sep) == out.deep_view() + split_from(p@, cur as int, sep),
        decreases n - cur,
    {
        let j = find_char_at(p, cur, n, sep);
        proof {
            crate::text::lemma_find_char(p@, cur as int, sep);
        }
        if j < n {
            let seg = p.substring_char(cur, j).to_owned();
            out.push(seg);
            proof {
                assert(split_from(p@, cur as int, sep) == seq![p@.subrange(cur as int, j as int)]
                    + split_from(p@, j + 1, sep));
                assert(out.deep_view() + split_from(p@, j + 1, sep) =~= split_path(p@, sep));
            }
            cur = j + 1;
        } else {
            let seg = p.substring_char(cur, n).to_owned();
            out.push(seg);
            proof {
                assert(split_from(p@, cur as int, sep) == seq![p@.subrange(
                    cur as int,
                    p@.len() as int,
                )]);
                assert(out.deep_view() =~= split_path(p@, sep));
            }
            return out;
        }
    }
}

/// Overwrites the range `[start, end)` of `buf` with `value`, leaving every
/// character outside the range in place.
pub fn splice_text(buf: &str, n: usize, start: usize, end: usize, value: &str) -> (r: String)
    requires
        n == buf@.len(),
        buf@.len() <= usize::MAX,
        start <= end <= n,
    ensures
        r@ == spliced(buf@, start as int, end as int, value@),
{
    let pre = buf.substring_char(0, start);
    let post = buf.substring_char(end, n);
    let mut out = pre.to_owned();
    out.append(value);
    out.append(post);
    out
}

/// Writing a range's own text back over that range reproduces the document
/// exactly: a replace that re-inserts what extract returned is the identity.
pub proof fn lemma_splice_same_is_identity(doc: Seq<char>, start: int, end: int)
    requires
        0 <= start <= end <= doc.len(),
    ensures
        spliced(doc, start, end, doc.subrange(start, end)) == doc,
{
    assert(spliced(doc, start, end, doc.subrange(start, end)) =~= doc);
}

/// A splice is surgical: every character before the replaced range keeps its
/// position and value, and every character after it keeps its value, shifted
/// by the difference between the old and new text lengths.
pub proof fn lemma_splice_preserves_outside(doc: Seq<char>, start: int, end: int, value: Seq<char>)
    requires
        0 <= start <= end <= doc.len(),
    ensures
        spliced(doc, start, end, value).len() == doc.len() - (end - start) + value.len(),
        forall|i: int| 0 <= i < start ==> spliced(doc, start, end, value)[i] == doc[i],
        forall|i: int|
            end <= i < doc.len() ==> spliced(doc, start, end, value)[i - end + start
                + value.len()] == doc[i],
{
}


} // verus!
