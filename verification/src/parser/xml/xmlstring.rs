use vstd::prelude::*;

use crate::parser::xml::parsexml::{
    lemma_document_wf, spec_document, spec_document_tail, xml_spans_wf, xsview, xview, SpecXml,
    SpecXmlValue, XMLDocument, XMLNode,
};
use crate::parser::xml::value::Value;
use crate::parser::{
    error_matches, spliced, split_path, split_str, splice_text, CodecError, FindOutcome,
    FormatCodec,
};
use crate::utils::TextSpan;

verus! {

/// Whether a node is an element whose local name is `name`.
pub open spec fn elem_named(nd: SpecXml, name: Seq<char>) -> bool {
    nd matches SpecXml::Element { name: nm, attrs, children } && nm.local == name
}

/// Whether an element node carries the given local name.
pub fn has_name(node: &XMLNode, name: &str) -> (r: bool)
    ensures
        r == elem_named(xview(*node), name@),
{
    match node {
        XMLNode::Element(qn, attrs, children) => {
            let local = qn.get_localname();
            crate::text::str_eq(local.as_str(), name)
        },
        _ => false,
    }
}

/// The first element in a node list whose local name is `name`; elements
/// after the first match are unreachable by paths.
pub open spec fn first_elem(nodes: Seq<SpecXml>, name: Seq<char>) -> Option<SpecXml>
    decreases nodes.len(),
{
    if nodes.len() == 0 {
        None
    } else if elem_named(nodes[0], name) {
        Some(nodes[0])
    } else {
        first_elem(nodes.drop_first(), name)
    }
}

pub proof fn lemma_first_elem_found(nodes: Seq<SpecXml>, name: Seq<char>, q: int)
    requires
        0 <= q < nodes.len(),
        elem_named(nodes[q], name),
        forall|r: int| 0 <= r < q ==> !elem_named(#[trigger] nodes[r], name),
    ensures
        first_elem(nodes, name) == Some(nodes[q]),
    decreases nodes.len(),
{
    if q > 0 {
        assert(forall|r: int|
            0 <= r < q - 1 ==> !elem_named(#[trigger] nodes.drop_first()[r], name));
        lemma_first_elem_found(nodes.drop_first(), name, q - 1);
    }
}

pub proof fn lemma_first_elem_none(nodes: Seq<SpecXml>, name: Seq<char>)
    requires
        forall|r: int| 0 <= r < nodes.len() ==> !elem_named(#[trigger] nodes[r], name),
    ensures
        first_elem(nodes, name) is None,
    decreases nodes.len(),
{
    if nodes.len() > 0 {
        assert(forall|r: int|
            0 <= r < nodes.drop_first().len() ==> !elem_named(
                #[trigger] nodes.drop_first()[r],
                name,
            ));
        lemma_first_elem_none(nodes.drop_first(), name);
    }
}

/// Walking a node list from segment `k` on: each segment selects the first
/// element with that local name, and after the last segment the list's first
/// node must be a zero-copy text leaf.
pub open spec fn xml_nav(nodes: Seq<SpecXml>, segs: Seq<Seq<char>>, k: int) -> FindOutcome
    decreases segs.len() - k,
{
    if k >= segs.len() {
        if nodes.len() > 0 {
            match nodes[0] {
                SpecXml::Text(v) => match v {
                    SpecXmlValue::Span { start, end } => FindOutcome::Found { start, end },
                    _ => FindOutcome::NoLeaf,
                },
                _ => FindOutcome::NoLeaf,
            }
        } else {
            FindOutcome::NoLeaf
        }
    } else {
        match first_elem(nodes, segs[k]) {
            Some(e) => match e {
                SpecXml::Element { name, attrs, children } => xml_nav(children, segs, k + 1),
                _ => FindOutcome::NotAnObject,
            },
            None => FindOutcome::NotAnObject,
        }
    }
}

/// The diagnostic a parse failure of a document carries: extra characters
/// after the root element are named, any other failure gets the fixed text.
pub open spec fn xml_parse_detail(doc: Seq<char>) -> Seq<char> {
    match spec_document_tail(doc) {
        Some(ft) => "extra characters after expression: \""@ + doc.subrange(ft.0, ft.1) + "\""@,
        None => "could not parse document"@,
    }
}

/// Resolving a `/`-separated path against a document: parse the document,
/// then walk the tree.  This function is the codec's whole contract.
pub open spec fn xml_find(doc: Seq<char>, path: Seq<char>) -> FindOutcome {
    match spec_document(doc) {
        None => FindOutcome::ParseFail,
        Some(d) => xml_nav(d.content, split_path(path, '/'), 0),
    }
}

pub proof fn lemma_first_elem_wf(nodes: Seq<SpecXml>, name: Seq<char>, n: int)
    requires
        forall|q: int| 0 <= q < nodes.len() ==> xml_spans_wf(#[trigger] nodes[q], n),
    ensures
        first_elem(nodes, name) matches Some(e) ==> xml_spans_wf(e, n),
    decreases nodes.len(),
{
    if nodes.len() > 0 && !elem_named(nodes[0], name) {
        assert(forall|q: int|
            0 <= q < nodes.drop_first().len() ==> xml_spans_wf(
                #[trigger] nodes.drop_first()[q],
                n,
            ));
        lemma_first_elem_wf(nodes.drop_first(), name, n);
    }
}

pub proof fn lemma_xml_nav_wf(nodes: Seq<SpecXml>, segs: Seq<Seq<char>>, k: int, n: int)
    requires
        forall|q: int| 0 <= q < nodes.len() ==> xml_spans_wf(#[trigger] nodes[q], n),
    ensures
        xml_nav(nodes, segs, k) matches FindOutcome::Found { start, end } ==> 0 <= start <= end
            <= n,
    decreases segs.len() - k,
{
    if k >= segs.len() {
        if nodes.len() > 0 {
            assert(xml_spans_wf(nodes[0], n));
        }
    } else {
        lemma_first_elem_wf(nodes, segs[k], n);
        match first_elem(nodes, segs[k]) {
            Some(e) => match e {
                SpecXml::Element { name, attrs, children } => {
                    assert(forall|q: int|
                        0 <= q < children.len() ==> xml_spans_wf(#[trigger] children[q], n));
                    lemma_xml_nav_wf(children, segs, k + 1, n);
                },
                _ => {},
            },
            None => {},
        }
    }
}

/// A found leaf always lies inside the document.
pub proof fn lemma_xml_find_in_range(doc: Seq<char>, path: Seq<char>)
    ensures
        xml_find(doc, path) matches FindOutcome::Found { start, end } ==> 0 <= start <= end
            <= doc.len(),
{
    lemma_document_wf(doc);
    match spec_document(doc) {
        None => {},
        Some(d) => {
            lemma_xml_nav_wf(d.content, split_path(path, '/'), 0, doc.len() as int);
        },
    }
}

/// Writing a leaf's own text back over its range reproduces the document
/// exactly: extracting a value and replacing it with itself is the identity.
pub proof fn lemma_xml_replace_self_identity(doc: Seq<char>, path: Seq<char>, start: int, end: int)
    requires
        xml_find(doc, path) == (FindOutcome::Found { start, end }),
    ensures
        spliced(doc, start, end, doc.subrange(start, end)) == doc,
{
    lemma_xml_find_in_range(doc, path);
    crate::parser::lemma_splice_same_is_identity(doc, start, end);
}

/// How navigation can fail, before the failure is phrased as a `CodecError`.
enum XNavErr {
    NotElem,
    Leaf,
}

/// Walks the parsed node list along the path segments from index `k` on.
fn xnav(nodes: &Vec<XMLNode>, segs: &Vec<String>, k: usize) -> (r: Result<TextSpan, XNavErr>)
    requires
        k <= segs@.len(),
    ensures
        match xml_nav(xsview(nodes@), segs.deep_view(), k as int) {
            FindOutcome::Found { start, end } => r matches Ok(sp) && sp.start == start && sp.end
                == end,
            FindOutcome::NotAnObject => r matches Err(e) && e is NotElem,
            FindOutcome::NoLeaf => r matches Err(e) && e is Leaf,
            _ => false,
        },
    decreases segs@.len() - k,
{
    let nsegs = segs.len();
    if k == nsegs {
        if nodes.len() > 0 {
            proof {
                assert(xsview(nodes@)[0] == xview(nodes@[0]));
            }
            match &nodes[0] {
                XMLNode::Text(v) => match v {
                    Value::Text(sp) => Ok(*sp),
                    _ => Err(XNavErr::Leaf),
                },
                _ => Err(XNavErr::Leaf),
            }
        } else {
            Err(XNavErr::Leaf)
        }
    } else {
        let seg: &String = &segs[k];
        proof {
            assert(segs.deep_view()[k as int] == segs@[k as int]@);
        }
        let m = nodes.len();
        let mut q: usize = 0;
        let mut found = false;
        loop
            invariant_except_break
                !found,
            invariant
                0 <= q <= m,
                m == nodes@.len(),
                k < nsegs == segs@.len(),
                seg@ == segs@[k as int]@,
                !found ==> forall|r2: int|
                    0 <= r2 < q ==> !elem_named(#[trigger] xsview(nodes@)[r2], seg@),
            ensures
                !found ==> forall|r2: int|
                    0 <= r2 < m ==> !elem_named(#[trigger] xsview(nodes@)[r2], seg@),
                found ==> q < m && elem_named(xsview(nodes@)[q as int], seg@) && forall|r2: int|
                    0 <= r2 < q ==> !elem_named(#[trigger] xsview(nodes@)[r2], seg@),
            decreases m - q,
        {
            if q >= m {
                break ;
            }
            if has_name(&nodes[q], seg.as_str()) {
                proof {
                    assert(xsview(nodes@)[q as int] == xview(nodes@[q as int]));
                }
                found = true;
                break ;
            }
            proof {
                assert(xsview(nodes@)[q as int] == xview(nodes@[q as int]));
            }
            q = q + 1;
        }
        if found {
            proof {
                lemma_first_elem_found(xsview(nodes@), seg@, q as int);
            }
            match &nodes[q] {
                XMLNode::Element(nm, attrs, children) => {
                    proof {
                        assert(xsview(nodes@)[q as int] == xview(nodes@[q as int]));
                    }
                    xnav(children, segs, k + 1)
                },
                _ => {
                    proof {
                        assert(false);
                    }
                    Err(XNavErr::NotElem)
                },
            }
        } else {
            proof {
                lemma_first_elem_none(xsview(nodes@), seg@);
            }
            Err(XNavErr::NotElem)
        }
    }
}

/// A document held as one owned text buffer, edited by span-preserving
/// replacement.  Every call re-parses the current buffer, so the buffer is
/// the single source of truth.
pub struct XmlString {
    inner: String,
}

impl View for XmlString {
    type V = Seq<char>;

    closed spec fn view(&self) -> Seq<char> {
        self.inner@
    }
}

impl XmlString {
    /// Wraps a document text in a codec.
    pub fn new(input: &str) -> (r: Self)
        ensures
            r@ == input@,
    {
        XmlString { inner: input.to_owned() }
    }

    /// The current document text, for persistence.
    pub fn to_string(&self) -> (r: String)
        ensures
            r@ == self@,
    {
        self.inner.clone()
    }

    /// Resolves a path against the current buffer and returns the leaf's
    /// range, or the precise failure.
    fn locate(&self, path: &str) -> (r: Result<TextSpan, CodecError>)
        ensures
            match xml_find(self@, path@) {
                FindOutcome::Found { start, end } => r matches Ok(sp) && sp.start == start
                    && sp.end == end && 0 <= start <= end <= self@.len(),
                o => r matches Err(e) && error_matches(e, o, path@, xml_parse_detail(self@)),
            },
    {
        proof {
            lemma_xml_find_in_range(self@, path@);
        }
        match XMLDocument::parse(self.inner.as_str()) {
            Err(e) => Err(CodecError::Parse(e.message)),
            Ok(doc) => {
                let segs = split_str(path, '/');
                match xnav(&doc.content, &segs, 0) {
                    Ok(sp) => Ok(sp),
                    Err(XNavErr::NotElem) => Err(CodecError::NotAnObject),
                    Err(XNavErr::Leaf) => Err(CodecError::LeafNotFound(path.to_owned())),
                }
            },
        }
    }
}

impl FormatCodec for XmlString {
    open spec fn doc(&self) -> Seq<char> {
        self@
    }

    open spec fn find(doc: Seq<char>, path: Seq<char>) -> FindOutcome {
        xml_find(doc, path)
    }

    open spec fn parse_detail(doc: Seq<char>) -> Seq<char> {
        xml_parse_detail(doc)
    }

    fn extract(&self, path: &str) -> (r: Result<Option<String>, CodecError>) {
        match self.locate(path) {
            Ok(sp) => {
                let text = self.inner.as_str().substring_char(sp.start, sp.end).to_owned();
                Ok(Some(text))
            },
            Err(e) => Err(e),
        }
    }

    fn replace(&mut self, path: &str, value: &str) -> (r: Result<(), CodecError>) {
        match self.locate(path) {
            Ok(sp) => {
                let n = self.inner.as_str().unicode_len();
                let out = splice_text(self.inner.as_str(), n, sp.start, sp.end, value);
                self.inner = out;
                Ok(())
            },
            Err(e) => Err(e),
        }
    }
}


} // verus!
