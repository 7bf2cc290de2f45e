use vstd::prelude::*;

verus! {

/// A qualified name: an optional namespace URI, an optional display prefix,
/// and the local name.  The parser never resolves namespace URIs, so equality
/// degenerates to comparing local names (and the never-present URIs); the
/// prefix is display-only.
#[derive(Clone, Debug)]
pub struct QualifiedName {
    nsuri: Option<String>,
    prefix: Option<String>,
    localname: String,
}

impl QualifiedName {
    /// The namespace URI, as specification-level data.
    pub closed spec fn nsuri_view(&self) -> Option<Seq<char>> {
        self.nsuri.deep_view()
    }

    /// The display prefix, as specification-level data.
    pub closed spec fn prefix_view(&self) -> Option<Seq<char>> {
        self.prefix.deep_view()
    }

    /// The local name, as specification-level data.
    pub closed spec fn local_view(&self) -> Seq<char> {
        self.localname@
    }

    pub fn new(nsuri: Option<String>, prefix: Option<String>, localname: String) -> (r:
        QualifiedName)
        ensures
            r.nsuri_view() == nsuri.deep_view(),
            r.prefix_view() == prefix.deep_view(),
            r.local_view() == localname@,
    {
        QualifiedName { nsuri, prefix, localname }
    }

    pub fn get_localname(&self) -> (r: String)
        ensures
            r@ == self.local_view(),
    {
        self.localname.clone()
    }

    /// The name as it is written in a document: the prefix, a colon when a
    /// prefix is present, then the local name.
    pub fn to_display_string(&self) -> (r: String)
        ensures
            match self.prefix_view() {
                Some(p) => r@ == p + ":"@ + self.local_view(),
                None => r@ == self.local_view(),
            },
    {
        match &self.prefix {
            Some(p) => {
                let mut out = p.clone();
                out.append(":");
                out.append(self.localname.as_str());
                out
            },
            None => self.localname.clone(),
        }
    }

    /// Whether two names are written the same way: equal prefixes and equal
    /// local names.
    pub fn same_written_name(&self, other: &QualifiedName) -> (r: bool)
        ensures
            r == (self.prefix_view() == other.prefix_view() && self.local_view()
                == other.local_view()),
    {
        let pfx_eq = match (&self.prefix, &other.prefix) {
            (None, None) => true,
            (Some(a), Some(b)) => crate::text::str_eq(a.as_str(), b.as_str()),
            _ => false,
        };
        pfx_eq && crate::text::str_eq(self.localname.as_str(), other.localname.as_str())
    }
}

impl PartialEq for QualifiedName {
    /// Only the namespace URI and the local name have to match.
    fn eq(&self, other: &QualifiedName) -> (r: bool) {
        let ns_eq = match (&self.nsuri, &other.nsuri) {
            (None, None) => true,
            (Some(a), Some(b)) => crate::text::str_eq(a.as_str(), b.as_str()),
            _ => false,
        };
        ns_eq && crate::text::str_eq(self.localname.as_str(), other.localname.as_str())
    }
}

impl vstd::std_specs::cmp::PartialEqSpecImpl for QualifiedName {
    open spec fn obeys_eq_spec() -> bool {
        true
    }

    open spec fn eq_spec(&self, other: &QualifiedName) -> bool {
        self.nsuri_view() == other.nsuri_view() && self.local_view() == other.local_view()
    }
}

} // verus!
