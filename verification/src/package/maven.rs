use vstd::prelude::*;

use crate::parser::xml::xmlstring::{xml_find, XmlString};
use crate::parser::{spliced, FindOutcome, FormatCodec};
use crate::text::is_ascii_alnum;
use crate::version::{semver_parse, spec_version_string, SemVer};

verus! {

/// A character allowed inside a version placeholder name.
pub open spec fn is_placeholder_char(c: char) -> bool {
    is_ascii_alnum(c) || c == '_' || c == '.' || c == '-'
}

/// A version value of the form `${name}`, pointing at a property that holds
/// the real version.
pub open spec fn is_placeholder(s: Seq<char>) -> bool {
    &&& s.len() >= 4
    &&& s[0] == '$'
    &&& s[1] == '{'
    &&& s[s.len() - 1] == '}'
    &&& forall|k: int| 2 <= k < s.len() - 1 ==> is_placeholder_char(#[trigger] s[k])
}

/// The property name inside a placeholder.
pub open spec fn placeholder_of(s: Seq<char>) -> Seq<char> {
    s.subrange(2, s.len() - 1)
}

/// The path of the property a placeholder points at.
pub open spec fn prop_path(ph: Seq<char>) -> Seq<char> {
    "project/properties/"@ + ph
}

/// Checks whether a version value is a placeholder.
fn placeholder_check(s: &str) -> (r: bool)
    ensures
        r == is_placeholder(s@),
{
    let n = s.unicode_len();
    if n < 4 {
        return false;
    }
    if s.get_char(0) != '$' || s.get_char(1) != '{' || s.get_char(n - 1) != '}' {
        return false;
    }
    let mut k: usize = 2;
    while k < n - 1
        invariant
            2 <= k <= n - 1,
            n == s@.len(),
            s@.len() <= usize::MAX,
            n >= 4,
            forall|q: int| 2 <= q < k ==> is_placeholder_char(#[trigger] s@[q]),
        ensures
            2 <= k <= n - 1,
            forall|q: int| 2 <= q < k ==> is_placeholder_char(#[trigger] s@[q]),
            k < n - 1 ==> !is_placeholder_char(s@[k as int]),
        decreases n - k,
    {
        let c = s.get_char(k);
        if (c >= '0' && c <= '9') || (c >= 'a' && c <= 'z') || (c >= 'A' && c <= 'Z') || c == '_'
            || c == '.' || c == '-' {
            k = k + 1;
        } else {
            break ;
        }
    }
    k == n - 1
}

/// A Maven package: its project file held in the span-preserving document
/// codec, so that editing the version touches no other byte.  When the
/// version value is a placeholder, the property it names is the real
/// version.
pub struct MavenPackage {
    doc: XmlString,
}

impl MavenPackage {
    /// The project file text, as specification-level data.
    pub closed spec fn doc_view(&self) -> Seq<char> {
        self.doc@
    }

    /// Wraps a project file text.
    pub fn new(pom_text: &str) -> (r: Self)
        ensures
            r.doc_view() == pom_text@,
    {
        MavenPackage { doc: XmlString::new(pom_text) }
    }

    /// The current project file text, for persistence.
    pub fn to_string(&self) -> (r: String)
        ensures
            r@ == self.doc_view(),
    {
        self.doc.to_string()
    }

    /// Builds the path of the property a placeholder value points at.
    fn property_path(vs: &str) -> (r: String)
        requires
            is_placeholder(vs@),
        ensures
            r@ == prop_path(placeholder_of(vs@)),
    {
        let n = vs.unicode_len();
        let ph = vs.substring_char(2, n - 1);
        let mut path = "project/properties/".to_owned();
        path.append(ph);
        path
    }

    /// Reads the package version: the version element's text, or, when that
    /// text is a placeholder, the text of the property it names.
    pub fn extract_version(&self) -> (r: Result<SemVer, String>)
        ensures
            match xml_find(self.doc_view(), "project/version"@) {
                FindOutcome::Found { start, end } => {
                    let vs = self.doc_view().subrange(start, end);
                    if is_placeholder(vs) {
                        match xml_find(self.doc_view(), prop_path(placeholder_of(vs))) {
                            FindOutcome::Found { start: s2, end: e2 } => match semver_parse(
                                self.doc_view().subrange(s2, e2),
                            ) {
                                Some(c) => r matches Ok(v) && v.major == c.0 && v.minor == c.1
                                    && v.patch == c.2 && v.pre@ == c.3 && v.build@ == c.4,
                                None => r is Err,
                            },
                            _ => r is Err,
                        }
                    } else {
                        match semver_parse(vs) {
                            Some(c) => r matches Ok(v) && v.major == c.0 && v.minor == c.1
                                && v.patch == c.2 && v.pre@ == c.3 && v.build@ == c.4,
                            None => r is Err,
                        }
                    }
                },
                _ => r is Err,
            },
    {
        match self.doc.extract("project/version") {
            Ok(opt) => match opt {
                Some(vs) => {
                    if placeholder_check(vs.as_str()) {
                        let path = Self::property_path(vs.as_str());
                        match self.doc.extract(path.as_str()) {
                            Ok(opt2) => match opt2 {
                                Some(ps) => SemVer::parse(ps.as_str()),
                                None => {
                                    proof {
                                        assert(false);
                                    }
                                    vstd::pervasive::unreached()
                                },
                            },
                            Err(e) => Err(e.message()),
                        }
                    } else {
                        SemVer::parse(vs.as_str())
                    }
                },
                None => {
                    proof {
                        assert(false);
                    }
                    vstd::pervasive::unreached()
                },
            },
            Err(e) => Err(e.message()),
        }
    }

    /// Overwrites the package version, leaving every other character of the
    /// project file unchanged: the version element's text, or, when that
    /// text is a placeholder, the text of the property it names.
    pub fn set_version(&mut self, version: &SemVer) -> (r: Result<(), String>)
        ensures
            ({
                let vtext = spec_version_string(
                    version.major as int,
                    version.minor as int,
                    version.patch as int,
                    version.pre@,
                    version.build@,
                );
                match xml_find(old(self).doc_view(), "project/version"@) {
                    FindOutcome::Found { start, end } => {
                        let vs = old(self).doc_view().subrange(start, end);
                        if is_placeholder(vs) {
                            match xml_find(
                                old(self).doc_view(),
                                prop_path(placeholder_of(vs)),
                            ) {
                                FindOutcome::Found { start: s2, end: e2 } => r is Ok && final (
                                self).doc_view() == spliced(
                                    old(self).doc_view(),
                                    s2,
                                    e2,
                                    vtext,
                                ),
                                _ => r is Err && final (self).doc_view() == old(
                                    self,
                                ).doc_view(),
                            }
                        } else {
                            r is Ok && final (self).doc_view() == spliced(
                                old(self).doc_view(),
                                start,
                                end,
                                vtext,
                            )
                        }
                    },
                    _ => r is Err && final (self).doc_view() == old(self).doc_view(),
                }
            }),
    {
        let vtext = version.to_string();
        match self.doc.extract("project/version") {
            Ok(opt) => match opt {
                Some(vs) => {
                    if placeholder_check(vs.as_str()) {
                        let path = Self::property_path(vs.as_str());
                        match self.doc.replace(path.as_str(), vtext.as_str()) {
                            Ok(u) => Ok(u),
                            Err(e) => Err(e.message()),
                        }
                    } else {
                        match self.doc.replace("project/version", vtext.as_str()) {
                            Ok(u) => Ok(u),
                            Err(e) => {
                                proof {
                                    assert(false);
                                }
                                vstd::pervasive::unreached()
                            },
                        }
                    }
                },
                None => {
                    proof {
                        assert(false);
                    }
                    vstd::pervasive::unreached()
                },
            },
            Err(e) => Err(e.message()),
        }
    }
}

} // verus!
