use vstd::prelude::*;

use crate::parser::json::{json_find, JsonString};
use crate::parser::{spliced, FindOutcome, FormatCodec};
use crate::version::{semver_parse, spec_version_string, SemVer};

verus! {

/// An npm package: its manifest document held in the span-preserving
/// document codec, so that editing the version touches no other byte.
pub struct NpmPackage {
    doc: JsonString,
}

impl NpmPackage {
    /// The manifest text, as specification-level data.
    pub closed spec fn doc_view(&self) -> Seq<char> {
        self.doc@
    }

    /// Wraps a manifest text.
    pub fn new(package_text: &str) -> (r: Self)
        ensures
            r.doc_view() == package_text@,
    {
        NpmPackage { doc: JsonString::new(package_text) }
    }

    /// The current manifest text, for persistence.
    pub fn to_string(&self) -> (r: String)
        ensures
            r@ == self.doc_view(),
    {
        self.doc.to_string()
    }

    /// Reads the package version from the manifest's version field.
    pub fn extract_version(&self) -> (r: Result<SemVer, String>)
        ensures
            match json_find(self.doc_view(), "version"@) {
                FindOutcome::Found { start, end } => match semver_parse(
                    self.doc_view().subrange(start, end),
                ) {
                    Some(c) => r matches Ok(v) && v.major == c.0 && v.minor == c.1 && v.patch
                        == c.2 && v.pre@ == c.3 && v.build@ == c.4,
                    None => r is Err,
                },
                _ => r is Err,
            },
    {
        match self.doc.extract("version") {
            Ok(opt) => match opt {
                Some(s) => SemVer::parse(s.as_str()),
                None => {
                    proof {
                        assert(false);
                    }
                    vstd::pervasive::unreached()
                },
            },
            Err(e) => Err(e.message()),
        }
    }

    /// Overwrites the version field with the given version, leaving every
    /// other character of the manifest unchanged.
    pub fn set_version(&mut self, version: &SemVer) -> (r: Result<(), String>)
        ensures
            match json_find(old(self).doc_view(), "version"@) {
                FindOutcome::Found { start, end } => r is Ok && final (self).doc_view() == spliced(
                    old(self).doc_view(),
                    start,
                    end,
                    spec_version_string(
                        version.major as int,
                        version.minor as int,
                        version.patch as int,
                        version.pre@,
                        version.build@,
                    ),
                ),
                _ => r is Err && final (self).doc_view() == old(self).doc_view(),
            },
    {
        let vs = version.to_string();
        match self.doc.replace("version", vs.as_str()) {
            Ok(u) => Ok(u),
            Err(e) => Err(e.message()),
        }
    }
}

} // verus!
