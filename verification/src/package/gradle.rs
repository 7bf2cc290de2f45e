use vstd::prelude::*;

use crate::parser::spliced;
use crate::text::{is_digit, lit_at, match_lit};
use crate::version::{semver_parse, spec_version_string, SemVer};

verus! {

/// Whitespace as the version-line pattern treats it.
pub open spec fn is_gradle_space(c: char) -> bool {
    c == ' ' || c == '\t' || c == '\n' || c == '\r' || c == '\x0b' || c == '\x0c'
}

/// Position of the first character at or after `i` that is not pattern
/// whitespace, capped at the end of the text.
pub open spec fn gws_to(s: Seq<char>, i: int) -> int
    decreases s.len() - i,
{
    if 0 <= i < s.len() && is_gradle_space(s[i]) {
        gws_to(s, i + 1)
    } else {
        i
    }
}

pub proof fn lemma_gws_to(s: Seq<char>, i: int)
    requires
        0 <= i <= s.len(),
    ensures
        i <= gws_to(s, i) <= s.len(),
    decreases s.len() - i,
{
    if i < s.len() && is_gradle_space(s[i]) {
        lemma_gws_to(s, i + 1);
    }
}

/// Position of the first pattern-whitespace character at or after `i`,
/// capped at the end of the text.
pub open spec fn nonspace_to(s: Seq<char>, i: int) -> int
    decreases s.len() - i,
{
    if 0 <= i < s.len() && !is_gradle_space(s[i]) {
        nonspace_to(s, i + 1)
    } else {
        i
    }
}

pub proof fn lemma_nonspace_to(s: Seq<char>, i: int)
    requires
        0 <= i <= s.len(),
    ensures
        i <= nonspace_to(s, i) <= s.len(),
    decreases s.len() - i,
{
    if i < s.len() && !is_gradle_space(s[i]) {
        lemma_nonspace_to(s, i + 1);
    }
}

/// The version-value range when the version-line pattern matches at `i`:
/// the word `version`, optional whitespace, an equals sign, optional
/// whitespace, then a value that starts with a digit and is at least two
/// characters long.
pub open spec fn gr_match_at(s: Seq<char>, i: int) -> Option<(int, int)> {
    if lit_at(s, i, "version"@) {
        let w = gws_to(s, i + "version"@.len());
        if w < s.len() && s[w] == '=' {
            let v0 = gws_to(s, w + 1);
            if v0 < s.len() && is_digit(s[v0]) {
                let ve = nonspace_to(s, v0);
                if ve > v0 + 1 {
                    Some((v0, ve))
                } else {
                    None
                }
            } else {
                None
            }
        } else {
            None
        }
    } else {
        None
    }
}

/// Whether the pattern may start at `i`: at the start of the text or right
/// after a newline.
pub open spec fn gr_starts_ok(s: Seq<char>, i: int) -> bool {
    i == 0 || (0 < i <= s.len() && s[i - 1] == '\n')
}

/// The version-value range of the first line matching the pattern at or
/// after `i`.
pub open spec fn gradle_find_from(s: Seq<char>, i: int) -> Option<(int, int)>
    decreases s.len() - i,
{
    if !(0 <= i < s.len()) {
        None
    } else if gr_starts_ok(s, i) && gr_match_at(s, i) is Some {
        gr_match_at(s, i)
    } else {
        gradle_find_from(s, i + 1)
    }
}

/// The version-value range of the first line matching the pattern.
pub open spec fn gradle_find(s: Seq<char>) -> Option<(int, int)> {
    gradle_find_from(s, 0)
}

pub proof fn lemma_gr_match_at(s: Seq<char>, i: int)
    requires
        0 <= i <= s.len(),
    ensures
        gr_match_at(s, i) matches Some((a, b)) ==> i <= a < b <= s.len(),
{
    reveal_strlit("version");
    if lit_at(s, i, "version"@) {
        lemma_gws_to(s, i + "version"@.len());
        let w = gws_to(s, i + "version"@.len());
        if w < s.len() && s[w] == '=' {
            lemma_gws_to(s, w + 1);
            let v0 = gws_to(s, w + 1);
            if v0 < s.len() {
                lemma_nonspace_to(s, v0);
            }
        }
    }
}

pub proof fn lemma_gradle_find_from(s: Seq<char>, i: int)
    requires
        0 <= i <= s.len(),
    ensures
        gradle_find_from(s, i) matches Some((a, b)) ==> 0 <= a < b <= s.len(),
    decreases s.len() - i,
{
    if 0 <= i < s.len() {
        lemma_gr_match_at(s, i);
        if !(gr_starts_ok(s, i) && gr_match_at(s, i) is Some) {
            lemma_gradle_find_from(s, i + 1);
        }
    }
}

/// Scans a properties text for the first version line; returns the range of
/// the version value.
fn gradle_locate(s: &str, n: usize) -> (r: Option<(usize, usize)>)
    requires
        n == s@.len(),
        s@.len() <= usize::MAX,
    ensures
        match r {
            Some((a, b)) => gradle_find(s@) == Some((a as int, b as int)) && a < b <= n,
            None => gradle_find(s@) is None,
        },
{
    proof {
        lemma_gradle_find_from(s@, 0);
        reveal_strlit("version");
    }
    let mut p: usize = 0;
    loop
        invariant
            0 <= p <= n,
            n == s@.len(),
            s@.len() <= usize::MAX,
            gradle_find(s@) == gradle_find_from(s@, p as int),
        decreases n - p,
    {
        if p >= n {
            return None;
        }
        let starts_ok = p == 0 || s.get_char(p - 1) == '\n';
        if starts_ok && match_lit(s, p, n, "version") {
            proof {
                reveal_strlit("version");
            }
            let w = gws(s, p + 7, n);
            if w < n && s.get_char(w) == '=' {
                let v0 = gws(s, w + 1, n);
                if v0 < n {
                    let c = s.get_char(v0);
                    if c >= '0' && c <= '9' {
                        let ve = gnonspace(s, v0, n);
                        if ve > v0 + 1 {
                            assert(gr_match_at(s@, p as int) == Some((v0 as int, ve as int)));
                            return Some((v0, ve));
                        }
                    }
                }
            }
            assert(gr_match_at(s@, p as int) is None);
        }
        p = p + 1;
    }
}

/// Skips pattern whitespace starting at `i`.
fn gws(s: &str, i: usize, n: usize) -> (r: usize)
    requires
        n == s@.len(),
        s@.len() <= usize::MAX,
        i <= n,
    ensures
        r == gws_to(s@, i as int),
        i <= r <= n,
{
    proof {
        lemma_gws_to(s@, i as int);
    }
    let mut p = i;
    while p < n
        invariant
            i <= p <= n,
            n == s@.len(),
            s@.len() <= usize::MAX,
            gws_to(s@, i as int) == gws_to(s@, p as int),
        ensures
            i <= p <= n,
            gws_to(s@, p as int) == p as int,
            gws_to(s@, i as int) == gws_to(s@, p as int),
        decreases n - p,
    {
        let c = s.get_char(p);
        if c == ' ' || c == '\t' || c == '\n' || c == '\r' || c == '\x0b' || c == '\x0c' {
            p = p + 1;
        } else {
            break ;
        }
    }
    p
}

/// Skips to the first pattern-whitespace character starting at `i`.
fn gnonspace(s: &str, i: usize, n: usize) -> (r: usize)
    requires
        n == s@.len(),
        s@.len() <= usize::MAX,
        i <= n,
    ensures
        r == nonspace_to(s@, i as int),
        i <= r <= n,
{
    proof {
        lemma_nonspace_to(s@, i as int);
    }
    let mut p = i;
    while p < n
        invariant
            i <= p <= n,
            n == s@.len(),
            s@.len() <= usize::MAX,
            nonspace_to(s@, i as int) == nonspace_to(s@, p as int),
        ensures
            i <= p <= n,
            nonspace_to(s@, p as int) == p as int,
            nonspace_to(s@, i as int) == nonspace_to(s@, p as int),
        decreases n - p,
    {
        let c = s.get_char(p);
        if !(c == ' ' || c == '\t' || c == '\n' || c == '\r' || c == '\x0b' || c == '\x0c') {
            p = p + 1;
        } else {
            break ;
        }
    }
    p
}

/// A Gradle package: its properties file held as plain text, edited by
/// replacing only the version value of its version line.
pub struct GradlePackage {
    properties: String,
}

impl GradlePackage {
    /// The properties text, as specification-level data.
    pub closed spec fn props_view(&self) -> Seq<char> {
        self.properties@
    }

    /// Wraps a properties text.
    pub fn new(properties_text: &str) -> (r: Self)
        ensures
            r.props_view() == properties_text@,
    {
        GradlePackage { properties: properties_text.to_owned() }
    }

    /// The current properties text, for persistence.
    pub fn to_string(&self) -> (r: String)
        ensures
            r@ == self.props_view(),
    {
        self.properties.clone()
    }

    /// Reads the version from the first version line.
    pub fn extract_version(&self) -> (r: Result<SemVer, String>)
        ensures
            match gradle_find(self.props_view()) {
                Some((a, b)) => match semver_parse(self.props_view().subrange(a, b)) {
                    Some(c) => r matches Ok(v) && v.major == c.0 && v.minor == c.1 && v.patch
                        == c.2 && v.pre@ == c.3 && v.build@ == c.4,
                    None => r is Err,
                },
                None => r matches Err(e) && e@ == "Could not find version in gradle.properties"@,
            },
    {
        let n = self.properties.as_str().unicode_len();
        match gradle_locate(self.properties.as_str(), n) {
            Some((a, b)) => {
                let vs = self.properties.as_str().substring_char(a, b);
                SemVer::parse(vs)
            },
            None => Err("Could not find version in gradle.properties".to_owned()),
        }
    }

    /// Overwrites the version value of the first version line with the given
    /// version, leaving every other character unchanged.  A text without a
    /// version line is left untouched.
    pub fn set_version(&mut self, version: &SemVer) -> (r: Result<(), String>)
        ensures
            r is Ok,
            match gradle_find(old(self).props_view()) {
                Some((a, b)) => final (self).props_view() == spliced(
                    old(self).props_view(),
                    a,
                    b,
                    spec_version_string(
                        version.major as int,
                        version.minor as int,
                        version.patch as int,
                        version.pre@,
                        version.build@,
                    ),
                ),
                None => final (self).props_view() == old(self).props_view(),
            },
    {
        let n = self.properties.as_str().unicode_len();
        match gradle_locate(self.properties.as_str(), n) {
            Some((a, b)) => {
                let vs = version.to_string();
                let out = crate::parser::splice_text(self.properties.as_str(), n, a, b, vs.as_str());
                self.properties = out;
                Ok(())
            },
            None => Ok(()),
        }
    }
}

} // verus!
