use vstd::prelude::*;

use crate::text::{
    contains_lit, contains_str, find_lit, find_lit_at, lemma_find_lit, replace_all, spec_render,
};

verus! {

/// The heading under which unreleased changes collect.
pub open spec fn unreleased_line() -> Seq<char> {
    "\n## [Unreleased]"@
}

/// The changelog after normalisation: a log without any release heading
/// gains the unreleased heading at its end, and a log with release headings
/// but no unreleased heading gains it right before the first release
/// heading.
pub open spec fn spec_normalized_changelog(c: Seq<char>) -> Seq<char> {
    if !contains_lit(c, "\n## "@) {
        c + unreleased_line()
    } else if !contains_lit(c, unreleased_line()) {
        let j = find_lit(c, 0, "\n## "@);
        c.subrange(0, j) + unreleased_line() + c.subrange(j, c.len() as int)
    } else {
        c
    }
}

/// The release heading for a version on a date.
pub open spec fn spec_release_heading(v: Seq<char>, d: Seq<char>) -> Seq<char> {
    unreleased_line() + "\n\n## ["@ + v + "] "@ + d
}

/// The changelog after a release: normalised, then every unreleased heading
/// followed by a fresh release heading for the version and date.
pub open spec fn spec_updated_changelog(c: Seq<char>, v: Seq<char>, d: Seq<char>) -> Seq<char> {
    spec_render(spec_normalized_changelog(c), unreleased_line(), spec_release_heading(v, d))
}

/// Rewrites a changelog for a release: the unreleased heading stays and a
/// release heading for the version and date is inserted under it.
pub fn updated_changelog(content: &str, version_text: &str, date: &str) -> (r: String)
    ensures
        r@ == spec_updated_changelog(content@, version_text@, date@),
{
    proof {
        reveal_strlit("\n## ");
        reveal_strlit("\n## [Unreleased]");
        reveal_strlit("\n\n## [");
        reveal_strlit("] ");
    }
    let normalized: String = if !contains_str(content, "\n## ") {
        let mut c = content.to_owned();
        c.append("\n## [Unreleased]");
        c
    } else if !contains_str(content, "\n## [Unreleased]") {
        let n = content.unicode_len();
        let j = find_lit_at(content, 0, n, "\n## ");
        proof {
            lemma_find_lit(content@, 0, "\n## "@);
        }
        let mut c = content.substring_char(0, j).to_owned();
        c.append("\n## [Unreleased]");
        c.append(content.substring_char(j, n));
        c
    } else {
        content.to_owned()
    };
    let mut heading = "\n## [Unreleased]".to_owned();
    heading.append("\n\n## [");
    heading.append(version_text);
    heading.append("] ");
    heading.append(date);
    proof {
        assert(heading@ =~= spec_release_heading(version_text@, date@));
    }
    replace_all(normalized.as_str(), "\n## [Unreleased]", heading.as_str())
}

} // verus!
