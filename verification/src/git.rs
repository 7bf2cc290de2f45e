use vstd::prelude::*;

use crate::parser::{split_path, split_str};
use crate::text::{
    lit_at, replace_all, skip_trailing_ws, skip_ws, spec_render, trim_end_to, ws_to,
};

verus! {

/// A text with its surrounding whitespace removed.
pub open spec fn trimmed(s: Seq<char>) -> Seq<char> {
    let a = ws_to(s, 0);
    let b = trim_end_to(s);
    if a <= b {
        s.subrange(a, b)
    } else {
        Seq::empty()
    }
}

/// A status line that does not block a release: blank, or an untracked-file
/// line, which starts with two question marks.
pub open spec fn line_is_quiet(l: Seq<char>) -> bool {
    trimmed(l).len() == 0 || lit_at(trimmed(l), 0, "??"@)
}

/// A working tree is clean for release when every line of the porcelain
/// status output is blank or reports only an untracked file.
pub open spec fn spec_is_clean(out: Seq<char>) -> bool {
    forall|k: int|
        0 <= k < split_path(out, '\n').len() ==> line_is_quiet(#[trigger] split_path(out, '\n')[k])
}

/// Decides from porcelain status output whether the working tree is clean
/// for release.
pub fn is_clean_status(out: &str) -> (r: bool)
    ensures
        r == spec_is_clean(out@),
{
    proof {
        reveal_strlit("??");
    }
    let lines = split_str(out, '\n');
    let m = lines.len();
    let mut k: usize = 0;
    while k < m
        invariant
            0 <= k <= m,
            m == lines@.len(),
            lines.deep_view() == split_path(out@, '\n'),
            forall|q: int| 0 <= q < k ==> line_is_quiet(#[trigger] split_path(out@, '\n')[q]),
        ensures
            0 <= k <= m,
            k == m ==> forall|q: int|
                0 <= q < m ==> line_is_quiet(#[trigger] split_path(out@, '\n')[q]),
            k < m ==> !line_is_quiet(split_path(out@, '\n')[k as int]),
        decreases m - k,
    {
        let line: &String = &lines[k];
        let ghost lv = split_path(out@, '\n')[k as int];
        proof {
            assert(lines.deep_view()[k as int] == lines@[k as int]@);
        }
        let n = line.as_str().unicode_len();
        let a = skip_ws(line.as_str(), 0, n);
        let b = skip_trailing_ws(line.as_str(), n);
        proof {
            crate::text::lemma_trim_end_to(line@);
        }
        let quiet = if a >= b {
            proof {
                assert(trimmed(lv).len() == 0);
            }
            true
        } else {
            let q2 = b - a >= 2 && line.as_str().get_char(a) == '?' && line.as_str().get_char(
                a + 1,
            ) == '?';
            proof {
                reveal_strlit("??");
                assert(trimmed(lv) == lv.subrange(a as int, b as int));
                assert(trimmed(lv).len() == b - a);
                if q2 {
                    assert(trimmed(lv)[0] == lv[a as int]);
                    assert(trimmed(lv)[1] == lv[a + 1]);
                    assert(trimmed(lv).subrange(0, 2) =~= "??"@);
                } else {
                    assert(trimmed(lv).len() > 0);
                    if lit_at(trimmed(lv), 0, "??"@) {
                        assert(trimmed(lv).subrange(0, 2)[0] == lv[a as int]);
                        assert(trimmed(lv).subrange(0, 2)[1] == lv[a + 1]);
                    }
                }
            }
            q2
        };
        if !quiet {
            break ;
        }
        k = k + 1;
    }
    k == lines.len()
}

/// Renders a tag template: every `{{version}}` marker becomes the version
/// text.
pub fn render_tag_template(template: &str, version_text: &str) -> (r: String)
    ensures
        r@ == spec_render(template@, "{{version}}"@, version_text@),
{
    proof {
        reveal_strlit("{{version}}");
    }
    replace_all(template, "{{version}}", version_text)
}

/// The flag that makes the release commit: signing and message, or message
/// alone.
pub fn commit_flag(force_sign: bool) -> (r: String)
    ensures
        r@ == if force_sign {
            "-Sm"@
        } else {
            "-m"@
        },
{
    if force_sign {
        "-Sm".to_owned()
    } else {
        "-m".to_owned()
    }
}

/// The arguments of the tag command: an annotated, signed tag when signing
/// is forced, a lightweight tag otherwise.
pub fn tag_args(force_sign: bool, tag: &str) -> (r: Vec<String>)
    ensures
        r.deep_view() == if force_sign {
            seq!["tag"@, "-a"@, tag@, "-m"@, tag@, "-s"@]
        } else {
            seq!["tag"@, tag@]
        },
{
    let mut args: Vec<String> = Vec::new();
    args.push("tag".to_owned());
    if force_sign {
        args.push("-a".to_owned());
        args.push(tag.to_owned());
        args.push("-m".to_owned());
        args.push(tag.to_owned());
        args.push("-s".to_owned());
        proof {
            assert(args.deep_view() =~= seq!["tag"@, "-a"@, tag@, "-m"@, tag@, "-s"@]);
        }
    } else {
        args.push(tag.to_owned());
        proof {
            assert(args.deep_view() =~= seq!["tag"@, tag@]);
        }
    }
    args
}

} // verus!
