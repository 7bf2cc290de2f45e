use vstd::prelude::*;

use crate::text::{
    dec_num, is_ascii_alnum, is_digit, lemma_dec_num_bound, str_eq,
};

verus! {

/// The decimal digit character for a value below ten.
pub open spec fn digit_char(d: int) -> char {
    ((48 + d) as u32) as char
}

/// The decimal text of a non-negative number.
pub open spec fn dec_str_of(n: int) -> Seq<char>
    decreases n,
{
    if n < 0 {
        Seq::empty()
    } else if n < 10 {
        seq![digit_char(n)]
    } else {
        dec_str_of(n / 10).push(digit_char(n % 10))
    }
}

/// The text of one decimal digit.
fn digit_str(d: u64) -> (r: &'static str)
    requires
        d < 10,
    ensures
        r@ == seq![digit_char(d as int)],
{
    proof {
        reveal_strlit("0");
        reveal_strlit("1");
        reveal_strlit("2");
        reveal_strlit("3");
        reveal_strlit("4");
        reveal_strlit("5");
        reveal_strlit("6");
        reveal_strlit("7");
        reveal_strlit("8");
        reveal_strlit("9");
        vstd::utf8::char_u32_cast('0', 48);
        vstd::utf8::char_u32_cast('1', 49);
        vstd::utf8::char_u32_cast('2', 50);
        vstd::utf8::char_u32_cast('3', 51);
        vstd::utf8::char_u32_cast('4', 52);
        vstd::utf8::char_u32_cast('5', 53);
        vstd::utf8::char_u32_cast('6', 54);
        vstd::utf8::char_u32_cast('7', 55);
        vstd::utf8::char_u32_cast('8', 56);
        vstd::utf8::char_u32_cast('9', 57);
    }
    match d {
        0 => "0",
        1 => "1",
        2 => "2",
        3 => "3",
        4 => "4",
        5 => "5",
        6 => "6",
        7 => "7",
        8 => "8",
        _ => "9",
    }
}

/// Formats a number in decimal.
pub fn u64_to_string(n: u64) -> (r: String)
    ensures
        r@ == dec_str_of(n as int),
    decreases n,
{
    if n < 10 {
        digit_str(n).to_owned()
    } else {
        let mut s = u64_to_string(n / 10);
        s.append(digit_str(n % 10));
        proof {
            assert(dec_str_of(n as int) =~= dec_str_of(n as int / 10) + seq![
                digit_char(n as int % 10),
            ]);
        }
        s
    }
}

/// A character allowed in a version identifier: an ASCII letter or digit, or
/// a hyphen.
pub open spec fn is_ident_char(c: char) -> bool {
    is_ascii_alnum(c) || c == '-'
}

/// Build metadata or a dotted identifier chain is valid when it is empty or
/// consists of non-empty dot-separated identifier segments.
pub open spec fn is_valid_build(s: Seq<char>) -> bool {
    s.len() == 0 || name_matches(s)
}

/// A non-empty chain of identifier segments separated by single dots.
pub open spec fn name_matches(t: Seq<char>) -> bool {
    &&& t.len() > 0
    &&& forall|k: int| #![trigger t[k]] 0 <= k < t.len() ==> (is_ident_char(t[k]) || t[k] == '.')
    &&& t[0] != '.'
    &&& t[t.len() - 1] != '.'
    &&& forall|k: int| #![trigger t[k]] 0 <= k < t.len() - 1 ==> !(t[k] == '.' && t[k + 1] == '.')
}

/// Checks whether the range `[p, e)` of `s` is a valid identifier chain.
fn name_matches_at(s: &str, p: usize, e: usize, n: usize) -> (r: bool)
    requires
        n == s@.len(),
        s@.len() <= usize::MAX,
        p <= e <= n,
    ensures
        r == name_matches(s@.subrange(p as int, e as int)),
{
    let ghost t = s@.subrange(p as int, e as int);
    if p >= e {
        return false;
    }
    if s.get_char(p) == '.' {
        assert(t[0] == '.');
        return false;
    }
    if s.get_char(e - 1) == '.' {
        assert(t[t.len() - 1] == '.');
        return false;
    }
    let mut k = p;
    while k < e
        invariant
            p <= k <= e <= n,
            n == s@.len(),
            s@.len() <= usize::MAX,
            t == s@.subrange(p as int, e as int),
            forall|q: int| #![trigger t[q]] 0 <= q < k - p ==> (is_ident_char(t[q]) || t[q] == '.'),
            forall|q: int| #![trigger t[q]] 0 <= q < k - p - 1 ==> !(t[q] == '.' && t[q + 1] == '.'),
        ensures
            p <= k <= e,
            forall|q: int| #![trigger t[q]] 0 <= q < k - p ==> (is_ident_char(t[q]) || t[q] == '.'),
            forall|q: int| #![trigger t[q]] 0 <= q < k - p - 1 ==> !(t[q] == '.' && t[q + 1] == '.'),
            k < e ==> !name_matches(t),
        decreases e - k,
    {
        let c = s.get_char(k);
        let good = (c >= '0' && c <= '9') || (c >= 'a' && c <= 'z') || (c >= 'A' && c <= 'Z') || c
            == '-' || c == '.';
        if !good {
            assert(t[k - p] == s@[k as int]);
            assert(!(is_ident_char(t[k - p]) || t[k - p] == '.'));
            break ;
        }
        if c == '.' && k > p && s.get_char(k - 1) == '.' {
            assert(t[k - p - 1] == '.' && t[k - p] == '.');
            break ;
        }
        assert(t[k - p] == s@[k as int]);
        proof {
            if k > p {
                assert(t[k - p - 1] == s@[k - 1]);
            }
        }
        k = k + 1;
    }
    if k == e {
        assert(t[0] == s@[p as int]);
        assert(t[t.len() - 1] == s@[e - 1]);
        assert(name_matches(t));
        true
    } else {
        false
    }
}

/// Start of the maximal run of decimal digits at the end of the text.
pub open spec fn dig_start(s: Seq<char>) -> int
    decreases s.len(),
{
    if s.len() > 0 && is_digit(s[s.len() - 1]) {
        dig_start(s.drop_last())
    } else {
        s.len() as int
    }
}

pub proof fn lemma_dig_start(s: Seq<char>)
    ensures
        0 <= dig_start(s) <= s.len(),
        forall|k: int| dig_start(s) <= k < s.len() ==> is_digit(s[k]),
        dig_start(s) > 0 ==> !is_digit(s[dig_start(s) - 1]),
    decreases s.len(),
{
    if s.len() > 0 && is_digit(s[s.len() - 1]) {
        lemma_dig_start(s.drop_last());
        assert forall|k: int| dig_start(s) <= k < s.len() implies is_digit(s[k]) by {
            if k < s.len() - 1 {
                assert(s.drop_last()[k] == s[k]);
            }
        }
    }
}

/// Earliest position in `[p, e)` from which the rest of the region is a
/// valid identifier chain, or `e` when there is none.
pub open spec fn name_start(s: Seq<char>, p: int, e: int) -> int
    decreases e - p,
{
    if 0 <= p < e && !name_matches(s.subrange(p, e)) {
        name_start(s, p + 1, e)
    } else {
        p
    }
}

pub proof fn lemma_name_start(s: Seq<char>, p: int, e: int)
    requires
        0 <= p <= e <= s.len(),
    ensures
        p <= name_start(s, p, e) <= e,
        name_start(s, p, e) < e ==> name_matches(s.subrange(name_start(s, p, e), e)),
        forall|q: int| p <= q < name_start(s, p, e) ==> !name_matches(s.subrange(q, e)),
    decreases e - p,
{
    if p < e && !name_matches(s.subrange(p, e)) {
        lemma_name_start(s, p + 1, e);
    }
}

/// How a build-metadata text splits into a post-release name and counter.
/// When the text ends in `.r` followed by digits and what precedes, from the
/// earliest possible position, is a valid identifier chain, that chain is
/// the name and the digits are the counter (absent when it cannot be held in
/// a machine word).  Otherwise the whole non-empty text is the name, with no
/// counter; an empty text has no reading at all.
pub open spec fn spec_parse_build(s: Seq<char>) -> Option<(Seq<char>, Option<int>)> {
    let le = s.len() as int;
    let t = dig_start(s);
    if t < le && t >= 2 && s[t - 1] == 'r' && s[t - 2] == '.' && name_start(s, 0, t - 2) < t - 2 {
        let p = name_start(s, 0, t - 2);
        let v = dec_num(s.subrange(t, le));
        Some((s.subrange(p, t - 2), if v <= u64::MAX { Some(v) } else { None }))
    } else if s.len() > 0 {
        Some((s, None))
    } else {
        None
    }
}

pub proof fn lemma_dec_num_prefix(s: Seq<char>, k: int)
    requires
        forall|q: int| 0 <= q < s.len() ==> is_digit(s[q]),
        0 <= k <= s.len(),
    ensures
        dec_num(s) >= dec_num(s.subrange(0, k)),
    decreases s.len(),
{
    if k < s.len() {
        assert(forall|q: int| 0 <= q < s.drop_last().len() ==> is_digit(#[trigger] s.drop_last()[q]));
        lemma_dec_num_bound(s.drop_last());
        lemma_dec_num_prefix(s.drop_last(), k);
        assert(s.drop_last().subrange(0, k) =~= s.subrange(0, k));
    } else {
        assert(s.subrange(0, k) =~= s);
    }
}

/// Computes the number denoted by the digits in `[a, e)`, or reports that it
/// cannot be held in a machine word.
fn dec_value_checked(s: &str, a: usize, e: usize, n: usize) -> (r: Option<u64>)
    requires
        n == s@.len(),
        s@.len() <= usize::MAX,
        a <= e <= n,
        forall|k: int| a <= k < e ==> is_digit(s@[k]),
    ensures
        ({
            let v = dec_num(s@.subrange(a as int, e as int));
            match r {
                Some(u) => u as int == v,
                None => v > u64::MAX,
            }
        }),
{
    let mut acc: u64 = 0;
    let mut p = a;
    proof {
        assert(s@.subrange(a as int, a as int) =~= Seq::<char>::empty());
    }
    while p < e
        invariant
            a <= p <= e <= n,
            n == s@.len(),
            s@.len() <= usize::MAX,
            forall|k: int| a <= k < e ==> is_digit(s@[k]),
            acc as int == dec_num(s@.subrange(a as int, p as int)),
        ensures
            a <= p <= e,
            acc as int == dec_num(s@.subrange(a as int, p as int)),
            p < e ==> dec_num(s@.subrange(a as int, p + 1)) > u64::MAX,
        decreases e - p,
    {
        let c = s.get_char(p);
        let d = c as u64 - 48;
        proof {
            assert(s@.subrange(a as int, p + 1).drop_last() =~= s@.subrange(a as int, p as int));
            assert(forall|k: int|
                0 <= k < s@.subrange(a as int, p as int).len() ==> is_digit(
                    #[trigger] s@.subrange(a as int, p as int)[k],
                ));
            lemma_dec_num_bound(s@.subrange(a as int, p as int));
        }
        if acc > (u64::MAX - d) / 10 {
            proof {
                assert(dec_num(s@.subrange(a as int, p + 1)) == acc as int * 10 + d);
            }
            break ;
        }
        acc = acc * 10 + d;
        p = p + 1;
    }
    if p == e {
        proof {
            assert(s@.subrange(a as int, p as int) =~= s@.subrange(a as int, e as int));
        }
        Some(acc)
    } else {
        proof {
            assert(forall|k: int|
                0 <= k < s@.subrange(a as int, e as int).len() ==> is_digit(
                    #[trigger] s@.subrange(a as int, e as int)[k],
                ));
            lemma_dec_num_prefix(s@.subrange(a as int, e as int), p + 1 - a);
            assert(s@.subrange(a as int, e as int).subrange(0, p + 1 - a) =~= s@.subrange(
                a as int,
                p + 1,
            ));
        }
        None
    }
}

/// Splits a build-metadata text into a post-release name and counter.
pub fn parse_build(build_info: &str) -> (r: Option<(String, Option<u64>)>)
    ensures
        match (r, spec_parse_build(build_info@)) {
            (Some(p), Some(sp)) => p.0@ == sp.0 && (match (p.1, sp.1) {
                (Some(u), Some(v)) => u as int == v,
                (None, None) => true,
                _ => false,
            }),
            (None, None) => true,
            _ => false,
        },
{
    let n = build_info.unicode_len();
    proof {
        lemma_dig_start(build_info@);
    }
    // scan the digit run at the end
    proof {
        assert(build_info@.subrange(0, build_info@.len() as int) =~= build_info@);
    }
    let mut t = n;
    while t > 0
        invariant
            0 <= t <= n,
            n == build_info@.len(),
            build_info@.len() <= usize::MAX,
            dig_start(build_info@.subrange(0, t as int)) == dig_start(build_info@),
        ensures
            0 <= t <= n,
            dig_start(build_info@.subrange(0, t as int)) == t as int,
            dig_start(build_info@.subrange(0, t as int)) == dig_start(build_info@),
        decreases t,
    {
        let c = build_info.get_char(t - 1);
        if c >= '0' && c <= '9' {
            proof {
                assert(build_info@.subrange(0, t as int).drop_last() =~= build_info@.subrange(
                    0,
                    t - 1,
                ));
            }
            t = t - 1;
        } else {
            assert(dig_start(build_info@.subrange(0, t as int)) == t as int);
            break ;
        }
    }
    proof {
        if t == 0 {
            assert(build_info@.subrange(0, 0).len() == 0);
        }
    }
    if t < n && t >= 2 && build_info.get_char(t - 1) == 'r' && build_info.get_char(t - 2) == '.' {
        // find the earliest name start before the counter
        proof {
            lemma_name_start(build_info@, 0, t - 2);
        }
        let e = t - 2;
        let mut p: usize = 0;
        while p < e
            invariant
                0 <= p <= e,
                e == t - 2,
                t <= n,
                n == build_info@.len(),
                build_info@.len() <= usize::MAX,
                name_start(build_info@, 0, e as int) == name_start(build_info@, p as int, e as int),
            ensures
                0 <= p <= e,
                name_start(build_info@, 0, e as int) == name_start(
                    build_info@,
                    p as int,
                    e as int,
                ),
                p < e ==> name_matches(build_info@.subrange(p as int, e as int)),
                p == e ==> name_start(build_info@, 0, e as int) == e as int,
            decreases e - p,
        {
            if name_matches_at(build_info, p, e, n) {
                assert(name_start(build_info@, p as int, e as int) == p as int);
                break ;
            }
            p = p + 1;
        }
        proof {
            if p == e {
                assert(name_start(build_info@, p as int, e as int) == e as int);
            }
        }
        if p < e {
            let name = build_info.substring_char(p, e).to_owned();
            let ver = dec_value_checked(build_info, t, n, n);
            Some((name, ver))
        } else {
            if n > 0 {
                Some((build_info.to_owned(), None))
            } else {
                None
            }
        }
    } else {
        if n > 0 {
            Some((build_info.to_owned(), None))
        } else {
            None
        }
    }
}

// ---------------------------------------------------------------------------
// The version model and bump-level arithmetic.
// ---------------------------------------------------------------------------

/// A semantic version: three numeric components, an optional pre-release
/// chain and optional build metadata (each empty when absent).
#[derive(Clone, Debug)]
pub struct SemVer {
    pub major: u64,
    pub minor: u64,
    pub patch: u64,
    pub pre: String,
    pub build: String,
}

/// The components that parsing a version text yields, when it is a valid
/// semantic version.
pub uninterp spec fn semver_parse(s: Seq<char>) -> Option<(u64, u64, u64, Seq<char>, Seq<char>)>;

/// Relies on semver::Version::parse: the parsed components are a function of
/// the text alone; parsing validates pre-release and build metadata, so a
/// parsed build chain consists of non-empty dot-separated identifier
/// segments.
#[verifier::external_body]
fn semver_parse_raw(s: &str) -> (r: Option<SemVer>)
    ensures
        match (r, semver_parse(s@)) {
            (Some(v), Some(c)) => v.major == c.0 && v.minor == c.1 && v.patch == c.2 && v.pre@
                == c.3 && v.build@ == c.4 && is_valid_build(v.build@) && is_valid_build(v.pre@),
            (None, None) => true,
            _ => false,
        },
{
    match semver::Version::parse(s) {
        Ok(v) => Some(
            SemVer {
                major: v.major,
                minor: v.minor,
                patch: v.patch,
                pre: v.pre.as_str().to_string(),
                build: v.build.as_str().to_string(),
            },
        ),
        Err(_) => None,
    }
}

/// The canonical text of a version: the three numeric components joined by
/// dots, the pre-release chain after a hyphen when present, and the build
/// metadata after a plus sign when present.
pub open spec fn spec_version_string(
    major: int,
    minor: int,
    patch: int,
    pre: Seq<char>,
    build: Seq<char>,
) -> Seq<char> {
    dec_str_of(major) + "."@ + dec_str_of(minor) + "."@ + dec_str_of(patch) + (if pre.len() > 0 {
        "-"@ + pre
    } else {
        Seq::empty()
    }) + (if build.len() > 0 {
        "+"@ + build
    } else {
        Seq::empty()
    })
}

/// The build metadata after a post-release bump: the counter after the name
/// grows by one, a name without a counter gains the counter one, and absent
/// metadata becomes the default post-release chain.
pub open spec fn spec_post_build(b: Seq<char>) -> Seq<char> {
    match spec_parse_build(b) {
        Some(p) => p.0 + ".r"@ + dec_str_of(
            match p.1 {
                Some(v) => v + 1,
                None => 1,
            },
        ),
        None => "dev.r1"@,
    }
}

impl SemVer {
    /// Parses a version text.
    pub fn parse(s: &str) -> (r: Result<SemVer, String>)
        ensures
            match (r, semver_parse(s@)) {
                (Ok(v), Some(c)) => v.major == c.0 && v.minor == c.1 && v.patch == c.2 && v.pre@
                    == c.3 && v.build@ == c.4 && is_valid_build(v.build@),
                (Err(m), None) => true,
                _ => false,
            },
    {
        match semver_parse_raw(s) {
            Some(v) => Ok(v),
            None => Err("invalid semantic version".to_owned()),
        }
    }

    /// The canonical text of this version.
    pub fn to_string(&self) -> (r: String)
        ensures
            r@ == spec_version_string(
                self.major as int,
                self.minor as int,
                self.patch as int,
                self.pre@,
                self.build@,
            ),
    {
        proof {
            reveal_strlit(".");
            reveal_strlit("-");
            reveal_strlit("+");
        }
        let mut out = u64_to_string(self.major);
        out.append(".");
        let minor_s = u64_to_string(self.minor);
        out.append(minor_s.as_str());
        out.append(".");
        let patch_s = u64_to_string(self.patch);
        out.append(patch_s.as_str());
        if self.pre.as_str().unicode_len() > 0 {
            out.append("-");
            out.append(self.pre.as_str());
        } else {
            proof {
                assert(self.pre@.len() == 0);
            }
        }
        if self.build.as_str().unicode_len() > 0 {
            out.append("+");
            out.append(self.build.as_str());
        } else {
            proof {
                assert(self.build@.len() == 0);
            }
        }
        proof {
            assert(out@ =~= spec_version_string(
                self.major as int,
                self.minor as int,
                self.patch as int,
                self.pre@,
                self.build@,
            ));
        }
        out
    }
}

/// How much of a version a release bumps.
#[derive(Clone, Copy, Debug, PartialEq, Eq, Structural)]
pub enum BumpLevel {
    Major,
    Minor,
    Patch,
    Post,
}

impl BumpLevel {
    /// The version after bumping `current` by this level.  A major, minor or
    /// patch bump raises its component, zeroes the lower ones and drops any
    /// pre-release or build metadata; a post-release bump keeps the numeric
    /// components and advances the post-release counter in the build
    /// metadata.
    pub fn apply(&self, current: &SemVer) -> (r: SemVer)
        requires
            self is Major ==> current.major < u64::MAX,
            self is Minor ==> current.minor < u64::MAX,
            self is Patch ==> current.patch < u64::MAX,
            self is Post ==> (match spec_parse_build(current.build@) {
                Some(p) => (match p.1 {
                    Some(v) => v < u64::MAX,
                    None => true,
                }),
                None => true,
            }),
        ensures
            match self {
                BumpLevel::Major => r.major == current.major + 1 && r.minor == 0 && r.patch == 0
                    && r.pre@.len() == 0 && r.build@.len() == 0,
                BumpLevel::Minor => r.major == current.major && r.minor == current.minor + 1
                    && r.patch == 0 && r.pre@.len() == 0 && r.build@.len() == 0,
                BumpLevel::Patch => r.major == current.major && r.minor == current.minor
                    && r.patch == current.patch + 1 && r.pre@.len() == 0 && r.build@.len() == 0,
                BumpLevel::Post => r.major == current.major && r.minor == current.minor
                    && r.patch == current.patch && r.pre@.len() == 0 && r.build@
                    == spec_post_build(current.build@),
            },
    {
        match self {
            BumpLevel::Major => SemVer {
                major: current.major + 1,
                minor: 0,
                patch: 0,
                pre: String::new(),
                build: String::new(),
            },
            BumpLevel::Minor => SemVer {
                major: current.major,
                minor: current.minor + 1,
                patch: 0,
                pre: String::new(),
                build: String::new(),
            },
            BumpLevel::Patch => SemVer {
                major: current.major,
                minor: current.minor,
                patch: current.patch + 1,
                pre: String::new(),
                build: String::new(),
            },
            BumpLevel::Post => {
                proof {
                    reveal_strlit(".r");
                    reveal_strlit("dev.r1");
                }
                let build = match parse_build(current.build.as_str()) {
                    Some((name, ver)) => {
                        let k: u64 = match ver {
                            Some(v) => v + 1,
                            None => 1,
                        };
                        let mut b = name;
                        b.append(".r");
                        let ks = u64_to_string(k);
                        b.append(ks.as_str());
                        b
                    },
                    None => "dev.r1".to_owned(),
                };
                SemVer {
                    major: current.major,
                    minor: current.minor,
                    patch: current.patch,
                    pre: String::new(),
                    build,
                }
            },
        }
    }
}

/// What a release asks for: either a bump relative to the current version,
/// or an absolute version to set.
#[derive(Clone, Debug)]
pub enum TargetVersion {
    Relative(BumpLevel),
    Absolute(SemVer),
}

impl TargetVersion {
    /// The version to release: the bumped current version, or the absolute
    /// one as given.
    pub fn apply(&self, current: &SemVer) -> (r: SemVer)
        requires
            self matches TargetVersion::Relative(l) ==> {
                &&& l is Major ==> current.major < u64::MAX
                &&& l is Minor ==> current.minor < u64::MAX
                &&& l is Patch ==> current.patch < u64::MAX
                &&& l is Post ==> (match spec_parse_build(current.build@) {
                    Some(p) => (match p.1 {
                        Some(v) => v < u64::MAX,
                        None => true,
                    }),
                    None => true,
                })
            },
        ensures
            match self {
                TargetVersion::Relative(l) => match l {
                    BumpLevel::Major => r.major == current.major + 1 && r.minor == 0 && r.patch
                        == 0 && r.pre@.len() == 0 && r.build@.len() == 0,
                    BumpLevel::Minor => r.major == current.major && r.minor == current.minor + 1
                        && r.patch == 0 && r.pre@.len() == 0 && r.build@.len() == 0,
                    BumpLevel::Patch => r.major == current.major && r.minor == current.minor
                        && r.patch == current.patch + 1 && r.pre@.len() == 0 && r.build@.len()
                        == 0,
                    BumpLevel::Post => r.major == current.major && r.minor == current.minor
                        && r.patch == current.patch && r.pre@.len() == 0 && r.build@
                        == spec_post_build(current.build@),
                },
                TargetVersion::Absolute(v) => r.major == v.major && r.minor == v.minor && r.patch
                    == v.patch && r.pre@ == v.pre@ && r.build@ == v.build@,
            },
    {
        match self {
            TargetVersion::Relative(level) => level.apply(current),
            TargetVersion::Absolute(v) => SemVer {
                major: v.major,
                minor: v.minor,
                patch: v.patch,
                pre: v.pre.clone(),
                build: v.build.clone(),
            },
        }
    }

    /// Reads a bump level by name, or an absolute version.
    pub fn from_str(s: &str) -> (r: Result<TargetVersion, String>)
        ensures
            match r {
                Ok(t) => match t {
                    TargetVersion::Relative(l) => (s@ == "major"@ && l is Major) || (s@
                        == "minor"@ && l is Minor) || (s@ == "patch"@ && l is Patch) || (s@
                        == "post"@ && l is Post),
                    TargetVersion::Absolute(v) => semver_parse(s@) matches Some(c) && v.major
                        == c.0 && v.minor == c.1 && v.patch == c.2 && v.pre@ == c.3 && v.build@
                        == c.4,
                },
                Err(m) => s@ != "major"@ && s@ != "minor"@ && s@ != "patch"@ && s@ != "post"@
                    && semver_parse(s@) is None,
            },
    {
        if str_eq(s, "major") {
            Ok(TargetVersion::Relative(BumpLevel::Major))
        } else if str_eq(s, "minor") {
            Ok(TargetVersion::Relative(BumpLevel::Minor))
        } else if str_eq(s, "patch") {
            Ok(TargetVersion::Relative(BumpLevel::Patch))
        } else if str_eq(s, "post") {
            Ok(TargetVersion::Relative(BumpLevel::Post))
        } else {
            match SemVer::parse(s) {
                Ok(v) => Ok(TargetVersion::Absolute(v)),
                Err(m) => Err(m),
            }
        }
    }
}

} // verus!
