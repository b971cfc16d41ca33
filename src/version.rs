//! Versions in the shape that `git describe` gives them:
//! `major.minor.patch`, optionally followed by `-distance-gcommit`.
use vstd::prelude::*;

use crate::text::{
    alnum_end, chars_of, decimal_string, decimal_value, digits_end, is_alnum, is_digit,
    lemma_alnum_end, lemma_decimal_round_trip, lemma_decimal_string_digits, lemma_digits_end,
    push_decimal, scan_alnum, scan_digits,
};

verus! {

#[derive(Debug, Clone, Copy, PartialEq, Eq, Structural)]
pub enum Error {
    InvalidVersionString,
}

/// A parsed tag. The derived order compares the four numbers and then the
/// commit; `precedes` is the order by the four numbers alone.
#[derive(PartialEq, Eq, PartialOrd, Ord, Debug)]
pub struct GitDescribeVersion {
    pub major: u32,
    pub minor: u32,
    pub patch: u32,
    /// Commits past the last tagged release; 0 for a release.
    pub distance: u32,
    pub commitish: Option<String>,
}

/// What a version holds, as mathematical values.
pub struct VersionModel {
    pub major: nat,
    pub minor: nat,
    pub patch: nat,
    pub distance: nat,
    pub commitish: Option<Seq<char>>,
}

impl View for GitDescribeVersion {
    type V = VersionModel;

    open spec fn view(&self) -> VersionModel {
        VersionModel {
            major: self.major as nat,
            minor: self.minor as nat,
            patch: self.patch as nat,
            distance: self.distance as nat,
            commitish: match self.commitish {
                Some(c) => Some(c@),
                None => None,
            },
        }
    }
}

/// `a` sorts strictly before `b`: lexicographic on major, minor, patch and
/// distance; the commit plays no part.
pub open spec fn version_lt(a: VersionModel, b: VersionModel) -> bool {
    ||| a.major < b.major
    ||| a.major == b.major && a.minor < b.minor
    ||| a.major == b.major && a.minor == b.minor && a.patch < b.patch
    ||| a.major == b.major && a.minor == b.minor && a.patch == b.patch && a.distance < b.distance
}

/// `a` and `b` take the same place in the order.
pub open spec fn same_rank(a: VersionModel, b: VersionModel) -> bool {
    a.major == b.major && a.minor == b.minor && a.patch == b.patch && a.distance == b.distance
}

pub open spec fn is_release_model(m: VersionModel) -> bool {
    m.distance == 0
}

/// Every number of `m` fits in a `u32`.
pub open spec fn fits_u32(m: VersionModel) -> bool {
    m.major <= u32::MAX && m.minor <= u32::MAX && m.patch <= u32::MAX && m.distance <= u32::MAX
}

/// The suffix `-distance-gcommit` at `c`: the end of the distance's digits
/// and the end of the commit, where it stands there.
pub open spec fn suffix_at(s: Seq<char>, c: int) -> Option<(int, int)> {
    let d = digits_end(s, c + 1);
    let e = alnum_end(s, d + 2);
    if 0 <= c < s.len() && s[c] == '-' && c + 1 < d && d + 1 < s.len() && s[d] == '-' && s[d
        + 1] == 'g' && d + 2 < e {
        Some((d, e))
    } else {
        None
    }
}

/// The version that the grammar reads at position `i` of `s`, if it matches
/// there. Each run of digits or letters is taken whole, as a greedy match does.
pub open spec fn version_at(s: Seq<char>, i: int) -> Option<VersionModel> {
    let a = digits_end(s, i);
    let b = digits_end(s, a + 1);
    let c = digits_end(s, b + 1);
    if 0 <= i && i < a && a < s.len() && s[a] == '.' && a + 1 < b && b < s.len() && s[b] == '.'
        && b + 1 < c {
        Some(
            VersionModel {
                major: decimal_value(s.subrange(i, a)),
                minor: decimal_value(s.subrange(a + 1, b)),
                patch: decimal_value(s.subrange(b + 1, c)),
                distance: match suffix_at(s, c) {
                    Some((d, e)) => decimal_value(s.subrange(c + 1, d)),
                    None => 0,
                },
                commitish: match suffix_at(s, c) {
                    Some((d, e)) => Some(s.subrange(d + 2, e)),
                    None => None,
                },
            },
        )
    } else {
        None
    }
}

/// The version read at the first position from `i` on where the grammar
/// matches: the match is searched for, not anchored.
pub open spec fn first_version_from(s: Seq<char>, i: int) -> Option<VersionModel>
    decreases s.len() - i,
{
    if 0 <= i < s.len() {
        match version_at(s, i) {
            Some(m) => Some(m),
            None => first_version_from(s, i + 1),
        }
    } else {
        None
    }
}

/// The version that a tag denotes: the first match, provided its numbers
/// fit in 32 bits.
pub open spec fn parse_version(s: Seq<char>) -> Option<VersionModel> {
    match first_version_from(s, 0) {
        Some(m) => if fits_u32(m) {
            Some(m)
        } else {
            None
        },
        None => None,
    }
}

/// The canonical text of a version.
pub open spec fn format_version(m: VersionModel) -> Seq<char> {
    let base = decimal_string(m.major) + seq!['.'] + decimal_string(m.minor) + seq!['.']
        + decimal_string(m.patch);
    if m.distance == 0 {
        base
    } else {
        base + seq!['-'] + decimal_string(m.distance) + match m.commitish {
            Some(c) => seq!['-', 'g'] + c,
            None => Seq::<char>::empty(),
        }
    }
}

/// Reads the grammar at position `i`: `None` where it does not match there,
/// `Some(None)` where it matches but a number does not fit in a `u32`.
fn version_at_exec(s: &str, cs: &Vec<char>, i: usize) -> (r: Option<Option<GitDescribeVersion>>)
    requires
        cs@ == s@,
        i < cs@.len(),
    ensures
        r is None <==> version_at(cs@, i as int) is None,
        r matches Some(x) ==> (x is Some <==> fits_u32(version_at(cs@, i as int)->0)),
        r matches Some(Some(v)) ==> v@ == version_at(cs@, i as int)->0,
{
    let (a, fa, major) = scan_digits(cs, i);
    if !(i < a && a < cs.len() && cs[a] == '.') {
        return None;
    }
    let (b, fb, minor) = scan_digits(cs, a + 1);
    if !(a + 1 < b && b < cs.len() && cs[b] == '.') {
        return None;
    }
    let (c, fc, patch) = scan_digits(cs, b + 1);
    if !(b + 1 < c) {
        return None;
    }
    let mut distance: u32 = 0;
    let mut fd: bool = true;
    let mut commitish: Option<String> = None;
    if c < cs.len() && cs[c] == '-' {
        let (d, fdd, dist) = scan_digits(cs, c + 1);
        if c + 1 < d && d < cs.len() - 1 && cs[d] == '-' && cs[d + 1] == 'g' {
            let e = scan_alnum(cs, d + 2);
            if d + 2 < e {
                distance = dist;
                fd = fdd;
                commitish = Some(s.substring_char(d + 2, e).to_owned());
            }
        }
    }
    if fa && fb && fc && fd {
        Some(Some(GitDescribeVersion { major, minor, patch, distance, commitish }))
    } else {
        Some(None)
    }
}

impl GitDescribeVersion {
    /// Parses a tag. The first place where the grammar matches is taken;
    /// what stands before or after it is ignored.
    pub fn from_str(version: &str) -> (r: Result<GitDescribeVersion, Error>)
        ensures
            match r {
                Ok(v) => parse_version(version@) == Some(v@),
                Err(e) => parse_version(version@) is None && e == Error::InvalidVersionString,
            },
    {
        let cs = chars_of(version);
        let mut i: usize = 0;
        while i < cs.len()
            invariant
                cs@ == version@,
                i <= cs@.len(),
                first_version_from(cs@, 0) == first_version_from(cs@, i as int),
            decreases cs@.len() - i,
        {
            match version_at_exec(version, &cs, i) {
                Some(Some(v)) => {
                    return Ok(v);
                },
                Some(None) => {
                    return Err(Error::InvalidVersionString);
                },
                None => {},
            }
            i = i + 1;
        }
        Err(Error::InvalidVersionString)
    }

    pub fn is_release(&self) -> (r: bool)
        ensures
            r == is_release_model(self@),
    {
        self.distance == 0
    }

    /// Whether `self` sorts strictly before `other`.
    pub fn precedes(&self, other: &GitDescribeVersion) -> (r: bool)
        ensures
            r == version_lt(self@, other@),
    {
        if self.major != other.major {
            self.major < other.major
        } else if self.minor != other.minor {
            self.minor < other.minor
        } else if self.patch != other.patch {
            self.patch < other.patch
        } else {
            self.distance < other.distance
        }
    }

    /// The canonical text of the version.
    pub fn to_string(&self) -> (r: String)
        ensures
            r@ == format_version(self@),
    {
        proof {
            reveal_strlit(".");
            reveal_strlit("-");
            reveal_strlit("-g");
        }
        let mut out = String::new();
        push_decimal(&mut out, self.major);
        out.append(".");
        push_decimal(&mut out, self.minor);
        out.append(".");
        push_decimal(&mut out, self.patch);
        if self.distance != 0 {
            out.append("-");
            push_decimal(&mut out, self.distance);
            match &self.commitish {
                Some(c) => {
                    out.append("-g");
                    out.append(c.as_str());
                },
                None => {},
            }
        }
        assert(out@ =~= format_version(self@));
        out
    }
}

/// What a canonical tag holds: numbers that fit in 32 bits, no commit on a
/// release, and a non-empty commit of ASCII letters and digits on a snapshot.
pub open spec fn is_canonical(m: VersionModel) -> bool {
    &&& fits_u32(m)
    &&& m.distance == 0 ==> m.commitish is None
    &&& m.distance > 0 ==> (m.commitish matches Some(c) && c.len() > 0 && forall|j: int|
        0 <= j < c.len() ==> is_alnum(#[trigger] c[j]))
}

/// Any two versions are ordered one way or the other, or take the same place.
pub proof fn lemma_order_total(a: VersionModel, b: VersionModel)
    ensures
        version_lt(a, b) || version_lt(b, a) || same_rank(a, b),
        !(version_lt(a, b) && version_lt(b, a)),
        same_rank(a, b) ==> !version_lt(a, b) && !version_lt(b, a),
{
}

/// The order is transitive.
pub proof fn lemma_order_transitive(a: VersionModel, b: VersionModel, c: VersionModel)
    requires
        version_lt(a, b),
        version_lt(b, c),
    ensures
        version_lt(a, c),
{
}

/// The positions from `lo` to `hi` of `s` hold `d`.
proof fn lemma_slice_holds(s: Seq<char>, lo: int, hi: int, d: Seq<char>)
    requires
        0 <= lo <= hi <= s.len(),
        s.subrange(lo, hi) == d,
    ensures
        forall|j: int| lo <= j < hi ==> s[j] == #[trigger] d[j - lo],
{
    assert forall|j: int| lo <= j < hi implies s[j] == #[trigger] d[j - lo] by {
        assert(s.subrange(lo, hi)[j - lo] == s[j]);
    }
}

/// The digits of `n` at position `lo` of `s`, followed by `stop`, are read
/// back as `n`.
proof fn lemma_read_number(s: Seq<char>, lo: int, n: nat)
    requires
        0 <= lo,
        lo + decimal_string(n).len() <= s.len(),
        s.subrange(lo, lo + decimal_string(n).len()) == decimal_string(n),
        lo + decimal_string(n).len() == s.len() || !is_digit(s[lo + decimal_string(n).len()]),
    ensures
        digits_end(s, lo) == lo + decimal_string(n).len(),
        decimal_value(s.subrange(lo, lo + decimal_string(n).len())) == n,
{
    let d = decimal_string(n);
    lemma_decimal_string_digits(n);
    lemma_slice_holds(s, lo, lo + d.len(), d);
    assert forall|j: int| lo <= j < lo + d.len() implies is_digit(#[trigger] s[j]) by {
        assert(s[j] == d[j - lo]);
    }
    lemma_digits_end(s, lo, lo + d.len());
    lemma_decimal_round_trip(n);
}

/// A canonical tag is read back as the version it was written from, and
/// writing that version out again gives the same text.
pub proof fn lemma_canonical_round_trip(s: Seq<char>, m: VersionModel)
    requires
        is_canonical(m),
        s == format_version(m),
    ensures
        parse_version(s) == Some(m),
        format_version(parse_version(s)->0) == s,
{
    let d1 = decimal_string(m.major);
    let d2 = decimal_string(m.minor);
    let d3 = decimal_string(m.patch);
    let base = d1 + seq!['.'] + d2 + seq!['.'] + d3;
    let a = d1.len() as int;
    let b = a + 1 + d2.len();
    let c = b + 1 + d3.len();
    lemma_decimal_string_digits(m.major);
    lemma_decimal_string_digits(m.minor);
    lemma_decimal_string_digits(m.patch);
    assert(base.len() == c);
    assert(s.subrange(0, c) =~= base);
    assert(s.subrange(0, a) =~= d1);
    assert(s.subrange(a + 1, b) =~= d2);
    assert(s.subrange(b + 1, c) =~= d3);
    assert(s[a] == '.');
    assert(s[b] == '.');
    lemma_read_number(s, 0, m.major);
    lemma_read_number(s, a + 1, m.minor);
    if m.distance == 0 {
        assert(s =~= base);
        lemma_read_number(s, b + 1, m.patch);
        assert(suffix_at(s, c) is None);
    } else {
        let cm = m.commitish->0;
        let d4 = decimal_string(m.distance);
        lemma_decimal_string_digits(m.distance);
        let d = c + 1 + d4.len();
        let e = d + 2 + cm.len();
        assert(s =~= base + seq!['-'] + d4 + (seq!['-', 'g'] + cm));
        assert(s.len() == e);
        assert(s[c] == '-');
        assert(s[d] == '-');
        assert(s[d + 1] == 'g');
        assert(s.subrange(c + 1, d) =~= d4);
        assert(s.subrange(d + 2, e) =~= cm);
        lemma_read_number(s, b + 1, m.patch);
        lemma_read_number(s, c + 1, m.distance);
        lemma_slice_holds(s, d + 2, e, cm);
        assert forall|j: int| d + 2 <= j < e implies is_alnum(#[trigger] s[j]) by {
            assert(s[j] == cm[j - (d + 2)]);
        }
        lemma_alnum_end(s, d + 2, e);
        assert(suffix_at(s, c) == Some((d, e)));
    }
    assert(version_at(s, 0) == Some(m));
}

/// A tag without a digit is no version.
pub proof fn lemma_digit_free_rejected(s: Seq<char>)
    requires
        forall|j: int| 0 <= j < s.len() ==> !is_digit(#[trigger] s[j]),
    ensures
        parse_version(s) is None,
{
    lemma_no_version_from(s, s.len() as int);
    assert(first_version_from(s, s.len() - s.len()) is None);
    assert(s.len() - s.len() == 0);
}

proof fn lemma_no_version_from(s: Seq<char>, i: int)
    requires
        0 <= i <= s.len(),
        forall|j: int| 0 <= j < s.len() ==> !is_digit(#[trigger] s[j]),
    ensures
        forall|k: int| 0 <= k <= i ==> #[trigger] first_version_from(s, s.len() - k) is None,
    decreases i,
{
    if i > 0 {
        lemma_no_version_from(s, i - 1);
        let p = s.len() - i;
        assert(digits_end(s, p) == p);
        assert(version_at(s, p) is None);
        assert(first_version_from(s, p) == first_version_from(s, p + 1));
        assert(first_version_from(s, s.len() - (i - 1)) is None);
    } else {
        assert(first_version_from(s, s.len() as int) is None);
    }
}

} // verus!
