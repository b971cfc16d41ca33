//! Registry image references of the form
//! `<registry-id>.dkr.ecr.<region>.amazonaws.com/<repository>`.
use vstd::prelude::*;

use crate::text::{chars_of, digits_end, scan_digits};

verus! {

/// Characters of a region name: lower-case ASCII letters, digits and `-`.
pub open spec fn is_region_char(c: char) -> bool {
    ('a' <= c && c <= 'z') || ('0' <= c && c <= '9') || c == '-'
}

/// End of the longest run of region characters that starts at `i`.
pub open spec fn region_end(s: Seq<char>, i: int) -> int
    decreases s.len() - i,
{
    if 0 <= i < s.len() && is_region_char(s[i]) {
        region_end(s, i + 1)
    } else {
        i
    }
}

/// End of the line that starts at `i`: the next `'\n'`, or the end of `s`.
pub open spec fn line_end(s: Seq<char>, i: int) -> int
    decreases s.len() - i,
{
    if 0 <= i < s.len() && s[i] != '\n' {
        line_end(s, i + 1)
    } else {
        i
    }
}

/// `lit` stands in `s` at position `k`.
pub open spec fn has_literal(s: Seq<char>, k: int, lit: Seq<char>) -> bool {
    0 <= k && k + lit.len() <= s.len() && s.subrange(k, k + lit.len()) == lit
}

/// The registry id and the repository path of a reference that starts at
/// position `i` of `s`, if the grammar matches there. The registry id is a
/// run of digits, the region a run of region characters, and the repository
/// the rest of the line, which must not be empty.
pub open spec fn reference_at(s: Seq<char>, i: int) -> Option<(Seq<char>, Seq<char>)> {
    let a = digits_end(s, i);
    let b = a + ".dkr.ecr."@.len();
    let c = region_end(s, b);
    let d = c + ".amazonaws.com/"@.len();
    let e = line_end(s, d);
    if 0 <= i && i < a && has_literal(s, a, ".dkr.ecr."@) && b < c && has_literal(
        s,
        c,
        ".amazonaws.com/"@,
    ) && d < e {
        Some((s.subrange(i, a), s.subrange(d, e)))
    } else {
        None
    }
}

/// The reference read at the first position from `i` on where the grammar
/// matches.
pub open spec fn first_reference_from(s: Seq<char>, i: int) -> Option<(Seq<char>, Seq<char>)>
    decreases s.len() - i,
{
    if 0 <= i < s.len() {
        match reference_at(s, i) {
            Some(p) => Some(p),
            None => first_reference_from(s, i + 1),
        }
    } else {
        None
    }
}

fn scan_region(cs: &Vec<char>, i: usize) -> (r: usize)
    requires
        i <= cs@.len(),
    ensures
        i <= r <= cs@.len(),
        r == region_end(cs@, i as int),
{
    let mut j: usize = i;
    while j < cs.len() && (('a' <= cs[j] && cs[j] <= 'z') || ('0' <= cs[j] && cs[j] <= '9')
        || cs[j] == '-')
        invariant
            i <= j <= cs@.len(),
            region_end(cs@, i as int) == region_end(cs@, j as int),
        decreases cs@.len() - j,
    {
        j = j + 1;
    }
    j
}

fn scan_line(cs: &Vec<char>, i: usize) -> (r: usize)
    requires
        i <= cs@.len(),
    ensures
        i <= r <= cs@.len(),
        r == line_end(cs@, i as int),
{
    let mut j: usize = i;
    while j < cs.len() && cs[j] != '\n'
        invariant
            i <= j <= cs@.len(),
            line_end(cs@, i as int) == line_end(cs@, j as int),
        decreases cs@.len() - j,
    {
        j = j + 1;
    }
    j
}

fn literal_at(cs: &Vec<char>, k: usize, lit: &str) -> (r: bool)
    requires
        k <= cs@.len(),
    ensures
        r == has_literal(cs@, k as int, lit@),
        r ==> k + lit@.len() <= cs.len(),
{
    let n = lit.unicode_len();
    if n > cs.len() - k {
        return false;
    }
    let mut j: usize = 0;
    while j < n
        invariant
            n == lit@.len(),
            k + n <= cs.len(),
            j <= n,
            cs@.subrange(k as int, k + j) == lit@.subrange(0, j as int),
        decreases n - j,
    {
        if cs[k + j] != lit.get_char(j) {
            assert(cs@.subrange(k as int, k + n)[j as int] != lit@[j as int]);
            return false;
        }
        j = j + 1;
        assert(cs@.subrange(k as int, k + j) =~= lit@.subrange(0, j as int));
    }
    assert(lit@.subrange(0, n as int) =~= lit@);
    true
}

fn reference_at_exec(image: &str, cs: &Vec<char>, i: usize) -> (r: Option<(String, String)>)
    requires
        cs@ == image@,
        i < cs@.len(),
    ensures
        match r {
            Some((g, p)) => reference_at(cs@, i as int) == Some((g@, p@)),
            None => reference_at(cs@, i as int) is None,
        },
{
    let infix = ".dkr.ecr.";
    let suffix = ".amazonaws.com/";
    let (a, _, _) = scan_digits(cs, i);
    if !(i < a && literal_at(cs, a, infix)) {
        return None;
    }
    let b = a + infix.unicode_len();
    let c = scan_region(cs, b);
    if !(b < c && literal_at(cs, c, suffix)) {
        return None;
    }
    let d = c + suffix.unicode_len();
    let e = scan_line(cs, d);
    if !(d < e) {
        return None;
    }
    let registry = image.substring_char(i, a).to_owned();
    let repository = image.substring_char(d, e).to_owned();
    Some((registry, repository))
}

/// Splits a registry image reference into its registry id and repository
/// path, or `None` where the string holds no such reference. The first
/// place where the grammar matches is taken.
pub fn extract(image: &str) -> (r: Option<(String, String)>)
    ensures
        match r {
            Some((g, p)) => first_reference_from(image@, 0) == Some((g@, p@)),
            None => first_reference_from(image@, 0) is None,
        },
{
    let cs = chars_of(image);
    let mut i: usize = 0;
    while i < cs.len()
        invariant
            cs@ == image@,
            i <= cs@.len(),
            first_reference_from(cs@, 0) == first_reference_from(cs@, i as int),
        decreases cs@.len() - i,
    {
        let found = reference_at_exec(image, &cs, i);
        if found.is_some() {
            return found;
        }
        i = i + 1;
    }
    None
}

} // verus!
