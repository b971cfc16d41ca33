//! Character classes, runs of characters and decimal numbers, shared by the
//! two grammars of the library.
use vstd::prelude::*;

verus! {

pub open spec fn is_digit(c: char) -> bool {
    '0' <= c && c <= '9'
}

/// Letters and digits of ASCII.
pub open spec fn is_alnum(c: char) -> bool {
    is_digit(c) || ('a' <= c && c <= 'z') || ('A' <= c && c <= 'Z')
}

/// End of the longest run of digits in `s` that starts at `i`.
pub open spec fn digits_end(s: Seq<char>, i: int) -> int
    decreases s.len() - i,
{
    if 0 <= i < s.len() && is_digit(s[i]) {
        digits_end(s, i + 1)
    } else {
        i
    }
}

/// End of the longest run of ASCII letters and digits in `s` that starts at `i`.
pub open spec fn alnum_end(s: Seq<char>, i: int) -> int
    decreases s.len() - i,
{
    if 0 <= i < s.len() && is_alnum(s[i]) {
        alnum_end(s, i + 1)
    } else {
        i
    }
}

pub open spec fn digit_value(c: char) -> nat {
    (c as int - '0' as int) as nat
}

pub open spec fn digit_char(d: nat) -> char {
    (d + '0' as nat) as char
}

/// The number that a sequence of decimal digits writes.
pub open spec fn decimal_value(d: Seq<char>) -> nat
    decreases d.len(),
{
    if d.len() == 0 {
        0
    } else {
        decimal_value(d.drop_last()) * 10 + digit_value(d.last())
    }
}

/// The decimal digits of `n`, without leading zeros.
pub open spec fn decimal_string(n: nat) -> Seq<char>
    decreases n,
{
    if n < 10 {
        seq![digit_char(n)]
    } else {
        decimal_string(n / 10).push(digit_char(n % 10))
    }
}

pub proof fn lemma_digits_end(s: Seq<char>, i: int, k: int)
    requires
        0 <= i <= k <= s.len(),
        forall|j: int| i <= j < k ==> is_digit(#[trigger] s[j]),
        k == s.len() || !is_digit(s[k]),
    ensures
        digits_end(s, i) == k,
    decreases k - i,
{
    if i < k {
        lemma_digits_end(s, i + 1, k);
    }
}

pub proof fn lemma_alnum_end(s: Seq<char>, i: int, k: int)
    requires
        0 <= i <= k <= s.len(),
        forall|j: int| i <= j < k ==> is_alnum(#[trigger] s[j]),
        k == s.len() || !is_alnum(s[k]),
    ensures
        alnum_end(s, i) == k,
    decreases k - i,
{
    if i < k {
        lemma_alnum_end(s, i + 1, k);
    }
}

/// The digits of `n` are digits, at least one of them.
pub proof fn lemma_decimal_string_digits(n: nat)
    ensures
        decimal_string(n).len() >= 1,
        forall|j: int| 0 <= j < decimal_string(n).len() ==> is_digit(#[trigger] decimal_string(n)[j]),
    decreases n,
{
    if n >= 10 {
        lemma_decimal_string_digits(n / 10);
    }
}

/// Reading the digits of `n` gives `n` back.
pub proof fn lemma_decimal_round_trip(n: nat)
    ensures
        decimal_value(decimal_string(n)) == n,
    decreases n,
{
    if n >= 10 {
        lemma_decimal_round_trip(n / 10);
        assert(decimal_string(n).drop_last() =~= decimal_string(n / 10));
        assert(digit_value(digit_char(n % 10)) == n % 10);
        assert((n / 10) * 10 + n % 10 == n);
        assert(decimal_string(n).last() == digit_char(n % 10));
    } else {
        assert(decimal_string(n).drop_last() =~= Seq::<char>::empty());
        assert(decimal_value(Seq::<char>::empty()) == 0);
        assert(digit_value(digit_char(n)) == n);
    }
}

/// The characters of `s`, one by one.
pub fn chars_of(s: &str) -> (r: Vec<char>)
    ensures
        r@ == s@,
{
    let mut r: Vec<char> = Vec::new();
    for c in it: s.chars()
        invariant
            r.len() == it.index(),
            forall|i: int| 0 <= i < r.len() ==> r@[i] == it.seq()[i],
    {
        r.push(c);
    }
    assert(r@ =~= s@);
    r
}

/// Scans the run of digits that starts at `i`: its end, whether the number
/// it writes fits in a `u32`, and that number where it does.
pub fn scan_digits(cs: &Vec<char>, i: usize) -> (r: (usize, bool, u32))
    requires
        i <= cs@.len(),
    ensures
        i <= r.0 <= cs@.len(),
        r.0 == digits_end(cs@, i as int),
        r.1 <==> decimal_value(cs@.subrange(i as int, r.0 as int)) <= u32::MAX,
        r.1 ==> r.2 == decimal_value(cs@.subrange(i as int, r.0 as int)),
{
    let mut j: usize = i;
    let mut fits: bool = true;
    let mut acc: u64 = 0;
    while j < cs.len() && '0' <= cs[j] && cs[j] <= '9'
        invariant
            i <= j <= cs@.len(),
            digits_end(cs@, i as int) == digits_end(cs@, j as int),
            fits <==> decimal_value(cs@.subrange(i as int, j as int)) <= u32::MAX,
            fits ==> acc == decimal_value(cs@.subrange(i as int, j as int)),
        decreases cs@.len() - j,
    {
        let ghost before = cs@.subrange(i as int, j as int);
        let d = (cs[j] as u32 - '0' as u32) as u64;
        assert(cs@.subrange(i as int, j + 1).drop_last() =~= before);
        assert(decimal_value(cs@.subrange(i as int, j + 1)) == decimal_value(before) * 10 + d);
        if fits {
            acc = acc * 10 + d;
            if acc > u32::MAX as u64 {
                fits = false;
            }
        }
        j = j + 1;
    }
    (j, fits, acc as u32)
}

/// End of the run of ASCII letters and digits that starts at `i`.
pub fn scan_alnum(cs: &Vec<char>, i: usize) -> (r: usize)
    requires
        i <= cs@.len(),
    ensures
        i <= r <= cs@.len(),
        r == alnum_end(cs@, i as int),
{
    let mut j: usize = i;
    while j < cs.len() && (('0' <= cs[j] && cs[j] <= '9') || ('a' <= cs[j] && cs[j] <= 'z') || (
    'A' <= cs[j] && cs[j] <= 'Z'))
        invariant
            i <= j <= cs@.len(),
            alnum_end(cs@, i as int) == alnum_end(cs@, j as int),
        decreases cs@.len() - j,
    {
        j = j + 1;
    }
    j
}

/// The digit `d`, written out.
fn digit_str(d: u32) -> (r: &'static str)
    requires
        d < 10,
    ensures
        r@ == seq![digit_char(d as nat)],
{
    let r = match d {
        0 => "0",
        1 => "1",
        2 => "2",
        3 => "3",
        4 => "4",
        5 => "5",
        6 => "6",
        7 => "7",
        8 => "8",
        _ => "9",
    };
    proof {
        reveal_strlit("0");
        reveal_strlit("1");
        reveal_strlit("2");
        reveal_strlit("3");
        reveal_strlit("4");
        reveal_strlit("5");
        reveal_strlit("6");
        reveal_strlit("7");
        reveal_strlit("8");
        reveal_strlit("9");
    }
    assert(r@ =~= seq![digit_char(d as nat)]);
    r
}

/// Appends the decimal digits of `n` to `out`.
pub fn push_decimal(out: &mut String, n: u32)
    ensures
        final(out)@ == old(out)@ + decimal_string(n as nat),
    decreases n,
{
    if n >= 10 {
        push_decimal(out, n / 10);
    }
    out.append(digit_str(n % 10));
    assert(final(out)@ =~= old(out)@ + decimal_string(n as nat));
}

} // verus!
