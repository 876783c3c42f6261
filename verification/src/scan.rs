//! Low-level text scanning shared by the counter-file line parsers:
//! whitespace runs, digit runs, and the decimal value of a digit run.

use vstd::prelude::*;

verus! {

/// Whitespace as the counter files use it.
pub open spec fn is_ws(c: char) -> bool {
    c == ' ' || c == '\t'
}

pub open spec fn is_digit(c: char) -> bool {
    '0' <= c && c <= '9'
}

/// The numeric value of one decimal digit.
pub open spec fn digit_val(c: char) -> int {
    c as int - '0' as int
}

/// The index of the first non-whitespace character at or after `from`, or
/// `s`'s length if the rest is all whitespace.
pub open spec fn skip_ws(s: Seq<char>, from: int) -> int
    decreases s.len() - from when 0 <= from <= s.len()
{
    if from >= s.len() {
        s.len() as int
    } else if is_ws(s[from]) {
        skip_ws(s, from + 1)
    } else {
        from
    }
}

/// The index of the first non-digit character at or after `from`, or `s`'s
/// length if the rest is all digits.
pub open spec fn end_digits(s: Seq<char>, from: int) -> int
    decreases s.len() - from when 0 <= from <= s.len()
{
    if from >= s.len() {
        s.len() as int
    } else if is_digit(s[from]) {
        end_digits(s, from + 1)
    } else {
        from
    }
}

/// The value of a run of decimal digits, most significant first.
pub open spec fn dec_value(s: Seq<char>) -> int
    decreases s.len(),
{
    if s.len() == 0 {
        0
    } else {
        10 * dec_value(s.drop_last()) + digit_val(s.last())
    }
}

pub proof fn lemma_skip_ws(s: Seq<char>, from: int)
    requires
        0 <= from <= s.len(),
    ensures
        from <= skip_ws(s, from) <= s.len(),
        forall|k: int| from <= k < skip_ws(s, from) ==> is_ws(s[k]),
        skip_ws(s, from) < s.len() ==> !is_ws(s[skip_ws(s, from)]),
    decreases s.len() - from,
{
    if from < s.len() && is_ws(s[from]) {
        lemma_skip_ws(s, from + 1);
    }
}

pub proof fn lemma_end_digits(s: Seq<char>, from: int)
    requires
        0 <= from <= s.len(),
    ensures
        from <= end_digits(s, from) <= s.len(),
        forall|k: int| from <= k < end_digits(s, from) ==> is_digit(s[k]),
        end_digits(s, from) < s.len() ==> !is_digit(s[end_digits(s, from)]),
    decreases s.len() - from,
{
    if from < s.len() && is_digit(s[from]) {
        lemma_end_digits(s, from + 1);
    }
}

/// The digits of a nonempty run are all at least zero, so its value is too.
pub proof fn lemma_dec_value_nonneg(s: Seq<char>)
    requires
        forall|k: int| 0 <= k < s.len() ==> is_digit(s[k]),
    ensures
        dec_value(s) >= 0,
    decreases s.len(),
{
    if s.len() > 0 {
        lemma_dec_value_nonneg(s.drop_last());
    }
}

/// The index of the first non-whitespace character of `s` at or after
/// `from`, as an executable scan.
pub fn ws_end(s: &str, from: usize, n: usize) -> (e: usize)
    requires
        n == s@.len(),
        from <= n,
    ensures
        from <= e <= n,
        e == skip_ws(s@, from as int),
        forall|k: int| from <= k < e ==> is_ws(s@[k]),
        e < n ==> !is_ws(s@[e as int]),
{
    let mut e: usize = from;
    while e < n
        invariant
            n == s@.len(),
            from <= e <= n,
            forall|k: int| from <= k < e ==> is_ws(s@[k]),
        decreases n - e,
    {
        let c = s.get_char(e);
        if !(c == ' ' || c == '\t') {
            proof {
                lemma_skip_ws_pin(s@, from as int, e as int);
            }
            return e;
        }
        e = e + 1;
    }
    proof {
        lemma_skip_ws_pin(s@, from as int, e as int);
    }
    e
}

/// `skip_ws` picked out by its characteristic properties.
proof fn lemma_skip_ws_pin(s: Seq<char>, from: int, e: int)
    requires
        0 <= from <= e <= s.len(),
        forall|k: int| from <= k < e ==> is_ws(s[k]),
        e < s.len() ==> !is_ws(s[e]),
    ensures
        skip_ws(s, from) == e,
    decreases e - from,
{
    if from < e {
        lemma_skip_ws_pin(s, from + 1, e);
    }
}

/// The index of the first non-digit character of `s` at or after `from`,
/// as an executable scan.
pub fn digits_end(s: &str, from: usize, n: usize) -> (e: usize)
    requires
        n == s@.len(),
        from <= n,
    ensures
        from <= e <= n,
        e == end_digits(s@, from as int),
        forall|k: int| from <= k < e ==> is_digit(s@[k]),
        e < n ==> !is_digit(s@[e as int]),
{
    let mut e: usize = from;
    while e < n
        invariant
            n == s@.len(),
            from <= e <= n,
            forall|k: int| from <= k < e ==> is_digit(s@[k]),
        decreases n - e,
    {
        let c = s.get_char(e);
        if !('0' <= c && c <= '9') {
            proof {
                lemma_end_digits_pin(s@, from as int, e as int);
            }
            return e;
        }
        e = e + 1;
    }
    proof {
        lemma_end_digits_pin(s@, from as int, e as int);
    }
    e
}

/// `end_digits` picked out by its characteristic properties.
proof fn lemma_end_digits_pin(s: Seq<char>, from: int, e: int)
    requires
        0 <= from <= e <= s.len(),
        forall|k: int| from <= k < e ==> is_digit(s[k]),
        e < s.len() ==> !is_digit(s[e]),
    ensures
        end_digits(s, from) == e,
    decreases e - from,
{
    if from < e {
        lemma_end_digits_pin(s, from + 1, e);
    }
}

/// Character-for-character string equality.
pub fn str_eq(a: &str, b: &str) -> (r: bool)
    ensures
        r == (a@ == b@),
{
    let na: usize = a.unicode_len();
    let nb: usize = b.unicode_len();
    if na != nb {
        proof {
            assert(a@ != b@) by {
                assert(a@.len() != b@.len());
            }
        }
        return false;
    }
    let mut i: usize = 0;
    while i < na
        invariant
            na == a@.len(),
            na == b@.len(),
            i <= na,
            forall|t: int| 0 <= t < i ==> a@[t] == b@[t],
        decreases na - i,
    {
        if a.get_char(i) != b.get_char(i) {
            return false;
        }
        i = i + 1;
    }
    proof {
        assert(a@ =~= b@);
    }
    true
}

/// The value of the digit run `[from, e)` of `s`, or `None` if it exceeds
/// `u64::MAX`.
pub fn digits_value(s: &str, from: usize, e: usize, n: usize) -> (r: Option<u64>)
    requires
        n == s@.len(),
        from <= e <= n,
        forall|k: int| from <= k < e ==> is_digit(s@[k]),
    ensures
        match r {
            Some(x) => x == dec_value(s@.subrange(from as int, e as int)),
            None => dec_value(s@.subrange(from as int, e as int)) > u64::MAX,
        },
{
    let mut acc: u64 = 0;
    let mut fits: bool = true;
    let mut i: usize = from;
    proof {
        assert(s@.subrange(from as int, from as int) =~= Seq::<char>::empty());
    }
    while i < e
        invariant
            n == s@.len(),
            from <= i <= e <= n,
            forall|k: int| from <= k < e ==> is_digit(s@[k]),
            fits ==> acc == dec_value(s@.subrange(from as int, i as int)),
            !fits ==> dec_value(s@.subrange(from as int, i as int)) > u64::MAX,
        decreases e - i,
    {
        let c = s.get_char(i);
        let d: u64 = (c as u32 as u64) - 48;
        proof {
            assert(is_digit(s@[i as int]));
            assert(d == digit_val(s@[i as int]));
            let run = s@.subrange(from as int, i + 1);
            assert(run.drop_last() =~= s@.subrange(from as int, i as int));
            assert(run.last() == s@[i as int]);
        }
        if fits {
            if acc <= (u64::MAX - d) / 10 {
                acc = acc * 10 + d;
            } else {
                fits = false;
            }
        }
        i = i + 1;
    }
    if fits {
        Some(acc)
    } else {
        None
    }
}

} // verus!
