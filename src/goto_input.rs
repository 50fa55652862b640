//! Reading the text typed at the "go to" prompt: a 1-based position,
//! counted from the end of the list when the text starts with `-`.
use vstd::prelude::*;
use vstd::string::StringSliceAdditionalSpecFns;

verus! {

/// An ASCII decimal digit.
pub open spec fn is_digit(b: u8) -> bool {
    48 <= b <= 57
}

/// Every byte of `s` is a decimal digit.
pub open spec fn all_digits(s: Seq<u8>) -> bool {
    forall|i: int| 0 <= i < s.len() ==> is_digit(#[trigger] s[i])
}

/// The value of a run of decimal digits.
pub open spec fn decimal(s: Seq<u8>) -> nat
    decreases s.len(),
{
    if s.len() == 0 {
        0
    } else {
        decimal(s.drop_last()) * 10 + (s.last() - 48) as nat
    }
}

/// The unsigned number written in `s`: an optional `+` followed by one or
/// more decimal digits, whose value fits in a `usize`.
pub open spec fn parse_number(s: Seq<u8>) -> Option<usize> {
    let body = if s.len() > 0 && s[0] == 43 { s.drop_first() } else { s };
    if body.len() > 0 && all_digits(body) && decimal(body) <= usize::MAX {
        Some(decimal(body) as usize)
    } else {
        None
    }
}

/// What a "go to" text asks for: a number, counted from the end of the
/// list when the text starts with `-` (the number then follows it).
pub open spec fn goto_request(s: Seq<u8>) -> Option<(usize, bool)> {
    if s.len() > 0 && s[0] == 45 {
        match parse_number(s.drop_first()) {
            Some(n) => Some((n, true)),
            None => None,
        }
    } else {
        match parse_number(s) {
            Some(n) => Some((n, false)),
            None => None,
        }
    }
}

/// Appending digits never makes a number smaller.
proof fn lemma_decimal_prefix(s: Seq<u8>, k: int)
    requires
        all_digits(s),
        0 <= k <= s.len(),
    ensures
        decimal(s.take(k)) <= decimal(s),
    decreases s.len(),
{
    if k < s.len() {
        let t = s.drop_last();
        assert(all_digits(t));
        assert(t.take(k) =~= s.take(k));
        lemma_decimal_prefix(t, k);
    } else {
        assert(s.take(k) =~= s);
    }
}

/// The number written in `v`, as `usize::from_str` reads it.
fn parse_number_bytes(v: &Vec<u8>) -> (r: Option<usize>)
    ensures
        r == parse_number(v@),
{
    let len = v.len();
    let start: usize = if len > 0 && v[0] == 43 { 1 } else { 0 };
    let ghost body = if v@.len() > 0 && v@[0] == 43 { v@.drop_first() } else { v@ };
    assert(body =~= v@.subrange(start as int, len as int));
    if start == len {
        return None;
    }
    let mut acc: usize = 0;
    let mut j: usize = start;
    while j < len
        invariant
            start <= j <= len,
            len == v@.len(),
            body == (if v@.len() > 0 && v@[0] == 43 { v@.drop_first() } else { v@ }),
            body == v@.subrange(start as int, len as int),
            all_digits(body.take(j - start)),
            acc == decimal(body.take(j - start)),
        decreases len - j,
    {
        let b = v[j];
        if b < 48 || b > 57 {
            assert(!is_digit(body[j - start]));
            return None;
        }
        let d = (b - 48) as usize;
        let ghost next = body.take(j - start + 1);
        assert(next.drop_last() =~= body.take(j - start));
        assert(decimal(next) == acc * 10 + d);
        if acc > (usize::MAX - d) / 10 {
            proof {
                if all_digits(body) {
                    lemma_decimal_prefix(body, j - start + 1);
                }
            }
            return None;
        }
        acc = acc * 10 + d;
        j = j + 1;
        assert(all_digits(body.take(j - start)));
    }
    assert(body.take(j - start) =~= body);
    Some(acc)
}

/// Reads a "go to" text: a number, counted from the end when the text
/// starts with `-`; `None` when it is no such number.
pub fn parse_goto(text: &str) -> (r: Option<(usize, bool)>)
    ensures
        r == goto_request(text.spec_bytes()),
{
    let bytes = text.as_bytes();
    let ghost s = text.spec_bytes();
    let n = bytes.len();
    let from_end = n > 0 && bytes[0] == 45;
    let start: usize = if from_end { 1 } else { 0 };
    let mut rest: Vec<u8> = Vec::new();
    let mut j: usize = start;
    while j < n
        invariant
            start <= j <= n,
            n == s.len(),
            bytes@ == s,
            rest@ == s.subrange(start as int, j as int),
        decreases n - j,
    {
        rest.push(bytes[j]);
        j = j + 1;
        assert(rest@ =~= s.subrange(start as int, j as int));
    }
    proof {
        if from_end {
            assert(rest@ =~= s.drop_first());
        } else {
            assert(rest@ =~= s);
        }
    }
    match parse_number_bytes(&rest) {
        Some(v) => Some((v, from_end)),
        None => None,
    }
}

} // verus!
