//! Unsigned base-16 parsing of whole strings, as used for the two halves
//! of a record's `start-end` address field.

use vstd::prelude::*;

verus! {

/// The ASCII hexadecimal digit characters accepted in addresses.
pub open spec fn is_hex_digit(c: char) -> bool {
    ('0' <= c && c <= '9') || ('a' <= c && c <= 'f') || ('A' <= c && c <= 'F')
}

/// Numeric value of one hexadecimal digit.
pub open spec fn hex_digit_value(c: char) -> nat {
    if '0' <= c && c <= '9' {
        (c as int - '0' as int) as nat
    } else if 'a' <= c && c <= 'f' {
        (c as int - 'a' as int + 10) as nat
    } else {
        (c as int - 'A' as int + 10) as nat
    }
}

/// Every character is a hexadecimal digit, and there is at least one.
pub open spec fn all_hex_digits(s: Seq<char>) -> bool {
    s.len() > 0 && (forall|i: int| 0 <= i < s.len() ==> is_hex_digit(#[trigger] s[i]))
}

/// The number written by a sequence of hexadecimal digits, most
/// significant digit first.
pub open spec fn hex_value(s: Seq<char>) -> nat
    decreases s.len(),
{
    if s.len() == 0 {
        0
    } else {
        hex_value(s.drop_last()) * 16 + hex_digit_value(s.last())
    }
}

/// The digit part of a number string: what follows an optional leading
/// plus sign, which unsigned base-16 parsing accepts.
pub open spec fn hex_body(s: Seq<char>) -> Seq<char> {
    if s.len() > 0 && s[0] == '+' {
        s.drop_first()
    } else {
        s
    }
}

/// What unsigned 64-bit base-16 parsing yields on a whole string: an
/// optional `+`, then one or more digits, whose value fits in 64 bits;
/// anything else fails.
pub open spec fn spec_parse_hex_u64(s: Seq<char>) -> Option<u64> {
    if all_hex_digits(hex_body(s)) && hex_value(hex_body(s)) <= u64::MAX {
        Some(hex_value(hex_body(s)) as u64)
    } else {
        None
    }
}

/// A longer digit string never writes a smaller number than one of its
/// prefixes.
proof fn lemma_hex_value_prefix_le(s: Seq<char>, k: int)
    requires
        0 <= k <= s.len(),
    ensures
        hex_value(s.take(k)) <= hex_value(s),
    decreases s.len() - k,
{
    if k < s.len() {
        lemma_hex_value_prefix_le(s.drop_last(), k);
        assert(s.drop_last().take(k) =~= s.take(k));
        assert(hex_value(s.drop_last()) * 16 >= hex_value(s.drop_last()) * 1);
    } else {
        assert(s.take(k) =~= s);
    }
}

/// The value of one hexadecimal digit character, or nothing for any
/// other character.
fn hex_digit_of(c: char) -> (r: Option<u8>)
    ensures
        r is Some <==> is_hex_digit(c),
        r is Some ==> r.unwrap() as nat == hex_digit_value(c),
{
    if '0' <= c && c <= '9' {
        Some((c as u32 - '0' as u32) as u8)
    } else if 'a' <= c && c <= 'f' {
        Some((c as u32 - 'a' as u32 + 10) as u8)
    } else if 'A' <= c && c <= 'F' {
        Some((c as u32 - 'A' as u32 + 10) as u8)
    } else {
        None
    }
}

/// Parses a whole string as an unsigned 64-bit base-16 number: an
/// optional leading `+`, then one or more hexadecimal digits.  Fails on
/// an empty digit part, on any other character, and on a value that
/// does not fit in 64 bits.
pub fn parse_hex_str(s: &str) -> (r: Option<u64>)
    ensures
        r == spec_parse_hex_u64(s@),
{
    let n = s.unicode_len();
    let start: usize = if n > 0 && s.get_char(0) == '+' {
        1
    } else {
        0
    };
    assert(hex_body(s@) =~= s@.skip(start as int));
    if start >= n {
        assert(hex_body(s@).len() == 0);
        return None;
    }
    let mut i: usize = start;
    let mut acc: u64 = 0;
    while i < n
        invariant
            start <= i <= n,
            n == s@.len(),
            hex_body(s@) =~= s@.skip(start as int),
            forall|j: int| start <= j < i ==> is_hex_digit(#[trigger] s@[j]),
            acc as nat == hex_value(s@.subrange(start as int, i as int)),
        decreases n - i,
    {
        let c = s.get_char(i);
        let ghost prefix = s@.subrange(start as int, i as int);
        let ghost extended = s@.subrange(start as int, i as int + 1);
        assert(extended.drop_last() =~= prefix);
        assert(extended.last() == s@[i as int]);
        match hex_digit_of(c) {
            None => {
                assert(hex_body(s@)[i - start] == s@[i as int]);
                assert(!all_hex_digits(hex_body(s@)));
                return None;
            },
            Some(d) => {
                if acc > (u64::MAX - d as u64) / 16 {
                    assert(acc as nat * 16 + d as nat > u64::MAX) by (nonlinear_arith)
                        requires
                            acc as nat > (u64::MAX - d as nat) / 16,
                            d as nat <= u64::MAX,
                    ;
                    assert(hex_value(extended) > u64::MAX);
                    proof {
                        lemma_hex_value_prefix_le(hex_body(s@), i + 1 - start as int);
                        assert(hex_body(s@).take(i + 1 - start as int) =~= extended);
                    }
                    assert(hex_value(hex_body(s@)) > u64::MAX);
                    return None;
                }
                assert(acc as nat * 16 + d as nat <= u64::MAX) by (nonlinear_arith)
                    requires
                        acc as nat <= (u64::MAX - d as nat) / 16,
                        d as nat <= u64::MAX,
                ;
                acc = acc * 16 + d as u64;
            },
        }
        i = i + 1;
    }
    assert(s@.subrange(start as int, n as int) =~= hex_body(s@));
    Some(acc)
}

} // verus!
