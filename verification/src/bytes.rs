//! Byte-level helpers shared by the record parser, the keyword matcher and
//! the catalog indices: ASCII classification and lowercasing, slice equality,
//! decimal parsing and splitting a buffer on a separator byte.

use vstd::prelude::*;

verus! {

/// The tab byte that separates fields within one dump line.
pub const TAB: u8 = 9;

/// The line-feed byte that terminates dump lines.
pub const LF: u8 = 10;

/// The comma byte that separates genre tokens within the genre field.
pub const COMMA: u8 = 44;

pub open spec fn is_ascii_digit(b: u8) -> bool {
    48 <= b <= 57
}

pub open spec fn is_ascii_upper(b: u8) -> bool {
    65 <= b <= 90
}

pub open spec fn is_ascii_lower(b: u8) -> bool {
    97 <= b <= 122
}

/// A byte counts as alphanumeric for tokenization: an ASCII letter or digit.
pub open spec fn is_alnum(b: u8) -> bool {
    is_ascii_digit(b) || is_ascii_upper(b) || is_ascii_lower(b)
}

/// ASCII lowercasing of one byte; other bytes pass through unchanged.
pub open spec fn lower_byte(b: u8) -> u8 {
    if is_ascii_upper(b) {
        (b + 32) as u8
    } else {
        b
    }
}

/// ASCII lowercasing of a whole byte sequence.
pub open spec fn lower(s: Seq<u8>) -> Seq<u8> {
    s.map_values(|b: u8| lower_byte(b))
}

/// Executable ASCII lowercasing.
pub fn to_lowercase(s: &[u8]) -> (r: Vec<u8>)
    ensures
        r@ == lower(s@),
{
    let mut r: Vec<u8> = Vec::new();
    let mut i: usize = 0;
    while i < s.len()
        invariant
            i <= s.len(),
            r@ == lower(s@.take(i as int)),
        decreases s.len() - i,
    {
        let b = s[i];
        if 65 <= b && b <= 90 {
            r.push(b + 32);
        } else {
            r.push(b);
        }
        proof {
            assert(s@.take(i + 1 as int).map_values(|x: u8| lower_byte(x)) =~= s@.take(
                i as int,
            ).map_values(|x: u8| lower_byte(x)).push(lower_byte(s@[i as int])));
        }
        i = i + 1;
    }
    proof {
        assert(s@.take(s@.len() as int) =~= s@);
    }
    r
}

/// Byte-for-byte equality of two slices.
pub fn bytes_eq(a: &[u8], b: &[u8]) -> (r: bool)
    ensures
        r == (a@ == b@),
{
    if a.len() != b.len() {
        return false;
    }
    let mut i: usize = 0;
    while i < a.len()
        invariant
            i <= a.len(),
            a.len() == b.len(),
            forall|j: int| 0 <= j < i ==> a@[j] == b@[j],
        decreases a.len() - i,
    {
        if a[i] != b[i] {
            return false;
        }
        i = i + 1;
    }
    proof {
        assert(a@ =~= b@);
    }
    true
}

/// An owned copy of a byte vector, with the copy's contents known exactly.
pub fn copy_bytes(v: &Vec<u8>) -> (r: Vec<u8>)
    ensures
        r@ == v@,
{
    let mut r: Vec<u8> = Vec::new();
    let mut i: usize = 0;
    while i < v.len()
        invariant
            i <= v.len(),
            r@ == v@.take(i as int),
        decreases v.len() - i,
    {
        r.push(v[i]);
        proof {
            assert(v@.take(i + 1 as int) =~= v@.take(i as int).push(v@[i as int]));
        }
        i = i + 1;
    }
    proof {
        assert(v@.take(v@.len() as int) =~= v@);
    }
    r
}

/// The value of a decimal digit string, most significant digit first.
/// Non-digit bytes never reach this function in a proved context.
pub open spec fn digits_val(s: Seq<u8>) -> nat
    decreases s.len(),
{
    if s.len() == 0 {
        0
    } else {
        digits_val(s.drop_last()) * 10 + (s.last() - 48) as nat
    }
}

/// Every byte of `s` is a decimal digit.
pub open spec fn all_digits(s: Seq<u8>) -> bool {
    forall|i: int| 0 <= i < s.len() ==> is_ascii_digit(s[i])
}

/// A field parses as a `u16` exactly when it is a nonempty digit string whose
/// value fits; leading zeros are accepted.
pub open spec fn parses_as_u16(s: Seq<u8>) -> bool {
    s.len() > 0 && all_digits(s) && digits_val(s) <= u16::MAX
}

/// Decimal parsing into `u16`: `Some` exactly on nonempty all-digit input
/// whose value fits, and then the value is the decimal value of the digits.
pub fn parse_u16(s: &[u8]) -> (r: Option<u16>)
    ensures
        r is Some <==> parses_as_u16(s@),
        r is Some ==> r->0 == digits_val(s@),
{
    if s.len() == 0 {
        return None;
    }
    let mut acc: u32 = 0;
    let mut over: bool = false;
    let mut i: usize = 0;
    while i < s.len()
        invariant
            i <= s.len(),
            all_digits(s@.take(i as int)),
            !over ==> acc == digits_val(s@.take(i as int)) && acc <= u16::MAX,
            over ==> digits_val(s@.take(i as int)) > u16::MAX,
        decreases s.len() - i,
    {
        let b = s[i];
        if b < 48 || b > 57 {
            return None;
        }
        proof {
            assert(s@.take(i + 1 as int).drop_last() =~= s@.take(i as int));
        }
        if !over {
            let v: u32 = acc * 10 + (b - 48) as u32;
            if v > 65535 {
                over = true;
            } else {
                acc = v;
            }
        }
        i = i + 1;
    }
    proof {
        assert(s@.take(s@.len() as int) =~= s@);
    }
    if over {
        None
    } else {
        Some(acc as u16)
    }
}

/// A field parses as a `u64` exactly when it is a nonempty digit string whose
/// value fits; leading zeros are accepted.
pub open spec fn parses_as_u64(s: Seq<u8>) -> bool {
    s.len() > 0 && all_digits(s) && digits_val(s) <= u64::MAX
}

/// Decimal parsing into `u64`, with the same contract shape as [`parse_u16`].
pub fn parse_u64(s: &[u8]) -> (r: Option<u64>)
    ensures
        r is Some <==> parses_as_u64(s@),
        r is Some ==> r->0 == digits_val(s@),
{
    if s.len() == 0 {
        return None;
    }
    let mut acc: u128 = 0;
    let mut over: bool = false;
    let mut i: usize = 0;
    while i < s.len()
        invariant
            i <= s.len(),
            all_digits(s@.take(i as int)),
            !over ==> acc == digits_val(s@.take(i as int)) && acc <= u64::MAX,
            over ==> digits_val(s@.take(i as int)) > u64::MAX,
        decreases s.len() - i,
    {
        let b = s[i];
        if b < 48 || b > 57 {
            return None;
        }
        proof {
            assert(s@.take(i + 1 as int).drop_last() =~= s@.take(i as int));
        }
        if !over {
            let v: u128 = acc * 10 + (b - 48) as u128;
            if v > u64::MAX as u128 {
                over = true;
            } else {
                acc = v;
            }
        }
        i = i + 1;
    }
    proof {
        assert(s@.take(s@.len() as int) =~= s@);
    }
    if over {
        None
    } else {
        Some(acc as u64)
    }
}

/// Splitting a byte sequence on a separator, defined over the last byte so
/// that a forward scan matches it step by step.  The empty sequence splits
/// into one empty field, as an iterator-based split does.
pub open spec fn split_on(s: Seq<u8>, sep: u8) -> Seq<Seq<u8>>
    decreases s.len(),
{
    if s.len() == 0 {
        seq![Seq::<u8>::empty()]
    } else if s.last() == sep {
        split_on(s.drop_last(), sep).push(Seq::<u8>::empty())
    } else {
        let r = split_on(s.drop_last(), sep);
        r.update(r.len() - 1, r.last().push(s.last()))
    }
}

pub proof fn lemma_split_on_len(s: Seq<u8>, sep: u8)
    ensures
        split_on(s, sep).len() >= 1,
    decreases s.len(),
{
    if s.len() > 0 {
        lemma_split_on_len(s.drop_last(), sep);
    }
}

/// Executable split of a slice on a separator byte.
pub fn split_bytes(s: &[u8], sep: u8) -> (r: Vec<Vec<u8>>)
    ensures
        r.deep_view() == split_on(s@, sep),
{
    let mut done: Vec<Vec<u8>> = Vec::new();
    let mut cur: Vec<u8> = Vec::new();
    let mut i: usize = 0;
    while i < s.len()
        invariant
            i <= s.len(),
            split_on(s@.take(i as int), sep) == done.deep_view().push(cur@),
        decreases s.len() - i,
    {
        let ghost d0 = done.deep_view();
        let ghost c0 = cur@;
        proof {
            assert(s@.take(i + 1 as int).drop_last() =~= s@.take(i as int));
        }
        if s[i] == sep {
            done.push(cur);
            cur = Vec::new();
            proof {
                assert(done.deep_view() =~~= d0.push(c0));
                assert(split_on(s@.take(i + 1 as int), sep) == d0.push(c0).push(Seq::<
                    u8,
                >::empty()));
                assert(done.deep_view().push(cur@) =~= d0.push(c0).push(Seq::<u8>::empty()));
            }
        } else {
            let b = s[i];
            cur.push(b);
            proof {
                let prev = d0.push(c0);
                assert(prev.last() == c0);
                assert(split_on(s@.take(i + 1 as int), sep) == prev.update(
                    prev.len() - 1,
                    c0.push(b),
                ));
                assert(prev.update(prev.len() - 1, c0.push(b)) =~= d0.push(c0.push(b)));
                assert(done.deep_view().push(cur@) =~= d0.push(c0.push(b)));
            }
        }
        i = i + 1;
    }
    proof {
        assert(s@.take(s@.len() as int) =~= s@);
    }
    let ghost d1 = done.deep_view();
    let ghost c1 = cur@;
    done.push(cur);
    proof {
        assert(done.deep_view() =~~= d1.push(c1));
    }
    done
}

} // verus!
