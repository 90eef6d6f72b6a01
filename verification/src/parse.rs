use vstd::prelude::*;

use crate::{Amount, ClientID, Transaction, TransactionID, TransactionType};

verus! {

/// Whitespace that surrounds a field and is ignored: space, tab, and
/// carriage return.
pub open spec fn is_space(b: u8) -> bool {
    b == 32 || b == 9 || b == 13
}

/// The index of the first occurrence of `sep`, or the length when the
/// byte does not occur.
pub open spec fn spec_find(s: Seq<u8>, sep: u8) -> int
    decreases s.len(),
{
    if s.len() == 0 {
        0
    } else if s[0] == sep {
        0
    } else {
        1 + spec_find(s.drop_first(), sep)
    }
}

/// Any position with no match before it, and a match at it or the end,
/// is the one `spec_find` names.
proof fn lemma_find_at(s: Seq<u8>, sep: u8, m: int)
    requires
        0 <= m <= s.len(),
        forall|j: int| 0 <= j < m ==> s[j] != sep,
        m < s.len() ==> s[m] == sep,
    ensures
        spec_find(s, sep) == m,
    decreases s.len(),
{
    if s.len() == 0 {
    } else if s[0] == sep {
        assert(m == 0);
    } else {
        assert(m >= 1);
        assert forall|j: int| 0 <= j < m - 1 implies s.drop_first()[j] != sep by {
            assert(s[j + 1] != sep);
        }
        lemma_find_at(s.drop_first(), sep, m - 1);
    }
}

/// The fields of a byte string, cut at every occurrence of `sep`; a
/// string without the separator is one field, and every separator
/// starts a new field, so there is always at least one.
pub open spec fn spec_split(s: Seq<u8>, sep: u8) -> Seq<Seq<u8>>
    decreases s.len(),
{
    let i = spec_find(s, sep);
    if 0 <= i < s.len() {
        seq![s.take(i)] + spec_split(s.skip(i + 1), sep)
    } else {
        seq![s]
    }
}

/// The bytes of a slice between two positions, as a fresh vector.
pub fn subvec(s: &[u8], from: usize, to: usize) -> (v: Vec<u8>)
    requires
        from <= to <= s@.len(),
    ensures
        v@ == s@.subrange(from as int, to as int),
{
    let mut v: Vec<u8> = Vec::new();
    let mut i = from;
    while i < to
        invariant
            from <= i <= to <= s@.len(),
            v@ == s@.subrange(from as int, i as int),
        decreases to - i,
    {
        v.push(s[i]);
        proof {
            assert(v@ =~= s@.subrange(from as int, i + 1 as int));
        }
        i += 1;
    }
    v
}

/// Cut a byte string into its fields at every occurrence of `sep`.
pub fn split(s: &[u8], sep: u8) -> (fields: Vec<Vec<u8>>)
    ensures
        fields@.map_values(|f: Vec<u8>| f@) == spec_split(s@, sep),
{
    let n = s.len();
    let mut fields: Vec<Vec<u8>> = Vec::new();
    proof {
        assert(s@.skip(0) =~= s@);
        assert(fields@.map_values(|f: Vec<u8>| f@) + spec_split(s@, sep) =~= spec_split(s@, sep));
    }
    let mut start: usize = 0;
    let mut done = false;
    while !done
        invariant
            n == s@.len(),
            start <= n,
            !done ==> spec_split(s@, sep) == fields@.map_values(|f: Vec<u8>| f@)
                + spec_split(s@.skip(start as int), sep),
            done ==> spec_split(s@, sep) == fields@.map_values(|f: Vec<u8>| f@),
        decreases (n - start) * 2 + (if done {
            0int
        } else {
            1int
        }),
    {
        let ghost rest = s@.skip(start as int);
        let mut k = start;
        while k < n && s[k] != sep
            invariant
                start <= k <= n,
                n == s@.len(),
                forall|j: int| start <= j < k ==> s@[j] != sep,
            decreases n - k,
        {
            k += 1;
        }
        proof {
            assert forall|j: int| 0 <= j < k - start implies rest[j] != sep by {
                assert(s@[start + j] != sep);
            }
            if k < n {
                assert(rest[k - start] == sep);
            }
            lemma_find_at(rest, sep, k - start);
        }
        let field = subvec(s, start, k);
        let ghost old_fields = fields@;
        fields.push(field);
        proof {
            assert(fields@.map_values(|f: Vec<u8>| f@) =~= old_fields.map_values(
                |f: Vec<u8>| f@,
            ).push(field@));
            assert(field@ =~= rest.take(k - start));
        }
        if k < n {
            proof {
                assert(rest.skip(k - start + 1) =~= s@.skip(k + 1 as int));
                assert(old_fields.map_values(|f: Vec<u8>| f@).push(rest.take(k - start))
                    =~= old_fields.map_values(|f: Vec<u8>| f@) + seq![rest.take(k - start)]);
            }
            start = k + 1;
        } else {
            proof {
                assert(spec_split(rest, sep) == seq![rest]);
                assert(field@ =~= rest);
                assert(fields@.map_values(|f: Vec<u8>| f@) =~= old_fields.map_values(
                    |f: Vec<u8>| f@,
                ) + seq![rest]);
            }
            done = true;
        }
    }
    fields
}

/// Remove the ignored whitespace from the front of a field.
pub open spec fn spec_trim_front(s: Seq<u8>) -> Seq<u8>
    decreases s.len(),
{
    if s.len() > 0 && is_space(s[0]) {
        spec_trim_front(s.drop_first())
    } else {
        s
    }
}

/// Remove the ignored whitespace from the back of a field.
pub open spec fn spec_trim_back(s: Seq<u8>) -> Seq<u8>
    decreases s.len(),
{
    if s.len() > 0 && is_space(s.last()) {
        spec_trim_back(s.drop_last())
    } else {
        s
    }
}

/// A field with the surrounding whitespace removed.
pub open spec fn spec_trim(s: Seq<u8>) -> Seq<u8> {
    spec_trim_back(spec_trim_front(s))
}

/// Copy a field without its surrounding whitespace.
pub fn trim(s: &[u8]) -> (v: Vec<u8>)
    ensures
        v@ == spec_trim(s@),
{
    let n = s.len();
    proof {
        assert(s@.skip(0) =~= s@);
    }
    let mut a: usize = 0;
    while a < n && (s[a] == 32 || s[a] == 9 || s[a] == 13)
        invariant
            a <= n,
            n == s@.len(),
            spec_trim_front(s@) == spec_trim_front(s@.skip(a as int)),
        decreases n - a,
    {
        proof {
            assert(s@.skip(a as int).drop_first() =~= s@.skip(a + 1 as int));
        }
        a += 1;
    }
    proof {
        if a < n {
            assert(spec_trim_front(s@.skip(a as int)) == s@.skip(a as int));
        } else {
            assert(s@.skip(a as int) =~= Seq::<u8>::empty());
        }
        assert(s@.skip(a as int) =~= s@.subrange(a as int, n as int));
        assert(spec_trim_front(s@) == s@.subrange(a as int, n as int));
    }
    let mut b: usize = n;
    while b > a && (s[b - 1] == 32 || s[b - 1] == 9 || s[b - 1] == 13)
        invariant
            a <= b <= n,
            n == s@.len(),
            spec_trim(s@) == spec_trim_back(s@.subrange(a as int, b as int)),
        decreases b,
    {
        proof {
            assert(s@.subrange(a as int, b as int).drop_last() =~= s@.subrange(
                a as int,
                b - 1 as int,
            ));
        }
        b -= 1;
    }
    proof {
        assert(spec_trim_back(s@.subrange(a as int, b as int)) == s@.subrange(
            a as int,
            b as int,
        ));
    }
    subvec(s, a, b)
}

/// A decimal digit byte.
pub open spec fn is_digit(b: u8) -> bool {
    48 <= b <= 57
}

/// Whether every byte of a field is a decimal digit.
pub open spec fn all_digits(s: Seq<u8>) -> bool {
    forall|i: int| 0 <= i < s.len() ==> is_digit(#[trigger] s[i])
}

/// The number written by a sequence of digit bytes, most significant
/// first.
pub open spec fn spec_uint_value(s: Seq<u8>) -> nat
    recommends
        all_digits(s),
    decreases s.len(),
{
    if s.len() == 0 {
        0
    } else {
        spec_uint_value(s.drop_last()) * 10 + (s.last() - 48) as nat
    }
}

/// A number never shrinks when more digits follow.
proof fn lemma_uint_prefix_le(s: Seq<u8>, i: int)
    requires
        0 <= i <= s.len(),
        all_digits(s),
    ensures
        spec_uint_value(s.take(i)) <= spec_uint_value(s),
    decreases s.len() - i,
{
    if i < s.len() {
        assert(s.take(i + 1).drop_last() =~= s.take(i));
        assert(spec_uint_value(s.take(i + 1)) == spec_uint_value(s.take(i)) * 10 + (s[i]
            - 48) as nat);
        lemma_uint_prefix_le(s, i + 1);
    } else {
        assert(s.take(i) =~= s);
    }
}

/// An unsigned decimal field: `None` when the field is empty, holds a
/// non-digit, or writes a number above `max`.
pub open spec fn spec_parse_uint(s: Seq<u8>, max: int) -> Option<int> {
    if s.len() == 0 || !all_digits(s) {
        None
    } else if spec_uint_value(s) > max {
        None
    } else {
        Some(spec_uint_value(s) as int)
    }
}

/// Read an unsigned decimal field of at most `max`.
pub fn parse_uint(s: &[u8], max: u64) -> (r: Option<u64>)
    ensures
        r is Some <==> spec_parse_uint(s@, max as int) is Some,
        r matches Some(v) ==> spec_parse_uint(s@, max as int) == Some(v as int),
{
    let n = s.len();
    if n == 0 {
        return None;
    }
    let mut acc: u64 = 0;
    let mut i: usize = 0;
    while i < n
        invariant
            i <= n,
            n == s@.len(),
            all_digits(s@.take(i as int)),
            acc as int == spec_uint_value(s@.take(i as int)),
            acc <= max,
        decreases n - i,
    {
        let b = s[i];
        if b < 48 || b > 57 {
            proof {
                assert(!is_digit(s@[i as int]));
            }
            return None;
        }
        let d = (b - 48) as u64;
        proof {
            assert(s@.take(i + 1 as int).drop_last() =~= s@.take(i as int));
            assert(spec_uint_value(s@.take(i + 1 as int)) == acc * 10 + d);
        }
        let next: u64 = match acc.checked_mul(10) {
            Some(x) => match x.checked_add(d) {
                Some(y) => y,
                None => {
                    proof {
                        if all_digits(s@) {
                            lemma_uint_prefix_le(s@, i + 1 as int);
                        }
                    }
                    return None;
                },
            },
            None => {
                proof {
                    if all_digits(s@) {
                        lemma_uint_prefix_le(s@, i + 1 as int);
                    }
                }
                return None;
            },
        };
        if next > max {
            proof {
                if all_digits(s@) {
                    lemma_uint_prefix_le(s@, i + 1 as int);
                }
            }
            return None;
        }
        acc = next;
        i += 1;
    }
    proof {
        assert(s@.take(n as int) =~= s@);
    }
    Some(acc)
}

/// An upper-case letter folded to lower case; every other byte is kept.
pub open spec fn spec_lower(b: u8) -> u8 {
    if 65 <= b <= 90 {
        (b + 32) as u8
    } else {
        b
    }
}

fn lower(b: u8) -> (r: u8)
    ensures
        r == spec_lower(b),
{
    if 65 <= b && b <= 90 {
        b + 32
    } else {
        b
    }
}

/// The record kind a field names, compared without regard to case:
/// `deposit`, `withdrawal`, `dispute`, `resolve` or `chargeback`.
pub open spec fn spec_parse_kind(s: Seq<u8>) -> Option<TransactionType> {
    let t = s.map_values(|b: u8| spec_lower(b));
    if t == seq![100u8, 101u8, 112u8, 111u8, 115u8, 105u8, 116u8] {
        Some(TransactionType::Deposit)
    } else if t == seq![
        119u8, 105u8, 116u8, 104u8, 100u8, 114u8, 97u8, 119u8, 97u8, 108u8,
    ] {
        Some(TransactionType::Withdrawal)
    } else if t == seq![100u8, 105u8, 115u8, 112u8, 117u8, 116u8, 101u8] {
        Some(TransactionType::Dispute)
    } else if t == seq![114u8, 101u8, 115u8, 111u8, 108u8, 118u8, 101u8] {
        Some(TransactionType::Resolve)
    } else if t == seq![99u8, 104u8, 97u8, 114u8, 103u8, 101u8, 98u8, 97u8, 99u8, 107u8] {
        Some(TransactionType::Chargeback)
    } else {
        None
    }
}

/// Read the record kind of a field, without regard to case.
pub fn parse_kind(s: &[u8]) -> (r: Option<TransactionType>)
    ensures
        r == spec_parse_kind(s@),
{
    let ghost t = s@.map_values(|b: u8| spec_lower(b));
    let n = s.len();
    if n == 7 {
        let b0 = lower(s[0]);
        let b1 = lower(s[1]);
        let b2 = lower(s[2]);
        let b3 = lower(s[3]);
        let b4 = lower(s[4]);
        let b5 = lower(s[5]);
        let b6 = lower(s[6]);
        proof {
            assert(t.len() == 7);
            assert(t =~= seq![b0, b1, b2, b3, b4, b5, b6]);
        }
        if b0 == 100 && b1 == 101 && b2 == 112 && b3 == 111 && b4 == 115 && b5 == 105 && b6
            == 116 {
            Some(TransactionType::Deposit)
        } else if b0 == 100 && b1 == 105 && b2 == 115 && b3 == 112 && b4 == 117 && b5 == 116
            && b6 == 101 {
            Some(TransactionType::Dispute)
        } else if b0 == 114 && b1 == 101 && b2 == 115 && b3 == 111 && b4 == 108 && b5 == 118
            && b6 == 101 {
            Some(TransactionType::Resolve)
        } else {
            None
        }
    } else if n == 10 {
        let b0 = lower(s[0]);
        let b1 = lower(s[1]);
        let b2 = lower(s[2]);
        let b3 = lower(s[3]);
        let b4 = lower(s[4]);
        let b5 = lower(s[5]);
        let b6 = lower(s[6]);
        let b7 = lower(s[7]);
        let b8 = lower(s[8]);
        let b9 = lower(s[9]);
        proof {
            assert(t.len() == 10);
            assert(t =~= seq![b0, b1, b2, b3, b4, b5, b6, b7, b8, b9]);
        }
        if b0 == 119 && b1 == 105 && b2 == 116 && b3 == 104 && b4 == 100 && b5 == 114 && b6
            == 97 && b7 == 119 && b8 == 97 && b9 == 108 {
            Some(TransactionType::Withdrawal)
        } else if b0 == 99 && b1 == 104 && b2 == 97 && b3 == 114 && b4 == 103 && b5 == 101
            && b6 == 98 && b7 == 97 && b8 == 99 && b9 == 107 {
            Some(TransactionType::Chargeback)
        } else {
            None
        }
    } else {
        proof {
            assert(t.len() == n);
        }
        None
    }
}

/// The contribution of the fractional digits to a magnitude scaled by
/// 10,000: up to four digits count at their place value, and a fifth
/// digit of five or more rounds the magnitude up — rounding half away
/// from zero at the fourth decimal place.
pub open spec fn spec_frac_scaled(fp: Seq<u8>) -> nat
    recommends
        all_digits(fp),
{
    if fp.len() == 0 {
        0
    } else if fp.len() == 1 {
        spec_uint_value(fp) * 1000
    } else if fp.len() == 2 {
        spec_uint_value(fp) * 100
    } else if fp.len() == 3 {
        spec_uint_value(fp) * 10
    } else if fp.len() == 4 {
        spec_uint_value(fp)
    } else {
        spec_uint_value(fp.take(4)) + if fp[4] >= 53 {
            1nat
        } else {
            0nat
        }
    }
}

/// A signed decimal amount built from its integer and fractional digit
/// fields, scaled by 10,000: `None` when both fields are empty, a byte
/// is not a digit, or the scaled magnitude does not fit the fixed-point
/// range.
pub open spec fn spec_amount_from_parts(neg: bool, ip: Seq<u8>, fp: Seq<u8>) -> Option<i64> {
    if ip.len() + fp.len() == 0 || !all_digits(ip) || !all_digits(fp) {
        None
    } else {
        let mag = spec_uint_value(ip) * 10000 + spec_frac_scaled(fp);
        if mag > i64::MAX {
            None
        } else if neg {
            Some((-mag) as i64)
        } else {
            Some(mag as i64)
        }
    }
}

/// A decimal amount field: an optional minus sign, then digits with at
/// most one decimal point among them, read as a fixed-point amount
/// rounded half away from zero at the fourth decimal place.
pub open spec fn spec_parse_amount(s: Seq<u8>) -> Option<i64> {
    let neg = s.len() > 0 && s[0] == 45;
    let body = if neg {
        s.drop_first()
    } else {
        s
    };
    let dot = spec_find(body, 46);
    if 0 <= dot < body.len() {
        let ip = body.take(dot);
        let fp = body.skip(dot + 1);
        if spec_find(fp, 46) < fp.len() {
            None
        } else {
            spec_amount_from_parts(neg, ip, fp)
        }
    } else {
        spec_amount_from_parts(neg, body, Seq::empty())
    }
}

/// Whether every byte of a field is a decimal digit.
fn check_digits(s: &[u8]) -> (r: bool)
    ensures
        r == all_digits(s@),
{
    let n = s.len();
    let mut i: usize = 0;
    while i < n
        invariant
            i <= n,
            n == s@.len(),
            forall|j: int| 0 <= j < i ==> is_digit(#[trigger] s@[j]),
        decreases n - i,
    {
        if s[i] < 48 || s[i] > 57 {
            proof {
                assert(!is_digit(s@[i as int]));
            }
            return false;
        }
        i += 1;
    }
    true
}

/// The position of the first `sep` byte, or the length when absent.
fn find_byte(s: &[u8], sep: u8) -> (k: usize)
    ensures
        k as int == spec_find(s@, sep),
{
    let n = s.len();
    let mut k: usize = 0;
    while k < n && s[k] != sep
        invariant
            k <= n,
            n == s@.len(),
            forall|j: int| 0 <= j < k ==> s@[j] != sep,
        decreases n - k,
    {
        k += 1;
    }
    proof {
        lemma_find_at(s@, sep, k as int);
    }
    k
}

/// The largest whole part a fixed-point amount can carry.
const MAX_WHOLE: u64 = 922337203685477;

fn amount_from_parts(neg: bool, ip: &[u8], fp: &[u8]) -> (r: Option<i64>)
    ensures
        r == spec_amount_from_parts(neg, ip@, fp@),
{
    if ip.len() == 0 && fp.len() == 0 {
        return None;
    }
    if !check_digits(ip) || !check_digits(fp) {
        return None;
    }
    let ghost mag = spec_uint_value(ip@) * 10000 + spec_frac_scaled(fp@);
    let whole: u64 = match parse_uint_or_zero(ip) {
        Some(v) => v,
        None => {
            proof {
                assert(spec_uint_value(ip@) > MAX_WHOLE);
                assert(spec_uint_value(ip@) * 10000 >= (MAX_WHOLE + 1) * 10000) by (nonlinear_arith)
                    requires
                        spec_uint_value(ip@) >= MAX_WHOLE + 1,
                ;
            }
            return None;
        },
    };
    let frac: u64 = frac_scaled(fp);
    let m: u64 = whole * 10000 + frac;
    proof {
        assert(m == mag);
    }
    if m > 0x7fff_ffff_ffff_ffff {
        return None;
    }
    if neg {
        Some(-(m as i64))
    } else {
        Some(m as i64)
    }
}

/// The whole part of an amount: zero when the field is empty, `None`
/// above `MAX_WHOLE`.
fn parse_uint_or_zero(s: &[u8]) -> (r: Option<u64>)
    requires
        all_digits(s@),
    ensures
        match r {
            Some(v) => v as int == spec_uint_value(s@) && v <= MAX_WHOLE,
            None => spec_uint_value(s@) > MAX_WHOLE,
        },
{
    if s.len() == 0 {
        return Some(0);
    }
    match parse_uint(s, MAX_WHOLE) {
        Some(v) => Some(v),
        None => None,
    }
}

/// The scaled contribution of the fractional digits.
fn frac_scaled(fp: &[u8]) -> (r: u64)
    requires
        all_digits(fp@),
    ensures
        r as int == spec_frac_scaled(fp@),
        r <= 10000,
{
    let n = fp.len();
    if n == 0 {
        0
    } else if n <= 4 {
        let v = match parse_uint(fp, 9999) {
            Some(v) => v,
            None => {
                proof {
                    lemma_uint_digits_bound(fp@);
                }
                0
            },
        };
        if n == 1 {
            proof {
                lemma_uint_digits_len_bound3(fp@);
            }
            v * 1000
        } else if n == 2 {
            proof {
                lemma_uint_digits_len_bound2(fp@);
            }
            v * 100
        } else if n == 3 {
            proof {
                lemma_uint_digits_len_bound(fp@);
            }
            v * 10
        } else {
            v
        }
    } else {
        let head = subvec(fp, 0, 4);
        proof {
            assert(head@ =~= fp@.take(4));
            assert(forall|j: int| 0 <= j < 4 ==> head@[j] == fp@[j]);
            lemma_uint_digits_bound(head@);
        }
        let v = match parse_uint(head.as_slice(), 9999) {
            Some(v) => v,
            None => 0,
        };
        if fp[4] >= 53 {
            v + 1
        } else {
            v
        }
    }
}

/// At most four digits write a number below ten thousand.
proof fn lemma_uint_digits_bound(s: Seq<u8>)
    requires
        all_digits(s),
        s.len() <= 4,
    ensures
        spec_uint_value(s) <= 9999,
    decreases s.len(),
{
    if s.len() > 0 {
        assert(is_digit(s[s.len() - 1]));
        lemma_digits_drop_last(s);
        lemma_uint_digits_bound(s.drop_last());
        lemma_uint_digits_len_bound(s.drop_last());
    }
}

/// Dropping the last byte of an all-digit field keeps it all digits.
proof fn lemma_digits_drop_last(s: Seq<u8>)
    requires
        all_digits(s),
        s.len() > 0,
    ensures
        all_digits(s.drop_last()),
{
    assert forall|j: int| 0 <= j < s.drop_last().len() implies is_digit(
        #[trigger] s.drop_last()[j],
    ) by {
        assert(s.drop_last()[j] == s[j]);
    }
}

/// A number of `k` digits is below ten to the `k`, for small `k`.
proof fn lemma_uint_digits_len_bound(s: Seq<u8>)
    requires
        all_digits(s),
        s.len() <= 3,
    ensures
        spec_uint_value(s) <= 999,
    decreases s.len(),
{
    if s.len() > 0 {
        assert(is_digit(s[s.len() - 1]));
        lemma_digits_drop_last(s);
        lemma_uint_digits_len_bound2(s.drop_last());
    }
}

proof fn lemma_uint_digits_len_bound2(s: Seq<u8>)
    requires
        all_digits(s),
        s.len() <= 2,
    ensures
        spec_uint_value(s) <= 99,
    decreases s.len(),
{
    if s.len() > 0 {
        assert(is_digit(s[s.len() - 1]));
        lemma_digits_drop_last(s);
        lemma_uint_digits_len_bound3(s.drop_last());
    }
}

proof fn lemma_uint_digits_len_bound3(s: Seq<u8>)
    requires
        all_digits(s),
        s.len() <= 1,
    ensures
        spec_uint_value(s) <= 9,
{
    reveal_with_fuel(spec_uint_value, 3);
    if s.len() > 0 {
        assert(is_digit(s[s.len() - 1]));
        assert(s.drop_last().len() == 0);
    }
}

/// Read a decimal amount field into fixed-point form.
pub fn parse_amount(s: &[u8]) -> (r: Option<i64>)
    ensures
        r == spec_parse_amount(s@),
{
    let n = s.len();
    let neg = n > 0 && s[0] == 45;
    let bs: usize = if neg {
        1
    } else {
        0
    };
    let body = subvec(s, bs, n);
    proof {
        if neg {
            assert(body@ =~= s@.drop_first());
        } else {
            assert(body@ =~= s@);
        }
    }
    let dot = find_byte(body.as_slice(), 46);
    if dot < body.len() {
        let ip = subvec(body.as_slice(), 0, dot);
        let fp = subvec(body.as_slice(), dot + 1, body.len());
        proof {
            assert(ip@ =~= body@.take(dot as int));
            assert(fp@ =~= body@.skip(dot + 1 as int));
        }
        let second = find_byte(fp.as_slice(), 46);
        if second < fp.len() {
            return None;
        }
        amount_from_parts(neg, ip.as_slice(), fp.as_slice())
    } else {
        let empty: Vec<u8> = Vec::new();
        amount_from_parts(neg, body.as_slice(), empty.as_slice())
    }
}

/// One data row of the input: a kind, a client id and a transaction
/// id, comma separated, and — in a fourth column that dispute, resolve
/// and chargeback rows may omit or leave blank — a decimal amount.
/// Fields may carry surrounding whitespace.
pub open spec fn spec_parse_record(s: Seq<u8>) -> Option<
    (TransactionType, ClientID, TransactionID, Option<Amount>),
> {
    let fs = spec_split(s, 44);
    if fs.len() < 3 || fs.len() > 4 {
        None
    } else {
        let kind = spec_parse_kind(spec_trim(fs[0]));
        let client = spec_parse_uint(spec_trim(fs[1]), u16::MAX as int);
        let tx = spec_parse_uint(spec_trim(fs[2]), u32::MAX as int);
        match (kind, client, tx) {
            (Some(k), Some(c), Some(x)) => {
                if fs.len() == 3 {
                    Some((k, c as ClientID, x as TransactionID, None))
                } else {
                    let af = spec_trim(fs[3]);
                    if af.len() == 0 {
                        Some((k, c as ClientID, x as TransactionID, None))
                    } else {
                        match spec_parse_amount(af) {
                            Some(a) => Some(
                                (k, c as ClientID, x as TransactionID, Some(a)),
                            ),
                            None => None,
                        }
                    }
                }
            },
            _ => None,
        }
    }
}

/// Read one data row into a transaction record, or `None` when the row
/// is malformed.
pub fn parse_record(line: &[u8]) -> (r: Option<Transaction>)
    ensures
        match r {
            Some(t) => spec_parse_record(line@) == Some(
                (t.t_type(), t.client_id(), t.id(), t.amount()),
            ),
            None => spec_parse_record(line@) is None,
        },
{
    let fields = split(line, 44);
    let nf = fields.len();
    proof {
        assert(spec_split(line@, 44).len() == nf);
    }
    if nf < 3 || nf > 4 {
        return None;
    }
    proof {
        assert(fields@.map_values(|f: Vec<u8>| f@)[0] == fields@[0]@);
        assert(fields@.map_values(|f: Vec<u8>| f@)[1] == fields@[1]@);
        assert(fields@.map_values(|f: Vec<u8>| f@)[2] == fields@[2]@);
    }
    let f0 = trim(fields[0].as_slice());
    let kind = match parse_kind(f0.as_slice()) {
        Some(k) => k,
        None => {
            return None;
        },
    };
    let f1 = trim(fields[1].as_slice());
    let client = match parse_uint(f1.as_slice(), 65535) {
        Some(c) => c as u16,
        None => {
            return None;
        },
    };
    let f2 = trim(fields[2].as_slice());
    let tx = match parse_uint(f2.as_slice(), 4294967295) {
        Some(x) => x as u32,
        None => {
            return None;
        },
    };
    let amount: Option<Amount> = if nf == 3 {
        None
    } else {
        proof {
            assert(fields@.map_values(|f: Vec<u8>| f@)[3] == fields@[3]@);
        }
        let f3 = trim(fields[3].as_slice());
        if f3.len() == 0 {
            None
        } else {
            match parse_amount(f3.as_slice()) {
                Some(a) => Some(a),
                None => {
                    return None;
                },
            }
        }
    };
    Some(Transaction::new(kind, client, tx, amount))
}

} // verus!
