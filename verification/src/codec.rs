use vstd::prelude::*;

use crate::{Amount, ClientAccountInfo};

verus! {

/// The decimal digits of a number, most significant first, as bytes.
pub open spec fn spec_digits(n: nat) -> Seq<u8>
    decreases n,
{
    if n < 10 {
        seq![(48 + n) as u8]
    } else {
        spec_digits(n / 10).push((48 + n % 10) as u8)
    }
}

/// Drop trailing zero digits, but keep at least one digit.
pub open spec fn spec_trim_zeros(s: Seq<u8>) -> Seq<u8>
    decreases s.len(),
{
    if s.len() <= 1 {
        s
    } else if s.last() == 48 {
        spec_trim_zeros(s.drop_last())
    } else {
        s
    }
}

/// The rendered fractional part of a magnitude: its last four decimal
/// digits, with trailing zeros dropped, at least one digit kept.
pub open spec fn spec_frac_digits(f: nat) -> Seq<u8>
    recommends
        f < 10000,
{
    spec_trim_zeros(
        seq![
            (48 + f / 1000 % 10) as u8,
            (48 + f / 100 % 10) as u8,
            (48 + f / 10 % 10) as u8,
            (48 + f % 10) as u8,
        ],
    )
}

/// A non-negative fixed-point magnitude as a plain decimal numeral:
/// the whole part, a point, and the fractional digits.
pub open spec fn spec_render_magnitude(m: nat) -> Seq<u8> {
    spec_digits(m / 10000) + seq![46u8] + spec_frac_digits(m % 10000)
}

/// A fixed-point amount as a plain decimal numeral, with a leading
/// minus sign when negative.
pub open spec fn spec_render_amount(a: int) -> Seq<u8> {
    if a < 0 {
        seq![45u8] + spec_render_magnitude((-a) as nat)
    } else {
        spec_render_magnitude(a as nat)
    }
}

/// Append the decimal digits of `n`.
fn push_digits(n: u64, out: &mut Vec<u8>)
    ensures
        final(out)@ == old(out)@ + spec_digits(n as nat),
    decreases n,
{
    if n < 10 {
        out.push(48 + (n as u8));
    } else {
        push_digits(n / 10, out);
        out.push(48 + ((n % 10) as u8));
    }
}

/// Append the fractional digits of a magnitude below one whole unit.
fn push_frac(f: u64, out: &mut Vec<u8>)
    requires
        f < 10000,
    ensures
        final(out)@ == old(out)@ + spec_frac_digits(f as nat),
{
    let d0 = (f / 1000 % 10) as u8;
    let d1 = (f / 100 % 10) as u8;
    let d2 = (f / 10 % 10) as u8;
    let d3 = (f % 10) as u8;
    out.push(48 + d0);
    if d1 != 0 || d2 != 0 || d3 != 0 {
        out.push(48 + d1);
    }
    if d2 != 0 || d3 != 0 {
        out.push(48 + d2);
    }
    if d3 != 0 {
        out.push(48 + d3);
    }
    proof {
        reveal_with_fuel(spec_trim_zeros, 5);
        let s = seq![
            (48 + d0) as u8,
            (48 + d1) as u8,
            (48 + d2) as u8,
            (48 + d3) as u8,
        ];
        assert(spec_frac_digits(f as nat) == spec_trim_zeros(s));
        if d3 != 0 {
            assert(spec_trim_zeros(s) =~= s);
            assert(final(out)@ =~= old(out)@ + s);
        } else if d2 != 0 {
            assert(s.drop_last() =~= seq![(48 + d0) as u8, (48 + d1) as u8, (48 + d2) as u8]);
            assert(spec_trim_zeros(s) =~= s.drop_last());
            assert(final(out)@ =~= old(out)@ + s.drop_last());
        } else if d1 != 0 {
            assert(s.drop_last() =~= seq![(48 + d0) as u8, (48 + d1) as u8, (48 + d2) as u8]);
            assert(s.drop_last().drop_last() =~= seq![(48 + d0) as u8, (48 + d1) as u8]);
            assert(spec_trim_zeros(s) =~= s.drop_last().drop_last());
            assert(final(out)@ =~= old(out)@ + s.drop_last().drop_last());
        } else {
            assert(s.drop_last() =~= seq![(48 + d0) as u8, (48 + d1) as u8, (48 + d2) as u8]);
            assert(s.drop_last().drop_last() =~= seq![(48 + d0) as u8, (48 + d1) as u8]);
            assert(s.drop_last().drop_last().drop_last() =~= seq![(48 + d0) as u8]);
            assert(spec_trim_zeros(s) =~= s.drop_last().drop_last().drop_last());
            assert(final(out)@ =~= old(out)@ + s.drop_last().drop_last().drop_last());
        }
    }
}

/// Append a fixed-point amount as a plain decimal numeral: minus sign
/// when negative, the whole part, a point, and the fractional digits
/// with trailing zeros dropped (a zero amount reads `0.0`).
pub fn push_amount(a: Amount, out: &mut Vec<u8>)
    ensures
        final(out)@ == old(out)@ + spec_render_amount(a as int),
{
    let m: u64 = if a < 0 {
        out.push(45);
        ((-(a + 1)) as u64) + 1
    } else {
        a as u64
    };
    push_digits(m / 10000, out);
    out.push(46);
    push_frac(m % 10000, out);
}

/// The header line of the output: the five column names and a newline.
pub open spec fn spec_header() -> Seq<u8> {
    seq![
        99u8, 108u8, 105u8, 101u8, 110u8, 116u8, 44u8, 97u8, 118u8, 97u8, 105u8, 108u8, 97u8,
        98u8, 108u8, 101u8, 44u8, 104u8, 101u8, 108u8, 100u8, 44u8, 116u8, 111u8, 116u8, 97u8,
        108u8, 44u8, 108u8, 111u8, 99u8, 107u8, 101u8, 100u8, 10u8,
    ]
}

/// The rendered lock flag: the literal `true` or `false`.
pub open spec fn spec_render_bool(b: bool) -> Seq<u8> {
    if b {
        seq![116u8, 114u8, 117u8, 101u8]
    } else {
        seq![102u8, 97u8, 108u8, 115u8, 101u8]
    }
}

/// One output record: the client id and its three balances, comma
/// separated, the lock flag, and a newline.
pub open spec fn spec_render_row(info: ClientAccountInfo) -> Seq<u8> {
    spec_digits(info.client as nat) + seq![44u8] + spec_render_amount(info.available as int)
        + seq![44u8] + spec_render_amount(info.held as int) + seq![44u8] + spec_render_amount(
        info.total as int,
    ) + seq![44u8] + spec_render_bool(info.is_locked) + seq![10u8]
}

/// The whole output: the header line, then one record per entry in order.
pub open spec fn spec_render_report(infos: Seq<ClientAccountInfo>) -> Seq<u8>
    decreases infos.len(),
{
    if infos.len() == 0 {
        spec_header()
    } else {
        spec_render_report(infos.drop_last()) + spec_render_row(infos.last())
    }
}

/// Append one output record for an account's balances.
pub fn push_row(info: &ClientAccountInfo, out: &mut Vec<u8>)
    ensures
        final(out)@ == old(out)@ + spec_render_row(*info),
{
    push_digits(info.client as u64, out);
    out.push(44);
    push_amount(info.available, out);
    out.push(44);
    push_amount(info.held, out);
    out.push(44);
    push_amount(info.total, out);
    out.push(44);
    if info.is_locked {
        out.push(116);
        out.push(114);
        out.push(117);
        out.push(101);
    } else {
        out.push(102);
        out.push(97);
        out.push(108);
        out.push(115);
        out.push(101);
    }
    out.push(10);
    proof {
        assert(final(out)@ =~= old(out)@ + spec_render_row(*info));
    }
}

/// Render the final report: the header line, then one record per
/// account snapshot entry, in the given order.
pub fn render_report(infos: &Vec<ClientAccountInfo>) -> (out: Vec<u8>)
    ensures
        out@ == spec_render_report(infos@),
{
    let mut out: Vec<u8> = Vec::new();
    out.push(99);
    out.push(108);
    out.push(105);
    out.push(101);
    out.push(110);
    out.push(116);
    out.push(44);
    out.push(97);
    out.push(118);
    out.push(97);
    out.push(105);
    out.push(108);
    out.push(97);
    out.push(98);
    out.push(108);
    out.push(101);
    out.push(44);
    out.push(104);
    out.push(101);
    out.push(108);
    out.push(100);
    out.push(44);
    out.push(116);
    out.push(111);
    out.push(116);
    out.push(97);
    out.push(108);
    out.push(44);
    out.push(108);
    out.push(111);
    out.push(99);
    out.push(107);
    out.push(101);
    out.push(100);
    out.push(10);
    proof {
        assert(out@ =~= spec_header());
        assert(out@ =~= spec_render_report(infos@.take(0)));
    }
    let n = infos.len();
    let mut i: usize = 0;
    while i < n
        invariant
            n == infos@.len(),
            i <= n,
            out@ == spec_render_report(infos@.take(i as int)),
        decreases n - i,
    {
        push_row(&infos[i], &mut out);
        proof {
            assert(infos@.take(i + 1 as int).drop_last() =~= infos@.take(i as int));
            assert(infos@.take(i + 1 as int).last() == infos@[i as int]);
        }
        i += 1;
    }
    proof {
        assert(infos@.take(n as int) =~= infos@);
    }
    out
}

} // verus!
