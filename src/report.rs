//! The account report: one comma-separated row per client, ascending by id.
//!
//! Amounts are printed as decimals: a minus sign when negative, the whole part,
//! a dot, and the fractional digits without trailing zeros (at least one digit).
use vstd::prelude::*;

use crate::transaction_engine::{snapshot_of, Client, TransactionEngine};

verus! {

/// The decimal digits of `n`, most significant first, with no leading zeros.
pub open spec fn decimal_digits(n: nat) -> Seq<u8>
    decreases n,
{
    if n < 10 {
        seq![(48 + n) as u8]
    } else {
        decimal_digits(n / 10).push((48 + n % 10) as u8)
    }
}

/// The four digits of a fraction in ten-thousandths.
pub open spec fn four_digits(f: nat) -> Seq<u8> {
    seq![
        (48 + f / 1000 % 10) as u8,
        (48 + f / 100 % 10) as u8,
        (48 + f / 10 % 10) as u8,
        (48 + f % 10) as u8,
    ]
}

/// `s` without trailing `0` digits, keeping at least one byte.
pub open spec fn trim_zeros(s: Seq<u8>) -> Seq<u8>
    decreases s.len(),
{
    if s.len() > 1 && s.last() == 48 {
        trim_zeros(s.drop_last())
    } else {
        s
    }
}

pub open spec fn abs(v: int) -> nat {
    if v < 0 {
        (-v) as nat
    } else {
        v as nat
    }
}

/// An amount in ten-thousandths as printed.
pub open spec fn amount_text(v: int) -> Seq<u8> {
    let sign: Seq<u8> = if v < 0 {
        seq![45u8]
    } else {
        Seq::empty()
    };
    sign + decimal_digits(abs(v) / 10000) + seq![46u8] + trim_zeros(four_digits(abs(v) % 10000))
}

pub open spec fn bool_text(b: bool) -> Seq<u8> {
    if b {
        seq![116u8, 114, 117, 101]
    } else {
        seq![102u8, 97, 108, 115, 101]
    }
}

/// One report row: `client,available,held,total,locked`.
pub open spec fn row_text(c: Client) -> Seq<u8> {
    decimal_digits(c.client as nat) + seq![44u8] + amount_text(c.available as int) + seq![44u8]
        + amount_text(c.held as int) + seq![44u8] + amount_text(c.total as int) + seq![44u8]
        + bool_text(c.locked)
}

/// The header row's text.
pub open spec fn header_text() -> Seq<u8> {
    seq![99u8, 108, 105, 101, 110, 116, 44, 97, 118, 97, 105, 108, 97, 98, 108, 101, 44, 104, 101,
    108, 100, 44, 116, 111, 116, 97, 108, 44, 108, 111, 99, 107, 101, 100]
}

/// The header and then each account's row, every line ended by a newline.
pub open spec fn report_text(accounts: Seq<Client>) -> Seq<u8>
    decreases accounts.len(),
{
    if accounts.len() == 0 {
        header_text().push(10)
    } else {
        report_text(accounts.drop_last()) + row_text(accounts.last()).push(10)
    }
}

fn push_digits(out: &mut Vec<u8>, n: u64)
    ensures
        final(out)@ == old(out)@ + decimal_digits(n as nat),
    decreases n,
{
    if n >= 10 {
        push_digits(out, n / 10);
    }
    out.push((48 + n % 10) as u8);
    assert(final(out)@ =~= old(out)@ + decimal_digits(n as nat));
}

fn push_amount(out: &mut Vec<u8>, v: i64)
    ensures
        final(out)@ == old(out)@ + amount_text(v as int),
{
    let ghost start = out@;
    let m: u64 = if v < 0 {
        out.push(45);
        (-(v as i128)) as u64
    } else {
        v as u64
    };
    assert(m == abs(v as int));
    push_digits(out, m / 10000);
    out.push(46);
    let f = m % 10000;
    let four: [u8; 4] = [
        (48 + f / 1000 % 10) as u8,
        (48 + f / 100 % 10) as u8,
        (48 + f / 10 % 10) as u8,
        (48 + f % 10) as u8,
    ];
    assert(four@ =~= four_digits(f as nat));
    let mut keep: usize = 4;
    assert(four@.take(4) =~= four@);
    while keep > 1 && four[keep - 1] == 48
        invariant
            1 <= keep <= 4,
            trim_zeros(four@.take(keep as int)) == trim_zeros(four@),
        decreases keep,
    {
        assert(four@.take(keep as int).drop_last() =~= four@.take(keep - 1));
        keep -= 1;
    }
    assert(trim_zeros(four@.take(keep as int)) == four@.take(keep as int));
    let ghost before = out@;
    let mut i: usize = 0;
    while i < keep
        invariant
            0 <= i <= keep <= 4,
            out@ == before + four@.take(i as int),
        decreases keep - i,
    {
        out.push(four[i]);
        i += 1;
        assert(out@ =~= before + four@.take(i as int));
    }
    assert(out@ =~= start + amount_text(v as int));
}

fn push_bytes(out: &mut Vec<u8>, b: &[u8])
    ensures
        final(out)@ == old(out)@ + b@,
{
    let ghost before = out@;
    let mut i: usize = 0;
    while i < b.len()
        invariant
            0 <= i <= b.len(),
            out@ == before + b@.take(i as int),
        decreases b.len() - i,
    {
        out.push(b[i]);
        i += 1;
        assert(out@ =~= before + b@.take(i as int));
    }
    assert(b@.take(b.len() as int) =~= b@);
}

/// An amount in ten-thousandths as printed, e.g. `15000` as `1.5` and `-10000` as `-1.0`.
pub fn format_amount(v: i64) -> (r: Vec<u8>)
    ensures
        r@ == amount_text(v as int),
{
    let mut out: Vec<u8> = Vec::new();
    push_amount(&mut out, v);
    assert(out@ =~= amount_text(v as int));
    out
}

fn push_row(out: &mut Vec<u8>, c: &Client)
    ensures
        final(out)@ == old(out)@ + row_text(*c),
{
    let ghost start = out@;
    push_digits(out, c.client as u64);
    out.push(44);
    push_amount(out, c.available);
    out.push(44);
    push_amount(out, c.held);
    out.push(44);
    push_amount(out, c.total);
    out.push(44);
    if c.locked {
        let t: [u8; 4] = [116, 114, 117, 101];
        assert(t@ =~= bool_text(true));
        push_bytes(out, &t);
    } else {
        let f: [u8; 5] = [102, 97, 108, 115, 101];
        assert(f@ =~= bool_text(false));
        push_bytes(out, &f);
    }
    assert(out@ =~= start + row_text(*c));
}

impl Client {
    /// The account as a report row, without a line ending.
    pub fn to_row(&self) -> (r: Vec<u8>)
        ensures
            r@ == row_text(*self),
    {
        let mut out: Vec<u8> = Vec::new();
        push_row(&mut out, self);
        assert(out@ =~= row_text(*self));
        out
    }
}

/// The report over the given accounts, header first.
pub fn render_report(accounts: &Vec<Client>) -> (r: Vec<u8>)
    ensures
        r@ == report_text(accounts@),
{
    let header: [u8; 34] = [
        99, 108, 105, 101, 110, 116, 44, 97, 118, 97, 105, 108, 97, 98, 108, 101, 44, 104, 101, 108,
        100, 44, 116, 111, 116, 97, 108, 44, 108, 111, 99, 107, 101, 100,
    ];
    assert(header@ =~= header_text());
    let mut out: Vec<u8> = Vec::new();
    push_bytes(&mut out, &header);
    out.push(10);
    assert(out@ =~= report_text(accounts@.take(0)));
    let mut i: usize = 0;
    while i < accounts.len()
        invariant
            0 <= i <= accounts.len(),
            out@ == report_text(accounts@.take(i as int)),
        decreases accounts.len() - i,
    {
        assert(accounts@.take(i + 1).drop_last() =~= accounts@.take(i as int));
        push_row(&mut out, &accounts[i]);
        out.push(10);
        i += 1;
        assert(out@ =~= report_text(accounts@.take(i as int)));
    }
    assert(accounts@.take(accounts.len() as int) =~= accounts@);
    out
}

impl TransactionEngine {
    /// The report of all accounts, ascending by client id.
    pub fn report(&self) -> (r: Vec<u8>)
        ensures
            r@ == report_text(snapshot_of(self@.clients)),
    {
        render_report(&self.snapshot())
    }
}

} // verus!
