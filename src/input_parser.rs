//! Decoding of textual records into transactions.
//!
//! A record is a comma-separated line `type,client,tx,amount`. Whitespace inside a
//! line is removed before the fields are read; the kind is matched without regard
//! to case; the amount is a decimal with at most four fractional digits, kept as a
//! count of ten-thousandths.
use vstd::prelude::*;

use crate::transaction::{moves_funds, DecodeError, Transaction, TransactionType};

verus! {

/// Ten-thousandths in one unit of currency.
pub const AMOUNT_SCALE: u64 = 10000;

/// The largest whole part an amount may have: the whole part of the largest `i64`
/// balance.
pub const MAX_WHOLE: u64 = 922337203685477;

/// Bytes removed from a line before its fields are read: space and tab.
pub open spec fn is_blank(b: u8) -> bool {
    b == 32 || b == 9
}

/// The text with every space and tab removed, order otherwise kept.
pub open spec fn stripped(s: Seq<u8>) -> Seq<u8>
    decreases s.len(),
{
    if s.len() == 0 {
        Seq::empty()
    } else if is_blank(s.last()) {
        stripped(s.drop_last())
    } else {
        stripped(s.drop_last()).push(s.last())
    }
}

pub open spec fn is_digit(b: u8) -> bool {
    48 <= b <= 57
}

/// A non-empty run of decimal digits.
pub open spec fn all_digits(s: Seq<u8>) -> bool {
    s.len() > 0 && forall|i: int| 0 <= i < s.len() ==> is_digit(#[trigger] s[i])
}

/// The value of a run of decimal digits, most significant first.
pub open spec fn digits_value(s: Seq<u8>) -> nat
    decreases s.len(),
{
    if s.len() == 0 {
        0
    } else {
        digits_value(s.drop_last()) * 10 + (s.last() - 48) as nat
    }
}

/// The number a field denotes, if it is a run of digits whose value is at most `max`.
pub open spec fn number_of(s: Seq<u8>, max: nat) -> Option<nat> {
    if all_digits(s) && digits_value(s) <= max {
        Some(digits_value(s))
    } else {
        None
    }
}

pub open spec fn pow10(n: nat) -> nat
    decreases n,
{
    if n == 0 {
        1
    } else {
        10 * pow10((n - 1) as nat)
    }
}

/// Index of the first `b` in `s`, or its length if there is none.
pub open spec fn index_of(s: Seq<u8>, b: u8) -> nat
    decreases s.len(),
{
    if s.len() == 0 {
        0
    } else if s[0] == b {
        0
    } else {
        1 + index_of(s.skip(1), b)
    }
}

/// The amount a field denotes, in ten-thousandths: digits, optionally followed by
/// a dot and one to four fractional digits, with a whole part of at most `MAX_WHOLE`.
pub open spec fn amount_of(s: Seq<u8>) -> Option<nat> {
    let k = index_of(s, 46);
    let whole = s.take(k as int);
    let frac = s.skip(k + 1int);
    if !(all_digits(whole) && digits_value(whole) <= MAX_WHOLE) {
        None
    } else if k == s.len() {
        Some(digits_value(whole) * 10000)
    } else if all_digits(frac) && frac.len() <= 4 {
        Some(digits_value(whole) * 10000 + digits_value(frac) * pow10((4 - frac.len()) as nat))
    } else {
        None
    }
}

proof fn lemma_prefix_value_le(s: Seq<u8>, k: int)
    requires
        0 <= k <= s.len(),
    ensures
        digits_value(s.take(k)) <= digits_value(s),
    decreases s.len(),
{
    if k == s.len() {
        assert(s.take(k) =~= s);
    } else {
        lemma_prefix_value_le(s.drop_last(), k);
        assert(s.drop_last().take(k) =~= s.take(k));
    }
}

proof fn lemma_digits_bound(s: Seq<u8>)
    requires
        forall|i: int| 0 <= i < s.len() ==> is_digit(#[trigger] s[i]),
    ensures
        digits_value(s) < pow10(s.len()),
    decreases s.len(),
{
    if s.len() > 0 {
        let t = s.drop_last();
        assert forall|i: int| 0 <= i < t.len() implies is_digit(#[trigger] t[i]) by {
            assert(t[i] == s[i]);
        }
        lemma_digits_bound(t);
        assert(is_digit(s[s.len() - 1]));
    }
}

proof fn lemma_index_of(s: Seq<u8>, b: u8, k: int)
    requires
        0 <= k <= s.len(),
        forall|j: int| 0 <= j < k ==> s[j] != b,
        k == s.len() || s[k] == b,
    ensures
        index_of(s, b) == k,
    decreases s.len(),
{
    if s.len() > 0 && k > 0 {
        lemma_index_of(s.skip(1), b, k - 1);
    }
}

/// Position of the first `b` in `s`, or its length.
fn find_byte(s: &[u8], b: u8) -> (k: usize)
    ensures
        k == index_of(s@, b),
        k <= s@.len(),
        k < s@.len() ==> s@[k as int] == b,
{
    let mut k: usize = 0;
    while k < s.len() && s[k] != b
        invariant
            0 <= k <= s.len(),
            forall|j: int| 0 <= j < k ==> s@[j] != b,
        decreases s.len() - k,
    {
        k += 1;
    }
    proof {
        lemma_index_of(s@, b, k as int);
    }
    k
}

/// Removes every space and tab from `s`.
pub fn strip_whitespace(s: &[u8]) -> (r: Vec<u8>)
    ensures
        r@ == stripped(s@),
{
    let mut r: Vec<u8> = Vec::new();
    let mut i: usize = 0;
    while i < s.len()
        invariant
            0 <= i <= s.len(),
            r@ == stripped(s@.take(i as int)),
        decreases s.len() - i,
    {
        let b = s[i];
        if b != 32 && b != 9 {
            r.push(b);
        }
        i += 1;
        assert(s@.take(i as int).drop_last() =~= s@.take(i - 1));
    }
    assert(s@.take(s.len() as int) =~= s@);
    r
}

/// Reads a run of decimal digits whose value is at most `max`.
pub fn parse_number(s: &[u8], max: u64) -> (r: Option<u64>)
    ensures
        r matches Some(v) ==> number_of(s@, max as nat) == Some(v as nat),
        r is None ==> number_of(s@, max as nat) is None,
{
    if s.len() == 0 {
        return None;
    }
    let mut acc: u64 = 0;
    let mut i: usize = 0;
    while i < s.len()
        invariant
            0 < s.len(),
            0 <= i <= s.len(),
            acc == digits_value(s@.take(i as int)),
            acc <= max,
            forall|j: int| 0 <= j < i ==> is_digit(#[trigger] s@[j]),
        decreases s.len() - i,
    {
        let b = s[i];
        if b < 48 || b > 57 {
            assert(!is_digit(s@[i as int]));
            return None;
        }
        let next: u128 = acc as u128 * 10 + (b - 48) as u128;
        assert(s@.take(i + 1).drop_last() =~= s@.take(i as int));
        if next > max as u128 {
            proof {
                lemma_prefix_value_le(s@, i + 1);
            }
            return None;
        }
        acc = next as u64;
        i += 1;
    }
    assert(s@.take(s.len() as int) =~= s@);
    Some(acc)
}

/// Reads an amount in ten-thousandths (see `amount_of`).
pub fn parse_amount(s: &[u8]) -> (r: Option<u64>)
    ensures
        r matches Some(v) ==> amount_of(s@) == Some(v as nat),
        r is None ==> amount_of(s@) is None,
{
    let k = find_byte(s, 46);
    let whole = match parse_number(&s[0..k], MAX_WHOLE) {
        Some(w) => w,
        None => {
            assert(s@.subrange(0, k as int) =~= s@.take(k as int));
            return None;
        },
    };
    assert(s@.subrange(0, k as int) =~= s@.take(k as int));
    if k == s.len() {
        return Some(whole * AMOUNT_SCALE);
    }
    let frac_bytes = &s[k + 1..s.len()];
    assert(frac_bytes@ =~= s@.skip(k + 1));
    if frac_bytes.len() > 4 {
        return None;
    }
    proof {
        reveal_with_fuel(pow10, 5);
        if all_digits(frac_bytes@) {
            lemma_digits_bound(frac_bytes@);
        }
    }
    let frac = match parse_number(frac_bytes, 9999) {
        Some(f) => f,
        None => {
            return None;
        },
    };
    let len = frac_bytes.len();
    let scale: u64 = if len == 1 {
        1000
    } else if len == 2 {
        100
    } else if len == 3 {
        10
    } else {
        1
    };
    proof {
        reveal_with_fuel(pow10, 5);
        lemma_digits_bound(frac_bytes@);
        assert(scale == pow10((4 - len) as nat));
        assert(pow10(len as nat) <= 10000);
    }
    assert(frac * scale <= 9999 * 1000) by (nonlinear_arith)
        requires frac <= 9999, scale <= 1000;
    Some(whole * AMOUNT_SCALE + frac * scale)
}

/// A byte with ASCII upper case mapped to lower case.
pub open spec fn lower(b: u8) -> u8 {
    if 65 <= b <= 90 {
        (b + 32) as u8
    } else {
        b
    }
}

/// `f` spells the lower-case word `w`, ignoring case.
pub open spec fn spells(f: Seq<u8>, w: Seq<u8>) -> bool {
    f.len() == w.len() && forall|i: int| 0 <= i < f.len() ==> lower(#[trigger] f[i]) == w[i]
}

/// The lower-case name of each kind.
pub open spec fn kind_word(k: TransactionType) -> Seq<u8> {
    match k {
        TransactionType::Chargeback => seq![99u8, 104, 97, 114, 103, 101, 98, 97, 99, 107],
        TransactionType::Deposit => seq![100u8, 101, 112, 111, 115, 105, 116],
        TransactionType::Dispute => seq![100u8, 105, 115, 112, 117, 116, 101],
        TransactionType::Resolve => seq![114u8, 101, 115, 111, 108, 118, 101],
        TransactionType::Withdrawal => seq![119u8, 105, 116, 104, 100, 114, 97, 119, 97, 108],
    }
}

/// The kind a field names, matched without regard to case.
pub open spec fn kind_of(f: Seq<u8>) -> Option<TransactionType> {
    if spells(f, kind_word(TransactionType::Chargeback)) {
        Some(TransactionType::Chargeback)
    } else if spells(f, kind_word(TransactionType::Deposit)) {
        Some(TransactionType::Deposit)
    } else if spells(f, kind_word(TransactionType::Dispute)) {
        Some(TransactionType::Dispute)
    } else if spells(f, kind_word(TransactionType::Resolve)) {
        Some(TransactionType::Resolve)
    } else if spells(f, kind_word(TransactionType::Withdrawal)) {
        Some(TransactionType::Withdrawal)
    } else {
        None
    }
}

fn spells_word(f: &[u8], w: &[u8]) -> (r: bool)
    ensures
        r == spells(f@, w@),
{
    if f.len() != w.len() {
        return false;
    }
    let mut i: usize = 0;
    while i < f.len()
        invariant
            f.len() == w.len(),
            0 <= i <= f.len(),
            forall|j: int| 0 <= j < i ==> lower(#[trigger] f@[j]) == w@[j],
        decreases f.len() - i,
    {
        let b = f[i];
        let l = if 65 <= b && b <= 90 {
            b + 32
        } else {
            b
        };
        if l != w[i] {
            return false;
        }
        i += 1;
    }
    true
}

/// Reads the kind named by a field.
pub fn parse_kind(f: &[u8]) -> (r: Option<TransactionType>)
    ensures
        r == kind_of(f@),
{
    let chargeback: [u8; 10] = [99, 104, 97, 114, 103, 101, 98, 97, 99, 107];
    let deposit: [u8; 7] = [100, 101, 112, 111, 115, 105, 116];
    let dispute: [u8; 7] = [100, 105, 115, 112, 117, 116, 101];
    let resolve: [u8; 7] = [114, 101, 115, 111, 108, 118, 101];
    let withdrawal: [u8; 10] = [119, 105, 116, 104, 100, 114, 97, 119, 97, 108];
    assert(chargeback@ =~= kind_word(TransactionType::Chargeback));
    assert(deposit@ =~= kind_word(TransactionType::Deposit));
    assert(dispute@ =~= kind_word(TransactionType::Dispute));
    assert(resolve@ =~= kind_word(TransactionType::Resolve));
    assert(withdrawal@ =~= kind_word(TransactionType::Withdrawal));
    if spells_word(f, &chargeback) {
        Some(TransactionType::Chargeback)
    } else if spells_word(f, &deposit) {
        Some(TransactionType::Deposit)
    } else if spells_word(f, &dispute) {
        Some(TransactionType::Dispute)
    } else if spells_word(f, &resolve) {
        Some(TransactionType::Resolve)
    } else if spells_word(f, &withdrawal) {
        Some(TransactionType::Withdrawal)
    } else {
        None
    }
}

/// The amount field of a record: the fourth field, or nothing when there are three.
pub open spec fn amount_field(fields: Seq<Seq<u8>>) -> Seq<u8> {
    if fields.len() == 4 {
        fields[3]
    } else {
        Seq::empty()
    }
}

/// The transaction one record denotes, or the first reason it denotes none.
pub open spec fn record_of(fields: Seq<Seq<u8>>) -> Result<Transaction, DecodeError> {
    if fields.len() < 3 || fields.len() > 4 {
        Err(DecodeError::FieldCount)
    } else {
        match kind_of(fields[0]) {
            None => Err(DecodeError::UnknownKind),
            Some(kind) => match number_of(fields[1], 65535) {
                None => Err(DecodeError::MalformedClient),
                Some(client) => match number_of(fields[2], 4294967295) {
                    None => Err(DecodeError::MalformedTx),
                    Some(tx) => {
                        let a = amount_field(fields);
                        if moves_funds(kind) {
                            if a.len() == 0 {
                                Err(DecodeError::MissingAmount)
                            } else {
                                match amount_of(a) {
                                    None => Err(DecodeError::MalformedAmount),
                                    Some(v) => Ok(
                                        Transaction {
                                            kind,
                                            client: client as u16,
                                            tx: tx as u32,
                                            amount: Some(v as u64),
                                        },
                                    ),
                                }
                            }
                        } else if a.len() == 0 {
                            Ok(Transaction { kind, client: client as u16, tx: tx as u32, amount: None })
                        } else {
                            Err(DecodeError::UnexpectedAmount)
                        }
                    },
                },
            },
        }
    }
}

/// The transactions a sequence of records denotes, in order, or the error of the
/// first record that denotes none.
pub open spec fn records_of(rows: Seq<Seq<Seq<u8>>>) -> Result<Seq<Transaction>, DecodeError>
    decreases rows.len(),
{
    if rows.len() == 0 {
        Ok(Seq::empty())
    } else {
        match records_of(rows.drop_last()) {
            Err(e) => Err(e),
            Ok(ts) => match record_of(rows.last()) {
                Err(e) => Err(e),
                Ok(t) => Ok(ts.push(t)),
            },
        }
    }
}

/// A decoded vector seen as a sequence.
pub open spec fn seq_result(r: Result<Vec<Transaction>, DecodeError>) -> Result<
    Seq<Transaction>,
    DecodeError,
> {
    match r {
        Ok(v) => Ok(v@),
        Err(e) => Err(e),
    }
}

/// Decodes one record given as its fields.
pub fn decode_record(fields: &Vec<Vec<u8>>) -> (r: Result<Transaction, DecodeError>)
    ensures
        r == record_of(fields.deep_view()),
{
    let ghost fs = fields.deep_view();
    if fields.len() < 3 || fields.len() > 4 {
        return Err(DecodeError::FieldCount);
    }
    assert(fs[0] == fields[0]@ && fs[1] == fields[1]@ && fs[2] == fields[2]@);
    let kind = match parse_kind(fields[0].as_slice()) {
        Some(k) => k,
        None => {
            return Err(DecodeError::UnknownKind);
        },
    };
    let client = match parse_number(fields[1].as_slice(), 65535) {
        Some(c) => c as u16,
        None => {
            return Err(DecodeError::MalformedClient);
        },
    };
    let tx = match parse_number(fields[2].as_slice(), 4294967295) {
        Some(x) => x as u32,
        None => {
            return Err(DecodeError::MalformedTx);
        },
    };
    let empty: Vec<u8> = Vec::new();
    let a: &Vec<u8> = if fields.len() == 4 {
        &fields[3]
    } else {
        &empty
    };
    assert(a@ == amount_field(fs));
    let funds = match kind {
        TransactionType::Deposit | TransactionType::Withdrawal => true,
        _ => false,
    };
    if funds {
        if a.len() == 0 {
            Err(DecodeError::MissingAmount)
        } else {
            match parse_amount(a.as_slice()) {
                None => Err(DecodeError::MalformedAmount),
                Some(v) => Ok(Transaction { kind, client, tx, amount: Some(v) }),
            }
        }
    } else if a.len() == 0 {
        Ok(Transaction { kind, client, tx, amount: None })
    } else {
        Err(DecodeError::UnexpectedAmount)
    }
}

/// Decodes records given as their fields, in order, stopping at the first that
/// does not decode.
pub fn decode_records(rows: &Vec<Vec<Vec<u8>>>) -> (r: Result<Vec<Transaction>, DecodeError>)
    ensures
        seq_result(r) == records_of(rows.deep_view()),
{
    let ghost all = rows.deep_view();
    let mut out: Vec<Transaction> = Vec::new();
    let mut i: usize = 0;
    while i < rows.len()
        invariant
            0 <= i <= rows.len(),
            all == rows.deep_view(),
            records_of(all.take(i as int)) == Ok::<Seq<Transaction>, DecodeError>(out@),
        decreases rows.len() - i,
    {
        assert(all.take(i + 1).drop_last() =~= all.take(i as int));
        assert(all.take(i + 1).last() == rows[i as int].deep_view());
        match decode_record(&rows[i]) {
            Ok(t) => {
                out.push(t);
            },
            Err(e) => {
                proof {
                    lemma_records_stop(all, i as int + 1, e);
                }
                return Err(e);
            },
        }
        i += 1;
    }
    assert(all.take(rows.len() as int) =~= all);
    Ok(out)
}

/// Once a prefix of the records fails, every longer prefix fails the same way.
proof fn lemma_records_stop(rows: Seq<Seq<Seq<u8>>>, k: int, e: DecodeError)
    requires
        0 <= k <= rows.len(),
        records_of(rows.take(k)) == Err::<Seq<Transaction>, DecodeError>(e),
    ensures
        records_of(rows) == Err::<Seq<Transaction>, DecodeError>(e),
    decreases rows.len() - k,
{
    if k < rows.len() {
        assert(rows.take(k + 1).drop_last() =~= rows.take(k));
        lemma_records_stop(rows, k + 1, e);
    } else {
        assert(rows.take(k) =~= rows);
    }
}

/// What csv makes of a text read without a header row, records of any length
/// accepted: the fields of each record in order, or `None` if it refuses the text.
pub uninterp spec fn csv_fields(text: Seq<u8>) -> Option<Seq<Seq<Seq<u8>>>>;

/// Relies on csv's `ReaderBuilder` (`has_headers(false)`, `flexible(true)`) and
/// `Reader::byte_records`: the records of an in-memory text, each as its fields,
/// in order; the result depends on the bytes alone.
#[verifier::external_body]
fn split_records(text: &[u8]) -> (r: Option<Vec<Vec<Vec<u8>>>>)
    ensures
        r matches Some(rows) ==> csv_fields(text@) == Some(rows.deep_view()),
        r is None ==> csv_fields(text@) is None,
{
    let mut reader = csv::ReaderBuilder::new().has_headers(false).flexible(true).from_reader(text);
    reader.byte_records().map(|rec| rec.map(|fields| fields.iter().map(|f| f.to_vec()).collect()))
        .collect::<Result<Vec<Vec<Vec<u8>>>, csv::Error>>().ok()
}

/// The transactions a chunk of record lines denotes: blanks removed, records
/// split by csv, then each record decoded.
pub open spec fn chunk_of(text: Seq<u8>) -> Result<Seq<Transaction>, DecodeError> {
    match csv_fields(stripped(text)) {
        None => Err(DecodeError::MalformedText),
        Some(rows) => records_of(rows),
    }
}

/// Decodes a chunk of record lines (no header line).
pub fn decode_chunk(text: &[u8]) -> (r: Result<Vec<Transaction>, DecodeError>)
    ensures
        seq_result(r) == chunk_of(text@),
{
    let clean = strip_whitespace(text);
    match split_records(clean.as_slice()) {
        None => Err(DecodeError::MalformedText),
        Some(rows) => decode_records(&rows),
    }
}

/// Decoded chunks joined in chunk order; the first failed chunk decides the error.
pub open spec fn joined(parts: Seq<Result<Vec<Transaction>, DecodeError>>) -> Result<
    Seq<Transaction>,
    DecodeError,
>
    decreases parts.len(),
{
    if parts.len() == 0 {
        Ok(Seq::empty())
    } else {
        match joined(parts.drop_last()) {
            Err(e) => Err(e),
            Ok(ts) => match parts.last() {
                Err(e) => Err(e),
                Ok(v) => Ok(ts + v@),
            },
        }
    }
}

/// Joins the results of decoding consecutive chunks, in chunk order (never in the
/// order they finished); fails with the first chunk's error if any chunk failed.
pub fn reassemble(parts: &Vec<Result<Vec<Transaction>, DecodeError>>) -> (r: Result<
    Vec<Transaction>,
    DecodeError,
>)
    ensures
        seq_result(r) == joined(parts@),
{
    let mut out: Vec<Transaction> = Vec::new();
    let mut i: usize = 0;
    while i < parts.len()
        invariant
            0 <= i <= parts.len(),
            joined(parts@.take(i as int)) == Ok::<Seq<Transaction>, DecodeError>(out@),
        decreases parts.len() - i,
    {
        assert(parts@.take(i + 1).drop_last() =~= parts@.take(i as int));
        match &parts[i] {
            Ok(v) => {
                let ghost before = out@;
                let mut j: usize = 0;
                while j < v.len()
                    invariant
                        0 <= j <= v.len(),
                        out@ == before + v@.take(j as int),
                    decreases v.len() - j,
                {
                    out.push(v[j]);
                    j += 1;
                    assert(out@ =~= before + v@.take(j as int));
                }
                assert(v@.take(v.len() as int) =~= v@);
            },
            Err(e) => {
                proof {
                    lemma_joined_stop(parts@, i as int + 1, *e);
                }
                return Err(*e);
            },
        }
        i += 1;
    }
    assert(parts@.take(parts.len() as int) =~= parts@);
    Ok(out)
}

/// Once a prefix of the chunks fails, every longer prefix fails the same way.
proof fn lemma_joined_stop(parts: Seq<Result<Vec<Transaction>, DecodeError>>, k: int, e: DecodeError)
    requires
        0 <= k <= parts.len(),
        joined(parts.take(k)) == Err::<Seq<Transaction>, DecodeError>(e),
    ensures
        joined(parts) == Err::<Seq<Transaction>, DecodeError>(e),
    decreases parts.len() - k,
{
    if k < parts.len() {
        assert(parts.take(k + 1).drop_last() =~= parts.take(k));
        lemma_joined_stop(parts, k + 1, e);
    } else {
        assert(parts.take(k) =~= parts);
    }
}

/// Record lines per chunk unless configured otherwise.
pub const DEFAULT_CHUNK_SIZE: usize = 100000;

/// Splits a record source into chunks of lines that can be decoded independently
/// and joined back in order with `reassemble`.
#[derive(Debug)]
pub struct InputParser {
    pub chunk_size: usize,
}

/// The text after its first line; empty if it has a single line.
pub open spec fn body_of(text: Seq<u8>) -> Seq<u8> {
    let k = index_of(text, 10);
    if k < text.len() {
        text.skip(k + 1int)
    } else {
        Seq::empty()
    }
}

impl InputParser {
    pub fn new() -> (r: InputParser)
        ensures
            r.chunk_size == DEFAULT_CHUNK_SIZE,
    {
        InputParser { chunk_size: DEFAULT_CHUNK_SIZE }
    }

    /// A parser that cuts chunks of `lines` lines; a size of zero is taken as one.
    pub fn with_chunk_size(lines: usize) -> (r: InputParser)
        ensures
            r.chunk_size == if lines == 0 {
                1
            } else {
                lines
            },
    {
        InputParser { chunk_size: if lines == 0 {
            1
        } else {
            lines
        } }
    }

    /// Whether a chunk holding `lines` record lines is complete and should be decoded.
    pub fn chunk_full(&self, lines: usize) -> (r: bool)
        ensures
            r == (lines >= self.chunk_size),
    {
        lines >= self.chunk_size
    }

    /// Decodes a whole source in one piece: the first line is the header and is
    /// skipped, the rest is decoded as one chunk.
    pub fn parse_transactions(&self, text: &[u8]) -> (r: Result<Vec<Transaction>, DecodeError>)
        ensures
            seq_result(r) == chunk_of(body_of(text@)),
    {
        let k = find_byte(text, 10);
        if k < text.len() {
            let body = &text[k + 1..text.len()];
            assert(body@ =~= text@.skip(k + 1));
            decode_chunk(body)
        } else {
            let empty: [u8; 0] = [];
            assert(empty@ =~= Seq::<u8>::empty());
            decode_chunk(&empty)
        }
    }
}

} // verus!
