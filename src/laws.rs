//! Properties of the ledger that hold of every state and every transaction.
use vstd::prelude::*;

use crate::input_parser::{joined, records_of, seq_result};
use crate::transaction::{DecodeError, Transaction, TransactionType};
use crate::transaction_engine::{run, step, Ledger, Outcome, TxState};

verus! {

/// The empty ledger is balanced.
pub proof fn lemma_empty_balanced()
    ensures
        Ledger::empty().wf(),
{
}

/// Every transaction keeps every account balanced: `total == available + held`.
pub proof fn lemma_step_keeps_balance(s: Ledger, t: Transaction)
    requires
        s.wf(),
    ensures
        step(s, t).0.wf(),
{
    let n = step(s, t).0;
    assert forall|c: u16| #[trigger] n.clients.contains_key(c) implies n.clients[c].client == c
        && n.clients[c].balanced() by {
        if c != t.client {
            assert(s.clients.contains_key(c));
        }
    }
}

/// Every run keeps every account balanced, at every point and at its end.
pub proof fn lemma_run_keeps_balance(s: Ledger, ts: Seq<Transaction>)
    requires
        s.wf(),
    ensures
        run(s, ts).0.wf(),
    decreases ts.len(),
{
    if ts.len() > 0 {
        lemma_run_keeps_balance(s, ts.drop_last());
        lemma_step_keeps_balance(run(s, ts.drop_last()).0, ts.last());
    }
}

/// Applying a resolve or a chargeback a second time changes nothing more.
pub proof fn lemma_settle_idempotent(s: Ledger, t: Transaction)
    requires
        t.kind == TransactionType::Resolve || t.kind == TransactionType::Chargeback,
    ensures
        step(step(s, t).0, t).0 == step(s, t).0,
{
    let once = step(s, t).0;
    if once != s {
        assert(once.history[t.tx].state != TxState::Disputed);
    }
}

/// A dispute followed at once by a resolve of the same transaction, by the same
/// client, gives back the ledger as it was, unless the transaction was already
/// under dispute; the dispute moves funds between available and held and leaves
/// every total as it was.
pub proof fn lemma_dispute_resolve_round_trip(s: Ledger, d: Transaction, r: Transaction)
    requires
        d.kind == TransactionType::Dispute,
        r.kind == TransactionType::Resolve,
        d.client == r.client,
        d.tx == r.tx,
        !(s.history.contains_key(d.tx) && s.history[d.tx].state == TxState::Disputed),
    ensures
        step(step(s, d).0, r).0 == s,
        step(s, d).0.clients.dom() == s.clients.dom(),
        forall|c: u16| #[trigger]
            s.clients.contains_key(c) ==> step(s, d).0.clients[c].total == s.clients[c].total,
{
    let mid = step(s, d).0;
    let back = step(mid, r).0;
    if mid != s {
        assert(back.clients =~= s.clients);
        assert(back.history =~= s.history);
    }
    assert(mid.clients.dom() =~= s.clients.dom());
}

/// A dispute of a transaction that is not (yet) recorded leaves the ledger as it
/// was and is skipped, not an error: a dispute that comes before the deposit it
/// names has no effect.
pub proof fn lemma_dispute_of_unknown_is_skipped(s: Ledger, t: Transaction)
    requires
        t.kind == TransactionType::Dispute,
        !s.history.contains_key(t.tx),
    ensures
        step(s, t).0 == s,
        step(s, t).1 is Ok,
        step(s, t).1 != Ok::<Outcome, crate::transaction_engine::LedgerError>(Outcome::Applied),
{
}

/// What a map holds under a key, as an option.
pub open spec fn entry<K, V>(m: Map<K, V>, k: K) -> Option<V> {
    if m.contains_key(k) {
        Some(m[k])
    } else {
        None
    }
}

/// A transaction changes at most the account of its client and the record of
/// its transaction id.
pub proof fn lemma_step_local(s: Ledger, t: Transaction)
    ensures
        forall|c: u16| c != t.client ==> #[trigger] entry(step(s, t).0.clients, c) == entry(s.clients, c),
        forall|x: u32| x != t.tx ==> #[trigger] entry(step(s, t).0.history, x) == entry(s.history, x),
{
}

/// What a transaction does depends only on the account of its client and the
/// record of its transaction id.
pub proof fn lemma_step_reads_local(s1: Ledger, s2: Ledger, t: Transaction)
    requires
        entry(s1.clients, t.client) == entry(s2.clients, t.client),
        entry(s1.history, t.tx) == entry(s2.history, t.tx),
    ensures
        step(s1, t).1 == step(s2, t).1,
        entry(step(s1, t).0.clients, t.client) == entry(step(s2, t).0.clients, t.client),
        entry(step(s1, t).0.history, t.tx) == entry(step(s2, t).0.history, t.tx),
{
}

/// Two transactions of different clients and different transaction ids can be
/// swapped: the ledger after both is the same, and each has the same outcome in
/// either order.
pub proof fn lemma_unrelated_commute(s: Ledger, a: Transaction, b: Transaction)
    requires
        a.client != b.client,
        a.tx != b.tx,
    ensures
        step(step(s, a).0, b).0 == step(step(s, b).0, a).0,
        step(step(s, a).0, b).1 == step(s, b).1,
        step(step(s, b).0, a).1 == step(s, a).1,
{
    let sa = step(s, a).0;
    let sb = step(s, b).0;
    lemma_step_local(s, a);
    lemma_step_local(s, b);
    lemma_step_reads_local(s, sb, a);
    lemma_step_reads_local(s, sa, b);
    let ab = step(sa, b).0;
    let ba = step(sb, a).0;
    lemma_step_local(sa, b);
    lemma_step_local(sb, a);
    assert forall|c: u16| #[trigger] ab.clients.contains_key(c) == ba.clients.contains_key(c) && (
    ab.clients.contains_key(c) ==> ab.clients[c] == ba.clients[c]) by {
        assert(entry(ab.clients, c) == entry(ba.clients, c));
    }
    assert forall|x: u32| #[trigger] ab.history.contains_key(x) == ba.history.contains_key(x) && (
    ab.history.contains_key(x) ==> ab.history[x] == ba.history[x]) by {
        assert(entry(ab.history, x) == entry(ba.history, x));
    }
    assert(ab.clients =~= ba.clients);
    assert(ab.history =~= ba.history);
}

/// Groups of records laid end to end.
pub open spec fn concat_groups(groups: Seq<Seq<Seq<Seq<u8>>>>) -> Seq<Seq<Seq<u8>>>
    decreases groups.len(),
{
    if groups.len() == 0 {
        Seq::empty()
    } else {
        concat_groups(groups.drop_last()) + groups.last()
    }
}

/// Decoding two runs of records one after the other is decoding them together.
pub proof fn lemma_records_concat(a: Seq<Seq<Seq<u8>>>, b: Seq<Seq<Seq<u8>>>)
    ensures
        records_of(a + b) == match records_of(a) {
            Err(e) => Err(e),
            Ok(x) => match records_of(b) {
                Err(e) => Err(e),
                Ok(y) => Ok::<Seq<Transaction>, DecodeError>(x + y),
            },
        },
    decreases b.len(),
{
    if b.len() == 0 {
        assert(a + b =~= a);
        if let Ok(x) = records_of(a) {
            assert(x + Seq::<Transaction>::empty() =~= x);
        }
    } else {
        assert((a + b).drop_last() =~= a + b.drop_last());
        assert((a + b).last() == b.last());
        lemma_records_concat(a, b.drop_last());
        if let Ok(x) = records_of(a) {
            if let Ok(y) = records_of(b.drop_last()) {
                if let Ok(t) = crate::input_parser::record_of(b.last()) {
                    assert(x + y.push(t) =~= (x + y).push(t));
                }
            }
        }
    }
}

/// Order is kept across chunks: decoding consecutive groups of records each on
/// its own and joining the results in group order gives exactly what decoding
/// all the records at once gives, the same transactions or the same first error.
pub proof fn lemma_chunked_decoding_keeps_order(
    groups: Seq<Seq<Seq<Seq<u8>>>>,
    parts: Seq<Result<Vec<Transaction>, DecodeError>>,
)
    requires
        parts.len() == groups.len(),
        forall|i: int| 0 <= i < parts.len() ==> seq_result(#[trigger] parts[i]) == records_of(groups[i]),
    ensures
        joined(parts) == records_of(concat_groups(groups)),
    decreases parts.len(),
{
    if parts.len() > 0 {
        let n = parts.len() - 1;
        assert forall|i: int| 0 <= i < n implies seq_result(#[trigger] parts.drop_last()[i])
            == records_of(groups.drop_last()[i]) by {
            assert(seq_result(parts[i]) == records_of(groups[i]));
        }
        lemma_chunked_decoding_keeps_order(groups.drop_last(), parts.drop_last());
        lemma_records_concat(concat_groups(groups.drop_last()), groups.last());
        assert(seq_result(parts[n]) == records_of(groups[n]));
    }
}

} // verus!
