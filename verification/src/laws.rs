use vstd::prelude::*;

use crate::state::ChannelState;

verus! {

/// A protocol event, abstracted to what it means for the escrow
/// ledger: the key it touches and the amount it carries. Error
/// acknowledgements and timeouts move value back to the sender but
/// never touch the ledger.
pub ghost enum LedgerEvent {
    Receive { channel: Seq<char>, denom: Seq<char>, amount: u128 },
    AckSuccess { channel: Seq<char>, denom: Seq<char>, amount: u128 },
    AckError,
    Timeout,
}

/// What one event does to the ledger. This is exactly the ledger
/// clause of the corresponding handler's contract: a covered receive
/// debits `outstanding`; an uncovered one changes nothing; a confirmed
/// send credits both counters where they fit; failure paths change
/// nothing.
pub open spec fn apply_event(
    m: Map<(Seq<char>, Seq<char>), ChannelState>,
    e: LedgerEvent,
) -> Map<(Seq<char>, Seq<char>), ChannelState> {
    match e {
        LedgerEvent::Receive { channel, denom, amount } => {
            let k = (channel, denom);
            if m.contains_key(k) && m[k].outstanding >= amount {
                m.insert(
                    k,
                    ChannelState {
                        outstanding: (m[k].outstanding - amount) as u128,
                        total_sent: m[k].total_sent,
                    },
                )
            } else {
                m
            }
        },
        LedgerEvent::AckSuccess { channel, denom, amount } => {
            let k = (channel, denom);
            let prior = if m.contains_key(k) {
                m[k]
            } else {
                ChannelState { outstanding: 0, total_sent: 0 }
            };
            if prior.outstanding + amount <= u128::MAX && prior.total_sent + amount <= u128::MAX {
                m.insert(
                    k,
                    ChannelState {
                        outstanding: (prior.outstanding + amount) as u128,
                        total_sent: (prior.total_sent + amount) as u128,
                    },
                )
            } else {
                m
            }
        },
        LedgerEvent::AckError => m,
        LedgerEvent::Timeout => m,
    }
}

/// The ledger after a whole sequence of events.
pub open spec fn apply_events(
    m: Map<(Seq<char>, Seq<char>), ChannelState>,
    es: Seq<LedgerEvent>,
) -> Map<(Seq<char>, Seq<char>), ChannelState>
    decreases es.len(),
{
    if es.len() == 0 {
        m
    } else {
        apply_events(apply_event(m, es[0]), es.skip(1))
    }
}

/// No single receive can overdraw an entry: either the entry covers
/// the amount and is debited by exactly that amount, or the ledger is
/// left untouched — never a negative balance, never a partial debit.
pub proof fn lemma_no_overdraft(
    m: Map<(Seq<char>, Seq<char>), ChannelState>,
    channel: Seq<char>,
    denom: Seq<char>,
    amount: u128,
)
    ensures
        ({
            let k = (channel, denom);
            let m2 = apply_event(m, LedgerEvent::Receive { channel, denom, amount });
            if m.contains_key(k) && m[k].outstanding >= amount {
                m2[k].outstanding == m[k].outstanding - amount && m2[k].total_sent
                    == m[k].total_sent && (forall|k2: (Seq<char>, Seq<char>)|
                    k2 != k && m.contains_key(k2) ==> m2.contains_key(k2) && m2[k2] == m[k2])
            } else {
                m2 == m
            }
        }),
{
}

/// After any sequence of protocol events, in any order, every entry's
/// `outstanding` stays non-negative, no entry disappears, and every
/// `total_sent` counter has only grown.
pub proof fn lemma_outstanding_never_negative(
    m: Map<(Seq<char>, Seq<char>), ChannelState>,
    es: Seq<LedgerEvent>,
)
    ensures
        forall|k: (Seq<char>, Seq<char>)|
            m.contains_key(k) ==> #[trigger] apply_events(m, es).contains_key(k) && apply_events(
                m,
                es,
            )[k].outstanding >= 0 && apply_events(m, es)[k].total_sent >= m[k].total_sent,
    decreases es.len(),
{
    if es.len() > 0 {
        let m1 = apply_event(m, es[0]);
        lemma_outstanding_never_negative(m1, es.skip(1));
        let rest = apply_events(m1, es.skip(1));
        assert(apply_events(m, es) == rest);
        assert forall|k: (Seq<char>, Seq<char>)| m.contains_key(k) implies #[trigger] rest.contains_key(
            k,
        ) && rest[k].outstanding >= 0 && rest[k].total_sent >= m[k].total_sent by {
            assert(m1.contains_key(k) && m1[k].total_sent >= m[k].total_sent);
            assert(rest.contains_key(k) && rest[k].total_sent >= m1[k].total_sent);
        }
    }
}

} // verus!
