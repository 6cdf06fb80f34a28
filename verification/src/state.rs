use vstd::prelude::*;

use crate::channel::{str_eq, ChannelInfo, ChannelInfoV};
use crate::error::ContractError;

verus! {

/// One escrow ledger record: the running balances for a (channel,
/// denomination) pair. `outstanding` is what is currently escrowed on
/// behalf of the channel; `total_sent` counts all value ever confirmed
/// sent out over it, and only grows.
#[derive(Debug, Clone, Copy, PartialEq, Eq, Structural)]
pub struct ChannelState {
    pub outstanding: u128,
    pub total_sent: u128,
}

/// A ledger entry together with its key.
#[derive(Debug, Clone, PartialEq)]
pub struct LedgerEntry {
    pub channel: String,
    pub denom: String,
    pub state: ChannelState,
}

/// The key of a ledger entry: (channel identifier, denomination).
pub open spec fn spec_ledger_key(e: LedgerEntry) -> (Seq<char>, Seq<char>) {
    (e.channel@, e.denom@)
}

/// The mapping a sequence of ledger entries denotes.
pub open spec fn ledger_map_of(s: Seq<LedgerEntry>) -> Map<(Seq<char>, Seq<char>), ChannelState>
    decreases s.len(),
{
    if s.len() == 0 {
        Map::empty()
    } else {
        ledger_map_of(s.drop_last()).insert(spec_ledger_key(s.last()), s.last().state)
    }
}

/// No two entries share a key.
pub open spec fn unique_ledger_keys(s: Seq<LedgerEntry>) -> bool {
    forall|i: int, j: int|
        0 <= i < j < s.len() ==> spec_ledger_key(s[i]) != spec_ledger_key(s[j])
}

/// The mapping a sequence of registry records denotes, keyed by the
/// local channel identifier.
pub open spec fn channels_map_of(s: Seq<ChannelInfo>) -> Map<Seq<char>, ChannelInfoV>
    decreases s.len(),
{
    if s.len() == 0 {
        Map::empty()
    } else {
        channels_map_of(s.drop_last()).insert(s.last().id@, s.last()@)
    }
}

/// No two registry records share an identifier.
pub open spec fn unique_channel_ids(s: Seq<ChannelInfo>) -> bool {
    forall|i: int, j: int| 0 <= i < j < s.len() ==> s[i].id@ != s[j].id@
}

pub proof fn lemma_ledger_map_domain(s: Seq<LedgerEntry>, k: (Seq<char>, Seq<char>))
    ensures
        ledger_map_of(s).contains_key(k) <==> exists|i: int|
            0 <= i < s.len() && spec_ledger_key(s[i]) == k,
    decreases s.len(),
{
    if s.len() > 0 {
        lemma_ledger_map_domain(s.drop_last(), k);
        if ledger_map_of(s).contains_key(k) {
            if spec_ledger_key(s.last()) == k {
                assert(spec_ledger_key(s[s.len() - 1]) == k);
            } else {
                let i = choose|i: int|
                    0 <= i < s.drop_last().len() && spec_ledger_key(s.drop_last()[i]) == k;
                assert(spec_ledger_key(s[i]) == k);
            }
        }
        if exists|i: int| 0 <= i < s.len() && spec_ledger_key(s[i]) == k {
            let i = choose|i: int| 0 <= i < s.len() && spec_ledger_key(s[i]) == k;
            if i < s.len() - 1 {
                assert(spec_ledger_key(s.drop_last()[i]) == k);
            }
        }
    }
}

pub proof fn lemma_ledger_map_at(s: Seq<LedgerEntry>, i: int)
    requires
        unique_ledger_keys(s),
        0 <= i < s.len(),
    ensures
        ledger_map_of(s).contains_key(spec_ledger_key(s[i])),
        ledger_map_of(s)[spec_ledger_key(s[i])] == s[i].state,
    decreases s.len(),
{
    if i < s.len() - 1 {
        assert(unique_ledger_keys(s.drop_last())) by {
            assert(forall|a: int, b: int|
                0 <= a < b < s.drop_last().len() ==> spec_ledger_key(s.drop_last()[a])
                    != spec_ledger_key(s.drop_last()[b])) by {
                assert(forall|a: int, b: int|
                    0 <= a < b < s.drop_last().len() ==> s.drop_last()[a] == s[a]
                        && s.drop_last()[b] == s[b]);
            }
        }
        lemma_ledger_map_at(s.drop_last(), i);
        assert(spec_ledger_key(s.last()) != spec_ledger_key(s[i]));
        assert(s.drop_last()[i] == s[i]);
    }
}

pub proof fn lemma_ledger_map_update(s: Seq<LedgerEntry>, i: int, e: LedgerEntry)
    requires
        unique_ledger_keys(s),
        0 <= i < s.len(),
        spec_ledger_key(e) == spec_ledger_key(s[i]),
    ensures
        ledger_map_of(s.update(i, e)) =~= ledger_map_of(s).insert(spec_ledger_key(e), e.state),
        unique_ledger_keys(s.update(i, e)),
    decreases s.len(),
{
    assert(forall|a: int| 0 <= a < s.len() && a != i ==> s.update(i, e)[a] == s[a]);
    if i == s.len() - 1 {
        assert(s.update(i, e).drop_last() =~= s.drop_last());
        assert(s.update(i, e).last() == e);
    } else {
        assert(unique_ledger_keys(s.drop_last())) by {
            assert(forall|a: int, b: int|
                0 <= a < b < s.drop_last().len() ==> s.drop_last()[a] == s[a] && s.drop_last()[b]
                    == s[b]);
        }
        lemma_ledger_map_update(s.drop_last(), i, e);
        assert(s.update(i, e).drop_last() =~= s.drop_last().update(i, e));
        assert(s.update(i, e).last() == s.last());
        assert(spec_ledger_key(s.last()) != spec_ledger_key(e));
    }
}

pub proof fn lemma_ledger_map_push(s: Seq<LedgerEntry>, e: LedgerEntry)
    requires
        unique_ledger_keys(s),
        forall|i: int| 0 <= i < s.len() ==> spec_ledger_key(s[i]) != spec_ledger_key(e),
    ensures
        ledger_map_of(s.push(e)) == ledger_map_of(s).insert(spec_ledger_key(e), e.state),
        unique_ledger_keys(s.push(e)),
{
    assert(s.push(e).drop_last() =~= s);
    assert(s.push(e).last() == e);
    assert(forall|a: int| 0 <= a < s.len() ==> s.push(e)[a] == s[a]);
}

pub proof fn lemma_channels_map_domain(s: Seq<ChannelInfo>, k: Seq<char>)
    ensures
        channels_map_of(s).contains_key(k) <==> exists|i: int| 0 <= i < s.len() && s[i].id@ == k,
    decreases s.len(),
{
    if s.len() > 0 {
        lemma_channels_map_domain(s.drop_last(), k);
        if channels_map_of(s).contains_key(k) {
            if s.last().id@ == k {
                assert(s[s.len() - 1].id@ == k);
            } else {
                let i = choose|i: int| 0 <= i < s.drop_last().len() && s.drop_last()[i].id@ == k;
                assert(s[i].id@ == k);
            }
        }
        if exists|i: int| 0 <= i < s.len() && s[i].id@ == k {
            let i = choose|i: int| 0 <= i < s.len() && s[i].id@ == k;
            if i < s.len() - 1 {
                assert(s.drop_last()[i].id@ == k);
            }
        }
    }
}

pub proof fn lemma_channels_map_at(s: Seq<ChannelInfo>, i: int)
    requires
        unique_channel_ids(s),
        0 <= i < s.len(),
    ensures
        channels_map_of(s).contains_key(s[i].id@),
        channels_map_of(s)[s[i].id@] == s[i]@,
    decreases s.len(),
{
    if i < s.len() - 1 {
        assert(unique_channel_ids(s.drop_last())) by {
            assert(forall|a: int, b: int|
                0 <= a < b < s.drop_last().len() ==> s.drop_last()[a] == s[a] && s.drop_last()[b]
                    == s[b]);
        }
        lemma_channels_map_at(s.drop_last(), i);
        assert(s.last().id@ != s[i].id@);
        assert(s.drop_last()[i] == s[i]);
    }
}

pub proof fn lemma_channels_map_update(s: Seq<ChannelInfo>, i: int, e: ChannelInfo)
    requires
        unique_channel_ids(s),
        0 <= i < s.len(),
        e.id@ == s[i].id@,
    ensures
        channels_map_of(s.update(i, e)) =~= channels_map_of(s).insert(e.id@, e@),
        unique_channel_ids(s.update(i, e)),
    decreases s.len(),
{
    assert(forall|a: int| 0 <= a < s.len() && a != i ==> s.update(i, e)[a] == s[a]);
    if i == s.len() - 1 {
        assert(s.update(i, e).drop_last() =~= s.drop_last());
        assert(s.update(i, e).last() == e);
    } else {
        assert(unique_channel_ids(s.drop_last())) by {
            assert(forall|a: int, b: int|
                0 <= a < b < s.drop_last().len() ==> s.drop_last()[a] == s[a] && s.drop_last()[b]
                    == s[b]);
        }
        lemma_channels_map_update(s.drop_last(), i, e);
        assert(s.update(i, e).drop_last() =~= s.drop_last().update(i, e));
        assert(s.update(i, e).last() == s.last());
        assert(s.last().id@ != e.id@);
    }
}

pub proof fn lemma_channels_map_push(s: Seq<ChannelInfo>, e: ChannelInfo)
    requires
        unique_channel_ids(s),
        forall|i: int| 0 <= i < s.len() ==> s[i].id@ != e.id@,
    ensures
        channels_map_of(s.push(e)) == channels_map_of(s).insert(e.id@, e@),
        unique_channel_ids(s.push(e)),
{
    assert(s.push(e).drop_last() =~= s);
    assert(s.push(e).last() == e);
    assert(forall|a: int| 0 <= a < s.len() ==> s.push(e)[a] == s[a]);
}

/// The persistent store the protocol events run against: the channel
/// registry and the escrow ledger. Every mutation happens through one
/// of its methods, within the one event that was handed the store.
#[derive(Debug, Clone)]
pub struct Store {
    channels: Vec<ChannelInfo>,
    ledger: Vec<LedgerEntry>,
}

impl Store {
    /// The escrow ledger as a mapping from (channel, denomination) to
    /// its balances.
    pub closed spec fn ledger_view(&self) -> Map<(Seq<char>, Seq<char>), ChannelState> {
        ledger_map_of(self.ledger@)
    }

    /// The channel registry as a mapping from channel identifier to the
    /// recorded metadata.
    pub closed spec fn channels_view(&self) -> Map<Seq<char>, ChannelInfoV> {
        channels_map_of(self.channels@)
    }

    /// Well-formedness: each key owns at most one record.
    pub closed spec fn wf(&self) -> bool {
        unique_ledger_keys(self.ledger@) && unique_channel_ids(self.channels@)
    }

    /// An empty store: no channels, no escrow.
    pub fn new() -> (s: Store)
        ensures
            s.wf(),
            s.ledger_view() == Map::<(Seq<char>, Seq<char>), ChannelState>::empty(),
            s.channels_view() == Map::<Seq<char>, ChannelInfoV>::empty(),
    {
        Store { channels: Vec::new(), ledger: Vec::new() }
    }

    fn find_ledger(&self, channel: &str, denom: &str) -> (r: Option<usize>)
        requires
            self.wf(),
        ensures
            match r {
                Some(i) => i < self.ledger@.len() && spec_ledger_key(self.ledger@[i as int]) == (
                channel@,
                denom@,
                ),
                None => !self.ledger_view().contains_key((channel@, denom@)),
            },
    {
        let ghost k = (channel@, denom@);
        let mut i: usize = 0;
        while i < self.ledger.len()
            invariant
                i <= self.ledger@.len(),
                k == (channel@, denom@),
                forall|j: int| 0 <= j < i ==> spec_ledger_key(self.ledger@[j]) != k,
            decreases self.ledger@.len() - i,
        {
            if str_eq(self.ledger[i].channel.as_str(), channel) && str_eq(
                self.ledger[i].denom.as_str(),
                denom,
            ) {
                return Some(i);
            }
            i += 1;
        }
        proof {
            lemma_ledger_map_domain(self.ledger@, k);
        }
        None
    }

    /// The ledger record for a (channel, denomination) pair, if one
    /// exists.
    pub fn channel_state(&self, channel: &str, denom: &str) -> (r: Option<ChannelState>)
        requires
            self.wf(),
        ensures
            r == if self.ledger_view().contains_key((channel@, denom@)) {
                Some(self.ledger_view()[(channel@, denom@)])
            } else {
                None::<ChannelState>
            },
    {
        match self.find_ledger(channel, denom) {
            Some(i) => {
                proof {
                    lemma_ledger_map_at(self.ledger@, i as int);
                }
                Some(self.ledger[i].state)
            },
            None => None,
        }
    }

    /// Subtracts `amount` from the escrow outstanding for (channel,
    /// denomination). Fails, leaving the store untouched, when no record
    /// exists or the record holds less than `amount`: escrow is never
    /// driven below zero.
    pub fn reduce_outstanding(&mut self, channel: &str, denom: &str, amount: u128) -> (r: Result<
        (),
        ContractError,
    >)
        requires
            old(self).wf(),
        ensures
            final(self).wf(),
            final(self).channels_view() == old(self).channels_view(),
            ({
                let k = (channel@, denom@);
                if old(self).ledger_view().contains_key(k) && old(self).ledger_view()[k].outstanding
                    >= amount {
                    &&& r is Ok
                    &&& final(self).ledger_view() == old(self).ledger_view().insert(
                        k,
                        ChannelState {
                            outstanding: (old(self).ledger_view()[k].outstanding - amount) as u128,
                            total_sent: old(self).ledger_view()[k].total_sent,
                        },
                    )
                } else {
                    &&& r == Err::<(), ContractError>(ContractError::InsufficientFunds {})
                    &&& *final(self) == *old(self)
                }
            }),
    {
        let ghost k = (channel@, denom@);
        match self.find_ledger(channel, denom) {
            Some(i) => {
                proof {
                    lemma_ledger_map_at(self.ledger@, i as int);
                }
                let cur = self.ledger[i].state;
                if cur.outstanding < amount {
                    return Err(ContractError::InsufficientFunds {});
                }
                let next = ChannelState {
                    outstanding: cur.outstanding - amount,
                    total_sent: cur.total_sent,
                };
                proof {
                    lemma_ledger_map_update(
                        self.ledger@,
                        i as int,
                        LedgerEntry { state: next, ..self.ledger@[i as int] },
                    );
                }
                self.ledger[i].state = next;
                Ok(())
            },
            None => Err(ContractError::InsufficientFunds {}),
        }
    }

    /// Adds `amount` to both `outstanding` and `total_sent` for
    /// (channel, denomination), creating the record with zeroed balances
    /// first where none exists. Fails, leaving the store untouched, when
    /// a counter would exceed its range.
    pub fn credit(&mut self, channel: &str, denom: &str, amount: u128) -> (r: Result<
        (),
        ContractError,
    >)
        requires
            old(self).wf(),
        ensures
            final(self).wf(),
            final(self).channels_view() == old(self).channels_view(),
            ({
                let k = (channel@, denom@);
                let prior = if old(self).ledger_view().contains_key(k) {
                    old(self).ledger_view()[k]
                } else {
                    ChannelState { outstanding: 0, total_sent: 0 }
                };
                if prior.outstanding + amount <= u128::MAX && prior.total_sent + amount
                    <= u128::MAX {
                    &&& r is Ok
                    &&& final(self).ledger_view() == old(self).ledger_view().insert(
                        k,
                        ChannelState {
                            outstanding: (prior.outstanding + amount) as u128,
                            total_sent: (prior.total_sent + amount) as u128,
                        },
                    )
                } else {
                    &&& r == Err::<(), ContractError>(ContractError::Overflow {})
                    &&& *final(self) == *old(self)
                }
            }),
    {
        let ghost k = (channel@, denom@);
        match self.find_ledger(channel, denom) {
            Some(i) => {
                proof {
                    lemma_ledger_map_at(self.ledger@, i as int);
                }
                let cur = self.ledger[i].state;
                if amount > u128::MAX - cur.outstanding || amount > u128::MAX - cur.total_sent {
                    return Err(ContractError::Overflow {});
                }
                let next = ChannelState {
                    outstanding: cur.outstanding + amount,
                    total_sent: cur.total_sent + amount,
                };
                proof {
                    lemma_ledger_map_update(
                        self.ledger@,
                        i as int,
                        LedgerEntry { state: next, ..self.ledger@[i as int] },
                    );
                }
                self.ledger[i].state = next;
                Ok(())
            },
            None => {
                let entry = LedgerEntry {
                    channel: channel.to_owned(),
                    denom: denom.to_owned(),
                    state: ChannelState { outstanding: amount, total_sent: amount },
                };
                proof {
                    lemma_ledger_map_domain(self.ledger@, k);
                    assert(forall|j: int|
                        0 <= j < self.ledger@.len() ==> spec_ledger_key(self.ledger@[j])
                            != spec_ledger_key(entry));
                    lemma_ledger_map_push(self.ledger@, entry);
                }
                self.ledger.push(entry);
                Ok(())
            },
        }
    }

    fn find_channel(&self, id: &str) -> (r: Option<usize>)
        requires
            self.wf(),
        ensures
            match r {
                Some(i) => i < self.channels@.len() && self.channels@[i as int].id@ == id@,
                None => !self.channels_view().contains_key(id@),
            },
    {
        let mut i: usize = 0;
        while i < self.channels.len()
            invariant
                i <= self.channels@.len(),
                forall|j: int| 0 <= j < i ==> self.channels@[j].id@ != id@,
            decreases self.channels@.len() - i,
        {
            if str_eq(self.channels[i].id.as_str(), id) {
                return Some(i);
            }
            i += 1;
        }
        proof {
            lemma_channels_map_domain(self.channels@, id@);
        }
        None
    }

    /// Records the metadata of a connected channel under its local
    /// identifier, replacing any record that identifier already owns.
    pub fn save_channel(&mut self, info: ChannelInfo)
        requires
            old(self).wf(),
        ensures
            final(self).wf(),
            final(self).ledger_view() == old(self).ledger_view(),
            final(self).channels_view() == old(self).channels_view().insert(info.id@, info@),
    {
        match self.find_channel(info.id.as_str()) {
            Some(i) => {
                proof {
                    lemma_channels_map_update(self.channels@, i as int, info);
                }
                self.channels[i] = info;
            },
            None => {
                proof {
                    lemma_channels_map_domain(self.channels@, info.id@);
                    lemma_channels_map_push(self.channels@, info);
                }
                self.channels.push(info);
            },
        }
    }

    /// The registry record for a channel identifier, if one exists.
    pub fn channel_info(&self, id: &str) -> (r: Option<&ChannelInfo>)
        requires
            self.wf(),
        ensures
            match r {
                Some(info) => self.channels_view().contains_key(id@) && info@
                    == self.channels_view()[id@],
                None => !self.channels_view().contains_key(id@),
            },
    {
        match self.find_channel(id) {
            Some(i) => {
                proof {
                    lemma_channels_map_at(self.channels@, i as int);
                }
                Some(&self.channels[i])
            },
            None => None,
        }
    }
}

} // verus!
