//! Which agents are alive: when each endpoint was last heard of, and which have
//! been silent for longer than their interval and timeout allow.

use vstd::prelude::*;
use std::collections::HashMap;
use vstd::std_specs::iter::IteratorSpec;
use crate::control::{on_control, ControlMsg, Verdict};
use crate::time::{clock_now, Span, Timestamp};

verus! {

broadcast use vstd::std_specs::hash::group_hash_axioms;

/// Seconds between two pushes of an agent, unless configured otherwise.
pub const DEFAULT_INTERVAL_SECS: i64 = 30;

/// Seconds of grace after a missed push, unless configured otherwise.
pub const DEFAULT_TIMEOUT_SECS: i64 = 30;

/// Seconds between two sweeps of the liveness table.
pub const CHECK_STALE_INTERVAL_SECS: u64 = 5;

/// When an agent was last heard of, and how long it may stay silent.
#[derive(Debug, Clone, Copy, PartialEq, Eq, Structural)]
pub struct ClientMetadata {
    pub last_recv: Timestamp,
    pub interval: Span,
    pub timeout: Span,
}

impl ClientMetadata {
    /// The client has timed out at `now`: the time since it was last heard of is
    /// longer than interval and timeout together.
    pub open spec fn timed_out_at(self, now: Timestamp) -> bool {
        now.total_nanos() - self.last_recv.total_nanos() > self.interval.total_nanos()
            + self.timeout.total_nanos()
    }

    /// The record of a client first heard of at `now`, with the default interval and
    /// timeout.
    pub open spec fn first_seen(now: Timestamp) -> ClientMetadata {
        ClientMetadata {
            last_recv: now,
            interval: Span { secs: DEFAULT_INTERVAL_SECS, nanos: 0 },
            timeout: Span { secs: DEFAULT_TIMEOUT_SECS, nanos: 0 },
        }
    }

    /// The record with `last_recv` moved to `now`.
    pub open spec fn seen_again(self, now: Timestamp) -> ClientMetadata {
        ClientMetadata { last_recv: now, interval: self.interval, timeout: self.timeout }
    }

    /// The record of a client first heard of at `now`.
    pub fn new_at(now: Timestamp) -> (m: ClientMetadata)
        ensures
            m == Self::first_seen(now),
    {
        ClientMetadata {
            last_recv: now,
            interval: Span::seconds(DEFAULT_INTERVAL_SECS),
            timeout: Span::seconds(DEFAULT_TIMEOUT_SECS),
        }
    }

    /// The record of a client first heard of at this moment, by the system clock.
    pub fn new() -> (m: ClientMetadata)
        ensures
            m == Self::first_seen(m.last_recv),
    {
        Self::new_at(clock_now())
    }

    /// Notes that the client was heard of at `now`.
    pub fn update_last_recv_at(&mut self, now: Timestamp)
        ensures
            *final(self) == old(self).seen_again(now),
    {
        self.last_recv = now;
    }

    /// Notes that the client was heard of at this moment, by the system clock.
    pub fn update_last_recv(&mut self)
        ensures
            *final(self) == old(self).seen_again(final(self).last_recv),
    {
        self.update_last_recv_at(clock_now());
    }

    /// Whether the client has timed out at `now`.
    pub fn has_timed_out_at(&self, now: Timestamp) -> (b: bool)
        ensures
            b == self.timed_out_at(now),
    {
        let elapsed: i128 = now.as_nanos() - self.last_recv.as_nanos();
        let allowed: i128 = self.interval.as_nanos() + self.timeout.as_nanos();
        elapsed > allowed
    }

    /// Whether the client has timed out at `since`, or at this moment by the system
    /// clock where no instant is given.
    pub fn has_timed_out_since(&self, since: Option<Timestamp>) -> (b: bool)
        ensures
            since matches Some(now) ==> b == self.timed_out_at(now),
    {
        match since {
            Some(now) => self.has_timed_out_at(now),
            None => self.has_timed_out_at(clock_now()),
        }
    }

    /// Whether the client has timed out at this moment, by the system clock: the
    /// answer is that of `has_timed_out_at` for the instant that the clock gives.
    pub fn has_timed_out(&self) -> (b: bool)
        ensures
            exists|now: Timestamp| b == #[trigger] self.timed_out_at(now),
    {
        let now = clock_now();
        let b = self.has_timed_out_since(Some(now));
        assert(b == self.timed_out_at(now));
        b
    }
}

/// The network address of an agent: the 32 bits of an IPv4 address or the 128 bits
/// of an IPv6 address.
#[derive(Debug, Clone, Copy, PartialEq, Eq, Structural)]
pub enum ClientAddr {
    V4(u32),
    V6(u128),
}

/// A client that a sweep found silent for too long.
#[derive(Debug, Clone, Copy, PartialEq, Eq, Structural)]
pub struct StaleClient {
    pub addr: ClientAddr,
    pub last_recv: Timestamp,
}

/// The liveness table: one record for each address ever heard of.
pub struct LivenessTable {
    v4: HashMap<u32, ClientMetadata>,
    v6: HashMap<u128, ClientMetadata>,
}

/// The record that `table` holds for `addr` after a packet from it at `now`.
pub open spec fn record_after(
    table: Map<ClientAddr, ClientMetadata>,
    addr: ClientAddr,
    now: Timestamp,
) -> ClientMetadata {
    if table.contains_key(addr) {
        table[addr].seen_again(now)
    } else {
        ClientMetadata::first_seen(now)
    }
}

/// `report` names the clients of `table` that have timed out at `now`, each once,
/// with the instant at which it was last heard of.
pub open spec fn is_stale_report(
    report: Seq<StaleClient>,
    table: Map<ClientAddr, ClientMetadata>,
    now: Timestamp,
) -> bool {
    &&& forall|i: int|
        0 <= i < report.len() ==> {
            &&& table.contains_key((#[trigger] report[i]).addr)
            &&& table[report[i].addr].timed_out_at(now)
            &&& table[report[i].addr].last_recv == report[i].last_recv
        }
    &&& forall|a: ClientAddr|
        table.contains_key(a) && (#[trigger] table[a]).timed_out_at(now) ==> exists|i: int|
            0 <= i < report.len() && (#[trigger] report[i]).addr == a
    &&& forall|i: int, j: int|
        0 <= i < j < report.len() ==> (#[trigger] report[i]).addr != (#[trigger] report[j]).addr
}

/// `list` holds every record of `table` with its address, each once.
pub open spec fn is_listing(list: Seq<(ClientAddr, ClientMetadata)>, table: Map<ClientAddr, ClientMetadata>) -> bool {
    &&& forall|i: int|
        0 <= i < list.len() ==> table.contains_key((#[trigger] list[i]).0) && table[list[i].0] == list[i].1
    &&& forall|a: ClientAddr|
        table.contains_key(a) ==> exists|i: int| 0 <= i < list.len() && (#[trigger] list[i]).0 == a
    &&& forall|i: int, j: int| 0 <= i < j < list.len() ==> (#[trigger] list[i]).0 != (#[trigger] list[j]).0
}

impl View for LivenessTable {
    type V = Map<ClientAddr, ClientMetadata>;

    closed spec fn view(&self) -> Map<ClientAddr, ClientMetadata> {
        Map::new(
            |a: ClientAddr|
                match a {
                    ClientAddr::V4(k) => self.v4@.contains_key(k),
                    ClientAddr::V6(k) => self.v6@.contains_key(k),
                },
            |a: ClientAddr|
                match a {
                    ClientAddr::V4(k) => self.v4@[k],
                    ClientAddr::V6(k) => self.v6@[k],
                },
        )
    }
}

impl LivenessTable {
    /// A table without records.
    pub fn new() -> (t: LivenessTable)
        ensures
            t@ == Map::<ClientAddr, ClientMetadata>::empty(),
    {
        let t = LivenessTable { v4: HashMap::new(), v6: HashMap::new() };
        assert(t@ =~= Map::<ClientAddr, ClientMetadata>::empty());
        t
    }

    /// The record of an address, if the table has one.
    pub fn get(&self, addr: ClientAddr) -> (m: Option<ClientMetadata>)
        ensures
            m == if self@.contains_key(addr) {
                Some(self@[addr])
            } else {
                None
            },
    {
        match addr {
            ClientAddr::V4(k) => match self.v4.get(&k) {
                Some(m) => Some(*m),
                None => None,
            },
            ClientAddr::V6(k) => match self.v6.get(&k) {
                Some(m) => Some(*m),
                None => None,
            },
        }
    }

    /// Notes a packet from `addr` at `now`: a first packet creates the record with
    /// the defaults, a later one moves `last_recv`. No other record changes.
    pub fn record(&mut self, addr: ClientAddr, now: Timestamp)
        ensures
            final(self)@ == old(self)@.insert(addr, record_after(old(self)@, addr, now)),
    {
        let entry = match self.get(addr) {
            Some(mut m) => {
                m.update_last_recv_at(now);
                m
            },
            None => ClientMetadata::new_at(now),
        };
        match addr {
            ClientAddr::V4(k) => {
                self.v4.insert(k, entry);
            },
            ClientAddr::V6(k) => {
                self.v6.insert(k, entry);
            },
        }
        assert(self@ =~= old(self)@.insert(addr, record_after(old(self)@, addr, now)));
    }

    fn list_v4(&self) -> (list: Vec<(ClientAddr, ClientMetadata)>)
        ensures
            forall|i: int|
                0 <= i < list.len() ==> {
                    &&& (#[trigger] list[i]).0 is V4
                    &&& self.v4@.contains_key(list[i].0->V4_0)
                    &&& self.v4@[list[i].0->V4_0] == list[i].1
                },
            forall|k: u32|
                self.v4@.contains_key(k) ==> exists|i: int|
                    0 <= i < list.len() && (#[trigger] list[i]).0 == ClientAddr::V4(k),
            forall|i: int, j: int|
                0 <= i < j < list.len() ==> (#[trigger] list[i]).0 != (#[trigger] list[j]).0,
    {
        let mut list: Vec<(ClientAddr, ClientMetadata)> = Vec::new();
        let ghost all = self.v4.iter().remaining();
        for entry in it: self.v4.iter()
            invariant
                it.seq() == all,
                all == self.v4.iter().remaining(),
                list.len() == it.index(),
                forall|j: int|
                    0 <= j < list.len() ==> (#[trigger] list[j]) == (ClientAddr::V4(*all[j].0), *all[j].1),
        {
            let (k, m) = entry;
            list.push((ClientAddr::V4(*k), *m));
        }
        proof {
            assert(list.len() == all.len());
            assert(all.no_duplicates());
            assert forall|k: u32| self.v4@.contains_key(k) implies exists|i: int|
                0 <= i < list.len() && (#[trigger] list[i]).0 == ClientAddr::V4(k) by {
                assert(all.contains((&k, &self.v4@[k])));
                let p = choose|p: int| 0 <= p < all.len() && all[p] == (&k, &self.v4@[k]);
                assert(list[p].0 == ClientAddr::V4(k));
            }
            assert forall|i: int, j: int| 0 <= i < j < list.len() implies (#[trigger] list[i]).0 != (
            #[trigger] list[j]).0 by {
                if list[i].0 == list[j].0 {
                    assert(*all[i].0 == *all[j].0);
                    assert(self.v4@[*all[i].0] == *all[i].1);
                    assert(self.v4@[*all[j].0] == *all[j].1);
                    assert(all[i] == all[j]);
                }
            }
            assert forall|i: int| 0 <= i < list.len() implies {
                &&& (#[trigger] list[i]).0 is V4
                &&& self.v4@.contains_key(list[i].0->V4_0)
                &&& self.v4@[list[i].0->V4_0] == list[i].1
            } by {
                assert(self.v4@.contains_key(*all[i].0));
                assert(self.v4@[*all[i].0] == *all[i].1);
            }
        }
        list
    }
    fn list_v6(&self) -> (list: Vec<(ClientAddr, ClientMetadata)>)
        ensures
            forall|i: int|
                0 <= i < list.len() ==> {
                    &&& (#[trigger] list[i]).0 is V6
                    &&& self.v6@.contains_key(list[i].0->V6_0)
                    &&& self.v6@[list[i].0->V6_0] == list[i].1
                },
            forall|k: u128|
                self.v6@.contains_key(k) ==> exists|i: int|
                    0 <= i < list.len() && (#[trigger] list[i]).0 == ClientAddr::V6(k),
            forall|i: int, j: int|
                0 <= i < j < list.len() ==> (#[trigger] list[i]).0 != (#[trigger] list[j]).0,
    {
        let mut list: Vec<(ClientAddr, ClientMetadata)> = Vec::new();
        let ghost all = self.v6.iter().remaining();
        for entry in it: self.v6.iter()
            invariant
                it.seq() == all,
                all == self.v6.iter().remaining(),
                list.len() == it.index(),
                forall|j: int|
                    0 <= j < list.len() ==> (#[trigger] list[j]) == (ClientAddr::V6(*all[j].0), *all[j].1),
        {
            let (k, m) = entry;
            list.push((ClientAddr::V6(*k), *m));
        }
        proof {
            assert(list.len() == all.len());
            assert(all.no_duplicates());
            assert forall|k: u128| self.v6@.contains_key(k) implies exists|i: int|
                0 <= i < list.len() && (#[trigger] list[i]).0 == ClientAddr::V6(k) by {
                assert(all.contains((&k, &self.v6@[k])));
                let p = choose|p: int| 0 <= p < all.len() && all[p] == (&k, &self.v6@[k]);
                assert(list[p].0 == ClientAddr::V6(k));
            }
            assert forall|i: int, j: int| 0 <= i < j < list.len() implies (#[trigger] list[i]).0 != (
            #[trigger] list[j]).0 by {
                if list[i].0 == list[j].0 {
                    assert(*all[i].0 == *all[j].0);
                    assert(self.v6@[*all[i].0] == *all[i].1);
                    assert(self.v6@[*all[j].0] == *all[j].1);
                    assert(all[i] == all[j]);
                }
            }
            assert forall|i: int| 0 <= i < list.len() implies {
                &&& (#[trigger] list[i]).0 is V6
                &&& self.v6@.contains_key(list[i].0->V6_0)
                &&& self.v6@[list[i].0->V6_0] == list[i].1
            } by {
                assert(self.v6@.contains_key(*all[i].0));
                assert(self.v6@[*all[i].0] == *all[i].1);
            }
        }
        list
    }

    /// Every record of the table with its address, each once.
    pub fn entries(&self) -> (list: Vec<(ClientAddr, ClientMetadata)>)
        ensures
            is_listing(list@, self@),
    {
        let mut list = self.list_v4();
        let mut more = self.list_v6();
        let ghost first = list@;
        let ghost second = more@;
        list.append(&mut more);
        proof {
            assert forall|a: ClientAddr| self@.contains_key(a) implies exists|i: int|
                0 <= i < list.len() && (#[trigger] list[i]).0 == a by {
                match a {
                    ClientAddr::V4(k) => {
                        let p = choose|p: int| 0 <= p < first.len() && (#[trigger] first[p]).0 == ClientAddr::V4(k);
                        assert(list[p].0 == a);
                    },
                    ClientAddr::V6(k) => {
                        let p = choose|p: int| 0 <= p < second.len() && (#[trigger] second[p]).0 == ClientAddr::V6(k);
                        assert(list[first.len() + p] == second[p]);
                    },
                }
            }
            assert forall|i: int| 0 <= i < list.len() implies self@.contains_key((#[trigger] list[i]).0)
                && self@[list[i].0] == list[i].1 by {
                if i < first.len() {
                    assert(list[i] == first[i]);
                } else {
                    assert(list[i] == second[i - first.len()]);
                }
            }
            assert forall|i: int, j: int| 0 <= i < j < list.len() implies (#[trigger] list[i]).0 != (
            #[trigger] list[j]).0 by {
                if i < first.len() {
                    assert(list[i] == first[i]);
                } else {
                    assert(list[i] == second[i - first.len()]);
                }
                if j < first.len() {
                    assert(list[j] == first[j]);
                } else {
                    assert(list[j] == second[j - first.len()]);
                }
            }
        }
        list
    }

    /// The clients that have timed out at `now`. A sweep changes no record.
    pub fn stale_clients(&self, now: Timestamp) -> (report: Vec<StaleClient>)
        ensures
            is_stale_report(report@, self@, now),
    {
        let list = self.entries();
        let mut report: Vec<StaleClient> = Vec::new();
        let mut n: usize = 0;
        while n < list.len()
            invariant
                n <= list.len(),
                report@ == stale_in(list@.take(n as int), now),
            decreases list.len() - n,
        {
            let (addr, m) = list[n];
            proof {
                assert(list@.take(n + 1).drop_last() =~= list@.take(n as int));
            }
            if m.has_timed_out_at(now) {
                report.push(StaleClient { addr, last_recv: m.last_recv });
            }
            n = n + 1;
        }
        proof {
            assert(list@.take(n as int) =~= list@);
            lemma_stale_in(list@, now);
            lemma_stale_report(list@, self@, now);
        }
        report
    }
}

/// The timed-out clients of a listing, in its order.
pub open spec fn stale_in(list: Seq<(ClientAddr, ClientMetadata)>, now: Timestamp) -> Seq<StaleClient>
    decreases list.len(),
{
    if list.len() == 0 {
        Seq::empty()
    } else {
        let before = stale_in(list.drop_last(), now);
        if list.last().1.timed_out_at(now) {
            before.push(StaleClient { addr: list.last().0, last_recv: list.last().1.last_recv })
        } else {
            before
        }
    }
}

/// `found[i]` stems from the entry `list[at[i]]`, and `at` rises.
spec fn traces(found: Seq<StaleClient>, list: Seq<(ClientAddr, ClientMetadata)>, at: Seq<int>, now: Timestamp) -> bool {
    &&& at.len() == found.len()
    &&& forall|i: int|
        0 <= i < found.len() ==> {
            &&& 0 <= (#[trigger] at[i]) < list.len()
            &&& found[i].addr == list[at[i]].0
            &&& found[i].last_recv == list[at[i]].1.last_recv
            &&& list[at[i]].1.timed_out_at(now)
        }
    &&& forall|i: int, j: int| 0 <= i < j < at.len() ==> (#[trigger] at[i]) < (#[trigger] at[j])
    &&& forall|p: int|
        0 <= p < list.len() && (#[trigger] list[p]).1.timed_out_at(now) ==> at.contains(p)
}

proof fn lemma_stale_in(list: Seq<(ClientAddr, ClientMetadata)>, now: Timestamp)
    ensures
        exists|at: Seq<int>| traces(stale_in(list, now), list, at, now),
    decreases list.len(),
{
    if list.len() == 0 {
        assert(traces(stale_in(list, now), list, Seq::<int>::empty(), now));
    } else {
        let head = list.drop_last();
        lemma_stale_in(head, now);
        let at0 = choose|at: Seq<int>| traces(stale_in(head, now), head, at, now);
        let last = list.len() - 1;
        if list.last().1.timed_out_at(now) {
            let at = at0.push(last);
            let found = stale_in(list, now);
            assert forall|p: int| 0 <= p < list.len() && (#[trigger] list[p]).1.timed_out_at(now) implies at.contains(
                p,
            ) by {
                if p < last {
                    assert(head[p].1.timed_out_at(now));
                    let i = choose|i: int| 0 <= i < at0.len() && at0[i] == p;
                    assert(at[i] == p);
                } else {
                    assert(at[at0.len() as int] == p);
                }
            }
            assert forall|i: int| 0 <= i < found.len() implies {
                &&& 0 <= (#[trigger] at[i]) < list.len()
                &&& found[i].addr == list[at[i]].0
                &&& found[i].last_recv == list[at[i]].1.last_recv
                &&& list[at[i]].1.timed_out_at(now)
            } by {
                if i < at0.len() {
                    assert(at[i] == at0[i]);
                    assert(head[at0[i]] == list[at0[i]]);
                }
            }
            assert forall|i: int, j: int| 0 <= i < j < at.len() implies (#[trigger] at[i]) < (#[trigger] at[j]) by {
                assert(at[i] == at0[i]);
                if j < at0.len() {
                    assert(at[j] == at0[j]);
                }
            }
            assert(traces(found, list, at, now));
        } else {
            assert forall|p: int| 0 <= p < list.len() && (#[trigger] list[p]).1.timed_out_at(now) implies at0.contains(
                p,
            ) by {
                assert(head[p].1.timed_out_at(now));
            }
            assert forall|i: int| 0 <= i < at0.len() implies {
                &&& 0 <= (#[trigger] at0[i]) < list.len()
                &&& stale_in(list, now)[i].addr == list[at0[i]].0
                &&& stale_in(list, now)[i].last_recv == list[at0[i]].1.last_recv
                &&& list[at0[i]].1.timed_out_at(now)
            } by {
                assert(head[at0[i]] == list[at0[i]]);
            }
            assert(traces(stale_in(list, now), list, at0, now));
        }
    }
}

proof fn lemma_stale_report(list: Seq<(ClientAddr, ClientMetadata)>, table: Map<ClientAddr, ClientMetadata>, now: Timestamp)
    requires
        is_listing(list, table),
        exists|at: Seq<int>| traces(stale_in(list, now), list, at, now),
    ensures
        is_stale_report(stale_in(list, now), table, now),
{
    let found = stale_in(list, now);
    let at = choose|at: Seq<int>| traces(found, list, at, now);
    assert forall|i: int| 0 <= i < found.len() implies {
        &&& table.contains_key((#[trigger] found[i]).addr)
        &&& table[found[i].addr].timed_out_at(now)
        &&& table[found[i].addr].last_recv == found[i].last_recv
    } by {
        let p = at[i];
        assert(table.contains_key(list[p].0) && table[list[p].0] == list[p].1);
    }
    assert forall|a: ClientAddr| table.contains_key(a) && (#[trigger] table[a]).timed_out_at(now) implies exists|
        i: int,
    | 0 <= i < found.len() && (#[trigger] found[i]).addr == a by {
        let p = choose|p: int| 0 <= p < list.len() && (#[trigger] list[p]).0 == a;
        assert(table[list[p].0] == list[p].1);
        assert(at.contains(p));
        let i = choose|i: int| 0 <= i < at.len() && at[i] == p;
        assert(found[i].addr == a);
    }
    assert forall|i: int, j: int| 0 <= i < j < found.len() implies (#[trigger] found[i]).addr != (
    #[trigger] found[j]).addr by {
        assert(at[i] < at[j]);
        assert(list[at[i]].0 != list[at[j]].0);
    }
}

/// Notes a packet from `addr` at this moment, by the system clock: a first packet
/// creates the record with the defaults, a later one moves `last_recv`. No other
/// record changes.
pub fn update_last_recv(addr: ClientAddr, table: &mut LivenessTable)
    ensures
        final(table)@.contains_key(addr),
        final(table)@ == old(table)@.insert(addr, record_after(old(table)@, addr, final(table)@[addr].last_recv)),
{
    let now = clock_now();
    table.record(addr, now);
}

/// What the sweeper sees when it wakes.
#[derive(Debug, Clone, Copy, PartialEq, Eq, Structural)]
pub enum SweeperEvent {
    /// The control channel gave a message, or `None` when it is closed.
    Control(Option<ControlMsg>),
    /// The sweep interval elapsed.
    Tick,
}

/// What the sweeper does next.
#[derive(Debug, Clone, Copy, PartialEq, Eq, Structural)]
pub enum SweeperAction {
    /// Scan the table and warn of each stale client.
    Sweep,
    /// Leave the loop.
    Stop,
    /// Leave the loop and report that no shutdown was announced.
    StopPremature,
}

/// The sweeper's decision.
pub open spec fn sweeper_action(event: SweeperEvent) -> SweeperAction {
    match event {
        SweeperEvent::Control(Some(ControlMsg::Shutdown)) => SweeperAction::Stop,
        SweeperEvent::Control(None) => SweeperAction::StopPremature,
        SweeperEvent::Tick => SweeperAction::Sweep,
    }
}

/// Decides what the sweeper does on an event.
pub fn on_sweeper_event(event: SweeperEvent) -> (a: SweeperAction)
    ensures
        a == sweeper_action(event),
{
    match event {
        SweeperEvent::Control(msg) => match on_control(msg) {
            Verdict::Stop => SweeperAction::Stop,
            Verdict::StopPremature => SweeperAction::StopPremature,
        },
        SweeperEvent::Tick => SweeperAction::Sweep,
    }
}

/// One sweep at this moment, by the system clock: the clients to warn of. The report
/// is that of `stale_clients` for the instant that the clock gives: it names exactly
/// the clients that have timed out at that instant, each once, with the instant at
/// which each was last heard of. The table is left as it was.
pub fn sweep(table: &LivenessTable) -> (report: Vec<StaleClient>)
    ensures
        exists|now: Timestamp| #[trigger] is_stale_report(report@, table@, now),
        forall|i: int|
            0 <= i < report.len() ==> table@.contains_key((#[trigger] report[i]).addr)
                && table@[report[i].addr].last_recv == report[i].last_recv,
        forall|i: int, j: int|
            0 <= i < j < report.len() ==> (#[trigger] report[i]).addr != (#[trigger] report[j]).addr,
{
    let now = clock_now();
    let report = table.stale_clients(now);
    assert(is_stale_report(report@, table@, now));
    report
}

/// A client has timed out exactly if the time since it was last heard of is longer
/// than its interval and timeout together; at exactly that length it has not, and
/// once timed out it stays so at every later instant until it is heard of again.
pub proof fn law_timeout_threshold(m: ClientMetadata, now: Timestamp, later: Timestamp)
    ensures
        m.timed_out_at(now) <==> now.total_nanos() - m.last_recv.total_nanos() > m.interval.total_nanos()
            + m.timeout.total_nanos(),
        now.total_nanos() - m.last_recv.total_nanos() == m.interval.total_nanos() + m.timeout.total_nanos()
            ==> !m.timed_out_at(now),
        m.timed_out_at(now) && later.total_nanos() >= now.total_nanos() ==> m.timed_out_at(later),
{
}

/// A client with whole seconds of interval and timeout that was last heard of at a
/// whole second has timed out at a whole second exactly if more seconds have passed
/// than interval and timeout together.
pub proof fn law_timeout_in_seconds(last: int, interval: int, timeout: int, now: int)
    requires
        i64::MIN <= last <= i64::MAX,
        i64::MIN <= interval <= i64::MAX,
        i64::MIN <= timeout <= i64::MAX,
        i64::MIN <= now <= i64::MAX,
    ensures
        (ClientMetadata {
            last_recv: Timestamp { secs: last as i64, nanos: 0 },
            interval: Span { secs: interval as i64, nanos: 0 },
            timeout: Span { secs: timeout as i64, nanos: 0 },
        }).timed_out_at(Timestamp { secs: now as i64, nanos: 0 }) <==> now - last > interval + timeout,
{
}

/// Noting a packet never loses a client: every address that the table knew stays in
/// it, a record of another address stays as it was, and the sender's record is there
/// afterwards with `now` as the instant at which it was last heard of.
pub proof fn law_records_persist(
    table: Map<ClientAddr, ClientMetadata>,
    addr: ClientAddr,
    now: Timestamp,
    other: ClientAddr,
)
    ensures
        table.insert(addr, record_after(table, addr, now)).contains_key(addr),
        table.insert(addr, record_after(table, addr, now))[addr].last_recv == now,
        table.contains_key(other) ==> table.insert(addr, record_after(table, addr, now)).contains_key(other),
        table.contains_key(other) && other != addr ==> table.insert(addr, record_after(table, addr, now))[other]
            == table[other],
        table.contains_key(addr) ==> {
            &&& table.insert(addr, record_after(table, addr, now))[addr].interval == table[addr].interval
            &&& table.insert(addr, record_after(table, addr, now))[addr].timeout == table[addr].timeout
        },
{
}

} // verus!
