use vstd::prelude::*;

use crate::addr::PeerAddr;
use crate::laws::{law_add_keeps_invariant, law_broadcast_keeps_invariant};
use crate::peer::{Forward, Peer};
use crate::table::{
    addr_index, all_connected, all_delivered, broadcast_outcome, broadcast_split, connected_only,
    delivered_to_others, disconnected_only, lemma_disconnected_only,
    distinct_addrs, fresh_record, has_addr, lemma_connected_only, lemma_without_peer, sent_once,
    with_peer,
    without_peer, PeerRecord,
};

verus! {

/// The broker's shared state: one entry per connected peer, keyed by the
/// address it connected from.
pub struct Server {
    peers: Vec<(PeerAddr, Peer)>,
}

/// The record of one table entry.
pub open spec fn entry_record(entry: (PeerAddr, Peer)) -> PeerRecord {
    PeerRecord {
        addr: entry.0,
        channel: entry.1.channel(),
        connected: entry.1.connected(),
        handed: entry.1.handed(),
        delivered: entry.1.delivered(),
    }
}

/// The records of a list of table entries.
pub open spec fn entry_records(entries: Seq<(PeerAddr, Peer)>) -> Seq<PeerRecord> {
    entries.map_values(|entry: (PeerAddr, Peer)| entry_record(entry))
}

impl View for Server {
    type V = Seq<PeerRecord>;

    closed spec fn view(&self) -> Seq<PeerRecord> {
        self.peers@.map_values(|entry: (PeerAddr, Peer)| entry_record(entry))
    }
}

impl Server {
    /// The table's invariant: no address keys two entries, every peer in it
    /// is connected (a peer whose channel refused a message is dropped), and
    /// every message sent to a peer in it has been delivered to it.
    pub open spec fn wf(&self) -> bool {
        distinct_addrs(self@) && all_connected(self@) && all_delivered(self@)
    }

    proof fn lemma_view(&self)
        ensures
            self@.len() == self.peers@.len(),
            forall|i: int|
                0 <= i < self.peers@.len() ==> #[trigger] self@[i] == entry_record(
                    self.peers@[i],
                ),
    {
    }

    /// An empty table.
    pub fn new() -> (server: Server)
        ensures
            server.wf(),
            server@ == Seq::<PeerRecord>::empty(),
    {
        let server = Server { peers: Vec::new() };
        assert(server@ =~= Seq::<PeerRecord>::empty());
        server
    }

    /// The number of peers in the table.
    pub fn peer_count(&self) -> (n: usize)
        ensures
            n == self@.len(),
    {
        proof {
            self.lemma_view();
        }
        self.peers.len()
    }

    /// Whether the table has an entry keyed by `addr`.
    pub fn has_peer(&self, addr: PeerAddr) -> (b: bool)
        requires
            self.wf(),
        ensures
            b == has_addr(self@, addr),
    {
        self.find(addr).is_some()
    }

    /// The position of the entry keyed by `addr`, if there is one.
    fn find(&self, addr: PeerAddr) -> (pos: Option<usize>)
        requires
            distinct_addrs(self@),
        ensures
            match pos {
                Some(i) => i < self@.len() && self@[i as int].addr == addr && i == addr_index(
                    self@,
                    addr,
                ),
                None => !has_addr(self@, addr),
            },
    {
        proof {
            self.lemma_view();
        }
        let mut i: usize = 0;
        while i < self.peers.len()
            invariant
                i <= self.peers@.len(),
                distinct_addrs(self@),
                self@.len() == self.peers@.len(),
                forall|j: int| 0 <= j < self.peers@.len() ==> #[trigger] self@[j] == entry_record(self.peers@[j]),
                forall|j: int| 0 <= j < i ==> #[trigger] self@[j].addr != addr,
            decreases self.peers@.len() - i,
        {
            if self.peers[i].0 == addr {
                assert(self@[i as int].addr == addr);
                let ghost k = addr_index(self@, addr);
                assert(has_addr(self@, addr));
                assert(self@[k].addr == self@[i as int].addr);
                assert(k == i);
                return Some(i);
            }
            i += 1;
        }
        None
    }

    /// Adds a fresh peer keyed by `addr`, replacing the one keyed by `addr`
    /// where there is one, and returns the receiving half of its channel.
    pub fn add_peer(&mut self, addr: PeerAddr) -> (fwd: Forward)
        requires
            old(self).wf(),
        ensures
            final(self).wf(),
            final(self)@ == with_peer(old(self)@, addr, fwd.channel()),
    {
        let (peer, fwd) = Peer::new();
        let ghost before = self@;
        proof {
            self.lemma_view();
        }
        match self.find(addr) {
            Some(i) => {
                self.peers.set(i, (addr, peer));
                proof {
                    self.lemma_view();
                    assert(self@ =~= before.update(i as int, fresh_record(addr, fwd.channel())));
                }
            },
            None => {
                self.peers.push((addr, peer));
                proof {
                    self.lemma_view();
                    assert(self@ =~= before.push(fresh_record(addr, fwd.channel())));
                }
            },
        }
        proof {
            law_add_keeps_invariant(before, addr, fwd.channel());
        }
        fwd
    }

    /// Removes the entry keyed by `addr`, if there is one.
    pub fn remove_peer(&mut self, addr: PeerAddr)
        requires
            old(self).wf(),
        ensures
            final(self).wf(),
            final(self)@ == without_peer(old(self)@, addr),
    {
        let ghost before = self@;
        proof {
            self.lemma_view();
        }
        match self.find(addr) {
            Some(i) => {
                self.peers.remove(i);
                proof {
                    self.lemma_view();
                    assert(self@ =~= before.remove(i as int));
                    lemma_without_peer(before, addr);
                }
            },
            None => {},
        }
    }

    /// Sends `msg` once to every peer but the one at `from`.
    fn deliver(&mut self, from: PeerAddr, msg: &String)
        ensures
            delivered_to_others(old(self)@, final(self)@, from, msg@),
    {
        let ghost before = self@;
        proof {
            self.lemma_view();
        }
        let mut i: usize = 0;
        while i < self.peers.len()
            invariant
                i <= self.peers@.len(),
                before.len() == self.peers@.len(),
                self@.len() == self.peers@.len(),
                forall|j: int| 0 <= j < self.peers@.len() ==> #[trigger] self@[j] == entry_record(self.peers@[j]),
                forall|j: int|
                    0 <= j < i ==> if before[j].addr == from {
                        #[trigger] self@[j] == before[j]
                    } else {
                        sent_once(before[j], self@[j], msg@)
                    },
                forall|j: int| i <= j < before.len() ==> #[trigger] self@[j] == before[j],
            decreases self.peers@.len() - i,
        {
            let ghost prev = self.peers@;
            let ghost prev_view = self@;
            if self.peers[i].0 != from {
                self.peers[i].1.send(msg.clone());
                proof {
                    assert(self.peers@[i as int].0 == prev[i as int].0);
                    self.lemma_view();
                    assert(prev_view[i as int] == entry_record(prev[i as int]));
                    assert(prev_view[i as int] == before[i as int]);
                    assert(sent_once(before[i as int], self@[i as int], msg@));
                }
            }
            proof {
                self.lemma_view();
                assert forall|j: int| 0 <= j < self.peers@.len() && j != i implies #[trigger] self@[j]
                    == prev_view[j] by {
                    assert(self.peers@[j] == prev[j]);
                }
            }
            i += 1;
        }
    }

    /// Drops every peer whose channel has refused a message, keeping the
    /// others in order, and hands back the dropped entries, in order.
    pub fn retain_connected(&mut self) -> (dropped: Vec<(PeerAddr, Peer)>)
        ensures
            final(self)@ == connected_only(old(self)@),
            entry_records(dropped@) == disconnected_only(old(self)@),
            forall|k: int| 0 <= k < dropped@.len() ==> !(#[trigger] dropped@[k]).1.connected(),
            old(self).wf() ==> final(self).wf(),
    {
        let ghost orig = self@;
        proof {
            self.lemma_view();
        }
        let mut dropped: Vec<(PeerAddr, Peer)> = Vec::new();
        let mut i: usize = 0;
        let ghost mut j: int = 0;
        while i < self.peers.len()
            invariant
                0 <= j <= orig.len(),
                i <= self.peers@.len(),
                self@.len() == self.peers@.len(),
                forall|k: int| 0 <= k < self.peers@.len() ==> #[trigger] self@[k] == entry_record(self.peers@[k]),
                self@.len() - i == orig.len() - j,
                self@.take(i as int) == connected_only(orig.take(j)),
                self@.skip(i as int) == orig.skip(j),
                entry_records(dropped@) == disconnected_only(orig.take(j)),
            decreases orig.len() - j,
        {
            let ghost cur = self@;
            let ghost dcur = dropped@;
            assert(cur[i as int] == orig[j]) by {
                assert(cur.skip(i as int)[0] == orig.skip(j)[0]);
            }
            assert(orig.take(j + 1).drop_last() =~= orig.take(j));
            assert(orig.take(j + 1).last() == orig[j]);
            if self.peers[i].1.is_connected() {
                proof {
                    assert(cur.take(i + 1) =~= cur.take(i as int).push(cur[i as int]));
                    assert(cur.skip(i + 1) =~= cur.skip(i as int).skip(1));
                    assert(orig.skip(j + 1) =~= orig.skip(j).skip(1));
                }
                i += 1;
            } else {
                let entry = self.peers.remove(i);
                dropped.push(entry);
                proof {
                    self.lemma_view();
                    assert(self@ =~= cur.remove(i as int));
                    assert(self@.take(i as int) =~= cur.take(i as int));
                    assert(self@.skip(i as int) =~= cur.skip(i as int).skip(1));
                    assert(orig.skip(j + 1) =~= orig.skip(j).skip(1));
                    assert(entry_record(entry) == orig[j]);
                    assert(entry_records(dropped@) =~= entry_records(dcur).push(orig[j]));
                }
            }
            proof {
                j = j + 1;
            }
        }
        proof {
            assert(orig.take(j) =~= orig);
            assert(self@.take(i as int) =~= self@);
            lemma_connected_only(orig);
            lemma_disconnected_only(orig);
            assert forall|k: int| 0 <= k < dropped@.len() implies !(#[trigger] dropped@[k]).1.connected() by {
                assert(entry_records(dropped@)[k] == entry_record(dropped@[k]));
            }
        }
        dropped
    }

    /// Sends `msg` to every peer but the one at `from`, then drops the peers
    /// whose channel refused it, and hands them back, in table order.
    pub fn broadcast(&mut self, from: PeerAddr, msg: String) -> (dropped: Vec<(PeerAddr, Peer)>)
        requires
            old(self).wf(),
        ensures
            final(self).wf(),
            broadcast_outcome(old(self)@, final(self)@, from, msg@),
            broadcast_split(old(self)@, final(self)@, entry_records(dropped@), from, msg@),
            forall|k: int| 0 <= k < dropped@.len() ==> !(#[trigger] dropped@[k]).1.connected(),
    {
        let ghost before = self@;
        self.deliver(from, &msg);
        let ghost mid = self@;
        let dropped = self.retain_connected();
        proof {
            assert(distinct_addrs(mid)) by {
                assert forall|i: int, j: int|
                    0 <= i < mid.len() && 0 <= j < mid.len() && #[trigger] mid[i].addr
                        == #[trigger] mid[j].addr implies i == j by {
                    assert(mid[i].addr == before[i].addr);
                    assert(mid[j].addr == before[j].addr);
                }
            }
            assert(delivered_to_others(before, mid, from, msg@));
            law_broadcast_keeps_invariant(before, self@, from, msg@);
            assert(broadcast_split(before, self@, entry_records(dropped@), from, msg@));
        }
        dropped
    }
}

} // verus!
