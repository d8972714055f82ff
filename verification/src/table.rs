use vstd::prelude::*;

use crate::addr::PeerAddr;

verus! {

/// What the broker knows of one entry of its peer table.
pub struct PeerRecord {
    /// The address the peer connected from.
    pub addr: PeerAddr,
    /// The channel that feeds the peer's connection.
    pub channel: int,
    /// Whether the channel has accepted every message sent to the peer.
    pub connected: bool,
    /// Every message sent to the peer, oldest first, accepted or not.
    pub handed: Seq<Seq<char>>,
    /// The messages the peer's channel accepted, oldest first.
    pub delivered: Seq<Seq<char>>,
}

/// The record of a peer that has just been added with a new channel:
/// connected, nothing sent yet.
pub open spec fn fresh_record(addr: PeerAddr, channel: int) -> PeerRecord {
    PeerRecord { addr, channel, connected: true, handed: Seq::empty(), delivered: Seq::empty() }
}

/// Whether some entry of the table is keyed by `addr`.
pub open spec fn has_addr(table: Seq<PeerRecord>, addr: PeerAddr) -> bool {
    exists|i: int| 0 <= i < table.len() && #[trigger] table[i].addr == addr
}

/// The position of the entry keyed by `addr` (meaningful when there is one).
pub open spec fn addr_index(table: Seq<PeerRecord>, addr: PeerAddr) -> int {
    choose|i: int| 0 <= i < table.len() && #[trigger] table[i].addr == addr
}

/// No address keys two entries.
pub open spec fn distinct_addrs(table: Seq<PeerRecord>) -> bool {
    forall|i: int, j: int|
        0 <= i < table.len() && 0 <= j < table.len() && #[trigger] table[i].addr
            == #[trigger] table[j].addr ==> i == j
}

/// Every peer in the table is connected.
pub open spec fn all_connected(table: Seq<PeerRecord>) -> bool {
    forall|i: int| 0 <= i < table.len() ==> #[trigger] table[i].connected
}

/// Every message sent to each peer of the table has been delivered to it.
pub open spec fn all_delivered(table: Seq<PeerRecord>) -> bool {
    forall|i: int| 0 <= i < table.len() ==> #[trigger] table[i].delivered == table[i].handed
}

/// The table after adding a fresh peer at `addr`, fed by `channel`: it
/// replaces the entry keyed by `addr` where there is one, and comes last
/// otherwise.
pub open spec fn with_peer(table: Seq<PeerRecord>, addr: PeerAddr, channel: int) -> Seq<PeerRecord> {
    if has_addr(table, addr) {
        table.update(addr_index(table, addr), fresh_record(addr, channel))
    } else {
        table.push(fresh_record(addr, channel))
    }
}

/// The table after removing the entry keyed by `addr`, if any.
pub open spec fn without_peer(table: Seq<PeerRecord>, addr: PeerAddr) -> Seq<PeerRecord> {
    if has_addr(table, addr) {
        table.remove(addr_index(table, addr))
    } else {
        table
    }
}

/// The entries of the table that are still connected, in table order.
pub open spec fn connected_only(table: Seq<PeerRecord>) -> Seq<PeerRecord>
    decreases table.len(),
{
    if table.len() == 0 {
        table
    } else if table.last().connected {
        connected_only(table.drop_last()).push(table.last())
    } else {
        connected_only(table.drop_last())
    }
}

/// The entries of the table that are no longer connected, in table order.
pub open spec fn disconnected_only(table: Seq<PeerRecord>) -> Seq<PeerRecord>
    decreases table.len(),
{
    if table.len() == 0 {
        table
    } else if table.last().connected {
        disconnected_only(table.drop_last())
    } else {
        disconnected_only(table.drop_last()).push(table.last())
    }
}

/// A broadcast of `msg` from `from` split the table into the peers kept
/// (`after`) and the peers dropped (`dropped`): `msg` was sent once to
/// every peer but the sender, then the peers whose channel took it (and the
/// sender) were kept, and those whose channel refused it were dropped, each
/// side in table order.
pub open spec fn broadcast_split(
    before: Seq<PeerRecord>,
    after: Seq<PeerRecord>,
    dropped: Seq<PeerRecord>,
    from: PeerAddr,
    msg: Seq<char>,
) -> bool {
    exists|mid: Seq<PeerRecord>|
        #[trigger] delivered_to_others(before, mid, from, msg) && after == connected_only(mid)
            && dropped == disconnected_only(mid)
}

/// Every entry of `disconnected_only(table)` is an entry of `table`, and it
/// is disconnected; every disconnected entry of `table` is one of them.
pub proof fn lemma_disconnected_only(table: Seq<PeerRecord>)
    ensures
        forall|k: int|
            0 <= k < disconnected_only(table).len() ==> table.contains(
                #[trigger] disconnected_only(table)[k],
            ) && !disconnected_only(table)[k].connected,
        forall|i: int|
            0 <= i < table.len() && !(#[trigger] table[i].connected) ==> disconnected_only(
                table,
            ).contains(table[i]),
        connected_only(table).len() + disconnected_only(table).len() == table.len(),
    decreases table.len(),
{
    if table.len() > 0 {
        let rest = table.drop_last();
        lemma_disconnected_only(rest);
        let d = disconnected_only(rest);
        let full = disconnected_only(table);
        assert forall|k: int| 0 <= k < full.len() implies table.contains(#[trigger] full[k])
            && !full[k].connected by {
            if k < d.len() {
                assert(full[k] == d[k]);
                let m = choose|m: int| 0 <= m < rest.len() && rest[m] == d[k];
                assert(table[m] == d[k]);
            } else {
                assert(table[table.len() - 1] == full[k]);
            }
        }
        assert forall|i: int| 0 <= i < table.len() && !(#[trigger] table[i].connected) implies full.contains(
            table[i],
        ) by {
            if i < table.len() - 1 {
                assert(rest[i] == table[i]);
                let m = choose|m: int| 0 <= m < d.len() && d[m] == rest[i];
                assert(full[m] == d[m]);
            } else {
                assert(full[d.len() as int] == table[i]);
            }
        }
    }
}

/// One send of `msg` to a peer: `msg` was handed to its channel, and either
/// the channel took it, or the peer is now marked disconnected and got
/// nothing.
pub open spec fn sent_once(before: PeerRecord, after: PeerRecord, msg: Seq<char>) -> bool {
    &&& after.addr == before.addr
    &&& after.channel == before.channel
    &&& after.handed == before.handed.push(msg)
    &&& {
        ||| after.connected == before.connected && after.delivered == before.delivered.push(msg)
        ||| !after.connected && after.delivered == before.delivered
    }
}

/// `msg` was sent once to every peer of the table but the one at `from`,
/// which was left as it was.
pub open spec fn delivered_to_others(
    before: Seq<PeerRecord>,
    after: Seq<PeerRecord>,
    from: PeerAddr,
    msg: Seq<char>,
) -> bool {
    &&& after.len() == before.len()
    &&& forall|i: int|
        0 <= i < before.len() ==> if before[i].addr == from {
            #[trigger] after[i] == before[i]
        } else {
            sent_once(before[i], after[i], msg)
        }
}

/// The table after broadcasting `msg` from `from`: `msg` was sent once to
/// every other peer, and then the peers whose channel refused it were dropped.
pub open spec fn broadcast_outcome(
    before: Seq<PeerRecord>,
    after: Seq<PeerRecord>,
    from: PeerAddr,
    msg: Seq<char>,
) -> bool {
    exists|mid: Seq<PeerRecord>|
        #[trigger] delivered_to_others(before, mid, from, msg) && after == connected_only(mid)
}

/// Removing the entry at an address keeps the table's invariant, and leaves
/// no entry at that address.
pub proof fn lemma_without_peer(table: Seq<PeerRecord>, addr: PeerAddr)
    requires
        distinct_addrs(table),
    ensures
        distinct_addrs(without_peer(table, addr)),
        all_connected(table) ==> all_connected(without_peer(table, addr)),
        all_delivered(table) ==> all_delivered(without_peer(table, addr)),
        !has_addr(without_peer(table, addr), addr),
{
    if has_addr(table, addr) {
        let i = addr_index(table, addr);
        let r = table.remove(i);
        assert forall|a: int, b: int|
            0 <= a < r.len() && 0 <= b < r.len() && #[trigger] r[a].addr == #[trigger] r[b].addr implies a
            == b by {
            let a2 = if a < i { a } else { a + 1 };
            let b2 = if b < i { b } else { b + 1 };
            assert(table[a2] == r[a]);
            assert(table[b2] == r[b]);
        }
        if all_connected(table) {
            assert forall|a: int| 0 <= a < r.len() implies #[trigger] r[a].connected by {
                let a2 = if a < i { a } else { a + 1 };
                assert(table[a2] == r[a]);
            }
        }
        if all_delivered(table) {
            assert forall|a: int| 0 <= a < r.len() implies #[trigger] r[a].delivered == r[a].handed by {
                let a2 = if a < i { a } else { a + 1 };
                assert(table[a2] == r[a]);
            }
        }
        if has_addr(r, addr) {
            let k = choose|k: int| 0 <= k < r.len() && #[trigger] r[k].addr == addr;
            let k2 = if k < i { k } else { k + 1 };
            assert(table[k2] == r[k]);
            assert(table[k2].addr == table[i].addr);
        }
    }
}

/// Every entry of `connected_only(table)` is an entry of `table`, and it is
/// connected; addresses stay distinct.
pub proof fn lemma_connected_only(table: Seq<PeerRecord>)
    ensures
        all_connected(connected_only(table)),
        connected_only(table).len() <= table.len(),
        forall|k: int|
            0 <= k < connected_only(table).len() ==> table.contains(
                #[trigger] connected_only(table)[k],
            ),
        forall|i: int|
            0 <= i < table.len() && #[trigger] table[i].connected ==> connected_only(
                table,
            ).contains(table[i]),
        distinct_addrs(table) ==> distinct_addrs(connected_only(table)),
        (forall|i: int| 0 <= i < table.len() && #[trigger] table[i].connected ==> table[i].delivered
            == table[i].handed) ==> all_delivered(connected_only(table)),
    decreases table.len(),
{
    if table.len() > 0 {
        let rest = table.drop_last();
        lemma_connected_only(rest);
        let co = connected_only(rest);
        assert forall|k: int| 0 <= k < co.len() implies table.contains(#[trigger] co[k]) by {
            assert(rest.contains(co[k]));
            let m = choose|m: int| 0 <= m < rest.len() && rest[m] == co[k];
            assert(table[m] == co[k]);
        }
        if distinct_addrs(table) {
            assert(distinct_addrs(rest)) by {
                assert forall|i: int, j: int|
                    0 <= i < rest.len() && 0 <= j < rest.len() && #[trigger] rest[i].addr
                        == #[trigger] rest[j].addr implies i == j by {
                    assert(table[i] == rest[i]);
                    assert(table[j] == rest[j]);
                }
            }
            if table.last().connected {
                let n = table.len() - 1;
                assert forall|k: int| 0 <= k < co.len() implies #[trigger] co[k].addr
                    != table.last().addr by {
                    assert(rest.contains(co[k]));
                    let m = choose|m: int| 0 <= m < rest.len() && rest[m] == co[k];
                    assert(table[m].addr == co[k].addr);
                    assert(table[n].addr == table.last().addr);
                }
            }
        }
        assert forall|i: int|
            0 <= i < table.len() && #[trigger] table[i].connected implies connected_only(
                table,
            ).contains(table[i]) by {
            if i < table.len() - 1 {
                assert(rest[i] == table[i]);
                let m = choose|m: int| 0 <= m < co.len() && co[m] == rest[i];
                if table.last().connected {
                    assert(connected_only(table)[m] == co[m]);
                } else {
                    assert(connected_only(table)[m] == co[m]);
                }
            } else {
                assert(connected_only(table)[co.len() as int] == table[i]);
            }
        }
        if table.last().connected {
            let full = co.push(table.last());
            assert forall|k: int| 0 <= k < full.len() implies table.contains(#[trigger] full[k]) by {
                if k < co.len() {
                    assert(full[k] == co[k]);
                } else {
                    assert(table[table.len() - 1] == full[k]);
                }
            }
        }
    }
    if forall|i: int| 0 <= i < table.len() && #[trigger] table[i].connected ==> table[i].delivered
        == table[i].handed {
        let co = connected_only(table);
        assert forall|k: int| 0 <= k < co.len() implies #[trigger] co[k].delivered == co[k].handed by {
            assert(table.contains(co[k]));
            let m = choose|m: int| 0 <= m < table.len() && table[m] == co[k];
            assert(table[m].connected);
        }
    }
}

} // verus!
