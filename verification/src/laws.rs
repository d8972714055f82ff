use vstd::prelude::*;

use crate::addr::PeerAddr;
use crate::peer::{Forward, Peer};
use crate::session::{table_step, LineEvent, Phase, SessionStep};
use crate::table::{
    addr_index, all_connected, all_delivered, broadcast_outcome, connected_only, delivered_to_others,
    distinct_addrs, fresh_record, has_addr, lemma_connected_only, lemma_without_peer, with_peer,
    broadcast_split, disconnected_only, lemma_disconnected_only,
    without_peer,
    PeerRecord,
};

verus! {

/// A peer is connected exactly while its channel has accepted every message
/// sent to it: a peer made by `Peer::new` keeps this through every `send`.
pub proof fn law_peer_connected_iff_all_delivered(peer: Peer)
    requires
        peer.wf(),
    ensures
        peer.connected() <==> peer.delivered() == peer.handed(),
{
}

/// A table without repeated addresses has exactly one entry for an address
/// it holds, at `addr_index`.
proof fn lemma_index_unique(table: Seq<PeerRecord>, addr: PeerAddr, k: int)
    requires
        distinct_addrs(table),
        0 <= k < table.len(),
        table[k].addr == addr,
    ensures
        has_addr(table, addr),
        addr_index(table, addr) == k,
{
    assert(has_addr(table, addr));
    let i = addr_index(table, addr);
    assert(table[i].addr == table[k].addr);
}

/// The intermediate table of a broadcast (after the sends, before the
/// refused peers are dropped) has the addresses of the table before it.
proof fn lemma_broadcast_mid(
    before: Seq<PeerRecord>,
    mid: Seq<PeerRecord>,
    from: PeerAddr,
    msg: Seq<char>,
)
    requires
        distinct_addrs(before),
        delivered_to_others(before, mid, from, msg),
    ensures
        distinct_addrs(mid),
        forall|i: int| 0 <= i < mid.len() ==> #[trigger] mid[i].addr == before[i].addr,
{
    assert forall|i: int| 0 <= i < mid.len() implies #[trigger] mid[i].addr == before[i].addr by {
        if before[i].addr == from {
            assert(mid[i] == before[i]);
        }
    }
    assert forall|i: int, j: int|
        0 <= i < mid.len() && 0 <= j < mid.len() && #[trigger] mid[i].addr == #[trigger] mid[j].addr implies i
        == j by {
        assert(mid[i].addr == before[i].addr);
        assert(mid[j].addr == before[j].addr);
    }
}

/// A broadcast keeps the table's invariant: no repeated address, every
/// peer connected, and every message sent to a peer that stays delivered
/// to it.
pub proof fn law_broadcast_keeps_invariant(
    before: Seq<PeerRecord>,
    after: Seq<PeerRecord>,
    from: PeerAddr,
    msg: Seq<char>,
)
    requires
        distinct_addrs(before),
        all_connected(before),
        all_delivered(before),
        broadcast_outcome(before, after, from, msg),
    ensures
        distinct_addrs(after),
        all_connected(after),
        all_delivered(after),
{
    let mid = choose|mid: Seq<PeerRecord>|
        #[trigger] delivered_to_others(before, mid, from, msg) && after == connected_only(mid);
    lemma_broadcast_mid(before, mid, from, msg);
    assert forall|i: int| 0 <= i < mid.len() && #[trigger] mid[i].connected implies mid[i].delivered
        == mid[i].handed by {
        assert(before[i].connected);
        assert(before[i].delivered == before[i].handed);
        if before[i].addr == from {
            assert(mid[i] == before[i]);
        }
    }
    lemma_connected_only(mid);
}

/// Broadcasting never sends a peer its own message: the sender's entry,
/// when the table has one, stays in the table unchanged.
pub proof fn law_broadcast_spares_sender(
    before: Seq<PeerRecord>,
    after: Seq<PeerRecord>,
    from: PeerAddr,
    msg: Seq<char>,
)
    requires
        distinct_addrs(before),
        all_connected(before),
        broadcast_outcome(before, after, from, msg),
        has_addr(before, from),
    ensures
        has_addr(after, from),
        after[addr_index(after, from)] == before[addr_index(before, from)],
{
    let mid = choose|mid: Seq<PeerRecord>|
        #[trigger] delivered_to_others(before, mid, from, msg) && after == connected_only(mid);
    lemma_broadcast_mid(before, mid, from, msg);
    lemma_connected_only(mid);
    let i = addr_index(before, from);
    assert(before[i].addr == from);
    assert(mid[i] == before[i]);
    assert(mid[i].connected);
    assert(after.contains(mid[i]));
    let k = choose|k: int| 0 <= k < after.len() && after[k] == mid[i];
    lemma_index_unique(after, from, k);
}

/// A broadcast adds no peer, and every peer other than the sender that is
/// still in the table afterwards has received the message, exactly once and
/// after everything it had received before.
pub proof fn law_broadcast_reaches_others(
    before: Seq<PeerRecord>,
    after: Seq<PeerRecord>,
    from: PeerAddr,
    msg: Seq<char>,
)
    requires
        distinct_addrs(before),
        broadcast_outcome(before, after, from, msg),
    ensures
        forall|k: int| 0 <= k < after.len() ==> has_addr(before, #[trigger] after[k].addr),
        forall|k: int|
            0 <= k < after.len() && #[trigger] after[k].addr != from ==> after[k].delivered
                == before[addr_index(before, after[k].addr)].delivered.push(msg),
{
    let mid = choose|mid: Seq<PeerRecord>|
        #[trigger] delivered_to_others(before, mid, from, msg) && after == connected_only(mid);
    lemma_broadcast_mid(before, mid, from, msg);
    lemma_connected_only(mid);
    assert forall|k: int| 0 <= k < after.len() implies has_addr(before, #[trigger] after[k].addr) && (
    after[k].addr != from ==> after[k].delivered == before[addr_index(
        before,
        after[k].addr,
    )].delivered.push(msg)) by {
        assert(mid.contains(after[k]));
        let m = choose|m: int| 0 <= m < mid.len() && mid[m] == after[k];
        assert(mid[m].addr == before[m].addr);
        lemma_index_unique(before, after[k].addr, m);
        assert(after[k].connected);
    }
}

/// Adding a fresh peer keeps the table's invariant, and the table then
/// holds that peer, fresh, at its address.
pub proof fn law_add_keeps_invariant(table: Seq<PeerRecord>, addr: PeerAddr, channel: int)
    requires
        distinct_addrs(table),
        all_connected(table),
        all_delivered(table),
    ensures
        distinct_addrs(with_peer(table, addr, channel)),
        all_connected(with_peer(table, addr, channel)),
        all_delivered(with_peer(table, addr, channel)),
        has_addr(with_peer(table, addr, channel), addr),
        with_peer(table, addr, channel)[addr_index(with_peer(table, addr, channel), addr)] == fresh_record(addr, channel),
{
    let w = with_peer(table, addr, channel);
    if has_addr(table, addr) {
        let i = addr_index(table, addr);
        assert forall|a: int, b: int|
            0 <= a < w.len() && 0 <= b < w.len() && #[trigger] w[a].addr == #[trigger] w[b].addr implies a
            == b by {
            assert(w[a].addr == table[a].addr);
            assert(w[b].addr == table[b].addr);
        }
        lemma_index_unique(w, addr, i);
    } else {
        let n = table.len() as int;
        assert forall|a: int, b: int|
            0 <= a < w.len() && 0 <= b < w.len() && #[trigger] w[a].addr == #[trigger] w[b].addr implies a
            == b by {
            if a < n && b == n {
                assert(table[a].addr == addr);
            }
            if b < n && a == n {
                assert(table[b].addr == addr);
            }
        }
        lemma_index_unique(w, addr, n);
    }
}

/// Removing a peer just added where there was none gives back the table
/// as it was.
pub proof fn law_add_then_remove(table: Seq<PeerRecord>, addr: PeerAddr, channel: int)
    requires
        distinct_addrs(table),
        !has_addr(table, addr),
    ensures
        without_peer(with_peer(table, addr, channel), addr) == table,
{
    let w = with_peer(table, addr, channel);
    assert(w == table.push(fresh_record(addr, channel)));
    lemma_with_new_peer(table, addr, channel);
    lemma_index_unique(w, addr, table.len() as int);
    assert(w.remove(table.len() as int) =~= table);
}

proof fn lemma_with_new_peer(table: Seq<PeerRecord>, addr: PeerAddr, channel: int)
    requires
        distinct_addrs(table),
        !has_addr(table, addr),
    ensures
        distinct_addrs(with_peer(table, addr, channel)),
{
    let w = with_peer(table, addr, channel);
    let n = table.len() as int;
    assert forall|a: int, b: int|
        0 <= a < w.len() && 0 <= b < w.len() && #[trigger] w[a].addr == #[trigger] w[b].addr implies a
        == b by {
        if a < n && b == n {
            assert(table[a].addr == addr);
        }
        if b < n && a == n {
            assert(table[b].addr == addr);
        }
    }
}

/// Removing a peer leaves no entry at its address, and keeps the table's
/// invariant.
pub proof fn law_remove_forgets(table: Seq<PeerRecord>, addr: PeerAddr)
    requires
        distinct_addrs(table),
        all_connected(table),
        all_delivered(table),
    ensures
        !has_addr(without_peer(table, addr), addr),
        distinct_addrs(without_peer(table, addr)),
        all_connected(without_peer(table, addr)),
        all_delivered(without_peer(table, addr)),
{
    lemma_without_peer(table, addr);
}

/// A peer that sends its username is then in the table, fresh: fed by the
/// channel whose receiving half the serving task is handed, connected, and
/// sent nothing, its own announcement included.
pub proof fn law_join_adds_peer(
    name: String,
    fwd: Forward,
    addr: PeerAddr,
    addr_text: Seq<char>,
    before: Seq<PeerRecord>,
    after: Seq<PeerRecord>,
)
    requires
        distinct_addrs(before),
        all_connected(before),
        all_delivered(before),
        table_step(
            Phase::AwaitingName,
            LineEvent::Line(name),
            SessionStep::Joined(fwd),
            addr,
            addr_text,
            before,
            after,
        ),
    ensures
        has_addr(after, addr),
        after[addr_index(after, addr)] == fresh_record(addr, fwd.channel()),
{
    let w = with_peer(before, addr, fwd.channel());
    law_add_keeps_invariant(before, addr, fwd.channel());
    law_broadcast_spares_sender(w, after, addr, crate::message::joined_text(name@, addr_text));
}

/// A peer whose connection ends after it joined is no longer in the table.
pub proof fn law_leave_removes_peer(
    name: Seq<char>,
    addr: PeerAddr,
    addr_text: Seq<char>,
    before: Seq<PeerRecord>,
    after: Seq<PeerRecord>,
)
    requires
        distinct_addrs(before),
        all_connected(before),
        all_delivered(before),
        table_step(
            Phase::Joined { name },
            LineEvent::End,
            SessionStep::Finished,
            addr,
            addr_text,
            before,
            after,
        ),
    ensures
        !has_addr(after, addr),
        distinct_addrs(after),
        all_connected(after),
        all_delivered(after),
{
    let mid = choose|mid: Seq<PeerRecord>|
        broadcast_outcome(before, mid, addr, crate::message::left_text(name, addr_text)) && after
            == #[trigger] without_peer(mid, addr);
    law_broadcast_keeps_invariant(before, mid, addr, crate::message::left_text(name, addr_text));
    law_remove_forgets(mid, addr);
}

} // verus!

verus! {

/// A broadcast loses no peer and invents none: every peer of the table
/// before it is afterwards either still in the table, connected (the sender
/// always, and every peer whose channel took the message), or among the
/// dropped, disconnected (its channel refused the message), never both;
/// and nothing else is in either.
pub proof fn law_broadcast_drops_only_refused(
    before: Seq<PeerRecord>,
    after: Seq<PeerRecord>,
    dropped: Seq<PeerRecord>,
    from: PeerAddr,
    msg: Seq<char>,
)
    requires
        distinct_addrs(before),
        all_connected(before),
        broadcast_split(before, after, dropped, from, msg),
    ensures
        after.len() + dropped.len() == before.len(),
        forall|k: int| 0 <= k < after.len() ==> (#[trigger] after[k]).connected && has_addr(
            before,
            after[k].addr,
        ),
        forall|k: int|
            0 <= k < dropped.len() ==> !(#[trigger] dropped[k]).connected && dropped[k].addr != from
                && has_addr(before, dropped[k].addr),
        forall|i: int|
            0 <= i < before.len() ==> has_addr(after, #[trigger] before[i].addr) || has_addr(
                dropped,
                before[i].addr,
            ),
        forall|i: int| 0 <= i < before.len() && #[trigger] before[i].addr == from ==> after.contains(before[i]),
{
    let mid = choose|mid: Seq<PeerRecord>|
        #[trigger] delivered_to_others(before, mid, from, msg) && after == connected_only(mid)
            && dropped == disconnected_only(mid);
    lemma_broadcast_mid(before, mid, from, msg);
    lemma_connected_only(mid);
    lemma_disconnected_only(mid);
    assert forall|k: int| 0 <= k < after.len() implies (#[trigger] after[k]).connected && has_addr(
        before,
        after[k].addr,
    ) by {
        let m = choose|m: int| 0 <= m < mid.len() && mid[m] == after[k];
        assert(before[m].addr == after[k].addr);
    }
    assert forall|k: int| 0 <= k < dropped.len() implies !(#[trigger] dropped[k]).connected
        && dropped[k].addr != from && has_addr(before, dropped[k].addr) by {
        let m = choose|m: int| 0 <= m < mid.len() && mid[m] == dropped[k];
        assert(before[m].addr == dropped[k].addr);
        if before[m].addr == from {
            assert(mid[m] == before[m]);
        }
    }
    assert forall|i: int| 0 <= i < before.len() implies has_addr(after, #[trigger] before[i].addr)
        || has_addr(dropped, before[i].addr) by {
        assert(mid[i].addr == before[i].addr);
        if mid[i].connected {
            let k = choose|k: int| 0 <= k < after.len() && after[k] == mid[i];
            assert(after[k].addr == before[i].addr);
        } else {
            let k = choose|k: int| 0 <= k < dropped.len() && dropped[k] == mid[i];
            assert(dropped[k].addr == before[i].addr);
        }
    }
    assert forall|i: int| 0 <= i < before.len() && #[trigger] before[i].addr == from implies after.contains(
        before[i],
    ) by {
        assert(mid[i] == before[i]);
        assert(before[i].connected);
    }
}

/// Removing the peer at an address keeps every other peer, and only them:
/// the table shrinks by one when it held the address, and is left alone
/// otherwise.
pub proof fn law_remove_keeps_others(table: Seq<PeerRecord>, addr: PeerAddr)
    requires
        distinct_addrs(table),
    ensures
        forall|i: int|
            0 <= i < table.len() && table[i].addr != addr ==> without_peer(table, addr).contains(
                #[trigger] table[i],
            ),
        forall|k: int|
            0 <= k < without_peer(table, addr).len() ==> table.contains(
                #[trigger] without_peer(table, addr)[k],
            ) && without_peer(table, addr)[k].addr != addr,
        has_addr(table, addr) ==> without_peer(table, addr).len() == table.len() - 1,
        !has_addr(table, addr) ==> without_peer(table, addr) == table,
{
    lemma_without_peer(table, addr);
    let w = without_peer(table, addr);
    if has_addr(table, addr) {
        let j = addr_index(table, addr);
        assert forall|i: int| 0 <= i < table.len() && table[i].addr != addr implies w.contains(
            #[trigger] table[i],
        ) by {
            let k = if i < j { i } else { i - 1 };
            assert(w[k] == table[i]);
        }
        assert forall|k: int| 0 <= k < w.len() implies table.contains(#[trigger] w[k]) && w[k].addr
            != addr by {
            let k2 = if k < j { k } else { k + 1 };
            assert(table[k2] == w[k]);
            if w[k].addr == addr {
                assert(has_addr(w, addr));
            }
        }
    } else {
        assert forall|k: int| 0 <= k < w.len() implies table.contains(#[trigger] w[k]) && w[k].addr
            != addr by {
            assert(table[k] == w[k]);
            if w[k].addr == addr {
                assert(has_addr(table, addr));
            }
        }
    }
}

} // verus!
