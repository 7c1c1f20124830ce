//! The selection on its way from Explorer to the overlay: one packet per
//! invocation, one batch per selection.

use vstd::prelude::*;

use crate::paths::{law_paths_are_ordered, lists_path, order_paths, path_order, same_path};
use crate::text::views;
use crate::wide::{
    append_units, byte_units, decode, decoded, law_decoding_undoes_encoding, lemma_units_without_zero,
    pair_bytes, text_units,
};

verus! {

/// The loopback endpoint that collects the packets of one selection.
pub const SELECTION_BROKER_ADDR: &'static str = "127.0.0.1:39618";

/// The most bytes that a packet may have.
pub const SELECTION_BROKER_MAX_PACKET: usize = 61440;

/// How long the first path is waited on by the packets that belong to it.
pub const SELECTION_BROKER_COLLECTION_WINDOW_MS: u64 = 1000;

/// How long the broker waits in all.
pub const SELECTION_BROKER_MAX_WAIT_MS: u64 = 3000;

/// The units of the paths, each followed by 0.
pub open spec fn list_units(paths: Seq<Seq<char>>) -> Seq<u16>
    decreases paths.len(),
{
    if paths.len() == 0 {
        Seq::empty()
    } else {
        list_units(paths.drop_last()) + text_units(paths.last()).push(0)
    }
}

/// Two bytes for each unit, the lower one first.
pub open spec fn unit_bytes(units: Seq<u16>) -> Seq<u8> {
    Seq::new(
        units.len() * 2,
        |i: int|
            if i % 2 == 0 {
                (units[i / 2] % 256) as u8
            } else {
                (units[i / 2] / 256) as u8
            },
    )
}

/// The index of the first 0 at or after `from`, or the length.
pub open spec fn zero_from(units: Seq<u16>, from: int) -> int
    decreases units.len() - from,
{
    if from >= units.len() {
        units.len() as int
    } else if units[from] == 0 {
        from
    } else {
        zero_from(units, from + 1)
    }
}

/// The paths between the zeros of `units`, without the empty ones and those
/// that are not well-formed UTF-16.
pub open spec fn listed_paths(units: Seq<u16>) -> Seq<Seq<char>>
    decreases units.len(),
    via listed_paths_shrinks
{
    let at = zero_from(units, 0);
    if 0 <= at < units.len() {
        path_in(units.take(at)) + listed_paths(units.skip(at + 1))
    } else {
        path_in(units)
    }
}

#[via_fn]
proof fn listed_paths_shrinks(units: Seq<u16>) {
}

/// The path that one piece holds, if any.
pub open spec fn path_in(piece: Seq<u16>) -> Seq<Seq<char>> {
    match decoded(piece) {
        Some(path) => if piece.len() > 0 {
            seq![path]
        } else {
            Seq::empty()
        },
        None => Seq::empty(),
    }
}

/// A packet of the size that is looked at.
pub open spec fn readable_packet(bytes: Seq<u8>) -> bool {
    0 < bytes.len() <= SELECTION_BROKER_MAX_PACKET && bytes.len() % 2 == 0
}

/// The paths that a packet names.
pub open spec fn received_paths(bytes: Seq<u8>) -> Seq<Seq<char>> {
    if readable_packet(bytes) {
        listed_paths(byte_units(bytes))
    } else {
        Seq::empty()
    }
}

proof fn lemma_zero_from(units: Seq<u16>, from: int)
    requires
        0 <= from <= units.len(),
    ensures
        from <= zero_from(units, from) <= units.len(),
        zero_from(units, from) < units.len() ==> units[zero_from(units, from)] == 0,
        forall|i: int| from <= i < zero_from(units, from) ==> #[trigger] units[i] != 0,
    decreases units.len() - from,
{
    if from < units.len() && units[from] != 0 {
        lemma_zero_from(units, from + 1);
    }
}

proof fn lemma_zero_is_first(units: Seq<u16>, at: int)
    requires
        0 <= at <= units.len(),
        forall|i: int| 0 <= i < at ==> #[trigger] units[i] != 0,
        at < units.len() ==> units[at] == 0,
    ensures
        zero_from(units, 0) == at,
{
    lemma_zero_from(units, 0);
    let found = zero_from(units, 0);
    if found < at {
        assert(units[found] != 0);
    }
}

proof fn lemma_list_units_front(paths: Seq<Seq<char>>)
    requires
        paths.len() > 0,
    ensures
        list_units(paths) == text_units(paths[0]).push(0) + list_units(paths.drop_first()),
    decreases paths.len(),
{
    if paths.len() == 1 {
        assert(paths.drop_last() =~= Seq::<Seq<char>>::empty());
        assert(paths.drop_first() =~= Seq::<Seq<char>>::empty());
        assert(list_units(paths.drop_last()) =~= Seq::<u16>::empty());
        assert(list_units(paths.drop_first()) =~= Seq::<u16>::empty());
        assert(list_units(paths) =~= text_units(paths[0]).push(0));
        assert(text_units(paths[0]).push(0) + list_units(paths.drop_first()) =~= text_units(
            paths[0],
        ).push(0));
    } else {
        lemma_list_units_front(paths.drop_last());
        assert(paths.drop_last().drop_first() =~= paths.drop_first().drop_last());
        assert(list_units(paths) =~= text_units(paths[0]).push(0) + list_units(
            paths.drop_first(),
        ));
    }
}

/// A path that a packet can carry: not empty, and without NUL.
pub open spec fn sendable(path: Seq<char>) -> bool {
    path.len() > 0 && !path.contains('\0')
}

proof fn lemma_listed_paths_of_list(paths: Seq<Seq<char>>)
    requires
        forall|i: int| 0 <= i < paths.len() ==> sendable(#[trigger] paths[i]),
    ensures
        listed_paths(list_units(paths)) == paths,
    decreases paths.len(),
{
    let units = list_units(paths);
    if paths.len() == 0 {
        assert(units =~= Seq::<u16>::empty());
        assert(listed_paths(units) =~= paths);
    } else {
        let head = text_units(paths[0]);
        let rest = list_units(paths.drop_first());
        lemma_list_units_front(paths);
        assert(sendable(paths[0]));
        lemma_units_without_zero(paths[0]);
        law_decoding_undoes_encoding(paths[0]);
        if head.len() == 0 {
            assert(head =~= Seq::<u16>::empty());
            assert(decoded(head) == Some(Seq::<char>::empty()));
        }
        let at = head.len() as int;
        assert forall|i: int| 0 <= i < at implies #[trigger] units[i] != 0 by {
            assert(units[i] == head[i]);
        }
        assert(units[at] == 0);
        lemma_zero_is_first(units, at);
        assert(units.take(at) =~= head);
        assert(units.skip(at + 1) =~= rest);
        assert forall|i: int| 0 <= i < paths.drop_first().len() implies sendable(
            #[trigger] paths.drop_first()[i],
        ) by {
            assert(sendable(paths[i + 1]));
        }
        lemma_listed_paths_of_list(paths.drop_first());
        assert(seq![paths[0]] + paths.drop_first() =~= paths);
    }
}

proof fn lemma_bytes_of_units(units: Seq<u16>)
    ensures
        byte_units(unit_bytes(units)) == units,
        unit_bytes(units).len() == 2 * units.len(),
{
    let bytes = unit_bytes(units);
    assert forall|i: int| 0 <= i < units.len() implies #[trigger] byte_units(bytes)[i]
        == units[i] by {
        assert((2 * i) % 2 == 0 && (2 * i) / 2 == i);
        assert((2 * i + 1) % 2 == 1 && (2 * i + 1) / 2 == i);
        assert(bytes[2 * i] == (units[i] % 256) as u8);
        assert(bytes[2 * i + 1] == (units[i] / 256) as u8);
    }
    assert(byte_units(bytes) =~= units);
}

/// The packet that names `paths`.
pub open spec fn packet_of(paths: Seq<Seq<char>>) -> Seq<u8> {
    unit_bytes(list_units(paths))
}

/// What the sender puts into a packet, the broker takes out of it: all the
/// paths, in their order, whatever characters they hold.
pub proof fn law_packet_carries_selection(paths: Seq<Seq<char>>)
    requires
        paths.len() > 0,
        forall|i: int| 0 <= i < paths.len() ==> sendable(#[trigger] paths[i]),
        packet_of(paths).len() <= SELECTION_BROKER_MAX_PACKET,
    ensures
        received_paths(packet_of(paths)) == paths,
{
    let units = list_units(paths);
    lemma_bytes_of_units(units);
    lemma_list_units_front(paths);
    assert(units.len() > 0);
    assert(packet_of(paths).len() % 2 == 0) by {
        assert((2 * units.len()) % 2 == 0) by (nonlinear_arith);
    }
    lemma_listed_paths_of_list(paths);
}

/// The units of `paths`, each path followed by 0.
pub fn path_list(paths: &Vec<String>) -> (units: Vec<u16>)
    ensures
        units@ == list_units(views(paths@)),
{
    let mut units: Vec<u16> = Vec::new();
    let ghost all = views(paths@);
    let mut i: usize = 0;
    while i < paths.len()
        invariant
            i <= paths@.len(),
            all == views(paths@),
            units@ == list_units(all.take(i as int)),
        decreases paths@.len() - i,
    {
        let ghost before = units@;
        append_units(&mut units, paths[i].as_str());
        units.push(0);
        i = i + 1;
        assert(all.take(i as int).drop_last() =~= all.take(i - 1));
        assert(units@ =~= before + text_units(paths@[i - 1]@).push(0));
    }
    assert(all.take(i as int) =~= all);
    units
}

/// The packet that names `targets`; nothing where it would be too long.
pub fn selection_packet(targets: &Vec<String>) -> (packet: Option<Vec<u8>>)
    ensures
        match packet {
            Some(bytes) => bytes@ == packet_of(views(targets@)) && bytes@.len()
                <= SELECTION_BROKER_MAX_PACKET,
            None => packet_of(views(targets@)).len() > SELECTION_BROKER_MAX_PACKET,
        },
        packet is Some <==> packet_of(views(targets@)).len() <= 61440,
{
    let units = path_list(targets);
    if units.len() > SELECTION_BROKER_MAX_PACKET / 2 {
        return None;
    }
    let mut bytes: Vec<u8> = Vec::new();
    let ghost whole = unit_bytes(units@);
    let mut i: usize = 0;
    while i < units.len()
        invariant
            i <= units@.len(),
            units@.len() <= SELECTION_BROKER_MAX_PACKET / 2,
            whole == unit_bytes(units@),
            bytes@ == whole.take(2 * i),
        decreases units@.len() - i,
    {
        let ghost before = bytes@;
        bytes.push((units[i] % 256) as u8);
        bytes.push((units[i] / 256) as u8);
        proof {
            let k = i as int;
            assert((2 * k) % 2 == 0 && (2 * k) / 2 == k);
            assert((2 * k + 1) % 2 == 1 && (2 * k + 1) / 2 == k);
            assert(whole[2 * k] == (units@[k] % 256) as u8);
            assert(whole[2 * k + 1] == (units@[k] / 256) as u8);
        }
        i = i + 1;
        assert(bytes@ =~= whole.take(2 * i));
    }
    assert(whole.take(2 * i) =~= whole);
    Some(bytes)
}

/// The answer by which the broker says that a packet has arrived.
pub fn is_acknowledgement(reply: &Vec<u8>) -> (known: bool)
    ensures
        known == (reply@ == seq![1u8]),
{
    let known = reply.len() == 1 && reply[0] == 1;
    proof {
        if known {
            assert(reply@ =~= seq![1u8]);
        } else if reply@ == seq![1u8] {
            assert(reply@.len() == 1 && reply@[0] == 1);
        }
    }
    known
}

/// The paths that a packet names. A packet that is empty, of odd length or
/// longer than [`SELECTION_BROKER_MAX_PACKET`] names none; nor does a piece
/// that is empty or not well-formed UTF-16.
pub fn receive_selection(bytes: &Vec<u8>) -> (paths: Vec<String>)
    ensures
        views(paths@) == received_paths(bytes@),
{
    let mut paths: Vec<String> = Vec::new();
    if bytes.len() == 0 || bytes.len() > SELECTION_BROKER_MAX_PACKET || bytes.len() % 2 != 0 {
        assert(views(paths@) =~= Seq::<Seq<char>>::empty());
        return paths;
    }
    let units = pair_bytes(bytes);
    let ghost all = units@;
    let mut piece: Vec<u16> = Vec::new();
    let mut start: usize = 0;
    let mut at: usize = 0;
    assert(all.skip(0) =~= all);
    assert(views(paths@) + listed_paths(all.skip(0)) =~= listed_paths(all));
    while at < units.len()
        invariant
            all == units@,
            start <= at <= units@.len(),
            piece@ == all.subrange(start as int, at as int),
            forall|i: int| start <= i < at ==> #[trigger] all[i] != 0,
            views(paths@) + listed_paths(all.skip(start as int)) == listed_paths(all),
        decreases units@.len() - at,
    {
        if units[at] == 0 {
            let ghost before = views(paths@);
            proof {
                let rest = all.skip(start as int);
                assert forall|i: int| 0 <= i < at - start implies #[trigger] rest[i] != 0 by {
                    assert(rest[i] == all[start + i]);
                }
                lemma_zero_is_first(rest, at - start);
                assert(rest.take(at - start) =~= piece@);
                assert(rest.skip(at - start + 1) =~= all.skip(at + 1));
            }
            keep_path(&mut paths, &piece);
            assert(views(paths@) + listed_paths(all.skip(at + 1)) =~= before + (path_in(piece@)
                + listed_paths(all.skip(at + 1))));
            piece = Vec::new();
            start = at + 1;
        } else {
            piece.push(units[at]);
        }
        at = at + 1;
        assert(piece@ =~= all.subrange(start as int, at as int));
    }
    proof {
        let rest = all.skip(start as int);
        assert forall|i: int| 0 <= i < rest.len() implies #[trigger] rest[i] != 0 by {
            assert(rest[i] == all[start + i]);
        }
        lemma_zero_is_first(rest, rest.len() as int);
        assert(rest =~= piece@);
    }
    keep_path(&mut paths, &piece);
    paths
}

/// Adds the path that `piece` holds, if any.
fn keep_path(paths: &mut Vec<String>, piece: &Vec<u16>)
    ensures
        views(final(paths)@) == views(old(paths)@) + path_in(piece@),
{
    let ghost before = views(paths@);
    if piece.len() > 0 {
        match decode(piece) {
            Some(path) => {
                paths.push(path);
            },
            None => {},
        }
    }
    assert(views(paths@) =~= before + path_in(piece@));
}

/// The paths of one selection while its packets come in. Times are in
/// milliseconds since the broker started to wait.
pub struct SelectionBatch {
    pub collected: Vec<String>,
    pub first_received: Option<u64>,
}

/// What the broker does when no packet is waiting.
#[derive(Clone, Copy, PartialEq, Eq, Structural)]
pub enum BrokerWait {
    Sleep,
    Finish,
}

/// How a receive ended that brought no packet.
#[derive(Clone, Copy, PartialEq, Eq, Structural)]
pub enum ReceiveFailure {
    /// Nothing is waiting.
    WouldBlock,
    /// A sender has gone; the endpoint still works.
    ConnectionReset,
    /// Anything else.
    Other,
}

/// Whether the collection has lasted long enough at time `now`.
pub open spec fn collection_over(first_received: Option<u64>, now: u64) -> bool {
    ||| first_received matches Some(first) && now - first >= SELECTION_BROKER_COLLECTION_WINDOW_MS
    ||| now >= SELECTION_BROKER_MAX_WAIT_MS
}

impl SelectionBatch {
    /// A batch that has received nothing.
    pub fn new() -> (batch: Self)
        ensures
            batch.collected@.len() == 0,
            batch.first_received is None,
    {
        SelectionBatch { collected: Vec::new(), first_received: None }
    }

    /// Takes in the paths of one packet that arrived at time `now`. The first
    /// packet with a path starts the collection window.
    pub fn receive(&mut self, paths: Vec<String>, now: u64)
        ensures
            views(final(self).collected@) == views(old(self).collected@) + views(paths@),
            final(self).first_received == (if paths@.len() > 0 && old(self).first_received is None {
                Some(now)
            } else {
                old(self).first_received
            }),
    {
        let ghost before = views(self.collected@);
        let ghost added = views(paths@);
        if paths.len() > 0 {
            let mut i: usize = 0;
            while i < paths.len()
                invariant
                    i <= paths@.len(),
                    added == views(paths@),
                    self.first_received == old(self).first_received,
                    views(self.collected@) == before + added.take(i as int),
                decreases paths@.len() - i,
            {
                let ghost so_far = views(self.collected@);
                let path = paths[i].clone();
                self.collected.push(path);
                assert(views(self.collected@) =~= so_far.push(added[i as int]));
                i = i + 1;
                assert(views(self.collected@) =~= before + added.take(i as int));
            }
            assert(added.take(i as int) =~= added);
            if self.first_received.is_none() {
                self.first_received = Some(now);
            }
        }
        assert(views(self.collected@) =~= before + added);
    }

    /// What to do at time `now` when a receive brought no packet: go on until
    /// the collection window of the first path, or the whole wait, is over.
    pub fn idle(&self, failure: ReceiveFailure, now: u64) -> (wait: BrokerWait)
        ensures
            wait == (if failure == ReceiveFailure::Other || collection_over(
                self.first_received,
                now,
            ) {
                BrokerWait::Finish
            } else {
                BrokerWait::Sleep
            }),
            wait == BrokerWait::Sleep <==> failure != ReceiveFailure::Other && now < 3000 && (
            self.first_received matches Some(first) ==> now - first < 1000),
    {
        match failure {
            ReceiveFailure::Other => {
                return BrokerWait::Finish;
            },
            _ => {},
        }
        let complete: bool = match self.first_received {
            Some(first) => now >= first && now - first >= SELECTION_BROKER_COLLECTION_WINDOW_MS,
            None => false,
        };
        if complete || now >= SELECTION_BROKER_MAX_WAIT_MS {
            BrokerWait::Finish
        } else {
            BrokerWait::Sleep
        }
    }

    /// The selection: every collected path once, in the order of paths.
    pub fn finish(&self) -> (targets: Vec<String>)
        ensures
            is_selection_of(views(targets@), views(self.collected@)),
    {
        let ghost all = views(self.collected@);
        let mut targets: Vec<String> = Vec::new();
        let mut next: usize = 0;
        assert(is_selection_of(views(targets@), all.take(0))) by {
            reveal(is_selection_of);
        }
        while next < self.collected.len()
            invariant
                next <= self.collected@.len(),
                all == views(self.collected@),
                is_selection_of(views(targets@), all.take(next as int)),
            decreases self.collected@.len() - next,
        {
            let ghost seen = all.take(next as int);
            let ghost before = views(targets@);
            let path = self.collected[next].clone();
            assert(path@ == all[next as int]);
            assert(all.take(next + 1) =~= seen.push(path@));
            let (at, known) = place_of(path.as_str(), &targets);
            if known {
                proof {
                    lemma_selection_skips(before, seen, path@, at as int);
                }
            } else {
                proof {
                    lemma_selection_grows(before, seen, path@, at as int);
                }
                targets.insert(at, path);
                assert(views(targets@) =~= before.insert(at as int, all[next as int]));
            }
            next = next + 1;
        }
        assert(all.take(next as int) =~= all);
        targets
    }
}

/// Where `path` belongs in the ordered `targets`, and whether it stands there.
fn place_of(path: &str, targets: &Vec<String>) -> (place: (usize, bool))
    ensures
        place.0 <= targets@.len(),
        forall|i: int|
            0 <= i < place.0 ==> path_order(path@, #[trigger] views(targets@)[i]) > 0,
        place.1 ==> place.0 < targets@.len() && path_order(
            path@,
            views(targets@)[place.0 as int],
        ) == 0,
        !place.1 && place.0 < targets@.len() ==> path_order(
            path@,
            views(targets@)[place.0 as int],
        ) < 0,
{
    let mut at: usize = 0;
    while at < targets.len()
        invariant
            at <= targets@.len(),
            forall|i: int| 0 <= i < at ==> path_order(path@, #[trigger] views(targets@)[i]) > 0,
        decreases targets@.len() - at,
    {
        let order: i8 = order_paths(path, targets[at].as_str());
        if order <= 0 {
            return (at, order == 0);
        }
        at = at + 1;
    }
    (at, false)
}

/// Whether `targets` holds every path of `collected` once, in order: where the
/// same path was collected more than once, the text that came first.
#[verifier::opaque]
pub open spec fn is_selection_of(targets: Seq<Seq<char>>, collected: Seq<Seq<char>>) -> bool {
    &&& forall|i: int, j: int|
        0 <= i < j < targets.len() ==> path_order(#[trigger] targets[i], #[trigger] targets[j]) < 0
    &&& forall|i: int| 0 <= i < targets.len() ==> came_first(#[trigger] targets[i], collected)
    &&& forall|k: int|
        0 <= k < collected.len() ==> lists_path(targets, #[trigger] collected[k])
}

/// Whether `path` is in `collected` and no text for the same path precedes it.
pub open spec fn came_first(path: Seq<char>, collected: Seq<Seq<char>>) -> bool {
    exists|k: int|
        #![trigger collected[k]]
        0 <= k < collected.len() && collected[k] == path && forall|j: int|
            0 <= j < k ==> !same_path(#[trigger] collected[j], path)
}

proof fn lemma_came_first_stays(path: Seq<char>, seen: Seq<Seq<char>>, more: Seq<char>)
    requires
        came_first(path, seen),
    ensures
        came_first(path, seen.push(more)),
{
    let k = choose|k: int|
        #![trigger seen[k]]
        0 <= k < seen.len() && seen[k] == path && forall|j: int|
            0 <= j < k ==> !same_path(#[trigger] seen[j], path);
    let grown = seen.push(more);
    assert(grown[k] == path);
    assert forall|j: int| 0 <= j < k implies !same_path(#[trigger] grown[j], path) by {
        assert(grown[j] == seen[j]);
    }
}

proof fn lemma_selection_skips(
    targets: Seq<Seq<char>>,
    seen: Seq<Seq<char>>,
    path: Seq<char>,
    at: int,
)
    requires
        is_selection_of(targets, seen),
        0 <= at < targets.len(),
        path_order(path, targets[at]) == 0,
    ensures
        is_selection_of(targets, seen.push(path)),
{
    reveal(is_selection_of);
    let grown = seen.push(path);
    law_paths_are_ordered(path, targets[at], path);
    assert forall|i: int| 0 <= i < targets.len() implies came_first(#[trigger] targets[i], grown) by {
        lemma_came_first_stays(targets[i], seen, path);
    }
    assert forall|k: int| 0 <= k < grown.len() implies lists_path(targets, #[trigger] grown[k]) by {
        if k < seen.len() {
            assert(grown[k] == seen[k]);
        } else {
            assert(same_path(targets[at], grown[k]));
        }
    }
}

proof fn lemma_order_is_strict(a: Seq<char>, b: Seq<char>, c: Seq<char>)
    requires
        path_order(a, b) < 0,
        path_order(b, c) < 0,
    ensures
        path_order(a, c) < 0,
{
    law_paths_are_ordered(a, b, c);
    law_paths_are_ordered(c, a, b);
    law_paths_are_ordered(b, c, a);
}

proof fn lemma_insert_keeps_order(targets: Seq<Seq<char>>, path: Seq<char>, at: int)
    requires
        forall|i: int, j: int|
            0 <= i < j < targets.len() ==> path_order(
                #[trigger] targets[i],
                #[trigger] targets[j],
            ) < 0,
        0 <= at <= targets.len(),
        at < targets.len() ==> path_order(path, targets[at]) < 0,
        forall|i: int| 0 <= i < at ==> path_order(path, #[trigger] targets[i]) > 0,
    ensures
        forall|i: int| at <= i < targets.len() ==> path_order(path, #[trigger] targets[i]) < 0,
        forall|i: int, j: int|
            0 <= i < j < targets.insert(at, path).len() ==> path_order(
                #[trigger] targets.insert(at, path)[i],
                #[trigger] targets.insert(at, path)[j],
            ) < 0,
{
    let list = targets.insert(at, path);
    assert forall|i: int| at <= i < targets.len() implies path_order(path, #[trigger] targets[i])
        < 0 by {
        if i > at {
            lemma_order_is_strict(path, targets[at], targets[i]);
        }
    }
    assert forall|i: int, j: int| 0 <= i < j < list.len() implies path_order(
        #[trigger] list[i],
        #[trigger] list[j],
    ) < 0 by {
        let a = if i < at { i } else { i - 1 };
        let b = if j < at { j } else { j - 1 };
        if i == at {
            assert(list[j] == targets[b]);
        } else if j == at {
            assert(list[i] == targets[i]);
            law_paths_are_ordered(path, targets[i], path);
        } else {
            assert(list[i] == targets[a] && list[j] == targets[b]);
        }
    }
}

proof fn lemma_path_is_new(
    targets: Seq<Seq<char>>,
    seen: Seq<Seq<char>>,
    path: Seq<char>,
    at: int,
)
    requires
        forall|k: int| 0 <= k < seen.len() ==> lists_path(targets, #[trigger] seen[k]),
        forall|i: int| 0 <= i < at ==> path_order(path, #[trigger] targets[i]) > 0,
        forall|i: int| at <= i < targets.len() ==> path_order(path, #[trigger] targets[i]) < 0,
    ensures
        forall|j: int| 0 <= j < seen.len() ==> !same_path(#[trigger] seen[j], path),
{
    assert forall|j: int| 0 <= j < seen.len() implies !same_path(#[trigger] seen[j], path) by {
        if same_path(seen[j], path) {
            assert(lists_path(targets, seen[j]));
            let i = choose|i: int|
                0 <= i < targets.len() && same_path(#[trigger] targets[i], seen[j]);
            law_paths_are_ordered(path, targets[i], path);
        }
    }
}

proof fn lemma_insert_keeps_first(
    targets: Seq<Seq<char>>,
    seen: Seq<Seq<char>>,
    path: Seq<char>,
    at: int,
)
    requires
        0 <= at <= targets.len(),
        forall|i: int| 0 <= i < targets.len() ==> came_first(#[trigger] targets[i], seen),
        forall|j: int| 0 <= j < seen.len() ==> !same_path(#[trigger] seen[j], path),
    ensures
        forall|i: int|
            0 <= i < targets.insert(at, path).len() ==> came_first(
                #[trigger] targets.insert(at, path)[i],
                seen.push(path),
            ),
{
    let list = targets.insert(at, path);
    let grown = seen.push(path);
    assert forall|i: int| 0 <= i < list.len() implies came_first(#[trigger] list[i], grown) by {
        if i == at {
            assert(grown[seen.len() as int] == path);
            assert forall|j: int| 0 <= j < seen.len() implies !same_path(
                #[trigger] grown[j],
                path,
            ) by {
                assert(grown[j] == seen[j]);
            }
        } else {
            let a = if i < at { i } else { i - 1 };
            assert(list[i] == targets[a]);
            lemma_came_first_stays(targets[a], seen, path);
        }
    }
}

proof fn lemma_insert_keeps_names(
    targets: Seq<Seq<char>>,
    seen: Seq<Seq<char>>,
    path: Seq<char>,
    at: int,
)
    requires
        0 <= at <= targets.len(),
        forall|k: int| 0 <= k < seen.len() ==> lists_path(targets, #[trigger] seen[k]),
    ensures
        forall|k: int|
            0 <= k < seen.push(path).len() ==> lists_path(
                targets.insert(at, path),
                #[trigger] seen.push(path)[k],
            ),
{
    let list = targets.insert(at, path);
    let grown = seen.push(path);
    assert forall|k: int| 0 <= k < grown.len() implies lists_path(list, #[trigger] grown[k]) by {
        if k < seen.len() {
            assert(grown[k] == seen[k]);
            assert(lists_path(targets, seen[k]));
            let i = choose|i: int|
                0 <= i < targets.len() && same_path(#[trigger] targets[i], seen[k]);
            let there = if i < at { i } else { i + 1 };
            assert(list[there] == targets[i]);
        } else {
            assert(list[at] == path);
        }
    }
}

proof fn lemma_selection_grows(
    targets: Seq<Seq<char>>,
    seen: Seq<Seq<char>>,
    path: Seq<char>,
    at: int,
)
    requires
        is_selection_of(targets, seen),
        0 <= at <= targets.len(),
        at < targets.len() ==> path_order(path, targets[at]) < 0,
        forall|i: int| 0 <= i < at ==> path_order(path, #[trigger] targets[i]) > 0,
    ensures
        is_selection_of(targets.insert(at, path), seen.push(path)),
{
    reveal(is_selection_of);
    lemma_insert_keeps_order(targets, path, at);
    lemma_path_is_new(targets, seen, path, at);
    lemma_insert_keeps_first(targets, seen, path, at);
    lemma_insert_keeps_names(targets, seen, path, at);
}

/// No collected path is lost, and none is in the selection twice.
pub proof fn law_selection_is_complete(
    targets: Seq<Seq<char>>,
    collected: Seq<Seq<char>>,
    k: int,
    i: int,
    j: int,
)
    requires
        is_selection_of(targets, collected),
        0 <= k < collected.len(),
        0 <= i < targets.len(),
        0 <= j < targets.len(),
    ensures
        lists_path(targets, collected[k]),
        collected.contains(targets[i]),
        same_path(targets[i], targets[j]) ==> i == j,
{
    reveal(is_selection_of);
    assert(lists_path(targets, collected[k]));
    assert(came_first(targets[i], collected));
    if i < j {
        assert(path_order(targets[i], targets[j]) < 0);
        law_paths_are_ordered(targets[i], targets[j], targets[j]);
    } else if j < i {
        assert(path_order(targets[j], targets[i]) < 0);
        law_paths_are_ordered(targets[j], targets[i], targets[i]);
    }
}

/// In a packet the paths follow one another, each closed by a zero, two bytes to a
/// unit with the lower one first.
pub proof fn law_packet_holds_path_after_path(
    paths: Seq<Seq<char>>,
    more: Seq<Seq<char>>,
    path: Seq<char>,
    units: Seq<u16>,
    i: int,
)
    ensures
        list_units(Seq::empty()).len() == 0,
        list_units(seq![path]) == text_units(path) + seq![0u16],
        list_units(paths + more) == list_units(paths) + list_units(more),
        packet_of(paths) == unit_bytes(list_units(paths)),
        unit_bytes(units).len() == 2 * units.len(),
        0 <= i < units.len() ==> unit_bytes(units)[2 * i] == units[i] % 256 && unit_bytes(
            units,
        )[2 * i + 1] == units[i] / 256,
    decreases more.len(),
{
    assert(seq![path].drop_last() =~= Seq::<Seq<char>>::empty());
    assert(list_units(seq![path].drop_last()) =~= Seq::<u16>::empty());
    assert(list_units(seq![path]) =~= text_units(path) + seq![0u16]);
    if 0 <= i < units.len() {
        assert((2 * i) % 2 == 0 && (2 * i) / 2 == i);
        assert((2 * i + 1) % 2 == 1 && (2 * i + 1) / 2 == i);
    }
    if more.len() == 0 {
        assert(paths + more =~= paths);
        assert(list_units(paths) + list_units(more) =~= list_units(paths));
    } else {
        law_packet_holds_path_after_path(paths, more.drop_last(), path, units, i);
        assert((paths + more).drop_last() =~= paths + more.drop_last());
        assert(list_units(paths + more) =~= list_units(paths) + list_units(more));
    }
}

/// A packet that is empty, of odd length or of more than sixty kibibytes names no
/// path. Any other is read piece by piece between its zeros: a piece that is not
/// empty and is a text is a path, in the order in which they stand.
pub proof fn law_packets_are_read_piece_by_piece(
    bytes: Seq<u8>,
    piece: Seq<u16>,
    rest: Seq<u16>,
    path: Seq<char>,
)
    requires
        forall|i: int| 0 <= i < piece.len() ==> #[trigger] piece[i] != 0,
    ensures
        bytes.len() == 0 || bytes.len() % 2 == 1 || bytes.len() > 61440 ==> received_paths(
            bytes,
        ).len() == 0,
        0 < bytes.len() <= 61440 && bytes.len() % 2 == 0 ==> received_paths(bytes) == listed_paths(
            byte_units(bytes),
        ),
        listed_paths(piece + seq![0u16] + rest) == path_in(piece) + listed_paths(rest),
        listed_paths(piece) == path_in(piece),
        piece.len() == 0 || decoded(piece) is None ==> path_in(piece).len() == 0,
        piece.len() > 0 && decoded(piece) == Some(path) ==> path_in(piece) == seq![path],
{
    let units = piece + seq![0u16] + rest;
    let at = piece.len() as int;
    assert forall|i: int| 0 <= i < at implies #[trigger] units[i] != 0 by {
        assert(units[i] == piece[i]);
    }
    assert(units[at] == 0);
    lemma_zero_is_first(units, at);
    assert(units.take(at) =~= piece);
    assert(units.skip(at + 1) =~= rest);
    lemma_zero_is_first(piece, at);
}

/// The packets of a selection are waited for during one second after the first path
/// came, and three seconds in all.
pub proof fn law_collection_lasts_its_time(first: Option<u64>, now: u64)
    ensures
        now >= 3000 ==> collection_over(first, now),
        now < 3000 && first is None ==> !collection_over(first, now),
        now < 3000 && first is Some ==> (collection_over(first, now) <==> now - first->0 >= 1000),
{
}

/// A selection is in the order of paths, and of two texts for one path it has the one
/// that came first.
pub proof fn law_selection_is_ordered(
    targets: Seq<Seq<char>>,
    collected: Seq<Seq<char>>,
    i: int,
    j: int,
    k: int,
)
    requires
        is_selection_of(targets, collected),
        0 <= i < j < targets.len(),
        0 <= k < collected.len(),
    ensures
        path_order(targets[i], targets[j]) < 0,
        same_path(collected[k], targets[i]) ==> exists|l: int|
            0 <= l <= k && #[trigger] collected[l] == targets[i],
{
    reveal(is_selection_of);
    assert(came_first(targets[i], collected));
    let l = choose|l: int|
        #![trigger collected[l]]
        0 <= l < collected.len() && collected[l] == targets[i] && forall|m: int|
            0 <= m < l ==> !same_path(#[trigger] collected[m], targets[i]);
    if same_path(collected[k], targets[i]) {
        assert(l <= k);
    }
}

} // verus!
