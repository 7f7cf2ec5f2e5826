//! The binary layout of a snapshot, as functions on bytes.
//!
//! All integers are eight bytes, least significant first. A snapshot is, in
//! this order: the node count and the nodes (id, latitude bits, longitude
//! bits); the way count and the ways (id, number of node ids, the node ids,
//! a direction byte, a name); the node lookup table and the way lookup table
//! (entry count, then id and position, ascending by position); the point
//! index (entry count, then latitude bits, longitude bits and id).
//! A name is the byte 0, or the byte 1 followed by the length and the bytes
//! of its UTF-8 text.

use crate::model::{Node, WayView};
use crate::spatial::SpatialEntry;
use crate::store::{all_nodes_finite, loaded, node_ids, way_ids, TosmView};
use crate::wire::{
    holds_at, lemma_holds_at_join, lemma_holds_at_split, lemma_read_u64,
    lemma_u64_bytes_of_read, lemma_u64_round_trip, read_u64, u64_at, u64_bytes,
};
use vstd::prelude::*;
use vstd::utf8::{decode_utf8, encode_utf8, valid_utf8};

verus! {

/// The twenty-four bytes of a node.
pub open spec fn node_bytes(node: Node) -> Seq<u8> {
    u64_bytes(node.id) + u64_bytes(node.lat_bits) + u64_bytes(node.lon_bits)
}

/// The bytes of the nodes, one after another.
pub open spec fn nodes_bytes(nodes: Seq<Node>) -> Seq<u8>
    decreases nodes.len(),
{
    if nodes.len() == 0 {
        Seq::empty()
    } else {
        nodes_bytes(nodes.drop_last()) + node_bytes(nodes.last())
    }
}

/// Reads one node at `at`.
pub open spec fn read_node(bytes: Seq<u8>, at: int) -> Option<(Node, int)> {
    if 0 <= at && at + 24 <= bytes.len() {
        Some(
            (
                Node {
                    id: u64_at(bytes, at),
                    lat_bits: u64_at(bytes, at + 8),
                    lon_bits: u64_at(bytes, at + 16),
                },
                at + 24,
            ),
        )
    } else {
        None
    }
}

/// Reads `count` nodes starting at `at`.
pub open spec fn read_nodes(bytes: Seq<u8>, at: int, count: nat) -> Option<(Seq<Node>, int)>
    decreases count,
{
    if count == 0 {
        Some((Seq::empty(), at))
    } else {
        match read_nodes(bytes, at, (count - 1) as nat) {
            Some((front, middle)) => match read_node(bytes, middle) {
                Some((node, end)) => Some((front.push(node), end)),
                None => None,
            },
            None => None,
        }
    }
}

/// Once reading a number of nodes fails, reading more fails too.
pub proof fn lemma_read_nodes_stays_none(bytes: Seq<u8>, at: int, fewer: nat, count: nat)
    requires
        fewer <= count,
        read_nodes(bytes, at, fewer).is_none(),
    ensures
        read_nodes(bytes, at, count).is_none(),
    decreases count,
{
    if fewer < count {
        lemma_read_nodes_stays_none(bytes, at, fewer, (count - 1) as nat);
    }
}

/// Where the bytes of a node occur, reading gives that node.
pub proof fn lemma_read_node(bytes: Seq<u8>, at: int, node: Node)
    requires
        holds_at(bytes, at, node_bytes(node)),
    ensures
        node_bytes(node).len() == 24,
        read_node(bytes, at) == Some((node, at + 24)),
{
    lemma_u64_round_trip(node.id);
    lemma_u64_round_trip(node.lat_bits);
    lemma_u64_round_trip(node.lon_bits);
    lemma_holds_at_split(
        bytes,
        at,
        u64_bytes(node.id) + u64_bytes(node.lat_bits),
        u64_bytes(node.lon_bits),
    );
    lemma_holds_at_split(bytes, at, u64_bytes(node.id), u64_bytes(node.lat_bits));
    lemma_read_u64(bytes, at, node.id);
    lemma_read_u64(bytes, at + 8, node.lat_bits);
    lemma_read_u64(bytes, at + 16, node.lon_bits);
}

/// Where the bytes of a sequence of nodes occur, reading as many nodes
/// gives that sequence.
pub proof fn lemma_read_nodes(bytes: Seq<u8>, at: int, nodes: Seq<Node>)
    requires
        holds_at(bytes, at, nodes_bytes(nodes)),
    ensures
        read_nodes(bytes, at, nodes.len()) == Some((nodes, at + nodes_bytes(nodes).len())),
    decreases nodes.len(),
{
    if nodes.len() > 0 {
        let front = nodes.drop_last();
        lemma_holds_at_split(bytes, at, nodes_bytes(front), node_bytes(nodes.last()));
        lemma_read_nodes(bytes, at, front);
        lemma_read_node(bytes, at + nodes_bytes(front).len(), nodes.last());
        assert(front.push(nodes.last()) =~= nodes);
    }
}

/// The bytes of a sequence of ids, eight bytes each.
pub open spec fn ids_bytes(ids: Seq<u64>) -> Seq<u8>
    decreases ids.len(),
{
    if ids.len() == 0 {
        Seq::empty()
    } else {
        ids_bytes(ids.drop_last()) + u64_bytes(ids.last())
    }
}

/// Reads `count` ids starting at `at`.
pub open spec fn read_ids(bytes: Seq<u8>, at: int, count: nat) -> Option<(Seq<u64>, int)>
    decreases count,
{
    if count == 0 {
        Some((Seq::empty(), at))
    } else {
        match read_ids(bytes, at, (count - 1) as nat) {
            Some((front, middle)) => match read_u64(bytes, middle) {
                Some((id, end)) => Some((front.push(id), end)),
                None => None,
            },
            None => None,
        }
    }
}

/// The byte of a direction flag: 1 for one-way, 0 otherwise.
pub open spec fn flag_byte(flag: bool) -> u8 {
    if flag {
        1
    } else {
        0
    }
}

/// Reads a direction flag at `at`; only the bytes 0 and 1 are flags.
pub open spec fn read_flag(bytes: Seq<u8>, at: int) -> Option<(bool, int)> {
    if 0 <= at < bytes.len() && bytes[at] <= 1 {
        Some((bytes[at] == 1, at + 1))
    } else {
        None
    }
}

/// The bytes of an optional name.
pub open spec fn name_bytes(name: Option<Seq<char>>) -> Seq<u8> {
    match name {
        None => seq![0u8],
        Some(text) => seq![1u8] + u64_bytes(encode_utf8(text).len() as u64) + encode_utf8(text),
    }
}

/// Reads an optional name at `at`. The text must be well-formed UTF-8 and
/// lie wholly inside `bytes`.
pub open spec fn read_name(bytes: Seq<u8>, at: int) -> Option<(Option<Seq<char>>, int)> {
    if 0 <= at < bytes.len() && bytes[at] == 0 {
        Some((None, at + 1))
    } else if 0 <= at < bytes.len() && bytes[at] == 1 {
        match read_u64(bytes, at + 1) {
            Some((length, start)) => {
                let raw = bytes.subrange(start, start + length);
                if start + length <= bytes.len() && valid_utf8(raw) {
                    Some((Some(decode_utf8(raw)), start + length))
                } else {
                    None
                }
            },
            None => None,
        }
    } else {
        None
    }
}

/// The bytes of a way.
pub open spec fn way_bytes(way: WayView) -> Seq<u8> {
    u64_bytes(way.id) + u64_bytes(way.node_ids.len() as u64) + ids_bytes(way.node_ids) + seq![
        flag_byte(way.one_way),
    ] + name_bytes(way.name)
}

/// Reads one way at `at`.
pub open spec fn read_way(bytes: Seq<u8>, at: int) -> Option<(WayView, int)> {
    match read_u64(bytes, at) {
        Some((id, after_id)) => match read_u64(bytes, after_id) {
            Some((count, after_count)) => match read_ids(bytes, after_count, count as nat) {
                Some((node_ids, after_ids)) => match read_flag(bytes, after_ids) {
                    Some((one_way, after_flag)) => match read_name(bytes, after_flag) {
                        Some((name, end)) => Some((WayView { id, node_ids, one_way, name }, end)),
                        None => None,
                    },
                    None => None,
                },
                None => None,
            },
            None => None,
        },
        None => None,
    }
}

/// The bytes of the ways, one after another.
pub open spec fn ways_bytes(ways: Seq<WayView>) -> Seq<u8>
    decreases ways.len(),
{
    if ways.len() == 0 {
        Seq::empty()
    } else {
        ways_bytes(ways.drop_last()) + way_bytes(ways.last())
    }
}

/// Reads `count` ways starting at `at`.
pub open spec fn read_ways(bytes: Seq<u8>, at: int, count: nat) -> Option<(Seq<WayView>, int)>
    decreases count,
{
    if count == 0 {
        Some((Seq::empty(), at))
    } else {
        match read_ways(bytes, at, (count - 1) as nat) {
            Some((front, middle)) => match read_way(bytes, middle) {
                Some((way, end)) => Some((front.push(way), end)),
                None => None,
            },
            None => None,
        }
    }
}

/// The lengths inside the way can be written as eight-byte integers.
pub open spec fn way_fits(way: WayView) -> bool {
    &&& way.node_ids.len() <= u64::MAX
    &&& match way.name {
        Some(text) => encode_utf8(text).len() <= u64::MAX,
        None => true,
    }
}

/// Every way of the sequence fits.
pub open spec fn ways_fit(ways: Seq<WayView>) -> bool {
    forall|i: int| 0 <= i < ways.len() ==> way_fits(#[trigger] ways[i])
}

/// Once reading a number of ids fails, reading more fails too.
pub proof fn lemma_read_ids_stays_none(bytes: Seq<u8>, at: int, fewer: nat, count: nat)
    requires
        fewer <= count,
        read_ids(bytes, at, fewer).is_none(),
    ensures
        read_ids(bytes, at, count).is_none(),
    decreases count,
{
    if fewer < count {
        lemma_read_ids_stays_none(bytes, at, fewer, (count - 1) as nat);
    }
}

/// Once reading a number of ways fails, reading more fails too.
pub proof fn lemma_read_ways_stays_none(bytes: Seq<u8>, at: int, fewer: nat, count: nat)
    requires
        fewer <= count,
        read_ways(bytes, at, fewer).is_none(),
    ensures
        read_ways(bytes, at, count).is_none(),
    decreases count,
{
    if fewer < count {
        lemma_read_ways_stays_none(bytes, at, fewer, (count - 1) as nat);
    }
}

/// Where the bytes of a sequence of ids occur, reading as many ids gives
/// that sequence.
pub proof fn lemma_read_ids(bytes: Seq<u8>, at: int, ids: Seq<u64>)
    requires
        holds_at(bytes, at, ids_bytes(ids)),
    ensures
        read_ids(bytes, at, ids.len()) == Some((ids, at + ids_bytes(ids).len())),
    decreases ids.len(),
{
    if ids.len() > 0 {
        let front = ids.drop_last();
        lemma_holds_at_split(bytes, at, ids_bytes(front), u64_bytes(ids.last()));
        lemma_read_ids(bytes, at, front);
        lemma_read_u64(bytes, at + ids_bytes(front).len(), ids.last());
        lemma_u64_round_trip(ids.last());
        assert(front.push(ids.last()) =~= ids);
    }
}

/// Where the byte of a flag occurs, reading gives that flag.
pub proof fn lemma_read_flag(bytes: Seq<u8>, at: int, flag: bool)
    requires
        holds_at(bytes, at, seq![flag_byte(flag)]),
    ensures
        read_flag(bytes, at) == Some((flag, at + 1)),
{
    assert(bytes.subrange(at, at + 1)[0] == flag_byte(flag));
}

/// Where the bytes of a name occur, reading gives that name.
pub proof fn lemma_read_name(bytes: Seq<u8>, at: int, name: Option<Seq<char>>)
    requires
        holds_at(bytes, at, name_bytes(name)),
        match name {
            Some(text) => encode_utf8(text).len() <= u64::MAX,
            None => true,
        },
    ensures
        read_name(bytes, at) == Some((name, at + name_bytes(name).len())),
{
    match name {
        None => {
            assert(bytes.subrange(at, at + 1)[0] == 0u8);
        },
        Some(text) => {
            let raw = encode_utf8(text);
            let length = raw.len() as u64;
            lemma_u64_round_trip(length);
            lemma_holds_at_split(bytes, at, seq![1u8] + u64_bytes(length), raw);
            lemma_holds_at_split(bytes, at, seq![1u8], u64_bytes(length));
            assert(bytes.subrange(at, at + 1)[0] == 1u8);
            lemma_read_u64(bytes, at + 1, length);
            vstd::utf8::encode_utf8_valid_utf8(text);
            vstd::utf8::encode_utf8_decode_utf8(text);
        },
    }
}

/// Where the bytes of a way occur, reading gives that way.
pub proof fn lemma_read_way(bytes: Seq<u8>, at: int, way: WayView)
    requires
        holds_at(bytes, at, way_bytes(way)),
        way_fits(way),
    ensures
        read_way(bytes, at) == Some((way, at + way_bytes(way).len())),
{
    let count = way.node_ids.len() as u64;
    let id_part = u64_bytes(way.id);
    let count_part = u64_bytes(count);
    let ids_part = ids_bytes(way.node_ids);
    let flag_part = seq![flag_byte(way.one_way)];
    let name_part = name_bytes(way.name);
    lemma_u64_round_trip(way.id);
    lemma_u64_round_trip(count);
    lemma_holds_at_split(bytes, at, id_part + count_part + ids_part + flag_part, name_part);
    lemma_holds_at_split(bytes, at, id_part + count_part + ids_part, flag_part);
    lemma_holds_at_split(bytes, at, id_part + count_part, ids_part);
    lemma_holds_at_split(bytes, at, id_part, count_part);
    lemma_read_u64(bytes, at, way.id);
    lemma_read_u64(bytes, at + 8, count);
    lemma_read_ids(bytes, at + 16, way.node_ids);
    lemma_read_flag(bytes, at + 16 + ids_part.len(), way.one_way);
    lemma_read_name(bytes, at + 16 + ids_part.len() + 1, way.name);
}

/// Where the bytes of a sequence of ways occur, reading as many ways gives
/// that sequence.
pub proof fn lemma_read_ways(bytes: Seq<u8>, at: int, ways: Seq<WayView>)
    requires
        holds_at(bytes, at, ways_bytes(ways)),
        ways_fit(ways),
    ensures
        read_ways(bytes, at, ways.len()) == Some((ways, at + ways_bytes(ways).len())),
    decreases ways.len(),
{
    if ways.len() > 0 {
        let front = ways.drop_last();
        assert forall|i: int| 0 <= i < front.len() implies way_fits(#[trigger] front[i]) by {
            assert(front[i] == ways[i]);
        }
        lemma_holds_at_split(bytes, at, ways_bytes(front), way_bytes(ways.last()));
        lemma_read_ways(bytes, at, front);
        lemma_read_way(bytes, at + ways_bytes(front).len(), ways.last());
        assert(front.push(ways.last()) =~= ways);
    }
}

/// The entries of a lookup table over `ids`, ascending by position: for
/// each position that the table records for the id found there, the id and
/// the position.
pub open spec fn index_entries_bytes(ids: Seq<u64>, table: Map<u64, usize>) -> Seq<u8>
    decreases ids.len(),
{
    if ids.len() == 0 {
        Seq::empty()
    } else {
        let front = index_entries_bytes(ids.drop_last(), table);
        let position = ids.len() - 1;
        if table.contains_key(ids.last()) && table[ids.last()] == position {
            front + u64_bytes(ids.last()) + u64_bytes(position as u64)
        } else {
            front
        }
    }
}

/// The bytes of a lookup table over `ids`: the number of keys, then the
/// entries.
pub open spec fn index_section(ids: Seq<u64>, table: Map<u64, usize>) -> Seq<u8> {
    u64_bytes(table.len() as u64) + index_entries_bytes(ids, table)
}

/// The bytes of one index point.
pub open spec fn entry_bytes(entry: SpatialEntry) -> Seq<u8> {
    u64_bytes(entry.lat_bits) + u64_bytes(entry.lon_bits) + u64_bytes(entry.id)
}

/// The bytes of the index points, one after another.
pub open spec fn entries_bytes(entries: Seq<SpatialEntry>) -> Seq<u8>
    decreases entries.len(),
{
    if entries.len() == 0 {
        Seq::empty()
    } else {
        entries_bytes(entries.drop_last()) + entry_bytes(entries.last())
    }
}

/// The first half of a snapshot: the records themselves.
pub open spec fn body_bytes(nodes: Seq<Node>, ways: Seq<WayView>) -> Seq<u8> {
    u64_bytes(nodes.len() as u64) + nodes_bytes(nodes) + u64_bytes(ways.len() as u64) + ways_bytes(
        ways,
    )
}

/// The second half of a snapshot: what the store derives from its records.
pub open spec fn tail_bytes(store: TosmView) -> Seq<u8> {
    index_section(node_ids(store.nodes), store.node_indexes) + index_section(
        way_ids(store.ways),
        store.way_indexes,
    ) + u64_bytes(store.kd_tree.len() as u64) + entries_bytes(store.kd_tree)
}

/// The snapshot bytes of a store.
pub open spec fn encoding(store: TosmView) -> Seq<u8> {
    body_bytes(store.nodes, store.ways) + tail_bytes(store)
}

/// Reads the records at the start of `bytes`: the nodes, the ways, and the
/// position after them.
pub open spec fn read_body(bytes: Seq<u8>) -> Option<(Seq<Node>, Seq<WayView>, int)> {
    match read_u64(bytes, 0) {
        Some((node_count, nodes_start)) => match read_nodes(
            bytes,
            nodes_start,
            node_count as nat,
        ) {
            Some((nodes, nodes_end)) => match read_u64(bytes, nodes_end) {
                Some((way_count, ways_start)) => match read_ways(
                    bytes,
                    ways_start,
                    way_count as nat,
                ) {
                    Some((ways, ways_end)) => Some((nodes, ways, ways_end)),
                    None => None,
                },
                None => None,
            },
            None => None,
        },
        None => None,
    }
}

/// The store that `bytes` is a snapshot of, if it is one: the records read
/// from the front must all be indexable, and the rest of `bytes` must be,
/// byte for byte, what the store loaded from those records derives.
pub open spec fn decoding(bytes: Seq<u8>) -> Option<TosmView> {
    match read_body(bytes) {
        Some((nodes, ways, at)) => {
            let store = loaded(nodes, ways);
            if all_nodes_finite(nodes) && 0 <= at <= bytes.len() && bytes.subrange(
                at,
                bytes.len() as int,
            ) == tail_bytes(store) {
                Some(store)
            } else {
                None
            }
        },
        None => None,
    }
}

/// Where the records of a store occur at the start of `bytes`, reading the
/// body gives them back.
pub proof fn lemma_read_body(bytes: Seq<u8>, nodes: Seq<Node>, ways: Seq<WayView>)
    requires
        holds_at(bytes, 0, body_bytes(nodes, ways)),
        nodes.len() <= u64::MAX,
        ways.len() <= u64::MAX,
        ways_fit(ways),
    ensures
        read_body(bytes) == Some((nodes, ways, body_bytes(nodes, ways).len() as int)),
{
    let node_count = nodes.len() as u64;
    let way_count = ways.len() as u64;
    let count_part = u64_bytes(node_count);
    let nodes_part = nodes_bytes(nodes);
    let way_count_part = u64_bytes(way_count);
    let ways_part = ways_bytes(ways);
    lemma_u64_round_trip(node_count);
    lemma_u64_round_trip(way_count);
    lemma_holds_at_split(bytes, 0, count_part + nodes_part + way_count_part, ways_part);
    lemma_holds_at_split(bytes, 0, count_part + nodes_part, way_count_part);
    lemma_holds_at_split(bytes, 0, count_part, nodes_part);
    lemma_read_u64(bytes, 0, node_count);
    lemma_read_nodes(bytes, 8, nodes);
    lemma_read_u64(bytes, 8 + nodes_part.len() as int, way_count);
    lemma_read_ways(bytes, 8 + nodes_part.len() as int + 8, ways);
}

/// Decoding the snapshot of a well-formed store gives the store back,
/// field for field.
pub proof fn lemma_decoding_inverts_encoding(store: TosmView)
    requires
        store.well_formed(),
        ways_fit(store.ways),
    ensures
        decoding(encoding(store)) == Some(store),
{
    let bytes = encoding(store);
    let body = body_bytes(store.nodes, store.ways);
    assert(bytes.subrange(0, body.len() as int) =~= body);
    lemma_read_body(bytes, store.nodes, store.ways);
    assert(bytes.subrange(body.len() as int, bytes.len() as int) =~= tail_bytes(store));
}

/// A node that was read lies, as its own bytes, where it was read.
pub proof fn lemma_node_read_back(bytes: Seq<u8>, at: int)
    requires
        read_node(bytes, at).is_some(),
    ensures
        holds_at(bytes, at, node_bytes(read_node(bytes, at).unwrap().0)),
        node_bytes(read_node(bytes, at).unwrap().0).len() == 24,
        read_node(bytes, at).unwrap().1 == at + 24,
{
    let node = read_node(bytes, at).unwrap().0;
    lemma_u64_bytes_of_read(bytes, at);
    lemma_u64_bytes_of_read(bytes, at + 8);
    lemma_u64_bytes_of_read(bytes, at + 16);
    lemma_holds_at_join(bytes, at, u64_bytes(node.id), u64_bytes(node.lat_bits));
    lemma_holds_at_join(
        bytes,
        at,
        u64_bytes(node.id) + u64_bytes(node.lat_bits),
        u64_bytes(node.lon_bits),
    );
}

/// Nodes that were read lie, as their own bytes, where they were read.
pub proof fn lemma_nodes_read_back(bytes: Seq<u8>, at: int, count: nat)
    requires
        0 <= at <= bytes.len(),
        read_nodes(bytes, at, count).is_some(),
    ensures
        read_nodes(bytes, at, count).unwrap().0.len() == count,
        holds_at(bytes, at, nodes_bytes(read_nodes(bytes, at, count).unwrap().0)),
        nodes_bytes(read_nodes(bytes, at, count).unwrap().0).len() == 24 * count,
        read_nodes(bytes, at, count).unwrap().1 == at + 24 * count,
    decreases count,
{
    let nodes = read_nodes(bytes, at, count).unwrap().0;
    if count == 0 {
        assert(bytes.subrange(at, at) =~= nodes_bytes(nodes));
    } else {
        let (front, middle) = read_nodes(bytes, at, (count - 1) as nat).unwrap();
        lemma_nodes_read_back(bytes, at, (count - 1) as nat);
        lemma_node_read_back(bytes, middle);
        assert(nodes.drop_last() =~= front);
        lemma_holds_at_join(bytes, at, nodes_bytes(front), node_bytes(nodes.last()));
    }
}

/// Ids that were read lie, as their own bytes, where they were read.
pub proof fn lemma_ids_read_back(bytes: Seq<u8>, at: int, count: nat)
    requires
        0 <= at <= bytes.len(),
        read_ids(bytes, at, count).is_some(),
    ensures
        read_ids(bytes, at, count).unwrap().0.len() == count,
        holds_at(bytes, at, ids_bytes(read_ids(bytes, at, count).unwrap().0)),
        read_ids(bytes, at, count).unwrap().1 == at + ids_bytes(
            read_ids(bytes, at, count).unwrap().0,
        ).len(),
    decreases count,
{
    let ids = read_ids(bytes, at, count).unwrap().0;
    if count == 0 {
        assert(bytes.subrange(at, at) =~= ids_bytes(ids));
    } else {
        let (front, middle) = read_ids(bytes, at, (count - 1) as nat).unwrap();
        lemma_ids_read_back(bytes, at, (count - 1) as nat);
        lemma_u64_bytes_of_read(bytes, middle);
        lemma_u64_round_trip(ids.last());
        assert(ids.drop_last() =~= front);
        lemma_holds_at_join(bytes, at, ids_bytes(front), u64_bytes(ids.last()));
    }
}

/// A name that was read lies, as its own bytes, where it was read.
pub proof fn lemma_name_read_back(bytes: Seq<u8>, at: int)
    requires
        read_name(bytes, at).is_some(),
    ensures
        holds_at(bytes, at, name_bytes(read_name(bytes, at).unwrap().0)),
        read_name(bytes, at).unwrap().1 == at + name_bytes(read_name(bytes, at).unwrap().0).len(),
        match read_name(bytes, at).unwrap().0 {
            Some(text) => encode_utf8(text).len() <= u64::MAX,
            None => true,
        },
{
    if bytes[at] == 0 {
        assert(bytes.subrange(at, at + 1) =~= seq![0u8]);
    } else {
        let (length, start) = read_u64(bytes, at + 1).unwrap();
        let raw = bytes.subrange(start, start + length);
        vstd::utf8::decode_utf8_encode_utf8(raw);
        lemma_u64_bytes_of_read(bytes, at + 1);
        lemma_u64_round_trip(length);
        assert(bytes.subrange(at, at + 1) =~= seq![1u8]);
        lemma_holds_at_join(bytes, at, seq![1u8], u64_bytes(length));
        lemma_holds_at_join(bytes, at, seq![1u8] + u64_bytes(length), raw);
    }
}

/// A way that was read lies, as its own bytes, where it was read.
pub proof fn lemma_way_read_back(bytes: Seq<u8>, at: int)
    requires
        read_way(bytes, at).is_some(),
    ensures
        holds_at(bytes, at, way_bytes(read_way(bytes, at).unwrap().0)),
        read_way(bytes, at).unwrap().1 == at + way_bytes(read_way(bytes, at).unwrap().0).len(),
        way_bytes(read_way(bytes, at).unwrap().0).len() >= 1,
        way_fits(read_way(bytes, at).unwrap().0),
{
    let way = read_way(bytes, at).unwrap().0;
    let (id, after_id) = read_u64(bytes, at).unwrap();
    let (count, after_count) = read_u64(bytes, after_id).unwrap();
    let (node_ids, after_ids) = read_ids(bytes, after_count, count as nat).unwrap();
    let (one_way, after_flag) = read_flag(bytes, after_ids).unwrap();
    lemma_u64_bytes_of_read(bytes, at);
    lemma_u64_bytes_of_read(bytes, after_id);
    lemma_u64_round_trip(id);
    lemma_u64_round_trip(count);
    lemma_ids_read_back(bytes, after_count, count as nat);
    assert(bytes.subrange(after_ids, after_ids + 1) =~= seq![flag_byte(one_way)]);
    lemma_name_read_back(bytes, after_flag);
    let id_part = u64_bytes(id);
    let count_part = u64_bytes(count);
    let ids_part = ids_bytes(node_ids);
    let flag_part = seq![flag_byte(one_way)];
    let name_part = name_bytes(way.name);
    lemma_holds_at_join(bytes, at, id_part, count_part);
    lemma_holds_at_join(bytes, at, id_part + count_part, ids_part);
    lemma_holds_at_join(bytes, at, id_part + count_part + ids_part, flag_part);
    lemma_holds_at_join(bytes, at, id_part + count_part + ids_part + flag_part, name_part);
}

/// Ways that were read lie, as their own bytes, where they were read.
pub proof fn lemma_ways_read_back(bytes: Seq<u8>, at: int, count: nat)
    requires
        0 <= at <= bytes.len(),
        read_ways(bytes, at, count).is_some(),
    ensures
        read_ways(bytes, at, count).unwrap().0.len() == count,
        holds_at(bytes, at, ways_bytes(read_ways(bytes, at, count).unwrap().0)),
        read_ways(bytes, at, count).unwrap().1 == at + ways_bytes(
            read_ways(bytes, at, count).unwrap().0,
        ).len(),
        ways_bytes(read_ways(bytes, at, count).unwrap().0).len() >= count,
        ways_fit(read_ways(bytes, at, count).unwrap().0),
    decreases count,
{
    let ways = read_ways(bytes, at, count).unwrap().0;
    if count == 0 {
        assert(bytes.subrange(at, at) =~= ways_bytes(ways));
    } else {
        let (front, middle) = read_ways(bytes, at, (count - 1) as nat).unwrap();
        lemma_ways_read_back(bytes, at, (count - 1) as nat);
        lemma_way_read_back(bytes, middle);
        assert(ways.drop_last() =~= front);
        lemma_holds_at_join(bytes, at, ways_bytes(front), way_bytes(ways.last()));
        assert forall|i: int| 0 <= i < ways.len() implies way_fits(#[trigger] ways[i]) by {
            if i < front.len() {
                assert(ways[i] == front[i]);
            }
        }
    }
}

/// Only snapshots decode: when `bytes` decodes to a store, the store is
/// well-formed and `bytes` is exactly its encoding.
pub proof fn lemma_decoding_accepts_only_encodings(bytes: Seq<u8>, store: TosmView)
    requires
        bytes.len() <= usize::MAX,
        decoding(bytes) == Some(store),
    ensures
        store.well_formed(),
        ways_fit(store.ways),
        encoding(store) == bytes,
{
    let (node_count, nodes_start) = read_u64(bytes, 0).unwrap();
    let (nodes, nodes_end) = read_nodes(bytes, nodes_start, node_count as nat).unwrap();
    let (way_count, ways_start) = read_u64(bytes, nodes_end).unwrap();
    let (ways, ways_end) = read_ways(bytes, ways_start, way_count as nat).unwrap();
    lemma_u64_bytes_of_read(bytes, 0);
    lemma_u64_round_trip(node_count);
    lemma_nodes_read_back(bytes, nodes_start, node_count as nat);
    lemma_u64_bytes_of_read(bytes, nodes_end);
    lemma_u64_round_trip(way_count);
    lemma_ways_read_back(bytes, ways_start, way_count as nat);
    let count_part = u64_bytes(node_count);
    let nodes_part = nodes_bytes(nodes);
    let way_count_part = u64_bytes(way_count);
    let ways_part = ways_bytes(ways);
    lemma_holds_at_join(bytes, 0, count_part, nodes_part);
    lemma_holds_at_join(bytes, 0, count_part + nodes_part, way_count_part);
    lemma_holds_at_join(bytes, 0, count_part + nodes_part + way_count_part, ways_part);
    let body = body_bytes(nodes, ways);
    assert(body =~= count_part + nodes_part + way_count_part + ways_part);
    assert(bytes =~= bytes.subrange(0, body.len() as int) + bytes.subrange(
        body.len() as int,
        bytes.len() as int,
    ));
}

} // verus!
