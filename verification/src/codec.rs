//! Writing a store as snapshot bytes and reading it back.

use crate::layout::{
    body_bytes, decoding, encoding, entries_bytes, entry_bytes, ids_bytes, index_entries_bytes,
    index_section, lemma_decoding_inverts_encoding, lemma_read_ids_stays_none,
    lemma_read_nodes_stays_none, lemma_read_ways_stays_none, name_bytes, node_bytes,
    nodes_bytes, read_flag, read_ids, read_name, read_node, read_nodes, read_way, read_ways,
    tail_bytes, way_bytes, way_fits, ways_bytes, ways_fit,
};
use crate::model::{record_ids, text_view, way_views, Node, Record, SourceFile, Way, WayView};
use crate::spatial::SpatialEntry;
use crate::store::{node_ids, way_ids, TOSMFile};
use crate::wire::{get_u64, put_u64, u64_bytes};
use std::collections::HashMap;
use vstd::prelude::*;
use vstd::slice::{slice_subrange, slice_to_vec};
use vstd::utf8::{decode_utf8, encode_utf8, valid_utf8};

verus! {

/// Appends the bytes of one node.
fn put_node(out: &mut Vec<u8>, node: &Node)
    ensures
        final(out)@ == old(out)@ + node_bytes(*node),
{
    put_u64(out, node.id);
    put_u64(out, node.lat_bits);
    put_u64(out, node.lon_bits);
    assert(out@ =~= old(out)@ + node_bytes(*node));
}

/// Appends the bytes of the nodes.
fn put_nodes(out: &mut Vec<u8>, nodes: &Vec<Node>)
    ensures
        final(out)@ == old(out)@ + nodes_bytes(nodes@),
{
    let mut i: usize = 0;
    assert(out@ =~= old(out)@ + nodes_bytes(nodes@.take(0)));
    while i < nodes.len()
        invariant
            i <= nodes.len(),
            out@ == old(out)@ + nodes_bytes(nodes@.take(i as int)),
        decreases nodes.len() - i,
    {
        put_node(out, &nodes[i]);
        proof {
            let next = nodes@.take(i + 1);
            assert(next.drop_last() =~= nodes@.take(i as int));
            assert(out@ =~= old(out)@ + nodes_bytes(next));
        }
        i += 1;
    }
    assert(nodes@.take(i as int) =~= nodes@);
}

/// Reads one node at `at`.
fn get_node(bytes: &[u8], at: usize) -> (result: Option<(Node, usize)>)
    ensures
        match result {
            Some((node, next)) => read_node(bytes@, at as int) == Some((node, next as int)),
            None => read_node(bytes@, at as int).is_none(),
        },
{
    if at > bytes.len() || bytes.len() - at < 24 {
        return None;
    }
    let (id, after_id) = match get_u64(bytes, at) {
        Some(read) => read,
        None => {
            return None;
        },
    };
    let (lat_bits, after_lat) = match get_u64(bytes, after_id) {
        Some(read) => read,
        None => {
            return None;
        },
    };
    let (lon_bits, next) = match get_u64(bytes, after_lat) {
        Some(read) => read,
        None => {
            return None;
        },
    };
    Some((Node { id, lat_bits, lon_bits }, next))
}

/// Reads `count` nodes starting at `at`.
fn get_nodes(bytes: &[u8], at: usize, count: u64) -> (result: Option<(Vec<Node>, usize)>)
    ensures
        match result {
            Some((nodes, next)) => read_nodes(bytes@, at as int, count as nat) == Some(
                (nodes@, next as int),
            ),
            None => read_nodes(bytes@, at as int, count as nat).is_none(),
        },
{
    let mut nodes: Vec<Node> = Vec::new();
    let mut position: usize = at;
    let mut i: u64 = 0;
    while i < count
        invariant
            i <= count,
            read_nodes(bytes@, at as int, i as nat) == Some((nodes@, position as int)),
        decreases count - i,
    {
        match get_node(bytes, position) {
            Some((node, next)) => {
                nodes.push(node);
                position = next;
            },
            None => {
                proof {
                    lemma_read_nodes_stays_none(bytes@, at as int, (i + 1) as nat, count as nat);
                }
                return None;
            },
        }
        i += 1;
    }
    Some((nodes, position))
}

/// Builds a string from UTF-8 bytes with `String::from_utf8`, which accepts
/// exactly the well-formed UTF-8 sequences. Believed, not proved: the text
/// returned holds the characters that the bytes encode, and `None` is
/// returned exactly when the bytes are not well-formed UTF-8.
#[verifier::external_body]
fn text_from_utf8(raw: Vec<u8>) -> (text: Option<String>)
    ensures
        match text {
            Some(text) => valid_utf8(raw@) && text@ == decode_utf8(raw@),
            None => !valid_utf8(raw@),
        },
{
    match String::from_utf8(raw) {
        Ok(text) => Some(text),
        Err(_) => None,
    }
}

/// Appends `raw` byte by byte.
fn put_bytes(out: &mut Vec<u8>, raw: &[u8])
    ensures
        final(out)@ == old(out)@ + raw@,
{
    let mut i: usize = 0;
    while i < raw.len()
        invariant
            i <= raw.len(),
            out@ == old(out)@ + raw@.take(i as int),
        decreases raw.len() - i,
    {
        out.push(raw[i]);
        assert(out@ =~= old(out)@ + raw@.take(i + 1));
        i += 1;
    }
    assert(raw@.take(i as int) =~= raw@);
}

/// Appends the bytes of the ids.
fn put_ids(out: &mut Vec<u8>, ids: &Vec<u64>)
    ensures
        final(out)@ == old(out)@ + ids_bytes(ids@),
{
    let mut i: usize = 0;
    assert(out@ =~= old(out)@ + ids_bytes(ids@.take(0)));
    while i < ids.len()
        invariant
            i <= ids.len(),
            out@ == old(out)@ + ids_bytes(ids@.take(i as int)),
        decreases ids.len() - i,
    {
        put_u64(out, ids[i]);
        proof {
            let next = ids@.take(i + 1);
            assert(next.drop_last() =~= ids@.take(i as int));
            assert(out@ =~= old(out)@ + ids_bytes(next));
        }
        i += 1;
    }
    assert(ids@.take(i as int) =~= ids@);
}

/// Appends the bytes of an optional name.
fn put_name(out: &mut Vec<u8>, name: &Option<String>)
    ensures
        final(out)@ == old(out)@ + name_bytes(text_view(*name)),
        match text_view(*name) {
            Some(text) => encode_utf8(text).len() <= u64::MAX,
            None => true,
        },
{
    match name {
        None => {
            out.push(0);
            assert(out@ =~= old(out)@ + name_bytes(text_view(*name)));
        },
        Some(text) => {
            let raw = text.as_str().as_bytes();
            out.push(1);
            put_u64(out, raw.len() as u64);
            put_bytes(out, raw);
            assert(out@ =~= old(out)@ + name_bytes(text_view(*name)));
        },
    }
}

/// Appends the bytes of one way.
fn put_way(out: &mut Vec<u8>, way: &Way)
    ensures
        final(out)@ == old(out)@ + way_bytes(way@),
        way_fits(way@),
{
    put_u64(out, way.id);
    put_u64(out, way.node_ids.len() as u64);
    put_ids(out, &way.node_ids);
    out.push(if way.one_way {
        1
    } else {
        0
    });
    put_name(out, &way.name);
    assert(out@ =~= old(out)@ + way_bytes(way@));
}

/// Appends the bytes of the ways.
fn put_ways(out: &mut Vec<u8>, ways: &Vec<Way>)
    ensures
        final(out)@ == old(out)@ + ways_bytes(way_views(ways@)),
        ways_fit(way_views(ways@)),
{
    let mut i: usize = 0;
    assert(out@ =~= old(out)@ + ways_bytes(way_views(ways@.take(0))));
    while i < ways.len()
        invariant
            i <= ways.len(),
            out@ == old(out)@ + ways_bytes(way_views(ways@.take(i as int))),
            ways_fit(way_views(ways@.take(i as int))),
        decreases ways.len() - i,
    {
        put_way(out, &ways[i]);
        proof {
            let before = way_views(ways@.take(i as int));
            let next = way_views(ways@.take(i + 1));
            assert(next.drop_last() =~= before);
            assert(next.last() == ways@[i as int]@);
            assert(out@ =~= old(out)@ + ways_bytes(next));
            assert forall|j: int| 0 <= j < next.len() implies way_fits(#[trigger] next[j]) by {
                if j < i {
                    assert(next[j] == before[j]);
                }
            }
        }
        i += 1;
    }
    assert(ways@.take(i as int) =~= ways@);
}

/// Reads `count` ids starting at `at`.
fn get_ids(bytes: &[u8], at: usize, count: u64) -> (result: Option<(Vec<u64>, usize)>)
    ensures
        match result {
            Some((ids, next)) => read_ids(bytes@, at as int, count as nat) == Some(
                (ids@, next as int),
            ),
            None => read_ids(bytes@, at as int, count as nat).is_none(),
        },
{
    let mut ids: Vec<u64> = Vec::new();
    let mut position: usize = at;
    let mut i: u64 = 0;
    while i < count
        invariant
            i <= count,
            read_ids(bytes@, at as int, i as nat) == Some((ids@, position as int)),
        decreases count - i,
    {
        match get_u64(bytes, position) {
            Some((id, next)) => {
                ids.push(id);
                position = next;
            },
            None => {
                proof {
                    lemma_read_ids_stays_none(bytes@, at as int, (i + 1) as nat, count as nat);
                }
                return None;
            },
        }
        i += 1;
    }
    Some((ids, position))
}

/// Reads a direction flag at `at`.
fn get_flag(bytes: &[u8], at: usize) -> (result: Option<(bool, usize)>)
    ensures
        match result {
            Some((flag, next)) => read_flag(bytes@, at as int) == Some((flag, next as int)),
            None => read_flag(bytes@, at as int).is_none(),
        },
{
    if at >= bytes.len() || bytes[at] > 1 {
        return None;
    }
    Some((bytes[at] == 1, at + 1))
}

/// Reads an optional name at `at`.
fn get_name(bytes: &[u8], at: usize) -> (result: Option<(Option<String>, usize)>)
    ensures
        match result {
            Some((name, next)) => read_name(bytes@, at as int) == Some(
                (text_view(name), next as int),
            ),
            None => read_name(bytes@, at as int).is_none(),
        },
{
    if at >= bytes.len() {
        return None;
    }
    let tag: u8 = bytes[at];
    if tag == 0 {
        return Some((None, at + 1));
    }
    if tag != 1 {
        return None;
    }
    let (length, start) = match get_u64(bytes, at + 1) {
        Some(read) => read,
        None => {
            return None;
        },
    };
    if length > (bytes.len() - start) as u64 {
        return None;
    }
    let end: usize = start + length as usize;
    let raw = slice_to_vec(slice_subrange(bytes, start, end));
    match text_from_utf8(raw) {
        Some(text) => Some((Some(text), end)),
        None => None,
    }
}

/// Reads one way at `at`.
fn get_way(bytes: &[u8], at: usize) -> (result: Option<(Way, usize)>)
    ensures
        match result {
            Some((way, next)) => read_way(bytes@, at as int) == Some((way@, next as int)),
            None => read_way(bytes@, at as int).is_none(),
        },
{
    let (id, after_id) = match get_u64(bytes, at) {
        Some(read) => read,
        None => {
            return None;
        },
    };
    let (count, after_count) = match get_u64(bytes, after_id) {
        Some(read) => read,
        None => {
            return None;
        },
    };
    let (node_ids, after_ids) = match get_ids(bytes, after_count, count) {
        Some(read) => read,
        None => {
            return None;
        },
    };
    let (one_way, after_flag) = match get_flag(bytes, after_ids) {
        Some(read) => read,
        None => {
            return None;
        },
    };
    let (name, next) = match get_name(bytes, after_flag) {
        Some(read) => read,
        None => {
            return None;
        },
    };
    Some((Way { id, node_ids, one_way, name }, next))
}

/// Reads `count` ways starting at `at`.
fn get_ways(bytes: &[u8], at: usize, count: u64) -> (result: Option<(Vec<Way>, usize)>)
    ensures
        match result {
            Some((ways, next)) => read_ways(bytes@, at as int, count as nat) == Some(
                (way_views(ways@), next as int),
            ),
            None => read_ways(bytes@, at as int, count as nat).is_none(),
        },
{
    let mut ways: Vec<Way> = Vec::new();
    let mut position: usize = at;
    let mut i: u64 = 0;
    assert(way_views(ways@) =~= Seq::<WayView>::empty());
    while i < count
        invariant
            i <= count,
            read_ways(bytes@, at as int, i as nat) == Some((way_views(ways@), position as int)),
        decreases count - i,
    {
        match get_way(bytes, position) {
            Some((way, next)) => {
                let ghost before = way_views(ways@);
                let ghost added = way@;
                ways.push(way);
                position = next;
                assert(way_views(ways@) =~= before.push(added));
            },
            None => {
                proof {
                    lemma_read_ways_stays_none(bytes@, at as int, (i + 1) as nat, count as nat);
                }
                return None;
            },
        }
        i += 1;
    }
    Some((ways, position))
}

/// Appends the lookup table of the records.
fn put_index<T: Record>(out: &mut Vec<u8>, records: &Vec<T>, table: &HashMap<u64, usize>)
    ensures
        final(out)@ == old(out)@ + index_section(record_ids(records@), table@),
{
    broadcast use vstd::std_specs::hash::group_hash_axioms;

    put_u64(out, table.len() as u64);
    let ghost start = out@;
    let ghost ids = record_ids(records@);
    let mut i: usize = 0;
    assert(out@ =~= start + index_entries_bytes(ids.take(0), table@));
    while i < records.len()
        invariant
            i <= records.len(),
            ids == record_ids(records@),
            out@ == start + index_entries_bytes(ids.take(i as int), table@),
        decreases records.len() - i,
    {
        let id: u64 = records[i].key();
        let ghost before = out@;
        proof {
            assert(ids.take(i + 1).drop_last() =~= ids.take(i as int));
            assert(ids.take(i + 1).last() == id);
        }
        match table.get(&id) {
            Some(position) => {
                if *position == i {
                    put_u64(out, id);
                    put_u64(out, i as u64);
                    assert(out@ =~= before + u64_bytes(id) + u64_bytes(i as u64));
                }
            },
            None => {},
        }
        assert(out@ =~= start + index_entries_bytes(ids.take(i + 1), table@));
        i += 1;
    }
    assert(ids.take(i as int) =~= ids);
    assert(out@ =~= old(out)@ + index_section(ids, table@));
}

/// Appends the points of the index.
fn put_entries(out: &mut Vec<u8>, entries: &Vec<SpatialEntry>)
    ensures
        final(out)@ == old(out)@ + entries_bytes(entries@),
{
    let mut i: usize = 0;
    assert(out@ =~= old(out)@ + entries_bytes(entries@.take(0)));
    while i < entries.len()
        invariant
            i <= entries.len(),
            out@ == old(out)@ + entries_bytes(entries@.take(i as int)),
        decreases entries.len() - i,
    {
        let entry = entries[i];
        let ghost before = out@;
        put_u64(out, entry.lat_bits);
        put_u64(out, entry.lon_bits);
        put_u64(out, entry.id);
        proof {
            let next = entries@.take(i + 1);
            assert(next.drop_last() =~= entries@.take(i as int));
            assert(out@ =~= before + entry_bytes(entry));
            assert(out@ =~= old(out)@ + entries_bytes(next));
        }
        i += 1;
    }
    assert(entries@.take(i as int) =~= entries@);
}

/// Whether `bytes` from `at` to its end equals `part`.
fn ends_with_from(bytes: &[u8], at: usize, part: &Vec<u8>) -> (same: bool)
    ensures
        same == (at <= bytes@.len() && bytes@.subrange(at as int, bytes@.len() as int) == part@),
{
    if at > bytes.len() || bytes.len() - at != part.len() {
        return false;
    }
    let mut i: usize = 0;
    while i < part.len()
        invariant
            at <= bytes.len(),
            bytes.len() - at == part.len(),
            i <= part.len(),
            forall|k: int| 0 <= k < i ==> bytes@[at + k] == part@[k],
        decreases part.len() - i,
    {
        if bytes[at + i] != part[i] {
            assert(bytes@.subrange(at as int, bytes@.len() as int)[i as int] != part@[i as int]);
            return false;
        }
        i += 1;
    }
    assert(bytes@.subrange(at as int, bytes@.len() as int) =~= part@);
    true
}

impl TOSMFile {
    /// The second half of the snapshot.
    fn encode_tail(&self, out: &mut Vec<u8>)
        ensures
            final(out)@ == old(out)@ + tail_bytes(self@),
    {
        let ghost start = out@;
        let nodes = self.nodes();
        let ways = self.ways();
        assert(record_ids(nodes@) =~= node_ids(self@.nodes));
        assert(record_ids(ways@) =~= way_ids(self@.ways));
        put_index(out, nodes, self.node_indexes());
        put_index(out, ways, self.way_indexes());
        let entries = self.kd_tree().entries();
        put_u64(out, entries.len() as u64);
        put_entries(out, entries);
        assert(out@ =~= start + tail_bytes(self@));
    }

    /// Writes the store as snapshot bytes. Decoding them gives back a store
    /// equal to this one in every field.
    pub fn encode(&self) -> (out: Vec<u8>)
        ensures
            out@ == encoding(self@),
            decoding(out@) == Some(self@),
    {
        let mut out: Vec<u8> = Vec::new();
        let nodes = self.nodes();
        let ways = self.ways();
        put_u64(&mut out, nodes.len() as u64);
        put_nodes(&mut out, nodes);
        put_u64(&mut out, ways.len() as u64);
        put_ways(&mut out, ways);
        assert(out@ =~= body_bytes(self@.nodes, self@.ways));
        self.encode_tail(&mut out);
        proof {
            lemma_decoding_inverts_encoding(self@);
        }
        out
    }

    /// Reads a store from snapshot bytes. Succeeds exactly on the bytes that
    /// [`decoding`] accepts: truncated input, trailing bytes, a malformed
    /// field, a node that cannot be indexed, or a lookup table or point
    /// index that disagrees with the records all give `None`.
    pub fn decode(bytes: &[u8]) -> (result: Option<TOSMFile>)
        ensures
            match result {
                Some(file) => decoding(bytes@) == Some(file@) && file@.well_formed(),
                None => decoding(bytes@).is_none(),
            },
    {
        let (node_count, nodes_start) = match get_u64(bytes, 0) {
            Some(read) => read,
            None => {
                return None;
            },
        };
        let (nodes, nodes_end) = match get_nodes(bytes, nodes_start, node_count) {
            Some(read) => read,
            None => {
                return None;
            },
        };
        let (way_count, ways_start) = match get_u64(bytes, nodes_end) {
            Some(read) => read,
            None => {
                return None;
            },
        };
        let (ways, ways_end) = match get_ways(bytes, ways_start, way_count) {
            Some(read) => read,
            None => {
                return None;
            },
        };
        let file = match TOSMFile::from_source(SourceFile { nodes, ways }) {
            Ok(file) => file,
            Err(_) => {
                return None;
            },
        };
        let mut tail: Vec<u8> = Vec::new();
        file.encode_tail(&mut tail);
        assert(tail@ =~= tail_bytes(file@));
        if ends_with_from(bytes, ways_end, &tail) {
            Some(file)
        } else {
            None
        }
    }
}

} // verus!
