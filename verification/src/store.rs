//! The dataset store and its loader.

use crate::index::{
    is_last_occurrence, lemma_position_index_maps_to_last, lemma_position_index_push,
    position_index,
};
use crate::model::{record_ids, way_views, Node, Record, SourceFile, Way, WayView};
use crate::spatial::{point_is_finite, SpatialEntry, SpatialIndex};
use std::collections::HashMap;
use vstd::prelude::*;

verus! {

broadcast use vstd::std_specs::hash::group_hash_axioms;

/// The ids of a sequence of nodes, in order.
pub open spec fn node_ids(nodes: Seq<Node>) -> Seq<u64> {
    Seq::new(nodes.len(), |i: int| nodes[i].id)
}

/// The ids of a sequence of ways, in order.
pub open spec fn way_ids(ways: Seq<WayView>) -> Seq<u64> {
    Seq::new(ways.len(), |i: int| ways[i].id)
}

/// The index entry of a node: its coordinates as the key, its id as the
/// payload.
pub open spec fn entry_of(node: Node) -> SpatialEntry {
    SpatialEntry { lat_bits: node.lat_bits, lon_bits: node.lon_bits, id: node.id }
}

/// One index entry per node, in node order.
pub open spec fn entries_of(nodes: Seq<Node>) -> Seq<SpatialEntry> {
    Seq::new(nodes.len(), |i: int| entry_of(nodes[i]))
}

/// Both coordinates of the node are finite.
pub open spec fn node_is_finite(node: Node) -> bool {
    point_is_finite(node.lat_bits, node.lon_bits)
}

/// Every node has finite coordinates.
pub open spec fn all_nodes_finite(nodes: Seq<Node>) -> bool {
    forall|i: int| 0 <= i < nodes.len() ==> node_is_finite(#[trigger] nodes[i])
}

/// `position` is the first node with a coordinate that is not finite.
pub open spec fn is_first_non_finite(nodes: Seq<Node>, position: int) -> bool {
    &&& 0 <= position < nodes.len()
    &&& !node_is_finite(nodes[position])
    &&& forall|i: int| 0 <= i < position ==> node_is_finite(#[trigger] nodes[i])
}

/// What a [`TOSMFile`] holds, as mathematical values.
pub struct TosmView {
    pub nodes: Seq<Node>,
    pub ways: Seq<WayView>,
    pub node_indexes: Map<u64, usize>,
    pub way_indexes: Map<u64, usize>,
    pub kd_tree: Seq<SpatialEntry>,
}

/// The store that loading `nodes` and `ways` produces: both sequences in
/// source order, a lookup table for each, and one index entry per node.
pub open spec fn loaded(nodes: Seq<Node>, ways: Seq<WayView>) -> TosmView {
    TosmView {
        nodes,
        ways,
        node_indexes: position_index(node_ids(nodes)),
        way_indexes: position_index(way_ids(ways)),
        kd_tree: entries_of(nodes),
    }
}

impl TosmView {
    /// The store is what loading its own nodes and ways produces, its nodes
    /// can all be indexed, and its sequences fit the machine's address
    /// range.
    pub open spec fn well_formed(self) -> bool {
        &&& self == loaded(self.nodes, self.ways)
        &&& all_nodes_finite(self.nodes)
        &&& self.nodes.len() <= usize::MAX
        &&& self.ways.len() <= usize::MAX
    }
}

/// Every id in a lookup table of a well-formed store maps to a position
/// inside the matching sequence, and the record at that position carries
/// exactly that id.
pub proof fn lemma_lookup_consistent(store: TosmView, id: u64)
    requires
        store.well_formed(),
    ensures
        store.node_indexes.contains_key(id) ==> 0 <= store.node_indexes[id] < store.nodes.len()
            && store.nodes[store.node_indexes[id] as int].id == id,
        store.way_indexes.contains_key(id) ==> 0 <= store.way_indexes[id] < store.ways.len()
            && store.ways[store.way_indexes[id] as int].id == id,
{
    lemma_position_index_maps_to_last(node_ids(store.nodes));
    lemma_position_index_maps_to_last(way_ids(store.ways));
}

/// When several records share an id, the lookup table of a well-formed
/// store points to the one that comes last; an id that no record carries
/// is absent from the table.
pub proof fn lemma_last_record_wins(store: TosmView, id: u64)
    requires
        store.well_formed(),
    ensures
        store.node_indexes.contains_key(id) <==> node_ids(store.nodes).contains(id),
        store.node_indexes.contains_key(id) ==> is_last_occurrence(
            node_ids(store.nodes),
            id,
            store.node_indexes[id] as int,
        ),
        store.way_indexes.contains_key(id) <==> way_ids(store.ways).contains(id),
        store.way_indexes.contains_key(id) ==> is_last_occurrence(
            way_ids(store.ways),
            id,
            store.way_indexes[id] as int,
        ),
{
    lemma_position_index_maps_to_last(node_ids(store.nodes));
    lemma_position_index_maps_to_last(way_ids(store.ways));
}

/// Why a document could not be loaded.
#[derive(Clone, Copy, Debug, PartialEq, Eq, Structural)]
pub enum LoadError {
    /// The node at `position` has a coordinate that is an infinity or NaN.
    NonFiniteCoordinate { position: usize },
}

/// Nodes and ways in source order, lookup tables from id to position, and
/// the point index over the nodes. Built once, then read-only.
#[derive(Debug)]
pub struct TOSMFile {
    nodes: Vec<Node>,
    ways: Vec<Way>,
    node_indexes: HashMap<u64, usize>,
    way_indexes: HashMap<u64, usize>,
    kd_tree: SpatialIndex,
}

impl View for TOSMFile {
    type V = TosmView;

    closed spec fn view(&self) -> TosmView {
        TosmView {
            nodes: self.nodes@,
            ways: way_views(self.ways@),
            node_indexes: self.node_indexes@,
            way_indexes: self.way_indexes@,
            kd_tree: self.kd_tree@,
        }
    }
}

/// Builds the lookup table of the records' ids.
fn index_records<T: Record>(records: &Vec<T>) -> (table: HashMap<u64, usize>)
    ensures
        table@ == position_index(record_ids(records@)),
{
    let mut table: HashMap<u64, usize> = HashMap::new();
    let mut i: usize = 0;
    while i < records.len()
        invariant
            i <= records.len(),
            table@ == position_index(record_ids(records@.take(i as int))),
        decreases records.len() - i,
    {
        let id: u64 = records[i].key();
        proof {
            lemma_position_index_push(record_ids(records@.take(i as int)), id);
            assert(record_ids(records@.take(i as int)).push(id) =~= record_ids(
                records@.take(i + 1),
            ));
        }
        table.insert(id, i);
        i += 1;
    }
    assert(records@.take(i as int) =~= records@);
    table
}

/// Inserts every node into a fresh point index, in order, stopping at the
/// first node that the index refuses.
fn index_points(nodes: &Vec<Node>) -> (result: Result<SpatialIndex, LoadError>)
    ensures
        match result {
            Ok(index) => all_nodes_finite(nodes@) && index@ == entries_of(nodes@),
            Err(LoadError::NonFiniteCoordinate { position }) => is_first_non_finite(
                nodes@,
                position as int,
            ),
        },
{
    let mut index = SpatialIndex::new();
    let mut i: usize = 0;
    while i < nodes.len()
        invariant
            i <= nodes.len(),
            all_nodes_finite(nodes@.take(i as int)),
            index@ == entries_of(nodes@.take(i as int)),
        decreases nodes.len() - i,
    {
        let node = nodes[i];
        match index.insert(node.lat_bits, node.lon_bits, node.id) {
            Ok(()) => {},
            Err(_) => {
                assert forall|j: int| 0 <= j < i implies node_is_finite(#[trigger] nodes@[j]) by {
                    assert(nodes@.take(i as int)[j] == nodes@[j]);
                }
                return Err(LoadError::NonFiniteCoordinate { position: i });
            },
        }
        proof {
            assert(index@ =~= entries_of(nodes@.take(i + 1)));
            assert forall|j: int| 0 <= j < i + 1 implies node_is_finite(
                #[trigger] nodes@.take(i + 1)[j],
            ) by {
                if j < i {
                    assert(nodes@.take(i as int)[j] == nodes@[j]);
                }
            }
        }
        i += 1;
    }
    assert(nodes@.take(i as int) =~= nodes@);
    Ok(index)
}

impl TOSMFile {
    #[verifier::type_invariant]
    closed spec fn holds_loaded_store(&self) -> bool {
        self@.well_formed()
    }

    /// Loads a parsed document. Nodes and ways keep their source order; each
    /// id maps to the zero-based position of its last occurrence; every node
    /// is entered into the point index. Loading fails if and only if some
    /// node has a coordinate that is not finite, and then names the first
    /// such node.
    pub fn from_source(source: SourceFile) -> (result: Result<TOSMFile, LoadError>)
        ensures
            match result {
                Ok(file) => {
                    &&& all_nodes_finite(source.nodes@)
                    &&& file@ == loaded(source.nodes@, way_views(source.ways@))
                    &&& file@.well_formed()
                },
                Err(LoadError::NonFiniteCoordinate { position }) => is_first_non_finite(
                    source.nodes@,
                    position as int,
                ),
            },
    {
        let kd_tree = match index_points(&source.nodes) {
            Ok(index) => index,
            Err(error) => {
                return Err(error);
            },
        };
        let node_indexes = index_records(&source.nodes);
        let way_indexes = index_records(&source.ways);
        assert(record_ids(source.nodes@) =~= node_ids(source.nodes@));
        assert(record_ids(source.ways@) =~= way_ids(way_views(source.ways@)));
        assert(source.nodes@.len() == source.nodes.len());
        assert(way_views(source.ways@).len() == source.ways.len());
        Ok(TOSMFile { nodes: source.nodes, ways: source.ways, node_indexes, way_indexes, kd_tree })
    }

    /// The nodes in source order.
    pub fn nodes(&self) -> (nodes: &Vec<Node>)
        ensures
            nodes@ == self@.nodes,
            self@.well_formed(),
    {
        proof {
            use_type_invariant(self);
        }
        &self.nodes
    }

    /// The ways in source order.
    pub fn ways(&self) -> (ways: &Vec<Way>)
        ensures
            way_views(ways@) == self@.ways,
            self@.well_formed(),
    {
        proof {
            use_type_invariant(self);
        }
        &self.ways
    }

    /// The position recorded for node id `id`, if any node has that id.
    pub fn node_position(&self, id: u64) -> (position: Option<usize>)
        ensures
            position == (if self@.node_indexes.contains_key(id) {
                Some(self@.node_indexes[id])
            } else {
                None
            }),
    {
        match self.node_indexes.get(&id) {
            Some(position) => Some(*position),
            None => None,
        }
    }

    /// The position recorded for way id `id`, if any way has that id.
    pub fn way_position(&self, id: u64) -> (position: Option<usize>)
        ensures
            position == (if self@.way_indexes.contains_key(id) {
                Some(self@.way_indexes[id])
            } else {
                None
            }),
    {
        match self.way_indexes.get(&id) {
            Some(position) => Some(*position),
            None => None,
        }
    }

    /// The node stored under `id`: the last node of the sequence with that
    /// id, or `None` when no node has it.
    pub fn node(&self, id: u64) -> (found: Option<&Node>)
        ensures
            match found {
                Some(node) => {
                    &&& node.id == id
                    &&& is_last_occurrence(
                        node_ids(self@.nodes),
                        id,
                        self@.node_indexes[id] as int,
                    )
                    &&& *node == self@.nodes[self@.node_indexes[id] as int]
                },
                None => !node_ids(self@.nodes).contains(id),
            },
    {
        proof {
            use_type_invariant(self);
            lemma_position_index_maps_to_last(node_ids(self@.nodes));
        }
        match self.node_indexes.get(&id) {
            Some(position) => Some(&self.nodes[*position]),
            None => None,
        }
    }

    /// The way stored under `id`: the last way of the sequence with that
    /// id, or `None` when no way has it.
    pub fn way(&self, id: u64) -> (found: Option<&Way>)
        ensures
            match found {
                Some(way) => {
                    &&& way.id == id
                    &&& is_last_occurrence(way_ids(self@.ways), id, self@.way_indexes[id] as int)
                    &&& way@ == self@.ways[self@.way_indexes[id] as int]
                },
                None => !way_ids(self@.ways).contains(id),
            },
    {
        proof {
            use_type_invariant(self);
            lemma_position_index_maps_to_last(way_ids(self@.ways));
        }
        match self.way_indexes.get(&id) {
            Some(position) => Some(&self.ways[*position]),
            None => None,
        }
    }

    /// The lookup table from node id to position in [`TOSMFile::nodes`].
    pub fn node_indexes(&self) -> (table: &HashMap<u64, usize>)
        ensures
            table@ == self@.node_indexes,
            self@.well_formed(),
    {
        proof {
            use_type_invariant(self);
        }
        &self.node_indexes
    }

    /// The lookup table from way id to position in [`TOSMFile::ways`].
    pub fn way_indexes(&self) -> (table: &HashMap<u64, usize>)
        ensures
            table@ == self@.way_indexes,
            self@.well_formed(),
    {
        proof {
            use_type_invariant(self);
        }
        &self.way_indexes
    }

    /// The point index over the nodes.
    pub fn kd_tree(&self) -> (index: &SpatialIndex)
        ensures
            index@ == self@.kd_tree,
            index.well_formed(),
            self@.well_formed(),
    {
        proof {
            use_type_invariant(self);
        }
        &self.kd_tree
    }
}

} // verus!
