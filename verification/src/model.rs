//! The records of the store: points and ways.

use vstd::prelude::*;

verus! {

/// A geographic point. `lat_bits` and `lon_bits` are the binary64 bit
/// patterns of its latitude and longitude in degrees.
#[derive(Clone, Copy, Debug, PartialEq, Eq, Structural)]
pub struct Node {
    pub id: u64,
    pub lat_bits: u64,
    pub lon_bits: u64,
}

/// An ordered path over node ids. The ids need not name nodes of the store.
#[derive(Clone, Debug, PartialEq, Eq)]
pub struct Way {
    pub id: u64,
    pub node_ids: Vec<u64>,
    pub one_way: bool,
    pub name: Option<String>,
}

/// What a [`Way`] holds, as mathematical values.
pub struct WayView {
    pub id: u64,
    pub node_ids: Seq<u64>,
    pub one_way: bool,
    pub name: Option<Seq<char>>,
}

/// The characters of an optional text.
pub open spec fn text_view(text: Option<String>) -> Option<Seq<char>> {
    match text {
        Some(text) => Some(text@),
        None => None,
    }
}

impl View for Way {
    type V = WayView;

    open spec fn view(&self) -> WayView {
        WayView {
            id: self.id,
            node_ids: self.node_ids@,
            one_way: self.one_way,
            name: text_view(self.name),
        }
    }
}

/// The views of a sequence of ways, element by element.
pub open spec fn way_views(ways: Seq<Way>) -> Seq<WayView> {
    Seq::new(ways.len(), |i: int| ways[i]@)
}

/// A record that is looked up by its id.
pub trait Record {
    /// The id of the record.
    spec fn record_id(&self) -> u64;

    /// The id of the record.
    fn key(&self) -> (id: u64)
        ensures
            id == self.record_id(),
    ;
}

impl Record for Node {
    open spec fn record_id(&self) -> u64 {
        self.id
    }

    fn key(&self) -> (id: u64) {
        self.id
    }
}

impl Record for Way {
    open spec fn record_id(&self) -> u64 {
        self.id
    }

    fn key(&self) -> (id: u64) {
        self.id
    }
}

/// The ids of a sequence of records, in order.
pub open spec fn record_ids<T: Record>(records: Seq<T>) -> Seq<u64> {
    Seq::new(records.len(), |i: int| records[i].record_id())
}

/// A parsed input document: nodes and ways in source order.
#[derive(Clone, Debug, PartialEq, Eq)]
pub struct SourceFile {
    pub nodes: Vec<Node>,
    pub ways: Vec<Way>,
}

} // verus!
