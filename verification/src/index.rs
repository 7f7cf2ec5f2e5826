//! Lookup tables from ids to positions in a sequence.

use vstd::prelude::*;

verus! {

/// The lookup table of a sequence of ids, built front to back: each id is
/// recorded under its zero-based position, and a later occurrence of an id
/// replaces the position recorded for an earlier one.
pub open spec fn position_index(ids: Seq<u64>) -> Map<u64, usize>
    decreases ids.len(),
{
    if ids.len() == 0 {
        Map::empty()
    } else {
        position_index(ids.drop_last()).insert(ids.last(), (ids.len() - 1) as usize)
    }
}

/// `position` is where `id` occurs last in `ids`.
pub open spec fn is_last_occurrence(ids: Seq<u64>, id: u64, position: int) -> bool {
    &&& 0 <= position < ids.len()
    &&& ids[position] == id
    &&& forall|later: int| position < later < ids.len() ==> ids[later] != id
}

/// Recording one more id extends the table by one insertion.
pub proof fn lemma_position_index_push(ids: Seq<u64>, id: u64)
    ensures
        position_index(ids.push(id)) == position_index(ids).insert(id, ids.len() as usize),
{
    assert(ids.push(id).drop_last() =~= ids);
}

/// The keys of the table are exactly the ids that occur, and each key maps
/// to the position of its last occurrence.
pub proof fn lemma_position_index_maps_to_last(ids: Seq<u64>)
    requires
        ids.len() <= usize::MAX,
    ensures
        forall|id: u64| #[trigger] position_index(ids).contains_key(id) <==> ids.contains(id),
        forall|id: u64| #[trigger]
            position_index(ids).contains_key(id) ==> is_last_occurrence(
                ids,
                id,
                position_index(ids)[id] as int,
            ),
    decreases ids.len(),
{
    if ids.len() > 0 {
        let front = ids.drop_last();
        let last = ids.last();
        lemma_position_index_maps_to_last(front);
        assert forall|id: u64| #[trigger]
            position_index(ids).contains_key(id) <==> ids.contains(id) by {
            assert(position_index(ids).contains_key(id) <==> id == last || position_index(
                front,
            ).contains_key(id));
            assert(position_index(front).contains_key(id) <==> front.contains(id));
            if id == last {
                assert(ids[ids.len() - 1] == id);
            } else if ids.contains(id) {
                let at = choose|i: int| 0 <= i < ids.len() && ids[i] == id;
                assert(front[at] == id);
            } else if front.contains(id) {
                let at = choose|i: int| 0 <= i < front.len() && front[i] == id;
                assert(ids[at] == id);
            }
        }
        assert forall|id: u64| #[trigger] position_index(ids).contains_key(id) implies is_last_occurrence(
            ids,
            id,
            position_index(ids)[id] as int,
        ) by {
            if id != last {
                let position = position_index(front)[id] as int;
                assert(is_last_occurrence(front, id, position));
                assert(ids[position] == front[position]);
                assert forall|later: int| position < later < ids.len() implies ids[later] != id by {
                    if later < front.len() {
                        assert(ids[later] == front[later]);
                    }
                }
            }
        }
    }
}

} // verus!
