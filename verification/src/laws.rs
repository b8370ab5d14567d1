use vstd::prelude::*;
use crate::store::{min_int, StoreView};
use crate::task::TaskView;

verus! {

/// The ids handed out over a whole run of creations, in call order.
pub open spec fn create_all_ids(v: StoreView, descriptions: Seq<Seq<char>>) -> Seq<u64>
    decreases descriptions.len(),
{
    if descriptions.len() == 0 {
        Seq::empty()
    } else {
        seq![v.create_t(descriptions[0]).1.id] + create_all_ids(
            v.create_t(descriptions[0]).0,
            descriptions.drop_first(),
        )
    }
}

/// Each creation in a run hands out the counter's value at its turn:
/// the k-th id is the starting counter plus k.
proof fn lemma_create_all_ids_formula(v: StoreView, descriptions: Seq<Seq<char>>)
    requires
        v.counter + descriptions.len() <= u64::MAX,
    ensures
        create_all_ids(v, descriptions).len() == descriptions.len(),
        forall|k: int|
            0 <= k < descriptions.len() ==> #[trigger] create_all_ids(v, descriptions)[k]
                == v.counter + k,
    decreases descriptions.len(),
{
    if descriptions.len() > 0 {
        let v1 = v.create_t(descriptions[0]).0;
        lemma_create_all_ids_formula(v1, descriptions.drop_first());
    }
}

/// Monotonicity of creation: across any run of creations, the returned
/// ids strictly increase in call order.
pub proof fn lemma_created_ids_strictly_increasing(v: StoreView, descriptions: Seq<Seq<char>>)
    requires
        v.counter + descriptions.len() <= u64::MAX,
    ensures
        forall|k: int, l: int|
            #![trigger create_all_ids(v, descriptions)[k], create_all_ids(v, descriptions)[l]]
            0 <= k < l < descriptions.len() ==> create_all_ids(v, descriptions)[k]
                < create_all_ids(v, descriptions)[l],
{
    lemma_create_all_ids_formula(v, descriptions);
}

/// Uniqueness of creation: across any run of creations, the returned
/// ids are pairwise distinct.
pub proof fn lemma_created_ids_pairwise_distinct(v: StoreView, descriptions: Seq<Seq<char>>)
    requires
        v.counter + descriptions.len() <= u64::MAX,
    ensures
        forall|k: int, l: int|
            #![trigger create_all_ids(v, descriptions)[k], create_all_ids(v, descriptions)[l]]
            0 <= k < descriptions.len() && 0 <= l < descriptions.len() && k != l
                ==> create_all_ids(v, descriptions)[k] != create_all_ids(v, descriptions)[l],
{
    lemma_create_all_ids_formula(v, descriptions);
}

/// No reuse after deletion: whatever id is deleted, a following
/// creation hands out an id that differs from every id the store held
/// before the deletion — the deleted one included.
pub proof fn lemma_no_reuse_after_delete(v: StoreView, id: u64, description: Seq<char>)
    requires
        v.wf(),
    ensures
        ({
            let w = v.delete_t(id);
            let t = w.create_t(description).1;
            &&& w.counter == v.counter
            &&& t.id == v.counter
            &&& forall|i: int| 0 <= i < v.tasks.len() ==> (#[trigger] v.tasks[i]).id != t.id
        }),
{
}

/// Pagination clamp: a page never holds more records than the hard cap
/// of ten, nor more than the store holds.
pub proof fn lemma_list_clamped(v: StoreView, offset: Option<u64>, limit: Option<u64>)
    ensures
        v.list_sel(offset, limit).len() <= min_int(10, v.tasks.len() as int),
{
}

/// Pagination correctness, positionally: writing `off` for the clamped
/// offset, the page holds exactly the records of the ascending-id
/// sequence at positions `off`, `off + 1`, ... up to its length.
pub proof fn lemma_list_positions(v: StoreView, offset: Option<u64>, limit: Option<u64>)
    ensures
        ({
            let off = min_int(
                match offset {
                    Option::Some(o) => o as int,
                    Option::None => 0,
                },
                v.tasks.len() as int,
            );
            forall|k: int|
                0 <= k < v.list_sel(offset, limit).len() ==> #[trigger] v.list_sel(
                    offset,
                    limit,
                )[k] == v.tasks[off + k]
        }),
{
}

/// Pagination past the end: an offset at or beyond the store size
/// selects the empty page.
pub proof fn lemma_list_offset_past_end(v: StoreView, off: u64, limit: Option<u64>)
    requires
        v.tasks.len() <= off,
    ensures
        v.list_sel(Some(off), limit) == Seq::<TaskView>::empty(),
{
    assert(v.list_sel(Some(off), limit) =~= Seq::<TaskView>::empty());
}

/// Snapshot / restore round-trip: restoring an undisturbed capture
/// reproduces the captured state exactly, and the next creation hands
/// out the same id as it would have before the capture.
pub proof fn lemma_snapshot_restore_round_trip(v: StoreView, description: Seq<char>)
    ensures
        StoreView::load_t(v.drain_t().1) == v,
        StoreView::load_t(v.drain_t().1).create_t(description) == v.create_t(description),
{
}

/// Idempotent deletion: deleting an id twice is the same as deleting it
/// once — the second deletion finds nothing and changes nothing.
pub proof fn lemma_delete_idempotent(v: StoreView, id: u64)
    requires
        v.wf(),
    ensures
        !v.delete_t(id).contains_id(id),
        v.delete_t(id).delete_t(id) == v.delete_t(id),
{
    let w = v.delete_t(id);
    if v.contains_id(id) {
        let i: int = v.index_of(id);
        assert(0 <= i < v.tasks.len() && v.tasks[i].id == id);
        v.tasks.remove_ensures(i);
        assert forall|k: int| 0 <= k < w.tasks.len() implies (#[trigger] w.tasks[k]).id != id by {
            if k < i {
                assert(w.tasks[k] == v.tasks[k]);
                assert(v.tasks[k].id < v.tasks[i].id);
            } else {
                assert(w.tasks[k] == v.tasks[k + 1]);
                assert(v.tasks[i].id < v.tasks[k + 1].id);
            }
        }
    }
    assert(!w.contains_id(id));
    assert(w.delete_t(id) == w);
}

/// Update preserves identity: an update never changes the counter, the
/// store order or any id; every record but the addressed one is
/// untouched, and the addressed one only has its description replaced.
pub proof fn lemma_update_preserves_identity(v: StoreView, id: u64, description: Seq<char>)
    requires
        v.wf(),
    ensures
        ({
            let w = v.update_t(id, description);
            &&& w.counter == v.counter
            &&& w.tasks.len() == v.tasks.len()
            &&& forall|k: int|
                0 <= k < v.tasks.len() ==> (#[trigger] w.tasks[k]).id == v.tasks[k].id
            &&& forall|k: int|
                0 <= k < v.tasks.len() && k != v.index_of(id) ==> #[trigger] w.tasks[k]
                    == v.tasks[k]
            &&& v.contains_id(id) ==> w.tasks[v.index_of(id)].description == description
        }),
{
    if v.contains_id(id) {
        let i: int = v.index_of(id);
        assert(0 <= i < v.tasks.len() && v.tasks[i].id == id);
    }
}

} // verus!
