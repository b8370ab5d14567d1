use vstd::prelude::*;
use vstd::pervasive::VecAdditionalExecFns;
use crate::task::{Task, TaskError, TaskView};

verus! {

/// The smaller of two mathematical integers.
pub open spec fn min_int(a: int, b: int) -> int {
    if a <= b {
        a
    } else {
        b
    }
}

/// The views of a sequence of records, in the same order.
pub open spec fn views_of(ts: Seq<Task>) -> Seq<TaskView> {
    ts.map_values(|t: Task| t@)
}

/// Mathematical image of the registry: the id counter together with the
/// stored records in store order.
#[verifier::ext_equal]
pub ghost struct StoreView {
    pub counter: u64,
    pub tasks: Seq<TaskView>,
}

impl StoreView {
    /// Well-formedness: ids strictly increase along the sequence (so the
    /// store is in ascending-id order and ids are pairwise distinct), and
    /// every stored id is below the counter (so the next allocated id is
    /// fresh).
    pub open spec fn wf(self) -> bool {
        &&& forall|i: int, j: int|
            #![trigger self.tasks[i], self.tasks[j]]
            0 <= i < j < self.tasks.len() ==> self.tasks[i].id < self.tasks[j].id
        &&& forall|i: int| 0 <= i < self.tasks.len() ==> (#[trigger] self.tasks[i]).id < self.counter
    }

    /// The freshly initialized registry: counter at zero, no records.
    pub open spec fn empty() -> StoreView {
        StoreView { counter: 0, tasks: Seq::empty() }
    }

    /// Whether some stored record carries the given id.
    pub open spec fn contains_id(self, id: u64) -> bool {
        exists|i: int| 0 <= i < self.tasks.len() && (#[trigger] self.tasks[i]).id == id
    }

    /// The position of the record carrying the given id (meaningful only
    /// when `contains_id` holds; unique by well-formedness).
    pub open spec fn index_of(self, id: u64) -> int {
        choose|i: int| 0 <= i < self.tasks.len() && (#[trigger] self.tasks[i]).id == id
    }

    /// The stored record carrying the given id.
    pub open spec fn task_at(self, id: u64) -> TaskView {
        self.tasks[self.index_of(id)]
    }

    /// Creation: the new record takes the counter as its id and goes to
    /// the end of the sequence; the counter advances by one.
    pub open spec fn create_t(self, description: Seq<char>) -> (StoreView, TaskView) {
        let t = TaskView { id: self.counter, description };
        (StoreView { counter: (self.counter + 1) as u64, tasks: self.tasks.push(t) }, t)
    }

    /// Update: if the id is present, its record's description is replaced
    /// in place (same id, same position); otherwise nothing changes.
    pub open spec fn update_t(self, id: u64, description: Seq<char>) -> StoreView {
        if self.contains_id(id) {
            StoreView {
                counter: self.counter,
                tasks: self.tasks.update(self.index_of(id), TaskView { id, description }),
            }
        } else {
            self
        }
    }

    /// Deletion: if the id is present its record is removed, closing the
    /// gap; otherwise nothing changes. The counter never moves.
    pub open spec fn delete_t(self, id: u64) -> StoreView {
        if self.contains_id(id) {
            StoreView { counter: self.counter, tasks: self.tasks.remove(self.index_of(id)) }
        } else {
            self
        }
    }

    /// The page selected by `list`: offset and limit are clamped — the
    /// limit by the hard cap of ten and by the store size, the offset by
    /// the store size — and the page is the slice of the ascending-id
    /// sequence from the clamped offset.
    pub open spec fn list_sel(self, offset: Option<u64>, limit: Option<u64>) -> Seq<TaskView> {
        let total = self.tasks.len() as int;
        let cap = min_int(10, total);
        let off = min_int(
            match offset {
                Option::Some(o) => o as int,
                Option::None => 0,
            },
            total,
        );
        let lim = min_int(
            match limit {
                Option::Some(l) => l as int,
                Option::None => cap,
            },
            cap,
        );
        self.tasks.subrange(off, min_int(off + lim, total))
    }

    /// Snapshot as a pure function: the drained (empty) live state paired
    /// with the captured state, which is the whole prior state.
    pub open spec fn drain_t(self) -> (StoreView, StoreView) {
        (StoreView::empty(), self)
    }

    /// Restore as a pure function: the captured state replaces the live
    /// state wholesale.
    pub open spec fn load_t(state: StoreView) -> StoreView {
        state
    }
}

/// Ascending-id order holds pairwise as soon as it holds between
/// neighbours.
pub proof fn lemma_adjacent_sorted_implies_pairwise(ts: Seq<TaskView>, i: int, j: int)
    requires
        forall|k: int| 0 <= k && k + 1 < ts.len() ==> (#[trigger] ts[k]).id < ts[k + 1].id,
        0 <= i < j < ts.len(),
    ensures
        ts[i].id < ts[j].id,
    decreases j - i,
{
    if i + 1 < j {
        lemma_adjacent_sorted_implies_pairwise(ts, i, j - 1);
    }
}

/// The registry: a monotonic id counter and the records it has handed
/// out, kept in ascending-id order.
pub struct Store {
    counter: u64,
    tasks: Vec<Task>,
}

/// A point-in-time capture of the whole registry state, produced by
/// [`Store::snapshot`] and consumed by [`Store::restore`]. The hosting
/// process is expected to carry it across a teardown as bytes; the pair
/// of fields is all there is to persist.
pub struct CanisterState {
    pub counter: u64,
    pub tasks: Vec<Task>,
}

impl View for Store {
    type V = StoreView;

    closed spec fn view(&self) -> StoreView {
        StoreView { counter: self.counter, tasks: views_of(self.tasks@) }
    }
}

impl View for CanisterState {
    type V = StoreView;

    open spec fn view(&self) -> StoreView {
        StoreView { counter: self.counter, tasks: views_of(self.tasks@) }
    }
}

impl Store {
    /// Well-formedness of the live registry (see [`StoreView::wf`]).
    pub open spec fn wf(self) -> bool {
        self@.wf()
    }

    /// A fresh registry: counter at zero, no records.
    pub fn new() -> (s: Store)
        ensures
            s@ == StoreView::empty(),
            s.wf(),
    {
        let s = Store { counter: 0, tasks: Vec::new() };
        proof {
            assert(s@.tasks =~= Seq::<TaskView>::empty());
            assert(s@ =~= StoreView::empty());
        }
        s
    }

    /// Allocates the next id, stores a record with it and the given
    /// description, and returns a copy of that record. Ids are handed out
    /// in strictly increasing order and never reused, so the new record
    /// goes to the end of the ascending-id sequence.
    pub fn create(&mut self, description: String) -> (t: Task)
        requires
            old(self).wf(),
            old(self)@.counter < u64::MAX,
        ensures
            final(self).wf(),
            (final(self)@, t@) == old(self)@.create_t(description@),
    {
        let id: u64 = self.counter;
        self.counter = self.counter + 1;
        let t = Task::new(id, description);
        let stored = t.duplicate();
        self.tasks.push(stored);
        proof {
            let prior = old(self)@;
            let (ev, et) = prior.create_t(t@.description);
            assert(self@.tasks =~= prior.tasks.push(et));
            assert(self@ =~= ev);
            assert forall|i: int, j: int|
                #![trigger self@.tasks[i], self@.tasks[j]]
                0 <= i < j < self@.tasks.len() implies self@.tasks[i].id < self@.tasks[j].id by {
                if j < prior.tasks.len() {
                    assert(prior.tasks[i].id < prior.tasks[j].id);
                } else {
                    assert(self@.tasks[j] == et);
                    assert(prior.tasks[i].id < prior.counter);
                }
            }
        }
        t
    }

    /// By well-formedness a position holding the id is the unique one,
    /// and so the one `index_of` picks.
    proof fn lemma_index_unique(self, id: u64, i: int)
        requires
            self.wf(),
            0 <= i < self@.tasks.len(),
            self@.tasks[i].id == id,
        ensures
            self@.contains_id(id),
            self@.index_of(id) == i,
    {
        assert(self@.contains_id(id));
        let j: int = self@.index_of(id);
        if j < i {
            assert(self@.tasks[j].id < self@.tasks[i].id);
        } else if i < j {
            assert(self@.tasks[i].id < self@.tasks[j].id);
        }
    }

    /// Linear scan for the position of the record with the given id.
    fn find_index(&self, id: u64) -> (r: Option<usize>)
        requires
            self.wf(),
        ensures
            match r {
                Option::Some(i) => self@.contains_id(id) && self@.index_of(id) == i as int
                    && i < self@.tasks.len(),
                Option::None => !self@.contains_id(id),
            },
    {
        let n: usize = self.tasks.len();
        let mut i: usize = 0;
        while i < n
            invariant
                n == self.tasks.len(),
                i <= n,
                self.wf(),
                forall|k: int| 0 <= k < i ==> (#[trigger] self@.tasks[k]).id != id,
            decreases n - i,
        {
            if self.tasks[i].id == id {
                proof {
                    self.lemma_index_unique(id, i as int);
                }
                return Some(i);
            }
            i += 1;
        }
        None
    }

    /// Looks the id up and returns a copy of its record, or `NotFound`
    /// exactly when no record carries the id.
    pub fn get(&self, id: u64) -> (r: Result<Task, TaskError>)
        requires
            self.wf(),
        ensures
            r is Ok <==> self@.contains_id(id),
            r matches Ok(t) ==> t@ == self@.task_at(id) && t@.id == id,
            r matches Err(e) ==> e == TaskError::NotFound,
    {
        match self.find_index(id) {
            Some(i) => Ok(self.tasks[i].duplicate()),
            None => Err(TaskError::NotFound),
        }
    }

    /// Replaces the description of the record with the given id, keeping
    /// its identity and its position, and returns a copy of the updated
    /// record; `NotFound`, with the store untouched, exactly when no
    /// record carries the id.
    pub fn update(&mut self, id: u64, description: String) -> (r: Result<Task, TaskError>)
        requires
            old(self).wf(),
        ensures
            final(self).wf(),
            final(self)@ == old(self)@.update_t(id, description@),
            r is Ok <==> old(self)@.contains_id(id),
            r matches Ok(t) ==> t@ == (TaskView { id, description: description@ }),
            r matches Err(e) ==> e == TaskError::NotFound && final(self)@ == old(self)@,
    {
        match self.find_index(id) {
            Some(i) => {
                let t = Task::new(id, description);
                let stored = t.duplicate();
                self.tasks.set(i, stored);
                proof {
                    let prior = old(self)@;
                    let ev = prior.update_t(id, t@.description);
                    assert(self@.tasks =~= prior.tasks.update(i as int, t@));
                    assert(self@ =~= ev);
                    assert forall|p: int, q: int|
                        #![trigger self@.tasks[p], self@.tasks[q]]
                        0 <= p < q < self@.tasks.len() implies self@.tasks[p].id
                        < self@.tasks[q].id by {
                        assert(self@.tasks[p].id == prior.tasks[p].id);
                        assert(self@.tasks[q].id == prior.tasks[q].id);
                    }
                }
                Ok(t)
            },
            None => {
                proof {
                    assert(self@ == old(self)@.update_t(id, description@));
                }
                Err(TaskError::NotFound)
            },
        }
    }

    /// Removes the record with the given id if one is present; deleting
    /// an absent id is a silent no-op. The counter never moves, so the
    /// deleted id is never handed out again.
    pub fn delete(&mut self, id: u64)
        requires
            old(self).wf(),
        ensures
            final(self).wf(),
            final(self)@ == old(self)@.delete_t(id),
    {
        match self.find_index(id) {
            Some(i) => {
                let _removed = self.tasks.remove(i);
                proof {
                    let prior = old(self)@;
                    let ev = prior.delete_t(id);
                    assert(self@.tasks =~= prior.tasks.remove(i as int));
                    assert(self@ =~= ev);
                    prior.tasks.remove_ensures(i as int);
                    assert forall|p: int, q: int|
                        #![trigger self@.tasks[p], self@.tasks[q]]
                        0 <= p < q < self@.tasks.len() implies self@.tasks[p].id
                        < self@.tasks[q].id by {
                        let p0: int = if p < i { p } else { p + 1 };
                        let q0: int = if q < i { q } else { q + 1 };
                        assert(self@.tasks[p] == prior.tasks[p0]);
                        assert(self@.tasks[q] == prior.tasks[q0]);
                        assert(prior.tasks[p0].id < prior.tasks[q0].id);
                    }
                    assert forall|p: int| 0 <= p < self@.tasks.len() implies (#[trigger] self@.tasks[p]).id
                        < self@.counter by {
                        let p0: int = if p < i { p } else { p + 1 };
                        assert(self@.tasks[p] == prior.tasks[p0]);
                    }
                }
            },
            None => {
                proof {
                    assert(self@ == old(self)@.delete_t(id));
                }
            },
        }
    }

    /// Returns one page of the store in ascending-id order. The offset
    /// is clamped to the store size and the limit both to the store size
    /// and to the hard cap of ten; an offset at or past the end yields an
    /// empty page. Never fails.
    pub fn list(&self, offset: Option<u64>, limit: Option<u64>) -> (r: Vec<Task>)
        requires
            self.wf(),
        ensures
            views_of(r@) == self@.list_sel(offset, limit),
    {
        let total: usize = self.tasks.len();
        let cap: usize = if total < 10 {
            total
        } else {
            10
        };
        let req_off: u64 = match offset {
            Some(o) => o,
            None => 0,
        };
        let eff_off: usize = if req_off >= total as u64 {
            total
        } else {
            req_off as usize
        };
        let req_lim: u64 = match limit {
            Some(l) => l,
            None => cap as u64,
        };
        let eff_lim: usize = if req_lim >= cap as u64 {
            cap
        } else {
            req_lim as usize
        };
        let remaining: usize = total - eff_off;
        let take: usize = if eff_lim < remaining {
            eff_lim
        } else {
            remaining
        };
        let end: usize = eff_off + take;
        let mut out: Vec<Task> = Vec::new();
        let mut i: usize = eff_off;
        while i < end
            invariant
                eff_off <= i <= end <= self.tasks.len(),
                out@.len() == i - eff_off,
                forall|k: int|
                    0 <= k < out@.len() ==> (#[trigger] out@[k])@ == self.tasks@[
                        eff_off + k
                    ]@,
            decreases end - i,
        {
            let copy = self.tasks[i].duplicate();
            out.push(copy);
            i += 1;
        }
        proof {
            let sel = self@.list_sel(offset, limit);
            assert(sel == self@.tasks.subrange(eff_off as int, end as int));
            assert forall|k: int| 0 <= k < out@.len() implies views_of(out@)[k] == sel[k] by {
                assert(out@[k]@ == self.tasks@[eff_off + k]@);
                assert(sel[k] == self@.tasks[eff_off + k]);
            }
            assert(views_of(out@) =~= sel);
        }
        out
    }

    /// Drains the live state into a capture: the returned value carries
    /// the whole prior counter and record sequence, and the live store is
    /// left freshly initialized. The caller is expected to persist the
    /// capture before mutating again.
    pub fn snapshot(&mut self) -> (state: CanisterState)
        requires
            old(self).wf(),
        ensures
            final(self).wf(),
            state@.wf(),
            (final(self)@, state@) == old(self)@.drain_t(),
    {
        let mut drained: Vec<Task> = Vec::new();
        core::mem::swap(&mut self.tasks, &mut drained);
        let counter: u64 = self.counter;
        self.counter = 0;
        let state = CanisterState { counter, tasks: drained };
        proof {
            assert(self@.tasks =~= Seq::<TaskView>::empty());
            assert(self@ =~= StoreView::empty());
            assert(state@ =~= old(self)@);
        }
        state
    }

    /// Replaces the live counter and record sequence wholesale with the
    /// contents of the capture, discarding whatever was live before.
    pub fn restore(&mut self, state: CanisterState)
        requires
            state@.wf(),
        ensures
            final(self).wf(),
            final(self)@ == StoreView::load_t(state@),
    {
        let CanisterState { counter, tasks } = state;
        self.counter = counter;
        self.tasks = tasks;
        proof {
            assert(self@ =~= StoreView::load_t(state@));
        }
    }

    /// Decides well-formedness of the live registry, so that an
    /// unverified caller can establish the precondition of the other
    /// operations.
    pub fn is_well_formed(&self) -> (b: bool)
        ensures
            b == self.wf(),
    {
        tasks_well_formed(&self.tasks, self.counter)
    }

    /// The id the next creation will hand out: the counter's current
    /// value.
    pub fn next_id(&self) -> (c: u64)
        ensures
            c == self@.counter,
    {
        self.counter
    }
}

/// Decides well-formedness of a counter / record pair (see
/// [`StoreView::wf`]) by one pass over the records.
fn tasks_well_formed(tasks: &Vec<Task>, counter: u64) -> (b: bool)
    ensures
        b == (StoreView { counter, tasks: views_of(tasks@) }).wf(),
{
    let ghost v = StoreView { counter, tasks: views_of(tasks@) };
    let n: usize = tasks.len();
    let mut i: usize = 0;
    while i < n
        invariant
            v == (StoreView { counter, tasks: views_of(tasks@) }),
            n == tasks.len(),
            i <= n,
            forall|k: int| 0 <= k < i ==> (#[trigger] v.tasks[k]).id < v.counter,
            forall|k: int|
                0 <= k < i && k + 1 < n ==> (#[trigger] v.tasks[k]).id < v.tasks[k + 1].id,
        decreases n - i,
    {
        if tasks[i].id >= counter {
            proof {
                assert(v.tasks[i as int].id >= v.counter);
            }
            return false;
        }
        if i + 1 < n && tasks[i].id >= tasks[i + 1].id {
            proof {
                assert(!(v.tasks[i as int].id < v.tasks[i as int + 1].id));
            }
            return false;
        }
        i += 1;
    }
    proof {
        assert forall|p: int, q: int|
            #![trigger v.tasks[p], v.tasks[q]]
            0 <= p < q < v.tasks.len() implies v.tasks[p].id < v.tasks[q].id by {
            lemma_adjacent_sorted_implies_pairwise(v.tasks, p, q);
        }
    }
    true
}

impl CanisterState {
    /// Decides well-formedness of a capture, so that state read back
    /// from the persistence boundary can be checked before a
    /// [`Store::restore`].
    pub fn is_well_formed(&self) -> (b: bool)
        ensures
            b == self@.wf(),
    {
        let b = tasks_well_formed(&self.tasks, self.counter);
        proof {
            assert(self@ =~= (StoreView { counter: self.counter, tasks: views_of(self.tasks@) }));
        }
        b
    }
}

} // verus!
