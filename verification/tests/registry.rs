use todo_app_backend::store::{CanisterState, Store};
use todo_app_backend::task::{Task, TaskError};

fn store_with(n: u64) -> Store {
    let mut s = Store::new();
    for i in 0..n {
        s.create(format!("task {}", i));
    }
    s
}

#[test]
fn task_new_keeps_its_parts() {
    let t = Task::new(7, String::from("water the plants"));
    assert_eq!(t.id, 7);
    assert_eq!(t.description, "water the plants");
}

#[test]
fn create_assigns_sequential_ids_starting_at_zero() {
    let mut s = Store::new();
    let a = s.create(String::from("a"));
    let b = s.create(String::from("b"));
    let c = s.create(String::from("c"));
    assert_eq!(a.id, 0);
    assert_eq!(b.id, 1);
    assert_eq!(c.id, 2);
    assert_eq!(a.description, "a");
    assert_eq!(b.description, "b");
    assert_eq!(c.description, "c");
}

#[test]
fn created_ids_are_pairwise_distinct_and_increasing() {
    let mut s = Store::new();
    let mut ids: Vec<u64> = Vec::new();
    for i in 0..20u64 {
        s.delete(i / 2);
        ids.push(s.create(String::new()).id);
    }
    for k in 0..ids.len() {
        for l in (k + 1)..ids.len() {
            assert!(ids[k] < ids[l]);
            assert!(ids[k] != ids[l]);
        }
    }
}

#[test]
fn get_returns_a_copy_of_the_stored_task() {
    let mut s = Store::new();
    s.create(String::from("first"));
    s.create(String::from("second"));
    let t = s.get(1).unwrap();
    assert_eq!(t.id, 1);
    assert_eq!(t.description, "second");
}

#[test]
fn get_missing_id_is_not_found() {
    let mut s = Store::new();
    assert_eq!(s.get(0).unwrap_err(), TaskError::NotFound);
    s.create(String::from("only"));
    assert_eq!(s.get(5).unwrap_err(), TaskError::NotFound);
}

#[test]
fn scenario_create_list_update_delete() {
    let mut s = Store::new();
    let a = s.create(String::from("a"));
    let b = s.create(String::from("b"));
    let c = s.create(String::from("c"));
    assert_eq!((a.id, b.id, c.id), (0, 1, 2));

    let page = s.list(None, None);
    assert_eq!(page.len(), 3);
    assert_eq!((page[0].id, page[0].description.as_str()), (0, "a"));
    assert_eq!((page[1].id, page[1].description.as_str()), (1, "b"));
    assert_eq!((page[2].id, page[2].description.as_str()), (2, "c"));

    let updated = s.update(1, String::from("B")).unwrap();
    assert_eq!(updated.id, 1);
    assert_eq!(updated.description, "B");

    s.delete(0);
    let page = s.list(None, None);
    assert_eq!(page.len(), 2);
    assert_eq!((page[0].id, page[0].description.as_str()), (1, "B"));
    assert_eq!((page[1].id, page[1].description.as_str()), (2, "c"));

    assert_eq!(s.get(0).unwrap_err(), TaskError::NotFound);
}

#[test]
fn scenario_fifteen_tasks_offset_five_large_limit() {
    // The requested limit of 100 is clamped to the hard cap of ten, so
    // the page runs from position 5 to position min(5 + 10, 15) = 15:
    // ten items, never the requested hundred.
    let s = store_with(15);
    let page = s.list(Some(5), Some(100));
    assert_eq!(page.len(), 10);
    for (k, t) in page.iter().enumerate() {
        assert_eq!(t.id, 5 + k as u64);
    }
}

#[test]
fn list_is_hard_capped_at_ten() {
    let s = store_with(15);
    assert_eq!(s.list(None, None).len(), 10);
    assert_eq!(s.list(None, Some(100)).len(), 10);
    assert_eq!(s.list(Some(0), Some(u64::MAX)).len(), 10);
}

#[test]
fn list_never_exceeds_store_size() {
    let s = store_with(4);
    assert_eq!(s.list(None, None).len(), 4);
    assert_eq!(s.list(None, Some(10)).len(), 4);
    assert_eq!(s.list(Some(2), Some(10)).len(), 2);
}

#[test]
fn list_offset_at_or_past_end_is_empty() {
    let s = store_with(3);
    assert!(s.list(Some(3), None).is_empty());
    assert!(s.list(Some(4), Some(2)).is_empty());
    assert!(s.list(Some(u64::MAX), None).is_empty());
}

#[test]
fn list_on_empty_store_is_empty() {
    let s = Store::new();
    assert!(s.list(None, None).is_empty());
    assert!(s.list(Some(0), Some(10)).is_empty());
}

#[test]
fn list_zero_limit_is_empty() {
    let s = store_with(3);
    assert!(s.list(None, Some(0)).is_empty());
}

#[test]
fn list_returns_ascending_ids_after_deletions() {
    let mut s = store_with(6);
    s.delete(0);
    s.delete(3);
    let page = s.list(None, None);
    let ids: Vec<u64> = page.iter().map(|t| t.id).collect();
    assert_eq!(ids, vec![1, 2, 4, 5]);
}

#[test]
fn update_changes_only_the_description() {
    let mut s = store_with(3);
    let updated = s.update(1, String::from("changed")).unwrap();
    assert_eq!(updated.id, 1);
    let page = s.list(None, None);
    let ids: Vec<u64> = page.iter().map(|t| t.id).collect();
    assert_eq!(ids, vec![0, 1, 2]);
    assert_eq!(page[1].description, "changed");
    assert_eq!(page[0].description, "task 0");
    assert_eq!(page[2].description, "task 2");
}

#[test]
fn update_missing_id_is_not_found_and_changes_nothing() {
    let mut s = store_with(2);
    assert_eq!(s.update(9, String::from("x")).unwrap_err(), TaskError::NotFound);
    let page = s.list(None, None);
    assert_eq!(page.len(), 2);
    assert_eq!(page[0].description, "task 0");
    assert_eq!(page[1].description, "task 1");
    assert_eq!(s.next_id(), 2);
}

#[test]
fn delete_is_idempotent() {
    let mut s = store_with(3);
    s.delete(1);
    let once: Vec<u64> = s.list(None, None).iter().map(|t| t.id).collect();
    s.delete(1);
    let twice: Vec<u64> = s.list(None, None).iter().map(|t| t.id).collect();
    assert_eq!(once, vec![0, 2]);
    assert_eq!(once, twice);
    assert_eq!(s.next_id(), 3);
}

#[test]
fn delete_missing_id_is_a_no_op() {
    let mut s = store_with(2);
    s.delete(17);
    assert_eq!(s.list(None, None).len(), 2);
}

#[test]
fn deleted_ids_are_never_reused() {
    let mut s = store_with(3);
    s.delete(2);
    let t = s.create(String::from("again"));
    assert_eq!(t.id, 3);
}

#[test]
fn snapshot_drains_the_live_state() {
    let mut s = store_with(4);
    let state = s.snapshot();
    assert_eq!(state.counter, 4);
    assert_eq!(state.tasks.len(), 4);
    assert!(s.list(None, None).is_empty());
    assert_eq!(s.next_id(), 0);
}

#[test]
fn snapshot_then_restore_reproduces_the_store() {
    let mut s = Store::new();
    s.create(String::from("keep"));
    s.create(String::from("me"));
    s.delete(0);
    let state = s.snapshot();
    assert!(state.is_well_formed());
    s.restore(state);
    let page = s.list(None, None);
    assert_eq!(page.len(), 1);
    assert_eq!((page[0].id, page[0].description.as_str()), (1, "me"));
    let next = s.create(String::from("next"));
    assert_eq!(next.id, 2);
}

#[test]
fn restore_replaces_whatever_was_live() {
    let mut donor = store_with(5);
    let state = donor.snapshot();
    let mut s = store_with(2);
    s.restore(state);
    assert_eq!(s.list(None, None).len(), 5);
    assert_eq!(s.next_id(), 5);
}

#[test]
fn well_formed_check_accepts_sorted_fresh_ids() {
    let state = CanisterState {
        counter: 9,
        tasks: vec![Task::new(1, String::new()), Task::new(4, String::new())],
    };
    assert!(state.is_well_formed());
    let empty = CanisterState { counter: 0, tasks: Vec::new() };
    assert!(empty.is_well_formed());
}

#[test]
fn well_formed_check_rejects_bad_states() {
    let duplicate = CanisterState {
        counter: 9,
        tasks: vec![Task::new(2, String::new()), Task::new(2, String::new())],
    };
    assert!(!duplicate.is_well_formed());
    let unsorted = CanisterState {
        counter: 9,
        tasks: vec![Task::new(3, String::new()), Task::new(1, String::new())],
    };
    assert!(!unsorted.is_well_formed());
    let stale_counter = CanisterState { counter: 2, tasks: vec![Task::new(2, String::new())] };
    assert!(!stale_counter.is_well_formed());
}
