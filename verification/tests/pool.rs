use netstack::connection::ConnectionList;

#[test]
fn fresh_pool_serves_exactly_capacity() {
    let mut list = ConnectionList::new(3);
    for expected_id in 0..3usize {
        let c = list.create_connection().expect("pool should not be exhausted yet");
        assert_eq!(c.id(), expected_id);
        assert_eq!(c.generation(), 1);
    }
    assert!(list.create_connection().is_none());
    assert!(list.create_connection().is_none());
}

#[test]
fn capacity_zero_pool_is_always_exhausted() {
    let mut list = ConnectionList::new(0);
    assert!(list.create_connection().is_none());
}

#[test]
fn created_handle_is_alive_until_deleted() {
    let mut list = ConnectionList::new(3);
    let h = list.create_connection().unwrap();
    assert!(list.is_alive(h));

    // Unrelated pool traffic leaves the handle alive.
    let other = list.create_connection().unwrap();
    assert!(list.is_alive(h));
    list.delete_connection(other).unwrap();
    assert!(list.is_alive(h));

    list.delete_connection(h).unwrap();
    assert!(!list.is_alive(h));
}

#[test]
fn double_delete_fails() {
    let mut list = ConnectionList::new(1);
    let h = list.create_connection().unwrap();
    assert!(list.delete_connection(h).is_ok());
    assert!(!list.is_alive(h));
    assert!(list.delete_connection(h).is_err());
    assert!(!list.is_alive(h));
}

#[test]
fn reused_slot_gets_strictly_newer_generation() {
    let mut list = ConnectionList::new(1);
    let old = list.create_connection().unwrap();
    list.delete_connection(old).unwrap();

    let new = list.create_connection().unwrap();
    assert_eq!(new.id(), old.id());
    assert!(new.generation() > old.generation());
    assert!(!list.is_alive(old));
    assert!(list.is_alive(new));
}

#[test]
fn generations_increase_by_one_alternating_parity() {
    let mut list = ConnectionList::new(1);
    let mut expected_generation: usize = 1;
    for _round in 0..4 {
        let h = list.create_connection().unwrap();
        assert_eq!(h.id(), 0);
        assert_eq!(h.generation(), expected_generation);
        assert_eq!(h.generation() % 2, 1);
        list.delete_connection(h).unwrap();
        expected_generation += 2;
    }
}

#[test]
fn free_queue_is_fifo() {
    let mut list = ConnectionList::new(3);
    let h0 = list.create_connection().unwrap();
    let h1 = list.create_connection().unwrap();
    let h2 = list.create_connection().unwrap();

    // Free 1, then 0: ids must come back in that order, after the untouched 2.
    list.delete_connection(h1).unwrap();
    list.delete_connection(h0).unwrap();
    list.delete_connection(h2).unwrap();

    assert_eq!(list.create_connection().unwrap().id(), 1);
    assert_eq!(list.create_connection().unwrap().id(), 0);
    assert_eq!(list.create_connection().unwrap().id(), 2);
}

#[test]
fn scenario_capacity_two() {
    let mut list = ConnectionList::new(2);

    let h0 = list.create_connection().unwrap();
    assert_eq!((h0.id(), h0.generation()), (0, 1));

    let h1 = list.create_connection().unwrap();
    assert_eq!((h1.id(), h1.generation()), (1, 1));

    assert!(list.create_connection().is_none());

    assert!(list.delete_connection(h0).is_ok());
    assert!(!list.is_alive(h0));

    // Id 0 is reused; its generation has advanced by 2 from the old handle's.
    let h2 = list.create_connection().unwrap();
    assert_eq!(h2.id(), 0);
    assert_eq!(h2.generation(), h0.generation() + 2);

    assert!(!list.is_alive(h0));
    assert!(list.is_alive(h2));
}

#[test]
fn iterator_visits_live_handles_in_id_order() {
    let mut list = ConnectionList::new(4);
    let h0 = list.create_connection().unwrap();
    let h1 = list.create_connection().unwrap();
    let h2 = list.create_connection().unwrap();
    list.delete_connection(h1).unwrap();

    let mut it = list.iter();
    assert_eq!(it.next(), Some(h0));
    assert_eq!(it.next(), Some(h2));
    assert_eq!(it.next(), None);

    // The scan is restartable.
    let mut again = list.iter();
    assert_eq!(again.next(), Some(h0));
    assert_eq!(again.next(), Some(h2));
    assert_eq!(again.next(), None);
}

#[test]
fn iterator_on_empty_pool_yields_nothing() {
    let list = ConnectionList::new(3);
    let mut it = list.iter();
    assert_eq!(it.next(), None);

    let empty = ConnectionList::new(0);
    let mut it0 = empty.iter();
    assert_eq!(it0.next(), None);
}
