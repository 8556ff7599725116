use voter_bags::{
    notional_bag_for, Bag, DispatchError, Event, Origin, Pallet, SanityError, VoterList, VoterType,
};

const MAX: u64 = u64::MAX;

fn ids(list: &VoterList) -> Vec<u64> {
    list.iter().iter().map(|n| n.id).collect()
}

fn bands(list: &VoterList) -> Vec<u64> {
    list.iter().iter().map(|n| n.bag_upper).collect()
}

#[test]
fn band_resolution_exact_values() {
    let t = vec![10, 20];
    assert_eq!(notional_bag_for(&t, 0), 10);
    assert_eq!(notional_bag_for(&t, 5), 10);
    assert_eq!(notional_bag_for(&t, 10), 10);
    assert_eq!(notional_bag_for(&t, 11), 20);
    assert_eq!(notional_bag_for(&t, 20), 20);
    assert_eq!(notional_bag_for(&t, 21), MAX);
    assert_eq!(notional_bag_for(&t, MAX), MAX);
    assert_eq!(notional_bag_for(&vec![], 7), MAX);
    assert_eq!(notional_bag_for(&vec![1, 2, 3], 0), 1);
    assert_eq!(notional_bag_for(&vec![1, 2, 3], 2), 2);
}

#[test]
fn band_resolution_is_monotonic() {
    let t = vec![3, 9, 27, 81];
    let mut last = 0;
    for w in 0..200u64 {
        let b = notional_bag_for(&t, w);
        assert!(b >= w);
        assert!(b >= last);
        last = b;
    }
}

#[test]
fn unsorted_thresholds_are_refused() {
    assert!(VoterList::new(vec![20, 10]).is_none());
    assert!(VoterList::new(vec![10, 10]).is_none());
    assert!(Pallet::new(vec![5, 4]).is_none());
    assert!(VoterList::new(vec![]).is_some());
    assert!(VoterList::new(vec![1, 2, 100]).is_some());
}

#[test]
fn two_bands_scenario() {
    let mut p = Pallet::new(vec![10, 20]).unwrap();
    let a = 1;
    let b = 2;
    assert!(p.on_nominator_insert(a, 5));
    assert_eq!(p.list().get_node(a).unwrap().bag_upper, 10);
    assert!(p.on_nominator_insert(b, 15));
    assert_eq!(p.list().get_node(b).unwrap().bag_upper, 20);
    assert_eq!(ids(p.list()), vec![b, a]);
    assert_eq!(p.do_rebag(a, 25), Some((10, MAX)));
    assert_eq!(ids(p.list()), vec![a, b]);
    assert_eq!(p.events(), vec![Event::Rebagged(a, 10, MAX)]);
    assert_eq!(p.sanity_check(), Ok(()));
}

#[test]
fn migration_scenario() {
    let mut list = VoterList::new(vec![10]).unwrap();
    let c = 3;
    assert!(list.insert_as(c, VoterType::Validator, 12));
    assert_eq!(list.get_node(c).unwrap().bag_upper, MAX);
    assert!(list.migrate(vec![10, 20], &|_id| 12));
    assert_eq!(list.get_node(c).unwrap().bag_upper, 20);
    assert_eq!(list.get_node(c).unwrap().voter_type, VoterType::Validator);
    assert_eq!(list.sanity_check(), Ok(()));
}

#[test]
fn migration_reorders_by_new_bands() {
    let mut list = VoterList::new(vec![]).unwrap();
    for id in 1..=4u64 {
        assert!(list.insert_as(id, VoterType::Nominator, id * 10));
    }
    assert_eq!(ids(&list), vec![1, 2, 3, 4]);
    assert!(list.migrate(vec![15, 35], &|id| id * 10));
    assert_eq!(ids(&list), vec![4, 2, 3, 1]);
    assert_eq!(bands(&list), vec![MAX, 35, 35, 15]);
    assert_eq!(list.count(), 4);
    assert_eq!(list.sanity_check(), Ok(()));
}

#[test]
fn migration_refuses_unsorted_thresholds() {
    let mut list = VoterList::new(vec![10]).unwrap();
    assert!(list.insert_as(1, VoterType::Nominator, 12));
    assert!(!list.migrate(vec![20, 10], &|_id| 12));
    assert_eq!(bands(&list), vec![MAX]);
}

#[test]
fn counter_matches_nodes_after_every_operation() {
    let mut list = VoterList::new(vec![10, 20, 30]).unwrap();
    let ops: Vec<(bool, u64, u64)> = vec![
        (true, 1, 5),
        (true, 2, 25),
        (true, 3, 15),
        (true, 4, 5),
        (false, 2, 0),
        (true, 5, 100),
        (false, 1, 0),
        (false, 9, 0),
        (true, 2, 12),
        (false, 4, 0),
    ];
    let mut live: Vec<u64> = Vec::new();
    for (ins, id, w) in ops {
        if ins {
            assert!(list.insert_as(id, VoterType::Nominator, w));
            live.push(id);
        } else {
            let was = live.contains(&id);
            assert_eq!(list.remove(id).is_some(), was);
            live.retain(|x| *x != id);
        }
        assert_eq!(list.count(), live.len());
        assert_eq!(list.iter().len(), live.len());
        assert_eq!(list.sanity_check(), Ok(()));
        for x in &live {
            assert!(list.contains(*x));
        }
    }
}

#[test]
fn insert_then_remove_restores_list() {
    let mut list = VoterList::new(vec![10, 20]).unwrap();
    assert!(list.insert_as(1, VoterType::Nominator, 5));
    assert!(list.insert_as(2, VoterType::Validator, 15));
    assert!(list.insert_as(3, VoterType::Nominator, 7));
    let before = list.iter();
    let bag_before = list.get_bag(10);
    assert!(list.insert_as(4, VoterType::Nominator, 9));
    assert!(list.remove(4).is_some());
    assert_eq!(list.iter(), before);
    assert_eq!(list.get_bag(10), bag_before);
    assert_eq!(list.get_bag(MAX), None);

    assert!(list.insert_as(5, VoterType::Nominator, 50));
    assert_eq!(list.get_bag(MAX), Some(Bag { bag_upper: MAX, head: 5, tail: 5 }));
    assert!(list.remove(5).is_some());
    assert_eq!(list.iter(), before);
    assert_eq!(list.get_bag(MAX), None);
}

#[test]
fn iteration_is_descending_by_band_then_insertion() {
    let mut list = VoterList::new(vec![10, 20, 30]).unwrap();
    let inserts: Vec<(u64, u64)> = vec![(1, 5), (2, 25), (3, 15), (4, 6), (5, 40), (6, 22), (7, 11), (8, 1)];
    for (id, w) in inserts {
        assert!(list.insert_as(id, VoterType::Nominator, w));
    }
    assert_eq!(ids(&list), vec![5, 2, 6, 3, 7, 1, 4, 8]);
    assert_eq!(bands(&list), vec![MAX, 30, 30, 20, 20, 10, 10, 10]);
    assert_eq!(list.get_bag(10), Some(Bag { bag_upper: 10, head: 1, tail: 8 }));
    assert_eq!(list.get_bag(30), Some(Bag { bag_upper: 30, head: 2, tail: 6 }));
}

#[test]
fn take_truncates_iteration() {
    let mut p = Pallet::new(vec![10]).unwrap();
    assert!(p.on_validator_insert(1, 3));
    assert!(p.on_nominator_insert(2, 30));
    assert!(p.on_nominator_insert(3, 4));
    let first: Vec<u64> = p.get_voters(2).iter().map(|n| n.id).collect();
    assert_eq!(first, vec![2, 1]);
    assert_eq!(p.get_voters(10).len(), 3);
    assert_eq!(p.get_voters(0).len(), 0);
    assert_eq!(p.list().get_node(1).unwrap().voter_type, VoterType::Validator);
    assert_eq!(ids(p.list()), vec![2, 1, 3]);
}

#[test]
fn rebag_within_same_band_is_noop() {
    let mut p = Pallet::new(vec![10, 20]).unwrap();
    assert!(p.on_nominator_insert(1, 12));
    assert!(p.on_nominator_insert(2, 13));
    assert!(p.on_nominator_insert(3, 14));
    let before = p.list().iter();
    assert_eq!(p.do_rebag(1, 19), None);
    assert_eq!(p.do_rebag(2, 11), None);
    assert_eq!(p.list().iter(), before);
    assert_eq!(p.events(), vec![]);
}

#[test]
fn rebag_moves_to_tail_of_new_band() {
    let mut p = Pallet::new(vec![10, 20]).unwrap();
    assert!(p.on_nominator_insert(1, 15));
    assert!(p.on_nominator_insert(2, 3));
    assert!(p.on_nominator_insert(3, 4));
    assert_eq!(p.do_rebag(1, 8), Some((20, 10)));
    assert_eq!(ids(p.list()), vec![2, 3, 1]);
    assert_eq!(p.list().get_bag(20), None);
    assert_eq!(p.list().get_bag(10), Some(Bag { bag_upper: 10, head: 2, tail: 1 }));
    assert_eq!(p.do_rebag(2, 20), Some((10, 20)));
    assert_eq!(ids(p.list()), vec![2, 3, 1]);
    assert_eq!(p.list().get_bag(10), Some(Bag { bag_upper: 10, head: 3, tail: 1 }));
    assert_eq!(p.events(), vec![Event::Rebagged(1, 20, 10), Event::Rebagged(2, 10, 20)]);
}

#[test]
fn rebag_of_absent_voter_does_nothing() {
    let mut p = Pallet::new(vec![10]).unwrap();
    assert_eq!(p.do_rebag(42, 5), None);
    assert_eq!(p.rebag(Origin::Signed(7), 42, 50), Ok(()));
    assert_eq!(p.events(), vec![]);
    assert_eq!(p.list().count(), 0);
}

#[test]
fn rebag_needs_signed_origin() {
    let mut p = Pallet::new(vec![10]).unwrap();
    assert!(p.on_nominator_insert(1, 5));
    assert_eq!(p.rebag(Origin::Root, 1, 50), Err(DispatchError::BadOrigin));
    assert_eq!(p.rebag(Origin::Unsigned, 1, 50), Err(DispatchError::BadOrigin));
    assert_eq!(p.list().get_node(1).unwrap().bag_upper, 10);
    assert_eq!(p.rebag(Origin::Signed(9), 1, 50), Ok(()));
    assert_eq!(p.list().get_node(1).unwrap().bag_upper, MAX);
    assert_eq!(p.events(), vec![Event::Rebagged(1, 10, MAX)]);
}

#[test]
fn hooks_keep_list_in_step() {
    let mut p = Pallet::new(vec![100]).unwrap();
    assert!(p.on_validator_insert(1, 50));
    assert!(!p.on_nominator_insert(1, 500));
    assert_eq!(p.list().get_node(1).unwrap().voter_type, VoterType::Validator);
    assert_eq!(p.list().get_node(1).unwrap().bag_upper, 100);
    p.on_voter_update(1, 500);
    assert_eq!(p.list().get_node(1).unwrap().bag_upper, MAX);
    p.on_voter_remove(1);
    assert!(!p.list().contains(1));
    p.on_voter_remove(1);
    assert_eq!(p.list().count(), 0);
    let ok: Result<(), SanityError> = Ok(());
    assert_eq!(p.sanity_check(), ok);
}

#[test]
fn duplicate_insert_is_refused() {
    let mut list = VoterList::new(vec![10]).unwrap();
    assert!(list.insert_as(1, VoterType::Nominator, 5));
    assert!(!list.insert_as(1, VoterType::Validator, 50));
    assert_eq!(list.count(), 1);
    assert_eq!(bands(&list), vec![10]);
}

#[test]
fn links_follow_band_chains() {
    let mut list = VoterList::new(vec![10, 20]).unwrap();
    assert!(list.insert_as(1, VoterType::Nominator, 5));
    assert!(list.insert_as(2, VoterType::Nominator, 6));
    assert!(list.insert_as(3, VoterType::Nominator, 15));
    assert!(list.insert_as(4, VoterType::Nominator, 7));
    assert_eq!(list.links(3), Some((None, None)));
    assert_eq!(list.links(1), Some((None, Some(2))));
    assert_eq!(list.links(2), Some((Some(1), Some(4))));
    assert_eq!(list.links(4), Some((Some(2), None)));
    assert_eq!(list.links(9), None);
    assert!(list.remove(2).is_some());
    assert_eq!(list.links(1), Some((None, Some(4))));
    assert_eq!(list.links(4), Some((Some(1), None)));
}

#[test]
fn bag_for_reports_current_band() {
    let mut p = Pallet::new(vec![10, 20]).unwrap();
    assert!(p.on_nominator_insert(1, 5));
    assert_eq!(p.list().bag_for(1), Some(10));
    assert_eq!(p.list().bag_for(2), None);
    assert_eq!(p.do_rebag(1, 15), Some((10, 20)));
    assert_eq!(p.list().bag_for(1), Some(20));
    p.on_voter_remove(1);
    assert_eq!(p.list().bag_for(1), None);
}

#[test]
fn moved_voter_leaves_old_bag_empty() {
    let mut p = Pallet::new(vec![10, 20]).unwrap();
    assert!(p.on_nominator_insert(1, 5));
    assert!(p.on_nominator_insert(2, 25));
    assert_eq!(p.list().get_bag(10), Some(Bag { bag_upper: 10, head: 1, tail: 1 }));
    assert_eq!(p.do_rebag(1, 30), Some((10, MAX)));
    assert_eq!(p.list().get_bag(10), None);
    assert_eq!(p.list().get_bag(MAX), Some(Bag { bag_upper: MAX, head: 2, tail: 1 }));
    assert_eq!(p.list().links(1), Some((Some(2), None)));
}
