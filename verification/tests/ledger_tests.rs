use clerk::ledger::Ledger;
use clerk::resource::{ResourceKind, KIND_COUNT};

#[test]
fn codes_round_trip_and_follow_name_order() {
    let kinds = [
        ResourceKind::Carbon,
        ResourceKind::Hydrogen,
        ResourceKind::Oxygen,
        ResourceKind::Silicon,
    ];
    for (i, k) in kinds.iter().enumerate() {
        assert_eq!(k.code() as usize, i);
        assert_eq!(ResourceKind::from_code(k.code()), Some(*k));
    }
    assert_eq!(ResourceKind::from_code(KIND_COUNT), None);
    assert_eq!(ResourceKind::from_code(200), None);
    let mut names: Vec<String> = kinds.iter().map(|k| format!("{:?}", k)).collect();
    let sorted = {
        let mut v = names.clone();
        v.sort();
        v
    };
    assert_eq!(names, sorted);
    names.dedup();
    assert_eq!(names.len(), 4);
}

#[test]
fn empty_ledger_has_no_leader() {
    let ledger = Ledger::default();
    assert_eq!(ledger.leader(), None);
    assert!(ledger.counts().is_empty());
}

#[test]
fn first_record_reports_new_leader_with_count_one() {
    let mut ledger = Ledger::default();
    assert_eq!(ledger.record(ResourceKind::Oxygen), Some((ResourceKind::Oxygen, 1)));
    assert_eq!(ledger.leader(), Some((ResourceKind::Oxygen, 1)));
    assert_eq!(ledger.counts().get(&ResourceKind::Oxygen.code()), Some(&1));
}

#[test]
fn same_leader_is_not_reported_again() {
    let mut ledger = Ledger::default();
    ledger.record(ResourceKind::Hydrogen);
    assert_eq!(ledger.record(ResourceKind::Hydrogen), None);
    assert_eq!(ledger.leader(), Some((ResourceKind::Hydrogen, 2)));
}

#[test]
fn ties_go_to_the_name_that_sorts_first() {
    let mut ledger = Ledger::default();
    assert_eq!(ledger.record(ResourceKind::Silicon), Some((ResourceKind::Silicon, 1)));
    // Carbon ties Silicon at one and sorts first: the lead changes hands.
    assert_eq!(ledger.record(ResourceKind::Carbon), Some((ResourceKind::Carbon, 1)));
    // Oxygen ties at one but sorts after Carbon: no change.
    assert_eq!(ledger.record(ResourceKind::Oxygen), None);
    assert_eq!(ledger.leader(), Some((ResourceKind::Carbon, 1)));
    // Oxygen at two overtakes.
    assert_eq!(ledger.record(ResourceKind::Oxygen), Some((ResourceKind::Oxygen, 2)));
}

#[test]
fn new_leader_is_old_leader_or_recorded_kind() {
    let mut ledger = Ledger::default();
    let sequence = [
        ResourceKind::Oxygen,
        ResourceKind::Carbon,
        ResourceKind::Carbon,
        ResourceKind::Silicon,
        ResourceKind::Silicon,
        ResourceKind::Silicon,
        ResourceKind::Hydrogen,
    ];
    for k in sequence {
        let before = ledger.leader().map(|(l, _)| l);
        let reported = ledger.record(k);
        let after = ledger.leader().unwrap().0;
        assert!(after == k || Some(after) == before);
        if Some(after) == before {
            assert_eq!(reported, None);
        } else {
            assert_eq!(reported, ledger.leader());
        }
    }
    assert_eq!(ledger.leader(), Some((ResourceKind::Silicon, 3)));
    let counts = ledger.counts();
    assert_eq!(counts.len(), 4);
    assert_eq!(counts.get(&ResourceKind::Carbon.code()), Some(&2));
    assert_eq!(counts.get(&ResourceKind::Hydrogen.code()), Some(&1));
}

#[test]
fn debug_text_is_the_kind_name() {
    assert_eq!(format!("{:?}", ResourceKind::Carbon), "Carbon");
    assert_eq!(format!("{:?}", ResourceKind::Hydrogen), "Hydrogen");
    assert_eq!(format!("{:?}", ResourceKind::Oxygen), "Oxygen");
    assert_eq!(format!("{:?}", ResourceKind::Silicon), "Silicon");
}

#[test]
fn counts_after_a_sequence_are_occurrences() {
    let rs = [
        ResourceKind::Oxygen,
        ResourceKind::Silicon,
        ResourceKind::Oxygen,
        ResourceKind::Oxygen,
        ResourceKind::Silicon,
    ];
    let mut ledger = Ledger::default();
    for r in rs {
        ledger.record(r);
    }
    for k in [
        ResourceKind::Carbon,
        ResourceKind::Hydrogen,
        ResourceKind::Oxygen,
        ResourceKind::Silicon,
    ] {
        let n = rs.iter().filter(|r| **r == k).count() as u32;
        let expected = if n == 0 { None } else { Some(&n) };
        assert_eq!(ledger.counts().get(&k.code()), expected);
    }
}
