use dawnsearch::best::{BestResults, NodeReference};

#[test]
fn fills_then_replaces_worst() {
    let mut best = BestResults::new(3);
    assert!(best.insert(NodeReference { id: 1, distance: 50 }));
    assert!(best.insert(NodeReference { id: 2, distance: 30 }));
    assert!(best.insert(NodeReference { id: 3, distance: 40 }));
    // full now; the worst member is tracked
    assert_eq!(best.worst_distance(), 50);
    // worse than the worst: rejected
    assert!(!best.insert(NodeReference { id: 4, distance: 60 }));
    assert_eq!(best.len(), 3);
    // better: replaces the worst, and the worst is recomputed
    assert!(best.insert(NodeReference { id: 5, distance: 10 }));
    assert_eq!(best.worst_distance(), 40);
    assert_eq!(best.len(), 3);
}

#[test]
fn rejects_duplicate_ids() {
    let mut best = BestResults::new(5);
    assert!(best.insert(NodeReference { id: 7, distance: 10 }));
    assert!(!best.insert(NodeReference { id: 7, distance: 5 }));
    assert_eq!(best.len(), 1);
}

#[test]
fn sort_orders_ascending_and_pins_worst_last() {
    let mut best = BestResults::new(4);
    best.insert(NodeReference { id: 1, distance: 40 });
    best.insert(NodeReference { id: 2, distance: 10 });
    best.insert(NodeReference { id: 3, distance: 30 });
    best.insert(NodeReference { id: 4, distance: 20 });
    best.sort();
    let rs = best.results();
    assert_eq!(rs.len(), 4);
    assert_eq!(rs[0].distance, 10);
    assert_eq!(rs[1].distance, 20);
    assert_eq!(rs[2].distance, 30);
    assert_eq!(rs[3].distance, 40);
    assert_eq!(best.worst_distance(), 40);
}

#[test]
fn never_grows_past_capacity() {
    let mut best = BestResults::new(2);
    for i in 0..10u64 {
        best.insert(NodeReference { id: i as usize, distance: 100 - i });
    }
    assert_eq!(best.len(), 2);
    best.sort();
    // the two smallest distances remain
    assert_eq!(best.results()[0].distance, 91);
    assert_eq!(best.results()[1].distance, 92);
}

#[test]
fn clear_empties() {
    let mut best = BestResults::new(2);
    best.insert(NodeReference { id: 0, distance: 1 });
    best.clear();
    assert_eq!(best.len(), 0);
}
