use terrain::physics::PhysicsRegistry;

fn sorted(mut v: Vec<usize>) -> Vec<usize> {
    v.sort();
    v
}

#[test]
fn a_new_registry_holds_no_body() {
    let registry = PhysicsRegistry::new();
    assert!(!registry.is_registered(0));
    assert!(!registry.is_registered(10));
}

#[test]
fn the_first_frame_adds_every_drawn_chunk() {
    let mut registry = PhysicsRegistry::new();
    let changes = registry.sync(&vec![10, 11, 12]);
    assert_eq!(changes.added, vec![10, 11, 12]);
    assert!(changes.removed.is_empty());
    assert!(registry.is_registered(10));
    assert!(registry.is_registered(11));
    assert!(registry.is_registered(12));
    assert!(!registry.is_registered(13));
}

#[test]
fn registered_uids_are_the_drawn_uids_after_every_frame() {
    let mut registry = PhysicsRegistry::new();
    let frames: Vec<Vec<usize>> = vec![
        vec![1, 2, 3],
        vec![2, 3, 4],
        vec![],
        vec![9, 9, 1],
        vec![1, 9],
        vec![5, 6, 7, 8],
    ];
    let mut registered: Vec<usize> = vec![];
    for drawn in frames {
        let changes = registry.sync(&drawn);
        let mut expected_added: Vec<usize> = vec![];
        for uid in &drawn {
            if !registered.contains(uid) && !expected_added.contains(uid) {
                expected_added.push(*uid);
            }
        }
        let expected_removed: Vec<usize> =
            registered.iter().cloned().filter(|uid| !drawn.contains(uid)).collect();
        assert_eq!(sorted(changes.added), sorted(expected_added));
        assert_eq!(sorted(changes.removed), sorted(expected_removed));
        registered = drawn.clone();
        for uid in 0..12 {
            assert_eq!(registry.is_registered(uid), registered.contains(&uid));
        }
    }
}

#[test]
fn a_chunk_drawn_twice_gets_one_body() {
    let mut registry = PhysicsRegistry::new();
    let changes = registry.sync(&vec![4, 4, 4]);
    assert_eq!(changes.added, vec![4]);
    let changes = registry.sync(&vec![4]);
    assert!(changes.added.is_empty());
    assert!(changes.removed.is_empty());
}

#[test]
fn a_chunk_that_is_no_longer_drawn_loses_its_body() {
    let mut registry = PhysicsRegistry::new();
    registry.sync(&vec![1, 2]);
    let changes = registry.sync(&vec![2]);
    assert!(changes.added.is_empty());
    assert_eq!(changes.removed, vec![1]);
    assert!(!registry.is_registered(1));
    assert!(registry.is_registered(2));
}

#[test]
fn changes_come_in_the_order_of_drawing_and_of_registration() {
    let mut registry = PhysicsRegistry::new();
    let changes = registry.sync(&vec![7, 3, 7, 5, 3, 1]);
    assert_eq!(changes.added, vec![7, 3, 5, 1]);
    assert!(changes.removed.is_empty());
    // 4 and 9 are new; 7, 5 and 1 go, in the order in which they came.
    let changes = registry.sync(&vec![4, 3, 9, 4]);
    assert_eq!(changes.added, vec![4, 9]);
    assert_eq!(changes.removed, vec![7, 5, 1]);
    let changes = registry.sync(&vec![]);
    assert!(changes.added.is_empty());
    assert_eq!(changes.removed, vec![4, 3, 9]);
}
