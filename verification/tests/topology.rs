use cisat::frame::{next_size, Frame, Member, DEFAULT_SIZE, FIXED_JOINTS, MAX_JOINTS, SIZE_COUNT};

/// The seed bridge, with each joint labelled by its seed index.
fn seed() -> Frame<usize> {
    Frame::seed((0..9).collect())
}

/// Integer invariants of a design: fixed joints in place, valid members, no duplicates.
fn invariants(f: &Frame<usize>) {
    assert_eq!(&f.joints()[..FIXED_JOINTS], &[0, 1, 2, 3, 4]);
    assert!(f.joint_count() >= FIXED_JOINTS && f.joint_count() <= MAX_JOINTS);
    let members = f.members();
    for (i, m) in members.iter().enumerate() {
        assert!(m.start < f.joint_count() && m.end < f.joint_count() && m.start != m.end);
        assert!(m.size < SIZE_COUNT);
        assert!(!members[..i].iter().any(|o| (o.start == m.start && o.end == m.end)
            || (o.start == m.end && o.end == m.start)));
    }
}

#[test]
fn seed_bridge_has_nine_joints_and_fifteen_members() {
    let f = seed();
    assert_eq!(f.joint_count(), 9);
    assert_eq!(f.member_count(), 15);
    assert!(f.members().iter().all(|m| m.size == DEFAULT_SIZE));
    assert_eq!(f.members()[8], Member { start: 5, end: 1, size: 4 });
    invariants(&f);
}

#[test]
fn next_size_steps_within_the_catalogue() {
    assert_eq!(next_size(4, true), 5);
    assert_eq!(next_size(4, false), 3);
    assert_eq!(next_size(8, true), 9);
    assert_eq!(next_size(9, true), 9);
    assert_eq!(next_size(0, false), 0);
    assert_eq!(next_size(1, false), 0);
}

#[test]
fn removing_a_joint_drops_its_members_and_renumbers() {
    let mut f = seed();
    f.remove_joint_at(6);
    assert_eq!(f.joints(), &vec![0, 1, 2, 3, 4, 5, 7, 8]);
    // Members (5,6), (6,7), (1,6), (6,2) touched joint 6 and are gone.
    assert_eq!(f.member_count(), 11);
    let pairs: Vec<(usize, usize)> = f.members().iter().map(|m| (m.start, m.end)).collect();
    assert_eq!(
        pairs,
        vec![(0, 1), (1, 2), (2, 3), (3, 4), (6, 7), (0, 5), (5, 1), (2, 6), (6, 3), (3, 7), (7, 4)]
    );
    invariants(&f);
}

#[test]
fn open_pairs_are_exactly_the_unconnected_pairs_in_order() {
    let f = seed();
    let pairs = f.open_pairs();
    assert_eq!(pairs.len(), 36 - 15);
    assert!(pairs.windows(2).all(|w| w[0] < w[1]));
    for &(a, b) in &pairs {
        assert!(a < b && !f.is_connected(a, b));
    }
    assert_eq!(pairs[0], (0, 2));
    assert!(f.is_connected(1, 5) && f.is_connected(5, 1));
}

#[test]
fn random_moves_change_the_design_as_documented() {
    let s = seed();
    let mut c = s.clone();
    c.remove_joint();
    assert_eq!(c.joint_count(), s.joint_count() - 1);
    invariants(&c);

    let mut c = s.clone();
    c.add_member();
    assert_eq!(c.member_count(), s.member_count() + 1);
    let added = c.members()[s.member_count()];
    assert!(added.start < added.end && !s.is_connected(added.start, added.end));
    invariants(&c);

    let mut c = s.clone();
    c.remove_member();
    assert_eq!(c.member_count(), s.member_count() - 1);
    invariants(&c);

    let mut c = s.clone();
    c.change_size_single();
    assert_eq!(
        c.members().iter().zip(s.members()).filter(|(a, b)| a.size != b.size).count(),
        1
    );
    invariants(&c);

    let mut c = s.clone();
    c.change_size_all();
    assert!(c.members().iter().all(|m| m.size != 4));
    invariants(&c);
}

#[test]
fn moves_without_a_target_leave_the_design_unchanged() {
    let mut f = Frame::seed((0..9).collect::<Vec<usize>>());
    for i in (FIXED_JOINTS..9).rev() {
        f.remove_joint_at(i);
    }
    assert_eq!(f.joint_count(), FIXED_JOINTS);
    assert_eq!(f.pick_free_joint(), None);
    let before = f.members().clone();
    f.remove_joint();
    assert_eq!(f.joint_count(), FIXED_JOINTS);
    assert_eq!(f.members(), &before);
    while f.member_count() > 0 {
        f.remove_member();
    }
    f.remove_member();
    f.change_size_single();
    f.change_size_all();
    assert_eq!(f.member_count(), 0);
    // Five joints, no members: every one of the ten pairs is open.
    assert_eq!(f.open_pairs().len(), 10);
    for _ in 0..10 {
        f.add_member();
    }
    assert_eq!(f.member_count(), 10);
    f.add_member();
    assert_eq!(f.member_count(), 10);
    assert!(f.open_pairs().is_empty());
    invariants(&f);
}

#[test]
fn attaching_a_joint_connects_three_neighbours_up_to_the_limit() {
    let mut f = seed();
    f.attach_joint(100, &vec![7, 2, 5, 0, 1, 3, 4, 6, 8]);
    assert_eq!(f.joint_count(), 10);
    assert_eq!(f.joints()[9], 100);
    let tail: Vec<(usize, usize, usize)> = f.members()[15..].iter().map(|m| (m.start, m.end, m.size)).collect();
    assert_eq!(tail, vec![(7, 9, 4), (2, 9, 4), (5, 9, 4)]);
    invariants(&f);
    while f.joint_count() < MAX_JOINTS {
        let order: Vec<usize> = (0..f.joint_count()).rev().collect();
        f.attach_joint(200 + f.joint_count(), &order);
        invariants(&f);
    }
    let members = f.member_count();
    f.attach_joint(999, &vec![0, 1, 2]);
    assert_eq!(f.joint_count(), MAX_JOINTS);
    assert_eq!(f.member_count(), members);
}

#[test]
fn placing_a_free_joint_keeps_the_members() {
    let mut f = seed();
    let index = f.pick_free_joint().unwrap();
    assert!(index >= FIXED_JOINTS && index < 9);
    let members = f.members().clone();
    f.place_joint(index, 42);
    assert_eq!(f.joints()[index], 42);
    assert_eq!(f.members(), &members);
    invariants(&f);
}

#[test]
fn long_random_walks_keep_the_invariants() {
    let mut f = seed();
    let mut label = 1000;
    for round in 0..30 {
        f.remove_joint();
        invariants(&f);
        f.add_member();
        invariants(&f);
        f.remove_member();
        invariants(&f);
        f.change_size_single();
        invariants(&f);
        f.change_size_all();
        invariants(&f);
        if let Some(i) = f.pick_free_joint() {
            f.place_joint(i, label);
            label += 1;
        }
        invariants(&f);
        let order: Vec<usize> = (0..f.joint_count()).map(|k| (k + round) % f.joint_count()).collect();
        f.attach_joint(label, &order);
        label += 1;
        invariants(&f);
    }
}

#[test]
fn random_choices_spread_over_their_range() {
    let s = seed();
    let mut removed = std::collections::BTreeSet::new();
    let mut added = std::collections::BTreeSet::new();
    let mut directions = std::collections::BTreeSet::new();
    for _ in 0..400 {
        let mut c = s.clone();
        c.remove_joint();
        let gone = (0..9).find(|j| !c.joints().contains(j)).unwrap();
        assert!(gone >= FIXED_JOINTS);
        removed.insert(gone);

        let mut c = s.clone();
        c.add_member();
        let m = c.members()[15];
        added.insert((m.start, m.end));

        let mut c = s.clone();
        c.change_size_all();
        directions.insert(c.members()[0].size);
    }
    assert_eq!(removed.len(), 4);
    assert!(added.len() > 1);
    assert_eq!(directions, [3, 5].into_iter().collect());
}
