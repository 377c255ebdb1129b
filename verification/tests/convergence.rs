use spatial_annotation_sync::crdt::{
    AnnotationId, Point, SpatialAnnotation, SpatialEnvironment, Timestamp, UserId,
};

/// A small deterministic generator, so that the same cases run every time.
struct Lcg(u64);

impl Lcg {
    fn next(&mut self) -> u64 {
        self.0 = self.0.wrapping_mul(6364136223846793005).wrapping_add(1442695040888963407);
        self.0 >> 33
    }

    fn below(&mut self, n: u64) -> u64 {
        self.next() % n
    }
}

enum Operation {
    Create(SpatialAnnotation),
    Update(SpatialAnnotation),
    Delete(AnnotationId),
}

fn random_part(rng: &mut Lcg) -> (Point, String) {
    let x = rng.below(201) as i32 - 100;
    let y = rng.below(201) as i32 - 100;
    let len = rng.below(21) as usize;
    const ALPHABET: &[u8] = b"abcdefghijklmnopqrstuvwxyzABCDEFGHIJKLMNOPQRSTUVWXYZ0123456789 ";
    let text: String = (0..len)
        .map(|_| ALPHABET[rng.below(ALPHABET.len() as u64) as usize] as char)
        .collect();
    (Point(x, y), text)
}

/// Up to nine operations of one peer; most identifiers are shared between peers.
fn operations(peer_tag: u128, rng: &mut Lcg) -> Vec<Operation> {
    let count = 1 + rng.below(9);
    let mut known: Vec<AnnotationId> = Vec::new();
    let mut result = Vec::new();
    let mut next_id = 0u128;
    for _ in 0..count {
        match rng.below(3) {
            0 => {
                let id = if rng.below(10) < 8 {
                    next_id += 1;
                    AnnotationId::new(next_id)
                } else {
                    AnnotationId::new(peer_tag << 96 | next_id)
                };
                let (coord, text) = random_part(rng);
                known.push(id);
                result.push(Operation::Create(SpatialAnnotation::new(Some(id), coord, text)));
            }
            1 => {
                if known.is_empty() {
                    continue;
                }
                let id = known[rng.below(known.len() as u64) as usize];
                let (coord, text) = random_part(rng);
                result.push(Operation::Update(SpatialAnnotation::new(Some(id), coord, text)));
            }
            _ => {
                if known.is_empty() {
                    continue;
                }
                let id = known[rng.below(known.len() as u64) as usize];
                result.push(Operation::Delete(id));
            }
        }
    }
    result
}

fn load_env(ops: Vec<Operation>, env: &mut SpatialEnvironment) {
    for op in ops {
        match op {
            Operation::Create(ann) => {
                env.create_annotation(ann);
            }
            Operation::Update(ann) => {
                env.update_annotation(ann);
            }
            Operation::Delete(id) => {
                env.delete_annotation(id);
            }
        }
    }
}

fn loaded(peer_tag: u128, rng: &mut Lcg) -> SpatialEnvironment {
    let mut env = SpatialEnvironment::new();
    load_env(operations(peer_tag, rng), &mut env);
    env
}

#[test]
fn commutativity() {
    let mut rng = Lcg(1);
    for _ in 0..200 {
        let env_a = loaded(1, &mut rng);
        let env_b = loaded(2, &mut rng);

        let mut a_b = env_a.clone();
        a_b.merge(env_b.clone());
        let mut b_a = env_b.clone();
        b_a.merge(env_a.clone());

        assert!(a_b.has_same_data(&b_a));
    }
}

#[test]
fn associativity() {
    let mut rng = Lcg(2);
    for _ in 0..200 {
        let env_a = loaded(1, &mut rng);
        let env_b = loaded(2, &mut rng);
        let env_c = loaded(3, &mut rng);

        let mut ab_c = env_a.clone();
        ab_c.merge(env_b.clone());
        ab_c.merge(env_c.clone());

        let mut bc = env_b.clone();
        bc.merge(env_c.clone());
        let mut a_bc = env_a.clone();
        a_bc.merge(bc);

        assert!(ab_c.has_same_data(&a_bc), "'merge(merge(a b), c)' should be the same as 'merge(a, merge(b, c)'");
    }
}

#[test]
fn idempotence() {
    let mut rng = Lcg(3);
    for _ in 0..200 {
        let env_a = loaded(1, &mut rng);
        let mut a_a = env_a.clone();
        a_a.merge(env_a.clone());
        assert!(env_a.has_same_data(&a_a));
    }
}

#[test]
fn later_coordinate_write_wins() {
    // Alice moves the annotation to (1, 2), Bob later to (4, 5, ...): both end at Bob's.
    let id = AnnotationId::new(42);
    let mut alice = SpatialEnvironment::with_user(UserId(1));
    let mut bob = SpatialEnvironment::with_user(UserId(2));
    alice.create_annotation_with_datetime(
        SpatialAnnotation::new(Some(id), Point(1, 2), String::from("lamp")),
        Timestamp::new(100, 0),
    );
    bob.create_annotation_with_datetime(
        SpatialAnnotation::new(Some(id), Point(4, 5), String::from("lamp")),
        Timestamp::new(100, 1),
    );
    let mut alice_after = alice.clone();
    alice_after.merge(bob.clone());
    let mut bob_after = bob.clone();
    bob_after.merge(alice.clone());
    assert!(alice_after.has_same_data(&bob_after));
    let seen = alice_after.read_annotation(id).expect("kept");
    assert_eq!(seen.get_coord(), Some(&Point(4, 5)));
}

fn delete_versus_edit(edit_secs: i64) -> Option<SpatialAnnotation> {
    let id = AnnotationId::new(7);
    let mut alice = SpatialEnvironment::with_user(UserId(1));
    let mut bob = SpatialEnvironment::with_user(UserId(2));
    // Alice's deletion at T=10: both fields edited to nothing.
    let mut deleted = SpatialAnnotation::new(Some(id), Point(0, 0), String::new());
    deleted.update_coord(None);
    deleted.update_text(None);
    alice.create_annotation_with_datetime(deleted, Timestamp::new(10, 0));
    bob.create_annotation_with_datetime(
        SpatialAnnotation::new(Some(id), Point(3, 3), String::from("Bob's note")),
        Timestamp::new(edit_secs, 0),
    );
    let mut alice_after = alice.clone();
    alice_after.merge(bob.clone());
    let mut bob_after = bob;
    bob_after.merge(alice);
    assert!(alice_after.has_same_data(&bob_after));
    alice_after.read_annotation(id)
}

#[test]
fn later_delete_beats_earlier_edit() {
    let seen = delete_versus_edit(8).expect("the deleted annotation stays stored");
    assert_eq!(seen.get_coord(), None);
    assert_eq!(seen.get_text(), None);
}

#[test]
fn later_edit_beats_earlier_delete() {
    let seen = delete_versus_edit(12).expect("stored");
    assert_eq!(seen.get_coord(), Some(&Point(3, 3)));
    assert_eq!(seen.get_text().map(|s| s.as_str()), Some("Bob's note"));
}

#[test]
fn equal_times_lower_user_wins() {
    let id = AnnotationId::new(9);
    let mut low = SpatialEnvironment::with_user(UserId(1));
    let mut high = SpatialEnvironment::with_user(UserId(2));
    low.create_annotation_with_datetime(
        SpatialAnnotation::new(Some(id), Point(1, 1), String::from("low")),
        Timestamp::new(5, 5),
    );
    high.create_annotation_with_datetime(
        SpatialAnnotation::new(Some(id), Point(2, 2), String::from("high")),
        Timestamp::new(5, 5),
    );
    high.merge(low);
    let seen = high.read_annotation(id).expect("stored");
    assert_eq!(seen.get_text().map(|s| s.as_str()), Some("low"));
}

/// Two replicas that hold the same annotation, as after a sync.
fn synced(id: AnnotationId) -> (SpatialEnvironment, SpatialEnvironment) {
    let mut alice = SpatialEnvironment::with_user(UserId(1));
    let mut bob = SpatialEnvironment::with_user(UserId(2));
    let start = SpatialAnnotation::new(Some(id), Point(0, 0), String::from("shared"));
    alice.create_annotation_with_datetime(start.clone(), Timestamp::new(1, 0));
    bob.merge(alice.clone());
    assert!(alice.has_same_data(&bob));
    (alice, bob)
}

fn exchange(alice: SpatialEnvironment, bob: SpatialEnvironment) -> (SpatialEnvironment, SpatialEnvironment) {
    let mut alice_after = alice.clone();
    alice_after.merge(bob.clone());
    let mut bob_after = bob;
    bob_after.merge(alice);
    assert!(alice_after.has_same_data(&bob_after));
    (alice_after, bob_after)
}

#[test]
fn scenario_concurrent_coordinate_edits() {
    let id = AnnotationId::new(21);
    let (mut alice, mut bob) = synced(id);
    alice.update_annotation_with_datetime(
        SpatialAnnotation::new(Some(id), Point(1, 2), String::from("shared")),
        Timestamp::new(10, 0),
    );
    bob.update_annotation_with_datetime(
        SpatialAnnotation::new(Some(id), Point(4, 5), String::from("shared")),
        Timestamp::new(11, 0),
    );
    let (alice, bob) = exchange(alice, bob);
    for env in [alice, bob] {
        assert_eq!(env.read_annotation(id).expect("stored").get_coord(), Some(&Point(4, 5)));
    }
}

fn scenario_delete_versus_text_edit(edit_secs: i64) -> SpatialAnnotation {
    let id = AnnotationId::new(22);
    let (mut alice, mut bob) = synced(id);
    alice.delete_annotation_with_datetime(id, Timestamp::new(10, 0)).expect("stored");
    bob.update_annotation_with_datetime(
        SpatialAnnotation::new(Some(id), Point(0, 0), String::from("Bob's text")),
        Timestamp::new(edit_secs, 0),
    );
    let (alice, bob) = exchange(alice, bob);
    let seen = alice.read_annotation(id).expect("stored");
    assert_eq!(bob.read_annotation(id), Some(seen.clone()));
    seen
}

#[test]
fn scenario_delete_after_edit_deletes() {
    let seen = scenario_delete_versus_text_edit(8);
    assert_eq!(seen.get_coord(), None);
    assert_eq!(seen.get_text(), None);
}

#[test]
fn scenario_edit_after_delete_survives_with_edited_content() {
    let seen = scenario_delete_versus_text_edit(12);
    assert_eq!(seen, SpatialAnnotation::new(Some(AnnotationId::new(22)), Point(0, 0), String::from("Bob's text")));
}
