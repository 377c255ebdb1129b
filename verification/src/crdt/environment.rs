//! A replica's set of annotations, and how replicas merge.

use vstd::prelude::*;
use std::collections::HashMap;
use super::annotation::{
    annotation_edited, lemma_later_edit_wins, merge_annotation, AnnotationState, AnnotationView, SpatialAnnotation,
    SpatialAnnotationInternal,
};
use super::clock::{is_later, Timestamp};
use super::ids::{is_v4_uuid, AnnotationId, UserId};
use super::register::{
    compatible, lemma_merge_state_associative, lemma_merge_state_commutative,
    lemma_merge_keeps_later_edit, lemma_merge_state_idempotent, RegisterState,
};
use vstd::std_specs::iter::IteratorSpec;

verus! {

broadcast use vstd::std_specs::hash::group_hash_axioms;

/// The stored annotations of a replica, keyed by the value of their identifier.
pub type EnvironmentView = Map<u128, AnnotationState>;

/// Every stored annotation sits under its own identifier.
pub open spec fn keyed_by_id(m: EnvironmentView) -> bool {
    forall|k: u128| #[trigger] m.contains_key(k) ==> m[k].id.0 == k
}

/// The annotation that `annotation` becomes when `user` stores it under `id`
/// at time `time`.
pub open spec fn stored_state(
    id: AnnotationId,
    annotation: AnnotationView,
    user: UserId,
    time: Timestamp,
) -> AnnotationState {
    AnnotationState {
        id,
        coord: RegisterState { value: annotation.coord, user, time },
        text: RegisterState { value: annotation.text, user, time },
    }
}

/// What users see of a stored annotation.
pub open spec fn visible(s: AnnotationState) -> AnnotationView {
    AnnotationView { id: Some(s.id), coord: s.coord.value, text: s.text.value }
}

/// The replica `a` after the replica `b` has been merged into it: every
/// annotation of either, and where both hold one, the two merged.
pub open spec fn merge_maps(a: EnvironmentView, b: EnvironmentView) -> EnvironmentView {
    Map::new(
        |k: u128| a.contains_key(k) || b.contains_key(k),
        |k: u128|
            if a.contains_key(k) && b.contains_key(k) {
                merge_annotation(a[k], b[k])
            } else if a.contains_key(k) {
                a[k]
            } else {
                b[k]
            },
    )
}

/// Two copies of one annotation, each register of which is compatible.
pub open spec fn annotations_compatible(a: AnnotationState, b: AnnotationState) -> bool {
    compatible(a.coord, b.coord) && compatible(a.text, b.text)
}

/// Where two replicas hold the same annotation, their copies are compatible.
pub open spec fn replicas_compatible(a: EnvironmentView, b: EnvironmentView) -> bool {
    forall|k: u128|
        a.contains_key(k) && b.contains_key(k) ==> annotations_compatible(
            #[trigger] a[k],
            #[trigger] b[k],
        )
}

/// A replica: the user that edits it and the annotations it holds.
#[derive(Debug, Clone, PartialEq)]
pub struct SpatialEnvironment {
    user: UserId,
    data: HashMap<u128, SpatialAnnotationInternal>,
}

impl View for SpatialEnvironment {
    type V = EnvironmentView;

    closed spec fn view(&self) -> EnvironmentView {
        self.data@.map_values(|a: SpatialAnnotationInternal| a@)
    }
}

impl SpatialEnvironment {
    /// The user whose edits this replica makes.
    pub closed spec fn owner(&self) -> UserId {
        self.user
    }

    /// The replica is well formed: each annotation sits under its own identifier.
    pub open spec fn wf(&self) -> bool {
        keyed_by_id(self@)
    }

    /// An empty replica edited by a fresh random user.
    #[must_use]
    pub fn new() -> (r: Self)
        ensures
            r@ == Map::<u128, AnnotationState>::empty(),
            is_v4_uuid(r.owner().0),
            r.wf(),
    {
        Self::with_user(UserId::random())
    }

    /// An empty replica edited by `user`.
    #[must_use]
    pub fn with_user(user: UserId) -> (r: Self)
        ensures
            r@ == Map::<u128, AnnotationState>::empty(),
            r.owner() == user,
            r.wf(),
    {
        let r = Self { user, data: HashMap::new() };
        assert(r@ =~= Map::<u128, AnnotationState>::empty());
        r
    }

    /// The user whose edits this replica makes.
    pub fn user(&self) -> (r: UserId)
        ensures
            r == self.owner(),
    {
        self.user
    }

    /// The number of stored annotations, deleted ones included.
    #[must_use]
    pub fn len(&self) -> (r: usize)
        ensures
            r == self@.len(),
    {
        assert(self@.dom() =~= self.data@.dom());
        self.data.len()
    }

    /// Whether no annotation is stored.
    #[must_use]
    pub fn is_empty(&self) -> (r: bool)
        ensures
            r == (self@.len() == 0),
    {
        assert(self@.dom() =~= self.data@.dom());
        self.data.is_empty()
    }
}


impl SpatialEnvironment {
    /// Stores `annotation` as an edit of this replica's user at the current
    /// time, under its own identifier or, where it has none, a fresh random
    /// one, and returns that identifier. An annotation stored under the same
    /// identifier before is replaced.
    pub fn create_annotation(&mut self, annotation: SpatialAnnotation) -> (r: AnnotationId)
        requires
            old(self).wf(),
        ensures
            final(self).wf(),
            final(self).owner() == old(self).owner(),
            annotation@.id matches Some(id) ==> r == id,
            annotation@.id is None ==> is_v4_uuid(r.0),
            final(self)@ == old(self)@.insert(
                r.0,
                stored_state(r, annotation@, old(self).owner(), final(self)@[r.0].coord.time),
            ),
            final(self)@[r.0].coord.time.nanos < 1_000_000_000,
    {
        let now = Timestamp::now();
        self.create_annotation_with_datetime(annotation, now)
    }

    /// Stores `annotation` as an edit of this replica's user at `datetime`,
    /// under its own identifier or, where it has none, a fresh random one, and
    /// returns that identifier. An annotation stored under the same identifier
    /// before is replaced.
    pub fn create_annotation_with_datetime(
        &mut self,
        annotation: SpatialAnnotation,
        datetime: Timestamp,
    ) -> (r: AnnotationId)
        requires
            old(self).wf(),
        ensures
            final(self).wf(),
            final(self).owner() == old(self).owner(),
            annotation@.id matches Some(id) ==> r == id,
            annotation@.id is None ==> is_v4_uuid(r.0),
            final(self)@ == old(self)@.insert(
                r.0,
                stored_state(r, annotation@, old(self).owner(), datetime),
            ),
    {
        let ghost view = annotation@;
        let annotation = SpatialAnnotationInternal::new(annotation, self.user, datetime);
        let id = annotation.annotation_id();
        assert(annotation@ == stored_state(id, view, self.user, datetime));
        self.data.insert(id.0, annotation);
        assert(self@ =~= old(self)@.insert(id.0, stored_state(id, view, self.user, datetime)));
        id
    }

    /// What users see of the annotation stored under `annotation_id`, if any.
    pub fn read_annotation(&self, annotation_id: AnnotationId) -> (r: Option<SpatialAnnotation>)
        ensures
            r is Some <==> self@.contains_key(annotation_id.0),
            r matches Some(a) ==> a@ == visible(self@[annotation_id.0]),
    {
        match self.data.get(&annotation_id.0) {
            Some(stored) => Some(stored.to_annotation()),
            None => None,
        }
    }
}


/// The replica `after` is `before` with the annotation under `id` edited
/// with the fields of `annotation` by `user` at `time`; where nothing is
/// stored under `id`, nothing changes.
pub open spec fn edited_at(
    before: EnvironmentView,
    after: EnvironmentView,
    id: AnnotationId,
    annotation: AnnotationView,
    user: UserId,
    time: Timestamp,
) -> bool {
    if before.contains_key(id.0) {
        &&& after == before.insert(id.0, after[id.0])
        &&& annotation_edited(before[id.0], after[id.0], annotation, user, time)
    } else {
        after == before
    }
}

/// The replica `after` is `before` with `annotation`, which has no identifier,
/// stored by `user` at `time` under some fresh random identifier.
pub open spec fn stored_fresh(
    before: EnvironmentView,
    after: EnvironmentView,
    annotation: AnnotationView,
    user: UserId,
    time: Timestamp,
) -> bool {
    exists|id: AnnotationId|
        is_v4_uuid(id.0) && after == before.insert(
            id.0,
            #[trigger] stored_state(id, annotation, user, time),
        )
}

/// The annotation `annotation_id` emptied: no coordinate and no text.
pub open spec fn cleared(annotation_id: AnnotationId) -> AnnotationView {
    AnnotationView { id: Some(annotation_id), coord: None, text: None }
}

impl SpatialEnvironment {
    /// Applies a local edit at the current time. An annotation with an
    /// identifier edits the stored annotation under it (nothing happens where
    /// none is stored); one without an identifier is stored under a fresh one,
    /// as `create_annotation` does. Returns the annotation it was given.
    pub fn update_annotation(&mut self, annotation: SpatialAnnotation) -> (r: Option<
        SpatialAnnotation,
    >)
        requires
            old(self).wf(),
        ensures
            final(self).wf(),
            final(self).owner() == old(self).owner(),
            r == Some(annotation),
            annotation@.id is None ==> exists|t: Timestamp|
                t.nanos < 1_000_000_000 && #[trigger] stored_fresh(
                    old(self)@,
                    final(self)@,
                    annotation@,
                    old(self).owner(),
                    t,
                ),
            annotation@.id matches Some(id) ==> exists|t: Timestamp|
                t.nanos < 1_000_000_000 && #[trigger] edited_at(
                    old(self)@,
                    final(self)@,
                    id,
                    annotation@,
                    old(self).owner(),
                    t,
                ),
    {
        let now = Timestamp::now();
        let ghost view = annotation@;
        let r = self.update_annotation_with_datetime(annotation, now);
        assert(view.id is None ==> stored_fresh(old(self)@, self@, view, old(self).owner(), now));
        assert(view.id matches Some(id) ==> edited_at(
            old(self)@,
            self@,
            id,
            view,
            old(self).owner(),
            now,
        ));
        r
    }

    /// Applies a local edit made at `datetime`. An annotation with an
    /// identifier edits the stored annotation under it (nothing happens where
    /// none is stored); one without an identifier is stored under a fresh one,
    /// as `create_annotation_with_datetime` does. Returns the annotation it was
    /// given.
    pub fn update_annotation_with_datetime(
        &mut self,
        annotation: SpatialAnnotation,
        datetime: Timestamp,
    ) -> (r: Option<SpatialAnnotation>)
        requires
            old(self).wf(),
        ensures
            final(self).wf(),
            final(self).owner() == old(self).owner(),
            r == Some(annotation),
            annotation@.id is None ==> stored_fresh(
                old(self)@,
                final(self)@,
                annotation@,
                old(self).owner(),
                datetime,
            ),
            annotation@.id matches Some(id) ==> edited_at(
                old(self)@,
                final(self)@,
                id,
                annotation@,
                old(self).owner(),
                datetime,
            ),
    {
        let copy = annotation.duplicate();
        match annotation.get_id() {
            None => {
                let id = self.create_annotation_with_datetime(annotation, datetime);
                assert(self@ == old(self)@.insert(
                    id.0,
                    stored_state(id, copy@, old(self).owner(), datetime),
                ));
                Some(copy)
            },
            Some(id) => {
                match self.data.remove(&id.0) {
                    Some(mut stored) => {
                        stored.update_at(annotation, self.user, datetime);
                        self.data.insert(id.0, stored);
                        assert(self@ =~= old(self)@.insert(id.0, stored@));
                    },
                    None => {
                        assert(self@ =~= old(self)@);
                    },
                }
                Some(copy)
            },
        }
    }

    /// Deletes, at the current time, the annotation stored under
    /// `annotation_id`: its coordinate and text are edited to nothing, and the
    /// emptied annotation stays stored, so that the deletion reaches other
    /// replicas. Returns the emptied annotation, or `None` where nothing is
    /// stored under that identifier.
    pub fn delete_annotation(&mut self, annotation_id: AnnotationId) -> (r: Option<
        SpatialAnnotation,
    >)
        requires
            old(self).wf(),
        ensures
            final(self).wf(),
            final(self).owner() == old(self).owner(),
            r is Some <==> old(self)@.contains_key(annotation_id.0),
            r matches Some(a) ==> a@ == cleared(annotation_id),
            final(self)@.dom() == old(self)@.dom(),
            exists|t: Timestamp|
                t.nanos < 1_000_000_000 && #[trigger] edited_at(
                    old(self)@,
                    final(self)@,
                    annotation_id,
                    cleared(annotation_id),
                    old(self).owner(),
                    t,
                ),
    {
        let now = Timestamp::now();
        let r = self.delete_annotation_with_datetime(annotation_id, now);
        assert(edited_at(
            old(self)@,
            self@,
            annotation_id,
            cleared(annotation_id),
            old(self).owner(),
            now,
        ));
        r
    }

    /// Deletes, at `datetime`, the annotation stored under `annotation_id`: its
    /// coordinate and text are edited to nothing, and the emptied annotation
    /// stays stored, so that the deletion reaches other replicas. Returns the
    /// emptied annotation, or `None` where nothing is stored under that
    /// identifier.
    pub fn delete_annotation_with_datetime(
        &mut self,
        annotation_id: AnnotationId,
        datetime: Timestamp,
    ) -> (r: Option<SpatialAnnotation>)
        requires
            old(self).wf(),
        ensures
            final(self).wf(),
            final(self).owner() == old(self).owner(),
            r is Some <==> old(self)@.contains_key(annotation_id.0),
            r matches Some(a) ==> a@ == cleared(annotation_id),
            final(self)@.dom() == old(self)@.dom(),
            edited_at(
                old(self)@,
                final(self)@,
                annotation_id,
                cleared(annotation_id),
                old(self).owner(),
                datetime,
            ),
    {
        let mut a = match self.read_annotation(annotation_id) {
            Some(a) => a,
            None => return None,
        };
        a.update_coord(None);
        a.update_text(None);
        let r = self.update_annotation_with_datetime(a, datetime);
        assert(self@.dom() =~= old(self)@.dom());
        r
    }
}

/// The number of annotations that a listing shows at most.
pub const LIST_LIMIT: usize = 100;

/// `r` shows `LIST_LIMIT` of the annotations of `m`, or all where there are
/// fewer, each once, as users see them.
pub open spec fn is_listing(m: EnvironmentView, r: Seq<SpatialAnnotation>) -> bool {
    &&& r.len() == if m.len() < LIST_LIMIT {
        m.len()
    } else {
        LIST_LIMIT as nat
    }
    &&& forall|i: int|
        0 <= i < r.len() ==> {
            &&& (#[trigger] r[i])@.id matches Some(id)
            &&& m.contains_key(id.0)
            &&& r[i]@ == visible(m[id.0])
        }
    &&& forall|i: int, j: int|
        0 <= i < j < r.len() ==> (#[trigger] r[i])@.id != (#[trigger] r[j])@.id
}

impl SpatialEnvironment {
    /// What users see of the stored annotations, at most `LIST_LIMIT` of
    /// them, each once, in the order in which the map yields them.
    pub fn list_annotation(&self) -> (r: Vec<SpatialAnnotation>)
        requires
            self.wf(),
        ensures
            is_listing(self@, r@),
    {
        let mut r: Vec<SpatialAnnotation> = Vec::new();
        let ghost m = self.data@;
        assert(self@.dom() =~= m.dom());
        for entry in it: self.data.iter()
            invariant
                self.wf(),
                m == self.data@,
                self@.dom() == m.dom(),
                it.seq().len() == m.len(),
                it.seq().no_duplicates(),
                forall|i: int|
                    0 <= i < it.seq().len() ==> m.contains_key(*(#[trigger] it.seq()[i]).0)
                        && m[*it.seq()[i].0] == *it.seq()[i].1,
                r@.len() == if it.index() < LIST_LIMIT {
                    it.index() as nat
                } else {
                    LIST_LIMIT as nat
                },
                forall|i: int|
                    0 <= i < r@.len() ==> (#[trigger] r@[i])@ == visible((*it.seq()[i].1)@),
                forall|i: int|
                    0 <= i < r@.len() ==> {
                        &&& (#[trigger] r@[i])@.id matches Some(id)
                        &&& self@.contains_key(id.0)
                        &&& r@[i]@ == visible(self@[id.0])
                    },
                forall|i: int, j: int|
                    0 <= i < j < r@.len() ==> (#[trigger] r@[i])@.id != (#[trigger] r@[j])@.id,
        {
            if r.len() < LIST_LIMIT {
                let (k, v) = entry;
                let ghost idx = r@.len() as int;
                let a = v.to_annotation();
                proof {
                    assert(it.seq()[idx] == (k, v));
                    assert(m.contains_key(*k) && m[*k] == *v);
                    assert(self@[*k] == v@);
                    assert forall|i: int| 0 <= i < idx implies r@[i]@.id != a@.id by {
                        let ki = *it.seq()[i].0;
                        assert(m.contains_key(ki));
                        assert(self@[ki] == m[ki]@);
                        if ki == *k {
                            assert(it.seq()[i] == it.seq()[idx]);
                        }
                    }
                }
                r.push(a);
            }
        }
        r
    }
}


impl SpatialEnvironment {
    /// Whether both replicas store the same annotations, with the same values,
    /// authors and times.
    #[must_use]
    pub fn has_same_data(&self, other: &Self) -> (r: bool)
        ensures
            r == (self@ == other@),
    {
        assert(self@.dom() =~= self.data@.dom());
        assert(other@.dom() =~= other.data@.dom());
        if self.data.len() != other.data.len() {
            return false;
        }
        let ghost m = self.data@;
        let ghost pairs = vstd::std_specs::hash::spec_hash_map_iter(&self.data).remaining();
        for entry in it: self.data.iter()
            invariant
                m == self.data@,
                it.seq() == pairs,
                self@.dom() == m.dom(),
                other@.dom() == other.data@.dom(),
                self@.len() == other@.len(),
                it.seq().len() == m.len(),
                forall|i: int|
                    0 <= i < it.seq().len() ==> m.contains_key(*(#[trigger] it.seq()[i]).0)
                        && m[*it.seq()[i].0] == *it.seq()[i].1,
                forall|k: u128| #[trigger]
                    m.contains_key(k) ==> it.seq().contains((&k, &m[k])),
                forall|i: int|
                    0 <= i < it.index() ==> {
                        let k = *(#[trigger] it.seq()[i]).0;
                        other@.contains_key(k) && other@[k] == self@[k]
                    },
        {
            let (k, v) = entry;
            match other.data.get(k) {
                None => {
                    assert(!(self@ == other@)) by {
                        assert(self@.contains_key(*k));
                    }
                    return false;
                },
                Some(w) => {
                    if !v.same_state(w) {
                        assert(!(self@ == other@)) by {
                            assert(self@[*k] == v@);
                            assert(other@[*k] == w@);
                        }
                        return false;
                    }
                },
            }
        }
        proof {
            assert forall|k: u128| #[trigger] self@.contains_key(k) implies other@.contains_key(k)
                && other@[k] == self@[k] by {
                assert(m.contains_key(k));
                let i = choose|i: int| 0 <= i < pairs.len() && pairs[i] == (&k, &m[k]);
                assert(*pairs[i].0 == k);
            }
            vstd::set_lib::lemma_subset_equality(self@.dom(), other@.dom());
            assert(self@ =~= other@);
        }
        true
    }
}


impl SpatialEnvironment {
    /// The identifiers stored in `self`, each once.
    fn stored_keys(&self) -> (r: Vec<u128>)
        ensures
            r@.to_set() == self@.dom(),
            r@.no_duplicates(),
    {
        let mut r: Vec<u128> = Vec::new();
        let ghost keys = vstd::std_specs::hash::spec_keys_iter(&self.data).remaining();
        for k in it: self.data.keys()
            invariant
                it.seq() == keys,
                r@.len() == it.index(),
                forall|j: int| 0 <= j < r@.len() ==> r@[j] == *keys[j],
        {
            r.push(*k);
        }
        proof {
            assert(r@ =~= keys.unref());
            assert(self@.dom() =~= self.data@.dom());
        }
        r
    }

    /// Takes in the replica `other`: annotations only `other` holds are
    /// added, and where both hold one, each of its registers keeps the edit
    /// that supersedes the other (the later one, or at equal times the one of
    /// the lower user).
    pub fn merge(&mut self, other: Self)
        requires
            old(self).wf(),
            other.wf(),
        ensures
            final(self).wf(),
            final(self).owner() == old(self).owner(),
            final(self)@ == merge_maps(old(self)@, other@),
    {
        let ghost base = self@;
        let ghost incoming = other@;
        let keys = other.stored_keys();
        let mut other = other;
        let ghost mut processed: Set<u128> = Set::empty();
        let mut i: usize = 0;
        while i < keys.len()
            invariant
                0 <= i <= keys@.len(),
                keys@.to_set() == incoming.dom(),
                keys@.no_duplicates(),
                keyed_by_id(base),
                keyed_by_id(incoming),
                self.wf(),
                self.owner() == old(self).owner(),
                forall|k: u128|
                    #[trigger] processed.contains(k) <==> exists|j: int|
                        0 <= j < i && keys@[j] == k,
                other@ == incoming.remove_keys(processed),
                self@ == merge_maps(base, incoming.restrict(processed)),
            decreases keys@.len() - i,
        {
            let k = keys[i];
            proof {
                assert(keys@.contains(k));
                assert(!processed.contains(k)) by {
                    if processed.contains(k) {
                        let j = choose|j: int| 0 <= j < i && keys@[j] == k;
                        assert(keys@[j] == keys@[i as int]);
                    }
                }
                assert(other.data@.contains_key(k)) by {
                    assert(other@.contains_key(k));
                }
            }
            let ghost before = self@;
            let ghost before_other = other@;
            let ghost odata = other.data@;
            let arriving = match other.data.remove(&k) {
                Some(a) => a,
                None => {
                    proof {
                        assert(false);
                    }
                    return;
                },
            };
            assert(arriving == odata[k]);
            assert(before_other[k] == odata[k]@);
            assert(arriving@ == incoming[k]);
            assert(other@ =~= before_other.remove(k));
            match self.data.remove(&k) {
                Some(mut current) => {
                    assert(current@ == before[k]);
                    current.merge(arriving);
                    self.data.insert(k, current);
                    assert(self@ =~= before.insert(k, merge_annotation(before[k], incoming[k])));
                },
                None => {
                    assert(!before.contains_key(k));
                    self.data.insert(k, arriving);
                    assert(self@ =~= before.insert(k, incoming[k]));
                },
            }
            proof {
                let next = processed.insert(k);
                assert forall|x: u128| #[trigger] next.contains(x) <==> exists|j: int|
                    0 <= j < i + 1 && keys@[j] == x by {
                    if x == k {
                        assert(keys@[i as int] == x);
                    }
                    if exists|j: int| 0 <= j < i + 1 && keys@[j] == x {
                        let j = choose|j: int| 0 <= j < i + 1 && keys@[j] == x;
                        if j < i {
                            assert(processed.contains(x));
                        }
                    }
                }
                processed = next;
                assert(self@ =~= merge_maps(base, incoming.restrict(processed)));
                assert(other@ =~= incoming.remove_keys(processed));
            }
            i = i + 1;
        }
        proof {
            assert(processed =~= incoming.dom()) by {
                assert forall|x: u128| incoming.dom().contains(x) implies processed.contains(x) by {
                    assert(keys@.contains(x));
                    let j = choose|j: int| 0 <= j < keys@.len() && keys@[j] == x;
                }
            }
            assert(incoming.restrict(processed) =~= incoming);
        }
    }
}


/// Merging a replica with a copy of itself changes nothing.
pub proof fn lemma_merge_idempotent(a: SpatialEnvironment)
    ensures
        merge_maps(a@, a@) == a@,
{
    assert forall|k: u128| #[trigger] a@.contains_key(k) implies merge_maps(a@, a@)[k] == a@[k] by {
        lemma_merge_state_idempotent(a@[k].coord);
        lemma_merge_state_idempotent(a@[k].text);
    }
    assert(merge_maps(a@, a@) =~= a@);
}

/// Merging two compatible replicas gives the same annotations in either
/// order: replicas that have taken in each other's state agree.
pub proof fn lemma_merge_commutative(a: SpatialEnvironment, b: SpatialEnvironment)
    requires
        a.wf(),
        b.wf(),
        replicas_compatible(a@, b@),
    ensures
        merge_maps(a@, b@) == merge_maps(b@, a@),
{
    assert forall|k: u128| #[trigger] merge_maps(a@, b@).contains_key(k) implies merge_maps(
        a@,
        b@,
    )[k] == merge_maps(b@, a@)[k] by {
        if a@.contains_key(k) && b@.contains_key(k) {
            assert(annotations_compatible(a@[k], b@[k]));
            lemma_merge_state_commutative(a@[k].coord, b@[k].coord);
            lemma_merge_state_commutative(a@[k].text, b@[k].text);
        }
    }
    assert(merge_maps(a@, b@) =~= merge_maps(b@, a@));
}

/// Merging replicas gives the same annotations however the merges are
/// grouped.
pub proof fn lemma_merge_associative(
    a: SpatialEnvironment,
    b: SpatialEnvironment,
    c: SpatialEnvironment,
)
    requires
        a.wf(),
        b.wf(),
        c.wf(),
    ensures
        merge_maps(merge_maps(a@, b@), c@) == merge_maps(a@, merge_maps(b@, c@)),
{
    let left = merge_maps(merge_maps(a@, b@), c@);
    let right = merge_maps(a@, merge_maps(b@, c@));
    assert forall|k: u128| #[trigger] left.contains_key(k) implies left[k] == right[k] by {
        if a@.contains_key(k) && b@.contains_key(k) && c@.contains_key(k) {
            lemma_merge_state_associative(a@[k].coord, b@[k].coord, c@[k].coord);
            lemma_merge_state_associative(a@[k].text, b@[k].text, c@[k].text);
        }
    }
    assert(left =~= right);
}


/// The replica that holds `entries`, each under its own identifier; of two
/// entries with one identifier the later one stays.
pub open spec fn entries_map(entries: Seq<AnnotationState>) -> EnvironmentView
    decreases entries.len(),
{
    if entries.len() == 0 {
        Map::empty()
    } else {
        entries_map(entries.drop_last()).insert(entries.last().id.0, entries.last())
    }
}

/// `s` lists every annotation of `m` once, under its own identifier.
pub open spec fn is_entry_list(m: EnvironmentView, s: Seq<AnnotationState>) -> bool {
    &&& s.len() == m.len()
    &&& forall|i: int|
        0 <= i < s.len() ==> m.contains_key((#[trigger] s[i]).id.0) && s[i] == m[s[i].id.0]
    &&& forall|i: int, j: int| 0 <= i < j < s.len() ==> (#[trigger] s[i]).id != (#[trigger] s[j]).id
}

/// The models of `entries`, in order.
pub open spec fn entry_states(entries: Seq<SpatialAnnotationInternal>) -> Seq<AnnotationState> {
    entries.map_values(|e: SpatialAnnotationInternal| e@)
}

impl SpatialEnvironment {
    /// Copies of the stored annotations, each once, in the order in which the
    /// map yields them.
    pub fn entries(&self) -> (r: Vec<SpatialAnnotationInternal>)
        requires
            self.wf(),
        ensures
            is_entry_list(self@, entry_states(r@)),
    {
        let mut r: Vec<SpatialAnnotationInternal> = Vec::new();
        let ghost m = self.data@;
        assert(self@.dom() =~= m.dom());
        for entry in it: self.data.iter()
            invariant
                self.wf(),
                m == self.data@,
                self@.dom() == m.dom(),
                it.seq().len() == m.len(),
                it.seq().no_duplicates(),
                forall|i: int|
                    0 <= i < it.seq().len() ==> m.contains_key(*(#[trigger] it.seq()[i]).0)
                        && m[*it.seq()[i].0] == *it.seq()[i].1,
                r@.len() == it.index(),
                forall|i: int|
                    0 <= i < r@.len() ==> (#[trigger] r@[i])@ == (*it.seq()[i].1)@,
                forall|i: int|
                    0 <= i < r@.len() ==> self@.contains_key((#[trigger] r@[i])@.id.0)
                        && r@[i]@ == self@[r@[i]@.id.0],
                forall|i: int, j: int|
                    0 <= i < j < r@.len() ==> (#[trigger] r@[i])@.id != (#[trigger] r@[j])@.id,
        {
            let (k, v) = entry;
            let ghost idx = r@.len() as int;
            let copy = v.duplicate();
            proof {
                assert(it.seq()[idx] == (k, v));
                assert(self@[*k] == v@);
                assert forall|i: int| 0 <= i < idx implies r@[i]@.id != copy@.id by {
                    let ki = *it.seq()[i].0;
                    assert(self@[ki] == m[ki]@);
                    if ki == *k {
                        assert(it.seq()[i] == it.seq()[idx]);
                    }
                }
            }
            r.push(copy);
        }
        assert(entry_states(r@).len() == r@.len());
        r
    }

    /// The replica edited by `user` that holds `entries`, each under its own
    /// identifier; of two entries with one identifier the later one stays.
    pub fn from_entries(user: UserId, entries: Vec<SpatialAnnotationInternal>) -> (r: Self)
        ensures
            r.wf(),
            r.owner() == user,
            r@ == entries_map(entry_states(entries@)),
    {
        let mut r = Self::with_user(user);
        let ghost all = entry_states(entries@);
        for i in 0..entries.len()
            invariant
                all == entry_states(entries@),
                r.wf(),
                r.owner() == user,
                r@ == entries_map(all.take(i as int)),
        {
            let e = entries[i].duplicate();
            let id = e.annotation_id();
            let ghost before = r@;
            r.data.insert(id.0, e);
            proof {
                assert(all.take(i + 1).drop_last() =~= all.take(i as int));
                assert(all.take(i + 1).last() == all[i as int]);
                assert(r@ =~= before.insert(id.0, all[i as int]));
            }
        }
        assert(all.take(entries@.len() as int) =~= all);
        r
    }
}

impl Default for SpatialEnvironment {
    fn default() -> (r: Self)
        ensures
            r@ == Map::<u128, AnnotationState>::empty(),
            r.wf(),
    {
        Self::new()
    }
}


/// Reading an annotation right after storing it gives back its coordinate and
/// text, under the identifier it was stored with.
pub proof fn lemma_read_after_create(
    m: EnvironmentView,
    id: AnnotationId,
    annotation: AnnotationView,
    user: UserId,
    time: Timestamp,
)
    ensures
        ({
            let after = m.insert(id.0, stored_state(id, annotation, user, time));
            &&& after.contains_key(id.0)
            &&& visible(after[id.0]) == (AnnotationView { id: Some(id), ..annotation })
        }),
{
}

/// After a local edit (an update, or a deletion, which edits both fields to
/// nothing) users see the edited coordinate and text, under the same identifier.
pub proof fn lemma_read_after_edit(
    before: AnnotationState,
    after: AnnotationState,
    annotation: AnnotationView,
    user: UserId,
    time: Timestamp,
)
    requires
        annotation_edited(before, after, annotation, user, time),
    ensures
        visible(after) == (AnnotationView { id: Some(before.id), ..annotation }),
{
}

/// A merge loses no annotation: the merged replica holds exactly the
/// annotations of either side, and those only one side holds are unchanged.
pub proof fn lemma_merge_keeps_every_annotation(a: SpatialEnvironment, b: SpatialEnvironment)
    ensures
        merge_maps(a@, b@).dom() == a@.dom().union(b@.dom()),
        forall|k: u128|
            a@.contains_key(k) && !b@.contains_key(k) ==> #[trigger] merge_maps(a@, b@)[k]
                == a@[k],
        forall|k: u128|
            !a@.contains_key(k) && b@.contains_key(k) ==> #[trigger] merge_maps(a@, b@)[k]
                == b@[k],
{
    assert(merge_maps(a@, b@).dom() =~= a@.dom().union(b@.dom()));
}


/// The identifiers of the first `i` entries.
pub open spec fn prefix_ids(entries: Seq<AnnotationState>, i: int) -> Set<u128> {
    Set::new(|k: u128| exists|j: int| 0 <= j < i && (#[trigger] entries[j]).id.0 == k)
}

proof fn lemma_entries_prefix(m: EnvironmentView, entries: Seq<AnnotationState>, i: int)
    requires
        0 <= i <= entries.len(),
        is_entry_list(m, entries),
    ensures
        entries_map(entries.take(i)) == m.restrict(prefix_ids(entries, i)),
    decreases i,
{
    if i == 0 {
        assert(entries.take(0) =~= Seq::<AnnotationState>::empty());
        assert(m.restrict(prefix_ids(entries, 0)) =~= Map::<u128, AnnotationState>::empty());
    } else {
        lemma_entries_prefix(m, entries, i - 1);
        let before = prefix_ids(entries, i - 1);
        let after = prefix_ids(entries, i);
        let e = entries[i - 1];
        assert(entries.take(i).drop_last() =~= entries.take(i - 1));
        assert(entries.take(i).last() == e);
        assert(after =~= before.insert(e.id.0)) by {
            assert forall|k: u128| after.contains(k) implies before.insert(e.id.0).contains(k) by {
                let j = choose|j: int| 0 <= j < i && (#[trigger] entries[j]).id.0 == k;
                if j < i - 1 {
                    assert(before.contains(k));
                }
            }
            assert forall|k: u128| before.insert(e.id.0).contains(k) implies after.contains(k) by {
                if k == e.id.0 {
                    assert(entries[i - 1].id.0 == k);
                } else {
                    let j = choose|j: int| 0 <= j < i - 1 && (#[trigger] entries[j]).id.0 == k;
                    assert(0 <= j < i && entries[j].id.0 == k);
                }
            }
        }
        assert(m.contains_key(e.id.0));
        assert(m.restrict(after) =~= m.restrict(before).insert(e.id.0, e));
    }
}

/// Rebuilding a replica from the list of its entries gives the replica back:
/// what `entries` hands out, `from_entries` takes in unchanged.
pub proof fn lemma_entries_roundtrip(env: SpatialEnvironment, entries: Seq<AnnotationState>)
    requires
        env.wf(),
        is_entry_list(env@, entries),
    ensures
        entries_map(entries) == env@,
{
    let m = env@;
    lemma_entries_prefix(m, entries, entries.len() as int);
    let all = prefix_ids(entries, entries.len() as int);
    assert(entries.take(entries.len() as int) =~= entries);
    assert(all =~= m.dom()) by {
        assert(all.subset_of(m.dom()));
        let ids = entries.map_values(|e: AnnotationState| e.id.0);
        assert(ids.no_duplicates()) by {
            assert forall|a: int, b: int|
                0 <= a < ids.len() && 0 <= b < ids.len() && a != b implies ids[a] != ids[b] by {
                if a < b {
                    assert(entries[a].id != entries[b].id);
                } else {
                    assert(entries[b].id != entries[a].id);
                }
            }
        }
        ids.unique_seq_to_set();
        assert(ids.to_set() =~= all) by {
            assert forall|k: u128| all.contains(k) implies ids.to_set().contains(k) by {
                let j = choose|j: int| 0 <= j < entries.len() && (#[trigger] entries[j]).id.0 == k;
                assert(ids[j] == k);
            }
            assert forall|k: u128| ids.to_set().contains(k) implies all.contains(k) by {
                let j = choose|j: int| 0 <= j < ids.len() && ids[j] == k;
                assert(entries[j].id.0 == k);
            }
        }
        assert(m.dom() =~= env.data@.dom());
        vstd::seq_lib::seq_to_set_is_finite(ids);
        vstd::set_lib::lemma_subset_equality(all, m.dom());
    }
    assert(m.restrict(all) =~= m);
}


impl SpatialEnvironment {
    /// A copy of the replica: the same user and the same annotations.
    pub fn duplicate(&self) -> (r: Self)
        requires
            self.wf(),
        ensures
            r.wf(),
            r.owner() == self.owner(),
            r@ == self@,
    {
        let entries = self.entries();
        proof {
            lemma_entries_roundtrip(*self, entry_states(entries@));
        }
        Self::from_entries(self.user, entries)
    }
}

/// A replica holds finitely many annotations.
pub proof fn lemma_view_finite(env: SpatialEnvironment)
    ensures
        env@.dom().finite(),
{
    assert(env@.dom() =~= env.data@.dom());
}


/// Concurrent edits of one annotation on two replicas: after each replica
/// takes in the other's state, both hold the later edit (last write wins).
/// Alice edits the annotation under `id` at `alice_time`, Bob at the later
/// `bob_time`; each edit changes the stored annotation (an edit that changes
/// nothing keeps the older stamp and is no write).
pub proof fn lemma_later_write_wins_on_both_replicas(
    alice_before: SpatialEnvironment,
    alice_after: SpatialEnvironment,
    bob_before: SpatialEnvironment,
    bob_after: SpatialEnvironment,
    id: AnnotationId,
    alice_edit: AnnotationView,
    bob_edit: AnnotationView,
    alice_time: Timestamp,
    bob_time: Timestamp,
)
    requires
        alice_before.wf(),
        bob_before.wf(),
        alice_before@.contains_key(id.0),
        bob_before@.contains_key(id.0),
        edited_at(alice_before@, alice_after@, id, alice_edit, alice_before.owner(), alice_time),
        edited_at(bob_before@, bob_after@, id, bob_edit, bob_before.owner(), bob_time),
        alice_before@[id.0].coord.value != alice_edit.coord || alice_before@[id.0].text.value
            != alice_edit.text,
        bob_before@[id.0].coord.value != bob_edit.coord || bob_before@[id.0].text.value
            != bob_edit.text,
        is_later(bob_time, alice_time),
    ensures
        merge_maps(alice_after@, bob_after@)[id.0] == merge_maps(bob_after@, alice_after@)[id.0],
        visible(merge_maps(alice_after@, bob_after@)[id.0]) == (AnnotationView {
            id: Some(id),
            ..bob_edit
        }),
{
    let a = alice_after@[id.0];
    let b = bob_after@[id.0];
    assert(alice_after@.contains_key(id.0) && bob_after@.contains_key(id.0));
    lemma_later_edit_wins(
        bob_before@[id.0],
        b,
        bob_edit,
        bob_before.owner(),
        bob_time,
        a,
    );
}


/// Syncing takes the later write: where the copy of an annotation that
/// another replica holds was written in later seconds, for both fields, than
/// the local copy, the merged replica shows the other replica's values,
/// whichever side the merge runs on.
pub proof fn lemma_merge_shows_later_copy(a: SpatialEnvironment, b: SpatialEnvironment, k: u128)
    requires
        a.wf(),
        b.wf(),
        a@.contains_key(k),
        b@.contains_key(k),
        b@[k].coord.time.secs > a@[k].coord.time.secs,
        b@[k].text.time.secs > a@[k].text.time.secs,
    ensures
        visible(merge_maps(a@, b@)[k]) == visible(b@[k]),
        visible(merge_maps(b@, a@)[k]) == visible(b@[k]),
{
    lemma_merge_keeps_later_edit(a@[k].coord, b@[k].coord);
    lemma_merge_keeps_later_edit(a@[k].text, b@[k].text);
}

} // verus!
