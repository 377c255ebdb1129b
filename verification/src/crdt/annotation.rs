//! Spatial annotations: as users see them, and as replicas store them.

use vstd::prelude::*;
use super::clock::Timestamp;
use super::ids::{is_v4_uuid, AnnotationId, UserId};
use super::point::Point;
use super::clock::is_later;
use super::register::{merge_state, supersedes, LwwRegister, RegisterState, RegisterValue};

verus! {

/// A note pinned to a place. A missing coordinate and text mark a deleted
/// annotation; a missing identifier, one that is not stored yet.
#[derive(Debug, Clone, PartialEq, Eq)]
pub struct SpatialAnnotation {
    id: Option<AnnotationId>,
    coord: Option<Point>,
    text: Option<String>,
}

/// The model of a `SpatialAnnotation`: its fields, the text as characters.
pub struct AnnotationView {
    pub id: Option<AnnotationId>,
    pub coord: Option<Point>,
    pub text: Option<Seq<char>>,
}

impl View for SpatialAnnotation {
    type V = AnnotationView;

    closed spec fn view(&self) -> AnnotationView {
        AnnotationView { id: self.id, coord: self.coord, text: self.text.deep_view() }
    }
}

impl SpatialAnnotation {
    /// An annotation at `coord` reading `text`.
    #[must_use]
    pub fn new(id: Option<AnnotationId>, coord: Point, text: String) -> (r: Self)
        ensures
            r@ == (AnnotationView { id, coord: Some(coord), text: Some(text@) }),
    {
        Self { id, coord: Some(coord), text: Some(text) }
    }

    pub(crate) fn new_internal(
        id: Option<AnnotationId>,
        coord: Option<Point>,
        text: Option<String>,
    ) -> (r: Self)
        ensures
            r@ == (AnnotationView { id, coord, text: text.deep_view() }),
            r.coord_value() == coord,
            r.text_value() == text,
    {
        Self { id, coord, text }
    }

    /// The coordinate field itself.
    pub closed spec fn coord_value(&self) -> Option<Point> {
        self.coord
    }

    /// The text field itself.
    pub closed spec fn text_value(&self) -> Option<String> {
        self.text
    }

    /// The identifier, where there is one.
    #[must_use]
    pub fn get_id(&self) -> (r: Option<AnnotationId>)
        ensures
            r == self@.id,
    {
        self.id
    }

    /// The coordinate, unless deleted.
    #[must_use]
    pub fn get_coord(&self) -> (r: Option<&Point>)
        ensures
            match r {
                Some(p) => self@.coord == Some(*p),
                None => self@.coord is None,
            },
    {
        self.coord.as_ref()
    }

    /// Replaces the coordinate.
    pub fn update_coord(&mut self, coord: Option<Point>)
        ensures
            final(self)@ == (AnnotationView { coord, ..old(self)@ }),
            final(self).text_value() == old(self).text_value(),
    {
        self.coord = coord;
    }

    /// The text, unless deleted.
    #[must_use]
    pub fn get_text(&self) -> (r: Option<&String>)
        ensures
            match r {
                Some(t) => self@.text == Some(t@),
                None => self@.text is None,
            },
    {
        self.text.as_ref()
    }

    /// Replaces the text.
    pub fn update_text(&mut self, text: Option<String>)
        ensures
            final(self)@ == (AnnotationView { text: text.deep_view(), ..old(self)@ }),
            final(self).coord_value() == old(self).coord_value(),
    {
        self.text = text;
    }

    /// The same annotation without its identifier.
    pub fn without_id(self) -> (r: Self)
        ensures
            r@ == (AnnotationView { id: None, ..self@ }),
    {
        Self::new_internal(None, self.coord, self.text)
    }

    /// A copy of `self`.
    pub(crate) fn duplicate(&self) -> (r: Self)
        ensures
            r == *self,
    {
        Self { id: self.id, coord: self.coord.duplicate(), text: self.text.duplicate() }
    }
}

/// The annotation that users see of a stored one.
pub closed spec fn annotation_of(stored: &SpatialAnnotationInternal) -> SpatialAnnotation {
    SpatialAnnotation {
        id: Some(stored.id),
        coord: stored.coord.held(),
        text: stored.text.held(),
    }
}

/// The model of a stored annotation: its identifier and its two registers.
pub struct AnnotationState {
    pub id: AnnotationId,
    pub coord: RegisterState<Option<Point>>,
    pub text: RegisterState<Option<Seq<char>>>,
}

/// The stored annotation after another replica's copy has been merged in:
/// each register keeps the edit that supersedes the other.
pub open spec fn merge_annotation(current: AnnotationState, incoming: AnnotationState) -> AnnotationState {
    AnnotationState {
        id: current.id,
        coord: merge_state(current.coord, incoming.coord),
        text: merge_state(current.text, incoming.text),
    }
}

/// A local edit of the stored annotation `before` with the fields of
/// `annotation`, by `user` at `time`: the same values leave it alone; where a
/// field differs, both fields take the new values with `user` and `time` as
/// their stamp, so the edit as a whole wins against older edits.
pub open spec fn annotation_edited(
    before: AnnotationState,
    after: AnnotationState,
    annotation: AnnotationView,
    user: UserId,
    time: Timestamp,
) -> bool {
    if before.coord.value == annotation.coord && before.text.value == annotation.text {
        after == before
    } else {
        after == (AnnotationState {
            id: before.id,
            coord: RegisterState { value: annotation.coord, user, time },
            text: RegisterState { value: annotation.text, user, time },
        })
    }
}

/// An annotation as a replica stores it: each field a last-write-wins register.
#[derive(Debug, Clone, PartialEq)]
pub struct SpatialAnnotationInternal {
    pub id: AnnotationId,
    coord: LwwRegister<Option<Point>>,
    text: LwwRegister<Option<String>>,
}

impl View for SpatialAnnotationInternal {
    type V = AnnotationState;

    closed spec fn view(&self) -> AnnotationState {
        AnnotationState { id: self.id, coord: self.coord@, text: self.text@ }
    }
}

impl SpatialAnnotationInternal {
    /// Stores `value` as written by `user` at `datetime`, under its own
    /// identifier or, where it has none, under a fresh random one.
    pub fn new(value: SpatialAnnotation, user: UserId, datetime: Timestamp) -> (r: Self)
        ensures
            value@.id matches Some(id) ==> r@.id == id,
            value@.id is None ==> is_v4_uuid(r@.id.0),
            r@.coord == (RegisterState { value: value@.coord, user, time: datetime }),
            r@.text == (RegisterState { value: value@.text, user, time: datetime }),
    {
        let id = match value.id {
            Some(id) => id,
            None => AnnotationId::random(),
        };
        Self::from_parts(
            id,
            LwwRegister::new_with_datetime(value.coord, user, datetime),
            LwwRegister::new_with_datetime(value.text, user, datetime),
        )
    }

    /// The stored annotation with identifier `id` and the given registers.
    pub fn from_parts(
        id: AnnotationId,
        coord: LwwRegister<Option<Point>>,
        text: LwwRegister<Option<String>>,
    ) -> (r: Self)
        ensures
            r@ == (AnnotationState { id, coord: coord@, text: text@ }),
    {
        Self { id, coord, text }
    }

    /// The identifier.
    pub fn annotation_id(&self) -> (r: AnnotationId)
        ensures
            r == self@.id,
    {
        self.id
    }

    /// The coordinate register.
    pub fn coord(&self) -> (r: &LwwRegister<Option<Point>>)
        ensures
            r@ == self@.coord,
    {
        &self.coord
    }

    /// The text register.
    pub fn text(&self) -> (r: &LwwRegister<Option<String>>)
        ensures
            r@ == self@.text,
    {
        &self.text
    }

    /// A local edit by `user`: where `other` differs from the stored
    /// annotation in a field, both fields take the values of `other`, stamped
    /// with `user` and the current time; where it differs in none, nothing
    /// changes.
    pub fn update(&mut self, other: SpatialAnnotation, user: UserId)
        ensures
            exists|t: Timestamp|
                t.nanos < 1_000_000_000 && #[trigger] annotation_edited(
                    old(self)@,
                    final(self)@,
                    other@,
                    user,
                    t,
                ),
    {
        let now = Timestamp::now();
        let ghost view = other@;
        self.update_at(other, user, now);
        assert(annotation_edited(old(self)@, self@, view, user, now));
    }

    /// A local edit by `user` at time `now`: where `other` differs from the
    /// stored annotation in a field, both fields take the values of `other`,
    /// stamped with `user` and `now`; where it differs in none, nothing
    /// changes.
    pub fn update_at(&mut self, other: SpatialAnnotation, user: UserId, now: Timestamp)
        ensures
            annotation_edited(old(self)@, final(self)@, other@, user, now),
    {
        if self.coord.value().same_as(&other.coord) && self.text.value().same_as(&other.text) {
            return;
        }
        self.coord = LwwRegister::new_with_datetime(other.coord, user, now);
        self.text = LwwRegister::new_with_datetime(other.text, user, now);
    }

    /// Whether `self` and `other` are the same stored annotation.
    pub fn same_state(&self, other: &Self) -> (r: bool)
        ensures
            r == (self@ == other@),
    {
        self.id == other.id && self.coord.same_state(&other.coord) && self.text.same_state(
            &other.text,
        )
    }

    /// A copy of `self`.
    pub fn duplicate(&self) -> (r: Self)
        ensures
            r@ == self@,
    {
        Self {
            id: self.id,
            coord: LwwRegister::new_with_datetime(
                self.coord.clone_value(),
                self.coord.last_modified_user(),
                self.coord.last_modified_time(),
            ),
            text: LwwRegister::new_with_datetime(
                self.text.clone_value(),
                self.text.last_modified_user(),
                self.text.last_modified_time(),
            ),
        }
    }

    /// Takes in another replica's copy of this annotation.
    pub fn merge(&mut self, other: Self)
        ensures
            final(self)@ == merge_annotation(old(self)@, other@),
    {
        self.coord.merge(other.coord);
        self.text.merge(other.text);
    }

    /// The annotation as users see it.
    pub fn to_annotation(&self) -> (r: SpatialAnnotation)
        ensures
            r == annotation_of(self),
            r@ == (AnnotationView {
                id: Some(self@.id),
                coord: self@.coord.value,
                text: self@.text.value,
            }),
    {
        SpatialAnnotation::new_internal(
            Some(self.id),
            self.coord.clone_value(),
            self.text.clone_value(),
        )
    }
}

impl From<&SpatialAnnotationInternal> for SpatialAnnotation {
    fn from(value: &SpatialAnnotationInternal) -> (r: Self) {
        value.to_annotation()
    }
}

impl vstd::std_specs::convert::FromSpecImpl<&SpatialAnnotationInternal> for SpatialAnnotation {
    open spec fn obeys_from_spec() -> bool {
        true
    }

    open spec fn from_spec(v: &SpatialAnnotationInternal) -> Self {
        annotation_of(v)
    }
}


/// A copy whose two registers both carry edits that supersede those of another
/// copy wins the merge in either order.
pub proof fn lemma_superseding_copy_wins(winner: AnnotationState, other: AnnotationState)
    requires
        supersedes(winner.coord, other.coord),
        supersedes(winner.text, other.text),
    ensures
        merge_annotation(winner, other) == winner,
        merge_annotation(other, winner) == (AnnotationState { id: other.id, ..winner }),
{
}

/// A local edit that changes the annotation, made later than the edits held
/// by another copy, wins the merge against that copy in either order: both
/// replicas end with the edited values (last write wins, deletions included).
pub proof fn lemma_later_edit_wins(
    before: AnnotationState,
    after: AnnotationState,
    annotation: AnnotationView,
    user: UserId,
    time: Timestamp,
    other: AnnotationState,
)
    requires
        annotation_edited(before, after, annotation, user, time),
        before.coord.value != annotation.coord || before.text.value != annotation.text,
        is_later(time, other.coord.time),
        is_later(time, other.text.time),
    ensures
        merge_annotation(after, other) == after,
        merge_annotation(other, after).coord == after.coord,
        merge_annotation(other, after).text == after.text,
        after.coord.value == annotation.coord,
        after.text.value == annotation.text,
{
    lemma_superseding_copy_wins(after, other);
}

} // verus!
