//! Last-write-wins registers: a value together with who wrote it and when.

use vstd::prelude::*;
use super::clock::{is_later, Timestamp};
use super::ids::UserId;
use super::point::Point;

verus! {

/// A value that a register can hold: it can be compared and copied.
pub trait RegisterValue: DeepView + Sized {
    /// Whether `self` and `other` hold the same value.
    fn same_as(&self, other: &Self) -> (r: bool)
        ensures
            r == (self.deep_view() == other.deep_view()),
    ;

    /// A copy of `self`.
    fn duplicate(&self) -> (r: Self)
        ensures
            r == *self,
    ;
}

impl RegisterValue for Option<Point> {
    fn same_as(&self, other: &Self) -> (r: bool) {
        match (self, other) {
            (Some(a), Some(b)) => a.0 == b.0 && a.1 == b.1,
            (None, None) => true,
            _ => false,
        }
    }

    fn duplicate(&self) -> (r: Self) {
        match self {
            Some(p) => Some(Point(p.0, p.1)),
            None => None,
        }
    }
}

impl RegisterValue for Option<String> {
    fn same_as(&self, other: &Self) -> (r: bool) {
        match (self, other) {
            (Some(a), Some(b)) => a.eq(b),
            (None, None) => true,
            _ => false,
        }
    }

    fn duplicate(&self) -> (r: Self) {
        match self {
            Some(s) => Some(s.clone()),
            None => None,
        }
    }
}

/// What a register holds: the value (by its model), the user who wrote it
/// last and when.
pub struct RegisterState<V> {
    pub value: V,
    pub user: UserId,
    pub time: Timestamp,
}

/// An edit stamped `(t, u)` replaces one stamped `(s, v)` when `t` is later
/// than `s`, or when the times are equal and `u` is below `v`.
pub open spec fn supersedes<V>(incoming: RegisterState<V>, current: RegisterState<V>) -> bool {
    ||| is_later(incoming.time, current.time)
    ||| (incoming.time == current.time && incoming.user.0 < current.user.0)
}

/// The register after merging `incoming` into `current`.
pub open spec fn merge_state<V>(current: RegisterState<V>, incoming: RegisterState<V>) -> RegisterState<V> {
    if supersedes(incoming, current) {
        incoming
    } else {
        current
    }
}

/// Two registers that carry the same stamp carry the same value. Stamps name
/// edits, so this holds of registers that descend from the same edits.
pub open spec fn compatible<V>(a: RegisterState<V>, b: RegisterState<V>) -> bool {
    a.time == b.time && a.user == b.user ==> a.value == b.value
}

/// A value, with the user who last changed it and when.
#[derive(Debug, Clone, PartialEq)]
pub struct LwwRegister<T> {
    value: T,
    last_modified_user: UserId,
    last_modified_time: Timestamp,
}

impl<T: DeepView> View for LwwRegister<T> {
    type V = RegisterState<T::V>;

    closed spec fn view(&self) -> RegisterState<T::V> {
        RegisterState {
            value: self.value.deep_view(),
            user: self.last_modified_user,
            time: self.last_modified_time,
        }
    }
}


impl<T: RegisterValue> LwwRegister<T> {
    /// A register holding `value`, written by `user` at `datetime`.
    pub fn new_with_datetime(value: T, user: UserId, datetime: Timestamp) -> (r: Self)
        ensures
            r@ == (RegisterState { value: value.deep_view(), user, time: datetime }),
    {
        LwwRegister { value, last_modified_user: user, last_modified_time: datetime }
    }

    /// The value held, itself rather than its model.
    pub closed spec fn held(&self) -> T {
        self.value
    }

    /// A copy of the value held.
    pub fn clone_value(&self) -> (r: T)
        ensures
            r == self.held(),
            r.deep_view() == self@.value,
    {
        self.value.duplicate()
    }

    /// The value held.
    pub fn value(&self) -> (r: &T)
        ensures
            r.deep_view() == self@.value,
    {
        &self.value
    }

    /// The user who wrote the value.
    pub fn last_modified_user(&self) -> (r: UserId)
        ensures
            r == self@.user,
    {
        self.last_modified_user
    }

    /// When the value was written.
    pub fn last_modified_time(&self) -> (r: Timestamp)
        ensures
            r == self@.time,
    {
        self.last_modified_time
    }

    /// Whether `self` and `other` hold the same value, author and time.
    pub fn same_state(&self, other: &Self) -> (r: bool)
        ensures
            r == (self@ == other@),
    {
        self.value.same_as(&other.value) && self.last_modified_user == other.last_modified_user
            && self.last_modified_time == other.last_modified_time
    }

    /// A local edit by `user`: a value equal to the one held changes nothing;
    /// another one replaces it, stamped with `user` and the current time.
    pub fn update(&mut self, value: T, user: UserId)
        ensures
            old(self)@.value == value.deep_view() ==> final(self)@ == old(self)@,
            old(self)@.value != value.deep_view() ==> {
                &&& final(self)@ == (RegisterState {
                    value: value.deep_view(),
                    user,
                    time: final(self)@.time,
                })
                &&& final(self)@.time.nanos < 1_000_000_000
            },
    {
        if self.value.same_as(&value) {
            return;
        }
        let now = Timestamp::now();
        self.update_at(value, user, now);
    }

    /// A local edit by `user` at time `now`: a value equal to the one held
    /// changes nothing; another one replaces it, stamped with `user` and `now`.
    pub fn update_at(&mut self, value: T, user: UserId, now: Timestamp)
        ensures
            final(self)@ == if old(self)@.value == value.deep_view() {
                old(self)@
            } else {
                RegisterState { value: value.deep_view(), user, time: now }
            },
    {
        if self.value.same_as(&value) {
            return;
        }
        self.value = value;
        self.last_modified_user = user;
        self.last_modified_time = now;
    }

    /// Takes in the state of another replica of this register: its edit
    /// replaces the local one when it supersedes it.
    pub fn merge(&mut self, other: Self)
        ensures
            final(self)@ == merge_state(old(self)@, other@),
    {
        let other_is_newer = other.last_modified_time.is_later_than(&self.last_modified_time);
        let other_is_equal_and_lower_user_id = other.last_modified_time
            == self.last_modified_time && other.last_modified_user.0
            < self.last_modified_user.0;
        if other_is_newer || other_is_equal_and_lower_user_id {
            self.value = other.value;
            self.last_modified_time = other.last_modified_time;
            self.last_modified_user = other.last_modified_user;
        }
    }
}

/// Merging a register with itself changes nothing.
pub proof fn lemma_merge_state_idempotent<V>(a: RegisterState<V>)
    ensures
        merge_state(a, a) == a,
{
}

/// Merging two compatible registers gives the same result in either order.
pub proof fn lemma_merge_state_commutative<V>(a: RegisterState<V>, b: RegisterState<V>)
    requires
        compatible(a, b),
    ensures
        merge_state(a, b) == merge_state(b, a),
{
}

/// Merging registers does not depend on how the merges are grouped: either
/// way the result is the first of the three whose edit none of the others
/// supersedes.
pub proof fn lemma_merge_state_associative<V>(
    a: RegisterState<V>,
    b: RegisterState<V>,
    c: RegisterState<V>,
)
    ensures
        merge_state(merge_state(a, b), c) == merge_state(a, merge_state(b, c)),
{
}

/// A merge yields one of its inputs, and that one is not superseded by the
/// other: the register keeps the latest edit.
pub proof fn lemma_merge_state_keeps_latest<V>(a: RegisterState<V>, b: RegisterState<V>)
    ensures
        merge_state(a, b) == a || merge_state(a, b) == b,
        !supersedes(a, merge_state(a, b)) && !supersedes(b, merge_state(a, b)),
{
}


/// A merge keeps the edit made at the later time, in either order: an edit
/// stamped with more whole seconds wins whatever the nanoseconds, one stamped
/// in the same second with more nanoseconds wins, and of two edits made at
/// the same time the one by the lower user wins.
pub proof fn lemma_merge_keeps_later_edit<V>(a: RegisterState<V>, b: RegisterState<V>)
    ensures
        b.time.secs > a.time.secs ==> merge_state(a, b) == b && merge_state(b, a) == b,
        b.time.secs == a.time.secs && b.time.nanos > a.time.nanos ==> merge_state(a, b) == b
            && merge_state(b, a) == b,
        b.time == a.time && b.user.0 < a.user.0 ==> merge_state(a, b) == b && merge_state(b, a)
            == b,
{
}

} // verus!
