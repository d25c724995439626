//! A registry of long-lived sessions keyed by identifiers that are handed out
//! in increasing order, starting at 1, and never handed out twice.
//!
//! The registry is the sequential core that a manager keeps behind its lock:
//! every operation is a single lookup, insertion or removal, so a critical
//! section around it stays short.

use std::collections::HashMap;
use vstd::prelude::*;

verus! {

/// What a registry holds, as a mathematical value: the sessions by
/// identifier, and the highest identifier handed out so far (0 when none
/// was).
#[verifier::ext_equal]
pub struct RegistryState<S> {
    pub sessions: Map<u32, S>,
    pub issued: u32,
}

impl<S> RegistryState<S> {
    /// Every identifier under which a session is stored has been handed out.
    pub open spec fn wf(self) -> bool {
        forall|id: u32| self.sessions.contains_key(id) ==> id <= self.issued
    }

    /// The registry without sessions, from which no identifier was handed out.
    pub open spec fn empty() -> Self {
        RegistryState { sessions: Map::empty(), issued: 0 }
    }

    /// Whether an identifier is left to hand out.
    pub open spec fn can_allocate(self) -> bool {
        self.issued < u32::MAX
    }

    /// The identifier that the next allocation hands out.
    pub open spec fn next_id(self) -> u32 {
        (self.issued + 1) as u32
    }

    /// The registry after the next identifier was handed out.
    pub open spec fn allocate(self) -> Self {
        RegistryState { sessions: self.sessions, issued: self.next_id() }
    }

    /// Whether a session is stored under `id`.
    pub open spec fn contains(self, id: u32) -> bool {
        self.sessions.contains_key(id)
    }

    /// The session stored under `id`, if there is one.
    pub open spec fn get(self, id: u32) -> Option<S> {
        if self.sessions.contains_key(id) {
            Some(self.sessions[id])
        } else {
            None
        }
    }

    /// Storing a session under `id` also marks `id` as handed out.
    pub open spec fn insert(self, id: u32, session: S) -> Self {
        RegistryState {
            sessions: self.sessions.insert(id, session),
            issued: if id > self.issued {
                id
            } else {
                self.issued
            },
        }
    }

    /// The registry without the session stored under `id`.
    pub open spec fn remove(self, id: u32) -> Self {
        RegistryState { sessions: self.sessions.remove(id), issued: self.issued }
    }

    /// Allocation followed by insertion under the fresh identifier.
    pub open spec fn register(self, session: S) -> Self {
        self.allocate().insert(self.next_id(), session)
    }
}

/// One operation on a registry.
pub enum RegistryOp<S> {
    Allocate,
    Insert { id: u32, session: S },
    Remove { id: u32 },
}

impl<S> RegistryOp<S> {
    /// Whether the operation can be carried out in `state`: an allocation
    /// needs an identifier that is left, an insertion a vacant identifier.
    pub open spec fn permitted(self, state: RegistryState<S>) -> bool {
        match self {
            RegistryOp::Allocate => state.can_allocate(),
            RegistryOp::Insert { id, session } => !state.contains(id),
            RegistryOp::Remove { id } => true,
        }
    }

    /// The state after the operation.
    pub open spec fn apply(self, state: RegistryState<S>) -> RegistryState<S> {
        match self {
            RegistryOp::Allocate => state.allocate(),
            RegistryOp::Insert { id, session } => state.insert(id, session),
            RegistryOp::Remove { id } => state.remove(id),
        }
    }
}

/// Whether each operation of `ops` is permitted in the state that the
/// operations before it lead to.
pub open spec fn all_permitted<S>(state: RegistryState<S>, ops: Seq<RegistryOp<S>>) -> bool
    decreases ops.len(),
{
    if ops.len() == 0 {
        true
    } else {
        ops[0].permitted(state) && all_permitted(ops[0].apply(state), ops.drop_first())
    }
}

/// The state after `ops`, carried out in order.
pub open spec fn apply_all<S>(state: RegistryState<S>, ops: Seq<RegistryOp<S>>) -> RegistryState<
    S,
>
    decreases ops.len(),
{
    if ops.len() == 0 {
        state
    } else {
        apply_all(ops[0].apply(state), ops.drop_first())
    }
}

/// The identifiers that the allocations among `ops` hand out, in order.
pub open spec fn handed_out<S>(state: RegistryState<S>, ops: Seq<RegistryOp<S>>) -> Seq<u32>
    decreases ops.len(),
{
    if ops.len() == 0 {
        Seq::empty()
    } else {
        let rest = handed_out(ops[0].apply(state), ops.drop_first());
        match ops[0] {
            RegistryOp::Allocate => seq![state.next_id()] + rest,
            _ => rest,
        }
    }
}

/// Operations keep a registry well formed, and never lower the highest
/// identifier handed out.
pub proof fn law_ops_preserve_wf<S>(state: RegistryState<S>, ops: Seq<RegistryOp<S>>)
    requires
        state.wf(),
        all_permitted(state, ops),
    ensures
        apply_all(state, ops).wf(),
        state.issued <= apply_all(state, ops).issued,
    decreases ops.len(),
{
    if ops.len() > 0 {
        law_ops_preserve_wf(ops[0].apply(state), ops.drop_first());
    }
}

/// Identifiers are never reused. However allocations are mixed with
/// insertions and removals, each identifier handed out is above every
/// identifier handed out or stored before, so the identifiers come out
/// distinct and strictly increasing, and none of them names a session that
/// the registry held at the start.
pub proof fn law_ids_strictly_increase<S>(state: RegistryState<S>, ops: Seq<RegistryOp<S>>)
    requires
        state.wf(),
        all_permitted(state, ops),
    ensures
        forall|i: int|
            0 <= i < handed_out(state, ops).len() ==> state.issued < #[trigger] handed_out(
                state,
                ops,
            )[i] <= apply_all(state, ops).issued,
        forall|i: int|
            0 <= i < handed_out(state, ops).len() ==> !state.contains(
                #[trigger] handed_out(state, ops)[i],
            ),
        forall|i: int, j: int|
            0 <= i < j < handed_out(state, ops).len() ==> handed_out(state, ops)[i] < handed_out(
                state,
                ops,
            )[j],
    decreases ops.len(),
{
    if ops.len() > 0 {
        let next = ops[0].apply(state);
        let rest = handed_out(next, ops.drop_first());
        law_ids_strictly_increase(next, ops.drop_first());
        law_ops_preserve_wf(next, ops.drop_first());
        let ids = handed_out(state, ops);
        match ops[0] {
            RegistryOp::Allocate => {
                assert(ids == seq![state.next_id()] + rest);
                assert forall|i: int| 0 <= i < ids.len() implies state.issued < #[trigger] ids[i]
                    <= apply_all(state, ops).issued by {
                    if i > 0 {
                        assert(ids[i] == rest[i - 1]);
                    }
                }
                assert forall|i: int, j: int| 0 <= i < j < ids.len() implies ids[i] < ids[j] by {
                    assert(ids[j] == rest[j - 1]);
                    if i > 0 {
                        assert(ids[i] == rest[i - 1]);
                    }
                }
            },
            _ => {
                assert(ids == rest);
            },
        }
    }
}

/// A removed session is gone, and removing it once more changes nothing.
pub proof fn law_remove_is_idempotent<S>(state: RegistryState<S>, id: u32)
    ensures
        state.remove(id).get(id) is None,
        !state.remove(id).contains(id),
        state.remove(id).remove(id) == state.remove(id),
        !state.contains(id) ==> state.remove(id) == state,
{
    assert(state.remove(id).remove(id).sessions =~= state.remove(id).sessions);
    if !state.contains(id) {
        assert(state.remove(id).sessions =~= state.sessions);
    }
}

/// `HashMap::get_mut` of the standard library: a mutable reference to the
/// value stored under `id`, if there is one. Whatever the caller writes
/// through the reference replaces that value; nothing else in the map
/// changes.
#[verifier::external_body]
fn map_get_mut<'a, S>(map: &'a mut HashMap<u32, S>, id: u32) -> (found: Option<&'a mut S>)
    ensures
        match found {
            Some(session) => old(map)@.contains_key(id) && *session == old(map)@[id]
                && final(map)@ == old(map)@.insert(id, *final(session)),
            None => !old(map)@.contains_key(id) && final(map)@ == old(map)@,
        },
{
    map.get_mut(&id)
}

/// Sessions by identifier, with the counter that hands the identifiers out.
pub struct Registry<S> {
    sessions: HashMap<u32, S>,
    issued: u32,
}

impl<S> View for Registry<S> {
    type V = RegistryState<S>;

    closed spec fn view(&self) -> RegistryState<S> {
        RegistryState { sessions: self.sessions@, issued: self.issued }
    }
}

impl<S> Registry<S> {
    /// The invariant that every operation keeps.
    pub open spec fn wf(&self) -> bool {
        self@.wf()
    }

    /// An empty registry whose first identifier will be 1.
    pub fn new() -> (registry: Self)
        ensures
            registry@ == RegistryState::<S>::empty(),
            registry.wf(),
    {
        Registry { sessions: HashMap::new(), issued: 0 }
    }

    /// Whether an identifier is left to hand out.
    pub fn can_allocate(&self) -> (left: bool)
        ensures
            left == self@.can_allocate(),
    {
        self.issued < u32::MAX
    }

    /// Hands out the next identifier: one more than the last, and so above
    /// every identifier handed out before and every identifier in use.
    pub fn allocate_id(&mut self) -> (id: u32)
        requires
            old(self).wf(),
            old(self)@.can_allocate(),
        ensures
            id == old(self)@.next_id(),
            final(self)@ == old(self)@.allocate(),
            final(self).wf(),
            !final(self)@.contains(id),
            id > old(self)@.issued,
    {
        let id: u32 = self.issued + 1;
        self.issued = id;
        assert(self@.sessions == old(self)@.sessions);
        id
    }

    /// Stores `session` under `id`. Fails, handing the session back and
    /// leaving the registry as it was, exactly when `id` is already in use.
    pub fn insert(&mut self, id: u32, session: S) -> (stored: Result<(), S>)
        requires
            old(self).wf(),
        ensures
            final(self).wf(),
            match stored {
                Ok(()) => !old(self)@.contains(id) && final(self)@ == old(self)@.insert(
                    id,
                    session,
                ),
                Err(rejected) => old(self)@.contains(id) && rejected == session && final(self)@
                    == old(self)@,
            },
    {
        broadcast use vstd::std_specs::hash::group_hash_axioms;

        if self.sessions.contains_key(&id) {
            return Err(session);
        }
        self.sessions.insert(id, session);
        if id > self.issued {
            self.issued = id;
        }
        assert(self@.sessions == old(self)@.sessions.insert(id, session));
        Ok(())
    }

    /// Whether a session is stored under `id`.
    pub fn contains(&self, id: u32) -> (present: bool)
        ensures
            present == self@.contains(id),
    {
        broadcast use vstd::std_specs::hash::group_hash_axioms;

        self.sessions.contains_key(&id)
    }

    /// The session stored under `id`, or nothing when the identifier is
    /// unknown or its session was already taken out.
    pub fn get(&self, id: u32) -> (found: Option<&S>)
        ensures
            match found {
                Some(session) => self@.get(id) == Some(*session),
                None => self@.get(id) is None,
            },
    {
        broadcast use vstd::std_specs::hash::group_hash_axioms;

        self.sessions.get(&id)
    }

    /// Mutable access to the session stored under `id`, or nothing when
    /// there is none. What the caller leaves in the session is what the
    /// registry then holds under `id`; nothing else changes.
    pub fn get_mut(&mut self, id: u32) -> (found: Option<&mut S>)
        requires
            old(self).wf(),
        ensures
            final(self).wf(),
            match found {
                Some(session) => old(self)@.get(id) == Some(*session)
                    && final(self)@ == old(self)@.insert(id, *final(session)),
                None => old(self)@.get(id) is None && final(self)@ == old(self)@,
            },
    {
        map_get_mut(&mut self.sessions, id)
    }

    /// Takes the session stored under `id` out of the registry and hands it
    /// to the caller, whose dropping it releases its resources. Nothing
    /// happens when there is no such session, so a second removal of the
    /// same identifier is harmless.
    pub fn remove(&mut self, id: u32) -> (removed: Option<S>)
        requires
            old(self).wf(),
        ensures
            final(self).wf(),
            final(self)@ == old(self)@.remove(id),
            removed == old(self)@.get(id),
            !final(self)@.contains(id),
    {
        broadcast use vstd::std_specs::hash::group_hash_axioms;

        self.sessions.remove(&id)
    }

    /// The number of sessions stored.
    pub fn len(&self) -> (count: usize)
        ensures
            count == self@.sessions.len(),
    {
        broadcast use vstd::std_specs::hash::group_hash_axioms;

        self.sessions.len()
    }
}

} // verus!
