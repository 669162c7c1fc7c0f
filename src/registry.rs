//! The process-wide map from room identifier to room handle. Looking a room
//! up and creating it when it is missing is one step, so that connections
//! joining the same new room at once all end in the one room.
use crate::wire::same_text;
use vstd::prelude::*;

verus! {

/// The registry after resolving `key`, with `fresh` as the handle of a room
/// that did not exist yet.
pub open spec fn after_resolve<H>(v: Seq<(Seq<char>, H)>, key: Seq<char>, fresh: H) -> Seq<
    (Seq<char>, H),
> {
    if exists|i: int| 0 <= i < v.len() && (#[trigger] v[i]).0 == key {
        v
    } else {
        v.push((key, fresh))
    }
}

/// No identifier names two rooms.
pub open spec fn keys_unique<H>(v: Seq<(Seq<char>, H)>) -> bool {
    forall|i: int, j: int| 0 <= i < v.len() && 0 <= j < v.len() && i != j ==> (#[trigger] v[i]).0
        != (#[trigger] v[j]).0
}

/// Rooms by identifier, each with a handle of type `H`.
pub struct Registry<H> {
    rooms: Vec<(String, H)>,
}

impl<H> View for Registry<H> {
    type V = Seq<(Seq<char>, H)>;

    closed spec fn view(&self) -> Seq<(Seq<char>, H)> {
        self.rooms@.map_values(|e: (String, H)| (e.0@, e.1))
    }
}

impl<H> Registry<H> {
    /// The registry is well formed when no identifier names two rooms.
    pub open spec fn wf(&self) -> bool {
        keys_unique(self@)
    }

    /// A registry without rooms.
    pub fn new() -> (r: Registry<H>)
        ensures
            r.wf(),
            r@ == Seq::<(Seq<char>, H)>::empty(),
    {
        let r = Registry { rooms: Vec::new() };
        assert(r@ =~= Seq::<(Seq<char>, H)>::empty());
        r
    }

    /// How many rooms exist.
    pub fn len(&self) -> (r: usize)
        ensures
            r == self@.len(),
    {
        self.rooms.len()
    }

    /// The position of the room named `room_id`, adding `fresh` under that
    /// name first if there is none.
    pub fn resolve_or_create(&mut self, room_id: String, fresh: H) -> (r: usize)
        requires
            old(self).wf(),
        ensures
            final(self).wf(),
            final(self)@ == after_resolve(old(self)@, room_id@, fresh),
            r < final(self)@.len(),
            final(self)@[r as int].0 == room_id@,
    {
        let mut i: usize = 0;
        while i < self.rooms.len()
            invariant
                i <= self@.len(),
                self@ == old(self)@,
                self.wf(),
                self@.len() == self.rooms@.len(),
                forall|j: int| 0 <= j < i ==> (#[trigger] self@[j]).0 != room_id@,
            decreases self.rooms@.len() - i,
        {
            if same_text(self.rooms[i].0.as_str(), room_id.as_str()) {
                assert(self@[i as int].0 == room_id@);
                return i;
            }
            i = i + 1;
        }
        let ghost before = self@;
        self.rooms.push((room_id, fresh));
        assert(self@ =~= before.push((room_id@, fresh)));
        assert(!exists|j: int| 0 <= j < before.len() && (#[trigger] before[j]).0 == room_id@);
        i
    }

    /// Takes the room named `room_id` out of the registry, if there is one,
    /// and returns its handle.
    pub fn remove(&mut self, room_id: &str) -> (r: Option<H>)
        requires
            old(self).wf(),
        ensures
            final(self).wf(),
            (exists|k: int| 0 <= k < old(self)@.len() && (#[trigger] old(self)@[k]).0 == room_id@)
                == r is Some,
            forall|k: int|
                0 <= k < old(self)@.len() && (#[trigger] old(self)@[k]).0 == room_id@ ==> r == Some(
                    old(self)@[k].1,
                ) && final(self)@ == old(self)@.remove(k),
            r is None ==> final(self)@ == old(self)@,
    {
        let mut i: usize = 0;
        while i < self.rooms.len()
            invariant
                i <= self@.len(),
                self@ == old(self)@,
                self.wf(),
                self@.len() == self.rooms@.len(),
                forall|j: int| 0 <= j < i ==> (#[trigger] self@[j]).0 != room_id@,
            decreases self.rooms@.len() - i,
        {
            if same_text(self.rooms[i].0.as_str(), room_id) {
                let ghost before = self@;
                assert(before[i as int].0 == room_id@);
                let (_, h) = self.rooms.remove(i);
                assert(self@ =~= before.remove(i as int));
                assert forall|a: int, b: int|
                    0 <= a < self@.len() && 0 <= b < self@.len() && a != b implies (
                    #[trigger] self@[a]).0 != (#[trigger] self@[b]).0 by {
                    let a0 = if a < i { a } else { a + 1 };
                    let b0 = if b < i { b } else { b + 1 };
                    assert(self@[a] == before[a0]);
                    assert(self@[b] == before[b0]);
                }
                return Some(h);
            }
            i = i + 1;
        }
        None
    }

    /// The handle of the room at position `i`.
    pub fn room(&self, i: usize) -> (r: &H)
        requires
            i < self@.len(),
        ensures
            *r == self@[i as int].1,
    {
        &self.rooms[i].1
    }
}

/// However many connections resolve the same identifier, one after another
/// in any order and each with a fresh room of its own, after the first the
/// registry no longer changes, and the identifier names exactly one room.
pub proof fn one_room_per_identifier<H>(v: Seq<(Seq<char>, H)>, key: Seq<char>, f1: H, f2: H)
    requires
        keys_unique(v),
    ensures
        after_resolve(after_resolve(v, key, f1), key, f2) == after_resolve(v, key, f1),
        exists|i: int|
            0 <= i < after_resolve(v, key, f1).len() && (#[trigger] after_resolve(v, key, f1)[i]).0
                == key,
        forall|i: int, j: int|
            0 <= i < after_resolve(v, key, f1).len() && 0 <= j < after_resolve(v, key, f1).len()
                && (#[trigger] after_resolve(v, key, f1)[i]).0 == key && (#[trigger] after_resolve(
                v,
                key,
                f1,
            )[j]).0 == key ==> i == j,
{
    let v1 = after_resolve(v, key, f1);
    if !exists|i: int| 0 <= i < v.len() && (#[trigger] v[i]).0 == key {
        assert(v1[v.len() as int].0 == key);
        assert forall|i: int, j: int|
            0 <= i < v1.len() && 0 <= j < v1.len() && (#[trigger] v1[i]).0 == key && (
            #[trigger] v1[j]).0 == key implies i == j by {
            if i < v.len() {
                assert(v[i] == v1[i]);
            }
            if j < v.len() {
                assert(v[j] == v1[j]);
            }
        }
    }
}

} // verus!
