//! One room: its members, each with the handle of its outbound channel, and
//! the log of durable messages replayed to newcomers. Every operation that
//! sends returns its deliveries, in the order they are to be enqueued.
use crate::wire::{new_user_message, new_user_text, status_message, status_text, user_left_message, user_left_text};
use vstd::prelude::*;

verus! {

/// One message for the outbound channel of one member.
pub struct Delivery {
    pub to: u8,
    pub text: String,
}

impl View for Delivery {
    type V = (u8, Seq<char>);

    open spec fn view(&self) -> (u8, Seq<char>) {
        (self.to, self.text@)
    }
}

/// A plan of deliveries as (recipient, text) pairs.
pub open spec fn plan_of(d: Seq<Delivery>) -> Seq<(u8, Seq<char>)> {
    d.map_values(|x: Delivery| x@)
}

/// The ids of `ids` other than `me`, in order.
pub open spec fn without(ids: Seq<u8>, me: u8) -> Seq<u8>
    decreases ids.len(),
{
    if ids.len() == 0 {
        Seq::empty()
    } else if ids.last() == me {
        without(ids.drop_last(), me)
    } else {
        without(ids.drop_last(), me).push(ids.last())
    }
}

/// `text` for every member of `ids` but `me`, in member order.
pub open spec fn fan_out(ids: Seq<u8>, me: u8, text: Seq<char>) -> Seq<(u8, Seq<char>)>
    decreases ids.len(),
{
    if ids.len() == 0 {
        Seq::empty()
    } else if ids.last() == me {
        fan_out(ids.drop_last(), me, text)
    } else {
        fan_out(ids.drop_last(), me, text).push((ids.last(), text))
    }
}

/// Each of `texts`, in order, for the one member `id`.
pub open spec fn to_one(id: u8, texts: Seq<Seq<char>>) -> Seq<(u8, Seq<char>)> {
    texts.map_values(|t: Seq<char>| (id, t))
}

/// What a plan hands to member `u`, in order.
pub open spec fn texts_for(d: Seq<(u8, Seq<char>)>, u: u8) -> Seq<Seq<char>>
    decreases d.len(),
{
    if d.len() == 0 {
        Seq::empty()
    } else if d.last().0 == u {
        texts_for(d.drop_last(), u).push(d.last().1)
    } else {
        texts_for(d.drop_last(), u)
    }
}

/// The deliveries of a join of `id` to a room whose members are then `ids`
/// and whose history is `hist`: the status to the newcomer, the history
/// replayed to it, then the announcement to everyone else.
pub open spec fn join_plan(ids: Seq<u8>, hist: Seq<Seq<char>>, id: u8) -> Seq<(u8, Seq<char>)> {
    seq![(id, status_text(id, ids))] + to_one(id, hist) + fan_out(ids, id, new_user_text(id))
}

proof fn lemma_without_members(ids: Seq<u8>, me: u8)
    ensures
        forall|u: u8| #[trigger] without(ids, me).contains(u) <==> (ids.contains(u) && u != me),
        ids.no_duplicates() ==> without(ids, me).no_duplicates(),
    decreases ids.len(),
{
    if ids.len() > 0 {
        let d = ids.drop_last();
        let x = ids.last();
        let w = without(d, me);
        lemma_without_members(d, me);
        lemma_push_members(d, x);
        assert(d.push(x) =~= ids);
        if x != me {
            lemma_push_members(w, x);
            if ids.no_duplicates() {
                assert(d.no_duplicates());
                lemma_push_fresh(w, x);
            }
        } else if ids.no_duplicates() {
            assert(d.no_duplicates());
        }
    }
}

proof fn lemma_push_members(s: Seq<u8>, x: u8)
    ensures
        forall|u: u8| #[trigger] s.push(x).contains(u) <==> (s.contains(u) || u == x),
        s.push(x).no_duplicates() ==> !s.contains(x),
{
    assert forall|u: u8| #[trigger] s.push(x).contains(u) <==> (s.contains(u) || u == x) by {
        if s.push(x).contains(u) {
            let j = choose|j: int| 0 <= j < s.push(x).len() && s.push(x)[j] == u;
            if j < s.len() {
                assert(s[j] == u);
            }
        }
        if s.contains(u) {
            let j = choose|j: int| 0 <= j < s.len() && s[j] == u;
            assert(s.push(x)[j] == u);
        }
        if u == x {
            assert(s.push(x)[s.len() as int] == u);
        }
    }
    if s.push(x).no_duplicates() && s.contains(x) {
        let j = choose|j: int| 0 <= j < s.len() && s[j] == x;
        assert(s.push(x)[j] == s.push(x)[s.len() as int]);
    }
}

proof fn lemma_without_absent(ids: Seq<u8>, me: u8)
    requires
        !ids.contains(me),
    ensures
        without(ids, me) == ids,
    decreases ids.len(),
{
    if ids.len() > 0 {
        let d = ids.drop_last();
        assert(!d.contains(me)) by {
            if d.contains(me) {
                let j = choose|j: int| 0 <= j < d.len() && d[j] == me;
                assert(ids[j] == me);
            }
        }
        lemma_without_absent(d, me);
        assert(ids[ids.len() - 1] != me);
        assert(d.push(ids.last()) =~= ids);
    }
}

proof fn lemma_remove_is_without(ids: Seq<u8>, k: int)
    requires
        ids.no_duplicates(),
        0 <= k < ids.len(),
    ensures
        ids.remove(k) == without(ids, ids[k]),
    decreases ids.len(),
{
    let me = ids[k];
    let d = ids.drop_last();
    if k == ids.len() - 1 {
        assert(!d.contains(me)) by {
            if d.contains(me) {
                let j = choose|j: int| 0 <= j < d.len() && d[j] == me;
                assert(ids[j] == ids[k]);
            }
        }
        lemma_without_absent(d, me);
        assert(ids.remove(k) =~= d);
    } else {
        assert(d.no_duplicates());
        assert(d[k] == me);
        lemma_remove_is_without(d, k);
        assert(ids[ids.len() - 1] != me);
        assert(ids.remove(k) =~= d.remove(k).push(ids.last()));
    }
}

proof fn lemma_push_fresh(s: Seq<u8>, x: u8)
    requires
        s.no_duplicates(),
        !s.contains(x),
    ensures
        s.push(x).no_duplicates(),
{
    assert forall|i: int, j: int|
        0 <= i < s.push(x).len() && 0 <= j < s.push(x).len() && i != j implies s.push(x)[i]
        != s.push(x)[j] by {
        if i < s.len() && j < s.len() {
        } else if i < s.len() {
            assert(s.push(x)[i] == s[i]);
        } else if j < s.len() {
            assert(s.push(x)[j] == s[j]);
        }
    }
}

proof fn lemma_texts_for_push(d: Seq<(u8, Seq<char>)>, p: (u8, Seq<char>), u: u8)
    ensures
        texts_for(d.push(p), u) == if p.0 == u {
            texts_for(d, u).push(p.1)
        } else {
            texts_for(d, u)
        },
{
    assert(d.push(p).drop_last() =~= d);
}

proof fn lemma_fan_out_texts(ids: Seq<u8>, me: u8, t: Seq<char>, u: u8)
    ensures
        u == me || !ids.contains(u) ==> texts_for(fan_out(ids, me, t), u) == Seq::<Seq<char>>::empty(),
        ids.no_duplicates() && ids.contains(u) && u != me ==> texts_for(fan_out(ids, me, t), u)
            == seq![t],
    decreases ids.len(),
{
    if ids.len() == 0 {
        return;
    }
    let d = ids.drop_last();
    let x = ids.last();
    lemma_fan_out_texts(d, me, t, u);
    lemma_push_members(d, x);
    assert(d.push(x) =~= ids);
    if ids.no_duplicates() {
        assert(d.no_duplicates());
    }
    if x != me {
        lemma_texts_for_push(fan_out(d, me, t), (x, t), u);
    }
    if ids.no_duplicates() && ids.contains(u) && u != me && x == u {
        assert(texts_for(fan_out(d, me, t), u) =~= Seq::<Seq<char>>::empty());
        assert(Seq::<Seq<char>>::empty().push(t) =~= seq![t]);
    }
}

proof fn lemma_to_one_texts(id: u8, h: Seq<Seq<char>>, u: u8)
    ensures
        texts_for(to_one(id, h), u) == if u == id {
            h
        } else {
            Seq::<Seq<char>>::empty()
        },
    decreases h.len(),
{
    if h.len() > 0 {
        lemma_to_one_texts(id, h.drop_last(), u);
        assert(to_one(id, h) =~= to_one(id, h.drop_last()).push((id, h.last())));
        lemma_texts_for_push(to_one(id, h.drop_last()), (id, h.last()), u);
        assert(h.drop_last().push(h.last()) =~= h);
    } else {
        assert(to_one(id, h) =~= Seq::<(u8, Seq<char>)>::empty());
        assert(h =~= Seq::<Seq<char>>::empty());
    }
}

/// What one plan and then another hand to a member is what the first hands
/// to it followed by what the second does: enqueuing plans one after another
/// keeps each recipient's order.
pub proof fn plans_keep_order(a: Seq<(u8, Seq<char>)>, b: Seq<(u8, Seq<char>)>, u: u8)
    ensures
        texts_for(a + b, u) == texts_for(a, u) + texts_for(b, u),
    decreases b.len(),
{
    if b.len() == 0 {
        assert(a + b =~= a);
        assert(texts_for(a, u) + texts_for(b, u) =~= texts_for(a, u));
    } else {
        let c = b.drop_last();
        plans_keep_order(a, c, u);
        assert(a + b =~= (a + c).push(b.last()));
        assert(c.push(b.last()) =~= b);
        lemma_texts_for_push(a + c, b.last(), u);
        lemma_texts_for_push(c, b.last(), u);
        assert((texts_for(a, u) + texts_for(c, u)).push(b.last().1) =~= texts_for(a, u) + texts_for(
            c,
            u,
        ).push(b.last().1));
    }
}

/// A broadcast hands nothing to its sender.
pub proof fn broadcast_skips_sender(ids: Seq<u8>, me: u8, t: Seq<char>)
    ensures
        texts_for(fan_out(ids, me, t), me) == Seq::<Seq<char>>::empty(),
        forall|k: int| 0 <= k < fan_out(ids, me, t).len() ==> (#[trigger] fan_out(ids, me, t)[k]).0 != me,
    decreases ids.len(),
{
    lemma_fan_out_texts(ids, me, t, me);
    if ids.len() > 0 {
        broadcast_skips_sender(ids.drop_last(), me, t);
    }
}

/// A broadcast hands its text exactly once to every member but the sender,
/// whatever becomes of the other members' channels.
pub proof fn broadcast_reaches_each_other_member(ids: Seq<u8>, me: u8, t: Seq<char>, u: u8)
    requires
        ids.no_duplicates(),
        ids.contains(u),
        u != me,
    ensures
        texts_for(fan_out(ids, me, t), u) == seq![t],
{
    lemma_fan_out_texts(ids, me, t, u);
}

/// A newcomer is handed its status and then the history, in order, and
/// nothing else of its join: not its own announcement.
pub proof fn join_replays_history(ids: Seq<u8>, h: Seq<Seq<char>>, id: u8)
    ensures
        texts_for(join_plan(ids, h, id), id) == seq![status_text(id, ids)] + h,
{
    let head = seq![(id, status_text(id, ids))];
    plans_keep_order(head + to_one(id, h), fan_out(ids, id, new_user_text(id)), id);
    plans_keep_order(head, to_one(id, h), id);
    lemma_to_one_texts(id, h, id);
    lemma_fan_out_texts(ids, id, new_user_text(id), id);
    assert(head =~= Seq::<(u8, Seq<char>)>::empty().push((id, status_text(id, ids))));
    lemma_texts_for_push(Seq::<(u8, Seq<char>)>::empty(), (id, status_text(id, ids)), id);
    assert(texts_for(Seq::<(u8, Seq<char>)>::empty(), id) =~= Seq::<Seq<char>>::empty());
    assert(texts_for(head, id) =~= seq![status_text(id, ids)]);
    assert(seq![status_text(id, ids)] + h + Seq::<Seq<char>>::empty() =~= seq![status_text(id, ids)]
        + h);
}

/// When a member leaves, it is no longer a member, and every remaining member
/// is handed exactly one announcement of the departure.
pub proof fn departure_announced_once(ids: Seq<u8>, leaver: u8, u: u8)
    requires
        ids.no_duplicates(),
        ids.contains(u),
        u != leaver,
    ensures
        !without(ids, leaver).contains(leaver),
        without(ids, leaver).contains(u),
        texts_for(fan_out(without(ids, leaver), leaver, user_left_text(leaver)), u) == seq![
            user_left_text(leaver),
        ],
{
    lemma_without_members(ids, leaver);
    lemma_fan_out_texts(without(ids, leaver), leaver, user_left_text(leaver), u);
}

/// A member of a room: its id and the handle of its outbound channel.
pub struct Member<S> {
    pub id: u8,
    pub tx: S,
}

/// A room, generic over the handle `S` of a member's outbound channel.
pub struct Room<S> {
    users: Vec<Member<S>>,
    state: Vec<String>,
    limit: Option<usize>,
}

/// The last `limit` messages of `h`, or all of them where there is no limit.
pub open spec fn keep_last(h: Seq<Seq<char>>, limit: Option<nat>) -> Seq<Seq<char>> {
    match limit {
        Some(m) => if h.len() > m {
            h.subrange(h.len() - m, h.len() as int)
        } else {
            h
        },
        None => h,
    }
}

/// A room with no member, an empty history and no bound on its history.
pub fn create_room<S>() -> (r: Room<S>)
    ensures
        r.wf(),
        r.ids() == Seq::<u8>::empty(),
        r.history() == Seq::<Seq<char>>::empty(),
        r.history_limit() == None::<nat>,
{
    let r = Room { users: Vec::new(), state: Vec::new(), limit: None };
    assert(r.ids() =~= Seq::<u8>::empty());
    assert(r.history() =~= Seq::<Seq<char>>::empty());
    r
}

/// A room with no member and an empty history that keeps only the last
/// `max` durable messages.
pub fn create_bounded_room<S>(max: usize) -> (r: Room<S>)
    ensures
        r.wf(),
        r.ids() == Seq::<u8>::empty(),
        r.history() == Seq::<Seq<char>>::empty(),
        r.history_limit() == Some(max as nat),
{
    let r = Room { users: Vec::new(), state: Vec::new(), limit: Some(max) };
    assert(r.ids() =~= Seq::<u8>::empty());
    assert(r.history() =~= Seq::<Seq<char>>::empty());
    r
}

impl<S> Room<S> {
    /// The ids of the members, in the order they joined.
    pub closed spec fn ids(&self) -> Seq<u8> {
        self.users@.map_values(|m: Member<S>| m.id)
    }

    /// The channel handles of the members, in the same order as `ids`.
    pub closed spec fn handles(&self) -> Seq<S> {
        self.users@.map_values(|m: Member<S>| m.tx)
    }

    /// The durable messages, oldest first.
    pub closed spec fn history(&self) -> Seq<Seq<char>> {
        self.state@.map_values(|s: String| s@)
    }

    /// How many durable messages the room keeps at most, if it is bounded.
    pub closed spec fn history_limit(&self) -> Option<nat> {
        match self.limit {
            Some(m) => Some(m as nat),
            None => None,
        }
    }

    /// No id is a member twice, each id has one handle, and the history is
    /// within its bound.
    pub open spec fn wf(&self) -> bool {
        &&& self.ids().no_duplicates()
        &&& self.handles().len() == self.ids().len()
        &&& self.history_limit() matches Some(m) ==> self.history().len() <= m
    }

    proof fn lemma_lengths(&self)
        ensures
            self.ids().len() == self.users@.len(),
            self.handles().len() == self.users@.len(),
    {
    }

    /// The ids of the members.
    pub fn member_ids(&self) -> (r: Vec<u8>)
        ensures
            r@ == self.ids(),
    {
        let mut r: Vec<u8> = Vec::new();
        let mut i: usize = 0;
        while i < self.users.len()
            invariant
                i <= self.users@.len(),
                r@ == self.ids().take(i as int),
            decreases self.users@.len() - i,
        {
            r.push(self.users[i].id);
            assert(self.ids().take(i + 1) =~= self.ids().take(i as int).push(self.users@[i as int].id));
            i = i + 1;
        }
        assert(self.ids().take(i as int) =~= self.ids());
        r
    }

    /// Whether the room has no member.
    pub fn is_empty(&self) -> (r: bool)
        ensures
            r == (self.ids().len() == 0),
    {
        proof {
            self.lemma_lengths();
        }
        self.users.len() == 0
    }

    /// How many durable messages the room holds.
    pub fn history_len(&self) -> (r: usize)
        ensures
            r == self.history().len(),
    {
        self.state.len()
    }

    /// The position of member `id`, if it is one.
    fn find(&self, id: u8) -> (r: Option<usize>)
        ensures
            r is Some <==> self.ids().contains(id),
            r matches Some(k) ==> k < self.ids().len() && self.ids()[k as int] == id,
    {
        let mut i: usize = 0;
        while i < self.users.len()
            invariant
                i <= self.users@.len(),
                forall|j: int| 0 <= j < i ==> self.ids()[j] != id,
            decreases self.users@.len() - i,
        {
            if self.users[i].id == id {
                assert(self.ids()[i as int] == id);
                return Some(i);
            }
            i = i + 1;
        }
        None
    }

    /// Whether `id` is a member.
    pub fn is_member(&self, id: u8) -> (r: bool)
        ensures
            r == self.ids().contains(id),
    {
        self.find(id).is_some()
    }

    /// The channel handle of member `id`, if it is one.
    pub fn sender(&self, id: u8) -> (r: Option<&S>)
        ensures
            r is Some <==> self.ids().contains(id),
            r matches Some(t) ==> exists|k: int|
                0 <= k < self.ids().len() && self.ids()[k] == id && self.handles()[k] == *t,
    {
        match self.find(id) {
            Some(k) => {
                let t = &self.users[k].tx;
                assert(self.handles()[k as int] == *t);
                Some(t)
            },
            None => None,
        }
    }

    /// `text` for every member but `me`.
    pub fn broadcast(&self, me: u8, text: &String) -> (r: Vec<Delivery>)
        ensures
            plan_of(r@) == fan_out(self.ids(), me, text@),
    {
        let mut r: Vec<Delivery> = Vec::new();
        let mut i: usize = 0;
        while i < self.users.len()
            invariant
                i <= self.users@.len(),
                plan_of(r@) == fan_out(self.ids().take(i as int), me, text@),
            decreases self.users@.len() - i,
        {
            let u = self.users[i].id;
            assert(self.ids().take(i + 1).drop_last() =~= self.ids().take(i as int));
            if u != me {
                r.push(Delivery { to: u, text: text.clone() });
            }
            assert(plan_of(r@) =~= fan_out(self.ids().take(i + 1), me, text@));
            i = i + 1;
        }
        assert(self.ids().take(i as int) =~= self.ids());
        r
    }

    /// Takes member `id` out of the room, if it is one.
    fn remove_member(&mut self, id: u8)
        requires
            old(self).wf(),
        ensures
            final(self).wf(),
            final(self).ids() == without(old(self).ids(), id),
            final(self).history() == old(self).history(),
            final(self).history_limit() == old(self).history_limit(),
    {
        let ghost before = self.ids();
        match self.find(id) {
            Some(k) => {
                self.users.remove(k);
                assert(self.ids() =~= before.remove(k as int));
                proof {
                    lemma_remove_is_without(before, k as int);
                }
            },
            None => {
                proof {
                    lemma_without_absent(before, id);
                }
            },
        }
        proof {
            lemma_without_members(before, id);
            self.lemma_lengths();
        }
    }

    /// Appends a durable message to the history, dropping the oldest one
    /// where the history would exceed its bound.
    pub fn record(&mut self, text: String)
        requires
            old(self).wf(),
        ensures
            final(self).wf(),
            final(self).ids() == old(self).ids(),
            final(self).handles() == old(self).handles(),
            final(self).history_limit() == old(self).history_limit(),
            final(self).history() == keep_last(
                old(self).history().push(text@),
                old(self).history_limit(),
            ),
    {
        let ghost pushed = old(self).history().push(text@);
        self.state.push(text);
        assert(self.history() =~= pushed);
        match self.limit {
            Some(m) => {
                if self.state.len() > m {
                    self.state.remove(0);
                    assert(self.history() =~= pushed.subrange(pushed.len() - m, pushed.len() as int));
                }
            },
            None => {},
        }
        assert(self.ids() =~= old(self).ids());
        assert(self.handles() =~= old(self).handles());
    }

    /// Registers member `id` with channel handle `tx`, replacing an earlier
    /// registration of the same id. Returns the status for the newcomer, the
    /// history replayed to it, and the announcement to every other member.
    pub fn join(&mut self, id: u8, tx: S) -> (r: Vec<Delivery>)
        requires
            old(self).wf(),
        ensures
            final(self).wf(),
            final(self).ids() == without(old(self).ids(), id).push(id),
            final(self).handles().last() == tx,
            final(self).history() == old(self).history(),
            final(self).history_limit() == old(self).history_limit(),
            plan_of(r@) == join_plan(final(self).ids(), final(self).history(), id),
    {
        self.remove_member(id);
        let ghost kept = self.ids();
        proof {
            lemma_without_members(old(self).ids(), id);
            lemma_push_fresh(kept, id);
            self.lemma_lengths();
        }
        self.users.push(Member { id, tx });
        assert(self.ids() =~= kept.push(id));
        assert(self.handles().last() == tx);
        proof {
            self.lemma_lengths();
        }
        let ids = self.member_ids();
        let mut plan: Vec<Delivery> = Vec::new();
        plan.push(Delivery { to: id, text: status_message(id, &ids) });
        let ghost head = seq![(id, status_text(id, ids@))];
        assert(plan_of(plan@) =~= head);
        let mut i: usize = 0;
        while i < self.state.len()
            invariant
                i <= self.state@.len(),
                plan_of(plan@) == head + to_one(id, self.history().take(i as int)),
            decreases self.state@.len() - i,
        {
            let ghost prev = plan@;
            let entry = self.state[i].clone();
            assert(entry@ == self.history()[i as int]);
            plan.push(Delivery { to: id, text: entry });
            assert(plan_of(plan@) =~= plan_of(prev).push((id, self.history()[i as int])));
            assert(to_one(id, self.history().take(i + 1)) =~= to_one(
                id,
                self.history().take(i as int),
            ).push((id, self.history()[i as int])));
            assert(plan_of(plan@) =~= head + to_one(id, self.history().take(i + 1)));
            i = i + 1;
        }
        assert(self.history().take(i as int) =~= self.history());
        let ghost replay = plan@;
        let mut others = self.broadcast(id, &new_user_message(id));
        plan.append(&mut others);
        assert(plan_of(plan@) =~= plan_of(replay) + fan_out(self.ids(), id, new_user_text(id)));
        plan
    }

    /// Takes member `id` out of the room and announces its departure to every
    /// remaining member.
    pub fn leave(&mut self, id: u8) -> (r: Vec<Delivery>)
        requires
            old(self).wf(),
        ensures
            final(self).wf(),
            final(self).ids() == without(old(self).ids(), id),
            final(self).history() == old(self).history(),
            final(self).history_limit() == old(self).history_limit(),
            plan_of(r@) == fan_out(final(self).ids(), id, user_left_text(id)),
    {
        self.remove_member(id);
        self.broadcast(id, &user_left_message(id))
    }
}

} // verus!
