//! In-process WebSocket hub: which connections each user has, and which
//! users are in each conversation room.  Realtime events are delivered to
//! the connections this hub selects.
use std::collections::{HashMap, HashSet};
use vstd::prelude::*;
use vstd::std_specs::iter::IteratorSpec;

use crate::ids::new_id;

verus! {

broadcast use vstd::std_specs::hash::group_hash_axioms;

/// Model of the hub: `(user, connection)` pairs and `(room, user)` pairs.
pub struct HubView {
    pub conns: Set<(u128, u128)>,
    pub members: Set<(u128, u128)>,
}

pub open spec fn has_conn(conns: Set<(u128, u128)>, u: u128) -> bool {
    exists|c: u128| conns.contains((u, c))
}

/// The users with at least one connection.
pub open spec fn online_users(conns: Set<(u128, u128)>) -> Set<u128> {
    Set::new(|u: u128| has_conn(conns, u))
}

pub open spec fn connect_spec(h: HubView, u: u128, c: u128) -> HubView {
    HubView { conns: h.conns.insert((u, c)), ..h }
}

/// The memberships of every user except `u`.
pub open spec fn without_member(m: Set<(u128, u128)>, u: u128) -> Set<(u128, u128)> {
    Set::new(|p: (u128, u128)| m.contains(p) && p.1 != u)
}

/// Removing a connection; when it was the user's last one the user also
/// leaves every room.
pub open spec fn disconnect_spec(h: HubView, u: u128, c: u128) -> HubView {
    let rest = h.conns.remove((u, c));
    if h.conns.contains((u, c)) && !has_conn(rest, u) {
        HubView { conns: rest, members: without_member(h.members, u) }
    } else {
        HubView { conns: rest, ..h }
    }
}

pub open spec fn join_spec(h: HubView, u: u128, r: u128) -> HubView {
    HubView { members: h.members.insert((r, u)), ..h }
}

pub open spec fn leave_spec(h: HubView, u: u128, r: u128) -> HubView {
    HubView { members: h.members.remove((r, u)), ..h }
}

/// The connections an event for room `r` goes to: every connection of
/// every member of the room.
pub open spec fn room_targets(h: HubView, r: u128) -> Set<(u128, u128)> {
    Set::new(|p: (u128, u128)| h.members.contains((r, p.0)) && h.conns.contains(p))
}

/// The pairs `(key, element)` of a map from ids to sets of ids.
pub open spec fn pairs_of(m: Map<u128, HashSet<u128>>) -> Set<(u128, u128)> {
    Set::new(|p: (u128, u128)| m.contains_key(p.0) && m[p.0]@.contains(p.1))
}

/// The hub: for each user the set of their connections, for each room the
/// set of its members.
pub struct Hub {
    users: HashMap<u128, HashSet<u128>>,
    rooms: HashMap<u128, HashSet<u128>>,
}

impl View for Hub {
    type V = HubView;

    closed spec fn view(&self) -> HubView {
        HubView { conns: pairs_of(self.users@), members: pairs_of(self.rooms@) }
    }
}

proof fn lemma_push_contains(s: Seq<u128>, x: u128, y: u128)
    ensures
        s.push(x).contains(y) <==> s.contains(y) || x == y,
{
    if s.contains(y) {
        let k = choose|k: int| 0 <= k < s.len() && s[k] == y;
        assert(s.push(x)[k] == y);
    }
    if x == y {
        assert(s.push(x)[s.len() as int] == y);
    }
    if s.push(x).contains(y) && x != y {
        let k = choose|k: int| 0 <= k < s.len() + 1 && s.push(x)[k] == y;
        assert(s[k] == y);
    }
}

/// The keys of a map, each once.
fn keys_of(m: &HashMap<u128, HashSet<u128>>) -> (ks: Vec<u128>)
    ensures
        ks@.no_duplicates(),
        ks@.to_set() == m@.dom(),
{
    let mut ks: Vec<u128> = Vec::new();
    for k in it: m.keys()
        invariant
            ks@ == it.seq().take(it.index()).unref(),
            it.seq() == m.keys().remaining(),
    {
        ks.push(*k);
        assert(it.seq().take(it.index() + 1).unref() =~= it.seq().take(it.index()).unref().push(*k));
    }
    assert(ks@ =~= m.keys().remaining().unref());
    ks
}

/// The elements of a set, each once.
fn elems_of(s: &HashSet<u128>) -> (xs: Vec<u128>)
    ensures
        xs@.no_duplicates(),
        xs@.to_set() == s@,
{
    let mut xs: Vec<u128> = Vec::new();
    for x in it: s.iter()
        invariant
            xs@ == it.seq().take(it.index()).unref(),
            it.seq() == s.iter().remaining(),
    {
        xs.push(*x);
        assert(it.seq().take(it.index() + 1).unref() =~= it.seq().take(it.index()).unref().push(*x));
    }
    assert(xs@ =~= s.iter().remaining().unref());
    xs
}

/// Appends `(u, c)` for every `c` of `cs`.
fn push_pairs(out: &mut Vec<(u128, u128)>, u: u128, cs: &Vec<u128>)
    requires
        old(out)@.no_duplicates(),
        cs@.no_duplicates(),
        forall|p: (u128, u128)| #[trigger] old(out)@.contains(p) ==> p.0 != u,
    ensures
        final(out)@.no_duplicates(),
        forall|p: (u128, u128)|
            #[trigger] final(out)@.contains(p) <==> old(out)@.contains(p) || (p.0 == u && cs@.contains(p.1)),
{
    let mut j: usize = 0;
    while j < cs.len()
        invariant
            j <= cs@.len(),
            cs@.no_duplicates(),
            out@.no_duplicates(),
            forall|p: (u128, u128)| #[trigger] old(out)@.contains(p) ==> p.0 != u,
            forall|p: (u128, u128)|
                #[trigger] out@.contains(p) <==> old(out)@.contains(p) || (p.0 == u && cs@.take(j as int).contains(
                    p.1,
                )),
        decreases cs@.len() - j,
    {
        let c = cs[j];
        proof {
            assert(!out@.contains((u, c))) by {
                if cs@.take(j as int).contains(c) {
                    let k = choose|k: int| 0 <= k < j && cs@.take(j as int)[k] == c;
                    assert(cs@[k] == cs@[j as int]);
                }
            }
        }
        let ghost prev = out@;
        out.push((u, c));
        proof {
            assert(cs@.take(j + 1) =~= cs@.take(j as int).push(c));
            assert forall|p: (u128, u128)| #[trigger] out@.contains(p) <==> prev.contains(p) || p == (u, c) by {
                if out@.contains(p) && p != (u, c) {
                    let k = choose|k: int| 0 <= k < out@.len() && out@[k] == p;
                    assert(prev[k] == p);
                }
                if prev.contains(p) {
                    let k = choose|k: int| 0 <= k < prev.len() && prev[k] == p;
                    assert(out@[k] == p);
                }
                if p == (u, c) {
                    assert(out@[out@.len() - 1] == p);
                }
            }
            assert forall|p: (u128, u128)| #[trigger] out@.contains(p) <==> old(out)@.contains(p) || (p.0 == u
                && cs@.take(j + 1).contains(p.1)) by {
                lemma_push_contains(cs@.take(j as int), c, p.1);
            }
        }
        j = j + 1;
    }
    proof {
        assert(cs@.take(cs@.len() as int) =~= cs@);
    }
}

impl Hub {
    /// Appends `(u, c)` for every connection `c` of `u`.
    fn push_user_pairs(&self, out: &mut Vec<(u128, u128)>, u: u128)
        requires
            old(out)@.no_duplicates(),
            forall|p: (u128, u128)| #[trigger] old(out)@.contains(p) ==> p.0 != u,
        ensures
            final(out)@.no_duplicates(),
            forall|p: (u128, u128)|
                #[trigger] final(out)@.contains(p) <==> old(out)@.contains(p) || (p.0 == u && pairs_of(
                    self.users@,
                ).contains(p)),
    {
        match self.users.get(&u) {
            Some(cs) => {
                let cv = elems_of(cs);
                proof {
                    assert forall|x: u128| #[trigger] cv@.contains(x) <==> self.users@[u]@.contains(x) by {
                        assert(cv@.to_set().contains(x) == cv@.contains(x));
                    }
                }
                push_pairs(out, u, &cv);
            },
            None => {},
        }
    }

    /// Well-formedness: a user is listed only while they have a connection.
    pub closed spec fn wf(&self) -> bool {
        forall|u: u128| #[trigger] self.users@.contains_key(u) ==> !self.users@[u]@.is_empty()
    }

    pub fn new() -> (h: Hub)
        ensures
            h.wf(),
            h@.conns == Set::<(u128, u128)>::empty(),
            h@.members == Set::<(u128, u128)>::empty(),
    {
        let h = Hub { users: HashMap::new(), rooms: HashMap::new() };
        assert(h@.conns =~= Set::<(u128, u128)>::empty());
        assert(h@.members =~= Set::<(u128, u128)>::empty());
        h
    }

    /// Registers connection `conn` of `user`.
    pub fn connect_with(&mut self, user: u128, conn: u128)
        requires
            old(self).wf(),
        ensures
            final(self).wf(),
            final(self)@ == connect_spec(old(self)@, user, conn),
    {
        let mut set = match self.users.remove(&user) {
            Some(s) => s,
            None => HashSet::new(),
        };
        set.insert(conn);
        self.users.insert(user, set);
        proof {
            assert(self.users@[user]@.contains(conn));
            assert(self@.conns =~= old(self)@.conns.insert((user, conn)));
            assert(self@.members == old(self)@.members);
        }
    }

    /// Registers a new connection of `user` under a fresh random id, which
    /// is returned.
    pub fn connect(&mut self, user: u128) -> (conn: u128)
        requires
            old(self).wf(),
        ensures
            final(self).wf(),
            final(self)@ == connect_spec(old(self)@, user, conn),
    {
        let conn = new_id();
        self.connect_with(user, conn);
        conn
    }

    /// Takes `user` out of every room.
    fn leave_every_room(&mut self, user: u128)
        requires
            old(self).wf(),
        ensures
            final(self).wf(),
            final(self).users@ == old(self).users@,
            pairs_of(final(self).rooms@) == without_member(pairs_of(old(self).rooms@), user),
    {
        let ks = keys_of(&self.rooms);
        let mut i: usize = 0;
        while i < ks.len()
            invariant
                i <= ks@.len(),
                ks@.no_duplicates(),
                ks@.to_set() == old(self).rooms@.dom(),
                self.users@ == old(self).users@,
                old(self).wf(),
                self.rooms@.dom() == old(self).rooms@.dom(),
                forall|r: u128|
                    #[trigger] self.rooms@.contains_key(r) ==> self.rooms@[r]@ == if ks@.take(i as int).contains(r) {
                        old(self).rooms@[r]@.remove(user)
                    } else {
                        old(self).rooms@[r]@
                    },
            decreases ks@.len() - i,
        {
            let r = ks[i];
            proof {
                assert(ks@.to_set().contains(r));
                assert(!ks@.take(i as int).contains(r)) by {
                    if ks@.take(i as int).contains(r) {
                        let k = choose|k: int| 0 <= k < i && ks@.take(i as int)[k] == r;
                        assert(ks@[k] == ks@[i as int]);
                    }
                }
            }
            let ghost before = self.rooms@;
            match self.rooms.remove(&r) {
                Some(mut s) => {
                    s.remove(&user);
                    self.rooms.insert(r, s);
                },
                None => {},
            }
            proof {
                assert(ks@.take(i + 1) =~= ks@.take(i as int).push(r));
                assert(self.rooms@.dom() =~= old(self).rooms@.dom());
                assert forall|r2: u128| #[trigger] self.rooms@.contains_key(r2) implies self.rooms@[r2]@ == if ks@.take(
                    i + 1,
                ).contains(r2) {
                    old(self).rooms@[r2]@.remove(user)
                } else {
                    old(self).rooms@[r2]@
                } by {
                    lemma_push_contains(ks@.take(i as int), r, r2);
                    if r2 != r {
                        assert(before.contains_key(r2));
                    }
                }
            }
            i = i + 1;
        }
        proof {
            assert(ks@.take(ks@.len() as int) =~= ks@);
            assert forall|r: u128| #[trigger] self.rooms@.contains_key(r) implies self.rooms@[r]@ == old(
                self,
            ).rooms@[r]@.remove(user) by {
                assert(ks@.to_set().contains(r));
            }
            assert(pairs_of(self.rooms@) =~= without_member(pairs_of(old(self).rooms@), user));
        }
    }

    /// Drops connection `conn` of `user`; when it was the user's last one
    /// the user also leaves every room.
    pub fn disconnect(&mut self, user: u128, conn: u128)
        requires
            old(self).wf(),
        ensures
            final(self).wf(),
            final(self)@ == disconnect_spec(old(self)@, user, conn),
    {
        let ghost h0 = old(self)@;
        let mut last = false;
        match self.users.remove(&user) {
            Some(mut set) => {
                set.remove(&conn);
                if set.is_empty() {
                    last = true;
                } else {
                    self.users.insert(user, set);
                }
            },
            None => {},
        }
        proof {
            let rest = h0.conns.remove((user, conn));
            if old(self).users@.contains_key(user) {
                let s0 = old(self).users@[user]@;
                assert(!s0.is_empty());
                if last {
                    assert(s0.remove(conn).is_empty());
                    assert(s0.contains(conn)) by {
                        let c = choose|c: u128| s0.contains(c);
                        if c != conn {
                            assert(s0.remove(conn).contains(c));
                        }
                    }
                    assert(h0.conns.contains((user, conn)));
                    assert(pairs_of(self.users@) =~= rest);
                    assert(!has_conn(rest, user));
                } else {
                    assert(pairs_of(self.users@) =~= rest);
                    if h0.conns.contains((user, conn)) {
                        let c = choose|c: u128| self.users@[user]@.contains(c);
                        assert(rest.contains((user, c)));
                    }
                }
            } else {
                assert(pairs_of(self.users@) =~= h0.conns);
                assert(!h0.conns.contains((user, conn)));
                assert(rest =~= h0.conns);
            }
        }
        if last {
            self.leave_every_room(user);
        }
    }

    /// Whether `user` has at least one connection.
    pub fn is_online(&self, user: u128) -> (r: bool)
        requires
            self.wf(),
        ensures
            r == has_conn(self@.conns, user),
    {
        let r = self.users.contains_key(&user);
        proof {
            if r {
                assert(!self.users@[user]@.is_empty());
                let c = choose|c: u128| self.users@[user]@.contains(c);
                assert(self@.conns.contains((user, c)));
            }
        }
        r
    }

    /// A hub has finitely many online users: they are the keys of its map.
    pub proof fn lemma_online_finite(&self)
        requires
            self.wf(),
        ensures
            online_users(self@.conns).finite(),
    {
        assert forall|u: u128| #[trigger] online_users(self@.conns).contains(u) <==> self.users@.dom().contains(u) by {
            if self.users@.contains_key(u) {
                assert(!self.users@[u]@.is_empty());
                let c = choose|c: u128| self.users@[u]@.contains(c);
                assert(self@.conns.contains((u, c)));
            }
        }
        assert(online_users(self@.conns) =~= self.users@.dom());
    }

    /// Number of users with at least one connection.
    pub fn online_count(&self) -> (n: usize)
        requires
            self.wf(),
        ensures
            n == online_users(self@.conns).len(),
    {
        proof {
            assert forall|u: u128| #[trigger] online_users(self@.conns).contains(u) <==> self.users@.dom().contains(u) by {
                if self.users@.contains_key(u) {
                    assert(!self.users@[u]@.is_empty());
                    let c = choose|c: u128| self.users@[u]@.contains(c);
                    assert(self@.conns.contains((u, c)));
                }
            }
            assert(online_users(self@.conns) =~= self.users@.dom());
        }
        self.users.len()
    }

    /// Adds `user` to room `room`.
    pub fn join_room(&mut self, user: u128, room: u128)
        requires
            old(self).wf(),
        ensures
            final(self).wf(),
            final(self)@ == join_spec(old(self)@, user, room),
    {
        let mut set = match self.rooms.remove(&room) {
            Some(s) => s,
            None => HashSet::new(),
        };
        set.insert(user);
        self.rooms.insert(room, set);
        proof {
            assert(self@.members =~= old(self)@.members.insert((room, user)));
            assert(self@.conns == old(self)@.conns);
        }
    }

    /// Removes `user` from room `room`.
    pub fn leave_room(&mut self, user: u128, room: u128)
        requires
            old(self).wf(),
        ensures
            final(self).wf(),
            final(self)@ == leave_spec(old(self)@, user, room),
    {
        match self.rooms.remove(&room) {
            Some(mut s) => {
                s.remove(&user);
                self.rooms.insert(room, s);
            },
            None => {},
        }
        proof {
            assert(self@.members =~= old(self)@.members.remove((room, user)));
            assert(self@.conns == old(self)@.conns);
        }
    }

    /// The connections an event for `room` is delivered to, each once.
    pub fn room_connections(&self, room: u128) -> (r: Vec<(u128, u128)>)
        requires
            self.wf(),
        ensures
            r@.no_duplicates(),
            r@.to_set() == room_targets(self@, room),
    {
        let mut out: Vec<(u128, u128)> = Vec::new();
        match self.rooms.get(&room) {
            Some(members) => {
                let ms = elems_of(members);
                let mut i: usize = 0;
                while i < ms.len()
                    invariant
                        i <= ms@.len(),
                        ms@.no_duplicates(),
                        out@.no_duplicates(),
                        forall|p: (u128, u128)|
                            #[trigger] out@.contains(p) <==> ms@.take(i as int).contains(p.0) && pairs_of(
                                self.users@,
                            ).contains(p),
                    decreases ms@.len() - i,
                {
                    let u = ms[i];
                    proof {
                        assert(!ms@.take(i as int).contains(u)) by {
                            if ms@.take(i as int).contains(u) {
                                let k = choose|k: int| 0 <= k < i && ms@.take(i as int)[k] == u;
                                assert(ms@[k] == ms@[i as int]);
                            }
                        }
                        assert(ms@.take(i + 1) =~= ms@.take(i as int).push(u));
                    }
                    self.push_user_pairs(&mut out, u);
                    proof {
                        assert forall|p: (u128, u128)| #[trigger] out@.contains(p) <==> ms@.take(i + 1).contains(p.0)
                            && pairs_of(self.users@).contains(p) by {
                            lemma_push_contains(ms@.take(i as int), u, p.0);
                        }
                    }
                    i = i + 1;
                }
                proof {
                    assert(ms@.take(ms@.len() as int) =~= ms@);
                    assert(out@.to_set() =~= room_targets(self@, room)) by {
                        assert forall|p: (u128, u128)| #[trigger] room_targets(self@, room).contains(p) implies out@.contains(
                            p,
                        ) by {
                            assert(ms@.to_set().contains(p.0));
                        }
                    }
                }
            },
            None => {
                assert(out@.to_set() =~= room_targets(self@, room));
            },
        }
        out
    }

    /// The connections of `user`.
    pub fn user_connections(&self, user: u128) -> (r: Vec<u128>)
        requires
            self.wf(),
        ensures
            r@.no_duplicates(),
            forall|c: u128| #[trigger] r@.contains(c) <==> self@.conns.contains((user, c)),
    {
        match self.users.get(&user) {
            Some(cs) => {
                let v = elems_of(cs);
                proof {
                    assert forall|c: u128| #[trigger] v@.contains(c) <==> self@.conns.contains((user, c)) by {
                        assert(v@.contains(c) <==> v@.to_set().contains(c));
                    }
                }
                v
            },
            None => Vec::new(),
        }
    }

    /// Every registered connection.
    pub fn all_connections(&self) -> (r: Vec<(u128, u128)>)
        requires
            self.wf(),
        ensures
            r@.no_duplicates(),
            r@.to_set() == self@.conns,
    {
        let us = keys_of(&self.users);
        let mut out: Vec<(u128, u128)> = Vec::new();
        let mut i: usize = 0;
        while i < us.len()
            invariant
                i <= us@.len(),
                us@.no_duplicates(),
                us@.to_set() == self.users@.dom(),
                out@.no_duplicates(),
                forall|p: (u128, u128)|
                    #[trigger] out@.contains(p) <==> us@.take(i as int).contains(p.0) && pairs_of(self.users@).contains(
                        p,
                    ),
            decreases us@.len() - i,
        {
            let u = us[i];
            proof {
                assert(!us@.take(i as int).contains(u)) by {
                    if us@.take(i as int).contains(u) {
                        let k = choose|k: int| 0 <= k < i && us@.take(i as int)[k] == u;
                        assert(us@[k] == us@[i as int]);
                    }
                }
                assert(us@.take(i + 1) =~= us@.take(i as int).push(u));
            }
            self.push_user_pairs(&mut out, u);
            proof {
                assert forall|p: (u128, u128)| #[trigger] out@.contains(p) <==> us@.take(i + 1).contains(p.0)
                    && pairs_of(self.users@).contains(p) by {
                    lemma_push_contains(us@.take(i as int), u, p.0);
                }
            }
            i = i + 1;
        }
        proof {
            assert(us@.take(us@.len() as int) =~= us@);
            assert(out@.to_set() =~= self@.conns) by {
                assert forall|p: (u128, u128)| #[trigger] self@.conns.contains(p) implies out@.contains(p) by {
                    assert(us@.to_set().contains(p.0));
                }
            }
        }
        out
    }
}

} // verus!
