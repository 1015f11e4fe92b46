//! One realtime WebSocket session: the connection it holds in the hub and
//! the rooms it joined.  Room membership in the database is checked by the
//! caller; this decides what the session does with the answers.
use vstd::prelude::*;

use crate::hub::{connect_spec, disconnect_spec, has_conn, join_spec, leave_spec, Hub, HubView};

verus! {

/// Messages a client sends over the socket.
#[derive(Debug)]
pub enum ClientMsg {
    /// Join several rooms at once.
    Init { rooms: Vec<u128> },
    Join { room: u128 },
    Leave { room: u128 },
    Ping,
}

/// Joins `u` to each room in order.
pub open spec fn join_all(h: HubView, u: u128, rooms: Seq<u128>) -> HubView
    decreases rooms.len(),
{
    if rooms.len() == 0 {
        h
    } else {
        join_spec(join_all(h, u, rooms.drop_last()), u, rooms.last())
    }
}

/// Removes `u` from each room in order.
pub open spec fn leave_all(h: HubView, u: u128, rooms: Seq<u128>) -> HubView
    decreases rooms.len(),
{
    if rooms.len() == 0 {
        h
    } else {
        leave_spec(leave_all(h, u, rooms.drop_last()), u, rooms.last())
    }
}

/// The rooms of a checked list that the user is a member of.
pub open spec fn member_rooms(checked: Seq<(u128, bool)>) -> Seq<u128>
    decreases checked.len(),
{
    if checked.len() == 0 {
        Seq::empty()
    } else {
        let rest = member_rooms(checked.drop_last());
        if checked.last().1 {
            rest.push(checked.last().0)
        } else {
            rest
        }
    }
}

#[derive(Debug)]
pub struct WsSession {
    pub user: u128,
    pub conn: u128,
    pub joined: Vec<u128>,
}

impl WsSession {
    /// The rooms this session joined, in order (an `Init` may list a room
    /// twice).
    pub open spec fn joined(&self) -> Seq<u128> {
        self.joined@
    }

    /// Opens a session: registers a new connection of `user`.
    pub fn open(hub: &mut Hub, user: u128) -> (s: WsSession)
        requires
            old(hub).wf(),
        ensures
            final(hub).wf(),
            final(hub)@ == connect_spec(old(hub)@, user, s.conn),
            s.user == user,
            s.joined() == Seq::<u128>::empty(),
    {
        let conn = hub.connect(user);
        WsSession { user, conn, joined: Vec::new() }
    }

    /// `Init`: joins every listed room the user is a member of, in order.
    pub fn init(&mut self, hub: &mut Hub, checked: &Vec<(u128, bool)>)
        requires
            old(hub).wf(),
        ensures
            final(hub).wf(),
            final(hub)@ == join_all(old(hub)@, old(self).user, member_rooms(checked@)),
            final(self).joined() == old(self).joined() + member_rooms(checked@),
            final(self).user == old(self).user,
            final(self).conn == old(self).conn,
    {
        let mut i: usize = 0;
        assert(checked@.take(0) =~= Seq::<(u128, bool)>::empty());
        assert(self.joined@ + Seq::<u128>::empty() =~= self.joined@);
        while i < checked.len()
            invariant
                i <= checked@.len(),
                hub.wf(),
                hub@ == join_all(old(hub)@, self.user, member_rooms(checked@.take(i as int))),
                self.joined@ == old(self).joined@ + member_rooms(checked@.take(i as int)),
                self.user == old(self).user,
                self.conn == old(self).conn,
            decreases checked@.len() - i,
        {
            let (room, member) = checked[i];
            proof {
                assert(checked@.take(i + 1).drop_last() =~= checked@.take(i as int));
                assert(checked@.take(i + 1).last() == checked@[i as int]);
            }
            if member {
                hub.join_room(self.user, room);
                self.joined.push(room);
            }
            proof {
                let m0 = member_rooms(checked@.take(i as int));
                if member {
                    assert(member_rooms(checked@.take(i + 1)) == m0.push(room));
                    assert(member_rooms(checked@.take(i + 1)).drop_last() =~= m0);
                    assert(self.joined@ =~= old(self).joined@ + m0.push(room));
                } else {
                    assert(member_rooms(checked@.take(i + 1)) == m0);
                }
            }
            i = i + 1;
        }
        assert(checked@.take(checked@.len() as int) =~= checked@);
    }

    /// `Join`: joins the room when the user is a member of it.
    pub fn join(&mut self, hub: &mut Hub, room: u128, member: bool)
        requires
            old(hub).wf(),
        ensures
            final(hub).wf(),
            final(hub)@ == (if member {
                join_spec(old(hub)@, old(self).user, room)
            } else {
                old(hub)@
            }),
            final(self).joined() == (if member && !old(self).joined().contains(room) {
                old(self).joined().push(room)
            } else {
                old(self).joined()
            }),
            final(self).user == old(self).user,
            final(self).conn == old(self).conn,
    {
        if member {
            hub.join_room(self.user, room);
            let mut found = false;
            let mut i: usize = 0;
            while i < self.joined.len()
                invariant
                    i <= self.joined@.len(),
                    found == exists|j: int| 0 <= j < i && self.joined@[j] == room,
                decreases self.joined@.len() - i,
            {
                if self.joined[i] == room {
                    found = true;
                }
                i = i + 1;
            }
            if !found {
                self.joined.push(room);
            }
        }
    }

    /// `Leave`: leaves the room and forgets it.
    pub fn leave(&mut self, hub: &mut Hub, room: u128)
        requires
            old(hub).wf(),
        ensures
            final(hub).wf(),
            final(hub)@ == leave_spec(old(hub)@, old(self).user, room),
            final(self).joined() == old(self).joined().filter(|r: u128| r != room),
            final(self).user == old(self).user,
            final(self).conn == old(self).conn,
    {
        hub.leave_room(self.user, room);
        let mut kept: Vec<u128> = Vec::new();
        let mut i: usize = 0;
        while i < self.joined.len()
            invariant
                i <= self.joined@.len(),
                kept@ == self.joined@.take(i as int).filter(|r: u128| r != room),
            decreases self.joined@.len() - i,
        {
            let r = self.joined[i];
            proof {
                assert(self.joined@.take(i + 1).drop_last() =~= self.joined@.take(i as int));
                reveal_with_fuel(Seq::filter, 1);
            }
            if r != room {
                kept.push(r);
            }
            i = i + 1;
        }
        assert(self.joined@.take(self.joined@.len() as int) =~= self.joined@);
        self.joined = kept;
    }

    /// Closes the session: drops its connection, leaves every room it
    /// joined, and tells whether the user is still online elsewhere.
    pub fn close(self, hub: &mut Hub) -> (online: bool)
        requires
            old(hub).wf(),
        ensures
            final(hub).wf(),
            final(hub)@ == leave_all(disconnect_spec(old(hub)@, self.user, self.conn), self.user, self.joined()),
            online == has_conn(final(hub)@.conns, self.user),
    {
        hub.disconnect(self.user, self.conn);
        let mut i: usize = 0;
        assert(self.joined@.take(0) =~= Seq::<u128>::empty());
        while i < self.joined.len()
            invariant
                i <= self.joined@.len(),
                hub.wf(),
                hub@ == leave_all(
                    disconnect_spec(old(hub)@, self.user, self.conn),
                    self.user,
                    self.joined@.take(i as int),
                ),
            decreases self.joined@.len() - i,
        {
            hub.leave_room(self.user, self.joined[i]);
            proof {
                assert(self.joined@.take(i + 1).drop_last() =~= self.joined@.take(i as int));
            }
            i = i + 1;
        }
        assert(self.joined@.take(self.joined@.len() as int) =~= self.joined@);
        hub.is_online(self.user)
    }
}

} // verus!
