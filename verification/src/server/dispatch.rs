//! The pool of all connections of a terminal. It gives out the IDs of the
//! connections, hands the bytes that were read to the connection that they
//! arrived on, carries out broadcasts on all connections, and drops the
//! connections that are torn down.
//!
//! The pool does no IO itself. Whoever owns the sockets calls into it: when a
//! client connects, when bytes were read, when the transmitter is ready to
//! send, and when a socket was closed.

use vstd::prelude::*;
use crate::common::foundation::msg::format::BufferTooSmallError;
use crate::common::foundation::msg::grammar::encode_message;
use crate::common::foundation::msg::traits::EncodeMessage;
use crate::server::application::Application;
use crate::server::connection::Broadcast;
use crate::server::connection::Connection;
use crate::server::connection::ConnectionState;
use crate::server::connection::ReceiveBuffer;
use crate::server::handler::HandshakeHandler;
use crate::server::handler::MessageHandler;
use crate::server::notification::Notification;
use crate::server::send_buffer::SendBuffer;
use crate::server::send_buffer::SEND_BUFFER_SIZE;

verus! {

/// What can be seen of a connection from outside: its ID, its state, and the
/// bytes that wait to be sent on it.
pub ghost struct ConnectionView<A: Application> {
    pub id: u64,
    pub state: ConnectionState<A>,
    pub pending: Seq<u8>,
}

/// What can be seen of the connection.
pub open spec fn view_of<A: Application>(conn: Connection<A>) -> ConnectionView<A> {
    ConnectionView { id: conn.id_view(), state: conn.state_view(), pending: conn.pending() }
}

/// What can be seen of the connections.
pub open spec fn views_of<A: Application>(conns: Seq<Connection<A>>) -> Seq<ConnectionView<A>> {
    Seq::new(conns.len(), |i: int| view_of(conns[i]))
}

/// What a broadcast makes of a connection.
pub open spec fn after_broadcast<A: Application>(
    action: Broadcast,
    v: ConnectionView<A>,
) -> ConnectionView<A> {
    ConnectionView {
        id: v.id,
        state: if action.ends(v.state) {
            ConnectionState::Teardown
        } else {
            v.state
        },
        pending: v.pending + action.delivers(v.state),
    }
}

/// What broadcasts make of a connection, when they are carried out in the
/// order of the queue.
pub open spec fn after_broadcasts<A: Application>(
    queue: Seq<Broadcast>,
    v: ConnectionView<A>,
) -> ConnectionView<A>
    decreases queue.len(),
{
    if queue.len() == 0 {
        v
    } else {
        after_broadcast(queue.last(), after_broadcasts(queue.drop_last(), v))
    }
}

/// What broadcasts make of all connections.
pub open spec fn all_after_broadcasts<A: Application>(
    queue: Seq<Broadcast>,
    views: Seq<ConnectionView<A>>,
) -> Seq<ConnectionView<A>> {
    Seq::new(views.len(), |i: int| after_broadcasts(queue, views[i]))
}

/// The connections that are not torn down, in their order.
pub open spec fn alive<A: Application>(views: Seq<ConnectionView<A>>) -> Seq<ConnectionView<A>>
    decreases views.len(),
{
    if views.len() == 0 {
        Seq::empty()
    } else if views.last().state is Teardown {
        alive(views.drop_last())
    } else {
        alive(views.drop_last()).push(views.last())
    }
}

/// The IDs of the connections that are torn down, in their order.
pub open spec fn torn_down<A: Application>(views: Seq<ConnectionView<A>>) -> Seq<u64>
    decreases views.len(),
{
    if views.len() == 0 {
        Seq::empty()
    } else if views.last().state is Teardown {
        torn_down(views.drop_last()).push(views.last().id)
    } else {
        torn_down(views.drop_last())
    }
}

/// The IDs grow from each connection to the next, and all lie below `limit`.
pub open spec fn ids_increase<A: Application>(views: Seq<ConnectionView<A>>, limit: u64) -> bool {
    &&& forall|i: int, j: int| 0 <= i < j < views.len() ==> views[i].id < views[j].id
    &&& forall|i: int| 0 <= i < views.len() ==> (#[trigger] views[i]).id < limit
}

/// Dropping connections keeps the order of the IDs, and whatever is kept was
/// there before.
pub proof fn lemma_alive_ids<A: Application>(views: Seq<ConnectionView<A>>, limit: u64)
    requires
        ids_increase(views, limit),
    ensures
        ids_increase(alive(views), limit),
        alive(views).len() <= views.len(),
        forall|i: int|
            0 <= i < alive(views).len() ==> !((#[trigger] alive(views)[i]).state is Teardown)
                && exists|j: int| i <= j < views.len() && views[j] == alive(views)[i],
    decreases views.len(),
{
    if views.len() > 0 {
        let shorter = views.drop_last();
        lemma_alive_ids(shorter, limit);
        let kept = alive(shorter);
        assert forall|i: int| 0 <= i < alive(views).len() implies !((#[trigger] alive(
            views,
        )[i]).state is Teardown) && exists|j: int|
            i <= j < views.len() && views[j] == alive(views)[i] by {
            if i < kept.len() {
                let j = choose|j: int| i <= j < shorter.len() && shorter[j] == kept[i];
                assert(views[j] == alive(views)[i]);
            } else {
                assert(views[views.len() - 1] == alive(views)[i]);
            }
        }
        assert forall|i: int, j: int| 0 <= i < j < alive(views).len() implies alive(views)[i].id
            < alive(views)[j].id by {
            if j == kept.len() {
                let k = choose|k: int| i <= k < shorter.len() && shorter[k] == kept[i];
                assert(views[k].id < views[views.len() - 1].id);
            }
        }
    }
}

/// Where no connection is torn down, all are kept.
pub proof fn lemma_alive_all<A: Application>(views: Seq<ConnectionView<A>>)
    requires
        forall|i: int| 0 <= i < views.len() ==> !((#[trigger] views[i]).state is Teardown),
    ensures
        alive(views) == views,
    decreases views.len(),
{
    if views.len() > 0 {
        lemma_alive_all(views.drop_last());
        assert(views.drop_last().push(views.last()) =~= views);
    } else {
        assert(views =~= Seq::empty());
    }
}

/// Where no connection is torn down, none is dropped.
pub proof fn lemma_torn_down_none<A: Application>(views: Seq<ConnectionView<A>>)
    requires
        forall|i: int| 0 <= i < views.len() ==> !((#[trigger] views[i]).state is Teardown),
    ensures
        torn_down(views) == Seq::<u64>::empty(),
    decreases views.len(),
{
    if views.len() > 0 {
        lemma_torn_down_none(views.drop_last());
    }
}

/// Where one connection is torn down and no other, that one is dropped and
/// all others are kept.
pub proof fn lemma_only_one_leaves<A: Application>(
    views: Seq<ConnectionView<A>>,
    index: int,
    limit: u64,
)
    requires
        0 <= index < views.len(),
        forall|i: int|
            0 <= i < views.len() ==> ((#[trigger] views[i]).state is Teardown <==> i == index),
    ensures
        torn_down(views) == seq![views[index].id],
        alive(views) == views.remove(index),
    decreases views.len(),
{
    let shorter = views.drop_last();
    if index == views.len() - 1 {
        lemma_torn_down_none(shorter);
        lemma_alive_all(shorter);
        assert(torn_down(views) =~= seq![views[index].id]);
        assert(views.remove(index) =~= shorter);
    } else {
        lemma_only_one_leaves(shorter, index, limit);
        assert(shorter.remove(index).push(views.last()) =~= views.remove(index));
    }
}

/// What came of handing bytes to the connection with the given ID: `mid`
/// is what the handlers left of the connections, of which they could reach
/// that one only, `queue` holds the broadcasts that then waited, `after`
/// is what the pool holds when these were carried out, and `closed` are the
/// connections that were dropped.
pub open spec fn is_settled<A: Application>(
    before: Seq<ConnectionView<A>>,
    conn_id: u64,
    mid: Seq<ConnectionView<A>>,
    queue: Seq<Broadcast>,
    after: Seq<ConnectionView<A>>,
    closed: Seq<u64>,
) -> bool {
    &&& mid.len() == before.len()
    &&& forall|i: int|
        0 <= i < before.len() ==> (#[trigger] mid[i]).id == before[i].id && (before[i].id
            != conn_id ==> mid[i] == before[i])
    &&& after == alive(all_after_broadcasts(queue, mid))
    &&& closed == torn_down(all_after_broadcasts(queue, mid))
}

/// What comes of a pool at rest when one of its connections has become `v`
/// and the broadcasts of `queue` are carried out: the connections are
/// settled; whatever is kept was there before; and where no broadcast
/// waits, the one connection leaves if it is torn down, and nothing else
/// changes.
pub proof fn lemma_settling<A: Application>(
    before: Seq<ConnectionView<A>>,
    index: int,
    v: ConnectionView<A>,
    queue: Seq<Broadcast>,
    after: Seq<ConnectionView<A>>,
    closed: Seq<u64>,
    limit: u64,
)
    requires
        ids_increase(before, limit),
        0 <= index < before.len(),
        forall|i: int| 0 <= i < before.len() ==> !((#[trigger] before[i]).state is Teardown),
        v.id == before[index].id,
        after == alive(all_after_broadcasts(queue, before.update(index, v))),
        closed == torn_down(all_after_broadcasts(queue, before.update(index, v))),
    ensures
        is_settled(before, v.id, before.update(index, v), queue, after, closed),
        forall|i: int|
            0 <= i < after.len() ==> exists|j: int|
                0 <= j < before.len() && before[j].id == (#[trigger] after[i]).id,
        queue.len() == 0 && v.state is Teardown ==> closed == seq![v.id] && after == before.remove(
            index,
        ),
        queue.len() == 0 && !(v.state is Teardown) ==> closed == Seq::<u64>::empty() && after
            == before.update(index, v),
{
    let middle = before.update(index, v);
    let settled = all_after_broadcasts(queue, middle);
    lemma_id_is_unique(before, index, limit);
    assert(ids_increase(middle, limit));
    lemma_broadcasts_keep_ids(queue, middle);
    lemma_alive_ids(settled, limit);
    assert forall|i: int| 0 <= i < after.len() implies exists|j: int|
        0 <= j < before.len() && before[j].id == (#[trigger] after[i]).id by {
        let j = choose|j: int| i <= j < settled.len() && settled[j] == alive(settled)[i];
        assert(settled[j].id == middle[j].id);
        assert(middle[j].id == before[j].id);
    }
    if queue.len() == 0 {
        assert(settled =~= middle);
        if v.state is Teardown {
            lemma_only_one_leaves(middle, index, limit);
            assert(middle.remove(index) =~= before.remove(index));
        } else {
            lemma_alive_all(middle);
            lemma_torn_down_none(middle);
        }
    }
}

/// The pool of the connections of a terminal.
pub struct ConnectionPool<A: Application> {
    app: A,
    conns: Vec<Connection<A>>,
    next_connection_id: u64,
    bc_queue: Vec<Broadcast>,
}

impl<A: Application + Clone> ConnectionPool<A> {
    /// The connections are well-formed, hold no broadcasts of their own, and
    /// stand in the order of their IDs, which lie below the next ID to give
    /// out.
    pub closed spec fn wf_connections(&self) -> bool {
        &&& forall|i: int| 0 <= i < self.conns@.len() ==> (#[trigger] self.conns@[i]).wf()
        &&& forall|i: int|
            0 <= i < self.conns@.len() ==> (#[trigger] self.conns@[i]).queued_broadcasts().len()
                == 0
        &&& ids_increase(self.views(), self.next_connection_id)
    }

    /// The pool is at rest: no broadcast waits, and no connection is torn
    /// down.
    pub closed spec fn wf(&self) -> bool {
        &&& self.wf_connections()
        &&& self.bc_queue@.len() == 0
        &&& forall|i: int|
            0 <= i < self.conns@.len() ==> !((#[trigger] self.conns@[i]).state_view() is Teardown)
    }

    /// A pool at rest holds well-formed connections, none of them torn down,
    /// and no broadcast waits in it.
    pub proof fn lemma_at_rest(&self)
        requires
            self.wf(),
        ensures
            self.wf_connections(),
            self.queue() == Seq::<Broadcast>::empty(),
            self.views() == views_of(self.connections()),
            forall|i: int|
                0 <= i < self.views().len() ==> !((#[trigger] self.views()[i]).state is Teardown),
            forall|i: int|
                0 <= i < self.connections().len() ==> (#[trigger] self.connections()[i]).wf()
                    && self.connections()[i].queued_broadcasts() == Seq::<Broadcast>::empty(),
    {
        assert(self.queue() =~= Seq::<Broadcast>::empty());
        assert forall|i: int| 0 <= i < self.connections().len() implies (
        #[trigger] self.connections()[i]).queued_broadcasts() == Seq::<Broadcast>::empty() by {
            assert(self.conns@[i].queued_broadcasts() =~= Seq::<Broadcast>::empty());
        }
    }

    /// The connections, in the order in which they were accepted.
    pub closed spec fn connections(&self) -> Seq<Connection<A>> {
        self.conns@
    }

    /// What can be seen of the connections, in the order in which they were
    /// accepted.
    pub closed spec fn views(&self) -> Seq<ConnectionView<A>> {
        views_of(self.conns@)
    }

    /// The ID that the next connection gets.
    pub closed spec fn next_id(&self) -> u64 {
        self.next_connection_id
    }

    /// The broadcasts that wait to be carried out.
    pub closed spec fn queue(&self) -> Seq<Broadcast> {
        self.bc_queue@
    }

    /// A pool without connections.
    pub fn new(app: A) -> (r: Self)
        ensures
            r.wf(),
            r.app_view() == app,
            r.views() == Seq::<ConnectionView<A>>::empty(),
            r.next_id() == 0,
    {
        let r = ConnectionPool {
            app,
            conns: Vec::new(),
            next_connection_id: 0,
            bc_queue: Vec::new(),
        };
        assert(r.views() =~= Seq::<ConnectionView<A>>::empty());
        r
    }

    /// The application.
    pub closed spec fn app_view(&self) -> A {
        self.app
    }

    /// The application.
    pub fn application(&self) -> (r: &A)
        ensures
            *r == self.app_view(),
    {
        &self.app
    }

    /// Whether the pool has an ID left for one more connection.
    pub fn has_room(&self) -> (r: bool)
        ensures
            r == (self.next_id() < u64::MAX),
    {
        self.next_connection_id < u64::MAX
    }

    /// Takes a new connection into the pool, in the state `Handshake`, and
    /// returns its ID. The IDs count up from zero.
    pub fn create_connection(&mut self) -> (id: u64)
        requires
            old(self).wf(),
            old(self).next_id() < u64::MAX,
        ensures
            final(self).wf(),
            id == old(self).next_id(),
            final(self).next_id() == id + 1,
            final(self).views().len() == old(self).views().len() + 1,
            final(self).views().drop_last() == old(self).views(),
            final(self).views().last().id == id,
            final(self).views().last().state is Handshake,
            final(self).views().last().pending == Seq::<u8>::empty(),
    {
        let conn_id = self.next_connection_id;
        self.next_connection_id = self.next_connection_id + 1;
        let conn = Connection::new(self.app.clone(), conn_id);
        self.conns.push(conn);
        proof {
            assert(self.views().drop_last() =~= old(self).views());
            assert forall|i: int, j: int| 0 <= i < j < self.views().len() implies self.views()[i].id
                < self.views()[j].id by {
                assert(self.views()[i] == old(self).views()[i]);
                if j < old(self).views().len() {
                    assert(self.views()[j] == old(self).views()[j]);
                }
            }
        }
        self.app.notify(&Notification::ConnectionOpened);
        conn_id
    }

    /// The place of the connection with the given ID, if it is in the pool.
    pub fn find(&self, conn_id: u64) -> (r: Option<usize>)
        ensures
            match r {
                Some(i) => i < self.views().len() && self.views()[i as int].id == conn_id,
                None => forall|i: int|
                    0 <= i < self.views().len() ==> (#[trigger] self.views()[i]).id != conn_id,
            },
    {
        let n = self.conns.len();
        let mut i: usize = 0;
        while i < n
            invariant
                n == self.conns@.len(),
                i <= n,
                forall|j: int| 0 <= j < i ==> (#[trigger] self.views()[j]).id != conn_id,
            decreases n - i,
        {
            if self.conns[i].id() == conn_id {
                return Some(i);
            }
            i = i + 1;
        }
        None
    }

    /// The connection with the given ID, if it is in the pool.
    pub fn connection(&self, conn_id: u64) -> (r: Option<&Connection<A>>)
        requires
            self.wf(),
        ensures
            r is Some <==> exists|i: int|
                0 <= i < self.views().len() && self.views()[i].id == conn_id,
            r is Some ==> r->0.wf() && r->0.id_view() == conn_id && exists|i: int|
                0 <= i < self.views().len() && #[trigger] self.views()[i] == view_of(*r->0),
    {
        match self.find(conn_id) {
            Some(index) => {
                assert(self.views()[index as int] == view_of(self.conns@[index as int]));
                Some(&self.conns[index])
            },
            None => None,
        }
    }

    /// The number of connections in the pool.
    pub fn len(&self) -> (n: usize)
        ensures
            n == self.views().len(),
    {
        self.conns.len()
    }

    /// Whether the connection with the given ID is in the pool.
    pub fn is_alive(&self, conn_id: u64) -> (r: bool)
        ensures
            r == exists|i: int| 0 <= i < self.views().len() && self.views()[i].id == conn_id,
    {
        self.find(conn_id).is_some()
    }

    /// Hands bytes that were read from a socket to the connection that they
    /// arrived on, and then carries out what the handlers have asked for:
    /// the broadcasts go to all connections, and the connections that are
    /// torn down leave the pool. Returns the IDs of the connections that
    /// have left, for the caller to close their sockets.
    ///
    /// For a connection that is not in the pool, nothing happens.
    #[verifier::rlimit(40)]
    pub fn handle_incoming<B: ReceiveBuffer, HH: HandshakeHandler<A>, MH: MessageHandler<A>>(
        &mut self,
        conn_id: u64,
        buf: &mut B,
        handshake: &HH,
        messages: &MH,
    ) -> (closed: Vec<u64>)
        requires
            old(self).wf(),
        ensures
            final(self).wf(),
            final(self).next_id() == old(self).next_id(),
            crate::server::connection::is_tail_of(final(buf).bytes(), old(buf).bytes()),
            !(exists|i: int| 0 <= i < old(self).views().len() && old(self).views()[i].id == conn_id)
                ==> final(self).views() == old(self).views()
                    && final(buf).bytes() == old(buf).bytes() && closed@.len() == 0,
            forall|i: int|
                0 <= i < final(self).views().len() ==> exists|j: int|
                    0 <= j < old(self).views().len() && old(self).views()[j].id == (
                    #[trigger] final(self).views()[i]).id,
            exists|mid: Seq<ConnectionView<A>>, queue: Seq<Broadcast>| #[trigger]
                is_settled(old(self).views(), conn_id, mid, queue, final(self).views(), closed@),
            forall|i: int|
                0 <= i < old(self).views().len() && (#[trigger] old(self).views()[i]).id == conn_id
                    ==> exists|left: Connection<A>| #[trigger]
                    crate::server::connection::is_handled(
                        handshake,
                        messages,
                        &old(self).connections()[i],
                        old(buf).bytes(),
                        &left,
                        final(buf).bytes(),
                    ) && is_settled(
                        old(self).views(),
                        conn_id,
                        old(self).views().update(i, view_of(left)),
                        left.queued_broadcasts(),
                        final(self).views(),
                        closed@,
                    ),
            forall|i: int|
                0 <= i < old(self).views().len() && (#[trigger] old(self).views()[i]).id == conn_id
                    ==> match old(self).views()[i].state {
                    ConnectionState::Teardown => false,
                    ConnectionState::Stdin(_) => final(buf).bytes().len() == 0 && if old(
                        buf,
                    ).bytes().len() > 0 {
                        closed@ == seq![conn_id] && final(self).views() == old(
                            self,
                        ).views().remove(i)
                    } else {
                        closed@.len() == 0 && final(self).views() == old(self).views()
                    },
                    ConnectionState::Stdout(_) => final(buf).bytes().len() == 0 && closed@.len()
                        == 0 && final(self).views().len() == old(self).views().len()
                        && final(self).views()[i].pending == old(self).views()[i].pending,
                    _ => crate::server::connection::waits_for_more(old(buf).bytes())
                        ==> final(self).views() == old(self).views() && final(buf).bytes() == old(
                        buf,
                    ).bytes() && closed@.len() == 0,
                },
    {
        proof {
            self.lemma_at_rest();
        }
        let index = match self.find(conn_id) {
            Some(index) => index,
            None => {
                assert(old(buf).bytes().subrange(0, old(buf).bytes().len() as int) =~= old(buf).bytes());
                proof {
                    lemma_alive_all(self.views());
                    lemma_torn_down_none(self.views());
                    assert(all_after_broadcasts(Seq::<Broadcast>::empty(), self.views())
                        =~= self.views());
                    assert(is_settled(
                        self.views(),
                        conn_id,
                        self.views(),
                        Seq::<Broadcast>::empty(),
                        self.views(),
                        Seq::<u64>::empty(),
                    ));
                }
                return Vec::new();
            },
        };
        let ghost before = self.views();
        proof {
            lemma_id_is_unique(before, index as int, self.next_connection_id);
        }
        self.conns[index].handle_incoming(buf, handshake, messages);
        let ghost handled = self.conns@[index as int];
        let ghost unqueued = self.conns@[index as int].queued_broadcasts();
        let mut enqueued = self.conns[index].take_broadcasts();
        self.bc_queue.append(&mut enqueued);
        proof {
            assert forall|i: int| 0 <= i < self.views().len() implies (#[trigger] self.views()[i]).id
                == before[i].id && (i != index ==> self.views()[i] == before[i]) by {
                if i != index {
                    assert(self.conns@[i] == old(self).conns@[i]);
                }
            }
        }
        let ghost middle = self.views();
        let ghost queue = self.bc_queue@;
        let closed = self.do_maintenance();
        proof {
            assert(queue =~= unqueued);
            assert(middle =~= before.update(index as int, view_of(handled)));
            lemma_settling(
                before,
                index as int,
                view_of(handled),
                queue,
                self.views(),
                closed@,
                self.next_connection_id,
            );
        }
        closed
    }

    /// Takes note that the socket of a connection was closed, by the client
    /// or by an IO error: the connection is torn down and leaves the pool.
    /// Returns whether the connection was in the pool.
    pub fn close_connection(&mut self, conn_id: u64) -> (was_alive: bool)
        requires
            old(self).wf(),
        ensures
            final(self).wf(),
            final(self).next_id() == old(self).next_id(),
            was_alive == exists|i: int|
                0 <= i < old(self).views().len() && old(self).views()[i].id == conn_id,
            forall|i: int|
                0 <= i < final(self).views().len() ==> (#[trigger] final(self).views()[i]).id
                    != conn_id,
            final(self).views() == old(self).views().filter(
                |v: ConnectionView<A>| v.id != conn_id,
            ),
    {
        match self.find(conn_id) {
            Some(index) => {
                let conn = self.conns.remove(index);
                self.app.notify(&Notification::ConnectionClosed);
                proof {
                    lemma_remove_is_filter(old(self).views(), index as int, self.next_connection_id);
                    assert(self.views() =~= old(self).views().remove(index as int));
                }
                true
            },
            None => {
                proof {
                    lemma_filter_keeps_all(old(self).views(), conn_id);
                }
                false
            },
        }
    }

    /// Enqueues an action on all connections and carries it out at once,
    /// since no handler holds a connection while the pool is called. The
    /// connections that the action has torn down leave the pool; their IDs
    /// are returned, for the caller to close their sockets.
    pub fn enqueue_broadcast(&mut self, action: Broadcast) -> (closed: Vec<u64>)
        requires
            old(self).wf(),
        ensures
            final(self).wf(),
            final(self).next_id() == old(self).next_id(),
            final(self).views() == alive(
                Seq::new(
                    old(self).views().len(),
                    |i: int| after_broadcast(action, old(self).views()[i]),
                ),
            ),
            closed@ == torn_down(
                Seq::new(
                    old(self).views().len(),
                    |i: int| after_broadcast(action, old(self).views()[i]),
                ),
            ),
    {
        self.bc_queue.push(action);
        let closed = self.do_maintenance();
        proof {
            let queue = seq![action];
            assert(old(self).bc_queue@.push(action) =~= queue);
            assert forall|i: int| 0 <= i < old(self).views().len() implies after_broadcasts(
                queue,
                old(self).views()[i],
            ) == after_broadcast(action, old(self).views()[i]) by {
                reveal_with_fuel(after_broadcasts, 3);
                assert(queue.drop_last() =~= Seq::<Broadcast>::empty());
                assert(queue.last() == action);
            }
            assert(all_after_broadcasts(queue, old(self).views()) =~= Seq::new(
                old(self).views().len(),
                |i: int| after_broadcast(action, old(self).views()[i]),
            ));
        }
        closed
    }

    /// Writes a message into the queue of bytes to send of a connection.
    /// Returns `None` for a connection that is not in the pool or does not
    /// carry messages, and else whether the message was short enough to be
    /// sent.
    pub fn enqueue_message<M: EncodeMessage>(&mut self, conn_id: u64, msg: &M) -> (r: Option<
        Result<(), BufferTooSmallError>,
    >)
        requires
            old(self).wf(),
        ensures
            final(self).wf(),
            final(self).next_id() == old(self).next_id(),
            final(self).views().len() == old(self).views().len(),
            forall|i: int|
                0 <= i < old(self).views().len()
                    ==> #[trigger] final(self).views()[i] == if old(self).views()[i].id == conn_id
                    && r is Some && r->0 is Ok {
                    ConnectionView {
                        id: conn_id,
                        state: old(self).views()[i].state,
                        pending: old(self).views()[i].pending + encode_message(msg.items()),
                    }
                } else {
                    old(self).views()[i]
                },
            r is Some <==> exists|i: int|
                0 <= i < old(self).views().len() && old(self).views()[i].id == conn_id
                    && (old(self).views()[i].state is Handshake
                    || old(self).views()[i].state is Msgio),
            r is Some ==> (r->0 is Ok <==> encode_message(msg.items()).len() <= SEND_BUFFER_SIZE),
    {
        let index = match self.find(conn_id) {
            Some(index) => index,
            None => {
                assert(self.views() =~= old(self).views());
                return None;
            },
        };
        proof {
            lemma_id_is_unique(self.views(), index as int, self.next_connection_id);
        }
        if !self.conns[index].state().can_receive_messages() {
            return None;
        }
        let r = self.conns[index].enqueue_message(msg);
        proof {
            assert forall|i: int| 0 <= i < self.views().len() && i != index implies self.views()[i]
                == old(self).views()[i] by {
                assert(self.conns@[i] == old(self).conns@[i]);
            }
        }
        Some(r)
    }

    /// Writes standard input into the queue of bytes to send of a
    /// connection. Returns whether the connection is in the pool and carries
    /// standard input.
    pub fn enqueue_stdin(&mut self, conn_id: u64, input: &[u8]) -> (r: bool)
        requires
            old(self).wf(),
        ensures
            final(self).wf(),
            final(self).next_id() == old(self).next_id(),
            final(self).views().len() == old(self).views().len(),
            forall|i: int|
                0 <= i < old(self).views().len()
                    ==> #[trigger] final(self).views()[i] == if old(self).views()[i].id == conn_id
                    && r {
                    ConnectionView {
                        id: conn_id,
                        state: old(self).views()[i].state,
                        pending: old(self).views()[i].pending + input@,
                    }
                } else {
                    old(self).views()[i]
                },
            r <==> exists|i: int|
                0 <= i < old(self).views().len() && old(self).views()[i].id == conn_id
                    && old(self).views()[i].state is Stdin,
    {
        let index = match self.find(conn_id) {
            Some(index) => index,
            None => {
                assert(self.views() =~= old(self).views());
                return false;
            },
        };
        proof {
            lemma_id_is_unique(self.views(), index as int, self.next_connection_id);
        }
        if !self.conns[index].state().can_receive_stdin() {
            return false;
        }
        self.conns[index].enqueue_stdin(input);
        proof {
            assert forall|i: int| 0 <= i < self.views().len() && i != index implies self.views()[i]
                == old(self).views()[i] by {
                assert(self.conns@[i] == old(self).conns@[i]);
            }
        }
        true
    }

    /// Hands out the next buffer of bytes to send on a connection, and takes
    /// back the buffer that was sent. This is for the transmitter of the
    /// connection to call. Returns `None` when nothing waits to be sent, or
    /// the connection is not in the pool.
    pub fn swap_send_buffer(&mut self, conn_id: u64, buf: Option<SendBuffer>) -> (r: Option<
        SendBuffer,
    >)
        requires
            old(self).wf(),
            buf is Some ==> buf->0.wf(),
        ensures
            final(self).wf(),
            final(self).next_id() == old(self).next_id(),
            final(self).views().len() == old(self).views().len(),
            r is Some ==> r->0.wf() && r->0.contents().len() > 0,
            r is Some <==> exists|i: int|
                0 <= i < old(self).views().len() && (#[trigger] old(self).views()[i]).id == conn_id
                    && old(self).views()[i].pending.len() > 0,
            r is None ==> final(self).views() == old(self).views(),
            forall|i: int|
                0 <= i < old(self).views().len()
                    ==> (#[trigger] final(self).views()[i]).id == old(self).views()[i].id
                    && final(self).views()[i].state == old(self).views()[i].state
                    && old(self).views()[i].pending == if old(self).views()[i].id == conn_id && r is Some {
                    r->0.contents() + final(self).views()[i].pending
                } else {
                    final(self).views()[i].pending
                },
    {
        let index = match self.find(conn_id) {
            Some(index) => index,
            None => {
                assert(self.views() =~= old(self).views());
                return None;
            },
        };
        proof {
            lemma_id_is_unique(self.views(), index as int, self.next_connection_id);
        }
        let r = self.conns[index].swap_send_buffer(buf);
        proof {
            assert forall|i: int| 0 <= i < self.views().len() && i != index implies self.views()[i]
                == old(self).views()[i] by {
                assert(self.conns@[i] == old(self).conns@[i]);
            }
            if r is None {
                assert(self.views()[index as int].pending =~= old(self).views()[index as int].pending);
                assert(self.views() =~= old(self).views());
            } else {
                assert(old(self).views()[index as int].pending.len() > 0);
            }
        }
        r
    }

    /// Carries out the broadcasts that wait, each on every connection, in
    /// the order in which they were enqueued, and then drops the connections
    /// that are torn down. Returns the IDs of the connections that were
    /// dropped.
    pub fn do_maintenance(&mut self) -> (closed: Vec<u64>)
        requires
            old(self).wf_connections(),
        ensures
            final(self).wf(),
            final(self).next_id() == old(self).next_id(),
            final(self).queue() == Seq::<Broadcast>::empty(),
            final(self).views() == alive(all_after_broadcasts(old(self).queue(), old(self).views())),
            closed@ == torn_down(all_after_broadcasts(old(self).queue(), old(self).views())),
    {
        let mut broadcasts: Vec<Broadcast> = Vec::new();
        core::mem::swap(&mut broadcasts, &mut self.bc_queue);
        let count = broadcasts.len();
        let n = self.conns.len();
        let mut q: usize = 0;
        proof {
            assert(broadcasts@.subrange(0, 0) =~= Seq::<Broadcast>::empty());
            assert(self.views() =~= all_after_broadcasts(broadcasts@.subrange(0, 0), old(self).views()));
        }
        while q < count
            invariant
                q <= count,
                count == broadcasts@.len(),
                broadcasts@ == old(self).queue(),
                n == self.conns@.len(),
                n == old(self).views().len(),
                self.next_connection_id == old(self).next_connection_id,
                self.bc_queue@.len() == 0,
                forall|i: int| 0 <= i < n ==> (#[trigger] self.conns@[i]).wf(),
                forall|i: int| 0 <= i < n ==> (#[trigger] self.conns@[i]).queued_broadcasts().len() == 0,
                self.views() == all_after_broadcasts(
                    broadcasts@.subrange(0, q as int),
                    old(self).views(),
                ),
            decreases count - q,
        {
            let ghost at_start = self.views();
            let mut c: usize = 0;
            while c < n
                invariant
                    c <= n,
                    q < count,
                    count == broadcasts@.len(),
                    n == self.conns@.len(),
                    n == at_start.len(),
                    self.next_connection_id == old(self).next_connection_id,
                    self.bc_queue@.len() == 0,
                    forall|i: int| 0 <= i < n ==> (#[trigger] self.conns@[i]).wf(),
                    forall|i: int|
                        0 <= i < n ==> (#[trigger] self.conns@[i]).queued_broadcasts().len() == 0,
                    forall|i: int|
                        0 <= i < c ==> #[trigger] self.views()[i] == after_broadcast(
                            broadcasts@[q as int],
                            at_start[i],
                        ),
                    forall|i: int| c <= i < n ==> #[trigger] self.views()[i] == at_start[i],
                decreases n - c,
            {
                let ghost before = self.conns@;
                let ghost pre = self.views();
                assert(pre[c as int] == at_start[c as int]);
                broadcasts[q].apply(&mut self.conns[c]);
                proof {
                    assert forall|i: int| 0 <= i < n && i != c implies #[trigger] self.views()[i]
                        == pre[i] by {
                        assert(self.conns@[i] == before[i]);
                    }
                    assert(self.views()[c as int] == after_broadcast(
                        broadcasts@[q as int],
                        at_start[c as int],
                    ));
                    assert forall|i: int| 0 <= i < c + 1 implies #[trigger] self.views()[i]
                        == after_broadcast(broadcasts@[q as int], at_start[i]) by {
                        if i < c {
                            assert(self.views()[i] == pre[i]);
                        }
                    }
                    assert forall|i: int| c + 1 <= i < n implies #[trigger] self.views()[i]
                        == at_start[i] by {
                        assert(self.views()[i] == pre[i]);
                    }
                }
                c = c + 1;
            }
            proof {
                let done = broadcasts@.subrange(0, q as int);
                let more = broadcasts@.subrange(0, q + 1);
                assert(more.drop_last() =~= done);
                assert(more.last() == broadcasts@[q as int]);
                assert(self.views() =~= all_after_broadcasts(more, old(self).views()));
            }
            q = q + 1;
        }
        proof {
            assert(broadcasts@.subrange(0, count as int) =~= broadcasts@);
        }
        //drop the connections that are torn down

        let ghost settled = self.views();
        let mut closed: Vec<u64> = Vec::new();
        let mut i: usize = 0;
        let ghost mut j: int = 0;
        proof {
            assert(closed@ =~= torn_down(settled.subrange(0, 0)));
            assert(views_of(self.conns@.subrange(0, 0)) =~= alive(settled.subrange(0, 0)));
            assert(self.conns@.subrange(0, self.conns@.len() as int) =~= self.conns@);
            assert(settled.subrange(0, settled.len() as int) =~= settled);
            lemma_broadcasts_keep_ids(old(self).queue(), old(self).views());
        }
        while i < self.conns.len()
            invariant
                i <= self.conns@.len(),
                0 <= j <= settled.len(),
                i <= j,
                self.conns@.len() - i == settled.len() - j,
                self.next_connection_id == old(self).next_connection_id,
                self.bc_queue@.len() == 0,
                ids_increase(settled, self.next_connection_id),
                forall|k: int| 0 <= k < self.conns@.len() ==> (#[trigger] self.conns@[k]).wf(),
                forall|k: int|
                    0 <= k < self.conns@.len() ==> (
                    #[trigger] self.conns@[k]).queued_broadcasts().len() == 0,
                views_of(self.conns@.subrange(0, i as int)) == alive(settled.subrange(0, j)),
                closed@ == torn_down(settled.subrange(0, j)),
                views_of(self.conns@.subrange(i as int, self.conns@.len() as int))
                    == settled.subrange(j, settled.len() as int),
            decreases self.conns@.len() - i,
        {
            let ghost before = self.conns@;
            let ghost rest = views_of(before.subrange(i as int, before.len() as int));
            proof {
                assert(rest[0] == view_of(before[i as int]));
                assert(rest[0] == settled[j]);
                assert(settled.subrange(0, j + 1).drop_last() =~= settled.subrange(0, j));
                assert(settled.subrange(0, j + 1).last() == settled[j]);
            }
            if self.conns[i].state().is_teardown() {
                let conn = self.conns.remove(i);
                closed.push(conn.id());
                self.app.notify(&Notification::ConnectionClosed);
                proof {
                    assert(self.conns@.subrange(0, i as int) =~= before.subrange(0, i as int));
                    let left = views_of(self.conns@.subrange(i as int, self.conns@.len() as int));
                    let right = settled.subrange(j + 1, settled.len() as int);
                    assert(left =~= right) by {
                        assert forall|k: int| 0 <= k < left.len() implies #[trigger] left[k]
                            == right[k] by {
                            assert(self.conns@[i + k] == before[i + k + 1]);
                            assert(rest[k + 1] == view_of(before[i + k + 1]));
                            assert(rest[k + 1] == settled[j + k + 1]);
                        }
                    }
                    j = j + 1;
                }
            } else {
                proof {
                    assert(views_of(self.conns@.subrange(0, i + 1)) =~= views_of(
                        self.conns@.subrange(0, i as int),
                    ).push(view_of(self.conns@[i as int])));
                    let left = views_of(self.conns@.subrange(i + 1, self.conns@.len() as int));
                    let right = settled.subrange(j + 1, settled.len() as int);
                    assert(left =~= right) by {
                        assert forall|k: int| 0 <= k < left.len() implies #[trigger] left[k]
                            == right[k] by {
                            assert(rest[k + 1] == view_of(before[i + k + 1]));
                            assert(rest[k + 1] == settled[j + k + 1]);
                        }
                    }
                    j = j + 1;
                }
                i = i + 1;
            }
        }
        proof {
            assert(self.conns@.subrange(0, self.conns@.len() as int) =~= self.conns@);
            assert(settled.subrange(0, settled.len() as int) =~= settled);
            lemma_alive_ids(settled, self.next_connection_id);
            assert forall|k: int| 0 <= k < self.conns@.len() implies !((
            #[trigger] self.conns@[k]).state_view() is Teardown) by {
                assert(self.views()[k] == alive(settled)[k]);
            }
        }
        closed
    }
}

/// A connection that is torn down stays so under every broadcast, and
/// nothing more is enqueued on it.
pub proof fn lemma_teardown_is_final<A: Application>(queue: Seq<Broadcast>, v: ConnectionView<A>)
    requires
        v.state is Teardown,
    ensures
        after_broadcasts(queue, v) == v,
    decreases queue.len(),
{
    if queue.len() > 0 {
        lemma_teardown_is_final(queue.drop_last(), v);
        assert(v.pending + Seq::<u8>::empty() =~= v.pending);
    }
}

/// Broadcasts change no ID.
pub proof fn lemma_broadcasts_keep_ids<A: Application>(
    queue: Seq<Broadcast>,
    views: Seq<ConnectionView<A>>,
)
    ensures
        all_after_broadcasts(queue, views).len() == views.len(),
        forall|i: int|
            0 <= i < views.len() ==> (#[trigger] all_after_broadcasts(queue, views)[i]).id
                == views[i].id,
        forall|limit: u64|
            ids_increase(views, limit) ==> ids_increase(all_after_broadcasts(queue, views), limit),
{
    assert forall|i: int| 0 <= i < views.len() implies (#[trigger] all_after_broadcasts(
        queue,
        views,
    )[i]).id == views[i].id by {
        lemma_broadcasts_keep_id(queue, views[i]);
    }
}

/// Broadcasts do not change the ID of a connection.
pub proof fn lemma_broadcasts_keep_id<A: Application>(queue: Seq<Broadcast>, v: ConnectionView<A>)
    ensures
        after_broadcasts(queue, v).id == v.id,
    decreases queue.len(),
{
    if queue.len() > 0 {
        lemma_broadcasts_keep_id(queue.drop_last(), v);
    }
}

/// No two connections have the same ID.
pub proof fn lemma_id_is_unique<A: Application>(
    views: Seq<ConnectionView<A>>,
    index: int,
    limit: u64,
)
    requires
        ids_increase(views, limit),
        0 <= index < views.len(),
    ensures
        forall|i: int| 0 <= i < views.len() && i != index ==> (#[trigger] views[i]).id
            != views[index].id,
{
    assert forall|i: int| 0 <= i < views.len() && i != index implies (#[trigger] views[i]).id
        != views[index].id by {
        if i < index {
            assert(views[i].id < views[index].id);
        } else {
            assert(views[index].id < views[i].id);
        }
    }
}

/// Taking out the one connection with an ID leaves the connections with
/// another ID.
pub proof fn lemma_remove_is_filter<A: Application>(
    views: Seq<ConnectionView<A>>,
    index: int,
    limit: u64,
)
    requires
        ids_increase(views, limit),
        0 <= index < views.len(),
    ensures
        views.remove(index) == views.filter(|v: ConnectionView<A>| v.id != views[index].id),
        ids_increase(views.remove(index), limit),
    decreases views.len(),
{
    let id = views[index].id;
    let keep = |v: ConnectionView<A>| v.id != id;
    lemma_id_is_unique(views, index, limit);
    reveal(Seq::filter);
    if index == views.len() - 1 {
        lemma_filter_keeps_all(views.drop_last(), id);
        assert(views.remove(index) =~= views.drop_last());
    } else {
        lemma_remove_is_filter(views.drop_last(), index, limit);
        assert(views.remove(index) =~= views.drop_last().remove(index).push(views.last()));
        assert(views.drop_last()[index] == views[index]);
    }
}

/// Where no connection has the ID, all have another.
pub proof fn lemma_filter_keeps_all<A: Application>(views: Seq<ConnectionView<A>>, id: u64)
    requires
        forall|i: int| 0 <= i < views.len() ==> (#[trigger] views[i]).id != id,
    ensures
        views.filter(|v: ConnectionView<A>| v.id != id) == views,
    decreases views.len(),
{
    reveal(Seq::filter);
    if views.len() > 0 {
        lemma_filter_keeps_all(views.drop_last(), id);
        assert(views.drop_last().push(views.last()) =~= views);
    } else {
        assert(views =~= Seq::empty());
    }
}

} // verus!
