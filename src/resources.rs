use vstd::prelude::*;

use crate::types::{
    Address, Connection, NetworkDelivery, NetworkError, OutboundMessage,
    SendConfig, SocketHandle,
};

verus! {

/// The simulation thread's view of the network: the sockets bound so far,
/// the default socket, and the roster of live connections.
pub struct NetworkResource {
    pub(crate) default_socket: Option<SocketHandle>,
    pub(crate) bound_sockets: Vec<SocketHandle>,
    pub(crate) connections: Vec<Connection>,
}

/// Keeping what every item passes keeps everything.
pub proof fn lemma_filter_all<A>(s: Seq<A>, p: spec_fn(A) -> bool)
    requires
        forall|i: int| 0 <= i < s.len() ==> p(#[trigger] s[i]),
    ensures
        s.filter(p) == s,
    decreases s.len(),
{
    if s.len() > 0 {
        let prev = s.drop_last();
        assert(prev.push(s.last()) =~= s);
        assert forall|i: int| 0 <= i < prev.len() implies p(#[trigger] prev[i]) by {
            assert(prev[i] == s[i]);
        }
        lemma_filter_all(prev, p);
        prev.lemma_filter_push(s.last(), p);
    } else {
        reveal(Seq::filter);
        assert(s.filter(p) =~= s);
    }
}

/// Two filters in a row keep what passes both.
pub proof fn lemma_filter_filter<A>(s: Seq<A>, p: spec_fn(A) -> bool, q: spec_fn(A) -> bool)
    ensures
        s.filter(p).filter(q) == s.filter(|a: A| p(a) && q(a)),
    decreases s.len(),
{
    let pq = |a: A| p(a) && q(a);
    if s.len() > 0 {
        let prev = s.drop_last();
        let x = s.last();
        assert(prev.push(x) =~= s);
        lemma_filter_filter(prev, p, q);
        prev.lemma_filter_push(x, p);
        prev.lemma_filter_push(x, pq);
        prev.filter(p).lemma_filter_push(x, q);
    } else {
        reveal(Seq::filter);
        assert(s.filter(p).filter(q) =~= s.filter(pq));
    }
}

/// In a list without duplicates, removing the item at `i` is keeping the
/// items other than `s[i]`.
pub proof fn lemma_remove_is_filter<A>(s: Seq<A>, i: int)
    requires
        s.no_duplicates(),
        0 <= i < s.len(),
    ensures
        s.remove(i) == s.filter(|c: A| c != s[i]),
    decreases s.len(),
{
    let x = s[i];
    let p = |c: A| c != x;
    let prev = s.drop_last();
    let last = s.last();
    assert(prev.push(last) =~= s);
    prev.lemma_filter_push(last, p);
    if i == s.len() - 1 {
        assert forall|k: int| 0 <= k < prev.len() implies p(#[trigger] prev[k]) by {
            assert(prev[k] == s[k]);
        }
        lemma_filter_all(prev, p);
        assert(s.remove(i) =~= prev);
    } else {
        assert(prev.no_duplicates()) by {
            assert forall|a: int, b: int| 0 <= a < b < prev.len() implies prev[a] != prev[b] by {
                assert(prev[a] == s[a] && prev[b] == s[b]);
            }
        }
        assert(prev[i] == x);
        lemma_remove_is_filter(prev, i);
        assert(last != x);
        assert(s.remove(i) =~= prev.remove(i).push(last));
    }
}

/// Which socket a send goes through: the one asked for, else the default.
pub open spec fn chosen_socket(default: Option<SocketHandle>, socket: Option<SocketHandle>) -> Option<SocketHandle> {
    match socket {
        Some(s) => Some(s),
        None => default,
    }
}

impl NetworkResource {
    /// No socket bound twice, the default one bound, no peer listed twice.
    pub open spec fn wf(&self) -> bool {
        &&& self.spec_bound().no_duplicates()
        &&& self.spec_connections().no_duplicates()
        &&& (self.spec_default() matches Some(d) ==> self.spec_bound().contains(d))
    }

    pub closed spec fn spec_connections(&self) -> Seq<Connection> {
        self.connections@
    }

    pub closed spec fn spec_bound(&self) -> Seq<SocketHandle> {
        self.bound_sockets@
    }

    pub closed spec fn spec_default(&self) -> Option<SocketHandle> {
        self.default_socket
    }

    /// What a send with `socket` resolves to, as `get_socket_or_default` returns it.
    pub open spec fn resolve(&self, socket: Option<SocketHandle>) -> Result<SocketHandle, NetworkError> {
        match chosen_socket(self.spec_default(), socket) {
            None => Err(NetworkError::NoDefaultSocket),
            Some(s) => if self.spec_bound().contains(s) {
                Ok(s)
            } else {
                Err(NetworkError::NoSocket(s))
            },
        }
    }

    /// A resource with no socket and no connection.
    pub fn new() -> (r: NetworkResource)
        ensures
            r.wf(),
            r.spec_connections().len() == 0,
            r.spec_bound().len() == 0,
            r.spec_default() is None,
    {
        NetworkResource { default_socket: None, bound_sockets: Vec::new(), connections: Vec::new() }
    }

    pub fn connections(&self) -> (r: &Vec<Connection>)
        ensures
            r@ == self.spec_connections(),
    {
        &self.connections
    }

    pub fn default_socket(&self) -> (r: Option<SocketHandle>)
        ensures
            r == self.spec_default(),
    {
        self.default_socket
    }

    /// The roster's connections through `socket`, in roster order.
    pub fn connections_for_socket(&self, socket: SocketHandle) -> (r: Vec<Connection>)
        ensures
            r@ == self.spec_connections().filter(|c: Connection| c.socket == socket),
    {
        let mut r: Vec<Connection> = Vec::new();
        let mut i: usize = 0;
        while i < self.connections.len()
            invariant
                i <= self.connections@.len(),
                r@ == self.connections@.subrange(0, i as int).filter(|c: Connection| c.socket == socket),
            decreases self.connections@.len() - i,
        {
            let c = self.connections[i];
            proof {
                let s = self.connections@.subrange(0, i as int + 1);
                assert(s.drop_last() =~= self.connections@.subrange(0, i as int));
                reveal(Seq::filter);
            }
            if c.socket == socket {
                r.push(c);
            }
            i = i + 1;
        }
        assert(self.connections@.subrange(0, self.connections@.len() as int) =~= self.connections@);
        r
    }

    pub fn has_connection(&self, connection: Connection) -> (r: bool)
        ensures
            r == self.spec_connections().contains(connection),
    {
        let mut i: usize = 0;
        while i < self.connections.len()
            invariant
                i <= self.connections@.len(),
                forall|j: int| 0 <= j < i ==> self.connections@[j] != connection,
            decreases self.connections@.len() - i,
        {
            if self.connections[i] == connection {
                return true;
            }
            i = i + 1;
        }
        false
    }

    /// Puts `connection` in the roster unless it is there already.
    pub fn add_connection(&mut self, connection: Connection)
        requires
            old(self).wf(),
        ensures
            final(self).wf(),
            final(self).spec_bound() == old(self).spec_bound(),
            final(self).spec_default() == old(self).spec_default(),
            old(self).spec_connections().contains(connection) ==> final(self).spec_connections() == old(self).spec_connections(),
            !old(self).spec_connections().contains(connection) ==> final(self).spec_connections() == old(self).spec_connections().push(connection),
    {
        if self.has_connection(connection) {
            return;
        }
        self.connections.push(connection);
    }

    /// Takes `connection` out of the roster if it is there; the others keep
    /// their order.
    pub fn remove_connection(&mut self, connection: Connection)
        requires
            old(self).wf(),
        ensures
            final(self).wf(),
            final(self).spec_bound() == old(self).spec_bound(),
            final(self).spec_default() == old(self).spec_default(),
            final(self).spec_connections() == old(self).spec_connections().filter(
                |c: Connection| c != connection,
            ),
            forall|c: Connection| final(self).spec_connections().contains(c)
                <==> (old(self).spec_connections().contains(c) && c != connection),
            old(self).spec_connections().contains(connection)
                ==> final(self).spec_connections().len() + 1 == old(self).spec_connections().len(),
            !old(self).spec_connections().contains(connection)
                ==> final(self).spec_connections() == old(self).spec_connections(),
    {
        let mut i: usize = 0;
        while i < self.connections.len()
            invariant
                *self == *old(self),
                old(self).wf(),
                i <= self.connections@.len(),
                forall|j: int| 0 <= j < i ==> self.connections@[j] != connection,
            decreases self.connections@.len() - i,
        {
            if self.connections[i] == connection {
                let ghost before = self.connections@;
                self.connections.remove(i);
                proof {
                    lemma_remove_is_filter(before, i as int);
                    assert((|c: Connection| c != before[i as int]) =~= (|c: Connection| c != connection));
                    let after = self.connections@;
                    assert(after =~= before.remove(i as int));
                    assert(forall|k: int| 0 <= k < after.len() ==> #[trigger] after[k] == (if k < i { before[k] } else { before[k + 1] }));
                    assert forall|c: Connection| after.contains(c)
                        <==> (before.contains(c) && c != connection) by {
                        if after.contains(c) {
                            let k = choose|k: int| 0 <= k < after.len() && after[k] == c;
                            if k < i {
                                assert(before[k] == c);
                            } else {
                                assert(before[k + 1] == c);
                                assert(before[i as int] == connection);
                            }
                        }
                        if before.contains(c) && c != connection {
                            let k = choose|k: int| 0 <= k < before.len() && before[k] == c;
                            assert(k != i);
                            if k < i {
                                assert(after[k] == c);
                            } else {
                                assert(after[k - 1] == c);
                            }
                        }
                    }
                    assert(after.no_duplicates()) by {
                        assert forall|a: int, b: int| 0 <= a < b < after.len() implies after[a] != after[b] by {
                            assert(after[a] == (if a < i { before[a] } else { before[a + 1] }));
                            assert(after[b] == (if b < i { before[b] } else { before[b + 1] }));
                            let a2 = if a < i { a } else { a + 1 };
                            let b2 = if b < i { b } else { b + 1 };
                            assert(after[a] == before[a2]);
                            assert(after[b] == before[b2]);
                        }
                    }
                }
                return;
            }
            i = i + 1;
        }
        proof {
            lemma_filter_all(self.connections@, |c: Connection| c != connection);
        }
    }

    /// Records a socket that was bound, and makes it the default if there is
    /// none yet. A handle that is already bound is left as it is.
    pub fn register_socket(&mut self, handle: SocketHandle)
        requires
            old(self).wf(),
        ensures
            final(self).wf(),
            final(self).spec_connections() == old(self).spec_connections(),
            old(self).spec_bound().contains(handle) ==> final(self).spec_bound() == old(self).spec_bound(),
            !old(self).spec_bound().contains(handle) ==> final(self).spec_bound() == old(self).spec_bound().push(handle),
            final(self).spec_default() == (match old(self).spec_default() {
                Some(d) => Some(d),
                None => Some(handle),
            }),
    {
        let mut bound = false;
        let mut i: usize = 0;
        while i < self.bound_sockets.len()
            invariant
                *self == *old(self),
                old(self).wf(),
                i <= self.bound_sockets@.len(),
                bound == exists|j: int| 0 <= j < i && self.bound_sockets@[j] == handle,
            decreases self.bound_sockets@.len() - i,
        {
            if self.bound_sockets[i] == handle {
                bound = true;
            }
            i = i + 1;
        }
        if !bound {
            assert(!self.bound_sockets@.contains(handle));
            let ghost before = self.bound_sockets@;
            self.bound_sockets.push(handle);
            proof {
                let after = self.bound_sockets@;
                assert forall|a: int, b: int| 0 <= a < b < after.len() implies after[a] != after[b] by {
                    if b == before.len() {
                        assert(after[a] == before[a]);
                    } else {
                        assert(after[a] == before[a] && after[b] == before[b]);
                    }
                }
                assert(after[before.len() as int] == handle);
                assert forall|h: SocketHandle| before.contains(h) implies after.contains(h) by {
                    let k = choose|k: int| 0 <= k < before.len() && before[k] == h;
                    assert(after[k] == h);
                }
            }
        } else {
            let ghost j = choose|j: int| 0 <= j < i && self.bound_sockets@[j] == handle;
            assert(self.bound_sockets@[j] == handle);
        }
        if self.default_socket.is_none() {
            self.default_socket = Some(handle);
        }
    }

    /// The socket asked for, else the default one, provided it was bound here.
    pub fn get_socket_or_default(&self, socket: Option<SocketHandle>) -> (r: Result<SocketHandle, NetworkError>)
        ensures
            r == self.resolve(socket),
    {
        let chosen = match socket {
            Some(s) => s,
            None => match self.default_socket {
                Some(d) => d,
                None => {
                    return Err(NetworkError::NoDefaultSocket);
                },
            },
        };
        let mut i: usize = 0;
        while i < self.bound_sockets.len()
            invariant
                chosen_socket(self.spec_default(), socket) == Some(chosen),
                i <= self.bound_sockets@.len(),
                forall|j: int| 0 <= j < i ==> self.bound_sockets@[j] != chosen,
            decreases self.bound_sockets@.len() - i,
        {
            if self.bound_sockets[i] == chosen {
                assert(self.bound_sockets@[i as int] == chosen);
                assert(self.spec_bound().contains(chosen));
                return Ok(chosen);
            }
            i = i + 1;
        }
        Err(NetworkError::NoSocket(chosen))
    }

    /// A send of `message` to `addr`, ready for the worker's outbound channel.
    pub fn send_with_config(
        &self,
        addr: Address,
        message: &[u8],
        delivery: NetworkDelivery,
        config: SendConfig,
    ) -> (r: Result<OutboundMessage, NetworkError>)
        ensures
            match self.resolve(config.socket) {
                Err(e) => r == Err::<OutboundMessage, NetworkError>(e),
                Ok(s) => r matches Ok(m) && m.destination == addr && m.socket_handle == s
                    && m.delivery == delivery && m.message@ == message@,
            },
    {
        let socket = match self.get_socket_or_default(config.socket) {
            Ok(s) => s,
            Err(e) => {
                return Err(e);
            },
        };
        Ok(OutboundMessage {
            destination: addr,
            socket_handle: socket,
            delivery,
            message: vstd::slice::slice_to_vec(message),
        })
    }

    /// `send_with_config` through the default socket.
    pub fn send(&self, addr: Address, message: &[u8], delivery: NetworkDelivery) -> (r: Result<
        OutboundMessage,
        NetworkError,
    >)
        ensures
            match self.resolve(None) {
                Err(e) => r == Err::<OutboundMessage, NetworkError>(e),
                Ok(s) => r matches Ok(m) && m.destination == addr && m.socket_handle == s
                    && m.delivery == delivery && m.message@ == message@,
            },
    {
        self.send_with_config(addr, message, delivery, SendConfig::default())
    }

    /// One send of `message` to each connection of the resolved socket, in
    /// roster order.
    pub fn broadcast_with_config(
        &self,
        message: &[u8],
        delivery: NetworkDelivery,
        config: SendConfig,
    ) -> (r: Result<Vec<OutboundMessage>, NetworkError>)
        ensures
            match self.resolve(config.socket) {
                Err(e) => r == Err::<Vec<OutboundMessage>, NetworkError>(e),
                Ok(s) => r matches Ok(v) && is_broadcast(
                    v@,
                    self.spec_connections().filter(|c: Connection| c.socket == s),
                    s,
                    delivery,
                    message@,
                ),
            },
    {
        let socket = match self.get_socket_or_default(config.socket) {
            Ok(s) => s,
            Err(e) => {
                return Err(e);
            },
        };
        let broadcast_to = self.connections_for_socket(socket);
        let mut out: Vec<OutboundMessage> = Vec::new();
        let mut i: usize = 0;
        while i < broadcast_to.len()
            invariant
                i <= broadcast_to@.len(),
                out@.len() == i,
                is_broadcast(out@, broadcast_to@.subrange(0, i as int), socket, delivery, message@),
            decreases broadcast_to@.len() - i,
        {
            let conn = broadcast_to[i];
            out.push(
                OutboundMessage {
                    destination: conn.addr,
                    socket_handle: socket,
                    delivery,
                    message: vstd::slice::slice_to_vec(message),
                },
            );
            i = i + 1;
        }
        assert(broadcast_to@.subrange(0, broadcast_to@.len() as int) =~= broadcast_to@);
        Ok(out)
    }

    /// `broadcast_with_config` through the default socket.
    pub fn broadcast(&self, message: &[u8], delivery: NetworkDelivery) -> (r: Result<
        Vec<OutboundMessage>,
        NetworkError,
    >)
        ensures
            match self.resolve(None) {
                Err(e) => r == Err::<Vec<OutboundMessage>, NetworkError>(e),
                Ok(s) => r matches Ok(v) && is_broadcast(
                    v@,
                    self.spec_connections().filter(|c: Connection| c.socket == s),
                    s,
                    delivery,
                    message@,
                ),
            },
    {
        self.broadcast_with_config(message, delivery, SendConfig::default())
    }
}

/// Send validation: a socket that was never bound here is refused as
/// `NoSocket`, and before any bind a send without a socket is refused as
/// `NoDefaultSocket`. `send`, `send_with_config`, `broadcast` and
/// `broadcast_with_config` all fail with what `resolve` gives.
pub proof fn lemma_send_validation(net: &NetworkResource, h: SocketHandle)
    requires
        net.wf(),
    ensures
        !net.spec_bound().contains(h) ==> net.resolve(Some(h)) == Err::<SocketHandle, NetworkError>(
            NetworkError::NoSocket(h),
        ),
        net.spec_bound().len() == 0 ==> net.resolve(None) == Err::<SocketHandle, NetworkError>(
            NetworkError::NoDefaultSocket,
        ),
{
}

/// `out` holds one send of `payload` to each of `targets`, in order.
pub open spec fn is_broadcast(
    out: Seq<OutboundMessage>,
    targets: Seq<Connection>,
    socket: SocketHandle,
    delivery: NetworkDelivery,
    payload: Seq<u8>,
) -> bool {
    &&& out.len() == targets.len()
    &&& forall|i: int|
        0 <= i < out.len() ==> {
            &&& (#[trigger] out[i]).destination == targets[i].addr
            &&& out[i].socket_handle == socket
            &&& out[i].delivery == delivery
            &&& out[i].message@ == payload
        }
}

} // verus!
