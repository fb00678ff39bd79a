use vstd::prelude::*;

use crate::events::{ClientConnected, ClientDisconnected, MessageReceived, SendError};
use crate::resources::{lemma_filter_all, lemma_filter_filter, NetworkResource};
use crate::types::{Connection, NetworkEvent};

verus! {

/// The public events of one tick, in the order in which they are published.
pub struct TickEvents {
    pub connected: Vec<ClientConnected>,
    pub disconnected: Vec<ClientDisconnected>,
    pub messages: Vec<MessageReceived>,
    pub errors: Vec<SendError>,
}

/// The connections that a batch of events adds to `roster`: each `Connected`
/// peer that is not in the roster, once, in order of first arrival.
pub open spec fn added_from(roster: Seq<Connection>, events: Seq<NetworkEvent>) -> Seq<Connection>
    decreases events.len(),
{
    if events.len() == 0 {
        Seq::empty()
    } else {
        let prev = added_from(roster, events.drop_last());
        match events.last() {
            NetworkEvent::Connected(c) => if !roster.contains(c) && !prev.contains(c) {
                prev.push(c)
            } else {
                prev
            },
            _ => prev,
        }
    }
}

/// The connections that a batch of events removes from `roster`: each
/// `Disconnected` peer that is in the roster, once, in order of first arrival.
pub open spec fn removed_from(roster: Seq<Connection>, events: Seq<NetworkEvent>) -> Seq<Connection>
    decreases events.len(),
{
    if events.len() == 0 {
        Seq::empty()
    } else {
        let prev = removed_from(roster, events.drop_last());
        match events.last() {
            NetworkEvent::Disconnected(c) => if roster.contains(c) && !prev.contains(c) {
                prev.push(c)
            } else {
                prev
            },
            _ => prev,
        }
    }
}

/// The payloads of a batch, in order of arrival.
pub open spec fn messages_of(events: Seq<NetworkEvent>) -> Seq<MessageReceived>
    decreases events.len(),
{
    if events.len() == 0 {
        Seq::empty()
    } else {
        let prev = messages_of(events.drop_last());
        match events.last() {
            NetworkEvent::Message(c, b) => prev.push(MessageReceived(c, b)),
            _ => prev,
        }
    }
}

/// The send errors of a batch, in order of arrival.
pub open spec fn errors_of(events: Seq<NetworkEvent>) -> Seq<SendError>
    decreases events.len(),
{
    if events.len() == 0 {
        Seq::empty()
    } else {
        let prev = errors_of(events.drop_last());
        match events.last() {
            NetworkEvent::SendError(e) => prev.push(SendError(e)),
            _ => prev,
        }
    }
}

/// The roster after a batch, in order: the old roster followed by the
/// additions, without the removals.
pub open spec fn roster_seq_after(roster: Seq<Connection>, events: Seq<NetworkEvent>) -> Seq<Connection> {
    (roster + added_from(roster, events)).filter(
        |c: Connection| !removed_from(roster, events).contains(c),
    )
}

/// The roster after a batch: what stays of the old one, and what was added.
pub open spec fn roster_after(roster: Seq<Connection>, events: Seq<NetworkEvent>, c: Connection) -> bool {
    (roster.contains(c) && !removed_from(roster, events).contains(c))
        || added_from(roster, events).contains(c)
}

/// The shape of a batch's deltas: no connection twice, additions only of
/// peers outside the roster, removals only of peers inside it.
pub proof fn lemma_deltas_shape(roster: Seq<Connection>, events: Seq<NetworkEvent>)
    ensures
        added_from(roster, events).no_duplicates(),
        removed_from(roster, events).no_duplicates(),
        forall|c: Connection| #[trigger] added_from(roster, events).contains(c) ==> !roster.contains(c),
        forall|c: Connection| #[trigger] removed_from(roster, events).contains(c) ==> roster.contains(c),
    decreases events.len(),
{
    if events.len() > 0 {
        let prev = events.drop_last();
        lemma_deltas_shape(roster, prev);
        let pa = added_from(roster, prev);
        let pr = removed_from(roster, prev);
        lemma_push_shape(pa, events.last());
        lemma_push_shape(pr, events.last());
        match events.last() {
            NetworkEvent::Connected(c) => {
                if !roster.contains(c) && !pa.contains(c) {
                    lemma_push_no_dup(pa, c);
                }
            },
            NetworkEvent::Disconnected(c) => {
                if roster.contains(c) && !pr.contains(c) {
                    lemma_push_no_dup(pr, c);
                }
            },
            _ => {},
        }
    }
}

proof fn lemma_push_shape(s: Seq<Connection>, e: NetworkEvent)
    ensures
        forall|c: Connection, d: Connection| #[trigger] s.push(d).contains(c) <==> (s.contains(c) || c == d),
{
    assert forall|c: Connection, d: Connection| #[trigger] s.push(d).contains(c) <==> (s.contains(c) || c == d) by {
        if s.push(d).contains(c) {
            let k = choose|k: int| 0 <= k < s.push(d).len() && s.push(d)[k] == c;
            if k < s.len() {
                assert(s[k] == c);
            }
        }
        if s.contains(c) {
            let k = choose|k: int| 0 <= k < s.len() && s[k] == c;
            assert(s.push(d)[k] == c);
        }
        if c == d {
            assert(s.push(d)[s.len() as int] == c);
        }
    }
}

proof fn lemma_push_no_dup(s: Seq<Connection>, d: Connection)
    requires
        s.no_duplicates(),
        !s.contains(d),
    ensures
        s.push(d).no_duplicates(),
{
    let t = s.push(d);
    assert forall|a: int, b: int| 0 <= a < b < t.len() implies t[a] != t[b] by {
        assert(t[a] == s[a]);
        if b == s.len() {
            assert(s.contains(s[a]));
        } else {
            assert(t[b] == s[b]);
        }
    }
}

/// `v@.contains(c)`, by a scan.
fn contains_connection(v: &Vec<Connection>, c: Connection) -> (r: bool)
    ensures
        r == v@.contains(c),
{
    let mut i: usize = 0;
    while i < v.len()
        invariant
            i <= v@.len(),
            forall|j: int| 0 <= j < i ==> v@[j] != c,
        decreases v@.len() - i,
    {
        if v[i] == c {
            assert(v@[i as int] == c);
            return true;
        }
        i = i + 1;
    }
    false
}

proof fn lemma_remove_step(
    mid: Seq<Connection>,
    pre: Seq<Connection>,
    conn: Connection,
    before: Seq<Connection>,
    after: Seq<Connection>,
)
    requires
        before == mid.filter(|c: Connection| !pre.contains(c)),
        after == before.filter(|c: Connection| c != conn),
    ensures
        after == mid.filter(|c: Connection| !pre.push(conn).contains(c)),
{
    lemma_push_shape(pre, NetworkEvent::Connected(conn));
    let p = |c: Connection| !pre.contains(c);
    let q = |c: Connection| c != conn;
    let pn = |c: Connection| !pre.push(conn).contains(c);
    lemma_filter_filter(mid, p, q);
    assert((|a: Connection| p(a) && q(a)) =~= pn);
}

/// One tick of reconciliation: drains `events` (in arrival order), changes
/// the roster once per connection, and hands back the public events of the
/// tick. A peer that connects is added once however many times it is
/// reported; a peer that disconnects is removed only if it was in the roster.
/// The drain of one tick: the deltas of the roster and the pass-through
/// events, in order of arrival. The roster is only read.
fn drain(net: &NetworkResource, events: Vec<NetworkEvent>) -> (r: (
    Vec<Connection>,
    Vec<Connection>,
    Vec<MessageReceived>,
    Vec<SendError>,
))
    ensures
        r.0@ == added_from(net.spec_connections(), events@),
        r.1@ == removed_from(net.spec_connections(), events@),
        r.2@ == messages_of(events@),
        r.3@ == errors_of(events@),
{
    let ghost roster = net.spec_connections();
    let ghost all = events@;
    let mut pending = events;
    let mut added: Vec<Connection> = Vec::new();
    let mut removed: Vec<Connection> = Vec::new();
    let mut messages: Vec<MessageReceived> = Vec::new();
    let mut errors: Vec<SendError> = Vec::new();
    while pending.len() > 0
        invariant
            roster == net.spec_connections(),
            pending@.len() <= all.len(),
            pending@ == all.subrange(all.len() - pending@.len(), all.len() as int),
            added@ == added_from(roster, all.subrange(0, all.len() - pending@.len())),
            removed@ == removed_from(roster, all.subrange(0, all.len() - pending@.len())),
            messages@ == messages_of(all.subrange(0, all.len() - pending@.len())),
            errors@ == errors_of(all.subrange(0, all.len() - pending@.len())),
        decreases pending@.len(),
    {
        let ghost k = all.len() - pending@.len();
        let event = pending.remove(0);
        proof {
            assert(all.subrange(0, k + 1).drop_last() =~= all.subrange(0, k));
            assert(all[k] == event);
            assert(all.subrange(0, k + 1).last() == event);
            assert(pending@ =~= all.subrange(all.len() - pending@.len(), all.len() as int));
        }
        match event {
            NetworkEvent::Connected(conn) => {
                if !net.has_connection(conn) && !contains_connection(&added, conn) {
                    added.push(conn);
                }
            },
            NetworkEvent::Disconnected(conn) => {
                if net.has_connection(conn) && !contains_connection(&removed, conn) {
                    removed.push(conn);
                }
            },
            NetworkEvent::Message(conn, bytes) => {
                messages.push(MessageReceived(conn, bytes));
            },
            NetworkEvent::SendError(error) => {
                errors.push(SendError(error));
            },
        }
    }
    assert(all.subrange(0, all.len() as int) =~= all);
    (added, removed, messages, errors)
}

pub fn process_network_events(net: &mut NetworkResource, events: Vec<NetworkEvent>) -> (r: TickEvents)
    requires
        old(net).wf(),
    ensures
        final(net).wf(),
        final(net).spec_bound() == old(net).spec_bound(),
        final(net).spec_default() == old(net).spec_default(),
        final(net).spec_connections() == roster_seq_after(old(net).spec_connections(), events@),
        forall|c: Connection| #[trigger] final(net).spec_connections().contains(c)
            <==> roster_after(old(net).spec_connections(), events@, c),
        final(net).spec_connections().len() == old(net).spec_connections().len()
            + added_from(old(net).spec_connections(), events@).len()
            - removed_from(old(net).spec_connections(), events@).len(),
        r.connected@ == added_from(old(net).spec_connections(), events@).map_values(
            |c: Connection| ClientConnected(c),
        ),
        r.disconnected@ == removed_from(old(net).spec_connections(), events@).map_values(
            |c: Connection| ClientDisconnected(c),
        ),
        r.messages@ == messages_of(events@),
        r.errors@ == errors_of(events@),
{
    let ghost roster = net.spec_connections();
    let ghost all = events@;
    let (added, removed, messages, errors) = drain(net, events);
    proof {
        lemma_deltas_shape(roster, all);
    }
    let mut connected: Vec<ClientConnected> = Vec::new();
    let mut i: usize = 0;
    while i < added.len()
        invariant
            added@ == added_from(roster, all),
            added@.no_duplicates(),
            forall|c: Connection| #[trigger] added@.contains(c) ==> !roster.contains(c),
            i <= added@.len(),
            net.wf(),
            net.spec_bound() == old(net).spec_bound(),
            net.spec_default() == old(net).spec_default(),
            net.spec_connections() == roster + added@.subrange(0, i as int),
            connected@ == added@.subrange(0, i as int).map_values(|c: Connection| ClientConnected(c)),
        decreases added@.len() - i,
    {
        let conn = added[i];
        proof {
            if (roster + added@.subrange(0, i as int)).contains(conn) {
                let k = choose|k: int| 0 <= k < roster.len() + i && (roster + added@.subrange(0, i as int))[k] == conn;
                if k < roster.len() {
                    assert(roster[k] == conn);
                    assert(added@.contains(conn));
                } else {
                    assert(added@[k - roster.len()] == conn);
                    assert(added@[i as int] == conn);
                }
            }
        }
        net.add_connection(conn);
        connected.push(ClientConnected(conn));
        proof {
            assert(roster + added@.subrange(0, i as int + 1) =~= (roster + added@.subrange(0, i as int)).push(conn));
            assert(connected@ =~= added@.subrange(0, i as int + 1).map_values(|c: Connection| ClientConnected(c)));
        }
        i = i + 1;
    }
    assert(added@.subrange(0, added@.len() as int) =~= added@);
    let ghost mid = net.spec_connections();
    proof {
        assert forall|c: Connection| mid.contains(c) <==> (roster.contains(c) || added@.contains(c)) by {
            if mid.contains(c) {
                let k = choose|k: int| 0 <= k < mid.len() && mid[k] == c;
                if k < roster.len() {
                    assert(roster[k] == c);
                } else {
                    assert(added@[k - roster.len()] == c);
                }
            }
            if roster.contains(c) {
                let k = choose|k: int| 0 <= k < roster.len() && roster[k] == c;
                assert(mid[k] == c);
            }
            if added@.contains(c) {
                let k = choose|k: int| 0 <= k < added@.len() && added@[k] == c;
                assert(mid[roster.len() + k] == c);
            }
        }
    }
    proof {
        assert(removed@.subrange(0, 0) =~= Seq::<Connection>::empty());
        lemma_filter_all(mid, |c: Connection| !removed@.subrange(0, 0).contains(c));
    }
    let mut disconnected: Vec<ClientDisconnected> = Vec::new();
    let mut j: usize = 0;
    while j < removed.len()
        invariant
            added@ == added_from(roster, all),
            removed@ == removed_from(roster, all),
            removed@.no_duplicates(),
            forall|c: Connection| #[trigger] added@.contains(c) ==> !roster.contains(c),
            forall|c: Connection| #[trigger] removed@.contains(c) ==> roster.contains(c),
            j <= removed@.len(),
            net.wf(),
            net.spec_bound() == old(net).spec_bound(),
            net.spec_default() == old(net).spec_default(),
            forall|c: Connection| #[trigger] net.spec_connections().contains(c)
                <==> ((roster.contains(c) && !removed@.subrange(0, j as int).contains(c)) || added@.contains(c)),
            net.spec_connections().len() == roster.len() + added@.len() - j,
            mid == roster + added@,
            net.spec_connections() == mid.filter(|c: Connection| !removed@.subrange(0, j as int).contains(c)),
            disconnected@ == removed@.subrange(0, j as int).map_values(|c: Connection| ClientDisconnected(c)),
        decreases removed@.len() - j,
    {
        let conn = removed[j];
        proof {
            assert(removed@.contains(conn));
            if removed@.subrange(0, j as int).contains(conn) {
                let k = choose|k: int| 0 <= k < j && removed@.subrange(0, j as int)[k] == conn;
                assert(removed@[k] == removed@[j as int]);
            }
            assert(net.spec_connections().contains(conn));
        }
        let ghost before_net = net.spec_connections();
        net.remove_connection(conn);
        disconnected.push(ClientDisconnected(conn));
        proof {
            let pre = removed@.subrange(0, j as int);
            let post = removed@.subrange(0, j as int + 1);
            assert(post =~= pre.push(conn));
            lemma_push_shape(pre, NetworkEvent::Connected(conn));
            lemma_remove_step(mid, pre, conn, before_net, net.spec_connections());
            assert(post =~= pre.push(conn));
            assert(disconnected@ =~= post.map_values(|c: Connection| ClientDisconnected(c)));
        }
        j = j + 1;
    }
    assert(removed@.subrange(0, removed@.len() as int) =~= removed@);
    TickEvents { connected, disconnected, messages, errors }
}

/// A batch of `n >= 1` reports that `c` connected, with `c` not yet in the
/// roster, adds `c` exactly once and removes nothing: one "connected" event.
pub proof fn lemma_idempotent_connect(roster: Seq<Connection>, c: Connection, n: nat)
    requires
        !roster.contains(c),
        n >= 1,
    ensures
        added_from(roster, Seq::new(n, |i: int| NetworkEvent::Connected(c))) == seq![c],
        removed_from(roster, Seq::new(n, |i: int| NetworkEvent::Connected(c))).len() == 0,
        roster_after(roster, Seq::new(n, |i: int| NetworkEvent::Connected(c)), c),
        roster_seq_after(roster, Seq::new(n, |i: int| NetworkEvent::Connected(c))) == roster.push(c),
    decreases n,
{
    lemma_idempotent_connect_deltas(roster, c, n);
    let events = Seq::new(n, |i: int| NetworkEvent::Connected(c));
    assert(removed_from(roster, events) =~= Seq::<Connection>::empty());
    assert(roster + seq![c] =~= roster.push(c));
    lemma_filter_all(roster.push(c), |x: Connection| !removed_from(roster, events).contains(x));
}

proof fn lemma_idempotent_connect_deltas(roster: Seq<Connection>, c: Connection, n: nat)
    requires
        !roster.contains(c),
        n >= 1,
    ensures
        added_from(roster, Seq::new(n, |i: int| NetworkEvent::Connected(c))) == seq![c],
        removed_from(roster, Seq::new(n, |i: int| NetworkEvent::Connected(c))).len() == 0,
        roster_after(roster, Seq::new(n, |i: int| NetworkEvent::Connected(c)), c),
    decreases n,
{
    let events = Seq::new(n, |i: int| NetworkEvent::Connected(c));
    let prev = Seq::new((n - 1) as nat, |i: int| NetworkEvent::Connected(c));
    assert(events.drop_last() =~= prev);
    assert(events.last() == NetworkEvent::Connected(c));
    if n == 1 {
        assert(added_from(roster, prev) =~= Seq::<Connection>::empty());
        assert(removed_from(roster, prev) =~= Seq::<Connection>::empty());
        assert(added_from(roster, events) =~= Seq::<Connection>::empty().push(c));
    } else {
        lemma_idempotent_connect_deltas(roster, c, (n - 1) as nat);
        assert(added_from(roster, prev).contains(c)) by {
            assert(added_from(roster, prev)[0] == c);
        }
        assert(added_from(roster, events) == added_from(roster, prev));
    }
    assert(added_from(roster, events) =~= seq![c]);
    assert(added_from(roster, events)[0] == c);
}

/// A report that `c` disconnected, with `c` not in the roster, changes
/// nothing that a batch produces: no roster change and no public event.
pub proof fn lemma_disconnect_unknown(roster: Seq<Connection>, events: Seq<NetworkEvent>, c: Connection)
    requires
        !roster.contains(c),
    ensures
        added_from(roster, events.push(NetworkEvent::Disconnected(c))) == added_from(roster, events),
        removed_from(roster, events.push(NetworkEvent::Disconnected(c))) == removed_from(roster, events),
        messages_of(events.push(NetworkEvent::Disconnected(c))) == messages_of(events),
        errors_of(events.push(NetworkEvent::Disconnected(c))) == errors_of(events),
        roster_seq_after(roster, events.push(NetworkEvent::Disconnected(c))) == roster_seq_after(roster, events),
{
    assert(events.push(NetworkEvent::Disconnected(c)).drop_last() =~= events);
}

/// However a batch mixes its events, a peer outside the roster that is
/// reported connected at least once is added, and only once.
pub proof fn lemma_connect_added_once(roster: Seq<Connection>, events: Seq<NetworkEvent>, c: Connection)
    requires
        !roster.contains(c),
        exists|i: int| 0 <= i < events.len() && events[i] == NetworkEvent::Connected(c),
    ensures
        added_from(roster, events).contains(c),
        added_from(roster, events).no_duplicates(),
        !removed_from(roster, events).contains(c),
        roster_after(roster, events, c),
    decreases events.len(),
{
    lemma_deltas_shape(roster, events);
    let prev = events.drop_last();
    let pa = added_from(roster, prev);
    lemma_push_shape(pa, events.last());
    if events.last() == NetworkEvent::Connected(c) {
        if !pa.contains(c) {
            assert(pa.push(c).contains(c));
        }
    } else {
        let i = choose|i: int| 0 <= i < events.len() && events[i] == NetworkEvent::Connected(c);
        assert(i < events.len() - 1);
        assert(prev[i] == NetworkEvent::Connected(c));
        lemma_connect_added_once(roster, prev, c);
    }
}

/// A report that `c` disconnected, with `c` not in the roster, may stand
/// anywhere in a batch: taking it out changes nothing that the batch
/// produces.
pub proof fn lemma_disconnect_unknown_anywhere(
    roster: Seq<Connection>,
    pre: Seq<NetworkEvent>,
    post: Seq<NetworkEvent>,
    c: Connection,
)
    requires
        !roster.contains(c),
    ensures
        added_from(roster, pre.push(NetworkEvent::Disconnected(c)) + post) == added_from(roster, pre + post),
        removed_from(roster, pre.push(NetworkEvent::Disconnected(c)) + post) == removed_from(roster, pre + post),
        messages_of(pre.push(NetworkEvent::Disconnected(c)) + post) == messages_of(pre + post),
        errors_of(pre.push(NetworkEvent::Disconnected(c)) + post) == errors_of(pre + post),
        roster_seq_after(roster, pre.push(NetworkEvent::Disconnected(c)) + post) == roster_seq_after(roster, pre + post),
    decreases post.len(),
{
    let with = pre.push(NetworkEvent::Disconnected(c));
    if post.len() == 0 {
        assert(with + post =~= with);
        assert(pre + post =~= pre);
        lemma_disconnect_unknown(roster, pre, c);
    } else {
        lemma_disconnect_unknown_anywhere(roster, pre, post.drop_last(), c);
        assert((with + post).drop_last() =~= with + post.drop_last());
        assert((pre + post).drop_last() =~= pre + post.drop_last());
        assert((with + post).last() == post.last());
        assert((pre + post).last() == post.last());
    }
}

/// Reports that a peer already in the roster connected change nothing: no
/// event, and the roster stays as it is.
pub proof fn lemma_known_connect_noop(roster: Seq<Connection>, c: Connection, n: nat)
    requires
        roster.contains(c),
    ensures
        added_from(roster, Seq::new(n, |i: int| NetworkEvent::Connected(c))).len() == 0,
        removed_from(roster, Seq::new(n, |i: int| NetworkEvent::Connected(c))).len() == 0,
        roster_seq_after(roster, Seq::new(n, |i: int| NetworkEvent::Connected(c))) == roster,
    decreases n,
{
    let events = Seq::new(n, |i: int| NetworkEvent::Connected(c));
    if n > 0 {
        let prev = Seq::new((n - 1) as nat, |i: int| NetworkEvent::Connected(c));
        assert(events.drop_last() =~= prev);
        assert(events.last() == NetworkEvent::Connected(c));
        lemma_known_connect_noop(roster, c, (n - 1) as nat);
    }
    assert(added_from(roster, events) =~= Seq::<Connection>::empty());
    assert(removed_from(roster, events) =~= Seq::<Connection>::empty());
    assert(roster + added_from(roster, events) =~= roster);
    lemma_filter_all(roster, |x: Connection| !removed_from(roster, events).contains(x));
}

/// Reports that a peer outside the roster disconnected change nothing: no
/// event, and the roster stays as it is.
pub proof fn lemma_unknown_disconnect_noop(roster: Seq<Connection>, c: Connection, n: nat)
    requires
        !roster.contains(c),
    ensures
        added_from(roster, Seq::new(n, |i: int| NetworkEvent::Disconnected(c))).len() == 0,
        removed_from(roster, Seq::new(n, |i: int| NetworkEvent::Disconnected(c))).len() == 0,
        roster_seq_after(roster, Seq::new(n, |i: int| NetworkEvent::Disconnected(c))) == roster,
    decreases n,
{
    let events = Seq::new(n, |i: int| NetworkEvent::Disconnected(c));
    if n > 0 {
        let prev = Seq::new((n - 1) as nat, |i: int| NetworkEvent::Disconnected(c));
        assert(events.drop_last() =~= prev);
        assert(events.last() == NetworkEvent::Disconnected(c));
        lemma_unknown_disconnect_noop(roster, c, (n - 1) as nat);
    }
    assert(added_from(roster, events) =~= Seq::<Connection>::empty());
    assert(removed_from(roster, events) =~= Seq::<Connection>::empty());
    assert(roster + added_from(roster, events) =~= roster);
    lemma_filter_all(roster, |x: Connection| !removed_from(roster, events).contains(x));
}

} // verus!
