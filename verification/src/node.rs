use vstd::prelude::*;
use std::collections::VecDeque;
use std::sync::Arc;
use vstd::string::{StrSliceExecFns, StringExecFns};
use crate::error::{NodeError, RefreshStep};
use crate::host::{Host, HostView, contains_host, copy_hosts, decimal_text, host_views};
use crate::policy::{ClientPolicy, ClientPolicyView, NodeValidator};
use crate::services::{
    mapped_host, parse_friend, scan_friends, services_key, wrapping_count, FriendEntry, FriendScan,
    lemma_scan_stops_at_failure, lemma_wrapping_count_step,
};
use crate::string_map::StringMap;
use crate::text::{chars_of, parse_signed, parse_u16_in, spec_parse_isize, split_on, split_ranges};

verus! {

/// The number of partitions of a cluster.
pub const PARTITIONS: usize = 4096;

/// What a node hands out when asked for a connection.
pub enum ConnectionSlot<C> {
    /// An idle connection taken from the pool. The caller checks that it is
    /// still fit for use; where it is not, it invalidates it and asks again.
    Pooled(C),
    /// The pool was empty and a new connection has been counted: the caller
    /// opens it, and gives the count back with `dec_connections` if that fails.
    Reserved,
}

/// The abstract state of a node.
pub struct NodeView<C> {
    pub policy: ClientPolicyView,
    pub name: Seq<char>,
    pub host: HostView,
    pub aliases: Seq<HostView>,
    pub address: Seq<char>,
    pub pool: Seq<C>,
    pub connection_count: usize,
    pub failures: usize,
    pub partition_generation: isize,
    pub refresh_count: usize,
    pub reference_count: usize,
    pub responded: bool,
    pub use_new_info: bool,
    pub active: bool,
    pub supports_float: bool,
    pub supports_batch_index: bool,
    pub supports_replicas_all: bool,
    pub supports_geo: bool,
}

/// The pool holds no more idle connections than the policy allows.
pub open spec fn pool_within_limit<C>(v: NodeView<C>) -> bool {
    v.pool.len() <= v.policy.pool_size
}

/// What holds of every node: its pool is within the limit, it has at least
/// one address, and its host is the first of them.
pub open spec fn node_invariant<C>(v: NodeView<C>) -> bool {
    &&& pool_within_limit(v)
    &&& v.aliases.len() >= 1
    &&& v.host == v.aliases[0]
}

/// A node with one more address, and one more reference counted.
pub open spec fn with_alias<C>(v: NodeView<C>, alias: HostView) -> NodeView<C> {
    NodeView {
        aliases: v.aliases.push(alias),
        reference_count: v.reference_count.wrapping_add(1),
        ..v
    }
}

/// A node with one connection less counted, wrapping around below zero.
pub open spec fn released<C>(v: NodeView<C>) -> NodeView<C> {
    NodeView { connection_count: v.connection_count.wrapping_sub(1), ..v }
}

/// The state and answer after asking a node for a connection: the first idle
/// connection of the pool if there is one; else a new connection is counted,
/// unless the count was already above the pool size, in which case nothing
/// changes and the request is refused.
pub open spec fn checkout<C>(v: NodeView<C>) -> (NodeView<C>, Result<ConnectionSlot<C>, NodeError>) {
    if v.pool.len() > 0 {
        (NodeView { pool: v.pool.drop_first(), ..v }, Ok(ConnectionSlot::Pooled(v.pool[0])))
    } else if v.connection_count > v.policy.pool_size {
        (v, Err(NodeError::PoolExhausted(v.policy.pool_size)))
    } else {
        (
            NodeView { connection_count: v.connection_count.wrapping_add(1), ..v },
            Ok(ConnectionSlot::Reserved),
        )
    }
}

/// The state after giving a connection back, and the connection that the
/// caller must close, if any: an active node keeps it while its pool has
/// room, and otherwise invalidates it; an inactive node drops it.
pub open spec fn check_in<C>(v: NodeView<C>, conn: C) -> (NodeView<C>, Option<C>) {
    if v.active {
        if v.pool.len() < v.policy.pool_size {
            (NodeView { pool: v.pool.push(conn), ..v }, None)
        } else {
            (released(v), Some(conn))
        }
    } else {
        (v, None)
    }
}

/// A node taken out of use, its idle connections dropped.
pub open spec fn closed<C>(v: NodeView<C>) -> NodeView<C> {
    NodeView { active: false, pool: Seq::empty(), ..v }
}

/// What the caller found out about the connection that `get_connection`
/// handed out (or allowed it to open).
pub enum ConnectionEvent {
    /// A pooled connection had been idle too long to be reused.
    PooledIdle,
    /// A pooled connection could not take the timeout.
    PooledTimeoutFailed,
    /// A pooled connection is fit for use.
    PooledReady,
    /// A new connection could not be opened.
    OpenFailed,
    /// A new connection was opened but could not take the timeout.
    OpenedTimeoutFailed,
    /// A new connection is open and fit for use.
    OpenedReady,
}

/// What the caller does next with that connection.
pub enum ConnectionAction {
    /// Close it and ask `get_connection` again.
    CloseAndRetry,
    /// Hand it out.
    Use,
    /// Give up: the request for a connection fails.
    Fail,
}

/// The state and next action after `event`: an idle pooled connection is
/// invalidated (counted as gone) and the request starts over; a new
/// connection that could not be opened or set up gives its count back and
/// fails the request; a pooled connection that could not take the timeout
/// fails it with the count left as it is; a ready connection is used.
pub open spec fn settle<C>(v: NodeView<C>, event: ConnectionEvent) -> (NodeView<C>, ConnectionAction) {
    match event {
        ConnectionEvent::PooledIdle => (released(v), ConnectionAction::CloseAndRetry),
        ConnectionEvent::PooledTimeoutFailed => (v, ConnectionAction::Fail),
        ConnectionEvent::OpenFailed => (released(v), ConnectionAction::Fail),
        ConnectionEvent::OpenedTimeoutFailed => (released(v), ConnectionAction::Fail),
        ConnectionEvent::PooledReady => (v, ConnectionAction::Use),
        ConnectionEvent::OpenedReady => (v, ConnectionAction::Use),
    }
}

/// The error of a refresh that failed at `step` with `cause`.
pub open spec fn refresh_error(step: RefreshStep, cause: NodeError) -> Result<Vec<Host>, NodeError> {
    Err(NodeError::RefreshFailed { step, cause: Box::new(cause) })
}

/// One server of a cluster, as the client sees it: its name and addresses,
/// the connections it keeps open for reuse, and counters of its health.
/// `C` is the type of a connection to the server.
pub struct Node<C> {
    client_policy: ClientPolicy,
    name: String,
    host: Host,
    aliases: Vec<Host>,
    address: String,
    connections: VecDeque<C>,
    connection_count: usize,
    failures: usize,
    partition_generation: isize,
    refresh_count: usize,
    reference_count: usize,
    responded: bool,
    use_new_info: bool,
    active: bool,
    supports_float: bool,
    supports_batch_index: bool,
    supports_replicas_all: bool,
    supports_geo: bool,
}

impl<C> View for Node<C> {
    type V = NodeView<C>;

    closed spec fn view(&self) -> NodeView<C> {
        NodeView {
            policy: self.client_policy@,
            name: self.name@,
            host: self.host@,
            aliases: host_views(self.aliases@),
            address: self.address@,
            pool: self.connections@,
            connection_count: self.connection_count,
            failures: self.failures,
            partition_generation: self.partition_generation,
            refresh_count: self.refresh_count,
            reference_count: self.reference_count,
            responded: self.responded,
            use_new_info: self.use_new_info,
            active: self.active,
            supports_float: self.supports_float,
            supports_batch_index: self.supports_batch_index,
            supports_replicas_all: self.supports_replicas_all,
            supports_geo: self.supports_geo,
        }
    }
}

impl<C> Node<C> {
    /// The node invariant (see `node_invariant`).
    pub open spec fn wf(&self) -> bool {
        node_invariant(self@)
    }

    /// Creates a node from what the validator learned of the server: it is
    /// active, has no connections and no failures, has not been refreshed,
    /// and knows no partition generation yet (-1).
    pub fn new(client_policy: ClientPolicy, nv: Arc<NodeValidator>) -> (n: Node<C>)
        requires
            nv.aliases.len() > 0,
        ensures
            n.wf(),
            n@ == (NodeView::<C> {
                policy: client_policy@,
                name: nv.name@,
                host: nv.aliases@[0]@,
                aliases: nv.alias_views(),
                address: nv.address@,
                pool: Seq::empty(),
                connection_count: 0,
                failures: 0,
                partition_generation: -1isize,
                refresh_count: 0,
                reference_count: 0,
                responded: false,
                use_new_info: nv.use_new_info,
                active: true,
                supports_float: nv.supports_float,
                supports_batch_index: nv.supports_batch_index,
                supports_replicas_all: nv.supports_replicas_all,
                supports_geo: nv.supports_geo,
            }),
    {
        let pool_size = client_policy.connection_pool_size_per_node;
        Node {
            client_policy: client_policy,
            name: nv.name.clone(),
            aliases: copy_hosts(&nv.aliases),
            address: nv.address.clone(),
            use_new_info: nv.use_new_info,
            host: nv.aliases[0].duplicate(),
            connections: VecDeque::with_capacity(pool_size),
            connection_count: 0,
            failures: 0,
            partition_generation: -1,
            refresh_count: 0,
            reference_count: 0,
            responded: false,
            active: true,
            supports_float: nv.supports_float,
            supports_batch_index: nv.supports_batch_index,
            supports_replicas_all: nv.supports_replicas_all,
            supports_geo: nv.supports_geo,
        }
    }

    /// The address the node was reached at.
    pub fn address(&self) -> (r: &str)
        ensures
            r@ == self@.address,
    {
        self.address.as_str()
    }

    /// The name of the node.
    pub fn name(&self) -> (r: &str)
        ensures
            r@ == self@.name,
    {
        self.name.as_str()
    }

    /// The policy the node was created with.
    pub fn client_policy(&self) -> (r: &ClientPolicy)
        ensures
            r@ == self@.policy,
    {
        &self.client_policy
    }

    /// The first address of the node.
    pub fn host(&self) -> (r: Host)
        ensures
            r@ == self@.host,
    {
        self.host.duplicate()
    }

    /// Whether the server handles floating-point values.
    pub fn supports_float(&self) -> (r: bool)
        ensures
            r == self@.supports_float,
    {
        self.supports_float
    }

    /// Whether the server handles geospatial values.
    pub fn supports_geo(&self) -> (r: bool)
        ensures
            r == self@.supports_geo,
    {
        self.supports_geo
    }

    /// Counts one connection less; returns the count before. The count wraps
    /// around below zero.
    pub fn dec_connections(&mut self) -> (r: usize)
        ensures
            r == old(self)@.connection_count,
            final(self)@ == (NodeView::<C> {
                connection_count: old(self)@.connection_count.wrapping_sub(1),
                ..old(self)@
            }),
    {
        let before = self.connection_count;
        self.connection_count = before.wrapping_sub(1);
        before
    }

    /// Counts one connection more; returns the count before. The count wraps
    /// around past the largest `usize`.
    pub fn inc_connections(&mut self) -> (r: usize)
        ensures
            r == old(self)@.connection_count,
            final(self)@ == (NodeView::<C> {
                connection_count: old(self)@.connection_count.wrapping_add(1),
                ..old(self)@
            }),
    {
        let before = self.connection_count;
        self.connection_count = before.wrapping_add(1);
        before
    }

    /// How many of the peers in the last services list were already known.
    pub fn reference_count(&self) -> (r: usize)
        ensures
            r == self@.reference_count,
    {
        self.reference_count
    }

    /// How many requests to this node failed since it last answered a refresh.
    pub fn failures(&self) -> (r: usize)
        ensures
            r == self@.failures,
    {
        self.failures
    }

    /// Clears the count of failures.
    fn reset_failures(&mut self)
        ensures
            final(self)@ == (NodeView::<C> { failures: 0, ..old(self)@ }),
    {
        self.failures = 0;
    }

    /// Counts one more failure; returns the count before. The count wraps
    /// around past the largest `usize`.
    pub fn increase_failures(&mut self) -> (r: usize)
        ensures
            r == old(self)@.failures,
            final(self)@ == (NodeView::<C> {
                failures: old(self)@.failures.wrapping_add(1),
                ..old(self)@
            }),
    {
        let before = self.failures;
        self.failures = before.wrapping_add(1);
        before
    }

    /// Whether the node is still in use.
    pub fn is_active(&self) -> (r: bool)
        ensures
            r == self@.active,
    {
        self.active
    }

    /// The addresses of the node.
    pub fn aliases(&self) -> (r: Vec<Host>)
        ensures
            host_views(r@) == self@.aliases,
    {
        copy_hosts(&self.aliases)
    }

    /// Adds an address of the node, and counts one more reference to it.
    pub fn add_alias(&mut self, alias: Host)
        requires
            old(self).wf(),
        ensures
            final(self).wf(),
            final(self)@ == with_alias(old(self)@, alias@),
    {
        let ghost a = alias@;
        self.aliases.push(alias);
        assert(host_views(self.aliases@) =~= host_views(old(self).aliases@).push(a));
        self.reference_count = self.reference_count.wrapping_add(1);
    }

    /// The partition generation that the node last reported, or -1.
    pub fn partition_generation(&self) -> (r: isize)
        ensures
            r == self@.partition_generation,
    {
        self.partition_generation
    }

    /// Takes the node out of use and drops the idle connections it holds.
    /// The count of open connections is left as it is.
    pub fn close(&mut self)
        requires
            old(self).wf(),
        ensures
            final(self).wf(),
            final(self)@ == closed(old(self)@),
    {
        self.active = false;
        while self.connections.len() > 0
            invariant
                self@ == (NodeView::<C> { active: false, pool: self@.pool, ..old(self)@ }),
            decreases self.connections.len(),
        {
            let _dropped = self.connections.pop_front();
        }
        assert(self@.pool =~= Seq::<C>::empty());
    }

    /// The next step of getting a connection: the first idle connection of
    /// the pool if there is one; otherwise a new connection is counted, unless
    /// the count before was already above the pool size, in which case the
    /// count is left as it was and the request is refused.
    pub fn get_connection(&mut self) -> (r: Result<ConnectionSlot<C>, NodeError>)
        requires
            old(self).wf(),
        ensures
            final(self).wf(),
            (final(self)@, r) == checkout(old(self)@),
    {
        match self.connections.pop_front() {
            Some(conn) => Ok(ConnectionSlot::Pooled(conn)),
            None => {
                if self.inc_connections() > self.client_policy.connection_pool_size_per_node {
                    // too many connections: undo the count
                    self.dec_connections();
                    return Err(NodeError::PoolExhausted(self.client_policy.connection_pool_size_per_node));
                }
                Ok(ConnectionSlot::Reserved)
            },
        }
    }

    /// Gives a connection back. An active node keeps it in its pool while
    /// there is room; when the pool is full the connection is invalidated and
    /// handed back to the caller to be closed. An inactive node drops it.
    pub fn put_connection(&mut self, conn: C) -> (r: Option<C>)
        requires
            old(self).wf(),
        ensures
            final(self).wf(),
            (final(self)@, r) == check_in(old(self)@, conn),
    {
        if self.active {
            if self.connections.len() < self.client_policy.connection_pool_size_per_node {
                self.connections.push_back(conn);
                None
            } else {
                self.invalidate_connection();
                Some(conn)
            }
        } else {
            None
        }
    }

    /// Decides what follows from what the caller found out about the
    /// connection it got from `get_connection` (see `settle`).
    pub fn settle_connection(&mut self, event: ConnectionEvent) -> (r: ConnectionAction)
        requires
            old(self).wf(),
        ensures
            final(self).wf(),
            (final(self)@, r) == settle(old(self)@, event),
    {
        match event {
            ConnectionEvent::PooledIdle => {
                self.invalidate_connection();
                ConnectionAction::CloseAndRetry
            },
            ConnectionEvent::PooledTimeoutFailed => ConnectionAction::Fail,
            ConnectionEvent::OpenFailed => {
                self.dec_connections();
                ConnectionAction::Fail
            },
            ConnectionEvent::OpenedTimeoutFailed => {
                self.dec_connections();
                ConnectionAction::Fail
            },
            ConnectionEvent::PooledReady => ConnectionAction::Use,
            ConnectionEvent::OpenedReady => ConnectionAction::Use,
        }
    }

    /// Counts a connection that is being closed as gone.
    pub fn invalidate_connection(&mut self)
        ensures
            final(self)@ == released(old(self)@),
    {
        self.dec_connections();
    }

    /// The info key under which this node is asked for its peers, as the
    /// policy chooses.
    pub fn services_name(&self) -> (r: &'static str)
        ensures
            r@ == services_key(self@.policy.services_alternate),
    {
        if self.client_policy.use_services_alternate {
            "services-alternate"
        } else {
            "services"
        }
    }

    /// The info keys that a refresh asks the node for: its name, its
    /// partition generation and its peers.
    pub fn refresh_commands(&self) -> (r: Vec<String>)
        ensures
            r@.map_values(|c: String| c@) == seq![
                "node"@,
                "partition-generation"@,
                services_key(self@.policy.services_alternate),
            ],
    {
        let mut commands: Vec<String> = Vec::new();
        commands.push("node".to_string());
        commands.push("partition-generation".to_string());
        commands.push(self.services_name().to_string());
        assert(commands@.map_values(|c: String| c@) =~= seq![
            "node"@,
            "partition-generation"@,
            services_key(self@.policy.services_alternate),
        ]);
        commands
    }

    /// Checks that the node still answers under its name. Where it answers
    /// under another name, the node is taken out of use at once.
    pub fn verify_node_name(&mut self, info_map: &StringMap) -> (r: Result<(), NodeError>)
        ensures
            !info_map@.dom().contains("node"@) ==> {
                &&& r == Err::<(), NodeError>(NodeError::MissingNodeName)
                &&& final(self)@ == old(self)@
            },
            info_map@.dom().contains("node"@) && info_map@["node"@] == old(self)@.name ==> {
                &&& r == Ok::<(), NodeError>(())
                &&& final(self)@ == old(self)@
            },
            info_map@.dom().contains("node"@) && info_map@["node"@] != old(self)@.name ==> {
                &&& r matches Err(NodeError::NodeNameChanged { expected, actual })
                    && expected@ == old(self)@.name && actual@ == info_map@["node"@]
                &&& final(self)@ == (NodeView::<C> { active: false, ..old(self)@ })
            },
    {
        match info_map.get("node") {
            None => Err(NodeError::MissingNodeName),
            Some(info_name) => {
                if !(self.name == *info_name) {
                    // the node is no longer the one it was: stop using it now
                    self.active = false;
                    return Err(
                        NodeError::NodeNameChanged {
                            expected: self.name.clone(),
                            actual: info_name.clone(),
                        },
                    );
                }
                Ok(())
            },
        }
    }

    /// Records the partition generation that the node reported.
    pub fn update_partitions(&mut self, info_map: &StringMap) -> (r: Result<(), NodeError>)
        ensures
            !info_map@.dom().contains("partition-generation"@) ==> {
                &&& r == Err::<(), NodeError>(NodeError::MissingPartitionGeneration)
                &&& final(self)@ == old(self)@
            },
            info_map@.dom().contains("partition-generation"@) ==> match spec_parse_isize(
                info_map@["partition-generation"@],
            ) {
                None => {
                    &&& r == Err::<(), NodeError>(NodeError::InvalidPartitionGeneration)
                    &&& final(self)@ == old(self)@
                },
                Some(generation) => {
                    &&& r == Ok::<(), NodeError>(())
                    &&& final(self)@ == (NodeView::<C> {
                        partition_generation: generation,
                        ..old(self)@
                    })
                },
            },
    {
        match info_map.get("partition-generation") {
            None => Err(NodeError::MissingPartitionGeneration),
            Some(gen_string) => {
                match parse_signed(gen_string.as_str()) {
                    None => Err(NodeError::InvalidPartitionGeneration),
                    Some(generation) => {
                        self.partition_generation = generation;
                        Ok(())
                    },
                }
            },
        }
    }

    /// The address to use for a peer announced as `host` and `port`: the
    /// host is replaced where the policy's address table says so.
    fn alias_for(&self, host: &str, port: u16) -> (r: Host)
        ensures
            r@ == (HostView { name: mapped_host(host@, self@.policy.ip_map), port }),
    {
        match &self.client_policy.ip_map {
            Some(ip_map) => match ip_map.get(host) {
                Some(mapped) => Host::new(mapped.as_str(), port),
                None => Host::new(host, port),
            },
            None => Host::new(host, port),
        }
    }

    /// Reads the peers that the node lists in its info answer. A peer whose
    /// address is among `current_aliases` counts as one more reference to
    /// this node; any other peer is returned, once each, in the order listed.
    /// Entries not of the form `HOST:PORT` are passed over; an entry with a
    /// bad port fails the whole reading (references counted before it stay
    /// counted).
    pub fn add_friends(&mut self, current_aliases: &Vec<Host>, info_map: &StringMap) -> (r: Result<
        Vec<Host>,
        NodeError,
    >)
        ensures
            ({
                let key = services_key(old(self)@.policy.services_alternate);
                &&& !info_map@.dom().contains(key) ==> {
                    &&& r == Err::<Vec<Host>, NodeError>(NodeError::MissingServices)
                    &&& final(self)@ == old(self)@
                }
                &&& info_map@.dom().contains(key) ==> {
                    let scan = scan_friends(
                        split_on(info_map@[key], ';'),
                        old(self)@.policy.ip_map,
                        host_views(current_aliases@),
                    );
                    &&& final(self)@ == (NodeView::<C> {
                        reference_count: wrapping_count(old(self)@.reference_count, scan.known),
                        ..old(self)@
                    })
                    &&& scan.failed ==> r == Err::<Vec<Host>, NodeError>(NodeError::InvalidPort)
                    &&& !scan.failed ==> (r matches Ok(friends) && host_views(friends@)
                        == scan.friends)
                }
            }),
    {
        let mut friends: Vec<Host> = Vec::new();
        let ghost key = services_key(self@.policy.services_alternate);
        let friend_string = match info_map.get(self.services_name()) {
            None => return Err(NodeError::MissingServices),
            Some(friend_string) => friend_string,
        };
        let text = friend_string.as_str();
        let chars = chars_of(text);
        if chars.len() == 0 {
            proof {
                let entries = split_on(chars@, ';');
                assert(entries == seq![Seq::<char>::empty()]);
                assert(split_on(entries.last(), ':') == seq![Seq::<char>::empty()]);
                assert(host_views(friends@) =~= Seq::<HostView>::empty());
                let empty = scan_friends(
                    entries.drop_last(),
                    self@.policy.ip_map,
                    host_views(current_aliases@),
                );
                assert(empty == FriendScan { friends: Seq::empty(), known: 0, failed: false });
                vstd::arithmetic::div_mod::lemma_small_mod(
                    old(self)@.reference_count as nat,
                    usize::MAX as nat + 1,
                );
            }
            return Ok(friends);
        }
        let ghost ip_map = self@.policy.ip_map;
        let ghost current = host_views(current_aliases@);
        let ghost entries = split_on(chars@, ';');
        assert(chars@.subrange(0, chars.len() as int) == chars@);
        let ranges = split_ranges(&chars, 0, chars.len(), ';');
        proof {
            assert(entries.take(0) == Seq::<Seq<char>>::empty());
            vstd::arithmetic::div_mod::lemma_small_mod(
                old(self)@.reference_count as nat,
                usize::MAX as nat + 1,
            );
        }
        let mut k: usize = 0;
        while k < ranges.len()
            invariant
                k <= ranges.len() == entries.len(),
                chars@ == text@,
                info_map@.dom().contains(key),
                key == services_key(old(self)@.policy.services_alternate),
                chars.len() > 0,
                text@ == info_map@[key],
                entries == split_on(chars@, ';'),
                ip_map == old(self)@.policy.ip_map,
                current == host_views(current_aliases@),
                forall|j: int|
                    0 <= j < ranges.len() ==> {
                        &&& 0 <= (#[trigger] ranges[j]).0 <= ranges[j].1 <= chars.len()
                        &&& chars@.subrange(ranges[j].0 as int, ranges[j].1 as int) == entries[j]
                    },
                !scan_friends(entries.take(k as int), ip_map, current).failed,
                host_views(friends@) == scan_friends(entries.take(k as int), ip_map, current).friends,
                self@ == (NodeView::<C> {
                    reference_count: wrapping_count(
                        old(self)@.reference_count,
                        scan_friends(entries.take(k as int), ip_map, current).known,
                    ),
                    ..old(self)@
                }),
            decreases ranges.len() - k,
        {
            let (a, b) = ranges[k];
            let ghost prev = scan_friends(entries.take(k as int), ip_map, current);
            assert(entries.take(k + 1).drop_last() == entries.take(k as int));
            assert(entries.take(k + 1).last() == entries[k as int]);
            let parts = split_ranges(&chars, a, b, ':');
            if parts.len() != 2 {
                assert(parse_friend(entries[k as int], ip_map) == FriendEntry::Malformed);
            }
            if parts.len() == 2 {
                let (h0, h1) = parts[0];
                let (p0, p1) = parts[1];
                match parse_u16_in(&chars, p0, p1) {
                    None => {
                        assert(parse_friend(entries[k as int], ip_map) == FriendEntry::BadPort);
                        proof {
                            lemma_scan_stops_at_failure(entries, ip_map, current, k + 1);
                        }
                        return Err(NodeError::InvalidPort);
                    },
                    Some(port) => {
                        let host_text = text.substring_char(h0, h1);
                        let alias = self.alias_for(host_text, port);
                        assert(parse_friend(entries[k as int], ip_map) == FriendEntry::Address(alias@));
                        if contains_host(current_aliases, &alias) {
                            proof {
                                lemma_wrapping_count_step(old(self)@.reference_count, prev.known);
                            }
                            self.reference_count = self.reference_count.wrapping_add(1);
                        } else if !contains_host(&friends, &alias) {
                            let ghost a_view = alias@;
                            friends.push(alias);
                            assert(host_views(friends@) =~= prev.friends.push(a_view));
                        }
                    },
                }
            }
            k = k + 1;
        }
        assert(entries.take(ranges.len() as int) == entries);
        Ok(friends)
    }

    /// Takes in the node's answer to the refresh request (see
    /// `refresh_commands`), or the error of asking it. The count of refreshes
    /// goes up by one and the node counts as not having answered, with no
    /// references; then, step by step, stopping at the first error: the name
    /// is checked, the node counts as having answered, the peers are read
    /// (see `add_friends`), the partition generation is recorded, and the
    /// failures are cleared. On success the new peers are returned. An error
    /// comes back as the cause of a `RefreshFailed` that names the step.
    pub fn refresh(&mut self, current_aliases: &Vec<Host>, info: Result<StringMap, NodeError>) -> (r:
        Result<Vec<Host>, NodeError>)
        requires
            old(self).wf(),
        ensures
            final(self).wf(),
            ({
                let reset = NodeView::<C> {
                    reference_count: 0,
                    responded: false,
                    refresh_count: old(self)@.refresh_count.wrapping_add(1),
                    ..old(self)@
                };
                let key = services_key(old(self)@.policy.services_alternate);
                match info {
                    Err(e) => {
                        &&& r == refresh_error(RefreshStep::Info, e)
                        &&& final(self)@ == reset
                    },
                    Ok(m) => if !m@.dom().contains("node"@) {
                        &&& r == refresh_error(RefreshStep::VerifyNodeName, NodeError::MissingNodeName)
                        &&& final(self)@ == reset
                    } else if m@["node"@] != old(self)@.name {
                        &&& r matches Err(NodeError::RefreshFailed { step: RefreshStep::VerifyNodeName, cause })
                            && *cause matches NodeError::NodeNameChanged { expected, actual }
                            && expected@ == old(self)@.name && actual@ == m@["node"@]
                        &&& final(self)@ == (NodeView::<C> { active: false, ..reset })
                    } else if !m@.dom().contains(key) {
                        &&& r == refresh_error(RefreshStep::AddFriends, NodeError::MissingServices)
                        &&& final(self)@ == (NodeView::<C> { responded: true, ..reset })
                    } else {
                        let scan = scan_friends(
                            split_on(m@[key], ';'),
                            old(self)@.policy.ip_map,
                            host_views(current_aliases@),
                        );
                        let counted = NodeView::<C> {
                            responded: true,
                            reference_count: wrapping_count(0, scan.known),
                            ..reset
                        };
                        if scan.failed {
                            &&& r == refresh_error(RefreshStep::AddFriends, NodeError::InvalidPort)
                            &&& final(self)@ == counted
                        } else if !m@.dom().contains("partition-generation"@) {
                            &&& r == refresh_error(
                                RefreshStep::UpdatePartitions,
                                NodeError::MissingPartitionGeneration,
                            )
                            &&& final(self)@ == counted
                        } else {
                            match spec_parse_isize(m@["partition-generation"@]) {
                                None => {
                                    &&& r == refresh_error(
                                        RefreshStep::UpdatePartitions,
                                        NodeError::InvalidPartitionGeneration,
                                    )
                                    &&& final(self)@ == counted
                                },
                                Some(generation) => {
                                    &&& r matches Ok(friends) && host_views(friends@)
                                        == scan.friends
                                    &&& final(self)@ == (NodeView::<C> {
                                        partition_generation: generation,
                                        failures: 0,
                                        ..counted
                                    })
                                },
                            }
                        }
                    },
                }
            }),
    {
        self.reference_count = 0;
        self.responded = false;
        self.refresh_count = self.refresh_count.wrapping_add(1);

        let info_map = match info {
            Err(e) => return Err(NodeError::RefreshFailed { step: RefreshStep::Info, cause: Box::new(e) }),
            Ok(info_map) => info_map,
        };
        match self.verify_node_name(&info_map) {
            Err(e) => {
                return Err(
                    NodeError::RefreshFailed { step: RefreshStep::VerifyNodeName, cause: Box::new(e) },
                )
            },
            Ok(()) => {},
        }
        self.responded = true;
        let friends = match self.add_friends(current_aliases, &info_map) {
            Err(e) => {
                return Err(
                    NodeError::RefreshFailed { step: RefreshStep::AddFriends, cause: Box::new(e) },
                )
            },
            Ok(friends) => friends,
        };
        match self.update_partitions(&info_map) {
            Err(e) => {
                return Err(
                    NodeError::RefreshFailed { step: RefreshStep::UpdatePartitions, cause: Box::new(e) },
                )
            },
            Ok(()) => {},
        }
        self.reset_failures();
        Ok(friends)
    }
}

} // verus!

verus! {

impl<C> Node<C> {
    /// The node written as `NAME: HOST:PORT`, with its name and first address.
    pub fn description(&self) -> (r: String)
        ensures
            r@ == self@.name + ": "@ + self@.host.name + ":"@ + decimal_text(self@.host.port as nat),
    {
        let mut r = self.name.clone();
        r.append(": ");
        let host = self.host.text();
        r.append(host.as_str());
        proof {
            assert(r@ =~= self@.name + ": "@ + self@.host.name + ":"@ + decimal_text(self@.host.port as nat));
        }
        r
    }
}

impl<C> PartialEq for Node<C> {
    /// Two nodes are the same node when they have the same name.
    fn eq(&self, other: &Node<C>) -> (r: bool) {
        self.name == other.name
    }
}

impl<C> vstd::std_specs::cmp::PartialEqSpecImpl for Node<C> {
    open spec fn obeys_eq_spec() -> bool {
        true
    }

    open spec fn eq_spec(&self, other: &Node<C>) -> bool {
        self@.name == other@.name
    }
}

} // verus!
