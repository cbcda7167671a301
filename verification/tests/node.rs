use std::sync::Arc;

use aerospike::error::{NodeError, RefreshStep};
use aerospike::host::Host;
use aerospike::node::{ConnectionAction, ConnectionEvent, ConnectionSlot, Node, PARTITIONS};
use aerospike::policy::{ClientPolicy, NodeValidator};
use aerospike::string_map::StringMap;

fn policy(pool_size: usize) -> ClientPolicy {
    ClientPolicy {
        connection_pool_size_per_node: pool_size,
        use_services_alternate: false,
        ip_map: None,
        user_password: None,
    }
}

fn validator(name: &str) -> Arc<NodeValidator> {
    Arc::new(NodeValidator {
        name: name.to_string(),
        aliases: vec![Host::new("10.0.0.1", 3000), Host::new("node-a.local", 3000)],
        address: "10.0.0.1:3000".to_string(),
        use_new_info: true,
        supports_float: true,
        supports_batch_index: true,
        supports_replicas_all: false,
        supports_geo: false,
    })
}

fn node(pool_size: usize) -> Node<u32> {
    Node::new(policy(pool_size), validator("BB9020011AC4202"))
}

fn info(pairs: &[(&str, &str)]) -> StringMap {
    let mut m = StringMap::new();
    for (k, v) in pairs {
        m.insert(k.to_string(), v.to_string());
    }
    m
}

fn hosts(v: &[Host]) -> Vec<(String, u16)> {
    v.iter().map(|h| (h.name.clone(), h.port)).collect()
}

#[test]
fn new_node_starts_active_and_empty() {
    let n = node(4);
    assert_eq!(n.name(), "BB9020011AC4202");
    assert_eq!(n.address(), "10.0.0.1:3000");
    assert_eq!(n.host().name, "10.0.0.1");
    assert_eq!(n.host().port, 3000);
    assert_eq!(hosts(&n.aliases()), vec![("10.0.0.1".to_string(), 3000), ("node-a.local".to_string(), 3000)]);
    assert!(n.is_active());
    assert!(n.supports_float());
    assert!(!n.supports_geo());
    assert_eq!(n.failures(), 0);
    assert_eq!(n.reference_count(), 0);
    assert_eq!(n.partition_generation(), -1);
    assert_eq!(n.client_policy().connection_pool_size_per_node, 4);
    assert_eq!(PARTITIONS, 4096);
}

#[test]
fn counters_return_the_value_before() {
    let mut n = node(4);
    assert_eq!(n.inc_connections(), 0);
    assert_eq!(n.inc_connections(), 1);
    assert_eq!(n.dec_connections(), 2);
    assert_eq!(n.dec_connections(), 1);
    // below zero the count wraps around, as an atomic counter does
    assert_eq!(n.dec_connections(), 0);
    assert_eq!(n.inc_connections(), usize::MAX);
    assert_eq!(n.inc_connections(), 0);
    assert_eq!(n.increase_failures(), 0);
    assert_eq!(n.increase_failures(), 1);
    assert_eq!(n.failures(), 2);
}

#[test]
fn add_alias_counts_a_reference() {
    let mut n = node(4);
    n.add_alias(Host::new("192.168.0.9", 3100));
    assert_eq!(n.reference_count(), 1);
    assert_eq!(n.aliases().len(), 3);
    assert_eq!(n.aliases()[2].name, "192.168.0.9");
    assert_eq!(n.aliases()[2].port, 3100);
}

#[test]
fn empty_pool_reserves_until_the_count_passes_the_limit() {
    let mut n = node(2);
    // the check compares the count before the increment with the limit
    for _ in 0..3 {
        assert!(matches!(n.get_connection(), Ok(ConnectionSlot::Reserved)));
    }
    match n.get_connection() {
        Err(NodeError::PoolExhausted(limit)) => assert_eq!(limit, 2),
        _ => panic!("expected the pool to be exhausted"),
    }
    // the refused request left the count as it was
    assert_eq!(n.inc_connections(), 3);
}

#[test]
fn reserved_slot_given_back_restores_the_count() {
    let mut n = node(2);
    assert!(matches!(n.get_connection(), Ok(ConnectionSlot::Reserved)));
    n.dec_connections();
    assert_eq!(n.inc_connections(), 0);
}

#[test]
fn pool_hands_connections_back_first_in_first_out() {
    let mut n = node(3);
    assert_eq!(n.put_connection(7), None);
    assert_eq!(n.put_connection(8), None);
    match n.get_connection() {
        Ok(ConnectionSlot::Pooled(c)) => assert_eq!(c, 7),
        _ => panic!("expected a pooled connection"),
    }
    match n.get_connection() {
        Ok(ConnectionSlot::Pooled(c)) => assert_eq!(c, 8),
        _ => panic!("expected a pooled connection"),
    }
    assert!(matches!(n.get_connection(), Ok(ConnectionSlot::Reserved)));
}

#[test]
fn full_pool_invalidates_the_connection_given_back() {
    let mut n = node(1);
    n.inc_connections();
    n.inc_connections();
    assert_eq!(n.put_connection(1), None);
    assert_eq!(n.put_connection(2), Some(2));
    // one connection less is counted
    assert_eq!(n.dec_connections(), 1);
}

#[test]
fn closed_node_keeps_no_connection() {
    let mut n = node(3);
    n.put_connection(1);
    n.put_connection(2);
    n.close();
    assert!(!n.is_active());
    assert_eq!(n.put_connection(3), None);
    assert!(matches!(n.get_connection(), Ok(ConnectionSlot::Reserved)));
}

#[test]
fn invalidate_counts_a_connection_less() {
    let mut n = node(3);
    n.inc_connections();
    n.invalidate_connection();
    assert_eq!(n.inc_connections(), 0);
}

#[test]
fn services_name_follows_the_policy() {
    let n = node(1);
    assert_eq!(n.services_name(), "services");
    let mut p = policy(1);
    p.use_services_alternate = true;
    let alt: Node<u32> = Node::new(p, validator("A"));
    assert_eq!(alt.services_name(), "services-alternate");
    assert_eq!(alt.refresh_commands(), vec!["node", "partition-generation", "services-alternate"]);
    assert_eq!(n.refresh_commands(), vec!["node", "partition-generation", "services"]);
}

#[test]
fn verify_node_name_cases() {
    let mut n = node(1);
    assert!(matches!(n.verify_node_name(&info(&[])), Err(NodeError::MissingNodeName)));
    assert!(n.is_active());
    assert!(n.verify_node_name(&info(&[("node", "BB9020011AC4202")])).is_ok());
    assert!(n.is_active());
    match n.verify_node_name(&info(&[("node", "OTHER")])) {
        Err(NodeError::NodeNameChanged { expected, actual }) => {
            assert_eq!(expected, "BB9020011AC4202");
            assert_eq!(actual, "OTHER");
        }
        _ => panic!("expected a name change"),
    }
    assert!(!n.is_active());
}

#[test]
fn update_partitions_cases() {
    let mut n = node(1);
    assert!(matches!(n.update_partitions(&info(&[])), Err(NodeError::MissingPartitionGeneration)));
    assert!(matches!(
        n.update_partitions(&info(&[("partition-generation", "x1")])),
        Err(NodeError::InvalidPartitionGeneration)
    ));
    assert_eq!(n.partition_generation(), -1);
    assert!(n.update_partitions(&info(&[("partition-generation", "42")])).is_ok());
    assert_eq!(n.partition_generation(), 42);
    assert!(n.update_partitions(&info(&[("partition-generation", "-7")])).is_ok());
    assert_eq!(n.partition_generation(), -7);
}

#[test]
fn add_friends_reads_new_peers_once_and_counts_known_ones() {
    let mut n = node(1);
    let current = vec![Host::new("10.0.0.2", 3000)];
    let m = info(&[("services", "10.0.0.3:3000;10.0.0.2:3000;10.0.0.3:3000;malformed;10.0.0.4:3001:9;10.0.0.5:+3002")]);
    let friends = n.add_friends(&current, &m).ok().unwrap();
    assert_eq!(
        hosts(&friends),
        vec![("10.0.0.3".to_string(), 3000), ("10.0.0.5".to_string(), 3002)]
    );
    assert_eq!(n.reference_count(), 1);
}

#[test]
fn add_friends_without_services_or_with_an_empty_list() {
    let mut n = node(1);
    assert!(matches!(n.add_friends(&vec![], &info(&[])), Err(NodeError::MissingServices)));
    let friends = n.add_friends(&vec![], &info(&[("services", "")])).ok().unwrap();
    assert!(friends.is_empty());
}

#[test]
fn add_friends_fails_on_a_bad_port_keeping_earlier_references() {
    let mut n = node(1);
    let current = vec![Host::new("a", 1)];
    let m = info(&[("services", "a:1;b:70000;a:1")]);
    assert!(matches!(n.add_friends(&current, &m), Err(NodeError::InvalidPort)));
    assert_eq!(n.reference_count(), 1);
}

#[test]
fn add_friends_uses_the_address_table() {
    let mut p = policy(1);
    let mut table = StringMap::new();
    table.insert("172.16.0.3".to_string(), "public-3.example".to_string());
    p.ip_map = Some(table);
    let mut n: Node<u32> = Node::new(p, validator("BB9020011AC4202"));
    let m = info(&[("services", "172.16.0.3:3000;172.16.0.4:3000")]);
    let friends = n.add_friends(&vec![], &m).ok().unwrap();
    assert_eq!(
        hosts(&friends),
        vec![("public-3.example".to_string(), 3000), ("172.16.0.4".to_string(), 3000)]
    );
}

#[test]
fn refresh_succeeds_and_clears_failures() {
    let mut n = node(1);
    n.increase_failures();
    n.add_alias(Host::new("x", 1));
    let m = info(&[
        ("node", "BB9020011AC4202"),
        ("partition-generation", "11"),
        ("services", "10.0.0.7:3000;10.0.0.2:3000"),
    ]);
    let current = vec![Host::new("10.0.0.2", 3000)];
    let friends = n.refresh(&current, Ok(m)).ok().unwrap();
    assert_eq!(hosts(&friends), vec![("10.0.0.7".to_string(), 3000)]);
    assert_eq!(n.failures(), 0);
    assert_eq!(n.partition_generation(), 11);
    assert_eq!(n.reference_count(), 1);
    assert!(n.is_active());
}

#[test]
fn refresh_passes_on_the_error_of_asking() {
    let mut n = node(1);
    n.add_alias(Host::new("x", 1));
    n.increase_failures();
    match n.refresh(&vec![], Err(NodeError::InfoFailed("timeout".to_string()))) {
        Err(e @ NodeError::RefreshFailed { step: RefreshStep::Info, .. }) => {
            assert_eq!(e.message(), "Info command failed");
            match e {
                NodeError::RefreshFailed { cause, .. } => match *cause {
                    NodeError::InfoFailed(msg) => assert_eq!(msg, "timeout"),
                    _ => panic!("expected the error of asking as the cause"),
                },
                _ => unreachable!(),
            }
        }
        _ => panic!("expected the error of asking"),
    }
    // references are cleared before asking, failures are not
    assert_eq!(n.reference_count(), 0);
    assert_eq!(n.failures(), 1);
}

#[test]
fn refresh_stops_at_a_name_change() {
    let mut n = node(1);
    let m = info(&[("node", "NEW"), ("partition-generation", "3"), ("services", "")]);
    match n.refresh(&vec![], Ok(m)) {
        Err(e @ NodeError::RefreshFailed { step: RefreshStep::VerifyNodeName, .. }) => {
            assert_eq!(e.message(), "Failed to verify node name");
            match e {
                NodeError::RefreshFailed { cause, .. } => {
                    assert_eq!(cause.message(), "Node name has changed: 'BB9020011AC4202' => 'NEW'")
                }
                _ => unreachable!(),
            }
        }
        _ => panic!("expected a failed name check"),
    }
    assert!(!n.is_active());
    assert_eq!(n.partition_generation(), -1);
}

#[test]
fn refresh_stops_at_a_bad_partition_generation() {
    let mut n = node(1);
    n.increase_failures();
    let m = info(&[("node", "BB9020011AC4202"), ("partition-generation", ""), ("services", "")]);
    match n.refresh(&vec![], Ok(m)) {
        Err(NodeError::RefreshFailed { step: RefreshStep::UpdatePartitions, cause }) => {
            assert!(matches!(*cause, NodeError::InvalidPartitionGeneration))
        }
        _ => panic!("expected a failed partition update"),
    }
    assert_eq!(n.failures(), 1);
    let m = info(&[("node", "BB9020011AC4202"), ("services", "")]);
    match n.refresh(&vec![], Ok(m)) {
        Err(e @ NodeError::RefreshFailed { step: RefreshStep::UpdatePartitions, .. }) => {
            assert_eq!(e.message(), "Failed to update partitions")
        }
        _ => panic!("expected a failed partition update"),
    }
    let m = info(&[("node", "BB9020011AC4202"), ("partition-generation", "1")]);
    match n.refresh(&vec![], Ok(m)) {
        Err(e @ NodeError::RefreshFailed { step: RefreshStep::AddFriends, .. }) => {
            assert_eq!(e.message(), "Failed to add friends");
            match e {
                NodeError::RefreshFailed { cause, .. } => {
                    assert!(matches!(*cause, NodeError::MissingServices));
                    assert_eq!(cause.message(), "Missing services list");
                }
                _ => unreachable!(),
            }
        }
        _ => panic!("expected a failed peer reading"),
    }
    let m = info(&[("services", "a:99999")]);
    match n.refresh(&vec![], Ok(m)) {
        Err(NodeError::RefreshFailed { step: RefreshStep::VerifyNodeName, cause }) => {
            assert!(matches!(*cause, NodeError::MissingNodeName));
            assert_eq!(cause.message(), "Missing node name");
        }
        _ => panic!("expected a failed name check"),
    }
}

#[test]
fn nodes_are_equal_by_name() {
    let a = node(1);
    let b: Node<u32> = Node::new(policy(9), validator("BB9020011AC4202"));
    let c: Node<u32> = Node::new(policy(1), validator("OTHER"));
    assert!(a == b);
    assert!(a != c);
}

#[test]
fn description_names_the_node_and_its_host() {
    let n = node(1);
    assert_eq!(n.description(), "BB9020011AC4202: 10.0.0.1:3000");
}

#[test]
fn written_address_reads_back_as_a_peer() {
    let mut n = node(1);
    let h = Host::new("node-b.local", 4333);
    let m = info(&[("services", h.text().as_str())]);
    let friends = n.add_friends(&vec![], &m).ok().unwrap();
    assert_eq!(friends.len(), 1);
    assert!(friends[0].same_as(&h));
}

#[test]
fn settle_connection_decides_the_next_step() {
    let mut n = node(2);
    n.put_connection(5);
    assert!(matches!(n.get_connection(), Ok(ConnectionSlot::Pooled(5))));
    n.inc_connections();
    // an idle pooled connection is counted as gone and the request starts over
    assert!(matches!(n.settle_connection(ConnectionEvent::PooledIdle), ConnectionAction::CloseAndRetry));
    assert_eq!(n.inc_connections(), 0);
    n.dec_connections();
    // a new connection that cannot be opened gives its count back
    assert!(matches!(n.get_connection(), Ok(ConnectionSlot::Reserved)));
    assert!(matches!(n.settle_connection(ConnectionEvent::OpenFailed), ConnectionAction::Fail));
    assert_eq!(n.inc_connections(), 0);
    n.dec_connections();
    assert!(matches!(n.get_connection(), Ok(ConnectionSlot::Reserved)));
    assert!(matches!(n.settle_connection(ConnectionEvent::OpenedTimeoutFailed), ConnectionAction::Fail));
    assert!(matches!(n.get_connection(), Ok(ConnectionSlot::Reserved)));
    assert!(matches!(n.settle_connection(ConnectionEvent::OpenedReady), ConnectionAction::Use));
    assert!(matches!(n.settle_connection(ConnectionEvent::PooledReady), ConnectionAction::Use));
    // a pooled connection that cannot take the timeout fails with the count kept
    assert!(matches!(n.settle_connection(ConnectionEvent::PooledTimeoutFailed), ConnectionAction::Fail));
    assert_eq!(n.inc_connections(), 1);
}

#[test]
fn malformed_entry_can_be_left_out() {
    let current = vec![Host::new("b", 2)];
    let mut with = node(1);
    let mut without = node(1);
    let a = with.add_friends(&current, &info(&[("services", "a:1;junk;b:2;x:y:z;c:3;")])).ok().unwrap();
    let b = without.add_friends(&current, &info(&[("services", "a:1;b:2;c:3")])).ok().unwrap();
    assert_eq!(hosts(&a), hosts(&b));
    assert_eq!(with.reference_count(), without.reference_count());
    assert_eq!(with.reference_count(), 1);
}

#[test]
fn error_messages() {
    assert_eq!(NodeError::PoolExhausted(256).message(), "Exceeded max. connection pool size of 256");
    assert_eq!(NodeError::MissingPartitionGeneration.message(), "Missing partition generation");
    assert_eq!(NodeError::InvalidPort.message(), "Invalid port number");
    assert_eq!(NodeError::InvalidPartitionGeneration.message(), "Invalid partition generation");
    assert_eq!(NodeError::ConnectionFailed("refused".to_string()).message(), "refused");
    assert_eq!(RefreshStep::AddFriends.context(), "Failed to add friends");
}

#[test]
fn refresh_with_a_bad_port_fails_in_the_peer_step() {
    let mut n = node(1);
    let m = info(&[("node", "BB9020011AC4202"), ("partition-generation", "2"), ("services", "a:1;b:x")]);
    match n.refresh(&vec![Host::new("a", 1)], Ok(m)) {
        Err(NodeError::RefreshFailed { step: RefreshStep::AddFriends, cause }) => {
            assert!(matches!(*cause, NodeError::InvalidPort))
        }
        _ => panic!("expected a failed peer reading"),
    }
    assert_eq!(n.reference_count(), 1);
    assert_eq!(n.partition_generation(), -1);
}

#[test]
fn host_stays_the_first_alias() {
    let mut n = node(1);
    n.add_alias(Host::new("z", 9));
    n.close();
    assert!(n.aliases()[0].same_as(&n.host()));
}

#[test]
fn idle_connections_are_drained_one_by_one() {
    let mut n = node(3);
    for c in 0..3 {
        n.inc_connections();
        n.put_connection(c);
    }
    for c in 0..3 {
        match n.get_connection() {
            Ok(ConnectionSlot::Pooled(got)) => assert_eq!(got, c),
            _ => panic!("expected a pooled connection"),
        }
        assert!(matches!(n.settle_connection(ConnectionEvent::PooledIdle), ConnectionAction::CloseAndRetry));
    }
    assert!(matches!(n.get_connection(), Ok(ConnectionSlot::Reserved)));
    assert_eq!(n.dec_connections(), 1);
}
