use shr_daw::audio_graph::{topological_order, validate_nodes, NodeKind, SendPoint};
use shr_daw::audio_graph_client::{managed_graph, AuxPlan};
use shr_daw::audio_graph_client::{
    connection, validate_stereo_boundary, BoundaryChange, BoundaryRoutes, ChangeKind, Request,
    Transaction,
};
use std::collections::BTreeSet;

#[derive(Default)]
struct MockConnections {
    connected: BTreeSet<(String, String)>,
    operations: usize,
    fail_at: Option<usize>,
}

impl MockConnections {
    fn change(&mut self, change: &BoundaryChange) -> Result<bool, String> {
        self.operations += 1;
        if self.fail_at == Some(self.operations) {
            return Err("injected connection failure".to_string());
        }
        let pair = (
            change.connection.source.clone(),
            change.connection.destination.clone(),
        );
        Ok(match change.kind {
            ChangeKind::Connect => self.connected.insert(pair),
            ChangeKind::Disconnect => self.connected.remove(&pair),
        })
    }
}

fn apply_transaction(
    connections: &mut MockConnections,
    changes: &[BoundaryChange],
) -> Result<(), String> {
    let mut transaction = Transaction::new(changes.to_vec());
    loop {
        match transaction.next_request() {
            Request::Operate(change) => {
                let outcome = connections.change(&change);
                transaction.report(outcome);
            }
            Request::Finished(result) => return result,
        }
    }
}

fn routes() -> BoundaryRoutes {
    BoundaryRoutes {
        direct: vec![
            connection("engine:l", "main:l"),
            connection("engine:r", "main:r"),
            connection("loop:l", "loop-playback:l"),
            connection("loop:r", "loop-playback:r"),
        ],
        graph: vec![
            connection("engine:l", "graph:in_l"),
            connection("engine:r", "graph:in_r"),
            connection("loop:l", "graph:loop_l"),
            connection("loop:r", "graph:loop_r"),
            connection("capture:l", "graph:input_l"),
            connection("capture:r", "graph:input_r"),
            connection("graph:out_l", "main:l"),
            connection("graph:out_r", "main:r"),
        ],
    }
}

#[test]
fn activation_connection_failure_restores_the_exact_direct_topology() {
    let routes = routes();
    let mut connections = MockConnections::default();
    apply_transaction(&mut connections, &routes.direct_connection_changes()).unwrap();
    let direct = connections.connected.clone();
    connections.fail_at = Some(10);
    assert!(apply_transaction(&mut connections, &routes.activation_changes()).is_err());
    assert_eq!(connections.connected, direct);
}

#[test]
fn committed_activation_has_one_graph_path_and_no_direct_doubling() {
    let routes = routes();
    let mut connections = MockConnections::default();
    connections
        .connected
        .insert(("unrelated:out".into(), "unrelated:in".into()));
    for direct in &routes.direct {
        connections
            .connected
            .insert((direct.source.clone(), direct.destination.clone()));
    }
    apply_transaction(&mut connections, &routes.activation_changes()).unwrap();
    let expected = routes
        .graph
        .iter()
        .map(|route| (route.source.clone(), route.destination.clone()))
        .chain(std::iter::once((
            "unrelated:out".into(),
            "unrelated:in".into(),
        )))
        .collect();
    assert_eq!(connections.connected, expected);
}

#[test]
fn ambiguous_boundaries_are_rejected_before_jack_activation() {
    let duplicate = ["same:port".to_owned(), "same:port".to_owned()];
    assert!(validate_stereo_boundary(&duplicate, "test").is_err());
    let empty = [String::new(), "right:port".to_owned()];
    assert!(validate_stereo_boundary(&empty, "test").is_err());
}

#[test]
fn failed_rollback_is_reported_with_both_errors() {
    let routes = routes();
    let mut transaction = Transaction::new(routes.activation_changes());
    // the first two connections take effect, the third fails
    for outcome in [Ok(true), Ok(true), Err("refused".to_string())] {
        assert!(matches!(transaction.next_request(), Request::Operate(_)));
        transaction.report(outcome);
    }
    // undoing the second succeeds, undoing the first fails
    match transaction.next_request() {
        Request::Operate(change) => {
            assert_eq!(change.kind, ChangeKind::Disconnect);
            assert_eq!(change.connection, connection("engine:r", "graph:in_r"));
        }
        Request::Finished(_) => panic!("rollback expected"),
    }
    transaction.report(Ok(true));
    transaction.report(Err("gone".to_string()));
    match transaction.next_request() {
        Request::Finished(Err(message)) => assert_eq!(
            message,
            "audio boundary change failed: refused; rollback failed: gone"
        ),
        _ => panic!("failure expected"),
    }
}

#[test]
fn boundary_messages_name_the_pair() {
    let duplicate = ["same:port".to_owned(), "same:port".to_owned()];
    assert_eq!(
        validate_stereo_boundary(&duplicate, "main output"),
        Err("main output JACK ports are ambiguous".to_string())
    );
    let blank = ["  ".to_owned(), "right:port".to_owned()];
    assert_eq!(
        validate_stereo_boundary(&blank, "main output"),
        Err("main output contains an empty JACK port name".to_string())
    );
    let fine = ["left:port".to_owned(), "right:port".to_owned()];
    assert_eq!(validate_stereo_boundary(&fine, "main output"), Ok(()));
}

fn graph_ports() -> ([String; 2], [String; 2]) {
    (["system:playback_1".into(), "system:playback_2".into()], ["input:l".into(), "input:r".into()])
}

#[test]
fn dry_managed_graph_sums_three_sources_into_the_main_sink() {
    let (destinations, live) = graph_ports();
    let (nodes, edges) = managed_graph(&destinations, &live, &vec![], &vec![], &vec![]);
    let ids: Vec<u32> = nodes.iter().map(|n| n.id).collect();
    assert_eq!(ids, [1, 2, 3, 90, 100]);
    let links: Vec<(u32, u32, u32)> = edges.iter().map(|e| (e.id, e.from, e.to)).collect();
    assert_eq!(links, [(1, 1, 90), (2, 2, 90), (3, 3, 90), (4, 90, 100)]);
    assert_eq!(topological_order(&nodes, &edges).unwrap(), [1, 2, 3, 90, 100]);
}

#[test]
fn managed_graph_builds_inserts_aux_buses_and_master_chain() {
    let (destinations, live) = graph_ports();
    let aux = vec![
        AuxPlan { id: 1, order: vec![21, 22], send: Some(SendPoint::PostInsert) },
        AuxPlan { id: 2, order: vec![23], send: None },
        AuxPlan { id: 3, order: vec![], send: Some(SendPoint::PreInsert) },
    ];
    let (nodes, edges) = managed_graph(&destinations, &live, &vec![5, 6], &aux, &vec![7]);
    let ids: Vec<u32> = nodes.iter().map(|n| n.id).collect();
    assert_eq!(ids, [1, 2, 3, 10, 11, 90, 30, 40, 41, 70, 42, 71, 32, 72, 80, 100]);
    assert!(matches!(nodes[3].kind, NodeKind::Processor { effect_id: 5 }));
    let links: Vec<(u32, u32)> = edges.iter().map(|e| (e.from, e.to)).collect();
    assert_eq!(
        links,
        [
            (1, 10), (10, 11), (11, 90), (2, 90), (3, 90),
            (11, 30), (30, 40), (40, 41), (41, 70), (70, 90),
            (42, 71), (71, 90),
            (1, 32), (32, 72), (72, 90),
            (90, 80), (80, 100),
        ]
    );
    assert!(edges.iter().enumerate().all(|(i, e)| e.id == i as u32 + 1));
    assert_eq!(validate_nodes(&nodes), Ok(()));
    assert_eq!(
        topological_order(&nodes, &edges).unwrap(),
        [1, 2, 3, 10, 11, 30, 32, 40, 41, 42, 70, 71, 72, 90, 80, 100]
    );
}
