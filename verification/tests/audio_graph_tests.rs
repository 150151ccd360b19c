use shr_daw::audio_graph::{
    reaches_any, topological_order, validate_hardware_cycles, validate_nodes, ChannelLayout, Edge, Node,
    NodeKind, SinkKind, SourceKind, StereoPorts,
};

fn ports(left: &str, right: &str) -> StereoPorts {
    StereoPorts { left: left.into(), right: right.into() }
}

fn node(id: u32, kind: NodeKind) -> Node {
    Node { id, layout: ChannelLayout::Stereo, kind }
}

fn edge(id: u32, from: u32, to: u32) -> Edge {
    Edge { id, from, to }
}

fn dry_nodes() -> Vec<Node> {
    vec![
        node(3, NodeKind::Sink { sink: SinkKind::MainPlayback { ports: ports("system:playback_1", "system:playback_2") } }),
        node(1, NodeKind::Source { source: SourceKind::ManagedEngine }),
        node(2, NodeKind::StereoMixer),
    ]
}

#[test]
fn dry_graph_orders_sources_before_mixer_and_sink() {
    let nodes = dry_nodes();
    assert_eq!(validate_nodes(&nodes), Ok(()));
    let edges = vec![edge(1, 1, 2), edge(2, 2, 3)];
    assert_eq!(topological_order(&nodes, &edges).unwrap(), [1, 2, 3]);
}

#[test]
fn ready_nodes_go_least_id_first() {
    let nodes = vec![
        node(9, NodeKind::StereoMixer),
        node(5, NodeKind::Source { source: SourceKind::LoopPlayer }),
        node(4, NodeKind::Source { source: SourceKind::ManagedEngine }),
        node(7, NodeKind::StereoMixer),
    ];
    let edges = vec![edge(1, 5, 9), edge(2, 4, 7), edge(3, 7, 9)];
    assert_eq!(topological_order(&nodes, &edges).unwrap(), [4, 5, 7, 9]);
}

#[test]
fn cycles_missing_nodes_duplicates_and_layout_mismatch_are_rejected() {
    let nodes = dry_nodes();
    let cycle = vec![edge(1, 1, 2), edge(2, 2, 3), edge(3, 3, 2)];
    assert!(topological_order(&nodes, &cycle).unwrap_err().message().contains("cycle"));
    assert_eq!(
        topological_order(&nodes, &vec![edge(1, 1, 2), edge(1, 2, 3)]).unwrap_err().message(),
        "edge IDs must be unique and non-zero"
    );
    assert_eq!(topological_order(&nodes, &vec![edge(0, 1, 2)]).unwrap_err().message(), "edge IDs must be unique and non-zero");
    assert_eq!(topological_order(&nodes, &vec![edge(1, 2, 2)]).unwrap_err().message(), "self-edge is not allowed");
    assert_eq!(
        topological_order(&nodes, &vec![edge(1, 1, 2), edge(2, 1, 2)]).unwrap_err().message(),
        "duplicate audio edge is not allowed"
    );
    assert_eq!(topological_order(&nodes, &vec![edge(1, 8, 2)]).unwrap_err().message(), "edge source is missing");
    assert_eq!(topological_order(&nodes, &vec![edge(1, 1, 8)]).unwrap_err().message(), "edge destination is missing");

    let mut mono = dry_nodes();
    mono[1].layout = ChannelLayout::Mono;
    assert_eq!(topological_order(&mono, &vec![edge(1, 1, 2)]).unwrap_err().message(), "edge channel layout mismatch");
    mono.push(node(4, NodeKind::MonoToStereo));
    assert_eq!(topological_order(&mono, &vec![edge(1, 1, 4), edge(2, 4, 2)]).unwrap(), [1, 3, 4, 2]);
}

#[test]
fn aux_returns_must_be_mixed_exactly_once() {
    let mut nodes = dry_nodes();
    nodes.push(node(4, NodeKind::AuxReturn { aux_id: 1 }));
    assert_eq!(
        topological_order(&nodes, &vec![edge(1, 1, 2)]).unwrap_err().message(),
        "an aux return must be mixed exactly once"
    );
    assert!(topological_order(&nodes, &vec![edge(1, 1, 2), edge(2, 4, 2)]).is_ok());
}

#[test]
fn node_problems_are_named() {
    let mut duplicate = dry_nodes();
    duplicate.push(node(2, NodeKind::StereoMixer));
    assert_eq!(validate_nodes(&duplicate).unwrap_err().message(), "node IDs must be unique and non-zero");
    let mut mono_mixer = dry_nodes();
    mono_mixer[2].layout = ChannelLayout::Mono;
    assert_eq!(validate_nodes(&mono_mixer).unwrap_err().message(), "stereo node has incompatible layout");
    let mut mono_adapter = dry_nodes();
    mono_adapter.push(Node { id: 4, layout: ChannelLayout::Mono, kind: NodeKind::MonoToStereo });
    assert_eq!(validate_nodes(&mono_adapter).unwrap_err().message(), "mono adapter output must be stereo");
    let mut mono_main = dry_nodes();
    mono_main[0].layout = ChannelLayout::Mono;
    assert_eq!(validate_nodes(&mono_main), Ok(()));
    let mut twice = dry_nodes();
    twice.push(node(4, NodeKind::AuxReturn { aux_id: 1 }));
    twice.push(node(5, NodeKind::AuxReturn { aux_id: 1 }));
    assert_eq!(validate_nodes(&twice).unwrap_err().message(), "an aux return may be mixed only once");
    let mut sources = dry_nodes();
    for id in 10..14 {
        sources.push(node(id, NodeKind::Source { source: SourceKind::LoopPlayer }));
    }
    assert_eq!(validate_nodes(&sources).unwrap_err().message(), "source bound exceeded");
    let mut mains = dry_nodes();
    mains.push(node(4, NodeKind::Sink { sink: SinkKind::MainPlayback { ports: ports("a", "b") } }));
    assert_eq!(validate_nodes(&mains).unwrap_err().message(), "main playback sink must be unique");
}

#[test]
fn reachability_follows_edges_only_forward() {
    let edges = vec![edge(1, 1, 2), edge(2, 2, 3), edge(3, 5, 1)];
    assert!(reaches_any(1, &vec![3], &edges));
    assert!(reaches_any(5, &vec![9, 3], &edges));
    assert!(!reaches_any(3, &vec![1], &edges));
    assert!(reaches_any(4, &vec![4], &edges));
    assert!(!reaches_any(1, &vec![], &edges));
}

#[test]
fn hardware_return_may_not_feed_its_own_send() {
    let nodes = vec![
        node(1, NodeKind::Source { source: SourceKind::HardwareReturn { loop_id: "pedal".into(), ports: ports("in_1", "in_2") } }),
        node(2, NodeKind::StereoMixer),
        node(3, NodeKind::Sink { sink: SinkKind::HardwareSend { loop_id: "pedal".into(), ports: ports("out_1", "out_2") } }),
        node(4, NodeKind::Sink { sink: SinkKind::HardwareSend { loop_id: "other".into(), ports: ports("out_3", "out_4") } }),
    ];
    assert_eq!(validate_hardware_cycles(&nodes, &vec![edge(1, 1, 2), edge(2, 2, 4)]), Ok(()));
    assert_eq!(
        validate_hardware_cycles(&nodes, &vec![edge(1, 1, 2), edge(2, 2, 3)]).unwrap_err().message(),
        "hardware return feeds its own send"
    );
}
