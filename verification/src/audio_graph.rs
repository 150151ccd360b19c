//! Bounded model types for the SHR-owned stereo audio graph.
use vstd::prelude::*;

verus! {

pub const GRAPH_FORMAT_VERSION: u32 = 1;
pub const EFFECT_FORMAT_VERSION: u32 = 1;
pub const MAX_SOURCES: usize = 4;
pub const MAX_AUX_BUSES: usize = 2;
pub const MAX_CHAIN_EFFECTS: usize = 8;
pub const MAX_EFFECTS: usize = 16;
pub const MAX_NODES: usize = 32;
pub const MAX_EDGES: usize = 64;
pub const MAX_REVERBS: usize = 2;
pub const MAX_CALLBACK_FRAMES: u32 = 4096;

pub type NodeId = u32;
pub type EdgeId = u32;
pub type EffectId = u32;
pub type AuxId = u8;

#[derive(Clone, Copy, Debug, PartialEq, Eq, Structural)]
pub enum ChannelLayout {
    Mono,
    Stereo,
}

#[derive(Clone, Debug, PartialEq, Eq)]
pub struct StereoPorts {
    pub left: String,
    pub right: String,
}

#[derive(Clone, Debug, PartialEq, Eq)]
pub enum SourceKind {
    ManagedEngine,
    LoopPlayer,
    LiveInput { ports: StereoPorts },
    HardwareReturn { loop_id: String, ports: StereoPorts },
}

#[derive(Clone, Debug, PartialEq, Eq)]
pub enum SinkKind {
    MainPlayback { ports: StereoPorts },
    HardwareSend { loop_id: String, ports: StereoPorts },
    RecordPreFx,
    RecordPostFx,
    RecordMaster,
}

#[derive(Clone, Debug, PartialEq, Eq)]
pub enum NodeKind {
    Source { source: SourceKind },
    Processor { effect_id: EffectId },
    StereoMixer,
    SendTap { aux_id: AuxId },
    AuxReturn { aux_id: AuxId },
    MonoToStereo,
    Sink { sink: SinkKind },
}

#[derive(Clone, Debug, PartialEq, Eq)]
pub struct Node {
    pub id: NodeId,
    pub layout: ChannelLayout,
    pub kind: NodeKind,
}

#[derive(Clone, Copy, Debug, PartialEq, Eq, Structural)]
pub struct Edge {
    pub id: EdgeId,
    pub from: NodeId,
    pub to: NodeId,
}

#[derive(Clone, Copy, Debug, PartialEq, Eq, Structural)]
pub enum EffectKind {
    Utility,
    Eq,
    Compressor,
    Distortion,
    Delay,
    Reverb,
    Chorus,
    Flanger,
    Phaser,
    TremoloPan,
    Filter,
    Gate,
    Crusher,
}

impl EffectKind {
    /// Time-based effects that must run wet on an aux bus.
    pub open spec fn spec_requires_wet_aux(self) -> bool {
        self is Delay || self is Reverb || self is Chorus || self is Flanger || self is Phaser
    }

    pub fn requires_wet_aux(self) -> (r: bool)
        ensures
            r == self.spec_requires_wet_aux(),
    {
        match self {
            EffectKind::Delay | EffectKind::Reverb | EffectKind::Chorus | EffectKind::Flanger
            | EffectKind::Phaser => true,
            _ => false,
        }
    }
}

/// Every effect kind may sit in the insert rack except the reverb.
pub fn is_insert_effect(kind: EffectKind) -> (r: bool)
    ensures
        r == !(kind is Reverb),
{
    match kind {
        EffectKind::Reverb => false,
        _ => true,
    }
}

#[derive(Clone, Debug, PartialEq, Eq)]
pub struct SourceChain {
    pub source_node: NodeId,
    pub effects: Vec<EffectId>,
}

#[derive(Clone, Copy, Debug, PartialEq, Eq, Structural)]
pub enum SendPoint {
    PreInsert,
    PostInsert,
}

#[derive(Clone, Copy, Debug, Default, PartialEq, Eq, Structural)]
pub struct Monitoring {
    pub direct: bool,
    pub software: bool,
    pub doubled_path_confirmed: bool,
}

#[derive(Clone, Copy, Debug, PartialEq, Eq, Structural)]
pub enum RecordingTap {
    RawInput,
    SourcePreFx,
    SourcePostFx,
    AuxReturn,
    PostMaster,
}

impl Default for RecordingTap {
    fn default() -> (r: Self)
        ensures
            r is RawInput,
    {
        RecordingTap::RawInput
    }
}

/// A graph validation failure with its message.
#[derive(Clone, Debug, PartialEq, Eq)]
pub struct GraphError(pub String);

impl GraphError {
    pub fn new(message: &str) -> (r: Self)
        ensures
            r.0@ == message@,
    {
        GraphError(message.to_owned())
    }

    /// The message text.
    pub fn message(&self) -> (r: &str)
        ensures
            r@ == self.0@,
    {
        self.0.as_str()
    }
}

// ---------------------------------------------------------------------------
// Topology
// ---------------------------------------------------------------------------

/// The index of the first node with `id` at or after `i`.
pub open spec fn node_from(nodes: Seq<Node>, id: NodeId, i: int) -> Option<int>
    decreases nodes.len() - i,
{
    if i < 0 || i >= nodes.len() {
        None
    } else if nodes[i].id == id {
        Some(i)
    } else {
        node_from(nodes, id, i + 1)
    }
}

/// The index of the first node with `id`.
pub open spec fn node_at(nodes: Seq<Node>, id: NodeId) -> Option<int> {
    node_from(nodes, id, 0)
}

/// Whether the node ids are distinct.
pub open spec fn distinct_ids(nodes: Seq<Node>) -> bool {
    forall|i: int, j: int| 0 <= i < j < nodes.len() ==> nodes[i].id != nodes[j].id
}

proof fn lemma_node_from(nodes: Seq<Node>, id: NodeId, i: int)
    requires
        0 <= i,
    ensures
        node_from(nodes, id, i) matches Some(k) ==> i <= k < nodes.len() && nodes[k].id == id,
        node_from(nodes, id, i) is None ==> forall|k: int| i <= k < nodes.len() ==> nodes[k].id != id,
    decreases nodes.len() - i,
{
    if i < nodes.len() {
        lemma_node_from(nodes, id, i + 1);
    }
}

fn find_node(nodes: &Vec<Node>, id: NodeId) -> (r: Option<usize>)
    ensures
        match r {
            Some(i) => node_at(nodes@, id) == Some(i as int) && i < nodes@.len() && nodes@[i as int].id == id,
            None => node_at(nodes@, id) is None && forall|k: int| 0 <= k < nodes@.len() ==> nodes@[k].id != id,
        },
{
    let mut i: usize = 0;
    while i < nodes.len()
        invariant
            i <= nodes.len(),
            node_at(nodes@, id) == node_from(nodes@, id, i as int),
            forall|k: int| 0 <= k < i ==> nodes@[k].id != id,
        decreases nodes.len() - i,
    {
        if nodes[i].id == id {
            return Some(i);
        }
        i += 1;
    }
    None
}

/// Whether an edge may join `from` to `to`: the same layout, or a mono
/// signal into the mono-to-stereo adapter.
pub open spec fn layouts_fit(from: Node, to: Node) -> bool {
    from.layout == to.layout || (from.layout == ChannelLayout::Mono && to.kind is MonoToStereo)
}

/// What is wrong with edge `i`, given the edges before it.
pub open spec fn edge_error(nodes: Seq<Node>, edges: Seq<Edge>, i: int) -> Option<Seq<char>> {
    let e = edges[i];
    if e.id == 0 || exists|j: int| 0 <= j < i && edges[j].id == e.id {
        Some("edge IDs must be unique and non-zero"@)
    } else if e.from == e.to {
        Some("self-edge is not allowed"@)
    } else if exists|j: int| 0 <= j < i && edges[j].from == e.from && edges[j].to == e.to {
        Some("duplicate audio edge is not allowed"@)
    } else if node_at(nodes, e.from) is None {
        Some("edge source is missing"@)
    } else if node_at(nodes, e.to) is None {
        Some("edge destination is missing"@)
    } else if !layouts_fit(nodes[node_at(nodes, e.from)->0], nodes[node_at(nodes, e.to)->0]) {
        Some("edge channel layout mismatch"@)
    } else {
        None
    }
}

/// The error of the first bad edge from `i` on.
pub open spec fn edges_error(nodes: Seq<Node>, edges: Seq<Edge>, i: int) -> Option<Seq<char>>
    decreases edges.len() - i,
{
    if i < 0 || i >= edges.len() {
        None
    } else {
        match edge_error(nodes, edges, i) {
            Some(e) => Some(e),
            None => edges_error(nodes, edges, i + 1),
        }
    }
}

/// How many of `edges` leave `id`.
pub open spec fn out_degree(edges: Seq<Edge>, id: NodeId) -> nat
    decreases edges.len(),
{
    if edges.len() == 0 {
        0
    } else {
        out_degree(edges.drop_last(), id) + if edges.last().from == id { 1nat } else { 0nat }
    }
}

/// Whether every aux return is mixed by exactly one edge.
pub open spec fn aux_returns_mixed_once(nodes: Seq<Node>, edges: Seq<Edge>) -> bool {
    forall|i: int| 0 <= i < nodes.len() && (#[trigger] nodes[i]).kind is AuxReturn ==> out_degree(edges, nodes[i].id) == 1
}

/// Whether `id` can go next: not placed yet, and every edge into it comes
/// from a placed node.
pub open spec fn ready(edges: Seq<Edge>, placed: Seq<NodeId>, id: NodeId) -> bool {
    &&& !placed.contains(id)
    &&& forall|j: int| 0 <= j < edges.len() && (#[trigger] edges[j]).to == id ==> placed.contains(edges[j].from)
}

/// The least id among the first `n` nodes that can go next.
pub open spec fn least_ready(nodes: Seq<Node>, edges: Seq<Edge>, placed: Seq<NodeId>, n: int) -> Option<NodeId>
    decreases n,
{
    if n <= 0 {
        None
    } else {
        let id = nodes[n - 1].id;
        let rest = least_ready(nodes, edges, placed, n - 1);
        if ready(edges, placed, id) {
            match rest {
                Some(r) => if r < id { Some(r) } else { Some(id) },
                None => Some(id),
            }
        } else {
            rest
        }
    }
}

/// The order the nodes are processed in: repeatedly the least id whose
/// inputs are all placed, for at most `steps` more nodes.
pub open spec fn processing_order(nodes: Seq<Node>, edges: Seq<Edge>, placed: Seq<NodeId>, steps: nat) -> Seq<NodeId>
    decreases steps,
{
    if steps == 0 {
        placed
    } else {
        match least_ready(nodes, edges, placed, nodes.len() as int) {
            None => placed,
            Some(id) => processing_order(nodes, edges, placed.push(id), (steps - 1) as nat),
        }
    }
}

/// The processing order of a graph, or why it has none: a bad edge, an
/// aux return not mixed exactly once, or a cycle.
pub open spec fn spec_topological_order(nodes: Seq<Node>, edges: Seq<Edge>) -> Result<Seq<NodeId>, Seq<char>> {
    match edges_error(nodes, edges, 0) {
        Some(e) => Err(e),
        None => if !aux_returns_mixed_once(nodes, edges) {
            Err("an aux return must be mixed exactly once"@)
        } else {
            let order = processing_order(nodes, edges, Seq::empty(), nodes.len());
            if order.len() != nodes.len() {
                Err("audio graph contains a cycle"@)
            } else {
                Ok(order)
            }
        },
    }
}

fn layouts_fit_exec(from: &Node, to: &Node) -> (r: bool)
    ensures
        r == layouts_fit(*from, *to),
{
    let adapter = match to.kind {
        NodeKind::MonoToStereo => true,
        _ => false,
    };
    from.layout == to.layout || (from.layout == ChannelLayout::Mono && adapter)
}

fn edge_problem(nodes: &Vec<Node>, edges: &Vec<Edge>, i: usize) -> (r: Option<&'static str>)
    requires
        i < edges@.len(),
    ensures
        match r {
            Some(m) => edge_error(nodes@, edges@, i as int) == Some(m@),
            None => edge_error(nodes@, edges@, i as int) is None,
        },
{
    let e = edges[i];
    let mut j: usize = 0;
    let mut same_id = false;
    let mut same_route = false;
    while j < i
        invariant
            j <= i < edges@.len(),
            e == edges@[i as int],
            same_id == exists|k: int| 0 <= k < j && edges@[k].id == e.id,
            same_route == exists|k: int| 0 <= k < j && edges@[k].from == e.from && edges@[k].to == e.to,
        decreases i - j,
    {
        let other = edges[j];
        if other.id == e.id {
            same_id = true;
        }
        if other.from == e.from && other.to == e.to {
            same_route = true;
        }
        j += 1;
    }
    if e.id == 0 || same_id {
        return Some("edge IDs must be unique and non-zero");
    }
    if e.from == e.to {
        return Some("self-edge is not allowed");
    }
    if same_route {
        return Some("duplicate audio edge is not allowed");
    }
    let from = match find_node(nodes, e.from) {
        Some(k) => k,
        None => {
            return Some("edge source is missing");
        },
    };
    let to = match find_node(nodes, e.to) {
        Some(k) => k,
        None => {
            return Some("edge destination is missing");
        },
    };
    if !layouts_fit_exec(&nodes[from], &nodes[to]) {
        return Some("edge channel layout mismatch");
    }
    None
}

fn count_out(edges: &Vec<Edge>, id: NodeId) -> (r: usize)
    ensures
        r == out_degree(edges@, id),
{
    let mut n: usize = 0;
    let mut i: usize = 0;
    while i < edges.len()
        invariant
            i <= edges.len(),
            n == out_degree(edges@.take(i as int), id),
            n <= i,
        decreases edges.len() - i,
    {
        proof {
            assert(edges@.take(i + 1).drop_last() =~= edges@.take(i as int));
        }
        if edges[i].from == id {
            n = n + 1;
        }
        i += 1;
    }
    assert(edges@.take(i as int) =~= edges@);
    n
}

fn holds(v: &Vec<NodeId>, x: NodeId) -> (r: bool)
    ensures
        r == v@.contains(x),
{
    let mut i: usize = 0;
    while i < v.len()
        invariant
            i <= v.len(),
            forall|k: int| 0 <= k < i ==> v@[k] != x,
        decreases v.len() - i,
    {
        if v[i] == x {
            assert(v@[i as int] == x);
            return true;
        }
        i += 1;
    }
    false
}

fn is_ready(edges: &Vec<Edge>, placed: &Vec<NodeId>, id: NodeId) -> (r: bool)
    ensures
        r == ready(edges@, placed@, id),
{
    if holds(placed, id) {
        return false;
    }
    let mut j: usize = 0;
    while j < edges.len()
        invariant
            j <= edges.len(),
            !placed@.contains(id),
            forall|k: int| 0 <= k < j && (#[trigger] edges@[k]).to == id ==> placed@.contains(edges@[k].from),
        decreases edges.len() - j,
    {
        if edges[j].to == id && !holds(placed, edges[j].from) {
            return false;
        }
        j += 1;
    }
    true
}

fn least_ready_exec(nodes: &Vec<Node>, edges: &Vec<Edge>, placed: &Vec<NodeId>) -> (r: Option<NodeId>)
    ensures
        r == least_ready(nodes@, edges@, placed@, nodes@.len() as int),
{
    let mut best: Option<NodeId> = None;
    let mut k: usize = 0;
    while k < nodes.len()
        invariant
            k <= nodes.len(),
            best == least_ready(nodes@, edges@, placed@, k as int),
        decreases nodes.len() - k,
    {
        let id = nodes[k].id;
        if is_ready(edges, placed, id) {
            best = match best {
                Some(b) => if b < id { Some(b) } else { Some(id) },
                None => Some(id),
            };
        }
        k += 1;
    }
    best
}

/// The order to process a graph's nodes in: each node after every node
/// that feeds it, the least id first among those that can go; refused for
/// a bad edge, an aux return not mixed exactly once, or a cycle.
pub fn topological_order(nodes: &Vec<Node>, edges: &Vec<Edge>) -> (r: Result<Vec<NodeId>, GraphError>)
    requires
        distinct_ids(nodes@),
    ensures
        match r {
            Ok(order) => spec_topological_order(nodes@, edges@) == Ok::<Seq<NodeId>, Seq<char>>(order@),
            Err(e) => spec_topological_order(nodes@, edges@) == Err::<Seq<NodeId>, Seq<char>>(e.0@),
        },
{
    let mut i: usize = 0;
    while i < edges.len()
        invariant
            i <= edges.len(),
            edges_error(nodes@, edges@, 0) == edges_error(nodes@, edges@, i as int),
        decreases edges.len() - i,
    {
        if let Some(m) = edge_problem(nodes, edges, i) {
            return Err(GraphError::new(m));
        }
        i += 1;
    }
    let mut n: usize = 0;
    while n < nodes.len()
        invariant
            n <= nodes.len(),
            edges_error(nodes@, edges@, 0) is None,
            forall|k: int| 0 <= k < n && (#[trigger] nodes@[k]).kind is AuxReturn ==> out_degree(edges@, nodes@[k].id) == 1,
        decreases nodes.len() - n,
    {
        let aux = match nodes[n].kind {
            NodeKind::AuxReturn { .. } => true,
            _ => false,
        };
        if aux && count_out(edges, nodes[n].id) != 1 {
            return Err(GraphError::new("an aux return must be mixed exactly once"));
        }
        n += 1;
    }
    let mut order: Vec<NodeId> = Vec::new();
    let mut steps: usize = nodes.len();
    while steps > 0
        invariant
            steps <= nodes.len(),
            order@.len() + steps == nodes.len(),
            processing_order(nodes@, edges@, Seq::empty(), nodes@.len() as nat)
                == processing_order(nodes@, edges@, order@, steps as nat),
            edges_error(nodes@, edges@, 0) is None,
            aux_returns_mixed_once(nodes@, edges@),
        ensures
            processing_order(nodes@, edges@, Seq::empty(), nodes@.len() as nat) == order@,
            edges_error(nodes@, edges@, 0) is None,
            aux_returns_mixed_once(nodes@, edges@),
        decreases steps,
    {
        match least_ready_exec(nodes, edges, &order) {
            None => {
                break;
            },
            Some(id) => {
                order.push(id);
            },
        }
        steps -= 1;
    }
    if order.len() != nodes.len() {
        return Err(GraphError::new("audio graph contains a cycle"));
    }
    Ok(order)
}

/// Every node in `order` comes after each node that feeds it.
pub open spec fn feeders_first(edges: Seq<Edge>, order: Seq<NodeId>) -> bool {
    forall|j: int, k: int| #![trigger edges[j], order[k]] 0 <= j < edges.len() && 0 <= k < order.len() && order[k] == edges[j].to
        ==> exists|m: int| 0 <= m < k && order[m] == edges[j].from
}

/// No id occurs twice in `order`.
pub open spec fn no_repeats(order: Seq<NodeId>) -> bool {
    forall|a: int, b: int| 0 <= a < b < order.len() ==> order[a] != order[b]
}

/// Every id in `order` is a node's.
pub open spec fn only_nodes(nodes: Seq<Node>, order: Seq<NodeId>) -> bool {
    forall|k: int| 0 <= k < order.len() ==> exists|i: int| 0 <= i < nodes.len() && nodes[i].id == #[trigger] order[k]
}

proof fn lemma_least_ready(nodes: Seq<Node>, edges: Seq<Edge>, placed: Seq<NodeId>, n: int)
    requires
        n <= nodes.len(),
    ensures
        least_ready(nodes, edges, placed, n) matches Some(id) ==> ready(edges, placed, id)
            && exists|i: int| 0 <= i < n && nodes[i].id == id,
    decreases n,
{
    if n > 0 {
        lemma_least_ready(nodes, edges, placed, n - 1);
    }
}

proof fn lemma_processing_order(nodes: Seq<Node>, edges: Seq<Edge>, placed: Seq<NodeId>, steps: nat)
    requires
        feeders_first(edges, placed),
        no_repeats(placed),
        only_nodes(nodes, placed),
    ensures
        feeders_first(edges, processing_order(nodes, edges, placed, steps)),
        no_repeats(processing_order(nodes, edges, placed, steps)),
        only_nodes(nodes, processing_order(nodes, edges, placed, steps)),
    decreases steps,
{
    if steps > 0 {
        lemma_least_ready(nodes, edges, placed, nodes.len() as int);
        match least_ready(nodes, edges, placed, nodes.len() as int) {
            None => {},
            Some(id) => {
                let next = placed.push(id);
                assert forall|j: int, k: int| #![trigger edges[j], next[k]] 0 <= j < edges.len() && 0 <= k < next.len() && next[k] == edges[j].to
                    implies exists|m: int| 0 <= m < k && next[m] == edges[j].from by {
                    if k < placed.len() {
                        let m = choose|m: int| 0 <= m < k && placed[m] == edges[j].from;
                        assert(next[m] == placed[m]);
                    } else {
                        assert(placed.contains(edges[j].from));
                        let m = choose|m: int| 0 <= m < placed.len() && placed[m] == edges[j].from;
                        assert(next[m] == placed[m]);
                    }
                }
                assert forall|a: int, b: int| 0 <= a < b < next.len() implies next[a] != next[b] by {
                    if b == placed.len() {
                        assert(next[a] == placed[a]);
                        assert(!placed.contains(id));
                    }
                }
                assert forall|k: int| 0 <= k < next.len() implies exists|i: int| 0 <= i < nodes.len() && nodes[i].id == #[trigger] next[k] by {
                    if k < placed.len() {
                        assert(next[k] == placed[k]);
                    }
                }
                lemma_processing_order(nodes, edges, next, (steps - 1) as nat);
            },
        }
    }
}

/// A processing order is a topological order: it holds each node once,
/// and every node comes after each node that feeds it.
pub proof fn lemma_topological_order_sound(nodes: Seq<Node>, edges: Seq<Edge>)
    requires
        spec_topological_order(nodes, edges) is Ok,
    ensures
        ({
            let order = spec_topological_order(nodes, edges)->Ok_0;
            &&& order.len() == nodes.len()
            &&& no_repeats(order)
            &&& only_nodes(nodes, order)
            &&& feeders_first(edges, order)
        }),
{
    lemma_processing_order(nodes, edges, Seq::empty(), nodes.len() as nat);
}

// ---------------------------------------------------------------------------
// Nodes
// ---------------------------------------------------------------------------

/// A check's outcome as the message it fails with, if any.
pub open spec fn failure(r: Result<(), GraphError>) -> Option<Seq<char>> {
    match r {
        Ok(()) => None,
        Err(e) => Some(e.0@),
    }
}

/// A main playback sink.
pub open spec fn is_main_playback(kind: NodeKind) -> bool {
    kind matches NodeKind::Sink { sink } && sink is MainPlayback
}

/// What is wrong with a node's channel layout: every node but a source or
/// the main playback sink is stereo.
pub open spec fn layout_problem(n: Node) -> Option<Seq<char>> {
    if n.kind is Source || is_main_playback(n.kind) || n.layout == ChannelLayout::Stereo {
        None
    } else if n.kind is MonoToStereo {
        Some("mono adapter output must be stereo"@)
    } else {
        Some("stereo node has incompatible layout"@)
    }
}

/// The aux bus an aux return mixes, if the node is one.
pub open spec fn aux_return_of(kind: NodeKind) -> Option<AuxId> {
    match kind {
        NodeKind::AuxReturn { aux_id } => Some(aux_id),
        _ => None,
    }
}

/// What is wrong with node `i`, given the nodes before it.
pub open spec fn node_problem(nodes: Seq<Node>, i: int) -> Option<Seq<char>> {
    let n = nodes[i];
    if n.id == 0 || exists|j: int| 0 <= j < i && nodes[j].id == n.id {
        Some("node IDs must be unique and non-zero"@)
    } else if layout_problem(n) is Some {
        layout_problem(n)
    } else if aux_return_of(n.kind) is Some
        && exists|j: int| 0 <= j < i && aux_return_of(nodes[j].kind) == aux_return_of(n.kind) {
        Some("an aux return may be mixed only once"@)
    } else {
        None
    }
}

/// How many of `nodes` are sources.
pub open spec fn source_count(nodes: Seq<Node>) -> nat
    decreases nodes.len(),
{
    if nodes.len() == 0 {
        0
    } else {
        source_count(nodes.drop_last()) + if nodes.last().kind is Source { 1nat } else { 0nat }
    }
}

/// How many of `nodes` are main playback sinks.
pub open spec fn main_playback_count(nodes: Seq<Node>) -> nat
    decreases nodes.len(),
{
    if nodes.len() == 0 {
        0
    } else {
        main_playback_count(nodes.drop_last()) + if is_main_playback(nodes.last().kind) { 1nat } else { 0nat }
    }
}

/// What is wrong with the nodes from `i` on, then with the node set.
pub open spec fn nodes_problem(nodes: Seq<Node>, i: int) -> Option<Seq<char>>
    decreases nodes.len() - i,
{
    if 0 <= i < nodes.len() {
        match node_problem(nodes, i) {
            Some(e) => Some(e),
            None => nodes_problem(nodes, i + 1),
        }
    } else if source_count(nodes) > MAX_SOURCES {
        Some("source bound exceeded"@)
    } else if main_playback_count(nodes) > 1 {
        Some("main playback sink must be unique"@)
    } else {
        None
    }
}

fn layout_problem_exec(n: &Node) -> (r: Option<&'static str>)
    ensures
        match r {
            Some(m) => layout_problem(*n) == Some(m@),
            None => layout_problem(*n) is None,
        },
{
    let exempt = match &n.kind {
        NodeKind::Source { .. } => true,
        NodeKind::Sink { sink: SinkKind::MainPlayback { .. } } => true,
        _ => false,
    };
    if exempt || n.layout == ChannelLayout::Stereo {
        return None;
    }
    match n.kind {
        NodeKind::MonoToStereo => Some("mono adapter output must be stereo"),
        _ => Some("stereo node has incompatible layout"),
    }
}

fn aux_return_exec(kind: &NodeKind) -> (r: Option<AuxId>)
    ensures
        r == aux_return_of(*kind),
{
    match kind {
        NodeKind::AuxReturn { aux_id } => Some(*aux_id),
        _ => None,
    }
}

fn node_problem_exec(nodes: &Vec<Node>, i: usize) -> (r: Option<&'static str>)
    requires
        i < nodes@.len(),
    ensures
        match r {
            Some(m) => node_problem(nodes@, i as int) == Some(m@),
            None => node_problem(nodes@, i as int) is None,
        },
{
    let id = nodes[i].id;
    let aux = aux_return_exec(&nodes[i].kind);
    let mut same_id = false;
    let mut same_aux = false;
    let mut j: usize = 0;
    while j < i
        invariant
            j <= i < nodes@.len(),
            id == nodes@[i as int].id,
            aux == aux_return_of(nodes@[i as int].kind),
            same_id == exists|k: int| 0 <= k < j && nodes@[k].id == id,
            same_aux == exists|k: int| 0 <= k < j && aux_return_of(nodes@[k].kind) == aux,
        decreases i - j,
    {
        if nodes[j].id == id {
            same_id = true;
        }
        if aux_return_exec(&nodes[j].kind) == aux {
            same_aux = true;
        }
        j += 1;
    }
    if id == 0 || same_id {
        return Some("node IDs must be unique and non-zero");
    }
    if let Some(m) = layout_problem_exec(&nodes[i]) {
        return Some(m);
    }
    if aux.is_some() && same_aux {
        return Some("an aux return may be mixed only once");
    }
    None
}

fn count_kinds(nodes: &Vec<Node>) -> (r: (usize, usize))
    ensures
        r.0 == source_count(nodes@),
        r.1 == main_playback_count(nodes@),
{
    let mut sources: usize = 0;
    let mut mains: usize = 0;
    let mut i: usize = 0;
    while i < nodes.len()
        invariant
            i <= nodes.len(),
            sources == source_count(nodes@.take(i as int)),
            mains == main_playback_count(nodes@.take(i as int)),
            sources <= i,
            mains <= i,
        decreases nodes.len() - i,
    {
        proof {
            assert(nodes@.take(i + 1).drop_last() =~= nodes@.take(i as int));
        }
        match &nodes[i].kind {
            NodeKind::Source { .. } => {
                sources = sources + 1;
            },
            NodeKind::Sink { sink: SinkKind::MainPlayback { .. } } => {
                mains = mains + 1;
            },
            _ => {},
        }
        i += 1;
    }
    assert(nodes@.take(i as int) =~= nodes@);
    (sources, mains)
}

proof fn lemma_clean_nodes_distinct(nodes: Seq<Node>, i: int)
    requires
        0 <= i <= nodes.len(),
        nodes_problem(nodes, i) is None,
    ensures
        forall|a: int, b: int| 0 <= a < b < nodes.len() && i <= b ==> nodes[a].id != nodes[b].id,
    decreases nodes.len() - i,
{
    if i < nodes.len() {
        lemma_clean_nodes_distinct(nodes, i + 1);
        assert forall|a: int, b: int| 0 <= a < b < nodes.len() && i <= b implies nodes[a].id != nodes[b].id by {
            if b == i {
                assert(node_problem(nodes, i) is None);
            }
        }
    }
}

/// Checks the nodes of a graph: ids unique and non-zero, stereo wherever
/// stereo is required, each aux return mixed once, at most four sources
/// and one main playback sink.
pub fn validate_nodes(nodes: &Vec<Node>) -> (r: Result<(), GraphError>)
    ensures
        failure(r) == nodes_problem(nodes@, 0),
        r is Ok ==> distinct_ids(nodes@),
{
    let mut i: usize = 0;
    while i < nodes.len()
        invariant
            i <= nodes.len(),
            nodes_problem(nodes@, 0) == nodes_problem(nodes@, i as int),
        decreases nodes.len() - i,
    {
        if let Some(m) = node_problem_exec(nodes, i) {
            return Err(GraphError::new(m));
        }
        i += 1;
    }
    let (sources, mains) = count_kinds(nodes);
    if sources > MAX_SOURCES {
        return Err(GraphError::new("source bound exceeded"));
    }
    if mains > 1 {
        return Err(GraphError::new("main playback sink must be unique"));
    }
    proof {
        lemma_clean_nodes_distinct(nodes@, 0);
    }
    Ok(())
}

// ---------------------------------------------------------------------------
// Reachability
// ---------------------------------------------------------------------------

/// Whether an edge joins `a` to `b`.
pub open spec fn joins(edges: Seq<Edge>, a: NodeId, b: NodeId) -> bool {
    exists|j: int| 0 <= j < edges.len() && edges[j].from == a && edges[j].to == b
}

/// Whether `p` is a path along `edges`.
pub open spec fn is_path(edges: Seq<Edge>, p: Seq<NodeId>) -> bool {
    p.len() >= 1 && forall|k: int| 0 <= k < p.len() - 1 ==> joins(edges, #[trigger] p[k], p[k + 1])
}

/// Whether a path leads from `start` to `target`.
pub open spec fn reaches(edges: Seq<Edge>, start: NodeId, target: NodeId) -> bool {
    exists|p: Seq<NodeId>| is_path(edges, p) && p[0] == start && p.last() == target
}

/// The ids a search can find: `start` and every edge's destination.
pub open spec fn reach_universe(edges: Seq<Edge>, start: NodeId) -> Seq<NodeId> {
    seq![start] + edges.map_values(|e: Edge| e.to)
}

proof fn lemma_reached_bound(edges: Seq<Edge>, start: NodeId, reached: Seq<NodeId>)
    requires
        reached.no_duplicates(),
        forall|k: int| 0 <= k < reached.len() ==> reach_universe(edges, start).contains(#[trigger] reached[k]),
    ensures
        reached.len() <= edges.len() + 1,
{
    let u = reach_universe(edges, start);
    reached.unique_seq_to_set();
    u.lemma_cardinality_of_set();
    assert(reached.to_set().subset_of(u.to_set())) by {
        assert forall|x: NodeId| reached.to_set().contains(x) implies u.to_set().contains(x) by {
            let k = choose|k: int| 0 <= k < reached.len() && reached[k] == x;
            assert(u.contains(reached[k]));
        }
    }
    vstd::set_lib::lemma_len_subset(reached.to_set(), u.to_set());
}

proof fn lemma_path_extends(edges: Seq<Edge>, start: NodeId, a: NodeId, b: NodeId)
    requires
        reaches(edges, start, a),
        joins(edges, a, b),
    ensures
        reaches(edges, start, b),
{
    let p = choose|p: Seq<NodeId>| is_path(edges, p) && p[0] == start && p.last() == a;
    let q = p.push(b);
    assert forall|k: int| 0 <= k < q.len() - 1 implies joins(edges, #[trigger] q[k], q[k + 1]) by {
        if k < p.len() - 1 {
            assert(q[k] == p[k] && q[k + 1] == p[k + 1]);
        } else {
            assert(q[k] == a && q[k + 1] == b);
        }
    }
    assert(is_path(edges, q) && q[0] == start && q.last() == b);
}

proof fn lemma_closed_holds_paths(edges: Seq<Edge>, reached: Seq<NodeId>, p: Seq<NodeId>, k: int)
    requires
        is_path(edges, p),
        reached.contains(p[0]),
        0 <= k < p.len(),
        forall|j: int| 0 <= j < edges.len() && reached.contains(#[trigger] edges[j].from) ==> reached.contains(edges[j].to),
    ensures
        reached.contains(p[k]),
    decreases k,
{
    if k > 0 {
        lemma_closed_holds_paths(edges, reached, p, k - 1);
        assert(joins(edges, p[k - 1], p[k]));
        let j = choose|j: int| 0 <= j < edges.len() && edges[j].from == p[k - 1] && edges[j].to == p[k];
        assert(reached.contains(edges[j].from));
    }
}

/// Whether a path leads from `start` to one of `targets`.
pub fn reaches_any(start: NodeId, targets: &Vec<NodeId>, edges: &Vec<Edge>) -> (r: bool)
    ensures
        r == exists|t: NodeId| targets@.contains(t) && reaches(edges@, start, t),
{
    let ghost e = edges@;
    let mut reached: Vec<NodeId> = Vec::new();
    reached.push(start);
    proof {
        let p = seq![start];
        assert(is_path(e, p) && p[0] == start && p.last() == start);
        assert(reach_universe(e, start)[0] == start);
    }
    loop
        invariant
            e == edges@,
            reached@.len() >= 1,
            reached@[0] == start,
            reached@.no_duplicates(),
            forall|k: int| 0 <= k < reached@.len() ==> reaches(e, start, #[trigger] reached@[k]),
            forall|k: int| 0 <= k < reached@.len() ==> reach_universe(e, start).contains(#[trigger] reached@[k]),
            reached@.len() <= e.len() + 1,
        ensures
            reached@.len() >= 1,
            reached@[0] == start,
            forall|k: int| 0 <= k < reached@.len() ==> reaches(e, start, #[trigger] reached@[k]),
            forall|j: int| 0 <= j < e.len() && reached@.contains(#[trigger] e[j].from) ==> reached@.contains(e[j].to),
        decreases e.len() + 1 - reached@.len(),
    {
        let ghost before = reached@;
        let mut added = false;
        let mut j: usize = 0;
        while j < edges.len()
            invariant
                e == edges@,
                j <= e.len(),
                reached@.len() >= 1,
                reached@[0] == start,
                reached@.no_duplicates(),
                forall|k: int| 0 <= k < reached@.len() ==> reaches(e, start, #[trigger] reached@[k]),
                forall|k: int| 0 <= k < reached@.len() ==> reach_universe(e, start).contains(#[trigger] reached@[k]),
                reached@.len() <= e.len() + 1,
                added ==> reached@.len() > before.len(),
                !added ==> reached@ == before,
                !added ==> forall|i: int| 0 <= i < j && reached@.contains(#[trigger] e[i].from) ==> reached@.contains(e[i].to),
            decreases e.len() - j,
        {
            let edge = edges[j];
            if holds(&reached, edge.from) && !holds(&reached, edge.to) {
                proof {
                    let k = choose|k: int| 0 <= k < reached@.len() && reached@[k] == edge.from;
                    assert(joins(e, edge.from, edge.to)) by {
                        assert(e[j as int].from == edge.from && e[j as int].to == edge.to);
                    }
                    lemma_path_extends(e, start, edge.from, edge.to);
                    let u = reach_universe(e, start);
                    assert(u[j + 1] == edge.to);
                }
                reached.push(edge.to);
                proof {
                    let r = reached@;
                    assert forall|a: int, b: int| 0 <= a < r.len() && 0 <= b < r.len() && a != b implies r[a] != r[b] by {
                        if a == r.len() - 1 || b == r.len() - 1 {
                            assert(!before.contains(edge.to) || added);
                        }
                    }
                    lemma_reached_bound(e, start, r);
                }
                added = true;
            }
            j += 1;
        }
        if !added {
            break;
        }
    }
    let mut i: usize = 0;
    while i < targets.len()
        invariant
            i <= targets@.len(),
            reached@.len() >= 1,
            reached@[0] == start,
            forall|k: int| 0 <= k < reached@.len() ==> reaches(e, start, #[trigger] reached@[k]),
            forall|j: int| 0 <= j < e.len() && reached@.contains(#[trigger] e[j].from) ==> reached@.contains(e[j].to),
            forall|k: int| 0 <= k < i ==> !reached@.contains(#[trigger] targets@[k]),
            e == edges@,
        decreases targets@.len() - i,
    {
        if holds(&reached, targets[i]) {
            proof {
                let k = choose|k: int| 0 <= k < reached@.len() && reached@[k] == targets@[i as int];
                assert(targets@.contains(targets@[i as int]));
            }
            return true;
        }
        i += 1;
    }
    proof {
        assert forall|t: NodeId| targets@.contains(t) implies !reaches(e, start, t) by {
            if reaches(e, start, t) {
                let p = choose|p: Seq<NodeId>| is_path(e, p) && p[0] == start && p.last() == t;
                assert(reached@.contains(p[0]));
                lemma_closed_holds_paths(e, reached@, p, p.len() - 1);
                let k = choose|k: int| 0 <= k < targets@.len() && targets@[k] == t;
            }
        }
    }
    false
}

/// The hardware loop a node returns from, if it is a hardware return.
pub open spec fn return_loop(kind: NodeKind) -> Option<Seq<char>> {
    match kind {
        NodeKind::Source { source: SourceKind::HardwareReturn { loop_id, .. } } => Some(loop_id@),
        _ => None,
    }
}

/// The hardware loop a node sends into, if it is a hardware send.
pub open spec fn send_loop(kind: NodeKind) -> Option<Seq<char>> {
    match kind {
        NodeKind::Sink { sink: SinkKind::HardwareSend { loop_id, .. } } => Some(loop_id@),
        _ => None,
    }
}

/// Whether a hardware return feeds, along the edges, a send of its own
/// hardware loop.
pub open spec fn hardware_loop_closed(nodes: Seq<Node>, edges: Seq<Edge>) -> bool {
    exists|i: int, k: int| 0 <= i < nodes.len() && 0 <= k < nodes.len() && return_loop(nodes[i].kind) is Some
        && send_loop(nodes[k].kind) == return_loop(nodes[i].kind) && reaches(edges, nodes[i].id, nodes[k].id)
}

fn return_loop_exec(kind: &NodeKind) -> (r: Option<&String>)
    ensures
        match r {
            Some(l) => return_loop(*kind) == Some(l@),
            None => return_loop(*kind) is None,
        },
{
    match kind {
        NodeKind::Source { source: SourceKind::HardwareReturn { loop_id, .. } } => Some(loop_id),
        _ => None,
    }
}

fn send_loop_exec(kind: &NodeKind) -> (r: Option<&String>)
    ensures
        match r {
            Some(l) => send_loop(*kind) == Some(l@),
            None => send_loop(*kind) is None,
        },
{
    match kind {
        NodeKind::Sink { sink: SinkKind::HardwareSend { loop_id, .. } } => Some(loop_id),
        _ => None,
    }
}

/// The ids of the sends of hardware loop `l` among the first `k` nodes.
pub open spec fn send_ids(nodes: Seq<Node>, l: Seq<char>, k: int) -> Seq<NodeId>
    decreases k,
{
    if k <= 0 {
        Seq::empty()
    } else if send_loop(nodes[k - 1].kind) == Some(l) {
        send_ids(nodes, l, k - 1).push(nodes[k - 1].id)
    } else {
        send_ids(nodes, l, k - 1)
    }
}

proof fn lemma_send_ids(nodes: Seq<Node>, l: Seq<char>, k: int, t: NodeId)
    requires
        0 <= k <= nodes.len(),
    ensures
        send_ids(nodes, l, k).contains(t) <==> exists|m: int| 0 <= m < k && nodes[m].id == t
            && send_loop(nodes[m].kind) == Some(l),
    decreases k,
{
    if k > 0 {
        lemma_send_ids(nodes, l, k - 1, t);
        let rest = send_ids(nodes, l, k - 1);
        if send_loop(nodes[k - 1].kind) == Some(l) {
            let out = rest.push(nodes[k - 1].id);
            if out.contains(t) && !rest.contains(t) {
                let i = choose|i: int| 0 <= i < out.len() && out[i] == t;
                if i < rest.len() {
                    assert(rest[i] == t);
                }
            }
            if rest.contains(t) {
                let i = choose|i: int| 0 <= i < rest.len() && rest[i] == t;
                assert(out[i] == t);
            }
            if t == nodes[k - 1].id {
                assert(out[rest.len() as int] == t);
            }
        }
    }
}

/// The ids of the sends of hardware loop `looped`.
fn sends_of(nodes: &Vec<Node>, looped: &String) -> (r: Vec<NodeId>)
    ensures
        forall|t: NodeId| r@.contains(t) <==> exists|k: int| 0 <= k < nodes@.len() && nodes@[k].id == t
            && send_loop(nodes@[k].kind) == Some(looped@),
{
    let mut out: Vec<NodeId> = Vec::new();
    let mut k: usize = 0;
    while k < nodes.len()
        invariant
            k <= nodes@.len(),
            out@ == send_ids(nodes@, looped@, k as int),
        decreases nodes@.len() - k,
    {
        let hit = match send_loop_exec(&nodes[k].kind) {
            Some(l) => *l == *looped,
            None => false,
        };
        if hit {
            out.push(nodes[k].id);
        }
        k += 1;
    }
    proof {
        assert forall|t: NodeId| out@.contains(t) <==> exists|k: int| 0 <= k < nodes@.len() && nodes@[k].id == t
            && send_loop(nodes@[k].kind) == Some(looped@) by {
            lemma_send_ids(nodes@, looped@, nodes@.len() as int, t);
        }
    }
    out
}

/// Checks that no hardware return feeds a send of its own loop, which
/// would close a loop through the outside gear.
pub fn validate_hardware_cycles(nodes: &Vec<Node>, edges: &Vec<Edge>) -> (r: Result<(), GraphError>)
    ensures
        failure(r) == if hardware_loop_closed(nodes@, edges@) {
            Some("hardware return feeds its own send"@)
        } else {
            None
        },
{
    let mut i: usize = 0;
    while i < nodes.len()
        invariant
            i <= nodes@.len(),
            forall|a: int, k: int| 0 <= a < i && 0 <= k < nodes@.len() && return_loop(nodes@[a].kind) is Some
                && send_loop(nodes@[k].kind) == return_loop(nodes@[a].kind) ==> !reaches(edges@, nodes@[a].id, nodes@[k].id),
        decreases nodes@.len() - i,
    {
        if let Some(looped) = return_loop_exec(&nodes[i].kind) {
            let sends = sends_of(nodes, looped);
            if reaches_any(nodes[i].id, &sends, edges) {
                proof {
                    let t = choose|t: NodeId| sends@.contains(t) && reaches(edges@, nodes@[i as int].id, t);
                    let k = choose|k: int| 0 <= k < nodes@.len() && nodes@[k].id == t && send_loop(nodes@[k].kind) == Some(looped@);
                    assert(hardware_loop_closed(nodes@, edges@));
                }
                return Err(GraphError::new("hardware return feeds its own send"));
            }
            proof {
                assert forall|k: int| 0 <= k < nodes@.len() && send_loop(nodes@[k].kind) == return_loop(nodes@[i as int].kind)
                    implies !reaches(edges@, nodes@[i as int].id, nodes@[k].id) by {
                    assert(sends@.contains(nodes@[k].id));
                }
            }
        }
        i += 1;
    }
    Ok(())
}

// ---------------------------------------------------------------------------
// Graphs without a cycle
// ---------------------------------------------------------------------------

proof fn lemma_edges_clean(nodes: Seq<Node>, edges: Seq<Edge>, i: int)
    requires
        0 <= i,
        edges_error(nodes, edges, i) is None,
    ensures
        forall|j: int| i <= j < edges.len() ==> edge_error(nodes, edges, j) is None,
    decreases edges.len() - i,
{
    if i < edges.len() {
        lemma_edges_clean(nodes, edges, i + 1);
    }
}

/// Whether some node has `id`.
pub open spec fn has_node(nodes: Seq<Node>, id: NodeId) -> bool {
    exists|k: int| 0 <= k < nodes.len() && (#[trigger] nodes[k]).id == id
}

/// Edges numbered 1, 2, ... in order, none a loop and no two joining the
/// same pair, between existing nodes of a graph whose nodes are all
/// stereo, have no error.
pub(crate) proof fn lemma_stereo_edges_clean(nodes: Seq<Node>, edges: Seq<Edge>, i: int)
    requires
        0 <= i,
        forall|k: int| 0 <= k < nodes.len() ==> (#[trigger] nodes[k]).layout == ChannelLayout::Stereo,
        forall|j: int| 0 <= j < edges.len() ==> (#[trigger] edges[j]).id == j + 1,
        forall|j: int| 0 <= j < edges.len() ==> (#[trigger] edges[j]).from != edges[j].to,
        forall|j: int, k: int| #![trigger edges[j], edges[k]] 0 <= j < k < edges.len()
            ==> edges[j].from != edges[k].from || edges[j].to != edges[k].to,
        forall|j: int| 0 <= j < edges.len() ==> has_node(nodes, (#[trigger] edges[j]).from) && has_node(nodes, edges[j].to),
    ensures
        edges_error(nodes, edges, i) is None,
    decreases edges.len() - i,
{
    if i < edges.len() {
        lemma_stereo_edges_clean(nodes, edges, i + 1);
        let e = edges[i];
        assert(!(exists|j: int| 0 <= j < i && edges[j].id == e.id));
        assert(!(exists|j: int| 0 <= j < i && edges[j].from == e.from && edges[j].to == e.to)) by {
            assert forall|j: int| 0 <= j < i implies !(edges[j].from == e.from && edges[j].to == e.to) by {
                assert(edges[j].from != edges[i].from || edges[j].to != edges[i].to);
            }
        }
        lemma_node_from(nodes, e.from, 0);
        lemma_node_from(nodes, e.to, 0);
        assert(has_node(nodes, e.from) && has_node(nodes, e.to));
        let kf = choose|k: int| 0 <= k < nodes.len() && (#[trigger] nodes[k]).id == e.from;
        let kt = choose|k: int| 0 <= k < nodes.len() && (#[trigger] nodes[k]).id == e.to;
        assert(nodes[kf].id == e.from);
        assert(nodes[kt].id == e.to);
        assert(node_at(nodes, e.from) is Some);
        assert(node_at(nodes, e.to) is Some);
        assert(nodes[node_at(nodes, e.from)->0].layout == ChannelLayout::Stereo);
        assert(nodes[node_at(nodes, e.to)->0].layout == ChannelLayout::Stereo);
        assert(edge_error(nodes, edges, i) is None);
    }
}

/// One edge leaves `id` when exactly one of `edges` has it as source.
pub(crate) proof fn lemma_out_degree_one(edges: Seq<Edge>, id: NodeId, j: int)
    requires
        0 <= j < edges.len(),
        edges[j].from == id,
        forall|k: int| 0 <= k < edges.len() && k != j ==> (#[trigger] edges[k]).from != id,
    ensures
        out_degree(edges, id) == 1,
    decreases edges.len(),
{
    let d = edges.drop_last();
    if j == edges.len() - 1 {
        lemma_out_degree_none(d, id);
    } else {
        assert forall|k: int| 0 <= k < d.len() && k != j implies (#[trigger] d[k]).from != id by {
            assert(d[k] == edges[k]);
        }
        lemma_out_degree_one(d, id, j);
    }
}

proof fn lemma_out_degree_none(edges: Seq<Edge>, id: NodeId)
    requires
        forall|k: int| 0 <= k < edges.len() ==> (#[trigger] edges[k]).from != id,
    ensures
        out_degree(edges, id) == 0,
    decreases edges.len(),
{
    if edges.len() > 0 {
        let d = edges.drop_last();
        assert forall|k: int| 0 <= k < d.len() implies (#[trigger] d[k]).from != id by {
            assert(d[k] == edges[k]);
        }
        lemma_out_degree_none(d, id);
    }
}

proof fn lemma_least_ready_least(nodes: Seq<Node>, edges: Seq<Edge>, placed: Seq<NodeId>, n: int)
    requires
        n <= nodes.len(),
    ensures
        least_ready(nodes, edges, placed, n) matches Some(id) ==> forall|i: int| 0 <= i < n && ready(edges, placed, nodes[i].id)
            ==> id <= #[trigger] nodes[i].id,
        (exists|i: int| 0 <= i < n && ready(edges, placed, #[trigger] nodes[i].id)) ==> least_ready(nodes, edges, placed, n) is Some,
    decreases n,
{
    if n > 0 {
        lemma_least_ready_least(nodes, edges, placed, n - 1);
    }
}

/// Some node not in `placed`, when fewer ids are placed than there are
/// nodes.
proof fn lemma_unplaced_exists(nodes: Seq<Node>, placed: Seq<NodeId>) -> (i: int)
    requires
        distinct_ids(nodes),
        no_repeats(placed),
        placed.len() < nodes.len(),
    ensures
        0 <= i < nodes.len(),
        !placed.contains(nodes[i].id),
{
    let ids = nodes.map_values(|n: Node| n.id);
    assert(ids.no_duplicates()) by {
        assert forall|a: int, b: int| 0 <= a < ids.len() && 0 <= b < ids.len() && a != b implies ids[a] != ids[b] by {
            if a < b { assert(nodes[a].id != nodes[b].id); } else { assert(nodes[b].id != nodes[a].id); }
        }
    }
    assert(placed.no_duplicates()) by {
        assert forall|a: int, b: int| 0 <= a < placed.len() && 0 <= b < placed.len() && a != b implies placed[a] != placed[b] by {
            if a < b { assert(placed[a] != placed[b]); } else { assert(placed[b] != placed[a]); }
        }
    }
    ids.unique_seq_to_set();
    placed.unique_seq_to_set();
    if forall|k: int| 0 <= k < nodes.len() ==> placed.contains(#[trigger] nodes[k].id) {
        assert(ids.to_set().subset_of(placed.to_set())) by {
            assert forall|x: NodeId| ids.to_set().contains(x) implies placed.to_set().contains(x) by {
                let k = choose|k: int| 0 <= k < ids.len() && ids[k] == x;
                assert(placed.contains(nodes[k].id));
            }
        }
        vstd::set_lib::lemma_len_subset(ids.to_set(), placed.to_set());
        assert(false);
    }
    choose|k: int| 0 <= k < nodes.len() && !placed.contains(#[trigger] nodes[k].id)
}

/// An unplaced node of least rank.
proof fn lemma_least_rank(nodes: Seq<Node>, placed: Seq<NodeId>, rank: spec_fn(NodeId) -> nat, i: int) -> (m: int)
    requires
        0 <= i < nodes.len(),
        !placed.contains(nodes[i].id),
    ensures
        0 <= m < nodes.len(),
        !placed.contains(nodes[m].id),
        forall|k: int| 0 <= k < nodes.len() && !placed.contains(#[trigger] nodes[k].id) ==> rank(nodes[m].id) <= rank(nodes[k].id),
    decreases rank(nodes[i].id),
{
    if exists|k: int| 0 <= k < nodes.len() && !placed.contains(#[trigger] nodes[k].id) && rank(nodes[k].id) < rank(nodes[i].id) {
        let k = choose|k: int| 0 <= k < nodes.len() && !placed.contains(#[trigger] nodes[k].id) && rank(nodes[k].id) < rank(nodes[i].id);
        lemma_least_rank(nodes, placed, rank, k)
    } else {
        i
    }
}

proof fn lemma_order_completes(nodes: Seq<Node>, edges: Seq<Edge>, rank: spec_fn(NodeId) -> nat, placed: Seq<NodeId>, steps: nat)
    requires
        distinct_ids(nodes),
        forall|j: int| 0 <= j < edges.len() ==> node_at(nodes, (#[trigger] edges[j]).from) is Some,
        forall|j: int| 0 <= j < edges.len() ==> rank((#[trigger] edges[j]).from) < rank(edges[j].to),
        no_repeats(placed),
        only_nodes(nodes, placed),
        placed.len() + steps == nodes.len(),
    ensures
        processing_order(nodes, edges, placed, steps).len() == nodes.len(),
    decreases steps,
{
    if steps > 0 {
        let i = lemma_unplaced_exists(nodes, placed);
        let m = lemma_least_rank(nodes, placed, rank, i);
        assert(ready(edges, placed, nodes[m].id)) by {
            assert forall|j: int| 0 <= j < edges.len() && (#[trigger] edges[j]).to == nodes[m].id implies placed.contains(edges[j].from) by {
                lemma_node_from(nodes, edges[j].from, 0);
                let k = node_at(nodes, edges[j].from)->0;
                if !placed.contains(edges[j].from) {
                    assert(rank(nodes[m].id) <= rank(nodes[k].id));
                }
            }
        }
        lemma_least_ready_least(nodes, edges, placed, nodes.len() as int);
        lemma_least_ready(nodes, edges, placed, nodes.len() as int);
        let id = least_ready(nodes, edges, placed, nodes.len() as int)->0;
        let next = placed.push(id);
        assert forall|a: int, b: int| 0 <= a < b < next.len() implies next[a] != next[b] by {
            if b == placed.len() {
                assert(next[a] == placed[a]);
            }
        }
        assert forall|k: int| 0 <= k < next.len() implies exists|x: int| 0 <= x < nodes.len() && nodes[x].id == #[trigger] next[k] by {
            if k < placed.len() {
                assert(next[k] == placed[k]);
            }
        }
        lemma_order_completes(nodes, edges, rank, next, (steps - 1) as nat);
    }
}

/// A graph without a cycle is ordered: where a rank rises along every
/// edge, valid edges give a processing order, and each node in it is the
/// least id that could go at its step.
pub proof fn lemma_acyclic_graph_is_ordered(nodes: Seq<Node>, edges: Seq<Edge>, rank: spec_fn(NodeId) -> nat)
    requires
        distinct_ids(nodes),
        edges_error(nodes, edges, 0) is None,
        aux_returns_mixed_once(nodes, edges),
        forall|j: int| 0 <= j < edges.len() ==> rank((#[trigger] edges[j]).from) < rank(edges[j].to),
    ensures
        spec_topological_order(nodes, edges) is Ok,
        forall|k: int| 0 <= k < nodes.len() ==> least_ready(nodes, edges, spec_topological_order(nodes, edges)->Ok_0.take(k),
            nodes.len() as int) == Some(#[trigger] spec_topological_order(nodes, edges)->Ok_0[k]),
{
    lemma_edges_clean(nodes, edges, 0);
    assert forall|j: int| 0 <= j < edges.len() implies node_at(nodes, (#[trigger] edges[j]).from) is Some by {
        assert(edge_error(nodes, edges, j) is None);
    }
    lemma_order_completes(nodes, edges, rank, Seq::empty(), nodes.len() as nat);
    lemma_order_steps(nodes, edges, Seq::empty(), nodes.len() as nat);
}

/// Each id a processing order adds is the least that could go next.
proof fn lemma_order_steps(nodes: Seq<Node>, edges: Seq<Edge>, placed: Seq<NodeId>, steps: nat)
    ensures
        processing_order(nodes, edges, placed, steps).len() >= placed.len(),
        processing_order(nodes, edges, placed, steps).take(placed.len() as int) == placed,
        forall|k: int| placed.len() <= k < processing_order(nodes, edges, placed, steps).len() ==> least_ready(nodes, edges,
            processing_order(nodes, edges, placed, steps).take(k), nodes.len() as int)
            == Some(#[trigger] processing_order(nodes, edges, placed, steps)[k]),
    decreases steps,
{
    if steps > 0 {
        match least_ready(nodes, edges, placed, nodes.len() as int) {
            None => {
                assert(placed.take(placed.len() as int) =~= placed);
            },
            Some(id) => {
                let next = placed.push(id);
                lemma_order_steps(nodes, edges, next, (steps - 1) as nat);
                let o = processing_order(nodes, edges, next, (steps - 1) as nat);
                assert(o.take(placed.len() as int) =~= placed) by {
                    assert(o.take(next.len() as int).take(placed.len() as int) =~= o.take(placed.len() as int));
                    assert(next.take(placed.len() as int) =~= placed);
                }
                assert(o[placed.len() as int] == id) by {
                    assert(o.take(next.len() as int)[placed.len() as int] == next[placed.len() as int]);
                }
            },
        }
    } else {
        assert(placed.take(placed.len() as int) =~= placed);
    }
}

} // verus!
