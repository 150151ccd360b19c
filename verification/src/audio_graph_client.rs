//! Changing the JACK connections at the audio graph's boundary as one
//! transaction: changes are applied in order, and a failed change rolls back
//! every change that took effect, newest first.
use vstd::prelude::*;
use crate::text::{opt_view, owned, push_str};
use crate::audio_graph::{distinct_ids, has_node, lemma_acyclic_graph_is_ordered, lemma_out_degree_one, lemma_stereo_edges_clean,
    out_degree, spec_topological_order, AuxId, ChannelLayout, Edge, EffectId, Node, NodeId, NodeKind, SendPoint, SinkKind, SourceKind, StereoPorts};

verus! {

/// One JACK connection, from an output port to an input port.
#[derive(Clone, Debug, PartialEq, Eq)]
pub struct Connection {
    pub source: String,
    pub destination: String,
}

#[derive(Clone, Copy, Debug, PartialEq, Eq, Structural)]
pub enum ChangeKind {
    Connect,
    Disconnect,
}

/// A connection to make or to remove.
#[derive(Clone, Debug, PartialEq, Eq)]
pub struct BoundaryChange {
    pub kind: ChangeKind,
    pub connection: Connection,
}

/// A connection as mathematical values: `(source, destination)`.
pub type ConnectionModel = (Seq<char>, Seq<char>);

/// A change as mathematical values.
pub struct ChangeModel {
    pub kind: ChangeKind,
    pub connection: ConnectionModel,
}

impl View for Connection {
    type V = ConnectionModel;

    open spec fn view(&self) -> ConnectionModel {
        (self.source@, self.destination@)
    }
}

impl View for BoundaryChange {
    type V = ChangeModel;

    open spec fn view(&self) -> ChangeModel {
        ChangeModel { kind: self.kind, connection: self.connection@ }
    }
}

pub open spec fn changes_view(v: Seq<BoundaryChange>) -> Seq<ChangeModel> {
    Seq::new(v.len(), |i: int| v[i]@)
}

pub open spec fn connections_view(v: Seq<Connection>) -> Seq<ConnectionModel> {
    Seq::new(v.len(), |i: int| v[i]@)
}

/// A copy of a connection.
pub fn copy_connection(c: &Connection) -> (r: Connection)
    ensures
        r@ == c@,
{
    Connection { source: c.source.clone(), destination: c.destination.clone() }
}

fn copy_change(c: &BoundaryChange) -> (r: BoundaryChange)
    ensures
        r@ == c@,
{
    BoundaryChange { kind: c.kind, connection: copy_connection(&c.connection) }
}

/// A connection made from two port names.
pub fn connection(source: &str, destination: &str) -> (r: Connection)
    ensures
        r@ == (source@, destination@),
{
    Connection { source: owned(source), destination: owned(destination) }
}

/// The connections that route the sources straight to their outputs, and
/// the connections that route them through the graph instead.
pub struct BoundaryRoutes {
    pub direct: Vec<Connection>,
    pub graph: Vec<Connection>,
}

pub open spec fn all_of(cs: Seq<ConnectionModel>, kind: ChangeKind) -> Seq<ChangeModel> {
    Seq::new(cs.len(), |i: int| ChangeModel { kind, connection: cs[i] })
}

fn changes_of(cs: &Vec<Connection>, kind: ChangeKind, out: &mut Vec<BoundaryChange>)
    ensures
        changes_view(final(out)@) == changes_view(old(out)@) + all_of(connections_view(cs@), kind),
{
    let ghost start = changes_view(out@);
    let mut i: usize = 0;
    while i < cs.len()
        invariant
            i <= cs.len(),
            changes_view(out@) == start + all_of(connections_view(cs@), kind).take(i as int),
        decreases cs.len() - i,
    {
        let ch = BoundaryChange { kind, connection: copy_connection(&cs[i]) };
        assert(ch@ == all_of(connections_view(cs@), kind)[i as int]);
        let ghost before = out@;
        out.push(ch);
        assert(changes_view(out@) =~= changes_view(before).push(ch@));
        assert(all_of(connections_view(cs@), kind).take(i + 1) =~= all_of(connections_view(cs@), kind).take(i as int).push(ch@));
        assert(changes_view(out@) =~= start + all_of(connections_view(cs@), kind).take(i + 1));
        i += 1;
    }
    assert(all_of(connections_view(cs@), kind).take(cs.len() as int) =~= all_of(connections_view(cs@), kind));
}

impl BoundaryRoutes {
    /// Connecting every direct route.
    pub fn direct_connection_changes(&self) -> (r: Vec<BoundaryChange>)
        ensures
            changes_view(r@) == all_of(connections_view(self.direct@), ChangeKind::Connect),
    {
        let mut out: Vec<BoundaryChange> = Vec::new();
        assert(changes_view(out@) =~= Seq::<ChangeModel>::empty());
        changes_of(&self.direct, ChangeKind::Connect, &mut out);
        assert(Seq::<ChangeModel>::empty() + all_of(connections_view(self.direct@), ChangeKind::Connect)
            =~= all_of(connections_view(self.direct@), ChangeKind::Connect));
        out
    }

    /// Activating the graph: connecting every graph route, then removing
    /// every direct route.
    pub fn activation_changes(&self) -> (r: Vec<BoundaryChange>)
        ensures
            changes_view(r@) == all_of(connections_view(self.graph@), ChangeKind::Connect) + all_of(
                connections_view(self.direct@),
                ChangeKind::Disconnect,
            ),
    {
        let mut out: Vec<BoundaryChange> = Vec::new();
        assert(changes_view(out@) =~= Seq::<ChangeModel>::empty());
        changes_of(&self.graph, ChangeKind::Connect, &mut out);
        assert(Seq::<ChangeModel>::empty() + all_of(connections_view(self.graph@), ChangeKind::Connect)
            =~= all_of(connections_view(self.graph@), ChangeKind::Connect));
        changes_of(&self.direct, ChangeKind::Disconnect, &mut out);
        out
    }
}

} // verus!

verus! {

// ---------------------------------------------------------------------------
// The transaction
// ---------------------------------------------------------------------------

/// What the transaction asks its owner to do next.
#[derive(Debug)]
pub enum Request {
    /// Make this change and report whether it changed the connections.
    Operate(BoundaryChange),
    /// The transaction is over, with this result.
    Finished(Result<(), String>),
}

pub enum RequestModel {
    Operate(ChangeModel),
    Finished(Result<(), Seq<char>>),
}

pub open spec fn request_view(r: Request) -> RequestModel {
    match r {
        Request::Operate(c) => RequestModel::Operate(c@),
        Request::Finished(Ok(())) => RequestModel::Finished(Ok(())),
        Request::Finished(Err(e)) => RequestModel::Finished(Err(e@)),
    }
}

pub open spec fn outcome_view(o: Result<bool, String>) -> Result<bool, Seq<char>> {
    match o {
        Ok(b) => Ok(b),
        Err(e) => Err(e@),
    }
}

/// A transaction as mathematical values: the changes, the next one to
/// make, those that took effect, the failure that started the rollback,
/// how many effective changes remain to undo, and the first rollback error.
pub struct TxModel {
    pub changes: Seq<ChangeModel>,
    pub next: nat,
    pub applied: Seq<ChangeModel>,
    pub failure: Option<Seq<char>>,
    pub undo: nat,
    pub rollback_error: Option<Seq<char>>,
}

/// The change that undoes `c`.
pub open spec fn inverse(c: ChangeModel) -> ChangeModel {
    ChangeModel {
        kind: match c.kind {
            ChangeKind::Connect => ChangeKind::Disconnect,
            ChangeKind::Disconnect => ChangeKind::Connect,
        },
        connection: c.connection,
    }
}

/// The error a failed transaction reports.
pub open spec fn failure_message(error: Seq<char>, rollback_error: Option<Seq<char>>) -> Seq<char> {
    match rollback_error {
        None => "audio boundary change rolled back: "@ + error,
        Some(r) => "audio boundary change failed: "@ + error + "; rollback failed: "@ + r,
    }
}

pub open spec fn tx_start(changes: Seq<ChangeModel>) -> TxModel {
    TxModel { changes, next: 0, applied: Seq::empty(), failure: None, undo: 0, rollback_error: None }
}

pub open spec fn tx_wf(m: TxModel) -> bool {
    m.next <= m.changes.len() && m.undo <= m.applied.len()
}

/// The transaction's next request.
pub open spec fn spec_request(m: TxModel) -> RequestModel {
    match m.failure {
        None => if m.next < m.changes.len() {
            RequestModel::Operate(m.changes[m.next as int])
        } else {
            RequestModel::Finished(Ok(()))
        },
        Some(e) => if m.undo > 0 {
            RequestModel::Operate(inverse(m.applied[m.undo - 1]))
        } else {
            RequestModel::Finished(Err(failure_message(e, m.rollback_error)))
        },
    }
}

/// The transaction after the owner reports how its request went.
pub open spec fn spec_report(m: TxModel, outcome: Result<bool, Seq<char>>) -> TxModel {
    match m.failure {
        None => if m.next < m.changes.len() {
            match outcome {
                Ok(true) => TxModel { applied: m.applied.push(m.changes[m.next as int]), next: m.next + 1, ..m },
                Ok(false) => TxModel { next: m.next + 1, ..m },
                Err(e) => TxModel { failure: Some(e), undo: m.applied.len(), ..m },
            }
        } else {
            m
        },
        Some(_) => if m.undo > 0 {
            TxModel {
                undo: (m.undo - 1) as nat,
                rollback_error: match (m.rollback_error, outcome) {
                    (None, Err(r)) => Some(r),
                    _ => m.rollback_error,
                },
                ..m
            }
        } else {
            m
        },
    }
}

/// A transaction over boundary changes.
pub struct Transaction {
    changes: Vec<BoundaryChange>,
    next: usize,
    applied: Vec<BoundaryChange>,
    failure: Option<String>,
    undo: usize,
    rollback_error: Option<String>,
}

impl View for Transaction {
    type V = TxModel;

    closed spec fn view(&self) -> TxModel {
        TxModel {
            changes: changes_view(self.changes@),
            next: self.next as nat,
            applied: changes_view(self.applied@),
            failure: opt_view(self.failure),
            undo: self.undo as nat,
            rollback_error: opt_view(self.rollback_error),
        }
    }
}

impl Transaction {
    pub closed spec fn wf(&self) -> bool {
        &&& tx_wf(self@)
        &&& self.next <= self.changes@.len()
        &&& self.undo <= self.applied@.len()
    }

    /// A transaction that will make `changes` in order.
    pub fn new(changes: Vec<BoundaryChange>) -> (r: Self)
        ensures
            r.wf(),
            r@ == tx_start(changes_view(changes@)),
    {
        let t = Transaction { changes, next: 0, applied: Vec::new(), failure: None, undo: 0, rollback_error: None };
        assert(changes_view(t.applied@) =~= Seq::<ChangeModel>::empty());
        t
    }

    /// What the owner should do next.
    pub fn next_request(&self) -> (r: Request)
        requires
            self.wf(),
        ensures
            request_view(r) == spec_request(self@),
    {
        match &self.failure {
            None => {
                if self.next < self.changes.len() {
                    Request::Operate(copy_change(&self.changes[self.next]))
                } else {
                    Request::Finished(Ok(()))
                }
            },
            Some(error) => {
                if self.undo > 0 {
                    let last = &self.applied[self.undo - 1];
                    let kind = match last.kind {
                        ChangeKind::Connect => ChangeKind::Disconnect,
                        ChangeKind::Disconnect => ChangeKind::Connect,
                    };
                    Request::Operate(BoundaryChange { kind, connection: copy_connection(&last.connection) })
                } else {
                    let message = match &self.rollback_error {
                        None => {
                            let mut m = owned("audio boundary change rolled back: ");
                            push_str(&mut m, error.as_str());
                            m
                        },
                        Some(rollback) => {
                            let mut m = owned("audio boundary change failed: ");
                            push_str(&mut m, error.as_str());
                            push_str(&mut m, "; rollback failed: ");
                            push_str(&mut m, rollback.as_str());
                            m
                        },
                    };
                    Request::Finished(Err(message))
                }
            },
        }
    }

    /// Records how the last request went: whether the change took effect,
    /// or the error it failed with.
    pub fn report(&mut self, outcome: Result<bool, String>)
        requires
            old(self).wf(),
        ensures
            final(self).wf(),
            final(self)@ == spec_report(old(self)@, outcome_view(outcome)),
    {
        if self.failure.is_none() {
            if self.next < self.changes.len() {
                match outcome {
                    Ok(true) => {
                        let ghost before = self.applied@;
                        let change = copy_change(&self.changes[self.next]);
                        self.applied.push(change);
                        assert(changes_view(self.applied@) =~= changes_view(before).push(change@));
                        self.next = self.next + 1;
                    },
                    Ok(false) => {
                        self.next = self.next + 1;
                    },
                    Err(e) => {
                        self.failure = Some(e);
                        self.undo = self.applied.len();
                    },
                }
            }
        } else if self.undo > 0 {
            self.undo = self.undo - 1;
            if self.rollback_error.is_none() {
                match outcome {
                    Err(r) => {
                        self.rollback_error = Some(r);
                    },
                    Ok(_) => {},
                }
            }
        }
    }
}

} // verus!

verus! {

// ---------------------------------------------------------------------------
// Running against a set of connections
// ---------------------------------------------------------------------------

/// A change made to a set of connections, and whether it changed the set.
pub open spec fn apply_set(s: Set<ConnectionModel>, c: ChangeModel) -> (Set<ConnectionModel>, bool) {
    match c.kind {
        ChangeKind::Connect => (s.insert(c.connection), !s.contains(c.connection)),
        ChangeKind::Disconnect => (s.remove(c.connection), s.contains(c.connection)),
    }
}

/// The set after making all `changes` in order.
pub open spec fn apply_all(s: Set<ConnectionModel>, changes: Seq<ChangeModel>) -> Set<ConnectionModel>
    decreases changes.len(),
{
    if changes.len() == 0 {
        s
    } else {
        apply_set(apply_all(s, changes.drop_last()), changes.last()).0
    }
}

/// The set before `applied` was made, undoing the newest first.
pub open spec fn undo_all(s: Set<ConnectionModel>, applied: Seq<ChangeModel>) -> Set<ConnectionModel>
    decreases applied.len(),
{
    if applied.len() == 0 {
        s
    } else {
        undo_all(apply_set(s, inverse(applied.last())).0, applied.drop_last())
    }
}

/// Running a transaction for at most `steps` requests against connections
/// that behave as a set, except that operation number `fail_at` (counting
/// from one; 0 for none) fails without changing anything.
pub open spec fn drive(m: TxModel, s: Set<ConnectionModel>, done: nat, fail_at: nat, steps: nat) -> (TxModel, Set<ConnectionModel>)
    decreases steps,
{
    if steps == 0 {
        (m, s)
    } else {
        match spec_request(m) {
            RequestModel::Finished(_) => (m, s),
            RequestModel::Operate(c) => if done + 1 == fail_at {
                drive(spec_report(m, Err("injected connection failure"@)), s, done + 1, fail_at, (steps - 1) as nat)
            } else {
                drive(spec_report(m, Ok(apply_set(s, c).1)), apply_set(s, c).0, done + 1, fail_at, (steps - 1) as nat)
            },
        }
    }
}

/// Requests still needed to finish.
pub open spec fn pending(m: TxModel) -> nat {
    if m.failure is None {
        (2 * (m.changes.len() - m.next) + m.applied.len() + 1) as nat
    } else {
        m.undo
    }
}

proof fn lemma_effective_change_undone(s: Set<ConnectionModel>, c: ChangeModel)
    ensures
        apply_set(s, c).1 ==> apply_set(apply_set(s, c).0, inverse(c)).0 == s,
        !apply_set(s, c).1 ==> apply_set(s, c).0 == s,
{
    match c.kind {
        ChangeKind::Connect => {
            assert(apply_set(s, c).1 ==> s.insert(c.connection).remove(c.connection) =~= s);
            assert(!apply_set(s, c).1 ==> s.insert(c.connection) =~= s);
        },
        ChangeKind::Disconnect => {
            assert(apply_set(s, c).1 ==> s.remove(c.connection).insert(c.connection) =~= s);
            assert(!apply_set(s, c).1 ==> s.remove(c.connection) =~= s);
        },
    }
}

proof fn lemma_drive_failing(changes: Seq<ChangeModel>, m: TxModel, s: Set<ConnectionModel>, done: nat, fail_at: nat, steps: nat, s0: Set<ConnectionModel>)
    requires
        1 <= fail_at <= changes.len(),
        m.changes == changes,
        tx_wf(m),
        steps > pending(m),
        m.failure is None ==> m.next == done && done < fail_at && m.undo == 0 && m.rollback_error is None && undo_all(s, m.applied) == s0,
        m.failure is Some ==> done >= fail_at && undo_all(s, m.applied.take(m.undo as int)) == s0,
    ensures
        spec_request(drive(m, s, done, fail_at, steps).0) is Finished,
        spec_request(drive(m, s, done, fail_at, steps).0)->Finished_0 is Err,
        drive(m, s, done, fail_at, steps).1 == s0,
    decreases steps,
{
    match m.failure {
        None => {
            let c = m.changes[m.next as int];
            if done + 1 == fail_at {
                let m2 = spec_report(m, Err("injected connection failure"@));
                assert(m.applied.take(m.applied.len() as int) =~= m.applied);
                lemma_drive_failing(changes, m2, s, done + 1, fail_at, (steps - 1) as nat, s0);
            } else {
                let (s2, changed) = apply_set(s, c);
                let m2 = spec_report(m, Ok(changed));
                lemma_effective_change_undone(s, c);
                if changed {
                    assert(m2.applied.drop_last() =~= m.applied);
                }
                lemma_drive_failing(changes, m2, s2, done + 1, fail_at, (steps - 1) as nat, s0);
            }
        },
        Some(e) => {
            if m.undo == 0 {
                assert(m.applied.take(0) =~= Seq::<ChangeModel>::empty());
            } else {
                let a = m.applied[m.undo - 1];
                let c = inverse(a);
                let (s2, changed) = apply_set(s, c);
                let m2 = spec_report(m, Ok(changed));
                assert(m.applied.take(m.undo as int).drop_last() =~= m.applied.take(m.undo - 1));
                assert(m.applied.take(m.undo as int).last() == a);
                lemma_drive_failing(changes, m2, s2, done + 1, fail_at, (steps - 1) as nat, s0);
            }
        },
    }
}

/// A transaction whose change number `fail_at` fails leaves the connections
/// exactly as they were, and reports an error.
pub proof fn lemma_failed_transaction_restores(changes: Seq<ChangeModel>, s0: Set<ConnectionModel>, fail_at: nat)
    requires
        1 <= fail_at <= changes.len(),
    ensures
        spec_request(drive(tx_start(changes), s0, 0, fail_at, 3 * changes.len() + 2).0) is Finished,
        spec_request(drive(tx_start(changes), s0, 0, fail_at, 3 * changes.len() + 2).0)->Finished_0 is Err,
        drive(tx_start(changes), s0, 0, fail_at, 3 * changes.len() + 2).1 == s0,
{
    lemma_drive_failing(changes, tx_start(changes), s0, 0, fail_at, 3 * changes.len() + 2, s0);
}

proof fn lemma_drive_succeeding(changes: Seq<ChangeModel>, m: TxModel, s: Set<ConnectionModel>, done: nat, steps: nat, s0: Set<ConnectionModel>)
    requires
        m.changes == changes,
        tx_wf(m),
        m.failure is None,
        m.next == done,
        steps > pending(m),
        s == apply_all(s0, changes.take(m.next as int)),
    ensures
        spec_request(drive(m, s, done, 0, steps).0) == RequestModel::Finished(Ok(())),
        drive(m, s, done, 0, steps).1 == apply_all(s0, changes),
    decreases steps,
{
    if m.next < changes.len() {
        let c = changes[m.next as int];
        let (s2, changed) = apply_set(s, c);
        let m2 = spec_report(m, Ok(changed));
        assert(changes.take(m.next as int + 1).drop_last() =~= changes.take(m.next as int));
        lemma_drive_succeeding(changes, m2, s2, done + 1, (steps - 1) as nat, s0);
    } else {
        assert(changes.take(m.next as int) =~= changes);
    }
}

/// A transaction whose changes all succeed reports success and leaves the
/// connections as the changes made them.
pub proof fn lemma_successful_transaction_applies(changes: Seq<ChangeModel>, s0: Set<ConnectionModel>)
    ensures
        spec_request(drive(tx_start(changes), s0, 0, 0, 3 * changes.len() + 2).0) == RequestModel::Finished(Ok(())),
        drive(tx_start(changes), s0, 0, 0, 3 * changes.len() + 2).1 == apply_all(s0, changes),
{
    assert(changes.take(0) =~= Seq::<ChangeModel>::empty());
    lemma_drive_succeeding(changes, tx_start(changes), s0, 0, 3 * changes.len() + 2, s0);
}

} // verus!

verus! {

/// Checks a stereo pair of JACK ports at the graph boundary: both named,
/// and not the same port.
pub fn validate_stereo_boundary(ports: &[String; 2], description: &str) -> (r: Result<(), String>)
    ensures
        match r {
            Ok(()) => crate::text::trim(ports[0]@).len() > 0 && crate::text::trim(ports[1]@).len() > 0 && ports[0]@
                != ports[1]@,
            Err(e) => if crate::text::trim(ports[0]@).len() == 0 || crate::text::trim(ports[1]@).len() == 0 {
                e@ == description@ + " contains an empty JACK port name"@
            } else {
                ports[0]@ == ports[1]@ && e@ == description@ + " JACK ports are ambiguous"@
            },
        },
{
    let left = crate::text::trim_chars(&crate::text::chars_of(ports[0].as_str()));
    let right = crate::text::trim_chars(&crate::text::chars_of(ports[1].as_str()));
    if left.len() == 0 || right.len() == 0 {
        let mut e = owned(description);
        push_str(&mut e, " contains an empty JACK port name");
        return Err(e);
    }
    let a = crate::text::chars_of(ports[0].as_str());
    let b = crate::text::chars_of(ports[1].as_str());
    if crate::text::chars_eq(&a, &b) {
        let mut e = owned(description);
        push_str(&mut e, " JACK ports are ambiguous");
        return Err(e);
    }
    Ok(())
}

// ---------------------------------------------------------------------------
// The managed three-source graph
// ---------------------------------------------------------------------------

/// The managed engine's source node.
pub const SOURCE_NODE: u32 = 1;
/// The loop player's source node.
pub const LOOP_SOURCE_NODE: u32 = 2;
/// The live input's source node.
pub const INPUT_SOURCE_NODE: u32 = 3;
/// The first insert effect node; the rack's effects follow in order.
pub const FIRST_EFFECT_NODE: u32 = 10;
/// The send tap of the first aux bus; the others follow.
pub const FIRST_SEND_NODE: u32 = 30;
/// The first aux effect node; all buses' effects follow in order.
pub const FIRST_AUX_EFFECT_NODE: u32 = 40;
/// The return of the first aux bus; the others follow.
pub const FIRST_AUX_RETURN_NODE: u32 = 70;
/// The first master effect node; the master chain follows in order.
pub const FIRST_MASTER_EFFECT_NODE: u32 = 80;
/// The mixer that sums the three sources and the aux returns.
pub const MASTER_NODE: u32 = 90;
/// The main playback sink.
pub const SINK_NODE: u32 = 100;

/// One aux bus of the project: its id, its effects in order, and where the
/// managed engine sends into it, if it does.
pub struct AuxPlan {
    pub id: AuxId,
    pub order: Vec<EffectId>,
    pub send: Option<SendPoint>,
}

/// A stereo node.
pub open spec fn stereo(id: NodeId, kind: NodeKind) -> Node {
    Node { id, layout: ChannelLayout::Stereo, kind }
}

/// Processor nodes for `order`, numbered from `first`.
pub open spec fn processors(first: int, order: Seq<EffectId>) -> Seq<Node> {
    Seq::new(order.len(), |i: int| stereo((first + i) as u32, NodeKind::Processor { effect_id: order[i] }))
}

/// The links of a chain of `n` nodes numbered from `first`, fed by `start`.
pub open spec fn chain_links(start: NodeId, first: int, n: int) -> Seq<(NodeId, NodeId)> {
    Seq::new(n as nat, |i: int| (if i == 0 { start } else { (first + i - 1) as u32 }, (first + i) as u32))
}

/// The last node of such a chain: `start` when it is empty.
pub open spec fn chain_end(start: NodeId, first: int, n: int) -> NodeId {
    if n <= 0 { start } else { (first + n - 1) as u32 }
}

/// Edges numbered from 1 along `links`.
pub open spec fn edges_of(links: Seq<(NodeId, NodeId)>) -> Seq<Edge> {
    Seq::new(links.len(), |i: int| Edge { id: (i + 1) as u32, from: links[i].0, to: links[i].1 })
}

/// The aux effect nodes before bus `b`.
pub open spec fn aux_offset(aux: Seq<AuxPlan>, b: int) -> int
    decreases b,
{
    if b <= 0 { 0 } else { aux_offset(aux, b - 1) + aux[b - 1].order@.len() }
}

/// The node that feeds the aux effects of a bus: its send tap, if any.
pub open spec fn send_node(b: int, plan: AuxPlan) -> Option<NodeId> {
    if plan.send is Some { Some((FIRST_SEND_NODE + b) as u32) } else { None }
}

/// The node the send of a bus taps.
pub open spec fn send_from(point: SendPoint, last_insert: NodeId) -> NodeId {
    match point {
        SendPoint::PreInsert => SOURCE_NODE,
        SendPoint::PostInsert => last_insert,
    }
}

/// The nodes of bus `b`: its send tap, its effects, its return.
pub open spec fn bus_nodes(aux: Seq<AuxPlan>, b: int) -> Seq<Node> {
    let plan = aux[b];
    (if plan.send is Some { seq![stereo((FIRST_SEND_NODE + b) as u32, NodeKind::SendTap { aux_id: plan.id })] } else { Seq::empty() })
        + processors(FIRST_AUX_EFFECT_NODE + aux_offset(aux, b), plan.order@)
        + seq![stereo((FIRST_AUX_RETURN_NODE + b) as u32, NodeKind::AuxReturn { aux_id: plan.id })]
}

/// The last node before the return of bus `b`, if any.
pub open spec fn bus_end(aux: Seq<AuxPlan>, b: int) -> Option<NodeId> {
    let n = aux[b].order@.len();
    if n > 0 { Some((FIRST_AUX_EFFECT_NODE + aux_offset(aux, b) + n - 1) as u32) } else { send_node(b, aux[b]) }
}

/// The links of bus `b`, after inserts ending at `last_insert`.
pub open spec fn bus_links(aux: Seq<AuxPlan>, b: int, last_insert: NodeId) -> Seq<(NodeId, NodeId)> {
    let plan = aux[b];
    let first = FIRST_AUX_EFFECT_NODE + aux_offset(aux, b);
    let n = plan.order@.len() as int;
    let ret = (FIRST_AUX_RETURN_NODE + b) as u32;
    (match plan.send { Some(p) => seq![(send_from(p, last_insert), (FIRST_SEND_NODE + b) as u32)], None => Seq::empty() })
        + (match send_node(b, plan) {
            Some(s) => chain_links(s, first, n),
            None => if n == 0 { Seq::empty() } else { chain_links((first) as u32, first + 1, n - 1) },
        })
        + (match bus_end(aux, b) { Some(e) => seq![(e, ret)], None => Seq::empty() })
        + seq![(ret, MASTER_NODE)]
}

/// The nodes of the first `b` buses.
pub open spec fn buses_nodes(aux: Seq<AuxPlan>, b: int) -> Seq<Node>
    decreases b,
{
    if b <= 0 { Seq::empty() } else { buses_nodes(aux, b - 1) + bus_nodes(aux, b - 1) }
}

/// The links of the first `b` buses.
pub open spec fn buses_links(aux: Seq<AuxPlan>, b: int, last_insert: NodeId) -> Seq<(NodeId, NodeId)>
    decreases b,
{
    if b <= 0 { Seq::empty() } else { buses_links(aux, b - 1, last_insert) + bus_links(aux, b - 1, last_insert) }
}

/// The three sources of the final bus.
pub open spec fn source_nodes(live: Seq<String>) -> Seq<Node> {
    seq![
        stereo(SOURCE_NODE, NodeKind::Source { source: SourceKind::ManagedEngine }),
        stereo(LOOP_SOURCE_NODE, NodeKind::Source { source: SourceKind::LoopPlayer }),
        stereo(INPUT_SOURCE_NODE, NodeKind::Source { source: SourceKind::LiveInput { ports: StereoPorts { left: live[0], right: live[1] } } }),
    ]
}

/// The nodes of the managed graph: the three sources, the insert rack on
/// the engine, the master mixer, each aux bus, the master chain and the
/// main playback sink.
pub open spec fn spec_managed_nodes(destinations: Seq<String>, live: Seq<String>, rack: Seq<EffectId>, aux: Seq<AuxPlan>,
    master: Seq<EffectId>) -> Seq<Node> {
    source_nodes(live) + processors(FIRST_EFFECT_NODE as int, rack) + seq![stereo(MASTER_NODE, NodeKind::StereoMixer)]
        + buses_nodes(aux, aux.len() as int) + processors(FIRST_MASTER_EFFECT_NODE as int, master)
        + seq![stereo(SINK_NODE, NodeKind::Sink { sink: SinkKind::MainPlayback { ports: StereoPorts { left: destinations[0], right: destinations[1] } } })]
}

/// The links of the managed graph, in the order its edges are numbered.
pub open spec fn spec_managed_links(rack: Seq<EffectId>, aux: Seq<AuxPlan>, master: Seq<EffectId>) -> Seq<(NodeId, NodeId)> {
    let last_insert = chain_end(SOURCE_NODE, FIRST_EFFECT_NODE as int, rack.len() as int);
    chain_links(SOURCE_NODE, FIRST_EFFECT_NODE as int, rack.len() as int)
        + seq![(last_insert, MASTER_NODE), (LOOP_SOURCE_NODE, MASTER_NODE), (INPUT_SOURCE_NODE, MASTER_NODE)]
        + buses_links(aux, aux.len() as int, last_insert)
        + chain_links(MASTER_NODE, FIRST_MASTER_EFFECT_NODE as int, master.len() as int)
        + seq![(chain_end(MASTER_NODE, FIRST_MASTER_EFFECT_NODE as int, master.len() as int), SINK_NODE)]
}

/// Graph sizes whose node and edge numbers fit in 32 bits.
pub open spec fn graph_sizes_fit(rack: Seq<EffectId>, aux: Seq<AuxPlan>, master: Seq<EffectId>) -> bool {
    &&& rack.len() < 0x1000_0000
    &&& master.len() < 0x1000_0000
    &&& aux.len() < 0x1000_0000
    &&& aux_offset(aux, aux.len() as int) < 0x1000_0000
}

proof fn lemma_aux_offset_grows(aux: Seq<AuxPlan>, a: int, b: int)
    requires
        0 <= a <= b <= aux.len(),
    ensures
        0 <= aux_offset(aux, a) <= aux_offset(aux, b),
    decreases b - a,
{
    if a < b {
        lemma_aux_offset_grows(aux, a, b - 1);
    } else {
        lemma_aux_offset_nonneg(aux, a);
    }
}

proof fn lemma_aux_offset_nonneg(aux: Seq<AuxPlan>, a: int)
    ensures
        aux_offset(aux, a) >= 0,
    decreases a,
{
    if a > 0 {
        lemma_aux_offset_nonneg(aux, a - 1);
    }
}

fn push_link(edges: &mut Vec<Edge>, Ghost(links): Ghost<Seq<(NodeId, NodeId)>>, from: NodeId, to: NodeId)
    requires
        old(edges)@ == edges_of(links),
        links.len() < 0xF000_0000,
    ensures
        final(edges)@ == edges_of(links.push((from, to))),
{
    let id = (edges.len() + 1) as u32;
    edges.push(Edge { id, from, to });
    assert(final(edges)@ =~= edges_of(links.push((from, to))));
}

/// Pushes processors for `order` numbered from `first`, chained from `start`.
fn push_chain(nodes: &mut Vec<Node>, edges: &mut Vec<Edge>, Ghost(links): Ghost<Seq<(NodeId, NodeId)>>, first: u32,
    start: NodeId, order: &Vec<EffectId>) -> (r: NodeId)
    requires
        old(edges)@ == edges_of(links),
        links.len() + order@.len() < 0xF000_0000,
        first + order@.len() < 0xF000_0000,
    ensures
        final(nodes)@ == old(nodes)@ + processors(first as int, order@),
        final(edges)@ == edges_of(links + chain_links(start, first as int, order@.len() as int)),
        r == chain_end(start, first as int, order@.len() as int),
{
    let ghost nodes0 = nodes@;
    let mut previous = start;
    let mut i: usize = 0;
    while i < order.len()
        invariant
            i <= order@.len(),
            links.len() + order@.len() < 0xF000_0000,
            first + order@.len() < 0xF000_0000,
            nodes@ == nodes0 + processors(first as int, order@.take(i as int)),
            edges@ == edges_of(links + chain_links(start, first as int, i as int)),
            previous == chain_end(start, first as int, i as int),
        decreases order@.len() - i,
    {
        let id = first + i as u32;
        nodes.push(Node { id, layout: ChannelLayout::Stereo, kind: NodeKind::Processor { effect_id: order[i] } });
        proof {
            assert(nodes@ =~= nodes0 + processors(first as int, order@.take(i + 1)));
        }
        push_link(edges, Ghost(links + chain_links(start, first as int, i as int)), previous, id);
        proof {
            assert((links + chain_links(start, first as int, i as int)).push((previous, id))
                =~= links + chain_links(start, first as int, i + 1));
        }
        previous = id;
        i += 1;
    }
    assert(order@.take(i as int) =~= order@);
    previous
}

/// The nodes and edges of the managed graph behind the final bus: the
/// managed engine through its insert rack into the master mixer, the loop
/// player and live input straight into it, each aux bus from its send tap
/// through its effects to its return into the mixer, and the mixer through
/// the master chain into the main playback sink on `destinations`. Edges
/// are numbered from 1 in the order they are made.
pub fn managed_graph(destinations: &[String; 2], live_ports: &[String; 2], rack_order: &Vec<EffectId>, aux: &Vec<AuxPlan>,
    master_order: &Vec<EffectId>) -> (r: (Vec<Node>, Vec<Edge>))
    requires
        graph_sizes_fit(rack_order@, aux@, master_order@),
    ensures
        r.0@ == spec_managed_nodes(destinations@, live_ports@, rack_order@, aux@, master_order@),
        r.1@ == edges_of(spec_managed_links(rack_order@, aux@, master_order@)),
        graph_within_ranges(rack_order@, aux@, master_order@) ==> spec_topological_order(r.0@, r.1@) is Ok,
{
    let mut nodes: Vec<Node> = Vec::new();
    nodes.push(Node { id: SOURCE_NODE, layout: ChannelLayout::Stereo, kind: NodeKind::Source { source: SourceKind::ManagedEngine } });
    nodes.push(Node { id: LOOP_SOURCE_NODE, layout: ChannelLayout::Stereo, kind: NodeKind::Source { source: SourceKind::LoopPlayer } });
    nodes.push(Node {
        id: INPUT_SOURCE_NODE,
        layout: ChannelLayout::Stereo,
        kind: NodeKind::Source { source: SourceKind::LiveInput { ports: StereoPorts { left: live_ports[0].clone(), right: live_ports[1].clone() } } },
    });
    proof {
        assert(nodes@ =~= source_nodes(live_ports@));
        lemma_aux_offset_grows(aux@, 0, aux@.len() as int);
    }
    let mut edges: Vec<Edge> = Vec::new();
    assert(edges@ =~= edges_of(Seq::<(NodeId, NodeId)>::empty()));
    let last_insert = push_chain(&mut nodes, &mut edges, Ghost(Seq::empty()), FIRST_EFFECT_NODE, SOURCE_NODE, rack_order);
    let ghost l1 = Seq::<(NodeId, NodeId)>::empty() + chain_links(SOURCE_NODE, FIRST_EFFECT_NODE as int, rack_order@.len() as int);
    nodes.push(Node { id: MASTER_NODE, layout: ChannelLayout::Stereo, kind: NodeKind::StereoMixer });
    push_link(&mut edges, Ghost(l1), last_insert, MASTER_NODE);
    push_link(&mut edges, Ghost(l1.push((last_insert, MASTER_NODE))), LOOP_SOURCE_NODE, MASTER_NODE);
    push_link(&mut edges, Ghost(l1.push((last_insert, MASTER_NODE)).push((LOOP_SOURCE_NODE, MASTER_NODE))), INPUT_SOURCE_NODE, MASTER_NODE);
    let ghost l2 = l1.push((last_insert, MASTER_NODE)).push((LOOP_SOURCE_NODE, MASTER_NODE)).push((INPUT_SOURCE_NODE, MASTER_NODE));
    let ghost n2 = nodes@;
    let mut aux_effect_node: u32 = FIRST_AUX_EFFECT_NODE;
    let mut b: usize = 0;
    while b < aux.len()
        invariant
            b <= aux@.len(),
            graph_sizes_fit(rack_order@, aux@, master_order@),
            aux_offset(aux@, aux@.len() as int) < 0x1000_0000,
            l2.len() == rack_order@.len() + 3,
            last_insert == chain_end(SOURCE_NODE, FIRST_EFFECT_NODE as int, rack_order@.len() as int),
            aux_effect_node == FIRST_AUX_EFFECT_NODE + aux_offset(aux@, b as int),
            nodes@ == n2 + buses_nodes(aux@, b as int),
            edges@ == edges_of(l2 + buses_links(aux@, b as int, last_insert)),
            (l2 + buses_links(aux@, b as int, last_insert)).len() <= rack_order@.len() + 3 + 3 * b + aux_offset(aux@, b as int),
        decreases aux@.len() - b,
    {
        proof {
            lemma_aux_offset_grows(aux@, b + 1, aux@.len() as int);
        }
        let plan = &aux[b];
        let ghost lb = l2 + buses_links(aux@, b as int, last_insert);
        let ghost nb = nodes@;
        let ret = FIRST_AUX_RETURN_NODE + b as u32;
        let mut links_now: Ghost<Seq<(NodeId, NodeId)>> = Ghost(lb);
        let mut aux_previous: Option<NodeId> = None;
        match plan.send {
            Some(point) => {
                let send = FIRST_SEND_NODE + b as u32;
                nodes.push(Node { id: send, layout: ChannelLayout::Stereo, kind: NodeKind::SendTap { aux_id: plan.id } });
                let from = match point {
                    SendPoint::PreInsert => SOURCE_NODE,
                    SendPoint::PostInsert => last_insert,
                };
                push_link(&mut edges, links_now, from, send);
                links_now = Ghost(links_now@.push((from, send)));
                aux_previous = Some(send);
            },
            None => {},
        }
        let ghost ls = links_now@;
        let ghost ns = nodes@;
        let first = aux_effect_node;
        let mut k: usize = 0;
        while k < plan.order.len()
            invariant
                k <= plan.order@.len(),
                plan == aux@[b as int],
                first == FIRST_AUX_EFFECT_NODE + aux_offset(aux@, b as int),
                first + plan.order@.len() < 0x2000_0000,
                ls.len() + plan.order@.len() < 0xE000_0000,
                aux_effect_node == first + k,
                nodes@ == ns + processors(first as int, plan.order@.take(k as int)),
                edges@ == edges_of(links_now@),
                links_now@ == ls + (match send_node(b as int, *plan) {
                    Some(s) => chain_links(s, first as int, k as int),
                    None => if k == 0 { Seq::empty() } else { chain_links(first, first + 1, k - 1) },
                }),
                aux_previous == (if k > 0 { Some((first + k - 1) as u32) } else { send_node(b as int, *plan) }),
            decreases plan.order@.len() - k,
        {
            let id = aux_effect_node;
            nodes.push(Node { id, layout: ChannelLayout::Stereo, kind: NodeKind::Processor { effect_id: plan.order[k] } });
            proof {
                assert(nodes@ =~= ns + processors(first as int, plan.order@.take(k + 1)));
            }
            if let Some(from) = aux_previous {
                push_link(&mut edges, links_now, from, id);
                links_now = Ghost(links_now@.push((from, id)));
            }
            proof {
                match send_node(b as int, *plan) {
                    Some(sn) => {
                        assert(links_now@ =~= ls + chain_links(sn, first as int, k + 1));
                    },
                    None => {
                        if k == 0 {
                            assert(links_now@ =~= ls);
                        } else {
                            assert(links_now@ =~= ls + chain_links(first, first + 1, k as int));
                        }
                    },
                }
            }
            aux_previous = Some(id);
            aux_effect_node = aux_effect_node + 1;
            k += 1;
        }
        proof {
            assert(plan.order@.take(k as int) =~= plan.order@);
        }
        nodes.push(Node { id: ret, layout: ChannelLayout::Stereo, kind: NodeKind::AuxReturn { aux_id: plan.id } });
        if let Some(from) = aux_previous {
            push_link(&mut edges, links_now, from, ret);
            links_now = Ghost(links_now@.push((from, ret)));
        }
        push_link(&mut edges, links_now, ret, MASTER_NODE);
        links_now = Ghost(links_now@.push((ret, MASTER_NODE)));
        proof {
            assert(nodes@ =~= n2 + buses_nodes(aux@, b + 1));
            assert(links_now@ =~= l2 + buses_links(aux@, b + 1, last_insert));
        }
        b += 1;
    }
    let ghost l3 = l2 + buses_links(aux@, aux@.len() as int, last_insert);
    let master_end = push_chain(&mut nodes, &mut edges, Ghost(l3), FIRST_MASTER_EFFECT_NODE, MASTER_NODE, master_order);
    nodes.push(Node {
        id: SINK_NODE,
        layout: ChannelLayout::Stereo,
        kind: NodeKind::Sink { sink: SinkKind::MainPlayback { ports: StereoPorts { left: destinations[0].clone(), right: destinations[1].clone() } } },
    });
    push_link(&mut edges, Ghost(l3 + chain_links(MASTER_NODE, FIRST_MASTER_EFFECT_NODE as int, master_order@.len() as int)), master_end, SINK_NODE);
    proof {
        assert(nodes@ =~= spec_managed_nodes(destinations@, live_ports@, rack_order@, aux@, master_order@));
        assert((l3 + chain_links(MASTER_NODE, FIRST_MASTER_EFFECT_NODE as int, master_order@.len() as int)).push((master_end, SINK_NODE))
            =~= spec_managed_links(rack_order@, aux@, master_order@));
        if graph_within_ranges(rack_order@, aux@, master_order@) {
            lemma_managed_graph_ordered(destinations@, live_ports@, rack_order@, aux@, master_order@);
        }
    }
    (nodes, edges)
}

// ---------------------------------------------------------------------------
// The managed graph is ordered
// ---------------------------------------------------------------------------

/// Graph sizes whose node numbers stay in their ranges: at most 20
/// inserts, 10 aux buses with 30 effects among them, and 10 master effects.
pub open spec fn graph_within_ranges(rack: Seq<EffectId>, aux: Seq<AuxPlan>, master: Seq<EffectId>) -> bool {
    &&& rack.len() <= 20
    &&& aux.len() <= 10
    &&& aux_offset(aux, aux.len() as int) <= 30
    &&& master.len() <= 10
}

/// The stage of a node in the managed graph; every edge rises in it.
pub open spec fn stage(id: NodeId) -> nat {
    if 10 <= id < 30 {
        (id - 9) as nat
    } else if 30 <= id < 40 {
        21
    } else if 40 <= id < 70 {
        (id - 18) as nat
    } else if 70 <= id < 80 {
        52
    } else if id == 90 {
        53
    } else if 80 <= id < 90 {
        (id - 26) as nat
    } else if id == 100 {
        64
    } else {
        0
    }
}

/// A link's key: its destination, or for a link into the mixer its source
/// set apart; no two links of the managed graph share one.
pub open spec fn link_key(l: (NodeId, NodeId)) -> int {
    if l.1 == MASTER_NODE { 1000 + l.0 } else { l.1 as int }
}

/// The keys of `ls`, in order.
pub open spec fn link_keys(ls: Seq<(NodeId, NodeId)>) -> Seq<int> {
    ls.map_values(|l: (NodeId, NodeId)| link_key(l))
}

/// The ids of `ns`, in order.
pub open spec fn node_ids(ns: Seq<Node>) -> Seq<int> {
    ns.map_values(|n: Node| n.id as int)
}

proof fn lemma_no_dup_concat(a: Seq<int>, b: Seq<int>)
    requires
        a.no_duplicates(),
        b.no_duplicates(),
        forall|i: int, j: int| 0 <= i < a.len() && 0 <= j < b.len() ==> a[i] != b[j],
    ensures
        (a + b).no_duplicates(),
{
    let c = a + b;
    assert forall|i: int, j: int| 0 <= i < c.len() && 0 <= j < c.len() && i != j implies c[i] != c[j] by {
        if i < a.len() && j < a.len() {
        } else if i >= a.len() && j >= a.len() {
            assert(c[i] == b[i - a.len()] && c[j] == b[j - a.len()]);
        } else if i < a.len() {
            assert(c[j] == b[j - a.len()]);
        } else {
            assert(c[i] == b[i - a.len()]);
        }
    }
}

/// Where the nodes of the first `b` buses are numbered.
pub open spec fn bus_id_range(aux: Seq<AuxPlan>, b: int, x: int) -> bool {
    (30 <= x < 30 + b) || (40 <= x < 40 + aux_offset(aux, b)) || (70 <= x < 70 + b)
}

proof fn lemma_bus_nodes(aux: Seq<AuxPlan>, b: int)
    requires
        0 <= b <= aux.len() <= 10,
        aux_offset(aux, aux.len() as int) <= 30,
    ensures
        forall|i: int| 0 <= i < buses_nodes(aux, b).len() ==> (#[trigger] buses_nodes(aux, b)[i]).layout == ChannelLayout::Stereo,
        forall|i: int| 0 <= i < buses_nodes(aux, b).len() && (#[trigger] buses_nodes(aux, b)[i]).kind is AuxReturn
            ==> 70 <= buses_nodes(aux, b)[i].id < 70 + b,
        forall|i: int| 0 <= i < node_ids(buses_nodes(aux, b)).len() ==> bus_id_range(aux, b, #[trigger] node_ids(buses_nodes(aux, b))[i]),
        node_ids(buses_nodes(aux, b)).no_duplicates(),
    decreases b,
{
    if b > 0 {
        lemma_bus_nodes(aux, b - 1);
        lemma_aux_offset_grows(aux, b - 1, b);
        lemma_aux_offset_grows(aux, b, aux.len() as int);
        let old = buses_nodes(aux, b - 1);
        let new = bus_nodes(aux, b - 1);
        assert(buses_nodes(aux, b) == old + new);
        assert(node_ids(old + new) =~= node_ids(old) + node_ids(new));
        let off = aux_offset(aux, b - 1);
        let n = aux[b - 1].order@.len() as int;
        assert forall|i: int| 0 <= i < node_ids(new).len() implies {
            let x = #[trigger] node_ids(new)[i];
            &&& (x == 30 + b - 1 || (40 + off <= x < 40 + off + n) || x == 70 + b - 1)
            &&& new[i].layout == ChannelLayout::Stereo
            &&& (new[i].kind is AuxReturn ==> x == 70 + b - 1)
        } by {
            let sends: int = if aux[b - 1].send is Some { 1 } else { 0 };
            if i < sends {
            } else if i < sends + n {
                assert(new[i] == processors(FIRST_AUX_EFFECT_NODE + off, aux[b - 1].order@)[i - sends]);
            } else {
            }
        }
        assert(node_ids(new).no_duplicates()) by {
            let sends: int = if aux[b - 1].send is Some { 1 } else { 0 };
            assert forall|i: int, j: int| 0 <= i < node_ids(new).len() && 0 <= j < node_ids(new).len() && i != j
                implies node_ids(new)[i] != node_ids(new)[j] by {
                if sends <= i < sends + n {
                    assert(new[i] == processors(FIRST_AUX_EFFECT_NODE + off, aux[b - 1].order@)[i - sends]);
                }
                if sends <= j < sends + n {
                    assert(new[j] == processors(FIRST_AUX_EFFECT_NODE + off, aux[b - 1].order@)[j - sends]);
                }
            }
        }
        lemma_no_dup_concat(node_ids(old), node_ids(new));
        assert forall|i: int| 0 <= i < buses_nodes(aux, b).len() implies {
            &&& (#[trigger] buses_nodes(aux, b)[i]).layout == ChannelLayout::Stereo
            &&& (buses_nodes(aux, b)[i].kind is AuxReturn ==> 70 <= buses_nodes(aux, b)[i].id < 70 + b)
        } by {
            if i >= old.len() {
                assert(node_ids(new)[i - old.len()] == new[i - old.len()].id as int);
            } else {
                assert(buses_nodes(aux, b)[i] == old[i]);
            }
        }
        assert forall|i: int| 0 <= i < node_ids(buses_nodes(aux, b)).len() implies bus_id_range(aux, b, #[trigger] node_ids(buses_nodes(aux, b))[i]) by {
            if i < old.len() {
                assert(node_ids(buses_nodes(aux, b))[i] == node_ids(old)[i]);
            } else {
                assert(node_ids(buses_nodes(aux, b))[i] == node_ids(new)[i - old.len()]);
            }
        }
    }
}


/// The link from the return of bus `c` into the mixer.
pub open spec fn return_link(c: int) -> (NodeId, NodeId) {
    ((FIRST_AUX_RETURN_NODE + c) as u32, MASTER_NODE)
}

/// Where the key of a link of bus `c` lies.
pub open spec fn bus_key(aux: Seq<AuxPlan>, c: int, k: int) -> bool {
    k == 30 + c || (40 + aux_offset(aux, c) <= k < 40 + aux_offset(aux, c + 1)) || k == 70 + c || k == 1070 + c
}

/// What holds of each link of bus `c`.
pub open spec fn bus_link_ok(aux: Seq<AuxPlan>, c: int, li: NodeId, l: (NodeId, NodeId)) -> bool {
    let ids = node_ids(bus_nodes(aux, c));
    &&& stage(l.0) < stage(l.1)
    &&& (ids.contains(l.0 as int) || l.0 == li || l.0 == SOURCE_NODE)
    &&& (ids.contains(l.1 as int) || l.1 == MASTER_NODE)
    &&& (70 <= l.0 < 80 ==> l.1 == MASTER_NODE)
    &&& bus_key(aux, c, link_key(l))
}

proof fn lemma_chain_link(start: NodeId, first: int, n: int, i: int)
    requires
        0 <= i < n,
    ensures
        chain_links(start, first, n)[i] == (if i == 0 { start } else { (first + i - 1) as u32 }, (first + i) as u32),
{
}

#[verifier::rlimit(60)]
#[verifier::spinoff_prover]
proof fn lemma_bus_links(aux: Seq<AuxPlan>, c: int, li: NodeId)
    requires
        0 <= c < aux.len() <= 10,
        aux_offset(aux, aux.len() as int) <= 30,
        li == SOURCE_NODE || 10 <= li < 30,
    ensures
        forall|k: int| 0 <= k < bus_links(aux, c, li).len() ==> bus_link_ok(aux, c, li, #[trigger] bus_links(aux, c, li)[k]),
        forall|k1: int, k2: int| 0 <= k1 < k2 < bus_links(aux, c, li).len()
            ==> link_key(#[trigger] bus_links(aux, c, li)[k1]) < link_key(#[trigger] bus_links(aux, c, li)[k2]),
        bus_links(aux, c, li).contains(return_link(c)),
        bus_links(aux, c, li).len() <= aux[c].order@.len() + 3,
{
    lemma_aux_offset_grows(aux, c, c + 1);
    lemma_aux_offset_grows(aux, c + 1, aux.len() as int);
    let plan = aux[c];
    let off = aux_offset(aux, c);
    let first = FIRST_AUX_EFFECT_NODE + off;
    let n = plan.order@.len() as int;
    let ret = (FIRST_AUX_RETURN_NODE + c) as u32;
    let nodes = bus_nodes(aux, c);
    let ids = node_ids(nodes);
    let s: int = if plan.send is Some { 1 } else { 0 };
    assert(off + n <= 30);
    assert(nodes.len() == s + n + 1);
    assert forall|i: int| 0 <= i < n implies #[trigger] ids[s + i] == first + i by {
        assert(nodes[s + i] == processors(first, plan.order@)[i]);
    }
    assert(ids[s + n] == 70 + c);
    assert(plan.send is Some ==> ids[0] == 30 + c);
    let a = match plan.send { Some(p) => seq![(send_from(p, li), (FIRST_SEND_NODE + c) as u32)], None => Seq::<(NodeId, NodeId)>::empty() };
    let b = match send_node(c, plan) {
        Some(t) => chain_links(t, first, n),
        None => if n == 0 { Seq::<(NodeId, NodeId)>::empty() } else { chain_links((first) as u32, first + 1, n - 1) },
    };
    let e = match bus_end(aux, c) { Some(x) => seq![(x, ret)], None => Seq::<(NodeId, NodeId)>::empty() };
    let links = bus_links(aux, c, li);
    assert(links == a + b + e + seq![(ret, MASTER_NODE)]);
    assert(a.len() == s);
    assert(b.len() == if s == 1 { n } else if n == 0 { 0 } else { n - 1 });
    assert(e.len() == if s == 1 || n > 0 { 1int } else { 0int });
    // The link at each position, and its key.
    assert forall|k: int| 0 <= k < links.len() implies {
        let l = #[trigger] links[k];
        &&& bus_link_ok(aux, c, li, l)
        &&& link_key(l) == (if k == links.len() - 1 { 1070 + c } else if e.len() == 1 && k == links.len() - 2 { 70 + c }
            else if k < s { 30 + c } else { first + k - s + (1 - s) })
    } by {
        let l = links[k];
        if k < a.len() {
            assert(l == a[k]);
            assert(ids.contains(30 + c));
        } else if k < a.len() + b.len() {
            assert(l == b[k - a.len()]);
            let i = k - a.len();
            if s == 1 {
                lemma_chain_link((FIRST_SEND_NODE + c) as u32, first, n, i);
                assert(ids[s + i] == first + i);
                assert(ids.contains(first + i));
                if i > 0 {
                    assert(ids[s + i - 1] == first + i - 1);
                    assert(ids.contains(first + i - 1));
                } else {
                    assert(ids.contains(30 + c));
                }
            } else {
                lemma_chain_link(first as u32, first + 1, n - 1, i);
                assert(ids[s + i + 1] == first + i + 1);
                assert(ids.contains(first + i + 1));
                assert(ids[s + i] == first + i);
                assert(ids.contains(first + i));
            }
        } else if k < a.len() + b.len() + e.len() {
            assert(l == e[0]);
            assert(ids.contains(70 + c));
            if n > 0 {
                assert(ids[s + n - 1] == first + n - 1);
                assert(ids.contains(first + n - 1));
            } else {
                assert(ids.contains(30 + c));
            }
        } else {
            assert(l == (ret, MASTER_NODE));
            assert(ids.contains(70 + c));
        }
    }
    assert(links[links.len() - 1] == (ret, MASTER_NODE));
}


/// Where the key of a link of the first `b` buses lies.
pub open spec fn buses_key(aux: Seq<AuxPlan>, b: int, k: int) -> bool {
    (30 <= k < 30 + b) || (40 <= k < 40 + aux_offset(aux, b)) || (70 <= k < 70 + b) || (1070 <= k < 1070 + b)
}

/// What holds of each link of the first `b` buses.
pub open spec fn buses_link_ok(aux: Seq<AuxPlan>, b: int, li: NodeId, l: (NodeId, NodeId)) -> bool {
    let ids = node_ids(buses_nodes(aux, b));
    &&& stage(l.0) < stage(l.1)
    &&& (ids.contains(l.0 as int) || l.0 == li || l.0 == SOURCE_NODE)
    &&& (ids.contains(l.1 as int) || l.1 == MASTER_NODE)
    &&& (70 <= l.0 < 80 ==> l.1 == MASTER_NODE)
    &&& buses_key(aux, b, link_key(l))
}

proof fn lemma_contains_concat<T>(a: Seq<T>, b: Seq<T>, x: T)
    ensures
        a.contains(x) ==> (a + b).contains(x),
        b.contains(x) ==> (a + b).contains(x),
{
    if a.contains(x) {
        let i = choose|i: int| 0 <= i < a.len() && a[i] == x;
        assert((a + b)[i] == x);
    }
    if b.contains(x) {
        let i = choose|i: int| 0 <= i < b.len() && b[i] == x;
        assert((a + b)[a.len() + i] == x);
    }
}

#[verifier::rlimit(60)]
#[verifier::spinoff_prover]
proof fn lemma_buses_links(aux: Seq<AuxPlan>, b: int, li: NodeId)
    requires
        0 <= b <= aux.len() <= 10,
        aux_offset(aux, aux.len() as int) <= 30,
        li == SOURCE_NODE || 10 <= li < 30,
    ensures
        forall|k: int| 0 <= k < buses_links(aux, b, li).len() ==> buses_link_ok(aux, b, li, #[trigger] buses_links(aux, b, li)[k]),
        link_keys(buses_links(aux, b, li)).no_duplicates(),
        forall|c: int| 0 <= c < b ==> #[trigger] buses_links(aux, b, li).contains(return_link(c)),
        buses_links(aux, b, li).len() <= aux_offset(aux, b) + 3 * b,
    decreases b,
{
    if b > 0 {
        lemma_buses_links(aux, b - 1, li);
        lemma_bus_links(aux, b - 1, li);
        lemma_aux_offset_grows(aux, b - 1, b);
        lemma_aux_offset_grows(aux, b, aux.len() as int);
        let old = buses_links(aux, b - 1, li);
        let new = bus_links(aux, b - 1, li);
        let all = buses_links(aux, b, li);
        assert(all == old + new);
        let old_ids = node_ids(buses_nodes(aux, b - 1));
        let new_ids = node_ids(bus_nodes(aux, b - 1));
        let ids = node_ids(buses_nodes(aux, b));
        assert(buses_nodes(aux, b) == buses_nodes(aux, b - 1) + bus_nodes(aux, b - 1));
        assert(ids =~= old_ids + new_ids);
        assert forall|k: int| 0 <= k < all.len() implies buses_link_ok(aux, b, li, #[trigger] all[k]) by {
            let l = all[k];
            if k < old.len() {
                assert(l == old[k]);
                assert(buses_link_ok(aux, b - 1, li, old[k]));
                lemma_contains_concat(old_ids, new_ids, l.0 as int);
                lemma_contains_concat(old_ids, new_ids, l.1 as int);
            } else {
                assert(l == new[k - old.len()]);
                assert(bus_link_ok(aux, b - 1, li, new[k - old.len()]));
                lemma_contains_concat(old_ids, new_ids, l.0 as int);
                lemma_contains_concat(old_ids, new_ids, l.1 as int);
            }
        }
        assert(link_keys(all) =~= link_keys(old) + link_keys(new));
        assert(link_keys(new).no_duplicates()) by {
            assert forall|i: int, j: int| 0 <= i < link_keys(new).len() && 0 <= j < link_keys(new).len() && i != j
                implies link_keys(new)[i] != link_keys(new)[j] by {
                if i < j {
                    assert(link_key(new[i]) < link_key(new[j]));
                } else {
                    assert(link_key(new[j]) < link_key(new[i]));
                }
            }
        }
        assert forall|i: int, j: int| 0 <= i < link_keys(old).len() && 0 <= j < link_keys(new).len()
            implies link_keys(old)[i] != link_keys(new)[j] by {
            assert(buses_link_ok(aux, b - 1, li, old[i]));
            assert(bus_link_ok(aux, b - 1, li, new[j]));
        }
        lemma_no_dup_concat(link_keys(old), link_keys(new));
        assert forall|c: int| 0 <= c < b implies #[trigger] all.contains(return_link(c)) by {
            lemma_contains_concat(old, new, return_link(c));
        }
    }
}


/// The ids that the managed graph's nodes carry.
pub open spec fn managed_id(rack: Seq<EffectId>, aux: Seq<AuxPlan>, master: Seq<EffectId>, x: int) -> bool {
    ||| x == 1 || x == 2 || x == 3
    ||| 10 <= x < 10 + rack.len()
    ||| x == 90
    ||| node_ids(buses_nodes(aux, aux.len() as int)).contains(x)
    ||| 80 <= x < 80 + master.len()
    ||| x == 100
}

proof fn lemma_node_ids_concat(a: Seq<Node>, b: Seq<Node>)
    ensures
        node_ids(a + b) =~= node_ids(a) + node_ids(b),
{
}

proof fn lemma_processor_ids(first: int, order: Seq<EffectId>)
    ensures
        forall|i: int| 0 <= i < order.len() ==> (#[trigger] processors(first, order)[i]).layout == ChannelLayout::Stereo,
        forall|i: int| 0 <= i < order.len() ==> (#[trigger] processors(first, order)[i]).kind is Processor,
        forall|i: int| 0 <= i < order.len() && 0 <= first && first + order.len() < 0x1_0000_0000
            ==> #[trigger] node_ids(processors(first, order))[i] == first + i,
        0 <= first && first + order.len() < 0x1_0000_0000 ==> forall|x: int| first <= x < first + order.len()
            ==> #[trigger] node_ids(processors(first, order)).contains(x),
{
    if 0 <= first && first + order.len() < 0x1_0000_0000 {
        assert forall|x: int| first <= x < first + order.len() implies #[trigger] node_ids(processors(first, order)).contains(x) by {
            assert(node_ids(processors(first, order))[x - first] == x);
        }
    }
}

#[verifier::rlimit(80)]
#[verifier::spinoff_prover]
proof fn lemma_managed_nodes(destinations: Seq<String>, live: Seq<String>, rack: Seq<EffectId>, aux: Seq<AuxPlan>,
    master: Seq<EffectId>)
    requires
        graph_within_ranges(rack, aux, master),
    ensures
        forall|i: int| 0 <= i < spec_managed_nodes(destinations, live, rack, aux, master).len()
            ==> (#[trigger] spec_managed_nodes(destinations, live, rack, aux, master)[i]).layout == ChannelLayout::Stereo,
        forall|i: int| 0 <= i < spec_managed_nodes(destinations, live, rack, aux, master).len()
            && (#[trigger] spec_managed_nodes(destinations, live, rack, aux, master)[i]).kind is AuxReturn
            ==> 70 <= spec_managed_nodes(destinations, live, rack, aux, master)[i].id < 70 + aux.len(),
        node_ids(spec_managed_nodes(destinations, live, rack, aux, master)).no_duplicates(),
        forall|x: int| managed_id(rack, aux, master, x)
            ==> #[trigger] node_ids(spec_managed_nodes(destinations, live, rack, aux, master)).contains(x),
{
    let a = aux.len() as int;
    lemma_bus_nodes(aux, a);
    lemma_processor_ids(10, rack);
    lemma_processor_ids(80, master);
    let s0 = source_nodes(live);
    let r = processors(FIRST_EFFECT_NODE as int, rack);
    let m = seq![stereo(MASTER_NODE, NodeKind::StereoMixer)];
    let b = buses_nodes(aux, a);
    let mc = processors(FIRST_MASTER_EFFECT_NODE as int, master);
    let k = seq![stereo(SINK_NODE, NodeKind::Sink { sink: SinkKind::MainPlayback { ports: StereoPorts { left: destinations[0], right: destinations[1] } } })];
    let n1 = s0 + r;
    let n2 = n1 + m;
    let n3 = n2 + b;
    let n4 = n3 + mc;
    let n5 = n4 + k;
    assert(n5 == spec_managed_nodes(destinations, live, rack, aux, master));
    lemma_node_ids_concat(s0, r);
    lemma_node_ids_concat(n1, m);
    lemma_node_ids_concat(n2, b);
    lemma_node_ids_concat(n3, mc);
    lemma_node_ids_concat(n4, k);
    let i0 = node_ids(s0);
    assert(i0 =~= seq![1int, 2, 3]);
    let ib = node_ids(b);
    // Ranges of each part.
    assert forall|i: int| 0 <= i < node_ids(n1).len() implies 1 <= #[trigger] node_ids(n1)[i] < 30 by {
        if i >= 3 {
            assert(node_ids(n1)[i] == node_ids(r)[i - 3]);
        }
    }
    assert(node_ids(n1).no_duplicates()) by {
        assert(node_ids(r).no_duplicates());
        lemma_no_dup_concat(i0, node_ids(r));
    }
    assert(node_ids(n2).no_duplicates()) by {
        lemma_no_dup_concat(node_ids(n1), node_ids(m));
    }
    assert forall|i: int| 0 <= i < node_ids(n2).len() implies (1 <= #[trigger] node_ids(n2)[i] < 30 || node_ids(n2)[i] == 90) by {
        if i < node_ids(n1).len() {
            assert(node_ids(n2)[i] == node_ids(n1)[i]);
        }
    }
    assert(node_ids(n3).no_duplicates()) by {
        assert forall|i: int, j: int| 0 <= i < node_ids(n2).len() && 0 <= j < ib.len() implies node_ids(n2)[i] != ib[j] by {
            assert(bus_id_range(aux, a, ib[j]));
        }
        lemma_no_dup_concat(node_ids(n2), ib);
    }
    assert forall|i: int| 0 <= i < node_ids(n3).len() implies (1 <= #[trigger] node_ids(n3)[i] < 80 || node_ids(n3)[i] == 90) by {
        if i < node_ids(n2).len() {
            assert(node_ids(n3)[i] == node_ids(n2)[i]);
        } else {
            assert(node_ids(n3)[i] == ib[i - node_ids(n2).len()]);
            assert(bus_id_range(aux, a, ib[i - node_ids(n2).len()]));
        }
    }
    assert(node_ids(n4).no_duplicates()) by {
        assert(node_ids(mc).no_duplicates());
        lemma_no_dup_concat(node_ids(n3), node_ids(mc));
    }
    assert forall|i: int| 0 <= i < node_ids(n4).len() implies #[trigger] node_ids(n4)[i] < 100 by {
        if i < node_ids(n3).len() {
            assert(node_ids(n4)[i] == node_ids(n3)[i]);
        } else {
            assert(node_ids(n4)[i] == node_ids(mc)[i - node_ids(n3).len()]);
        }
    }
    assert(node_ids(k) =~= seq![100int]);
    lemma_no_dup_concat(node_ids(n4), node_ids(k));
    // Layouts and returns.
    assert forall|i: int| 0 <= i < n5.len() implies {
        &&& (#[trigger] n5[i]).layout == ChannelLayout::Stereo
        &&& (n5[i].kind is AuxReturn ==> 70 <= n5[i].id < 70 + a)
    } by {
        if i < 3 {
        } else if i < n1.len() {
            assert(n5[i] == r[i - 3]);
        } else if i < n2.len() {
        } else if i < n3.len() {
            assert(n5[i] == b[i - n2.len()]);
        } else if i < n4.len() {
            assert(n5[i] == mc[i - n3.len()]);
        } else {
        }
    }
    // Which ids occur.
    assert forall|x: int| managed_id(rack, aux, master, x) implies #[trigger] node_ids(n5).contains(x) by {
        if x == 1 || x == 2 || x == 3 {
            assert(i0[x - 1] == x);
            lemma_contains_concat(i0, node_ids(r), x);
            lemma_contains_concat(node_ids(n1), node_ids(m), x);
            lemma_contains_concat(node_ids(n2), ib, x);
            lemma_contains_concat(node_ids(n3), node_ids(mc), x);
            lemma_contains_concat(node_ids(n4), node_ids(k), x);
        } else if 10 <= x < 10 + rack.len() {
            assert(node_ids(r).contains(x));
            lemma_contains_concat(i0, node_ids(r), x);
            lemma_contains_concat(node_ids(n1), node_ids(m), x);
            lemma_contains_concat(node_ids(n2), ib, x);
            lemma_contains_concat(node_ids(n3), node_ids(mc), x);
            lemma_contains_concat(node_ids(n4), node_ids(k), x);
        } else if x == 90 {
            assert(node_ids(m)[0] == 90);
            lemma_contains_concat(node_ids(n1), node_ids(m), x);
            lemma_contains_concat(node_ids(n2), ib, x);
            lemma_contains_concat(node_ids(n3), node_ids(mc), x);
            lemma_contains_concat(node_ids(n4), node_ids(k), x);
        } else if ib.contains(x) {
            lemma_contains_concat(node_ids(n2), ib, x);
            lemma_contains_concat(node_ids(n3), node_ids(mc), x);
            lemma_contains_concat(node_ids(n4), node_ids(k), x);
        } else if 80 <= x < 80 + master.len() {
            assert(node_ids(mc).contains(x));
            lemma_contains_concat(node_ids(n3), node_ids(mc), x);
            lemma_contains_concat(node_ids(n4), node_ids(k), x);
        } else {
            assert(node_ids(k)[0] == 100);
            lemma_contains_concat(node_ids(n4), node_ids(k), x);
        }
    }
}


/// What holds of each link of the managed graph.
pub open spec fn managed_link_ok(rack: Seq<EffectId>, aux: Seq<AuxPlan>, master: Seq<EffectId>, l: (NodeId, NodeId)) -> bool {
    &&& stage(l.0) < stage(l.1)
    &&& managed_id(rack, aux, master, l.0 as int)
    &&& managed_id(rack, aux, master, l.1 as int)
    &&& (70 <= l.0 < 80 ==> l.1 == MASTER_NODE)
}

#[verifier::rlimit(80)]
#[verifier::spinoff_prover]
proof fn lemma_managed_links(rack: Seq<EffectId>, aux: Seq<AuxPlan>, master: Seq<EffectId>)
    requires
        graph_within_ranges(rack, aux, master),
    ensures
        forall|k: int| 0 <= k < spec_managed_links(rack, aux, master).len()
            ==> managed_link_ok(rack, aux, master, #[trigger] spec_managed_links(rack, aux, master)[k]),
        link_keys(spec_managed_links(rack, aux, master)).no_duplicates(),
        forall|c: int| 0 <= c < aux.len() ==> #[trigger] spec_managed_links(rack, aux, master).contains(return_link(c)),
        spec_managed_links(rack, aux, master).len() <= 100,
{
    let a = aux.len() as int;
    let r = rack.len() as int;
    let m = master.len() as int;
    let li = chain_end(SOURCE_NODE, FIRST_EFFECT_NODE as int, r);
    let mend = chain_end(MASTER_NODE, FIRST_MASTER_EFFECT_NODE as int, m);
    lemma_buses_links(aux, a, li);
    let rc = chain_links(SOURCE_NODE, FIRST_EFFECT_NODE as int, r);
    let t = seq![(li, MASTER_NODE), (LOOP_SOURCE_NODE, MASTER_NODE), (INPUT_SOURCE_NODE, MASTER_NODE)];
    let bl = buses_links(aux, a, li);
    let mcl = chain_links(MASTER_NODE, FIRST_MASTER_EFFECT_NODE as int, m);
    let z = seq![(mend, SINK_NODE)];
    let p1 = rc + t;
    let p2 = p1 + bl;
    let p3 = p2 + mcl;
    let links = p3 + z;
    assert(links == spec_managed_links(rack, aux, master));
    // Each link.
    assert forall|k: int| 0 <= k < links.len() implies managed_link_ok(rack, aux, master, #[trigger] links[k]) by {
        if k < rc.len() {
            assert(links[k] == rc[k]);
            lemma_chain_link(SOURCE_NODE, FIRST_EFFECT_NODE as int, r, k);
        } else if k < p1.len() {
            assert(links[k] == t[k - rc.len()]);
        } else if k < p2.len() {
            assert(links[k] == bl[k - p1.len()]);
            assert(buses_link_ok(aux, a, li, bl[k - p1.len()]));
        } else if k < p3.len() {
            assert(links[k] == mcl[k - p2.len()]);
            lemma_chain_link(MASTER_NODE, FIRST_MASTER_EFFECT_NODE as int, m, k - p2.len());
        } else {
            assert(links[k] == z[0]);
        }
    }
    // Keys.
    assert(link_keys(links) =~= link_keys(rc) + link_keys(t) + link_keys(bl) + link_keys(mcl) + link_keys(z));
    assert(link_keys(p1) =~= link_keys(rc) + link_keys(t));
    assert(link_keys(p2) =~= link_keys(p1) + link_keys(bl));
    assert(link_keys(p3) =~= link_keys(p2) + link_keys(mcl));
    assert(link_keys(links) =~= link_keys(p3) + link_keys(z));
    assert forall|i: int| 0 <= i < rc.len() implies #[trigger] link_keys(rc)[i] == 10 + i by {
        lemma_chain_link(SOURCE_NODE, FIRST_EFFECT_NODE as int, r, i);
    }
    assert forall|i: int| 0 <= i < mcl.len() implies #[trigger] link_keys(mcl)[i] == 80 + i by {
        lemma_chain_link(MASTER_NODE, FIRST_MASTER_EFFECT_NODE as int, m, i);
    }
    assert(link_keys(t) =~= seq![1000 + li, 1002int, 1003]);
    assert(link_keys(rc).no_duplicates());
    assert(link_keys(mcl).no_duplicates());
    assert(link_keys(t).no_duplicates());
    lemma_no_dup_concat(link_keys(rc), link_keys(t));
    assert forall|i: int| 0 <= i < link_keys(p1).len() implies
        (10 <= #[trigger] link_keys(p1)[i] < 30 || 1000 <= link_keys(p1)[i] < 1030) by {
        if i < rc.len() {
            assert(link_keys(p1)[i] == link_keys(rc)[i]);
        } else {
            assert(link_keys(p1)[i] == link_keys(t)[i - rc.len()]);
        }
    }
    assert forall|i: int, j: int| 0 <= i < link_keys(p1).len() && 0 <= j < link_keys(bl).len()
        implies link_keys(p1)[i] != link_keys(bl)[j] by {
        assert(buses_link_ok(aux, a, li, bl[j]));
        lemma_aux_offset_grows(aux, a, a);
    }
    lemma_no_dup_concat(link_keys(p1), link_keys(bl));
    assert forall|i: int| 0 <= i < link_keys(p2).len() implies
        (10 <= #[trigger] link_keys(p2)[i] < 80 || 1000 <= link_keys(p2)[i] < 1080) by {
        if i < p1.len() {
            assert(link_keys(p2)[i] == link_keys(p1)[i]);
        } else {
            assert(link_keys(p2)[i] == link_keys(bl)[i - p1.len()]);
            assert(buses_link_ok(aux, a, li, bl[i - p1.len()]));
        }
    }
    lemma_no_dup_concat(link_keys(p2), link_keys(mcl));
    assert forall|i: int| 0 <= i < link_keys(p3).len() implies
        (10 <= #[trigger] link_keys(p3)[i] < 90 || 1000 <= link_keys(p3)[i] < 1080) by {
        if i < p2.len() {
            assert(link_keys(p3)[i] == link_keys(p2)[i]);
        } else {
            assert(link_keys(p3)[i] == link_keys(mcl)[i - p2.len()]);
        }
    }
    assert(link_keys(z) =~= seq![100int]);
    lemma_no_dup_concat(link_keys(p3), link_keys(z));
    // The returns.
    assert forall|c: int| 0 <= c < a implies #[trigger] links.contains(return_link(c)) by {
        assert(bl.contains(return_link(c)));
        lemma_contains_concat(p1, bl, return_link(c));
        lemma_contains_concat(p2, mcl, return_link(c));
        lemma_contains_concat(p3, z, return_link(c));
    }
}


/// The managed graph, within the ranges its node numbers are given, has no
/// bad edge, mixes each aux return exactly once, and has a processing
/// order: every edge rises in `stage`, so it has no cycle.
pub proof fn lemma_managed_graph_ordered(destinations: Seq<String>, live: Seq<String>, rack: Seq<EffectId>,
    aux: Seq<AuxPlan>, master: Seq<EffectId>)
    requires
        graph_within_ranges(rack, aux, master),
    ensures
        spec_topological_order(spec_managed_nodes(destinations, live, rack, aux, master),
            edges_of(spec_managed_links(rack, aux, master))) is Ok,
{
    lemma_managed_nodes(destinations, live, rack, aux, master);
    lemma_managed_links(rack, aux, master);
    let nodes = spec_managed_nodes(destinations, live, rack, aux, master);
    let links = spec_managed_links(rack, aux, master);
    let edges = edges_of(links);
    let ids = node_ids(nodes);
    assert(distinct_ids(nodes)) by {
        assert forall|i: int, j: int| 0 <= i < j < nodes.len() implies nodes[i].id != nodes[j].id by {
            assert(ids[i] != ids[j]);
        }
    }
    assert forall|j: int| 0 <= j < edges.len() implies has_node(nodes, (#[trigger] edges[j]).from) && has_node(nodes, edges[j].to) by {
        assert(managed_link_ok(rack, aux, master, links[j]));
        assert(ids.contains(links[j].0 as int));
        assert(ids.contains(links[j].1 as int));
        let kf = choose|k: int| 0 <= k < ids.len() && ids[k] == links[j].0 as int;
        let kt = choose|k: int| 0 <= k < ids.len() && ids[k] == links[j].1 as int;
        assert(nodes[kf].id == edges[j].from);
        assert(nodes[kt].id == edges[j].to);
    }
    assert forall|j: int| 0 <= j < edges.len() implies (#[trigger] edges[j]).from != edges[j].to by {
        assert(managed_link_ok(rack, aux, master, links[j]));
    }
    assert forall|j: int, k: int| #![trigger edges[j], edges[k]] 0 <= j < k < edges.len()
        implies edges[j].from != edges[k].from || edges[j].to != edges[k].to by {
        assert(link_keys(links)[j] != link_keys(links)[k]);
    }
    lemma_stereo_edges_clean(nodes, edges, 0);
    assert forall|i: int| 0 <= i < nodes.len() && (#[trigger] nodes[i]).kind is AuxReturn
        implies out_degree(edges, nodes[i].id) == 1 by {
        let id = nodes[i].id;
        let c = id - 70;
        assert(return_link(c) == (id, MASTER_NODE));
        assert(links.contains(return_link(c)));
        let j = choose|j: int| 0 <= j < links.len() && links[j] == return_link(c);
        assert forall|k: int| 0 <= k < edges.len() && k != j implies (#[trigger] edges[k]).from != id by {
            if edges[k].from == id {
                assert(managed_link_ok(rack, aux, master, links[k]));
                assert(links[k] == links[j]);
                assert(link_keys(links)[j] != link_keys(links)[k]);
            }
        }
        lemma_out_degree_one(edges, id, j);
    }
    assert forall|j: int| 0 <= j < edges.len() implies (|id: NodeId| stage(id))((#[trigger] edges[j]).from)
        < (|id: NodeId| stage(id))(edges[j].to) by {
        assert(managed_link_ok(rack, aux, master, links[j]));
    }
    lemma_acyclic_graph_is_ordered(nodes, edges, |id: NodeId| stage(id));
}

} // verus!
