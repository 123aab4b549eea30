//! Derived static access summaries. These are not a proof of non-aliasing or completion.
use crate::ast::{Kernel, Module, RoleRegion, ScheduleNode, ScheduleNodeKind};
use crate::lookup::{dup_vec, find, find_index, Dup};
use crate::types::{AccumulatorId, EventId, MemoryRef, NodeId, PipelineId, RoleId, Scope, StorageId, TicketId, ValueId};
use vstd::prelude::*;

verus! {

#[derive(Clone, Copy, Debug, PartialEq, Eq, Structural)]
pub enum AccessMode {
    Read,
    Write,
    ReadWrite,
}

#[derive(Clone, Debug, PartialEq, Eq)]
pub enum AccessTarget {
    Memory(MemoryRef),
    Accumulator(AccumulatorId),
}

#[derive(Clone, Debug, PartialEq, Eq)]
pub struct Access {
    pub target: AccessTarget,
    pub storage: Option<StorageId>,
    pub mode: AccessMode,
    pub pending_until: Option<EventId>,
}

#[derive(Clone, Debug, PartialEq, Eq)]
pub enum Transition {
    Acquire(TicketId),
    Publish(TicketId),
    Consume(TicketId),
    Release(TicketId),
    Drain(PipelineId),
}

#[derive(Clone, Debug, PartialEq, Eq)]
pub struct NodeEffects {
    pub node: NodeId,
    pub role: Option<RoleId>,
    pub pipeline_iteration: Option<(PipelineId, ValueId)>,
    pub produces: Vec<EventId>,
    pub publishes: Vec<EventId>,
    pub join_scope: Option<Scope>,
    pub accesses: Vec<Access>,
    pub observes: Vec<EventId>,
    pub transitions: Vec<Transition>,
}

/// The effects of one node, with its lists taken by view.
pub struct NodeEffectsV {
    pub node: NodeId,
    pub role: Option<RoleId>,
    pub pipeline_iteration: Option<(PipelineId, ValueId)>,
    pub produces: Seq<EventId>,
    pub publishes: Seq<EventId>,
    pub join_scope: Option<Scope>,
    pub accesses: Seq<Access>,
    pub observes: Seq<EventId>,
    pub transitions: Seq<Transition>,
}

impl View for NodeEffects {
    type V = NodeEffectsV;

    open spec fn view(&self) -> NodeEffectsV {
        NodeEffectsV {
            node: self.node,
            role: self.role,
            pipeline_iteration: self.pipeline_iteration,
            produces: self.produces@,
            publishes: self.publishes@,
            join_scope: self.join_scope,
            accesses: self.accesses@,
            observes: self.observes@,
            transitions: self.transitions@,
        }
    }
}

pub open spec fn effects_view(s: Seq<NodeEffects>) -> Seq<NodeEffectsV> {
    s.map_values(|e: NodeEffects| e@)
}

/// The storage of the first buffer declaration that the reference names, if any.
pub open spec fn storage_of(k: Kernel, r: MemoryRef) -> Option<StorageId> {
    match find_index(k.buffers@, r.buffer_of()@) {
        Some(i) => Some(k.buffers@[i].ty.storage),
        None => None,
    }
}

pub open spec fn memory_access(k: Kernel, r: MemoryRef, mode: AccessMode, event: Option<EventId>) -> Access {
    Access { target: AccessTarget::Memory(r), storage: storage_of(k, r), mode, pending_until: event }
}

pub open spec fn accumulator_access(id: AccumulatorId, mode: AccessMode, event: Option<EventId>) -> Access {
    Access { target: AccessTarget::Accumulator(id), storage: None, mode, pending_until: event }
}

/// A summary with nothing but the node's identity and its role/iteration domain.
pub open spec fn blank_effect(
    n: ScheduleNode,
    role: Option<RoleId>,
    it: Option<(PipelineId, ValueId)>,
) -> NodeEffectsV {
    NodeEffectsV {
        node: n.meta.node_id,
        role,
        pipeline_iteration: it,
        produces: seq![],
        publishes: seq![],
        join_scope: None,
        accesses: seq![],
        observes: seq![],
        transitions: seq![],
    }
}

/// What a node accesses, produces, publishes, observes and transitions, recomputed
/// from its payload alone.
pub open spec fn node_effect(
    k: Kernel,
    n: ScheduleNode,
    role: Option<RoleId>,
    it: Option<(PipelineId, ValueId)>,
) -> NodeEffectsV {
    let e = blank_effect(n, role, it);
    match n.kind {
        ScheduleNodeKind::Load { source, .. } => NodeEffectsV {
            accesses: seq![memory_access(k, source, AccessMode::Read, None)],
            ..e
        },
        ScheduleNodeKind::Store { destination, .. } => NodeEffectsV {
            accesses: seq![memory_access(k, destination, AccessMode::Write, None)],
            ..e
        },
        ScheduleNodeKind::AsyncCopy { source, destination, completion, .. } => NodeEffectsV {
            produces: seq![completion],
            accesses: seq![
                memory_access(k, source, AccessMode::Read, Some(completion)),
                memory_access(k, destination, AccessMode::Write, Some(completion)),
            ],
            ..e
        },
        ScheduleNodeKind::Sqmma { accumulator, a, b, completion, .. } => NodeEffectsV {
            produces: seq![completion],
            accesses: seq![
                memory_access(k, a, AccessMode::Read, Some(completion)),
                memory_access(k, b, AccessMode::Read, Some(completion)),
                accumulator_access(accumulator, AccessMode::ReadWrite, Some(completion)),
            ],
            ..e
        },
        ScheduleNodeKind::AccumulatorInit { accumulator, .. } => NodeEffectsV {
            accesses: seq![accumulator_access(accumulator, AccessMode::Write, None)],
            ..e
        },
        ScheduleNodeKind::AccumulatorRead { accumulator, .. } => NodeEffectsV {
            accesses: seq![accumulator_access(accumulator, AccessMode::Read, None)],
            ..e
        },
        ScheduleNodeKind::AwaitEvent { event } => NodeEffectsV { observes: seq![event], ..e },
        ScheduleNodeKind::PipelineAcquire { ticket, .. } => NodeEffectsV {
            transitions: seq![Transition::Acquire(ticket)],
            ..e
        },
        ScheduleNodeKind::PipelineConsume { ticket, .. } => NodeEffectsV {
            transitions: seq![Transition::Consume(ticket)],
            ..e
        },
        ScheduleNodeKind::PipelinePublish { ticket, events } => NodeEffectsV {
            transitions: seq![Transition::Publish(ticket)],
            publishes: events@,
            ..e
        },
        ScheduleNodeKind::ConcurrentRoles { join_scope, .. } => NodeEffectsV {
            join_scope: Some(join_scope),
            ..e
        },
        ScheduleNodeKind::PipelineRelease { ticket } => NodeEffectsV {
            transitions: seq![Transition::Release(ticket)],
            ..e
        },
        ScheduleNodeKind::PipelineDrain { pipeline } => NodeEffectsV {
            transitions: seq![Transition::Drain(pipeline)],
            ..e
        },
        _ => e,
    }
}

/// What node `n` changes when it runs: a store or an asynchronous copy its destination
/// memory; an accumulator initialization or an SQMMA its accumulator.
pub open spec fn modifies(n: ScheduleNode, t: AccessTarget) -> bool {
    match n.kind {
        ScheduleNodeKind::Store { destination, .. } => t == AccessTarget::Memory(destination),
        ScheduleNodeKind::AsyncCopy { destination, .. } => t == AccessTarget::Memory(destination),
        ScheduleNodeKind::AccumulatorInit { accumulator, .. } => t == AccessTarget::Accumulator(accumulator),
        ScheduleNodeKind::Sqmma { accumulator, .. } => t == AccessTarget::Accumulator(accumulator),
        _ => false,
    }
}

/// What node `n` reads when it runs: a load or an asynchronous copy its source memory;
/// an SQMMA its two operands and its accumulator; an accumulator read its accumulator.
pub open spec fn reads(n: ScheduleNode, t: AccessTarget) -> bool {
    match n.kind {
        ScheduleNodeKind::Load { source, .. } => t == AccessTarget::Memory(source),
        ScheduleNodeKind::AsyncCopy { source, .. } => t == AccessTarget::Memory(source),
        ScheduleNodeKind::Sqmma { accumulator, a, b, .. } => t == AccessTarget::Memory(a) || t == AccessTarget::Memory(b)
            || t == AccessTarget::Accumulator(accumulator),
        ScheduleNodeKind::AccumulatorRead { accumulator, .. } => t == AccessTarget::Accumulator(accumulator),
        _ => false,
    }
}

pub open spec fn writes_in(m: AccessMode) -> bool {
    m == AccessMode::Write || m == AccessMode::ReadWrite
}

pub open spec fn reads_in(m: AccessMode) -> bool {
    m == AccessMode::Read || m == AccessMode::ReadWrite
}

/// A node's summary reports exactly what it touches: everything the node changes has a
/// writing access in it and everything it reads a reading access; every writing access
/// is to something the node changes and every reading access to something it reads.
pub proof fn lemma_effect_accesses(k: Kernel, n: ScheduleNode, role: Option<RoleId>, it: Option<(PipelineId, ValueId)>)
    ensures
        forall|t: AccessTarget|
            #[trigger] modifies(n, t) ==> exists|i: int|
                0 <= i < node_effect(k, n, role, it).accesses.len() && (#[trigger] node_effect(k, n, role, it).accesses[i]).target
                    == t && writes_in(node_effect(k, n, role, it).accesses[i].mode),
        forall|t: AccessTarget|
            #[trigger] reads(n, t) ==> exists|i: int|
                0 <= i < node_effect(k, n, role, it).accesses.len() && (#[trigger] node_effect(k, n, role, it).accesses[i]).target
                    == t && reads_in(node_effect(k, n, role, it).accesses[i].mode),
        forall|i: int|
            0 <= i < node_effect(k, n, role, it).accesses.len() ==> (writes_in(
                (#[trigger] node_effect(k, n, role, it).accesses[i]).mode,
            ) ==> modifies(n, node_effect(k, n, role, it).accesses[i].target)) && (reads_in(
                node_effect(k, n, role, it).accesses[i].mode,
            ) ==> reads(n, node_effect(k, n, role, it).accesses[i].target)),
{
    let acc = node_effect(k, n, role, it).accesses;
    assert forall|t: AccessTarget| #[trigger] modifies(n, t) implies exists|i: int|
        0 <= i < acc.len() && (#[trigger] acc[i]).target == t && writes_in(acc[i].mode) by {
        match n.kind {
            ScheduleNodeKind::Store { .. } => assert(acc[0].target == t),
            ScheduleNodeKind::AsyncCopy { .. } => assert(acc[1].target == t),
            ScheduleNodeKind::AccumulatorInit { .. } => assert(acc[0].target == t),
            ScheduleNodeKind::Sqmma { .. } => assert(acc[2].target == t),
            _ => {},
        }
    }
    assert forall|t: AccessTarget| #[trigger] reads(n, t) implies exists|i: int|
        0 <= i < acc.len() && (#[trigger] acc[i]).target == t && reads_in(acc[i].mode) by {
        match n.kind {
            ScheduleNodeKind::Load { .. } => assert(acc[0].target == t),
            ScheduleNodeKind::AsyncCopy { .. } => assert(acc[0].target == t),
            ScheduleNodeKind::AccumulatorRead { .. } => assert(acc[0].target == t),
            ScheduleNodeKind::Sqmma { accumulator, a, b, .. } => {
                if t == AccessTarget::Memory(a) {
                    assert(acc[0].target == t);
                } else if t == AccessTarget::Memory(b) {
                    assert(acc[1].target == t);
                } else {
                    assert(acc[2].target == t);
                }
            },
            _ => {},
        }
    }
}

/// A node's summary reports exactly its protocol steps: a ticket step for each ticket the
/// node acquires, consumes, publishes or releases, and a drain for each pipeline it
/// drains; each reported step is one the node takes. It reports as produced exactly the
/// completion of an asynchronous copy or SQMMA, and as observed exactly the event that
/// it awaits.
pub proof fn lemma_effect_protocol(k: Kernel, n: ScheduleNode, role: Option<RoleId>, it: Option<(PipelineId, ValueId)>)
    ensures
        forall|i: int|
            0 <= i < node_effect(k, n, role, it).transitions.len() ==> match #[trigger] node_effect(k, n, role, it).transitions[i] {
                Transition::Acquire(t) => n.kind matches ScheduleNodeKind::PipelineAcquire { ticket, .. } && ticket == t,
                Transition::Consume(t) => n.kind matches ScheduleNodeKind::PipelineConsume { ticket, .. } && ticket == t,
                Transition::Publish(t) => n.kind matches ScheduleNodeKind::PipelinePublish { ticket, .. } && ticket == t,
                Transition::Release(t) => n.kind matches ScheduleNodeKind::PipelineRelease { ticket } && ticket == t,
                Transition::Drain(p) => n.kind matches ScheduleNodeKind::PipelineDrain { pipeline } && pipeline == p,
            },
        match n.kind {
            ScheduleNodeKind::PipelineAcquire { ticket, .. } => node_effect(k, n, role, it).transitions.contains(
                Transition::Acquire(ticket),
            ),
            ScheduleNodeKind::PipelineConsume { ticket, .. } => node_effect(k, n, role, it).transitions.contains(
                Transition::Consume(ticket),
            ),
            ScheduleNodeKind::PipelinePublish { ticket, events } => node_effect(k, n, role, it).transitions.contains(
                Transition::Publish(ticket),
            ) && node_effect(k, n, role, it).publishes == events@,
            ScheduleNodeKind::PipelineRelease { ticket } => node_effect(k, n, role, it).transitions.contains(
                Transition::Release(ticket),
            ),
            ScheduleNodeKind::PipelineDrain { pipeline } => node_effect(k, n, role, it).transitions.contains(
                Transition::Drain(pipeline),
            ),
            _ => node_effect(k, n, role, it).transitions.len() == 0,
        },
        node_effect(k, n, role, it).produces == match n.kind {
            ScheduleNodeKind::AsyncCopy { completion, .. } => seq![completion],
            ScheduleNodeKind::Sqmma { completion, .. } => seq![completion],
            _ => Seq::<EventId>::empty(),
        },
        node_effect(k, n, role, it).observes == match n.kind {
            ScheduleNodeKind::AwaitEvent { event } => seq![event],
            _ => Seq::<EventId>::empty(),
        },
        node_effect(k, n, role, it).node == n.meta.node_id,
        node_effect(k, n, role, it).role == role,
        node_effect(k, n, role, it).pipeline_iteration == it,
{
    let e = node_effect(k, n, role, it);
    match n.kind {
        ScheduleNodeKind::PipelineAcquire { ticket, .. } => assert(e.transitions[0] == Transition::Acquire(ticket)),
        ScheduleNodeKind::PipelineConsume { ticket, .. } => assert(e.transitions[0] == Transition::Consume(ticket)),
        ScheduleNodeKind::PipelinePublish { ticket, .. } => assert(e.transitions[0] == Transition::Publish(ticket)),
        ScheduleNodeKind::PipelineRelease { ticket } => assert(e.transitions[0] == Transition::Release(ticket)),
        ScheduleNodeKind::PipelineDrain { pipeline } => assert(e.transitions[0] == Transition::Drain(pipeline)),
        _ => {},
    }
}

/// The summaries of a region in preorder: each node, then its nested regions. Role
/// bodies run in their role; a pipeline loop body runs in its pipeline iteration.
pub open spec fn walk_nodes(
    k: Kernel,
    nodes: Seq<ScheduleNode>,
    role: Option<RoleId>,
    it: Option<(PipelineId, ValueId)>,
) -> Seq<NodeEffectsV>
    decreases nodes, 0nat,
{
    if nodes.len() == 0 {
        seq![]
    } else {
        walk_nodes(k, nodes.drop_last(), role, it) + walk_node(k, nodes.last(), role, it)
    }
}

pub open spec fn walk_node(
    k: Kernel,
    n: ScheduleNode,
    role: Option<RoleId>,
    it: Option<(PipelineId, ValueId)>,
) -> Seq<NodeEffectsV>
    decreases n, 1nat,
{
    seq![node_effect(k, n, role, it)] + match n.kind {
        ScheduleNodeKind::ConcurrentRoles { roles, .. } => walk_roles(k, roles@, it),
        ScheduleNodeKind::PipelineFor { pipeline, iteration, body } => walk_nodes(
            k,
            body@,
            role,
            Some((pipeline, iteration.id)),
        ),
        ScheduleNodeKind::If { then_body, else_body, .. } => walk_nodes(k, then_body@, role, it)
            + walk_nodes(k, else_body@, role, it),
        ScheduleNodeKind::For { body, .. } => walk_nodes(k, body@, role, it),
        _ => seq![],
    }
}

pub open spec fn walk_roles(
    k: Kernel,
    roles: Seq<RoleRegion>,
    it: Option<(PipelineId, ValueId)>,
) -> Seq<NodeEffectsV>
    decreases roles, 0nat,
{
    if roles.len() == 0 {
        seq![]
    } else {
        walk_roles(k, roles.drop_last(), it) + walk_nodes(
            k,
            roles.last().body@,
            Some(roles.last().role),
            it,
        )
    }
}

/// The summaries of every kernel of the module, kernel by kernel.
pub open spec fn module_effects(kernels: Seq<Kernel>) -> Seq<NodeEffectsV>
    decreases kernels.len(),
{
    if kernels.len() == 0 {
        seq![]
    } else {
        module_effects(kernels.drop_last()) + walk_nodes(
            kernels.last(),
            kernels.last().body@,
            None,
            None,
        )
    }
}

fn memory(kernel: &Kernel, reference: &MemoryRef, mode: AccessMode, event: Option<EventId>) -> (r: Access)
    ensures
        r == memory_access(*kernel, *reference, mode, event),
{
    let storage = match find(&kernel.buffers, &reference.buffer_id().0) {
        Some(i) => Some(kernel.buffers[i].ty.storage.dup()),
        None => None,
    };
    Access { target: AccessTarget::Memory(reference.dup()), storage, mode, pending_until: event }
}

fn one<T>(x: T) -> (r: Vec<T>)
    ensures
        r@ == seq![x],
{
    let mut r = Vec::new();
    r.push(x);
    r
}

fn effect_of(
    kernel: &Kernel,
    node: &ScheduleNode,
    role: &Option<RoleId>,
    iteration: &Option<(PipelineId, ValueId)>,
) -> (r: NodeEffects)
    ensures
        r@ == node_effect(*kernel, *node, *role, *iteration),
{
    let mut effect = NodeEffects {
        node: node.meta.node_id.dup(),
        role: role.dup(),
        pipeline_iteration: iteration.dup(),
        produces: Vec::new(),
        publishes: Vec::new(),
        join_scope: None,
        accesses: Vec::new(),
        observes: Vec::new(),
        transitions: Vec::new(),
    };
    match &node.kind {
        ScheduleNodeKind::Load { source, .. } => {
            effect.accesses = one(memory(kernel, source, AccessMode::Read, None));
        },
        ScheduleNodeKind::Store { destination, .. } => {
            effect.accesses = one(memory(kernel, destination, AccessMode::Write, None));
        },
        ScheduleNodeKind::AsyncCopy { source, destination, completion, .. } => {
            effect.produces = one(completion.dup());
            effect.accesses.push(memory(kernel, source, AccessMode::Read, Some(completion.dup())));
            effect.accesses.push(
                memory(kernel, destination, AccessMode::Write, Some(completion.dup())),
            );
        },
        ScheduleNodeKind::Sqmma { accumulator, a, b, completion, .. } => {
            effect.produces = one(completion.dup());
            effect.accesses.push(memory(kernel, a, AccessMode::Read, Some(completion.dup())));
            effect.accesses.push(memory(kernel, b, AccessMode::Read, Some(completion.dup())));
            effect.accesses.push(
                Access {
                    target: AccessTarget::Accumulator(accumulator.dup()),
                    storage: None,
                    mode: AccessMode::ReadWrite,
                    pending_until: Some(completion.dup()),
                },
            );
        },
        ScheduleNodeKind::AccumulatorInit { accumulator, .. } => {
            effect.accesses = one(
                Access {
                    target: AccessTarget::Accumulator(accumulator.dup()),
                    storage: None,
                    mode: AccessMode::Write,
                    pending_until: None,
                },
            );
        },
        ScheduleNodeKind::AccumulatorRead { accumulator, .. } => {
            effect.accesses = one(
                Access {
                    target: AccessTarget::Accumulator(accumulator.dup()),
                    storage: None,
                    mode: AccessMode::Read,
                    pending_until: None,
                },
            );
        },
        ScheduleNodeKind::AwaitEvent { event } => {
            effect.observes = one(event.dup());
        },
        ScheduleNodeKind::PipelineAcquire { ticket, .. } => {
            effect.transitions = one(Transition::Acquire(ticket.dup()));
        },
        ScheduleNodeKind::PipelineConsume { ticket, .. } => {
            effect.transitions = one(Transition::Consume(ticket.dup()));
        },
        ScheduleNodeKind::PipelinePublish { ticket, events } => {
            effect.transitions = one(Transition::Publish(ticket.dup()));
            effect.publishes = dup_vec(events);
        },
        ScheduleNodeKind::ConcurrentRoles { join_scope, .. } => {
            effect.join_scope = Some(*join_scope);
        },
        ScheduleNodeKind::PipelineRelease { ticket } => {
            effect.transitions = one(Transition::Release(ticket.dup()));
        },
        ScheduleNodeKind::PipelineDrain { pipeline } => {
            effect.transitions = one(Transition::Drain(pipeline.dup()));
        },
        _ => {},
    }
    assert(effect@.accesses =~= node_effect(*kernel, *node, *role, *iteration).accesses);
    effect
}

fn walk_region(
    kernel: &Kernel,
    region: &Vec<ScheduleNode>,
    role: &Option<RoleId>,
    iteration: &Option<(PipelineId, ValueId)>,
    result: &mut Vec<NodeEffects>,
)
    ensures
        effects_view(final(result)@) == effects_view(old(result)@) + walk_nodes(
            *kernel,
            region@,
            *role,
            *iteration,
        ),
    decreases region@, 2nat,
{
    let mut i: usize = 0;
    while i < region.len()
        invariant
            i <= region@.len(),
            effects_view(result@) == effects_view(old(result)@) + walk_nodes(
                *kernel,
                region@.take(i as int),
                *role,
                *iteration,
            ),
        decreases region@.len() - i,
    {
        let ghost before = result@;
        proof {
            assert(decreases_to!(region@ => region@[i as int]));
        }
        walk_one(kernel, &region[i], role, iteration, result);
        proof {
            assert(region@.take(i + 1).drop_last() =~= region@.take(i as int));
            assert(region@.take(i + 1).last() == region@[i as int]);
            assert(effects_view(result@) =~= effects_view(old(result)@) + walk_nodes(
                *kernel,
                region@.take(i + 1),
                *role,
                *iteration,
            ));
        }
        i = i + 1;
    }
    assert(region@.take(region@.len() as int) =~= region@);
}

fn walk_one(
    kernel: &Kernel,
    node: &ScheduleNode,
    role: &Option<RoleId>,
    iteration: &Option<(PipelineId, ValueId)>,
    result: &mut Vec<NodeEffects>,
)
    ensures
        effects_view(final(result)@) == effects_view(old(result)@) + walk_node(
            *kernel,
            *node,
            *role,
            *iteration,
        ),
    decreases *node, 1nat,
{
    let effect = effect_of(kernel, node, role, iteration);
    result.push(effect);
    let ghost mid = result@;
    assert(effects_view(mid) =~= effects_view(old(result)@) + seq![node_effect(*kernel, *node, *role, *iteration)]);
    match &node.kind {
        ScheduleNodeKind::ConcurrentRoles { roles, .. } => {
            walk_role_regions(kernel, roles, iteration, result);
        },
        ScheduleNodeKind::PipelineFor { pipeline, iteration: induction, body } => {
            let inner = Some((pipeline.dup(), induction.id.dup()));
            walk_region(kernel, body, role, &inner, result);
        },
        ScheduleNodeKind::If { then_body, else_body, .. } => {
            walk_region(kernel, then_body, role, iteration, result);
            walk_region(kernel, else_body, role, iteration, result);
        },
        ScheduleNodeKind::For { body, .. } => {
            walk_region(kernel, body, role, iteration, result);
        },
        _ => {},
    }
    assert(effects_view(final(result)@) =~= effects_view(old(result)@) + walk_node(
        *kernel,
        *node,
        *role,
        *iteration,
    ));
}

fn walk_role_regions(
    kernel: &Kernel,
    roles: &Vec<RoleRegion>,
    iteration: &Option<(PipelineId, ValueId)>,
    result: &mut Vec<NodeEffects>,
)
    ensures
        effects_view(final(result)@) == effects_view(old(result)@) + walk_roles(
            *kernel,
            roles@,
            *iteration,
        ),
    decreases roles@, 2nat,
{
    let mut i: usize = 0;
    while i < roles.len()
        invariant
            i <= roles@.len(),
            effects_view(result@) == effects_view(old(result)@) + walk_roles(
                *kernel,
                roles@.take(i as int),
                *iteration,
            ),
        decreases roles@.len() - i,
    {
        proof {
            assert(decreases_to!(roles@ => roles@[i as int]));
        }
        let role = Some(roles[i].role.dup());
        walk_region(kernel, &roles[i].body, &role, iteration, result);
        proof {
            assert(roles@.take(i + 1).drop_last() =~= roles@.take(i as int));
            assert(roles@.take(i + 1).last() == roles@[i as int]);
            assert(effects_view(result@) =~= effects_view(old(result)@) + walk_roles(
                *kernel,
                roles@.take(i + 1),
                *iteration,
            ));
        }
        i = i + 1;
    }
    assert(roles@.take(roles@.len() as int) =~= roles@);
}

pub fn derive_effects(module: &Module) -> (r: Vec<NodeEffects>)
    ensures
        effects_view(r@) == module_effects(module.kernels@),
{
    let mut result: Vec<NodeEffects> = Vec::new();
    let mut i: usize = 0;
    assert(effects_view(result@) =~= module_effects(module.kernels@.take(0)));
    while i < module.kernels.len()
        invariant
            i <= module.kernels@.len(),
            effects_view(result@) == module_effects(module.kernels@.take(i as int)),
        decreases module.kernels@.len() - i,
    {
        let kernel = &module.kernels[i];
        walk_region(kernel, &kernel.body, &None, &None, &mut result);
        proof {
            assert(module.kernels@.take(i + 1).drop_last() =~= module.kernels@.take(i as int));
        }
        i = i + 1;
    }
    assert(module.kernels@.take(module.kernels@.len() as int) =~= module.kernels@);
    result
}


/// The node ID of each summary, by its text.
pub open spec fn effect_nodes(s: Seq<NodeEffectsV>) -> Seq<Seq<char>> {
    s.map_values(|e: NodeEffectsV| e.node@)
}

proof fn lemma_effect_nodes_append(a: Seq<NodeEffectsV>, b: Seq<NodeEffectsV>)
    ensures
        effect_nodes(a + b) == effect_nodes(a) + effect_nodes(b),
{
    assert(effect_nodes(a + b) =~= effect_nodes(a) + effect_nodes(b));
}

proof fn lemma_walk_nodes_ids(k: Kernel, nodes: Seq<ScheduleNode>, role: Option<RoleId>, it: Option<(PipelineId, ValueId)>)
    ensures
        effect_nodes(walk_nodes(k, nodes, role, it)) == crate::builder::region_ids(nodes),
    decreases nodes, 0nat,
{
    if nodes.len() == 0 {
        assert(effect_nodes(seq![]) =~= Seq::<Seq<char>>::empty());
    } else {
        lemma_walk_nodes_ids(k, nodes.drop_last(), role, it);
        lemma_walk_node_ids(k, nodes.last(), role, it);
        lemma_effect_nodes_append(walk_nodes(k, nodes.drop_last(), role, it), walk_node(k, nodes.last(), role, it));
    }
}

proof fn lemma_walk_node_ids(k: Kernel, n: ScheduleNode, role: Option<RoleId>, it: Option<(PipelineId, ValueId)>)
    ensures
        effect_nodes(walk_node(k, n, role, it)) == crate::builder::node_ids(n),
    decreases n, 1nat,
{
    let head = seq![node_effect(k, n, role, it)];
    assert(effect_nodes(head) =~= seq![n.meta.node_id@]);
    match n.kind {
        ScheduleNodeKind::ConcurrentRoles { roles, .. } => {
            lemma_walk_roles_ids(k, roles@, it);
            lemma_effect_nodes_append(head, walk_roles(k, roles@, it));
        },
        ScheduleNodeKind::PipelineFor { pipeline, iteration, body } => {
            lemma_walk_nodes_ids(k, body@, role, Some((pipeline, iteration.id)));
            lemma_effect_nodes_append(head, walk_nodes(k, body@, role, Some((pipeline, iteration.id))));
        },
        ScheduleNodeKind::If { then_body, else_body, .. } => {
            lemma_walk_nodes_ids(k, then_body@, role, it);
            lemma_walk_nodes_ids(k, else_body@, role, it);
            lemma_effect_nodes_append(walk_nodes(k, then_body@, role, it), walk_nodes(k, else_body@, role, it));
            lemma_effect_nodes_append(head, walk_nodes(k, then_body@, role, it) + walk_nodes(k, else_body@, role, it));
        },
        ScheduleNodeKind::For { body, .. } => {
            lemma_walk_nodes_ids(k, body@, role, it);
            lemma_effect_nodes_append(head, walk_nodes(k, body@, role, it));
        },
        _ => {
            assert(walk_node(k, n, role, it) =~= head);
            assert(crate::builder::node_ids(n) =~= seq![n.meta.node_id@]);
        },
    }
}

proof fn lemma_walk_roles_ids(k: Kernel, roles: Seq<RoleRegion>, it: Option<(PipelineId, ValueId)>)
    ensures
        effect_nodes(walk_roles(k, roles, it)) == crate::builder::roles_ids(roles),
    decreases roles, 0nat,
{
    if roles.len() == 0 {
        assert(effect_nodes(seq![]) =~= Seq::<Seq<char>>::empty());
    } else {
        lemma_walk_roles_ids(k, roles.drop_last(), it);
        let r = roles.last();
        lemma_walk_nodes_ids(k, r.body@, Some(r.role), it);
        lemma_effect_nodes_append(walk_roles(k, roles.drop_last(), it), walk_nodes(k, r.body@, Some(r.role), it));
    }
}

/// The effect summaries of a module come one per node, in the preorder of node IDs,
/// kernel by kernel.
pub proof fn lemma_effects_follow_nodes(kernels: Seq<Kernel>)
    ensures
        effect_nodes(module_effects(kernels)) == crate::builder::module_ids(kernels),
    decreases kernels.len(),
{
    if kernels.len() == 0 {
        assert(effect_nodes(seq![]) =~= Seq::<Seq<char>>::empty());
    } else {
        lemma_effects_follow_nodes(kernels.drop_last());
        let k = kernels.last();
        lemma_walk_nodes_ids(k, k.body@, None, None);
        lemma_effect_nodes_append(module_effects(kernels.drop_last()), walk_nodes(k, k.body@, None, None));
    }
}

} // verus!
