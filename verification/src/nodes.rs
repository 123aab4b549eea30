//! The checks of a single schedule node that opens no nested region.
use crate::access::{
    sqmma_group, spec_accumulator, spec_memory, spec_protocol, spec_ready, storage_clash,
};
use crate::ast::{
    Kernel, LaunchBuiltin, Literal, ScheduleNode, ScheduleNodeKind, ValueDef,
};
use crate::checker::{
    Checker, Context, Ctx, Event, State, lemma_types_view_keys, node_of, quote_id, spec_define,
    spec_expect, with_error,
};
use crate::diagnostic::DiagnosticCode;
use crate::checker::literal_fits;
use crate::lookup::{Dup, add_key, contains, find, find_index, has_key, put, put_entry, with_key};
use crate::text::text;
use crate::types::{
    AccumulatorId, AddressSpace, BufferId, EventId, MemoryRef, PipelineId, TicketId, TypeRef,
    TypeRefV, ValueId, exprs_view,
};
use vstd::prelude::*;

verus! {

/// How a region must end: the kernel body with `KernelReturn`, a structured value region
/// with a `Yield` of the given types, a role body or a pipeline loop body freely.
pub enum Ending {
    Kernel,
    Yield(Vec<TypeRef>),
    Role,
    Pipeline,
}

/// An ending with the yield types taken by view.
pub enum EndingV {
    Kernel,
    Yield(Seq<TypeRefV>),
    Role,
    Pipeline,
}

pub open spec fn types_of(s: Seq<TypeRef>) -> Seq<TypeRefV> {
    s.map_values(|t: TypeRef| t@)
}

impl View for Ending {
    type V = EndingV;

    open spec fn view(&self) -> EndingV {
        match self {
            Ending::Kernel => EndingV::Kernel,
            Ending::Yield(types) => EndingV::Yield(types_of(types@)),
            Ending::Role => EndingV::Role,
            Ending::Pipeline => EndingV::Pipeline,
        }
    }
}

/// A node ID must be nonempty and new to the module; a new one is recorded.
pub open spec fn spec_node_id(st: State, n: ScheduleNode) -> State {
    let id = n.meta.node_id;
    if id@.len() == 0 || has_key(st.node_ids, id@) {
        with_error(st, Some(n), DiagnosticCode::DuplicateSymbol, "node IDs must be nonempty and unique across the module"@)
    } else {
        State { node_ids: st.node_ids.push(id), ..st }
    }
}

pub open spec fn dominate_message(id: Seq<char>) -> Seq<char> {
    "value '"@ + id + "' does not dominate this use"@
}

/// Every operand must already be defined in this region, in operand order.
pub open spec fn spec_operands(st: State, c: Ctx, n: ScheduleNode, ids: Seq<ValueId>) -> State
    decreases ids.len(),
{
    if ids.len() == 0 {
        st
    } else {
        let s1 = spec_operands(st, c, n, ids.drop_last());
        if has_key(c.values, ids.last()@) {
            s1
        } else {
            with_error(s1, Some(n), DiagnosticCode::UnknownSymbol, dominate_message(ids.last()@))
        }
    }
}

/// The node's results are defined in order.
pub open spec fn spec_defines(st: State, c: Ctx, defs: Seq<ValueDef>, n: ScheduleNode) -> (State, Ctx)
    decreases defs.len(),
{
    if defs.len() == 0 {
        (st, c)
    } else {
        let (s1, c1) = spec_defines(st, c, defs.drop_last(), n);
        spec_define(s1, c1, defs.last(), Some(n))
    }
}

/// `KernelReturn` stands last in the kernel body.
pub open spec fn spec_kernel_return(st: State, n: ScheduleNode, last: bool, ending: EndingV) -> State {
    if !(ending is Kernel) || !last {
        with_error(st, Some(n), DiagnosticCode::InvalidControlFlow, "KernelReturn is only allowed at the end of the outer kernel region"@)
    } else {
        st
    }
}

/// The first `m` yielded values are used at the expected types, in order.
pub open spec fn spec_expect_pairs(
    st: State,
    c: Ctx,
    values: Seq<ValueId>,
    types: Seq<TypeRefV>,
    n: ScheduleNode,
    m: int,
) -> State
    decreases m,
{
    if m <= 0 {
        st
    } else {
        spec_expect(spec_expect_pairs(st, c, values, types, n, m - 1), c, values[m - 1], types[m - 1], Some(n))
    }
}

pub open spec fn min(a: int, b: int) -> int {
    if a < b {
        a
    } else {
        b
    }
}

/// `Yield` ends a structured value region with one value of each expected type.
pub open spec fn spec_yield(st: State, c: Ctx, n: ScheduleNode, values: Seq<ValueId>, last: bool, ending: EndingV) -> State {
    match ending {
        EndingV::Yield(expected) => {
            let s1 = if !last || values.len() != expected.len() {
                with_error(st, Some(n), DiagnosticCode::InvalidControlFlow, "invalid region yield arity or position"@)
            } else {
                st
            };
            spec_expect_pairs(s1, c, values, expected, n, min(values.len() as int, expected.len() as int))
        },
        _ => with_error(st, Some(n), DiagnosticCode::InvalidControlFlow, "Yield is not valid in this region"@),
    }
}

/// A constant must fit its type; its value becomes a known, uniform literal.
pub open spec fn spec_constant(st: State, c: Ctx, n: ScheduleNode, value: Literal, result: ValueDef) -> (State, Ctx) {
    let s1 = if !literal_fits(value, result.ty@) {
        with_error(st, Some(n), DiagnosticCode::InvalidType, "literal does not fit the declared result type"@)
    } else {
        st
    };
    (s1, Ctx { literals: put(c.literals, result.id, value), uniform: with_key(c.uniform, result.id), ..c })
}

/// A launch coordinate is an index; all but the thread index are uniform across the block.
pub open spec fn spec_launch(st: State, c: Ctx, n: ScheduleNode, builtin: LaunchBuiltin, result: ValueDef) -> (State, Ctx) {
    let s1 = if result.ty@ != TypeRefV::Index {
        with_error(st, Some(n), DiagnosticCode::InvalidType, "LaunchIndex result must be Index"@)
    } else {
        st
    };
    (s1, if builtin == LaunchBuiltin::ThreadIdxX {
        c
    } else {
        Ctx { uniform: with_key(c.uniform, result.id), ..c }
    })
}

/// The buffer declaration at a position found by a memory check.
pub open spec fn decl_at(k: Kernel, pos: Option<int>) -> Option<crate::ast::BufferDecl> {
    match pos {
        Some(i) => Some(k.buffers@[i]),
        None => None,
    }
}

/// A masked load: the source is read; the mask is a predicate; the masked value has the
/// result type; the indices address the buffer; the result has the buffer's dtype.
pub open spec fn spec_load(
    st: State,
    c: Ctx,
    k: Kernel,
    n: ScheduleNode,
    source: MemoryRef,
    indices: Seq<ValueId>,
    mask: ValueId,
    masked: ValueId,
    result: ValueDef,
) -> State {
    let (s1, pos) = spec_memory(st, c, k, Some(n), source, false);
    let buffer = decl_at(k, pos);
    let s2 = spec_expect(s1, c, mask, TypeRefV::Predicate, Some(n));
    let s3 = spec_expect(s2, c, masked, result.ty@, Some(n));
    let s4 = crate::access::spec_access_indices(s3, c, Some(n), indices, buffer);
    match buffer {
        Some(b) => if result.ty@ != TypeRefV::Scalar(b.ty.element) {
            with_error(s4, Some(n), DiagnosticCode::InvalidType, "scalar load result must match buffer dtype"@)
        } else {
            s4
        },
        None => s4,
    }
}

/// A masked store: the destination is written; the mask is a predicate; the indices
/// address the buffer; the stored value has the buffer's dtype.
pub open spec fn spec_store(
    st: State,
    c: Ctx,
    k: Kernel,
    n: ScheduleNode,
    destination: MemoryRef,
    indices: Seq<ValueId>,
    value: ValueId,
    mask: ValueId,
) -> State {
    let (s1, pos) = spec_memory(st, c, k, Some(n), destination, true);
    let buffer = decl_at(k, pos);
    let s2 = spec_expect(s1, c, mask, TypeRefV::Predicate, Some(n));
    let s3 = crate::access::spec_access_indices(s2, c, Some(n), indices, buffer);
    match buffer {
        Some(b) => spec_expect(s3, c, value, TypeRefV::Scalar(b.ty.element), Some(n)),
        None => s3,
    }
}

/// A drain follows the role's own complete, unconditional loop of the pipeline.
pub open spec fn spec_drain(st: State, c: Ctx, n: ScheduleNode, pipeline: PipelineId) -> (State, Ctx) {
    let s1 = if c.conditional || c.pipeline is Some || !has_key(c.loops, pipeline@) {
        with_error(st, Some(n), DiagnosticCode::InvalidPipeline, "drain must follow the matching role's complete pipeline loop"@)
    } else {
        st
    };
    (s1, Ctx { drained: with_key(c.drained, pipeline), ..c })
}

/// The event writes exactly the leased buffer `w`.
pub open spec fn writes_lease(e: Event, w: (BufferId, TicketId)) -> bool {
    e.writes matches Some((b, t)) && b@ == w.0@ && t@ == w.1@
}

/// One finding per pending event that still writes the same lease.
pub open spec fn spec_write_scan(st: State, n: ScheduleNode, events: Seq<(EventId, Event)>, w: (BufferId, TicketId)) -> State
    decreases events.len(),
{
    if events.len() == 0 {
        st
    } else {
        let s1 = spec_write_scan(st, n, events.drop_last(), w);
        let e = events.last().1;
        if !e.ready && writes_lease(e, w) {
            with_error(s1, Some(n), DiagnosticCode::PendingAccess, "an earlier async write to this leased buffer is still pending"@)
        } else {
            s1
        }
    }
}

/// The lease that an asynchronous copy writes.
pub open spec fn copy_writes(destination: MemoryRef) -> Option<(BufferId, TicketId)> {
    match destination {
        MemoryRef::Leased { buffer, ticket } => Some((buffer, ticket)),
        MemoryRef::Buffer(_) => None,
    }
}

/// An asynchronous whole-view copy into a producer lease, completing at `completion`.
pub open spec fn spec_async_copy(
    st: State,
    c: Ctx,
    k: Kernel,
    n: ScheduleNode,
    source: MemoryRef,
    destination: MemoryRef,
    transfer: Seq<char>,
    completion: EventId,
) -> (State, Ctx) {
    let s0 = spec_protocol(st, c, Some(n));
    let (s1, src) = spec_memory(s0, c, k, Some(n), source, false);
    let (s2, dst) = spec_memory(s1, c, k, Some(n), destination, true);
    let s3 = if storage_clash(k, source, destination) {
        with_error(s2, Some(n), DiagnosticCode::InvalidResource, "AsyncCopy source and destination may overlap"@)
    } else {
        s2
    };
    let s4 = if transfer.len() == 0 {
        with_error(s3, Some(n), DiagnosticCode::UnsupportedCapability, "transfer requires an explicit target spec"@)
    } else {
        s3
    };
    let s5 = match (src, dst) {
        (Some(i), Some(j)) => if exprs_view(k.buffers@[i].ty.shape@) != exprs_view(k.buffers@[j].ty.shape@)
            || k.buffers@[i].ty.element != k.buffers@[j].ty.element {
            with_error(s4, Some(n), DiagnosticCode::InvalidType, "whole-view AsyncCopy requires matching shapes and dtypes"@)
        } else {
            s4
        },
        _ => s4,
    };
    let writes = copy_writes(destination);
    let s6 = match writes {
        Some(w) => spec_write_scan(s5, n, c.events, w),
        None => with_error(s5, Some(n), DiagnosticCode::InvalidTicket, "this AsyncCopy subset requires a producer-leased destination"@),
    };
    crate::access::spec_event(
        s6,
        c,
        Some(n),
        completion,
        Event { writes, reads: (source, None), accumulator: None, ready: false, published: false },
    )
}

/// Initializing an accumulator: unconditionally, with no pending update, from a scalar
/// of its element type.
pub open spec fn spec_acc_init(st: State, c: Ctx, k: Kernel, n: ScheduleNode, acc: AccumulatorId, value: ValueId) -> (State, Ctx) {
    let s1 = spec_accumulator(st, c, k, Some(n), acc);
    let s2 = if c.conditional || has_key(c.pending, acc@) {
        with_error(s1, Some(n), DiagnosticCode::PendingAccess, "accumulator initialization requires unconditional execution and no pending update"@)
    } else {
        s1
    };
    let s3 = match find_index(k.accumulators@, acc@) {
        Some(i) => spec_expect(s2, c, value, TypeRefV::Scalar(k.accumulators@[i].ty.element), Some(n)),
        None => s2,
    };
    (s3, Ctx { initialized: with_key(c.initialized, acc), ..c })
}

/// Reading a ready accumulator yields its fragment type.
pub open spec fn spec_acc_read(st: State, c: Ctx, k: Kernel, n: ScheduleNode, acc: AccumulatorId, result: ValueDef) -> State {
    let s1 = spec_accumulator(st, c, k, Some(n), acc);
    let s2 = spec_ready(s1, c, Some(n), acc);
    match find_index(k.accumulators@, acc@) {
        Some(i) => if result.ty@ != TypeRefV::Fragment(k.accumulators@[i].ty@) {
            with_error(s2, Some(n), DiagnosticCode::InvalidType, "accumulator read result must preserve its fragment type"@)
        } else {
            s2
        },
        None => s2,
    }
}

/// Some declared storage with this ID lives in shared memory.
pub open spec fn shared_storage(k: Kernel, storage: Seq<char>) -> bool {
    exists|j: int|
        0 <= j < k.storages@.len() && #[trigger] k.storages@[j].id@ == storage && k.storages@[j].ty.address_space
            == AddressSpace::Shared
}

/// An SQMMA input is read and must be a view of shared memory.
pub open spec fn spec_shared_input(st: State, c: Ctx, k: Kernel, n: ScheduleNode, input: MemoryRef) -> State {
    let (s1, pos) = spec_memory(st, c, k, Some(n), input, false);
    match pos {
        Some(i) => if !shared_storage(k, k.buffers@[i].ty.storage@) {
            with_error(s1, Some(n), DiagnosticCode::InvalidResource, "the supported SQMMA SS contract requires shared-memory inputs"@)
        } else {
            s1
        },
        None => s1,
    }
}

/// The warp-group condition on the role that issues an SQMMA.
pub open spec fn spec_sqmma_role(st: State, c: Ctx, k: Kernel, n: ScheduleNode) -> State {
    match c.role {
        Some(r) => match find_index(k.roles@, r@) {
            Some(i) => if !sqmma_group(k.roles@[i].warps@) {
                with_error(st, Some(n), DiagnosticCode::InvalidParticipation, "MP31 SQMMA requires an aligned group of four consecutive warps in the supported subset"@)
            } else {
                st
            },
            None => st,
        },
        None => st,
    }
}

/// An asynchronous SQMMA update of a ready accumulator from two shared-memory inputs;
/// the accumulator stays pending until `completion` is awaited.
pub open spec fn spec_sqmma(
    st: State,
    c: Ctx,
    k: Kernel,
    n: ScheduleNode,
    acc: AccumulatorId,
    a: MemoryRef,
    b: MemoryRef,
    instruction: Seq<char>,
    completion: EventId,
) -> (State, Ctx) {
    let s0 = spec_protocol(st, c, Some(n));
    let s1 = spec_accumulator(s0, c, k, Some(n), acc);
    let s2 = spec_ready(s1, c, Some(n), acc);
    let s3 = spec_shared_input(s2, c, k, n, a);
    let s4 = spec_shared_input(s3, c, k, n, b);
    let s5 = if instruction.len() == 0 {
        with_error(s4, Some(n), DiagnosticCode::UnsupportedCapability, "SQMMA requires an explicit instruction spec"@)
    } else {
        s4
    };
    let s6 = spec_sqmma_role(s5, c, k, n);
    let (s7, c1) = crate::access::spec_event(
        s6,
        c,
        Some(n),
        completion,
        Event { writes: None, reads: (a, Some(b)), accumulator: Some(acc), ready: false, published: false },
    );
    (s7, Ctx { pending: put(c1.pending, acc, completion), ..c1 })
}

/// The node opens a nested region.
pub open spec fn is_nested(kind: ScheduleNodeKind) -> bool {
    ||| kind is If
    ||| kind is For
    ||| kind is ConcurrentRoles
    ||| kind is PipelineFor
}

/// The checks of a node that opens no nested region, before its results are defined.
pub open spec fn spec_flat(st: State, c: Ctx, k: Kernel, n: ScheduleNode, last: bool, ending: EndingV) -> (State, Ctx) {
    match n.kind {
        ScheduleNodeKind::KernelReturn => (spec_kernel_return(st, n, last, ending), c),
        ScheduleNodeKind::Yield { values } => (spec_yield(st, c, n, values@, last, ending), c),
        ScheduleNodeKind::Constant { value, result } => spec_constant(st, c, n, value, result),
        ScheduleNodeKind::LaunchIndex { builtin, result } => spec_launch(st, c, n, builtin, result),
        ScheduleNodeKind::Binary { op, lhs, rhs, result } => crate::access::spec_binary(
            st,
            c,
            Some(n),
            op,
            lhs,
            rhs,
            result,
        ),
        ScheduleNodeKind::Load { source, indices, mask, masked_value, result } => (
            spec_load(st, c, k, n, source, indices@, mask, masked_value, result),
            c,
        ),
        ScheduleNodeKind::Store { destination, indices, value, mask } => (
            spec_store(st, c, k, n, destination, indices@, value, mask),
            c,
        ),
        ScheduleNodeKind::PipelineAcquire { pipeline, iteration, ticket } => crate::access::spec_acquire(
            st,
            c,
            k,
            Some(n),
            pipeline,
            iteration,
            ticket,
            crate::checker::TicketKind::Producer,
        ),
        ScheduleNodeKind::PipelineConsume { pipeline, iteration, ticket } => crate::access::spec_acquire(
            st,
            c,
            k,
            Some(n),
            pipeline,
            iteration,
            ticket,
            crate::checker::TicketKind::Consumer,
        ),
        ScheduleNodeKind::PipelinePublish { ticket, events } => crate::access::spec_publish(
            st,
            c,
            k,
            Some(n),
            ticket,
            events@,
        ),
        ScheduleNodeKind::PipelineRelease { ticket } => crate::access::spec_release(st, c, Some(n), ticket),
        ScheduleNodeKind::PipelineDrain { pipeline } => spec_drain(st, c, n, pipeline),
        ScheduleNodeKind::AsyncCopy { source, destination, transfer, completion } => spec_async_copy(
            st,
            c,
            k,
            n,
            source,
            destination,
            transfer@,
            completion,
        ),
        ScheduleNodeKind::AccumulatorInit { accumulator, value } => spec_acc_init(st, c, k, n, accumulator, value),
        ScheduleNodeKind::AccumulatorRead { accumulator, result } => (
            spec_acc_read(st, c, k, n, accumulator, result),
            c,
        ),
        ScheduleNodeKind::Sqmma { accumulator, a, b, instruction, completion } => spec_sqmma(
            st,
            c,
            k,
            n,
            accumulator,
            a,
            b,
            instruction@,
            completion,
        ),
        ScheduleNodeKind::AwaitEvent { event } => crate::access::spec_await(st, c, Some(n), event),
        _ => (st, c),
    }
}

fn u32_seen(v: &Vec<u32>, x: u32) -> (r: bool)
    ensures
        r == v@.contains(x),
{
    let mut i: usize = 0;
    while i < v.len()
        invariant
            i <= v@.len(),
            forall|j: int| 0 <= j < i ==> v@[j] != x,
        decreases v@.len() - i,
    {
        if v[i] == x {
            assert(v@[i as int] == x);
            return true;
        }
        i = i + 1;
    }
    false
}

impl<'a> Checker<'a> {
    pub fn node_id(&mut self, node: &ScheduleNode)
        ensures
            final(self)@ == spec_node_id(old(self)@, *node),
            final(self).kernel == old(self).kernel,
    {
        let id = &node.meta.node_id;
        if id.is_empty() || contains(&self.node_ids, &id.0) {
            self.error(Some(node), DiagnosticCode::DuplicateSymbol, text("node IDs must be nonempty and unique across the module"));
        } else {
            self.node_ids.push(id.dup());
        }
    }

    pub fn operands(&mut self, ctx: &Context, node: &ScheduleNode)
        ensures
            final(self)@ == spec_operands(old(self)@, ctx@, *node, node.kind.operand_ids()),
            final(self).kernel == old(self).kernel,
    {
        let ids = node.operands();
        let ghost all = node.kind.operand_ids();
        let mut i: usize = 0;
        while i < ids.len()
            invariant
                i <= ids@.len(),
                crate::ast::derefs(ids@) == all,
                self.kernel == old(self).kernel,
                self@ == spec_operands(old(self)@, ctx@, *node, all.take(i as int)),
            decreases ids@.len() - i,
        {
            let id: &ValueId = ids[i];
            proof {
                assert(all.take(i + 1).drop_last() =~= all.take(i as int));
                assert(all[i as int] == *ids@[i as int]);
                assert(all.take(i + 1).last() == *id);
                lemma_types_view_keys(ctx.values@, id@);
            }
            if !contains(&ctx.values, &id.0) {
                let m = quote_id("value '", &id.0, "' does not dominate this use");
                self.error(Some(node), DiagnosticCode::UnknownSymbol, m);
            }
            i = i + 1;
        }
        assert(all.take(all.len() as int) =~= all);
    }

    pub fn defines(&mut self, ctx: &mut Context, node: &ScheduleNode)
        ensures
            (final(self)@, final(ctx)@) == spec_defines(old(self)@, old(ctx)@, node.kind.result_defs(), *node),
            final(self).kernel == old(self).kernel,
    {
        let defs = node.results();
        let ghost all = node.kind.result_defs();
        let mut i: usize = 0;
        while i < defs.len()
            invariant
                i <= defs@.len(),
                crate::ast::derefs(defs@) == all,
                self.kernel == old(self).kernel,
                (self@, ctx@) == spec_defines(old(self)@, old(ctx)@, all.take(i as int), *node),
            decreases defs@.len() - i,
        {
            let d: &ValueDef = defs[i];
            proof {
                assert(all.take(i + 1).drop_last() =~= all.take(i as int));
                assert(all[i as int] == *defs@[i as int]);
            }
            self.define(ctx, d, Some(node));
            i = i + 1;
        }
        assert(all.take(all.len() as int) =~= all);
    }

    fn yield_values(&mut self, ctx: &Context, node: &ScheduleNode, values: &Vec<ValueId>, last: bool, ending: &Ending)
        ensures
            final(self)@ == spec_yield(old(self)@, ctx@, *node, values@, last, ending@),
            final(self).kernel == old(self).kernel,
    {
        match ending {
            Ending::Yield(expected) => {
                if !last || values.len() != expected.len() {
                    self.error(Some(node), DiagnosticCode::InvalidControlFlow, text("invalid region yield arity or position"));
                }
                let m: usize = if values.len() < expected.len() { values.len() } else { expected.len() };
                let ghost s1 = self@;
                let mut i: usize = 0;
                while i < m
                    invariant
                        i <= m,
                        m <= values@.len(),
                        m <= expected@.len(),
                        self.kernel == old(self).kernel,
                        self@ == spec_expect_pairs(s1, ctx@, values@, types_of(expected@), *node, i as int),
                    decreases m - i,
                {
                    self.expect(ctx, &values[i], &expected[i], Some(node));
                    i = i + 1;
                }
            },
            _ => self.error(Some(node), DiagnosticCode::InvalidControlFlow, text("Yield is not valid in this region")),
        }
    }

    fn load(
        &mut self,
        ctx: &Context,
        node: &ScheduleNode,
        source: &MemoryRef,
        indices: &Vec<ValueId>,
        mask: &ValueId,
        masked: &ValueId,
        result: &ValueDef,
    )
        ensures
            final(self)@ == spec_load(old(self)@, ctx@, *old(self).kernel, *node, *source, indices@, *mask, *masked, *result),
            final(self).kernel == old(self).kernel,
    {
        let kernel = self.kernel;
        let pos = self.memory(ctx, node, source, false);
        let buffer = match pos {
            Some(i) => Some(&kernel.buffers[i]),
            None => None,
        };
        self.expect(ctx, mask, &TypeRef::Predicate, Some(node));
        self.expect(ctx, masked, &result.ty, Some(node));
        self.access_indices(ctx, node, indices, buffer);
        match buffer {
            Some(b) => {
                if !result.ty.same(&TypeRef::Scalar(b.ty.element)) {
                    self.error(Some(node), DiagnosticCode::InvalidType, text("scalar load result must match buffer dtype"));
                }
            },
            None => {},
        }
    }

    fn store(
        &mut self,
        ctx: &Context,
        node: &ScheduleNode,
        destination: &MemoryRef,
        indices: &Vec<ValueId>,
        value: &ValueId,
        mask: &ValueId,
    )
        ensures
            final(self)@ == spec_store(old(self)@, ctx@, *old(self).kernel, *node, *destination, indices@, *value, *mask),
            final(self).kernel == old(self).kernel,
    {
        let kernel = self.kernel;
        let pos = self.memory(ctx, node, destination, true);
        let buffer = match pos {
            Some(i) => Some(&kernel.buffers[i]),
            None => None,
        };
        self.expect(ctx, mask, &TypeRef::Predicate, Some(node));
        self.access_indices(ctx, node, indices, buffer);
        match buffer {
            Some(b) => self.expect(ctx, value, &TypeRef::Scalar(b.ty.element), Some(node)),
            None => {},
        }
    }

    fn write_scan(&mut self, ctx: &Context, node: &ScheduleNode, buffer: &BufferId, ticket: &TicketId)
        ensures
            final(self)@ == spec_write_scan(old(self)@, *node, ctx@.events, (*buffer, *ticket)),
            final(self).kernel == old(self).kernel,
    {
        let mut i: usize = 0;
        while i < ctx.events.len()
            invariant
                i <= ctx.events@.len(),
                self.kernel == old(self).kernel,
                self@ == spec_write_scan(old(self)@, *node, ctx@.events.take(i as int), (*buffer, *ticket)),
            decreases ctx.events@.len() - i,
        {
            proof {
                assert(ctx@.events.take(i + 1).drop_last() =~= ctx@.events.take(i as int));
            }
            let e = &ctx.events[i].1;
            let same = match &e.writes {
                Some((b, t)) => b.same(buffer) && t.same(ticket),
                None => false,
            };
            if !e.ready && same {
                self.error(Some(node), DiagnosticCode::PendingAccess, text("an earlier async write to this leased buffer is still pending"));
            }
            i = i + 1;
        }
        assert(ctx@.events.take(ctx@.events.len() as int) =~= ctx@.events);
    }

    fn async_copy(
        &mut self,
        ctx: &mut Context,
        node: &ScheduleNode,
        source: &MemoryRef,
        destination: &MemoryRef,
        transfer: &String,
        completion: &EventId,
    )
        ensures
            (final(self)@, final(ctx)@) == spec_async_copy(old(self)@, old(ctx)@, *old(self).kernel, *node, *source, *destination, transfer@, *completion),
            final(self).kernel == old(self).kernel,
    {
        let kernel = self.kernel;
        self.protocol_context(ctx, node);
        let src = self.memory(ctx, node, source, false);
        let dst = self.memory(ctx, node, destination, true);
        if crate::access::same_storage(kernel, source, destination) {
            self.error(Some(node), DiagnosticCode::InvalidResource, text("AsyncCopy source and destination may overlap"));
        }
        if transfer.as_str().is_empty() {
            self.error(Some(node), DiagnosticCode::UnsupportedCapability, text("transfer requires an explicit target spec"));
        }
        match (src, dst) {
            (Some(i), Some(j)) => {
                let x = &kernel.buffers[i].ty;
                let y = &kernel.buffers[j].ty;
                if !crate::types::exprs_same(&x.shape, &y.shape) || x.element != y.element {
                    self.error(Some(node), DiagnosticCode::InvalidType, text("whole-view AsyncCopy requires matching shapes and dtypes"));
                }
            },
            _ => {},
        }
        let writes = match destination {
            MemoryRef::Leased { buffer, ticket } => {
                self.write_scan(ctx, node, buffer, ticket);
                Some((buffer.dup(), ticket.dup()))
            },
            MemoryRef::Buffer(_) => {
                self.error(Some(node), DiagnosticCode::InvalidTicket, text("this AsyncCopy subset requires a producer-leased destination"));
                None
            },
        };
        let event = Event {
            writes,
            reads: (source.dup(), None),
            accumulator: None,
            ready: false,
            published: false,
        };
        self.event(ctx, node, completion, event);
    }

    fn acc_init(&mut self, ctx: &mut Context, node: &ScheduleNode, acc: &AccumulatorId, value: &ValueId)
        ensures
            (final(self)@, final(ctx)@) == spec_acc_init(old(self)@, old(ctx)@, *old(self).kernel, *node, *acc, *value),
            final(self).kernel == old(self).kernel,
    {
        let kernel = self.kernel;
        self.accumulator(ctx, node, acc);
        if ctx.conditional || contains(&ctx.pending_accumulators, &acc.0) {
            self.error(Some(node), DiagnosticCode::PendingAccess, text("accumulator initialization requires unconditional execution and no pending update"));
        }
        match find(&kernel.accumulators, &acc.0) {
            Some(i) => self.expect(ctx, value, &TypeRef::Scalar(kernel.accumulators[i].ty.element), Some(node)),
            None => {},
        }
        add_key(&mut ctx.initialized, acc.dup());
        assert(ctx@.values == old(ctx)@.values);
    }

    fn acc_read(&mut self, ctx: &Context, node: &ScheduleNode, acc: &AccumulatorId, result: &ValueDef)
        ensures
            final(self)@ == spec_acc_read(old(self)@, ctx@, *old(self).kernel, *node, *acc, *result),
            final(self).kernel == old(self).kernel,
    {
        let kernel = self.kernel;
        self.accumulator(ctx, node, acc);
        self.ready_accumulator(ctx, node, acc);
        match find(&kernel.accumulators, &acc.0) {
            Some(i) => {
                let expected = TypeRef::Fragment(kernel.accumulators[i].ty.dup());
                if !result.ty.same(&expected) {
                    self.error(Some(node), DiagnosticCode::InvalidType, text("accumulator read result must preserve its fragment type"));
                }
            },
            None => {},
        }
    }

    fn shared_input(&mut self, ctx: &Context, node: &ScheduleNode, input: &MemoryRef)
        ensures
            final(self)@ == spec_shared_input(old(self)@, ctx@, *old(self).kernel, *node, *input),
            final(self).kernel == old(self).kernel,
    {
        let kernel = self.kernel;
        match self.memory(ctx, node, input, false) {
            Some(i) => {
                let storage = &kernel.buffers[i].ty.storage;
                let mut shared = false;
                let mut j: usize = 0;
                while j < kernel.storages.len()
                    invariant
                        j <= kernel.storages@.len(),
                        shared == exists|l: int|
                            0 <= l < j && #[trigger] kernel.storages@[l].id@ == storage@
                                && kernel.storages@[l].ty.address_space == AddressSpace::Shared,
                    decreases kernel.storages@.len() - j,
                {
                    let s = &kernel.storages[j];
                    if s.id.same(storage) && s.ty.address_space == AddressSpace::Shared {
                        shared = true;
                    }
                    j = j + 1;
                }
                if !shared {
                    self.error(Some(node), DiagnosticCode::InvalidResource, text("the supported SQMMA SS contract requires shared-memory inputs"));
                }
            },
            None => {},
        }
    }

    fn sqmma_role(&mut self, ctx: &Context, node: &ScheduleNode)
        ensures
            final(self)@ == spec_sqmma_role(old(self)@, ctx@, *old(self).kernel, *node),
            final(self).kernel == old(self).kernel,
    {
        let kernel = self.kernel;
        match &ctx.role {
            Some(r) => match find(&kernel.roles, &r.0) {
                Some(i) => {
                    let w = &kernel.roles[i].warps;
                    let group = w.len() == 4 && w[0] % 4 == 0 && w[0] < u32::MAX && w[1] == w[0] + 1
                        && w[1] < u32::MAX && w[2] == w[1] + 1 && w[2] < u32::MAX && w[3] == w[2] + 1;
                    if !group {
                        self.error(Some(node), DiagnosticCode::InvalidParticipation, text("MP31 SQMMA requires an aligned group of four consecutive warps in the supported subset"));
                    }
                },
                None => {},
            },
            None => {},
        }
    }

    fn sqmma(
        &mut self,
        ctx: &mut Context,
        node: &ScheduleNode,
        acc: &AccumulatorId,
        a: &MemoryRef,
        b: &MemoryRef,
        instruction: &String,
        completion: &EventId,
    )
        ensures
            (final(self)@, final(ctx)@) == spec_sqmma(old(self)@, old(ctx)@, *old(self).kernel, *node, *acc, *a, *b, instruction@, *completion),
            final(self).kernel == old(self).kernel,
    {
        self.protocol_context(ctx, node);
        self.accumulator(ctx, node, acc);
        self.ready_accumulator(ctx, node, acc);
        self.shared_input(ctx, node, a);
        self.shared_input(ctx, node, b);
        if instruction.as_str().is_empty() {
            self.error(Some(node), DiagnosticCode::UnsupportedCapability, text("SQMMA requires an explicit instruction spec"));
        }
        self.sqmma_role(ctx, node);
        let event = Event {
            writes: None,
            reads: (a.dup(), Some(b.dup())),
            accumulator: Some(acc.dup()),
            ready: false,
            published: false,
        };
        self.event(ctx, node, completion, event);
        put_entry(&mut ctx.pending_accumulators, acc.dup(), completion.dup());
        assert(ctx@.values == old(ctx)@.values);
    }

    /// The checks of a node that opens no nested region, before its results are defined.
    pub fn flat(&mut self, ctx: &mut Context, node: &ScheduleNode, last: bool, ending: &Ending)
        ensures
            (final(self)@, final(ctx)@) == spec_flat(old(self)@, old(ctx)@, *old(self).kernel, *node, last, ending@),
            final(self).kernel == old(self).kernel,
    {
        match &node.kind {
            ScheduleNodeKind::KernelReturn => {
                if !matches!(ending, Ending::Kernel) || !last {
                    self.error(Some(node), DiagnosticCode::InvalidControlFlow, text("KernelReturn is only allowed at the end of the outer kernel region"));
                }
            },
            ScheduleNodeKind::Yield { values } => self.yield_values(ctx, node, values, last, ending),
            ScheduleNodeKind::Constant { value, result } => {
                if !crate::checker::literal_matches(value, &result.ty) {
                    self.error(Some(node), DiagnosticCode::InvalidType, text("literal does not fit the declared result type"));
                }
                put_entry(&mut ctx.literals, result.id.dup(), *value);
                add_key(&mut ctx.uniform, result.id.dup());
            },
            ScheduleNodeKind::LaunchIndex { builtin, result } => {
                if !result.ty.same(&TypeRef::Index) {
                    self.error(Some(node), DiagnosticCode::InvalidType, text("LaunchIndex result must be Index"));
                }
                if *builtin != LaunchBuiltin::ThreadIdxX {
                    add_key(&mut ctx.uniform, result.id.dup());
                }
            },
            ScheduleNodeKind::Binary { op, lhs, rhs, result } => self.binary(ctx, node, *op, lhs, rhs, result),
            ScheduleNodeKind::Load { source, indices, mask, masked_value, result } => {
                self.load(ctx, node, source, indices, mask, masked_value, result)
            },
            ScheduleNodeKind::Store { destination, indices, value, mask } => {
                self.store(ctx, node, destination, indices, value, mask)
            },
            ScheduleNodeKind::PipelineAcquire { pipeline, iteration, ticket } => {
                self.acquire(ctx, node, pipeline, iteration, ticket, crate::checker::TicketKind::Producer)
            },
            ScheduleNodeKind::PipelineConsume { pipeline, iteration, ticket } => {
                self.acquire(ctx, node, pipeline, iteration, ticket, crate::checker::TicketKind::Consumer)
            },
            ScheduleNodeKind::PipelinePublish { ticket, events } => self.publish(ctx, node, ticket, events),
            ScheduleNodeKind::PipelineRelease { ticket } => self.release(ctx, node, ticket),
            ScheduleNodeKind::PipelineDrain { pipeline } => {
                if ctx.conditional || ctx.pipeline.is_some() || !contains(&ctx.loops, &pipeline.0) {
                    self.error(Some(node), DiagnosticCode::InvalidPipeline, text("drain must follow the matching role's complete pipeline loop"));
                }
                add_key(&mut ctx.drained, pipeline.dup());
            },
            ScheduleNodeKind::AsyncCopy { source, destination, transfer, completion } => {
                self.async_copy(ctx, node, source, destination, &transfer.0, completion)
            },
            ScheduleNodeKind::AccumulatorInit { accumulator, value } => self.acc_init(ctx, node, accumulator, value),
            ScheduleNodeKind::AccumulatorRead { accumulator, result } => self.acc_read(ctx, node, accumulator, result),
            ScheduleNodeKind::Sqmma { accumulator, a, b, instruction, completion } => {
                self.sqmma(ctx, node, accumulator, a, b, &instruction.0, completion)
            },
            ScheduleNodeKind::AwaitEvent { event } => self.await_event(ctx, node, event),
            _ => {},
        }
    }
}

} // verus!
