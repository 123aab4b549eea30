//! What the checks guarantee about their findings: findings are only ever added, each
//! added one is an error, and a module whose check adds none has nonempty node IDs that
//! are unique across the module, defines each value before its use, and keeps the
//! protocol: concurrent groups at top level with distinct roles and disjoint warps, every
//! pipeline drained by the roles that loop over it, one ticket opened and closed per
//! pipeline iteration.
use crate::access::{
    spec_access_indices, spec_accumulator, spec_acquire, spec_await, spec_binary, spec_event,
    spec_lease, spec_memory, spec_pending_scan, spec_protocol, spec_publish, spec_publish_events,
    spec_ready, spec_release,
};
use crate::ast::{Kernel, ScheduleNode, ValueDef};
use crate::checker::{
    Ctx, State, TicketKind, spec_define, spec_expect, spec_expect_all, spec_index, spec_unique,
    with_error,
};
use crate::diagnostic::{DiagnosticSeverity, DiagnosticV};
use crate::lookup::Keyed;
use crate::nodes::{
    EndingV, spec_acc_init, spec_acc_read, spec_async_copy, spec_constant, spec_defines,
    spec_drain, spec_expect_pairs, spec_flat, spec_kernel_return, spec_launch, spec_load,
    spec_operands, spec_shared_input, spec_sqmma, spec_sqmma_role, spec_store, spec_write_scan,
    spec_yield,
};
use crate::types::{
    AccumulatorId, BufferId, EventId, IndexExpr, MemoryRef, PipelineId, TicketId, TypeRefV,
    ValueId,
};
use vstd::prelude::*;

verus! {

/// `b` is `a` followed by errors only.
pub open spec fn extends(a: Seq<DiagnosticV>, b: Seq<DiagnosticV>) -> bool {
    &&& a.len() <= b.len()
    &&& forall|i: int| 0 <= i < a.len() ==> #[trigger] b[i] == a[i]
    &&& forall|i: int| a.len() <= i < b.len() ==> (#[trigger] b[i]).severity == DiagnosticSeverity::Error
}

/// A check step that only adds errors and leaves the node IDs seen alone.
pub open spec fn keeps(a: State, b: State) -> bool {
    extends(a.bag, b.bag) && b.node_ids == a.node_ids
}

pub proof fn lemma_keeps_trans(a: State, b: State, c: State)
    requires
        keeps(a, b),
        keeps(b, c),
    ensures
        keeps(a, c),
{
    assert forall|i: int| 0 <= i < a.bag.len() implies #[trigger] c.bag[i] == a.bag[i] by {
        assert(c.bag[i] == b.bag[i]);
    }
    assert forall|i: int| a.bag.len() <= i < c.bag.len() implies (#[trigger] c.bag[i]).severity
        == DiagnosticSeverity::Error by {
        if i < b.bag.len() {
            assert(c.bag[i] == b.bag[i]);
        }
    }
}

pub proof fn lemma_expect(st: State, c: Ctx, id: ValueId, ty: TypeRefV, node: Option<ScheduleNode>)
    ensures
        keeps(st, spec_expect(st, c, id, ty, node)),
{
}

pub proof fn lemma_expect_all(st: State, c: Ctx, ids: Seq<ValueId>, ty: TypeRefV, node: Option<ScheduleNode>)
    ensures
        keeps(st, spec_expect_all(st, c, ids, ty, node)),
    decreases ids.len(),
{
    if ids.len() > 0 {
        let s1 = spec_expect_all(st, c, ids.drop_last(), ty, node);
        lemma_expect_all(st, c, ids.drop_last(), ty, node);
        lemma_expect(s1, c, ids.last(), ty, node);
        lemma_keeps_trans(st, s1, spec_expect_all(st, c, ids, ty, node));
    }
}

pub proof fn lemma_define(st: State, c: Ctx, v: ValueDef, node: Option<ScheduleNode>)
    ensures
        keeps(st, spec_define(st, c, v, node).0),
{
}

pub proof fn lemma_index(st: State, c: Ctx, e: IndexExpr)
    ensures
        keeps(st, spec_index(st, c, e)),
{
    let s1 = spec_expect_all(st, c, e.value_ids(), TypeRefV::Index, None);
    lemma_expect_all(st, c, e.value_ids(), TypeRefV::Index, None);
    lemma_keeps_trans(st, s1, spec_index(st, c, e));
}

pub proof fn lemma_unique<T: Keyed>(st: State, items: Seq<T>, category: Seq<char>)
    ensures
        keeps(st, spec_unique(st, items, category)),
    decreases items.len(),
{
    if items.len() > 0 {
        let s1 = spec_unique(st, items.drop_last(), category);
        lemma_unique(st, items.drop_last(), category);
        lemma_keeps_trans(st, s1, spec_unique(st, items, category));
    }
}

pub proof fn lemma_binary(
    st: State,
    c: Ctx,
    node: Option<ScheduleNode>,
    op: crate::ast::BinaryOp,
    lhs: ValueId,
    rhs: ValueId,
    result: ValueDef,
)
    ensures
        keeps(st, spec_binary(st, c, node, op, lhs, rhs, result).0),
{
}

pub proof fn lemma_access_indices(st: State, c: Ctx, node: Option<ScheduleNode>, indices: Seq<ValueId>, buffer: Option<crate::ast::BufferDecl>)
    ensures
        keeps(st, spec_access_indices(st, c, node, indices, buffer)),
{
    let s1 = spec_expect_all(st, c, indices, TypeRefV::Index, node);
    lemma_expect_all(st, c, indices, TypeRefV::Index, node);
    lemma_keeps_trans(st, s1, spec_access_indices(st, c, node, indices, buffer));
}

pub proof fn lemma_pending_scan(
    st: State,
    k: Kernel,
    node: Option<ScheduleNode>,
    events: Seq<(EventId, crate::checker::Event)>,
    reference: MemoryRef,
    write: bool,
)
    ensures
        keeps(st, spec_pending_scan(st, k, node, events, reference, write)),
    decreases events.len(),
{
    if events.len() > 0 {
        let s1 = spec_pending_scan(st, k, node, events.drop_last(), reference, write);
        lemma_pending_scan(st, k, node, events.drop_last(), reference, write);
        lemma_keeps_trans(st, s1, spec_pending_scan(st, k, node, events, reference, write));
    }
}

pub proof fn lemma_memory(st: State, c: Ctx, k: Kernel, node: Option<ScheduleNode>, reference: MemoryRef, write: bool)
    ensures
        keeps(st, spec_memory(st, c, k, node, reference, write).0),
{
    match crate::lookup::find_index(k.buffers@, reference.buffer_of()@) {
        None => {},
        Some(i) => {
            let b = k.buffers@[i];
            let s1 = if write && !b.ty.mutable {
                with_error(st, node, crate::diagnostic::DiagnosticCode::InvalidResource, "write through a read-only buffer"@)
            } else {
                st
            };
            let s2 = match reference {
                MemoryRef::Buffer(_) => if crate::access::pipeline_owned(k, b.ty.storage@) {
                    with_error(s1, node, crate::diagnostic::DiagnosticCode::InvalidTicket, "pipeline storage must be accessed through a matching live ticket"@)
                } else {
                    s1
                },
                MemoryRef::Leased { buffer, ticket } => spec_lease(s1, c, k, node, buffer, ticket, write),
            };
            assert(keeps(st, s2));
            lemma_pending_scan(s2, k, node, c.events, reference, write);
            lemma_keeps_trans(st, s2, spec_memory(st, c, k, node, reference, write).0);
        },
    }
}

/// An access to `reference` (a write when `write`) is admissible in context `c`: it
/// names a declared buffer; a write goes through a mutable view; a plain reference does
/// not reach pipeline storage; and a leased reference uses a live ticket of the access's
/// side: a write a producer ticket, a read a consumer ticket.
pub open spec fn memory_admitted(c: Ctx, k: Kernel, reference: MemoryRef, write: bool) -> bool {
    &&& crate::lookup::find_index(k.buffers@, reference.buffer_of()@) is Some
    &&& write ==> k.buffers@[crate::lookup::find_index(k.buffers@, reference.buffer_of()@)->Some_0].ty.mutable
    &&& reference is Buffer ==> !crate::access::pipeline_owned(
        k,
        k.buffers@[crate::lookup::find_index(k.buffers@, reference.buffer_of()@)->Some_0].ty.storage@,
    )
    &&& reference matches MemoryRef::Leased { ticket, .. } ==> (crate::lookup::get(c.tickets, ticket@) matches Some(info)
        && !info.closed && (write ==> info.kind == TicketKind::Producer) && (!write ==> info.kind == TicketKind::Consumer))
}

/// A memory access that the check passes without a finding is admissible.
pub proof fn lemma_memory_admits(st: State, c: Ctx, k: Kernel, node: Option<ScheduleNode>, reference: MemoryRef, write: bool)
    requires
        spec_memory(st, c, k, node, reference, write).0.bag.len() == st.bag.len(),
    ensures
        memory_admitted(c, k, reference, write),
{
    lemma_memory(st, c, k, node, reference, write);
    let i = crate::lookup::find_index(k.buffers@, reference.buffer_of()@)->Some_0;
    let b = k.buffers@[i];
    let s1 = if write && !b.ty.mutable { with_error(st, node, crate::diagnostic::DiagnosticCode::InvalidResource, "write through a read-only buffer"@) } else { st };
    let s2 = match reference {
        MemoryRef::Buffer(_) => if crate::access::pipeline_owned(k, b.ty.storage@) {
            with_error(s1, node, crate::diagnostic::DiagnosticCode::InvalidTicket, "pipeline storage must be accessed through a matching live ticket"@)
        } else {
            s1
        },
        MemoryRef::Leased { buffer, ticket } => spec_lease(s1, c, k, node, buffer, ticket, write),
    };
    lemma_pending_scan(s2, k, node, c.events, reference, write);
}

pub proof fn lemma_acquire(
    st: State,
    c: Ctx,
    k: Kernel,
    node: Option<ScheduleNode>,
    pipeline: PipelineId,
    iteration: ValueId,
    ticket: TicketId,
    kind: TicketKind,
)
    ensures
        keeps(st, spec_acquire(st, c, k, node, pipeline, iteration, ticket, kind).0),
{
}

pub proof fn lemma_publish_events(
    st: State,
    c: Ctx,
    node: Option<ScheduleNode>,
    ticket: TicketId,
    events: Seq<EventId>,
    n: int,
)
    ensures
        keeps(st, spec_publish_events(st, c, node, ticket, events, n).0),
    decreases n,
{
    if 0 < n <= events.len() {
        let s0 = spec_publish_events(st, c, node, ticket, events, n - 1).0;
        lemma_publish_events(st, c, node, ticket, events, n - 1);
        lemma_keeps_trans(st, s0, spec_publish_events(st, c, node, ticket, events, n).0);
    }
}

pub proof fn lemma_publish(st: State, c: Ctx, k: Kernel, node: Option<ScheduleNode>, ticket: TicketId, events: Seq<EventId>)
    ensures
        keeps(st, spec_publish(st, c, k, node, ticket, events).0),
{
    let s0 = spec_protocol(st, c, node);
    match crate::lookup::get(c.tickets, ticket@) {
        None => {},
        Some(info) => {
            let s1 = if info.closed || info.kind != TicketKind::Producer {
                with_error(s0, node, crate::diagnostic::DiagnosticCode::InvalidTicket, "publish requires a live producer ticket"@)
            } else {
                s0
            };
            let s2 = spec_publish_events(s1, c, node, ticket, events, events.len() as int).0;
            lemma_publish_events(s1, c, node, ticket, events, events.len() as int);
            lemma_keeps_trans(st, s1, s2);
            lemma_keeps_trans(st, s2, spec_publish(st, c, k, node, ticket, events).0);
        },
    }
}

pub proof fn lemma_yield(st: State, c: Ctx, n: ScheduleNode, values: Seq<ValueId>, last: bool, ending: EndingV)
    ensures
        keeps(st, spec_yield(st, c, n, values, last, ending)),
{
    match ending {
        EndingV::Yield(expected) => {
            let s1 = if !last || values.len() != expected.len() {
                with_error(st, Some(n), crate::diagnostic::DiagnosticCode::InvalidControlFlow, "invalid region yield arity or position"@)
            } else {
                st
            };
            let m = crate::nodes::min(values.len() as int, expected.len() as int);
            lemma_expect_pairs(s1, c, values, expected, n, m);
            lemma_keeps_trans(st, s1, spec_yield(st, c, n, values, last, ending));
        },
        _ => {},
    }
}

pub proof fn lemma_expect_pairs(st: State, c: Ctx, values: Seq<ValueId>, types: Seq<TypeRefV>, n: ScheduleNode, m: int)
    ensures
        keeps(st, spec_expect_pairs(st, c, values, types, n, m)),
    decreases m,
{
    if m > 0 {
        let s0 = spec_expect_pairs(st, c, values, types, n, m - 1);
        lemma_expect_pairs(st, c, values, types, n, m - 1);
        lemma_expect(s0, c, values[m - 1], types[m - 1], Some(n));
        lemma_keeps_trans(st, s0, spec_expect_pairs(st, c, values, types, n, m));
    }
}

pub proof fn lemma_operands(st: State, c: Ctx, n: ScheduleNode, ids: Seq<ValueId>)
    ensures
        keeps(st, spec_operands(st, c, n, ids)),
    decreases ids.len(),
{
    if ids.len() > 0 {
        let s1 = spec_operands(st, c, n, ids.drop_last());
        lemma_operands(st, c, n, ids.drop_last());
        lemma_keeps_trans(st, s1, spec_operands(st, c, n, ids));
    }
}

pub proof fn lemma_defines(st: State, c: Ctx, defs: Seq<ValueDef>, n: ScheduleNode)
    ensures
        keeps(st, spec_defines(st, c, defs, n).0),
    decreases defs.len(),
{
    if defs.len() > 0 {
        let (s1, c1) = spec_defines(st, c, defs.drop_last(), n);
        lemma_defines(st, c, defs.drop_last(), n);
        lemma_define(s1, c1, defs.last(), Some(n));
        lemma_keeps_trans(st, s1, spec_defines(st, c, defs, n).0);
    }
}

pub proof fn lemma_load(
    st: State,
    c: Ctx,
    k: Kernel,
    n: ScheduleNode,
    source: MemoryRef,
    indices: Seq<ValueId>,
    mask: ValueId,
    masked: ValueId,
    result: ValueDef,
)
    ensures
        keeps(st, spec_load(st, c, k, n, source, indices, mask, masked, result)),
        spec_load(st, c, k, n, source, indices, mask, masked, result).bag.len() == st.bag.len() ==> memory_admitted(
            c,
            k,
            source,
            false,
        ),
{
    let (s1, pos) = spec_memory(st, c, k, Some(n), source, false);
    lemma_memory(st, c, k, Some(n), source, false);
    let s2 = spec_expect(s1, c, mask, TypeRefV::Predicate, Some(n));
    let s3 = spec_expect(s2, c, masked, result.ty@, Some(n));
    let s4 = spec_access_indices(s3, c, Some(n), indices, crate::nodes::decl_at(k, pos));
    lemma_expect(s1, c, mask, TypeRefV::Predicate, Some(n));
    lemma_expect(s2, c, masked, result.ty@, Some(n));
    lemma_access_indices(s3, c, Some(n), indices, crate::nodes::decl_at(k, pos));
    lemma_keeps_trans(st, s1, s2);
    lemma_keeps_trans(st, s2, s3);
    lemma_keeps_trans(st, s3, s4);
    lemma_keeps_trans(st, s4, spec_load(st, c, k, n, source, indices, mask, masked, result));
    if spec_load(st, c, k, n, source, indices, mask, masked, result).bag.len() == st.bag.len() {
        lemma_memory_admits(st, c, k, Some(n), source, false);
    }
}

pub proof fn lemma_store(
    st: State,
    c: Ctx,
    k: Kernel,
    n: ScheduleNode,
    destination: MemoryRef,
    indices: Seq<ValueId>,
    value: ValueId,
    mask: ValueId,
)
    ensures
        keeps(st, spec_store(st, c, k, n, destination, indices, value, mask)),
        spec_store(st, c, k, n, destination, indices, value, mask).bag.len() == st.bag.len() ==> memory_admitted(
            c,
            k,
            destination,
            true,
        ),
{
    let (s1, pos) = spec_memory(st, c, k, Some(n), destination, true);
    lemma_memory(st, c, k, Some(n), destination, true);
    let s2 = spec_expect(s1, c, mask, TypeRefV::Predicate, Some(n));
    let s3 = spec_access_indices(s2, c, Some(n), indices, crate::nodes::decl_at(k, pos));
    lemma_expect(s1, c, mask, TypeRefV::Predicate, Some(n));
    lemma_access_indices(s2, c, Some(n), indices, crate::nodes::decl_at(k, pos));
    lemma_keeps_trans(st, s1, s2);
    lemma_keeps_trans(st, s2, s3);
    match crate::nodes::decl_at(k, pos) {
        Some(b) => {
            lemma_expect(s3, c, value, TypeRefV::Scalar(b.ty.element), Some(n));
        },
        None => {},
    }
    lemma_keeps_trans(st, s3, spec_store(st, c, k, n, destination, indices, value, mask));
    if spec_store(st, c, k, n, destination, indices, value, mask).bag.len() == st.bag.len() {
        lemma_memory_admits(st, c, k, Some(n), destination, true);
    }
}

pub proof fn lemma_write_scan(st: State, n: ScheduleNode, events: Seq<(EventId, crate::checker::Event)>, w: (BufferId, TicketId))
    ensures
        keeps(st, spec_write_scan(st, n, events, w)),
    decreases events.len(),
{
    if events.len() > 0 {
        let s1 = spec_write_scan(st, n, events.drop_last(), w);
        lemma_write_scan(st, n, events.drop_last(), w);
        lemma_keeps_trans(st, s1, spec_write_scan(st, n, events, w));
    }
}

pub proof fn lemma_async_copy(
    st: State,
    c: Ctx,
    k: Kernel,
    n: ScheduleNode,
    source: MemoryRef,
    destination: MemoryRef,
    transfer: Seq<char>,
    completion: EventId,
)
    ensures
        keeps(st, spec_async_copy(st, c, k, n, source, destination, transfer, completion).0),
        spec_async_copy(st, c, k, n, source, destination, transfer, completion).0.bag.len() == st.bag.len() ==> (
        memory_admitted(c, k, source, false) && memory_admitted(c, k, destination, true)),
{
    let s0 = spec_protocol(st, c, Some(n));
    let (s1, src) = spec_memory(s0, c, k, Some(n), source, false);
    let (s2, dst) = spec_memory(s1, c, k, Some(n), destination, true);
    lemma_memory(s0, c, k, Some(n), source, false);
    lemma_memory(s1, c, k, Some(n), destination, true);
    lemma_keeps_trans(st, s0, s1);
    lemma_keeps_trans(st, s1, s2);
    let s3 = if crate::access::storage_clash(k, source, destination) {
        with_error(s2, Some(n), crate::diagnostic::DiagnosticCode::InvalidResource, "AsyncCopy source and destination may overlap"@)
    } else {
        s2
    };
    let s4 = if transfer.len() == 0 {
        with_error(s3, Some(n), crate::diagnostic::DiagnosticCode::UnsupportedCapability, "transfer requires an explicit target spec"@)
    } else {
        s3
    };
    let s5 = match (src, dst) {
        (Some(i), Some(j)) => if crate::types::exprs_view(k.buffers@[i].ty.shape@) != crate::types::exprs_view(
            k.buffers@[j].ty.shape@,
        ) || k.buffers@[i].ty.element != k.buffers@[j].ty.element {
            with_error(s4, Some(n), crate::diagnostic::DiagnosticCode::InvalidType, "whole-view AsyncCopy requires matching shapes and dtypes"@)
        } else {
            s4
        },
        _ => s4,
    };
    lemma_keeps_trans(st, s2, s3);
    lemma_keeps_trans(st, s3, s4);
    lemma_keeps_trans(st, s4, s5);
    let writes = crate::nodes::copy_writes(destination);
    let s6 = match writes {
        Some(w) => spec_write_scan(s5, n, c.events, w),
        None => with_error(s5, Some(n), crate::diagnostic::DiagnosticCode::InvalidTicket, "this AsyncCopy subset requires a producer-leased destination"@),
    };
    match writes {
        Some(w) => lemma_write_scan(s5, n, c.events, w),
        None => {},
    }
    lemma_keeps_trans(st, s5, s6);
    lemma_keeps_trans(st, s6, spec_async_copy(st, c, k, n, source, destination, transfer, completion).0);
    if spec_async_copy(st, c, k, n, source, destination, transfer, completion).0.bag.len() == st.bag.len() {
        lemma_memory_admits(s0, c, k, Some(n), source, false);
        lemma_memory_admits(s1, c, k, Some(n), destination, true);
    }
}

pub proof fn lemma_acc_init(st: State, c: Ctx, k: Kernel, n: ScheduleNode, acc: AccumulatorId, value: ValueId)
    ensures
        keeps(st, spec_acc_init(st, c, k, n, acc, value).0),
{
}

pub proof fn lemma_acc_read(st: State, c: Ctx, k: Kernel, n: ScheduleNode, acc: AccumulatorId, result: ValueDef)
    ensures
        keeps(st, spec_acc_read(st, c, k, n, acc, result)),
{
}

pub proof fn lemma_shared_input(st: State, c: Ctx, k: Kernel, n: ScheduleNode, input: MemoryRef)
    ensures
        keeps(st, spec_shared_input(st, c, k, n, input)),
        spec_shared_input(st, c, k, n, input).bag.len() == st.bag.len() ==> memory_admitted(c, k, input, false),
{
    let s1 = spec_memory(st, c, k, Some(n), input, false).0;
    lemma_memory(st, c, k, Some(n), input, false);
    lemma_keeps_trans(st, s1, spec_shared_input(st, c, k, n, input));
    if spec_shared_input(st, c, k, n, input).bag.len() == st.bag.len() {
        lemma_memory_admits(st, c, k, Some(n), input, false);
    }
}

pub proof fn lemma_sqmma(
    st: State,
    c: Ctx,
    k: Kernel,
    n: ScheduleNode,
    acc: AccumulatorId,
    a: MemoryRef,
    b: MemoryRef,
    instruction: Seq<char>,
    completion: EventId,
)
    ensures
        keeps(st, spec_sqmma(st, c, k, n, acc, a, b, instruction, completion).0),
        spec_sqmma(st, c, k, n, acc, a, b, instruction, completion).0.bag.len() == st.bag.len() ==> (memory_admitted(
            c,
            k,
            a,
            false,
        ) && memory_admitted(c, k, b, false)),
{
    let s0 = spec_protocol(st, c, Some(n));
    let s1 = spec_accumulator(s0, c, k, Some(n), acc);
    let s2 = spec_ready(s1, c, Some(n), acc);
    let s3 = spec_shared_input(s2, c, k, n, a);
    let s4 = spec_shared_input(s3, c, k, n, b);
    lemma_keeps_trans(st, s0, s1);
    lemma_keeps_trans(st, s1, s2);
    lemma_shared_input(s2, c, k, n, a);
    lemma_shared_input(s3, c, k, n, b);
    lemma_keeps_trans(st, s2, s3);
    lemma_keeps_trans(st, s3, s4);
    let s5 = if instruction.len() == 0 {
        with_error(s4, Some(n), crate::diagnostic::DiagnosticCode::UnsupportedCapability, "SQMMA requires an explicit instruction spec"@)
    } else {
        s4
    };
    let s6 = spec_sqmma_role(s5, c, k, n);
    lemma_keeps_trans(st, s4, s5);
    lemma_keeps_trans(st, s5, s6);
    lemma_keeps_trans(st, s6, spec_sqmma(st, c, k, n, acc, a, b, instruction, completion).0);
}

/// Every memory access of a node that the check passes without a finding is admissible,
/// with the node's side of it: a store writes its destination; a load reads its source;
/// an asynchronous copy reads its source and writes its destination; an SQMMA reads its
/// two inputs. So a write through a lease needs a live producer ticket, a read a live
/// consumer ticket, and every write a mutable view.
pub proof fn lemma_flat_accesses(st: State, c: Ctx, k: Kernel, n: ScheduleNode, last: bool, ending: EndingV)
    requires
        spec_flat(st, c, k, n, last, ending).0.bag.len() == st.bag.len(),
    ensures
        match n.kind {
            crate::ast::ScheduleNodeKind::Store { destination, .. } => memory_admitted(c, k, destination, true),
            crate::ast::ScheduleNodeKind::Load { source, .. } => memory_admitted(c, k, source, false),
            crate::ast::ScheduleNodeKind::AsyncCopy { source, destination, .. } => memory_admitted(c, k, source, false)
                && memory_admitted(c, k, destination, true),
            crate::ast::ScheduleNodeKind::Sqmma { a, b, .. } => memory_admitted(c, k, a, false) && memory_admitted(
                c,
                k,
                b,
                false,
            ),
            _ => true,
        },
{
    match n.kind {
        crate::ast::ScheduleNodeKind::Load { source, indices, mask, masked_value, result } => lemma_load(
            st,
            c,
            k,
            n,
            source,
            indices@,
            mask,
            masked_value,
            result,
        ),
        crate::ast::ScheduleNodeKind::Store { destination, indices, value, mask } => lemma_store(
            st,
            c,
            k,
            n,
            destination,
            indices@,
            value,
            mask,
        ),
        crate::ast::ScheduleNodeKind::AsyncCopy { source, destination, transfer, completion } => lemma_async_copy(
            st,
            c,
            k,
            n,
            source,
            destination,
            transfer@,
            completion,
        ),
        crate::ast::ScheduleNodeKind::Sqmma { accumulator, a, b, instruction, completion } => lemma_sqmma(
            st,
            c,
            k,
            n,
            accumulator,
            a,
            b,
            instruction@,
            completion,
        ),
        _ => {},
    }
}

/// The checks of a node that opens no region only add errors and leave node IDs alone.
pub proof fn lemma_flat(st: State, c: Ctx, k: Kernel, n: ScheduleNode, last: bool, ending: EndingV)
    ensures
        keeps(st, spec_flat(st, c, k, n, last, ending).0),
{
    match n.kind {
        crate::ast::ScheduleNodeKind::Yield { values } => lemma_yield(st, c, n, values@, last, ending),
        crate::ast::ScheduleNodeKind::Binary { op, lhs, rhs, result } => lemma_binary(st, c, Some(n), op, lhs, rhs, result),
        crate::ast::ScheduleNodeKind::Load { source, indices, mask, masked_value, result } => lemma_load(
            st,
            c,
            k,
            n,
            source,
            indices@,
            mask,
            masked_value,
            result,
        ),
        crate::ast::ScheduleNodeKind::Store { destination, indices, value, mask } => lemma_store(
            st,
            c,
            k,
            n,
            destination,
            indices@,
            value,
            mask,
        ),
        crate::ast::ScheduleNodeKind::PipelineAcquire { pipeline, iteration, ticket } => lemma_acquire(
            st,
            c,
            k,
            Some(n),
            pipeline,
            iteration,
            ticket,
            TicketKind::Producer,
        ),
        crate::ast::ScheduleNodeKind::PipelineConsume { pipeline, iteration, ticket } => lemma_acquire(
            st,
            c,
            k,
            Some(n),
            pipeline,
            iteration,
            ticket,
            TicketKind::Consumer,
        ),
        crate::ast::ScheduleNodeKind::PipelinePublish { ticket, events } => lemma_publish(st, c, k, Some(n), ticket, events@),
        crate::ast::ScheduleNodeKind::AsyncCopy { source, destination, transfer, completion } => lemma_async_copy(
            st,
            c,
            k,
            n,
            source,
            destination,
            transfer@,
            completion,
        ),
        crate::ast::ScheduleNodeKind::AccumulatorInit { accumulator, value } => lemma_acc_init(st, c, k, n, accumulator, value),
        crate::ast::ScheduleNodeKind::AccumulatorRead { accumulator, result } => lemma_acc_read(st, c, k, n, accumulator, result),
        crate::ast::ScheduleNodeKind::Sqmma { accumulator, a, b, instruction, completion } => lemma_sqmma(
            st,
            c,
            k,
            n,
            accumulator,
            a,
            b,
            instruction@,
            completion,
        ),
        _ => {},
    }
}


pub proof fn lemma_params(st: State, c: Ctx, params: Seq<ValueDef>)
    ensures
        keeps(st, crate::declarations::spec_params(st, c, params).0),
    decreases params.len(),
{
    if params.len() > 0 {
        let (s1, c1) = crate::declarations::spec_params(st, c, params.drop_last());
        lemma_params(st, c, params.drop_last());
        lemma_define(s1, c1, params.last(), None);
        let s2 = spec_define(s1, c1, params.last(), None).0;
        lemma_keeps_trans(st, s1, s2);
        lemma_keeps_trans(st, s2, crate::declarations::spec_params(st, c, params).0);
    }
}

pub proof fn lemma_storage(st: State, c: Ctx, s: crate::ast::StorageDecl)
    ensures
        keeps(st, crate::declarations::spec_storage(st, c, s)),
{
    let s1 = spec_index(st, c, s.ty.capacity_bytes);
    lemma_index(st, c, s.ty.capacity_bytes);
    lemma_keeps_trans(st, s1, crate::declarations::spec_storage(st, c, s));
}

pub proof fn lemma_storages(st: State, c: Ctx, s: Seq<crate::ast::StorageDecl>)
    ensures
        keeps(st, crate::declarations::spec_storages(st, c, s)),
    decreases s.len(),
{
    if s.len() > 0 {
        let s1 = crate::declarations::spec_storages(st, c, s.drop_last());
        lemma_storages(st, c, s.drop_last());
        lemma_storage(s1, c, s.last());
        lemma_keeps_trans(st, s1, crate::declarations::spec_storages(st, c, s));
    }
}

pub proof fn lemma_indices(st: State, c: Ctx, exprs: Seq<IndexExpr>)
    ensures
        keeps(st, crate::declarations::spec_indices(st, c, exprs)),
    decreases exprs.len(),
{
    if exprs.len() > 0 {
        let s1 = crate::declarations::spec_indices(st, c, exprs.drop_last());
        lemma_indices(st, c, exprs.drop_last());
        lemma_index(s1, c, exprs.last());
        lemma_keeps_trans(st, s1, crate::declarations::spec_indices(st, c, exprs));
    }
}

pub proof fn lemma_strides(st: State, c: Ctx, strides: Seq<IndexExpr>, elem: u64)
    ensures
        keeps(st, crate::declarations::spec_strides(st, c, strides, elem)),
    decreases strides.len(),
{
    if strides.len() > 0 {
        let s0 = crate::declarations::spec_strides(st, c, strides.drop_last(), elem);
        lemma_strides(st, c, strides.drop_last(), elem);
        let s1 = spec_index(s0, c, strides.last());
        lemma_index(s0, c, strides.last());
        lemma_keeps_trans(st, s0, s1);
        lemma_keeps_trans(st, s1, crate::declarations::spec_strides(st, c, strides, elem));
    }
}

pub proof fn lemma_buffer(st: State, c: Ctx, k: Kernel, b: crate::ast::BufferDecl)
    ensures
        keeps(st, crate::declarations::spec_buffer(st, c, k, b)),
{
    let elem = b.ty.element.bytes();
    let s0 = spec_index(st, c, b.ty.offset_bytes);
    lemma_index(st, c, b.ty.offset_bytes);
    let s1 = crate::declarations::spec_indices(s0, c, b.ty.shape@);
    lemma_indices(s0, c, b.ty.shape@);
    lemma_keeps_trans(st, s0, s1);
    let s2 = match b.ty.mapping {
        crate::types::MappingSpec::Strided { strides_bytes } => {
            let t = if strides_bytes@.len() != b.ty.shape@.len() {
                with_error(s1, None, crate::diagnostic::DiagnosticCode::InvalidResource, "buffer rank and stride rank differ"@)
            } else {
                s1
            };
            lemma_strides(t, c, strides_bytes@, elem);
            lemma_keeps_trans(s1, t, crate::declarations::spec_strides(t, c, strides_bytes@, elem));
            crate::declarations::spec_strides(t, c, strides_bytes@, elem)
        },
        crate::types::MappingSpec::Registered { .. } => s1,
    };
    lemma_keeps_trans(st, s1, s2);
    let s3 = match b.ty.offset_bytes.eval() {
        Ok(Some(o)) => if o % elem != 0 {
            with_error(s2, None, crate::diagnostic::DiagnosticCode::InvalidResource, "buffer byte offset is not element-aligned"@)
        } else {
            s2
        },
        _ => s2,
    };
    let s4 = match b.ty.mapping {
        crate::types::MappingSpec::Registered { name } => if name@.len() == 0 {
            with_error(s3, None, crate::diagnostic::DiagnosticCode::InvalidResource, "registered mapping name cannot be empty"@)
        } else {
            s3
        },
        _ => s3,
    };
    lemma_keeps_trans(st, s2, s3);
    lemma_keeps_trans(st, s3, s4);
    lemma_keeps_trans(st, s4, crate::declarations::spec_buffer(st, c, k, b));
}

pub proof fn lemma_buffers(st: State, c: Ctx, k: Kernel, b: Seq<crate::ast::BufferDecl>)
    ensures
        keeps(st, crate::declarations::spec_buffers(st, c, k, b)),
    decreases b.len(),
{
    if b.len() > 0 {
        let s1 = crate::declarations::spec_buffers(st, c, k, b.drop_last());
        lemma_buffers(st, c, k, b.drop_last());
        lemma_buffer(s1, c, k, b.last());
        lemma_keeps_trans(st, s1, crate::declarations::spec_buffers(st, c, k, b));
    }
}

pub proof fn lemma_warps(st: State, r: crate::ast::RoleDecl, n: int, threads: Option<u64>)
    ensures
        keeps(st, crate::declarations::spec_warps(st, r, n, threads)),
    decreases n,
{
    if 0 < n <= r.warps@.len() {
        let s1 = crate::declarations::spec_warps(st, r, n - 1, threads);
        lemma_warps(st, r, n - 1, threads);
        lemma_keeps_trans(st, s1, crate::declarations::spec_warps(st, r, n, threads));
    }
}

pub proof fn lemma_decl_roles(st: State, roles: Seq<crate::ast::RoleDecl>, threads: Option<u64>)
    ensures
        keeps(st, crate::declarations::spec_roles(st, roles, threads)),
    decreases roles.len(),
{
    if roles.len() > 0 {
        let s1 = crate::declarations::spec_roles(st, roles.drop_last(), threads);
        lemma_decl_roles(st, roles.drop_last(), threads);
        let r = roles.last();
        let s2 = if r.warps@.len() == 0 {
            with_error(s1, None, crate::diagnostic::DiagnosticCode::InvalidParticipation, "a role cannot be empty"@)
        } else {
            s1
        };
        lemma_warps(s2, r, r.warps@.len() as int, threads);
        lemma_keeps_trans(st, s1, s2);
        lemma_keeps_trans(st, s2, crate::declarations::spec_roles(st, roles, threads));
    }
}

pub proof fn lemma_decl_accumulators(st: State, c: Ctx, k: Kernel, a: Seq<crate::ast::AccumulatorDecl>)
    ensures
        keeps(st, crate::declarations::spec_accumulators(st, c, k, a)),
    decreases a.len(),
{
    if a.len() > 0 {
        let s0 = crate::declarations::spec_accumulators(st, c, k, a.drop_last());
        lemma_decl_accumulators(st, c, k, a.drop_last());
        let x = a.last();
        let s1 = if !crate::lookup::has_key(k.roles@, x.ty.participants@) {
            with_error(s0, None, crate::diagnostic::DiagnosticCode::UnknownSymbol, "accumulator has an unknown participant role"@)
        } else {
            s0
        };
        lemma_indices(s1, c, x.ty.logical_shape@);
        let s2 = crate::declarations::spec_indices(s1, c, x.ty.logical_shape@);
        lemma_keeps_trans(st, s0, s1);
        lemma_keeps_trans(st, s1, s2);
        lemma_keeps_trans(st, s2, crate::declarations::spec_accumulators(st, c, k, a));
    }
}

pub proof fn lemma_claims(
    st: State,
    owners: Seq<(crate::types::StorageId, PipelineId)>,
    k: Kernel,
    p: crate::ast::PipelineDecl,
    bindings: Seq<crate::ast::PipelineBufferBinding>,
)
    ensures
        keeps(st, crate::declarations::spec_claims(st, owners, k, p, bindings).0),
    decreases bindings.len(),
{
    if bindings.len() > 0 {
        let s1 = crate::declarations::spec_claims(st, owners, k, p, bindings.drop_last()).0;
        lemma_claims(st, owners, k, p, bindings.drop_last());
        lemma_keeps_trans(st, s1, crate::declarations::spec_claims(st, owners, k, p, bindings).0);
    }
}

pub proof fn lemma_pairs_with(
    st: State,
    k: Kernel,
    slots: u32,
    a: crate::ast::PipelineBufferBinding,
    later: Seq<crate::ast::PipelineBufferBinding>,
)
    ensures
        keeps(st, crate::declarations::spec_pairs_with(st, k, slots, a, later)),
    decreases later.len(),
{
    if later.len() > 0 {
        let s1 = crate::declarations::spec_pairs_with(st, k, slots, a, later.drop_last());
        lemma_pairs_with(st, k, slots, a, later.drop_last());
        lemma_keeps_trans(st, s1, crate::declarations::spec_pairs_with(st, k, slots, a, later));
    }
}

pub proof fn lemma_pairs(st: State, k: Kernel, slots: u32, bs: Seq<crate::ast::PipelineBufferBinding>, n: int)
    ensures
        keeps(st, crate::declarations::spec_pairs(st, k, slots, bs, n)),
    decreases n,
{
    if 0 < n <= bs.len() {
        let s1 = crate::declarations::spec_pairs(st, k, slots, bs, n - 1);
        lemma_pairs(st, k, slots, bs, n - 1);
        lemma_pairs_with(s1, k, slots, bs[n - 1], bs.skip(n));
        lemma_keeps_trans(st, s1, crate::declarations::spec_pairs(st, k, slots, bs, n));
    }
}

pub proof fn lemma_binding(st: State, k: Kernel, p: crate::ast::PipelineDecl, n: int)
    ensures
        keeps(st, crate::declarations::spec_binding(st, k, p, n)),
{
}

pub proof fn lemma_bindings(st: State, k: Kernel, p: crate::ast::PipelineDecl, n: int)
    ensures
        keeps(st, crate::declarations::spec_bindings(st, k, p, n)),
    decreases n,
{
    if 0 < n <= p.buffers@.len() {
        let s1 = crate::declarations::spec_bindings(st, k, p, n - 1);
        lemma_bindings(st, k, p, n - 1);
        lemma_binding(s1, k, p, n - 1);
        lemma_keeps_trans(st, s1, crate::declarations::spec_bindings(st, k, p, n));
    }
}

pub proof fn lemma_pipeline(
    st: State,
    c: Ctx,
    owners: Seq<(crate::types::StorageId, PipelineId)>,
    k: Kernel,
    p: crate::ast::PipelineDecl,
)
    ensures
        keeps(st, crate::declarations::spec_pipeline(st, c, owners, k, p).0),
{
    let (s1, o1) = crate::declarations::spec_claims(st, owners, k, p, p.buffers@);
    lemma_claims(st, owners, k, p, p.buffers@);
    let s2 = spec_index(s1, c, p.iteration_count);
    lemma_index(s1, c, p.iteration_count);
    let s3 = if p.slots == 0 || p.buffers@.len() == 0 || p.producer@ == p.consumer@ {
        with_error(s2, None, crate::diagnostic::DiagnosticCode::InvalidPipeline, "pipeline requires positive slots, buffers and distinct producer/consumer roles"@)
    } else {
        s2
    };
    let s4 = crate::declarations::spec_pipeline_roles(s3, k, p);
    let s5 = crate::declarations::spec_pairs(s4, k, p.slots, p.buffers@, p.buffers@.len() as int);
    lemma_pairs(s4, k, p.slots, p.buffers@, p.buffers@.len() as int);
    lemma_bindings(s5, k, p, p.buffers@.len() as int);
    lemma_keeps_trans(st, s1, s2);
    lemma_keeps_trans(st, s2, s3);
    lemma_keeps_trans(st, s3, s4);
    lemma_keeps_trans(st, s4, s5);
    lemma_keeps_trans(st, s5, crate::declarations::spec_pipeline(st, c, owners, k, p).0);
}

pub proof fn lemma_pipelines(
    st: State,
    c: Ctx,
    owners: Seq<(crate::types::StorageId, PipelineId)>,
    k: Kernel,
    ps: Seq<crate::ast::PipelineDecl>,
)
    ensures
        keeps(st, crate::declarations::spec_pipelines(st, c, owners, k, ps).0),
    decreases ps.len(),
{
    if ps.len() > 0 {
        let (s1, o1) = crate::declarations::spec_pipelines(st, c, owners, k, ps.drop_last());
        lemma_pipelines(st, c, owners, k, ps.drop_last());
        lemma_pipeline(s1, c, o1, k, ps.last());
        lemma_keeps_trans(st, s1, crate::declarations::spec_pipelines(st, c, owners, k, ps).0);
    }
}

/// The declaration checks of a kernel only add errors and leave node IDs alone.
pub proof fn lemma_declarations(st: State, c: Ctx, k: Kernel)
    ensures
        keeps(st, crate::declarations::spec_declarations(st, c, k).0),
{
    let (s1, c1) = crate::declarations::spec_params(st, c, k.params@);
    lemma_params(st, c, k.params@);
    let s2 = spec_unique(s1, k.storages@, "storage"@);
    let s3 = spec_unique(s2, k.buffers@, "buffer"@);
    let s4 = spec_unique(s3, k.roles@, "role"@);
    let s5 = spec_unique(s4, k.pipelines@, "pipeline"@);
    let s6 = spec_unique(s5, k.accumulators@, "accumulator"@);
    lemma_unique(s1, k.storages@, "storage"@);
    lemma_unique(s2, k.buffers@, "buffer"@);
    lemma_unique(s3, k.roles@, "role"@);
    lemma_unique(s4, k.pipelines@, "pipeline"@);
    lemma_unique(s5, k.accumulators@, "accumulator"@);
    lemma_keeps_trans(st, s1, s2);
    lemma_keeps_trans(st, s2, s3);
    lemma_keeps_trans(st, s3, s4);
    lemma_keeps_trans(st, s4, s5);
    lemma_keeps_trans(st, s5, s6);
    let threads = crate::declarations::block_threads(k.block@);
    let s7 = if threads is None || k.block@.contains(0u32) {
        with_error(s6, None, crate::diagnostic::DiagnosticCode::InvalidParticipation, "invalid or overflowing block dimensions"@)
    } else {
        s6
    };
    lemma_keeps_trans(st, s6, s7);
    let s8 = crate::declarations::spec_storages(s7, c1, k.storages@);
    lemma_storages(s7, c1, k.storages@);
    let s9 = crate::declarations::spec_buffers(s8, c1, k, k.buffers@);
    lemma_buffers(s8, c1, k, k.buffers@);
    let s10 = crate::declarations::spec_roles(s9, k.roles@, threads);
    lemma_decl_roles(s9, k.roles@, threads);
    let s11 = crate::declarations::spec_accumulators(s10, c1, k, k.accumulators@);
    lemma_decl_accumulators(s10, c1, k, k.accumulators@);
    lemma_pipelines(s11, c1, seq![], k, k.pipelines@);
    lemma_keeps_trans(st, s7, s8);
    lemma_keeps_trans(st, s8, s9);
    lemma_keeps_trans(st, s9, s10);
    lemma_keeps_trans(st, s10, s11);
    lemma_keeps_trans(st, s11, crate::declarations::spec_declarations(st, c, k).0);
}


pub proof fn lemma_carried(st: State, c: Ctx, child: Ctx, n: ScheduleNode, items: Seq<crate::ast::CarriedValue>)
    ensures
        keeps(st, crate::region::spec_carried(st, c, child, n, items).0),
    decreases items.len(),
{
    if items.len() > 0 {
        let (s0, ch0) = crate::region::spec_carried(st, c, child, n, items.drop_last());
        lemma_carried(st, c, child, n, items.drop_last());
        let item = items.last();
        let s1 = spec_expect(s0, c, item.initial, item.argument.ty@, Some(n));
        lemma_expect(s0, c, item.initial, item.argument.ty@, Some(n));
        let s2 = if item.argument.ty@ != item.result.ty@ {
            with_error(s1, Some(n), crate::diagnostic::DiagnosticCode::InvalidType, "loop-carried argument and result types differ"@)
        } else {
            s1
        };
        lemma_define(s2, ch0, item.argument, Some(n));
        lemma_keeps_trans(st, s0, s1);
        lemma_keeps_trans(st, s1, s2);
        lemma_keeps_trans(st, s2, crate::region::spec_carried(st, c, child, n, items).0);
    }
}

pub proof fn lemma_for_head(
    st: State,
    c: Ctx,
    n: ScheduleNode,
    lower: ValueId,
    upper: ValueId,
    step: ValueId,
    induction: ValueDef,
    carried: Seq<crate::ast::CarriedValue>,
)
    ensures
        keeps(st, crate::region::spec_for_head(st, c, n, lower, upper, step, induction, carried).0),
{
    let s1 = spec_expect(st, c, lower, TypeRefV::Index, Some(n));
    let s2 = spec_expect(s1, c, upper, TypeRefV::Index, Some(n));
    let s3 = spec_expect(s2, c, step, TypeRefV::Index, Some(n));
    let s4 = if !crate::region::positive_step(c, step) {
        with_error(s3, Some(n), crate::diagnostic::DiagnosticCode::UnsupportedSyntax, "the supported For subset requires a constant positive index step"@)
    } else {
        s3
    };
    let child0 = Ctx { conditional: true, ..c };
    let s5 = if induction.ty@ != TypeRefV::Index {
        with_error(s4, Some(n), crate::diagnostic::DiagnosticCode::InvalidType, "For induction must be Index"@)
    } else {
        s4
    };
    let (s6, child1) = spec_define(s5, child0, induction, Some(n));
    lemma_define(s5, child0, induction, Some(n));
    let child2 = if crate::lookup::has_key(c.uniform, lower@) && crate::lookup::has_key(c.uniform, upper@)
        && crate::lookup::has_key(c.uniform, step@) {
        Ctx { uniform: crate::lookup::with_key(child1.uniform, induction.id), ..child1 }
    } else {
        child1
    };
    lemma_carried(s6, c, child2, n, carried);
    lemma_keeps_trans(st, s1, s2);
    lemma_keeps_trans(st, s2, s3);
    lemma_keeps_trans(st, s3, s4);
    lemma_keeps_trans(st, s4, s5);
    lemma_keeps_trans(st, s5, s6);
    lemma_keeps_trans(st, s6, crate::region::spec_for_head(st, c, n, lower, upper, step, induction, carried).0);
}

pub proof fn lemma_pipeline_head(st: State, c: Ctx, k: Kernel, n: ScheduleNode, pipeline: PipelineId, iteration: ValueDef)
    ensures
        keeps(st, crate::region::spec_pipeline_head(st, c, k, n, pipeline, iteration).0),
        crate::region::spec_pipeline_head(st, c, k, n, pipeline, iteration).2 is None ==> crate::region::spec_pipeline_head(
            st,
            c,
            k,
            n,
            pipeline,
            iteration,
        ).0.bag.len() > st.bag.len(),
{
}

pub proof fn lemma_warp_claims(st: State, n: ScheduleNode, ws: Seq<u32>, seen: Seq<u32>)
    ensures
        keeps(st, crate::region::spec_warp_claims(st, n, ws, seen).0),
    decreases ws.len(),
{
    if ws.len() > 0 {
        let s0 = crate::region::spec_warp_claims(st, n, ws.drop_last(), seen).0;
        lemma_warp_claims(st, n, ws.drop_last(), seen);
        lemma_keeps_trans(st, s0, crate::region::spec_warp_claims(st, n, ws, seen).0);
    }
}

pub proof fn lemma_participant(
    st: State,
    k: Kernel,
    n: ScheduleNode,
    role: crate::types::RoleId,
    participants: Seq<crate::types::RoleId>,
    warps: Seq<u32>,
)
    ensures
        keeps(st, crate::region::spec_participant(st, k, n, role, participants, warps).0),
{
    let s1 = if crate::lookup::has_key(participants, role@) {
        with_error(st, Some(n), crate::diagnostic::DiagnosticCode::InvalidParticipation, "role appears twice in ConcurrentRoles"@)
    } else {
        st
    };
    match crate::lookup::find_index(k.roles@, role@) {
        Some(i) => {
            lemma_warp_claims(s1, n, k.roles@[i].warps@, warps);
            lemma_keeps_trans(st, s1, crate::region::spec_participant(st, k, n, role, participants, warps).0);
        },
        None => {},
    }
}

pub proof fn lemma_uses(
    st: State,
    k: Kernel,
    n: ScheduleNode,
    pairs: Seq<(PipelineId, crate::types::RoleId)>,
    order: Seq<PipelineId>,
    m: int,
)
    ensures
        keeps(st, crate::region::spec_uses(st, k, n, pairs, order, m)),
    decreases m,
{
    if m > 0 {
        let s0 = crate::region::spec_uses(st, k, n, pairs, order, m - 1);
        lemma_uses(st, k, n, pairs, order, m - 1);
        lemma_keeps_trans(st, s0, crate::region::spec_uses(st, k, n, pairs, order, m));
    }
}

/// The node IDs of a sequence, each by its text.
pub open spec fn ids_view(s: Seq<crate::types::NodeId>) -> Seq<Seq<char>> {
    s.map_values(|x: crate::types::NodeId| x@)
}

/// `ids` are nonempty, pairwise distinct, and none of them is in `before`.
pub open spec fn fresh_ids(before: Seq<Seq<char>>, ids: Seq<Seq<char>>) -> bool {
    &&& forall|i: int| 0 <= i < ids.len() ==> (#[trigger] ids[i]).len() > 0 && !before.contains(ids[i])
    &&& forall|i: int, j: int| 0 <= i < j < ids.len() ==> #[trigger] ids[i] != #[trigger] ids[j]
}

/// A check step that only adds errors, and that, when it adds none, has recorded
/// exactly `ids` as node IDs, each new.
pub open spec fn visits(a: State, b: State, ids: Seq<Seq<char>>) -> bool {
    &&& extends(a.bag, b.bag)
    &&& b.bag.len() == a.bag.len() ==> ids_view(b.node_ids) == ids_view(a.node_ids) + ids && fresh_ids(
        ids_view(a.node_ids),
        ids,
    )
}

pub proof fn lemma_keeps_visits(a: State, b: State)
    requires
        keeps(a, b),
    ensures
        visits(a, b, seq![]),
{
    assert(ids_view(a.node_ids) + seq![] =~= ids_view(a.node_ids));
}

pub proof fn lemma_visits_trans(a: State, b: State, c: State, x: Seq<Seq<char>>, y: Seq<Seq<char>>)
    requires
        visits(a, b, x),
        visits(b, c, y),
    ensures
        visits(a, c, x + y),
{
    assert forall|i: int| 0 <= i < a.bag.len() implies #[trigger] c.bag[i] == a.bag[i] by {
        assert(c.bag[i] == b.bag[i]);
    }
    assert forall|i: int| a.bag.len() <= i < c.bag.len() implies (#[trigger] c.bag[i]).severity
        == DiagnosticSeverity::Error by {
        if i < b.bag.len() {
            assert(c.bag[i] == b.bag[i]);
        }
    }
    if c.bag.len() == a.bag.len() {
        let va = ids_view(a.node_ids);
        let xy = x + y;
        assert(ids_view(c.node_ids) =~= va + xy);
        assert forall|i: int| 0 <= i < xy.len() implies (#[trigger] xy[i]).len() > 0 && !va.contains(xy[i]) by {
            if i >= x.len() {
                assert(xy[i] == y[i - x.len()]);
                if va.contains(xy[i]) {
                    let l = choose|l: int| 0 <= l < va.len() && va[l] == xy[i];
                    assert((va + x)[l] == xy[i]);
                }
            } else {
                assert(xy[i] == x[i]);
            }
        }
        assert forall|i: int, j: int| 0 <= i < j < xy.len() implies #[trigger] xy[i] != #[trigger] xy[j] by {
            if j < x.len() {
                assert(xy[i] == x[i] && xy[j] == x[j]);
            } else if i >= x.len() {
                assert(xy[i] == y[i - x.len()] && xy[j] == y[j - x.len()]);
            } else {
                assert(xy[i] == x[i] && xy[j] == y[j - x.len()]);
                assert((va + x)[va.len() + i] == x[i]);
            }
        }
    }
}

pub proof fn lemma_node_id(st: State, n: ScheduleNode)
    ensures
        visits(st, crate::nodes::spec_node_id(st, n), seq![n.meta.node_id@]),
{
    let id = n.meta.node_id;
    if !(id@.len() == 0 || crate::lookup::has_key(st.node_ids, id@)) {
        let after = crate::nodes::spec_node_id(st, n);
        assert(ids_view(after.node_ids) =~= ids_view(st.node_ids) + seq![id@]);
        if ids_view(st.node_ids).contains(id@) {
            let l = choose|l: int| 0 <= l < ids_view(st.node_ids).len() && ids_view(st.node_ids)[l] == id@;
            assert(st.node_ids[l].key() == id@);
        }
    }
}

/// The IDs of the regions nested in a node, in preorder.
pub open spec fn child_ids(n: ScheduleNode) -> Seq<Seq<char>> {
    match n.kind {
        crate::ast::ScheduleNodeKind::If { then_body, else_body, .. } => crate::builder::region_ids(then_body@)
            + crate::builder::region_ids(else_body@),
        crate::ast::ScheduleNodeKind::For { body, .. } => crate::builder::region_ids(body@),
        crate::ast::ScheduleNodeKind::PipelineFor { body, .. } => crate::builder::region_ids(body@),
        crate::ast::ScheduleNodeKind::ConcurrentRoles { roles, .. } => crate::builder::roles_ids(roles@),
        _ => seq![],
    }
}

pub proof fn lemma_region_visits(st: State, c: Ctx, k: Kernel, body: Seq<ScheduleNode>, ending: EndingV)
    ensures
        visits(st, crate::region::spec_region(st, c, k, body, ending).0, crate::builder::region_ids(body)),
    decreases body, 3nat,
{
    let (s1, c1) = crate::region::spec_steps(st, c, k, body, body.len() as int, ending);
    lemma_steps_visits(st, c, k, body, body.len() as int, ending);
    let s2 = crate::region::spec_region_end(s1, body, ending);
    assert(keeps(s1, s2));
    lemma_keeps_visits(s1, s2);
    lemma_visits_trans(st, s1, s2, crate::builder::region_ids(body), seq![]);
    assert(crate::builder::region_ids(body) + seq![] =~= crate::builder::region_ids(body));
}

pub proof fn lemma_steps_visits(st: State, c: Ctx, k: Kernel, prefix: Seq<ScheduleNode>, total: int, ending: EndingV)
    ensures
        visits(st, crate::region::spec_steps(st, c, k, prefix, total, ending).0, crate::builder::region_ids(prefix)),
    decreases prefix, 2nat,
{
    if prefix.len() == 0 {
        lemma_keeps_visits(st, st);
    } else {
        let (s1, c1) = crate::region::spec_steps(st, c, k, prefix.drop_last(), total, ending);
        lemma_steps_visits(st, c, k, prefix.drop_last(), total, ending);
        lemma_step_visits(s1, c1, k, prefix.last(), prefix.len() == total, ending);
        lemma_visits_trans(
            st,
            s1,
            crate::region::spec_steps(st, c, k, prefix, total, ending).0,
            crate::builder::region_ids(prefix.drop_last()),
            crate::builder::node_ids(prefix.last()),
        );
    }
}

pub proof fn lemma_step_visits(st: State, c: Ctx, k: Kernel, n: ScheduleNode, last: bool, ending: EndingV)
    ensures
        visits(st, crate::region::spec_step(st, c, k, n, last, ending).0, crate::builder::node_ids(n)),
    decreases n, 1nat,
{
    let s1 = crate::nodes::spec_node_id(st, n);
    lemma_node_id(st, n);
    let s2 = spec_operands(s1, c, n, n.kind.operand_ids());
    lemma_operands(s1, c, n, n.kind.operand_ids());
    lemma_keeps_visits(s1, s2);
    lemma_visits_trans(st, s1, s2, seq![n.meta.node_id@], seq![]);
    assert(seq![n.meta.node_id@] + seq![] =~= seq![n.meta.node_id@]);
    let (s3, c3) = if crate::nodes::is_nested(n.kind) {
        crate::region::spec_nested(s2, c, k, n)
    } else {
        spec_flat(s2, c, k, n, last, ending)
    };
    if crate::nodes::is_nested(n.kind) {
        lemma_nested_visits(s2, c, k, n);
    } else {
        lemma_flat(s2, c, k, n, last, ending);
        lemma_keeps_visits(s2, s3);
        assert(child_ids(n) =~= seq![]);
    }
    lemma_visits_trans(st, s2, s3, seq![n.meta.node_id@], child_ids(n));
    lemma_defines(s3, c3, n.kind.result_defs(), n);
    let s4 = spec_defines(s3, c3, n.kind.result_defs(), n).0;
    lemma_keeps_visits(s3, s4);
    lemma_visits_trans(st, s3, s4, seq![n.meta.node_id@] + child_ids(n), seq![]);
    assert(seq![n.meta.node_id@] + child_ids(n) + seq![] =~= crate::builder::node_ids(n));
}

#[verifier::rlimit(40)]
pub proof fn lemma_nested_visits(st: State, c: Ctx, k: Kernel, n: ScheduleNode)
    requires
        crate::nodes::is_nested(n.kind),
    ensures
        visits(st, crate::region::spec_nested(st, c, k, n).0, child_ids(n)),
    decreases n, 0nat,
{
    match n.kind {
        crate::ast::ScheduleNodeKind::If { condition, results, then_body, else_body } => {
            let s1 = spec_expect(st, c, condition, TypeRefV::Predicate, Some(n));
            lemma_expect(st, c, condition, TypeRefV::Predicate, Some(n));
            lemma_keeps_visits(st, s1);
            let inner = Ctx { conditional: true, ..c };
            let e = EndingV::Yield(crate::region::def_types(results@));
            let s2 = crate::region::spec_region(s1, inner, k, then_body@, e).0;
            lemma_region_visits(s1, inner, k, then_body@, e);
            let s3 = crate::region::spec_region(s2, inner, k, else_body@, e).0;
            lemma_region_visits(s2, inner, k, else_body@, e);
            lemma_visits_trans(st, s1, s2, seq![], crate::builder::region_ids(then_body@));
            assert(seq![] + crate::builder::region_ids(then_body@) =~= crate::builder::region_ids(then_body@));
            lemma_visits_trans(st, s2, s3, crate::builder::region_ids(then_body@), crate::builder::region_ids(else_body@));
        },
        crate::ast::ScheduleNodeKind::For { lower, upper, step, induction, carried, body } => {
            let (s1, child) = crate::region::spec_for_head(st, c, n, lower, upper, step, induction, carried@);
            lemma_for_head(st, c, n, lower, upper, step, induction, carried@);
            lemma_keeps_visits(st, s1);
            let e = EndingV::Yield(crate::region::carried_types(carried@));
            lemma_region_visits(s1, child, k, body@, e);
            lemma_visits_trans(st, s1, crate::region::spec_region(s1, child, k, body@, e).0, seq![], crate::builder::region_ids(body@));
            assert(seq![] + crate::builder::region_ids(body@) =~= crate::builder::region_ids(body@));
        },
        crate::ast::ScheduleNodeKind::PipelineFor { pipeline, iteration, body } => {
            let (s1, parent, child) = crate::region::spec_pipeline_head(st, c, k, n, pipeline, iteration);
            lemma_pipeline_head(st, c, k, n, pipeline, iteration);
            match child {
                None => {},
                Some(ch) => {
                    lemma_keeps_visits(st, s1);
                    let (s2, done) = crate::region::spec_region(s1, ch, k, body@, EndingV::Pipeline);
                    lemma_region_visits(s1, ch, k, body@, EndingV::Pipeline);
                    lemma_visits_trans(st, s1, s2, seq![], crate::builder::region_ids(body@));
                    assert(seq![] + crate::builder::region_ids(body@) =~= crate::builder::region_ids(body@));
                    let s3 = crate::region::spec_pipeline_tail(s2, done, n, pipeline);
                    assert(keeps(s2, s3));
                    lemma_keeps_visits(s2, s3);
                    lemma_visits_trans(st, s2, s3, crate::builder::region_ids(body@), seq![]);
                    assert(crate::builder::region_ids(body@) + seq![] =~= crate::builder::region_ids(body@));
                },
            }
        },
        crate::ast::ScheduleNodeKind::ConcurrentRoles { roles, join_scope } => {
            let s1 = crate::region::spec_concurrent_head(st, c, n, roles@.len(), join_scope);
            assert(keeps(st, s1));
            lemma_keeps_visits(st, s1);
            let acc = crate::region::spec_roles(s1, c, k, n, roles@);
            lemma_roles_visits(s1, c, k, n, roles@);
            lemma_visits_trans(st, s1, acc.state, seq![], crate::builder::roles_ids(roles@));
            assert(seq![] + crate::builder::roles_ids(roles@) =~= crate::builder::roles_ids(roles@));
            let s2 = crate::region::spec_uses(acc.state, k, n, acc.pairs, acc.order, acc.order.len() as int);
            lemma_uses(acc.state, k, n, acc.pairs, acc.order, acc.order.len() as int);
            lemma_keeps_visits(acc.state, s2);
            lemma_visits_trans(st, acc.state, s2, crate::builder::roles_ids(roles@), seq![]);
            assert(crate::builder::roles_ids(roles@) + seq![] =~= crate::builder::roles_ids(roles@));
        },
        _ => {},
    }
}

pub proof fn lemma_roles_visits(st: State, c: Ctx, k: Kernel, n: ScheduleNode, roles: Seq<crate::ast::RoleRegion>)
    ensures
        visits(st, crate::region::spec_roles(st, c, k, n, roles).state, crate::builder::roles_ids(roles)),
    decreases roles, 1nat,
{
    if roles.len() == 0 {
        lemma_keeps_visits(st, st);
    } else {
        let acc = crate::region::spec_roles(st, c, k, n, roles.drop_last());
        lemma_roles_visits(st, c, k, n, roles.drop_last());
        let r = roles.last();
        let (s1, participants, warps) = crate::region::spec_participant(acc.state, k, n, r.role, acc.participants, acc.warps);
        lemma_participant(acc.state, k, n, r.role, acc.participants, acc.warps);
        lemma_keeps_visits(acc.state, s1);
        let child = Ctx { role: Some(r.role), loops: seq![], drained: seq![], ..c };
        let (s2, done) = crate::region::spec_region(s1, child, k, r.body@, EndingV::Role);
        lemma_region_visits(s1, child, k, r.body@, EndingV::Role);
        let s3 = crate::region::spec_role_exit(s2, done, n);
        assert(keeps(s2, s3));
        lemma_keeps_visits(s2, s3);
        let x = crate::builder::roles_ids(roles.drop_last());
        let y = crate::builder::region_ids(r.body@);
        lemma_visits_trans(st, acc.state, s1, x, seq![]);
        assert(x + seq![] =~= x);
        lemma_visits_trans(st, s1, s2, x, y);
        lemma_visits_trans(st, s2, s3, x + y, seq![]);
        assert(x + y + seq![] =~= x + y);
    }
}


/// Extending the findings through a middle state without adding any means adding none
/// at either step.
proof fn lemma_quiet_between(a: Seq<DiagnosticV>, b: Seq<DiagnosticV>, c: Seq<DiagnosticV>)
    requires
        extends(a, b),
        extends(b, c),
        c.len() == a.len(),
    ensures
        b.len() == a.len(),
{
}

pub proof fn lemma_kernel_visits(
    bag: Seq<DiagnosticV>,
    node_ids: Seq<crate::types::NodeId>,
    names: Seq<String>,
    k: Kernel,
)
    ensures
        visits(
            crate::verify::kernel_start(bag, node_ids),
            crate::verify::kernel_start(
                crate::verify::spec_kernel(bag, node_ids, names, k).0,
                crate::verify::spec_kernel(bag, node_ids, names, k).1,
            ),
            crate::builder::region_ids(k.body@),
        ),
{
    reveal(crate::verify::spec_kernel);
    let st0 = crate::verify::kernel_start(bag, node_ids);
    let bag1 = if k.name@.len() == 0 || crate::lookup::has_key(names, k.name@) {
        bag.push(crate::diagnostic::plain_error(crate::diagnostic::DiagnosticCode::DuplicateSymbol, "kernel names must be nonempty and unique"@))
    } else {
        bag
    };
    let st1 = crate::verify::kernel_start(bag1, node_ids);
    assert(keeps(st0, st1));
    let (s1, c1) = crate::declarations::spec_declarations(st1, crate::checker::empty_ctx(), k);
    lemma_declarations(st1, crate::checker::empty_ctx(), k);
    lemma_keeps_trans(st0, st1, s1);
    lemma_keeps_visits(st0, s1);
    let (s2, _) = crate::region::spec_region(s1, c1, k, k.body@, EndingV::Kernel);
    lemma_region_visits(s1, c1, k, k.body@, EndingV::Kernel);
    lemma_visits_trans(st0, s1, s2, seq![], crate::builder::region_ids(k.body@));
    assert(seq![] + crate::builder::region_ids(k.body@) =~= crate::builder::region_ids(k.body@));
}

pub proof fn lemma_kernels_visits(bag: Seq<DiagnosticV>, prefix: Seq<Kernel>)
    ensures
        visits(
            crate::verify::kernel_start(bag, seq![]),
            crate::verify::kernel_start(
                crate::verify::spec_kernels(bag, prefix).0,
                crate::verify::spec_kernels(bag, prefix).1,
            ),
            crate::builder::module_ids(prefix),
        ),
    decreases prefix.len(),
{
    let a = crate::verify::kernel_start(bag, seq![]);
    if prefix.len() == 0 {
        assert(ids_view(seq![]) + seq![] =~= ids_view(seq![]));
    } else {
        let (b0, n0, names0) = crate::verify::spec_kernels(bag, prefix.drop_last());
        lemma_kernels_visits(bag, prefix.drop_last());
        lemma_kernel_visits(b0, n0, names0, prefix.last());
        let (b1, n1) = crate::verify::spec_kernel(b0, n0, names0, prefix.last());
        lemma_visits_trans(
            a,
            crate::verify::kernel_start(b0, n0),
            crate::verify::kernel_start(b1, n1),
            crate::builder::module_ids(prefix.drop_last()),
            crate::builder::region_ids(prefix.last().body@),
        );
    }
}

/// A module whose check finds no error has a nonempty ID on every node, and no two of
/// its nodes share an ID.
pub proof fn lemma_valid_node_ids(m: crate::ast::Module)
    requires
        !crate::diagnostic::has_error(crate::verify::spec_validate(m)),
    ensures
        forall|i: int|
            0 <= i < crate::builder::module_ids(m.kernels@).len() ==> (#[trigger] crate::builder::module_ids(
                m.kernels@,
            )[i]).len() > 0,
        forall|i: int, j: int|
            0 <= i < j < crate::builder::module_ids(m.kernels@).len() ==> #[trigger] crate::builder::module_ids(
                m.kernels@,
            )[i] != #[trigger] crate::builder::module_ids(m.kernels@)[j],
{
    let header = crate::verify::spec_header(m);
    lemma_kernels_visits(header, m.kernels@);
    let (b, n, names) = crate::verify::spec_kernels(header, m.kernels@);
    if b.len() > header.len() {
        assert(b[header.len() as int].severity == DiagnosticSeverity::Error);
    }
    assert(ids_view(seq![]) =~= Seq::<Seq<char>>::empty());
    let ids = crate::builder::module_ids(m.kernels@);
    assert(fresh_ids(seq![], ids));
}

/// The checks of a module report a finding exactly when they report an error.
pub proof fn lemma_findings_are_errors(m: crate::ast::Module)
    ensures
        crate::verify::spec_validate(m).len() > 0 <==> crate::diagnostic::has_error(crate::verify::spec_validate(m)),
{
    let header = crate::verify::spec_header(m);
    lemma_kernels_visits(header, m.kernels@);
    let b = crate::verify::spec_validate(m);
    if b.len() > 0 {
        assert(b[0].severity == DiagnosticSeverity::Error);
    }
}


proof fn lemma_put_keys<K: Keyed, V>(s: Seq<(K, V)>, k: K, v: V, x: Seq<char>)
    ensures
        crate::lookup::has_key(crate::lookup::put(s, k, v), x) ==> crate::lookup::has_key(s, x) || x == k.key(),
{
    let t = crate::lookup::put(s, k, v);
    if crate::lookup::has_key(t, x) {
        let j = choose|j: int| 0 <= j < t.len() && t[j].key() == x;
        match crate::lookup::find_index(s, k.key()) {
            Some(i) => {
                assert(t[j].key() == s[j].key());
            },
            None => {
                if j < s.len() {
                    assert(t[j] == s[j]);
                }
            },
        }
    }
}

proof fn lemma_params_keys(st: State, c: Ctx, params: Seq<ValueDef>, x: Seq<char>)
    ensures
        crate::lookup::has_key(crate::declarations::spec_params(st, c, params).1.values, x) ==> crate::lookup::has_key(
            c.values,
            x,
        ) || crate::lookup::has_key(params, x),
    decreases params.len(),
{
    if params.len() > 0 {
        let (s1, c1) = crate::declarations::spec_params(st, c, params.drop_last());
        lemma_params_keys(st, c, params.drop_last(), x);
        let p = params.last();
        lemma_put_keys(c1.values, p.id, p.ty@, x);
        if crate::lookup::has_key(params.drop_last(), x) {
            let j = choose|j: int| 0 <= j < params.drop_last().len() && params.drop_last()[j].key() == x;
            assert(params[j].key() == x);
        }
        if x == p.id@ {
            assert(params[params.len() - 1].key() == x);
        }
    }
}

proof fn lemma_storages_quiet(st: State, c: Ctx, ss: Seq<crate::ast::StorageDecl>)
    requires
        crate::declarations::spec_storages(st, c, ss).bag.len() == st.bag.len(),
    ensures
        forall|i: int|
            0 <= i < ss.len() && (#[trigger] ss[i]).external is Some ==> crate::declarations::external_ok(c, ss[i]),
    decreases ss.len(),
{
    if ss.len() > 0 {
        let s1 = crate::declarations::spec_storages(st, c, ss.drop_last());
        lemma_storages(st, c, ss.drop_last());
        lemma_storage(s1, c, ss.last());
        lemma_quiet_between(st.bag, s1.bag, crate::declarations::spec_storages(st, c, ss).bag);
        lemma_storages_quiet(st, c, ss.drop_last());
        let s = ss.last();
        let t1 = spec_index(s1, c, s.ty.capacity_bytes);
        lemma_index(s1, c, s.ty.capacity_bytes);
        assert forall|i: int| 0 <= i < ss.len() && (#[trigger] ss[i]).external is Some implies crate::declarations::external_ok(
            c,
            ss[i],
        ) by {
            if i < ss.len() - 1 {
                assert(ss.drop_last()[i] == ss[i]);
            }
        }
    }
}

proof fn lemma_buffers_quiet(st: State, c: Ctx, k: Kernel, bs: Seq<crate::ast::BufferDecl>)
    requires
        crate::declarations::spec_buffers(st, c, k, bs).bag.len() == st.bag.len(),
    ensures
        forall|i: int| 0 <= i < bs.len() ==> crate::lookup::find_index(k.storages@, (#[trigger] bs[i]).ty.storage@) is Some,
    decreases bs.len(),
{
    if bs.len() > 0 {
        let s1 = crate::declarations::spec_buffers(st, c, k, bs.drop_last());
        lemma_buffers(st, c, k, bs.drop_last());
        lemma_buffer(s1, c, k, bs.last());
        lemma_quiet_between(st.bag, s1.bag, crate::declarations::spec_buffers(st, c, k, bs).bag);
        lemma_buffers_quiet(st, c, k, bs.drop_last());
        let b = bs.last();
        if crate::lookup::find_index(k.storages@, b.ty.storage@) is None {
            let elem = b.ty.element.bytes();
            let s0 = spec_index(s1, c, b.ty.offset_bytes);
            lemma_index(s1, c, b.ty.offset_bytes);
            let s1b = crate::declarations::spec_indices(s0, c, b.ty.shape@);
            lemma_indices(s0, c, b.ty.shape@);
            lemma_keeps_trans(s1, s0, s1b);
            let s2 = match b.ty.mapping {
                crate::types::MappingSpec::Strided { strides_bytes } => {
                    let t = if strides_bytes@.len() != b.ty.shape@.len() {
                        with_error(s1b, None, crate::diagnostic::DiagnosticCode::InvalidResource, "buffer rank and stride rank differ"@)
                    } else {
                        s1b
                    };
                    lemma_strides(t, c, strides_bytes@, elem);
                    lemma_keeps_trans(s1b, t, crate::declarations::spec_strides(t, c, strides_bytes@, elem));
                    crate::declarations::spec_strides(t, c, strides_bytes@, elem)
                },
                crate::types::MappingSpec::Registered { .. } => s1b,
            };
            lemma_keeps_trans(s1, s1b, s2);
            let s3 = match b.ty.offset_bytes.eval() {
                Ok(Some(o)) => if o % elem != 0 {
                    with_error(s2, None, crate::diagnostic::DiagnosticCode::InvalidResource, "buffer byte offset is not element-aligned"@)
                } else {
                    s2
                },
                _ => s2,
            };
            let s4 = match b.ty.mapping {
                crate::types::MappingSpec::Registered { name } => if name@.len() == 0 {
                    with_error(s3, None, crate::diagnostic::DiagnosticCode::InvalidResource, "registered mapping name cannot be empty"@)
                } else {
                    s3
                },
                _ => s3,
            };
            lemma_keeps_trans(s1, s2, s3);
            lemma_keeps_trans(s1, s3, s4);
            assert(crate::declarations::spec_buffer(s1, c, k, b).bag.len() == s4.bag.len() + 1);
        }
        assert forall|i: int| 0 <= i < bs.len() implies crate::lookup::find_index(k.storages@, (#[trigger] bs[i]).ty.storage@) is Some by {
            if i < bs.len() - 1 {
                assert(bs.drop_last()[i] == bs[i]);
            }
        }
    }
}

/// The buffer views of a kernel whose declarations check finds nothing all resolve.
proof fn lemma_declarations_views(st: State, k: Kernel)
    requires
        crate::declarations::spec_declarations(st, crate::checker::empty_ctx(), k).0.bag.len() == st.bag.len(),
    ensures
        crate::cuda::views_resolve(k),
{
    let c = crate::checker::empty_ctx();
    let (s1, c1) = crate::declarations::spec_params(st, c, k.params@);
    lemma_params(st, c, k.params@);
    let s2 = spec_unique(s1, k.storages@, "storage"@);
    let s3 = spec_unique(s2, k.buffers@, "buffer"@);
    let s4 = spec_unique(s3, k.roles@, "role"@);
    let s5 = spec_unique(s4, k.pipelines@, "pipeline"@);
    let s6 = spec_unique(s5, k.accumulators@, "accumulator"@);
    lemma_unique(s1, k.storages@, "storage"@);
    lemma_unique(s2, k.buffers@, "buffer"@);
    lemma_unique(s3, k.roles@, "role"@);
    lemma_unique(s4, k.pipelines@, "pipeline"@);
    lemma_unique(s5, k.accumulators@, "accumulator"@);
    lemma_keeps_trans(st, s1, s2);
    lemma_keeps_trans(st, s2, s3);
    lemma_keeps_trans(st, s3, s4);
    lemma_keeps_trans(st, s4, s5);
    lemma_keeps_trans(st, s5, s6);
    let threads = crate::declarations::block_threads(k.block@);
    let s7 = if threads is None || k.block@.contains(0u32) {
        with_error(s6, None, crate::diagnostic::DiagnosticCode::InvalidParticipation, "invalid or overflowing block dimensions"@)
    } else {
        s6
    };
    lemma_keeps_trans(st, s6, s7);
    let s8 = crate::declarations::spec_storages(s7, c1, k.storages@);
    lemma_storages(s7, c1, k.storages@);
    let s9 = crate::declarations::spec_buffers(s8, c1, k, k.buffers@);
    lemma_buffers(s8, c1, k, k.buffers@);
    let s10 = crate::declarations::spec_roles(s9, k.roles@, threads);
    lemma_decl_roles(s9, k.roles@, threads);
    let s11 = crate::declarations::spec_accumulators(s10, c1, k, k.accumulators@);
    lemma_decl_accumulators(s10, c1, k, k.accumulators@);
    lemma_pipelines(s11, c1, seq![], k, k.pipelines@);
    let fin = crate::declarations::spec_declarations(st, c, k).0;
    lemma_keeps_trans(s9, s10, s11);
    lemma_keeps_trans(s9, s11, fin);
    lemma_quiet_between(st.bag, s7.bag, fin.bag);
    lemma_keeps_trans(s7, s8, s9);
    lemma_keeps_trans(s7, s9, fin);
    lemma_quiet_between(s7.bag, s8.bag, fin.bag);
    lemma_keeps_trans(s8, s9, fin);
    lemma_quiet_between(s8.bag, s9.bag, fin.bag);
    lemma_storages_quiet(s7, c1, k.storages@);
    lemma_buffers_quiet(s8, c1, k, k.buffers@);
    assert forall|i: int| 0 <= i < k.buffers@.len() implies match crate::lookup::find_index(
        k.storages@,
        (#[trigger] k.buffers@[i]).ty.storage@,
    ) {
        Some(s) => (k.storages@[s].external matches Some(ext) ==> crate::lookup::has_key(k.params@, ext@)),
        None => false,
    } by {
        let s = crate::lookup::find_index(k.storages@, k.buffers@[i].ty.storage@)->0;
        crate::lookup::lemma_found(k.storages@, k.buffers@[i].ty.storage@);
        match k.storages@[s].external {
            Some(ext) => {
                assert(crate::declarations::external_ok(c1, k.storages@[s]));
                crate::lookup::lemma_has_key(c1.values, ext@);
                lemma_params_keys(st, c, k.params@, ext@);
                crate::lookup::lemma_has_key(c.values, ext@);
            },
            None => {},
        }
    }
}

/// In a module with one kernel whose check finds no error, every buffer views a
/// declared storage, and every external storage names a parameter.
pub proof fn lemma_valid_views(m: crate::ast::Module)
    requires
        !crate::diagnostic::has_error(crate::verify::spec_validate(m)),
        m.kernels@.len() == 1,
    ensures
        crate::cuda::views_resolve(m.kernels@[0]),
{
    reveal(crate::verify::spec_kernel);
    let header = crate::verify::spec_header(m);
    lemma_findings_are_errors(m);
    let k = m.kernels@[0];
    assert(m.kernels@.drop_last() =~= Seq::<Kernel>::empty());
    let (b0, n0, names0) = crate::verify::spec_kernels(header, m.kernels@.drop_last());
    assert(b0 == header && n0 == Seq::<crate::types::NodeId>::empty());
    let bag1 = if k.name@.len() == 0 || crate::lookup::has_key(names0, k.name@) {
        header.push(crate::diagnostic::plain_error(crate::diagnostic::DiagnosticCode::DuplicateSymbol, "kernel names must be nonempty and unique"@))
    } else {
        header
    };
    let st1 = crate::verify::kernel_start(bag1, n0);
    let (s1, c1) = crate::declarations::spec_declarations(st1, crate::checker::empty_ctx(), k);
    lemma_declarations(st1, crate::checker::empty_ctx(), k);
    let (s2, _) = crate::region::spec_region(s1, c1, k, k.body@, EndingV::Kernel);
    lemma_region_visits(s1, c1, k, k.body@, EndingV::Kernel);
    lemma_kernels_visits(header, m.kernels@);
    let fin = crate::verify::spec_validate(m);
    if fin.len() > header.len() {
        assert(fin[header.len() as int].severity == DiagnosticSeverity::Error);
    }
    assert(fin == s2.bag);
    lemma_quiet_between(st1.bag, s1.bag, s2.bag);
    lemma_declarations_views(st1, k);
}

/// The operands checked against `c` add no finding only when each is defined in `c`.
proof fn lemma_operands_quiet(st: State, c: Ctx, n: ScheduleNode, ids: Seq<ValueId>)
    requires
        spec_operands(st, c, n, ids).bag.len() == st.bag.len(),
    ensures
        forall|j: int| 0 <= j < ids.len() ==> crate::lookup::has_key(c.values, (#[trigger] ids[j])@),
    decreases ids.len(),
{
    if ids.len() > 0 {
        let s1 = spec_operands(st, c, n, ids.drop_last());
        lemma_operands(st, c, n, ids.drop_last());
        lemma_operands_quiet(st, c, n, ids.drop_last());
        assert forall|j: int| 0 <= j < ids.len() implies crate::lookup::has_key(c.values, (#[trigger] ids[j])@) by {
            if j < ids.len() - 1 {
                assert(ids[j] == ids.drop_last()[j]);
            }
        }
    }
}

/// The checks of a flat node that add no finding leave its operands defined, its
/// buffer references declared and its constant fitting its type.
proof fn lemma_quiet_step(st: State, c: Ctx, k: Kernel, n: ScheduleNode, last: bool, ending: EndingV)
    requires
        !crate::nodes::is_nested(n.kind),
        crate::region::spec_step(st, c, k, n, last, ending).0.bag.len() == st.bag.len(),
    ensures
        forall|j: int|
            0 <= j < n.kind.operand_ids().len() ==> crate::lookup::has_key(c.values, (#[trigger] n.kind.operand_ids()[j])@),
        n.kind matches crate::ast::ScheduleNodeKind::Load { source, .. } ==> crate::lookup::find_index(
            k.buffers@,
            source.buffer_of()@,
        ) is Some,
        n.kind matches crate::ast::ScheduleNodeKind::Store { destination, .. } ==> crate::lookup::find_index(
            k.buffers@,
            destination.buffer_of()@,
        ) is Some,
        n.kind matches crate::ast::ScheduleNodeKind::Constant { value, result } ==> crate::checker::literal_fits(
            value,
            result.ty@,
        ),
{
    let s1 = crate::nodes::spec_node_id(st, n);
    lemma_node_id(st, n);
    let ids = n.kind.operand_ids();
    let s2 = spec_operands(s1, c, n, ids);
    lemma_operands(s1, c, n, ids);
    let (s3, c3) = spec_flat(s2, c, k, n, last, ending);
    lemma_flat(s2, c, k, n, last, ending);
    lemma_defines(s3, c3, n.kind.result_defs(), n);
    lemma_operands_quiet(s1, c, n, ids);
    match n.kind {
        crate::ast::ScheduleNodeKind::Load { source, indices, mask, masked_value, result } => {
            let (m1, pos) = spec_memory(s2, c, k, Some(n), source, false);
            let buffer = crate::nodes::decl_at(k, pos);
            let t2 = spec_expect(m1, c, mask, TypeRefV::Predicate, Some(n));
            lemma_expect(m1, c, mask, TypeRefV::Predicate, Some(n));
            let t3 = spec_expect(t2, c, masked_value, result.ty@, Some(n));
            lemma_expect(t2, c, masked_value, result.ty@, Some(n));
            let t4 = spec_access_indices(t3, c, Some(n), indices@, buffer);
            lemma_access_indices(t3, c, Some(n), indices@, buffer);
        },
        crate::ast::ScheduleNodeKind::Store { destination, indices, value, mask } => {
            let (m1, pos) = spec_memory(s2, c, k, Some(n), destination, true);
            let buffer = crate::nodes::decl_at(k, pos);
            let t2 = spec_expect(m1, c, mask, TypeRefV::Predicate, Some(n));
            lemma_expect(m1, c, mask, TypeRefV::Predicate, Some(n));
            let t3 = spec_access_indices(t2, c, Some(n), indices@, buffer);
            lemma_access_indices(t2, c, Some(n), indices@, buffer);
            match buffer {
                Some(b) => lemma_expect(t3, c, value, TypeRefV::Scalar(b.ty.element), Some(n)),
                None => {},
            }
        },
        _ => {},
    }
}

/// The findings of the first `i` nodes of a region are among those of the first `j`.
proof fn lemma_steps_grow(st: State, c: Ctx, k: Kernel, body: Seq<ScheduleNode>, i: int, j: int, ending: EndingV)
    requires
        0 <= i <= j <= body.len(),
    ensures
        crate::region::spec_steps(st, c, k, body.take(i), body.len() as int, ending).0.bag.len()
            <= crate::region::spec_steps(st, c, k, body.take(j), body.len() as int, ending).0.bag.len(),
    decreases j - i,
{
    if i < j {
        lemma_steps_grow(st, c, k, body, i, j - 1, ending);
        let pre = body.take(j);
        assert(pre.drop_last() =~= body.take(j - 1));
        assert(pre.last() == body[j - 1]);
        let (sa, ca) = crate::region::spec_steps(st, c, k, body.take(j - 1), body.len() as int, ending);
        lemma_step_visits(sa, ca, k, body[j - 1], j == body.len(), ending);
    }
}

/// The values defined after `defs` are those defined before and the defined ones.
proof fn lemma_defines_keys(st: State, c: Ctx, defs: Seq<ValueDef>, n: ScheduleNode, x: Seq<char>)
    ensures
        crate::lookup::has_key(spec_defines(st, c, defs, n).1.values, x) ==> crate::lookup::has_key(c.values, x)
            || crate::lookup::has_key(defs, x),
    decreases defs.len(),
{
    if defs.len() > 0 {
        let (s1, c1) = spec_defines(st, c, defs.drop_last(), n);
        lemma_defines_keys(st, c, defs.drop_last(), n, x);
        let d = defs.last();
        lemma_put_keys(c1.values, d.id, d.ty@, x);
        if crate::lookup::has_key(defs.drop_last(), x) {
            let j = choose|j: int| 0 <= j < defs.drop_last().len() && defs.drop_last()[j].key() == x;
            assert(defs[j].key() == x);
        }
        if x == d.id@ {
            assert(defs[defs.len() - 1].key() == x);
        }
    }
}

/// Along a body of nodes that the CUDA emitter writes, a value defined before node `p` was defined on entry or
/// is a result of an earlier node.
proof fn lemma_scope_keys(st: State, c: Ctx, k: Kernel, body: Seq<ScheduleNode>, p: int, ending: EndingV, x: Seq<char>)
    requires
        0 <= p <= body.len(),
        forall|q: int| 0 <= q < body.len() ==> crate::emit::emitted_node(#[trigger] body[q]),
    ensures
        crate::lookup::has_key(crate::region::spec_steps(st, c, k, body.take(p), body.len() as int, ending).1.values, x)
            ==> crate::lookup::has_key(c.values, x) || exists|q: int|
            0 <= q < p && crate::lookup::has_key((#[trigger] body[q]).kind.result_defs(), x),
    decreases p,
{
    if p == 0 {
        assert(body.take(0) =~= Seq::<ScheduleNode>::empty());
    } else {
        lemma_scope_keys(st, c, k, body, p - 1, ending, x);
        let pre = body.take(p);
        assert(pre.drop_last() =~= body.take(p - 1));
        assert(pre.last() == body[p - 1]);
        let n = body[p - 1];
        assert(crate::emit::emitted_node(n));
        assert(!crate::nodes::is_nested(n.kind));
        let (sa, ca) = crate::region::spec_steps(st, c, k, body.take(p - 1), body.len() as int, ending);
        let s1 = crate::nodes::spec_node_id(sa, n);
        let s2 = spec_operands(s1, ca, n, n.kind.operand_ids());
        let (s3, c3) = spec_flat(s2, ca, k, n, p == body.len(), ending);
        assert(c3.values == ca.values);
        lemma_defines_keys(s3, c3, n.kind.result_defs(), n, x);
        assert(crate::region::spec_steps(st, c, k, pre, body.len() as int, ending) == crate::region::spec_step(
            sa,
            ca,
            k,
            n,
            p == body.len(),
            ending,
        ));
        assert(crate::region::spec_step(sa, ca, k, n, p == body.len(), ending) == spec_defines(
            s3,
            c3,
            n.kind.result_defs(),
            n,
        ));
        if crate::lookup::has_key(n.kind.result_defs(), x) {
            assert(crate::lookup::has_key(body[p - 1].kind.result_defs(), x));
        }
    }
}

/// Node `p` of a kernel body, run after the nodes before it, adds no finding, and
/// neither do they.
spec fn quiet_at(st: State, c: Ctx, k: Kernel, body: Seq<ScheduleNode>, p: int) -> bool {
    let (sp, cp) = crate::region::spec_steps(st, c, k, body.take(p), body.len() as int, EndingV::Kernel);
    &&& crate::region::spec_step(sp, cp, k, body[p], p + 1 == body.len(), EndingV::Kernel).0.bag.len() == sp.bag.len()
    &&& sp.bag.len() == 0
}

/// In a module with one kernel, all of whose body nodes are ones the CUDA emitter
/// writes, and whose check finds
/// no error: each operand of a body node is a parameter or a result of an earlier node;
/// each load and store names a declared buffer; each constant fits its type.
pub proof fn lemma_valid_flat_body(m: crate::ast::Module)
    requires
        !crate::diagnostic::has_error(crate::verify::spec_validate(m)),
        m.kernels@.len() == 1,
        forall|q: int| 0 <= q < m.kernels@[0].body@.len() ==> crate::emit::emitted_node(#[trigger] m.kernels@[0].body@[q]),
    ensures
        forall|p: int, j: int|
            #![trigger m.kernels@[0].body@[p].kind.operand_ids()[j]]
            0 <= p < m.kernels@[0].body@.len() && 0 <= j < m.kernels@[0].body@[p].kind.operand_ids().len()
                ==> crate::lookup::has_key(m.kernels@[0].params@, m.kernels@[0].body@[p].kind.operand_ids()[j]@)
                || exists|q: int|
                0 <= q < p && crate::lookup::has_key(
                    (#[trigger] m.kernels@[0].body@[q]).kind.result_defs(),
                    m.kernels@[0].body@[p].kind.operand_ids()[j]@,
                ),
        forall|p: int|
            0 <= p < m.kernels@[0].body@.len() ==> match (#[trigger] m.kernels@[0].body@[p]).kind {
                crate::ast::ScheduleNodeKind::Load { source, .. } => crate::lookup::find_index(
                    m.kernels@[0].buffers@,
                    source.buffer_of()@,
                ) is Some,
                crate::ast::ScheduleNodeKind::Store { destination, .. } => crate::lookup::find_index(
                    m.kernels@[0].buffers@,
                    destination.buffer_of()@,
                ) is Some,
                crate::ast::ScheduleNodeKind::Constant { value, result } => crate::checker::literal_fits(
                    value,
                    result.ty@,
                ),
                _ => true,
            },
{
    reveal(crate::verify::spec_kernel);
    let header = crate::verify::spec_header(m);
    lemma_findings_are_errors(m);
    let k = m.kernels@[0];
    let body = k.body@;
    assert(m.kernels@.drop_last() =~= Seq::<Kernel>::empty());
    let (b0, n0, names0) = crate::verify::spec_kernels(header, m.kernels@.drop_last());
    let bag1 = if k.name@.len() == 0 || crate::lookup::has_key(names0, k.name@) {
        header.push(crate::diagnostic::plain_error(crate::diagnostic::DiagnosticCode::DuplicateSymbol, "kernel names must be nonempty and unique"@))
    } else {
        header
    };
    let st1 = crate::verify::kernel_start(bag1, n0);
    let c0 = crate::checker::empty_ctx();
    let (s1, c1) = crate::declarations::spec_declarations(st1, c0, k);
    lemma_declarations(st1, c0, k);
    let total = body.len() as int;
    let (sn, cn) = crate::region::spec_steps(s1, c1, k, body, total, EndingV::Kernel);
    lemma_steps_visits(s1, c1, k, body, total, EndingV::Kernel);
    let s2 = crate::region::spec_region_end(sn, body, EndingV::Kernel);
    assert(keeps(sn, s2));
    lemma_kernels_visits(header, m.kernels@);
    let fin = crate::verify::spec_validate(m);
    assert(fin == s2.bag);
    assert(fin.len() == 0);
    assert(body.take(total) =~= body);
    assert forall|p: int| 0 <= p < total implies #[trigger] quiet_at(s1, c1, k, body, p) by {
        lemma_steps_grow(s1, c1, k, body, p, p + 1, EndingV::Kernel);
        lemma_steps_grow(s1, c1, k, body, p + 1, total, EndingV::Kernel);
        let pre = body.take(p + 1);
        assert(pre.drop_last() =~= body.take(p));
        assert(pre.last() == body[p]);
    }
    assert forall|p: int, j: int|
        #![trigger body[p].kind.operand_ids()[j]]
        0 <= p < total && 0 <= j < body[p].kind.operand_ids().len() implies crate::lookup::has_key(
        k.params@,
        body[p].kind.operand_ids()[j]@,
    ) || exists|q: int| 0 <= q < p && crate::lookup::has_key((#[trigger] body[q]).kind.result_defs(), body[p].kind.operand_ids()[j]@) by {
        let (sp, cp) = crate::region::spec_steps(s1, c1, k, body.take(p), total, EndingV::Kernel);
        assert(quiet_at(s1, c1, k, body, p));
        lemma_quiet_step(sp, cp, k, body[p], p + 1 == total, EndingV::Kernel);
        let x = body[p].kind.operand_ids()[j]@;
        lemma_scope_keys(s1, c1, k, body, p, EndingV::Kernel, x);
        lemma_params_keys(st1, c0, k.params@, x);
    }
    assert forall|p: int| 0 <= p < total implies match (#[trigger] body[p]).kind {
        crate::ast::ScheduleNodeKind::Load { source, .. } => crate::lookup::find_index(k.buffers@, source.buffer_of()@) is Some,
        crate::ast::ScheduleNodeKind::Store { destination, .. } => crate::lookup::find_index(
            k.buffers@,
            destination.buffer_of()@,
        ) is Some,
        crate::ast::ScheduleNodeKind::Constant { value, result } => crate::checker::literal_fits(value, result.ty@),
        _ => true,
    } by {
        let (sp, cp) = crate::region::spec_steps(s1, c1, k, body.take(p), total, EndingV::Kernel);
        assert(quiet_at(s1, c1, k, body, p));
        lemma_quiet_step(sp, cp, k, body[p], p + 1 == total, EndingV::Kernel);
    }
}


/// The values that the nodes of `body` define for the nodes after them.
pub open spec fn region_defs(body: Seq<ScheduleNode>) -> Set<Seq<char>> {
    Set::new(
        |x: Seq<char>|
            exists|q: int| 0 <= q < body.len() && crate::lookup::has_key((#[trigger] body[q]).kind.result_defs(), x),
    )
}

/// The values that a node defines at the head of the regions it opens: a loop's
/// induction value and carried arguments, a pipeline loop's iteration.
pub open spec fn head_defs(n: ScheduleNode) -> Set<Seq<char>> {
    match n.kind {
        crate::ast::ScheduleNodeKind::For { induction, carried, .. } => Set::new(
            |x: Seq<char>|
                x == induction.id@ || exists|i: int| 0 <= i < carried@.len() && (#[trigger] carried@[i]).argument.id@ == x,
        ),
        crate::ast::ScheduleNodeKind::PipelineFor { iteration, .. } => set![iteration.id@],
        _ => Set::empty(),
    }
}

/// Every value used in `body` is defined before its use: it is in `scope`, or a result of
/// an earlier node of the same region, or, inside a nested region, defined by the head
/// of the node that opens it or before that node.
pub open spec fn defined_before_use(scope: Set<Seq<char>>, body: Seq<ScheduleNode>) -> bool
    decreases body, 2nat,
{
    body.len() == 0 || (defined_before_use(scope, body.drop_last()) && uses_defined(
        scope.union(region_defs(body.drop_last())),
        body.last(),
    ))
}

/// The operands of `n` are in `scope`, and so is every value used in the regions it opens,
/// with the head's definitions added.
pub open spec fn uses_defined(scope: Set<Seq<char>>, n: ScheduleNode) -> bool
    decreases n, 1nat,
{
    &&& forall|j: int| 0 <= j < n.kind.operand_ids().len() ==> scope.contains((#[trigger] n.kind.operand_ids()[j])@)
    &&& match n.kind {
        crate::ast::ScheduleNodeKind::If { then_body, else_body, .. } => defined_before_use(scope, then_body@)
            && defined_before_use(scope, else_body@),
        crate::ast::ScheduleNodeKind::For { body, .. } => defined_before_use(scope.union(head_defs(n)), body@),
        crate::ast::ScheduleNodeKind::PipelineFor { body, .. } => defined_before_use(scope.union(head_defs(n)), body@),
        crate::ast::ScheduleNodeKind::ConcurrentRoles { roles, .. } => roles_defined(scope, roles@),
        _ => true,
    }
}

pub open spec fn roles_defined(scope: Set<Seq<char>>, roles: Seq<crate::ast::RoleRegion>) -> bool
    decreases roles, 2nat,
{
    roles.len() == 0 || (roles_defined(scope, roles.drop_last()) && defined_before_use(scope, roles.last().body@))
}

/// Every value defined in the context is in `scope`.
pub open spec fn within(c: Ctx, scope: Set<Seq<char>>) -> bool {
    forall|x: Seq<char>| #[trigger] crate::lookup::has_key(c.values, x) ==> scope.contains(x)
}

proof fn lemma_flat_values(st: State, c: Ctx, k: Kernel, n: ScheduleNode, last: bool, ending: EndingV)
    requires
        !crate::nodes::is_nested(n.kind),
    ensures
        spec_flat(st, c, k, n, last, ending).1.values == c.values,
{
    match n.kind {
        crate::ast::ScheduleNodeKind::Binary { .. } => { assert(spec_flat(st, c, k, n, last, ending).1.values == c.values); },
        crate::ast::ScheduleNodeKind::Constant { .. } => { assert(spec_flat(st, c, k, n, last, ending).1.values == c.values); },
        crate::ast::ScheduleNodeKind::LaunchIndex { .. } => { assert(spec_flat(st, c, k, n, last, ending).1.values == c.values); },
        crate::ast::ScheduleNodeKind::PipelineAcquire { .. } => { assert(spec_flat(st, c, k, n, last, ending).1.values == c.values); },
        crate::ast::ScheduleNodeKind::PipelineConsume { .. } => { assert(spec_flat(st, c, k, n, last, ending).1.values == c.values); },
        crate::ast::ScheduleNodeKind::PipelinePublish { ticket, events } => {
            lemma_publish_events_values(st, c, Some(n), ticket, events@, events@.len() as int);
        },
        crate::ast::ScheduleNodeKind::PipelineRelease { .. } => { assert(spec_flat(st, c, k, n, last, ending).1.values == c.values); },
        crate::ast::ScheduleNodeKind::PipelineDrain { .. } => { assert(spec_flat(st, c, k, n, last, ending).1.values == c.values); },
        crate::ast::ScheduleNodeKind::AsyncCopy { .. } => { assert(spec_flat(st, c, k, n, last, ending).1.values == c.values); },
        crate::ast::ScheduleNodeKind::AccumulatorInit { .. } => { assert(spec_flat(st, c, k, n, last, ending).1.values == c.values); },
        crate::ast::ScheduleNodeKind::Sqmma { .. } => { assert(spec_flat(st, c, k, n, last, ending).1.values == c.values); },
        crate::ast::ScheduleNodeKind::AwaitEvent { .. } => { assert(spec_flat(st, c, k, n, last, ending).1.values == c.values); },
        _ => {},
    }
}

proof fn lemma_publish_events_values(
    st: State,
    c: Ctx,
    node: Option<ScheduleNode>,
    ticket: TicketId,
    events: Seq<EventId>,
    n: int,
)
    ensures
        forall|s: State| #[trigger] spec_publish_events(s, c, node, ticket, events, n).1.values == c.values,
    decreases n,
{
    if 0 < n <= events.len() {
        lemma_publish_events_values(st, c, node, ticket, events, n - 1);
        assert forall|s: State| #[trigger] spec_publish_events(s, c, node, ticket, events, n).1.values == c.values by {
            let (s0, c0, w0) = spec_publish_events(s, c, node, ticket, events, n - 1);
            assert(c0.values == c.values);
        }
    }
}

proof fn lemma_carried_keys(st: State, c: Ctx, child: Ctx, n: ScheduleNode, items: Seq<crate::ast::CarriedValue>, x: Seq<char>)
    ensures
        crate::lookup::has_key(crate::region::spec_carried(st, c, child, n, items).1.values, x) ==> crate::lookup::has_key(
            child.values,
            x,
        ) || exists|i: int| 0 <= i < items.len() && (#[trigger] items[i]).argument.id@ == x,
    decreases items.len(),
{
    if items.len() > 0 {
        let (s0, ch0) = crate::region::spec_carried(st, c, child, n, items.drop_last());
        lemma_carried_keys(st, c, child, n, items.drop_last(), x);
        let item = items.last();
        lemma_put_keys(ch0.values, item.argument.id, item.argument.ty@, x);
        if exists|i: int| 0 <= i < items.drop_last().len() && (#[trigger] items.drop_last()[i]).argument.id@ == x {
            let i = choose|i: int| 0 <= i < items.drop_last().len() && (#[trigger] items.drop_last()[i]).argument.id@ == x;
            assert(items[i] == items.drop_last()[i]);
        }
        if x == item.argument.id@ {
            assert(items[items.len() - 1] == item);
        }
    }
}

proof fn lemma_region_scoped(st: State, c: Ctx, k: Kernel, body: Seq<ScheduleNode>, ending: EndingV, scope: Set<Seq<char>>)
    requires
        within(c, scope),
        crate::region::spec_region(st, c, k, body, ending).0.bag.len() == st.bag.len(),
    ensures
        defined_before_use(scope, body),
    decreases body, 3nat,
{
    let (s1, c1) = crate::region::spec_steps(st, c, k, body, body.len() as int, ending);
    lemma_steps_visits(st, c, k, body, body.len() as int, ending);
    let s2 = crate::region::spec_region_end(s1, body, ending);
    assert(keeps(s1, s2));
    lemma_steps_scoped(st, c, k, body, body.len() as int, ending, scope);
}

proof fn lemma_steps_scoped(
    st: State,
    c: Ctx,
    k: Kernel,
    prefix: Seq<ScheduleNode>,
    total: int,
    ending: EndingV,
    scope: Set<Seq<char>>,
)
    requires
        within(c, scope),
        crate::region::spec_steps(st, c, k, prefix, total, ending).0.bag.len() == st.bag.len(),
    ensures
        defined_before_use(scope, prefix),
        within(crate::region::spec_steps(st, c, k, prefix, total, ending).1, scope.union(region_defs(prefix))),
    decreases prefix, 2nat,
{
    if prefix.len() == 0 {
        assert(within(c, scope.union(region_defs(prefix))));
    } else {
        let pre = prefix.drop_last();
        let n = prefix.last();
        let (s1, c1) = crate::region::spec_steps(st, c, k, pre, total, ending);
        lemma_steps_visits(st, c, k, pre, total, ending);
        lemma_step_visits(s1, c1, k, n, prefix.len() == total, ending);
        lemma_steps_scoped(st, c, k, pre, total, ending, scope);
        let scope2 = scope.union(region_defs(pre));
        lemma_step_scoped(s1, c1, k, n, prefix.len() == total, ending, scope2);
        let c2 = crate::region::spec_step(s1, c1, k, n, prefix.len() == total, ending).1;
        assert forall|x: Seq<char>| #[trigger] crate::lookup::has_key(c2.values, x) implies scope.union(
            region_defs(prefix),
        ).contains(x) by {
            if region_defs(pre).contains(x) {
                let q = choose|q: int| 0 <= q < pre.len() && crate::lookup::has_key((#[trigger] pre[q]).kind.result_defs(), x);
                assert(prefix[q] == pre[q]);
            }
            if crate::lookup::has_key(n.kind.result_defs(), x) {
                assert(prefix[prefix.len() - 1] == n);
            }
        }
    }
}

proof fn lemma_step_scoped(st: State, c: Ctx, k: Kernel, n: ScheduleNode, last: bool, ending: EndingV, scope: Set<Seq<char>>)
    requires
        within(c, scope),
        crate::region::spec_step(st, c, k, n, last, ending).0.bag.len() == st.bag.len(),
    ensures
        uses_defined(scope, n),
        forall|x: Seq<char>|
            #[trigger] crate::lookup::has_key(crate::region::spec_step(st, c, k, n, last, ending).1.values, x)
                ==> scope.contains(x) || crate::lookup::has_key(n.kind.result_defs(), x),
    decreases n, 1nat,
{
    let s1 = crate::nodes::spec_node_id(st, n);
    lemma_node_id(st, n);
    let ids = n.kind.operand_ids();
    let s2 = spec_operands(s1, c, n, ids);
    lemma_operands(s1, c, n, ids);
    let (s3, c3) = if crate::nodes::is_nested(n.kind) {
        crate::region::spec_nested(s2, c, k, n)
    } else {
        spec_flat(s2, c, k, n, last, ending)
    };
    if crate::nodes::is_nested(n.kind) {
        lemma_nested_visits(s2, c, k, n);
    } else {
        lemma_flat(s2, c, k, n, last, ending);
        lemma_flat_values(s2, c, k, n, last, ending);
    }
    lemma_defines(s3, c3, n.kind.result_defs(), n);
    lemma_operands_quiet(s1, c, n, ids);
    if crate::nodes::is_nested(n.kind) {
        lemma_nested_scoped(s2, c, k, n, scope);
    }
    assert forall|j: int| 0 <= j < ids.len() implies scope.contains((#[trigger] ids[j])@) by {
        assert(crate::lookup::has_key(c.values, ids[j]@));
    }
    assert forall|x: Seq<char>|
        #[trigger] crate::lookup::has_key(crate::region::spec_step(st, c, k, n, last, ending).1.values, x) implies scope.contains(x)
        || crate::lookup::has_key(n.kind.result_defs(), x) by {
        lemma_defines_keys(s3, c3, n.kind.result_defs(), n, x);
    }
}

/// The body of a loop runs with the enclosing values and the loop's head definitions.
proof fn lemma_for_child(
    st: State,
    c: Ctx,
    n: ScheduleNode,
    lower: ValueId,
    upper: ValueId,
    step: ValueId,
    induction: ValueDef,
    carried: Seq<crate::ast::CarriedValue>,
    scope: Set<Seq<char>>,
)
    requires
        within(c, scope),
        n.kind == (crate::ast::ScheduleNodeKind::For { lower, upper, step, induction, carried: n.kind->For_carried, body: n.kind->For_body }),
        n.kind->For_carried@ == carried,
    ensures
        within(crate::region::spec_for_head(st, c, n, lower, upper, step, induction, carried).1, scope.union(head_defs(n))),
{
    let child = crate::region::spec_for_head(st, c, n, lower, upper, step, induction, carried).1;
    let child0 = Ctx { conditional: true, ..c };
    assert forall|x: Seq<char>| #[trigger] crate::lookup::has_key(child.values, x) implies scope.union(head_defs(n)).contains(x) by {
        let ch1 = Ctx { values: crate::lookup::put(c.values, induction.id, induction.ty@), ..child0 };
        let ch2 = if crate::lookup::has_key(c.uniform, lower@) && crate::lookup::has_key(c.uniform, upper@)
            && crate::lookup::has_key(c.uniform, step@) {
            Ctx { uniform: crate::lookup::with_key(ch1.uniform, induction.id), ..ch1 }
        } else {
            ch1
        };
        assert(ch2.values == crate::lookup::put(c.values, induction.id, induction.ty@));
        lemma_carried_any(c, ch2, n, carried, x);
        lemma_put_keys(c.values, induction.id, induction.ty@, x);
    }
}

/// The body of a pipeline loop runs with the enclosing values and its iteration.
proof fn lemma_pipeline_child(
    st: State,
    c: Ctx,
    k: Kernel,
    n: ScheduleNode,
    pipeline: PipelineId,
    iteration: ValueDef,
    scope: Set<Seq<char>>,
)
    requires
        within(c, scope),
        n.kind is PipelineFor,
        n.kind->PipelineFor_iteration == iteration,
    ensures
        crate::region::spec_pipeline_head(st, c, k, n, pipeline, iteration).2 matches Some(ch) ==> within(
            ch,
            scope.union(head_defs(n)),
        ),
{
    match crate::region::spec_pipeline_head(st, c, k, n, pipeline, iteration).2 {
        Some(ch) => {
            assert forall|x: Seq<char>| #[trigger] crate::lookup::has_key(ch.values, x) implies scope.union(
                head_defs(n),
            ).contains(x) by {
                lemma_put_keys(c.values, iteration.id, iteration.ty@, x);
            }
        },
        None => {},
    }
}

#[verifier::rlimit(100)]
#[verifier::spinoff_prover]
proof fn lemma_nested_scoped(st: State, c: Ctx, k: Kernel, n: ScheduleNode, scope: Set<Seq<char>>)
    requires
        crate::nodes::is_nested(n.kind),
        within(c, scope),
        crate::region::spec_nested(st, c, k, n).0.bag.len() == st.bag.len(),
    ensures
        match n.kind {
            crate::ast::ScheduleNodeKind::If { then_body, else_body, .. } => defined_before_use(scope, then_body@)
                && defined_before_use(scope, else_body@),
            crate::ast::ScheduleNodeKind::For { body, .. } => defined_before_use(scope.union(head_defs(n)), body@),
            crate::ast::ScheduleNodeKind::PipelineFor { body, .. } => defined_before_use(scope.union(head_defs(n)), body@),
            crate::ast::ScheduleNodeKind::ConcurrentRoles { roles, .. } => roles_defined(scope, roles@),
            _ => true,
        },
        crate::region::spec_nested(st, c, k, n).1.values == c.values,
    decreases n, 0nat,
{
    match n.kind {
        crate::ast::ScheduleNodeKind::If { condition, results, then_body, else_body } => {
            let s1 = spec_expect(st, c, condition, TypeRefV::Predicate, Some(n));
            lemma_expect(st, c, condition, TypeRefV::Predicate, Some(n));
            let inner = Ctx { conditional: true, ..c };
            let e = EndingV::Yield(crate::region::def_types(results@));
            let s2 = crate::region::spec_region(s1, inner, k, then_body@, e).0;
            lemma_region_visits(s1, inner, k, then_body@, e);
            lemma_region_visits(s2, inner, k, else_body@, e);
            assert(within(inner, scope));
            lemma_region_scoped(s1, inner, k, then_body@, e, scope);
            lemma_region_scoped(s2, inner, k, else_body@, e, scope);
        },
        crate::ast::ScheduleNodeKind::For { lower, upper, step, induction, carried, body } => {
            let (s1, child) = crate::region::spec_for_head(st, c, n, lower, upper, step, induction, carried@);
            lemma_for_head(st, c, n, lower, upper, step, induction, carried@);
            let e = EndingV::Yield(crate::region::carried_types(carried@));
            lemma_region_visits(s1, child, k, body@, e);
            let scope2 = scope.union(head_defs(n));
            lemma_for_child(st, c, n, lower, upper, step, induction, carried@, scope);
            lemma_region_scoped(s1, child, k, body@, e, scope2);
        },
        crate::ast::ScheduleNodeKind::PipelineFor { pipeline, iteration, body } => {
            let (s1, parent, child) = crate::region::spec_pipeline_head(st, c, k, n, pipeline, iteration);
            lemma_pipeline_head(st, c, k, n, pipeline, iteration);
            let ch = child->Some_0;
            let (s2, done) = crate::region::spec_region(s1, ch, k, body@, EndingV::Pipeline);
            lemma_region_visits(s1, ch, k, body@, EndingV::Pipeline);
            let s3 = crate::region::spec_pipeline_tail(s2, done, n, pipeline);
            assert(keeps(s2, s3));
            let scope2 = scope.union(head_defs(n));
            lemma_pipeline_child(st, c, k, n, pipeline, iteration, scope);
            lemma_region_scoped(s1, ch, k, body@, EndingV::Pipeline, scope2);
        },
        crate::ast::ScheduleNodeKind::ConcurrentRoles { roles, join_scope } => {
            let s1 = crate::region::spec_concurrent_head(st, c, n, roles@.len(), join_scope);
            assert(keeps(st, s1));
            let acc = crate::region::spec_roles(s1, c, k, n, roles@);
            lemma_roles_visits(s1, c, k, n, roles@);
            let s2 = crate::region::spec_uses(acc.state, k, n, acc.pairs, acc.order, acc.order.len() as int);
            lemma_uses(acc.state, k, n, acc.pairs, acc.order, acc.order.len() as int);
            lemma_roles_scoped(s1, c, k, n, roles@, scope);
        },
        _ => {},
    }
}

/// Carrying values into a loop body from any state defines only the carried arguments.
proof fn lemma_carried_any(c: Ctx, child: Ctx, n: ScheduleNode, items: Seq<crate::ast::CarriedValue>, x: Seq<char>)
    ensures
        forall|st: State|
            #[trigger] crate::lookup::has_key(crate::region::spec_carried(st, c, child, n, items).1.values, x)
                ==> crate::lookup::has_key(child.values, x) || exists|i: int|
                0 <= i < items.len() && (#[trigger] items[i]).argument.id@ == x,
{
    assert forall|st: State|
        #[trigger] crate::lookup::has_key(crate::region::spec_carried(st, c, child, n, items).1.values, x) implies crate::lookup::has_key(
        child.values,
        x,
    ) || exists|i: int| 0 <= i < items.len() && (#[trigger] items[i]).argument.id@ == x by {
        lemma_carried_keys(st, c, child, n, items, x);
    }
}

proof fn lemma_roles_scoped(st: State, c: Ctx, k: Kernel, n: ScheduleNode, roles: Seq<crate::ast::RoleRegion>, scope: Set<Seq<char>>)
    requires
        within(c, scope),
        crate::region::spec_roles(st, c, k, n, roles).state.bag.len() == st.bag.len(),
    ensures
        roles_defined(scope, roles),
    decreases roles, 1nat,
{
    if roles.len() > 0 {
        let acc = crate::region::spec_roles(st, c, k, n, roles.drop_last());
        lemma_roles_visits(st, c, k, n, roles.drop_last());
        let r = roles.last();
        let (s1, participants, warps) = crate::region::spec_participant(acc.state, k, n, r.role, acc.participants, acc.warps);
        lemma_participant(acc.state, k, n, r.role, acc.participants, acc.warps);
        let child = Ctx { role: Some(r.role), loops: seq![], drained: seq![], ..c };
        let (s2, done) = crate::region::spec_region(s1, child, k, r.body@, EndingV::Role);
        lemma_region_visits(s1, child, k, r.body@, EndingV::Role);
        let s3 = crate::region::spec_role_exit(s2, done, n);
        assert(keeps(s2, s3));
        lemma_roles_scoped(st, c, k, n, roles.drop_last(), scope);
        assert(within(child, scope));
        lemma_region_scoped(s1, child, k, r.body@, EndingV::Role, scope);
    }
}

/// When checking `ks` after `bag` adds no finding, each kernel's values are defined
/// before their use.
#[verifier::rlimit(60)]
proof fn lemma_quiet_kernel(bag: Seq<DiagnosticV>, ks: Seq<Kernel>, i: int)
    requires
        0 <= i < ks.len(),
        crate::verify::spec_kernels(bag, ks).0.len() == bag.len(),
    ensures
        defined_before_use(Set::new(|x: Seq<char>| crate::lookup::has_key(ks[i].params@, x)), ks[i].body@),
    decreases ks.len(),
{
    reveal(crate::verify::spec_kernel);
    let (b0, n0, names0) = crate::verify::spec_kernels(bag, ks.drop_last());
    lemma_kernels_visits(bag, ks.drop_last());
    lemma_kernel_visits(b0, n0, names0, ks.last());
    if i < ks.len() - 1 {
        assert(ks[i] == ks.drop_last()[i]);
        lemma_quiet_kernel(bag, ks.drop_last(), i);
    } else {
        let k = ks.last();
        let bag1 = if k.name@.len() == 0 || crate::lookup::has_key(names0, k.name@) {
            b0.push(crate::diagnostic::plain_error(crate::diagnostic::DiagnosticCode::DuplicateSymbol, "kernel names must be nonempty and unique"@))
        } else {
            b0
        };
        let st1 = crate::verify::kernel_start(bag1, n0);
        let c0 = crate::checker::empty_ctx();
        let (s1, c1) = crate::declarations::spec_declarations(st1, c0, k);
        lemma_declarations(st1, c0, k);
        lemma_region_visits(s1, c1, k, k.body@, EndingV::Kernel);
        let scope = Set::new(|x: Seq<char>| crate::lookup::has_key(k.params@, x));
        assert forall|x: Seq<char>| #[trigger] crate::lookup::has_key(c1.values, x) implies scope.contains(x) by {
            lemma_params_keys(st1, c0, k.params@, x);
        }
        lemma_region_scoped(s1, c1, k, k.body@, EndingV::Kernel, scope);
    }
}

/// In a module whose check finds no error, every value used anywhere in a kernel body
/// is defined before its use: it is a parameter of the kernel, a result of an earlier node
/// of the same region or of an enclosing one, or defined by the head of an enclosing
/// loop (induction value, carried argument, pipeline iteration).
pub proof fn lemma_defined_before_use(m: crate::ast::Module, i: int)
    requires
        !crate::diagnostic::has_error(crate::verify::spec_validate(m)),
        0 <= i < m.kernels@.len(),
    ensures
        defined_before_use(
            Set::new(|x: Seq<char>| crate::lookup::has_key(m.kernels@[i].params@, x)),
            m.kernels@[i].body@,
        ),
{
    let header = crate::verify::spec_header(m);
    lemma_findings_are_errors(m);
    lemma_kernels_visits(header, m.kernels@);
    assert(crate::verify::spec_validate(m) == crate::verify::spec_kernels(header, m.kernels@).0);
    lemma_quiet_kernel(header, m.kernels@, i);
}

/// The warps that role `id` declares in kernel `k`; none for an undeclared role.
pub open spec fn role_warps(k: Kernel, id: Seq<char>) -> Seq<u32> {
    match crate::lookup::find_index(k.roles@, id) {
        Some(i) => k.roles@[i].warps@,
        None => seq![],
    }
}

/// The warps that the role regions of a concurrent group claim, role by role.
pub open spec fn claimed_warps(k: Kernel, roles: Seq<crate::ast::RoleRegion>) -> Seq<u32>
    decreases roles.len(),
{
    if roles.len() == 0 {
        seq![]
    } else {
        claimed_warps(k, roles.drop_last()) + role_warps(k, roles.last().role@)
    }
}

/// The role regions of a concurrent group name distinct declared roles, and no warp is
/// claimed twice: the roles' warps are pairwise disjoint, and each role lists a warp once.
pub open spec fn sound_group(k: Kernel, roles: Seq<crate::ast::RoleRegion>) -> bool {
    &&& forall|a: int, b: int| 0 <= a < b < roles.len() ==> (#[trigger] roles[a]).role@ != (#[trigger] roles[b]).role@
    &&& forall|a: int| 0 <= a < roles.len() ==> crate::lookup::has_key(k.roles@, (#[trigger] roles[a]).role@)
    &&& claimed_warps(k, roles).no_duplicates()
    &&& forall|a: int, b: int, w: u32|
        #![trigger role_warps(k, roles[a].role@).contains(w), role_warps(k, roles[b].role@).contains(w)]
        0 <= a < b < roles.len() && role_warps(k, roles[a].role@).contains(w) ==> !role_warps(
            k,
            roles[b].role@,
        ).contains(w)
}

/// Claiming warps without a finding appends them to those seen, none of them seen before
/// nor repeated.
proof fn lemma_warp_claims_quiet(st: State, n: ScheduleNode, ws: Seq<u32>, seen: Seq<u32>)
    requires
        crate::region::spec_warp_claims(st, n, ws, seen).0.bag.len() == st.bag.len(),
        seen.no_duplicates(),
    ensures
        crate::region::spec_warp_claims(st, n, ws, seen).1 == seen + ws,
        (seen + ws).no_duplicates(),
    decreases ws.len(),
{
    if ws.len() > 0 {
        let (s0, seen0) = crate::region::spec_warp_claims(st, n, ws.drop_last(), seen);
        lemma_warp_claims(st, n, ws.drop_last(), seen);
        lemma_warp_claims_quiet(st, n, ws.drop_last(), seen);
        assert(seen + ws =~= (seen + ws.drop_last()).push(ws.last()));
    }
}

/// Each warp of a role of the group is among the warps the group claims.
proof fn lemma_claimed_has(k: Kernel, roles: Seq<crate::ast::RoleRegion>, a: int, w: u32)
    requires
        0 <= a < roles.len(),
        role_warps(k, roles[a].role@).contains(w),
    ensures
        claimed_warps(k, roles).contains(w),
    decreases roles.len(),
{
    let pre = claimed_warps(k, roles.drop_last());
    let last = role_warps(k, roles.last().role@);
    if a < roles.len() - 1 {
        assert(roles.drop_last()[a] == roles[a]);
        lemma_claimed_has(k, roles.drop_last(), a, w);
        let j = choose|j: int| 0 <= j < pre.len() && pre[j] == w;
        assert((pre + last)[j] == w);
    } else {
        let j = choose|j: int| 0 <= j < last.len() && last[j] == w;
        assert((pre + last)[pre.len() + j] == w);
    }
}

/// The role regions of a concurrent group that the check passes without a finding form
/// a sound group; the group's participants are its roles and its warps those claimed.
#[verifier::spinoff_prover]
#[verifier::rlimit(50)]
proof fn lemma_roles_sound(st: State, c: Ctx, k: Kernel, n: ScheduleNode, roles: Seq<crate::ast::RoleRegion>)
    requires
        crate::region::spec_roles(st, c, k, n, roles).state.bag.len() == st.bag.len(),
    ensures
        sound_group(k, roles),
        crate::region::spec_roles(st, c, k, n, roles).warps == claimed_warps(k, roles),
        crate::region::spec_roles(st, c, k, n, roles).participants.len() == roles.len(),
        forall|a: int|
            0 <= a < roles.len() ==> (#[trigger] crate::region::spec_roles(st, c, k, n, roles).participants[a])@
                == roles[a].role@,
    decreases roles.len(),
{
    if roles.len() > 0 {
        let pre = roles.drop_last();
        let acc = crate::region::spec_roles(st, c, k, n, pre);
        lemma_roles_visits(st, c, k, n, pre);
        let r = roles.last();
        let (s1, participants, warps) = crate::region::spec_participant(acc.state, k, n, r.role, acc.participants, acc.warps);
        lemma_participant(acc.state, k, n, r.role, acc.participants, acc.warps);
        let child = Ctx { role: Some(r.role), loops: seq![], drained: seq![], ..c };
        let (s2, done) = crate::region::spec_region(s1, child, k, r.body@, EndingV::Role);
        lemma_region_visits(s1, child, k, r.body@, EndingV::Role);
        let s3 = crate::region::spec_role_exit(s2, done, n);
        assert(keeps(s2, s3));
        lemma_roles_sound(st, c, k, n, pre);
        let s0 = if crate::lookup::has_key(acc.participants, r.role@) {
            with_error(acc.state, Some(n), crate::diagnostic::DiagnosticCode::InvalidParticipation, "role appears twice in ConcurrentRoles"@)
        } else {
            acc.state
        };
        match crate::lookup::find_index(k.roles@, r.role@) {
            Some(i) => lemma_warp_claims(s0, n, k.roles@[i].warps@, acc.warps),
            None => {},
        }
        assert(s0.bag.len() == acc.state.bag.len());
        assert(!crate::lookup::has_key(acc.participants, r.role@));
        assert(crate::lookup::find_index(k.roles@, r.role@) is Some);
        let i = crate::lookup::find_index(k.roles@, r.role@)->Some_0;
        assert(crate::lookup::is_first(k.roles@, r.role@, i));
        let ws = k.roles@[i].warps@;
        lemma_warp_claims_quiet(s0, n, ws, acc.warps);
        assert(role_warps(k, r.role@) == ws);
        let ps = acc.participants.push(r.role);
        assert forall|a: int, b: int| 0 <= a < b < roles.len() implies (#[trigger] roles[a]).role@ != (
        #[trigger] roles[b]).role@ by {
            if b < roles.len() - 1 {
                assert(roles[a] == pre[a] && roles[b] == pre[b]);
            } else {
                assert(roles[a] == pre[a]);
                assert(acc.participants[a].key() == roles[a].role@);
            }
        }
        assert forall|a: int| 0 <= a < roles.len() implies crate::lookup::has_key(k.roles@, (#[trigger] roles[a]).role@) by {
            if a < roles.len() - 1 {
                assert(roles[a] == pre[a]);
            } else {
                assert(k.roles@[i].key() == r.role@);
            }
        }
        assert forall|a: int, b: int, w: u32|
            0 <= a < b < roles.len() && role_warps(k, roles[a].role@).contains(w) implies !role_warps(
            k,
            roles[b].role@,
        ).contains(w) by {
            assert(roles[a] == pre[a]);
            if b < roles.len() - 1 {
                assert(roles[b] == pre[b]);
            } else {
                lemma_claimed_has(k, pre, a, w);
                let j = choose|j: int| 0 <= j < acc.warps.len() && acc.warps[j] == w;
                if ws.contains(w) {
                    let q = choose|q: int| 0 <= q < ws.len() && ws[q] == w;
                    assert((acc.warps + ws)[j] == (acc.warps + ws)[acc.warps.len() + q]);
                }
            }
        }
        assert forall|a: int| 0 <= a < roles.len() implies (#[trigger] ps[a])@ == roles[a].role@ by {
            if a < roles.len() - 1 {
                assert(roles[a] == pre[a]);
            }
        }
    }
}

/// Where a context stands: the role region, the pipeline loop, and whether it is
/// entered under a condition or a loop.
pub open spec fn place(c: Ctx) -> (Option<crate::types::RoleId>, Option<(PipelineId, ValueId)>, bool) {
    (c.role, c.pipeline, c.conditional)
}

/// A context outside any condition, loop, role region and pipeline loop.
pub open spec fn at_top(c: Ctx) -> bool {
    c.role is None && c.pipeline is None && !c.conditional
}

/// The protocol of `body`, at any depth: every concurrent group stands where a group may
/// stand (only directly in a region with `top`), joins at block scope, has a role region,
/// is a sound group, and each of its role regions drains exactly the pipelines it loops
/// over; every pipeline loop opens exactly one ticket per iteration and closes it.
pub open spec fn protocol_sound(k: Kernel, body: Seq<ScheduleNode>, top: bool) -> bool
    decreases body, 2nat,
{
    body.len() == 0 || (protocol_sound(k, body.drop_last(), top) && node_protocol_sound(k, body.last(), top))
}

pub open spec fn node_protocol_sound(k: Kernel, n: ScheduleNode, top: bool) -> bool
    decreases n, 1nat,
{
    match n.kind {
        crate::ast::ScheduleNodeKind::If { then_body, else_body, .. } => protocol_sound(k, then_body@, false)
            && protocol_sound(k, else_body@, false),
        crate::ast::ScheduleNodeKind::For { body, .. } => protocol_sound(k, body@, false),
        crate::ast::ScheduleNodeKind::PipelineFor { pipeline, body, .. } => protocol_sound(k, body@, false) && one_ticket(
            body@,
            pipeline@,
        ),
        crate::ast::ScheduleNodeKind::ConcurrentRoles { roles, join_scope } => top && join_scope == crate::types::Scope::Block
            && roles@.len() > 0 && sound_group(k, roles@) && roles_protocol_sound(k, roles@),
        _ => true,
    }
}

pub open spec fn roles_protocol_sound(k: Kernel, roles: Seq<crate::ast::RoleRegion>) -> bool
    decreases roles, 2nat,
{
    roles.len() == 0 || (roles_protocol_sound(k, roles.drop_last()) && protocol_sound(k, roles.last().body@, false)
        && drains_every_loop(roles.last().body@))
}

proof fn lemma_publish_events_place(
    st: State,
    c: Ctx,
    node: Option<ScheduleNode>,
    ticket: TicketId,
    events: Seq<EventId>,
    n: int,
)
    ensures
        forall|s: State| place((#[trigger] spec_publish_events(s, c, node, ticket, events, n)).1) == place(c),
    decreases n,
{
    if 0 < n <= events.len() {
        lemma_publish_events_place(st, c, node, ticket, events, n - 1);
        assert forall|s: State| place((#[trigger] spec_publish_events(s, c, node, ticket, events, n)).1) == place(c) by {
            let (s0, c0, w0) = spec_publish_events(s, c, node, ticket, events, n - 1);
            assert(place(c0) == place(c));
        }
    }
}

proof fn lemma_flat_place(st: State, c: Ctx, k: Kernel, n: ScheduleNode, last: bool, ending: EndingV)
    requires
        !crate::nodes::is_nested(n.kind),
    ensures
        place(spec_flat(st, c, k, n, last, ending).1) == place(c),
{
    match n.kind {
        crate::ast::ScheduleNodeKind::PipelinePublish { ticket, events } => {
            lemma_publish_events_place(st, c, Some(n), ticket, events@, events@.len() as int);
        },
        _ => {},
    }
}

proof fn lemma_defines_place(st: State, c: Ctx, defs: Seq<ValueDef>, n: ScheduleNode)
    ensures
        place(spec_defines(st, c, defs, n).1) == place(c),
    decreases defs.len(),
{
    if defs.len() > 0 {
        lemma_defines_place(st, c, defs.drop_last(), n);
    }
}

proof fn lemma_region_protocol(st: State, c: Ctx, k: Kernel, body: Seq<ScheduleNode>, ending: EndingV, top: bool)
    requires
        at_top(c) ==> top,
        crate::region::spec_region(st, c, k, body, ending).0.bag.len() == st.bag.len(),
    ensures
        protocol_sound(k, body, top),
    decreases body, 3nat,
{
    let (s1, c1) = crate::region::spec_steps(st, c, k, body, body.len() as int, ending);
    lemma_steps_visits(st, c, k, body, body.len() as int, ending);
    let s2 = crate::region::spec_region_end(s1, body, ending);
    assert(keeps(s1, s2));
    lemma_steps_protocol(st, c, k, body, body.len() as int, ending, top);
}

proof fn lemma_steps_protocol(st: State, c: Ctx, k: Kernel, prefix: Seq<ScheduleNode>, total: int, ending: EndingV, top: bool)
    requires
        at_top(c) ==> top,
        crate::region::spec_steps(st, c, k, prefix, total, ending).0.bag.len() == st.bag.len(),
    ensures
        protocol_sound(k, prefix, top),
        place(crate::region::spec_steps(st, c, k, prefix, total, ending).1) == place(c),
    decreases prefix, 2nat,
{
    if prefix.len() > 0 {
        let pre = prefix.drop_last();
        let n = prefix.last();
        let (s1, c1) = crate::region::spec_steps(st, c, k, pre, total, ending);
        lemma_steps_visits(st, c, k, pre, total, ending);
        lemma_step_visits(s1, c1, k, n, prefix.len() == total, ending);
        lemma_steps_protocol(st, c, k, pre, total, ending, top);
        lemma_step_protocol(s1, c1, k, n, prefix.len() == total, ending, top);
    }
}

proof fn lemma_step_protocol(st: State, c: Ctx, k: Kernel, n: ScheduleNode, last: bool, ending: EndingV, top: bool)
    requires
        at_top(c) ==> top,
        crate::region::spec_step(st, c, k, n, last, ending).0.bag.len() == st.bag.len(),
    ensures
        node_protocol_sound(k, n, top),
        place(crate::region::spec_step(st, c, k, n, last, ending).1) == place(c),
    decreases n, 1nat,
{
    let s1 = crate::nodes::spec_node_id(st, n);
    lemma_node_id(st, n);
    let ids = n.kind.operand_ids();
    let s2 = spec_operands(s1, c, n, ids);
    lemma_operands(s1, c, n, ids);
    let (s3, c3) = if crate::nodes::is_nested(n.kind) {
        crate::region::spec_nested(s2, c, k, n)
    } else {
        spec_flat(s2, c, k, n, last, ending)
    };
    if crate::nodes::is_nested(n.kind) {
        lemma_nested_visits(s2, c, k, n);
    } else {
        lemma_flat(s2, c, k, n, last, ending);
        lemma_flat_place(s2, c, k, n, last, ending);
    }
    lemma_defines(s3, c3, n.kind.result_defs(), n);
    lemma_defines_place(s3, c3, n.kind.result_defs(), n);
    if crate::nodes::is_nested(n.kind) {
        lemma_nested_protocol(s2, c, k, n, top);
    }
}

#[verifier::spinoff_prover]
#[verifier::rlimit(80)]
proof fn lemma_nested_protocol(st: State, c: Ctx, k: Kernel, n: ScheduleNode, top: bool)
    requires
        crate::nodes::is_nested(n.kind),
        at_top(c) ==> top,
        crate::region::spec_nested(st, c, k, n).0.bag.len() == st.bag.len(),
    ensures
        node_protocol_sound(k, n, top),
        place(crate::region::spec_nested(st, c, k, n).1) == place(c),
    decreases n, 0nat,
{
    match n.kind {
        crate::ast::ScheduleNodeKind::If { condition, results, then_body, else_body } => {
            let s1 = spec_expect(st, c, condition, TypeRefV::Predicate, Some(n));
            lemma_expect(st, c, condition, TypeRefV::Predicate, Some(n));
            let inner = Ctx { conditional: true, ..c };
            let e = EndingV::Yield(crate::region::def_types(results@));
            let s2 = crate::region::spec_region(s1, inner, k, then_body@, e).0;
            lemma_region_visits(s1, inner, k, then_body@, e);
            lemma_region_visits(s2, inner, k, else_body@, e);
            lemma_region_protocol(s1, inner, k, then_body@, e, false);
            lemma_region_protocol(s2, inner, k, else_body@, e, false);
        },
        crate::ast::ScheduleNodeKind::For { lower, upper, step, induction, carried, body } => {
            let (s1, child) = crate::region::spec_for_head(st, c, n, lower, upper, step, induction, carried@);
            lemma_for_head(st, c, n, lower, upper, step, induction, carried@);
            let e = EndingV::Yield(crate::region::carried_types(carried@));
            lemma_region_visits(s1, child, k, body@, e);
            lemma_for_place(st, c, n, lower, upper, step, induction, carried@);
            lemma_region_protocol(s1, child, k, body@, e, false);
        },
        crate::ast::ScheduleNodeKind::PipelineFor { pipeline, iteration, body } => {
            lemma_pipeline_protocol_at(st, c, k, n, pipeline, iteration, body@);
        },
        crate::ast::ScheduleNodeKind::ConcurrentRoles { roles, join_scope } => {
            lemma_concurrent_protocol_at(st, c, k, n, roles@, join_scope, top);
        },
        _ => {},
    }
}

/// A pipeline loop that the check passes without a finding opens exactly one ticket per
/// iteration, and keeps the protocol in its body.
proof fn lemma_pipeline_protocol_at(
    st: State,
    c: Ctx,
    k: Kernel,
    n: ScheduleNode,
    pipeline: PipelineId,
    iteration: ValueDef,
    body: Seq<ScheduleNode>,
)
    requires
        ({
            let (s1, parent, child) = crate::region::spec_pipeline_head(st, c, k, n, pipeline, iteration);
            match child {
                None => s1.bag.len() == st.bag.len(),
                Some(ch) => {
                    let (s2, done) = crate::region::spec_region(s1, ch, k, body, EndingV::Pipeline);
                    crate::region::spec_pipeline_tail(s2, done, n, pipeline).bag.len() == st.bag.len()
                },
            }
        }),
    ensures
        protocol_sound(k, body, false),
        one_ticket(body, pipeline@),
    decreases body, 4nat,
{
    let (s1, parent, child) = crate::region::spec_pipeline_head(st, c, k, n, pipeline, iteration);
    lemma_pipeline_head(st, c, k, n, pipeline, iteration);
    let ch = child->Some_0;
    let (s2, done) = crate::region::spec_region(s1, ch, k, body, EndingV::Pipeline);
    lemma_region_visits(s1, ch, k, body, EndingV::Pipeline);
    let s3 = crate::region::spec_pipeline_tail(s2, done, n, pipeline);
    assert(keeps(s2, s3));
    lemma_region_protocol(s1, ch, k, body, EndingV::Pipeline, false);
    lemma_pipeline_ticket(s1, ch, k, body, n, pipeline);
}

/// No node moves its region into or out of a role region, a pipeline loop or a condition.
proof fn lemma_step_place(st: State, c: Ctx, k: Kernel, n: ScheduleNode, last: bool, ending: EndingV)
    ensures
        place(crate::region::spec_step(st, c, k, n, last, ending).1) == place(c),
{
    let s1 = crate::nodes::spec_node_id(st, n);
    let s2 = spec_operands(s1, c, n, n.kind.operand_ids());
    let (s3, c3) = if crate::nodes::is_nested(n.kind) {
        crate::region::spec_nested(s2, c, k, n)
    } else {
        spec_flat(s2, c, k, n, last, ending)
    };
    if !crate::nodes::is_nested(n.kind) {
        lemma_flat_place(s2, c, k, n, last, ending);
    }
    lemma_defines_place(s3, c3, n.kind.result_defs(), n);
}

/// A concurrent group that the check passes without a finding stands at top level and
/// is sound, and its role regions keep the protocol.
proof fn lemma_concurrent_protocol_at(
    st: State,
    c: Ctx,
    k: Kernel,
    n: ScheduleNode,
    roles: Seq<crate::ast::RoleRegion>,
    join_scope: crate::types::Scope,
    top: bool,
)
    requires
        at_top(c) ==> top,
        ({
            let acc = crate::region::spec_roles(
                crate::region::spec_concurrent_head(st, c, n, roles.len(), join_scope),
                c,
                k,
                n,
                roles,
            );
            crate::region::spec_uses(acc.state, k, n, acc.pairs, acc.order, acc.order.len() as int).bag.len()
                == st.bag.len()
        }),
    ensures
        top && join_scope == crate::types::Scope::Block && roles.len() > 0 && sound_group(k, roles) && roles_protocol_sound(
            k,
            roles,
        ),
    decreases roles, 2nat,
{
    let s1 = crate::region::spec_concurrent_head(st, c, n, roles.len(), join_scope);
    assert(keeps(st, s1));
    let acc = crate::region::spec_roles(s1, c, k, n, roles);
    lemma_roles_visits(s1, c, k, n, roles);
    lemma_uses(acc.state, k, n, acc.pairs, acc.order, acc.order.len() as int);
    assert(s1.bag.len() == st.bag.len());
    assert(s1 == st);
    lemma_roles_sound(s1, c, k, n, roles);
    lemma_roles_protocol(s1, c, k, n, roles);
}

/// The body of a loop runs under its condition.
proof fn lemma_for_place(
    st: State,
    c: Ctx,
    n: ScheduleNode,
    lower: ValueId,
    upper: ValueId,
    step: ValueId,
    induction: ValueDef,
    carried: Seq<crate::ast::CarriedValue>,
)
    ensures
        crate::region::spec_for_head(st, c, n, lower, upper, step, induction, carried).1.conditional,
{
    lemma_carried_place(c, n, carried);
}

proof fn lemma_carried_place(c: Ctx, n: ScheduleNode, items: Seq<crate::ast::CarriedValue>)
    ensures
        forall|st: State, child: Ctx|
            #[trigger] crate::region::spec_carried(st, c, child, n, items).1.conditional == child.conditional,
    decreases items.len(),
{
    if items.len() > 0 {
        lemma_carried_place(c, n, items.drop_last());
        assert forall|st: State, child: Ctx|
            #[trigger] crate::region::spec_carried(st, c, child, n, items).1.conditional == child.conditional by {
            let (s0, ch0) = crate::region::spec_carried(st, c, child, n, items.drop_last());
            assert(ch0.conditional == child.conditional);
        }
    }
}

proof fn lemma_roles_protocol(st: State, c: Ctx, k: Kernel, n: ScheduleNode, roles: Seq<crate::ast::RoleRegion>)
    requires
        crate::region::spec_roles(st, c, k, n, roles).state.bag.len() == st.bag.len(),
    ensures
        roles_protocol_sound(k, roles),
    decreases roles, 1nat,
{
    if roles.len() > 0 {
        let acc = crate::region::spec_roles(st, c, k, n, roles.drop_last());
        lemma_roles_visits(st, c, k, n, roles.drop_last());
        let r = roles.last();
        let (s1, participants, warps) = crate::region::spec_participant(acc.state, k, n, r.role, acc.participants, acc.warps);
        lemma_participant(acc.state, k, n, r.role, acc.participants, acc.warps);
        let child = Ctx { role: Some(r.role), loops: seq![], drained: seq![], ..c };
        let (s2, done) = crate::region::spec_region(s1, child, k, r.body@, EndingV::Role);
        lemma_region_visits(s1, child, k, r.body@, EndingV::Role);
        let s3 = crate::region::spec_role_exit(s2, done, n);
        assert(keeps(s2, s3));
        lemma_roles_protocol(st, c, k, n, roles.drop_last());
        lemma_region_protocol(s1, child, k, r.body@, EndingV::Role, false);
        lemma_role_drains(s1, child, k, r.body@, n);
    }
}

/// When checking `ks` after `bag` adds no finding, each kernel keeps the protocol.
#[verifier::rlimit(60)]
proof fn lemma_quiet_kernel_protocol(bag: Seq<DiagnosticV>, ks: Seq<Kernel>, i: int)
    requires
        0 <= i < ks.len(),
        crate::verify::spec_kernels(bag, ks).0.len() == bag.len(),
    ensures
        protocol_sound(ks[i], ks[i].body@, true),
    decreases ks.len(),
{
    reveal(crate::verify::spec_kernel);
    let (b0, n0, names0) = crate::verify::spec_kernels(bag, ks.drop_last());
    lemma_kernels_visits(bag, ks.drop_last());
    lemma_kernel_visits(b0, n0, names0, ks.last());
    if i < ks.len() - 1 {
        assert(ks[i] == ks.drop_last()[i]);
        lemma_quiet_kernel_protocol(bag, ks.drop_last(), i);
    } else {
        let k = ks.last();
        let bag1 = if k.name@.len() == 0 || crate::lookup::has_key(names0, k.name@) {
            b0.push(crate::diagnostic::plain_error(crate::diagnostic::DiagnosticCode::DuplicateSymbol, "kernel names must be nonempty and unique"@))
        } else {
            b0
        };
        let st1 = crate::verify::kernel_start(bag1, n0);
        let c0 = crate::checker::empty_ctx();
        let (s1, c1) = crate::declarations::spec_declarations(st1, c0, k);
        lemma_declarations(st1, c0, k);
        lemma_region_visits(s1, c1, k, k.body@, EndingV::Kernel);
        lemma_region_protocol(s1, c1, k, k.body@, EndingV::Kernel, true);
    }
}

/// In a module whose check finds no error, every concurrent group stands directly in a
/// kernel body, outside any condition, loop and role region; it joins at block scope,
/// has at least one role region, and its role regions name distinct declared roles
/// whose warps are pairwise disjoint, no warp being claimed twice. Each role region
/// drains exactly the pipelines it loops over, every drain after the loop over its
/// pipeline. The body of every pipeline loop opens exactly one ticket per iteration:
/// each of its nodes that acquires or consumes a ticket names that one ticket and the
/// loop's pipeline, and a later node of the body publishes or releases it.
pub proof fn lemma_protocol_sound(m: crate::ast::Module, i: int)
    requires
        !crate::diagnostic::has_error(crate::verify::spec_validate(m)),
        0 <= i < m.kernels@.len(),
    ensures
        protocol_sound(m.kernels@[i], m.kernels@[i].body@, true),
{
    let header = crate::verify::spec_header(m);
    lemma_findings_are_errors(m);
    lemma_kernels_visits(header, m.kernels@);
    assert(crate::verify::spec_validate(m) == crate::verify::spec_kernels(header, m.kernels@).0);
    lemma_quiet_kernel_protocol(header, m.kernels@, i);
}

/// Node `n` is a loop over pipeline `x`.
pub open spec fn loops_over(n: ScheduleNode, x: Seq<char>) -> bool {
    match n.kind {
        crate::ast::ScheduleNodeKind::PipelineFor { pipeline, .. } => pipeline@ == x,
        _ => false,
    }
}

/// Node `n` drains pipeline `x`.
pub open spec fn drains(n: ScheduleNode, x: Seq<char>) -> bool {
    match n.kind {
        crate::ast::ScheduleNodeKind::PipelineDrain { pipeline } => pipeline@ == x,
        _ => false,
    }
}

/// The pipelines that the nodes of `body` loop over, each by its text.
pub open spec fn looped(body: Seq<ScheduleNode>) -> Set<Seq<char>> {
    Set::new(|x: Seq<char>| exists|q: int| 0 <= q < body.len() && loops_over(#[trigger] body[q], x))
}

/// The pipelines that the nodes of `body` drain, each by its text.
pub open spec fn drained(body: Seq<ScheduleNode>) -> Set<Seq<char>> {
    Set::new(|x: Seq<char>| exists|q: int| 0 <= q < body.len() && drains(#[trigger] body[q], x))
}

/// A region drains exactly the pipelines it loops over, each drain after a loop over
/// its pipeline.
pub open spec fn drains_every_loop(body: Seq<ScheduleNode>) -> bool {
    &&& drained(body) == looped(body)
    &&& forall|q: int, x: Seq<char>|
        0 <= q < body.len() && #[trigger] drains(body[q], x) ==> exists|p: int| 0 <= p < q && loops_over(#[trigger] body[p], x)
}

proof fn lemma_with_key_has<K: Keyed>(s: Seq<K>, k: K, x: Seq<char>)
    ensures
        crate::lookup::has_key(crate::lookup::with_key(s, k), x) == (crate::lookup::has_key(s, x) || k.key() == x),
{
    if !crate::lookup::has_key(s, k.key()) {
        let t = s.push(k);
        if crate::lookup::has_key(s, x) {
            let j = choose|j: int| 0 <= j < s.len() && s[j].key() == x;
            assert(t[j] == s[j]);
        }
        if k.key() == x {
            assert(t[s.len() as int] == k);
        }
        if crate::lookup::has_key(t, x) {
            let j = choose|j: int| 0 <= j < t.len() && t[j].key() == x;
            if j < s.len() {
                assert(t[j] == s[j]);
            }
        }
    }
}

proof fn lemma_publish_events_trail(
    st: State,
    c: Ctx,
    node: Option<ScheduleNode>,
    ticket: TicketId,
    events: Seq<EventId>,
    n: int,
)
    ensures
        forall|s: State|
            (#[trigger] spec_publish_events(s, c, node, ticket, events, n)).1.loops == c.loops
                && spec_publish_events(s, c, node, ticket, events, n).1.drained == c.drained
                && spec_publish_events(s, c, node, ticket, events, n).1.tickets == c.tickets,
    decreases n,
{
    if 0 < n <= events.len() {
        lemma_publish_events_trail(st, c, node, ticket, events, n - 1);
        assert forall|s: State|
            (#[trigger] spec_publish_events(s, c, node, ticket, events, n)).1.loops == c.loops
                && spec_publish_events(s, c, node, ticket, events, n).1.drained == c.drained
                && spec_publish_events(s, c, node, ticket, events, n).1.tickets == c.tickets by {
            let (s0, c0, w0) = spec_publish_events(s, c, node, ticket, events, n - 1);
            assert(c0.loops == c.loops);
        }
    }
}

/// What one node of a region that adds no finding does to the pipelines looped over and
/// drained: a pipeline loop records its pipeline, a drain records its pipeline after a
/// loop over it, and no other node records either.
#[verifier::spinoff_prover]
#[verifier::rlimit(50)]
proof fn lemma_step_trail(st: State, c: Ctx, k: Kernel, n: ScheduleNode, last: bool, ending: EndingV)
    requires
        crate::region::spec_step(st, c, k, n, last, ending).0.bag.len() == st.bag.len(),
    ensures
        crate::region::spec_step(st, c, k, n, last, ending).1.loops == match n.kind {
            crate::ast::ScheduleNodeKind::PipelineFor { pipeline, .. } => crate::lookup::with_key(c.loops, pipeline),
            _ => c.loops,
        },
        crate::region::spec_step(st, c, k, n, last, ending).1.drained == match n.kind {
            crate::ast::ScheduleNodeKind::PipelineDrain { pipeline } => crate::lookup::with_key(c.drained, pipeline),
            _ => c.drained,
        },
        n.kind matches crate::ast::ScheduleNodeKind::PipelineDrain { pipeline } ==> crate::lookup::has_key(
            c.loops,
            pipeline@,
        ),
{
    let s1 = crate::nodes::spec_node_id(st, n);
    lemma_node_id(st, n);
    let ids = n.kind.operand_ids();
    let s2 = spec_operands(s1, c, n, ids);
    lemma_operands(s1, c, n, ids);
    let (s3, c3) = if crate::nodes::is_nested(n.kind) {
        crate::region::spec_nested(s2, c, k, n)
    } else {
        spec_flat(s2, c, k, n, last, ending)
    };
    if crate::nodes::is_nested(n.kind) {
        lemma_nested_visits(s2, c, k, n);
        match n.kind {
            crate::ast::ScheduleNodeKind::PipelineFor { pipeline, iteration, body } => {
                lemma_pipeline_head(s2, c, k, n, pipeline, iteration);
            },
            _ => {},
        }
    } else {
        lemma_flat(s2, c, k, n, last, ending);
        match n.kind {
            crate::ast::ScheduleNodeKind::PipelinePublish { ticket, events } => {
                lemma_publish_events_trail(s2, c, Some(n), ticket, events@, events@.len() as int);
            },
            _ => {},
        }
    }
    lemma_defines(s3, c3, n.kind.result_defs(), n);
    lemma_defines_trail(s3, c3, n.kind.result_defs(), n);
}

proof fn lemma_defines_trail(st: State, c: Ctx, defs: Seq<ValueDef>, n: ScheduleNode)
    ensures
        spec_defines(st, c, defs, n).1.loops == c.loops,
        spec_defines(st, c, defs, n).1.drained == c.drained,
        spec_defines(st, c, defs, n).1.tickets == c.tickets,
    decreases defs.len(),
{
    if defs.len() > 0 {
        lemma_defines_trail(st, c, defs.drop_last(), n);
    }
}

/// Along the nodes of a region that add no finding, the pipelines looped over and
/// drained are those on entry and those the nodes loop over and drain, and each drain
/// follows a loop over its pipeline, on entry or by an earlier node.
#[verifier::spinoff_prover]
#[verifier::rlimit(50)]
proof fn lemma_steps_trail(st: State, c: Ctx, k: Kernel, prefix: Seq<ScheduleNode>, total: int, ending: EndingV)
    requires
        crate::region::spec_steps(st, c, k, prefix, total, ending).0.bag.len() == st.bag.len(),
    ensures
        forall|x: Seq<char>|
            #[trigger] crate::lookup::has_key(crate::region::spec_steps(st, c, k, prefix, total, ending).1.loops, x) == (
            crate::lookup::has_key(c.loops, x) || looped(prefix).contains(x)),
        forall|x: Seq<char>|
            #[trigger] crate::lookup::has_key(crate::region::spec_steps(st, c, k, prefix, total, ending).1.drained, x) == (
            crate::lookup::has_key(c.drained, x) || drained(prefix).contains(x)),
        forall|q: int, x: Seq<char>|
            0 <= q < prefix.len() && #[trigger] drains(prefix[q], x) ==> crate::lookup::has_key(c.loops, x) || exists|p: int|
                0 <= p < q && loops_over(#[trigger] prefix[p], x),
    decreases prefix.len(),
{
    if prefix.len() > 0 {
        let pre = prefix.drop_last();
        let n = prefix.last();
        let (s1, c1) = crate::region::spec_steps(st, c, k, pre, total, ending);
        lemma_steps_visits(st, c, k, pre, total, ending);
        lemma_step_visits(s1, c1, k, n, prefix.len() == total, ending);
        lemma_steps_trail(st, c, k, pre, total, ending);
        lemma_step_trail(s1, c1, k, n, prefix.len() == total, ending);
        let c2 = crate::region::spec_step(s1, c1, k, n, prefix.len() == total, ending).1;
        let last = prefix.len() - 1;
        assert(prefix[last] == n);
        assert forall|q: int| 0 <= q < last implies #[trigger] prefix[q] == pre[q] by {}
        assert forall|x: Seq<char>| looped(prefix).contains(x) == (looped(pre).contains(x) || loops_over(n, x)) by {
            if looped(prefix).contains(x) {
                let q = choose|q: int| 0 <= q < prefix.len() && loops_over(#[trigger] prefix[q], x);
                if q < last {
                    assert(loops_over(pre[q], x));
                }
            }
            if looped(pre).contains(x) {
                let q = choose|q: int| 0 <= q < pre.len() && loops_over(#[trigger] pre[q], x);
                assert(loops_over(prefix[q], x));
            }
        }
        assert forall|x: Seq<char>| drained(prefix).contains(x) == (drained(pre).contains(x) || drains(n, x)) by {
            if drained(prefix).contains(x) {
                let q = choose|q: int| 0 <= q < prefix.len() && drains(#[trigger] prefix[q], x);
                if q < last {
                    assert(drains(pre[q], x));
                }
            }
            if drained(pre).contains(x) {
                let q = choose|q: int| 0 <= q < pre.len() && drains(#[trigger] pre[q], x);
                assert(drains(prefix[q], x));
            }
        }
        assert forall|x: Seq<char>| #[trigger] crate::lookup::has_key(c2.loops, x) == (crate::lookup::has_key(c.loops, x)
            || looped(prefix).contains(x)) by {
            match n.kind {
                crate::ast::ScheduleNodeKind::PipelineFor { pipeline, .. } => lemma_with_key_has(c1.loops, pipeline, x),
                _ => {},
            }
        }
        assert forall|x: Seq<char>| #[trigger] crate::lookup::has_key(c2.drained, x) == (crate::lookup::has_key(
            c.drained,
            x,
        ) || drained(prefix).contains(x)) by {
            match n.kind {
                crate::ast::ScheduleNodeKind::PipelineDrain { pipeline } => lemma_with_key_has(c1.drained, pipeline, x),
                _ => {},
            }
        }
        assert forall|q: int, x: Seq<char>|
            0 <= q < prefix.len() && #[trigger] drains(prefix[q], x) implies crate::lookup::has_key(c.loops, x) || exists|p: int|
            0 <= p < q && loops_over(#[trigger] prefix[p], x) by {
            if q < last {
                assert(drains(pre[q], x));
                if exists|p: int| 0 <= p < q && loops_over(#[trigger] pre[p], x) {
                    let p = choose|p: int| 0 <= p < q && loops_over(#[trigger] pre[p], x);
                    assert(loops_over(prefix[p], x));
                }
            } else {
                assert(crate::lookup::has_key(c1.loops, x));
                if looped(pre).contains(x) {
                    let p = choose|p: int| 0 <= p < pre.len() && loops_over(#[trigger] pre[p], x);
                    assert(loops_over(prefix[p], x));
                }
            }
        }
    }
}

/// A role region that the check passes without a finding, entered with no pipeline
/// looped over or drained, drains every pipeline it loops over and no other.
proof fn lemma_role_drains(st: State, child: Ctx, k: Kernel, body: Seq<ScheduleNode>, n: ScheduleNode)
    requires
        child.loops == Seq::<PipelineId>::empty(),
        child.drained == Seq::<PipelineId>::empty(),
        ({
            let (s2, done) = crate::region::spec_region(st, child, k, body, EndingV::Role);
            crate::region::spec_role_exit(s2, done, n).bag.len() == st.bag.len()
        }),
    ensures
        drains_every_loop(body),
{
    let (s1, done) = crate::region::spec_steps(st, child, k, body, body.len() as int, EndingV::Role);
    lemma_steps_visits(st, child, k, body, body.len() as int, EndingV::Role);
    let s2 = crate::region::spec_region_end(s1, body, EndingV::Role);
    assert(keeps(s1, s2));
    let s3 = crate::region::spec_role_exit(s2, done, n);
    assert(keeps(s2, s3));
    lemma_steps_trail(st, child, k, body, body.len() as int, EndingV::Role);
    assert(crate::lookup::same_keys(done.loops, done.drained));
    assert forall|x: Seq<char>| looped(body).contains(x) == drained(body).contains(x) by {
        assert(!crate::lookup::has_key(child.loops, x));
        assert(!crate::lookup::has_key(child.drained, x));
        if crate::lookup::has_key(done.loops, x) {
            let j = choose|j: int| 0 <= j < done.loops.len() && done.loops[j].key() == x;
            assert(crate::lookup::has_key(done.drained, done.loops[j].key()));
        }
        if crate::lookup::has_key(done.drained, x) {
            let j = choose|j: int| 0 <= j < done.drained.len() && done.drained[j].key() == x;
            assert(crate::lookup::has_key(done.loops, done.drained[j].key()));
        }
    }
    assert(drained(body) =~= looped(body));
}

/// Node `n` opens ticket `t` of pipeline `p`: it acquires or consumes it.
pub open spec fn opens(n: ScheduleNode, t: Seq<char>, p: Seq<char>) -> bool {
    match n.kind {
        crate::ast::ScheduleNodeKind::PipelineAcquire { pipeline, ticket, .. } => ticket@ == t && pipeline@ == p,
        crate::ast::ScheduleNodeKind::PipelineConsume { pipeline, ticket, .. } => ticket@ == t && pipeline@ == p,
        _ => false,
    }
}

/// Node `n` closes ticket `t`: it publishes or releases it.
pub open spec fn closes(n: ScheduleNode, t: Seq<char>) -> bool {
    match n.kind {
        crate::ast::ScheduleNodeKind::PipelinePublish { ticket, .. } => ticket@ == t,
        crate::ast::ScheduleNodeKind::PipelineRelease { ticket } => ticket@ == t,
        _ => false,
    }
}

/// What one node of a region that adds no finding does to the open tickets: acquiring
/// or consuming opens one, of the enclosing pipeline loop's pipeline; publishing or
/// releasing closes one; no other node touches them.
#[verifier::spinoff_prover]
#[verifier::rlimit(50)]
proof fn lemma_step_tickets(st: State, c: Ctx, k: Kernel, n: ScheduleNode, last: bool, ending: EndingV)
    requires
        crate::region::spec_step(st, c, k, n, last, ending).0.bag.len() == st.bag.len(),
    ensures
        crate::region::spec_step(st, c, k, n, last, ending).1.tickets == match n.kind {
            crate::ast::ScheduleNodeKind::PipelineAcquire { pipeline, ticket, .. } => crate::lookup::put(
                c.tickets,
                ticket,
                crate::checker::Ticket { pipeline, kind: TicketKind::Producer, closed: false },
            ),
            crate::ast::ScheduleNodeKind::PipelineConsume { pipeline, ticket, .. } => crate::lookup::put(
                c.tickets,
                ticket,
                crate::checker::Ticket { pipeline, kind: TicketKind::Consumer, closed: false },
            ),
            crate::ast::ScheduleNodeKind::PipelinePublish { ticket, .. } => crate::access::close_ticket(c.tickets, ticket),
            crate::ast::ScheduleNodeKind::PipelineRelease { ticket } => crate::access::close_ticket(c.tickets, ticket),
            _ => c.tickets,
        },
        forall|t: Seq<char>, p: Seq<char>| #[trigger] opens(n, t, p) ==> p == crate::access::pipeline_of(c),
        (n.kind is PipelinePublish || n.kind is PipelineRelease) ==> crate::lookup::has_key(
            c.tickets,
            match n.kind {
                crate::ast::ScheduleNodeKind::PipelinePublish { ticket, .. } => ticket@,
                crate::ast::ScheduleNodeKind::PipelineRelease { ticket } => ticket@,
                _ => seq![],
            },
        ),
{
    let s1 = crate::nodes::spec_node_id(st, n);
    lemma_node_id(st, n);
    let ids = n.kind.operand_ids();
    let s2 = spec_operands(s1, c, n, ids);
    lemma_operands(s1, c, n, ids);
    let (s3, c3) = if crate::nodes::is_nested(n.kind) {
        crate::region::spec_nested(s2, c, k, n)
    } else {
        spec_flat(s2, c, k, n, last, ending)
    };
    if crate::nodes::is_nested(n.kind) {
        lemma_nested_visits(s2, c, k, n);
        match n.kind {
            crate::ast::ScheduleNodeKind::PipelineFor { pipeline, iteration, body } => {
                lemma_pipeline_head(s2, c, k, n, pipeline, iteration);
            },
            _ => {},
        }
    } else {
        lemma_flat(s2, c, k, n, last, ending);
        match n.kind {
            crate::ast::ScheduleNodeKind::PipelinePublish { ticket, events } => {
                lemma_publish_events_trail(s2, c, Some(n), ticket, events@, events@.len() as int);
                lemma_publish(s2, c, k, Some(n), ticket, events@);
                crate::lookup::lemma_has_key(c.tickets, ticket@);
            },
            crate::ast::ScheduleNodeKind::PipelineRelease { ticket } => {
                crate::lookup::lemma_has_key(c.tickets, ticket@);
            },
            _ => {},
        }
    }
    lemma_defines(s3, c3, n.kind.result_defs(), n);
    lemma_defines_trail(s3, c3, n.kind.result_defs(), n);
}

proof fn lemma_put_entries<K: Keyed, V>(s: Seq<(K, V)>, k: K, v: V)
    ensures
        forall|x: Seq<char>|
            #[trigger] crate::lookup::has_key(crate::lookup::put(s, k, v), x) == (crate::lookup::has_key(s, x) || k.key() == x),
        forall|i: int|
            0 <= i < crate::lookup::put(s, k, v).len() ==> (i < s.len() && #[trigger] crate::lookup::put(s, k, v)[i] == s[i])
                || (crate::lookup::put(s, k, v)[i].0.key() == k.key() && crate::lookup::put(s, k, v)[i].1 == v),
{
    let t = crate::lookup::put(s, k, v);
    match crate::lookup::find_index(s, k.key()) {
        Some(j) => {
            assert(crate::lookup::is_first(s, k.key(), j));
            assert forall|x: Seq<char>| #[trigger] crate::lookup::has_key(t, x) == (crate::lookup::has_key(s, x) || k.key() == x) by {
                if crate::lookup::has_key(t, x) {
                    let w = choose|w: int| 0 <= w < t.len() && t[w].key() == x;
                    assert(s[w].key() == x);
                }
                if crate::lookup::has_key(s, x) {
                    let w = choose|w: int| 0 <= w < s.len() && s[w].key() == x;
                    assert(t[w].key() == x);
                }
                if k.key() == x {
                    assert(t[j].key() == x);
                }
            }
        },
        None => {
            assert forall|x: Seq<char>| #[trigger] crate::lookup::has_key(t, x) == (crate::lookup::has_key(s, x) || k.key() == x) by {
                if crate::lookup::has_key(t, x) {
                    let w = choose|w: int| 0 <= w < t.len() && t[w].key() == x;
                    if w < s.len() {
                        assert(s[w] == t[w]);
                    }
                }
                if crate::lookup::has_key(s, x) {
                    let w = choose|w: int| 0 <= w < s.len() && s[w].key() == x;
                    assert(t[w] == s[w]);
                }
                if k.key() == x {
                    assert(t[s.len() as int] == (k, v));
                }
            }
        },
    }
}

proof fn lemma_close_entries(s: Seq<(TicketId, crate::checker::Ticket)>, ticket: TicketId)
    ensures
        forall|x: Seq<char>|
            #[trigger] crate::lookup::has_key(crate::access::close_ticket(s, ticket), x) == crate::lookup::has_key(s, x),
        forall|i: int|
            0 <= i < crate::access::close_ticket(s, ticket).len() ==> (i < s.len() && #[trigger] crate::access::close_ticket(
                s,
                ticket,
            )[i] == s[i]) || (crate::access::close_ticket(s, ticket)[i].0.key() == ticket@ && crate::access::close_ticket(
                s,
                ticket,
            )[i].1.closed),
{
    match crate::lookup::get(s, ticket@) {
        Some(info) => {
            let v = crate::checker::Ticket { closed: true, ..info };
            lemma_put_entries(s, ticket, v);
            crate::lookup::lemma_has_key(s, ticket@);
            assert forall|x: Seq<char>| #[trigger] crate::lookup::has_key(crate::access::close_ticket(s, ticket), x)
                == crate::lookup::has_key(s, x) by {
                assert(crate::lookup::has_key(s, ticket@));
                assert(crate::lookup::has_key(crate::lookup::put(s, ticket, v), x) == (crate::lookup::has_key(s, x) || ticket@ == x));
            }
        },
        None => {},
    }
}

/// Some node of `body` opens ticket `t` of pipeline `p`.
pub open spec fn opened(body: Seq<ScheduleNode>, t: Seq<char>, p: Seq<char>) -> bool {
    exists|q: int| 0 <= q < body.len() && opens(#[trigger] body[q], t, p)
}

/// Some node of `body` opens ticket `t` of pipeline `p` and a later node closes it.
pub open spec fn closed_after(body: Seq<ScheduleNode>, t: Seq<char>, p: Seq<char>) -> bool {
    exists|q: int, r: int| 0 <= q < r < body.len() && opens(#[trigger] body[q], t, p) && closes(#[trigger] body[r], t)
}

/// Along the nodes of a pipeline loop's body that add no finding, entered with no open
/// ticket: the tickets opened are those the nodes open, each of the loop's pipeline, and
/// a closed one was opened and then closed by a later node.
#[verifier::spinoff_prover]
#[verifier::rlimit(50)]
proof fn lemma_steps_tickets(st: State, c: Ctx, k: Kernel, prefix: Seq<ScheduleNode>, total: int, ending: EndingV)
    requires
        crate::region::spec_steps(st, c, k, prefix, total, ending).0.bag.len() == st.bag.len(),
        c.tickets == Seq::<(TicketId, crate::checker::Ticket)>::empty(),
    ensures
        forall|q: int, t: Seq<char>, p: Seq<char>|
            0 <= q < prefix.len() && #[trigger] opens(prefix[q], t, p) ==> p == crate::access::pipeline_of(c),
        forall|x: Seq<char>|
            #[trigger] crate::lookup::has_key(crate::region::spec_steps(st, c, k, prefix, total, ending).1.tickets, x)
                == opened(prefix, x, crate::access::pipeline_of(c)),
        forall|i: int|
            0 <= i < crate::region::spec_steps(st, c, k, prefix, total, ending).1.tickets.len() && (#[trigger] crate::region::spec_steps(
                st,
                c,
                k,
                prefix,
                total,
                ending,
            ).1.tickets[i]).1.closed ==> closed_after(
                prefix,
                crate::region::spec_steps(st, c, k, prefix, total, ending).1.tickets[i].0@,
                crate::access::pipeline_of(c),
            ),
        place(crate::region::spec_steps(st, c, k, prefix, total, ending).1) == place(c),
    decreases prefix.len(),
{
    let pc = crate::access::pipeline_of(c);
    if prefix.len() > 0 {
        let pre = prefix.drop_last();
        let n = prefix.last();
        let (s1, c1) = crate::region::spec_steps(st, c, k, pre, total, ending);
        lemma_steps_visits(st, c, k, pre, total, ending);
        lemma_step_visits(s1, c1, k, n, prefix.len() == total, ending);
        lemma_steps_tickets(st, c, k, pre, total, ending);
        lemma_step_tickets(s1, c1, k, n, prefix.len() == total, ending);
        lemma_step_place(s1, c1, k, n, prefix.len() == total, ending);
        let c2 = crate::region::spec_step(s1, c1, k, n, prefix.len() == total, ending).1;
        let last = prefix.len() - 1;
        assert(prefix[last] == n);
        assert forall|q: int| 0 <= q < last implies #[trigger] prefix[q] == pre[q] by {}
        assert(crate::access::pipeline_of(c1) == pc);
        assert forall|q: int, t: Seq<char>, p: Seq<char>| 0 <= q < prefix.len() && #[trigger] opens(prefix[q], t, p) implies p
            == pc by {
            if q < last {
                assert(opens(pre[q], t, p));
            }
        }
        assert forall|x: Seq<char>| opened(prefix, x, pc) == (opened(pre, x, pc) || opens(n, x, pc)) by {
            if opened(prefix, x, pc) {
                let q = choose|q: int| 0 <= q < prefix.len() && opens(#[trigger] prefix[q], x, pc);
                if q < last {
                    assert(opens(pre[q], x, pc));
                }
            }
            if opened(pre, x, pc) {
                let q = choose|q: int| 0 <= q < pre.len() && opens(#[trigger] pre[q], x, pc);
                assert(opens(prefix[q], x, pc));
            }
        }
        assert forall|x: Seq<char>, y: Seq<char>| closed_after(pre, x, y) implies closed_after(prefix, x, y) by {
            let (q, r) = choose|q: int, r: int| 0 <= q < r < pre.len() && opens(#[trigger] pre[q], x, y) && closes(#[trigger] pre[r], x);
            assert(opens(prefix[q], x, y) && closes(prefix[r], x));
        }
        match n.kind {
            crate::ast::ScheduleNodeKind::PipelineAcquire { pipeline, ticket, .. } => {
                lemma_put_entries(c1.tickets, ticket, crate::checker::Ticket { pipeline, kind: TicketKind::Producer, closed: false });
                assert(opens(n, ticket@, pipeline@));
            },
            crate::ast::ScheduleNodeKind::PipelineConsume { pipeline, ticket, .. } => {
                lemma_put_entries(c1.tickets, ticket, crate::checker::Ticket { pipeline, kind: TicketKind::Consumer, closed: false });
                assert(opens(n, ticket@, pipeline@));
            },
            crate::ast::ScheduleNodeKind::PipelinePublish { ticket, .. } => {
                lemma_close_entries(c1.tickets, ticket);
                assert(opened(pre, ticket@, pc));
                let q = choose|q: int| 0 <= q < pre.len() && opens(#[trigger] pre[q], ticket@, pc);
                assert(opens(prefix[q], ticket@, pc) && closes(prefix[last], ticket@));
                assert(closed_after(prefix, ticket@, pc));
            },
            crate::ast::ScheduleNodeKind::PipelineRelease { ticket } => {
                lemma_close_entries(c1.tickets, ticket);
                assert(opened(pre, ticket@, pc));
                let q = choose|q: int| 0 <= q < pre.len() && opens(#[trigger] pre[q], ticket@, pc);
                assert(opens(prefix[q], ticket@, pc) && closes(prefix[last], ticket@));
                assert(closed_after(prefix, ticket@, pc));
            },
            _ => {},
        }
    }
}

/// The body of a pipeline loop over `p` opens exactly one ticket per iteration: every
/// node of the body that opens a ticket opens the same one, of pipeline `p`, and a later
/// node closes it.
pub open spec fn one_ticket(body: Seq<ScheduleNode>, p: Seq<char>) -> bool {
    exists|t: Seq<char>|
        {
            &&& forall|q: int, x: Seq<char>, y: Seq<char>|
                0 <= q < body.len() && #[trigger] opens(body[q], x, y) ==> x == t && y == p
            &&& #[trigger] closed_after(body, t, p)
        }
}

/// A pipeline loop body that the check passes without a finding, entered with no open
/// ticket, opens exactly one ticket per iteration and closes it.
proof fn lemma_pipeline_ticket(st: State, ch: Ctx, k: Kernel, body: Seq<ScheduleNode>, n: ScheduleNode, pipeline: PipelineId)
    requires
        ch.tickets == Seq::<(TicketId, crate::checker::Ticket)>::empty(),
        crate::access::pipeline_of(ch) == pipeline@,
        ({
            let (s2, done) = crate::region::spec_region(st, ch, k, body, EndingV::Pipeline);
            crate::region::spec_pipeline_tail(s2, done, n, pipeline).bag.len() == st.bag.len()
        }),
    ensures
        one_ticket(body, pipeline@),
{
    let (s1, done) = crate::region::spec_steps(st, ch, k, body, body.len() as int, EndingV::Pipeline);
    lemma_steps_visits(st, ch, k, body, body.len() as int, EndingV::Pipeline);
    let s2 = crate::region::spec_region_end(s1, body, EndingV::Pipeline);
    assert(keeps(s1, s2));
    let s3 = crate::region::spec_pipeline_tail(s2, done, n, pipeline);
    assert(keeps(s2, s3));
    lemma_steps_tickets(st, ch, k, body, body.len() as int, EndingV::Pipeline);
    assert(done.tickets.len() == 1);
    assert(done.tickets[0].1.closed);
    let t = done.tickets[0].0@;
    assert forall|q: int, x: Seq<char>, y: Seq<char>| 0 <= q < body.len() && #[trigger] opens(body[q], x, y) implies x == t
        && y == pipeline@ by {
        assert(opened(body, x, pipeline@));
        assert(crate::lookup::has_key(done.tickets, x));
        let j = choose|j: int| 0 <= j < done.tickets.len() && done.tickets[j].key() == x;
    }
    assert(closed_after(body, t, pipeline@));
}

} // verus!
