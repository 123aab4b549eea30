//! Checks of value arithmetic, memory references, accumulators and pipeline tickets.
use crate::ast::{BinaryOp, BufferDecl, Kernel, Literal, ScheduleNode, ValueDef};
use crate::checker::{
    Checker, Context, Ctx, Event, State, Ticket, TicketKind, lemma_types_view_keys, node_of,
    quote_id, reads_of, spec_expect, with_error,
};
use crate::diagnostic::DiagnosticCode;
use crate::layout::{disjoint, views_disjoint};
use crate::lookup::{
    Dup, Keyed, add_key, contains, find, find_index, get, has_key, key_in_prefix,
    lemma_found, lemma_has_key, put, put_entry, same_key_lists, same_keys, with_key,
};
use crate::text::text;
use crate::types::{
    AccumulatorId, AddressSpace, BufferId, DType, EventId, MemoryRef, PipelineId, TicketId,
    TypeRef, TypeRefV, ValueId,
};
use vstd::prelude::*;

verus! {

/// The pipeline of the enclosing pipeline loop.
pub open spec fn pipeline_of(c: Ctx) -> Seq<char> {
    match c.pipeline {
        Some((p, _)) => p@,
        None => seq![],
    }
}

/// The iteration value of the enclosing pipeline loop.
pub open spec fn iteration_of(c: Ctx) -> Seq<char> {
    match c.pipeline {
        Some((_, i)) => i@,
        None => seq![],
    }
}

/// The ticket that leases the buffer an event writes.
pub open spec fn writer_of(e: Event) -> Seq<char> {
    match e.writes {
        Some((_, t)) => t@,
        None => seq![],
    }
}

/// The buffer an event writes.
pub open spec fn written_buffer(e: Event) -> BufferId {
    match e.writes {
        Some((b, _)) => b,
        None => BufferId(arbitrary()),
    }
}

/// Removes the first entry with key `k`, if any.
pub open spec fn remove_key<K: Keyed, V>(s: Seq<(K, V)>, k: Seq<char>) -> Seq<(K, V)> {
    match find_index(s, k) {
        Some(i) => s.remove(i),
        None => s,
    }
}

pub fn remove_entry<K: Keyed, V>(v: &mut Vec<(K, V)>, k: &String)
    ensures
        final(v)@ == remove_key(old(v)@, k@),
{
    match find(v, k) {
        Some(i) => {
            v.remove(i);
        },
        None => {},
    }
}

/// The scalar types on which arithmetic and ordering are defined: indices and every
/// non-boolean scalar.
pub open spec fn numeric(t: TypeRefV) -> bool {
    match t {
        TypeRefV::Index => true,
        TypeRefV::Scalar(d) => d != DType::Bool,
        _ => false,
    }
}

/// The result type of `op` on operands of type `t`, if the operation is defined.
pub open spec fn binary_result(op: BinaryOp, t: TypeRefV) -> Option<TypeRefV> {
    match op {
        BinaryOp::And | BinaryOp::Or => if t == TypeRefV::Predicate {
            Some(TypeRefV::Predicate)
        } else {
            None
        },
        BinaryOp::Equal => if numeric(t) || t == TypeRefV::Predicate {
            Some(TypeRefV::Predicate)
        } else {
            None
        },
        BinaryOp::Less => if numeric(t) {
            Some(TypeRefV::Predicate)
        } else {
            None
        },
        BinaryOp::Add | BinaryOp::Sub | BinaryOp::Mul | BinaryOp::Div => if numeric(t) {
            Some(t)
        } else {
            None
        },
    }
}

/// What a binary operation of the IR computes on two integer operands; a truth value
/// is 1 or 0.
pub open spec fn binary_value(op: BinaryOp, a: int, b: int) -> int {
    match op {
        BinaryOp::Add => a + b,
        BinaryOp::Sub => a - b,
        BinaryOp::Mul => a * b,
        BinaryOp::Div => a / b,
        BinaryOp::Less => if a < b {
            1
        } else {
            0
        },
        BinaryOp::Equal => if a == b {
            1
        } else {
            0
        },
        BinaryOp::And => if a != 0 && b != 0 {
            1
        } else {
            0
        },
        BinaryOp::Or => if a != 0 || b != 0 {
            1
        } else {
            0
        },
    }
}

/// Folding of two known index literals: `None` when the operation does not fold,
/// `Some(None)` when it overflows or divides by zero.
pub open spec fn fold_index(op: BinaryOp, a: u64, b: u64) -> Option<Option<u64>> {
    match op {
        BinaryOp::Add => Some(if a + b <= u64::MAX { Some((a + b) as u64) } else { None }),
        BinaryOp::Sub => Some(if a >= b { Some((a - b) as u64) } else { None }),
        BinaryOp::Mul => Some(if a * b <= u64::MAX { Some((a * b) as u64) } else { None }),
        BinaryOp::Div => Some(if b != 0 { Some(a / b) } else { None }),
        _ => None,
    }
}

/// Folding two index literals computes the operation: arithmetic always folds, to its
/// value when that is an index (no underflow, overflow or division by zero) and to a
/// failure otherwise; comparisons and logic do not fold.
pub proof fn lemma_fold_index_computes(op: BinaryOp, a: u64, b: u64)
    ensures
        (op == BinaryOp::Add || op == BinaryOp::Sub || op == BinaryOp::Mul || op == BinaryOp::Div) <==> fold_index(
            op,
            a,
            b,
        ) is Some,
        fold_index(op, a, b) matches Some(Some(v)) ==> v == binary_value(op, a as int, b as int),
        fold_index(op, a, b) matches Some(None) ==> !(0 <= binary_value(op, a as int, b as int) <= u64::MAX) || (op
            == BinaryOp::Div && b == 0),
        (fold_index(op, a, b) is Some && 0 <= binary_value(op, a as int, b as int) <= u64::MAX && !(op == BinaryOp::Div
            && b == 0)) ==> fold_index(op, a, b) == Some(Some(binary_value(op, a as int, b as int) as u64)),
{
}

/// A binary operation: with a defined left operand, the right one must have its type,
/// the result type must be the operation's; uniform operands give a uniform result; a
/// known zero divisor is an error; two known index literals fold to a literal result.
pub open spec fn spec_binary(
    st: State,
    c: Ctx,
    node: Option<ScheduleNode>,
    op: BinaryOp,
    lhs: ValueId,
    rhs: ValueId,
    result: ValueDef,
) -> (State, Ctx) {
    match get(c.values, lhs@) {
        None => (st, c),
        Some(t) => {
            let s1 = spec_expect(st, c, rhs, t, node);
            let s2 = if binary_result(op, t) != Some(result.ty@) {
                with_error(s1, node, DiagnosticCode::InvalidType, "invalid binary operand or result types"@)
            } else {
                s1
            };
            let c1 = if has_key(c.uniform, lhs@) && has_key(c.uniform, rhs@) {
                Ctx { uniform: with_key(c.uniform, result.id), ..c }
            } else {
                c
            };
            let s3 = if op == BinaryOp::Div && (get(c.literals, rhs@) == Some(Literal::Index(0))
                || get(c.literals, rhs@) == Some(Literal::Integer(0))) {
                with_error(s2, node, DiagnosticCode::InvalidType, "division by zero"@)
            } else {
                s2
            };
            match (get(c.literals, lhs@), get(c.literals, rhs@)) {
                (Some(Literal::Index(a)), Some(Literal::Index(b))) => match fold_index(op, a, b) {
                    Some(Some(v)) => (s3, Ctx { literals: put(c1.literals, result.id, Literal::Index(v)), ..c1 }),
                    Some(None) => (
                        with_error(s3, node, DiagnosticCode::InvalidType, "constant index arithmetic overflows or divides by zero"@),
                        c1,
                    ),
                    None => (s3, c1),
                },
                _ => (s3, c1),
            }
        },
    }
}

/// The typing of binary operations: arithmetic (`Add`, `Sub`, `Mul`, `Div`) on indices
/// or on any non-boolean scalar yields that same type; `Less` and `Equal` on them yield
/// a predicate; arithmetic and `Less` on booleans or predicates are undefined, and so is
/// logic (`And`, `Or`) on anything but predicates.
pub proof fn lemma_binary_types()
    ensures
        forall|op: BinaryOp, d: DType|
            d != DType::Bool && (op == BinaryOp::Add || op == BinaryOp::Sub || op == BinaryOp::Mul || op == BinaryOp::Div)
                ==> #[trigger] binary_result(op, TypeRefV::Scalar(d)) == Some(TypeRefV::Scalar(d)),
        forall|op: BinaryOp|
            (op == BinaryOp::Add || op == BinaryOp::Sub || op == BinaryOp::Mul || op == BinaryOp::Div) ==> #[trigger] binary_result(
                op,
                TypeRefV::Index,
            ) == Some(TypeRefV::Index),
        forall|op: BinaryOp, t: TypeRefV|
            (op == BinaryOp::Less || op == BinaryOp::Equal) && (t == TypeRefV::Index || (t is Scalar && t->Scalar_0
                != DType::Bool)) ==> #[trigger] binary_result(op, t) == Some(TypeRefV::Predicate),
        forall|op: BinaryOp, t: TypeRefV|
            (op == BinaryOp::Add || op == BinaryOp::Sub || op == BinaryOp::Mul || op == BinaryOp::Div || op == BinaryOp::Less)
                && (t == TypeRefV::Predicate || t == TypeRefV::Scalar(DType::Bool)) ==> #[trigger] binary_result(op, t) is None,
        forall|op: BinaryOp, t: TypeRefV|
            (op == BinaryOp::And || op == BinaryOp::Or) ==> #[trigger] binary_result(op, t) == if t == TypeRefV::Predicate {
                Some(TypeRefV::Predicate)
            } else {
                None
            },
{
}

/// A binary node over two defined values of one type, neither a known literal, with a
/// result of the type its operation yields, passes the check: in particular arithmetic
/// on two values of any non-boolean scalar type or of `Index` into that type, and
/// comparison of two such values into a predicate, adds no finding.
pub proof fn lemma_binary_accepts(
    st: State,
    c: Ctx,
    node: Option<ScheduleNode>,
    op: BinaryOp,
    lhs: ValueId,
    rhs: ValueId,
    result: ValueDef,
    t: TypeRefV,
)
    requires
        get(c.values, lhs@) == Some(t),
        get(c.values, rhs@) == Some(t),
        get(c.literals, lhs@) is None,
        get(c.literals, rhs@) is None,
        t == TypeRefV::Index || (t is Scalar && t->Scalar_0 != DType::Bool),
        (op == BinaryOp::Add || op == BinaryOp::Sub || op == BinaryOp::Mul || op == BinaryOp::Div) && result.ty@ == t || (
        op == BinaryOp::Less || op == BinaryOp::Equal) && result.ty@ == TypeRefV::Predicate,
    ensures
        spec_binary(st, c, node, op, lhs, rhs, result).0 == st,
{
    lemma_binary_types();
}

/// Access indices: each must be a defined index, and their count must match the rank
/// of the accessed buffer when it is known.
pub open spec fn spec_access_indices(
    st: State,
    c: Ctx,
    node: Option<ScheduleNode>,
    indices: Seq<ValueId>,
    buffer: Option<BufferDecl>,
) -> State {
    let s1 = crate::checker::spec_expect_all(st, c, indices, TypeRefV::Index, node);
    match buffer {
        Some(b) => if indices.len() != b.ty.shape@.len() {
            with_error(s1, node, DiagnosticCode::InvalidType, "access index count must match buffer rank"@)
        } else {
            s1
        },
        None => s1,
    }
}

/// Two references may touch the same bytes: they name views of the same storage that
/// are not known to be disjoint.
pub open spec fn storage_clash(k: Kernel, a: MemoryRef, b: MemoryRef) -> bool {
    match (find_index(k.buffers@, a.buffer_of()@), find_index(k.buffers@, b.buffer_of()@)) {
        (Some(i), Some(j)) => k.buffers@[i].ty.storage@ == k.buffers@[j].ty.storage@ && !disjoint(
            k.buffers@[i].ty,
            k.buffers@[j].ty,
        ),
        _ => false,
    }
}

/// Whether two references may touch the same bytes does not depend on their order.
pub proof fn lemma_clash_symmetric(k: Kernel, a: MemoryRef, b: MemoryRef)
    ensures
        storage_clash(k, a, b) == storage_clash(k, b, a),
{
    match (find_index(k.buffers@, a.buffer_of()@), find_index(k.buffers@, b.buffer_of()@)) {
        (Some(i), Some(j)) => crate::layout::lemma_disjoint_symmetric(k.buffers@[i].ty, k.buffers@[j].ty),
        _ => {},
    }
}

/// Some buffer bound to some pipeline is a view of `storage`.
pub open spec fn pipeline_owned(k: Kernel, storage: Seq<char>) -> bool {
    exists|p: int, j: int, b: int|
        0 <= p < k.pipelines@.len() && 0 <= j < k.pipelines@[p].buffers@.len() && 0 <= b
            < k.buffers@.len() && #[trigger] k.buffers@[b].id@ == #[trigger] k.pipelines@[p].buffers@[j].buffer@
            && k.buffers@[b].ty.storage@ == storage
}

/// `buffer` is bound to the pipeline named `pipeline`.
pub open spec fn bound_to(k: Kernel, pipeline: Seq<char>, buffer: Seq<char>) -> bool {
    exists|p: int, j: int|
        0 <= p < k.pipelines@.len() && 0 <= j < k.pipelines@[p].buffers@.len()
            && #[trigger] k.pipelines@[p].id@ == pipeline && #[trigger] k.pipelines@[p].buffers@[j].buffer@ == buffer
}

/// The findings of a leased reference against its ticket.
pub open spec fn spec_lease(
    st: State,
    c: Ctx,
    k: Kernel,
    node: Option<ScheduleNode>,
    buffer: BufferId,
    ticket: TicketId,
    write: bool,
) -> State {
    match get(c.tickets, ticket@) {
        Some(info) if !info.closed => {
            let s1 = if !(c.pipeline is Some && pipeline_of(c) == info.pipeline@) {
                with_error(st, node, DiagnosticCode::InvalidTicket, "ticket belongs to a different pipeline iteration"@)
            } else {
                st
            };
            let s2 = if !bound_to(k, info.pipeline@, buffer@) {
                with_error(s1, node, DiagnosticCode::InvalidTicket, "buffer is not bound to this ticket's pipeline"@)
            } else {
                s1
            };
            let expected = if write { TicketKind::Producer } else { TicketKind::Consumer };
            if info.kind != expected {
                with_error(s2, node, DiagnosticCode::InvalidTicket, "supported leases allow producer writes and consumer reads only"@)
            } else {
                s2
            }
        },
        _ => with_error(st, node, DiagnosticCode::InvalidTicket, "ticket is undefined or already closed"@),
    }
}

/// Findings of an access against each pending event, in event order: a write may
/// overlap a pending read, and any access may overlap a pending write.
pub open spec fn spec_pending_scan(
    st: State,
    k: Kernel,
    node: Option<ScheduleNode>,
    events: Seq<(EventId, Event)>,
    reference: MemoryRef,
    write: bool,
) -> State
    decreases events.len(),
{
    if events.len() == 0 {
        st
    } else {
        let s1 = spec_pending_scan(st, k, node, events.drop_last(), reference, write);
        let e = events.last().1;
        if e.ready {
            s1
        } else {
            let s2 = if write && exists|i: int| 0 <= i < reads_of(e).len() && storage_clash(k, #[trigger] reads_of(e)[i], reference) {
                with_error(s1, node, DiagnosticCode::PendingAccess, "write may overlap a pending async read"@)
            } else {
                s1
            };
            match e.writes {
                Some((dest, _)) => if storage_clash(k, MemoryRef::Buffer(dest), reference) {
                    with_error(s2, node, DiagnosticCode::PendingAccess, "access may overlap a pending async write"@)
                } else {
                    s2
                },
                None => s2,
            }
        }
    }
}

/// A memory reference: its buffer must be declared; writes need a mutable view; plain
/// references may not reach pipeline storage; leases must match a live ticket; pending
/// asynchronous accesses may not overlap. Yields the position of the buffer's declaration.
pub open spec fn spec_memory(
    st: State,
    c: Ctx,
    k: Kernel,
    node: Option<ScheduleNode>,
    reference: MemoryRef,
    write: bool,
) -> (State, Option<int>) {
    match find_index(k.buffers@, reference.buffer_of()@) {
        None => (with_error(st, node, DiagnosticCode::UnknownSymbol, "unknown buffer reference"@), None),
        Some(i) => {
            let b = k.buffers@[i];
            let s1 = if write && !b.ty.mutable {
                with_error(st, node, DiagnosticCode::InvalidResource, "write through a read-only buffer"@)
            } else {
                st
            };
            let s2 = match reference {
                MemoryRef::Buffer(_) => if pipeline_owned(k, b.ty.storage@) {
                    with_error(s1, node, DiagnosticCode::InvalidTicket, "pipeline storage must be accessed through a matching live ticket"@)
                } else {
                    s1
                },
                MemoryRef::Leased { buffer, ticket } => spec_lease(s1, c, k, node, buffer, ticket, write),
            };
            (spec_pending_scan(s2, k, node, c.events, reference, write), Some(i))
        },
    }
}

pub open spec fn protocol_message() -> Seq<char> {
    "async protocol operations require an unconditional PipelineFor body in the supported subset"@
}

/// Asynchronous protocol operations run unconditionally in a pipeline loop body.
pub open spec fn spec_protocol(st: State, c: Ctx, node: Option<ScheduleNode>) -> State {
    if c.pipeline is None || c.conditional {
        with_error(st, node, DiagnosticCode::UnsupportedSyntax, protocol_message())
    } else {
        st
    }
}

/// An accumulator operation names a declared accumulator and runs unconditionally in
/// its participant role.
pub open spec fn spec_accumulator(st: State, c: Ctx, k: Kernel, node: Option<ScheduleNode>, id: AccumulatorId) -> State {
    match find_index(k.accumulators@, id@) {
        None => with_error(st, node, DiagnosticCode::UnknownSymbol, "unknown accumulator"@),
        Some(i) => if !(c.role is Some && c.role->0@ == k.accumulators@[i].ty.participants@) || c.conditional {
            with_error(st, node, DiagnosticCode::InvalidParticipation, "accumulator operation must execute unconditionally in its participant role"@)
        } else {
            st
        },
    }
}

/// Reading an accumulator needs it initialized and without a pending update.
pub open spec fn spec_ready(st: State, c: Ctx, node: Option<ScheduleNode>, id: AccumulatorId) -> State {
    let s1 = if !has_key(c.initialized, id@) {
        with_error(st, node, DiagnosticCode::InvalidResource, "accumulator is not initialized"@)
    } else {
        st
    };
    if has_key(c.pending, id@) {
        with_error(s1, node, DiagnosticCode::PendingAccess, "accumulator has a pending update; await its event first"@)
    } else {
        s1
    }
}

/// A new completion event: its ID must be nonempty and new to the kernel.
pub open spec fn spec_event(st: State, c: Ctx, node: Option<ScheduleNode>, id: EventId, e: Event) -> (State, Ctx) {
    let s1 = if id@.len() == 0 || has_key(st.event_ids, id@) {
        with_error(st, node, DiagnosticCode::DuplicateSymbol, "event IDs must be nonempty and unique within a kernel"@)
    } else {
        State { event_ids: st.event_ids.push(id), ..st }
    };
    (s1, Ctx { events: put(c.events, id, e), ..c })
}

/// Opening a ticket of `kind` on `pipeline` at `iteration`.
pub open spec fn spec_acquire(
    st: State,
    c: Ctx,
    k: Kernel,
    node: Option<ScheduleNode>,
    pipeline: PipelineId,
    iteration: ValueId,
    ticket: TicketId,
    kind: TicketKind,
) -> (State, Ctx) {
    let s0 = spec_protocol(st, c, node);
    let s1 = spec_expect(s0, c, iteration, TypeRefV::Index, node);
    let s2 = if !(c.pipeline is Some && pipeline_of(c) == pipeline@ && iteration_of(c) == iteration@) {
        with_error(s1, node, DiagnosticCode::InvalidTicket, "ticket must use the enclosing pipeline and logical iteration"@)
    } else {
        s1
    };
    let s3 = match find_index(k.pipelines@, pipeline@) {
        Some(j) => {
            let p = k.pipelines@[j];
            let expected = if kind == TicketKind::Producer { p.producer } else { p.consumer };
            if !(c.role is Some && c.role->0@ == expected@) {
                with_error(s2, node, DiagnosticCode::InvalidParticipation, "pipeline ticket requested by the wrong role"@)
            } else {
                s2
            }
        },
        None => with_error(s2, node, DiagnosticCode::UnknownSymbol, "unknown pipeline"@),
    };
    let s4 = if ticket@.len() == 0 || has_key(s3.ticket_ids, ticket@) {
        with_error(s3, node, DiagnosticCode::DuplicateSymbol, "ticket IDs must be nonempty and unique within a kernel"@)
    } else {
        State { ticket_ids: s3.ticket_ids.push(ticket), ..s3 }
    };
    (s4, Ctx { tickets: put(c.tickets, ticket, Ticket { pipeline, kind, closed: false }), ..c })
}

/// The event is an unpublished write leased by `ticket`.
pub open spec fn publishable(e: Event, ticket: TicketId) -> bool {
    !e.published && e.writes is Some && writer_of(e) == ticket@
}

/// Publishing the first `n` listed events: each listed once, each an unpublished
/// write of this ticket, each to a different buffer; each becomes published.
pub open spec fn spec_publish_events(
    st: State,
    c: Ctx,
    node: Option<ScheduleNode>,
    ticket: TicketId,
    events: Seq<EventId>,
    n: int,
) -> (State, Ctx, Seq<BufferId>)
    decreases n,
{
    if n <= 0 || n > events.len() {
        (st, c, seq![])
    } else {
        let (s0, c0, w0) = spec_publish_events(st, c, node, ticket, events, n - 1);
        let id = events[n - 1];
        let s1 = if has_key(events.take(n - 1), id@) {
            with_error(s0, node, DiagnosticCode::InvalidPipeline, "publish lists an event more than once"@)
        } else {
            s0
        };
        match get(c0.events, id@) {
            Some(e) if publishable(e, ticket) => {
                let buffer = written_buffer(e);
                let s2 = if has_key(w0, buffer@) {
                    with_error(s1, node, DiagnosticCode::InvalidPipeline, "publish contains duplicate buffer writes"@)
                } else {
                    s1
                };
                (s2, Ctx { events: put(c0.events, id, Event { published: true, ..e }), ..c0 }, with_key(w0, buffer))
            },
            _ => (
                with_error(s1, node, DiagnosticCode::InvalidPipeline, "publish event must be an unpublished write owned by this ticket"@),
                c0,
                w0,
            ),
        }
    }
}

/// Publishing a producer ticket: it must be live; its events must cover every bound
/// buffer exactly once; the ticket closes. Publication transfers completion
/// responsibility and does not make the events ready locally.
pub open spec fn spec_publish(
    st: State,
    c: Ctx,
    k: Kernel,
    node: Option<ScheduleNode>,
    ticket: TicketId,
    events: Seq<EventId>,
) -> (State, Ctx) {
    let s0 = spec_protocol(st, c, node);
    match get(c.tickets, ticket@) {
        None => (with_error(s0, node, DiagnosticCode::InvalidTicket, "publish uses an undefined ticket"@), c),
        Some(info) => {
            let s1 = if info.closed || info.kind != TicketKind::Producer {
                with_error(s0, node, DiagnosticCode::InvalidTicket, "publish requires a live producer ticket"@)
            } else {
                s0
            };
            let (s2, c2, writes) = spec_publish_events(s1, c, node, ticket, events, events.len() as int);
            let s3 = match find_index(k.pipelines@, info.pipeline@) {
                Some(p) => if !same_keys(writes, k.pipelines@[p].buffers@) {
                    with_error(s2, node, DiagnosticCode::InvalidPipeline, "publish must cover every bound buffer exactly once"@)
                } else {
                    s2
                },
                None => s2,
            };
            (s3, Ctx { tickets: close_ticket(c2.tickets, ticket), ..c2 })
        },
    }
}

/// Marks the ticket closed, if present.
pub open spec fn close_ticket(s: Seq<(TicketId, Ticket)>, ticket: TicketId) -> Seq<(TicketId, Ticket)> {
    match get(s, ticket@) {
        Some(info) => put(s, ticket, Ticket { closed: true, ..info }),
        None => s,
    }
}

/// A pending event still reads through a lease of `ticket`.
pub open spec fn reads_lease(e: Event, ticket: TicketId) -> bool {
    !e.ready && exists|i: int|
        0 <= i < reads_of(e).len() && (#[trigger] reads_of(e)[i]) is Leased && reads_of(e)[i]->ticket@ == ticket@
}

/// Releasing a consumer ticket: it must be live, no pending read may use its slot; it closes.
pub open spec fn spec_release(st: State, c: Ctx, node: Option<ScheduleNode>, ticket: TicketId) -> (State, Ctx) {
    let s0 = spec_protocol(st, c, node);
    let s1 = match get(c.tickets, ticket@) {
        Some(info) if !info.closed && info.kind == TicketKind::Consumer => s0,
        _ => with_error(s0, node, DiagnosticCode::InvalidTicket, "release requires a live consumer ticket"@),
    };
    let s2 = if exists|i: int| 0 <= i < c.events.len() && reads_lease(#[trigger] c.events[i].1, ticket) {
        with_error(s1, node, DiagnosticCode::PendingAccess, "cannot release a slot while an async read still uses it"@)
    } else {
        s1
    };
    (s2, Ctx { tickets: close_ticket(c.tickets, ticket), ..c })
}

/// Awaiting an event of this region makes it ready and completes the accumulator
/// update it is pending for.
pub open spec fn spec_await(st: State, c: Ctx, node: Option<ScheduleNode>, event: EventId) -> (State, Ctx) {
    let s0 = spec_protocol(st, c, node);
    match get(c.events, event@) {
        None => (with_error(s0, node, DiagnosticCode::UnknownSymbol, "event is not defined in this role/iteration"@), c),
        Some(info) => {
            let c1 = Ctx { events: put(c.events, event, Event { ready: true, ..info }), ..c };
            let c2 = match info.accumulator {
                Some(a) => match get(c1.pending, a@) {
                    Some(e) => if e@ == event@ {
                        Ctx { pending: remove_key(c1.pending, a@), ..c1 }
                    } else {
                        c1
                    },
                    None => c1,
                },
                None => c1,
            };
            (s0, c2)
        },
    }
}

/// Four consecutive warps, the first a multiple of four.
pub open spec fn sqmma_group(w: Seq<u32>) -> bool {
    w.len() == 4 && w[0] % 4 == 0 && w[1] == w[0] + 1 && w[2] == w[1] + 1 && w[3] == w[2] + 1
}

pub fn literal_of(ctx: &Context, id: &ValueId) -> (r: Option<Literal>)
    ensures
        r == get(ctx@.literals, id@),
{
    match find(&ctx.literals, &id.0) {
        Some(i) => Some(ctx.literals[i].1),
        None => None,
    }
}

fn fold_literals(op: BinaryOp, a: u64, b: u64) -> (r: Option<Option<u64>>)
    ensures
        r == fold_index(op, a, b),
{
    match op {
        BinaryOp::Add => Some(a.checked_add(b)),
        BinaryOp::Sub => Some(a.checked_sub(b)),
        BinaryOp::Mul => Some(a.checked_mul(b)),
        BinaryOp::Div => Some(a.checked_div(b)),
        _ => None,
    }
}

fn is_numeric(t: &TypeRef) -> (r: bool)
    ensures
        r == numeric(t@),
{
    match t {
        TypeRef::Index => true,
        TypeRef::Scalar(d) => *d != DType::Bool,
        _ => false,
    }
}

fn result_type(op: BinaryOp, t: &TypeRef) -> (r: Option<TypeRef>)
    ensures
        match r {
            Some(x) => binary_result(op, t@) == Some(x@),
            None => binary_result(op, t@) is None,
        },
{
    let predicate = matches!(t, TypeRef::Predicate);
    match op {
        BinaryOp::And | BinaryOp::Or => if predicate {
            Some(TypeRef::Predicate)
        } else {
            None
        },
        BinaryOp::Equal => if is_numeric(t) || predicate {
            Some(TypeRef::Predicate)
        } else {
            None
        },
        BinaryOp::Less => if is_numeric(t) {
            Some(TypeRef::Predicate)
        } else {
            None
        },
        BinaryOp::Add | BinaryOp::Sub | BinaryOp::Mul | BinaryOp::Div => if is_numeric(t) {
            Some(t.dup())
        } else {
            None
        },
    }
}

/// The position of the first declaration of the buffer that a reference names.
pub fn buffer_position(kernel: &Kernel, reference: &MemoryRef) -> (r: Option<usize>)
    ensures
        crate::lookup::opt_index(r) == find_index(kernel.buffers@, reference.buffer_of()@),
{
    find(&kernel.buffers, &reference.buffer_id().0)
}

pub fn same_storage(kernel: &Kernel, a: &MemoryRef, b: &MemoryRef) -> (r: bool)
    ensures
        r == storage_clash(*kernel, *a, *b),
{
    match (buffer_position(kernel, a), buffer_position(kernel, b)) {
        (Some(i), Some(j)) => {
            let x = &kernel.buffers[i].ty;
            let y = &kernel.buffers[j].ty;
            x.storage.same(&y.storage) && !views_disjoint(x, y)
        },
        _ => false,
    }
}

fn owned_by_pipeline(kernel: &Kernel, storage: &crate::types::StorageId) -> (r: bool)
    ensures
        r == pipeline_owned(*kernel, storage@),
{
    let mut p: usize = 0;
    while p < kernel.pipelines.len()
        invariant
            p <= kernel.pipelines@.len(),
            forall|pp: int, j: int, b: int|
                0 <= pp < p && 0 <= j < kernel.pipelines@[pp].buffers@.len() && 0 <= b < kernel.buffers@.len()
                    && #[trigger] kernel.buffers@[b].id@ == #[trigger] kernel.pipelines@[pp].buffers@[j].buffer@
                    ==> kernel.buffers@[b].ty.storage@ != storage@,
        decreases kernel.pipelines@.len() - p,
    {
        let pipe = &kernel.pipelines[p];
        let mut j: usize = 0;
        while j < pipe.buffers.len()
            invariant
                p < kernel.pipelines@.len(),
                *pipe == kernel.pipelines@[p as int],
                j <= pipe.buffers@.len(),
                forall|pp: int, jj: int, b: int|
                    0 <= pp < p && 0 <= jj < kernel.pipelines@[pp].buffers@.len() && 0 <= b < kernel.buffers@.len()
                        && #[trigger] kernel.buffers@[b].id@ == #[trigger] kernel.pipelines@[pp].buffers@[jj].buffer@
                        ==> kernel.buffers@[b].ty.storage@ != storage@,
                forall|jj: int, b: int|
                    0 <= jj < j && 0 <= b < kernel.buffers@.len()
                        && #[trigger] kernel.buffers@[b].id@ == #[trigger] pipe.buffers@[jj].buffer@
                        ==> kernel.buffers@[b].ty.storage@ != storage@,
            decreases pipe.buffers@.len() - j,
        {
            let binding = &pipe.buffers[j];
            let mut b: usize = 0;
            while b < kernel.buffers.len()
                invariant
                    p < kernel.pipelines@.len(),
                    *pipe == kernel.pipelines@[p as int],
                    j < pipe.buffers@.len(),
                    *binding == pipe.buffers@[j as int],
                    b <= kernel.buffers@.len(),
                    forall|pp: int, jj: int, bb: int|
                        0 <= pp < p && 0 <= jj < kernel.pipelines@[pp].buffers@.len() && 0 <= bb < kernel.buffers@.len()
                            && #[trigger] kernel.buffers@[bb].id@ == #[trigger] kernel.pipelines@[pp].buffers@[jj].buffer@
                            ==> kernel.buffers@[bb].ty.storage@ != storage@,
                    forall|jj: int, bb: int|
                        0 <= jj < j && 0 <= bb < kernel.buffers@.len()
                            && #[trigger] kernel.buffers@[bb].id@ == #[trigger] pipe.buffers@[jj].buffer@
                            ==> kernel.buffers@[bb].ty.storage@ != storage@,
                    forall|bb: int|
                        0 <= bb < b && #[trigger] kernel.buffers@[bb].id@ == binding.buffer@
                            ==> kernel.buffers@[bb].ty.storage@ != storage@,
                decreases kernel.buffers@.len() - b,
            {
                let decl = &kernel.buffers[b];
                if decl.id.same(&binding.buffer) && decl.ty.storage.same(storage) {
                    assert(kernel.buffers@[b as int].id@ == kernel.pipelines@[p as int].buffers@[j as int].buffer@);
                    return true;
                }
                b = b + 1;
            }
            j = j + 1;
        }
        p = p + 1;
    }
    false
}

fn is_bound(kernel: &Kernel, pipeline: &PipelineId, buffer: &BufferId) -> (r: bool)
    ensures
        r == bound_to(*kernel, pipeline@, buffer@),
{
    let mut p: usize = 0;
    while p < kernel.pipelines.len()
        invariant
            p <= kernel.pipelines@.len(),
            forall|pp: int, j: int|
                0 <= pp < p && 0 <= j < kernel.pipelines@[pp].buffers@.len()
                    && #[trigger] kernel.pipelines@[pp].id@ == pipeline@
                    ==> #[trigger] kernel.pipelines@[pp].buffers@[j].buffer@ != buffer@,
        decreases kernel.pipelines@.len() - p,
    {
        let pipe = &kernel.pipelines[p];
        if pipe.id.same(pipeline) {
            match find(&pipe.buffers, &buffer.0) {
                Some(j) => {
                    assert(kernel.pipelines@[p as int].buffers@[j as int].buffer@ == buffer@) by {
                        lemma_found(pipe.buffers@, buffer@);
                    }
                    return true;
                },
                None => {
                    proof {
                        crate::lookup::lemma_has_key(pipe.buffers@, buffer@);
                        assert forall|j: int| 0 <= j < pipe.buffers@.len() implies #[trigger] pipe.buffers@[j].buffer@ != buffer@ by {
                            if pipe.buffers@[j].buffer@ == buffer@ {
                                assert(pipe.buffers@[j].key() == buffer@);
                            }
                        }
                    }
                },
            }
        }
        p = p + 1;
    }
    false
}

impl<'a> Checker<'a> {
    pub fn binary(
        &mut self,
        ctx: &mut Context,
        node: &ScheduleNode,
        op: BinaryOp,
        lhs: &ValueId,
        rhs: &ValueId,
        result: &ValueDef,
    )
        ensures
            (final(self)@, final(ctx)@) == spec_binary(old(self)@, old(ctx)@, Some(*node), op, *lhs, *rhs, *result),
            final(self).kernel == old(self).kernel,
    {
        proof {
            lemma_types_view_keys(ctx.values@, lhs@);
        }
        let i = match find(&ctx.values, &lhs.0) {
            Some(i) => i,
            None => return,
        };
        let expected = {
            let ty = &ctx.values[i].1;
            self.expect(ctx, rhs, ty, Some(node));
            result_type(op, ty)
        };
        let mismatch = match &expected {
            Some(t) => !t.same(&result.ty),
            None => true,
        };
        if mismatch {
            self.error(Some(node), DiagnosticCode::InvalidType, text("invalid binary operand or result types"));
        }
        let rhs_literal = literal_of(ctx, rhs);
        let lhs_literal = literal_of(ctx, lhs);
        if contains(&ctx.uniform, &lhs.0) && contains(&ctx.uniform, &rhs.0) {
            add_key(&mut ctx.uniform, result.id.dup());
        }
        if op == BinaryOp::Div && (rhs_literal == Some(Literal::Index(0)) || rhs_literal == Some(Literal::Integer(0))) {
            self.error(Some(node), DiagnosticCode::InvalidType, text("division by zero"));
        }
        match (lhs_literal, rhs_literal) {
            (Some(Literal::Index(a)), Some(Literal::Index(b))) => match fold_literals(op, a, b) {
                Some(Some(v)) => {
                    put_entry(&mut ctx.literals, result.id.dup(), Literal::Index(v));
                },
                Some(None) => {
                    self.error(Some(node), DiagnosticCode::InvalidType, text("constant index arithmetic overflows or divides by zero"));
                },
                None => {},
            },
            _ => {},
        }
    }

    pub fn access_indices(&mut self, ctx: &Context, node: &ScheduleNode, indices: &Vec<ValueId>, buffer: Option<&BufferDecl>)
        ensures
            final(self)@ == spec_access_indices(old(self)@, ctx@, Some(*node), indices@, node_of_buffer(buffer)),
            final(self).kernel == old(self).kernel,
    {
        self.expect_all(ctx, indices, &TypeRef::Index, Some(node));
        match buffer {
            Some(b) => {
                if indices.len() != b.ty.shape.len() {
                    self.error(Some(node), DiagnosticCode::InvalidType, text("access index count must match buffer rank"));
                }
            },
            None => {},
        }
    }

    fn lease(&mut self, ctx: &Context, node: &ScheduleNode, buffer: &BufferId, ticket: &TicketId, write: bool)
        ensures
            final(self)@ == spec_lease(old(self)@, ctx@, *old(self).kernel, Some(*node), *buffer, *ticket, write),
            final(self).kernel == old(self).kernel,
    {
        let kernel = self.kernel;
        match find(&ctx.tickets, &ticket.0) {
            Some(t) if !ctx.tickets[t].1.closed => {
                let info = &ctx.tickets[t].1;
                let same_pipeline = match &ctx.pipeline {
                    Some((p, _)) => p.same(&info.pipeline),
                    None => false,
                };
                if !same_pipeline {
                    self.error(Some(node), DiagnosticCode::InvalidTicket, text("ticket belongs to a different pipeline iteration"));
                }
                if !is_bound(kernel, &info.pipeline, buffer) {
                    self.error(Some(node), DiagnosticCode::InvalidTicket, text("buffer is not bound to this ticket's pipeline"));
                }
                let expected = if write { TicketKind::Producer } else { TicketKind::Consumer };
                if info.kind != expected {
                    self.error(Some(node), DiagnosticCode::InvalidTicket, text("supported leases allow producer writes and consumer reads only"));
                }
            },
            _ => self.error(Some(node), DiagnosticCode::InvalidTicket, text("ticket is undefined or already closed")),
        }
    }

    fn pending_scan(&mut self, ctx: &Context, node: &ScheduleNode, reference: &MemoryRef, write: bool)
        ensures
            final(self)@ == spec_pending_scan(old(self)@, *old(self).kernel, Some(*node), ctx@.events, *reference, write),
            final(self).kernel == old(self).kernel,
    {
        let kernel = self.kernel;
        let mut i: usize = 0;
        while i < ctx.events.len()
            invariant
                i <= ctx.events@.len(),
                kernel == old(self).kernel,
                self.kernel == kernel,
                self@ == spec_pending_scan(old(self)@, *kernel, Some(*node), ctx@.events.take(i as int), *reference, write),
            decreases ctx.events@.len() - i,
        {
            proof {
                assert(ctx@.events.take(i + 1).drop_last() =~= ctx@.events.take(i as int));
            }
            let e = &ctx.events[i].1;
            if !e.ready {
                if write {
                    let first = same_storage(kernel, &e.reads.0, reference);
                    let second = match &e.reads.1 {
                        Some(r) => same_storage(kernel, r, reference),
                        None => false,
                    };
                    proof {
                        let rs = reads_of(*e);
                        if first {
                            assert(storage_clash(*kernel, rs[0], *reference));
                        }
                        if second {
                            assert(storage_clash(*kernel, rs[1], *reference));
                        }
                        if exists|j: int| 0 <= j < rs.len() && storage_clash(*kernel, #[trigger] rs[j], *reference) {
                            let j = choose|j: int| 0 <= j < rs.len() && storage_clash(*kernel, #[trigger] rs[j], *reference);
                            assert(j == 0 || j == 1);
                        }
                    }
                    if first || second {
                        self.error(Some(node), DiagnosticCode::PendingAccess, text("write may overlap a pending async read"));
                    }
                }
                match &e.writes {
                    Some((dest, _)) => {
                        let target = MemoryRef::Buffer(dest.dup());
                        if same_storage(kernel, &target, reference) {
                            self.error(Some(node), DiagnosticCode::PendingAccess, text("access may overlap a pending async write"));
                        }
                    },
                    None => {},
                }
            }
            i = i + 1;
        }
        assert(ctx@.events.take(ctx@.events.len() as int) =~= ctx@.events);
    }

    /// The checks of a memory reference; yields the position of its buffer declaration.
    pub fn memory(&mut self, ctx: &Context, node: &ScheduleNode, reference: &MemoryRef, write: bool) -> (r: Option<usize>)
        ensures
            (final(self)@, crate::lookup::opt_index(r)) == spec_memory(old(self)@, ctx@, *old(self).kernel, Some(*node), *reference, write),
            r matches Some(i) ==> i < old(self).kernel.buffers@.len(),
            final(self).kernel == old(self).kernel,
    {
        let kernel = self.kernel;
        let i = match buffer_position(kernel, reference) {
            Some(i) => i,
            None => {
                self.error(Some(node), DiagnosticCode::UnknownSymbol, text("unknown buffer reference"));
                return None;
            },
        };
        proof {
            lemma_found(kernel.buffers@, reference.buffer_of()@);
        }
        let buffer = &kernel.buffers[i];
        if write && !buffer.ty.mutable {
            self.error(Some(node), DiagnosticCode::InvalidResource, text("write through a read-only buffer"));
        }
        match reference {
            MemoryRef::Buffer(_) => {
                if owned_by_pipeline(kernel, &buffer.ty.storage) {
                    self.error(Some(node), DiagnosticCode::InvalidTicket, text("pipeline storage must be accessed through a matching live ticket"));
                }
            },
            MemoryRef::Leased { buffer: id, ticket } => self.lease(ctx, node, id, ticket, write),
        }
        self.pending_scan(ctx, node, reference, write);
        Some(i)
    }

    pub fn protocol_context(&mut self, ctx: &Context, node: &ScheduleNode)
        ensures
            final(self)@ == spec_protocol(old(self)@, ctx@, Some(*node)),
            final(self).kernel == old(self).kernel,
    {
        if ctx.pipeline.is_none() || ctx.conditional {
            self.error(Some(node), DiagnosticCode::UnsupportedSyntax, text("async protocol operations require an unconditional PipelineFor body in the supported subset"));
        }
    }

    pub fn accumulator(&mut self, ctx: &Context, node: &ScheduleNode, id: &AccumulatorId)
        ensures
            final(self)@ == spec_accumulator(old(self)@, ctx@, *old(self).kernel, Some(*node), *id),
            final(self).kernel == old(self).kernel,
    {
        let kernel = self.kernel;
        match find(&kernel.accumulators, &id.0) {
            None => self.error(Some(node), DiagnosticCode::UnknownSymbol, text("unknown accumulator")),
            Some(i) => {
                let in_role = match &ctx.role {
                    Some(r) => r.same(&kernel.accumulators[i].ty.participants),
                    None => false,
                };
                if !in_role || ctx.conditional {
                    self.error(Some(node), DiagnosticCode::InvalidParticipation, text("accumulator operation must execute unconditionally in its participant role"));
                }
            },
        }
    }

    pub fn ready_accumulator(&mut self, ctx: &Context, node: &ScheduleNode, id: &AccumulatorId)
        ensures
            final(self)@ == spec_ready(old(self)@, ctx@, Some(*node), *id),
            final(self).kernel == old(self).kernel,
    {
        if !contains(&ctx.initialized, &id.0) {
            self.error(Some(node), DiagnosticCode::InvalidResource, text("accumulator is not initialized"));
        }
        if contains(&ctx.pending_accumulators, &id.0) {
            self.error(Some(node), DiagnosticCode::PendingAccess, text("accumulator has a pending update; await its event first"));
        }
    }

    pub fn event(&mut self, ctx: &mut Context, node: &ScheduleNode, id: &EventId, event: Event)
        ensures
            (final(self)@, final(ctx)@) == spec_event(old(self)@, old(ctx)@, Some(*node), *id, event),
            final(self).kernel == old(self).kernel,
    {
        if id.is_empty() || contains(&self.event_definitions, &id.0) {
            self.error(Some(node), DiagnosticCode::DuplicateSymbol, text("event IDs must be nonempty and unique within a kernel"));
        } else {
            self.event_definitions.push(id.dup());
        }
        put_entry(&mut ctx.events, id.dup(), event);
    }

    pub fn acquire(
        &mut self,
        ctx: &mut Context,
        node: &ScheduleNode,
        pipeline: &PipelineId,
        iteration: &ValueId,
        ticket: &TicketId,
        kind: TicketKind,
    )
        ensures
            (final(self)@, final(ctx)@) == spec_acquire(old(self)@, old(ctx)@, *old(self).kernel, Some(*node), *pipeline, *iteration, *ticket, kind),
            final(self).kernel == old(self).kernel,
    {
        let kernel = self.kernel;
        self.protocol_context(ctx, node);
        self.expect(ctx, iteration, &TypeRef::Index, Some(node));
        let enclosing = match &ctx.pipeline {
            Some((p, i)) => p.same(pipeline) && i.same(iteration),
            None => false,
        };
        if !enclosing {
            self.error(Some(node), DiagnosticCode::InvalidTicket, text("ticket must use the enclosing pipeline and logical iteration"));
        }
        match find(&kernel.pipelines, &pipeline.0) {
            Some(j) => {
                let pipe = &kernel.pipelines[j];
                let expected = if kind == TicketKind::Producer { &pipe.producer } else { &pipe.consumer };
                let right_role = match &ctx.role {
                    Some(r) => r.same(expected),
                    None => false,
                };
                if !right_role {
                    self.error(Some(node), DiagnosticCode::InvalidParticipation, text("pipeline ticket requested by the wrong role"));
                }
            },
            None => self.error(Some(node), DiagnosticCode::UnknownSymbol, text("unknown pipeline")),
        }
        if ticket.is_empty() || contains(&self.ticket_definitions, &ticket.0) {
            self.error(Some(node), DiagnosticCode::DuplicateSymbol, text("ticket IDs must be nonempty and unique within a kernel"));
        } else {
            self.ticket_definitions.push(ticket.dup());
        }
        put_entry(&mut ctx.tickets, ticket.dup(), Ticket { pipeline: pipeline.dup(), kind, closed: false });
    }

    fn close(ctx: &mut Context, ticket: &TicketId)
        ensures
            final(ctx)@ == (Ctx { tickets: close_ticket(old(ctx)@.tickets, *ticket), ..old(ctx)@ }),
    {
        match find(&ctx.tickets, &ticket.0) {
            Some(t) => {
                let info = ctx.tickets[t].1.dup();
                put_entry(&mut ctx.tickets, ticket.dup(), Ticket { closed: true, ..info });
            },
            None => {},
        }
        assert(final(ctx)@.values == old(ctx)@.values);
    }

    pub fn publish(&mut self, ctx: &mut Context, node: &ScheduleNode, ticket: &TicketId, events: &Vec<EventId>)
        ensures
            (final(self)@, final(ctx)@) == spec_publish(old(self)@, old(ctx)@, *old(self).kernel, Some(*node), *ticket, events@),
            final(self).kernel == old(self).kernel,
    {
        let kernel = self.kernel;
        self.protocol_context(ctx, node);
        let info = match find(&ctx.tickets, &ticket.0) {
            Some(t) => ctx.tickets[t].1.dup(),
            None => {
                self.error(Some(node), DiagnosticCode::InvalidTicket, text("publish uses an undefined ticket"));
                return;
            },
        };
        if info.closed || info.kind != TicketKind::Producer {
            self.error(Some(node), DiagnosticCode::InvalidTicket, text("publish requires a live producer ticket"));
        }
        let ghost s1 = self@;
        let ghost c1 = ctx@;
        let mut writes: Vec<BufferId> = Vec::new();
        let mut i: usize = 0;
        while i < events.len()
            invariant
                i <= events@.len(),
                kernel == old(self).kernel,
                self.kernel == kernel,
                (self@, ctx@, writes@) == spec_publish_events(s1, c1, Some(*node), *ticket, events@, i as int),
            decreases events@.len() - i,
        {
            let id = &events[i];
            if key_in_prefix(events, i, &id.0) {
                self.error(Some(node), DiagnosticCode::InvalidPipeline, text("publish lists an event more than once"));
            }
            let found = find(&ctx.events, &id.0);
            let ok = match found {
                Some(e) => {
                    let ev = &ctx.events[e].1;
                    !ev.published && match &ev.writes {
                        Some((_, owner)) => owner.same(ticket),
                        None => false,
                    }
                },
                None => false,
            };
            if ok {
                let e = found.unwrap();
                let ev = ctx.events[e].1.dup();
                let buffer = match &ev.writes {
                    Some((b, _)) => b.dup(),
                    None => BufferId(String::new()),
                };
                if contains(&writes, &buffer.0) {
                    self.error(Some(node), DiagnosticCode::InvalidPipeline, text("publish contains duplicate buffer writes"));
                }
                add_key(&mut writes, buffer);
                put_entry(&mut ctx.events, id.dup(), Event { published: true, ..ev });
            } else {
                self.error(Some(node), DiagnosticCode::InvalidPipeline, text("publish event must be an unpublished write owned by this ticket"));
            }
            i = i + 1;
        }
        match find(&kernel.pipelines, &info.pipeline.0) {
            Some(p) => {
                if !same_key_lists(&writes, &kernel.pipelines[p].buffers) {
                    self.error(Some(node), DiagnosticCode::InvalidPipeline, text("publish must cover every bound buffer exactly once"));
                }
            },
            None => {},
        }
        Self::close(ctx, ticket);
    }

    pub fn release(&mut self, ctx: &mut Context, node: &ScheduleNode, ticket: &TicketId)
        ensures
            (final(self)@, final(ctx)@) == spec_release(old(self)@, old(ctx)@, Some(*node), *ticket),
            final(self).kernel == old(self).kernel,
    {
        self.protocol_context(ctx, node);
        let live = match find(&ctx.tickets, &ticket.0) {
            Some(t) => !ctx.tickets[t].1.closed && ctx.tickets[t].1.kind == TicketKind::Consumer,
            None => false,
        };
        if !live {
            self.error(Some(node), DiagnosticCode::InvalidTicket, text("release requires a live consumer ticket"));
        }
        let mut busy = false;
        let mut i: usize = 0;
        while i < ctx.events.len()
            invariant
                i <= ctx.events@.len(),
                busy == exists|j: int| 0 <= j < i && reads_lease(#[trigger] ctx@.events[j].1, *ticket),
            decreases ctx.events@.len() - i,
        {
            let e = &ctx.events[i].1;
            let first = match &e.reads.0 {
                MemoryRef::Leased { ticket: owner, .. } => owner.same(ticket),
                _ => false,
            };
            let second = match &e.reads.1 {
                Some(MemoryRef::Leased { ticket: owner, .. }) => owner.same(ticket),
                _ => false,
            };
            proof {
                let rs = reads_of(*e);
                if first {
                    assert(rs[0] is Leased && rs[0]->ticket@ == ticket@);
                }
                if second {
                    assert(rs[1] is Leased && rs[1]->ticket@ == ticket@);
                }
                if exists|j: int| 0 <= j < rs.len() && (#[trigger] rs[j]) is Leased && rs[j]->ticket@ == ticket@ {
                    let j = choose|j: int| 0 <= j < rs.len() && (#[trigger] rs[j]) is Leased && rs[j]->ticket@ == ticket@;
                    assert(j == 0 || j == 1);
                }
                assert(reads_lease(*e, *ticket) == (!e.ready && (first || second)));
            }
            let hit = !e.ready && (first || second);
            proof {
                assert(ctx@.events[i as int].1 == *e);
                if !hit && busy {
                    let j = choose|j: int| 0 <= j < i && reads_lease(#[trigger] ctx@.events[j].1, *ticket);
                    assert(0 <= j < i + 1);
                }
                if !busy && !hit {
                    assert forall|j: int| 0 <= j < i + 1 implies !reads_lease(#[trigger] ctx@.events[j].1, *ticket) by {
                        if j < i {
                        }
                    }
                }
            }
            if hit {
                busy = true;
            }
            i = i + 1;
        }
        if busy {
            self.error(Some(node), DiagnosticCode::PendingAccess, text("cannot release a slot while an async read still uses it"));
        }
        Self::close(ctx, ticket);
    }

    pub fn await_event(&mut self, ctx: &mut Context, node: &ScheduleNode, event: &EventId)
        ensures
            (final(self)@, final(ctx)@) == spec_await(old(self)@, old(ctx)@, Some(*node), *event),
            final(self).kernel == old(self).kernel,
    {
        self.protocol_context(ctx, node);
        match find(&ctx.events, &event.0) {
            None => self.error(Some(node), DiagnosticCode::UnknownSymbol, text("event is not defined in this role/iteration")),
            Some(e) => {
                let info = ctx.events[e].1.dup();
                let accumulator = info.accumulator.dup();
                put_entry(&mut ctx.events, event.dup(), Event { ready: true, ..info });
                match accumulator {
                    Some(a) => {
                        let pending_here = match find(&ctx.pending_accumulators, &a.0) {
                            Some(p) => ctx.pending_accumulators[p].1.same(event),
                            None => false,
                        };
                        if pending_here {
                            remove_entry(&mut ctx.pending_accumulators, &a.0);
                        }
                    },
                    None => {},
                }
            },
        }
    }
}

pub open spec fn node_of_buffer(b: Option<&BufferDecl>) -> Option<BufferDecl> {
    match b {
        Some(x) => Some(*x),
        None => None,
    }
}

} // verus!
