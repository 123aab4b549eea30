//! The checks of structured regions: node by node, with nested branches, loops,
//! pipeline loops and concurrent role regions.
use crate::ast::{
    CarriedValue, Kernel, Literal, Region, RoleRegion, ScheduleNode, ScheduleNodeKind, ValueDef,
};
use crate::checker::{Checker, Context, Ctx, State, spec_define, spec_expect, with_error};
use crate::diagnostic::DiagnosticCode;
use crate::lookup::{Dup, add_key, contains, find, find_index, get, has_key, same_keys, with_key};
use crate::nodes::{
    Ending, EndingV, is_nested, spec_defines, spec_flat, spec_node_id, spec_operands, types_of,
};
use crate::text::text;
use crate::types::{PipelineId, RoleId, Scope, TypeRef, TypeRefV, ValueId};
use vstd::prelude::*;

verus! {

/// The last node of a region, if any.
pub open spec fn last_node(body: Seq<ScheduleNode>) -> Option<ScheduleNode> {
    if body.len() > 0 {
        Some(body.last())
    } else {
        None
    }
}

/// The kernel body ends with `KernelReturn`; a structured value region ends with `Yield`.
pub open spec fn spec_region_end(st: State, body: Seq<ScheduleNode>, ending: EndingV) -> State {
    match ending {
        EndingV::Kernel => if !(body.len() > 0 && body.last().kind is KernelReturn) {
            with_error(st, last_node(body), DiagnosticCode::InvalidControlFlow, "kernel must end with KernelReturn"@)
        } else {
            st
        },
        EndingV::Yield(_) => if !(body.len() > 0 && body.last().kind is Yield) {
            with_error(st, last_node(body), DiagnosticCode::InvalidControlFlow, "structured value region must end with Yield"@)
        } else {
            st
        },
        _ => st,
    }
}

/// The types of a list of definitions.
pub open spec fn def_types(defs: Seq<ValueDef>) -> Seq<TypeRefV> {
    defs.map_values(|d: ValueDef| d.ty@)
}

/// The types of the results of loop-carried values.
pub open spec fn carried_types(items: Seq<CarriedValue>) -> Seq<TypeRefV> {
    items.map_values(|c: CarriedValue| c.result.ty@)
}

/// The step is a known positive index literal.
pub open spec fn positive_step(c: Ctx, step: ValueId) -> bool {
    get(c.literals, step@) matches Some(Literal::Index(v)) && v > 0
}

/// Each loop-carried value: its initial value has the argument type, the argument and
/// result types agree, and the argument is defined in the loop body's context.
pub open spec fn spec_carried(st: State, c: Ctx, child: Ctx, n: ScheduleNode, items: Seq<CarriedValue>) -> (State, Ctx)
    decreases items.len(),
{
    if items.len() == 0 {
        (st, child)
    } else {
        let (s0, ch0) = spec_carried(st, c, child, n, items.drop_last());
        let item = items.last();
        let s1 = spec_expect(s0, c, item.initial, item.argument.ty@, Some(n));
        let s2 = if item.argument.ty@ != item.result.ty@ {
            with_error(s1, Some(n), DiagnosticCode::InvalidType, "loop-carried argument and result types differ"@)
        } else {
            s1
        };
        spec_define(s2, ch0, item.argument, Some(n))
    }
}

/// The checks of a `For` before its body, and the context its body runs in.
pub open spec fn spec_for_head(
    st: State,
    c: Ctx,
    n: ScheduleNode,
    lower: ValueId,
    upper: ValueId,
    step: ValueId,
    induction: ValueDef,
    carried: Seq<CarriedValue>,
) -> (State, Ctx) {
    let s1 = spec_expect(st, c, lower, TypeRefV::Index, Some(n));
    let s2 = spec_expect(s1, c, upper, TypeRefV::Index, Some(n));
    let s3 = spec_expect(s2, c, step, TypeRefV::Index, Some(n));
    let s4 = if !positive_step(c, step) {
        with_error(s3, Some(n), DiagnosticCode::UnsupportedSyntax, "the supported For subset requires a constant positive index step"@)
    } else {
        s3
    };
    let child0 = Ctx { conditional: true, ..c };
    let s5 = if induction.ty@ != TypeRefV::Index {
        with_error(s4, Some(n), DiagnosticCode::InvalidType, "For induction must be Index"@)
    } else {
        s4
    };
    let (s6, child1) = spec_define(s5, child0, induction, Some(n));
    let child2 = if has_key(c.uniform, lower@) && has_key(c.uniform, upper@) && has_key(c.uniform, step@) {
        Ctx { uniform: with_key(child1.uniform, induction.id), ..child1 }
    } else {
        child1
    };
    spec_carried(s6, c, child2, n, carried)
}

/// The checks of a `PipelineFor` before its body: the state after them, the enclosing
/// context (which records the loop), and the context the body runs in, unless the
/// pipeline is unknown.
pub open spec fn spec_pipeline_head(
    st: State,
    c: Ctx,
    k: Kernel,
    n: ScheduleNode,
    pipeline: PipelineId,
    iteration: ValueDef,
) -> (State, Ctx, Option<Ctx>) {
    let s1 = if c.pipeline is Some || c.role is None || c.conditional {
        with_error(st, Some(n), DiagnosticCode::InvalidPipeline, "PipelineFor must be unconditional and directly inside a role"@)
    } else {
        st
    };
    match find_index(k.pipelines@, pipeline@) {
        None => (with_error(s1, Some(n), DiagnosticCode::UnknownSymbol, "unknown pipeline"@), c, None),
        Some(j) => {
            let p = k.pipelines@[j];
            let s2 = if !(c.role is Some && (c.role->0@ == p.producer@ || c.role->0@ == p.consumer@)) {
                with_error(s1, Some(n), DiagnosticCode::InvalidParticipation, "PipelineFor must execute in its producer or consumer role"@)
            } else {
                s1
            };
            let s3 = if has_key(c.loops, pipeline@) {
                with_error(s2, Some(n), DiagnosticCode::InvalidPipeline, "a role may execute each pipeline only once"@)
            } else {
                s2
            };
            let loops = with_key(c.loops, pipeline);
            let s4 = if exists|i: int| 0 <= i < loops.len() && (#[trigger] loops[i])@ != pipeline@ {
                with_error(s3, Some(n), DiagnosticCode::UnsupportedSyntax, "multiple pipelines per role require a dependency/deadlock analysis that is not implemented"@)
            } else {
                s3
            };
            let parent = Ctx { loops, ..c };
            let child0 = Ctx { pipeline: Some((pipeline, iteration.id)), tickets: seq![], events: seq![], ..parent };
            let s5 = if iteration.ty@ != TypeRefV::Index {
                with_error(s4, Some(n), DiagnosticCode::InvalidType, "pipeline iteration must be Index"@)
            } else {
                s4
            };
            let (s6, child1) = spec_define(s5, child0, iteration, Some(n));
            (s6, parent, Some(Ctx { uniform: with_key(child1.uniform, iteration.id), ..child1 }))
        },
    }
}

/// After a pipeline loop body: exactly one ticket, closed and of this pipeline, and no
/// completion left neither awaited nor published, nor a pending accumulator update.
pub open spec fn spec_pipeline_tail(st: State, done: Ctx, n: ScheduleNode, pipeline: PipelineId) -> State {
    let s1 = if done.tickets.len() != 1 || exists|i: int|
        0 <= i < done.tickets.len() && (!(#[trigger] done.tickets[i]).1.closed || done.tickets[i].1.pipeline@
            != pipeline@) {
        with_error(st, Some(n), DiagnosticCode::InvalidTicket, "every pipeline iteration must open and close exactly one role ticket"@)
    } else {
        st
    };
    if (exists|i: int| 0 <= i < done.events.len() && !(#[trigger] done.events[i]).1.ready && !done.events[i].1.published)
        || done.pending.len() != 0 {
        with_error(s1, Some(n), DiagnosticCode::PendingAccess, "pipeline iteration leaves an unobserved or unpublished async completion"@)
    } else {
        s1
    }
}

/// `ConcurrentRoles` stands at top level, outside any role, pipeline or condition, with
/// at least one role region and a block join.
pub open spec fn spec_concurrent_head(st: State, c: Ctx, n: ScheduleNode, count: nat, join: Scope) -> State {
    if c.role is Some || c.pipeline is Some || c.conditional || join != Scope::Block || count == 0 {
        with_error(st, Some(n), DiagnosticCode::InvalidParticipation, "ConcurrentRoles requires nonempty top-level role regions and a block join"@)
    } else {
        st
    }
}

/// The warps of a role, each claimed for this group: a warp claimed before is an error.
pub open spec fn spec_warp_claims(st: State, n: ScheduleNode, ws: Seq<u32>, seen: Seq<u32>) -> (State, Seq<u32>)
    decreases ws.len(),
{
    if ws.len() == 0 {
        (st, seen)
    } else {
        let (s0, seen0) = spec_warp_claims(st, n, ws.drop_last(), seen);
        let w = ws.last();
        if seen0.contains(w) {
            (with_error(s0, Some(n), DiagnosticCode::InvalidParticipation, "concurrent roles must have disjoint warps"@), seen0)
        } else {
            (s0, seen0.push(w))
        }
    }
}

/// A participant of a concurrent group: it appears once, it is declared, and its warps
/// are disjoint from those of earlier participants.
pub open spec fn spec_participant(
    st: State,
    k: Kernel,
    n: ScheduleNode,
    role: RoleId,
    participants: Seq<RoleId>,
    warps: Seq<u32>,
) -> (State, Seq<RoleId>, Seq<u32>) {
    let s1 = if has_key(participants, role@) {
        with_error(st, Some(n), DiagnosticCode::InvalidParticipation, "role appears twice in ConcurrentRoles"@)
    } else {
        st
    };
    let ps = with_key(participants, role);
    match find_index(k.roles@, role@) {
        Some(i) => {
            let (s2, ws) = spec_warp_claims(s1, n, k.roles@[i].warps@, warps);
            (s2, ps, ws)
        },
        None => (with_error(s1, Some(n), DiagnosticCode::UnknownSymbol, "unknown concurrent role"@), ps, warps),
    }
}

/// A role region ends having drained every pipeline it looped over, with no pending
/// accumulator update.
pub open spec fn spec_role_exit(st: State, done: Ctx, n: ScheduleNode) -> State {
    let s1 = if !same_keys(done.loops, done.drained) {
        with_error(st, Some(n), DiagnosticCode::InvalidPipeline, "each role must drain every pipeline before the block join"@)
    } else {
        st
    };
    if done.pending.len() != 0 {
        with_error(s1, Some(n), DiagnosticCode::PendingAccess, "role exits with a pending accumulator update"@)
    } else {
        s1
    }
}

/// The pipelines of `loops` not yet in `order`, appended in order.
pub open spec fn add_order(order: Seq<PipelineId>, loops: Seq<PipelineId>) -> Seq<PipelineId>
    decreases loops.len(),
{
    if loops.len() == 0 {
        order
    } else {
        with_key(add_order(order, loops.drop_last()), loops.last())
    }
}

/// What a concurrent group has gathered after some of its role regions: the state, the
/// participants and warps so far, each (pipeline, role) loop executed, and the pipelines
/// in the order they were first executed.
pub struct RolesAcc {
    pub state: State,
    pub participants: Seq<RoleId>,
    pub warps: Seq<u32>,
    pub pairs: Seq<(PipelineId, RoleId)>,
    pub order: Seq<PipelineId>,
}

pub open spec fn uses_of(loops: Seq<PipelineId>, role: RoleId) -> Seq<(PipelineId, RoleId)> {
    loops.map_values(|p: PipelineId| (p, role))
}

/// The role regions of a concurrent group, in order; each runs in its role from the
/// enclosing context with no pipeline loop yet.
pub open spec fn spec_roles(st: State, c: Ctx, k: Kernel, n: ScheduleNode, roles: Seq<RoleRegion>) -> RolesAcc
    decreases roles, 1nat,
{
    if roles.len() == 0 {
        RolesAcc { state: st, participants: seq![], warps: seq![], pairs: seq![], order: seq![] }
    } else {
        let acc = spec_roles(st, c, k, n, roles.drop_last());
        let r = roles.last();
        let (s1, participants, warps) = spec_participant(acc.state, k, n, r.role, acc.participants, acc.warps);
        let child = Ctx { role: Some(r.role), loops: seq![], drained: seq![], ..c };
        let (s2, done) = spec_region(s1, child, k, r.body@, EndingV::Role);
        RolesAcc {
            state: spec_role_exit(s2, done, n),
            participants,
            warps,
            pairs: acc.pairs + uses_of(done.loops, r.role),
            order: add_order(acc.order, done.loops),
        }
    }
}

/// The roles that executed pipeline `id` are exactly its producer and its consumer.
pub open spec fn domain_matches(pairs: Seq<(PipelineId, RoleId)>, id: Seq<char>, p: Seq<char>, q: Seq<char>) -> bool {
    &&& forall|i: int| 0 <= i < pairs.len() && (#[trigger] pairs[i]).0@ == id ==> pairs[i].1@ == p || pairs[i].1@ == q
    &&& exists|i: int| 0 <= i < pairs.len() && (#[trigger] pairs[i]).0@ == id && pairs[i].1@ == p
    &&& exists|i: int| 0 <= i < pairs.len() && (#[trigger] pairs[i]).0@ == id && pairs[i].1@ == q
}

/// For each of the first `m` pipelines executed by a concurrent group: both of its roles
/// executed it, and no earlier group of the kernel did.
pub open spec fn spec_uses(
    st: State,
    k: Kernel,
    n: ScheduleNode,
    pairs: Seq<(PipelineId, RoleId)>,
    order: Seq<PipelineId>,
    m: int,
) -> State
    decreases m,
{
    if m <= 0 {
        st
    } else {
        let s0 = spec_uses(st, k, n, pairs, order, m - 1);
        let id = order[m - 1];
        let s1 = match find_index(k.pipelines@, id@) {
            Some(j) => if !domain_matches(pairs, id@, k.pipelines@[j].producer@, k.pipelines@[j].consumer@) {
                with_error(s0, Some(n), DiagnosticCode::InvalidPipeline, "both producer and consumer must execute and drain the same pipeline domain"@)
            } else {
                s0
            },
            None => s0,
        };
        if has_key(s1.executed, id@) {
            with_error(s1, Some(n), DiagnosticCode::InvalidPipeline, "pipeline reuse across concurrent groups needs explicit reinitialization and is not supported"@)
        } else {
            State { executed: s1.executed.push(id), ..s1 }
        }
    }
}

/// The checks of a node that opens nested regions. Nested regions run in copies of the
/// context: branches and loop bodies conditionally, pipeline loop bodies in their
/// iteration, role regions in their role. Only a pipeline loop changes the enclosing
/// context, by recording the loop.
pub open spec fn spec_nested(st: State, c: Ctx, k: Kernel, n: ScheduleNode) -> (State, Ctx)
    decreases n, 0nat,
{
    match n.kind {
        ScheduleNodeKind::If { condition, results, then_body, else_body } => {
            let s1 = spec_expect(st, c, condition, TypeRefV::Predicate, Some(n));
            let inner = Ctx { conditional: true, ..c };
            let (s2, _) = spec_region(s1, inner, k, then_body@, EndingV::Yield(def_types(results@)));
            let (s3, _) = spec_region(s2, inner, k, else_body@, EndingV::Yield(def_types(results@)));
            (s3, c)
        },
        ScheduleNodeKind::For { lower, upper, step, induction, carried, body } => {
            let (s1, child) = spec_for_head(st, c, n, lower, upper, step, induction, carried@);
            let (s2, _) = spec_region(s1, child, k, body@, EndingV::Yield(carried_types(carried@)));
            (s2, c)
        },
        ScheduleNodeKind::PipelineFor { pipeline, iteration, body } => {
            let (s1, parent, child) = spec_pipeline_head(st, c, k, n, pipeline, iteration);
            match child {
                None => (s1, parent),
                Some(ch) => {
                    let (s2, done) = spec_region(s1, ch, k, body@, EndingV::Pipeline);
                    (spec_pipeline_tail(s2, done, n, pipeline), parent)
                },
            }
        },
        ScheduleNodeKind::ConcurrentRoles { roles, join_scope } => {
            let s1 = spec_concurrent_head(st, c, n, roles@.len(), join_scope);
            let acc = spec_roles(s1, c, k, n, roles@);
            (spec_uses(acc.state, k, n, acc.pairs, acc.order, acc.order.len() as int), c)
        },
        _ => (st, c),
    }
}

/// One node: its ID is recorded, its operands must dominate it, its own checks run,
/// and its results are defined.
pub open spec fn spec_step(st: State, c: Ctx, k: Kernel, n: ScheduleNode, last: bool, ending: EndingV) -> (State, Ctx)
    decreases n, 1nat,
{
    let s1 = spec_node_id(st, n);
    let s2 = spec_operands(s1, c, n, n.kind.operand_ids());
    let (s3, c3) = if is_nested(n.kind) {
        spec_nested(s2, c, k, n)
    } else {
        spec_flat(s2, c, k, n, last, ending)
    };
    spec_defines(s3, c3, n.kind.result_defs(), n)
}

/// The nodes of `prefix`, in order, in a region of `total` nodes.
pub open spec fn spec_steps(st: State, c: Ctx, k: Kernel, prefix: Seq<ScheduleNode>, total: int, ending: EndingV) -> (State, Ctx)
    decreases prefix, 2nat,
{
    if prefix.len() == 0 {
        (st, c)
    } else {
        let (s1, c1) = spec_steps(st, c, k, prefix.drop_last(), total, ending);
        spec_step(s1, c1, k, prefix.last(), prefix.len() == total, ending)
    }
}

/// A region: its nodes in order, then the check of how it ends.
pub open spec fn spec_region(st: State, c: Ctx, k: Kernel, body: Seq<ScheduleNode>, ending: EndingV) -> (State, Ctx)
    decreases body, 3nat,
{
    let (s1, c1) = spec_steps(st, c, k, body, body.len() as int, ending);
    (spec_region_end(s1, body, ending), c1)
}

pub open spec fn ctx_opt(c: Option<Context>) -> Option<Ctx> {
    match c {
        Some(x) => Some(x@),
        None => None,
    }
}

fn result_types(defs: &Vec<ValueDef>) -> (r: Vec<TypeRef>)
    ensures
        types_of(r@) == def_types(defs@),
{
    let mut r: Vec<TypeRef> = Vec::new();
    let mut i: usize = 0;
    while i < defs.len()
        invariant
            i <= defs@.len(),
            r@.len() == i,
            types_of(r@) == def_types(defs@.take(i as int)),
        decreases defs@.len() - i,
    {
        let ghost before = r@;
        let t = defs[i].ty.dup();
        r.push(t);
        proof {
            assert forall|j: int| 0 <= j < i + 1 implies types_of(r@)[j] == def_types(defs@.take(i + 1))[j] by {
                if j < i {
                    assert(types_of(before)[j] == def_types(defs@.take(i as int))[j]);
                }
            }
            assert(types_of(r@) =~= def_types(defs@.take(i + 1)));
        }
        i = i + 1;
    }
    assert(defs@.take(defs@.len() as int) =~= defs@);
    r
}

fn carried_result_types(items: &Vec<CarriedValue>) -> (r: Vec<TypeRef>)
    ensures
        types_of(r@) == carried_types(items@),
{
    let mut r: Vec<TypeRef> = Vec::new();
    let mut i: usize = 0;
    while i < items.len()
        invariant
            i <= items@.len(),
            r@.len() == i,
            types_of(r@) == carried_types(items@.take(i as int)),
        decreases items@.len() - i,
    {
        let ghost before = r@;
        let t = items[i].result.ty.dup();
        r.push(t);
        proof {
            assert forall|j: int| 0 <= j < i + 1 implies types_of(r@)[j] == carried_types(items@.take(i + 1))[j] by {
                if j < i {
                    assert(types_of(before)[j] == carried_types(items@.take(i as int))[j]);
                }
            }
            assert(types_of(r@) =~= carried_types(items@.take(i + 1)));
        }
        i = i + 1;
    }
    assert(items@.take(items@.len() as int) =~= items@);
    r
}

fn opens_region(kind: &ScheduleNodeKind) -> (r: bool)
    ensures
        r == is_nested(*kind),
{
    match kind {
        ScheduleNodeKind::If { .. } | ScheduleNodeKind::For { .. } | ScheduleNodeKind::ConcurrentRoles {
            ..
        } | ScheduleNodeKind::PipelineFor { .. } => true,
        _ => false,
    }
}

fn has_warp(v: &Vec<u32>, x: u32) -> (r: bool)
    ensures
        r == v@.contains(x),
{
    let mut i: usize = 0;
    while i < v.len()
        invariant
            i <= v@.len(),
            forall|j: int| 0 <= j < i ==> v@[j] != x,
        decreases v@.len() - i,
    {
        if v[i] == x {
            assert(v@[i as int] == x);
            return true;
        }
        i = i + 1;
    }
    false
}

fn domain_matches_exec(pairs: &Vec<(PipelineId, RoleId)>, id: &PipelineId, p: &RoleId, q: &RoleId) -> (r: bool)
    ensures
        r == domain_matches(pairs@, id@, p@, q@),
{
    let mut only = true;
    let mut has_p = false;
    let mut has_q = false;
    let mut i: usize = 0;
    while i < pairs.len()
        invariant
            i <= pairs@.len(),
            only == forall|j: int| 0 <= j < i && (#[trigger] pairs@[j]).0@ == id@ ==> pairs@[j].1@ == p@ || pairs@[j].1@ == q@,
            has_p == exists|j: int| 0 <= j < i && (#[trigger] pairs@[j]).0@ == id@ && pairs@[j].1@ == p@,
            has_q == exists|j: int| 0 <= j < i && (#[trigger] pairs@[j]).0@ == id@ && pairs@[j].1@ == q@,
        decreases pairs@.len() - i,
    {
        let pair = &pairs[i];
        if pair.0.same(id) {
            let is_p = pair.1.same(p);
            let is_q = pair.1.same(q);
            if !is_p && !is_q {
                only = false;
            }
            if is_p {
                has_p = true;
            }
            if is_q {
                has_q = true;
            }
        }
        proof {
            if !only {
                if !(pairs@[i as int].0@ == id@ && !(pairs@[i as int].1@ == p@ || pairs@[i as int].1@ == q@)) {
                    let j = choose|j: int| !(0 <= j < i && (#[trigger] pairs@[j]).0@ == id@ ==> pairs@[j].1@ == p@ || pairs@[j].1@ == q@);
                    assert(0 <= j < i + 1);
                }
            }
            if has_p && !(pairs@[i as int].0@ == id@ && pairs@[i as int].1@ == p@) {
                let j = choose|j: int| 0 <= j < i && (#[trigger] pairs@[j]).0@ == id@ && pairs@[j].1@ == p@;
                assert(0 <= j < i + 1);
            }
            if has_q && !(pairs@[i as int].0@ == id@ && pairs@[i as int].1@ == q@) {
                let j = choose|j: int| 0 <= j < i && (#[trigger] pairs@[j]).0@ == id@ && pairs@[j].1@ == q@;
                assert(0 <= j < i + 1);
            }
        }
        i = i + 1;
    }
    only && has_p && has_q
}

impl<'a> Checker<'a> {
    fn for_head(
        &mut self,
        ctx: &Context,
        node: &ScheduleNode,
        lower: &ValueId,
        upper: &ValueId,
        step: &ValueId,
        induction: &ValueDef,
        carried: &Vec<CarriedValue>,
    ) -> (child: Context)
        ensures
            (final(self)@, child@) == spec_for_head(old(self)@, ctx@, *node, *lower, *upper, *step, *induction, carried@),
            final(self).kernel == old(self).kernel,
    {
        self.expect(ctx, lower, &TypeRef::Index, Some(node));
        self.expect(ctx, upper, &TypeRef::Index, Some(node));
        self.expect(ctx, step, &TypeRef::Index, Some(node));
        let positive = match crate::access::literal_of(ctx, step) {
            Some(Literal::Index(v)) => v > 0,
            _ => false,
        };
        if !positive {
            self.error(Some(node), DiagnosticCode::UnsupportedSyntax, text("the supported For subset requires a constant positive index step"));
        }
        let mut child = ctx.dup();
        child.conditional = true;
        if !induction.ty.same(&TypeRef::Index) {
            self.error(Some(node), DiagnosticCode::InvalidType, text("For induction must be Index"));
        }
        self.define(&mut child, induction, Some(node));
        if contains(&ctx.uniform, &lower.0) && contains(&ctx.uniform, &upper.0) && contains(&ctx.uniform, &step.0) {
            add_key(&mut child.uniform, induction.id.dup());
        }
        let ghost s6 = self@;
        let ghost child2 = child@;
        let mut i: usize = 0;
        while i < carried.len()
            invariant
                i <= carried@.len(),
                self.kernel == old(self).kernel,
                (self@, child@) == spec_carried(s6, ctx@, child2, *node, carried@.take(i as int)),
            decreases carried@.len() - i,
        {
            let item = &carried[i];
            proof {
                assert(carried@.take(i + 1).drop_last() =~= carried@.take(i as int));
            }
            self.expect(ctx, &item.initial, &item.argument.ty, Some(node));
            if !item.argument.ty.same(&item.result.ty) {
                self.error(Some(node), DiagnosticCode::InvalidType, text("loop-carried argument and result types differ"));
            }
            self.define(&mut child, &item.argument, Some(node));
            i = i + 1;
        }
        assert(carried@.take(carried@.len() as int) =~= carried@);
        child
    }

    fn pipeline_head(&mut self, ctx: &mut Context, node: &ScheduleNode, pipeline: &PipelineId, iteration: &ValueDef) -> (r:
        Option<Context>)
        ensures
            (final(self)@, final(ctx)@, ctx_opt(r)) == spec_pipeline_head(old(self)@, old(ctx)@, *old(self).kernel, *node, *pipeline, *iteration),
            final(self).kernel == old(self).kernel,
    {
        let kernel = self.kernel;
        if ctx.pipeline.is_some() || ctx.role.is_none() || ctx.conditional {
            self.error(Some(node), DiagnosticCode::InvalidPipeline, text("PipelineFor must be unconditional and directly inside a role"));
        }
        let j = match find(&kernel.pipelines, &pipeline.0) {
            Some(j) => j,
            None => {
                self.error(Some(node), DiagnosticCode::UnknownSymbol, text("unknown pipeline"));
                return None;
            },
        };
        let pipe = &kernel.pipelines[j];
        let in_role = match &ctx.role {
            Some(r) => r.same(&pipe.producer) || r.same(&pipe.consumer),
            None => false,
        };
        if !in_role {
            self.error(Some(node), DiagnosticCode::InvalidParticipation, text("PipelineFor must execute in its producer or consumer role"));
        }
        if !add_key(&mut ctx.loops, pipeline.dup()) {
            self.error(Some(node), DiagnosticCode::InvalidPipeline, text("a role may execute each pipeline only once"));
        }
        let mut others = false;
        let mut i: usize = 0;
        while i < ctx.loops.len()
            invariant
                i <= ctx.loops@.len(),
                others == exists|l: int| 0 <= l < i && (#[trigger] ctx.loops@[l])@ != pipeline@,
            decreases ctx.loops@.len() - i,
        {
            if !ctx.loops[i].same(pipeline) {
                others = true;
            }
            i = i + 1;
        }
        if others {
            self.error(Some(node), DiagnosticCode::UnsupportedSyntax, text("multiple pipelines per role require a dependency/deadlock analysis that is not implemented"));
        }
        let mut child = ctx.dup();
        child.pipeline = Some((pipeline.dup(), iteration.id.dup()));
        child.tickets = Vec::new();
        child.events = Vec::new();
        if !iteration.ty.same(&TypeRef::Index) {
            self.error(Some(node), DiagnosticCode::InvalidType, text("pipeline iteration must be Index"));
        }
        self.define(&mut child, iteration, Some(node));
        add_key(&mut child.uniform, iteration.id.dup());
        proof {
            assert(ctx@.values == old(ctx)@.values);
            assert(child@.tickets =~= seq![]);
            assert(child@.events =~= seq![]);
        }
        Some(child)
    }

    fn pipeline_tail(&mut self, done: &Context, node: &ScheduleNode, pipeline: &PipelineId)
        ensures
            final(self)@ == spec_pipeline_tail(old(self)@, done@, *node, *pipeline),
            final(self).kernel == old(self).kernel,
    {
        let mut bad = done.tickets.len() != 1;
        let mut i: usize = 0;
        while i < done.tickets.len()
            invariant
                i <= done.tickets@.len(),
                bad == (done.tickets@.len() != 1 || exists|l: int|
                    0 <= l < i && (!(#[trigger] done.tickets@[l]).1.closed || done.tickets@[l].1.pipeline@ != pipeline@)),
            decreases done.tickets@.len() - i,
        {
            let t = &done.tickets[i].1;
            if !t.closed || !t.pipeline.same(pipeline) {
                bad = true;
            }
            i = i + 1;
        }
        if bad {
            self.error(Some(node), DiagnosticCode::InvalidTicket, text("every pipeline iteration must open and close exactly one role ticket"));
        }
        let mut open = false;
        let mut j: usize = 0;
        while j < done.events.len()
            invariant
                j <= done.events@.len(),
                open == exists|l: int| 0 <= l < j && !(#[trigger] done.events@[l]).1.ready && !done.events@[l].1.published,
            decreases done.events@.len() - j,
        {
            let e = &done.events[j].1;
            if !e.ready && !e.published {
                open = true;
            }
            j = j + 1;
        }
        if open || done.pending_accumulators.len() != 0 {
            self.error(Some(node), DiagnosticCode::PendingAccess, text("pipeline iteration leaves an unobserved or unpublished async completion"));
        }
    }

    fn participant(
        &mut self,
        node: &ScheduleNode,
        role: &RoleId,
        participants: &mut Vec<RoleId>,
        warps: &mut Vec<u32>,
    )
        ensures
            (final(self)@, final(participants)@, final(warps)@) == spec_participant(old(self)@, *old(self).kernel, *node, *role, old(participants)@, old(warps)@),
            final(self).kernel == old(self).kernel,
    {
        let kernel = self.kernel;
        if !add_key(participants, role.dup()) {
            self.error(Some(node), DiagnosticCode::InvalidParticipation, text("role appears twice in ConcurrentRoles"));
        }
        match find(&kernel.roles, &role.0) {
            Some(r) => {
                let ws = &kernel.roles[r].warps;
                let ghost s1 = self@;
                let ghost seen = warps@;
                let mut i: usize = 0;
                while i < ws.len()
                    invariant
                        i <= ws@.len(),
                        self.kernel == old(self).kernel,
                        (self@, warps@) == spec_warp_claims(s1, *node, ws@.take(i as int), seen),
                    decreases ws@.len() - i,
                {
                    proof {
                        assert(ws@.take(i + 1).drop_last() =~= ws@.take(i as int));
                    }
                    let w = ws[i];
                    if has_warp(warps, w) {
                        self.error(Some(node), DiagnosticCode::InvalidParticipation, text("concurrent roles must have disjoint warps"));
                    } else {
                        warps.push(w);
                    }
                    i = i + 1;
                }
                assert(ws@.take(ws@.len() as int) =~= ws@);
            },
            None => self.error(Some(node), DiagnosticCode::UnknownSymbol, text("unknown concurrent role")),
        }
    }

    fn role_exit(&mut self, done: &Context, node: &ScheduleNode)
        ensures
            final(self)@ == spec_role_exit(old(self)@, done@, *node),
            final(self).kernel == old(self).kernel,
    {
        if !crate::lookup::same_key_lists(&done.loops, &done.drained) {
            self.error(Some(node), DiagnosticCode::InvalidPipeline, text("each role must drain every pipeline before the block join"));
        }
        if done.pending_accumulators.len() != 0 {
            self.error(Some(node), DiagnosticCode::PendingAccess, text("role exits with a pending accumulator update"));
        }
    }

    fn role_regions(&mut self, ctx: &Context, node: &ScheduleNode, roles: &Vec<RoleRegion>) -> (r: (
        Vec<(PipelineId, RoleId)>,
        Vec<PipelineId>,
    ))
        ensures
            final(self)@ == spec_roles(old(self)@, ctx@, *old(self).kernel, *node, roles@).state,
            r.0@ == spec_roles(old(self)@, ctx@, *old(self).kernel, *node, roles@).pairs,
            r.1@ == spec_roles(old(self)@, ctx@, *old(self).kernel, *node, roles@).order,
            final(self).kernel == old(self).kernel,
        decreases roles@, 1nat,
    {
        let ghost k = *self.kernel;
        let mut participants: Vec<RoleId> = Vec::new();
        let mut warps: Vec<u32> = Vec::new();
        let mut pairs: Vec<(PipelineId, RoleId)> = Vec::new();
        let mut order: Vec<PipelineId> = Vec::new();
        let mut i: usize = 0;
        while i < roles.len()
            invariant
                i <= roles@.len(),
                *self.kernel == k,
                self.kernel == old(self).kernel,
                self@ == spec_roles(old(self)@, ctx@, k, *node, roles@.take(i as int)).state,
                participants@ == spec_roles(old(self)@, ctx@, k, *node, roles@.take(i as int)).participants,
                warps@ == spec_roles(old(self)@, ctx@, k, *node, roles@.take(i as int)).warps,
                pairs@ == spec_roles(old(self)@, ctx@, k, *node, roles@.take(i as int)).pairs,
                order@ == spec_roles(old(self)@, ctx@, k, *node, roles@.take(i as int)).order,
            decreases roles@.len() - i,
        {
            let region = &roles[i];
            proof {
                assert(roles@.take(i + 1).drop_last() =~= roles@.take(i as int));
                assert(roles@.take(i + 1).last() == roles@[i as int]);
                assert(decreases_to!(roles@ => roles@[i as int]));
            }
            self.participant(node, &region.role, &mut participants, &mut warps);
            let mut child = ctx.dup();
            child.role = Some(region.role.dup());
            child.loops = Vec::new();
            child.drained = Vec::new();
            proof {
                assert(child@.loops =~= seq![]);
                assert(child@.drained =~= seq![]);
            }
            self.region(&region.body, &mut child, &Ending::Role);
            self.role_exit(&child, node);
            let ghost pairs0 = pairs@;
            let ghost order0 = order@;
            let mut j: usize = 0;
            while j < child.loops.len()
                invariant
                    j <= child.loops@.len(),
                    pairs@ == pairs0 + uses_of(child.loops@.take(j as int), region.role),
                    order@ == add_order(order0, child.loops@.take(j as int)),
                decreases child.loops@.len() - j,
            {
                let p = &child.loops[j];
                pairs.push((p.dup(), region.role.dup()));
                add_key(&mut order, p.dup());
                proof {
                    assert(child.loops@.take(j + 1).drop_last() =~= child.loops@.take(j as int));
                    assert(pairs@ =~= pairs0 + uses_of(child.loops@.take(j + 1), region.role));
                }
                j = j + 1;
            }
            assert(child.loops@.take(child.loops@.len() as int) =~= child.loops@);
            i = i + 1;
        }
        assert(roles@.take(roles@.len() as int) =~= roles@);
        (pairs, order)
    }

    fn uses(&mut self, node: &ScheduleNode, pairs: &Vec<(PipelineId, RoleId)>, order: &Vec<PipelineId>)
        ensures
            final(self)@ == spec_uses(old(self)@, *old(self).kernel, *node, pairs@, order@, order@.len() as int),
            final(self).kernel == old(self).kernel,
    {
        let kernel = self.kernel;
        let mut m: usize = 0;
        while m < order.len()
            invariant
                m <= order@.len(),
                self.kernel == old(self).kernel,
                kernel == old(self).kernel,
                self@ == spec_uses(old(self)@, *kernel, *node, pairs@, order@, m as int),
            decreases order@.len() - m,
        {
            let id = &order[m];
            match find(&kernel.pipelines, &id.0) {
                Some(j) => {
                    let pipe = &kernel.pipelines[j];
                    if !domain_matches_exec(pairs, id, &pipe.producer, &pipe.consumer) {
                        self.error(Some(node), DiagnosticCode::InvalidPipeline, text("both producer and consumer must execute and drain the same pipeline domain"));
                    }
                },
                None => {},
            }
            if !add_key(&mut self.executed_pipelines, id.dup()) {
                self.error(Some(node), DiagnosticCode::InvalidPipeline, text("pipeline reuse across concurrent groups needs explicit reinitialization and is not supported"));
            }
            m = m + 1;
        }
    }

    fn nested_if(&mut self, ctx: &mut Context, node: &ScheduleNode)
        requires
            node.kind is If,
        ensures
            (final(self)@, final(ctx)@) == spec_nested(old(self)@, old(ctx)@, *old(self).kernel, *node),
            final(self).kernel == old(self).kernel,
        decreases *node, 0nat,
    {
        match &node.kind {
            ScheduleNodeKind::If { condition, results, then_body, else_body } => {
                self.expect(ctx, condition, &TypeRef::Predicate, Some(node));
                let mut left = ctx.dup();
                left.conditional = true;
                let mut right = left.dup();
                let ending = Ending::Yield(result_types(results));
                self.region(then_body, &mut left, &ending);
                self.region(else_body, &mut right, &ending);
            },
            _ => {},
        }
    }

    fn nested_for(&mut self, ctx: &mut Context, node: &ScheduleNode)
        requires
            node.kind is For,
        ensures
            (final(self)@, final(ctx)@) == spec_nested(old(self)@, old(ctx)@, *old(self).kernel, *node),
            final(self).kernel == old(self).kernel,
        decreases *node, 0nat,
    {
        match &node.kind {
            ScheduleNodeKind::For { lower, upper, step, induction, carried, body } => {
                let mut child = self.for_head(ctx, node, lower, upper, step, induction, carried);
                let ending = Ending::Yield(carried_result_types(carried));
                self.region(body, &mut child, &ending);
            },
            _ => {},
        }
    }

    fn nested_pipeline(&mut self, ctx: &mut Context, node: &ScheduleNode)
        requires
            node.kind is PipelineFor,
        ensures
            (final(self)@, final(ctx)@) == spec_nested(old(self)@, old(ctx)@, *old(self).kernel, *node),
            final(self).kernel == old(self).kernel,
        decreases *node, 0nat,
    {
        match &node.kind {
            ScheduleNodeKind::PipelineFor { pipeline, iteration, body } => {
                match self.pipeline_head(ctx, node, pipeline, iteration) {
                    Some(mut child) => {
                        self.region(body, &mut child, &Ending::Pipeline);
                        self.pipeline_tail(&child, node, pipeline);
                    },
                    None => {},
                }
            },
            _ => {},
        }
    }

    fn nested_concurrent(&mut self, ctx: &mut Context, node: &ScheduleNode)
        requires
            node.kind is ConcurrentRoles,
        ensures
            (final(self)@, final(ctx)@) == spec_nested(old(self)@, old(ctx)@, *old(self).kernel, *node),
            final(self).kernel == old(self).kernel,
        decreases *node, 0nat,
    {
        match &node.kind {
            ScheduleNodeKind::ConcurrentRoles { roles, join_scope } => {
                if ctx.role.is_some() || ctx.pipeline.is_some() || ctx.conditional || *join_scope != Scope::Block
                    || roles.len() == 0 {
                    self.error(Some(node), DiagnosticCode::InvalidParticipation, text("ConcurrentRoles requires nonempty top-level role regions and a block join"));
                }
                let (pairs, order) = self.role_regions(ctx, node, roles);
                self.uses(node, &pairs, &order);
            },
            _ => {},
        }
    }

    fn nested(&mut self, ctx: &mut Context, node: &ScheduleNode)
        requires
            is_nested(node.kind),
        ensures
            (final(self)@, final(ctx)@) == spec_nested(old(self)@, old(ctx)@, *old(self).kernel, *node),
            final(self).kernel == old(self).kernel,
        decreases *node, 1nat,
    {
        match &node.kind {
            ScheduleNodeKind::If { .. } => self.nested_if(ctx, node),
            ScheduleNodeKind::For { .. } => self.nested_for(ctx, node),
            ScheduleNodeKind::PipelineFor { .. } => self.nested_pipeline(ctx, node),
            _ => self.nested_concurrent(ctx, node),
        }
    }

    /// One node: its ID, its operands, its own checks, then its results.
    pub fn step(&mut self, ctx: &mut Context, node: &ScheduleNode, last: bool, ending: &Ending)
        ensures
            (final(self)@, final(ctx)@) == spec_step(old(self)@, old(ctx)@, *old(self).kernel, *node, last, ending@),
            final(self).kernel == old(self).kernel,
        decreases *node, 2nat,
    {
        self.node_id(node);
        self.operands(ctx, node);
        if opens_region(&node.kind) {
            self.nested(ctx, node);
        } else {
            self.flat(ctx, node, last, ending);
        }
        self.defines(ctx, node);
    }

    /// A region: its nodes in order, then the check of how it ends.
    pub fn region(&mut self, body: &Region, ctx: &mut Context, ending: &Ending)
        ensures
            (final(self)@, final(ctx)@) == spec_region(old(self)@, old(ctx)@, *old(self).kernel, body@, ending@),
            final(self).kernel == old(self).kernel,
        decreases body@, 3nat,
    {
        let ghost k = *self.kernel;
        let mut i: usize = 0;
        while i < body.len()
            invariant
                i <= body@.len(),
                *self.kernel == k,
                self.kernel == old(self).kernel,
                (self@, ctx@) == spec_steps(old(self)@, old(ctx)@, k, body@.take(i as int), body@.len() as int, ending@),
            decreases body@.len() - i,
        {
            proof {
                assert(decreases_to!(body@ => body@[i as int]));
                assert(body@.take(i + 1).drop_last() =~= body@.take(i as int));
                assert(body@.take(i + 1).last() == body@[i as int]);
            }
            self.step(ctx, &body[i], i + 1 == body.len(), ending);
            i = i + 1;
        }
        assert(body@.take(body@.len() as int) =~= body@);
        let n = body.len();
        let last = if n > 0 {
            Some(&body[n - 1])
        } else {
            None
        };
        match ending {
            Ending::Kernel => {
                let ok = match last {
                    Some(x) => matches!(x.kind, ScheduleNodeKind::KernelReturn),
                    None => false,
                };
                if !ok {
                    self.error(last, DiagnosticCode::InvalidControlFlow, text("kernel must end with KernelReturn"));
                }
            },
            Ending::Yield(_) => {
                let ok = match last {
                    Some(x) => matches!(x.kind, ScheduleNodeKind::Yield { .. }),
                    None => false,
                };
                if !ok {
                    self.error(last, DiagnosticCode::InvalidControlFlow, text("structured value region must end with Yield"));
                }
            },
            _ => {},
        }
    }
}

} // verus!
