//! The state of a construction check and its elementary steps.
use crate::ast::{Kernel, Literal, ScheduleNode, ValueDef};
use crate::diagnostic::{Diagnostic, DiagnosticBag, DiagnosticCode, DiagnosticSeverity, DiagnosticV};
use crate::lookup::{
    Dup, Keyed, find, find_index, get, has_key, key_in_prefix, lemma_same_keys_find, put,
    put_entry,
};
use crate::render::{render_type, type_text};
use crate::text::{concat, text};
use crate::types::{
    AccumulatorId, BufferId, DType, EventId, IndexExpr, MemoryRef, NodeId, PipelineId, RoleId,
    TicketId, TypeRef, TypeRefV, ValueId,
};
use vstd::prelude::*;

verus! {

#[derive(Clone, Copy, Debug, PartialEq, Eq, Structural)]
pub enum TicketKind {
    Producer,
    Consumer,
}

/// A pipeline ticket of the current iteration: its pipeline, its side, and whether it is closed.
pub struct Ticket {
    pub pipeline: PipelineId,
    pub kind: TicketKind,
    pub closed: bool,
}

impl Dup for Ticket {
    fn dup(&self) -> (r: Self) {
        Ticket { pipeline: self.pipeline.dup(), kind: self.kind, closed: self.closed }
    }
}

/// An asynchronous completion: the leased buffer it writes, the references it reads
/// (one or two), the accumulator it updates, and whether it was awaited or published.
pub struct Event {
    pub writes: Option<(BufferId, TicketId)>,
    pub reads: (MemoryRef, Option<MemoryRef>),
    pub accumulator: Option<AccumulatorId>,
    pub ready: bool,
    pub published: bool,
}

impl Dup for Event {
    fn dup(&self) -> (r: Self) {
        Event {
            writes: self.writes.dup(),
            reads: self.reads.dup(),
            accumulator: self.accumulator.dup(),
            ready: self.ready,
            published: self.published,
        }
    }
}

impl Dup for Literal {
    fn dup(&self) -> (r: Self) {
        *self
    }
}

/// The references that an event reads.
pub open spec fn reads_of(e: Event) -> Seq<MemoryRef> {
    match e.reads.1 {
        Some(second) => seq![e.reads.0, second],
        None => seq![e.reads.0],
    }
}

/// What is known at a program point of one execution region.
pub struct Context {
    pub values: Vec<(ValueId, TypeRef)>,
    pub literals: Vec<(ValueId, Literal)>,
    pub uniform: Vec<ValueId>,
    pub role: Option<RoleId>,
    pub pipeline: Option<(PipelineId, ValueId)>,
    pub conditional: bool,
    pub tickets: Vec<(TicketId, Ticket)>,
    pub events: Vec<(EventId, Event)>,
    pub initialized: Vec<AccumulatorId>,
    pub pending_accumulators: Vec<(AccumulatorId, EventId)>,
    pub loops: Vec<PipelineId>,
    pub drained: Vec<PipelineId>,
}

/// The context with its lists taken as sequences and value types taken by view.
pub struct Ctx {
    pub values: Seq<(ValueId, TypeRefV)>,
    pub literals: Seq<(ValueId, Literal)>,
    pub uniform: Seq<ValueId>,
    pub role: Option<RoleId>,
    pub pipeline: Option<(PipelineId, ValueId)>,
    pub conditional: bool,
    pub tickets: Seq<(TicketId, Ticket)>,
    pub events: Seq<(EventId, Event)>,
    pub initialized: Seq<AccumulatorId>,
    pub pending: Seq<(AccumulatorId, EventId)>,
    pub loops: Seq<PipelineId>,
    pub drained: Seq<PipelineId>,
}

pub open spec fn types_view(s: Seq<(ValueId, TypeRef)>) -> Seq<(ValueId, TypeRefV)> {
    s.map_values(|p: (ValueId, TypeRef)| (p.0, p.1@))
}

impl View for Context {
    type V = Ctx;

    open spec fn view(&self) -> Ctx {
        Ctx {
            values: types_view(self.values@),
            literals: self.literals@,
            uniform: self.uniform@,
            role: self.role,
            pipeline: self.pipeline,
            conditional: self.conditional,
            tickets: self.tickets@,
            events: self.events@,
            initialized: self.initialized@,
            pending: self.pending_accumulators@,
            loops: self.loops@,
            drained: self.drained@,
        }
    }
}

/// The context at the start of a kernel body.
pub open spec fn empty_ctx() -> Ctx {
    Ctx {
        values: seq![],
        literals: seq![],
        uniform: seq![],
        role: None,
        pipeline: None,
        conditional: false,
        tickets: seq![],
        events: seq![],
        initialized: seq![],
        pending: seq![],
        loops: seq![],
        drained: seq![],
    }
}

pub proof fn lemma_types_view_keys(s: Seq<(ValueId, TypeRef)>, k: Seq<char>)
    ensures
        find_index(types_view(s), k) == find_index(s, k),
        has_key(types_view(s), k) == has_key(s, k),
{
    lemma_same_keys_find(types_view(s), s, k);
}

/// Records the type of a value in a type list.
pub fn put_type(values: &mut Vec<(ValueId, TypeRef)>, id: &ValueId, ty: &TypeRef)
    ensures
        types_view(final(values)@) == put(types_view(old(values)@), *id, ty@),
{
    proof {
        lemma_types_view_keys(old(values)@, id@);
    }
    let ghost before = old(values)@;
    let t = ty.dup();
    put_entry(values, id.dup(), t);
    proof {
        match find_index(before, id@) {
            Some(i) => {
                assert(types_view(final(values)@) =~= types_view(before).update(
                    i,
                    (types_view(before)[i].0, ty@),
                ));
            },
            None => {
                assert(types_view(final(values)@) =~= types_view(before).push((*id, ty@)));
            },
        }
    }
}

impl Context {
    pub fn new() -> (r: Self)
        ensures
            r@ == empty_ctx(),
    {
        let r = Context {
            values: Vec::new(),
            literals: Vec::new(),
            uniform: Vec::new(),
            role: None,
            pipeline: None,
            conditional: false,
            tickets: Vec::new(),
            events: Vec::new(),
            initialized: Vec::new(),
            pending_accumulators: Vec::new(),
            loops: Vec::new(),
            drained: Vec::new(),
        };
        assert(r@.values =~= seq![]);
        r
    }

    pub fn dup(&self) -> (r: Self)
        ensures
            r@ == self@,
    {
        let mut values: Vec<(ValueId, TypeRef)> = Vec::new();
        let mut i: usize = 0;
        while i < self.values.len()
            invariant
                i <= self.values@.len(),
                values@.len() == i,
                types_view(values@) == types_view(self.values@.take(i as int)),
            decreases self.values@.len() - i,
        {
            let ghost before = values@;
            let pair = (self.values[i].0.dup(), self.values[i].1.dup());
            values.push(pair);
            proof {
                let e = (self.values@[i as int].0, self.values@[i as int].1@);
                assert(types_view(values@) =~= types_view(before).push(e));
                assert(types_view(self.values@.take(i + 1)) =~= types_view(
                    self.values@.take(i as int),
                ).push(e));
            }
            i = i + 1;
        }
        assert(self.values@.take(self.values@.len() as int) =~= self.values@);
        Context {
            values,
            literals: crate::lookup::dup_vec(&self.literals),
            uniform: crate::lookup::dup_vec(&self.uniform),
            role: self.role.dup(),
            pipeline: self.pipeline.dup(),
            conditional: self.conditional,
            tickets: crate::lookup::dup_vec(&self.tickets),
            events: crate::lookup::dup_vec(&self.events),
            initialized: crate::lookup::dup_vec(&self.initialized),
            pending_accumulators: crate::lookup::dup_vec(&self.pending_accumulators),
            loops: crate::lookup::dup_vec(&self.loops),
            drained: crate::lookup::dup_vec(&self.drained),
        }
    }
}

/// The findings and the identifiers defined so far by a check.
pub struct Checker<'a> {
    pub kernel: &'a Kernel,
    pub bag: DiagnosticBag,
    pub node_ids: Vec<NodeId>,
    pub definitions: Vec<ValueId>,
    pub event_definitions: Vec<EventId>,
    pub ticket_definitions: Vec<TicketId>,
    pub executed_pipelines: Vec<PipelineId>,
}

/// The checker's state: findings in order, node IDs of the whole module, and the
/// value, event and ticket IDs and executed pipelines of the current kernel.
pub struct State {
    pub bag: Seq<DiagnosticV>,
    pub node_ids: Seq<NodeId>,
    pub definitions: Seq<ValueId>,
    pub event_ids: Seq<EventId>,
    pub ticket_ids: Seq<TicketId>,
    pub executed: Seq<PipelineId>,
}

impl<'a> View for Checker<'a> {
    type V = State;

    open spec fn view(&self) -> State {
        State {
            bag: self.bag@,
            node_ids: self.node_ids@,
            definitions: self.definitions@,
            event_ids: self.event_definitions@,
            ticket_ids: self.ticket_definitions@,
            executed: self.executed_pipelines@,
        }
    }
}

pub open spec fn node_of(n: Option<&ScheduleNode>) -> Option<ScheduleNode> {
    match n {
        Some(x) => Some(*x),
        None => None,
    }
}

/// An error finding located at `node`, when given.
pub open spec fn report(node: Option<ScheduleNode>, code: DiagnosticCode, message: Seq<char>) -> DiagnosticV {
    DiagnosticV {
        severity: DiagnosticSeverity::Error,
        code,
        message,
        source_span: match node {
            Some(n) => n.meta.source_span,
            None => None,
        },
        node_id: match node {
            Some(n) => Some(n.meta.node_id@),
            None => None,
        },
        related_nodes: seq![],
        repair_hint: None,
    }
}

pub open spec fn with_error(
    st: State,
    node: Option<ScheduleNode>,
    code: DiagnosticCode,
    message: Seq<char>,
) -> State {
    State { bag: st.bag.push(report(node, code, message)), ..st }
}

pub open spec fn not_defined_message(id: Seq<char>) -> Seq<char> {
    "value '"@ + id + "' is not defined in this execution region"@
}

pub open spec fn type_mismatch_message(id: Seq<char>, actual: TypeRefV, expected: TypeRefV) -> Seq<char> {
    "value '"@ + id + "' has type "@ + type_text(actual) + ", expected "@ + type_text(expected)
}

/// A use of `id` at type `ty`: it must be defined in this region and have that type.
pub open spec fn spec_expect(st: State, c: Ctx, id: ValueId, ty: TypeRefV, node: Option<ScheduleNode>) -> State {
    match get(c.values, id@) {
        None => with_error(st, node, DiagnosticCode::UnknownSymbol, not_defined_message(id@)),
        Some(actual) => if actual != ty {
            with_error(st, node, DiagnosticCode::InvalidType, type_mismatch_message(id@, actual, ty))
        } else {
            st
        },
    }
}

/// Each of `ids` is used at type `ty`, in order.
pub open spec fn spec_expect_all(
    st: State,
    c: Ctx,
    ids: Seq<ValueId>,
    ty: TypeRefV,
    node: Option<ScheduleNode>,
) -> State
    decreases ids.len(),
{
    if ids.len() == 0 {
        st
    } else {
        spec_expect(spec_expect_all(st, c, ids.drop_last(), ty, node), c, ids.last(), ty, node)
    }
}

pub open spec fn duplicate_value_message(id: Seq<char>) -> Seq<char> {
    "duplicate or empty value definition '"@ + id + "'"@
}

/// A definition of `value`: its identifier must be nonempty and new to the kernel;
/// its type is recorded in the context either way.
pub open spec fn spec_define(st: State, c: Ctx, value: ValueDef, node: Option<ScheduleNode>) -> (State, Ctx) {
    let st1 = if value.id@.len() == 0 || has_key(st.definitions, value.id@) {
        with_error(st, node, DiagnosticCode::DuplicateSymbol, duplicate_value_message(value.id@))
    } else {
        State { definitions: st.definitions.push(value.id), ..st }
    };
    (st1, Ctx { values: put(c.values, value.id, value.ty@), ..c })
}

/// An index expression: its values must be defined indices, and it must evaluate
/// without a known error.
pub open spec fn spec_index(st: State, c: Ctx, e: IndexExpr) -> State {
    let st1 = spec_expect_all(st, c, e.value_ids(), TypeRefV::Index, None);
    match e.eval() {
        Err(m) => with_error(st1, None, DiagnosticCode::InvalidResource, m),
        Ok(_) => st1,
    }
}

pub open spec fn duplicate_name_message(category: Seq<char>, name: Seq<char>) -> Seq<char> {
    "duplicate or empty "@ + category + " '"@ + name + "'"@
}

/// Names of one category must be nonempty and unique: one finding per name that is
/// empty or repeats an earlier one, in order.
pub open spec fn spec_unique<T: Keyed>(st: State, items: Seq<T>, category: Seq<char>) -> State
    decreases items.len(),
{
    if items.len() == 0 {
        st
    } else {
        let st1 = spec_unique(st, items.drop_last(), category);
        let name = items.last().key();
        if name.len() == 0 || has_key(items.drop_last(), name) {
            with_error(st1, None, DiagnosticCode::DuplicateSymbol, duplicate_name_message(category, name))
        } else {
            st1
        }
    }
}

/// The magnitude bits of an IEEE-754 binary64 pattern. For finite nonnegative values,
/// the order of these bit patterns is the order of the numbers.
pub open spec fn magnitude(bits: u64) -> u64 {
    bits & 0x7fff_ffff_ffff_ffffu64
}

/// The bits of positive infinity; every finite magnitude is below them.
pub open spec fn infinity_bits() -> u64 {
    0x7ff0_0000_0000_0000u64
}

/// The bits of the largest finite `f32`, as a binary64.
pub open spec fn f32_max_bits() -> u64 {
    0x47ef_ffff_e000_0000u64
}

/// The bits of 65504, the largest finite binary16 value, as a binary64.
pub open spec fn f16_max_bits() -> u64 {
    0x40ef_fc00_0000_0000u64
}

/// A literal fits a declared type: index literals are indices; booleans are predicates
/// or `Bool` scalars; integers must be in the range of the integer scalar type; floats
/// must be finite and, for narrower float types, no larger in magnitude than their
/// largest finite value.
pub open spec fn literal_fits(value: Literal, ty: TypeRefV) -> bool {
    match value {
        Literal::Index(_) => ty == TypeRefV::Index,
        Literal::Bool(_) => ty == TypeRefV::Predicate || ty == TypeRefV::Scalar(DType::Bool),
        Literal::Integer(n) => match ty {
            TypeRefV::Scalar(DType::I32) => i32::MIN <= n <= i32::MAX,
            TypeRefV::Scalar(DType::I64) => true,
            TypeRefV::Scalar(DType::U32) => 0 <= n <= u32::MAX,
            TypeRefV::Scalar(DType::U64) => n >= 0,
            _ => false,
        },
        Literal::Float(bits) => match ty {
            TypeRefV::Scalar(DType::F64) => magnitude(bits) < infinity_bits(),
            TypeRefV::Scalar(DType::F32) => magnitude(bits) <= f32_max_bits(),
            TypeRefV::Scalar(DType::BF16) => magnitude(bits) <= f32_max_bits(),
            TypeRefV::Scalar(DType::F16) => magnitude(bits) <= f16_max_bits(),
            _ => false,
        },
    }
}

pub fn literal_matches(value: &Literal, ty: &TypeRef) -> (r: bool)
    ensures
        r == literal_fits(*value, ty@),
{
    match value {
        Literal::Index(_) => matches!(ty, TypeRef::Index),
        Literal::Bool(_) => matches!(ty, TypeRef::Predicate | TypeRef::Scalar(DType::Bool)),
        Literal::Integer(n) => match ty {
            TypeRef::Scalar(DType::I32) => i32::MIN as i64 <= *n && *n <= i32::MAX as i64,
            TypeRef::Scalar(DType::I64) => true,
            TypeRef::Scalar(DType::U32) => 0 <= *n && *n <= u32::MAX as i64,
            TypeRef::Scalar(DType::U64) => *n >= 0,
            _ => false,
        },
        Literal::Float(bits) => {
            let m = *bits & 0x7fff_ffff_ffff_ffffu64;
            match ty {
                TypeRef::Scalar(DType::F64) => m < 0x7ff0_0000_0000_0000u64,
                TypeRef::Scalar(DType::F32) | TypeRef::Scalar(DType::BF16) => m
                    <= 0x47ef_ffff_e000_0000u64,
                TypeRef::Scalar(DType::F16) => m <= 0x40ef_fc00_0000_0000u64,
                _ => false,
            }
        },
    }
}

/// `prefix`, the identifier text, then `suffix`.
pub fn quote_id(prefix: &str, id: &String, suffix: &str) -> (r: String)
    ensures
        r@ == prefix@ + id@ + suffix@,
{
    concat(concat(text(prefix), id.as_str()), suffix)
}

impl<'a> Checker<'a> {
    pub fn error(&mut self, node: Option<&ScheduleNode>, code: DiagnosticCode, message: String)
        ensures
            final(self)@ == with_error(old(self)@, node_of(node), code, message@),
            final(self).kernel == old(self).kernel,
    {
        let mut finding = Diagnostic::error(code, message);
        match node {
            Some(n) => {
                finding.node_id = Some(n.meta.node_id.0.clone());
                finding.source_span = n.meta.source_span.dup();
            },
            None => {},
        }
        self.bag.push(finding);
    }

    pub fn expect(&mut self, ctx: &Context, id: &ValueId, ty: &TypeRef, node: Option<&ScheduleNode>)
        ensures
            final(self)@ == spec_expect(old(self)@, ctx@, *id, ty@, node_of(node)),
            final(self).kernel == old(self).kernel,
    {
        proof {
            lemma_types_view_keys(ctx.values@, id@);
        }
        match find(&ctx.values, &id.0) {
            None => {
                let m = quote_id("value '", &id.0, "' is not defined in this execution region");
                self.error(node, DiagnosticCode::UnknownSymbol, m);
            },
            Some(i) => {
                let actual = &ctx.values[i].1;
                if !actual.same(ty) {
                    let m = quote_id("value '", &id.0, "' has type ");
                    let m = concat(m, render_type(actual).as_str());
                    let m = concat(concat(m, ", expected "), render_type(ty).as_str());
                    self.error(node, DiagnosticCode::InvalidType, m);
                }
            },
        }
    }

    pub fn expect_all(&mut self, ctx: &Context, ids: &Vec<ValueId>, ty: &TypeRef, node: Option<&ScheduleNode>)
        ensures
            final(self)@ == spec_expect_all(old(self)@, ctx@, ids@, ty@, node_of(node)),
            final(self).kernel == old(self).kernel,
    {
        let mut i: usize = 0;
        while i < ids.len()
            invariant
                i <= ids@.len(),
                self.kernel == old(self).kernel,
                self@ == spec_expect_all(old(self)@, ctx@, ids@.take(i as int), ty@, node_of(node)),
            decreases ids@.len() - i,
        {
            self.expect(ctx, &ids[i], ty, node);
            proof {
                assert(ids@.take(i + 1).drop_last() =~= ids@.take(i as int));
            }
            i = i + 1;
        }
        assert(ids@.take(ids@.len() as int) =~= ids@);
    }

    pub fn define(&mut self, ctx: &mut Context, value: &ValueDef, node: Option<&ScheduleNode>)
        ensures
            (final(self)@, final(ctx)@) == spec_define(old(self)@, old(ctx)@, *value, node_of(node)),
            final(self).kernel == old(self).kernel,
    {
        if value.id.is_empty() || crate::lookup::contains(&self.definitions, &value.id.0) {
            let m = quote_id("duplicate or empty value definition '", &value.id.0, "'");
            self.error(node, DiagnosticCode::DuplicateSymbol, m);
        } else {
            self.definitions.push(value.id.dup());
        }
        put_type(&mut ctx.values, &value.id, &value.ty);
    }

    pub fn index(&mut self, expr: &IndexExpr, ctx: &Context)
        ensures
            final(self)@ == spec_index(old(self)@, ctx@, *expr),
            final(self).kernel == old(self).kernel,
    {
        let mut ids: Vec<ValueId> = Vec::new();
        expr.values(&mut ids);
        assert(ids@ =~= expr.value_ids());
        self.expect_all(ctx, &ids, &TypeRef::Index, None);
        match expr.evaluate() {
            Err(message) => self.error(None, DiagnosticCode::InvalidResource, text(message)),
            Ok(_) => {},
        }
    }

    pub fn unique<T: Keyed>(&mut self, items: &Vec<T>, category: &str)
        ensures
            final(self)@ == spec_unique(old(self)@, items@, category@),
            final(self).kernel == old(self).kernel,
    {
        let mut i: usize = 0;
        while i < items.len()
            invariant
                i <= items@.len(),
                self.kernel == old(self).kernel,
                self@ == spec_unique(old(self)@, items@.take(i as int), category@),
            decreases items@.len() - i,
        {
            let name = items[i].key_string();
            proof {
                assert(items@.take(i + 1).drop_last() =~= items@.take(i as int));
                assert(items@.take(i + 1).last() == items@[i as int]);
            }
            if name.as_str().is_empty() || key_in_prefix(items, i, name) {
                let m = concat(concat(concat(text("duplicate or empty "), category), " '"), name.as_str());
                let m = concat(m, "'");
                self.error(None, DiagnosticCode::DuplicateSymbol, m);
            }
            i = i + 1;
        }
        assert(items@.take(items@.len() as int) =~= items@);
    }
}

} // verus!
