//! The typed schedule AST: modules, kernels, declarations and structured nodes.
use crate::diagnostic::SourceSpan;
use crate::lookup::{Dup, Keyed};
use crate::target::TargetRequest;
use crate::text::text;
use crate::types::{
    AccumulatorId, BufferId, EventId, FragmentType, IndexExpr, InstructionSpecId, MemoryRef, NodeId,
    PipelineId, RoleId, Scope, StorageId, StorageType, BufferType, TicketId, TransferSpecId, TypeRef,
    ValueId,
};
use vstd::prelude::*;

verus! {

pub const SCHEMA_VERSION: u32 = 2;

#[derive(Clone, Debug, PartialEq)]
pub struct Module {
    pub name: String,
    pub schema_version: u32,
    pub module_revision: u64,
    pub target_request: TargetRequest,
    pub kernels: Vec<Kernel>,
}

impl Default for Module {
    fn default() -> (r: Self)
        ensures
            r.name@ == "module"@,
            r.schema_version == SCHEMA_VERSION,
            r.module_revision == 0,
            r.target_request.names_musa_mp31(),
            r.kernels@.len() == 0,
    {
        Module {
            name: text("module"),
            schema_version: SCHEMA_VERSION,
            module_revision: 0,
            target_request: TargetRequest::default(),
            kernels: Vec::new(),
        }
    }
}

#[derive(Clone, Debug, PartialEq)]
pub struct Kernel {
    pub name: String,
    pub params: Vec<ValueDef>,
    pub block: [u32; 3],
    pub storages: Vec<StorageDecl>,
    pub buffers: Vec<BufferDecl>,
    pub roles: Vec<RoleDecl>,
    pub pipelines: Vec<PipelineDecl>,
    pub accumulators: Vec<AccumulatorDecl>,
    pub body: Region,
}

impl Kernel {
    pub fn new(name: &str) -> (r: Self)
        ensures
            r.name@ == name@,
            r.params@.len() == 0,
            r.block@ == seq![1u32, 1u32, 1u32],
            r.storages@.len() == 0,
            r.buffers@.len() == 0,
            r.roles@.len() == 0,
            r.pipelines@.len() == 0,
            r.accumulators@.len() == 0,
            r.body@.len() == 0,
    {
        Kernel {
            name: text(name),
            params: Vec::new(),
            block: [1, 1, 1],
            storages: Vec::new(),
            buffers: Vec::new(),
            roles: Vec::new(),
            pipelines: Vec::new(),
            accumulators: Vec::new(),
            body: Vec::new(),
        }
    }
}

#[derive(Clone, Debug, Default, PartialEq, Eq)]
pub struct NodeMeta {
    pub node_id: NodeId,
    pub node_revision: u64,
    pub source_span: Option<SourceSpan>,
    pub origin_ids: Vec<NodeId>,
}

#[derive(Clone, Debug, PartialEq, Eq)]
pub struct ValueDef {
    pub id: ValueId,
    pub ty: TypeRef,
}

impl Keyed for ValueDef {
    open spec fn key(&self) -> Seq<char> {
        self.id@
    }

    fn key_string(&self) -> (r: &String) {
        &self.id.0
    }
}

impl ValueDef {
    pub fn new(id: &str, ty: TypeRef) -> (r: Self)
        ensures
            r.id@ == id@,
            r.ty == ty,
    {
        ValueDef { id: id.into(), ty }
    }
}

#[derive(Clone, Debug, PartialEq, Eq)]
pub struct StorageDecl {
    pub id: StorageId,
    pub ty: StorageType,
    pub external: Option<ValueId>,
}

impl Keyed for StorageDecl {
    open spec fn key(&self) -> Seq<char> {
        self.id@
    }

    fn key_string(&self) -> (r: &String) {
        &self.id.0
    }
}

#[derive(Clone, Debug, PartialEq, Eq)]
pub struct BufferDecl {
    pub id: BufferId,
    pub ty: BufferType,
}

impl Keyed for BufferDecl {
    open spec fn key(&self) -> Seq<char> {
        self.id@
    }

    fn key_string(&self) -> (r: &String) {
        &self.id.0
    }
}

#[derive(Clone, Debug, PartialEq, Eq)]
pub struct RoleDecl {
    pub id: RoleId,
    pub warps: Vec<u32>,
}

impl Keyed for RoleDecl {
    open spec fn key(&self) -> Seq<char> {
        self.id@
    }

    fn key_string(&self) -> (r: &String) {
        &self.id.0
    }
}

#[derive(Clone, Debug, PartialEq, Eq)]
pub struct PipelineBufferBinding {
    pub buffer: BufferId,
    pub slot_stride_bytes: u64,
}

impl Keyed for PipelineBufferBinding {
    open spec fn key(&self) -> Seq<char> {
        self.buffer@
    }

    fn key_string(&self) -> (r: &String) {
        &self.buffer.0
    }
}

#[derive(Clone, Debug, PartialEq, Eq)]
pub struct PipelineDecl {
    pub id: PipelineId,
    pub iteration_count: IndexExpr,
    pub slots: u32,
    pub producer: RoleId,
    pub consumer: RoleId,
    pub buffers: Vec<PipelineBufferBinding>,
}

impl Keyed for PipelineDecl {
    open spec fn key(&self) -> Seq<char> {
        self.id@
    }

    fn key_string(&self) -> (r: &String) {
        &self.id.0
    }
}

#[derive(Clone, Debug, PartialEq, Eq)]
pub struct AccumulatorDecl {
    pub id: AccumulatorId,
    pub ty: FragmentType,
}

impl Keyed for AccumulatorDecl {
    open spec fn key(&self) -> Seq<char> {
        self.id@
    }

    fn key_string(&self) -> (r: &String) {
        &self.id.0
    }
}

#[derive(Clone, Debug, PartialEq, Eq)]
pub struct CarriedValue {
    pub initial: ValueId,
    pub argument: ValueDef,
    pub result: ValueDef,
}

pub type Region = Vec<ScheduleNode>;

#[derive(Debug, PartialEq)]
pub struct RoleRegion {
    pub role: RoleId,
    pub body: Region,
}

#[derive(Debug, PartialEq)]
pub struct ScheduleNode {
    pub meta: NodeMeta,
    pub kind: ScheduleNodeKind,
}

/// A literal. A floating-point literal is held as the bit pattern of its IEEE-754 binary64 value.
#[derive(Clone, Copy, Debug, PartialEq, Eq, Structural)]
pub enum Literal {
    Index(u64),
    Integer(i64),
    Float(u64),
    Bool(bool),
}

#[derive(Clone, Copy, Debug, PartialEq, Eq, Structural)]
pub enum BinaryOp {
    Add,
    Sub,
    Mul,
    Div,
    Less,
    Equal,
    And,
    Or,
}

/// Logical launch coordinates, independent of target spelling.
#[derive(Clone, Copy, Debug, PartialEq, Eq, Structural)]
pub enum LaunchBuiltin {
    ThreadIdxX,
    BlockIdxX,
    BlockDimX,
    GridDimX,
}

#[derive(Debug, PartialEq)]
pub enum ScheduleNodeKind {
    LaunchIndex { builtin: LaunchBuiltin, result: ValueDef },
    Constant { value: Literal, result: ValueDef },
    Binary { op: BinaryOp, lhs: ValueId, rhs: ValueId, result: ValueDef },
    Load {
        source: MemoryRef,
        indices: Vec<ValueId>,
        mask: ValueId,
        masked_value: ValueId,
        result: ValueDef,
    },
    Store { destination: MemoryRef, indices: Vec<ValueId>, value: ValueId, mask: ValueId },
    If { condition: ValueId, results: Vec<ValueDef>, then_body: Region, else_body: Region },
    For {
        lower: ValueId,
        upper: ValueId,
        step: ValueId,
        induction: ValueDef,
        carried: Vec<CarriedValue>,
        body: Region,
    },
    Yield { values: Vec<ValueId> },
    KernelReturn,
    ConcurrentRoles { roles: Vec<RoleRegion>, join_scope: Scope },
    PipelineFor { pipeline: PipelineId, iteration: ValueDef, body: Region },
    PipelineAcquire { pipeline: PipelineId, iteration: ValueId, ticket: TicketId },
    PipelinePublish { ticket: TicketId, events: Vec<EventId> },
    PipelineConsume { pipeline: PipelineId, iteration: ValueId, ticket: TicketId },
    PipelineRelease { ticket: TicketId },
    PipelineDrain { pipeline: PipelineId },
    AsyncCopy {
        source: MemoryRef,
        destination: MemoryRef,
        transfer: TransferSpecId,
        completion: EventId,
    },
    AccumulatorInit { accumulator: AccumulatorId, value: ValueId },
    AccumulatorRead { accumulator: AccumulatorId, result: ValueDef },
    Sqmma {
        accumulator: AccumulatorId,
        a: MemoryRef,
        b: MemoryRef,
        instruction: InstructionSpecId,
        completion: EventId,
    },
    AwaitEvent { event: EventId },
}

impl ScheduleNodeKind {
    /// The ordinary SSA values that the node reads, in payload order.
    pub open spec fn operand_ids(self) -> Seq<ValueId> {
        match self {
            ScheduleNodeKind::Binary { lhs, rhs, .. } => seq![lhs, rhs],
            ScheduleNodeKind::Load { indices, mask, masked_value, .. } => indices@ + seq![
                mask,
                masked_value,
            ],
            ScheduleNodeKind::Store { indices, value, mask, .. } => indices@ + seq![value, mask],
            ScheduleNodeKind::If { condition, .. } => seq![condition],
            ScheduleNodeKind::For { lower, upper, step, carried, .. } => seq![lower, upper, step]
                + carried@.map_values(|c: CarriedValue| c.initial),
            ScheduleNodeKind::Yield { values } => values@,
            ScheduleNodeKind::PipelineAcquire { iteration, .. } => seq![iteration],
            ScheduleNodeKind::PipelineConsume { iteration, .. } => seq![iteration],
            ScheduleNodeKind::AccumulatorInit { value, .. } => seq![value],
            _ => seq![],
        }
    }

    /// The values that the node defines for the code after it.
    pub open spec fn result_defs(self) -> Seq<ValueDef> {
        match self {
            ScheduleNodeKind::Constant { result, .. } => seq![result],
            ScheduleNodeKind::LaunchIndex { result, .. } => seq![result],
            ScheduleNodeKind::Binary { result, .. } => seq![result],
            ScheduleNodeKind::Load { result, .. } => seq![result],
            ScheduleNodeKind::AccumulatorRead { result, .. } => seq![result],
            ScheduleNodeKind::If { results, .. } => results@,
            ScheduleNodeKind::For { carried, .. } => carried@.map_values(|c: CarriedValue| c.result),
            _ => seq![],
        }
    }

    /// The nested regions of the node, in payload order.
    pub open spec fn child_regions(self) -> Seq<Region> {
        match self {
            ScheduleNodeKind::If { then_body, else_body, .. } => seq![then_body, else_body],
            ScheduleNodeKind::For { body, .. } => seq![body],
            ScheduleNodeKind::PipelineFor { body, .. } => seq![body],
            ScheduleNodeKind::ConcurrentRoles { roles, .. } => roles@.map_values(
                |r: RoleRegion| r.body,
            ),
            _ => seq![],
        }
    }
}

/// The referents of a sequence of references.
pub open spec fn derefs<T>(s: Seq<&T>) -> Seq<T> {
    s.map_values(|x: &T| *x)
}

fn refs_of<T>(v: &Vec<T>) -> (r: Vec<&T>)
    ensures
        derefs(r@) == v@,
{
    let mut r: Vec<&T> = Vec::new();
    let mut i: usize = 0;
    while i < v.len()
        invariant
            i <= v@.len(),
            r@.len() == i,
            derefs(r@) == v@.take(i as int),
        decreases v@.len() - i,
    {
        let ghost before = r@;
        let x: &T = &v[i];
        r.push(x);
        proof {
            assert(r@ == before.push(x));
            assert forall|j: int| 0 <= j < i + 1 implies derefs(r@)[j] == v@.take(i + 1)[j] by {
                if j < i {
                    assert(derefs(r@)[j] == *r@[j]);
                    assert(r@[j] == before[j]);
                    assert(derefs(before)[j] == *before[j]);
                }
            }
            assert(derefs(r@) =~= v@.take(i + 1));
        }
        i = i + 1;
    }
    assert(v@.take(v@.len() as int) =~= v@);
    r
}

impl ScheduleNode {
    pub fn new(kind: ScheduleNodeKind) -> (r: Self)
        ensures
            r.kind == kind,
            r.meta.node_id@.len() == 0,
            r.meta.node_revision == 0,
            r.meta.source_span is None,
            r.meta.origin_ids@.len() == 0,
    {
        ScheduleNode {
            meta: NodeMeta {
                node_id: NodeId(String::new()),
                node_revision: 0,
                source_span: None,
                origin_ids: Vec::new(),
            },
            kind,
        }
    }

    /// Ordinary SSA operands only; resource references remain strongly typed in payloads.
    pub fn operands(&self) -> (r: Vec<&ValueId>)
        ensures
            derefs(r@) == self.kind.operand_ids(),
    {
        match &self.kind {
            ScheduleNodeKind::Binary { lhs, rhs, .. } => {
                let mut r: Vec<&ValueId> = Vec::new();
                r.push(lhs);
                r.push(rhs);
                assert(derefs(r@) =~= self.kind.operand_ids());
                r
            },
            ScheduleNodeKind::Load { indices, mask, masked_value, .. } => {
                let mut r = refs_of(indices);
                r.push(mask);
                r.push(masked_value);
                assert(derefs(r@) =~= self.kind.operand_ids());
                r
            },
            ScheduleNodeKind::Store { indices, value, mask, .. } => {
                let mut r = refs_of(indices);
                r.push(value);
                r.push(mask);
                assert(derefs(r@) =~= self.kind.operand_ids());
                r
            },
            ScheduleNodeKind::If { condition, .. } => {
                let mut r: Vec<&ValueId> = Vec::new();
                r.push(condition);
                assert(derefs(r@) =~= self.kind.operand_ids());
                r
            },
            ScheduleNodeKind::For { lower, upper, step, carried, .. } => {
                let mut r: Vec<&ValueId> = Vec::new();
                r.push(lower);
                r.push(upper);
                r.push(step);
                let mut i: usize = 0;
                while i < carried.len()
                    invariant
                        i <= carried@.len(),
                        r@.len() == i + 3,
                        derefs(r@) == seq![*lower, *upper, *step] + carried@.take(i as int).map_values(
                            |c: CarriedValue| c.initial,
                        ),
                    decreases carried@.len() - i,
                {
                    let ghost before = r@;
                    let x: &ValueId = &carried[i].initial;
                    r.push(x);
                    proof {
                        let t = seq![*lower, *upper, *step] + carried@.take(i + 1).map_values(
                            |c: CarriedValue| c.initial,
                        );
                        assert forall|j: int| 0 <= j < i + 4 implies derefs(r@)[j] == t[j] by {
                            if j < i + 3 {
                                assert(derefs(r@)[j] == *r@[j]);
                                assert(r@[j] == before[j]);
                                assert(derefs(before)[j] == *before[j]);
                            }
                        }
                        assert(derefs(r@) =~= seq![*lower, *upper, *step] + carried@.take(
                            i + 1,
                        ).map_values(|c: CarriedValue| c.initial));
                    }
                    i = i + 1;
                }
                assert(carried@.take(carried@.len() as int) =~= carried@);
                r
            },
            ScheduleNodeKind::Yield { values } => refs_of(values),
            ScheduleNodeKind::PipelineAcquire { iteration, .. }
            | ScheduleNodeKind::PipelineConsume { iteration, .. } => {
                let mut r: Vec<&ValueId> = Vec::new();
                r.push(iteration);
                assert(derefs(r@) =~= self.kind.operand_ids());
                r
            },
            ScheduleNodeKind::AccumulatorInit { value, .. } => {
                let mut r: Vec<&ValueId> = Vec::new();
                r.push(value);
                assert(derefs(r@) =~= self.kind.operand_ids());
                r
            },
            _ => {
                let r: Vec<&ValueId> = Vec::new();
                assert(derefs(r@) =~= self.kind.operand_ids());
                r
            },
        }
    }

    pub fn results(&self) -> (r: Vec<&ValueDef>)
        ensures
            derefs(r@) == self.kind.result_defs(),
    {
        match &self.kind {
            ScheduleNodeKind::Constant { result, .. }
            | ScheduleNodeKind::LaunchIndex { result, .. }
            | ScheduleNodeKind::Binary { result, .. }
            | ScheduleNodeKind::Load { result, .. }
            | ScheduleNodeKind::AccumulatorRead { result, .. } => {
                let mut r: Vec<&ValueDef> = Vec::new();
                r.push(result);
                assert(derefs(r@) =~= self.kind.result_defs());
                r
            },
            ScheduleNodeKind::If { results, .. } => refs_of(results),
            ScheduleNodeKind::For { carried, .. } => {
                let mut r: Vec<&ValueDef> = Vec::new();
                let mut i: usize = 0;
                while i < carried.len()
                    invariant
                        i <= carried@.len(),
                        r@.len() == i,
                        derefs(r@) == carried@.take(i as int).map_values(
                            |c: CarriedValue| c.result,
                        ),
                    decreases carried@.len() - i,
                {
                    let ghost before = r@;
                    let x: &ValueDef = &carried[i].result;
                    r.push(x);
                    proof {
                        let t = carried@.take(i + 1).map_values(|c: CarriedValue| c.result);
                        assert forall|j: int| 0 <= j < i + 1 implies derefs(r@)[j] == t[j] by {
                            if j < i {
                                assert(derefs(r@)[j] == *r@[j]);
                                assert(r@[j] == before[j]);
                                assert(derefs(before)[j] == *before[j]);
                            }
                        }
                        assert(derefs(r@) =~= carried@.take(i + 1).map_values(
                            |c: CarriedValue| c.result,
                        ));
                    }
                    i = i + 1;
                }
                assert(carried@.take(carried@.len() as int) =~= carried@);
                r
            },
            _ => {
                let r: Vec<&ValueDef> = Vec::new();
                assert(derefs(r@) =~= self.kind.result_defs());
                r
            },
        }
    }

    pub fn regions(&self) -> (r: Vec<&Region>)
        ensures
            derefs(r@) == self.kind.child_regions(),
    {
        match &self.kind {
            ScheduleNodeKind::If { then_body, else_body, .. } => {
                let mut r: Vec<&Region> = Vec::new();
                r.push(then_body);
                r.push(else_body);
                assert(derefs(r@) =~= self.kind.child_regions());
                r
            },
            ScheduleNodeKind::For { body, .. } | ScheduleNodeKind::PipelineFor { body, .. } => {
                let mut r: Vec<&Region> = Vec::new();
                r.push(body);
                assert(derefs(r@) =~= self.kind.child_regions());
                r
            },
            ScheduleNodeKind::ConcurrentRoles { roles, .. } => {
                let mut r: Vec<&Region> = Vec::new();
                let mut i: usize = 0;
                while i < roles.len()
                    invariant
                        i <= roles@.len(),
                        r@.len() == i,
                        derefs(r@) == roles@.take(i as int).map_values(|x: RoleRegion| x.body),
                    decreases roles@.len() - i,
                {
                    let ghost before = r@;
                    let x: &Region = &roles[i].body;
                    r.push(x);
                    proof {
                        let t = roles@.take(i + 1).map_values(|x: RoleRegion| x.body);
                        assert forall|j: int| 0 <= j < i + 1 implies derefs(r@)[j] == t[j] by {
                            if j < i {
                                assert(derefs(r@)[j] == *r@[j]);
                                assert(r@[j] == before[j]);
                                assert(derefs(before)[j] == *before[j]);
                            }
                        }
                        assert(derefs(r@) =~= roles@.take(i + 1).map_values(
                            |x: RoleRegion| x.body,
                        ));
                    }
                    i = i + 1;
                }
                assert(roles@.take(roles@.len() as int) =~= roles@);
                r
            },
            _ => {
                let r: Vec<&Region> = Vec::new();
                assert(derefs(r@) =~= self.kind.child_regions());
                r
            },
        }
    }
}

} // verus!

verus! {

/// `b` copies the value definition `a`: the same ID and type.
pub open spec fn copies_def(a: ValueDef, b: ValueDef) -> bool {
    a.id == b.id && a.ty@ == b.ty@
}

pub open spec fn copies_defs(a: Seq<ValueDef>, b: Seq<ValueDef>) -> bool {
    a.len() == b.len() && forall|i: int| 0 <= i < a.len() ==> copies_def(#[trigger] a[i], b[i])
}

pub open spec fn copies_carried(a: Seq<CarriedValue>, b: Seq<CarriedValue>) -> bool {
    &&& a.len() == b.len()
    &&& forall|i: int|
        0 <= i < a.len() ==> (#[trigger] a[i]).initial == b[i].initial && copies_def(a[i].argument, b[i].argument)
            && copies_def(a[i].result, b[i].result)
}

/// `b` copies the region `a`: node by node, nested regions included.
pub open spec fn copies_region(a: Seq<ScheduleNode>, b: Seq<ScheduleNode>) -> bool
    decreases a, 2nat,
{
    a.len() == b.len() && (a.len() == 0 || (copies_region(a.drop_last(), b.drop_last()) && copies_node(
        a.last(),
        b.last(),
    )))
}

pub open spec fn copies_roles(a: Seq<RoleRegion>, b: Seq<RoleRegion>) -> bool
    decreases a, 2nat,
{
    a.len() == b.len() && (a.len() == 0 || (copies_roles(a.drop_last(), b.drop_last()) && a.last().role
        == b.last().role && copies_region(a.last().body@, b.last().body@)))
}

/// `b` copies the node `a`: its metadata and its payload.
pub open spec fn copies_node(a: ScheduleNode, b: ScheduleNode) -> bool
    decreases a, 1nat,
{
    &&& a.meta.node_id == b.meta.node_id
    &&& a.meta.node_revision == b.meta.node_revision
    &&& a.meta.source_span == b.meta.source_span
    &&& a.meta.origin_ids@ == b.meta.origin_ids@
    &&& copies_kind(a.kind, b.kind)
}

/// `b` copies the payload `a`: the same variant, with equal identifiers, literals and
/// operators, value definitions of the same IDs and types, and copied nested regions.
pub open spec fn copies_kind(a: ScheduleNodeKind, b: ScheduleNodeKind) -> bool
    decreases a, 0nat,
{
    match a {
        ScheduleNodeKind::LaunchIndex { builtin, result } => b matches ScheduleNodeKind::LaunchIndex {
            builtin: b1,
            result: r1,
        } && builtin == b1 && copies_def(result, r1),
        ScheduleNodeKind::Constant { value, result } => b matches ScheduleNodeKind::Constant {
            value: v1,
            result: r1,
        } && value == v1 && copies_def(result, r1),
        ScheduleNodeKind::Binary { op, lhs, rhs, result } => b matches ScheduleNodeKind::Binary {
            op: o1,
            lhs: l1,
            rhs: h1,
            result: r1,
        } && op == o1 && lhs == l1 && rhs == h1 && copies_def(result, r1),
        ScheduleNodeKind::Load { source, indices, mask, masked_value, result } => b matches ScheduleNodeKind::Load {
            source: s1,
            indices: i1,
            mask: m1,
            masked_value: v1,
            result: r1,
        } && source == s1 && indices@ == i1@ && mask == m1 && masked_value == v1 && copies_def(result, r1),
        ScheduleNodeKind::Store { destination, indices, value, mask } => b matches ScheduleNodeKind::Store {
            destination: d1,
            indices: i1,
            value: v1,
            mask: m1,
        } && destination == d1 && indices@ == i1@ && value == v1 && mask == m1,
        ScheduleNodeKind::If { condition, results, then_body, else_body } => b matches ScheduleNodeKind::If {
            condition: c1,
            results: r1,
            then_body: t1,
            else_body: e1,
        } && condition == c1 && copies_defs(results@, r1@) && copies_region(then_body@, t1@) && copies_region(
            else_body@,
            e1@,
        ),
        ScheduleNodeKind::For { lower, upper, step, induction, carried, body } => b matches ScheduleNodeKind::For {
            lower: l1,
            upper: u1,
            step: s1,
            induction: n1,
            carried: c1,
            body: b1,
        } && lower == l1 && upper == u1 && step == s1 && copies_def(induction, n1) && copies_carried(
            carried@,
            c1@,
        ) && copies_region(body@, b1@),
        ScheduleNodeKind::Yield { values } => b matches ScheduleNodeKind::Yield { values: v1 } && values@ == v1@,
        ScheduleNodeKind::KernelReturn => b is KernelReturn,
        ScheduleNodeKind::ConcurrentRoles { roles, join_scope } => b matches ScheduleNodeKind::ConcurrentRoles {
            roles: r1,
            join_scope: j1,
        } && join_scope == j1 && copies_roles(roles@, r1@),
        ScheduleNodeKind::PipelineFor { pipeline, iteration, body } => b matches ScheduleNodeKind::PipelineFor {
            pipeline: p1,
            iteration: i1,
            body: b1,
        } && pipeline == p1 && copies_def(iteration, i1) && copies_region(body@, b1@),
        ScheduleNodeKind::PipelineAcquire { pipeline, iteration, ticket } => b matches ScheduleNodeKind::PipelineAcquire {
            pipeline: p1,
            iteration: i1,
            ticket: t1,
        } && pipeline == p1 && iteration == i1 && ticket == t1,
        ScheduleNodeKind::PipelinePublish { ticket, events } => b matches ScheduleNodeKind::PipelinePublish {
            ticket: t1,
            events: e1,
        } && ticket == t1 && events@ == e1@,
        ScheduleNodeKind::PipelineConsume { pipeline, iteration, ticket } => b matches ScheduleNodeKind::PipelineConsume {
            pipeline: p1,
            iteration: i1,
            ticket: t1,
        } && pipeline == p1 && iteration == i1 && ticket == t1,
        ScheduleNodeKind::PipelineRelease { ticket } => b matches ScheduleNodeKind::PipelineRelease { ticket: t1 }
            && ticket == t1,
        ScheduleNodeKind::PipelineDrain { pipeline } => b matches ScheduleNodeKind::PipelineDrain { pipeline: p1 }
            && pipeline == p1,
        ScheduleNodeKind::AsyncCopy { source, destination, transfer, completion } => b matches ScheduleNodeKind::AsyncCopy {
            source: s1,
            destination: d1,
            transfer: t1,
            completion: c1,
        } && source == s1 && destination == d1 && transfer == t1 && completion == c1,
        ScheduleNodeKind::AccumulatorInit { accumulator, value } => b matches ScheduleNodeKind::AccumulatorInit {
            accumulator: a1,
            value: v1,
        } && accumulator == a1 && value == v1,
        ScheduleNodeKind::AccumulatorRead { accumulator, result } => b matches ScheduleNodeKind::AccumulatorRead {
            accumulator: a1,
            result: r1,
        } && accumulator == a1 && copies_def(result, r1),
        ScheduleNodeKind::Sqmma { accumulator, a: x, b: y, instruction, completion } => b matches ScheduleNodeKind::Sqmma {
            accumulator: a1,
            a: x1,
            b: y1,
            instruction: n1,
            completion: c1,
        } && accumulator == a1 && x == x1 && y == y1 && instruction == n1 && completion == c1,
        ScheduleNodeKind::AwaitEvent { event } => b matches ScheduleNodeKind::AwaitEvent { event: e1 } && event == e1,
    }
}

fn copy_def(d: &ValueDef) -> (c: ValueDef)
    ensures
        copies_def(*d, c),
{
    ValueDef { id: d.id.dup(), ty: d.ty.dup() }
}

fn copy_defs(v: &Vec<ValueDef>) -> (c: Vec<ValueDef>)
    ensures
        copies_defs(v@, c@),
{
    let mut c: Vec<ValueDef> = Vec::new();
    let mut i: usize = 0;
    while i < v.len()
        invariant
            i <= v@.len(),
            c@.len() == i,
            forall|j: int| 0 <= j < i ==> copies_def(#[trigger] v@[j], c@[j]),
        decreases v@.len() - i,
    {
        c.push(copy_def(&v[i]));
        i = i + 1;
    }
    c
}

fn copy_carried(v: &Vec<CarriedValue>) -> (c: Vec<CarriedValue>)
    ensures
        copies_carried(v@, c@),
{
    let mut c: Vec<CarriedValue> = Vec::new();
    let mut i: usize = 0;
    while i < v.len()
        invariant
            i <= v@.len(),
            c@.len() == i,
            forall|j: int|
                0 <= j < i ==> (#[trigger] v@[j]).initial == c@[j].initial && copies_def(v@[j].argument, c@[j].argument)
                    && copies_def(v@[j].result, c@[j].result),
        decreases v@.len() - i,
    {
        let x = &v[i];
        c.push(CarriedValue { initial: x.initial.dup(), argument: copy_def(&x.argument), result: copy_def(&x.result) });
        i = i + 1;
    }
    c
}

fn clone_region(r: &Region) -> (c: Region)
    ensures
        copies_region(r@, c@),
    decreases r, 2nat,
{
    let mut c: Region = Vec::new();
    let mut i: usize = 0;
    while i < r.len()
        invariant
            i <= r@.len(),
            copies_region(r@.take(i as int), c@),
        decreases r@.len() - i,
    {
        proof {
            assert(decreases_to!(r => r@[i as int]));
        }
        let ghost before = c@;
        c.push(clone_node(&r[i]));
        proof {
            assert(r@.take(i + 1).drop_last() =~= r@.take(i as int));
            assert(r@.take(i + 1).last() == r@[i as int]);
            assert(c@.drop_last() =~= before);
        }
        i = i + 1;
    }
    assert(r@.take(r@.len() as int) =~= r@);
    c
}

fn clone_node(n: &ScheduleNode) -> (c: ScheduleNode)
    ensures
        copies_node(*n, c),
    decreases n, 1nat,
{
    let meta = NodeMeta {
        node_id: n.meta.node_id.dup(),
        node_revision: n.meta.node_revision,
        source_span: n.meta.source_span.dup(),
        origin_ids: crate::lookup::dup_vec(&n.meta.origin_ids),
    };
    ScheduleNode { meta, kind: clone_kind(&n.kind) }
}

fn clone_roles(roles: &Vec<RoleRegion>) -> (c: Vec<RoleRegion>)
    ensures
        copies_roles(roles@, c@),
    decreases roles, 2nat,
{
    let mut c: Vec<RoleRegion> = Vec::new();
    let mut i: usize = 0;
    while i < roles.len()
        invariant
            i <= roles@.len(),
            copies_roles(roles@.take(i as int), c@),
        decreases roles@.len() - i,
    {
        proof {
            assert(decreases_to!(roles => roles@[i as int]));
        }
        let role = &roles[i];
        let ghost before = c@;
        c.push(RoleRegion { role: role.role.dup(), body: clone_region(&role.body) });
        proof {
            assert(roles@.take(i + 1).drop_last() =~= roles@.take(i as int));
            assert(roles@.take(i + 1).last() == roles@[i as int]);
            assert(c@.drop_last() =~= before);
        }
        i = i + 1;
    }
    assert(roles@.take(roles@.len() as int) =~= roles@);
    c
}

fn clone_kind(k: &ScheduleNodeKind) -> (c: ScheduleNodeKind)
    ensures
        copies_kind(*k, c),
    decreases k, 0nat,
{
    match k {
        ScheduleNodeKind::LaunchIndex { builtin, result } => ScheduleNodeKind::LaunchIndex {
            builtin: *builtin,
            result: copy_def(result),
        },
        ScheduleNodeKind::Constant { value, result } => ScheduleNodeKind::Constant {
            value: *value,
            result: copy_def(result),
        },
        ScheduleNodeKind::Binary { op, lhs, rhs, result } => ScheduleNodeKind::Binary {
            op: *op,
            lhs: lhs.dup(),
            rhs: rhs.dup(),
            result: copy_def(result),
        },
        ScheduleNodeKind::Load { source, indices, mask, masked_value, result } =>
            ScheduleNodeKind::Load {
            source: source.dup(),
            indices: crate::lookup::dup_vec(indices),
            mask: mask.dup(),
            masked_value: masked_value.dup(),
            result: copy_def(result),
        },
        ScheduleNodeKind::Store { destination, indices, value, mask } => ScheduleNodeKind::Store {
            destination: destination.dup(),
            indices: crate::lookup::dup_vec(indices),
            value: value.dup(),
            mask: mask.dup(),
        },
        ScheduleNodeKind::If { condition, results, then_body, else_body } => ScheduleNodeKind::If {
            condition: condition.dup(),
            results: copy_defs(results),
            then_body: clone_region(then_body),
            else_body: clone_region(else_body),
        },
        ScheduleNodeKind::For { lower, upper, step, induction, carried, body } =>
            ScheduleNodeKind::For {
            lower: lower.dup(),
            upper: upper.dup(),
            step: step.dup(),
            induction: copy_def(induction),
            carried: copy_carried(carried),
            body: clone_region(body),
        },
        ScheduleNodeKind::Yield { values } => ScheduleNodeKind::Yield { values: crate::lookup::dup_vec(values) },
        ScheduleNodeKind::KernelReturn => ScheduleNodeKind::KernelReturn,
        ScheduleNodeKind::ConcurrentRoles { roles, join_scope } =>
            ScheduleNodeKind::ConcurrentRoles { roles: clone_roles(roles), join_scope: *join_scope },
        ScheduleNodeKind::PipelineFor { pipeline, iteration, body } =>
            ScheduleNodeKind::PipelineFor {
            pipeline: pipeline.dup(),
            iteration: copy_def(iteration),
            body: clone_region(body),
        },
        ScheduleNodeKind::PipelineAcquire { pipeline, iteration, ticket } =>
            ScheduleNodeKind::PipelineAcquire {
            pipeline: pipeline.dup(),
            iteration: iteration.dup(),
            ticket: ticket.dup(),
        },
        ScheduleNodeKind::PipelinePublish { ticket, events } => ScheduleNodeKind::PipelinePublish {
            ticket: ticket.dup(),
            events: crate::lookup::dup_vec(events),
        },
        ScheduleNodeKind::PipelineConsume { pipeline, iteration, ticket } =>
            ScheduleNodeKind::PipelineConsume {
            pipeline: pipeline.dup(),
            iteration: iteration.dup(),
            ticket: ticket.dup(),
        },
        ScheduleNodeKind::PipelineRelease { ticket } => ScheduleNodeKind::PipelineRelease {
            ticket: ticket.dup(),
        },
        ScheduleNodeKind::PipelineDrain { pipeline } => ScheduleNodeKind::PipelineDrain {
            pipeline: pipeline.dup(),
        },
        ScheduleNodeKind::AsyncCopy { source, destination, transfer, completion } =>
            ScheduleNodeKind::AsyncCopy {
            source: source.dup(),
            destination: destination.dup(),
            transfer: transfer.dup(),
            completion: completion.dup(),
        },
        ScheduleNodeKind::AccumulatorInit { accumulator, value } =>
            ScheduleNodeKind::AccumulatorInit {
            accumulator: accumulator.dup(),
            value: value.dup(),
        },
        ScheduleNodeKind::AccumulatorRead { accumulator, result } =>
            ScheduleNodeKind::AccumulatorRead {
            accumulator: accumulator.dup(),
            result: copy_def(result),
        },
        ScheduleNodeKind::Sqmma { accumulator, a, b, instruction, completion } =>
            ScheduleNodeKind::Sqmma {
            accumulator: accumulator.dup(),
            a: a.dup(),
            b: b.dup(),
            instruction: instruction.dup(),
            completion: completion.dup(),
        },
        ScheduleNodeKind::AwaitEvent { event } => ScheduleNodeKind::AwaitEvent {
            event: event.dup(),
        },
    }
}

impl Clone for ScheduleNode {
    fn clone(&self) -> (c: Self) {
        clone_node(self)
    }
}

impl Clone for RoleRegion {
    fn clone(&self) -> (c: Self) {
        RoleRegion { role: self.role.clone(), body: clone_region(&self.body) }
    }
}

impl Clone for ScheduleNodeKind {
    fn clone(&self) -> (c: Self) {
        clone_kind(self)
    }
}

} // verus!
