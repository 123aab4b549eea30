//! Identifiers, scalar types, index expressions and memory views of the IR.
use crate::lookup::{Dup, Keyed};
use vstd::prelude::*;
use vstd::std_specs::convert::FromSpecImpl;

verus! {

#[derive(Clone, Debug, Default, PartialEq, Eq, PartialOrd, Ord, Hash)]
pub struct NodeId(pub String);

impl View for NodeId {
    type V = Seq<char>;

    open spec fn view(&self) -> Seq<char> {
        self.0@
    }
}

impl Keyed for NodeId {
    open spec fn key(&self) -> Seq<char> {
        self.0@
    }

    fn key_string(&self) -> (r: &String) {
        &self.0
    }
}

impl Dup for NodeId {
    fn dup(&self) -> (r: Self) {
        NodeId(self.0.clone())
    }
}

impl NodeId {
    pub fn same(&self, other: &Self) -> (r: bool)
        ensures
            r == (self@ == other@),
    {
        self.0.eq(&other.0)
    }

    pub fn is_empty(&self) -> (r: bool)
        ensures
            r == (self@.len() == 0),
    {
        self.0.as_str().is_empty()
    }
}

impl From<&str> for NodeId {
    fn from(value: &str) -> (r: Self)
        ensures
            r@ == value@,
    {
        NodeId(value.to_owned())
    }
}

/// A string slice has no value-level spec constructor; `from` states its result by view instead.
impl FromSpecImpl<&str> for NodeId {
    open spec fn obeys_from_spec() -> bool {
        false
    }

    open spec fn from_spec(v: &str) -> NodeId {
        arbitrary()
    }
}

impl From<String> for NodeId {
    fn from(value: String) -> (r: Self) {
        NodeId(value)
    }
}

impl FromSpecImpl<String> for NodeId {
    open spec fn obeys_from_spec() -> bool {
        true
    }

    open spec fn from_spec(v: String) -> NodeId {
        NodeId(v)
    }
}

#[derive(Clone, Debug, Default, PartialEq, Eq, PartialOrd, Ord, Hash)]
pub struct ValueId(pub String);

impl View for ValueId {
    type V = Seq<char>;

    open spec fn view(&self) -> Seq<char> {
        self.0@
    }
}

impl Keyed for ValueId {
    open spec fn key(&self) -> Seq<char> {
        self.0@
    }

    fn key_string(&self) -> (r: &String) {
        &self.0
    }
}

impl Dup for ValueId {
    fn dup(&self) -> (r: Self) {
        ValueId(self.0.clone())
    }
}

impl ValueId {
    pub fn same(&self, other: &Self) -> (r: bool)
        ensures
            r == (self@ == other@),
    {
        self.0.eq(&other.0)
    }

    pub fn is_empty(&self) -> (r: bool)
        ensures
            r == (self@.len() == 0),
    {
        self.0.as_str().is_empty()
    }
}

impl From<&str> for ValueId {
    fn from(value: &str) -> (r: Self)
        ensures
            r@ == value@,
    {
        ValueId(value.to_owned())
    }
}

/// A string slice has no value-level spec constructor; `from` states its result by view instead.
impl FromSpecImpl<&str> for ValueId {
    open spec fn obeys_from_spec() -> bool {
        false
    }

    open spec fn from_spec(v: &str) -> ValueId {
        arbitrary()
    }
}

impl From<String> for ValueId {
    fn from(value: String) -> (r: Self) {
        ValueId(value)
    }
}

impl FromSpecImpl<String> for ValueId {
    open spec fn obeys_from_spec() -> bool {
        true
    }

    open spec fn from_spec(v: String) -> ValueId {
        ValueId(v)
    }
}

#[derive(Clone, Debug, Default, PartialEq, Eq, PartialOrd, Ord, Hash)]
pub struct StorageId(pub String);

impl View for StorageId {
    type V = Seq<char>;

    open spec fn view(&self) -> Seq<char> {
        self.0@
    }
}

impl Keyed for StorageId {
    open spec fn key(&self) -> Seq<char> {
        self.0@
    }

    fn key_string(&self) -> (r: &String) {
        &self.0
    }
}

impl Dup for StorageId {
    fn dup(&self) -> (r: Self) {
        StorageId(self.0.clone())
    }
}

impl StorageId {
    pub fn same(&self, other: &Self) -> (r: bool)
        ensures
            r == (self@ == other@),
    {
        self.0.eq(&other.0)
    }

    pub fn is_empty(&self) -> (r: bool)
        ensures
            r == (self@.len() == 0),
    {
        self.0.as_str().is_empty()
    }
}

impl From<&str> for StorageId {
    fn from(value: &str) -> (r: Self)
        ensures
            r@ == value@,
    {
        StorageId(value.to_owned())
    }
}

/// A string slice has no value-level spec constructor; `from` states its result by view instead.
impl FromSpecImpl<&str> for StorageId {
    open spec fn obeys_from_spec() -> bool {
        false
    }

    open spec fn from_spec(v: &str) -> StorageId {
        arbitrary()
    }
}

impl From<String> for StorageId {
    fn from(value: String) -> (r: Self) {
        StorageId(value)
    }
}

impl FromSpecImpl<String> for StorageId {
    open spec fn obeys_from_spec() -> bool {
        true
    }

    open spec fn from_spec(v: String) -> StorageId {
        StorageId(v)
    }
}

#[derive(Clone, Debug, Default, PartialEq, Eq, PartialOrd, Ord, Hash)]
pub struct BufferId(pub String);

impl View for BufferId {
    type V = Seq<char>;

    open spec fn view(&self) -> Seq<char> {
        self.0@
    }
}

impl Keyed for BufferId {
    open spec fn key(&self) -> Seq<char> {
        self.0@
    }

    fn key_string(&self) -> (r: &String) {
        &self.0
    }
}

impl Dup for BufferId {
    fn dup(&self) -> (r: Self) {
        BufferId(self.0.clone())
    }
}

impl BufferId {
    pub fn same(&self, other: &Self) -> (r: bool)
        ensures
            r == (self@ == other@),
    {
        self.0.eq(&other.0)
    }

    pub fn is_empty(&self) -> (r: bool)
        ensures
            r == (self@.len() == 0),
    {
        self.0.as_str().is_empty()
    }
}

impl From<&str> for BufferId {
    fn from(value: &str) -> (r: Self)
        ensures
            r@ == value@,
    {
        BufferId(value.to_owned())
    }
}

/// A string slice has no value-level spec constructor; `from` states its result by view instead.
impl FromSpecImpl<&str> for BufferId {
    open spec fn obeys_from_spec() -> bool {
        false
    }

    open spec fn from_spec(v: &str) -> BufferId {
        arbitrary()
    }
}

impl From<String> for BufferId {
    fn from(value: String) -> (r: Self) {
        BufferId(value)
    }
}

impl FromSpecImpl<String> for BufferId {
    open spec fn obeys_from_spec() -> bool {
        true
    }

    open spec fn from_spec(v: String) -> BufferId {
        BufferId(v)
    }
}

#[derive(Clone, Debug, Default, PartialEq, Eq, PartialOrd, Ord, Hash)]
pub struct RoleId(pub String);

impl View for RoleId {
    type V = Seq<char>;

    open spec fn view(&self) -> Seq<char> {
        self.0@
    }
}

impl Keyed for RoleId {
    open spec fn key(&self) -> Seq<char> {
        self.0@
    }

    fn key_string(&self) -> (r: &String) {
        &self.0
    }
}

impl Dup for RoleId {
    fn dup(&self) -> (r: Self) {
        RoleId(self.0.clone())
    }
}

impl RoleId {
    pub fn same(&self, other: &Self) -> (r: bool)
        ensures
            r == (self@ == other@),
    {
        self.0.eq(&other.0)
    }

    pub fn is_empty(&self) -> (r: bool)
        ensures
            r == (self@.len() == 0),
    {
        self.0.as_str().is_empty()
    }
}

impl From<&str> for RoleId {
    fn from(value: &str) -> (r: Self)
        ensures
            r@ == value@,
    {
        RoleId(value.to_owned())
    }
}

/// A string slice has no value-level spec constructor; `from` states its result by view instead.
impl FromSpecImpl<&str> for RoleId {
    open spec fn obeys_from_spec() -> bool {
        false
    }

    open spec fn from_spec(v: &str) -> RoleId {
        arbitrary()
    }
}

impl From<String> for RoleId {
    fn from(value: String) -> (r: Self) {
        RoleId(value)
    }
}

impl FromSpecImpl<String> for RoleId {
    open spec fn obeys_from_spec() -> bool {
        true
    }

    open spec fn from_spec(v: String) -> RoleId {
        RoleId(v)
    }
}

#[derive(Clone, Debug, Default, PartialEq, Eq, PartialOrd, Ord, Hash)]
pub struct PipelineId(pub String);

impl View for PipelineId {
    type V = Seq<char>;

    open spec fn view(&self) -> Seq<char> {
        self.0@
    }
}

impl Keyed for PipelineId {
    open spec fn key(&self) -> Seq<char> {
        self.0@
    }

    fn key_string(&self) -> (r: &String) {
        &self.0
    }
}

impl Dup for PipelineId {
    fn dup(&self) -> (r: Self) {
        PipelineId(self.0.clone())
    }
}

impl PipelineId {
    pub fn same(&self, other: &Self) -> (r: bool)
        ensures
            r == (self@ == other@),
    {
        self.0.eq(&other.0)
    }

    pub fn is_empty(&self) -> (r: bool)
        ensures
            r == (self@.len() == 0),
    {
        self.0.as_str().is_empty()
    }
}

impl From<&str> for PipelineId {
    fn from(value: &str) -> (r: Self)
        ensures
            r@ == value@,
    {
        PipelineId(value.to_owned())
    }
}

/// A string slice has no value-level spec constructor; `from` states its result by view instead.
impl FromSpecImpl<&str> for PipelineId {
    open spec fn obeys_from_spec() -> bool {
        false
    }

    open spec fn from_spec(v: &str) -> PipelineId {
        arbitrary()
    }
}

impl From<String> for PipelineId {
    fn from(value: String) -> (r: Self) {
        PipelineId(value)
    }
}

impl FromSpecImpl<String> for PipelineId {
    open spec fn obeys_from_spec() -> bool {
        true
    }

    open spec fn from_spec(v: String) -> PipelineId {
        PipelineId(v)
    }
}

#[derive(Clone, Debug, Default, PartialEq, Eq, PartialOrd, Ord, Hash)]
pub struct AccumulatorId(pub String);

impl View for AccumulatorId {
    type V = Seq<char>;

    open spec fn view(&self) -> Seq<char> {
        self.0@
    }
}

impl Keyed for AccumulatorId {
    open spec fn key(&self) -> Seq<char> {
        self.0@
    }

    fn key_string(&self) -> (r: &String) {
        &self.0
    }
}

impl Dup for AccumulatorId {
    fn dup(&self) -> (r: Self) {
        AccumulatorId(self.0.clone())
    }
}

impl AccumulatorId {
    pub fn same(&self, other: &Self) -> (r: bool)
        ensures
            r == (self@ == other@),
    {
        self.0.eq(&other.0)
    }

    pub fn is_empty(&self) -> (r: bool)
        ensures
            r == (self@.len() == 0),
    {
        self.0.as_str().is_empty()
    }
}

impl From<&str> for AccumulatorId {
    fn from(value: &str) -> (r: Self)
        ensures
            r@ == value@,
    {
        AccumulatorId(value.to_owned())
    }
}

/// A string slice has no value-level spec constructor; `from` states its result by view instead.
impl FromSpecImpl<&str> for AccumulatorId {
    open spec fn obeys_from_spec() -> bool {
        false
    }

    open spec fn from_spec(v: &str) -> AccumulatorId {
        arbitrary()
    }
}

impl From<String> for AccumulatorId {
    fn from(value: String) -> (r: Self) {
        AccumulatorId(value)
    }
}

impl FromSpecImpl<String> for AccumulatorId {
    open spec fn obeys_from_spec() -> bool {
        true
    }

    open spec fn from_spec(v: String) -> AccumulatorId {
        AccumulatorId(v)
    }
}

#[derive(Clone, Debug, Default, PartialEq, Eq, PartialOrd, Ord, Hash)]
pub struct EventId(pub String);

impl View for EventId {
    type V = Seq<char>;

    open spec fn view(&self) -> Seq<char> {
        self.0@
    }
}

impl Keyed for EventId {
    open spec fn key(&self) -> Seq<char> {
        self.0@
    }

    fn key_string(&self) -> (r: &String) {
        &self.0
    }
}

impl Dup for EventId {
    fn dup(&self) -> (r: Self) {
        EventId(self.0.clone())
    }
}

impl EventId {
    pub fn same(&self, other: &Self) -> (r: bool)
        ensures
            r == (self@ == other@),
    {
        self.0.eq(&other.0)
    }

    pub fn is_empty(&self) -> (r: bool)
        ensures
            r == (self@.len() == 0),
    {
        self.0.as_str().is_empty()
    }
}

impl From<&str> for EventId {
    fn from(value: &str) -> (r: Self)
        ensures
            r@ == value@,
    {
        EventId(value.to_owned())
    }
}

/// A string slice has no value-level spec constructor; `from` states its result by view instead.
impl FromSpecImpl<&str> for EventId {
    open spec fn obeys_from_spec() -> bool {
        false
    }

    open spec fn from_spec(v: &str) -> EventId {
        arbitrary()
    }
}

impl From<String> for EventId {
    fn from(value: String) -> (r: Self) {
        EventId(value)
    }
}

impl FromSpecImpl<String> for EventId {
    open spec fn obeys_from_spec() -> bool {
        true
    }

    open spec fn from_spec(v: String) -> EventId {
        EventId(v)
    }
}

#[derive(Clone, Debug, Default, PartialEq, Eq, PartialOrd, Ord, Hash)]
pub struct TicketId(pub String);

impl View for TicketId {
    type V = Seq<char>;

    open spec fn view(&self) -> Seq<char> {
        self.0@
    }
}

impl Keyed for TicketId {
    open spec fn key(&self) -> Seq<char> {
        self.0@
    }

    fn key_string(&self) -> (r: &String) {
        &self.0
    }
}

impl Dup for TicketId {
    fn dup(&self) -> (r: Self) {
        TicketId(self.0.clone())
    }
}

impl TicketId {
    pub fn same(&self, other: &Self) -> (r: bool)
        ensures
            r == (self@ == other@),
    {
        self.0.eq(&other.0)
    }

    pub fn is_empty(&self) -> (r: bool)
        ensures
            r == (self@.len() == 0),
    {
        self.0.as_str().is_empty()
    }
}

impl From<&str> for TicketId {
    fn from(value: &str) -> (r: Self)
        ensures
            r@ == value@,
    {
        TicketId(value.to_owned())
    }
}

/// A string slice has no value-level spec constructor; `from` states its result by view instead.
impl FromSpecImpl<&str> for TicketId {
    open spec fn obeys_from_spec() -> bool {
        false
    }

    open spec fn from_spec(v: &str) -> TicketId {
        arbitrary()
    }
}

impl From<String> for TicketId {
    fn from(value: String) -> (r: Self) {
        TicketId(value)
    }
}

impl FromSpecImpl<String> for TicketId {
    open spec fn obeys_from_spec() -> bool {
        true
    }

    open spec fn from_spec(v: String) -> TicketId {
        TicketId(v)
    }
}

#[derive(Clone, Debug, Default, PartialEq, Eq, PartialOrd, Ord, Hash)]
pub struct InstructionSpecId(pub String);

impl View for InstructionSpecId {
    type V = Seq<char>;

    open spec fn view(&self) -> Seq<char> {
        self.0@
    }
}

impl Keyed for InstructionSpecId {
    open spec fn key(&self) -> Seq<char> {
        self.0@
    }

    fn key_string(&self) -> (r: &String) {
        &self.0
    }
}

impl Dup for InstructionSpecId {
    fn dup(&self) -> (r: Self) {
        InstructionSpecId(self.0.clone())
    }
}

impl InstructionSpecId {
    pub fn same(&self, other: &Self) -> (r: bool)
        ensures
            r == (self@ == other@),
    {
        self.0.eq(&other.0)
    }

    pub fn is_empty(&self) -> (r: bool)
        ensures
            r == (self@.len() == 0),
    {
        self.0.as_str().is_empty()
    }
}

impl From<&str> for InstructionSpecId {
    fn from(value: &str) -> (r: Self)
        ensures
            r@ == value@,
    {
        InstructionSpecId(value.to_owned())
    }
}

/// A string slice has no value-level spec constructor; `from` states its result by view instead.
impl FromSpecImpl<&str> for InstructionSpecId {
    open spec fn obeys_from_spec() -> bool {
        false
    }

    open spec fn from_spec(v: &str) -> InstructionSpecId {
        arbitrary()
    }
}

impl From<String> for InstructionSpecId {
    fn from(value: String) -> (r: Self) {
        InstructionSpecId(value)
    }
}

impl FromSpecImpl<String> for InstructionSpecId {
    open spec fn obeys_from_spec() -> bool {
        true
    }

    open spec fn from_spec(v: String) -> InstructionSpecId {
        InstructionSpecId(v)
    }
}

#[derive(Clone, Debug, Default, PartialEq, Eq, PartialOrd, Ord, Hash)]
pub struct TransferSpecId(pub String);

impl View for TransferSpecId {
    type V = Seq<char>;

    open spec fn view(&self) -> Seq<char> {
        self.0@
    }
}

impl Keyed for TransferSpecId {
    open spec fn key(&self) -> Seq<char> {
        self.0@
    }

    fn key_string(&self) -> (r: &String) {
        &self.0
    }
}

impl Dup for TransferSpecId {
    fn dup(&self) -> (r: Self) {
        TransferSpecId(self.0.clone())
    }
}

impl TransferSpecId {
    pub fn same(&self, other: &Self) -> (r: bool)
        ensures
            r == (self@ == other@),
    {
        self.0.eq(&other.0)
    }

    pub fn is_empty(&self) -> (r: bool)
        ensures
            r == (self@.len() == 0),
    {
        self.0.as_str().is_empty()
    }
}

impl From<&str> for TransferSpecId {
    fn from(value: &str) -> (r: Self)
        ensures
            r@ == value@,
    {
        TransferSpecId(value.to_owned())
    }
}

/// A string slice has no value-level spec constructor; `from` states its result by view instead.
impl FromSpecImpl<&str> for TransferSpecId {
    open spec fn obeys_from_spec() -> bool {
        false
    }

    open spec fn from_spec(v: &str) -> TransferSpecId {
        arbitrary()
    }
}

impl From<String> for TransferSpecId {
    fn from(value: String) -> (r: Self) {
        TransferSpecId(value)
    }
}

impl FromSpecImpl<String> for TransferSpecId {
    open spec fn obeys_from_spec() -> bool {
        true
    }

    open spec fn from_spec(v: String) -> TransferSpecId {
        TransferSpecId(v)
    }
}

#[derive(Clone, Copy, Debug, PartialEq, Eq, Structural)]
pub enum DType {
    Bool,
    I32,
    I64,
    U32,
    U64,
    F16,
    BF16,
    F32,
    F64,
}

impl DType {
    /// The size of one element in bytes.
    pub open spec fn bytes(self) -> u64 {
        match self {
            DType::Bool => 1,
            DType::F16 | DType::BF16 => 2,
            DType::I32 | DType::U32 | DType::F32 => 4,
            DType::I64 | DType::U64 | DType::F64 => 8,
        }
    }

    pub fn size_bytes(&self) -> (r: u64)
        ensures
            r == self.bytes(),
    {
        match self {
            DType::Bool => 1,
            DType::F16 | DType::BF16 => 2,
            DType::I32 | DType::U32 | DType::F32 => 4,
            DType::I64 | DType::U64 | DType::F64 => 8,
        }
    }
}

/// Ordinary immutable values. Resources, tickets and events are separate namespaces.
#[derive(Clone, Debug, PartialEq, Eq)]
pub enum TypeRef {
    Scalar(DType),
    /// The initial index model is unsigned 64-bit arithmetic with checked bounds.
    Index,
    Predicate,
    Pointer(PointerType),
    Fragment(FragmentType),
}

#[derive(Clone, Copy, Debug, PartialEq, Eq, Structural)]
pub struct PointerType {
    pub element: DType,
    pub address_space: AddressSpace,
    pub mutable: bool,
}

#[derive(Clone, Copy, Debug, PartialEq, Eq, Structural)]
pub enum AddressSpace {
    Global,
    Shared,
    Private,
}

#[derive(Clone, Copy, Debug, PartialEq, Eq, Structural)]
pub enum Scope {
    Thread,
    Warp,
    Block,
}

#[derive(Debug, PartialEq, Eq)]
pub enum IndexExpr {
    Constant(u64),
    Value(ValueId),
    Add(Box<IndexExpr>, Box<IndexExpr>),
    Mul(Box<IndexExpr>, Box<IndexExpr>),
    FloorDiv(Box<IndexExpr>, Box<IndexExpr>),
}

/// An index expression with identifiers taken by their text.
pub enum IndexExprV {
    Constant(u64),
    Value(Seq<char>),
    Add(Box<IndexExprV>, Box<IndexExprV>),
    Mul(Box<IndexExprV>, Box<IndexExprV>),
    FloorDiv(Box<IndexExprV>, Box<IndexExprV>),
}

pub open spec fn index_view(e: IndexExpr) -> IndexExprV
    decreases e,
{
    match e {
        IndexExpr::Constant(n) => IndexExprV::Constant(n),
        IndexExpr::Value(id) => IndexExprV::Value(id@),
        IndexExpr::Add(a, b) => IndexExprV::Add(Box::new(index_view(*a)), Box::new(index_view(*b))),
        IndexExpr::Mul(a, b) => IndexExprV::Mul(Box::new(index_view(*a)), Box::new(index_view(*b))),
        IndexExpr::FloorDiv(a, b) => IndexExprV::FloorDiv(
            Box::new(index_view(*a)),
            Box::new(index_view(*b)),
        ),
    }
}

impl View for IndexExpr {
    type V = IndexExprV;

    open spec fn view(&self) -> IndexExprV {
        index_view(*self)
    }
}

pub open spec fn exprs_view(s: Seq<IndexExpr>) -> Seq<IndexExprV> {
    s.map_values(|e: IndexExpr| e@)
}

/// What an index evaluates to: a known constant, a symbolic value (`None`), or an error.
pub type EvalResult = Result<Option<u64>, Seq<char>>;

pub open spec fn div_zero_message() -> Seq<char> {
    "index division by zero"@
}

pub open spec fn overflow_message() -> Seq<char> {
    "index arithmetic overflows u64"@
}

/// Combines the evaluations of two operands: errors propagate left to right, a
/// known zero divisor is an error even when the dividend is symbolic, and a
/// known result that does not fit in `u64` is an error.
pub open spec fn eval_binary(kind: u8, l: EvalResult, r: EvalResult) -> EvalResult {
    match l {
        Err(e) => Err(e),
        Ok(lv) => match r {
            Err(e) => Err(e),
            Ok(rv) => if kind == 2 && rv == Some(0u64) {
                Err(div_zero_message())
            } else {
                match (lv, rv) {
                    (Some(a), Some(b)) => {
                        let v: int = if kind == 0 {
                            a + b
                        } else if kind == 1 {
                            a * b
                        } else {
                            (a / b) as int
                        };
                        if v <= u64::MAX {
                            Ok(Some(v as u64))
                        } else {
                            Err(overflow_message())
                        }
                    },
                    _ => Ok(None),
                }
            },
        },
    }
}

/// The evaluation that an executable result stands for.
pub open spec fn eval_of(r: Result<Option<u64>, &'static str>) -> EvalResult {
    match r {
        Ok(v) => Ok(v),
        Err(m) => Err(m@),
    }
}

impl IndexExpr {
    /// The value of the expression: `Ok(None)` means symbolic, not zero.
    pub open spec fn eval(self) -> EvalResult
        decreases self,
    {
        match self {
            IndexExpr::Constant(n) => Ok(Some(n)),
            IndexExpr::Value(_) => Ok(None),
            IndexExpr::Add(a, b) => eval_binary(0, a.eval(), b.eval()),
            IndexExpr::Mul(a, b) => eval_binary(1, a.eval(), b.eval()),
            IndexExpr::FloorDiv(a, b) => eval_binary(2, a.eval(), b.eval()),
        }
    }

    /// The value identifiers of the expression, left to right.
    pub open spec fn value_ids(self) -> Seq<ValueId>
        decreases self,
    {
        match self {
            IndexExpr::Constant(_) => seq![],
            IndexExpr::Value(id) => seq![id],
            IndexExpr::Add(a, b) => a.value_ids() + b.value_ids(),
            IndexExpr::Mul(a, b) => a.value_ids() + b.value_ids(),
            IndexExpr::FloorDiv(a, b) => a.value_ids() + b.value_ids(),
        }
    }

    /// An expression that references no value is never symbolic: it evaluates to a
    /// known constant or to an error.
    pub proof fn lemma_symbolic_needs_values(self)
        ensures
            self.eval() == Ok::<Option<u64>, Seq<char>>(None) ==> self.value_ids().len() > 0,
        decreases self,
    {
        match self {
            IndexExpr::Add(a, b) | IndexExpr::Mul(a, b) | IndexExpr::FloorDiv(a, b) => {
                a.lemma_symbolic_needs_values();
                b.lemma_symbolic_needs_values();
            },
            _ => {},
        }
    }

    pub fn constant(value: u64) -> (r: Self)
        ensures
            r == IndexExpr::Constant(value),
    {
        IndexExpr::Constant(value)
    }

    pub fn values(&self, output: &mut Vec<ValueId>)
        ensures
            final(output)@ == old(output)@ + self.value_ids(),
        decreases self,
    {
        match self {
            IndexExpr::Value(id) => {
                output.push(id.dup());
            },
            IndexExpr::Add(a, b) | IndexExpr::Mul(a, b) | IndexExpr::FloorDiv(a, b) => {
                a.values(output);
                b.values(output);
                assert(final(output)@ =~= old(output)@ + self.value_ids());
            },
            IndexExpr::Constant(_) => {
                assert(final(output)@ =~= old(output)@ + self.value_ids());
            },
        }
    }

    /// None means symbolic, not zero or a successfully proven bound.
    pub fn evaluate(&self) -> (r: Result<Option<u64>, &'static str>)
        ensures
            match r {
                Ok(v) => self.eval() == Ok::<Option<u64>, Seq<char>>(v),
                Err(m) => self.eval() == Err::<Option<u64>, Seq<char>>(m@),
            },
        decreases self,
    {
        match self {
            IndexExpr::Constant(n) => Ok(Some(*n)),
            IndexExpr::Value(_) => Ok(None),
            IndexExpr::Add(a, b) => Self::combine(0, a.evaluate(), b.evaluate()),
            IndexExpr::Mul(a, b) => Self::combine(1, a.evaluate(), b.evaluate()),
            IndexExpr::FloorDiv(a, b) => Self::combine(2, a.evaluate(), b.evaluate()),
        }
    }

    fn combine(
        kind: u8,
        left: Result<Option<u64>, &'static str>,
        right: Result<Option<u64>, &'static str>,
    ) -> (r: Result<Option<u64>, &'static str>)
        requires
            kind <= 2,
        ensures
            match r {
                Ok(v) => eval_binary(kind, eval_of(left), eval_of(right)) == Ok::<Option<u64>, Seq<char>>(v),
                Err(m) => eval_binary(kind, eval_of(left), eval_of(right)) == Err::<Option<u64>, Seq<char>>(m@),
            },
    {
        let left = match left {
            Ok(v) => v,
            Err(m) => return Err(m),
        };
        let right = match right {
            Ok(v) => v,
            Err(m) => return Err(m),
        };
        if kind == 2 && right == Some(0u64) {
            return Err("index division by zero");
        }
        match (left, right) {
            (Some(x), Some(y)) => {
                let value = if kind == 0 {
                    x.checked_add(y)
                } else if kind == 1 {
                    x.checked_mul(y)
                } else {
                    x.checked_div(y)
                };
                match value {
                    Some(v) => Ok(Some(v)),
                    None => Err("index arithmetic overflows u64"),
                }
            },
            _ => Ok(None),
        }
    }

    pub fn same(&self, other: &Self) -> (r: bool)
        ensures
            r == (self@ == other@),
        decreases self,
    {
        match (self, other) {
            (IndexExpr::Constant(a), IndexExpr::Constant(b)) => *a == *b,
            (IndexExpr::Value(a), IndexExpr::Value(b)) => a.same(b),
            (IndexExpr::Add(a1, b1), IndexExpr::Add(a2, b2)) => a1.same(a2) && b1.same(b2),
            (IndexExpr::Mul(a1, b1), IndexExpr::Mul(a2, b2)) => a1.same(a2) && b1.same(b2),
            (IndexExpr::FloorDiv(a1, b1), IndexExpr::FloorDiv(a2, b2)) => a1.same(a2) && b1.same(
                b2,
            ),
            _ => false,
        }
    }
}

impl Dup for IndexExpr {
    fn dup(&self) -> (r: Self)
        decreases self,
    {
        match self {
            IndexExpr::Constant(n) => IndexExpr::Constant(*n),
            IndexExpr::Value(id) => IndexExpr::Value(id.dup()),
            IndexExpr::Add(a, b) => IndexExpr::Add(Box::new((**a).dup()), Box::new((**b).dup())),
            IndexExpr::Mul(a, b) => IndexExpr::Mul(Box::new((**a).dup()), Box::new((**b).dup())),
            IndexExpr::FloorDiv(a, b) => IndexExpr::FloorDiv(
                Box::new((**a).dup()),
                Box::new((**b).dup()),
            ),
        }
    }
}

impl Clone for IndexExpr {
    fn clone(&self) -> (r: Self)
        ensures
            r == *self,
    {
        self.dup()
    }
}

/// Whether two expression lists are equal element by element (by view).
pub fn exprs_same(a: &Vec<IndexExpr>, b: &Vec<IndexExpr>) -> (r: bool)
    ensures
        r == (exprs_view(a@) == exprs_view(b@)),
{
    if a.len() != b.len() {
        assert(exprs_view(a@).len() != exprs_view(b@).len());
        return false;
    }
    let mut i: usize = 0;
    while i < a.len()
        invariant
            i <= a@.len(),
            a@.len() == b@.len(),
            forall|j: int| 0 <= j < i ==> a@[j]@ == b@[j]@,
        decreases a@.len() - i,
    {
        if !a[i].same(&b[i]) {
            assert(exprs_view(a@)[i as int] != exprs_view(b@)[i as int]);
            return false;
        }
        i = i + 1;
    }
    assert(exprs_view(a@) =~= exprs_view(b@));
    true
}

#[derive(Clone, Debug, PartialEq, Eq)]
pub struct StorageType {
    pub address_space: AddressSpace,
    pub capacity_bytes: IndexExpr,
    pub alignment_bytes: u32,
}

#[derive(Clone, Debug, PartialEq, Eq)]
pub enum MappingSpec {
    Strided { strides_bytes: Vec<IndexExpr> },
    /// Admission of a registered mapping requires a future target adapter.
    Registered { name: String },
}

#[derive(Clone, Debug, PartialEq, Eq)]
pub struct BufferType {
    pub storage: StorageId,
    pub offset_bytes: IndexExpr,
    pub element: DType,
    pub shape: Vec<IndexExpr>,
    pub mapping: MappingSpec,
    pub mutable: bool,
}

#[derive(Clone, Debug, PartialEq, Eq)]
pub struct FragmentType {
    pub element: DType,
    pub logical_shape: Vec<IndexExpr>,
    pub participants: RoleId,
    pub representation: String,
}

/// A fragment type with identifiers and text taken by view.
pub struct FragmentTypeV {
    pub element: DType,
    pub logical_shape: Seq<IndexExprV>,
    pub participants: Seq<char>,
    pub representation: Seq<char>,
}

impl View for FragmentType {
    type V = FragmentTypeV;

    open spec fn view(&self) -> FragmentTypeV {
        FragmentTypeV {
            element: self.element,
            logical_shape: exprs_view(self.logical_shape@),
            participants: self.participants@,
            representation: self.representation@,
        }
    }
}

impl FragmentType {
    pub fn dup(&self) -> (r: Self)
        ensures
            r@ == self@,
    {
        FragmentType {
            element: self.element,
            logical_shape: crate::lookup::dup_vec(&self.logical_shape),
            participants: self.participants.dup(),
            representation: self.representation.clone(),
        }
    }
}

impl FragmentType {
    pub fn same(&self, other: &Self) -> (r: bool)
        ensures
            r == (self@ == other@),
    {
        self.element == other.element && exprs_same(&self.logical_shape, &other.logical_shape)
            && self.participants.same(&other.participants) && self.representation.eq(
            &other.representation,
        )
    }
}

/// A value type with identifiers and text taken by view.
pub enum TypeRefV {
    Scalar(DType),
    Index,
    Predicate,
    Pointer(PointerType),
    Fragment(FragmentTypeV),
}

impl View for TypeRef {
    type V = TypeRefV;

    open spec fn view(&self) -> TypeRefV {
        match self {
            TypeRef::Scalar(d) => TypeRefV::Scalar(*d),
            TypeRef::Index => TypeRefV::Index,
            TypeRef::Predicate => TypeRefV::Predicate,
            TypeRef::Pointer(p) => TypeRefV::Pointer(*p),
            TypeRef::Fragment(f) => TypeRefV::Fragment(f@),
        }
    }
}

impl TypeRef {
    pub fn dup(&self) -> (r: Self)
        ensures
            r@ == self@,
    {
        match self {
            TypeRef::Scalar(d) => TypeRef::Scalar(*d),
            TypeRef::Index => TypeRef::Index,
            TypeRef::Predicate => TypeRef::Predicate,
            TypeRef::Pointer(p) => TypeRef::Pointer(*p),
            TypeRef::Fragment(f) => TypeRef::Fragment(f.dup()),
        }
    }
}

impl TypeRef {
    pub fn same(&self, other: &Self) -> (r: bool)
        ensures
            r == (self@ == other@),
    {
        match (self, other) {
            (TypeRef::Scalar(a), TypeRef::Scalar(b)) => *a == *b,
            (TypeRef::Index, TypeRef::Index) => true,
            (TypeRef::Predicate, TypeRef::Predicate) => true,
            (TypeRef::Pointer(a), TypeRef::Pointer(b)) => *a == *b,
            (TypeRef::Fragment(a), TypeRef::Fragment(b)) => a.same(b),
            _ => false,
        }
    }
}

#[derive(Clone, Debug, PartialEq, Eq)]
pub enum MemoryRef {
    Buffer(BufferId),
    Leased { buffer: BufferId, ticket: TicketId },
}

impl Dup for MemoryRef {
    fn dup(&self) -> (r: Self) {
        match self {
            MemoryRef::Buffer(id) => MemoryRef::Buffer(id.dup()),
            MemoryRef::Leased { buffer, ticket } => MemoryRef::Leased {
                buffer: buffer.dup(),
                ticket: ticket.dup(),
            },
        }
    }
}

impl MemoryRef {
    /// The buffer that the reference names, leased or not.
    pub open spec fn buffer_of(self) -> BufferId {
        match self {
            MemoryRef::Buffer(id) => id,
            MemoryRef::Leased { buffer, .. } => buffer,
        }
    }

    pub fn buffer(id: &str) -> (r: Self)
        ensures
            r matches MemoryRef::Buffer(b) && b@ == id@,
    {
        MemoryRef::Buffer(id.into())
    }

    pub fn leased(buffer: &str, ticket: &str) -> (r: Self)
        ensures
            r matches MemoryRef::Leased { buffer: b, ticket: t } && b@ == buffer@ && t@ == ticket@,
    {
        MemoryRef::Leased { buffer: buffer.into(), ticket: ticket.into() }
    }

    pub fn buffer_id(&self) -> (r: &BufferId)
        ensures
            *r == self.buffer_of(),
    {
        match self {
            MemoryRef::Buffer(id) | MemoryRef::Leased { buffer: id, .. } => id,
        }
    }
}

} // verus!
