//! Admission of a checked, flat FP32 elementwise subset for CUDA lowering.
//! The admission rules are intentionally narrower than the portable AST.
use crate::ast::{
    BinaryOp, BufferDecl, Kernel, LaunchBuiltin, Module, ScheduleNode, ScheduleNodeKind,
    StorageDecl, ValueDef,
};
use crate::checker::{node_of, report};
use crate::diagnostic::{Diagnostic, DiagnosticCode, DiagnosticV};
use crate::lookup::{Dup, find, find_index, get, has_key, lemma_found, put, put_entry};
use crate::text::text;
use crate::types::{
    AddressSpace, BufferId, DType, IndexExpr, IndexExprV, MappingSpec, MemoryRef, NodeId, StorageId,
    TypeRef, TypeRefV, ValueId, exprs_view, index_view,
};
use vstd::prelude::*;

pub use crate::emit::emit_cuda;
pub use crate::verify::validate_cuda;

verus! {

/// What an index value is known to be in the elementwise subset.
#[derive(Clone, Copy, Debug, PartialEq, Eq, Structural)]
pub enum Coordinate {
    Thread,
    Block,
    BlockSize,
    GridSize,
    BlockStart,
    Linear,
}

/// Generated CUDA source with its ABI, target and source mapping.
#[derive(Clone, Debug)]
pub struct CudaArtifact {
    pub source: String,
    pub kernel_name: String,
    pub entrypoint: String,
    pub arch: String,
    pub block: [u32; 3],
    pub params: Vec<ValueDef>,
    pub extent_parameter: usize,
    pub source_map: Vec<(usize, NodeId)>,
}

/// An admitted kernel: the position of its extent parameter and, for each buffer, the
/// position of the pointer parameter it views.
pub struct Admission {
    pub extent_parameter: usize,
    pub buffer_parameters: Vec<(BufferId, usize)>,
}

/// A rejection of the subset, located at `node` when given.
pub open spec fn rejection(node: Option<ScheduleNode>, message: Seq<char>) -> DiagnosticV {
    report(node, DiagnosticCode::UnsupportedCapability, message)
}

/// The expression is `extent * 4` or `4 * extent`.
pub open spec fn extent_bytes(e: IndexExprV, extent: Seq<char>) -> bool {
    match e {
        IndexExprV::Mul(a, b) => (*a == IndexExprV::Value(extent) && *b == IndexExprV::Constant(4))
            || (*b == IndexExprV::Value(extent) && *a == IndexExprV::Constant(4)),
        _ => false,
    }
}

/// A global FP32 pointer.
pub open spec fn global_f32_pointer(t: TypeRefV) -> bool {
    t matches TypeRefV::Pointer(p) && p.element == DType::F32 && p.address_space == AddressSpace::Global
}

/// The position of the only `Index` parameter, when there is exactly one.
pub open spec fn sole_extent(params: Seq<ValueDef>) -> Option<int> {
    if exists|e: int|
        0 <= e < params.len() && (#[trigger] params[e]).ty@ == TypeRefV::Index && forall|j: int|
            0 <= j < params.len() && j != e ==> (#[trigger] params[j]).ty@ != TypeRefV::Index {
        Some(
            choose|e: int|
                0 <= e < params.len() && (#[trigger] params[e]).ty@ == TypeRefV::Index && forall|j: int|
                    0 <= j < params.len() && j != e ==> (#[trigger] params[j]).ty@ != TypeRefV::Index,
        )
    } else {
        None
    }
}

/// Every buffer views a declared storage, and an external storage names a parameter.
pub open spec fn views_resolve(k: Kernel) -> bool {
    forall|i: int|
        0 <= i < k.buffers@.len() ==> match find_index(k.storages@, (#[trigger] k.buffers@[i]).ty.storage@) {
            Some(s) => (k.storages@[s].external matches Some(ext) ==> has_key(k.params@, ext@)),
            None => false,
        }
}

/// The view is a contiguous FP32 vector of the extent, at offset zero, with stride and
/// alignment 4, over global storage of exactly `extent * 4` bytes.
pub open spec fn contiguous_view(s: StorageDecl, b: BufferDecl, extent: Seq<char>) -> bool {
    &&& s.ty.address_space == AddressSpace::Global
    &&& s.ty.alignment_bytes == 4
    &&& extent_bytes(s.ty.capacity_bytes@, extent)
    &&& b.ty.element == DType::F32
    &&& exprs_view(b.ty.shape@) == seq![IndexExprV::Value(extent)]
    &&& b.ty.offset_bytes@ == IndexExprV::Constant(0)
    &&& b.ty.mapping matches MappingSpec::Strided { strides_bytes } && exprs_view(strides_bytes@) == seq![
        IndexExprV::Constant(4),
    ]
}

/// The bindings of the buffers admitted so far: the parameters and storages they
/// use, and the parameter of each buffer.
pub struct Binding {
    pub params: Seq<int>,
    pub storages: Seq<StorageId>,
    pub map: Seq<(BufferId, usize)>,
}

/// Binds one buffer to the pointer parameter of its external storage: each pointer
/// parameter and each storage takes at most one buffer.
pub open spec fn bind_buffer(k: Kernel, e: int, acc: Binding, b: BufferDecl) -> Result<Binding, DiagnosticV> {
    match find_index(k.storages@, b.ty.storage@) {
        Some(si) => {
            let s = k.storages@[si];
            match s.external {
                None => Err(rejection(None, "CUDA buffers require external storage"@)),
                Some(ext) => match find_index(k.params@, ext@) {
                    Some(p) => if p == e || acc.params.contains(p) || has_key(acc.storages, s.id@) {
                        Err(rejection(None, "CUDA subset requires one storage and one buffer per pointer parameter"@))
                    } else if !contiguous_view(s, b, k.params@[e].id@) {
                        Err(rejection(None, "CUDA buffers must be contiguous FP32 [n], offset 0, stride/alignment 4, and storage capacity n * 4"@))
                    } else {
                        Ok(Binding { params: acc.params.push(p), storages: acc.storages.push(s.id), map: put(acc.map, b.id, p as usize) })
                    },
                    None => arbitrary(),
                },
            }
        },
        None => arbitrary(),
    }
}

/// The buffers of `prefix`, bound in order; the first failure stands.
pub open spec fn bind_buffers(k: Kernel, e: int, prefix: Seq<BufferDecl>) -> Result<Binding, DiagnosticV>
    decreases prefix.len(),
{
    if prefix.len() == 0 {
        Ok(Binding { params: seq![], storages: seq![], map: seq![] })
    } else {
        match bind_buffers(k, e, prefix.drop_last()) {
            Err(d) => Err(d),
            Ok(acc) => bind_buffer(k, e, acc, prefix.last()),
        }
    }
}

/// What the walk over the kernel body knows: the coordinate of each index value, the
/// linear index that each mask value guards, and the number of stores.
pub struct Scan {
    pub coordinates: Seq<(ValueId, Coordinate)>,
    pub masks: Seq<(ValueId, ValueId)>,
    pub stores: nat,
}

pub open spec fn launch_coordinate(b: LaunchBuiltin) -> Coordinate {
    match b {
        LaunchBuiltin::ThreadIdxX => Coordinate::Thread,
        LaunchBuiltin::BlockIdxX => Coordinate::Block,
        LaunchBuiltin::BlockDimX => Coordinate::BlockSize,
        LaunchBuiltin::GridDimX => Coordinate::GridSize,
    }
}

/// The only index arithmetic: `blockIdx.x * blockDim.x`, then that plus `threadIdx.x`.
pub open spec fn index_coordinate(op: BinaryOp, a: Option<Coordinate>, b: Option<Coordinate>) -> Option<Coordinate> {
    if op == BinaryOp::Mul && ((a == Some(Coordinate::Block) && b == Some(Coordinate::BlockSize)) || (a
        == Some(Coordinate::BlockSize) && b == Some(Coordinate::Block))) {
        Some(Coordinate::BlockStart)
    } else if op == BinaryOp::Add && ((a == Some(Coordinate::BlockStart) && b == Some(Coordinate::Thread)) || (a
        == Some(Coordinate::Thread) && b == Some(Coordinate::BlockStart))) {
        Some(Coordinate::Linear)
    } else {
        None
    }
}

/// A memory access of the subset: a plain buffer, one index, and a mask that guards
/// exactly that index.
pub open spec fn access_ok(s: Scan, reference: MemoryRef, indices: Seq<ValueId>, mask: ValueId) -> bool {
    &&& reference is Buffer
    &&& indices.len() == 1
    &&& get(s.masks, mask@) matches Some(v) && v@ == indices[0]@
}

pub open spec fn access_message() -> Seq<char> {
    "CUDA memory accesses require the same linear index i and explicit mask i < n"@
}

/// One node of the body.
pub open spec fn scan_node(s: Scan, n: ScheduleNode, extent: ValueId) -> Result<Scan, DiagnosticV> {
    match n.kind {
        ScheduleNodeKind::LaunchIndex { builtin, result } => Ok(
            Scan { coordinates: put(s.coordinates, result.id, launch_coordinate(builtin)), ..s },
        ),
        ScheduleNodeKind::Constant { result, .. } => if result.ty@ == TypeRefV::Index || result.ty@
            == TypeRefV::Predicate || result.ty@ == TypeRefV::Scalar(DType::F32) {
            Ok(s)
        } else {
            Err(rejection(Some(n), "CUDA constants support Index, Predicate and F32 only"@))
        },
        ScheduleNodeKind::Binary { op, lhs, rhs, result } => {
            let a = get(s.coordinates, lhs@);
            let b = get(s.coordinates, rhs@);
            let s1 = if result.ty@ == TypeRefV::Index {
                match index_coordinate(op, a, b) {
                    Some(cd) => Ok(Scan { coordinates: put(s.coordinates, result.id, cd), ..s }),
                    None => Err(rejection(Some(n), "CUDA Index arithmetic currently supports blockIdx.x * blockDim.x + threadIdx.x only"@)),
                }
            } else if !(result.ty@ == TypeRefV::Predicate || result.ty@ == TypeRefV::Scalar(DType::F32)) {
                Err(rejection(Some(n), "unsupported CUDA binary result type"@))
            } else {
                Ok(s)
            };
            match s1 {
                Err(d) => Err(d),
                Ok(s2) => if op == BinaryOp::Less && a == Some(Coordinate::Linear) && rhs@ == extent@ {
                    Ok(Scan { masks: put(s2.masks, result.id, lhs), ..s2 })
                } else {
                    Ok(s2)
                },
            }
        },
        ScheduleNodeKind::Load { source, indices, mask, .. } => if access_ok(s, source, indices@, mask) {
            Ok(s)
        } else {
            Err(rejection(Some(n), access_message()))
        },
        ScheduleNodeKind::Store { destination, indices, mask, .. } => if access_ok(s, destination, indices@, mask) {
            Ok(Scan { stores: s.stores + 1, ..s })
        } else {
            Err(rejection(Some(n), access_message()))
        },
        ScheduleNodeKind::KernelReturn => Ok(s),
        _ => Err(rejection(Some(n), "operation is outside the flat CUDA elementwise subset"@)),
    }
}

/// The nodes of `prefix`, in order; the first rejection stands.
pub open spec fn scan_nodes(prefix: Seq<ScheduleNode>, extent: ValueId) -> Result<Scan, DiagnosticV>
    decreases prefix.len(),
{
    if prefix.len() == 0 {
        Ok(Scan { coordinates: seq![], masks: seq![], stores: 0 })
    } else {
        match scan_nodes(prefix.drop_last(), extent) {
            Err(d) => Err(d),
            Ok(s) => scan_node(s, prefix.last(), extent),
        }
    }
}

/// Admission of a module to the CUDA elementwise subset: the target is `cuda:sm_120`
/// with one kernel of a 1D block of 1 to 1024 threads, no roles, pipelines or
/// accumulators; one `Index` extent parameter and otherwise global FP32 pointers, each
/// viewed by exactly one contiguous buffer of the extent; a body of launch
/// coordinates, constants, linear-index arithmetic and masked accesses guarded by
/// `i < n`, with at least one store. The first rule that fails is reported.
pub open spec fn spec_admit(m: Module) -> Result<(int, Seq<(BufferId, usize)>), DiagnosticV> {
    if !m.target_request.names_cuda_sm120() || m.kernels@.len() != 1 {
        Err(rejection(None, "CUDA lowering currently requires cuda:sm_120 and exactly one kernel"@))
    } else {
        let k = m.kernels@[0];
        if k.block[0] == 0 || k.block[0] > 1024 || k.block[1] != 1 || k.block[2] != 1 {
            Err(rejection(None, "CUDA elementwise lowering requires a 1D block of 1..=1024 threads"@))
        } else if k.roles@.len() != 0 || k.pipelines@.len() != 0 || k.accumulators@.len() != 0 {
            Err(rejection(None, "CUDA roles, pipelines and accumulators are not implemented"@))
        } else {
            match sole_extent(k.params@) {
                None => Err(rejection(None, "CUDA elementwise ABI requires exactly one Index extent parameter"@)),
                Some(e) => if exists|j: int|
                    0 <= j < k.params@.len() && j != e && !global_f32_pointer((#[trigger] k.params@[j]).ty@) {
                    Err(rejection(None, "CUDA elementwise ABI supports only global FP32 pointers and one Index extent"@))
                } else {
                    match bind_buffers(k, e, k.buffers@) {
                        Err(d) => Err(d),
                        Ok(bind) => if (exists|j: int|
                            0 <= j < k.params@.len() && j != e && !bind.params.contains(j)) || bind.storages.len()
                            != k.storages@.len() {
                            Err(rejection(None, "CUDA ABI requires all pointers and storages to have exactly one declared view"@))
                        } else {
                            match scan_nodes(k.body@, k.params@[e].id) {
                                Err(d) => Err(d),
                                Ok(s) => if s.stores == 0 {
                                    Err(rejection(None, "CUDA elementwise kernel must contain a Store"@))
                                } else {
                                    Ok((e, bind.map))
                                },
                            }
                        },
                    }
                },
            }
        }
    }
}

/// Once binding fails on a prefix of the buffers, it fails the same way on the whole list.
proof fn lemma_bind_err(k: Kernel, e: int, s: Seq<BufferDecl>, n: int)
    requires
        0 <= n <= s.len(),
        bind_buffers(k, e, s.take(n)) is Err,
    ensures
        bind_buffers(k, e, s) == bind_buffers(k, e, s.take(n)),
    decreases s.len(),
{
    if s.len() == n {
        assert(s.take(n) =~= s);
    } else {
        assert(s.drop_last().take(n) =~= s.take(n));
        lemma_bind_err(k, e, s.drop_last(), n);
    }
}

/// Once the walk rejects a prefix of the body, it rejects the whole body the same way.
proof fn lemma_scan_err(s: Seq<ScheduleNode>, extent: ValueId, n: int)
    requires
        0 <= n <= s.len(),
        scan_nodes(s.take(n), extent) is Err,
    ensures
        scan_nodes(s, extent) == scan_nodes(s.take(n), extent),
    decreases s.len(),
{
    if s.len() == n {
        assert(s.take(n) =~= s);
    } else {
        assert(s.drop_last().take(n) =~= s.take(n));
        lemma_scan_err(s.drop_last(), extent, n);
    }
}

/// `b` is node `a`, an addition or a multiplication, with its two operands swapped.
pub open spec fn commuted(a: ScheduleNode, b: ScheduleNode) -> bool {
    &&& a.meta == b.meta
    &&& match a.kind {
        ScheduleNodeKind::Binary { op, lhs, rhs, result } => (op == BinaryOp::Add || op == BinaryOp::Mul) && (
        b.kind matches ScheduleNodeKind::Binary { op: o2, lhs: l2, rhs: r2, result: t2 } && o2 == op && l2 == rhs
            && r2 == lhs && t2 == result),
        _ => false,
    }
}

/// Bodies that differ only in the order of the operands of one addition or
/// multiplication scan alike, prefix by prefix.
proof fn lemma_scan_commuted(a: Seq<ScheduleNode>, b: Seq<ScheduleNode>, p: int, extent: ValueId, n: int)
    requires
        a.len() == b.len(),
        0 <= p < a.len(),
        forall|q: int| 0 <= q < a.len() && q != p ==> #[trigger] b[q] == a[q],
        commuted(a[p], b[p]),
        0 <= n <= a.len(),
    ensures
        scan_nodes(b.take(n), extent) == scan_nodes(a.take(n), extent),
    decreases n,
{
    if n > 0 {
        lemma_scan_commuted(a, b, p, extent, n - 1);
        assert(a.take(n).drop_last() =~= a.take(n - 1));
        assert(b.take(n).drop_last() =~= b.take(n - 1));
        assert(a.take(n).last() == a[n - 1]);
        assert(b.take(n).last() == b[n - 1]);
    }
}

proof fn lemma_bind_alike(k: Kernel, k2: Kernel, e: int, prefix: Seq<BufferDecl>)
    requires
        k2.params == k.params,
        k2.storages == k.storages,
    ensures
        bind_buffers(k2, e, prefix) == bind_buffers(k, e, prefix),
    decreases prefix.len(),
{
    if prefix.len() > 0 {
        lemma_bind_alike(k, k2, e, prefix.drop_last());
    }
}

/// Admission does not depend on the order of the operands of an addition or a
/// multiplication: swapping them in one node of the body admits or rejects the module
/// exactly as before, with the same binding or the same finding. In particular
/// `threadIdx.x + blockIdx.x * blockDim.x` is admitted exactly when
/// `blockIdx.x * blockDim.x + threadIdx.x` is, and so is `blockDim.x * blockIdx.x`.
pub proof fn lemma_admit_commuted(m: Module, m2: Module, p: int)
    requires
        m2.target_request == m.target_request,
        m2.kernels@.len() == m.kernels@.len(),
        m.kernels@.len() == 1 ==> {
            let k = m.kernels@[0];
            let k2 = m2.kernels@[0];
            &&& k2.block == k.block
            &&& k2.params == k.params
            &&& k2.storages == k.storages
            &&& k2.buffers == k.buffers
            &&& k2.roles == k.roles
            &&& k2.pipelines == k.pipelines
            &&& k2.accumulators == k.accumulators
            &&& k2.body@.len() == k.body@.len()
            &&& 0 <= p < k.body@.len()
            &&& forall|q: int| 0 <= q < k.body@.len() && q != p ==> #[trigger] k2.body@[q] == k.body@[q]
            &&& commuted(k.body@[p], k2.body@[p])
        },
    ensures
        spec_admit(m2) == spec_admit(m),
{
    if m.kernels@.len() == 1 {
        let k = m.kernels@[0];
        let k2 = m2.kernels@[0];
        match sole_extent(k.params@) {
            Some(e) => {
                lemma_bind_alike(k, k2, e, k.buffers@);
                lemma_scan_commuted(k.body@, k2.body@, p, k.params@[e].id, k.body@.len() as int);
                assert(k.body@.take(k.body@.len() as int) =~= k.body@);
                assert(k2.body@.take(k2.body@.len() as int) =~= k2.body@);
            },
            None => {},
        }
    }
}

/// The C type that a parameter or value of the subset is emitted as.
pub open spec fn c_type_name(t: TypeRefV) -> Seq<char> {
    match t {
        TypeRefV::Index => "uint64_t"@,
        TypeRefV::Predicate => "bool"@,
        TypeRefV::Pointer(p) => if p.mutable {
            "float*"@
        } else {
            "const float*"@
        },
        _ => "float"@,
    }
}

/// The types that the subset emits.
pub open spec fn emitted_type(t: TypeRefV) -> bool {
    t == TypeRefV::Index || t == TypeRefV::Predicate || t == TypeRefV::Scalar(DType::F32) || t is Pointer
}

pub fn c_type(ty: &TypeRef) -> (r: &'static str)
    requires
        emitted_type(ty@),
    ensures
        r@ == c_type_name(ty@),
{
    match ty {
        TypeRef::Index => "uint64_t",
        TypeRef::Predicate => "bool",
        TypeRef::Pointer(p) => if p.mutable {
            "float*"
        } else {
            "const float*"
        },
        _ => "float",
    }
}

fn reject(node: Option<&ScheduleNode>, message: &str) -> (r: Diagnostic)
    ensures
        r@ == rejection(node_of(node), message@),
{
    let mut error = Diagnostic::error(DiagnosticCode::UnsupportedCapability, text(message));
    match node {
        Some(n) => {
            error.node_id = Some(n.meta.node_id.0.clone());
            error.source_span = n.meta.source_span.dup();
        },
        None => {},
    }
    error
}

fn is_extent_bytes(expr: &IndexExpr, extent: &ValueId) -> (r: bool)
    ensures
        r == extent_bytes(expr@, extent@),
{
    proof {
        reveal_with_fuel(index_view, 2);
    }
    match expr {
        IndexExpr::Mul(a, b) => {
            let left = match (&**a, &**b) {
                (IndexExpr::Value(v), IndexExpr::Constant(c)) => v.same(extent) && *c == 4,
                _ => false,
            };
            let right = match (&**b, &**a) {
                (IndexExpr::Value(v), IndexExpr::Constant(c)) => v.same(extent) && *c == 4,
                _ => false,
            };
            left || right
        },
        _ => false,
    }
}

fn is_contiguous_view(s: &StorageDecl, b: &BufferDecl, extent: &ValueId) -> (r: bool)
    ensures
        r == contiguous_view(*s, *b, extent@),
{
    proof {
        reveal_with_fuel(index_view, 2);
    }
    let shape_ok = b.ty.shape.len() == 1 && match &b.ty.shape[0] {
        IndexExpr::Value(v) => v.same(extent),
        _ => false,
    };
    proof {
        assert(exprs_view(b.ty.shape@).len() == b.ty.shape@.len());
        if b.ty.shape@.len() == 1 {
            if exprs_view(b.ty.shape@) == seq![IndexExprV::Value(extent@)] {
                assert(exprs_view(b.ty.shape@)[0] == b.ty.shape@[0]@);
            }
            if shape_ok {
                assert(exprs_view(b.ty.shape@) =~= seq![IndexExprV::Value(extent@)]);
            }
        }
    }
    let offset_ok = match &b.ty.offset_bytes {
        IndexExpr::Constant(0) => true,
        _ => false,
    };
    let mapping_ok = match &b.ty.mapping {
        MappingSpec::Strided { strides_bytes } => strides_bytes.len() == 1 && match &strides_bytes[0] {
            IndexExpr::Constant(4) => true,
            _ => false,
        },
        _ => false,
    };
    proof {
        match &b.ty.mapping {
            MappingSpec::Strided { strides_bytes } => {
                assert(exprs_view(strides_bytes@).len() == strides_bytes@.len());
                if strides_bytes@.len() == 1 {
                    if exprs_view(strides_bytes@) == seq![IndexExprV::Constant(4)] {
                        assert(exprs_view(strides_bytes@)[0] == strides_bytes@[0]@);
                    }
                    if mapping_ok {
                        assert(exprs_view(strides_bytes@) =~= seq![IndexExprV::Constant(4)]);
                    }
                }
            },
            _ => {},
        }
    }
    let capacity_ok = is_extent_bytes(&s.ty.capacity_bytes, extent);
    assert(offset_ok == (b.ty.offset_bytes@ == IndexExprV::Constant(0)));
    assert(shape_ok == (exprs_view(b.ty.shape@) == seq![IndexExprV::Value(extent@)]));
    assert(mapping_ok == (b.ty.mapping matches MappingSpec::Strided { strides_bytes } && exprs_view(strides_bytes@) == seq![
        IndexExprV::Constant(4),
    ]));
    s.ty.address_space == AddressSpace::Global && s.ty.alignment_bytes == 4 && capacity_ok
        && b.ty.element == DType::F32 && shape_ok && offset_ok && mapping_ok
}

fn bind(k: &Kernel, e: usize) -> (r: Result<(Vec<usize>, Vec<StorageId>, Vec<(BufferId, usize)>), Diagnostic>)
    requires
        e < k.params@.len(),
        views_resolve(*k),
    ensures
        match (r, bind_buffers(*k, e as int, k.buffers@)) {
            (Ok((ps, ss, map)), Ok(b)) => ps@.map_values(|p: usize| p as int) == b.params && ss@ == b.storages
                && map@ == b.map,
            (Err(d), Err(x)) => d@ == x,
            _ => false,
        },
{
    let mut params: Vec<usize> = Vec::new();
    let mut storages: Vec<StorageId> = Vec::new();
    let mut map: Vec<(BufferId, usize)> = Vec::new();
    let mut i: usize = 0;
    while i < k.buffers.len()
        invariant
            i <= k.buffers@.len(),
            e < k.params@.len(),
            views_resolve(*k),
            bind_buffers(*k, e as int, k.buffers@.take(i as int)) matches Ok(b) && params@.map_values(
                |p: usize| p as int,
            ) == b.params && storages@ == b.storages && map@ == b.map,
        decreases k.buffers@.len() - i,
    {
        let b = &k.buffers[i];
        proof {
            assert(k.buffers@.take(i + 1).drop_last() =~= k.buffers@.take(i as int));
            assert(k.buffers@.take(i + 1).last() == k.buffers@[i as int]);
        }
        let si = match find(&k.storages, &b.ty.storage.0) {
            Some(si) => si,
            None => {
                assert(false) by {
                    assert(k.buffers@[i as int] == *b);
                }
                return Err(reject(None, "CUDA buffers require external storage"));
            },
        };
        proof {
            lemma_found(k.storages@, b.ty.storage@);
        }
        let s = &k.storages[si];
        let ext = match &s.external {
            Some(ext) => ext,
            None => {
                proof {
                    lemma_bind_err(*k, e as int, k.buffers@, i + 1);
                }
                return Err(reject(None, "CUDA buffers require external storage"));
            },
        };
        let p = match find(&k.params, &ext.0) {
            Some(p) => p,
            None => {
                assert(false) by {
                    assert(k.buffers@[i as int] == *b);
                    crate::lookup::lemma_has_key(k.params@, ext@);
                }
                return Err(reject(None, "CUDA buffers require external storage"));
            },
        };
        let ghost pv = params@.map_values(|q: usize| q as int);
        let mut used = false;
        let mut j: usize = 0;
        while j < params.len()
            invariant
                j <= params@.len(),
                pv == params@.map_values(|q: usize| q as int),
                used == exists|l: int| 0 <= l < j && params@[l] == p,
            decreases params@.len() - j,
        {
            if params[j] == p {
                used = true;
            }
            j = j + 1;
        }
        proof {
            if used {
                let l = choose|l: int| 0 <= l < params@.len() && params@[l] == p;
                assert(pv[l] == p as int);
            }
            if pv.contains(p as int) {
                let l = choose|l: int| 0 <= l < pv.len() && pv[l] == p as int;
                assert(params@[l] == p);
            }
        }
        proof {
            lemma_found(k.params@, ext@);
        }
        if p == e || used || crate::lookup::contains(&storages, &s.id.0) {
            proof {
                lemma_bind_err(*k, e as int, k.buffers@, i + 1);
            }
            return Err(reject(None, "CUDA subset requires one storage and one buffer per pointer parameter"));
        }
        if !is_contiguous_view(s, b, &k.params[e].id) {
            proof {
                lemma_bind_err(*k, e as int, k.buffers@, i + 1);
            }
            return Err(reject(None, "CUDA buffers must be contiguous FP32 [n], offset 0, stride/alignment 4, and storage capacity n * 4"));
        }
        params.push(p);
        storages.push(s.id.dup());
        put_entry(&mut map, b.id.dup(), p);
        proof {
            assert(params@.map_values(|q: usize| q as int) =~= pv.push(p as int));
        }
        i = i + 1;
    }
    assert(k.buffers@.take(k.buffers@.len() as int) =~= k.buffers@);
    Ok((params, storages, map))
}

fn coordinate_of(coordinates: &Vec<(ValueId, Coordinate)>, id: &ValueId) -> (r: Option<Coordinate>)
    ensures
        r == get(coordinates@, id@),
{
    match find(coordinates, &id.0) {
        Some(i) => Some(coordinates[i].1),
        None => None,
    }
}

fn launch_of(b: LaunchBuiltin) -> (r: Coordinate)
    ensures
        r == launch_coordinate(b),
{
    match b {
        LaunchBuiltin::ThreadIdxX => Coordinate::Thread,
        LaunchBuiltin::BlockIdxX => Coordinate::Block,
        LaunchBuiltin::BlockDimX => Coordinate::BlockSize,
        LaunchBuiltin::GridDimX => Coordinate::GridSize,
    }
}

fn index_arith(op: BinaryOp, a: Option<Coordinate>, b: Option<Coordinate>) -> (r: Option<Coordinate>)
    ensures
        r == index_coordinate(op, a, b),
{
    if op == BinaryOp::Mul && ((a == Some(Coordinate::Block) && b == Some(Coordinate::BlockSize)) || (a
        == Some(Coordinate::BlockSize) && b == Some(Coordinate::Block))) {
        Some(Coordinate::BlockStart)
    } else if op == BinaryOp::Add && ((a == Some(Coordinate::BlockStart) && b == Some(Coordinate::Thread))
        || (a == Some(Coordinate::Thread) && b == Some(Coordinate::BlockStart))) {
        Some(Coordinate::Linear)
    } else {
        None
    }
}

fn guarded(masks: &Vec<(ValueId, ValueId)>, reference: &MemoryRef, indices: &Vec<ValueId>, mask: &ValueId) -> (r: bool)
    ensures
        r == access_ok(Scan { coordinates: seq![], masks: masks@, stores: 0 }, *reference, indices@, *mask),
{
    if !matches!(reference, MemoryRef::Buffer(_)) || indices.len() != 1 {
        return false;
    }
    match find(masks, &mask.0) {
        Some(i) => masks[i].1.same(&indices[0]),
        None => false,
    }
}

fn scan(body: &Vec<ScheduleNode>, extent: &ValueId) -> (r: Result<usize, Diagnostic>)
    ensures
        match (r, scan_nodes(body@, *extent)) {
            (Ok(n), Ok(s)) => n == s.stores,
            (Err(d), Err(x)) => d@ == x,
            _ => false,
        },
{
    let mut coordinates: Vec<(ValueId, Coordinate)> = Vec::new();
    let mut masks: Vec<(ValueId, ValueId)> = Vec::new();
    let mut stores: usize = 0;
    let mut i: usize = 0;
    while i < body.len()
        invariant
            i <= body@.len(),
            stores <= i,
            scan_nodes(body@.take(i as int), *extent) matches Ok(s) && coordinates@ == s.coordinates && masks@
                == s.masks && stores == s.stores,
        decreases body@.len() - i,
    {
        let node = &body[i];
        proof {
            assert(body@.take(i + 1).drop_last() =~= body@.take(i as int));
            assert(body@.take(i + 1).last() == body@[i as int]);
        }
        match &node.kind {
            ScheduleNodeKind::LaunchIndex { builtin, result } => {
                put_entry(&mut coordinates, result.id.dup(), launch_of(*builtin));
            },
            ScheduleNodeKind::Constant { result, .. } => {
                let ok = match &result.ty {
                    TypeRef::Index | TypeRef::Predicate | TypeRef::Scalar(DType::F32) => true,
                    _ => false,
                };
                if !ok {
                    proof {
                        lemma_scan_err(body@, *extent, i + 1);
                    }
                    return Err(reject(Some(node), "CUDA constants support Index, Predicate and F32 only"));
                }
            },
            ScheduleNodeKind::Binary { op, lhs, rhs, result } => {
                let a = coordinate_of(&coordinates, lhs);
                let b = coordinate_of(&coordinates, rhs);
                match &result.ty {
                    TypeRef::Index => match index_arith(*op, a, b) {
                        Some(cd) => put_entry(&mut coordinates, result.id.dup(), cd),
                        None => {
                            proof {
                                lemma_scan_err(body@, *extent, i + 1);
                            }
                            return Err(reject(Some(node), "CUDA Index arithmetic currently supports blockIdx.x * blockDim.x + threadIdx.x only"));
                        },
                    },
                    TypeRef::Predicate | TypeRef::Scalar(DType::F32) => {},
                    _ => {
                        proof {
                            lemma_scan_err(body@, *extent, i + 1);
                        }
                        return Err(reject(Some(node), "unsupported CUDA binary result type"));
                    },
                }
                if *op == BinaryOp::Less && a == Some(Coordinate::Linear) && rhs.same(extent) {
                    put_entry(&mut masks, result.id.dup(), lhs.dup());
                }
            },
            ScheduleNodeKind::Load { source, indices, mask, .. } => {
                if !guarded(&masks, source, indices, mask) {
                    proof {
                        lemma_scan_err(body@, *extent, i + 1);
                    }
                    return Err(reject(Some(node), "CUDA memory accesses require the same linear index i and explicit mask i < n"));
                }
            },
            ScheduleNodeKind::Store { destination, indices, mask, .. } => {
                if !guarded(&masks, destination, indices, mask) {
                    proof {
                        lemma_scan_err(body@, *extent, i + 1);
                    }
                    return Err(reject(Some(node), "CUDA memory accesses require the same linear index i and explicit mask i < n"));
                }
                stores = stores + 1;
            },
            ScheduleNodeKind::KernelReturn => {},
            _ => {
                proof {
                    lemma_scan_err(body@, *extent, i + 1);
                }
                return Err(reject(Some(node), "operation is outside the flat CUDA elementwise subset"));
            },
        }
        i = i + 1;
    }
    assert(body@.take(body@.len() as int) =~= body@);
    Ok(stores)
}

/// Admission of a module to the CUDA elementwise subset.
pub fn admit_cuda(module: &Module) -> (r: Result<Admission, Diagnostic>)
    requires
        module.kernels@.len() == 1 ==> views_resolve(module.kernels@[0]),
    ensures
        match (r, spec_admit(*module)) {
            (Ok(a), Ok((e, map))) => a.extent_parameter == e && a.buffer_parameters@ == map,
            (Err(d), Err(x)) => d@ == x,
            _ => false,
        },
{
    if !module.target_request.is_cuda() || module.kernels.len() != 1 {
        return Err(reject(None, "CUDA lowering currently requires cuda:sm_120 and exactly one kernel"));
    }
    let kernel = &module.kernels[0];
    if kernel.block[0] == 0 || kernel.block[0] > 1024 || kernel.block[1] != 1 || kernel.block[2] != 1 {
        return Err(reject(None, "CUDA elementwise lowering requires a 1D block of 1..=1024 threads"));
    }
    if kernel.roles.len() != 0 || kernel.pipelines.len() != 0 || kernel.accumulators.len() != 0 {
        return Err(reject(None, "CUDA roles, pipelines and accumulators are not implemented"));
    }
    let ghost params = kernel.params@;
    let mut count: usize = 0;
    let mut first: usize = 0;
    let mut i: usize = 0;
    while i < kernel.params.len()
        invariant
            i <= params.len(),
            params == kernel.params@,
            count <= i,
            count == 0 ==> forall|j: int| 0 <= j < i ==> (#[trigger] params[j]).ty@ != TypeRefV::Index,
            count >= 1 ==> first < i && params[first as int].ty@ == TypeRefV::Index,
            count == 1 ==> forall|j: int| 0 <= j < i && j != first ==> (#[trigger] params[j]).ty@ != TypeRefV::Index,
            count >= 2 ==> exists|j: int| 0 <= j < i && j != first && (#[trigger] params[j]).ty@ == TypeRefV::Index,
        decreases params.len() - i,
    {
        if kernel.params[i].ty.same(&TypeRef::Index) {
            if count == 0 {
                first = i;
            }
            count = count + 1;
        }
        i = i + 1;
    }
    if count != 1 {
        proof {
            if sole_extent(params) is Some {
                let e = choose|e: int|
                    0 <= e < params.len() && (#[trigger] params[e]).ty@ == TypeRefV::Index && forall|j: int|
                        0 <= j < params.len() && j != e ==> (#[trigger] params[j]).ty@ != TypeRefV::Index;
                if count >= 2 {
                    let j = choose|j: int| 0 <= j < params.len() && j != first && (#[trigger] params[j]).ty@ == TypeRefV::Index;
                    assert(params[first as int].ty@ == TypeRefV::Index);
                }
            }
        }
        return Err(reject(None, "CUDA elementwise ABI requires exactly one Index extent parameter"));
    }
    let e = first;
    proof {
        assert(sole_extent(params) == Some(e as int));
    }
    let mut j: usize = 0;
    while j < kernel.params.len()
        invariant
            j <= params.len(),
            params == kernel.params@,
            module.kernels@.len() == 1,
            *kernel == module.kernels@[0],
            module.target_request.names_cuda_sm120(),
            !(kernel.block[0] == 0 || kernel.block[0] > 1024 || kernel.block[1] != 1 || kernel.block[2] != 1),
            kernel.roles@.len() == 0,
            kernel.pipelines@.len() == 0,
            kernel.accumulators@.len() == 0,
            sole_extent(params) == Some(e as int),
            e < params.len(),
            forall|l: int| 0 <= l < j && l != e ==> global_f32_pointer((#[trigger] params[l]).ty@),
        decreases params.len() - j,
    {
        if j != e {
            let ok = match &kernel.params[j].ty {
                TypeRef::Pointer(p) => p.element == DType::F32 && p.address_space == AddressSpace::Global,
                _ => false,
            };
            if !ok {
                assert(!global_f32_pointer(module.kernels@[0].params@[j as int].ty@));
                return Err(reject(None, "CUDA elementwise ABI supports only global FP32 pointers and one Index extent"));
            }
        }
        j = j + 1;
    }
    let (used, storages, map) = match bind(kernel, e) {
        Ok(x) => x,
        Err(d) => return Err(d),
    };
    let ghost b = bind_buffers(*kernel, e as int, kernel.buffers@)->Ok_0;
    let mut all_used = true;
    let mut p: usize = 0;
    while p < kernel.params.len()
        invariant
            p <= params.len(),
            params == kernel.params@,
            used@.map_values(|q: usize| q as int) == b.params,
            all_used == forall|l: int| 0 <= l < p && l != e ==> b.params.contains(l),
        decreases params.len() - p,
    {
        if p != e {
            let mut found = false;
            let mut q: usize = 0;
            while q < used.len()
                invariant
                    q <= used@.len(),
                    used@.map_values(|x: usize| x as int) == b.params,
                    found == exists|l: int| 0 <= l < q && used@[l] == p,
                decreases used@.len() - q,
            {
                if used[q] == p {
                    found = true;
                }
                q = q + 1;
            }
            proof {
                if found {
                    let l = choose|l: int| 0 <= l < used@.len() && used@[l] == p;
                    assert(b.params[l] == p as int);
                }
                if b.params.contains(p as int) {
                    let l = choose|l: int| 0 <= l < b.params.len() && b.params[l] == p as int;
                    assert(used@[l] == p);
                }
            }
            if !found {
                all_used = false;
            }
        }
        p = p + 1;
    }
    if !all_used || storages.len() != kernel.storages.len() {
        return Err(reject(None, "CUDA ABI requires all pointers and storages to have exactly one declared view"));
    }
    match scan(&kernel.body, &kernel.params[e].id) {
        Err(d) => Err(d),
        Ok(stores) => {
            if stores == 0 {
                Err(reject(None, "CUDA elementwise kernel must contain a Store"))
            } else {
                Ok(Admission { extent_parameter: e, buffer_parameters: map })
            }
        },
    }
}


proof fn lemma_bind_rejects(k: Kernel, e: int, prefix: Seq<BufferDecl>)
    requires
        forall|i: int| 0 <= i < prefix.len() ==> #[trigger] k.buffers@.contains(prefix[i]),
        views_resolve(k),
    ensures
        bind_buffers(k, e, prefix) matches Err(d) ==> d.severity == crate::diagnostic::DiagnosticSeverity::Error,
    decreases prefix.len(),
{
    if prefix.len() > 0 {
        assert forall|i: int| 0 <= i < prefix.drop_last().len() implies #[trigger] k.buffers@.contains(prefix.drop_last()[i]) by {
            assert(prefix.drop_last()[i] == prefix[i]);
        }
        lemma_bind_rejects(k, e, prefix.drop_last());
        let b = prefix.last();
        assert(k.buffers@.contains(prefix[prefix.len() - 1]));
        let j = choose|j: int| 0 <= j < k.buffers@.len() && k.buffers@[j] == b;
        assert(k.buffers@[j] == b);
        match find_index(k.storages@, b.ty.storage@) {
            Some(si) => match k.storages@[si].external {
                Some(ext) => {
                    crate::lookup::lemma_has_key(k.params@, ext@);
                },
                None => {},
            },
            None => {},
        }
    }
}

proof fn lemma_scan_rejects(prefix: Seq<ScheduleNode>, extent: ValueId)
    ensures
        scan_nodes(prefix, extent) matches Err(d) ==> d.severity == crate::diagnostic::DiagnosticSeverity::Error,
    decreases prefix.len(),
{
    if prefix.len() > 0 {
        lemma_scan_rejects(prefix.drop_last(), extent);
    }
}

/// When the buffer views of a single kernel resolve, admission fails only with an error.
pub proof fn lemma_admit_rejects(m: Module)
    requires
        m.kernels@.len() == 1 ==> views_resolve(m.kernels@[0]),
    ensures
        spec_admit(m) matches Err(d) ==> d.severity == crate::diagnostic::DiagnosticSeverity::Error,
{
    if m.target_request.names_cuda_sm120() && m.kernels@.len() == 1 {
        let k = m.kernels@[0];
        match sole_extent(k.params@) {
            Some(e) => {
                assert forall|i: int| 0 <= i < k.buffers@.len() implies #[trigger] k.buffers@.contains(k.buffers@[i]) by {
                }
                lemma_bind_rejects(k, e, k.buffers@);
                lemma_scan_rejects(k.body@, k.params@[e].id);
            },
            None => {},
        }
    }
}

} // verus!
