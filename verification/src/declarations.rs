//! Checks of a kernel's parameters and resource declarations.
use crate::ast::{
    AccumulatorDecl, BufferDecl, Kernel, PipelineBufferBinding, PipelineDecl, RoleDecl,
    StorageDecl, ValueDef,
};
use crate::checker::{
    Checker, Context, Ctx, State, lemma_types_view_keys, quote_id, spec_define, spec_index,
    spec_unique, with_error,
};
use crate::diagnostic::DiagnosticCode;
use crate::layout::{buffer_end, end_of, footprint, footprint_of};
use crate::lookup::{
    Dup, contains, find, find_index, get, has_key, key_in_prefix, put, put_entry, with_key,
    add_key,
};
use crate::target::MP31_WARP_SIZE;
use crate::text::text;
use crate::types::{
    AddressSpace, BufferType, EvalResult, IndexExpr, MappingSpec, PipelineId, StorageId, TypeRef,
    TypeRefV, eval_of,
};
use vstd::arithmetic::power2::{lemma_pow2_unfold, pow2};
use vstd::prelude::*;

verus! {

/// `x` is a power of two: `2^k` for some `k < 32`.
pub open spec fn is_pow2(x: u32) -> bool {
    exists|k: nat| k < 32 && x == pow2(k)
}

pub fn power_of_two(x: u32) -> (r: bool)
    ensures
        r == is_pow2(x),
{
    let mut p: u64 = 1;
    let mut k: u64 = 0;
    proof {
        vstd::arithmetic::power2::lemma2_to64();
    }
    while k < 32
        invariant
            k <= 32,
            p == pow2(k as nat),
            forall|j: nat| j < k ==> x != pow2(j),
        decreases 32 - k,
    {
        if x as u64 == p {
            assert(k < 32 && x == pow2(k as nat));
            return true;
        }
        proof {
            lemma_pow2_unfold((k + 1) as nat);
            vstd::arithmetic::power2::lemma_pow2_strictly_increases(k as nat, 32);
            vstd::arithmetic::power2::lemma2_to64();
        }
        p = p * 2;
        k = k + 1;
    }
    false
}

/// The number of threads of a block, when it fits in `u64`.
pub open spec fn block_threads(b: Seq<u32>) -> Option<u64> {
    let n: int = b[0] * b[1] * b[2];
    if n <= u64::MAX {
        Some(n as u64)
    } else {
        None
    }
}

/// Kernel parameters: each is defined; none may be a fragment; each is block-uniform.
pub open spec fn spec_params(st: State, c: Ctx, params: Seq<ValueDef>) -> (State, Ctx)
    decreases params.len(),
{
    if params.len() == 0 {
        (st, c)
    } else {
        let (s1, c1) = spec_params(st, c, params.drop_last());
        let p = params.last();
        let (s2, c2) = spec_define(s1, c1, p, None);
        let s3 = if p.ty is Fragment {
            with_error(s2, None, DiagnosticCode::InvalidType, "kernel parameters cannot be distributed fragments"@)
        } else {
            s2
        };
        (s3, Ctx { uniform: with_key(c2.uniform, p.id), ..c2 })
    }
}

/// The external binding of a storage is a parameter pointer in the storage's address space.
pub open spec fn external_ok(c: Ctx, s: StorageDecl) -> bool {
    match s.external {
        Some(ext) => match get(c.values, ext@) {
            Some(TypeRefV::Pointer(p)) => p.address_space == s.ty.address_space,
            _ => false,
        },
        None => true,
    }
}

pub open spec fn spec_storage(st: State, c: Ctx, s: StorageDecl) -> State {
    let s1 = spec_index(st, c, s.ty.capacity_bytes);
    let s2 = if !is_pow2(s.ty.alignment_bytes) {
        with_error(s1, None, DiagnosticCode::InvalidResource, "storage alignment must be a nonzero power of two"@)
    } else {
        s1
    };
    match s.external {
        Some(_) => if external_ok(c, s) {
            s2
        } else {
            with_error(s2, None, DiagnosticCode::InvalidResource, "external storage must reference a parameter pointer in the same address space"@)
        },
        None => if s.ty.address_space == AddressSpace::Global {
            with_error(s2, None, DiagnosticCode::InvalidResource, "global storage requires an external pointer binding"@)
        } else {
            s2
        },
    }
}

pub open spec fn spec_storages(st: State, c: Ctx, s: Seq<StorageDecl>) -> State
    decreases s.len(),
{
    if s.len() == 0 {
        st
    } else {
        spec_storage(spec_storages(st, c, s.drop_last()), c, s.last())
    }
}

/// Each expression of `exprs` is an index expression, in order.
pub open spec fn spec_indices(st: State, c: Ctx, exprs: Seq<IndexExpr>) -> State
    decreases exprs.len(),
{
    if exprs.len() == 0 {
        st
    } else {
        spec_index(spec_indices(st, c, exprs.drop_last()), c, exprs.last())
    }
}

/// Each stride is an index expression and, when known, a multiple of the element size.
pub open spec fn spec_strides(st: State, c: Ctx, strides: Seq<IndexExpr>, elem: u64) -> State
    decreases strides.len(),
{
    if strides.len() == 0 {
        st
    } else {
        let s1 = spec_index(spec_strides(st, c, strides.drop_last(), elem), c, strides.last());
        match strides.last().eval() {
            Ok(Some(v)) => if v % elem != 0 {
                with_error(s1, None, DiagnosticCode::InvalidResource, "buffer stride must preserve element alignment"@)
            } else {
                s1
            },
            _ => s1,
        }
    }
}

/// The external binding of the storage is a read-only parameter pointer.
pub open spec fn read_only_binding(c: Ctx, s: StorageDecl) -> bool {
    match s.external {
        Some(ext) => match get(c.values, ext@) {
            Some(TypeRefV::Pointer(p)) => !p.mutable,
            _ => false,
        },
        None => false,
    }
}

/// A known value of `r` exceeds a known value of `e`.
pub open spec fn exceeds(r: EvalResult, e: EvalResult) -> bool {
    match (r, e) {
        (Ok(Some(end)), Ok(Some(size))) => end > size,
        _ => false,
    }
}

pub open spec fn spec_buffer_storage(st: State, c: Ctx, b: BufferDecl, s: StorageDecl) -> State {
    let s1 = if read_only_binding(c, s) && b.ty.mutable {
        with_error(st, None, DiagnosticCode::InvalidResource, "a buffer cannot make read-only external storage writable"@)
    } else {
        st
    };
    let s2 = if (s.ty.alignment_bytes as u64) < b.ty.element.bytes() {
        with_error(s1, None, DiagnosticCode::InvalidResource, "storage alignment is insufficient for the buffer element type"@)
    } else {
        s1
    };
    match end_of(b.ty, 1, 0) {
        Err(m) => with_error(s2, None, DiagnosticCode::InvalidResource, m),
        r => if exceeds(r, s.ty.capacity_bytes.eval()) {
            with_error(s2, None, DiagnosticCode::InvalidResource, "buffer '"@ + b.id@ + "' exceeds its storage capacity"@)
        } else {
            s2
        },
    }
}

pub open spec fn spec_buffer(st: State, c: Ctx, k: Kernel, b: BufferDecl) -> State {
    let elem = b.ty.element.bytes();
    let s1 = spec_indices(spec_index(st, c, b.ty.offset_bytes), c, b.ty.shape@);
    let s2 = match b.ty.mapping {
        MappingSpec::Strided { strides_bytes } => {
            let t = if strides_bytes@.len() != b.ty.shape@.len() {
                with_error(s1, None, DiagnosticCode::InvalidResource, "buffer rank and stride rank differ"@)
            } else {
                s1
            };
            spec_strides(t, c, strides_bytes@, elem)
        },
        MappingSpec::Registered { .. } => s1,
    };
    let s3 = match b.ty.offset_bytes.eval() {
        Ok(Some(o)) => if o % elem != 0 {
            with_error(s2, None, DiagnosticCode::InvalidResource, "buffer byte offset is not element-aligned"@)
        } else {
            s2
        },
        _ => s2,
    };
    let s4 = match b.ty.mapping {
        MappingSpec::Registered { name } => if name@.len() == 0 {
            with_error(s3, None, DiagnosticCode::InvalidResource, "registered mapping name cannot be empty"@)
        } else {
            s3
        },
        _ => s3,
    };
    match find_index(k.storages@, b.ty.storage@) {
        Some(i) => spec_buffer_storage(s4, c, b, k.storages@[i]),
        None => with_error(s4, None, DiagnosticCode::UnknownSymbol, "unknown storage '"@ + b.ty.storage@ + "'"@),
    }
}

pub open spec fn spec_buffers(st: State, c: Ctx, k: Kernel, b: Seq<BufferDecl>) -> State
    decreases b.len(),
{
    if b.len() == 0 {
        st
    } else {
        spec_buffer(spec_buffers(st, c, k, b.drop_last()), c, k, b.last())
    }
}

/// A warp of a role is a repeat of an earlier warp, or lies beyond the block's threads.
pub open spec fn bad_warp(warps: Seq<u32>, i: int, threads: Option<u64>) -> bool {
    warps.take(i).contains(warps[i]) || match threads {
        Some(n) => (warps[i] + 1) * (MP31_WARP_SIZE as int) > n,
        None => false,
    }
}

pub open spec fn spec_warps(st: State, r: RoleDecl, n: int, threads: Option<u64>) -> State
    decreases n,
{
    if n <= 0 || n > r.warps@.len() {
        st
    } else {
        let s1 = spec_warps(st, r, n - 1, threads);
        if bad_warp(r.warps@, n - 1, threads) {
            with_error(s1, None, DiagnosticCode::InvalidParticipation, "role '"@ + r.id@ + "' has duplicate or out-of-block warps"@)
        } else {
            s1
        }
    }
}

pub open spec fn spec_role(st: State, r: RoleDecl, threads: Option<u64>) -> State {
    let s1 = if r.warps@.len() == 0 {
        with_error(st, None, DiagnosticCode::InvalidParticipation, "a role cannot be empty"@)
    } else {
        st
    };
    spec_warps(s1, r, r.warps@.len() as int, threads)
}

pub open spec fn spec_roles(st: State, roles: Seq<RoleDecl>, threads: Option<u64>) -> State
    decreases roles.len(),
{
    if roles.len() == 0 {
        st
    } else {
        spec_role(spec_roles(st, roles.drop_last(), threads), roles.last(), threads)
    }
}

pub open spec fn spec_accumulator(st: State, c: Ctx, k: Kernel, a: AccumulatorDecl) -> State {
    let s1 = if !has_key(k.roles@, a.ty.participants@) {
        with_error(st, None, DiagnosticCode::UnknownSymbol, "accumulator has an unknown participant role"@)
    } else {
        st
    };
    let s2 = spec_indices(s1, c, a.ty.logical_shape@);
    if a.ty.representation@.len() == 0 {
        with_error(s2, None, DiagnosticCode::InvalidType, "accumulator requires an explicit representation"@)
    } else {
        s2
    }
}

pub open spec fn spec_accumulators(st: State, c: Ctx, k: Kernel, a: Seq<AccumulatorDecl>) -> State
    decreases a.len(),
{
    if a.len() == 0 {
        st
    } else {
        spec_accumulator(spec_accumulators(st, c, k, a.drop_last()), c, k, a.last())
    }
}

/// Storages of bound buffers are claimed by their pipeline; a storage claimed by
/// another pipeline is shared, which is unsupported. The latest claim stands.
pub open spec fn spec_claims(
    st: State,
    owners: Seq<(StorageId, PipelineId)>,
    k: Kernel,
    p: PipelineDecl,
    bindings: Seq<PipelineBufferBinding>,
) -> (State, Seq<(StorageId, PipelineId)>)
    decreases bindings.len(),
{
    if bindings.len() == 0 {
        (st, owners)
    } else {
        let (s1, o1) = spec_claims(st, owners, k, p, bindings.drop_last());
        match find_index(k.buffers@, bindings.last().buffer@) {
            Some(i) => {
                let storage = k.buffers@[i].ty.storage;
                let s2 = match get(o1, storage@) {
                    Some(owner) => if owner@ != p.id@ {
                        with_error(s1, None, DiagnosticCode::InvalidPipeline, "sharing storage between pipelines is not supported"@)
                    } else {
                        s1
                    },
                    None => s1,
                };
                (s2, put(o1, storage, p.id))
            },
            None => (s1, o1),
        }
    }
}

/// The slot envelopes of two views of one storage are known to be disjoint.
pub open spec fn envelopes_disjoint(x: BufferType, xs: u64, y: BufferType, ys: u64, slots: u32) -> bool {
    match (x.offset_bytes.eval(), end_of(x, slots, xs), y.offset_bytes.eval(), end_of(y, slots, ys)) {
        (Ok(Some(a0)), Ok(Some(a1)), Ok(Some(b0)), Ok(Some(b1))) => a1 <= b0 || b1 <= a0,
        _ => false,
    }
}

pub open spec fn spec_pair(st: State, k: Kernel, slots: u32, a: PipelineBufferBinding, b: PipelineBufferBinding) -> State {
    match (find_index(k.buffers@, a.buffer@), find_index(k.buffers@, b.buffer@)) {
        (Some(i), Some(j)) => {
            let x = k.buffers@[i].ty;
            let y = k.buffers@[j].ty;
            if x.storage@ == y.storage@ && !envelopes_disjoint(x, a.slot_stride_bytes, y, b.slot_stride_bytes, slots) {
                with_error(st, None, DiagnosticCode::InvalidPipeline, "pipeline buffer slot envelopes may overlap; use separate storage or disjoint envelopes"@)
            } else {
                st
            }
        },
        _ => st,
    }
}

/// Binding `a` against each later binding, in order.
pub open spec fn spec_pairs_with(st: State, k: Kernel, slots: u32, a: PipelineBufferBinding, later: Seq<PipelineBufferBinding>) -> State
    decreases later.len(),
{
    if later.len() == 0 {
        st
    } else {
        spec_pair(spec_pairs_with(st, k, slots, a, later.drop_last()), k, slots, a, later.last())
    }
}

/// Every pair of bindings, the first of each pair among the first `n`.
pub open spec fn spec_pairs(st: State, k: Kernel, slots: u32, bs: Seq<PipelineBufferBinding>, n: int) -> State
    decreases n,
{
    if n <= 0 || n > bs.len() {
        st
    } else {
        spec_pairs_with(spec_pairs(st, k, slots, bs, n - 1), k, slots, bs[n - 1], bs.skip(n))
    }
}

pub open spec fn spec_binding_storage(st: State, p: PipelineDecl, b: PipelineBufferBinding, buf: BufferDecl, s: StorageDecl) -> State {
    let s1 = if s.ty.address_space != AddressSpace::Shared || !buf.ty.mutable {
        with_error(st, None, DiagnosticCode::InvalidPipeline, "pipeline buffers must use writable shared storage"@)
    } else {
        st
    };
    let align = s.ty.alignment_bytes as u64;
    let s2 = if b.slot_stride_bytes == 0 || align == 0 || b.slot_stride_bytes % align != 0 {
        with_error(s1, None, DiagnosticCode::InvalidPipeline, "slot stride must be positive and preserve storage alignment"@)
    } else {
        s1
    };
    let s3 = match footprint_of(buf.ty) {
        Ok(Some(size)) => if size > b.slot_stride_bytes {
            with_error(s2, None, DiagnosticCode::InvalidPipeline, "pipeline slots overlap"@)
        } else {
            s2
        },
        _ => s2,
    };
    match end_of(buf.ty, p.slots, b.slot_stride_bytes) {
        Err(m) => with_error(s3, None, DiagnosticCode::InvalidPipeline, m),
        r => if exceeds(r, s.ty.capacity_bytes.eval()) {
            with_error(s3, None, DiagnosticCode::InvalidPipeline, "staged buffer exceeds storage capacity"@)
        } else {
            s3
        },
    }
}

pub open spec fn spec_binding(st: State, k: Kernel, p: PipelineDecl, n: int) -> State {
    let b = p.buffers@[n];
    let s1 = if has_key(p.buffers@.take(n), b.buffer@) {
        with_error(st, None, DiagnosticCode::InvalidPipeline, "a buffer is bound twice to a pipeline"@)
    } else {
        st
    };
    match find_index(k.buffers@, b.buffer@) {
        None => with_error(s1, None, DiagnosticCode::UnknownSymbol, "pipeline references unknown buffer"@),
        Some(i) => {
            let buf = k.buffers@[i];
            match find_index(k.storages@, buf.ty.storage@) {
                None => s1,
                Some(j) => spec_binding_storage(s1, p, b, buf, k.storages@[j]),
            }
        },
    }
}

pub open spec fn spec_bindings(st: State, k: Kernel, p: PipelineDecl, n: int) -> State
    decreases n,
{
    if n <= 0 || n > p.buffers@.len() {
        st
    } else {
        spec_binding(spec_bindings(st, k, p, n - 1), k, p, n - 1)
    }
}

pub open spec fn spec_pipeline_roles(st: State, k: Kernel, p: PipelineDecl) -> State {
    let s1 = if !has_key(k.roles@, p.producer@) {
        with_error(st, None, DiagnosticCode::UnknownSymbol, "pipeline references unknown role '"@ + p.producer@ + "'"@)
    } else {
        st
    };
    if !has_key(k.roles@, p.consumer@) {
        with_error(s1, None, DiagnosticCode::UnknownSymbol, "pipeline references unknown role '"@ + p.consumer@ + "'"@)
    } else {
        s1
    }
}

pub open spec fn spec_pipeline(
    st: State,
    c: Ctx,
    owners: Seq<(StorageId, PipelineId)>,
    k: Kernel,
    p: PipelineDecl,
) -> (State, Seq<(StorageId, PipelineId)>) {
    let (s1, o1) = spec_claims(st, owners, k, p, p.buffers@);
    let s2 = spec_index(s1, c, p.iteration_count);
    let s3 = if p.slots == 0 || p.buffers@.len() == 0 || p.producer@ == p.consumer@ {
        with_error(s2, None, DiagnosticCode::InvalidPipeline, "pipeline requires positive slots, buffers and distinct producer/consumer roles"@)
    } else {
        s2
    };
    let s4 = spec_pipeline_roles(s3, k, p);
    let s5 = spec_pairs(s4, k, p.slots, p.buffers@, p.buffers@.len() as int);
    (spec_bindings(s5, k, p, p.buffers@.len() as int), o1)
}

pub open spec fn spec_pipelines(
    st: State,
    c: Ctx,
    owners: Seq<(StorageId, PipelineId)>,
    k: Kernel,
    ps: Seq<PipelineDecl>,
) -> (State, Seq<(StorageId, PipelineId)>)
    decreases ps.len(),
{
    if ps.len() == 0 {
        (st, owners)
    } else {
        let (s1, o1) = spec_pipelines(st, c, owners, k, ps.drop_last());
        spec_pipeline(s1, c, o1, k, ps.last())
    }
}

/// All declaration checks of a kernel, in order: parameters, unique names, block
/// size, storages, buffers, roles, accumulators, pipelines.
pub open spec fn spec_declarations(st: State, c: Ctx, k: Kernel) -> (State, Ctx) {
    let (s1, c1) = spec_params(st, c, k.params@);
    let s2 = spec_unique(s1, k.storages@, "storage"@);
    let s3 = spec_unique(s2, k.buffers@, "buffer"@);
    let s4 = spec_unique(s3, k.roles@, "role"@);
    let s5 = spec_unique(s4, k.pipelines@, "pipeline"@);
    let s6 = spec_unique(s5, k.accumulators@, "accumulator"@);
    let threads = block_threads(k.block@);
    let s7 = if threads is None || k.block@.contains(0u32) {
        with_error(s6, None, DiagnosticCode::InvalidParticipation, "invalid or overflowing block dimensions"@)
    } else {
        s6
    };
    let s8 = spec_storages(s7, c1, k.storages@);
    let s9 = spec_buffers(s8, c1, k, k.buffers@);
    let s10 = spec_roles(s9, k.roles@, threads);
    let s11 = spec_accumulators(s10, c1, k, k.accumulators@);
    let (s12, _) = spec_pipelines(s11, c1, seq![], k, k.pipelines@);
    (s12, c1)
}

/// The pointer type of a value, when it is defined as a pointer.
pub open spec fn pointer_of(c: Ctx, id: crate::types::ValueId) -> Option<crate::types::PointerType> {
    match get(c.values, id@) {
        Some(TypeRefV::Pointer(p)) => Some(p),
        _ => None,
    }
}

fn value_pointer(ctx: &Context, id: &crate::types::ValueId) -> (r: Option<crate::types::PointerType>)
    ensures
        r == pointer_of(ctx@, *id),
{
    proof {
        lemma_types_view_keys(ctx.values@, id@);
    }
    match find(&ctx.values, &id.0) {
        Some(i) => match &ctx.values[i].1 {
            TypeRef::Pointer(p) => Some(*p),
            _ => None,
        },
        None => None,
    }
}

fn u32_in_prefix(v: &Vec<u32>, n: usize, x: u32) -> (r: bool)
    requires
        n <= v@.len(),
    ensures
        r == v@.take(n as int).contains(x),
{
    let mut i: usize = 0;
    while i < n
        invariant
            i <= n <= v@.len(),
            forall|l: int| 0 <= l < i ==> v@[l] != x,
        decreases n - i,
    {
        if v[i] == x {
            assert(v@.take(n as int)[i as int] == x);
            return true;
        }
        i = i + 1;
    }
    false
}

impl<'a> Checker<'a> {
    fn params(&mut self, ctx: &mut Context)
        ensures
            (final(self)@, final(ctx)@) == spec_params(old(self)@, old(ctx)@, old(self).kernel.params@),
            final(self).kernel == old(self).kernel,
    {
        let kernel = self.kernel;
        let mut i: usize = 0;
        while i < kernel.params.len()
            invariant
                i <= kernel.params@.len(),
                kernel == old(self).kernel,
                self.kernel == kernel,
                (self@, ctx@) == spec_params(old(self)@, old(ctx)@, kernel.params@.take(i as int)),
            decreases kernel.params@.len() - i,
        {
            let param = &kernel.params[i];
            proof {
                assert(kernel.params@.take(i + 1).drop_last() =~= kernel.params@.take(i as int));
            }
            self.define(ctx, param, None);
            if matches!(param.ty, TypeRef::Fragment(_)) {
                self.error(None, DiagnosticCode::InvalidType, text("kernel parameters cannot be distributed fragments"));
            }
            add_key(&mut ctx.uniform, param.id.dup());
            i = i + 1;
        }
        assert(kernel.params@.take(kernel.params@.len() as int) =~= kernel.params@);
    }

    fn storage(&mut self, ctx: &Context, storage: &StorageDecl)
        ensures
            final(self)@ == spec_storage(old(self)@, ctx@, *storage),
            final(self).kernel == old(self).kernel,
    {
        self.index(&storage.ty.capacity_bytes, ctx);
        if !power_of_two(storage.ty.alignment_bytes) {
            self.error(None, DiagnosticCode::InvalidResource, text("storage alignment must be a nonzero power of two"));
        }
        match &storage.external {
            Some(ext) => {
                let ok = match value_pointer(ctx, ext) {
                    Some(p) => p.address_space == storage.ty.address_space,
                    None => false,
                };
                if !ok {
                    self.error(None, DiagnosticCode::InvalidResource, text("external storage must reference a parameter pointer in the same address space"));
                }
            },
            None => {
                if storage.ty.address_space == AddressSpace::Global {
                    self.error(None, DiagnosticCode::InvalidResource, text("global storage requires an external pointer binding"));
                }
            },
        }
    }

    fn storages(&mut self, ctx: &Context)
        ensures
            final(self)@ == spec_storages(old(self)@, ctx@, old(self).kernel.storages@),
            final(self).kernel == old(self).kernel,
    {
        let kernel = self.kernel;
        let mut i: usize = 0;
        while i < kernel.storages.len()
            invariant
                i <= kernel.storages@.len(),
                kernel == old(self).kernel,
                self.kernel == kernel,
                self@ == spec_storages(old(self)@, ctx@, kernel.storages@.take(i as int)),
            decreases kernel.storages@.len() - i,
        {
            proof {
                assert(kernel.storages@.take(i + 1).drop_last() =~= kernel.storages@.take(i as int));
            }
            self.storage(ctx, &kernel.storages[i]);
            i = i + 1;
        }
        assert(kernel.storages@.take(kernel.storages@.len() as int) =~= kernel.storages@);
    }

    fn indices_of(&mut self, ctx: &Context, exprs: &Vec<IndexExpr>)
        ensures
            final(self)@ == spec_indices(old(self)@, ctx@, exprs@),
            final(self).kernel == old(self).kernel,
    {
        let mut i: usize = 0;
        while i < exprs.len()
            invariant
                i <= exprs@.len(),
                self.kernel == old(self).kernel,
                self@ == spec_indices(old(self)@, ctx@, exprs@.take(i as int)),
            decreases exprs@.len() - i,
        {
            proof {
                assert(exprs@.take(i + 1).drop_last() =~= exprs@.take(i as int));
            }
            self.index(&exprs[i], ctx);
            i = i + 1;
        }
        assert(exprs@.take(exprs@.len() as int) =~= exprs@);
    }

    fn strides(&mut self, ctx: &Context, strides: &Vec<IndexExpr>, elem: u64)
        requires
            elem > 0,
        ensures
            final(self)@ == spec_strides(old(self)@, ctx@, strides@, elem),
            final(self).kernel == old(self).kernel,
    {
        let mut i: usize = 0;
        while i < strides.len()
            invariant
                i <= strides@.len(),
                elem > 0,
                self.kernel == old(self).kernel,
                self@ == spec_strides(old(self)@, ctx@, strides@.take(i as int), elem),
            decreases strides@.len() - i,
        {
            proof {
                assert(strides@.take(i + 1).drop_last() =~= strides@.take(i as int));
            }
            self.index(&strides[i], ctx);
            match strides[i].evaluate() {
                Ok(Some(v)) => {
                    if v % elem != 0 {
                        self.error(None, DiagnosticCode::InvalidResource, text("buffer stride must preserve element alignment"));
                    }
                },
                _ => {},
            }
            i = i + 1;
        }
        assert(strides@.take(strides@.len() as int) =~= strides@);
    }

    fn buffer_storage(&mut self, ctx: &Context, buffer: &BufferDecl, storage: &StorageDecl)
        ensures
            final(self)@ == spec_buffer_storage(old(self)@, ctx@, *buffer, *storage),
            final(self).kernel == old(self).kernel,
    {
        let read_only = match &storage.external {
            Some(ext) => match value_pointer(ctx, ext) {
                Some(p) => !p.mutable,
                None => false,
            },
            None => false,
        };
        if read_only && buffer.ty.mutable {
            self.error(None, DiagnosticCode::InvalidResource, text("a buffer cannot make read-only external storage writable"));
        }
        if (storage.ty.alignment_bytes as u64) < buffer.ty.element.size_bytes() {
            self.error(None, DiagnosticCode::InvalidResource, text("storage alignment is insufficient for the buffer element type"));
        }
        match buffer_end(&buffer.ty, 1, 0) {
            Err(m) => self.error(None, DiagnosticCode::InvalidResource, text(m)),
            Ok(end) => {
                let over = match (end, storage.ty.capacity_bytes.evaluate()) {
                    (Some(e), Ok(Some(size))) => e > size,
                    _ => false,
                };
                if over {
                    let m = quote_id("buffer '", &buffer.id.0, "' exceeds its storage capacity");
                    self.error(None, DiagnosticCode::InvalidResource, m);
                }
            },
        }
    }

    fn buffer(&mut self, ctx: &Context, buffer: &BufferDecl)
        ensures
            final(self)@ == spec_buffer(old(self)@, ctx@, *old(self).kernel, *buffer),
            final(self).kernel == old(self).kernel,
    {
        let kernel = self.kernel;
        let elem = buffer.ty.element.size_bytes();
        self.index(&buffer.ty.offset_bytes, ctx);
        self.indices_of(ctx, &buffer.ty.shape);
        match &buffer.ty.mapping {
            MappingSpec::Strided { strides_bytes } => {
                if strides_bytes.len() != buffer.ty.shape.len() {
                    self.error(None, DiagnosticCode::InvalidResource, text("buffer rank and stride rank differ"));
                }
                self.strides(ctx, strides_bytes, elem);
            },
            MappingSpec::Registered { .. } => {},
        }
        match buffer.ty.offset_bytes.evaluate() {
            Ok(Some(o)) => {
                if o % elem != 0 {
                    self.error(None, DiagnosticCode::InvalidResource, text("buffer byte offset is not element-aligned"));
                }
            },
            _ => {},
        }
        match &buffer.ty.mapping {
            MappingSpec::Registered { name } => {
                if name.as_str().is_empty() {
                    self.error(None, DiagnosticCode::InvalidResource, text("registered mapping name cannot be empty"));
                }
            },
            _ => {},
        }
        match find(&kernel.storages, &buffer.ty.storage.0) {
            Some(i) => self.buffer_storage(ctx, buffer, &kernel.storages[i]),
            None => {
                let m = quote_id("unknown storage '", &buffer.ty.storage.0, "'");
                self.error(None, DiagnosticCode::UnknownSymbol, m);
            },
        }
    }

    fn buffers(&mut self, ctx: &Context)
        ensures
            final(self)@ == spec_buffers(old(self)@, ctx@, *old(self).kernel, old(self).kernel.buffers@),
            final(self).kernel == old(self).kernel,
    {
        let kernel = self.kernel;
        let mut i: usize = 0;
        while i < kernel.buffers.len()
            invariant
                i <= kernel.buffers@.len(),
                kernel == old(self).kernel,
                self.kernel == kernel,
                self@ == spec_buffers(old(self)@, ctx@, *kernel, kernel.buffers@.take(i as int)),
            decreases kernel.buffers@.len() - i,
        {
            proof {
                assert(kernel.buffers@.take(i + 1).drop_last() =~= kernel.buffers@.take(i as int));
            }
            self.buffer(ctx, &kernel.buffers[i]);
            i = i + 1;
        }
        assert(kernel.buffers@.take(kernel.buffers@.len() as int) =~= kernel.buffers@);
    }

    fn role(&mut self, role: &RoleDecl, threads: Option<u64>)
        ensures
            final(self)@ == spec_role(old(self)@, *role, threads),
            final(self).kernel == old(self).kernel,
    {
        if role.warps.len() == 0 {
            self.error(None, DiagnosticCode::InvalidParticipation, text("a role cannot be empty"));
        }
        let ghost s1 = self@;
        let mut i: usize = 0;
        while i < role.warps.len()
            invariant
                i <= role.warps@.len(),
                self.kernel == old(self).kernel,
                self@ == spec_warps(s1, *role, i as int, threads),
            decreases role.warps@.len() - i,
        {
            let warp = role.warps[i];
            assert(MP31_WARP_SIZE == 32);
            assert((warp as u64 + 1) * (MP31_WARP_SIZE as u64) <= 0x20_0000_0000) by (nonlinear_arith)
                requires warp <= u32::MAX, MP31_WARP_SIZE == 32;
            let out_of_block = match threads {
                Some(n) => (warp as u64 + 1) * (MP31_WARP_SIZE as u64) > n,
                None => false,
            };
            if u32_in_prefix(&role.warps, i, warp) || out_of_block {
                let m = quote_id("role '", &role.id.0, "' has duplicate or out-of-block warps");
                self.error(None, DiagnosticCode::InvalidParticipation, m);
            }
            i = i + 1;
        }
    }

    fn roles(&mut self, threads: Option<u64>)
        ensures
            final(self)@ == spec_roles(old(self)@, old(self).kernel.roles@, threads),
            final(self).kernel == old(self).kernel,
    {
        let kernel = self.kernel;
        let mut i: usize = 0;
        while i < kernel.roles.len()
            invariant
                i <= kernel.roles@.len(),
                kernel == old(self).kernel,
                self.kernel == kernel,
                self@ == spec_roles(old(self)@, kernel.roles@.take(i as int), threads),
            decreases kernel.roles@.len() - i,
        {
            proof {
                assert(kernel.roles@.take(i + 1).drop_last() =~= kernel.roles@.take(i as int));
            }
            self.role(&kernel.roles[i], threads);
            i = i + 1;
        }
        assert(kernel.roles@.take(kernel.roles@.len() as int) =~= kernel.roles@);
    }

    fn accumulators(&mut self, ctx: &Context)
        ensures
            final(self)@ == spec_accumulators(old(self)@, ctx@, *old(self).kernel, old(self).kernel.accumulators@),
            final(self).kernel == old(self).kernel,
    {
        let kernel = self.kernel;
        let mut i: usize = 0;
        while i < kernel.accumulators.len()
            invariant
                i <= kernel.accumulators@.len(),
                kernel == old(self).kernel,
                self.kernel == kernel,
                self@ == spec_accumulators(old(self)@, ctx@, *kernel, kernel.accumulators@.take(i as int)),
            decreases kernel.accumulators@.len() - i,
        {
            proof {
                assert(kernel.accumulators@.take(i + 1).drop_last() =~= kernel.accumulators@.take(i as int));
            }
            let acc = &kernel.accumulators[i];
            if !contains(&kernel.roles, &acc.ty.participants.0) {
                self.error(None, DiagnosticCode::UnknownSymbol, text("accumulator has an unknown participant role"));
            }
            self.indices_of(ctx, &acc.ty.logical_shape);
            if acc.ty.representation.as_str().is_empty() {
                self.error(None, DiagnosticCode::InvalidType, text("accumulator requires an explicit representation"));
            }
            i = i + 1;
        }
        assert(kernel.accumulators@.take(kernel.accumulators@.len() as int) =~= kernel.accumulators@);
    }

    fn claims(&mut self, owners: &mut Vec<(StorageId, PipelineId)>, pipe: &PipelineDecl)
        ensures
            (final(self)@, final(owners)@) == spec_claims(old(self)@, old(owners)@, *old(self).kernel, *pipe, pipe.buffers@),
            final(self).kernel == old(self).kernel,
    {
        let kernel = self.kernel;
        let mut i: usize = 0;
        while i < pipe.buffers.len()
            invariant
                i <= pipe.buffers@.len(),
                kernel == old(self).kernel,
                self.kernel == kernel,
                (self@, owners@) == spec_claims(old(self)@, old(owners)@, *kernel, *pipe, pipe.buffers@.take(i as int)),
            decreases pipe.buffers@.len() - i,
        {
            proof {
                assert(pipe.buffers@.take(i + 1).drop_last() =~= pipe.buffers@.take(i as int));
            }
            match find(&kernel.buffers, &pipe.buffers[i].buffer.0) {
                Some(j) => {
                    let storage = &kernel.buffers[j].ty.storage;
                    match find(owners, &storage.0) {
                        Some(o) => {
                            if !owners[o].1.same(&pipe.id) {
                                self.error(None, DiagnosticCode::InvalidPipeline, text("sharing storage between pipelines is not supported"));
                            }
                        },
                        None => {},
                    }
                    put_entry(owners, storage.dup(), pipe.id.dup());
                },
                None => {},
            }
            i = i + 1;
        }
        assert(pipe.buffers@.take(pipe.buffers@.len() as int) =~= pipe.buffers@);
    }

    fn pair(&mut self, slots: u32, a: &PipelineBufferBinding, b: &PipelineBufferBinding)
        ensures
            final(self)@ == spec_pair(old(self)@, *old(self).kernel, slots, *a, *b),
            final(self).kernel == old(self).kernel,
    {
        let kernel = self.kernel;
        match (find(&kernel.buffers, &a.buffer.0), find(&kernel.buffers, &b.buffer.0)) {
            (Some(i), Some(j)) => {
                let x = &kernel.buffers[i].ty;
                let y = &kernel.buffers[j].ty;
                if x.storage.same(&y.storage) {
                    let disjoint = match (x.offset_bytes.evaluate(), buffer_end(x, slots, a.slot_stride_bytes), y.offset_bytes.evaluate(), buffer_end(y, slots, b.slot_stride_bytes)) {
                        (Ok(Some(a0)), Ok(Some(a1)), Ok(Some(b0)), Ok(Some(b1))) => a1 <= b0 || b1 <= a0,
                        _ => false,
                    };
                    if !disjoint {
                        self.error(None, DiagnosticCode::InvalidPipeline, text("pipeline buffer slot envelopes may overlap; use separate storage or disjoint envelopes"));
                    }
                }
            },
            _ => {},
        }
    }

    fn pairs(&mut self, pipe: &PipelineDecl)
        ensures
            final(self)@ == spec_pairs(old(self)@, *old(self).kernel, pipe.slots, pipe.buffers@, pipe.buffers@.len() as int),
            final(self).kernel == old(self).kernel,
    {
        let kernel = self.kernel;
        let n = pipe.buffers.len();
        let mut i: usize = 0;
        while i < n
            invariant
                i <= n == pipe.buffers@.len(),
                kernel == old(self).kernel,
                self.kernel == kernel,
                self@ == spec_pairs(old(self)@, *kernel, pipe.slots, pipe.buffers@, i as int),
            decreases n - i,
        {
            let ghost before = self@;
            let ghost later = pipe.buffers@.skip(i + 1);
            let mut j: usize = i + 1;
            while j < n
                invariant
                    i < j <= n,
                    n == pipe.buffers@.len(),
                    later == pipe.buffers@.skip(i + 1),
                    kernel == old(self).kernel,
                    self.kernel == kernel,
                    self@ == spec_pairs_with(before, *kernel, pipe.slots, pipe.buffers@[i as int], later.take(j - i - 1)),
                decreases n - j,
            {
                proof {
                    assert(later.take(j - i).drop_last() =~= later.take(j - i - 1));
                    assert(later.take(j - i).last() == pipe.buffers@[j as int]);
                }
                self.pair(pipe.slots, &pipe.buffers[i], &pipe.buffers[j]);
                j = j + 1;
            }
            proof {
                assert(later.take(n - i - 1) =~= later);
            }
            i = i + 1;
        }
    }

    fn binding(&mut self, pipe: &PipelineDecl, n: usize)
        requires
            n < pipe.buffers@.len(),
        ensures
            final(self)@ == spec_binding(old(self)@, *old(self).kernel, *pipe, n as int),
            final(self).kernel == old(self).kernel,
    {
        let kernel = self.kernel;
        let binding = &pipe.buffers[n];
        if key_in_prefix(&pipe.buffers, n, &binding.buffer.0) {
            self.error(None, DiagnosticCode::InvalidPipeline, text("a buffer is bound twice to a pipeline"));
        }
        match find(&kernel.buffers, &binding.buffer.0) {
            None => self.error(None, DiagnosticCode::UnknownSymbol, text("pipeline references unknown buffer")),
            Some(i) => {
                let buffer = &kernel.buffers[i];
                match find(&kernel.storages, &buffer.ty.storage.0) {
                    None => {},
                    Some(j) => {
                        let storage = &kernel.storages[j];
                        if storage.ty.address_space != AddressSpace::Shared || !buffer.ty.mutable {
                            self.error(None, DiagnosticCode::InvalidPipeline, text("pipeline buffers must use writable shared storage"));
                        }
                        let align = storage.ty.alignment_bytes as u64;
                        if binding.slot_stride_bytes == 0 || align == 0 || binding.slot_stride_bytes % align != 0 {
                            self.error(None, DiagnosticCode::InvalidPipeline, text("slot stride must be positive and preserve storage alignment"));
                        }
                        match footprint(&buffer.ty) {
                            Ok(Some(size)) => {
                                if size > binding.slot_stride_bytes {
                                    self.error(None, DiagnosticCode::InvalidPipeline, text("pipeline slots overlap"));
                                }
                            },
                            _ => {},
                        }
                        match buffer_end(&buffer.ty, pipe.slots, binding.slot_stride_bytes) {
                            Err(m) => self.error(None, DiagnosticCode::InvalidPipeline, text(m)),
                            Ok(end) => {
                                let over = match (end, storage.ty.capacity_bytes.evaluate()) {
                                    (Some(e), Ok(Some(size))) => e > size,
                                    _ => false,
                                };
                                if over {
                                    self.error(None, DiagnosticCode::InvalidPipeline, text("staged buffer exceeds storage capacity"));
                                }
                            },
                        }
                    },
                }
            },
        }
    }

    fn pipeline(&mut self, ctx: &Context, owners: &mut Vec<(StorageId, PipelineId)>, pipe: &PipelineDecl)
        ensures
            (final(self)@, final(owners)@) == spec_pipeline(old(self)@, ctx@, old(owners)@, *old(self).kernel, *pipe),
            final(self).kernel == old(self).kernel,
    {
        let kernel = self.kernel;
        self.claims(owners, pipe);
        self.index(&pipe.iteration_count, ctx);
        if pipe.slots == 0 || pipe.buffers.len() == 0 || pipe.producer.same(&pipe.consumer) {
            self.error(None, DiagnosticCode::InvalidPipeline, text("pipeline requires positive slots, buffers and distinct producer/consumer roles"));
        }
        if !contains(&kernel.roles, &pipe.producer.0) {
            let m = quote_id("pipeline references unknown role '", &pipe.producer.0, "'");
            self.error(None, DiagnosticCode::UnknownSymbol, m);
        }
        if !contains(&kernel.roles, &pipe.consumer.0) {
            let m = quote_id("pipeline references unknown role '", &pipe.consumer.0, "'");
            self.error(None, DiagnosticCode::UnknownSymbol, m);
        }
        self.pairs(pipe);
        let ghost s5 = self@;
        let mut i: usize = 0;
        while i < pipe.buffers.len()
            invariant
                i <= pipe.buffers@.len(),
                kernel == old(self).kernel,
                self.kernel == kernel,
                self@ == spec_bindings(s5, *kernel, *pipe, i as int),
            decreases pipe.buffers@.len() - i,
        {
            self.binding(pipe, i);
            i = i + 1;
        }
    }

    pub fn declarations(&mut self, ctx: &mut Context)
        ensures
            (final(self)@, final(ctx)@) == spec_declarations(old(self)@, old(ctx)@, *old(self).kernel),
            final(self).kernel == old(self).kernel,
    {
        let kernel = self.kernel;
        self.params(ctx);
        self.unique(&kernel.storages, "storage");
        self.unique(&kernel.buffers, "buffer");
        self.unique(&kernel.roles, "role");
        self.unique(&kernel.pipelines, "pipeline");
        self.unique(&kernel.accumulators, "accumulator");
        let threads = match (kernel.block[0] as u64).checked_mul(kernel.block[1] as u64) {
            Some(t) => t.checked_mul(kernel.block[2] as u64),
            None => None,
        };
        assert(kernel.block@[0] * kernel.block@[1] <= u64::MAX) by (nonlinear_arith)
            requires kernel.block@[0] <= u32::MAX, kernel.block@[1] <= u32::MAX;
        assert(threads == block_threads(kernel.block@));
        let zero = kernel.block[0] == 0 || kernel.block[1] == 0 || kernel.block[2] == 0;
        assert(zero == kernel.block@.contains(0u32)) by {
            if kernel.block@.contains(0u32) {
                let w = choose|w: int| 0 <= w < kernel.block@.len() && kernel.block@[w] == 0u32;
                assert(w == 0 || w == 1 || w == 2);
            }
            if zero {
                if kernel.block[0] == 0 {
                    assert(kernel.block@[0] == 0u32);
                } else if kernel.block[1] == 0 {
                    assert(kernel.block@[1] == 0u32);
                } else {
                    assert(kernel.block@[2] == 0u32);
                }
            }
        }
        if threads.is_none() || zero {
            self.error(None, DiagnosticCode::InvalidParticipation, text("invalid or overflowing block dimensions"));
        }
        self.storages(ctx);
        self.buffers(ctx);
        self.roles(threads);
        self.accumulators(ctx);
        let mut owners: Vec<(StorageId, PipelineId)> = Vec::new();
        let ghost s11 = self@;
        let mut i: usize = 0;
        while i < kernel.pipelines.len()
            invariant
                i <= kernel.pipelines@.len(),
                kernel == old(self).kernel,
                self.kernel == kernel,
                (self@, owners@) == spec_pipelines(s11, ctx@, seq![], *kernel, kernel.pipelines@.take(i as int)),
            decreases kernel.pipelines@.len() - i,
        {
            proof {
                assert(kernel.pipelines@.take(i + 1).drop_last() =~= kernel.pipelines@.take(i as int));
            }
            self.pipeline(ctx, &mut owners, &kernel.pipelines[i]);
            i = i + 1;
        }
        assert(kernel.pipelines@.take(kernel.pipelines@.len() as int) =~= kernel.pipelines@);
    }
}

} // verus!
