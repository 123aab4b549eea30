use std::collections::HashSet;
use xir_core::access::same_storage;
use xir_core::ast::{
    BinaryOp, BufferDecl, Kernel, LaunchBuiltin, Literal, Module, ScheduleNode, ScheduleNodeKind,
    StorageDecl, ValueDef,
};
use xir_core::checker::literal_matches;
use xir_core::cuda::{admit_cuda, c_type};
use xir_core::diagnostic::{Diagnostic, DiagnosticBag, DiagnosticSeverity};
use xir_core::layout::{buffer_end, footprint, views_disjoint};
use xir_core::render::render_type;
use xir_core::types::{
    AddressSpace, BufferType, DType, FragmentType, IndexExpr, MappingSpec, MemoryRef, NodeId,
    PointerType, StorageType, TypeRef, ValueId,
};
use xir_core::verify::validate_cuda;
use xir_core::{validate_module, verify_module, CheckStatus, DiagnosticCode, ModuleBuilder, TargetRequest};

fn node(kind: ScheduleNodeKind) -> ScheduleNode {
    ScheduleNode::new(kind)
}

fn pointer(mutable: bool) -> TypeRef {
    TypeRef::Pointer(PointerType { element: DType::F32, address_space: AddressSpace::Global, mutable })
}

fn extent_bytes(n: &str) -> IndexExpr {
    IndexExpr::Mul(Box::new(IndexExpr::Value(n.into())), Box::new(IndexExpr::constant(4)))
}

fn vector(id: &str, n: &str, mutable: bool) -> BufferDecl {
    BufferDecl {
        id: id.into(),
        ty: BufferType {
            storage: id.into(),
            offset_bytes: IndexExpr::constant(0),
            element: DType::F32,
            shape: vec![IndexExpr::Value(n.into())],
            mapping: MappingSpec::Strided { strides_bytes: vec![IndexExpr::constant(4)] },
            mutable,
        },
    }
}

fn vector_storage(id: &str, parameter: &str, n: &str) -> StorageDecl {
    StorageDecl {
        id: id.into(),
        ty: StorageType { address_space: AddressSpace::Global, capacity_bytes: extent_bytes(n), alignment_bytes: 4 },
        external: Some(parameter.into()),
    }
}

fn binary(op: BinaryOp, lhs: &str, rhs: &str, result: &str, ty: TypeRef) -> ScheduleNode {
    node(ScheduleNodeKind::Binary { op, lhs: lhs.into(), rhs: rhs.into(), result: ValueDef::new(result, ty) })
}

/// `out[i] = a[i] + b[i]` for `i < n`, on `cuda:sm_120`.
fn vector_add() -> Module {
    vector_add_named(&|id| id.to_string())
}

/// The same kernel, with every identifier named by `nm`.
fn vector_add_named(nm: &dyn Fn(&str) -> String) -> Module {
    let mut kernel = Kernel::new(&nm("add"));
    kernel.block = [128, 1, 1];
    kernel.params = vec![
        ValueDef::new(&nm("n"), TypeRef::Index),
        ValueDef::new(&nm("a_ptr"), pointer(false)),
        ValueDef::new(&nm("b_ptr"), pointer(false)),
        ValueDef::new(&nm("out_ptr"), pointer(true)),
    ];
    kernel.storages = vec![vector_storage(&nm("a"), &nm("a_ptr"), &nm("n")), vector_storage(&nm("b"), &nm("b_ptr"), &nm("n")), vector_storage(&nm("out"), &nm("out_ptr"), &nm("n"))];
    kernel.buffers = vec![vector(&nm("a"), &nm("n"), false), vector(&nm("b"), &nm("n"), false), vector(&nm("out"), &nm("n"), true)];
    kernel.body = vec![
        node(ScheduleNodeKind::LaunchIndex { builtin: LaunchBuiltin::ThreadIdxX, result: ValueDef::new(&nm("tid"), TypeRef::Index) }),
        node(ScheduleNodeKind::LaunchIndex { builtin: LaunchBuiltin::BlockIdxX, result: ValueDef::new(&nm("bid"), TypeRef::Index) }),
        node(ScheduleNodeKind::LaunchIndex { builtin: LaunchBuiltin::BlockDimX, result: ValueDef::new(&nm("bdim"), TypeRef::Index) }),
        binary(BinaryOp::Mul, &nm("bid"), &nm("bdim"), &nm("start"), TypeRef::Index),
        binary(BinaryOp::Add, &nm("start"), &nm("tid"), &nm("i"), TypeRef::Index),
        binary(BinaryOp::Less, &nm("i"), &nm("n"), &nm("inside"), TypeRef::Predicate),
        node(ScheduleNodeKind::Constant {
            value: Literal::Float(0.0f64.to_bits()),
            result: ValueDef::new(&nm("zero"), TypeRef::Scalar(DType::F32)),
        }),
        node(ScheduleNodeKind::Load {
            source: MemoryRef::buffer(&nm("a")),
            indices: vec![nm("i").as_str().into()],
            mask: nm("inside").as_str().into(),
            masked_value: nm("zero").as_str().into(),
            result: ValueDef::new(&nm("x"), TypeRef::Scalar(DType::F32)),
        }),
        node(ScheduleNodeKind::Load {
            source: MemoryRef::buffer(&nm("b")),
            indices: vec![nm("i").as_str().into()],
            mask: nm("inside").as_str().into(),
            masked_value: nm("zero").as_str().into(),
            result: ValueDef::new(&nm("y"), TypeRef::Scalar(DType::F32)),
        }),
        binary(BinaryOp::Add, &nm("x"), &nm("y"), &nm("sum"), TypeRef::Scalar(DType::F32)),
        node(ScheduleNodeKind::Store { destination: MemoryRef::buffer(&nm("out")), indices: vec![nm("i").as_str().into()], value: nm("sum").as_str().into(), mask: nm("inside").as_str().into() }),
        node(ScheduleNodeKind::KernelReturn),
    ];
    let mut builder = ModuleBuilder::new(&nm("add"), TargetRequest { backend: "cuda".into(), arch: "sm_120".into() });
    builder.add_kernel(kernel);
    builder.finish_unchecked()
}

fn preorder(region: &[ScheduleNode], out: &mut Vec<String>) {
    for n in region {
        out.push(n.meta.node_id.0.clone());
        for child in n.regions() {
            preorder(child, out);
        }
    }
}

fn module_ids(module: &Module) -> Vec<String> {
    let mut out = vec![];
    for k in &module.kernels {
        preorder(&k.body, &mut out);
    }
    out
}

fn simple(body: Vec<ScheduleNode>) -> Module {
    let mut kernel = Kernel::new("k");
    kernel.body = body;
    let mut builder = ModuleBuilder::new("m", TargetRequest::musa_mp31());
    builder.add_kernel(kernel);
    builder.finish_unchecked()
}

#[test]
fn finishing_keeps_present_ids_and_makes_all_unique() {
    let mut first = node(ScheduleNodeKind::KernelReturn);
    first.meta.node_id = "m.n1".into();
    let mut kernel = Kernel::new("k");
    kernel.body = vec![
        node(ScheduleNodeKind::Constant { value: Literal::Index(1), result: ValueDef::new("one", TypeRef::Index) }),
        first,
        node(ScheduleNodeKind::KernelReturn),
    ];
    let mut builder = ModuleBuilder::new("m", TargetRequest::musa_mp31());
    builder.add_kernel(kernel);
    let module = builder.finish_unchecked();
    assert_eq!(module_ids(&module), vec!["m.n0", "m.n1", "m.n2"]);
}

#[test]
fn a_passing_module_has_unique_nonempty_node_ids() {
    let module = vector_add();
    assert!(!validate_module(&module).has_errors(), "{:?}", validate_module(&module));
    let ids = module_ids(&module);
    assert!(ids.iter().all(|id| !id.is_empty()));
    assert_eq!(ids.iter().collect::<HashSet<_>>().len(), ids.len());
}

#[test]
fn every_finding_of_construction_is_an_error() {
    let mut module = simple(vec![]);
    module.schema_version = 7;
    module.name = String::new();
    let bag = validate_module(&module);
    assert!(bag.diagnostics.len() >= 3);
    assert!(bag.diagnostics.iter().all(|d| d.severity == DiagnosticSeverity::Error));
    assert_eq!(bag.diagnostics[0].message, "expected schema 2, got 7");
    assert_eq!(bag.diagnostics[1].message, "module name cannot be empty");
}

#[test]
fn effect_summaries_follow_the_node_ids_in_preorder() {
    let module = vector_add();
    let report = verify_module(&module);
    let ids: Vec<String> = report.effects.iter().map(|e| e.node.0.clone()).collect();
    assert_eq!(ids, module_ids(&module));
}

#[test]
fn cuda_elementwise_module_is_admitted_and_the_target_passes() {
    let module = vector_add();
    let report = verify_module(&module);
    assert_eq!(report.construction, CheckStatus::Pass);
    assert_eq!(report.target, CheckStatus::Pass);
    assert_eq!(report.status, CheckStatus::Unknown);
    assert!(!validate_cuda(&module).has_errors());
    let admitted = admit_cuda(&module).unwrap();
    assert_eq!(admitted.extent_parameter, 0);
    let bindings: Vec<(String, usize)> = admitted.buffer_parameters.iter().map(|(b, p)| (b.0.clone(), *p)).collect();
    assert_eq!(bindings, vec![("a".to_string(), 1), ("b".to_string(), 2), ("out".to_string(), 3)]);
}

#[test]
fn cuda_rejections_agree_with_the_report() {
    let mut module = vector_add();
    module.kernels[0].params.push(ValueDef::new("m", TypeRef::Index));
    let bag = validate_cuda(&module);
    assert!(!validate_module(&module).has_errors());
    assert_eq!(bag.diagnostics.len(), 1);
    assert_eq!(bag.diagnostics[0].code, DiagnosticCode::UnsupportedCapability);
    assert_eq!(bag.diagnostics[0].message, "CUDA elementwise ABI requires exactly one Index extent parameter");
    assert_eq!(verify_module(&module).target, CheckStatus::Unknown);

    let mut module = vector_add();
    module.kernels[0].body.remove(10);
    let bag = validate_cuda(&module);
    assert_eq!(bag.diagnostics.last().unwrap().message, "CUDA elementwise kernel must contain a Store");
    assert_eq!(verify_module(&module).target, CheckStatus::Unknown);

    let mut module = vector_add();
    module.kernels[0].block = [2048, 1, 1];
    assert_eq!(
        validate_cuda(&module).diagnostics.last().unwrap().message,
        "CUDA elementwise lowering requires a 1D block of 1..=1024 threads"
    );

    let mut module = vector_add();
    module.kernels[0].buffers[1].ty.offset_bytes = IndexExpr::constant(4);
    let last = validate_cuda(&module).diagnostics.last().unwrap().message.clone();
    assert!(last.starts_with("CUDA buffers must be contiguous FP32"), "{last}");

    let mut module = vector_add();
    if let ScheduleNodeKind::Binary { rhs, .. } = &mut module.kernels[0].body[5].kind {
        *rhs = "start".into();
    }
    let bag = validate_cuda(&module);
    let rejection = bag.diagnostics.last().unwrap();
    assert_eq!(rejection.message, "CUDA memory accesses require the same linear index i and explicit mask i < n");
    assert_eq!(rejection.node_id, Some(module.kernels[0].body[7].meta.node_id.0.clone()));

    let mut musa = vector_add();
    musa.target_request = TargetRequest::musa_mp31();
    assert!(!validate_module(&musa).has_errors());
    assert_eq!(
        validate_cuda(&musa).diagnostics[0].message,
        "CUDA lowering currently requires cuda:sm_120 and exactly one kernel"
    );
}

#[test]
fn construction_failures_skip_target_admission() {
    let mut module = vector_add();
    module.kernels[0].body.pop();
    let construction = validate_module(&module);
    let cuda = validate_cuda(&module);
    assert!(construction.has_errors());
    assert_eq!(construction, cuda);
    let report = verify_module(&module);
    assert_eq!(report.construction, CheckStatus::Fail);
    assert_eq!(report.status, CheckStatus::Fail);
    assert_eq!(report.target, CheckStatus::Unknown);
}

#[test]
fn overlap_does_not_depend_on_order() {
    let module = vector_add();
    let kernel = &module.kernels[0];
    let a = MemoryRef::buffer("a");
    let out = MemoryRef::buffer("out");
    assert_eq!(same_storage(kernel, &a, &out), same_storage(kernel, &out, &a));
    assert!(same_storage(kernel, &a, &a));
    assert!(!same_storage(kernel, &a, &out));
    let mut left = kernel.buffers[0].ty.clone();
    left.shape = vec![IndexExpr::constant(4)];
    let mut right = left.clone();
    right.offset_bytes = IndexExpr::constant(16);
    assert!(views_disjoint(&left, &right));
    assert!(views_disjoint(&right, &left));
    right.offset_bytes = IndexExpr::constant(12);
    assert!(!views_disjoint(&left, &right));
    assert!(!views_disjoint(&right, &left));
}

#[test]
fn index_expressions_evaluate_exactly() {
    let add = IndexExpr::Add(Box::new(IndexExpr::constant(2)), Box::new(IndexExpr::constant(3)));
    assert_eq!(add.evaluate(), Ok(Some(5)));
    let div = IndexExpr::FloorDiv(Box::new(IndexExpr::constant(7)), Box::new(IndexExpr::constant(2)));
    assert_eq!(div.evaluate(), Ok(Some(3)));
    let overflow = IndexExpr::Mul(Box::new(IndexExpr::constant(u64::MAX)), Box::new(IndexExpr::constant(2)));
    assert_eq!(overflow.evaluate(), Err("index arithmetic overflows u64"));
    let symbolic = IndexExpr::Add(Box::new(IndexExpr::Value("n".into())), Box::new(IndexExpr::constant(1)));
    assert_eq!(symbolic.evaluate(), Ok(None));
    let by_zero = IndexExpr::FloorDiv(Box::new(IndexExpr::Value("n".into())), Box::new(IndexExpr::constant(0)));
    assert_eq!(by_zero.evaluate(), Err("index division by zero"));
    let mut ids: Vec<ValueId> = vec![];
    IndexExpr::Mul(Box::new(IndexExpr::Value("a".into())), Box::new(IndexExpr::Value("b".into()))).values(&mut ids);
    assert_eq!(ids, vec![ValueId::from("a"), ValueId::from("b")]);
}

#[test]
fn footprints_and_staged_extents() {
    let view = BufferType {
        storage: "s".into(),
        offset_bytes: IndexExpr::constant(8),
        element: DType::BF16,
        shape: vec![IndexExpr::constant(128), IndexExpr::constant(64)],
        mapping: MappingSpec::Strided { strides_bytes: vec![IndexExpr::constant(128), IndexExpr::constant(2)] },
        mutable: true,
    };
    assert_eq!(footprint(&view), Ok(Some(2 + 127 * 128 + 63 * 2)));
    assert_eq!(buffer_end(&view, 2, 16384), Ok(Some(8 + 16384 + 2 + 127 * 128 + 63 * 2)));
    assert_eq!(buffer_end(&view, 0, 16384), Err("pipeline must have at least one slot"));
    let mut empty = view.clone();
    empty.shape[0] = IndexExpr::constant(0);
    assert_eq!(footprint(&empty), Ok(Some(0)));
    let mut unranked = view.clone();
    unranked.shape.pop();
    assert_eq!(footprint(&unranked), Err("buffer rank and stride rank differ"));
}

#[test]
fn literals_fit_their_declared_types() {
    assert!(literal_matches(&Literal::Index(3), &TypeRef::Index));
    assert!(!literal_matches(&Literal::Index(3), &TypeRef::Scalar(DType::U64)));
    assert!(literal_matches(&Literal::Bool(true), &TypeRef::Predicate));
    assert!(literal_matches(&Literal::Bool(true), &TypeRef::Scalar(DType::Bool)));
    assert!(literal_matches(&Literal::Integer(-1), &TypeRef::Scalar(DType::I32)));
    assert!(!literal_matches(&Literal::Integer(-1), &TypeRef::Scalar(DType::U32)));
    assert!(!literal_matches(&Literal::Integer(1 << 40), &TypeRef::Scalar(DType::I32)));
    assert!(literal_matches(&Literal::Integer(1 << 40), &TypeRef::Scalar(DType::I64)));
    assert!(literal_matches(&Literal::Float(65504.0f64.to_bits()), &TypeRef::Scalar(DType::F16)));
    assert!(!literal_matches(&Literal::Float(65505.0f64.to_bits()), &TypeRef::Scalar(DType::F16)));
    assert!(literal_matches(&Literal::Float((f32::MAX as f64).to_bits()), &TypeRef::Scalar(DType::F32)));
    assert!(!literal_matches(&Literal::Float(1e39f64.to_bits()), &TypeRef::Scalar(DType::F32)));
    assert!(!literal_matches(&Literal::Float(f64::INFINITY.to_bits()), &TypeRef::Scalar(DType::F64)));
    assert!(!literal_matches(&Literal::Float(f64::NAN.to_bits()), &TypeRef::Scalar(DType::F64)));
    assert!(literal_matches(&Literal::Float((-1.5f64).to_bits()), &TypeRef::Scalar(DType::F64)));
}

#[test]
fn type_text_matches_the_debug_notation() {
    let fragment = TypeRef::Fragment(FragmentType {
        element: DType::F32,
        logical_shape: vec![
            IndexExpr::constant(128),
            IndexExpr::Add(Box::new(IndexExpr::Value("n".into())), Box::new(IndexExpr::constant(1))),
        ],
        participants: "consumer".into(),
        representation: "mp31.acc".into(),
    });
    for ty in [
        TypeRef::Index,
        TypeRef::Predicate,
        TypeRef::Scalar(DType::BF16),
        TypeRef::Pointer(PointerType { element: DType::U32, address_space: AddressSpace::Shared, mutable: true }),
        fragment,
    ] {
        assert_eq!(render_type(&ty), format!("{ty:?}"));
    }
}

#[test]
fn mismatch_and_dominance_messages_name_the_values() {
    let module = simple(vec![
        node(ScheduleNodeKind::Constant { value: Literal::Bool(true), result: ValueDef::new("flag", TypeRef::Predicate) }),
        binary(BinaryOp::Add, "flag", "later", "sum", TypeRef::Predicate),
        node(ScheduleNodeKind::KernelReturn),
    ]);
    let messages: Vec<String> = validate_module(&module).diagnostics.into_iter().map(|d| d.message).collect();
    assert!(messages.contains(&"value 'later' does not dominate this use".to_string()), "{messages:?}");
    assert!(messages.contains(&"value 'later' is not defined in this execution region".to_string()), "{messages:?}");
    assert!(messages.contains(&"invalid binary operand or result types".to_string()), "{messages:?}");

    let module = simple(vec![
        node(ScheduleNodeKind::Constant { value: Literal::Index(1), result: ValueDef::new("one", TypeRef::Index) }),
        node(ScheduleNodeKind::Constant { value: Literal::Bool(true), result: ValueDef::new("flag", TypeRef::Predicate) }),
        binary(BinaryOp::Add, "one", "flag", "sum", TypeRef::Index),
        node(ScheduleNodeKind::KernelReturn),
    ]);
    let messages: Vec<String> = validate_module(&module).diagnostics.into_iter().map(|d| d.message).collect();
    assert_eq!(messages, vec!["value 'flag' has type Predicate, expected Index".to_string()]);
}

#[test]
fn constant_index_arithmetic_folds_and_checks_division() {
    let module = simple(vec![
        node(ScheduleNodeKind::Constant { value: Literal::Index(6), result: ValueDef::new("six", TypeRef::Index) }),
        node(ScheduleNodeKind::Constant { value: Literal::Index(0), result: ValueDef::new("zero", TypeRef::Index) }),
        binary(BinaryOp::Sub, "zero", "six", "negative", TypeRef::Index),
        binary(BinaryOp::Div, "six", "zero", "quotient", TypeRef::Index),
        node(ScheduleNodeKind::KernelReturn),
    ]);
    let messages: Vec<String> = validate_module(&module).diagnostics.into_iter().map(|d| d.message).collect();
    assert_eq!(
        messages,
        vec![
            "constant index arithmetic overflows or divides by zero".to_string(),
            "division by zero".to_string(),
            "constant index arithmetic overflows or divides by zero".to_string(),
        ]
    );
}

#[test]
fn defaults_and_constructors() {
    let module = Module::default();
    assert_eq!(module.name, "module");
    assert_eq!(module.schema_version, 2);
    assert!(module.target_request.is_known());
    assert!(!module.target_request.is_cuda());
    let cuda = TargetRequest { backend: "cuda".into(), arch: "sm_120".into() };
    assert!(cuda.is_known() && cuda.is_cuda());
    assert!(!TargetRequest { backend: "musa".into(), arch: "mp99".into() }.is_known());
    let kernel = Kernel::new("k");
    assert_eq!(kernel.block, [1, 1, 1]);
    assert_eq!(DType::BF16.size_bytes(), 2);
    assert_eq!(DType::U64.size_bytes(), 8);
    assert_eq!(DType::Bool.size_bytes(), 1);
    assert_eq!(DType::F32.size_bytes(), 4);
    let leased = MemoryRef::leased("slot", "ticket");
    assert_eq!(leased.buffer_id().0, "slot");
    assert_eq!(NodeId::from("x").0, "x");
    let error = Diagnostic::error(DiagnosticCode::InternalError, "broken".to_string());
    assert_eq!(error.severity, DiagnosticSeverity::Error);
    assert!(error.node_id.is_none() && error.related_nodes.is_empty());
    let mut bag = DiagnosticBag::new();
    let mut note = error.clone();
    note.severity = DiagnosticSeverity::Warning;
    bag.push(note);
    assert!(!bag.has_errors());
    bag.push(error);
    assert!(bag.has_errors());
    assert_eq!(c_type(&TypeRef::Index), "uint64_t");
    assert_eq!(c_type(&pointer(false)), "const float*");
    assert_eq!(c_type(&pointer(true)), "float*");
    assert_eq!(c_type(&TypeRef::Scalar(DType::F32)), "float");
    let builder = ModuleBuilder::from_module(simple(vec![node(ScheduleNodeKind::KernelReturn)]));
    assert!(builder.finish_checked().is_ok());
    let failing = ModuleBuilder::new("m", TargetRequest::musa_mp31());
    assert!(failing.finish_checked().is_ok());
}

#[test]
fn launch_indices_and_yields_are_checked() {
    let module = simple(vec![
        node(ScheduleNodeKind::LaunchIndex { builtin: LaunchBuiltin::GridDimX, result: ValueDef::new("g", TypeRef::Predicate) }),
        node(ScheduleNodeKind::Yield { values: vec![] }),
        node(ScheduleNodeKind::KernelReturn),
    ]);
    let messages: Vec<String> = validate_module(&module).diagnostics.into_iter().map(|d| d.message).collect();
    assert_eq!(
        messages,
        vec!["LaunchIndex result must be Index".to_string(), "Yield is not valid in this region".to_string()]
    );
}

#[test]
fn cuda_source_of_the_elementwise_add() {
    let module = vector_add();
    let floats = xir_core::emit::float_constants(&module);
    assert_eq!(floats, vec![0.0f64.to_bits()]);
    let texts = vec![format!("{:.17e}", f64::from_bits(floats[0]))];
    assert!(xir_core::emit::fits_emission(&module, &texts));
    let artifact = xir_core::emit::emit_cuda(&module, "// runtime helpers\n", &texts).unwrap();
    let kernel = [
        "// Generated by XIR. Do not edit; regenerate from the DSL.",
        "#include <cuda_runtime.h>",
        "#include <cstdint>",
        "#include <cstdio>",
        "#include <limits>",
        "",
        "extern \"C\" __global__ void xir_kernel_0(uint64_t p0, const float* p1, const float* p2, float* p3) {",
        "    // schedule node 0",
        "    const uint64_t v0 = static_cast<uint64_t>(threadIdx.x);",
        "    // schedule node 1",
        "    const uint64_t v1 = static_cast<uint64_t>(blockIdx.x);",
        "    // schedule node 2",
        "    const uint64_t v2 = static_cast<uint64_t>(blockDim.x);",
        "    // schedule node 3",
        "    const uint64_t v3 = v1 * v2;",
        "    // schedule node 4",
        "    const uint64_t v4 = v3 + v0;",
        "    // schedule node 5",
        "    const bool v5 = v4 < p0;",
        "    // schedule node 6",
        "    const float v6 = static_cast<float>(0.00000000000000000e0);",
        "    // schedule node 7",
        "    const float v7 = v5 ? p1[v4] : v6;",
        "    // schedule node 8",
        "    const float v8 = v5 ? p2[v4] : v6;",
        "    // schedule node 9",
        "    const float v9 = v7 + v8;",
        "    // schedule node 10",
        "    if (v5) { p3[v4] = v9; }",
        "    // schedule node 11",
        "    return;",
        "}",
        "",
        "// runtime helpers",
        "",
        "extern \"C\" int xir_launch(",
    ]
    .join("\n");
    assert!(artifact.source.starts_with(kernel.as_str()), "{}", artifact.source);
    for line in [
        "    if (lengths[1] < n || lengths[1] > std::numeric_limits<size_t>::max() / sizeof(float) || (lengths[1] && !host[1])) return xir_error(error, error_capacity, \"invalid host buffer extent\");\n",
        "    constexpr uint32_t block = 128;\n",
        "    XirDeviceBuffer d3;\n    const size_t bytes3 = static_cast<size_t>(lengths[3]) * sizeof(float);\n",
        "    xir_kernel_0<<<static_cast<uint32_t>(grid), block>>>(n, static_cast<const float*>(d1.pointer), static_cast<const float*>(d2.pointer), static_cast<float*>(d3.pointer));\n",
        "    XIR_CUDA(cudaMemcpy(host[3], d3.pointer, bytes3, cudaMemcpyDeviceToHost));\n    return 0;\n}\n",
    ] {
        assert!(artifact.source.contains(line), "{line}");
    }
    assert!(!artifact.source.contains("host[1], d1.pointer"));
    assert!(artifact.source.ends_with("    return 0;\n}\n"));
    let lines: Vec<usize> = artifact.source_map.iter().map(|(line, _)| *line).collect();
    assert_eq!(lines, (0..12).map(|p| 8 + 2 * p).collect::<Vec<_>>());
    for (line, id) in &artifact.source_map {
        assert_eq!(artifact.source.lines().nth(line - 1).unwrap(), format!("    // schedule node {}", (line - 8) / 2));
        assert!(id.0.starts_with("add.n"));
    }
    let ids: Vec<String> = artifact.source_map.iter().map(|(_, id)| id.0.clone()).collect();
    assert_eq!(ids, module_ids(&module));
    assert_eq!(artifact.kernel_name, "xir_kernel_0");
    assert_eq!(artifact.entrypoint, "xir_launch");
    assert_eq!(artifact.arch, "sm_120");
    assert_eq!(artifact.block, [128, 1, 1]);
    assert_eq!(artifact.extent_parameter, 0);
    assert_eq!(artifact.params.len(), 4);
}

#[test]
fn emission_refuses_what_admission_refuses() {
    let mut module = vector_add();
    module.kernels[0].block = [2048, 1, 1];
    let texts = vec!["0.0".to_string()];
    assert!(xir_core::emit::fits_emission(&module, &texts));
    let errors = xir_core::emit::emit_cuda(&module, "", &texts).unwrap_err();
    assert_eq!(errors, validate_cuda(&module));
    let module = vector_add();
    assert!(!xir_core::emit::fits_emission(&module, &vec![]));
}

#[test]
fn emitted_source_does_not_depend_on_identifiers() {
    let module = vector_add();
    let renamed = vector_add_named(&|id| format!("user_{id}_9"));
    assert!(!validate_module(&renamed).has_errors());
    let texts = vec![format!("{:.17e}", 0.0f64)];
    let first = xir_core::emit::emit_cuda(&module, "// runtime\n", &texts).unwrap();
    let second = xir_core::emit::emit_cuda(&renamed, "// runtime\n", &texts).unwrap();
    assert_eq!(first.source, second.source);
    assert!(!second.source.contains("user_"));
    let ids: Vec<String> = second.source_map.iter().map(|(_, id)| id.0.clone()).collect();
    assert!(ids.iter().all(|id| id.starts_with("user_add_9.n")));
}

fn counting_loop(after: Vec<ScheduleNode>) -> Module {
    let mut body = vec![
        node(ScheduleNodeKind::Constant { value: Literal::Index(0), result: ValueDef::new("zero", TypeRef::Index) }),
        node(ScheduleNodeKind::Constant { value: Literal::Index(4), result: ValueDef::new("four", TypeRef::Index) }),
        node(ScheduleNodeKind::Constant { value: Literal::Index(1), result: ValueDef::new("one", TypeRef::Index) }),
        node(ScheduleNodeKind::For {
            lower: "zero".into(),
            upper: "four".into(),
            step: "one".into(),
            induction: ValueDef::new("i", TypeRef::Index),
            carried: vec![],
            body: vec![
                binary(BinaryOp::Add, "i", "one", "t", TypeRef::Index),
                node(ScheduleNodeKind::Yield { values: vec![] }),
            ],
        }),
    ];
    body.extend(after);
    body.push(node(ScheduleNodeKind::KernelReturn));
    simple(body)
}

#[test]
fn loop_values_are_defined_before_use_and_stay_in_the_loop() {
    assert!(!validate_module(&counting_loop(vec![])).has_errors(), "{:?}", validate_module(&counting_loop(vec![])));
    let leaked = counting_loop(vec![binary(BinaryOp::Add, "t", "one", "u", TypeRef::Index)]);
    let messages: Vec<String> = validate_module(&leaked).diagnostics.into_iter().map(|d| d.message).collect();
    assert!(messages.contains(&"value 't' does not dominate this use".to_string()), "{messages:?}");
}

#[test]
fn checked_finishing_is_unchecked_finishing_then_validation() {
    let mut module = counting_loop(vec![]);
    module.kernels[0].body[1].meta.node_id = "".into();
    for (m, ok) in [(module, true), (counting_loop(vec![binary(BinaryOp::Add, "t", "one", "u", TypeRef::Index)]), false)] {
        let unchecked = ModuleBuilder::from_module(m.clone()).finish_unchecked();
        match ModuleBuilder::from_module(m).finish_checked() {
            Ok(checked) => {
                assert!(ok);
                assert_eq!(checked, unchecked);
            },
            Err(errors) => {
                assert!(!ok);
                assert_eq!(errors, validate_module(&unchecked));
            },
        }
    }
}

#[test]
fn literal_texts_with_a_line_break_do_not_fit() {
    let module = vector_add();
    assert!(xir_core::emit::fits_emission(&module, &vec!["0.0".to_string()]));
    assert!(!xir_core::emit::fits_emission(&module, &vec!["0.0\n".to_string()]));
    let mut broken = vector_add();
    broken.kernels[0].block = [0, 1, 1];
    let errors = xir_core::emit::emit_cuda(&broken, "", &vec![]).unwrap_err();
    assert_eq!(errors, validate_cuda(&broken));
}

#[test]
fn finishing_one_module_twice_gives_the_same_module() {
    let mut module = counting_loop(vec![]);
    module.kernels[0].body[0].meta.node_id = "".into();
    module.kernels[0].body[2].meta.node_id = "".into();
    let first = ModuleBuilder::from_module(module.clone()).finish_unchecked();
    let second = ModuleBuilder::from_module(module).finish_unchecked();
    assert_eq!(first, second);
    assert_eq!(module_ids(&first), module_ids(&second));
}
