//! CUDA source generation for a module admitted to the flat FP32 elementwise subset.
//! Floating-point constants arrive as C literal text, one per constant in body order:
//! their decimal form is produced where floating point is available.
use crate::ast::{
    BinaryOp, Kernel, LaunchBuiltin, Literal, Module, ScheduleNode, ScheduleNodeKind, ValueDef, derefs,
};
use crate::builder::strings;
use crate::cuda::{
    CudaArtifact, admit_cuda, bind_buffers, c_type, c_type_name, emitted_type, global_f32_pointer, scan_node,
    scan_nodes, sole_extent, spec_admit,
};
use crate::diagnostic::{DiagnosticBag, has_error};
use crate::findings::lemma_valid_views;
use crate::lookup::{Dup, Keyed, find, get, has_key, lemma_has_key};
use crate::text::{
    concat, has_no_line_break, decimal, lemma_decimal_one_line, lemma_newline_count_add, lemma_newline_count_zero, newline_count, no_break,
    push_decimal, text,
};
use crate::types::{BufferId, DType, IndexExpr, IndexExprV, MemoryRef, NodeId, TypeRef, TypeRefV, ValueId};
use crate::verify::{lemma_cuda_agrees, spec_validate_cuda, validate_cuda};
use vstd::prelude::*;

verus! {

/// The C name of parameter `i`.
pub open spec fn param_name(i: int) -> Seq<char> {
    "p"@ + decimal(i as nat)
}

/// The C name of the result of node `p`.
pub open spec fn value_name(p: int) -> Seq<char> {
    "v"@ + decimal(p as nat)
}

/// The position of the last of the first `n` parameters named `id`.
pub open spec fn param_position(params: Seq<ValueDef>, id: Seq<char>, n: int) -> Option<int>
    decreases n,
{
    if n <= 0 {
        None
    } else if params[n - 1].id@ == id {
        Some(n - 1)
    } else {
        param_position(params, id, n - 1)
    }
}

/// The C name of value `id` at node `p`: that of the latest node up to `p` that defines
/// it, else that of the last parameter so named.
pub open spec fn name_in_scope(k: Kernel, id: Seq<char>, p: int) -> Option<Seq<char>>
    decreases p + 1,
{
    if p < 0 {
        match param_position(k.params@, id, k.params@.len() as int) {
            Some(i) => Some(param_name(i)),
            None => None,
        }
    } else if has_key(k.body@[p].kind.result_defs(), id) {
        Some(value_name(p))
    } else {
        name_in_scope(k, id, p - 1)
    }
}

pub open spec fn name_text(o: Option<Seq<char>>) -> Seq<char> {
    match o {
        Some(s) => s,
        None => seq![],
    }
}

/// The bit patterns of the floating-point constants of `body`, in order.
pub open spec fn float_bits(body: Seq<ScheduleNode>) -> Seq<u64>
    decreases body.len(),
{
    if body.len() == 0 {
        seq![]
    } else {
        float_bits(body.drop_last()) + match body.last().kind {
            ScheduleNodeKind::Constant { value: Literal::Float(b), .. } => seq![b],
            _ => seq![],
        }
    }
}

/// The number of floating-point constants before node `p`.
pub open spec fn floats_before(body: Seq<ScheduleNode>, p: int) -> int {
    float_bits(body.take(p)).len() as int
}

/// The nodes that the emitter writes: launch coordinates, constants and arithmetic of
/// emitted scalar types, single-index accesses to plain buffers, and the return.
pub open spec fn emitted_node(n: ScheduleNode) -> bool {
    match n.kind {
        ScheduleNodeKind::LaunchIndex { .. } => true,
        ScheduleNodeKind::Constant { result, .. } => result.ty@ == TypeRefV::Index || result.ty@
            == TypeRefV::Predicate || result.ty@ == TypeRefV::Scalar(DType::F32),
        ScheduleNodeKind::Binary { result, .. } => result.ty@ == TypeRefV::Index || result.ty@
            == TypeRefV::Predicate || result.ty@ == TypeRefV::Scalar(DType::F32),
        ScheduleNodeKind::Load { source, indices, .. } => source is Buffer && indices@.len() == 1,
        ScheduleNodeKind::Store { destination, indices, .. } => destination is Buffer && indices@.len() == 1,
        ScheduleNodeKind::KernelReturn => true,
        _ => false,
    }
}

/// Every node of a body that admission accepts is one the emitter writes.
pub proof fn lemma_scan_emitted(prefix: Seq<ScheduleNode>, extent: crate::types::ValueId)
    requires
        scan_nodes(prefix, extent) is Ok,
    ensures
        forall|i: int| 0 <= i < prefix.len() ==> emitted_node(#[trigger] prefix[i]),
    decreases prefix.len(),
{
    if prefix.len() > 0 {
        let s = scan_nodes(prefix.drop_last(), extent);
        lemma_scan_emitted(prefix.drop_last(), extent);
        assert(scan_node(s->Ok_0, prefix.last(), extent) is Ok);
        assert forall|i: int| 0 <= i < prefix.len() implies emitted_node(#[trigger] prefix[i]) by {
            if i < prefix.len() - 1 {
                assert(prefix[i] == prefix.drop_last()[i]);
            }
        }
    }
}

pub open spec fn builtin_text(b: LaunchBuiltin) -> Seq<char> {
    match b {
        LaunchBuiltin::ThreadIdxX => "threadIdx.x"@,
        LaunchBuiltin::BlockIdxX => "blockIdx.x"@,
        LaunchBuiltin::BlockDimX => "blockDim.x"@,
        LaunchBuiltin::GridDimX => "gridDim.x"@,
    }
}

pub open spec fn operator_text(op: BinaryOp) -> Seq<char> {
    match op {
        BinaryOp::Add => "+"@,
        BinaryOp::Sub => "-"@,
        BinaryOp::Mul => "*"@,
        BinaryOp::Div => "/"@,
        BinaryOp::Less => "<"@,
        BinaryOp::Equal => "=="@,
        BinaryOp::And => "&&"@,
        BinaryOp::Or => "||"@,
    }
}

/// The value that C gives the binary operator spelled `t` on two integer operands; a
/// truth value is 1 or 0. None for a spelling that is no such operator.
pub open spec fn c_operator_value(t: Seq<char>, a: int, b: int) -> Option<int> {
    if t == seq!['+'] {
        Some(a + b)
    } else if t == seq!['-'] {
        Some(a - b)
    } else if t == seq!['*'] {
        Some(a * b)
    } else if t == seq!['/'] {
        Some(a / b)
    } else if t == seq!['<'] {
        Some(if a < b { 1 } else { 0 })
    } else if t == seq!['=', '='] {
        Some(if a == b { 1 } else { 0 })
    } else if t == seq!['&', '&'] {
        Some(if a != 0 && b != 0 { 1 } else { 0 })
    } else if t == seq!['|', '|'] {
        Some(if a != 0 || b != 0 { 1 } else { 0 })
    } else {
        None
    }
}

/// The C operator that the emitter writes for a binary node computes the node's
/// operation: on nonnegative operands and a positive divisor, C evaluates `a op b` to
/// what the operation gives (C's truncating division agrees with it there).
pub proof fn lemma_operator_computes(op: BinaryOp, a: int, b: int)
    requires
        0 <= a,
        0 < b,
    ensures
        c_operator_value(operator_text(op), a, b) == Some(crate::access::binary_value(op, a, b)),
{
    reveal_strlit("+");
    reveal_strlit("-");
    reveal_strlit("*");
    reveal_strlit("/");
    reveal_strlit("<");
    reveal_strlit("==");
    reveal_strlit("&&");
    reveal_strlit("||");
    assert("+"@ =~= seq!['+']);
    assert("-"@ =~= seq!['-']);
    assert("*"@ =~= seq!['*']);
    assert("/"@ =~= seq!['/']);
    assert("<"@ =~= seq!['<']);
    assert("=="@ =~= seq!['=', '=']);
    assert("&&"@ =~= seq!['&', '&']);
    assert("||"@ =~= seq!['|', '|']);
    let ops: Seq<Seq<char>> = seq![
        seq!['+'],
        seq!['-'],
        seq!['*'],
        seq!['/'],
        seq!['<'],
        seq!['=', '='],
        seq!['&', '&'],
        seq!['|', '|'],
    ];
    assert forall|i: int, j: int| 0 <= i < j < 8 implies ops[i] != ops[j] by {
        if ops[i].len() == ops[j].len() {
            assert(ops[i][0] != ops[j][0]);
        }
    }
    assert(ops[0] == seq!['+'] && ops[1] == seq!['-'] && ops[2] == seq!['*'] && ops[3] == seq!['/']);
    assert(ops[4] == seq!['<'] && ops[5] == seq!['=', '='] && ops[6] == seq!['&', '&'] && ops[7] == seq!['|', '|']);
}

/// The statement of a binary node applies the node's operation to its two operands, in
/// order: `v<p> = <lhs> <operator> <rhs>`, with an operator that computes the operation.
pub proof fn lemma_binary_statement(k: Kernel, map: Seq<(BufferId, usize)>, texts: Seq<Seq<char>>, p: int)
    requires
        0 <= p < k.body@.len(),
        k.body@[p].kind is Binary,
    ensures
        ({
            let (op, lhs, rhs, result) = match k.body@[p].kind {
                ScheduleNodeKind::Binary { op, lhs, rhs, result } => (op, lhs, rhs, result),
                _ => arbitrary(),
            };
            &&& statement_text(k, map, texts, p) == "    const "@ + c_type_name(result.ty@) + " "@ + value_name(p)
                + " = "@ + name_text(name_in_scope(k, lhs@, p)) + " "@ + operator_text(op) + " "@ + name_text(
                name_in_scope(k, rhs@, p),
            ) + ";\n"@
            &&& forall|a: int, b: int|
                0 <= a && 0 < b ==> #[trigger] c_operator_value(operator_text(op), a, b) == Some(
                    crate::access::binary_value(op, a, b),
                )
        }),
{
    match k.body@[p].kind {
        ScheduleNodeKind::Binary { op, .. } => {
            assert forall|a: int, b: int| 0 <= a && 0 < b implies #[trigger] c_operator_value(operator_text(op), a, b)
                == Some(crate::access::binary_value(op, a, b)) by {
                lemma_operator_computes(op, a, b);
            }
        },
        _ => {},
    }
}

/// The C text of a constant; a floating-point one is the `f`-th given literal text,
/// converted to `float`.
pub open spec fn literal_text(v: Literal, texts: Seq<Seq<char>>, f: int) -> Seq<char> {
    match v {
        Literal::Index(n) => decimal(n as nat) + "ULL"@,
        Literal::Bool(b) => if b {
            "true"@
        } else {
            "false"@
        },
        Literal::Float(_) => "static_cast<float>("@ + texts[f] + ")"@,
        Literal::Integer(_) => seq![],
    }
}

/// The pointer parameter that the referenced buffer is bound to.
pub open spec fn memory_text(map: Seq<(BufferId, usize)>, r: MemoryRef) -> Seq<char> {
    match get(map, r.buffer_of()@) {
        Some(p) => param_name(p as int),
        None => seq![],
    }
}

/// The statement that node `p` of the kernel body becomes.
pub open spec fn statement_text(k: Kernel, map: Seq<(BufferId, usize)>, texts: Seq<Seq<char>>, p: int) -> Seq<char> {
    let n = k.body@[p];
    match n.kind {
        ScheduleNodeKind::LaunchIndex { builtin, .. } => "    const uint64_t "@ + value_name(p)
            + " = static_cast<uint64_t>("@ + builtin_text(builtin) + ");\n"@,
        ScheduleNodeKind::Constant { value, result } => "    const "@ + c_type_name(result.ty@) + " "@
            + value_name(p) + " = "@ + literal_text(value, texts, floats_before(k.body@, p)) + ";\n"@,
        ScheduleNodeKind::Binary { op, lhs, rhs, result } => "    const "@ + c_type_name(result.ty@) + " "@
            + value_name(p) + " = "@ + name_text(name_in_scope(k, lhs@, p)) + " "@ + operator_text(op) + " "@
            + name_text(name_in_scope(k, rhs@, p)) + ";\n"@,
        ScheduleNodeKind::Load { source, indices, mask, masked_value, .. } => "    const float "@
            + value_name(p) + " = "@ + name_text(name_in_scope(k, mask@, p)) + " ? "@ + memory_text(map, source)
            + "["@ + name_text(name_in_scope(k, indices@[0]@, p)) + "] : "@ + name_text(
            name_in_scope(k, masked_value@, p),
        ) + ";\n"@,
        ScheduleNodeKind::Store { destination, indices, value, mask } => "    if ("@ + name_text(
            name_in_scope(k, mask@, p),
        ) + ") { "@ + memory_text(map, destination) + "["@ + name_text(name_in_scope(k, indices@[0]@, p))
            + "] = "@ + name_text(name_in_scope(k, value@, p)) + "; }\n"@,
        ScheduleNodeKind::KernelReturn => "    return;\n"@,
        _ => seq![],
    }
}

/// What the emitter looks up for node `p` resolves: every operand names a parameter or
/// a result of a node up to `p`, every memory reference names a bound buffer, and a
/// constant holds an index, boolean or floating-point literal.
pub open spec fn node_ready(k: Kernel, map: Seq<(BufferId, usize)>, p: int) -> bool {
    let n = k.body@[p];
    &&& forall|j: int|
        0 <= j < n.kind.operand_ids().len() ==> name_in_scope(k, (#[trigger] n.kind.operand_ids()[j])@, p) is Some
    &&& match n.kind {
        ScheduleNodeKind::Load { source, .. } => has_key(map, source.buffer_of()@),
        ScheduleNodeKind::Store { destination, .. } => has_key(map, destination.buffer_of()@),
        ScheduleNodeKind::Constant { value, .. } => !(value is Integer),
        _ => true,
    }
}

fn param_text(i: usize) -> (r: String)
    ensures
        r@ == param_name(i as int),
{
    push_decimal(text("p"), i as u64)
}

fn value_text(p: usize) -> (r: String)
    ensures
        r@ == value_name(p as int),
{
    push_decimal(text("v"), p as u64)
}

/// Whether the node defines value `id`.
fn defines(n: &ScheduleNode, id: &ValueId) -> (r: bool)
    ensures
        r == has_key(n.kind.result_defs(), id@),
{
    let results = n.results();
    let ghost defs = n.kind.result_defs();
    let mut j: usize = 0;
    while j < results.len()
        invariant
            j <= results@.len(),
            derefs(results@) == defs,
            defs == n.kind.result_defs(),
            forall|l: int| 0 <= l < j ==> defs[l].id@ != id@,
        decreases results@.len() - j,
    {
        assert(defs[j as int] == *results@[j as int]);
        if results[j].id.same(id) {
            assert(defs.len() == results@.len());
            assert(defs[j as int].key() == id@);
            return true;
        }
        j = j + 1;
    }
    proof {
        assert forall|l: int| 0 <= l < defs.len() implies defs[l].key() != id@ by {}
    }
    false
}

/// The C name of value `id` at node `p`.
fn scope_name(k: &Kernel, id: &ValueId, p: usize) -> (r: Option<String>)
    requires
        p < k.body@.len(),
    ensures
        match (r, name_in_scope(*k, id@, p as int)) {
            (Some(s), Some(t)) => s@ == t,
            (None, None) => true,
            _ => false,
        },
{
    let length = k.body.len();
    let mut q: usize = p + 1;
    while q > 0
        invariant
            q <= p + 1,
            p < k.body@.len(),
            name_in_scope(*k, id@, p as int) == name_in_scope(*k, id@, q - 1),
        decreases q,
    {
        if defines(&k.body[q - 1], id) {
            return Some(value_text(q - 1));
        }
        q = q - 1;
    }
    let mut i: usize = k.params.len();
    while i > 0
        invariant
            i <= k.params@.len(),
            param_position(k.params@, id@, k.params@.len() as int) == param_position(k.params@, id@, i as int),
            name_in_scope(*k, id@, p as int) == name_in_scope(*k, id@, -1),
        decreases i,
    {
        if k.params[i - 1].id.same(id) {
            assert(param_position(k.params@, id@, i as int) == Some((i - 1) as int));
            assert(name_in_scope(*k, id@, -1) == Some(param_name((i - 1) as int)));
            return Some(param_text(i - 1));
        }
        i = i - 1;
    }
    assert(name_in_scope(*k, id@, -1) is None);
    None
}

/// The C name of an operand that resolves.
fn operand_text(k: &Kernel, id: &ValueId, p: usize) -> (r: String)
    requires
        p < k.body@.len(),
        name_in_scope(*k, id@, p as int) is Some,
    ensures
        r@ == name_text(name_in_scope(*k, id@, p as int)),
{
    match scope_name(k, id, p) {
        Some(s) => s,
        None => String::new(),
    }
}

fn memory_text_of(map: &Vec<(BufferId, usize)>, r: &MemoryRef) -> (s: String)
    requires
        has_key(map@, r.buffer_of()@),
    ensures
        s@ == memory_text(map@, *r),
{
    proof {
        lemma_has_key(map@, r.buffer_of()@);
    }
    match find(map, &r.buffer_id().0) {
        Some(i) => param_text(map[i].1),
        None => String::new(),
    }
}

fn builtin_str(b: LaunchBuiltin) -> (r: &'static str)
    ensures
        r@ == builtin_text(b),
{
    match b {
        LaunchBuiltin::ThreadIdxX => "threadIdx.x",
        LaunchBuiltin::BlockIdxX => "blockIdx.x",
        LaunchBuiltin::BlockDimX => "blockDim.x",
        LaunchBuiltin::GridDimX => "gridDim.x",
    }
}

fn operator_str(op: BinaryOp) -> (r: &'static str)
    ensures
        r@ == operator_text(op),
{
    match op {
        BinaryOp::Add => "+",
        BinaryOp::Sub => "-",
        BinaryOp::Mul => "*",
        BinaryOp::Div => "/",
        BinaryOp::Less => "<",
        BinaryOp::Equal => "==",
        BinaryOp::And => "&&",
        BinaryOp::Or => "||",
    }
}

fn literal_of(v: &Literal, texts: &Vec<String>, f: usize) -> (r: String)
    requires
        !(*v is Integer),
        *v is Float ==> f < texts@.len(),
    ensures
        r@ == literal_text(*v, strings(texts@), f as int),
{
    match v {
        Literal::Index(n) => {
            let d = push_decimal(String::new(), *n);
            assert(d@ =~= decimal(*n as nat));
            concat(d, "ULL")
        },
        Literal::Bool(b) => if *b {
            text("true")
        } else {
            text("false")
        },
        Literal::Float(_) => concat(concat(text("static_cast<float>("), texts[f].as_str()), ")"),
        Literal::Integer(_) => String::new(),
    }
}

/// The statement that node `p` becomes; `f` counts the floating-point constants before it.
fn statement(k: &Kernel, map: &Vec<(BufferId, usize)>, texts: &Vec<String>, p: usize, f: usize) -> (r: String)
    requires
        p < k.body@.len(),
        emitted_node(k.body@[p as int]),
        node_ready(*k, map@, p as int),
        f == floats_before(k.body@, p as int),
        k.body@[p as int].kind matches ScheduleNodeKind::Constant { value: Literal::Float(_), .. } ==> f < texts@.len(),
    ensures
        r@ == statement_text(*k, map@, strings(texts@), p as int),
{
    let node = &k.body[p];
    let ghost ops = node.kind.operand_ids();
    match &node.kind {
        ScheduleNodeKind::LaunchIndex { builtin, .. } => {
            let s = concat(text("    const uint64_t "), value_text(p).as_str());
            let s = concat(s, " = static_cast<uint64_t>(");
            let s = concat(s, builtin_str(*builtin));
            concat(s, ");\n")
        },
        ScheduleNodeKind::Constant { value, result } => {
            let s = concat(text("    const "), c_type(&result.ty));
            let s = concat(s, " ");
            let s = concat(s, value_text(p).as_str());
            let s = concat(s, " = ");
            let s = concat(s, literal_of(value, texts, f).as_str());
            concat(s, ";\n")
        },
        ScheduleNodeKind::Binary { op, lhs, rhs, result } => {
            assert(ops[0] == *lhs && ops[1] == *rhs);
            let s = concat(text("    const "), c_type(&result.ty));
            let s = concat(s, " ");
            let s = concat(s, value_text(p).as_str());
            let s = concat(s, " = ");
            let s = concat(s, operand_text(k, lhs, p).as_str());
            let s = concat(s, " ");
            let s = concat(s, operator_str(*op));
            let s = concat(s, " ");
            let s = concat(s, operand_text(k, rhs, p).as_str());
            concat(s, ";\n")
        },
        ScheduleNodeKind::Load { source, indices, mask, masked_value, .. } => {
            assert(ops[0] == indices@[0] && ops[1] == *mask && ops[2] == *masked_value);
            let s = concat(text("    const float "), value_text(p).as_str());
            let s = concat(s, " = ");
            let s = concat(s, operand_text(k, mask, p).as_str());
            let s = concat(s, " ? ");
            let s = concat(s, memory_text_of(map, source).as_str());
            let s = concat(s, "[");
            let s = concat(s, operand_text(k, &indices[0], p).as_str());
            let s = concat(s, "] : ");
            let s = concat(s, operand_text(k, masked_value, p).as_str());
            concat(s, ";\n")
        },
        ScheduleNodeKind::Store { destination, indices, value, mask } => {
            assert(ops[0] == indices@[0] && ops[1] == *value && ops[2] == *mask);
            let s = concat(text("    if ("), operand_text(k, mask, p).as_str());
            let s = concat(s, ") { ");
            let s = concat(s, memory_text_of(map, destination).as_str());
            let s = concat(s, "[");
            let s = concat(s, operand_text(k, &indices[0], p).as_str());
            let s = concat(s, "] = ");
            let s = concat(s, operand_text(k, value, p).as_str());
            concat(s, "; }\n")
        },
        ScheduleNodeKind::KernelReturn => text("    return;\n"),
        _ => String::new(),
    }
}

/// Items separated by `", "`.
pub open spec fn join(items: Seq<Seq<char>>) -> Seq<char>
    decreases items.len(),
{
    if items.len() == 0 {
        seq![]
    } else if items.len() == 1 {
        items[0]
    } else {
        join(items.drop_last()) + ", "@ + items.last()
    }
}

pub open spec fn header_text() -> Seq<char> {
    "// Generated by XIR. Do not edit; regenerate from the DSL."@ + "\n"@ + "#include <cuda_runtime.h>"@ + "\n"@ + "#include <cstdint>"@ + "\n"@ + "#include <cstdio>"@ + "\n"@ + "#include <limits>"@ + "\n"@ + "\n"@
}

/// Each parameter declared with its C type, under its position's name.
pub open spec fn param_decls(params: Seq<ValueDef>) -> Seq<Seq<char>> {
    Seq::new(params.len(), |i: int| c_type_name(params[i].ty@) + " "@ + param_name(i))
}

pub open spec fn signature_text(params: Seq<ValueDef>) -> Seq<char> {
    "extern \"C\" __global__ void xir_kernel_0("@ + join(param_decls(params)) + ") {\n"@
}

/// Node `p`: a comment that names its position, then its statement.
pub open spec fn node_text(k: Kernel, map: Seq<(BufferId, usize)>, texts: Seq<Seq<char>>, p: int) -> Seq<char> {
    "    // schedule node "@ + decimal(p as nat) + "\n"@ + statement_text(k, map, texts, p)
}

/// The first `n` nodes of the body.
pub open spec fn body_text(k: Kernel, map: Seq<(BufferId, usize)>, texts: Seq<Seq<char>>, n: int) -> Seq<char>
    decreases n,
{
    if n <= 0 {
        seq![]
    } else {
        body_text(k, map, texts, n - 1) + node_text(k, map, texts, n - 1)
    }
}

/// Some buffer is bound to parameter `j`.
pub open spec fn bound_position(map: Seq<(BufferId, usize)>, j: int) -> bool {
    exists|i: int| 0 <= i < map.len() && map[i].1 == j
}

pub open spec fn extent_check(j: int) -> Seq<char> {
    let d = decimal(j as nat);
    "    if (lengths["@ + d + "] < n || lengths["@ + d
        + "] > std::numeric_limits<size_t>::max() / sizeof(float) || (lengths["@ + d + "] && !host["@ + d
        + "])) return xir_error(error, error_capacity, \"invalid host buffer extent\");\n"@
}

/// A host length check for each bound parameter among the first `n`, in ascending order.
pub open spec fn extent_checks(map: Seq<(BufferId, usize)>, n: int) -> Seq<char>
    decreases n,
{
    if n <= 0 {
        seq![]
    } else {
        extent_checks(map, n - 1) + if bound_position(map, n - 1) {
            extent_check(n - 1)
        } else {
            seq![]
        }
    }
}

pub open spec fn copy_in(j: int) -> Seq<char> {
    let d = decimal(j as nat);
    "    XirDeviceBuffer d"@ + d + ";\n    const size_t bytes"@ + d + " = static_cast<size_t>(lengths["@ + d
        + "]) * sizeof(float);\n    XIR_CUDA(cudaMalloc(&d"@ + d + ".pointer, bytes"@ + d
        + "));\n    XIR_CUDA(cudaMemcpy(d"@ + d + ".pointer, host["@ + d + "], bytes"@ + d
        + ", cudaMemcpyHostToDevice));\n"@
}

/// A device copy of each pointer parameter among the first `n`.
pub open spec fn copies_in(params: Seq<ValueDef>, n: int) -> Seq<char>
    decreases n,
{
    if n <= 0 {
        seq![]
    } else {
        copies_in(params, n - 1) + if params[n - 1].ty@ is Pointer {
            copy_in(n - 1)
        } else {
            seq![]
        }
    }
}

pub open spec fn copy_out(j: int) -> Seq<char> {
    let d = decimal(j as nat);
    "    XIR_CUDA(cudaMemcpy(host["@ + d + "], d"@ + d + ".pointer, bytes"@ + d
        + ", cudaMemcpyDeviceToHost));\n"@
}

/// A copy back to the host of each mutable pointer parameter among the first `n`.
pub open spec fn copies_out(params: Seq<ValueDef>, n: int) -> Seq<char>
    decreases n,
{
    if n <= 0 {
        seq![]
    } else {
        copies_out(params, n - 1) + if params[n - 1].ty@ matches TypeRefV::Pointer(pt) && pt.mutable {
            copy_out(n - 1)
        } else {
            seq![]
        }
    }
}

/// The launch arguments: the extent for the index parameter, each device copy cast
/// to its parameter's type otherwise.
pub open spec fn launch_args(params: Seq<ValueDef>) -> Seq<Seq<char>> {
    Seq::new(
        params.len(),
        |i: int|
            if params[i].ty@ == TypeRefV::Index {
                "n"@
            } else {
                "static_cast<"@ + c_type_name(params[i].ty@) + ">(d"@ + decimal(i as nat) + ".pointer)"@
            },
    )
}

pub open spec fn launch_open() -> Seq<char> {
    "\nextern \"C\" int xir_launch(void** host, const uint64_t* lengths, uint64_t n, char* error, size_t error_capacity) {\n"@
}

pub open spec fn argument_checks() -> Seq<char> {
    "    if (!host || !lengths) return xir_error(error, error_capacity, \"missing ABI argument arrays\");\n    if (n > std::numeric_limits<size_t>::max() / sizeof(float)) return xir_error(error, error_capacity, \"extent byte size overflows\");\n"@
}

pub open spec fn device_checks() -> Seq<char> {
    "    if (n == 0) return 0;\n    int device = 0;\n    XIR_CUDA(cudaGetDevice(&device));\n    cudaDeviceProp properties{};\n    XIR_CUDA(cudaGetDeviceProperties(&properties, device));\n    if (properties.major != 12 || properties.minor != 0) return xir_error(error, error_capacity, \"artifact requires compute capability 12.0\");\n"@
}

pub open spec fn grid_checks() -> Seq<char> {
    "    const uint64_t grid = n / block + (n % block != 0);\n    if (block > static_cast<uint32_t>(properties.maxThreadsPerBlock) || block > static_cast<uint32_t>(properties.maxThreadsDim[0]) || grid > static_cast<uint64_t>(properties.maxGridSize[0])) return xir_error(error, error_capacity, \"launch exceeds device limits\");\n"@
}

pub open spec fn synchronize() -> Seq<char> {
    "    XIR_CUDA(cudaGetLastError());\n    XIR_CUDA(cudaDeviceSynchronize());\n"@
}

/// The host wrapper: argument and device checks, device copies, the launch of one
/// thread per element, and the copies back.
pub open spec fn wrapper_text(k: Kernel, map: Seq<(BufferId, usize)>) -> Seq<char> {
    let params = k.params@;
    launch_open() + argument_checks() + extent_checks(map, params.len() as int) + device_checks()
        + "    constexpr uint32_t block = "@ + decimal(k.block[0] as nat) + ";\n"@ + grid_checks() + copies_in(
        params,
        params.len() as int,
    ) + "    xir_kernel_0<<<static_cast<uint32_t>(grid), block>>>("@ + join(launch_args(params)) + ");\n"@
        + synchronize() + copies_out(params, params.len() as int) + "    return 0;\n}\n"@
}

/// The whole source: header, kernel, runtime helpers, host wrapper.
pub open spec fn cuda_source(k: Kernel, map: Seq<(BufferId, usize)>, texts: Seq<Seq<char>>, runtime: Seq<char>) -> Seq<char> {
    header_text() + signature_text(k.params@) + body_text(k, map, texts, k.body@.len() as int) + "}\n\n"@
        + runtime + wrapper_text(k, map)
}

/// The decimal text of `n`.
fn decimal_text(n: u64) -> (r: String)
    ensures
        r@ == decimal(n as nat),
{
    let d = push_decimal(String::new(), n);
    assert(d@ =~= decimal(n as nat));
    d
}

fn join_all(items: &Vec<String>) -> (r: String)
    ensures
        r@ == join(strings(items@)),
{
    let mut s = String::new();
    let mut i: usize = 0;
    while i < items.len()
        invariant
            i <= items@.len(),
            s@ == join(strings(items@).take(i as int)),
        decreases items@.len() - i,
    {
        let ghost before = s@;
        if i > 0 {
            s = concat(s, ", ");
        }
        s = concat(s, items[i].as_str());
        proof {
            let t = strings(items@).take(i + 1);
            assert(t.drop_last() =~= strings(items@).take(i as int));
            assert(t.last() == items@[i as int]@);
            if i == 0 {
                assert(before =~= Seq::<char>::empty());
                assert(s@ =~= t[0]);
            }
        }
        i = i + 1;
    }
    assert(strings(items@).take(items@.len() as int) =~= strings(items@));
    s
}

fn signature(params: &Vec<ValueDef>) -> (r: String)
    requires
        forall|i: int| 0 <= i < params@.len() ==> emitted_type(#[trigger] params@[i].ty@),
    ensures
        r@ == signature_text(params@),
{
    let mut items: Vec<String> = Vec::new();
    let mut i: usize = 0;
    while i < params.len()
        invariant
            i <= params@.len(),
            strings(items@) == param_decls(params@).take(i as int),
            forall|j: int| 0 <= j < params@.len() ==> emitted_type(#[trigger] params@[j].ty@),
        decreases params@.len() - i,
    {
        let item = concat(concat(text(c_type(&params[i].ty)), " "), param_text(i).as_str());
        let ghost before = strings(items@);
        assert(item@ == param_decls(params@)[i as int]);
        items.push(item);
        proof {
            assert(strings(items@) =~= before.push(item@));
            assert(param_decls(params@).take(i + 1) =~= param_decls(params@).take(i as int).push(item@));
        }
        i = i + 1;
    }
    assert(param_decls(params@).take(params@.len() as int) =~= param_decls(params@));
    let s = concat(text("extern \"C\" __global__ void xir_kernel_0("), join_all(&items).as_str());
    concat(s, ") {\n")
}

fn is_bound(map: &Vec<(BufferId, usize)>, j: usize) -> (r: bool)
    ensures
        r == bound_position(map@, j as int),
{
    let mut i: usize = 0;
    while i < map.len()
        invariant
            i <= map@.len(),
            forall|l: int| 0 <= l < i ==> map@[l].1 != j,
        decreases map@.len() - i,
    {
        if map[i].1 == j {
            return true;
        }
        i = i + 1;
    }
    false
}

fn extent_lines(map: &Vec<(BufferId, usize)>, n: usize) -> (r: String)
    ensures
        r@ == extent_checks(map@, n as int),
{
    let mut s = String::new();
    let mut j: usize = 0;
    while j < n
        invariant
            j <= n,
            s@ == extent_checks(map@, j as int),
        decreases n - j,
    {
        if is_bound(map, j) {
            let d = decimal_text(j as u64);
            let t = concat(text("    if (lengths["), d.as_str());
            let t = concat(t, "] < n || lengths[");
            let t = concat(t, d.as_str());
            let t = concat(t, "] > std::numeric_limits<size_t>::max() / sizeof(float) || (lengths[");
            let t = concat(t, d.as_str());
            let t = concat(t, "] && !host[");
            let t = concat(t, d.as_str());
            let t = concat(t, "])) return xir_error(error, error_capacity, \"invalid host buffer extent\");\n");
            s = concat(s, t.as_str());
        } else {
            assert(s@ + Seq::<char>::empty() =~= s@);
        }
        j = j + 1;
    }
    s
}

fn copy_lines(params: &Vec<ValueDef>) -> (r: String)
    ensures
        r@ == copies_in(params@, params@.len() as int),
{
    let mut s = String::new();
    let mut j: usize = 0;
    while j < params.len()
        invariant
            j <= params@.len(),
            s@ == copies_in(params@, j as int),
        decreases params@.len() - j,
    {
        match &params[j].ty {
            TypeRef::Pointer(_) => {
                let d = decimal_text(j as u64);
                let t = concat(text("    XirDeviceBuffer d"), d.as_str());
                let t = concat(t, ";\n    const size_t bytes");
                let t = concat(t, d.as_str());
                let t = concat(t, " = static_cast<size_t>(lengths[");
                let t = concat(t, d.as_str());
                let t = concat(t, "]) * sizeof(float);\n    XIR_CUDA(cudaMalloc(&d");
                let t = concat(t, d.as_str());
                let t = concat(t, ".pointer, bytes");
                let t = concat(t, d.as_str());
                let t = concat(t, "));\n    XIR_CUDA(cudaMemcpy(d");
                let t = concat(t, d.as_str());
                let t = concat(t, ".pointer, host[");
                let t = concat(t, d.as_str());
                let t = concat(t, "], bytes");
                let t = concat(t, d.as_str());
                let t = concat(t, ", cudaMemcpyHostToDevice));\n");
                s = concat(s, t.as_str());
            },
            _ => {
                assert(s@ + Seq::<char>::empty() =~= s@);
            },
        }
        j = j + 1;
    }
    s
}

fn copy_back_lines(params: &Vec<ValueDef>) -> (r: String)
    ensures
        r@ == copies_out(params@, params@.len() as int),
{
    let mut s = String::new();
    let mut j: usize = 0;
    while j < params.len()
        invariant
            j <= params@.len(),
            s@ == copies_out(params@, j as int),
        decreases params@.len() - j,
    {
        match &params[j].ty {
            TypeRef::Pointer(pt) if pt.mutable => {
                let d = decimal_text(j as u64);
                let t = concat(text("    XIR_CUDA(cudaMemcpy(host["), d.as_str());
                let t = concat(t, "], d");
                let t = concat(t, d.as_str());
                let t = concat(t, ".pointer, bytes");
                let t = concat(t, d.as_str());
                let t = concat(t, ", cudaMemcpyDeviceToHost));\n");
                s = concat(s, t.as_str());
            },
            _ => {
                assert(s@ + Seq::<char>::empty() =~= s@);
            },
        }
        j = j + 1;
    }
    s
}

fn arguments(params: &Vec<ValueDef>) -> (r: String)
    requires
        forall|i: int| 0 <= i < params@.len() ==> emitted_type(#[trigger] params@[i].ty@),
    ensures
        r@ == join(launch_args(params@)),
{
    let mut items: Vec<String> = Vec::new();
    let mut i: usize = 0;
    while i < params.len()
        invariant
            i <= params@.len(),
            strings(items@) == launch_args(params@).take(i as int),
            forall|j: int| 0 <= j < params@.len() ==> emitted_type(#[trigger] params@[j].ty@),
        decreases params@.len() - i,
    {
        let item = match &params[i].ty {
            TypeRef::Index => text("n"),
            ty => {
                let t = concat(text("static_cast<"), c_type(ty));
                let t = concat(t, ">(d");
                let t = concat(t, decimal_text(i as u64).as_str());
                concat(t, ".pointer)")
            },
        };
        let ghost before = strings(items@);
        assert(item@ == launch_args(params@)[i as int]);
        items.push(item);
        proof {
            assert(strings(items@) =~= before.push(item@));
            assert(launch_args(params@).take(i + 1) =~= launch_args(params@).take(i as int).push(item@));
        }
        i = i + 1;
    }
    assert(launch_args(params@).take(params@.len() as int) =~= launch_args(params@));
    join_all(&items)
}

fn wrapper(k: &Kernel, map: &Vec<(BufferId, usize)>) -> (r: String)
    requires
        forall|i: int| 0 <= i < k.params@.len() ==> emitted_type(#[trigger] k.params@[i].ty@),
    ensures
        r@ == wrapper_text(*k, map@),
{
    let s = text("\nextern \"C\" int xir_launch(void** host, const uint64_t* lengths, uint64_t n, char* error, size_t error_capacity) {\n");
    let s = concat(s, "    if (!host || !lengths) return xir_error(error, error_capacity, \"missing ABI argument arrays\");\n    if (n > std::numeric_limits<size_t>::max() / sizeof(float)) return xir_error(error, error_capacity, \"extent byte size overflows\");\n");
    let s = concat(s, extent_lines(map, k.params.len()).as_str());
    let s = concat(s, "    if (n == 0) return 0;\n    int device = 0;\n    XIR_CUDA(cudaGetDevice(&device));\n    cudaDeviceProp properties{};\n    XIR_CUDA(cudaGetDeviceProperties(&properties, device));\n    if (properties.major != 12 || properties.minor != 0) return xir_error(error, error_capacity, \"artifact requires compute capability 12.0\");\n");
    let s = concat(s, "    constexpr uint32_t block = ");
    let s = concat(s, decimal_text(k.block[0] as u64).as_str());
    let s = concat(s, ";\n");
    let s = concat(s, "    const uint64_t grid = n / block + (n % block != 0);\n    if (block > static_cast<uint32_t>(properties.maxThreadsPerBlock) || block > static_cast<uint32_t>(properties.maxThreadsDim[0]) || grid > static_cast<uint64_t>(properties.maxGridSize[0])) return xir_error(error, error_capacity, \"launch exceeds device limits\");\n");
    let s = concat(s, copy_lines(&k.params).as_str());
    let s = concat(s, "    xir_kernel_0<<<static_cast<uint32_t>(grid), block>>>(");
    let s = concat(s, arguments(&k.params).as_str());
    let s = concat(s, ");\n");
    let s = concat(s, "    XIR_CUDA(cudaGetLastError());\n    XIR_CUDA(cudaDeviceSynchronize());\n");
    let s = concat(s, copy_back_lines(&k.params).as_str());
    concat(s, "    return 0;\n}\n")
}

/// What emission asks of its arguments: one literal text, holding no line break, for
/// each floating-point constant of a single kernel, whose line numbers fit a `usize`.
pub open spec fn emission_fits(m: Module, texts: Seq<Seq<char>>) -> bool {
    m.kernels@.len() == 1 ==> {
        &&& texts.len() == float_bits(m.kernels@[0].body@).len()
        &&& forall|i: int| 0 <= i < texts.len() ==> no_break(#[trigger] texts[i])
        &&& m.kernels@[0].body@.len() <= (usize::MAX - 8) / 2
    }
}

/// The bit patterns of the floating-point constants of the first kernel, in order.
pub open spec fn module_float_bits(m: Module) -> Seq<u64> {
    if m.kernels@.len() > 0 {
        float_bits(m.kernels@[0].body@)
    } else {
        seq![]
    }
}

/// The source line of the comment that opens node `p`: six header lines and the
/// kernel signature come first, and every node takes two lines (literal texts hold no
/// line break).
pub open spec fn source_lines(body: Seq<ScheduleNode>) -> Seq<(usize, NodeId)> {
    Seq::new(body.len(), |p: int| ((8 + 2 * p) as usize, body[p].meta.node_id))
}

/// The artifact of an admitted module: its source, its fixed entry names, the target
/// architecture and block, the kernel's parameters and extent parameter, and the line of
/// each node.
pub open spec fn emitted_artifact(m: Module, texts: Seq<Seq<char>>, runtime: Seq<char>, a: CudaArtifact) -> bool {
    match spec_admit(m) {
        Ok((e, map)) => {
            let k = m.kernels@[0];
            &&& a.source@ == cuda_source(k, map, texts, runtime)
            &&& a.kernel_name@ == "xir_kernel_0"@
            &&& a.entrypoint@ == "xir_launch"@
            &&& a.arch@ == m.target_request.arch@
            &&& a.block == k.block
            &&& a.params@.len() == k.params@.len()
            &&& forall|i: int|
                0 <= i < k.params@.len() ==> (#[trigger] a.params@[i]).id == k.params@[i].id && a.params@[i].ty@
                    == k.params@[i].ty@
            &&& a.extent_parameter == e
            &&& a.source_map@ == source_lines(k.body@)
        },
        Err(_) => false,
    }
}

proof fn lemma_float_prefix(body: Seq<ScheduleNode>, j: int)
    requires
        0 <= j <= body.len(),
    ensures
        float_bits(body.take(j)).len() <= float_bits(body).len(),
    decreases body.len(),
{
    if j < body.len() {
        assert(body.drop_last().take(j) =~= body.take(j));
        lemma_float_prefix(body.drop_last(), j);
    } else {
        assert(body.take(j) =~= body);
    }
}

proof fn lemma_float_step(body: Seq<ScheduleNode>, p: int)
    requires
        0 <= p < body.len(),
    ensures
        floats_before(body, p + 1) == floats_before(body, p) + match body[p].kind {
            ScheduleNodeKind::Constant { value: Literal::Float(_), .. } => 1int,
            _ => 0int,
        },
{
    assert(body.take(p + 1).drop_last() =~= body.take(p));
    assert(body.take(p + 1).last() == body[p]);
}

/// An admitted module has one kernel, whose parameters all have emitted types and whose
/// nodes are all ones the emitter writes.
proof fn lemma_admitted_shape(m: Module)
    requires
        spec_admit(m) is Ok,
    ensures
        m.kernels@.len() == 1,
        forall|i: int| 0 <= i < m.kernels@[0].params@.len() ==> emitted_type(#[trigger] m.kernels@[0].params@[i].ty@),
        forall|p: int| 0 <= p < m.kernels@[0].body@.len() ==> emitted_node(#[trigger] m.kernels@[0].body@[p]),
{
    let k = m.kernels@[0];
    let e = sole_extent(k.params@)->Some_0;
    assert(k.params@[e].ty@ == TypeRefV::Index);
    assert forall|i: int| 0 <= i < k.params@.len() implies emitted_type(#[trigger] k.params@[i].ty@) by {
        if i != e {
            assert(global_f32_pointer(k.params@[i].ty@));
        }
    }
    lemma_scan_emitted(k.body@, k.params@[e].id);
}

fn float_count(body: &Vec<ScheduleNode>) -> (r: Vec<u64>)
    ensures
        r@ == float_bits(body@),
{
    let mut r: Vec<u64> = Vec::new();
    let mut p: usize = 0;
    while p < body.len()
        invariant
            p <= body@.len(),
            r@ == float_bits(body@.take(p as int)),
        decreases body@.len() - p,
    {
        proof {
            assert(body@.take(p + 1).drop_last() =~= body@.take(p as int));
            assert(body@.take(p + 1).last() == body@[p as int]);
        }
        match &body[p].kind {
            ScheduleNodeKind::Constant { value: Literal::Float(b), .. } => {
                r.push(*b);
            },
            _ => {
                assert(r@ + Seq::<u64>::empty() =~= r@);
            },
        }
        p = p + 1;
    }
    assert(body@.take(body@.len() as int) =~= body@);
    r
}

/// The bit patterns of the floating-point constants of the first kernel, in body order:
/// the emitter takes one C literal text for each.
pub fn float_constants(module: &Module) -> (r: Vec<u64>)
    ensures
        r@ == module_float_bits(*module),
{
    if module.kernels.len() > 0 {
        float_count(&module.kernels[0].body)
    } else {
        Vec::new()
    }
}

/// Whether `emit_cuda` may be called with these literal texts.
pub fn fits_emission(module: &Module, floats: &Vec<String>) -> (r: bool)
    ensures
        r == emission_fits(*module, strings(floats@)),
{
    if module.kernels.len() != 1 {
        return true;
    }
    let kernel = &module.kernels[0];
    if floats.len() != float_count(&kernel.body).len() || kernel.body.len() > (usize::MAX - 8) / 2 {
        return false;
    }
    let mut i: usize = 0;
    while i < floats.len()
        invariant
            i <= floats@.len(),
            module.kernels@.len() == 1,
            forall|j: int| 0 <= j < i ==> no_break(#[trigger] strings(floats@)[j]),
        decreases floats@.len() - i,
    {
        proof {
            lemma_newline_count_zero(floats@[i as int]@);
        }
        if !has_no_line_break(&floats[i]) {
            assert(strings(floats@)[i as int] == floats@[i as int]@);
            assert(!no_break(strings(floats@)[i as int]));
            return false;
        }
        i = i + 1;
    }
    true
}

fn copy_params(params: &Vec<ValueDef>) -> (r: Vec<ValueDef>)
    ensures
        r@.len() == params@.len(),
        forall|i: int| 0 <= i < params@.len() ==> (#[trigger] r@[i]).id == params@[i].id && r@[i].ty@ == params@[i].ty@,
{
    let mut r: Vec<ValueDef> = Vec::new();
    let mut i: usize = 0;
    while i < params.len()
        invariant
            i <= params@.len(),
            r@.len() == i,
            forall|j: int| 0 <= j < i ==> (#[trigger] r@[j]).id == params@[j].id && r@[j].ty@ == params@[j].ty@,
        decreases params@.len() - i,
    {
        r.push(ValueDef { id: params[i].id.dup(), ty: params[i].ty.dup() });
        i = i + 1;
    }
    r
}

/// CUDA source for a module admitted to the elementwise subset: one thread per element,
/// a host wrapper that checks the ABI and the device, copies, launches and copies back.
/// `floats` holds the C literal text of each floating-point constant, in body order.
/// Fails with the findings of target admission exactly when there are any errors.
pub fn emit_cuda(module: &Module, runtime: &str, floats: &Vec<String>) -> (r: Result<CudaArtifact, DiagnosticBag>)
    requires
        !has_error(spec_validate_cuda(*module)) ==> emission_fits(*module, strings(floats@)),
    ensures
        match r {
            Ok(a) => {
                &&& !has_error(spec_validate_cuda(*module))
                &&& emitted_artifact(*module, strings(floats@), runtime@, a)
                &&& forall|p: int|
                    0 <= p < a.source_map@.len() ==> line_reads(a.source@, #[trigger] a.source_map@[p].0 as int, comment_text(p))
                &&& forall|p: int, q: int|
                    0 <= p < q < a.source_map@.len() ==> #[trigger] a.source_map@[p].0 < #[trigger] a.source_map@[q].0
            },
            Err(b) => has_error(spec_validate_cuda(*module)) && b@ == spec_validate_cuda(*module),
        },
{
    let errors = validate_cuda(module);
    if errors.has_errors() {
        return Err(errors);
    }
    proof {
        lemma_cuda_agrees(*module);
        lemma_admitted_shape(*module);
        lemma_valid_views(*module);
        lemma_admitted_ready(*module);
    }
    let admitted = match admit_cuda(module) {
        Ok(a) => a,
        Err(_) => {
            return Err(errors);
        },
    };
    let kernel = &module.kernels[0];
    let ghost map = admitted.buffer_parameters@;
    let ghost texts = strings(floats@);
    let header = text("// Generated by XIR. Do not edit; regenerate from the DSL.");
    let header = concat(header, "\n");
    let header = concat(header, "#include <cuda_runtime.h>");
    let header = concat(header, "\n");
    let header = concat(header, "#include <cstdint>");
    let header = concat(header, "\n");
    let header = concat(header, "#include <cstdio>");
    let header = concat(header, "\n");
    let header = concat(header, "#include <limits>");
    let header = concat(header, "\n");
    let header = concat(header, "\n");
    let mut source = concat(header, signature(&kernel.params).as_str());
    let mut source_map: Vec<(usize, NodeId)> = Vec::new();
    let float_total = floats.len();
    let mut f: usize = 0;
    let mut p: usize = 0;
    while p < kernel.body.len()
        invariant
            p <= kernel.body@.len(),
            texts.len() == float_total,
            kernel.body@.len() <= (usize::MAX - 8) / 2,
            map == admitted.buffer_parameters@,
            texts == strings(floats@),
            texts.len() == float_bits(kernel.body@).len(),
            forall|q: int| 0 <= q < kernel.body@.len() ==> #[trigger] node_ready(*kernel, map, q),
            forall|q: int| 0 <= q < kernel.body@.len() ==> emitted_node(#[trigger] kernel.body@[q]),
            source@ == header_text() + signature_text(kernel.params@) + body_text(*kernel, map, texts, p as int),
            source_map@ == source_lines(kernel.body@).take(p as int),
            f == floats_before(kernel.body@, p as int),
        decreases kernel.body@.len() - p,
    {
        proof {
            lemma_float_step(kernel.body@, p as int);
            lemma_float_prefix(kernel.body@, p + 1);
            assert(node_ready(*kernel, map, p as int));
        }
        let line: usize = 8 + 2 * p;
        source_map.push((line, kernel.body[p].meta.node_id.dup()));
        let t = concat(concat(text("    // schedule node "), decimal_text(p as u64).as_str()), "\n");
        let t = concat(t, statement(kernel, &admitted.buffer_parameters, floats, p, f).as_str());
        let ghost before = source@;
        source = concat(source, t.as_str());
        proof {
            assert(source@ =~= header_text() + signature_text(kernel.params@) + body_text(*kernel, map, texts, p + 1));
            assert(source_map@ =~= source_lines(kernel.body@).take(p + 1));
        }
        match &kernel.body[p].kind {
            ScheduleNodeKind::Constant { value: Literal::Float(_), .. } => {
                f = f + 1;
            },
            _ => {},
        }
        p = p + 1;
    }
    assert(source_lines(kernel.body@).take(kernel.body@.len() as int) =~= source_lines(kernel.body@));
    let source = concat(source, "}\n\n");
    let source = concat(source, runtime);
    let source = concat(source, wrapper(kernel, &admitted.buffer_parameters).as_str());
    proof {
        lemma_source_lines(*kernel, map, texts, runtime@);
        assert forall|p: int| 0 <= p < kernel.body@.len() implies (#[trigger] source_lines(kernel.body@)[p]).0 as int == 8 + 2 * p by {}
    }
    Ok(CudaArtifact {
        source,
        kernel_name: text("xir_kernel_0"),
        entrypoint: text("xir_launch"),
        arch: text(module.target_request.arch.as_str()),
        block: kernel.block,
        params: copy_params(&kernel.params),
        extent_parameter: admitted.extent_parameter,
        source_map,
    })
}

proof fn lemma_param_position(params: Seq<ValueDef>, x: Seq<char>, n: int)
    requires
        0 <= n <= params.len(),
        exists|i: int| 0 <= i < n && (#[trigger] params[i]).id@ == x,
    ensures
        param_position(params, x, n) is Some,
    decreases n,
{
    if params[n - 1].id@ != x {
        let i = choose|i: int| 0 <= i < n && (#[trigger] params[i]).id@ == x;
        lemma_param_position(params, x, n - 1);
    }
}

/// A parameter, or a value defined by a node up to `p`, has a C name at node `p`.
proof fn lemma_named(k: Kernel, x: Seq<char>, p: int)
    requires
        -1 <= p < k.body@.len(),
        has_key(k.params@, x) || exists|q: int| 0 <= q <= p && has_key((#[trigger] k.body@[q]).kind.result_defs(), x),
    ensures
        name_in_scope(k, x, p) is Some,
    decreases p + 1,
{
    if p < 0 {
        let i = choose|i: int| 0 <= i < k.params@.len() && k.params@[i].key() == x;
        assert(k.params@[i].id@ == x);
        lemma_param_position(k.params@, x, k.params@.len() as int);
    } else if !has_key(k.body@[p].kind.result_defs(), x) {
        if !has_key(k.params@, x) {
            let q = choose|q: int| 0 <= q <= p && has_key((#[trigger] k.body@[q]).kind.result_defs(), x);
            assert(q != p);
        }
        lemma_named(k, x, p - 1);
    }
}

proof fn lemma_put_has<V>(s: Seq<(BufferId, V)>, key: BufferId, v: V, x: Seq<char>)
    requires
        has_key(s, x) || x == key@,
    ensures
        has_key(crate::lookup::put(s, key, v), x),
{
    let t = crate::lookup::put(s, key, v);
    match crate::lookup::find_index(s, key@) {
        Some(i) => {
            crate::lookup::lemma_found(s, key@);
            if x == key@ {
                assert(t[i].key() == x);
            } else {
                let j = choose|j: int| 0 <= j < s.len() && s[j].key() == x;
                assert(t[j].key() == x);
            }
        },
        None => {
            if x == key@ {
                assert(t[s.len() as int].key() == x);
            } else {
                let j = choose|j: int| 0 <= j < s.len() && s[j].key() == x;
                assert(t[j].key() == x);
            }
        },
    }
}

/// Binding the first `n` buffers of a kernel whose views resolve binds each of them.
proof fn lemma_bind_keys(k: Kernel, e: int, n: int)
    requires
        0 <= n <= k.buffers@.len(),
        crate::cuda::views_resolve(k),
        bind_buffers(k, e, k.buffers@.take(n)) is Ok,
    ensures
        forall|i: int| 0 <= i < n ==> has_key(bind_buffers(k, e, k.buffers@.take(n))->Ok_0.map, (#[trigger] k.buffers@[i]).id@),
    decreases n,
{
    if n > 0 {
        let prefix = k.buffers@.take(n);
        assert(prefix.drop_last() =~= k.buffers@.take(n - 1));
        assert(prefix.last() == k.buffers@[n - 1]);
        let acc = bind_buffers(k, e, k.buffers@.take(n - 1))->Ok_0;
        lemma_bind_keys(k, e, n - 1);
        let b = k.buffers@[n - 1];
        let si = crate::lookup::find_index(k.storages@, b.ty.storage@)->Some_0;
        let s = k.storages@[si];
        let ext = s.external->Some_0;
        crate::lookup::lemma_has_key(k.params@, ext@);
        let p = crate::lookup::find_index(k.params@, ext@)->Some_0;
        let out = bind_buffers(k, e, prefix)->Ok_0;
        assert(out.map == crate::lookup::put(acc.map, b.id, p as usize));
        assert forall|i: int| 0 <= i < n implies has_key(out.map, (#[trigger] k.buffers@[i]).id@) by {
            lemma_put_has(acc.map, b.id, p as usize, k.buffers@[i].id@);
        }
    }
}

/// A module that passes target admission is ready to be emitted: every operand of
/// every node has a C name where it is used, every buffer a load or store names is
/// bound to a parameter, and no constant holds an integer literal.
pub proof fn lemma_admitted_ready(m: Module)
    requires
        !has_error(spec_validate_cuda(m)),
    ensures
        spec_admit(m) matches Ok((_, map)) && forall|p: int|
            0 <= p < m.kernels@[0].body@.len() ==> #[trigger] node_ready(m.kernels@[0], map, p),
{
    lemma_cuda_agrees(m);
    lemma_admitted_shape(m);
    crate::findings::lemma_valid_flat_body(m);
    let k = m.kernels@[0];
    let e = sole_extent(k.params@)->Some_0;
    let bind = bind_buffers(k, e, k.buffers@)->Ok_0;
    let map = bind.map;
    assert(spec_admit(m) == Ok::<(int, Seq<(BufferId, usize)>), crate::diagnostic::DiagnosticV>((e, map)));
    crate::findings::lemma_valid_views(m);
    assert(k.buffers@.take(k.buffers@.len() as int) =~= k.buffers@);
    lemma_bind_keys(k, e, k.buffers@.len() as int);
    assert forall|p: int| 0 <= p < k.body@.len() implies #[trigger] node_ready(k, map, p) by {
        let n = k.body@[p];
        let ids = n.kind.operand_ids();
        assert forall|j: int| 0 <= j < ids.len() implies name_in_scope(k, (#[trigger] ids[j])@, p) is Some by {
            let x = ids[j]@;
            assert(has_key(k.params@, x) || exists|q: int|
                0 <= q < p && has_key((#[trigger] k.body@[q]).kind.result_defs(), x));
            lemma_named(k, x, p);
        }
        match n.kind {
            ScheduleNodeKind::Load { source, .. } => {
                crate::lookup::lemma_found(k.buffers@, source.buffer_of()@);
                let i = crate::lookup::find_index(k.buffers@, source.buffer_of()@)->Some_0;
                assert(k.buffers@[i].id@ == source.buffer_of()@);
            },
            ScheduleNodeKind::Store { destination, .. } => {
                crate::lookup::lemma_found(k.buffers@, destination.buffer_of()@);
                let i = crate::lookup::find_index(k.buffers@, destination.buffer_of()@)->Some_0;
                assert(k.buffers@[i].id@ == destination.buffer_of()@);
            },
            _ => {},
        }
    }
}

/// `f` names distinct identifiers differently.
pub open spec fn injective(f: spec_fn(Seq<char>) -> Seq<char>) -> bool {
    forall|a: Seq<char>, b: Seq<char>| #![trigger f(a), f(b)] f(a) == f(b) ==> a == b
}

/// `b` is the definition `a` with its ID renamed by `f`.
pub open spec fn renamed_def(a: ValueDef, b: ValueDef, f: spec_fn(Seq<char>) -> Seq<char>) -> bool {
    b.id@ == f(a.id@) && b.ty@ == a.ty@
}

pub open spec fn renamed_ids(a: Seq<ValueId>, b: Seq<ValueId>, f: spec_fn(Seq<char>) -> Seq<char>) -> bool {
    a.len() == b.len() && forall|j: int| 0 <= j < a.len() ==> (#[trigger] b[j])@ == f(a[j]@)
}

pub open spec fn renamed_ref(a: MemoryRef, b: MemoryRef, f: spec_fn(Seq<char>) -> Seq<char>) -> bool {
    b.buffer_of()@ == f(a.buffer_of()@) && (a is Buffer) == (b is Buffer)
}

/// `b` is the node `a` of the elementwise subset with every identifier renamed by `f`:
/// the same operation, literal, builtin and types.
pub open spec fn renamed_node(a: ScheduleNode, b: ScheduleNode, f: spec_fn(Seq<char>) -> Seq<char>) -> bool {
    match a.kind {
        ScheduleNodeKind::LaunchIndex { builtin, result } => b.kind matches ScheduleNodeKind::LaunchIndex {
            builtin: b1,
            result: r1,
        } && builtin == b1 && renamed_def(result, r1, f),
        ScheduleNodeKind::Constant { value, result } => b.kind matches ScheduleNodeKind::Constant {
            value: v1,
            result: r1,
        } && value == v1 && renamed_def(result, r1, f),
        ScheduleNodeKind::Binary { op, lhs, rhs, result } => b.kind matches ScheduleNodeKind::Binary {
            op: o1,
            lhs: l1,
            rhs: h1,
            result: r1,
        } && op == o1 && l1@ == f(lhs@) && h1@ == f(rhs@) && renamed_def(result, r1, f),
        ScheduleNodeKind::Load { source, indices, mask, masked_value, result } => b.kind matches ScheduleNodeKind::Load {
            source: s1,
            indices: i1,
            mask: m1,
            masked_value: v1,
            result: r1,
        } && renamed_ref(source, s1, f) && renamed_ids(indices@, i1@, f) && m1@ == f(mask@) && v1@ == f(
            masked_value@,
        ) && renamed_def(result, r1, f),
        ScheduleNodeKind::Store { destination, indices, value, mask } => b.kind matches ScheduleNodeKind::Store {
            destination: d1,
            indices: i1,
            value: v1,
            mask: m1,
        } && renamed_ref(destination, d1, f) && renamed_ids(indices@, i1@, f) && v1@ == f(value@) && m1@ == f(
            mask@,
        ),
        ScheduleNodeKind::KernelReturn => b.kind is KernelReturn,
        _ => false,
    }
}

/// `b` is the kernel `a` with every identifier of its parameters and body renamed by
/// `f`, the same block, and the same parameter types and operations.
pub open spec fn renamed_kernel(a: Kernel, b: Kernel, f: spec_fn(Seq<char>) -> Seq<char>) -> bool {
    &&& a.block == b.block
    &&& a.params@.len() == b.params@.len()
    &&& forall|i: int| 0 <= i < a.params@.len() ==> renamed_def(#[trigger] a.params@[i], b.params@[i], f)
    &&& a.body@.len() == b.body@.len()
    &&& forall|p: int| 0 <= p < a.body@.len() ==> renamed_node(#[trigger] a.body@[p], b.body@[p], f)
    &&& a.storages@.len() == b.storages@.len()
    &&& forall|i: int| 0 <= i < a.storages@.len() ==> renamed_storage(#[trigger] a.storages@[i], b.storages@[i], f)
    &&& a.buffers@.len() == b.buffers@.len()
    &&& forall|i: int| 0 <= i < a.buffers@.len() ==> renamed_buffer(#[trigger] a.buffers@[i], b.buffers@[i], f)
}

/// The index expression `e` with every value renamed by `f`.
pub open spec fn rename_expr(e: IndexExprV, f: spec_fn(Seq<char>) -> Seq<char>) -> IndexExprV
    decreases e,
{
    match e {
        IndexExprV::Constant(c) => IndexExprV::Constant(c),
        IndexExprV::Value(x) => IndexExprV::Value(f(x)),
        IndexExprV::Add(a, b) => IndexExprV::Add(Box::new(rename_expr(*a, f)), Box::new(rename_expr(*b, f))),
        IndexExprV::Mul(a, b) => IndexExprV::Mul(Box::new(rename_expr(*a, f)), Box::new(rename_expr(*b, f))),
        IndexExprV::FloorDiv(a, b) => IndexExprV::FloorDiv(Box::new(rename_expr(*a, f)), Box::new(rename_expr(*b, f))),
    }
}

pub open spec fn renamed_exprs(a: Seq<IndexExpr>, b: Seq<IndexExpr>, f: spec_fn(Seq<char>) -> Seq<char>) -> bool {
    a.len() == b.len() && forall|i: int| 0 <= i < a.len() ==> (#[trigger] b[i])@ == rename_expr(a[i]@, f)
}

/// `b` is the storage `a` with its ID, its capacity's values and its external parameter
/// renamed by `f`.
pub open spec fn renamed_storage(a: crate::ast::StorageDecl, b: crate::ast::StorageDecl, f: spec_fn(Seq<char>) -> Seq<char>) -> bool {
    &&& b.id@ == f(a.id@)
    &&& b.ty.address_space == a.ty.address_space
    &&& b.ty.alignment_bytes == a.ty.alignment_bytes
    &&& b.ty.capacity_bytes@ == rename_expr(a.ty.capacity_bytes@, f)
    &&& match (a.external, b.external) {
        (Some(x), Some(y)) => y@ == f(x@),
        (None, None) => true,
        _ => false,
    }
}

/// `b` is the buffer `a` with its ID, its storage and the values of its layout renamed by `f`.
pub open spec fn renamed_buffer(a: crate::ast::BufferDecl, b: crate::ast::BufferDecl, f: spec_fn(Seq<char>) -> Seq<char>) -> bool {
    &&& b.id@ == f(a.id@)
    &&& b.ty.storage@ == f(a.ty.storage@)
    &&& b.ty.element == a.ty.element
    &&& b.ty.mutable == a.ty.mutable
    &&& b.ty.offset_bytes@ == rename_expr(a.ty.offset_bytes@, f)
    &&& renamed_exprs(a.ty.shape@, b.ty.shape@, f)
    &&& match (a.ty.mapping, b.ty.mapping) {
        (
            crate::types::MappingSpec::Strided { strides_bytes: x },
            crate::types::MappingSpec::Strided { strides_bytes: y },
        ) => renamed_exprs(x@, y@, f),
        (crate::types::MappingSpec::Registered { .. }, crate::types::MappingSpec::Registered { .. }) => true,
        _ => false,
    }
}

/// Renaming by an injective `f` keeps an expression a given constant, or a given value.
proof fn lemma_rename_expr_shape(e: IndexExprV, f: spec_fn(Seq<char>) -> Seq<char>, x: Seq<char>, c: u64)
    requires
        injective(f),
    ensures
        (rename_expr(e, f) == IndexExprV::Constant(c)) == (e == IndexExprV::Constant(c)),
        (rename_expr(e, f) == IndexExprV::Value(f(x))) == (e == IndexExprV::Value(x)),
{
}

/// Keys renamed by an injective `f` are found at the same positions.
proof fn lemma_renamed_find<A: Keyed, B: Keyed>(a: Seq<A>, b: Seq<B>, f: spec_fn(Seq<char>) -> Seq<char>, x: Seq<char>)
    requires
        injective(f),
        a.len() == b.len(),
        forall|i: int| 0 <= i < a.len() ==> (#[trigger] b[i]).key() == f(a[i].key()),
    ensures
        crate::lookup::find_index(b, f(x)) == crate::lookup::find_index(a, x),
        has_key(b, f(x)) == has_key(a, x),
{
    let y = f(x);
    assert forall|j: int| 0 <= j < a.len() implies (b[j].key() == y) == (#[trigger] a[j].key() == x) by {
        assert(b[j].key() == f(a[j].key()));
    }
    if exists|j: int| crate::lookup::is_first(a, x, j) {
        let j = choose|j: int| crate::lookup::is_first(a, x, j);
        assert(crate::lookup::is_first(b, y, j));
        crate::lookup::lemma_first(a, x, j);
        crate::lookup::lemma_first(b, y, j);
    } else if exists|j: int| crate::lookup::is_first(b, y, j) {
        let j = choose|j: int| crate::lookup::is_first(b, y, j);
        assert(crate::lookup::is_first(a, x, j));
    }
    crate::lookup::lemma_has_key(a, x);
    crate::lookup::lemma_has_key(b, y);
}

/// `b` binds the buffers of `a`, renamed by `f`, to the same parameters.
pub open spec fn renamed_map(a: Seq<(BufferId, usize)>, b: Seq<(BufferId, usize)>, f: spec_fn(Seq<char>) -> Seq<char>) -> bool {
    a.len() == b.len() && forall|i: int| 0 <= i < a.len() ==> (#[trigger] b[i]).0@ == f(a[i].0@) && b[i].1 == a[i].1
}

proof fn lemma_renamed_position(a: Seq<ValueDef>, b: Seq<ValueDef>, f: spec_fn(Seq<char>) -> Seq<char>, x: Seq<char>, n: int)
    requires
        injective(f),
        0 <= n <= a.len(),
        a.len() == b.len(),
        forall|i: int| 0 <= i < a.len() ==> renamed_def(#[trigger] a[i], b[i], f),
    ensures
        param_position(b, f(x), n) == param_position(a, x, n),
    decreases n,
{
    if n > 0 {
        assert(renamed_def(a[n - 1], b[n - 1], f));
        lemma_renamed_position(a, b, f, x, n - 1);
    }
}

proof fn lemma_renamed_defines(a: ScheduleNode, b: ScheduleNode, f: spec_fn(Seq<char>) -> Seq<char>, x: Seq<char>)
    requires
        injective(f),
        renamed_node(a, b, f),
    ensures
        has_key(b.kind.result_defs(), f(x)) == has_key(a.kind.result_defs(), x),
{
    let da = a.kind.result_defs();
    let db = b.kind.result_defs();
    assert(da.len() == db.len());
    if has_key(da, x) {
        let j = choose|j: int| 0 <= j < da.len() && da[j].key() == x;
        assert(db[j].key() == f(x));
    }
    if has_key(db, f(x)) {
        let j = choose|j: int| 0 <= j < db.len() && db[j].key() == f(x);
        assert(f(da[j].key()) == f(x));
    }
}

/// Identifiers renamed by `f` have the names of the identifiers they rename.
proof fn lemma_renamed_scope(k: Kernel, k2: Kernel, f: spec_fn(Seq<char>) -> Seq<char>, x: Seq<char>, p: int)
    requires
        injective(f),
        renamed_kernel(k, k2, f),
        p < k.body@.len(),
    ensures
        name_in_scope(k2, f(x), p) == name_in_scope(k, x, p),
    decreases p + 1,
{
    if p < 0 {
        lemma_renamed_position(k.params@, k2.params@, f, x, k.params@.len() as int);
    } else {
        assert(renamed_node(k.body@[p], k2.body@[p], f));
        lemma_renamed_defines(k.body@[p], k2.body@[p], f, x);
        lemma_renamed_scope(k, k2, f, x, p - 1);
    }
}

proof fn lemma_renamed_get(map: Seq<(BufferId, usize)>, map2: Seq<(BufferId, usize)>, f: spec_fn(Seq<char>) -> Seq<char>, x: Seq<char>)
    requires
        injective(f),
        renamed_map(map, map2, f),
    ensures
        get(map2, f(x)) == get(map, x),
{
    let y = f(x);
    assert forall|j: int| 0 <= j < map.len() implies (map2[j].key() == y) == (#[trigger] map[j].key() == x) by {
        assert(map2[j].0@ == f(map[j].0@));
    }
    if exists|j: int| crate::lookup::is_first(map, x, j) {
        let j = choose|j: int| crate::lookup::is_first(map, x, j);
        assert(crate::lookup::is_first(map2, y, j));
        crate::lookup::lemma_first(map, x, j);
        crate::lookup::lemma_first(map2, y, j);
    } else if exists|j: int| crate::lookup::is_first(map2, y, j) {
        let j = choose|j: int| crate::lookup::is_first(map2, y, j);
        assert(crate::lookup::is_first(map, x, j));
    }
}

proof fn lemma_renamed_floats(a: Seq<ScheduleNode>, b: Seq<ScheduleNode>, f: spec_fn(Seq<char>) -> Seq<char>)
    requires
        a.len() == b.len(),
        forall|p: int| 0 <= p < a.len() ==> renamed_node(#[trigger] a[p], b[p], f),
    ensures
        float_bits(b) == float_bits(a),
    decreases a.len(),
{
    if a.len() > 0 {
        lemma_renamed_floats(a.drop_last(), b.drop_last(), f);
        assert(renamed_node(a[a.len() - 1], b[b.len() - 1], f));
    }
}

proof fn lemma_renamed_statement(
    k: Kernel,
    k2: Kernel,
    map: Seq<(BufferId, usize)>,
    map2: Seq<(BufferId, usize)>,
    texts: Seq<Seq<char>>,
    f: spec_fn(Seq<char>) -> Seq<char>,
    p: int,
)
    requires
        injective(f),
        renamed_kernel(k, k2, f),
        renamed_map(map, map2, f),
        0 <= p < k.body@.len(),
        emitted_node(k.body@[p]),
    ensures
        statement_text(k2, map2, texts, p) == statement_text(k, map, texts, p),
{
    let n = k.body@[p];
    let n2 = k2.body@[p];
    assert(renamed_node(n, n2, f));
    let a = k.body@.take(p);
    let b = k2.body@.take(p);
    assert forall|q: int| 0 <= q < a.len() implies renamed_node(#[trigger] a[q], b[q], f) by {
        assert(renamed_node(k.body@[q], k2.body@[q], f));
    }
    lemma_renamed_floats(a, b, f);
    match n.kind {
        ScheduleNodeKind::Constant { value, result } => {
            match n2.kind {
                ScheduleNodeKind::Constant { value: v1, result: r1 } => {
                    assert(v1 == value && r1.ty@ == result.ty@);
                    assert(floats_before(k2.body@, p) == floats_before(k.body@, p));
                },
                _ => {},
            }
        },
        ScheduleNodeKind::LaunchIndex { builtin, .. } => {
            match n2.kind {
                ScheduleNodeKind::LaunchIndex { builtin: b1, .. } => {
                    assert(b1 == builtin);
                },
                _ => {},
            }
        },
        ScheduleNodeKind::Binary { op, lhs, rhs, result } => {
            lemma_renamed_scope(k, k2, f, lhs@, p);
            lemma_renamed_scope(k, k2, f, rhs@, p);
            match n2.kind {
                ScheduleNodeKind::Binary { op: o1, lhs: l1, rhs: h1, result: r1 } => {
                    assert(l1@ == f(lhs@) && h1@ == f(rhs@));
                    assert(r1.ty@ == result.ty@ && o1 == op);
                },
                _ => {},
            }
        },
        ScheduleNodeKind::Load { source, indices, mask, masked_value, .. } => {
            lemma_renamed_scope(k, k2, f, mask@, p);
            lemma_renamed_scope(k, k2, f, masked_value@, p);
            if indices@.len() > 0 {
                lemma_renamed_scope(k, k2, f, indices@[0]@, p);
            }
            lemma_renamed_get(map, map2, f, source.buffer_of()@);
            match n2.kind {
                ScheduleNodeKind::Load { source: s1, indices: i1, mask: m1, masked_value: v1, .. } => {
                    assert(i1@[0]@ == f(indices@[0]@));
                    assert(m1@ == f(mask@) && v1@ == f(masked_value@));
                    assert(s1.buffer_of()@ == f(source.buffer_of()@));
                },
                _ => {},
            }
        },
        ScheduleNodeKind::Store { destination, indices, value, mask } => {
            lemma_renamed_scope(k, k2, f, mask@, p);
            lemma_renamed_scope(k, k2, f, value@, p);
            if indices@.len() > 0 {
                lemma_renamed_scope(k, k2, f, indices@[0]@, p);
            }
            lemma_renamed_get(map, map2, f, destination.buffer_of()@);
            match n2.kind {
                ScheduleNodeKind::Store { destination: d1, indices: i1, value: v1, mask: m1 } => {
                    assert(i1@[0]@ == f(indices@[0]@));
                    assert(m1@ == f(mask@) && v1@ == f(value@));
                    assert(d1.buffer_of()@ == f(destination.buffer_of()@));
                },
                _ => {},
            }
        },
        _ => {},
    }
}

proof fn lemma_renamed_body(
    k: Kernel,
    k2: Kernel,
    map: Seq<(BufferId, usize)>,
    map2: Seq<(BufferId, usize)>,
    texts: Seq<Seq<char>>,
    f: spec_fn(Seq<char>) -> Seq<char>,
    n: int,
)
    requires
        injective(f),
        renamed_kernel(k, k2, f),
        renamed_map(map, map2, f),
        n <= k.body@.len(),
        forall|q: int| 0 <= q < k.body@.len() ==> emitted_node(#[trigger] k.body@[q]),
    ensures
        body_text(k2, map2, texts, n) == body_text(k, map, texts, n),
    decreases n,
{
    if n > 0 {
        lemma_renamed_body(k, k2, map, map2, texts, f, n - 1);
        lemma_renamed_statement(k, k2, map, map2, texts, f, n - 1);
    }
}

proof fn lemma_renamed_params(k: Kernel, k2: Kernel, map: Seq<(BufferId, usize)>, map2: Seq<(BufferId, usize)>, f: spec_fn(Seq<char>) -> Seq<char>, n: int)
    requires
        renamed_kernel(k, k2, f),
        renamed_map(map, map2, f),
        n <= k.params@.len(),
    ensures
        extent_checks(map2, n) == extent_checks(map, n),
        copies_in(k2.params@, n) == copies_in(k.params@, n),
        copies_out(k2.params@, n) == copies_out(k.params@, n),
    decreases n,
{
    if n > 0 {
        lemma_renamed_params(k, k2, map, map2, f, n - 1);
        assert(renamed_def(k.params@[n - 1], k2.params@[n - 1], f));
        if bound_position(map, n - 1) {
            let i = choose|i: int| 0 <= i < map.len() && map[i].1 == n - 1;
            assert(map2[i].1 == n - 1);
        }
        if bound_position(map2, n - 1) {
            let i = choose|i: int| 0 <= i < map2.len() && map2[i].1 == n - 1;
            assert(map[i].1 == n - 1);
        }
    }
}

/// The CUDA source of a kernel does not depend on the identifiers of the IR: renaming
/// the values and buffers of a kernel and of its bindings, distinct names to distinct
/// identifiers, leaves the source unchanged, since it names parameters and values by
/// position only.
pub proof fn lemma_source_ignores_ids(
    k: Kernel,
    k2: Kernel,
    map: Seq<(BufferId, usize)>,
    map2: Seq<(BufferId, usize)>,
    texts: Seq<Seq<char>>,
    runtime: Seq<char>,
    f: spec_fn(Seq<char>) -> Seq<char>,
)
    requires
        injective(f),
        renamed_kernel(k, k2, f),
        renamed_map(map, map2, f),
        forall|q: int| 0 <= q < k.body@.len() ==> emitted_node(#[trigger] k.body@[q]),
    ensures
        cuda_source(k2, map2, texts, runtime) == cuda_source(k, map, texts, runtime),
{
    lemma_renamed_body(k, k2, map, map2, texts, f, k.body@.len() as int);
    lemma_renamed_params(k, k2, map, map2, f, k.params@.len() as int);
    assert forall|i: int| 0 <= i < k.params@.len() implies k2.params@[i].ty@ == (#[trigger] k.params@[i]).ty@ by {
        assert(renamed_def(k.params@[i], k2.params@[i], f));
    }
    assert(param_decls(k2.params@) =~= param_decls(k.params@));
    assert(launch_args(k2.params@) =~= launch_args(k.params@));
}



/// Renaming keeps a view contiguous over its storage exactly when it was.
proof fn lemma_contiguous_renamed(
    s: crate::ast::StorageDecl,
    b: crate::ast::BufferDecl,
    s2: crate::ast::StorageDecl,
    b2: crate::ast::BufferDecl,
    ext: Seq<char>,
    f: spec_fn(Seq<char>) -> Seq<char>,
)
    requires
        injective(f),
        renamed_storage(s, s2, f),
        renamed_buffer(b, b2, f),
    ensures
        crate::cuda::contiguous_view(s2, b2, f(ext)) == crate::cuda::contiguous_view(s, b, ext),
{
    let cap = s.ty.capacity_bytes@;
    match cap {
        IndexExprV::Mul(x, y) => {
            lemma_rename_expr_shape(*x, f, ext, 4);
            lemma_rename_expr_shape(*y, f, ext, 4);
        },
        _ => {},
    }
    lemma_rename_expr_shape(b.ty.offset_bytes@, f, ext, 0);
    let sh = crate::types::exprs_view(b.ty.shape@);
    let sh2 = crate::types::exprs_view(b2.ty.shape@);
    if sh.len() == 1 {
        lemma_rename_expr_shape(b.ty.shape@[0]@, f, ext, 0);
        assert(sh2[0] == rename_expr(sh[0], f));
        if sh2 == seq![IndexExprV::Value(f(ext))] {
            assert(sh2[0] == IndexExprV::Value(f(ext)));
            assert(sh =~= seq![IndexExprV::Value(ext)]);
        }
        if sh == seq![IndexExprV::Value(ext)] {
            assert(sh[0] == IndexExprV::Value(ext));
            assert(sh2 =~= seq![IndexExprV::Value(f(ext))]);
        }
    } else {
        assert(sh.len() != seq![IndexExprV::Value(ext)].len());
        assert(sh2.len() != seq![IndexExprV::Value(f(ext))].len());
    }
    match (b.ty.mapping, b2.ty.mapping) {
        (crate::types::MappingSpec::Strided { strides_bytes: x }, crate::types::MappingSpec::Strided { strides_bytes: y }) => {
            let vx = crate::types::exprs_view(x@);
            let vy = crate::types::exprs_view(y@);
            if vx.len() == 1 {
                lemma_rename_expr_shape(x@[0]@, f, ext, 4);
                assert(vy[0] == rename_expr(vx[0], f));
                if vy == seq![IndexExprV::Constant(4)] {
                    assert(vy[0] == IndexExprV::Constant(4));
                    assert(vx =~= seq![IndexExprV::Constant(4)]);
                }
                if vx == seq![IndexExprV::Constant(4)] {
                    assert(vx[0] == IndexExprV::Constant(4));
                    assert(vy =~= seq![IndexExprV::Constant(4)]);
                }
            } else {
                assert(vx.len() != seq![IndexExprV::Constant(4)].len());
                assert(vy.len() != seq![IndexExprV::Constant(4)].len());
            }
        },
        _ => {},
    }
}

proof fn lemma_put_renamed(
    map: Seq<(BufferId, usize)>,
    map2: Seq<(BufferId, usize)>,
    key: BufferId,
    key2: BufferId,
    p: usize,
    f: spec_fn(Seq<char>) -> Seq<char>,
)
    requires
        injective(f),
        renamed_map(map, map2, f),
        key2@ == f(key@),
    ensures
        renamed_map(crate::lookup::put(map, key, p), crate::lookup::put(map2, key2, p), f),
{
    assert forall|i: int| 0 <= i < map.len() implies (#[trigger] map2[i]).key() == f(map[i].key()) by {
        assert(map2[i].0@ == f(map[i].0@));
    }
    lemma_renamed_find(map, map2, f, key@);
}

/// The buffers bound so far, their parameters and storages, renamed by `f`.
pub open spec fn renamed_binding(a: crate::cuda::Binding, b: crate::cuda::Binding, f: spec_fn(Seq<char>) -> Seq<char>) -> bool {
    &&& a.params == b.params
    &&& a.storages.len() == b.storages.len()
    &&& forall|i: int| 0 <= i < a.storages.len() ==> (#[trigger] b.storages[i])@ == f(a.storages[i]@)
    &&& renamed_map(a.map, b.map, f)
}

proof fn lemma_bind_renamed(k: Kernel, k2: Kernel, e: int, n: int, f: spec_fn(Seq<char>) -> Seq<char>)
    requires
        injective(f),
        renamed_kernel(k, k2, f),
        crate::cuda::views_resolve(k),
        0 <= e < k.params@.len(),
        0 <= n <= k.buffers@.len(),
    ensures
        match (bind_buffers(k, e, k.buffers@.take(n)), bind_buffers(k2, e, k2.buffers@.take(n))) {
            (Ok(a), Ok(b)) => renamed_binding(a, b, f),
            (Err(_), Err(_)) => true,
            _ => false,
        },
    decreases n,
{
    if n == 0 {
        assert(k.buffers@.take(0) =~= Seq::<crate::ast::BufferDecl>::empty());
        assert(k2.buffers@.take(0) =~= Seq::<crate::ast::BufferDecl>::empty());
    } else {
        lemma_bind_renamed(k, k2, e, n - 1, f);
        let pa = k.buffers@.take(n);
        let pb = k2.buffers@.take(n);
        assert(pa.drop_last() =~= k.buffers@.take(n - 1));
        assert(pb.drop_last() =~= k2.buffers@.take(n - 1));
        let b = k.buffers@[n - 1];
        let b2 = k2.buffers@[n - 1];
        assert(pa.last() == b && pb.last() == b2);
        assert(renamed_buffer(b, b2, f));
        match (bind_buffers(k, e, k.buffers@.take(n - 1)), bind_buffers(k2, e, k2.buffers@.take(n - 1))) {
            (Ok(acc), Ok(acc2)) => {
                assert forall|i: int| 0 <= i < k.storages@.len() implies (#[trigger] k2.storages@[i]).key() == f(
                    k.storages@[i].key(),
                ) by {
                    assert(renamed_storage(k.storages@[i], k2.storages@[i], f));
                }
                lemma_renamed_find(k.storages@, k2.storages@, f, b.ty.storage@);
                assert(views_resolve_at(k, n - 1));
                let si = crate::lookup::find_index(k.storages@, b.ty.storage@)->Some_0;
                let st = k.storages@[si];
                let st2 = k2.storages@[si];
                assert(renamed_storage(st, st2, f));
                assert forall|i: int| 0 <= i < k.params@.len() implies (#[trigger] k2.params@[i]).key() == f(
                    k.params@[i].key(),
                ) by {
                    assert(renamed_def(k.params@[i], k2.params@[i], f));
                }
                assert(renamed_def(k.params@[e], k2.params@[e], f));
                lemma_contiguous_renamed(st, b, st2, b2, k.params@[e].id@, f);
                assert forall|i: int| 0 <= i < acc.storages.len() implies (#[trigger] acc2.storages[i]).key() == f(
                    acc.storages[i].key(),
                ) by {}
                lemma_renamed_find(acc.storages, acc2.storages, f, st.id@);
                match st.external {
                    Some(x) => {
                        crate::lookup::lemma_has_key(k.params@, x@);
                        lemma_renamed_find(k.params@, k2.params@, f, x@);
                        let p = crate::lookup::find_index(k.params@, x@)->Some_0;
                        lemma_put_renamed(acc.map, acc2.map, b.id, b2.id, p as usize, f);
                        assert(bind_buffers(k, e, pa) == crate::cuda::bind_buffer(k, e, acc, b));
                        assert(bind_buffers(k2, e, pb) == crate::cuda::bind_buffer(k2, e, acc2, b2));
                        match (bind_buffers(k, e, pa), bind_buffers(k2, e, pb)) {
                            (Ok(a1), Ok(a2)) => {
                                assert(a1.storages == acc.storages.push(st.id));
                                assert(a2.storages == acc2.storages.push(st2.id));
                                assert forall|i: int| 0 <= i < a1.storages.len() implies (#[trigger] a2.storages[i])@ == f(
                                    a1.storages[i]@,
                                ) by {
                                    if i < acc.storages.len() {
                                        assert(a1.storages[i] == acc.storages[i]);
                                        assert(a2.storages[i] == acc2.storages[i]);
                                    }
                                }
                            },
                            _ => {},
                        }
                    },
                    None => {},
                }
            },
            _ => {},
        }
    }
}

pub open spec fn views_resolve_at(k: Kernel, i: int) -> bool {
    match crate::lookup::find_index(k.storages@, k.buffers@[i].ty.storage@) {
        Some(s) => (k.storages@[s].external matches Some(ext) ==> has_key(k.params@, ext@)),
        None => false,
    }
}

/// Admission binds the renamed buffers of a renamed kernel to the same parameters.
#[verifier::rlimit(40)]
pub proof fn lemma_admit_renamed(m: Module, m2: Module, f: spec_fn(Seq<char>) -> Seq<char>)
    requires
        injective(f),
        spec_admit(m) is Ok,
        spec_admit(m2) is Ok,
        crate::cuda::views_resolve(m.kernels@[0]),
        renamed_kernel(m.kernels@[0], m2.kernels@[0], f),
    ensures
        renamed_map(spec_admit(m)->Ok_0.1, spec_admit(m2)->Ok_0.1, f),
{
    let k = m.kernels@[0];
    let k2 = m2.kernels@[0];
    let e = sole_extent(k.params@)->Some_0;
    let e2 = sole_extent(k2.params@)->Some_0;
    assert(renamed_def(k.params@[e2], k2.params@[e2], f));
    if e != e2 {
        assert(renamed_def(k.params@[e], k2.params@[e], f));
        assert(k.params@[e2].ty@ != TypeRefV::Index);
    }
    assert(e == e2);
    assert(k.buffers@.take(k.buffers@.len() as int) =~= k.buffers@);
    assert(k2.buffers@.take(k2.buffers@.len() as int) =~= k2.buffers@);
    lemma_bind_renamed(k, k2, e, k.buffers@.len() as int, f);
    assert(spec_admit(m)->Ok_0.1 == bind_buffers(k, e, k.buffers@)->Ok_0.map);
    assert(spec_admit(m2)->Ok_0.1 == bind_buffers(k2, e, k2.buffers@)->Ok_0.map);
}

/// User identifiers never reach the CUDA source: when `emit_cuda` succeeds on two
/// modules whose kernels differ by an injective renaming of their identifiers (values,
/// buffers, storages), the two artifacts hold the same source.
pub proof fn lemma_emitted_source_ignores_ids(
    m: Module,
    m2: Module,
    texts: Seq<Seq<char>>,
    runtime: Seq<char>,
    a: CudaArtifact,
    a2: CudaArtifact,
    f: spec_fn(Seq<char>) -> Seq<char>,
)
    requires
        injective(f),
        !has_error(spec_validate_cuda(m)) && emitted_artifact(m, texts, runtime, a),
        !has_error(spec_validate_cuda(m2)) && emitted_artifact(m2, texts, runtime, a2),
        renamed_kernel(m.kernels@[0], m2.kernels@[0], f),
    ensures
        a2.source@ == a.source@,
{
    lemma_cuda_agrees(m);
    lemma_admitted_shape(m);
    lemma_valid_views(m);
    lemma_admit_renamed(m, m2, f);
    lemma_source_ignores_ids(m.kernels@[0], m2.kernels@[0], spec_admit(m)->Ok_0.1, spec_admit(m2)->Ok_0.1, texts, runtime, f);
}

/// Emission can be asked of every module whose lines can be numbered: some literal
/// texts fit it (each constant written, say, as `0`), so that `emit_cuda` re-validates
/// any such module and fails exactly with its findings when they hold an error.
pub proof fn lemma_emission_can_fit(m: Module)
    requires
        m.kernels@.len() == 1 ==> m.kernels@[0].body@.len() <= (usize::MAX - 8) / 2,
    ensures
        exists|texts: Seq<Seq<char>>| #[trigger] emission_fits(m, texts),
{
    let n = if m.kernels@.len() == 1 {
        float_bits(m.kernels@[0].body@).len()
    } else {
        0
    };
    let texts = Seq::new(n, |i: int| seq!['0']);
    assert(emission_fits(m, texts));
}

/// The fixed pieces of a statement hold no line break, but for the one that ends it.
proof fn lemma_pieces()
    ensures
        no_break("    const uint64_t "@),
        no_break(" = static_cast<uint64_t>("@),
        no_break("    const "@),
        no_break(" "@),
        no_break(" = "@),
        no_break("    const float "@),
        no_break(" ? "@),
        no_break("["@),
        no_break("] : "@),
        no_break("    if ("@),
        no_break(") { "@),
        no_break("] = "@),
        no_break("ULL"@),
        no_break("true"@),
        no_break("false"@),
        no_break("static_cast<float>("@),
        no_break(")"@),
        no_break("v"@),
        no_break("p"@),
        no_break("threadIdx.x"@),
        no_break("blockIdx.x"@),
        no_break("blockDim.x"@),
        no_break("gridDim.x"@),
        no_break("+"@),
        no_break("-"@),
        no_break("*"@),
        no_break("/"@),
        no_break("<"@),
        no_break("=="@),
        no_break("&&"@),
        no_break("||"@),
        no_break("uint64_t"@),
        no_break("bool"@),
        no_break("float*"@),
        no_break("const float*"@),
        no_break("float"@),
        no_break("    // schedule node "@),
        no_break(", "@),
        no_break("extern \"C\" __global__ void xir_kernel_0("@),
        newline_count(");\n"@) == 1 && ");\n"@.last() == '\n' && no_break(");\n"@.drop_last()),
        newline_count(";\n"@) == 1 && ";\n"@.last() == '\n' && no_break(";\n"@.drop_last()),
        newline_count("; }\n"@) == 1 && "; }\n"@.last() == '\n' && no_break("; }\n"@.drop_last()),
        newline_count("    return;\n"@) == 1 && "    return;\n"@.last() == '\n' && no_break("    return;\n"@.drop_last()),
        newline_count("\n"@) == 1 && "\n"@.last() == '\n' && no_break("\n"@.drop_last()),
        newline_count(") {\n"@) == 1 && ") {\n"@.last() == '\n' && no_break(") {\n"@.drop_last()),
{
    reveal_strlit("    const uint64_t ");
    reveal_strlit(" = static_cast<uint64_t>(");
    reveal_strlit("    const ");
    reveal_strlit(" ");
    reveal_strlit(" = ");
    reveal_strlit("    const float ");
    reveal_strlit(" ? ");
    reveal_strlit("[");
    reveal_strlit("] : ");
    reveal_strlit("    if (");
    reveal_strlit(") { ");
    reveal_strlit("] = ");
    reveal_strlit("ULL");
    reveal_strlit("true");
    reveal_strlit("false");
    reveal_strlit("static_cast<float>(");
    reveal_strlit(")");
    reveal_strlit("v");
    reveal_strlit("p");
    reveal_strlit("threadIdx.x");
    reveal_strlit("blockIdx.x");
    reveal_strlit("blockDim.x");
    reveal_strlit("gridDim.x");
    reveal_strlit("+");
    reveal_strlit("-");
    reveal_strlit("*");
    reveal_strlit("/");
    reveal_strlit("<");
    reveal_strlit("==");
    reveal_strlit("&&");
    reveal_strlit("||");
    reveal_strlit("uint64_t");
    reveal_strlit("bool");
    reveal_strlit("float*");
    reveal_strlit("const float*");
    reveal_strlit("float");
    reveal_strlit("    // schedule node ");
    reveal_strlit(", ");
    reveal_strlit("extern \"C\" __global__ void xir_kernel_0(");
    reveal_with_fuel(newline_count, 14);
    reveal_strlit(");\n");
    assert(newline_count(");\n"@.drop_last()) == 0);
    reveal_strlit(";\n");
    assert(newline_count(";\n"@.drop_last()) == 0);
    reveal_strlit("; }\n");
    assert(newline_count("; }\n"@.drop_last()) == 0);
    reveal_strlit("    return;\n");
    assert(newline_count("    return;\n"@.drop_last()) == 0);
    reveal_strlit("\n");
    assert(newline_count("\n"@.drop_last()) == 0);
    reveal_strlit(") {\n");
    assert(newline_count(") {\n"@.drop_last()) == 0);
}

proof fn lemma_header_lines()
    ensures
        newline_count(header_text()) == 6,
        header_text().last() == '\n',
{
    lemma_pieces();
    reveal_strlit("// Generated by XIR. Do not edit; regenerate from the DSL.");
    lemma_newline_count_zero("// Generated by XIR. Do not edit; regenerate from the DSL."@);
    reveal_strlit("#include <cuda_runtime.h>");
    lemma_newline_count_zero("#include <cuda_runtime.h>"@);
    reveal_strlit("#include <cstdint>");
    lemma_newline_count_zero("#include <cstdint>"@);
    reveal_strlit("#include <cstdio>");
    lemma_newline_count_zero("#include <cstdio>"@);
    reveal_strlit("#include <limits>");
    lemma_newline_count_zero("#include <limits>"@);
    let a = "// Generated by XIR. Do not edit; regenerate from the DSL."@;
    lemma_newline_count_add(a, "\n"@);
    let a = a + "\n"@;
    lemma_newline_count_add(a, "#include <cuda_runtime.h>"@);
    let a = a + "#include <cuda_runtime.h>"@;
    lemma_newline_count_add(a, "\n"@);
    let a = a + "\n"@;
    lemma_newline_count_add(a, "#include <cstdint>"@);
    let a = a + "#include <cstdint>"@;
    lemma_newline_count_add(a, "\n"@);
    let a = a + "\n"@;
    lemma_newline_count_add(a, "#include <cstdio>"@);
    let a = a + "#include <cstdio>"@;
    lemma_newline_count_add(a, "\n"@);
    let a = a + "\n"@;
    lemma_newline_count_add(a, "#include <limits>"@);
    let a = a + "#include <limits>"@;
    lemma_newline_count_add(a, "\n"@);
    let a = a + "\n"@;
    lemma_newline_count_add(a, "\n"@);
    let a = a + "\n"@;
}

proof fn lemma_number_name(prefix: Seq<char>, n: nat)
    requires
        no_break(prefix),
    ensures
        no_break(prefix + decimal(n)),
{
    lemma_decimal_one_line(n);
    lemma_newline_count_zero(decimal(n));
}

/// The C name of a value holds no line break.
proof fn lemma_name_one_line(k: Kernel, x: Seq<char>, p: int)
    ensures
        no_break(name_text(name_in_scope(k, x, p))),
    decreases p + 1,
{
    lemma_pieces();
    if p < 0 {
        match param_position(k.params@, x, k.params@.len() as int) {
            Some(i) => lemma_number_name("p"@, i as nat),
            None => {},
        }
    } else if has_key(k.body@[p].kind.result_defs(), x) {
        lemma_number_name("v"@, p as nat);
    } else {
        lemma_name_one_line(k, x, p - 1);
    }
}

/// A text that holds no line break, followed by one that ends with its only one, is
/// one line.
proof fn lemma_line_end(x: Seq<char>, l: Seq<char>)
    requires
        no_break(x),
        newline_count(l) == 1,
        l.last() == '\n',
    ensures
        newline_count(x + l) == 1,
        (x + l).last() == '\n',
{
    lemma_newline_count_zero(x);
    lemma_newline_count_add(x, l);
}

/// The statement of an emitted node is one line, ended by its line break.
proof fn lemma_statement_line(k: Kernel, map: Seq<(BufferId, usize)>, texts: Seq<Seq<char>>, p: int)
    requires
        0 <= p < k.body@.len(),
        emitted_node(k.body@[p]),
        forall|i: int| 0 <= i < texts.len() ==> no_break(#[trigger] texts[i]),
        k.body@[p].kind matches ScheduleNodeKind::Constant { value: Literal::Float(_), .. } ==> floats_before(k.body@, p) < texts.len(),
    ensures
        newline_count(statement_text(k, map, texts, p)) == 1,
        statement_text(k, map, texts, p).last() == '\n',
{
    lemma_pieces();
    lemma_number_name("v"@, p as nat);
    let n = k.body@[p];
    match n.kind {
        ScheduleNodeKind::LaunchIndex { builtin, .. } => {
            lemma_line_end("    const uint64_t "@ + value_name(p) + " = static_cast<uint64_t>("@ + builtin_text(builtin), ");\n"@);
        },
        ScheduleNodeKind::Constant { value, result } => {
            match value {
                Literal::Index(v) => lemma_number_name(seq![], v as nat),
                Literal::Float(_) => {
                    assert(no_break(texts[floats_before(k.body@, p)]));
                },
                _ => {},
            }
            assert(seq![] + decimal(0) =~= decimal(0));
            lemma_line_end(
                "    const "@ + c_type_name(result.ty@) + " "@ + value_name(p) + " = "@ + literal_text(
                    value,
                    texts,
                    floats_before(k.body@, p),
                ),
                ";\n"@,
            );
        },
        ScheduleNodeKind::Binary { op, lhs, rhs, result } => {
            lemma_name_one_line(k, lhs@, p);
            lemma_name_one_line(k, rhs@, p);
            lemma_line_end(
                "    const "@ + c_type_name(result.ty@) + " "@ + value_name(p) + " = "@ + name_text(name_in_scope(k, lhs@, p))
                    + " "@ + operator_text(op) + " "@ + name_text(name_in_scope(k, rhs@, p)),
                ";\n"@,
            );
        },
        ScheduleNodeKind::Load { source, indices, mask, masked_value, .. } => {
            lemma_name_one_line(k, mask@, p);
            lemma_name_one_line(k, masked_value@, p);
            lemma_name_one_line(k, indices@[0]@, p);
            match get(map, source.buffer_of()@) {
                Some(q) => lemma_number_name("p"@, q as nat),
                None => {},
            }
            lemma_line_end(
                "    const float "@ + value_name(p) + " = "@ + name_text(name_in_scope(k, mask@, p)) + " ? "@ + memory_text(
                    map,
                    source,
                ) + "["@ + name_text(name_in_scope(k, indices@[0]@, p)) + "] : "@ + name_text(
                    name_in_scope(k, masked_value@, p),
                ),
                ";\n"@,
            );
        },
        ScheduleNodeKind::Store { destination, indices, value, mask } => {
            lemma_name_one_line(k, mask@, p);
            lemma_name_one_line(k, value@, p);
            lemma_name_one_line(k, indices@[0]@, p);
            match get(map, destination.buffer_of()@) {
                Some(q) => lemma_number_name("p"@, q as nat),
                None => {},
            }
            lemma_line_end(
                "    if ("@ + name_text(name_in_scope(k, mask@, p)) + ") { "@ + memory_text(map, destination) + "["@
                    + name_text(name_in_scope(k, indices@[0]@, p)) + "] = "@ + name_text(name_in_scope(k, value@, p)),
                "; }\n"@,
            );
        },
        _ => {
            assert(seq![] + "    return;\n"@ =~= "    return;\n"@);
            lemma_line_end(seq![], "    return;\n"@);
        },
    }
}

proof fn lemma_join_one_line(items: Seq<Seq<char>>)
    requires
        forall|i: int| 0 <= i < items.len() ==> no_break(#[trigger] items[i]),
    ensures
        no_break(join(items)),
    decreases items.len(),
{
    lemma_pieces();
    if items.len() > 1 {
        lemma_join_one_line(items.drop_last());
        assert(no_break(items[items.len() - 1]));
    } else if items.len() == 1 {
        assert(no_break(items[0]));
    }
}

proof fn lemma_signature_line(params: Seq<ValueDef>)
    ensures
        newline_count(signature_text(params)) == 1,
        signature_text(params).last() == '\n',
{
    lemma_pieces();
    let items = param_decls(params);
    assert forall|i: int| 0 <= i < items.len() implies no_break(#[trigger] items[i]) by {
        lemma_number_name("p"@, i as nat);
    }
    lemma_join_one_line(items);
    lemma_line_end("extern \"C\" __global__ void xir_kernel_0("@ + join(items), ") {\n"@);
}

/// The first `n` nodes take two lines each.
proof fn lemma_body_lines(k: Kernel, map: Seq<(BufferId, usize)>, texts: Seq<Seq<char>>, n: int)
    requires
        0 <= n <= k.body@.len(),
        forall|q: int| 0 <= q < k.body@.len() ==> emitted_node(#[trigger] k.body@[q]),
        forall|i: int| 0 <= i < texts.len() ==> no_break(#[trigger] texts[i]),
        texts.len() == float_bits(k.body@).len(),
    ensures
        newline_count(body_text(k, map, texts, n)) == 2 * n,
        n > 0 ==> body_text(k, map, texts, n).last() == '\n',
    decreases n,
{
    if n > 0 {
        lemma_body_lines(k, map, texts, n - 1);
        let q = n - 1;
        lemma_float_step(k.body@, q);
        lemma_float_prefix(k.body@, q + 1);
        assert(emitted_node(k.body@[q]));
        lemma_statement_line(k, map, texts, q);
        lemma_pieces();
        lemma_number_name("    // schedule node "@, q as nat);
        let c = "    // schedule node "@ + decimal(q as nat);
        lemma_line_end(c, "\n"@);
        let st = statement_text(k, map, texts, q);
        lemma_newline_count_add(c + "\n"@, st);
        assert(st.len() > 0) by {
            if st.len() == 0 {
                assert(st =~= Seq::<char>::empty());
            }
        }
        let b = body_text(k, map, texts, q);
        lemma_newline_count_add(b, node_text(k, map, texts, q));
        assert((b + node_text(k, map, texts, q)).last() == st.last());
    }
}

/// The text before node `p` and the text from node `p` on.
proof fn lemma_body_split(k: Kernel, map: Seq<(BufferId, usize)>, texts: Seq<Seq<char>>, p: int, n: int) -> (rest: Seq<char>)
    requires
        0 <= p <= n,
    ensures
        body_text(k, map, texts, n) == body_text(k, map, texts, p) + rest,
    decreases n,
{
    if n == p {
        assert(body_text(k, map, texts, n) + Seq::<char>::empty() =~= body_text(k, map, texts, n));
        Seq::<char>::empty()
    } else {
        let r = lemma_body_split(k, map, texts, p, n - 1);
        assert(body_text(k, map, texts, n) =~= body_text(k, map, texts, p) + (r + node_text(k, map, texts, n - 1)));
        r + node_text(k, map, texts, n - 1)
    }
}

/// The comment that opens the statement of node `p`.
pub open spec fn comment_text(p: int) -> Seq<char> {
    "    // schedule node "@ + decimal(p as nat)
}

pub open spec fn splits(src: Seq<char>, pre: Seq<char>, text: Seq<char>, rest: Seq<char>) -> bool {
    src == pre + text + "\n"@ + rest
}

/// Line `line` of `src`, counted from 1, reads exactly `text`.
pub open spec fn line_reads(src: Seq<char>, line: int, text: Seq<char>) -> bool {
    &&& no_break(text)
    &&& exists|pre: Seq<char>, rest: Seq<char>|
        #[trigger] splits(src, pre, text, rest) && newline_count(pre) + 1 == line && (pre.len() == 0 || pre.last() == '\n')
}

proof fn lemma_regroup(
    a: Seq<char>,
    g: Seq<char>,
    b: Seq<char>,
    c: Seq<char>,
    nl: Seq<char>,
    st: Seq<char>,
    r: Seq<char>,
    d: Seq<char>,
    e: Seq<char>,
    w: Seq<char>,
)
    ensures
        a + g + (b + (c + nl + st) + r) + d + e + w == (a + g + b) + c + nl + (st + r + d + e + w),
{
    assert(a + g + (b + (c + nl + st) + r) + d + e + w =~= (a + g + b) + c + nl + (st + r + d + e + w));
}

/// In the source of an admitted kernel, line `8 + 2p` is the comment that opens node `p`.
proof fn lemma_source_line(k: Kernel, map: Seq<(BufferId, usize)>, texts: Seq<Seq<char>>, runtime: Seq<char>, p: int)
    requires
        forall|q: int| 0 <= q < k.body@.len() ==> emitted_node(#[trigger] k.body@[q]),
        forall|i: int| 0 <= i < texts.len() ==> no_break(#[trigger] texts[i]),
        texts.len() == float_bits(k.body@).len(),
        0 <= p < k.body@.len(),
    ensures
        line_reads(cuda_source(k, map, texts, runtime), 8 + 2 * p, comment_text(p)),
{
    let n = k.body@.len() as int;
    reveal_strlit("    // schedule node ");
    lemma_number_name("    // schedule node "@, p as nat);
    lemma_header_lines();
    lemma_signature_line(k.params@);
    lemma_body_lines(k, map, texts, p);
    let r = lemma_body_split(k, map, texts, p + 1, n);
    let h = header_text() + signature_text(k.params@);
    lemma_newline_count_add(header_text(), signature_text(k.params@));
    let b = body_text(k, map, texts, p);
    let pre = h + b;
    lemma_newline_count_add(h, b);
    let st = statement_text(k, map, texts, p);
    let w = wrapper_text(k, map);
    let rest = st + r + "}\n\n"@ + runtime + w;
    let src = cuda_source(k, map, texts, runtime);
    assert(body_text(k, map, texts, p + 1) == b + (comment_text(p) + "\n"@ + st));
    lemma_regroup(header_text(), signature_text(k.params@), b, comment_text(p), "\n"@, st, r, "}\n\n"@, runtime, w);
    assert(splits(src, pre, comment_text(p), rest));
    assert(signature_text(k.params@).len() > 0) by {
        if signature_text(k.params@).len() == 0 {
            assert(signature_text(k.params@) =~= Seq::<char>::empty());
        }
    }
    if p > 0 {
        assert(b.len() > 0) by {
            if b.len() == 0 {
                assert(b =~= Seq::<char>::empty());
            }
        }
        assert(pre.last() == b.last());
    } else {
        assert(b == Seq::<char>::empty());
        assert(pre =~= h);
        assert(h.last() == signature_text(k.params@).last());
    }
}

proof fn lemma_source_lines(k: Kernel, map: Seq<(BufferId, usize)>, texts: Seq<Seq<char>>, runtime: Seq<char>)
    requires
        forall|q: int| 0 <= q < k.body@.len() ==> emitted_node(#[trigger] k.body@[q]),
        forall|i: int| 0 <= i < texts.len() ==> no_break(#[trigger] texts[i]),
        texts.len() == float_bits(k.body@).len(),
    ensures
        forall|p: int| 0 <= p < k.body@.len() ==> line_reads(cuda_source(k, map, texts, runtime), 8 + 2 * p, #[trigger] comment_text(p)),
{
    assert forall|p: int| 0 <= p < k.body@.len() implies line_reads(cuda_source(k, map, texts, runtime), 8 + 2 * p, #[trigger] comment_text(p)) by {
        lemma_source_line(k, map, texts, runtime, p);
    }
}

} // verus!
