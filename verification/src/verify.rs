//! Conservative validation of the implemented structured subset.
//! A successful construction check is not a proof of target lowering or GPU correctness.
use crate::ast::{Kernel, Module, SCHEMA_VERSION};
use crate::checker::{Checker, Context, State, empty_ctx};
use crate::cuda::{admit_cuda, spec_admit};
use crate::findings::lemma_valid_views;
use crate::declarations::spec_declarations;
use crate::diagnostic::{Diagnostic, DiagnosticBag, DiagnosticCode, DiagnosticV, has_error, plain_error};
use crate::effects::{NodeEffects, derive_effects, effects_view, module_effects};
use crate::lookup::{contains, has_key, with_key};
use crate::nodes::{Ending, EndingV};
use crate::region::spec_region;
use crate::text::{concat, decimal, push_decimal, text};
use crate::types::NodeId;
use vstd::prelude::*;

verus! {

#[derive(Clone, Copy, Debug, PartialEq, Eq, Structural)]
pub enum CheckStatus {
    Pass,
    Fail,
    Unknown,
}

pub struct VerificationReport {
    pub status: CheckStatus,
    pub construction: CheckStatus,
    pub target: CheckStatus,
    pub module_revision: u64,
    pub diagnostics: Vec<Diagnostic>,
    pub effects: Vec<NodeEffects>,
    pub coverage_limits: Vec<String>,
}

pub open spec fn schema_message(version: u32) -> Seq<char> {
    "expected schema "@ + decimal(SCHEMA_VERSION as nat) + ", got "@ + decimal(version as nat)
}

/// The checker's state at the start of a kernel: findings and node IDs carry over from
/// earlier kernels; value, event and ticket IDs and executed pipelines start empty.
pub open spec fn kernel_start(bag: Seq<DiagnosticV>, node_ids: Seq<NodeId>) -> State {
    State { bag, node_ids, definitions: seq![], event_ids: seq![], ticket_ids: seq![], executed: seq![] }
}

/// One kernel: a nonempty name new to the module, then its declarations, then its body,
/// which must end with `KernelReturn`.
#[verifier::opaque]
pub open spec fn spec_kernel(bag: Seq<DiagnosticV>, node_ids: Seq<NodeId>, names: Seq<String>, k: Kernel) -> (
    Seq<DiagnosticV>,
    Seq<NodeId>,
) {
    let bag1 = if k.name@.len() == 0 || has_key(names, k.name@) {
        bag.push(plain_error(DiagnosticCode::DuplicateSymbol, "kernel names must be nonempty and unique"@))
    } else {
        bag
    };
    let (s1, c1) = spec_declarations(kernel_start(bag1, node_ids), empty_ctx(), k);
    let (s2, _) = spec_region(s1, c1, k, k.body@, EndingV::Kernel);
    (s2.bag, s2.node_ids)
}

/// The kernels of `prefix`, in order: the findings, the node IDs seen, and the kernel
/// names seen.
pub open spec fn spec_kernels(bag: Seq<DiagnosticV>, prefix: Seq<Kernel>) -> (Seq<DiagnosticV>, Seq<NodeId>, Seq<String>)
    decreases prefix.len(),
{
    if prefix.len() == 0 {
        (bag, seq![], seq![])
    } else {
        let (b0, n0, names0) = spec_kernels(bag, prefix.drop_last());
        let k = prefix.last();
        let (b1, n1) = spec_kernel(b0, n0, names0, k);
        (b1, n1, if k.name@.len() == 0 {
            names0
        } else {
            with_key(names0, k.name)
        })
    }
}

/// The findings of the module header: its schema version, its name, its target.
pub open spec fn spec_header(m: Module) -> Seq<DiagnosticV> {
    let b1 = if m.schema_version != SCHEMA_VERSION {
        seq![plain_error(DiagnosticCode::UnsupportedSchema, schema_message(m.schema_version))]
    } else {
        seq![]
    };
    let b2 = if m.name@.len() == 0 {
        b1.push(plain_error(DiagnosticCode::InvalidType, "module name cannot be empty"@))
    } else {
        b1
    };
    let b3 = if !(m.target_request.names_musa_mp31() || m.target_request.names_cuda_sm120()) {
        b2.push(plain_error(DiagnosticCode::UnsupportedCapability, "unknown exact target; no fallback is permitted"@))
    } else {
        b2
    };
    b3
}

/// The findings of a module: those of its header, then those of each kernel.
pub open spec fn spec_validate(m: Module) -> Seq<DiagnosticV> {
    spec_kernels(spec_header(m), m.kernels@).0
}

/// The module is admitted to the CUDA elementwise subset.
pub open spec fn cuda_admitted(m: Module) -> bool {
    spec_admit(m) is Ok
}

/// The findings of target admission: those of construction, then, when construction
/// found no error, the admission rejection, if any.
pub open spec fn spec_validate_cuda(m: Module) -> Seq<DiagnosticV> {
    let b = spec_validate(m);
    if has_error(b) {
        b
    } else {
        match spec_admit(m) {
            Err(d) => b.push(d),
            Ok(_) => b,
        }
    }
}

/// What the static report does not cover.
pub open spec fn coverage_limits() -> Seq<Seq<char>> {
    seq![
        "Target instruction, representation and synchronization adapters are not implemented."@,
        "Dynamic bounds, external alias/extent guards and cross-thread access footprints are not fully verified."@,
        "No MUSA lowering, toolchain compilation, runtime validation or performance calibration has been performed."@,
    ]
}

pub open spec fn texts(s: Seq<String>) -> Seq<Seq<char>> {
    s.map_values(|t: String| t@)
}

pub open spec fn diagnostics_view(s: Seq<Diagnostic>) -> Seq<DiagnosticV> {
    s.map_values(|d: Diagnostic| d@)
}

fn header(module: &Module) -> (r: DiagnosticBag)
    ensures
        r@ == spec_header(*module),
{
    let mut bag = DiagnosticBag::new();
    if module.schema_version != SCHEMA_VERSION {
        let m = push_decimal(text("expected schema "), SCHEMA_VERSION as u64);
        let m = push_decimal(concat(m, ", got "), module.schema_version as u64);
        bag.push(Diagnostic::error(DiagnosticCode::UnsupportedSchema, m));
    }
    if module.name.as_str().is_empty() {
        bag.push(Diagnostic::error(DiagnosticCode::InvalidType, text("module name cannot be empty")));
    }
    if !module.target_request.is_known() {
        bag.push(Diagnostic::error(DiagnosticCode::UnsupportedCapability, text("unknown exact target; no fallback is permitted")));
    }
    assert(bag@ =~= spec_header(*module));
    bag
}

fn check_kernel(kernel: &Kernel, bag: DiagnosticBag, node_ids: Vec<NodeId>, names: &Vec<String>) -> (r: (DiagnosticBag, Vec<NodeId>))
    ensures
        (r.0@, r.1@) == spec_kernel(bag@, node_ids@, names@, *kernel),
{
    reveal(spec_kernel);
    let mut bag = bag;
    if kernel.name.as_str().is_empty() || contains(names, &kernel.name) {
        bag.push(Diagnostic::error(DiagnosticCode::DuplicateSymbol, text("kernel names must be nonempty and unique")));
    }
    let mut checker = Checker {
        kernel,
        bag,
        node_ids,
        definitions: Vec::new(),
        event_definitions: Vec::new(),
        ticket_definitions: Vec::new(),
        executed_pipelines: Vec::new(),
    };
    assert(checker@ == kernel_start(checker.bag@, checker.node_ids@));
    let mut ctx = Context::new();
    checker.declarations(&mut ctx);
    checker.region(&kernel.body, &mut ctx, &Ending::Kernel);
    (checker.bag, checker.node_ids)
}

/// Checks the whole module and returns every finding, in order.
pub fn validate_module(module: &Module) -> (r: DiagnosticBag)
    ensures
        r@ == spec_validate(*module),
{
    let mut bag = header(module);
    let ghost b3 = bag@;
    let mut node_ids: Vec<NodeId> = Vec::new();
    let mut names: Vec<String> = Vec::new();
    let mut i: usize = 0;
    while i < module.kernels.len()
        invariant
            i <= module.kernels@.len(),
            (bag@, node_ids@, names@) == spec_kernels(b3, module.kernels@.take(i as int)),
        decreases module.kernels@.len() - i,
    {
        let kernel = &module.kernels[i];
        proof {
            assert(module.kernels@.take(i + 1).drop_last() =~= module.kernels@.take(i as int));
            assert(module.kernels@.take(i + 1).last() == *kernel);
        }
        let (b, n) = check_kernel(kernel, bag, node_ids, &names);
        bag = b;
        node_ids = n;
        if !kernel.name.as_str().is_empty() {
            crate::lookup::add_key(&mut names, kernel.name.clone());
        }
        i = i + 1;
    }
    assert(module.kernels@.take(module.kernels@.len() as int) =~= module.kernels@);
    bag
}

/// Construction findings, then target admission when construction found no error.
pub fn validate_cuda(module: &Module) -> (r: DiagnosticBag)
    ensures
        r@ == spec_validate_cuda(*module),
{
    let mut diagnostics = validate_module(module);
    if !diagnostics.has_errors() {
        proof {
            if module.kernels@.len() == 1 {
                lemma_valid_views(*module);
            }
        }
        match admit_cuda(module) {
            Err(error) => diagnostics.push(error),
            Ok(_) => {},
        }
    }
    diagnostics
}

fn limits() -> (r: Vec<String>)
    ensures
        texts(r@) == coverage_limits(),
{
    let mut r: Vec<String> = Vec::new();
    r.push(text("Target instruction, representation and synchronization adapters are not implemented."));
    r.push(text("Dynamic bounds, external alias/extent guards and cross-thread access footprints are not fully verified."));
    r.push(text("No MUSA lowering, toolchain compilation, runtime validation or performance calibration has been performed."));
    assert(texts(r@) =~= coverage_limits());
    r
}

/// The report of a module: construction passes exactly when validation finds no error;
/// the target passes only for a module admitted to the CUDA subset; the overall status
/// is never `Pass`, since no compilation or device evidence is part of a static report.
pub fn verify_module(module: &Module) -> (r: VerificationReport)
    ensures
        diagnostics_view(r.diagnostics@) == spec_validate(*module),
        r.construction == (if has_error(spec_validate(*module)) {
            CheckStatus::Fail
        } else {
            CheckStatus::Pass
        }),
        r.status == (if has_error(spec_validate(*module)) {
            CheckStatus::Fail
        } else {
            CheckStatus::Unknown
        }),
        r.target == (if !has_error(spec_validate(*module)) && cuda_admitted(*module) {
            CheckStatus::Pass
        } else {
            CheckStatus::Unknown
        }),
        r.module_revision == module.module_revision,
        effects_view(r.effects@) == module_effects(module.kernels@),
        texts(r.coverage_limits@) == coverage_limits(),
{
    let diagnostics = validate_module(module);
    let failed = diagnostics.has_errors();
    let admitted = if !failed {
        proof {
            if module.kernels@.len() == 1 {
                lemma_valid_views(*module);
            }
        }
        match admit_cuda(module) {
            Ok(_) => true,
            Err(_) => false,
        }
    } else {
        false
    };
    VerificationReport {
        status: if failed {
            CheckStatus::Fail
        } else {
            CheckStatus::Unknown
        },
        construction: if failed {
            CheckStatus::Fail
        } else {
            CheckStatus::Pass
        },
        target: if admitted {
            CheckStatus::Pass
        } else {
            CheckStatus::Unknown
        },
        module_revision: module.module_revision,
        diagnostics: diagnostics.diagnostics,
        effects: derive_effects(module),
        coverage_limits: limits(),
    }
}


/// Target admission agrees with the report: `validate_cuda` finds no error exactly when
/// construction passes and the module is admitted to the CUDA subset, that is, exactly
/// when `verify_module` reports the target as passing; and its findings begin with those
/// of construction.
pub proof fn lemma_cuda_agrees(m: Module)
    ensures
        !has_error(spec_validate_cuda(m)) <==> (!has_error(spec_validate(m)) && cuda_admitted(m)),
        spec_validate(m).is_prefix_of(spec_validate_cuda(m)),
{
    let b = spec_validate(m);
    assert(b.is_prefix_of(b)) by {
        assert(b.subrange(0, b.len() as int) =~= b);
    }
    if !has_error(b) {
        if m.kernels@.len() == 1 {
            lemma_valid_views(m);
        }
        crate::cuda::lemma_admit_rejects(m);
        match spec_admit(m) {
            Err(d) => {
                assert(b.push(d)[b.len() as int] == d);
                assert(b.push(d).subrange(0, b.len() as int) =~= b);
            },
            Ok(_) => {},
        }
    }
}

} // verus!
