//! Typed schedule IR and conservative construction/protocol validation.
pub mod lookup;
pub mod text;
pub mod types;
pub mod diagnostic;
pub mod target;
pub mod ast;
pub mod layout;
pub mod render;
pub mod effects;
pub mod checker;
pub mod declarations;
pub mod access;
pub mod nodes;
pub mod region;
pub mod verify;
pub mod cuda;
pub mod emit;
pub mod builder;
pub mod findings;

pub use ast::{Kernel, Module};
pub use builder::ModuleBuilder;
pub use diagnostic::{Diagnostic, DiagnosticBag, DiagnosticCode, DiagnosticSeverity, SourceSpan};
pub use target::TargetRequest;
pub use verify::{validate_module, verify_module, CheckStatus, VerificationReport};
