//! Compiling, composing, validating and versioning prompt templates.
//!
//! Templates hold `{{variable}}` placeholders and typed variables; the
//! composer and the compiler render several templates into one prompt under
//! an optional token budget; the validator reports common template issues;
//! versioned templates keep a history with section-level diffs.

pub mod compiler;
pub mod composer;
pub mod number;
pub mod strmap;
pub mod template;
pub mod text;
pub mod token_budget;
pub mod validator;
pub mod version;

pub use compiler::{CompileError, PromptCompiler};
pub use composer::{CompositionError, PipelineStage, PromptComposer};
pub use strmap::StrMap;
pub use template::{PromptTemplate, RenderError, Variable, VariableType};
pub use token_budget::{TokenBudget, TokenError};
pub use validator::{PromptValidator, ValidationError};
pub use version::{PromptVersion, SectionChange, VersionDiff};
