//! The compiler core of a Datalog database: it turns the body of each rule
//! of a stratified program into a plan of relational operators.
//!
//! A plan ([`RelAlgebra`]) is a tree of scans, joins, filters, unifications
//! and reorderings. [`Compiler::compile_magic_rule_body`] folds the atoms of
//! a body into such a tree, pushes each filter as far down as the variables
//! it reads allow, marks the bindings that nothing above an operator needs,
//! and resolves every variable of an expression to a position in the row
//! that its operator receives. [`Compiler::stratified_magic_compile`] does
//! so for every rule of every stratum, and [`explain_compiled`] lays the
//! result out as a table.
//!
//! Every executable function is verified against a contract over the
//! mathematical value of its arguments: a plan stands for a
//! [`ra::SpecPlan`], a list of variables for a sequence of
//! [`symb::SpecSymbol`]. The modules whose names end in `_laws` state and
//! prove what holds of every plan that the compiler builds:
//! `compile_laws` of the plan of one rule body, `filter_laws`,
//! `prune_laws` and `resolve_laws` of the three passes over a plan,
//! `shape_laws` of the shape of a plan, `explain_laws` of the table, and
//! `program_laws` of a whole compiled program.

pub mod compile;
pub mod compile_laws;
pub mod compiled;
pub mod error;
pub mod explain;
pub mod explain_laws;
pub mod expr;
pub mod filter_laws;
pub mod fixed_rule;
pub mod join_kind;
pub mod magic;
pub mod program;
pub mod program_laws;
pub mod prune_laws;
pub mod ra;
pub mod registry;
pub mod resolve_laws;
pub mod rows;
pub mod schema;
pub mod shape_laws;
pub mod strata;
pub mod symb;
pub mod symbol_set;
pub mod text;
pub mod translate;
pub mod value;

pub use crate::compile::IndexPositionUse;
pub use crate::compiled::{CompiledRule, CompiledRuleSet, ContainedRuleMultiplicity};
pub use crate::error::CompileError;
pub use crate::explain::explain_compiled;
pub use crate::fixed_rule::{FixedRule, FixedRuleInputRelation, RuleNotFoundError, SimpleFixedRule};
pub use crate::ra::{InlineFixedRA, InnerJoin, RelAlgebra, StoredRA, TempStoreRA};
pub use crate::registry::Compiler;
pub use crate::rows::{DbManifest, NamedRows};
pub use crate::schema::{ColType, NullableColType};
pub use crate::strata::CompiledProgram;
pub use crate::translate::{translate_program, translate_relation, DiffDaffProgram, DiffdafRelation, DiffdafRule};
