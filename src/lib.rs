//! Finds the type aliases of a Haskell module whose right-hand type has the
//! shape of a concrete target type, where the alias's own type variables may
//! stand for the target's concrete types, and reports each with its
//! variable bindings and its instantiated name.
//!
//! The library works on a parsed module, given as a [`SyntaxNode`] tree; the
//! parser itself stays outside.
pub mod alias;
pub mod error;
pub mod laws;
pub mod rename;
pub mod shape;
pub mod syntax;
pub mod terms;
pub mod types;
pub mod unify;

pub use alias::{alias_replacement, create_target, signature_text};
pub use error::AliasError;
pub use rename::{extract_header, instantiate_name, substitute_variables};
pub use shape::{pattern_of, Pattern};
pub use syntax::{Position, Range, SyntaxNode};
pub use terms::{get_terms, Term};
pub use types::{Match, RequestAlias, ResponseMatches, Target};
pub use unify::{check_variable_consistency, BindingMap};
