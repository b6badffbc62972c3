//! A push-based, fine-grained reactive core for user interfaces.
//!
//! A [`store::Store`] owns observable cells (signals). Computations over the
//! cells are written as [`expr::Expr`] trees, so the cells that one evaluation
//! reads are known exactly. A binding ties one facet of one DOM node to such a
//! computation; a write to a cell re-evaluates just the bindings that read it
//! and hands back the DOM calls to issue.

pub mod components;
pub mod dom;
pub mod expr;
pub mod laws;
pub mod model;
pub mod page;
pub mod store;
pub mod value;

pub use components::{progress_bar, ProgressBar};
pub use dom::{DomCall, Facet};
pub use expr::Expr;
pub use model::{Fault, Phase, Step, Writer};
pub use page::{app, App};
pub use store::{mount, Prop, Reader, Store};
pub use value::{Kind, Value};
