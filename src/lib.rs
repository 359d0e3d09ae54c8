//! A small template renderer: `{{ NAME }}` substitutions, `{% if NAME %}` blocks
//! and `{# ... #}` comments, filled in from a string-to-string mapping.

mod mappings;
mod parser;
pub mod grammar;
mod interpolate;
pub mod laws;
mod locality;
mod tree;

pub use interpolate::{
    interpolate, interpolation, EnvjaError, Fault, InterpolateError, RenderError, TemplateFault,
};
pub use mappings::Mappings;
pub use parser::{EnvjaParser, SyntaxError};
pub use tree::{Node, Pair, Rule};
