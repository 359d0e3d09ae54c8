//! Parse trees and their models.

use vstd::prelude::*;

verus! {

/// The rules of the template grammar; each node of a parse tree is tagged with one.
#[allow(non_camel_case_types)]
#[derive(Clone, Copy, Debug, PartialEq, Eq, Hash, Structural)]
pub enum Rule {
    /// End of input.
    EOI,
    /// A whole document: compound content up to the end of input.
    doc,
    /// One or more statements, expressions, comments and runs of text.
    compound,
    /// A statement; the only statement is a conditional block.
    stmt,
    /// `{% if NAME %}`, its body, `{% endif %}`.
    if_stmt,
    /// `{% if NAME %}`.
    if_stmt_start,
    /// `{% endif %}`.
    if_stmt_end,
    /// `{{ NAME }}`.
    expr,
    /// `{# ... #}`.
    comm,
    /// Literal text.
    text,
    /// A variable name.
    ident,
}

/// A node of a parse tree: its rule, the text it spans and its children.
#[derive(Debug)]
pub struct Pair {
    pub rule: Rule,
    pub text: String,
    pub inner: Vec<Pair>,
}

/// The mathematical model of a parse tree node.
pub struct Node {
    pub rule: Rule,
    pub text: Seq<char>,
    pub inner: Seq<Node>,
}

impl Pair {
    /// The node's model, children included.
    pub open spec fn view(&self) -> Node
        decreases self,
    {
        Node {
            rule: self.rule,
            text: self.text@,
            inner: Seq::new(
                self.inner.len() as nat,
                |i: int|
                    if 0 <= i < self.inner.len() {
                        self.inner[i].view()
                    } else {
                        arbitrary()
                    },
            ),
        }
    }
}

/// The models of a sequence of parse tree nodes.
pub open spec fn nodes_of(v: Seq<Pair>) -> Seq<Node> {
    Seq::new(v.len(), |i: int| v[i]@)
}

} // verus!
