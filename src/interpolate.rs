//! Rendering parse trees against a mapping, and the model it is proved against.

use vstd::prelude::*;
use vstd::string::StringExecFns;

use crate::grammar::{parse_rule, SyntaxFault};
use crate::mappings::Mappings;
use crate::parser::{EnvjaParser, SyntaxError};
use crate::tree::{nodes_of, Node, Pair, Rule};

verus! {

/// An error met while rendering a parse tree: the rule of the offending node and
/// a message.
#[derive(Clone, Debug)]
pub struct InterpolateError {
    pub rule: Rule,
    pub msg: String,
}

impl InterpolateError {
    /// An error about a node of rule `rule`, with the message `msg`.
    pub fn new(rule: Rule, msg: String) -> (r: InterpolateError)
        ensures
            r.rule == rule,
            r.msg@ == msg@,
    {
        InterpolateError { rule, msg }
    }
}

/// Why rendering failed.
#[derive(Clone, Debug)]
pub enum RenderError {
    /// An `{{ NAME }}` whose name the mapping lacks.
    UnresolvedVariable(InterpolateError),
    /// A node whose rule cannot stand where it was found.
    StructuralError(InterpolateError),
}

/// The model of a rendering failure: its kind, rule and message.
pub enum Fault {
    Unresolved(Rule, Seq<char>),
    Malformed(Rule, Seq<char>),
}

impl RenderError {
    pub open spec fn view(&self) -> Fault {
        match self {
            RenderError::UnresolvedVariable(e) => Fault::Unresolved(e.rule, e.msg@),
            RenderError::StructuralError(e) => Fault::Malformed(e.rule, e.msg@),
        }
    }
}

pub open spec fn msg_unresolved(name: Seq<char>) -> Seq<char> {
    "No key '"@ + name + "' found for interpolation"@
}

pub open spec fn msg_if_start() -> Seq<char> {
    "Unexpected sub-rule for if_stmt_start found"@
}

pub open spec fn msg_if() -> Seq<char> {
    "Unexpected sub-rule for if_stmt found"@
}

pub open spec fn msg_stmt() -> Seq<char> {
    "Unexpected sub-rule for stmt found"@
}

pub open spec fn msg_expr() -> Seq<char> {
    "Unexpected sub-rule for expr found"@
}

pub open spec fn msg_compound() -> Seq<char> {
    "Unexpected sub-rule at compound found"@
}

pub open spec fn msg_top() -> Seq<char> {
    "Unexpected sub-rule at top-level found"@
}

/// `a` in front of the output of `r`, or the failure of `r`.
pub open spec fn prepend(a: Seq<char>, r: Result<Seq<char>, Fault>) -> Result<Seq<char>, Fault> {
    match r {
        Ok(b) => Ok(a + b),
        Err(f) => Err(f),
    }
}

/// The output of `first` followed by that of `rest`, failing at the first failure.
pub open spec fn then_render(
    first: Result<Seq<char>, Fault>,
    rest: Result<Seq<char>, Fault>,
) -> Result<Seq<char>, Fault> {
    match first {
        Ok(a) => prepend(a, rest),
        Err(f) => Err(f),
    }
}

/// A guard holds when its name is mapped to a non-empty value.
pub open spec fn truthy(m: Map<Seq<char>, Seq<char>>, name: Seq<char>) -> bool {
    m.contains_key(name) && m[name].len() > 0
}

/// Whether an `if` body is rendered, after the children of its start node from
/// `k` on, starting from `will`.
pub open spec fn guard_from(n: Node, k: int, will: bool, m: Map<Seq<char>, Seq<char>>) -> Result<bool, Fault>
    decreases n.inner.len() - k,
{
    if k < 0 || k >= n.inner.len() {
        Ok(will)
    } else if n.inner[k].rule == Rule::ident {
        guard_from(n, k + 1, truthy(m, n.inner[k].text), m)
    } else {
        Err(Fault::Malformed(n.inner[k].rule, msg_if_start()))
    }
}

/// The output of the children of an `if` statement from `k` on, when the body
/// is rendered iff `will`.
pub open spec fn render_if_from(n: Node, k: int, will: bool, m: Map<Seq<char>, Seq<char>>) -> Result<Seq<char>, Fault>
    decreases n, n.inner.len() - k,
{
    if k < 0 || k >= n.inner.len() {
        Ok(Seq::empty())
    } else {
        let c = n.inner[k];
        match c.rule {
            Rule::if_stmt_start => match guard_from(c, 0, will, m) {
                Ok(w) => render_if_from(n, k + 1, w, m),
                Err(f) => Err(f),
            },
            Rule::if_stmt_end => render_if_from(n, k + 1, will, m),
            Rule::compound => if will {
                then_render(render_compound_from(c, 0, m), render_if_from(n, k + 1, will, m))
            } else {
                render_if_from(n, k + 1, will, m)
            },
            _ => Err(Fault::Malformed(c.rule, msg_if())),
        }
    }
}

/// The output of the children of a statement from `k` on.
pub open spec fn render_stmt_from(n: Node, k: int, m: Map<Seq<char>, Seq<char>>) -> Result<Seq<char>, Fault>
    decreases n, n.inner.len() - k,
{
    if k < 0 || k >= n.inner.len() {
        Ok(Seq::empty())
    } else {
        let c = n.inner[k];
        if c.rule == Rule::if_stmt {
            then_render(render_if_from(c, 0, false, m), render_stmt_from(n, k + 1, m))
        } else {
            Err(Fault::Malformed(c.rule, msg_stmt()))
        }
    }
}

/// The output of the children of an expression from `k` on.
pub open spec fn render_expr_from(n: Node, k: int, m: Map<Seq<char>, Seq<char>>) -> Result<Seq<char>, Fault>
    decreases n.inner.len() - k,
{
    if k < 0 || k >= n.inner.len() {
        Ok(Seq::empty())
    } else {
        let c = n.inner[k];
        if c.rule == Rule::ident {
            if m.contains_key(c.text) {
                prepend(m[c.text], render_expr_from(n, k + 1, m))
            } else {
                Err(Fault::Unresolved(Rule::ident, msg_unresolved(c.text)))
            }
        } else {
            Err(Fault::Malformed(c.rule, msg_expr()))
        }
    }
}

/// The output of one child of a compound node.
pub open spec fn render_child(c: Node, m: Map<Seq<char>, Seq<char>>) -> Result<Seq<char>, Fault>
    decreases c, c.inner.len() + 1,
{
    match c.rule {
        Rule::stmt => render_stmt_from(c, 0, m),
        Rule::expr => render_expr_from(c, 0, m),
        Rule::comm => Ok(Seq::empty()),
        Rule::text => Ok(c.text),
        Rule::compound => render_compound_from(c, 0, m),
        _ => Err(Fault::Malformed(c.rule, msg_compound())),
    }
}

/// The output of the children of a compound node from `k` on.
pub open spec fn render_compound_from(n: Node, k: int, m: Map<Seq<char>, Seq<char>>) -> Result<Seq<char>, Fault>
    decreases n, n.inner.len() - k,
{
    if k < 0 || k >= n.inner.len() {
        Ok(Seq::empty())
    } else {
        then_render(render_child(n.inner[k], m), render_compound_from(n, k + 1, m))
    }
}

/// The output of the top-level nodes of a document from `k` on.
pub open spec fn render_top_from(s: Seq<Node>, k: int, m: Map<Seq<char>, Seq<char>>) -> Result<Seq<char>, Fault>
    decreases s.len() - k,
{
    if k < 0 || k >= s.len() {
        Ok(Seq::empty())
    } else {
        let c = s[k];
        match c.rule {
            Rule::compound => then_render(render_compound_from(c, 0, m), render_top_from(s, k + 1, m)),
            Rule::EOI => render_top_from(s, k + 1, m),
            _ => Err(Fault::Malformed(c.rule, msg_top())),
        }
    }
}

/// What a rendering step did to the buffer, given what the model says it renders.
pub open spec fn rendered(
    res: Result<Seq<char>, Fault>,
    before: Seq<char>,
    after: Seq<char>,
    r: Result<(), RenderError>,
) -> bool {
    match res {
        Ok(out) => r is Ok && after == before + out,
        Err(f) => r is Err && r->Err_0@ == f,
    }
}


proof fn lemma_prepend_step(acc: Seq<char>, a: Seq<char>, rest: Result<Seq<char>, Fault>)
    ensures
        prepend(acc, then_render(Ok(a), rest)) == prepend(acc + a, rest),
{
    if let Ok(b) = rest {
        assert((acc + a) + b =~= acc + (a + b));
    }
}

proof fn lemma_prepend_empty(acc: Seq<char>)
    ensures
        prepend(acc, Ok(Seq::empty())) == Ok::<Seq<char>, Fault>(acc),
{
    assert(acc + Seq::empty() =~= acc);
}

fn malformed(rule: Rule, msg: &str) -> (r: RenderError)
    ensures
        r@ == Fault::Malformed(rule, msg@),
{
    RenderError::StructuralError(InterpolateError::new(rule, String::from_str(msg)))
}

fn interpolate_if_stmt_impl(
    pair: &Pair,
    buffer: &mut String,
    mappings: &Mappings,
) -> (r: Result<(), RenderError>)
    ensures
        rendered(render_if_from(pair@, 0, false, mappings@), old(buffer)@, final(buffer)@, r),
    decreases pair,
{
    let ghost start = buffer@;
    let ghost mut acc = Seq::<char>::empty();
    let mut will_interpolate = false;
    let mut i: usize = 0;
    while i < pair.inner.len()
        invariant
            i <= pair.inner.len(),
            buffer@ == start + acc,
            render_if_from(pair@, 0, false, mappings@) == prepend(
                acc,
                render_if_from(pair@, i as int, will_interpolate, mappings@),
            ),
        decreases pair.inner.len() - i,
    {
        let p = &pair.inner[i];
        assert(pair@.inner[i as int] == p@);
        match p.rule {
            Rule::if_stmt_start => {
                let ghost before = will_interpolate;
                let mut j: usize = 0;
                while j < p.inner.len()
                    invariant
                        j <= p.inner.len(),
                        i < pair.inner.len(),
                        p.rule == Rule::if_stmt_start,
                        p@ == pair@.inner[i as int],
                        buffer@ == start + acc,
                        render_if_from(pair@, 0, false, mappings@) == prepend(
                            acc,
                            render_if_from(pair@, i as int, before, mappings@),
                        ),
                        guard_from(p@, 0, before, mappings@) == guard_from(
                            p@,
                            j as int,
                            will_interpolate,
                            mappings@,
                        ),
                    decreases p.inner.len() - j,
                {
                    let q = &p.inner[j];
                    assert(p@.inner[j as int] == q@);
                    match q.rule {
                        Rule::ident => {
                            let replacement = mappings.get(&q.text);
                            match replacement {
                                Some(rep) => {
                                    will_interpolate = !rep.as_str().is_empty();
                                },
                                None => {
                                    will_interpolate = false;
                                },
                            }
                        },
                        r => {
                            return Err(malformed(r, "Unexpected sub-rule for if_stmt_start found"));
                        },
                    }
                    j = j + 1;
                }
            },
            Rule::if_stmt_end => {},
            Rule::compound => {
                if will_interpolate {
                    let ghost b0 = buffer@;
                    let r = interpolate_compound_impl(p, buffer, mappings);
                    if r.is_err() {
                        return r;
                    }
                    proof {
                        let a = render_compound_from(p@, 0, mappings@)->Ok_0;
                        lemma_prepend_step(acc, a, render_if_from(pair@, i + 1, will_interpolate, mappings@));
                        acc = acc + a;
                        assert(buffer@ =~= start + acc);
                    }
                }
            },
            r => {
                return Err(malformed(r, "Unexpected sub-rule for if_stmt found"));
            },
        }
        i = i + 1;
    }
    proof {
        lemma_prepend_empty(acc);
    }
    Ok(())
}

fn interpolate_stmt_impl(
    pair: &Pair,
    buffer: &mut String,
    mappings: &Mappings,
) -> (r: Result<(), RenderError>)
    ensures
        rendered(render_stmt_from(pair@, 0, mappings@), old(buffer)@, final(buffer)@, r),
    decreases pair,
{
    let ghost start = buffer@;
    let ghost mut acc = Seq::<char>::empty();
    let mut i: usize = 0;
    while i < pair.inner.len()
        invariant
            i <= pair.inner.len(),
            buffer@ == start + acc,
            render_stmt_from(pair@, 0, mappings@) == prepend(
                acc,
                render_stmt_from(pair@, i as int, mappings@),
            ),
        decreases pair.inner.len() - i,
    {
        let p = &pair.inner[i];
        assert(pair@.inner[i as int] == p@);
        match p.rule {
            Rule::if_stmt => {
                let ghost b0 = buffer@;
                let r = interpolate_if_stmt_impl(p, buffer, mappings);
                if r.is_err() {
                    return r;
                }
                proof {
                    let a = render_if_from(p@, 0, false, mappings@)->Ok_0;
                    lemma_prepend_step(acc, a, render_stmt_from(pair@, i + 1, mappings@));
                    acc = acc + a;
                    assert(buffer@ =~= start + acc);
                }
            },
            r => {
                return Err(malformed(r, "Unexpected sub-rule for stmt found"));
            },
        }
        i = i + 1;
    }
    proof {
        lemma_prepend_empty(acc);
    }
    Ok(())
}


fn interpolate_expr_impl(
    pair: &Pair,
    buffer: &mut String,
    mappings: &Mappings,
) -> (r: Result<(), RenderError>)
    ensures
        rendered(render_expr_from(pair@, 0, mappings@), old(buffer)@, final(buffer)@, r),
{
    let ghost start = buffer@;
    let ghost mut acc = Seq::<char>::empty();
    let mut i: usize = 0;
    while i < pair.inner.len()
        invariant
            i <= pair.inner.len(),
            buffer@ == start + acc,
            render_expr_from(pair@, 0, mappings@) == prepend(
                acc,
                render_expr_from(pair@, i as int, mappings@),
            ),
        decreases pair.inner.len() - i,
    {
        let p = &pair.inner[i];
        assert(pair@.inner[i as int] == p@);
        match p.rule {
            Rule::ident => {
                match mappings.get(&p.text) {
                    Some(val) => {
                        let ghost b0 = buffer@;
                        buffer.append(val.as_str());
                        proof {
                            lemma_prepend_step(acc, val@, render_expr_from(pair@, i + 1, mappings@));
                            acc = acc + val@;
                            assert(buffer@ =~= start + acc);
                        }
                    },
                    None => {
                        let mut msg = String::from_str("No key '");
                        msg.append(p.text.as_str());
                        msg.append("' found for interpolation");
                        return Err(
                            RenderError::UnresolvedVariable(InterpolateError::new(Rule::ident, msg)),
                        );
                    },
                }
            },
            r => {
                return Err(malformed(r, "Unexpected sub-rule for expr found"));
            },
        }
        i = i + 1;
    }
    proof {
        lemma_prepend_empty(acc);
    }
    Ok(())
}

fn interpolate_compound_impl(
    pair: &Pair,
    buffer: &mut String,
    mappings: &Mappings,
) -> (r: Result<(), RenderError>)
    ensures
        rendered(render_compound_from(pair@, 0, mappings@), old(buffer)@, final(buffer)@, r),
    decreases pair,
{
    let ghost start = buffer@;
    let ghost mut acc = Seq::<char>::empty();
    let mut i: usize = 0;
    while i < pair.inner.len()
        invariant
            i <= pair.inner.len(),
            buffer@ == start + acc,
            render_compound_from(pair@, 0, mappings@) == prepend(
                acc,
                render_compound_from(pair@, i as int, mappings@),
            ),
        decreases pair.inner.len() - i,
    {
        let p = &pair.inner[i];
        assert(pair@.inner[i as int] == p@);
        let ghost b0 = buffer@;
        let r = match p.rule {
            Rule::stmt => interpolate_stmt_impl(p, buffer, mappings),
            Rule::expr => interpolate_expr_impl(p, buffer, mappings),
            Rule::comm => Ok(()),
            Rule::text => {
                buffer.append(p.text.as_str());
                Ok(())
            },
            Rule::compound => interpolate_compound_impl(p, buffer, mappings),
            r => Err(malformed(r, "Unexpected sub-rule at compound found")),
        };
        assert(rendered(render_child(p@, mappings@), b0, buffer@, r)) by {
            if p.rule == Rule::comm {
                assert(b0 + Seq::<char>::empty() =~= b0);
            }
        }
        if r.is_err() {
            return r;
        }
        proof {
            let a = render_child(p@, mappings@)->Ok_0;
            lemma_prepend_step(acc, a, render_compound_from(pair@, i + 1, mappings@));
            acc = acc + a;
            assert(buffer@ =~= start + acc);
        }
        i = i + 1;
    }
    proof {
        lemma_prepend_empty(acc);
    }
    Ok(())
}


/// Why a template could not be rendered.
#[derive(Clone, Debug)]
pub enum EnvjaError {
    /// The template does not follow the grammar.
    Syntax(SyntaxError),
    /// The parsed template could not be rendered with the mapping.
    Render(RenderError),
}

/// The model of an `EnvjaError`.
pub enum TemplateFault {
    Syntax(SyntaxFault),
    Render(Fault),
}

impl EnvjaError {
    pub open spec fn view(&self) -> TemplateFault {
        match self {
            EnvjaError::Syntax(e) => TemplateFault::Syntax(e@),
            EnvjaError::Render(e) => TemplateFault::Render(e@),
        }
    }
}

/// What rendering the template `t` with the mapping `m` gives: the template is
/// parsed as a document, whose top-level nodes are then rendered in order.
#[verifier::opaque]
pub open spec fn interpolation(t: Seq<char>, m: Map<Seq<char>, Seq<char>>) -> Result<Seq<char>, TemplateFault> {
    match parse_rule(Rule::doc, t) {
        Err(f) => Err(TemplateFault::Syntax(f)),
        Ok(ns) => match render_top_from(ns, 0, m) {
            Ok(out) => Ok(out),
            Err(f) => Err(TemplateFault::Render(f)),
        },
    }
}

/// Renders `template` with `mappings`: `{{ NAME }}` becomes the value of `NAME`
/// (which must be mapped), `{% if NAME %}...{% endif %}` keeps its body only where
/// `NAME` is mapped to a non-empty value, comments and the delimiters vanish, and
/// the rest is copied as it stands.
pub fn interpolate(template: &str, mappings: &Mappings) -> (r: Result<String, EnvjaError>)
    ensures
        match interpolation(template@, mappings@) {
            Ok(out) => r is Ok && r->Ok_0@ == out,
            Err(f) => r is Err && r->Err_0@ == f,
        },
{
    proof {
        reveal(interpolation);
    }
    let pairs = match EnvjaParser::parse(Rule::doc, template) {
        Ok(pairs) => pairs,
        Err(e) => {
            return Err(EnvjaError::Syntax(e));
        },
    };
    let ghost ns = nodes_of(pairs@);
    let mut buffer = String::new();
    let ghost mut acc = Seq::<char>::empty();
    let mut i: usize = 0;
    while i < pairs.len()
        invariant
            i <= pairs.len(),
            ns == nodes_of(pairs@),
            parse_rule(Rule::doc, template@) == Ok::<Seq<Node>, SyntaxFault>(ns),
            buffer@ == acc,
            render_top_from(ns, 0, mappings@) == prepend(acc, render_top_from(ns, i as int, mappings@)),
        decreases pairs.len() - i,
    {
        proof {
            reveal(interpolation);
        }
        let p = &pairs[i];
        assert(ns[i as int] == p@);
        match p.rule {
            Rule::compound => {
                let ghost b0 = buffer@;
                let r = interpolate_compound_impl(p, &mut buffer, mappings);
                match r {
                    Ok(()) => {},
                    Err(e) => {
                        return Err(EnvjaError::Render(e));
                    },
                }
                proof {
                    let a = render_compound_from(p@, 0, mappings@)->Ok_0;
                    lemma_prepend_step(acc, a, render_top_from(ns, i + 1, mappings@));
                    acc = acc + a;
                }
            },
            Rule::EOI => {},
            r => {
                return Err(EnvjaError::Render(malformed(r, "Unexpected sub-rule at top-level found")));
            },
        }
        i = i + 1;
    }
    proof {
        lemma_prepend_empty(acc);
    }
    Ok(buffer)
}

} // verus!
