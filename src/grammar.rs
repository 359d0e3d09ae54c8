//! The template grammar as a mathematical parser on character sequences.

use vstd::prelude::*;

use crate::tree::{Node, Rule};

verus! {

// The template grammar, as a parser on sequences of characters. Each rule is
// tried at a position `i` of `s` and gives the node it matched and the position
// after it, or `None`. Repetitions are greedy and alternatives are ordered.
pub open spec fn is_ws(c: char) -> bool {
    c == ' ' || c == '\t' || c == '\n' || c == '\r'
}

pub open spec fn is_ident_start(c: char) -> bool {
    ('a' <= c && c <= 'z') || ('A' <= c && c <= 'Z') || c == '_'
}

pub open spec fn is_ident_char(c: char) -> bool {
    is_ident_start(c) || ('0' <= c && c <= '9')
}

/// The two characters `a`, `b` stand at `i`.
pub open spec fn has2(s: Seq<char>, i: int, a: char, b: char) -> bool {
    0 <= i && i + 2 <= s.len() && s[i] == a && s[i + 1] == b
}

/// A delimiter `{{`, `{%` or `{#` opens at `i`.
pub open spec fn opens_tag(s: Seq<char>, i: int) -> bool {
    has2(s, i, '{', '{') || has2(s, i, '{', '%') || has2(s, i, '{', '#')
}

/// The keyword `if` stands at `i`.
pub open spec fn kw_if_at(s: Seq<char>, i: int) -> bool {
    has2(s, i, 'i', 'f')
}

/// The keyword `endif` stands at `i`.
pub open spec fn kw_endif_at(s: Seq<char>, i: int) -> bool {
    has2(s, i, 'e', 'n') && has2(s, i + 2, 'd', 'i') && 0 <= i + 4 < s.len() && s[i + 4] == 'f'
}

/// The end of the run of whitespace at `i`.
pub open spec fn skip_ws(s: Seq<char>, i: int) -> int
    decreases s.len() - i,
{
    if 0 <= i < s.len() && is_ws(s[i]) {
        skip_ws(s, i + 1)
    } else {
        i
    }
}

/// The end of the run of identifier characters at `i`.
pub open spec fn ident_end(s: Seq<char>, i: int) -> int
    decreases s.len() - i,
{
    if 0 <= i < s.len() && is_ident_char(s[i]) {
        ident_end(s, i + 1)
    } else {
        i
    }
}

/// The end of the raw text at `i`: the first delimiter, or the end of input.
pub open spec fn text_end(s: Seq<char>, i: int) -> int
    decreases s.len() - i,
{
    if 0 <= i < s.len() && !opens_tag(s, i) {
        text_end(s, i + 1)
    } else {
        i
    }
}

/// The position of the first `#}` at or after `i`.
pub open spec fn comment_close(s: Seq<char>, i: int) -> Option<int>
    decreases s.len() - i,
{
    if i < 0 || i + 2 > s.len() {
        None
    } else if has2(s, i, '#', '}') {
        Some(i)
    } else {
        comment_close(s, i + 1)
    }
}

/// A node without children spanning `s[i..e]`.
pub open spec fn leaf(rule: Rule, s: Seq<char>, i: int, e: int) -> Node {
    Node { rule, text: s.subrange(i, e), inner: Seq::empty() }
}

/// A node with children spanning `s[i..e]`.
pub open spec fn branch(rule: Rule, s: Seq<char>, i: int, e: int, inner: Seq<Node>) -> Node {
    Node { rule, text: s.subrange(i, e), inner }
}

/// `ident`: a letter or `_`, then letters, digits and `_`.
pub open spec fn parse_ident(s: Seq<char>, i: int) -> Option<(Node, int)> {
    if 0 <= i < s.len() && is_ident_start(s[i]) {
        let e = ident_end(s, i + 1);
        Some((leaf(Rule::ident, s, i, e), e))
    } else {
        None
    }
}

/// `expr`: `{{`, an identifier, `}}`, with whitespace allowed inside.
pub open spec fn parse_expr(s: Seq<char>, i: int) -> Option<(Node, int)> {
    if has2(s, i, '{', '{') {
        match parse_ident(s, skip_ws(s, i + 2)) {
            Some((id, b)) => {
                let c = skip_ws(s, b);
                if has2(s, c, '}', '}') {
                    Some((branch(Rule::expr, s, i, c + 2, seq![id]), c + 2))
                } else {
                    None
                }
            },
            None => None,
        }
    } else {
        None
    }
}

/// `comm`: `{#`, anything up to the first `#}`, `#}`.
pub open spec fn parse_comm(s: Seq<char>, i: int) -> Option<(Node, int)> {
    if has2(s, i, '{', '#') {
        match comment_close(s, i + 2) {
            Some(j) => Some((leaf(Rule::comm, s, i, j + 2), j + 2)),
            None => None,
        }
    } else {
        None
    }
}

/// `text`: raw text, up to the next delimiter.
pub open spec fn parse_text(s: Seq<char>, i: int) -> Option<(Node, int)> {
    let e = text_end(s, i);
    if 0 <= i < e {
        Some((leaf(Rule::text, s, i, e), e))
    } else {
        None
    }
}

/// `if_stmt_start`: `{% if NAME %}`.
pub open spec fn parse_if_start(s: Seq<char>, i: int) -> Option<(Node, int)> {
    if has2(s, i, '{', '%') && kw_if_at(s, skip_ws(s, i + 2)) {
        let b = skip_ws(s, i + 2) + 2;
        let c = skip_ws(s, b);
        if c > b {
            match parse_ident(s, c) {
                Some((id, d)) => {
                    let e = skip_ws(s, d);
                    if has2(s, e, '%', '}') {
                        Some((branch(Rule::if_stmt_start, s, i, e + 2, seq![id]), e + 2))
                    } else {
                        None
                    }
                },
                None => None,
            }
        } else {
            None
        }
    } else {
        None
    }
}

/// `if_stmt_end`: `{% endif %}`.
pub open spec fn parse_if_end(s: Seq<char>, i: int) -> Option<(Node, int)> {
    if has2(s, i, '{', '%') && kw_endif_at(s, skip_ws(s, i + 2)) {
        let b = skip_ws(s, skip_ws(s, i + 2) + 5);
        if has2(s, b, '%', '}') {
            Some((leaf(Rule::if_stmt_end, s, i, b + 2), b + 2))
        } else {
            None
        }
    } else {
        None
    }
}

/// `if_stmt`: a start, an optional compound body, an end.
pub open spec fn parse_if(s: Seq<char>, i: int) -> Option<(Node, int)>
    decreases s.len() - i, 1int,
{
    match parse_if_start(s, i) {
        Some((st, a)) => if i < a <= s.len() {
            let (body, b) = opt_compound(s, a);
            match parse_if_end(s, b) {
                Some((en, c)) => Some(
                    (branch(Rule::if_stmt, s, i, c, seq![st] + body + seq![en]), c),
                ),
                None => None,
            }
        } else {
            None
        },
        None => None,
    }
}

/// `stmt`: an `if` statement.
pub open spec fn parse_stmt(s: Seq<char>, i: int) -> Option<(Node, int)>
    decreases s.len() - i, 2int,
{
    match parse_if(s, i) {
        Some((n, e)) => Some((branch(Rule::stmt, s, i, e, seq![n]), e)),
        None => None,
    }
}

/// One child of a compound: a statement, an expression, a comment or text.
pub open spec fn parse_item(s: Seq<char>, i: int) -> Option<(Node, int)>
    decreases s.len() - i, 3int,
{
    match parse_stmt(s, i) {
        Some(r) => Some(r),
        None => match parse_expr(s, i) {
            Some(r) => Some(r),
            None => match parse_comm(s, i) {
                Some(r) => Some(r),
                None => parse_text(s, i),
            },
        },
    }
}

/// As many children of a compound as match from `i` on, and the position after them.
pub open spec fn parse_items(s: Seq<char>, i: int) -> (Seq<Node>, int)
    decreases s.len() - i, 4int,
{
    match parse_item(s, i) {
        Some((n, e)) => if i < e <= s.len() {
            let (rest, f) = parse_items(s, e);
            (seq![n] + rest, f)
        } else {
            (Seq::empty(), i)
        },
        None => (Seq::empty(), i),
    }
}

/// The children of a compound end after its start, and where there are some,
/// strictly after.
pub proof fn lemma_items_advance(s: Seq<char>, i: int)
    ensures
        parse_items(s, i).1 >= i,
        parse_items(s, i).0.len() > 0 ==> parse_items(s, i).1 > i,
    decreases s.len() - i,
{
    if let Some((n, e)) = parse_item(s, i) {
        if i < e <= s.len() {
            lemma_items_advance(s, e);
        }
    }
}

/// `compound`: one or more children.
pub open spec fn parse_compound(s: Seq<char>, i: int) -> Option<(Node, int)>
    decreases s.len() - i, 5int,
{
    let (items, e) = parse_items(s, i);
    if items.len() > 0 {
        Some((branch(Rule::compound, s, i, e, items), e))
    } else {
        None
    }
}

/// An optional compound at `i`: the nodes (none or one) and the position after.
pub open spec fn opt_compound(s: Seq<char>, i: int) -> (Seq<Node>, int)
    decreases s.len() - i, 6int,
{
    match parse_compound(s, i) {
        Some((c, e)) => (seq![c], e),
        None => (Seq::empty(), i),
    }
}

/// Where parsing failed: the rule expected and the position.
pub struct SyntaxFault {
    pub rule: Rule,
    pub pos: int,
}

/// A document: an optional compound, then the end of input. The result holds the
/// top-level nodes, the last of them the end-of-input marker.
pub open spec fn parse_doc(s: Seq<char>) -> Result<Seq<Node>, SyntaxFault> {
    let (body, e) = opt_compound(s, 0);
    if e == s.len() {
        Ok(body + seq![leaf(Rule::EOI, s, e, e)])
    } else {
        Err(SyntaxFault { rule: Rule::EOI, pos: e })
    }
}

/// The outcome of parsing `s` from its start with `rule`.
pub open spec fn parse_rule(rule: Rule, s: Seq<char>) -> Result<Seq<Node>, SyntaxFault> {
    let r = match rule {
        Rule::EOI => if s.len() == 0 {
            Some((leaf(Rule::EOI, s, 0, 0), 0))
        } else {
            None
        },
        Rule::doc => None,
        Rule::compound => parse_compound(s, 0),
        Rule::stmt => parse_stmt(s, 0),
        Rule::if_stmt => parse_if(s, 0),
        Rule::if_stmt_start => parse_if_start(s, 0),
        Rule::if_stmt_end => parse_if_end(s, 0),
        Rule::expr => parse_expr(s, 0),
        Rule::comm => parse_comm(s, 0),
        Rule::text => parse_text(s, 0),
        Rule::ident => parse_ident(s, 0),
    };
    if rule == Rule::doc {
        parse_doc(s)
    } else {
        match r {
            Some((n, _e)) => Ok(seq![n]),
            None => Err(SyntaxFault { rule, pos: 0 }),
        }
    }
}

} // verus!
