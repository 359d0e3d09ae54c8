//! The executable parser, proved to build the trees that the grammar describes.

use vstd::prelude::*;

use crate::grammar::{
    branch, comment_close, has2, ident_end, is_ident_char, is_ident_start, is_ws,
    lemma_items_advance, leaf, opens_tag, opt_compound, parse_comm, parse_compound, parse_doc,
    parse_expr, parse_ident, parse_if, parse_if_end, parse_if_start, parse_item, parse_items,
    parse_rule, parse_stmt, parse_text, skip_ws, text_end, SyntaxFault,
};
use crate::tree::{nodes_of, Node, Pair, Rule};

verus! {

/// Relies on `String::push`: appends one character to the string.
#[verifier::external_body]
fn push_char(s: &mut String, c: char)
    ensures
        final(s)@ == old(s)@.push(c),
{
    s.push(c);
}

/// The characters of `t`, in order.
fn chars_of(t: &str) -> (r: Vec<char>)
    ensures
        r@ == t@,
{
    let mut v: Vec<char> = Vec::new();
    for c in it: t.chars()
        invariant
            v@ == it.seq().take(it.index() as int),
    {
        v.push(c);
    }
    assert(v@ =~= t@);
    v
}

/// The text of `s[i..e]`.
fn span(s: &Vec<char>, i: usize, e: usize) -> (r: String)
    requires
        i <= e <= s.len(),
    ensures
        r@ == s@.subrange(i as int, e as int),
{
    let mut r = String::new();
    let mut k: usize = i;
    while k < e
        invariant
            i <= k <= e <= s.len(),
            r@ == s@.subrange(i as int, k as int),
        decreases e - k,
    {
        push_char(&mut r, s[k]);
        k = k + 1;
        assert(r@ =~= s@.subrange(i as int, k as int));
    }
    r
}

fn has2_at(s: &Vec<char>, i: usize, a: char, b: char) -> (r: bool)
    ensures
        r == has2(s@, i as int, a, b),
{
    i < s.len() && s.len() - i >= 2 && s[i] == a && s[i + 1] == b
}

fn opens_tag_at(s: &Vec<char>, i: usize) -> (r: bool)
    ensures
        r == opens_tag(s@, i as int),
{
    has2_at(s, i, '{', '{') || has2_at(s, i, '{', '%') || has2_at(s, i, '{', '#')
}

fn is_ws_char(c: char) -> (r: bool)
    ensures
        r == is_ws(c),
{
    c == ' ' || c == '\t' || c == '\n' || c == '\r'
}

fn is_ident_start_char(c: char) -> (r: bool)
    ensures
        r == is_ident_start(c),
{
    ('a' <= c && c <= 'z') || ('A' <= c && c <= 'Z') || c == '_'
}

fn is_ident_char_at(c: char) -> (r: bool)
    ensures
        r == is_ident_char(c),
{
    is_ident_start_char(c) || ('0' <= c && c <= '9')
}

fn skip_ws_from(s: &Vec<char>, i: usize) -> (r: usize)
    requires
        i <= s.len(),
    ensures
        r == skip_ws(s@, i as int),
        i <= r <= s.len(),
{
    let mut j = i;
    while j < s.len() && is_ws_char(s[j])
        invariant
            i <= j <= s.len(),
            skip_ws(s@, i as int) == skip_ws(s@, j as int),
        decreases s.len() - j,
    {
        j = j + 1;
    }
    j
}

fn ident_end_from(s: &Vec<char>, i: usize) -> (r: usize)
    requires
        i <= s.len(),
    ensures
        r == ident_end(s@, i as int),
        i <= r <= s.len(),
{
    let mut j = i;
    while j < s.len() && is_ident_char_at(s[j])
        invariant
            i <= j <= s.len(),
            ident_end(s@, i as int) == ident_end(s@, j as int),
        decreases s.len() - j,
    {
        j = j + 1;
    }
    j
}

fn text_end_from(s: &Vec<char>, i: usize) -> (r: usize)
    requires
        i <= s.len(),
    ensures
        r == text_end(s@, i as int),
        i <= r <= s.len(),
{
    let mut j = i;
    while j < s.len() && !opens_tag_at(s, j)
        invariant
            i <= j <= s.len(),
            text_end(s@, i as int) == text_end(s@, j as int),
        decreases s.len() - j,
    {
        j = j + 1;
    }
    j
}

fn comment_close_from(s: &Vec<char>, i: usize) -> (r: Option<usize>)
    requires
        i <= s.len(),
    ensures
        match comment_close(s@, i as int) {
            Some(j) => r == Some(j as usize) && i <= j && j + 2 <= s.len(),
            None => r is None,
        },
{
    let mut j = i;
    while j < s.len() && s.len() - j >= 2
        invariant
            i <= j <= s.len(),
            comment_close(s@, i as int) == comment_close(s@, j as int),
        decreases s.len() - j,
    {
        if has2_at(s, j, '#', '}') {
            return Some(j);
        }
        j = j + 1;
    }
    None
}

/// `r` is the executable form of the parse result `m`, ending within `s` after `i`.
pub open spec fn parsed(r: Option<(Pair, usize)>, m: Option<(Node, int)>, i: int, len: int) -> bool {
    match m {
        Some((n, e)) => r is Some && r->Some_0.0@ == n && r->Some_0.1 == e && i < e <= len,
        None => r is None,
    }
}

fn leaf_pair(s: &Vec<char>, rule: Rule, i: usize, e: usize) -> (r: Pair)
    requires
        i <= e <= s.len(),
    ensures
        r@ == leaf(rule, s@, i as int, e as int),
{
    let r = Pair { rule, text: span(s, i, e), inner: Vec::new() };
    assert(r@.inner =~= Seq::<Node>::empty());
    r
}

fn branch_pair(s: &Vec<char>, rule: Rule, i: usize, e: usize, inner: Vec<Pair>) -> (r: Pair)
    requires
        i <= e <= s.len(),
    ensures
        r@ == branch(rule, s@, i as int, e as int, nodes_of(inner@)),
{
    let r = Pair { rule, text: span(s, i, e), inner };
    assert(r@.inner =~= nodes_of(inner@));
    r
}

fn parse_ident_at(s: &Vec<char>, i: usize) -> (r: Option<(Pair, usize)>)
    requires
        i <= s.len(),
    ensures
        parsed(r, parse_ident(s@, i as int), i as int, s.len() as int),
{
    if i < s.len() && is_ident_start_char(s[i]) {
        let e = ident_end_from(s, i + 1);
        Some((leaf_pair(s, Rule::ident, i, e), e))
    } else {
        None
    }
}

fn parse_expr_at(s: &Vec<char>, i: usize) -> (r: Option<(Pair, usize)>)
    requires
        i <= s.len(),
    ensures
        parsed(r, parse_expr(s@, i as int), i as int, s.len() as int),
{
    if !has2_at(s, i, '{', '{') {
        return None;
    }
    let a = skip_ws_from(s, i + 2);
    match parse_ident_at(s, a) {
        Some((id, b)) => {
            let c = skip_ws_from(s, b);
            if has2_at(s, c, '}', '}') {
                let ghost idm = id@;
                let inner = vec![id];
                assert(nodes_of(inner@) =~= seq![idm]);
                Some((branch_pair(s, Rule::expr, i, c + 2, inner), c + 2))
            } else {
                None
            }
        },
        None => None,
    }
}

fn parse_comm_at(s: &Vec<char>, i: usize) -> (r: Option<(Pair, usize)>)
    requires
        i <= s.len(),
    ensures
        parsed(r, parse_comm(s@, i as int), i as int, s.len() as int),
{
    if !has2_at(s, i, '{', '#') {
        return None;
    }
    match comment_close_from(s, i + 2) {
        Some(j) => Some((leaf_pair(s, Rule::comm, i, j + 2), j + 2)),
        None => None,
    }
}

fn parse_text_at(s: &Vec<char>, i: usize) -> (r: Option<(Pair, usize)>)
    requires
        i <= s.len(),
    ensures
        parsed(r, parse_text(s@, i as int), i as int, s.len() as int),
{
    let e = text_end_from(s, i);
    if i < e {
        Some((leaf_pair(s, Rule::text, i, e), e))
    } else {
        None
    }
}

fn parse_if_start_at(s: &Vec<char>, i: usize) -> (r: Option<(Pair, usize)>)
    requires
        i <= s.len(),
    ensures
        parsed(r, parse_if_start(s@, i as int), i as int, s.len() as int),
{
    if !has2_at(s, i, '{', '%') {
        return None;
    }
    let a = skip_ws_from(s, i + 2);
    if !has2_at(s, a, 'i', 'f') {
        return None;
    }
    let b = a + 2;
    let c = skip_ws_from(s, b);
    if c <= b {
        return None;
    }
    match parse_ident_at(s, c) {
        Some((id, d)) => {
            let e = skip_ws_from(s, d);
            if has2_at(s, e, '%', '}') {
                let ghost idm = id@;
                let inner = vec![id];
                assert(nodes_of(inner@) =~= seq![idm]);
                Some((branch_pair(s, Rule::if_stmt_start, i, e + 2, inner), e + 2))
            } else {
                None
            }
        },
        None => None,
    }
}

fn parse_if_end_at(s: &Vec<char>, i: usize) -> (r: Option<(Pair, usize)>)
    requires
        i <= s.len(),
    ensures
        parsed(r, parse_if_end(s@, i as int), i as int, s.len() as int),
{
    if !has2_at(s, i, '{', '%') {
        return None;
    }
    let a = skip_ws_from(s, i + 2);
    if !(has2_at(s, a, 'e', 'n') && s.len() - a >= 5 && has2_at(s, a + 2, 'd', 'i') && s[a + 4]
        == 'f') {
        return None;
    }
    let b = skip_ws_from(s, a + 5);
    if has2_at(s, b, '%', '}') {
        Some((leaf_pair(s, Rule::if_stmt_end, i, b + 2), b + 2))
    } else {
        None
    }
}


fn parse_if_at(s: &Vec<char>, i: usize) -> (r: Option<(Pair, usize)>)
    requires
        i <= s.len(),
    ensures
        parsed(r, parse_if(s@, i as int), i as int, s.len() as int),
    decreases s.len() - i, 1int,
{
    match parse_if_start_at(s, i) {
        Some((st, a)) => {
            let ghost stm = st@;
            let mut inner = vec![st];
            let b = match parse_compound_at(s, a) {
                Some((body, b)) => {
                    inner.push(body);
                    b
                },
                None => a,
            };
            let ghost (bodym, bm) = opt_compound(s@, a as int);
            assert(nodes_of(inner@) =~= seq![stm] + bodym);
            assert(b == bm);
            match parse_if_end_at(s, b) {
                Some((en, c)) => {
                    let ghost enm = en@;
                    inner.push(en);
                    assert(nodes_of(inner@) =~= seq![stm] + bodym + seq![enm]);
                    Some((branch_pair(s, Rule::if_stmt, i, c, inner), c))
                },
                None => None,
            }
        },
        None => None,
    }
}

fn parse_stmt_at(s: &Vec<char>, i: usize) -> (r: Option<(Pair, usize)>)
    requires
        i <= s.len(),
    ensures
        parsed(r, parse_stmt(s@, i as int), i as int, s.len() as int),
    decreases s.len() - i, 2int,
{
    match parse_if_at(s, i) {
        Some((n, e)) => {
            let ghost nm = n@;
            let inner = vec![n];
            assert(nodes_of(inner@) =~= seq![nm]);
            Some((branch_pair(s, Rule::stmt, i, e, inner), e))
        },
        None => None,
    }
}

fn parse_item_at(s: &Vec<char>, i: usize) -> (r: Option<(Pair, usize)>)
    requires
        i <= s.len(),
    ensures
        parsed(r, parse_item(s@, i as int), i as int, s.len() as int),
    decreases s.len() - i, 3int,
{
    let r = parse_stmt_at(s, i);
    if r.is_some() {
        return r;
    }
    let r = parse_expr_at(s, i);
    if r.is_some() {
        return r;
    }
    let r = parse_comm_at(s, i);
    if r.is_some() {
        return r;
    }
    parse_text_at(s, i)
}

fn parse_items_at(s: &Vec<char>, i: usize) -> (r: (Vec<Pair>, usize))
    requires
        i <= s.len(),
    ensures
        nodes_of(r.0@) == parse_items(s@, i as int).0,
        r.1 == parse_items(s@, i as int).1,
        i <= r.1 <= s.len(),
    decreases s.len() - i, 4int,
{
    let mut items: Vec<Pair> = Vec::new();
    let mut pos = i;
    loop
        invariant
            i <= pos <= s.len(),
            parse_items(s@, i as int) == (
                nodes_of(items@) + parse_items(s@, pos as int).0,
                parse_items(s@, pos as int).1,
            ),
        decreases s.len() - pos,
    {
        match parse_item_at(s, pos) {
            Some((n, e)) => {
                let ghost before = nodes_of(items@);
                let ghost nm = n@;
                items.push(n);
                assert(nodes_of(items@) =~= before + seq![nm]);
                assert(nodes_of(items@) + parse_items(s@, e as int).0 =~= before + (seq![nm]
                    + parse_items(s@, e as int).0));
                pos = e;
            },
            None => {
                assert(nodes_of(items@) + parse_items(s@, pos as int).0 =~= nodes_of(items@));
                return (items, pos);
            },
        }
    }
}

fn parse_compound_at(s: &Vec<char>, i: usize) -> (r: Option<(Pair, usize)>)
    requires
        i <= s.len(),
    ensures
        parsed(r, parse_compound(s@, i as int), i as int, s.len() as int),
    decreases s.len() - i, 5int,
{
    let (items, e) = parse_items_at(s, i);
    if items.len() > 0 {
        proof {
            lemma_items_advance(s@, i as int);
        }
        Some((branch_pair(s, Rule::compound, i, e, items), e))
    } else {
        None
    }
}


/// A template that does not follow the grammar: the rule expected where parsing
/// stopped, and the position (in characters) where it stopped.
#[derive(Clone, Copy, Debug, PartialEq, Eq)]
pub struct SyntaxError {
    pub rule: Rule,
    pub pos: usize,
}

impl SyntaxError {
    pub open spec fn view(&self) -> SyntaxFault {
        SyntaxFault { rule: self.rule, pos: self.pos as int }
    }
}

/// The parser of the template grammar.
pub struct EnvjaParser;

impl EnvjaParser {
    /// Parses `input` from its start with `rule`. For `Rule::doc` the whole input
    /// must match, and the result is the top-level nodes of the document; for any
    /// other rule it is the one node that matched a prefix of the input.
    pub fn parse(rule: Rule, input: &str) -> (r: Result<Vec<Pair>, SyntaxError>)
        ensures
            match parse_rule(rule, input@) {
                Ok(ns) => r is Ok && nodes_of(r->Ok_0@) == ns,
                Err(f) => r is Err && r->Err_0@ == f,
            },
    {
        let s = chars_of(input);
        if rule == Rule::doc {
            return parse_doc_of(&s);
        }
        let r = match rule {
            Rule::EOI => if s.len() == 0 {
                Some((leaf_pair(&s, Rule::EOI, 0, 0), 0))
            } else {
                None
            },
            Rule::doc => None,
            Rule::compound => parse_compound_at(&s, 0),
            Rule::stmt => parse_stmt_at(&s, 0),
            Rule::if_stmt => parse_if_at(&s, 0),
            Rule::if_stmt_start => parse_if_start_at(&s, 0),
            Rule::if_stmt_end => parse_if_end_at(&s, 0),
            Rule::expr => parse_expr_at(&s, 0),
            Rule::comm => parse_comm_at(&s, 0),
            Rule::text => parse_text_at(&s, 0),
            Rule::ident => parse_ident_at(&s, 0),
        };
        match r {
            Some((n, _e)) => {
                let ghost nm = n@;
                let v = vec![n];
                assert(nodes_of(v@) =~= seq![nm]);
                Ok(v)
            },
            None => Err(SyntaxError { rule, pos: 0 }),
        }
    }
}

fn parse_doc_of(s: &Vec<char>) -> (r: Result<Vec<Pair>, SyntaxError>)
    ensures
        match parse_doc(s@) {
            Ok(ns) => r is Ok && nodes_of(r->Ok_0@) == ns,
            Err(f) => r is Err && r->Err_0@ == f,
        },
{
    let mut top: Vec<Pair> = Vec::new();
    let e = match parse_compound_at(s, 0) {
        Some((body, e)) => {
            top.push(body);
            e
        },
        None => 0,
    };
    let ghost (bodym, em) = opt_compound(s@, 0);
    assert(nodes_of(top@) =~= bodym);
    if e == s.len() {
        let eoi = leaf_pair(s, Rule::EOI, e, e);
        let ghost eoim = eoi@;
        top.push(eoi);
        assert(nodes_of(top@) =~= bodym + seq![eoim]);
        Ok(top)
    } else {
        Err(SyntaxError { rule: Rule::EOI, pos: e })
    }
}

} // verus!
