//! What holds of rendering whole templates, stated over the grammar and the
//! rendering model, and proved.

use vstd::prelude::*;

use crate::grammar::{
    branch, comment_close, has2, ident_end, is_ident_char, is_ident_start, leaf, opens_tag,
    opt_compound, parse_compound, parse_expr, parse_if, parse_if_end, parse_if_start, parse_item,
    parse_items, parse_rule, parse_stmt, skip_ws, text_end, SyntaxFault,
};
use crate::interpolate::{
    guard_from, interpolation, msg_unresolved, render_child, render_compound_from,
    render_expr_from, render_if_from, render_stmt_from, render_top_from, truthy, Fault,
    TemplateFault,
};
use crate::locality::{closed_in, embedded, lemma_items_loc};
use crate::tree::{Node, Rule};

verus! {

/// `t` follows the grammar: it parses as a document.
#[verifier::opaque]
pub open spec fn is_template(t: Seq<char>) -> bool {
    parse_rule(Rule::doc, t) is Ok
}

/// No delimiter opens anywhere in `t`.
pub open spec fn is_plain(t: Seq<char>) -> bool {
    forall|j: int| 0 <= j < t.len() ==> !opens_tag(t, j)
}

/// `v` is a variable name: a letter or `_`, then letters, digits and `_`.
pub open spec fn is_name(v: Seq<char>) -> bool {
    &&& v.len() > 0
    &&& is_ident_start(v[0])
    &&& forall|j: int| 0 <= j < v.len() ==> is_ident_char(v[j])
}

/// The template `{{ v }}`.
pub open spec fn expr_of(v: Seq<char>) -> Seq<char> {
    seq!['{', '{', ' '] + v + seq![' ', '}', '}']
}

/// The opening `{% if g %}`.
pub open spec fn if_open(g: Seq<char>) -> Seq<char> {
    seq!['{', '%', ' ', 'i', 'f', ' '] + g + seq![' ', '%', '}']
}

/// The closing `{% endif %}`.
pub open spec fn if_close() -> Seq<char> {
    seq!['{', '%', ' ', 'e', 'n', 'd', 'i', 'f', ' ', '%', '}']
}

/// The template `{% if g %}b{% endif %}`.
pub open spec fn if_block(g: Seq<char>, b: Seq<char>) -> Seq<char> {
    if_open(g) + b + if_close()
}

/// The comment `{#c#}`.
pub open spec fn comment_of(c: Seq<char>) -> Seq<char> {
    seq!['{', '#'] + c + seq!['#', '}']
}

/// The statement node of `{% if g %}`, a compound of `items` ending at `k`, and
/// `{% endif %}`, standing at `i` of `s`.
pub open spec fn if_stmt_node(s: Seq<char>, i: int, g: Seq<char>, items: Seq<Node>, k: int) -> Node {
    branch(
        Rule::stmt,
        s,
        i,
        k + 11,
        seq![
            branch(
                Rule::if_stmt,
                s,
                i,
                k + 11,
                seq![
                    branch(
                        Rule::if_stmt_start,
                        s,
                        i,
                        i + g.len() + 9,
                        seq![leaf(Rule::ident, s, i + 6, i + 6 + g.len())],
                    ),
                    branch(Rule::compound, s, i + g.len() + 9, k, items),
                    leaf(Rule::if_stmt_end, s, k, k + 11),
                ],
            ),
        ],
    )
}

/// `c` holds no `#}`, so `{#c#}` is one comment.
pub open spec fn is_comment_body(c: Seq<char>) -> bool {
    forall|j: int| 0 <= j < c.len() ==> !has2(c, j, '#', '}')
}

/// Raw text that stands as one text node in front of a delimiter: non-empty,
/// without delimiters, and not ending in `{`.
pub open spec fn is_text_run(b: Seq<char>) -> bool {
    b.len() > 0 && is_plain(b) && b.last() != '{'
}

proof fn lemma_at(s: Seq<char>, i: int, w: Seq<char>)
    requires
        0 <= i,
        i + w.len() <= s.len(),
        s.subrange(i, i + w.len()) == w,
    ensures
        forall|j: int| 0 <= j < w.len() ==> s[i + j] == w[j],
{
    assert forall|j: int| 0 <= j < w.len() implies s[i + j] == w[j] by {
        assert(s.subrange(i, i + w.len())[j] == s[i + j]);
    }
}

proof fn lemma_text_end(s: Seq<char>, i: int, k: int)
    requires
        0 <= i <= k <= s.len(),
        forall|j: int| i <= j < k ==> !opens_tag(s, j),
        k == s.len() || opens_tag(s, k),
    ensures
        text_end(s, i) == k,
    decreases k - i,
{
    if i < k {
        lemma_text_end(s, i + 1, k);
    }
}

proof fn lemma_ident_end(s: Seq<char>, i: int, k: int)
    requires
        0 <= i <= k <= s.len(),
        forall|j: int| i <= j < k ==> is_ident_char(s[j]),
        k == s.len() || !is_ident_char(s[k]),
    ensures
        ident_end(s, i) == k,
    decreases k - i,
{
    if i < k {
        lemma_ident_end(s, i + 1, k);
    }
}

/// Raw text from `i` up to a delimiter or the end at `k` is one text node.
proof fn lemma_text_item(s: Seq<char>, i: int, k: int)
    requires
        0 <= i < k <= s.len(),
        forall|j: int| i <= j < k ==> !opens_tag(s, j),
        k == s.len() || opens_tag(s, k),
    ensures
        parse_item(s, i) == Some((leaf(Rule::text, s, i, k), k)),
{
    lemma_text_end(s, i, k);
    assert(!opens_tag(s, i));
    assert(parse_if_start(s, i) is None);
    assert(parse_stmt(s, i) is None);
}

/// Nothing parses at the end of input.
proof fn lemma_no_item_at_end(s: Seq<char>)
    ensures
        parse_items(s, s.len() as int) == (Seq::<Node>::empty(), s.len() as int),
{
    let i = s.len() as int;
    assert(parse_if_start(s, i) is None);
    assert(parse_stmt(s, i) is None);
    assert(text_end(s, i) == i);
}

/// `{{ v }}` at `i` is one expression node.
proof fn lemma_expr_item(s: Seq<char>, i: int, v: Seq<char>)
    requires
        0 <= i,
        i + v.len() + 6 <= s.len(),
        s.subrange(i, i + v.len() + 6) == expr_of(v),
        is_name(v),
    ensures
        parse_item(s, i) == Some(
            (
                branch(
                    Rule::expr,
                    s,
                    i,
                    i + v.len() + 6,
                    seq![leaf(Rule::ident, s, i + 3, i + 3 + v.len())],
                ),
                i + v.len() + 6,
            ),
        ),
        s.subrange(i + 3, i + 3 + v.len()) == v,
{
    let n = v.len() as int;
    lemma_at(s, i, expr_of(v));
    assert forall|j: int| 0 <= j < n implies s[i + 3 + j] == v[j] by {
        assert(expr_of(v)[3 + j] == v[j]);
    }
    assert(s[i + 2] == ' ' && s[i + 3 + n] == ' ' && s[i + 4 + n] == '}' && s[i + 5 + n] == '}') by {
        assert(expr_of(v)[2] == ' ');
        assert(expr_of(v)[3 + n] == ' ');
        assert(expr_of(v)[4 + n] == '}');
        assert(expr_of(v)[5 + n] == '}');
    }
    assert(s[i] == '{' && s[i + 1] == '{') by {
        assert(expr_of(v)[0] == '{');
        assert(expr_of(v)[1] == '{');
    }
    assert(s.subrange(i + 3, i + 3 + n) =~= v);
    assert(skip_ws(s, i + 3) == i + 3);
    assert(skip_ws(s, i + 2) == i + 3);
    assert forall|j: int| i + 4 <= j < i + 3 + n implies is_ident_char(s[j]) by {
        assert(s[i + 3 + (j - i - 3)] == v[j - i - 3]);
    }
    lemma_ident_end(s, i + 4, i + 3 + n);
    assert(skip_ws(s, i + 4 + n) == i + 4 + n);
    assert(skip_ws(s, i + 3 + n) == i + 4 + n);
    assert(parse_if_start(s, i) is None);
    assert(parse_stmt(s, i) is None);
}

proof fn lemma_comment_close(s: Seq<char>, i: int, k: int)
    requires
        0 <= i <= k,
        forall|j: int| i <= j < k ==> !has2(s, j, '#', '}'),
        has2(s, k, '#', '}'),
    ensures
        comment_close(s, i) == Some(k),
    decreases k - i,
{
    if i < k {
        lemma_comment_close(s, i + 1, k);
    }
}

/// `{#c#}` at `i` is one comment node.
proof fn lemma_comm_item(s: Seq<char>, i: int, c: Seq<char>)
    requires
        0 <= i,
        i + c.len() + 4 <= s.len(),
        s.subrange(i, i + c.len() + 4) == comment_of(c),
        is_comment_body(c),
    ensures
        parse_item(s, i) == Some((leaf(Rule::comm, s, i, i + c.len() + 4), i + c.len() + 4)),
{
    let n = c.len() as int;
    lemma_at(s, i, comment_of(c));
    assert(s[i] == '{' && s[i + 1] == '#' && s[i + 2 + n] == '#' && s[i + 3 + n] == '}') by {
        assert(comment_of(c)[0] == '{');
        assert(comment_of(c)[1] == '#');
        assert(comment_of(c)[2 + n] == '#');
        assert(comment_of(c)[3 + n] == '}');
    }
    assert forall|j: int| i + 2 <= j < i + 2 + n implies !has2(s, j, '#', '}') by {
        assert(s[j] == c[j - i - 2]) by {
            assert(comment_of(c)[2 + (j - i - 2)] == c[j - i - 2]);
        }
        if j + 1 < i + 2 + n {
            assert(s[j + 1] == c[j + 1 - i - 2]) by {
                assert(comment_of(c)[2 + (j + 1 - i - 2)] == c[j + 1 - i - 2]);
            }
            assert(!has2(c, j - i - 2, '#', '}'));
        }
    }
    lemma_comment_close(s, i + 2, i + 2 + n);
    assert(parse_if_start(s, i) is None);
    assert(parse_stmt(s, i) is None);
    assert(parse_expr(s, i) is None);
}

/// `{% if g %}` at `i` is one start node.
proof fn lemma_if_start(s: Seq<char>, i: int, g: Seq<char>)
    requires
        0 <= i,
        i + g.len() + 9 <= s.len(),
        s.subrange(i, i + g.len() + 9) == if_open(g),
        is_name(g),
    ensures
        parse_if_start(s, i) == Some(
            (
                branch(
                    Rule::if_stmt_start,
                    s,
                    i,
                    i + g.len() + 9,
                    seq![leaf(Rule::ident, s, i + 6, i + 6 + g.len())],
                ),
                i + g.len() + 9,
            ),
        ),
        s.subrange(i + 6, i + 6 + g.len()) == g,
{
    let n = g.len() as int;
    let w = if_open(g);
    lemma_at(s, i, w);
    assert forall|j: int| 0 <= j < n implies s[i + 6 + j] == g[j] by {
        assert(w[6 + j] == g[j]);
    }
    assert(s[i] == '{' && s[i + 1] == '%' && s[i + 2] == ' ' && s[i + 3] == 'i' && s[i + 4] == 'f'
        && s[i + 5] == ' ') by {
        assert(w[0] == '{');
        assert(w[1] == '%');
        assert(w[2] == ' ');
        assert(w[3] == 'i');
        assert(w[4] == 'f');
        assert(w[5] == ' ');
    }
    assert(s[i + 6 + n] == ' ' && s[i + 7 + n] == '%' && s[i + 8 + n] == '}') by {
        assert(w[6 + n] == ' ');
        assert(w[7 + n] == '%');
        assert(w[8 + n] == '}');
    }
    assert(s.subrange(i + 6, i + 6 + n) =~= g);
    assert(skip_ws(s, i + 3) == i + 3);
    assert(skip_ws(s, i + 2) == i + 3);
    assert(skip_ws(s, i + 6) == i + 6);
    assert(skip_ws(s, i + 5) == i + 6);
    assert forall|j: int| i + 7 <= j < i + 6 + n implies is_ident_char(s[j]) by {
        assert(s[i + 6 + (j - i - 6)] == g[j - i - 6]);
    }
    lemma_ident_end(s, i + 7, i + 6 + n);
    assert(skip_ws(s, i + 7 + n) == i + 7 + n);
    assert(skip_ws(s, i + 6 + n) == i + 7 + n);
}

/// `{% endif %}` at `i` is one end node, and no child of a compound starts there.
proof fn lemma_if_end(s: Seq<char>, i: int)
    requires
        0 <= i,
        i + 11 <= s.len(),
        s.subrange(i, i + 11) == if_close(),
    ensures
        parse_if_end(s, i) == Some((leaf(Rule::if_stmt_end, s, i, i + 11), i + 11)),
        parse_items(s, i) == (Seq::<Node>::empty(), i),
        parse_item(s, i) is None,
{
    let w = if_close();
    lemma_at(s, i, w);
    assert(s[i] == '{' && s[i + 1] == '%' && s[i + 2] == ' ' && s[i + 3] == 'e' && s[i + 4] == 'n'
        && s[i + 5] == 'd' && s[i + 6] == 'i' && s[i + 7] == 'f' && s[i + 8] == ' ' && s[i + 9]
        == '%' && s[i + 10] == '}') by {
        assert(w[0] == '{');
        assert(w[1] == '%');
        assert(w[2] == ' ');
        assert(w[3] == 'e');
        assert(w[4] == 'n');
        assert(w[5] == 'd');
        assert(w[6] == 'i');
        assert(w[7] == 'f');
        assert(w[8] == ' ');
        assert(w[9] == '%');
        assert(w[10] == '}');
    }
    assert(skip_ws(s, i + 3) == i + 3);
    assert(skip_ws(s, i + 2) == i + 3);
    assert(skip_ws(s, i + 9) == i + 9);
    assert(skip_ws(s, i + 8) == i + 9);
    assert(parse_if_start(s, i) is None);
    assert(parse_if(s, i) is None);
    assert(parse_stmt(s, i) is None);
    assert(text_end(s, i) == i);
    assert(parse_item(s, i) is None);
}

/// `{% if g %}`, children `items` ending at `k`, `{% endif %}` at `i`: one
/// statement holding one `if` statement.
proof fn lemma_if_item(s: Seq<char>, i: int, g: Seq<char>, items: Seq<Node>, k: int)
    requires
        0 <= i,
        i + g.len() + 9 <= k,
        k + 11 <= s.len(),
        s.subrange(i, i + g.len() + 9) == if_open(g),
        is_name(g),
        parse_items(s, i + g.len() + 9) == (items, k),
        items.len() > 0,
        s.subrange(k, k + 11) == if_close(),
    ensures
        parse_item(s, i) == Some((if_stmt_node(s, i, g, items, k), k + 11)),
{
    let a = i + g.len() + 9;
    lemma_if_start(s, i, g);
    lemma_if_end(s, k);
    let st = branch(
        Rule::if_stmt_start,
        s,
        i,
        a,
        seq![leaf(Rule::ident, s, i + 6, i + 6 + g.len())],
    );
    let comp = branch(Rule::compound, s, a, k, items);
    let en = leaf(Rule::if_stmt_end, s, k, k + 11);
    assert(parse_compound(s, a) == Some((comp, k)));
    assert(opt_compound(s, a) == (seq![comp], k));
    assert(seq![st] + seq![comp] + seq![en] =~= seq![st, comp, en]);
}

/// How the statement that `lemma_if_item` describes renders: as its body where
/// the guard holds, as nothing where it does not.
proof fn lemma_if_render(
    s: Seq<char>,
    i: int,
    g: Seq<char>,
    items: Seq<Node>,
    k: int,
    m: Map<Seq<char>, Seq<char>>,
)
    requires
        s.subrange(i + 6, i + 6 + g.len()) == g,
    ensures
        render_child(if_stmt_node(s, i, g, items, k), m) == if truthy(m, g) {
            render_compound_from(branch(Rule::compound, s, i + g.len() + 9, k, items), 0, m)
        } else {
            Ok(Seq::empty())
        },
{
    let a = i + g.len() + 9;
    let id = leaf(Rule::ident, s, i + 6, i + 6 + g.len());
    let st = branch(Rule::if_stmt_start, s, i, a, seq![id]);
    let comp = branch(Rule::compound, s, a, k, items);
    let en = leaf(Rule::if_stmt_end, s, k, k + 11);
    let ifn = branch(Rule::if_stmt, s, i, k + 11, seq![st, comp, en]);
    let stn = branch(Rule::stmt, s, i, k + 11, seq![ifn]);
    let w = truthy(m, g);
    assert(guard_from(st, 1, w, m) == Ok::<bool, Fault>(w));
    assert(guard_from(st, 0, false, m) == Ok::<bool, Fault>(w));
    assert(render_if_from(ifn, 3, w, m) == Ok::<Seq<char>, Fault>(Seq::empty()));
    assert(render_if_from(ifn, 2, w, m) == Ok::<Seq<char>, Fault>(Seq::empty()));
    match render_compound_from(comp, 0, m) {
        Ok(out) => {
            assert(out + Seq::<char>::empty() =~= out);
        },
        Err(f) => {},
    }
    assert(render_if_from(ifn, 0, false, m) == render_if_from(ifn, 1, w, m));
    assert(render_stmt_from(stn, 1, m) == Ok::<Seq<char>, Fault>(Seq::empty()));
    match render_if_from(ifn, 0, false, m) {
        Ok(out) => {
            assert(out + Seq::<char>::empty() =~= out);
        },
        Err(f) => {},
    }
}

/// A text run `b` at `i`, followed by a delimiter, is one text node.
proof fn lemma_text_run_item(s: Seq<char>, i: int, b: Seq<char>)
    requires
        0 <= i,
        i + b.len() <= s.len(),
        s.subrange(i, i + b.len()) == b,
        is_text_run(b),
        opens_tag(s, i + b.len()),
    ensures
        parse_item(s, i) == Some((leaf(Rule::text, s, i, i + b.len()), i + b.len())),
{
    let n = b.len() as int;
    lemma_at(s, i, b);
    assert forall|j: int| i <= j < i + n implies !opens_tag(s, j) by {
        assert(s[j] == b[j - i]);
        if j + 1 < i + n {
            assert(s[j + 1] == b[j + 1 - i]);
            assert(!opens_tag(b, j - i));
        }
    }
    lemma_text_item(s, i, i + n);
}

/// Plain non-empty text from `i` to the end is one text node, and the last child.
proof fn lemma_plain_tail(s: Seq<char>, i: int)
    requires
        0 <= i < s.len(),
        is_plain(s.subrange(i, s.len() as int)),
    ensures
        parse_items(s, i) == (seq![leaf(Rule::text, s, i, s.len() as int)], s.len() as int),
{
    let n = s.len() as int;
    let b = s.subrange(i, n);
    assert forall|j: int| i <= j < n implies !opens_tag(s, j) by {
        assert(!opens_tag(b, j - i));
        assert(b[j - i] == s[j]);
        if j + 1 < n {
            assert(b[j + 1 - i] == s[j + 1]);
        }
    }
    lemma_text_item(s, i, n);
    lemma_no_item_at_end(s);
    assert(seq![leaf(Rule::text, s, i, n)] + Seq::<Node>::empty() =~= seq![leaf(Rule::text, s, i, n)]);
}

/// The whole of `t` parsed as the children `items` of one compound: the document
/// is that compound, and it renders as the compound does.
proof fn lemma_doc_of_items(t: Seq<char>, items: Seq<Node>, m: Map<Seq<char>, Seq<char>>)
    requires
        parse_items(t, 0) == (items, t.len() as int),
        items.len() > 0,
    ensures
        interpolation(t, m) == match render_compound_from(
            branch(Rule::compound, t, 0, t.len() as int, items),
            0,
            m,
        ) {
            Ok(out) => Ok(out),
            Err(f) => Err(TemplateFault::Render(f)),
        },
{
    reveal(interpolation);
    let n = t.len() as int;
    let c = branch(Rule::compound, t, 0, n, items);
    let ns = seq![c] + seq![leaf(Rule::EOI, t, n, n)];
    assert(parse_compound(t, 0) == Some((c, n)));
    assert(parse_rule(Rule::doc, t) == Ok::<Seq<Node>, SyntaxFault>(ns));
    assert(ns[0] == c);
    assert(ns[1].rule == Rule::EOI);
    assert(render_top_from(ns, 2, m) == Ok::<Seq<char>, Fault>(Seq::empty()));
    assert(render_top_from(ns, 1, m) == Ok::<Seq<char>, Fault>(Seq::empty()));
    match render_compound_from(c, 0, m) {
        Ok(out) => {
            assert(out + Seq::<char>::empty() =~= out);
        },
        Err(f) => {},
    }
}

/// A compound with one child renders as that child.
proof fn lemma_single_child(c: Node, m: Map<Seq<char>, Seq<char>>)
    requires
        c.inner.len() == 1,
    ensures
        render_compound_from(c, 0, m) == render_child(c.inner[0], m),
{
    assert(render_compound_from(c, 1, m) == Ok::<Seq<char>, Fault>(Seq::empty()));
    match render_child(c.inner[0], m) {
        Ok(out) => {
            assert(out + Seq::<char>::empty() =~= out);
        },
        Err(f) => {},
    }
}

/// A template without delimiters renders as itself, whatever the mapping.
pub proof fn law_plain_text_passes_through(t: Seq<char>, m: Map<Seq<char>, Seq<char>>)
    requires
        is_plain(t),
    ensures
        interpolation(t, m) == Ok::<Seq<char>, TemplateFault>(t),
{
    lemma_no_item_at_end(t);
    if t.len() == 0 {
        reveal(interpolation);
        assert(parse_item(t, 0) is None);
        assert(render_top_from(seq![leaf(Rule::EOI, t, 0, 0)], 1, m) == Ok::<Seq<char>, Fault>(Seq::empty()));
        assert(t =~= Seq::<char>::empty());
    } else {
        let n = t.len() as int;
        lemma_text_item(t, 0, n);
        let txt = leaf(Rule::text, t, 0, n);
        assert(parse_items(t, 0) == (seq![txt], n)) by {
            assert(seq![txt] + Seq::<Node>::empty() =~= seq![txt]);
        }
        let c = branch(Rule::compound, t, 0, n, seq![txt]);
        assert(t.subrange(0, n) =~= t);
        lemma_single_child(c, m);
        lemma_doc_of_items(t, seq![txt], m);
    }
}

/// The empty template renders as the empty string, whatever the mapping.
pub proof fn law_empty_template(m: Map<Seq<char>, Seq<char>>)
    ensures
        interpolation(Seq::empty(), m) == Ok::<Seq<char>, TemplateFault>(Seq::empty()),
{
    law_plain_text_passes_through(Seq::empty(), m);
}

/// `{{ NAME }}` renders as the value of `NAME` where the mapping has it, and fails
/// with an unresolved variable naming it where it does not.
pub proof fn law_expression(v: Seq<char>, m: Map<Seq<char>, Seq<char>>)
    requires
        is_name(v),
    ensures
        m.contains_key(v) ==> interpolation(expr_of(v), m) == Ok::<Seq<char>, TemplateFault>(m[v]),
        !m.contains_key(v) ==> interpolation(expr_of(v), m) == Err::<Seq<char>, TemplateFault>(
            TemplateFault::Render(Fault::Unresolved(Rule::ident, msg_unresolved(v))),
        ),
{
    let t = expr_of(v);
    let n = t.len() as int;
    assert(t.subrange(0, n) =~= t);
    lemma_expr_item(t, 0, v);
    lemma_no_item_at_end(t);
    let id = leaf(Rule::ident, t, 3, 3 + v.len() as int);
    let e = branch(Rule::expr, t, 0, n, seq![id]);
    assert(parse_items(t, 0) == (seq![e], n)) by {
        assert(seq![e] + Seq::<Node>::empty() =~= seq![e]);
    }
    let c = branch(Rule::compound, t, 0, n, seq![e]);
    lemma_single_child(c, m);
    lemma_doc_of_items(t, seq![e], m);
    assert(render_expr_from(e, 1, m) == Ok::<Seq<char>, Fault>(Seq::empty()));
    if m.contains_key(v) {
        assert(m[v] + Seq::<char>::empty() =~= m[v]);
    }
}


/// `{% if G %}{% endif %}` renders as nothing.
proof fn lemma_if_empty(g: Seq<char>, m: Map<Seq<char>, Seq<char>>)
    requires
        is_name(g),
    ensures
        interpolation(if_block(g, Seq::empty()), m) == Ok::<Seq<char>, TemplateFault>(Seq::empty()),
{
    let t = if_block(g, Seq::empty());
    let a = g.len() as int + 9;
    assert(t.subrange(0, a) =~= if_open(g));
    assert(t.subrange(a, a + 11) =~= if_close());
    lemma_if_empty_layout(t, g, m);
}

proof fn lemma_if_empty_layout(t: Seq<char>, g: Seq<char>, m: Map<Seq<char>, Seq<char>>)
    requires
        is_name(g),
        t.len() == g.len() + 20,
        t.subrange(0, g.len() as int + 9) == if_open(g),
        t.subrange(g.len() as int + 9, g.len() as int + 20) == if_close(),
    ensures
        interpolation(t, m) == Ok::<Seq<char>, TemplateFault>(Seq::empty()),
{
    let a = g.len() as int + 9;
    let n = a + 11;
    let id = leaf(Rule::ident, t, 6, 6 + g.len() as int);
    let st = branch(Rule::if_stmt_start, t, 0, a, seq![id]);
    let en = leaf(Rule::if_stmt_end, t, a, n);
    let ifn = branch(Rule::if_stmt, t, 0, n, seq![st, en]);
    let stn = branch(Rule::stmt, t, 0, n, seq![ifn]);
    assert(parse_items(t, 0) == (seq![stn], n)) by {
        lemma_if_start(t, 0, g);
        lemma_if_end(t, a);
        assert(parse_compound(t, a) is None);
        assert(opt_compound(t, a) == (Seq::<Node>::empty(), a));
        assert(seq![st] + Seq::<Node>::empty() + seq![en] =~= seq![st, en]);
        assert(parse_if(t, 0) == Some((ifn, n)));
        assert(parse_item(t, 0) == Some((stn, n)));
        lemma_no_item_at_end(t);
        assert(seq![stn] + Seq::<Node>::empty() =~= seq![stn]);
    }
    assert(render_child(stn, m) == Ok::<Seq<char>, Fault>(Seq::empty())) by {
        let w = truthy(m, t.subrange(6, 6 + g.len() as int));
        assert(guard_from(st, 1, w, m) == Ok::<bool, Fault>(w));
        assert(render_if_from(ifn, 2, w, m) == Ok::<Seq<char>, Fault>(Seq::empty()));
        assert(render_if_from(ifn, 1, w, m) == Ok::<Seq<char>, Fault>(Seq::empty()));
        assert(render_if_from(ifn, 0, false, m) == Ok::<Seq<char>, Fault>(Seq::empty()));
        assert(render_stmt_from(stn, 1, m) == Ok::<Seq<char>, Fault>(Seq::empty()));
        assert(Seq::<char>::empty() + Seq::<char>::empty() =~= Seq::<char>::empty());
    }
    lemma_doc_of_items(t, seq![stn], m);
    lemma_single_child(branch(Rule::compound, t, 0, n, seq![stn]), m);
}

/// `{% if G %}b{% endif %}`, with raw text `b` that does not end in `{`,
/// renders as `b` where `G` is mapped to a non-empty value, and as nothing where
/// it is unmapped or mapped to the empty string.
pub proof fn law_if_text(g: Seq<char>, b: Seq<char>, m: Map<Seq<char>, Seq<char>>)
    requires
        is_name(g),
        is_plain(b),
        b.len() == 0 || b.last() != '{',
    ensures
        interpolation(if_block(g, b), m) == Ok::<Seq<char>, TemplateFault>(
            if truthy(m, g) {
                b
            } else {
                Seq::empty()
            },
        ),
{
    law_plain_text_passes_through(b, m);
    reveal(interpolation);
    reveal(is_template);
    law_if_block(g, b, m);
}

/// `{% if A %}{% if B %}x{% endif %}{% endif %}`, with raw text `x` that does not
/// end in `{`, renders as `x` where both `A` and `B` are mapped to non-empty
/// values, and as nothing otherwise.
pub proof fn law_nested_if(ga: Seq<char>, gb: Seq<char>, x: Seq<char>, m: Map<Seq<char>, Seq<char>>)
    requires
        is_name(ga),
        is_name(gb),
        is_plain(x),
        x.len() == 0 || x.last() != '{',
    ensures
        interpolation(if_block(ga, if_block(gb, x)), m) == Ok::<Seq<char>, TemplateFault>(
            if truthy(m, ga) && truthy(m, gb) {
                x
            } else {
                Seq::empty()
            },
        ),
{
    law_plain_text_passes_through(x, m);
    reveal(interpolation);
    reveal(is_template);
    law_nested_if_block(ga, gb, x, m);
}

/// A comment on its own renders as nothing, whatever it holds (newlines
/// included) and whatever the mapping.
pub proof fn law_comment_alone(c: Seq<char>, m: Map<Seq<char>, Seq<char>>)
    requires
        is_comment_body(c),
    ensures
        interpolation(comment_of(c), m) == Ok::<Seq<char>, TemplateFault>(Seq::empty()),
{
    let t = comment_of(c);
    let n = t.len() as int;
    assert(t.subrange(0, n) =~= t);
    lemma_comm_item(t, 0, c);
    lemma_no_item_at_end(t);
    let cm = leaf(Rule::comm, t, 0, n);
    assert(parse_items(t, 0) == (seq![cm], n)) by {
        assert(seq![cm] + Seq::<Node>::empty() =~= seq![cm]);
    }
    lemma_doc_of_items(t, seq![cm], m);
    lemma_single_child(branch(Rule::compound, t, 0, n, seq![cm]), m);
}

/// A comment between two runs of raw text leaves them as they are: `a{#c#}b`
/// renders as `ab`.
pub proof fn law_comment_between(a: Seq<char>, c: Seq<char>, b: Seq<char>, m: Map<Seq<char>, Seq<char>>)
    requires
        is_plain(a),
        a.len() == 0 || a.last() != '{',
        is_comment_body(c),
        is_plain(b),
    ensures
        interpolation(a + comment_of(c) + b, m) == Ok::<Seq<char>, TemplateFault>(a + b),
{
    let t = a + comment_of(c) + b;
    let i = a.len() as int;
    let k = i + c.len() as int + 4;
    assert(t.subrange(0, i) =~= a);
    assert(t.subrange(i, k) =~= comment_of(c));
    assert(t.subrange(k, t.len() as int) =~= b);
    lemma_comment_between_layout(t, a, c, b, m);
}

/// The children after a comment: the text run to the end of input, if any.
spec fn tail_items(t: Seq<char>, k: int) -> Seq<Node> {
    if k < t.len() {
        seq![leaf(Rule::text, t, k, t.len() as int)]
    } else {
        Seq::empty()
    }
}

proof fn lemma_comment_between_layout(t: Seq<char>, a: Seq<char>, c: Seq<char>, b: Seq<char>, m: Map<Seq<char>, Seq<char>>)
    requires
        is_plain(a),
        a.len() == 0 || a.last() != '{',
        is_comment_body(c),
        is_plain(b),
        t.len() == a.len() + c.len() + 4 + b.len(),
        t.subrange(0, a.len() as int) == a,
        t.subrange(a.len() as int, a.len() as int + c.len() as int + 4) == comment_of(c),
        t.subrange(a.len() as int + c.len() as int + 4, t.len() as int) == b,
    ensures
        interpolation(t, m) == Ok::<Seq<char>, TemplateFault>(a + b),
{
    let i = a.len() as int;
    let k = i + c.len() as int + 4;
    let n = t.len() as int;
    let ta = leaf(Rule::text, t, 0, i);
    let cm = leaf(Rule::comm, t, i, k);
    let tail = tail_items(t, k);
    assert(parse_items(t, k) == (tail, n)) by {
        if k < n {
            lemma_plain_tail(t, k);
        } else {
            lemma_no_item_at_end(t);
        }
    }
    assert(parse_items(t, i) == (seq![cm] + tail, n)) by {
        lemma_comm_item(t, i, c);
    }
    let items = if i > 0 {
        seq![ta] + (seq![cm] + tail)
    } else {
        seq![cm] + tail
    };
    assert(parse_items(t, 0) == (items, n)) by {
        if i > 0 {
            lemma_at(t, i, comment_of(c));
            assert(comment_of(c)[0] == '{' && comment_of(c)[1] == '#');
            lemma_text_run_item(t, 0, a);
        }
    }
    let comp = branch(Rule::compound, t, 0, n, items);
    let j = if i > 0 { 1int } else { 0int };
    assert(render_compound_from(comp, j + 1, m) == Ok::<Seq<char>, Fault>(b)) by {
        if k < n {
            assert(comp.inner.len() == j + 2);
            assert(comp.inner[j + 1] == leaf(Rule::text, t, k, n));
            assert(render_child(comp.inner[j + 1], m) == Ok::<Seq<char>, Fault>(b));
            assert(render_compound_from(comp, j + 2, m) == Ok::<Seq<char>, Fault>(Seq::empty()));
            assert(b + Seq::<char>::empty() =~= b);
        } else {
            assert(comp.inner.len() == j + 1);
            assert(b =~= Seq::<char>::empty());
        }
    }
    assert(render_compound_from(comp, j, m) == Ok::<Seq<char>, Fault>(b)) by {
        assert(comp.inner[j] == cm);
        assert(render_child(cm, m) == Ok::<Seq<char>, Fault>(Seq::empty()));
        assert(Seq::<char>::empty() + b =~= b);
    }
    assert(render_compound_from(comp, 0, m) == Ok::<Seq<char>, Fault>(a + b)) by {
        if i > 0 {
            assert(comp.inner[0] == ta);
            assert(render_child(ta, m) == Ok::<Seq<char>, Fault>(a));
        } else {
            assert(a =~= Seq::<char>::empty());
            assert(a + b =~= b);
        }
    }
    lemma_doc_of_items(t, items, m);
}

/// `{% if G %}b{% endif %}`, for any well-formed template `b` that does not end
/// in `{`, is well-formed itself, and renders as `b` does where `G` is mapped to
/// a non-empty value, and as nothing where it is unmapped or mapped to the empty
/// string: the body of a false conditional is never evaluated, so what it would
/// fail on does not matter.
pub proof fn law_if_block(g: Seq<char>, b: Seq<char>, m: Map<Seq<char>, Seq<char>>)
    requires
        is_name(g),
        is_template(b),
        b.len() == 0 || b.last() != '{',
    ensures
        is_template(if_block(g, b)),
        truthy(m, g) ==> interpolation(if_block(g, b), m) == interpolation(b, m),
        !truthy(m, g) ==> interpolation(if_block(g, b), m) == Ok::<Seq<char>, TemplateFault>(
            Seq::empty(),
        ),
{
    let t = if_block(g, b);
    let a = g.len() as int + 9;
    let k = a + b.len() as int;
    assert(t.subrange(0, a) =~= if_open(g));
    assert(t.subrange(a, k) =~= b);
    assert(t.subrange(k, k + 11) =~= if_close());
    lemma_if_block_layout(t, g, b, m);
}

proof fn lemma_if_block_layout(t: Seq<char>, g: Seq<char>, b: Seq<char>, m: Map<Seq<char>, Seq<char>>)
    requires
        is_name(g),
        is_template(b),
        b.len() == 0 || b.last() != '{',
        t.len() == g.len() + b.len() + 20,
        t.subrange(0, g.len() as int + 9) == if_open(g),
        t.subrange(g.len() as int + 9, g.len() as int + b.len() as int + 9) == b,
        t.subrange(g.len() as int + b.len() as int + 9, g.len() as int + b.len() as int + 20) == if_close(),
    ensures
        is_template(t),
        truthy(m, g) ==> interpolation(t, m) == interpolation(b, m),
        !truthy(m, g) ==> interpolation(t, m) == Ok::<Seq<char>, TemplateFault>(Seq::empty()),
{
    let a = g.len() as int + 9;
    let k = a + b.len() as int;
    let n = k + 11;
    reveal(is_template);
    let items = parse_items(b, 0).0;
    assert(parse_items(b, 0).1 == b.len()) by {
        crate::grammar::lemma_items_advance(b, 0);
    }
    if items.len() == 0 {
        assert(b =~= Seq::<char>::empty());
        assert(t =~= if_block(g, Seq::empty()));
        lemma_if_empty(g, m);
        law_empty_template(m);
        reveal(interpolation);
        return;
    }
    assert(parse_items(t, a) == (items, k)) by {
        lemma_if_end(t, k);
        lemma_at(t, k, if_close());
        assert(if_close()[0] == '{' && if_close()[1] == '%');
        assert(closed_in(t, b, a));
        lemma_items_loc(t, b, a, 0);
    }
    let st = if_stmt_node(t, 0, g, items, k);
    assert(parse_items(t, 0) == (seq![st], n)) by {
        lemma_if_item(t, 0, g, items, k);
        lemma_no_item_at_end(t);
        assert(seq![st] + Seq::<Node>::empty() =~= seq![st]);
    }
    assert(is_template(t)) by {
        assert(parse_compound(t, 0) == Some((branch(Rule::compound, t, 0, n, seq![st]), n)));
    }
    assert(render_child(st, m) == if truthy(m, g) {
        render_compound_from(branch(Rule::compound, b, 0, b.len() as int, items), 0, m)
    } else {
        Ok(Seq::empty())
    }) by {
        lemma_if_start(t, 0, g);
        lemma_if_render(t, 0, g, items, k, m);
        assert(b.subrange(0, b.len() as int) =~= b);
    }
    lemma_doc_of_items(t, seq![st], m);
    lemma_single_child(branch(Rule::compound, t, 0, n, seq![st]), m);
    lemma_doc_of_items(b, items, m);
}

/// `{% if A %}{% if B %}x{% endif %}{% endif %}`, for any well-formed template
/// `x` that does not end in `{`, renders as `x` does where both `A` and `B` are
/// mapped to non-empty values, and as nothing otherwise, whatever `x` would fail
/// on.
pub proof fn law_nested_if_block(ga: Seq<char>, gb: Seq<char>, x: Seq<char>, m: Map<Seq<char>, Seq<char>>)
    requires
        is_name(ga),
        is_name(gb),
        is_template(x),
        x.len() == 0 || x.last() != '{',
    ensures
        truthy(m, ga) && truthy(m, gb) ==> interpolation(if_block(ga, if_block(gb, x)), m)
            == interpolation(x, m),
        !(truthy(m, ga) && truthy(m, gb)) ==> interpolation(if_block(ga, if_block(gb, x)), m)
            == Ok::<Seq<char>, TemplateFault>(Seq::empty()),
{
    law_if_block(gb, x, m);
    let inner = if_block(gb, x);
    assert(inner.last() == '}');
    law_if_block(ga, inner, m);
}

} // verus!
