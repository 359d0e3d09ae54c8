//! Parsing a text embedded in a larger one: where the embedded text parses as
//! the children of a compound on its own, the larger one gives the same nodes.

use vstd::prelude::*;

use crate::grammar::{
    branch, comment_close, has2, ident_end, is_ident_char, is_ws, leaf, opens_tag, opt_compound,
    parse_comm, parse_compound, parse_expr, parse_ident, parse_if, parse_if_end, parse_if_start,
    parse_item, parse_items, parse_stmt, parse_text, skip_ws, text_end,
};
use crate::tree::Node;

verus! {

/// `b` stands in `s` at `off`, and `{%` follows it there.
pub open spec fn embedded(s: Seq<char>, b: Seq<char>, off: int) -> bool {
    &&& 0 <= off
    &&& off + b.len() + 2 <= s.len()
    &&& s.subrange(off, off + b.len()) == b
    &&& s[off + b.len()] == '{'
    &&& s[off + b.len() + 1] == '%'
    &&& (b.len() == 0 || b.last() != '{')
}

proof fn lemma_chars(s: Seq<char>, b: Seq<char>, off: int)
    requires
        embedded(s, b, off),
    ensures
        forall|j: int| 0 <= j < b.len() ==> #[trigger] s[off + j] == b[j],
{
    assert forall|j: int| 0 <= j < b.len() implies #[trigger] s[off + j] == b[j] by {
        assert(s.subrange(off, off + b.len())[j] == s[off + j]);
    }
}

proof fn lemma_span(s: Seq<char>, b: Seq<char>, off: int, i: int, e: int)
    requires
        embedded(s, b, off),
        0 <= i <= e <= b.len(),
    ensures
        s.subrange(off + i, off + e) == b.subrange(i, e),
{
    lemma_chars(s, b, off);
    assert(s.subrange(off + i, off + e) =~= b.subrange(i, e));
}

proof fn lemma_has2(s: Seq<char>, b: Seq<char>, off: int, j: int, x: char, y: char)
    requires
        embedded(s, b, off),
        has2(b, j, x, y),
    ensures
        has2(s, off + j, x, y),
{
    lemma_chars(s, b, off);
    assert(s[off + j] == b[j]);
    assert(s[off + (j + 1)] == b[j + 1]);
}

proof fn lemma_skip_ws(s: Seq<char>, b: Seq<char>, off: int, j: int)
    requires
        embedded(s, b, off),
        0 <= j <= b.len(),
    ensures
        skip_ws(s, off + j) == off + skip_ws(b, j),
        j <= skip_ws(b, j) <= b.len(),
    decreases b.len() - j,
{
    lemma_chars(s, b, off);
    if j < b.len() {
        assert(s[off + j] == b[j]);
        if is_ws(b[j]) {
            lemma_skip_ws(s, b, off, j + 1);
        }
    }
}

proof fn lemma_ident_end(s: Seq<char>, b: Seq<char>, off: int, j: int)
    requires
        embedded(s, b, off),
        0 <= j <= b.len(),
    ensures
        ident_end(s, off + j) == off + ident_end(b, j),
        j <= ident_end(b, j) <= b.len(),
    decreases b.len() - j,
{
    lemma_chars(s, b, off);
    if j < b.len() {
        assert(s[off + j] == b[j]);
        if is_ident_char(b[j]) {
            lemma_ident_end(s, b, off, j + 1);
        }
    }
}

proof fn lemma_opens_tag(s: Seq<char>, b: Seq<char>, off: int, j: int)
    requires
        embedded(s, b, off),
        0 <= j < b.len(),
    ensures
        opens_tag(s, off + j) == opens_tag(b, j),
{
    lemma_chars(s, b, off);
    assert(s[off + j] == b[j]);
    if j + 1 < b.len() {
        assert(s[off + (j + 1)] == b[j + 1]);
    } else {
        assert(b.last() == b[j]);
    }
}

proof fn lemma_text_end(s: Seq<char>, b: Seq<char>, off: int, j: int)
    requires
        embedded(s, b, off),
        0 <= j <= b.len(),
    ensures
        text_end(s, off + j) == off + text_end(b, j),
        j <= text_end(b, j) <= b.len(),
    decreases b.len() - j,
{
    if j < b.len() {
        lemma_opens_tag(s, b, off, j);
        if !opens_tag(b, j) {
            lemma_text_end(s, b, off, j + 1);
        }
    } else {
        assert(opens_tag(s, off + j));
    }
}

proof fn lemma_comment_close(s: Seq<char>, b: Seq<char>, off: int, j: int)
    requires
        embedded(s, b, off),
        0 <= j,
        comment_close(b, j) is Some,
    ensures
        comment_close(s, off + j) == Some(off + comment_close(b, j)->Some_0),
        comment_close(b, j)->Some_0 + 2 <= b.len(),
        comment_close(b, j)->Some_0 >= j,
    decreases b.len() - j,
{
    lemma_chars(s, b, off);
    assert(s[off + j] == b[j]);
    assert(s[off + (j + 1)] == b[j + 1]);
    if !has2(b, j, '#', '}') {
        lemma_comment_close(s, b, off, j + 1);
    }
}


proof fn lemma_ident(s: Seq<char>, b: Seq<char>, off: int, j: int)
    requires
        embedded(s, b, off),
        0 <= j <= b.len(),
        parse_ident(b, j) is Some,
    ensures
        parse_ident(s, off + j) == Some(
            (parse_ident(b, j)->Some_0.0, off + parse_ident(b, j)->Some_0.1),
        ),
        j < parse_ident(b, j)->Some_0.1 <= b.len(),
{
    lemma_chars(s, b, off);
    assert(s[off + j] == b[j]);
    lemma_ident_end(s, b, off, j + 1);
    lemma_span(s, b, off, j, ident_end(b, j + 1));
}

proof fn lemma_expr(s: Seq<char>, b: Seq<char>, off: int, j: int)
    requires
        embedded(s, b, off),
        0 <= j <= b.len(),
        parse_expr(b, j) is Some,
    ensures
        parse_expr(s, off + j) == Some(
            (parse_expr(b, j)->Some_0.0, off + parse_expr(b, j)->Some_0.1),
        ),
        j < parse_expr(b, j)->Some_0.1 <= b.len(),
{
    lemma_has2(s, b, off, j, '{', '{');
    lemma_skip_ws(s, b, off, j + 2);
    let a = skip_ws(b, j + 2);
    lemma_ident(s, b, off, a);
    let d = parse_ident(b, a)->Some_0.1;
    lemma_skip_ws(s, b, off, d);
    let c = skip_ws(b, d);
    lemma_has2(s, b, off, c, '}', '}');
    lemma_span(s, b, off, j, c + 2);
}

proof fn lemma_comm(s: Seq<char>, b: Seq<char>, off: int, j: int)
    requires
        embedded(s, b, off),
        0 <= j <= b.len(),
        parse_comm(b, j) is Some,
    ensures
        parse_comm(s, off + j) == Some(
            (parse_comm(b, j)->Some_0.0, off + parse_comm(b, j)->Some_0.1),
        ),
        j < parse_comm(b, j)->Some_0.1 <= b.len(),
{
    lemma_has2(s, b, off, j, '{', '#');
    lemma_comment_close(s, b, off, j + 2);
    let x = comment_close(b, j + 2)->Some_0;
    lemma_span(s, b, off, j, x + 2);
}

proof fn lemma_text(s: Seq<char>, b: Seq<char>, off: int, j: int)
    requires
        embedded(s, b, off),
        0 <= j <= b.len(),
        parse_text(b, j) is Some,
    ensures
        parse_text(s, off + j) == Some(
            (parse_text(b, j)->Some_0.0, off + parse_text(b, j)->Some_0.1),
        ),
        j < parse_text(b, j)->Some_0.1 <= b.len(),
{
    lemma_text_end(s, b, off, j);
    lemma_span(s, b, off, j, text_end(b, j));
}

proof fn lemma_if_start(s: Seq<char>, b: Seq<char>, off: int, j: int)
    requires
        embedded(s, b, off),
        0 <= j <= b.len(),
        parse_if_start(b, j) is Some,
    ensures
        parse_if_start(s, off + j) == Some(
            (parse_if_start(b, j)->Some_0.0, off + parse_if_start(b, j)->Some_0.1),
        ),
        j < parse_if_start(b, j)->Some_0.1 <= b.len(),
{
    lemma_has2(s, b, off, j, '{', '%');
    lemma_skip_ws(s, b, off, j + 2);
    let a = skip_ws(b, j + 2);
    lemma_has2(s, b, off, a, 'i', 'f');
    lemma_skip_ws(s, b, off, a + 2);
    let c = skip_ws(b, a + 2);
    lemma_ident(s, b, off, c);
    let d = parse_ident(b, c)->Some_0.1;
    lemma_skip_ws(s, b, off, d);
    let e = skip_ws(b, d);
    lemma_has2(s, b, off, e, '%', '}');
    lemma_span(s, b, off, j, e + 2);
}

proof fn lemma_if_end(s: Seq<char>, b: Seq<char>, off: int, j: int)
    requires
        embedded(s, b, off),
        0 <= j <= b.len(),
        parse_if_end(b, j) is Some,
    ensures
        parse_if_end(s, off + j) == Some(
            (parse_if_end(b, j)->Some_0.0, off + parse_if_end(b, j)->Some_0.1),
        ),
        j < parse_if_end(b, j)->Some_0.1 <= b.len(),
        parse_item(s, off + j) is None,
        parse_item(b, j) is None,
{
    lemma_has2(s, b, off, j, '{', '%');
    lemma_skip_ws(s, b, off, j + 2);
    let a = skip_ws(b, j + 2);
    lemma_has2(s, b, off, a, 'e', 'n');
    lemma_has2(s, b, off, a + 2, 'd', 'i');
    lemma_chars(s, b, off);
    assert(s[off + (a + 4)] == b[a + 4]);
    lemma_skip_ws(s, b, off, a + 5);
    let e = skip_ws(b, a + 5);
    lemma_has2(s, b, off, e, '%', '}');
    lemma_span(s, b, off, j, e + 2);
    assert(parse_if_start(s, off + j) is None);
    assert(parse_if(s, off + j) is None);
    assert(parse_stmt(s, off + j) is None);
    assert(text_end(s, off + j) == off + j);
    assert(parse_if_start(b, j) is None);
    assert(parse_if(b, j) is None);
    assert(parse_stmt(b, j) is None);
    assert(text_end(b, j) == j);
}


/// `b` stands in `s` at `off`, and no child of a compound starts right after it.
pub open spec fn closed_in(s: Seq<char>, b: Seq<char>, off: int) -> bool {
    embedded(s, b, off) && parse_item(s, off + b.len()) is None
}

proof fn lemma_if_loc(s: Seq<char>, b: Seq<char>, off: int, j: int)
    requires
        closed_in(s, b, off),
        0 <= j <= b.len(),
        parse_if(b, j) is Some,
    ensures
        parse_if(s, off + j) == Some((parse_if(b, j)->Some_0.0, off + parse_if(b, j)->Some_0.1)),
        j < parse_if(b, j)->Some_0.1 <= b.len(),
    decreases b.len() - j, 1int,
{
    lemma_if_start(s, b, off, j);
    let a = parse_if_start(b, j)->Some_0.1;
    let x = parse_items(b, a).1;
    crate::grammar::lemma_items_advance(b, a);
    assert(opt_compound(b, a).1 == x);
    lemma_if_end(s, b, off, x);
    lemma_items_loc(s, b, off, a);
    let items = parse_items(b, a).0;
    if items.len() > 0 {
        lemma_span(s, b, off, a, x);
        assert(parse_compound(s, off + a) == Some((branch(crate::tree::Rule::compound, b, a, x, items), off + x)));
    }
    assert(opt_compound(s, off + a) == (opt_compound(b, a).0, off + x));
    let c = parse_if_end(b, x)->Some_0.1;
    lemma_span(s, b, off, j, c);
}

proof fn lemma_stmt_loc(s: Seq<char>, b: Seq<char>, off: int, j: int)
    requires
        closed_in(s, b, off),
        0 <= j <= b.len(),
        parse_stmt(b, j) is Some,
    ensures
        parse_stmt(s, off + j) == Some(
            (parse_stmt(b, j)->Some_0.0, off + parse_stmt(b, j)->Some_0.1),
        ),
        j < parse_stmt(b, j)->Some_0.1 <= b.len(),
    decreases b.len() - j, 2int,
{
    lemma_if_loc(s, b, off, j);
    lemma_span(s, b, off, j, parse_if(b, j)->Some_0.1);
}

proof fn lemma_item_loc(s: Seq<char>, b: Seq<char>, off: int, j: int)
    requires
        closed_in(s, b, off),
        0 <= j <= b.len(),
        parse_item(b, j) is Some,
    ensures
        parse_item(s, off + j) == Some(
            (parse_item(b, j)->Some_0.0, off + parse_item(b, j)->Some_0.1),
        ),
        j < parse_item(b, j)->Some_0.1 <= b.len(),
    decreases b.len() - j, 3int,
{
    lemma_chars(s, b, off);
    if parse_stmt(b, j) is Some {
        lemma_stmt_loc(s, b, off, j);
    } else if parse_expr(b, j) is Some {
        lemma_expr(s, b, off, j);
        assert(s[off + (j + 1)] == b[j + 1]);
        assert(parse_if_start(s, off + j) is None);
        assert(parse_if(s, off + j) is None);
        assert(parse_stmt(s, off + j) is None);
    } else if parse_comm(b, j) is Some {
        lemma_comm(s, b, off, j);
        assert(s[off + (j + 1)] == b[j + 1]);
        assert(parse_if_start(s, off + j) is None);
        assert(parse_if(s, off + j) is None);
        assert(parse_stmt(s, off + j) is None);
        assert(parse_expr(s, off + j) is None);
    } else {
        lemma_text(s, b, off, j);
        lemma_opens_tag(s, b, off, j);
        assert(!opens_tag(s, off + j));
        assert(parse_if_start(s, off + j) is None);
        assert(parse_if(s, off + j) is None);
        assert(parse_stmt(s, off + j) is None);
        assert(parse_expr(s, off + j) is None);
        assert(parse_comm(s, off + j) is None);
    }
}

/// Parsing the children of a compound from `j` in `b`, where they end either at
/// the end of `b` or at an `{% endif %}`, gives the same children in `s`.
pub proof fn lemma_items_loc(s: Seq<char>, b: Seq<char>, off: int, j: int)
    requires
        closed_in(s, b, off),
        0 <= j <= b.len(),
        parse_items(b, j).1 == b.len() || parse_if_end(b, parse_items(b, j).1) is Some,
    ensures
        parse_items(s, off + j) == (parse_items(b, j).0, off + parse_items(b, j).1),
        j <= parse_items(b, j).1 <= b.len(),
    decreases b.len() - j, 4int,
{
    if parse_item(b, j) is Some {
        lemma_item_loc(s, b, off, j);
        let e = parse_item(b, j)->Some_0.1;
        lemma_items_loc(s, b, off, e);
    } else if j < b.len() {
        lemma_if_end(s, b, off, j);
    }
}

} // verus!
