use vstd::prelude::*;
use crate::ast::expressions::{Expression, ExpressionKind, spec_expr};
use crate::ast::expressions::literal::LiteralInfo;
use crate::ast::expressions::operations::{BinaryOperation, BinaryOperator, binary_symbol};
use crate::parser::{is_ident_char, is_ident_start, is_keyword, is_ws, next_char, ws_skip, ws_end, starts_with_word, lemma_ws_skip};
use crate::parser::precedence::{ExpressionString, Operation, spec_build, shunt_state, flush, to_postfix, run, drain, apply_one};
use crate::ast::expressions::call::Call;

verus! {

/// The operators that the expression grammar reads between two operands
/// without looking further: `==`, `+` and `*`.
pub open spec fn read_operator(op: BinaryOperator) -> bool {
    op == BinaryOperator::Equal || op == BinaryOperator::Addition || op == BinaryOperator::Multiplication
}

/// A word that names something: an identifier that is not reserved.
pub open spec fn is_name(w: Seq<char>) -> bool {
    &&& w.len() > 0
    &&& is_ident_start(w[0])
    &&& forall|i: int| 0 < i < w.len() ==> #[trigger] is_ident_char(w[i])
    &&& !is_keyword(w)
}

/// A decimal number: one digit or more.
pub open spec fn is_digits(w: Seq<char>) -> bool {
    &&& w.len() > 0
    &&& forall|i: int| 0 <= i < w.len() ==> '0' <= #[trigger] w[i] <= '9'
}

/// A word that an operand is written as: a name or a number.
pub open spec fn operand_word(w: Seq<char>) -> bool {
    is_name(w) || is_digits(w)
}

/// `e` is the operand written as the word `w`: the integer literal of a
/// number, or the one-segment name; its type not known, not constant.
pub open spec fn denotes_word(e: Expression, w: Seq<char>) -> bool {
    &&& e.ret_ty is None
    &&& !e.constant
    &&& if is_digits(w) {
        *e.kind matches ExpressionKind::Literal(l) && l.info == (LiteralInfo::Integer { signed: None, precision: None })
            && l.data@ == w
    } else {
        *e.kind matches ExpressionKind::Identifier(p) && p.v@.len() == 1 && p.v@[0].ident@ == w
            && p.v@[0].template_spec@.len() == 0
    }
}

/// A chain: operand words joined by operators that the grammar reads
/// directly, one operator fewer than words.
pub open spec fn valid_chain(ws: Seq<Seq<char>>, ops: Seq<BinaryOperator>) -> bool {
    &&& ws.len() >= 1
    &&& ops.len() == ws.len() - 1
    &&& forall|i: int| 0 <= i < ws.len() ==> operand_word(#[trigger] ws[i])
    &&& forall|i: int| 0 <= i < ops.len() ==> read_operator(#[trigger] ops[i])
}

/// The text of a chain: the words, each operator between single spaces.
pub open spec fn chain_text(ws: Seq<Seq<char>>, ops: Seq<BinaryOperator>) -> Seq<char>
    decreases ws.len(),
{
    if ws.len() <= 1 || ops.len() == 0 {
        if ws.len() == 0 { Seq::empty() } else { ws[0] }
    } else {
        ws[0] + seq![' '] + binary_symbol(ops[0]) + seq![' '] + chain_text(ws.drop_first(), ops.drop_first())
    }
}

/// `e` is the chain: its first word, or the first operator applied to the
/// first word and the rest of the chain (nested to the right).
pub open spec fn denotes_chain(e: Expression, ws: Seq<Seq<char>>, ops: Seq<BinaryOperator>) -> bool
    decreases ws.len(),
{
    if ws.len() <= 1 {
        ws.len() == 1 && denotes_word(e, ws[0])
    } else {
        &&& ops.len() >= 1
        &&& e.ret_ty is None
        &&& !e.constant
        &&& *e.kind matches ExpressionKind::BinaryOperation(b)
        &&& b.operator == ops[0]
        &&& denotes_word(b.operands[0], ws[0])
        &&& denotes_chain(b.operands[1], ws.drop_first(), ops.drop_first())
    }
}

/// After whitespace, the text at `pos` starts with the operator `op`.
pub open spec fn operator_written(s: Seq<char>, pos: int, op: BinaryOperator) -> bool {
    &&& ws_skip(s, pos) + binary_symbol(op).len() <= s.len()
    &&& s.subrange(ws_skip(s, pos), ws_skip(s, pos) + binary_symbol(op).len()) == binary_symbol(op)
    &&& op == BinaryOperator::Lesser ==> !(ws_skip(s, pos) + 1 < s.len() && s[ws_skip(s, pos) + 1] == '=')
}

/// The operators read after an operand: those of a chain, and `<` and `<=`.
pub open spec fn reads_after_operand(op: BinaryOperator) -> bool {
    read_operator(op) || op == BinaryOperator::Lesser || op == BinaryOperator::LesserOrEqual
}

/// What may follow an expression: the end of the text, or, after
/// whitespace, `)`, `;`, `}`, `]` or `,`.
pub open spec fn closes_expression(s: Seq<char>, pos: int) -> bool {
    match next_char(s, pos) {
        None => true,
        Some(c) => c == ')' || c == ';' || c == '}' || c == ']' || c == ',',
    }
}

/// After whitespace, the text at `pos` is the word `w`, and what follows it
/// neither continues the word nor starts a path segment (`::`), a template
/// (`<`) or a struct literal (`{`).
pub open spec fn word_written(s: Seq<char>, pos: int, w: Seq<char>) -> bool {
    let a = ws_skip(s, pos);
    &&& a + w.len() <= s.len()
    &&& s.subrange(a, a + w.len()) == w
    &&& (a + w.len() == s.len() || !is_ident_char(s[a + w.len()]))
    &&& next_char(s, a + w.len()) != Some(':')
    &&& next_char(s, a + w.len()) != Some('<')
    &&& next_char(s, a + w.len()) != Some('{')
}

/// A `<` before `p` opens no template arguments: what follows it cannot
/// start a path, or it is the name `w2` followed by neither `,` nor `>`.
pub open spec fn template_fails(s: Seq<char>, p: int, w2: Seq<char>) -> bool {
    ||| !(next_char(s, p) matches Some(c) && (is_ident_start(c) || c == ':'))
    ||| is_name(w2) && word_written(s, p, w2) && next_char(s, ws_skip(s, p) + w2.len()) != Some(',') && next_char(
        s,
        ws_skip(s, p) + w2.len(),
    ) != Some('>')
}

/// After whitespace, the text at `pos` is the word `w`, followed by a `<`
/// that opens no template arguments (see `template_fails`, with `w2` the
/// name after it, if any).
pub open spec fn lt_word_written(s: Seq<char>, pos: int, w: Seq<char>, w2: Seq<char>) -> bool {
    let a = ws_skip(s, pos);
    &&& a + w.len() <= s.len()
    &&& s.subrange(a, a + w.len()) == w
    &&& (a + w.len() == s.len() || !is_ident_char(s[a + w.len()]))
    &&& next_char(s, a + w.len()) == Some('<')
    &&& template_fails(s, ws_skip(s, a + w.len()) + 1, w2)
}

/// After whitespace, the text at `pos` is the chain, and the expression
/// closes after it.
pub open spec fn chain_written(s: Seq<char>, pos: int, ws: Seq<Seq<char>>, ops: Seq<BinaryOperator>) -> bool {
    let a = ws_skip(s, pos);
    &&& a + chain_text(ws, ops).len() <= s.len()
    &&& s.subrange(a, a + chain_text(ws, ops).len()) == chain_text(ws, ops)
    &&& closes_expression(s, a + chain_text(ws, ops).len())
}

/// Where the operator written at `pos` ends.
pub open spec fn operator_end(s: Seq<char>, pos: int, op: BinaryOperator) -> int {
    ws_skip(s, pos) + binary_symbol(op).len()
}

/// Where a chain written at `pos` ends.
pub open spec fn chain_end(s: Seq<char>, pos: int, ws: Seq<Seq<char>>, ops: Seq<BinaryOperator>) -> int {
    ws_skip(s, pos) + chain_text(ws, ops).len()
}

/// A path of names: one name or more.
pub open spec fn valid_path(ws: Seq<Seq<char>>) -> bool {
    &&& ws.len() >= 1
    &&& forall|i: int| 0 <= i < ws.len() ==> is_name(#[trigger] ws[i])
}

/// The text of a path: its names joined by `::`.
pub open spec fn path_text(ws: Seq<Seq<char>>) -> Seq<char>
    decreases ws.len(),
{
    if ws.len() <= 1 {
        if ws.len() == 0 { Seq::empty() } else { ws[0] }
    } else {
        path_text(ws.drop_last()) + seq![':', ':'] + ws.last()
    }
}

/// After whitespace, the text at `pos` is the name `w`, and no template
/// (`<`) follows it.
pub open spec fn segment_written(s: Seq<char>, pos: int, w: Seq<char>) -> bool {
    let a = ws_skip(s, pos);
    &&& a + w.len() <= s.len()
    &&& s.subrange(a, a + w.len()) == w
    &&& (a + w.len() == s.len() || !is_ident_char(s[a + w.len()]))
    &&& next_char(s, a + w.len()) != Some('<')
}

/// The text at `p`, after whitespace, starts with `::`.
pub open spec fn double_colon_at(s: Seq<char>, p: int) -> bool {
    ws_skip(s, p) + 2 <= s.len() && s.subrange(ws_skip(s, p), ws_skip(s, p) + 2) == seq![':', ':']
}

/// After whitespace, the text at `pos` is the path, and no template and no
/// further name (`::` and a name) follows it; `::` and something else may.
pub open spec fn path_written(s: Seq<char>, pos: int, ws: Seq<Seq<char>>) -> bool {
    let a = ws_skip(s, pos);
    let e = a + path_text(ws).len();
    &&& e <= s.len()
    &&& s.subrange(a, e) == path_text(ws)
    &&& (e == s.len() || !is_ident_char(s[e]))
    &&& next_char(s, e) != Some('<')
    &&& double_colon_at(s, e) ==> !(next_char(s, ws_skip(s, e) + 2) matches Some(c) && is_ident_start(c))
}

/// The text of the first names of a path starts its text, and `::` follows
/// it unless they are all of it.
pub proof fn lemma_path_text_prefix(ws: Seq<Seq<char>>, j: int)
    requires
        valid_path(ws),
        1 <= j <= ws.len(),
    ensures
        path_text(ws.take(j)).len() <= path_text(ws).len(),
        path_text(ws).subrange(0, path_text(ws.take(j)).len() as int) == path_text(ws.take(j)),
        j < ws.len() ==> path_text(ws.take(j)).len() + 2 + ws[j].len() <= path_text(ws).len() && path_text(ws).subrange(
            path_text(ws.take(j)).len() as int,
            (path_text(ws.take(j)).len() + 2 + ws[j].len()) as int,
        ) == seq![':', ':'] + ws[j],
    decreases ws.len(),
{
    let n = ws.len() as int;
    lemma_path_text_len(ws.take(j));
    if j == n {
        assert(ws.take(j) =~= ws);
        assert(path_text(ws).subrange(0, path_text(ws).len() as int) =~= path_text(ws));
    } else {
        let d = ws.drop_last();
        assert(valid_path(d)) by {
            assert forall|i: int| 0 <= i < d.len() implies is_name(#[trigger] d[i]) by {
                assert(d[i] == ws[i]);
            }
        }
        assert(d.take(j) =~= ws.take(j));
        let t = path_text(ws);
        let td = path_text(d);
        assert(t == td + seq![':', ':'] + ws.last());
        let pj = path_text(ws.take(j));
        if j < n - 1 {
            lemma_path_text_prefix(d, j);
            assert(d[j] == ws[j]);
            assert(t.subrange(0, pj.len() as int) =~= td.subrange(0, pj.len() as int));
            assert(t.subrange(pj.len() as int, (pj.len() + 2 + ws[j].len()) as int) =~= td.subrange(
                pj.len() as int,
                (pj.len() + 2 + ws[j].len()) as int,
            ));
        } else {
            assert(d =~= ws.take(j));
            assert(t.subrange(0, pj.len() as int) =~= pj);
            assert(t.subrange(pj.len() as int, (pj.len() + 2 + ws[j].len()) as int) =~= seq![':', ':'] + ws[j]);
        }
    }
}

/// A path's text is at least as long as its first name.
pub proof fn lemma_path_text_len(ws: Seq<Seq<char>>)
    requires
        ws.len() >= 1,
    ensures
        path_text(ws).len() >= ws[0].len(),
    decreases ws.len(),
{
    if ws.len() > 1 {
        lemma_path_text_len(ws.drop_last());
    }
}

/// A path written at `pos`: its first name is written there as a segment,
/// and the first character is that name's.
pub proof fn lemma_path_first(s: Seq<char>, pos: int, ws: Seq<Seq<char>>)
    requires
        0 <= pos <= s.len(),
        valid_path(ws),
        path_written(s, pos, ws),
    ensures
        segment_written(s, pos, ws[0]),
        next_char(s, pos) == Some(ws[0][0]),
        ws.take(1) == seq![ws[0]],
        path_text(ws.take(1)) == ws[0],
{
    crate::parser::lemma_ws_skip_end(s, pos);
    let a = ws_skip(s, pos);
    let t = path_text(ws);
    assert(ws.take(1) =~= seq![ws[0]]);
    lemma_path_text_prefix(ws, 1);
    let w = ws[0];
    assert(is_name(w));
    assert forall|i: int| 0 <= i < t.len() implies s[a + i] == t[i] by {
        assert(s.subrange(a, a + t.len())[i] == s[a + i]);
    }
    assert(s.subrange(a, a + w.len()) =~= w) by {
        assert forall|i: int| 0 <= i < w.len() implies s.subrange(a, a + w.len())[i] == w[i] by {
            assert(t.subrange(0, w.len() as int)[i] == t[i]);
        }
    }
    assert(s[a] == w[0]);
    crate::parser::lemma_next_char_at(s, pos, a);
    let d = a + w.len();
    if ws.len() > 1 {
        assert(t.subrange(w.len() as int, (w.len() + 2 + ws[1].len()) as int)[0] == t[w.len() as int]);
        assert(s[d] == ':');
        assert(ws_skip(s, d) == d);
        assert(next_char(s, d) == Some(':'));
    } else {
        assert(ws.take(1) =~= ws);
    }
}

/// After the first `k` names of a path written at `pos` comes `::`
/// (directly) and then the next name, written as a segment, ending where
/// the text of the first `k + 1` names ends.
pub proof fn lemma_path_step(s: Seq<char>, pos: int, ws: Seq<Seq<char>>, k: int)
    requires
        0 <= pos <= s.len(),
        valid_path(ws),
        path_written(s, pos, ws),
        1 <= k < ws.len(),
    ensures
        ({
            let c = ws_skip(s, pos) + path_text(ws.take(k)).len();
            &&& double_colon_at(s, c)
            &&& ws_skip(s, c) == c
            &&& ws_skip(s, c + 2) == c + 2
            &&& segment_written(s, c + 2, ws[k])
            &&& c + 2 + ws[k].len() == ws_skip(s, pos) + path_text(ws.take(k + 1)).len()
        }),
{
    crate::parser::lemma_ws_skip_end(s, pos);
    let a = ws_skip(s, pos);
    let t = path_text(ws);
    lemma_path_text_prefix(ws, k);
    let pk = path_text(ws.take(k));
    let c = a + pk.len();
    let w = ws[k];
    assert(is_name(w));
    assert forall|i: int| 0 <= i < t.len() implies s[a + i] == t[i] by {
        assert(s.subrange(a, a + t.len())[i] == s[a + i]);
    }
    let mid = t.subrange(pk.len() as int, (pk.len() + 2 + w.len()) as int);
    assert forall|i: int| 0 <= i < 2 + w.len() implies s[c + i] == mid[i] by {
        assert(mid[i] == t[pk.len() + i]);
    }
    assert(mid[0] == ':' && mid[1] == ':');
    assert(s[c] == ':');
    assert(s[c + 1] == ':');
    assert(ws_skip(s, c) == c);
    assert(s.subrange(c, c + 2) =~= seq![':', ':']);
    assert(mid[2] == w[0]);
    assert(s[c + 2] == w[0]);
    assert(ws_skip(s, c + 2) == c + 2);
    assert(s.subrange(c + 2, c + 2 + w.len()) =~= w) by {
        assert forall|i: int| 0 <= i < w.len() implies s.subrange(c + 2, c + 2 + w.len())[i] == w[i] by {
            assert(mid[2 + i] == w[i]);
        }
    }
    assert(ws.take(k + 1).drop_last() =~= ws.take(k));
    assert(path_text(ws.take(k + 1)) == pk + seq![':', ':'] + w);
    let d = c + 2 + w.len();
    if k + 1 < ws.len() {
        lemma_path_text_prefix(ws, k + 1);
        let pk1 = path_text(ws.take(k + 1));
        assert(t.subrange(pk1.len() as int, (pk1.len() + 2 + ws[k + 1].len()) as int)[0] == t[pk1.len() as int]);
        assert(s[d] == ':');
        assert(ws_skip(s, d) == d);
        assert(next_char(s, d) == Some(':'));
    } else {
        assert(ws.take(k + 1) =~= ws);
    }
}

/// From `p` on, the chains of `chs` are written as arguments: separated by
/// `,`, and `)` after the last (or at once, when there are none).
pub open spec fn args_written(s: Seq<char>, p: int, chs: Seq<(Seq<Seq<char>>, Seq<BinaryOperator>)>) -> bool
    decreases chs.len(),
{
    if chs.len() == 0 {
        next_char(s, p) == Some(')')
    } else {
        &&& valid_chain(chs[0].0, chs[0].1)
        &&& chain_written(s, p, chs[0].0, chs[0].1)
        &&& if chs.len() == 1 {
            next_char(s, chain_end(s, p, chs[0].0, chs[0].1)) == Some(')')
        } else {
            &&& next_char(s, chain_end(s, p, chs[0].0, chs[0].1)) == Some(',')
            &&& args_written(s, ws_skip(s, chain_end(s, p, chs[0].0, chs[0].1)) + 1, chs.drop_first())
        }
    }
}

/// Where the `)` after the arguments written from `p` ends.
pub open spec fn args_end(s: Seq<char>, p: int, chs: Seq<(Seq<Seq<char>>, Seq<BinaryOperator>)>) -> int
    decreases chs.len(),
{
    if chs.len() == 0 {
        ws_skip(s, p) + 1
    } else if chs.len() == 1 {
        ws_skip(s, chain_end(s, p, chs[0].0, chs[0].1)) + 1
    } else {
        args_end(s, ws_skip(s, chain_end(s, p, chs[0].0, chs[0].1)) + 1, chs.drop_first())
    }
}

/// `es` are the chains of `chs`, one for one.
pub open spec fn denotes_chains(es: Seq<Expression>, chs: Seq<(Seq<Seq<char>>, Seq<BinaryOperator>)>) -> bool {
    &&& es.len() == chs.len()
    &&& forall|i: int| 0 <= i < chs.len() ==> denotes_chain(#[trigger] es[i], chs[i].0, chs[i].1)
}

/// When a word made of identifier characters starts at `pos`, the word
/// written there is that word.
pub proof fn lemma_written_word_is_keyword(s: Seq<char>, pos: int, w: Seq<char>, kw: Seq<char>)
    requires
        0 <= pos <= s.len(),
        ws_skip(s, pos) + w.len() <= s.len(),
        s.subrange(ws_skip(s, pos), ws_skip(s, pos) + w.len()) == w,
        ws_skip(s, pos) + w.len() == s.len() || !is_ident_char(s[ws_skip(s, pos) + w.len()]),
        w.len() > 0,
        forall|i: int| 0 <= i < w.len() ==> #[trigger] is_ident_char(w[i]),
        forall|i: int| 0 <= i < kw.len() ==> #[trigger] is_ident_char(kw[i]),
        starts_with_word(s, pos, kw),
    ensures
        w == kw,
{
    let q = choose|q: int| #![trigger ws_end(s, pos, q)] ws_end(s, pos, q) && q + kw.len() <= s.len() && s.subrange(q, q + kw.len()) == kw
        && (q + kw.len() == s.len() || !is_ident_char(s[q + kw.len()]));
    lemma_ws_skip(s, pos, q);
    let a = ws_skip(s, pos);
    assert forall|i: int| 0 <= i < w.len() implies s[a + i] == w[i] by {
        assert(s.subrange(a, a + w.len())[i] == s[a + i]);
    }
    assert forall|i: int| 0 <= i < kw.len() implies s[a + i] == kw[i] by {
        assert(s.subrange(a, a + kw.len())[i] == s[a + i]);
    }
    if kw.len() < w.len() {
        let k = kw.len() as int;
        assert(s[a + k] == w[k]);
        assert(is_ident_char(w[k]));
    } else if w.len() < kw.len() {
        let k = w.len() as int;
        assert(s[a + k] == kw[k]);
        assert(is_ident_char(kw[k]));
    }
    assert forall|i: int| 0 <= i < w.len() implies w[i] == kw[i] by {
        assert(s[a + i] == w[i]);
        assert(s[a + i] == kw[i]);
    }
    assert(w =~= kw);
}

/// The character at `p` is whitespace or the next character.
pub proof fn lemma_next_char_here(s: Seq<char>, p: int)
    requires
        0 <= p < s.len(),
    ensures
        is_ws(s[p]) || next_char(s, p) == Some(s[p]),
{
}

/// Whitespace at `p` followed by a character that is not: the whitespace
/// ends after one character, where the next character is.
pub proof fn lemma_one_space(s: Seq<char>, p: int)
    requires
        0 <= p,
        p + 1 < s.len(),
        is_ws(s[p]),
        !is_ws(s[p + 1]),
    ensures
        ws_skip(s, p) == p + 1,
        next_char(s, p) == Some(s[p + 1]),
{
    assert(ws_skip(s, p + 1) == p + 1);
    assert(next_char(s, p + 1) == Some(s[p + 1]));
}

/// A chain's text starts with its first word.
pub proof fn lemma_chain_text_starts(ws: Seq<Seq<char>>, ops: Seq<BinaryOperator>)
    requires
        valid_chain(ws, ops),
    ensures
        chain_text(ws, ops).len() >= ws[0].len(),
        chain_text(ws, ops).subrange(0, ws[0].len() as int) == ws[0],
        ws.len() >= 2 ==> chain_text(ws, ops) == ws[0] + seq![' '] + binary_symbol(ops[0]) + seq![' '] + chain_text(
            ws.drop_first(),
            ops.drop_first(),
        ),
        ws.len() >= 2 ==> valid_chain(ws.drop_first(), ops.drop_first()),
        ws.len() == 1 ==> chain_text(ws, ops) == ws[0],
{
    if ws.len() >= 2 {
        let rest = chain_text(ws.drop_first(), ops.drop_first());
        assert((ws[0] + seq![' '] + binary_symbol(ops[0]) + seq![' '] + rest).subrange(0, ws[0].len() as int) =~= ws[0]);
        assert forall|i: int| 0 <= i < ws.drop_first().len() implies operand_word(#[trigger] ws.drop_first()[i]) by {
            assert(ws.drop_first()[i] == ws[i + 1]);
        }
        assert forall|i: int| 0 <= i < ops.drop_first().len() implies read_operator(#[trigger] ops.drop_first()[i]) by {
            assert(ops.drop_first()[i] == ops[i + 1]);
        }
    } else {
        assert(ws[0].subrange(0, ws[0].len() as int) =~= ws[0]);
    }
}

/// A word that an operand is written as starts with no whitespace and
/// holds only identifier characters.
pub proof fn lemma_operand_word_chars(w: Seq<char>)
    requires
        operand_word(w),
    ensures
        w.len() > 0,
        !is_ws(w[0]),
        forall|i: int| 0 <= i < w.len() ==> #[trigger] is_ident_char(w[i]),
{
    assert forall|i: int| 0 <= i < w.len() implies #[trigger] is_ident_char(w[i]) by {
        if is_name(w) {
            if i == 0 {
            }
        } else {
            assert('0' <= w[i] <= '9');
        }
    }
    if is_name(w) {
    } else {
        assert('0' <= w[0] <= '9');
    }
}

/// A chain written at `pos`: its first word is written there; a lone word
/// is followed by what closes the expression; otherwise the first operator
/// follows the word and the rest of the chain follows the operator, ending
/// where the whole chain ends.
pub proof fn lemma_chain_split(s: Seq<char>, pos: int, ws: Seq<Seq<char>>, ops: Seq<BinaryOperator>)
    requires
        0 <= pos <= s.len(),
        valid_chain(ws, ops),
        chain_written(s, pos, ws, ops),
    ensures
        word_written(s, pos, ws[0]),
        ws.len() == 1 ==> closes_expression(s, ws_skip(s, pos) + ws[0].len()) && chain_end(s, pos, ws, ops) == ws_skip(s, pos)
            + ws[0].len(),
        ws.len() >= 2 ==> {
            let p1 = ws_skip(s, pos) + ws[0].len();
            &&& operator_written(s, p1, ops[0])
            &&& valid_chain(ws.drop_first(), ops.drop_first())
            &&& chain_written(s, operator_end(s, p1, ops[0]), ws.drop_first(), ops.drop_first())
            &&& chain_end(s, operator_end(s, p1, ops[0]), ws.drop_first(), ops.drop_first()) == chain_end(s, pos, ws, ops)
        },
{
    crate::parser::lemma_ws_skip_end(s, pos);
    let a = ws_skip(s, pos);
    let t = chain_text(ws, ops);
    lemma_chain_text_starts(ws, ops);
    lemma_operand_word_chars(ws[0]);
    let w = ws[0];
    assert forall|i: int| 0 <= i < t.len() implies s[a + i] == t[i] by {
        assert(s.subrange(a, a + t.len())[i] == s[a + i]);
    }
    assert(s.subrange(a, a + w.len()) =~= w) by {
        assert forall|i: int| 0 <= i < w.len() implies s.subrange(a, a + w.len())[i] == w[i] by {
            assert(t.subrange(0, w.len() as int)[i] == t[i]);
        }
    }
    let p1 = a + w.len();
    if ws.len() == 1 {
        assert(t == w);
        if p1 < s.len() {
            lemma_next_char_here(s, p1);
        }
    } else {
        let op = ops[0];
        let sym = binary_symbol(op);
        let rest = chain_text(ws.drop_first(), ops.drop_first());
        assert(valid_chain(ws.drop_first(), ops.drop_first()));
        lemma_chain_text_starts(ws.drop_first(), ops.drop_first());
        lemma_operand_word_chars(ws[1]);
        assert(ws.drop_first()[0] == ws[1]);
        assert(sym.len() >= 1 && sym.len() <= 2 && !is_ws(sym[0]) && sym[0] != ':' && sym[0] != '<' && sym[0] != '{') by {
            assert(read_operator(ops[0]));
        }
        // the text is: w, a space, the operator, a space, the rest
        assert(t[w.len() as int] == ' ');
        assert forall|i: int| 0 <= i < sym.len() implies t[w.len() + 1 + i] == sym[i] by {
        }
        assert(t[(w.len() + 1 + sym.len()) as int] == ' ');
        assert forall|i: int| 0 <= i < rest.len() implies t[w.len() + 2 + sym.len() + i] == rest[i] by {
        }
        assert(rest[0] == ws[1][0]) by {
            assert(rest.subrange(0, ws[1].len() as int)[0] == rest[0]);
        }
        assert(s[p1] == ' ');
        assert(s[p1 + 1] == sym[0]);
        lemma_one_space(s, p1);
        assert(ws_skip(s, p1) == p1 + 1);
        assert(s.subrange(p1 + 1, p1 + 1 + sym.len()) =~= sym) by {
            assert forall|i: int| 0 <= i < sym.len() implies s.subrange(p1 + 1, p1 + 1 + sym.len())[i] == sym[i] by {
                assert(s[p1 + 1 + i] == t[w.len() + 1 + i]);
            }
        }
        let q = p1 + 1 + sym.len();
        assert(operator_end(s, p1, op) == q);
        assert(s[q] == ' ');
        assert(s[q + 1] == rest[0]);
        lemma_one_space(s, q);
        assert(s.subrange(q + 1, q + 1 + rest.len()) =~= rest) by {
            assert forall|i: int| 0 <= i < rest.len() implies s.subrange(q + 1, q + 1 + rest.len())[i] == rest[i] by {
                assert(s[q + 1 + i] == t[w.len() + 2 + sym.len() + i]);
            }
        }
        assert(q + 1 + rest.len() == a + t.len());
    }
}

/// A lone operand builds into itself.
pub proof fn lemma_build_operand(x: Expression)
    ensures
        spec_build(seq![ExpressionString::Val(x)]) == Some(x),
{
    reveal_with_fuel(shunt_state, 2);
    reveal_with_fuel(flush, 2);
    reveal_with_fuel(run, 2);
    let s = seq![ExpressionString::Val(x)];
    assert(s.drop_last() =~= Seq::<ExpressionString>::empty());
    assert(shunt_state(s) == (seq![ExpressionString::Val(x)], Seq::<Operation>::empty()));
    assert(to_postfix(s) == seq![ExpressionString::Val(x)]);
    let p = seq![ExpressionString::Val(x)];
    assert(p.drop_last() =~= Seq::<ExpressionString>::empty());
    assert(run(p, Seq::empty()) == Some(seq![x]));
}

/// An operand, a binary operator and an operand build into the operation.
pub proof fn lemma_build_binary(a: Expression, op: BinaryOperator, b: Expression)
    ensures
        spec_build(seq![ExpressionString::Val(a), ExpressionString::Oper(Operation::Binary(op)), ExpressionString::Val(b)])
            == Some(spec_expr(ExpressionKind::BinaryOperation(BinaryOperation { operator: op, operands: [a, b] }), false)),
{
    reveal_with_fuel(shunt_state, 4);
    reveal_with_fuel(flush, 3);
    reveal_with_fuel(run, 4);
    reveal_with_fuel(drain, 2);
    let s = seq![ExpressionString::Val(a), ExpressionString::Oper(Operation::Binary(op)), ExpressionString::Val(b)];
    let s1 = seq![ExpressionString::Val(a)];
    let s2 = seq![ExpressionString::Val(a), ExpressionString::Oper(Operation::Binary(op))];
    assert(s.drop_last() =~= s2);
    assert(s2.drop_last() =~= s1);
    assert(s1.drop_last() =~= Seq::<ExpressionString>::empty());
    assert(shunt_state(s1) == (seq![ExpressionString::Val(a)], Seq::<Operation>::empty()));
    assert(drain(seq![ExpressionString::Val(a)], Seq::<Operation>::empty(), Operation::Binary(op)) == (
        seq![ExpressionString::Val(a)],
        seq![Operation::Binary(op)],
    ));
    assert(shunt_state(s2) == (seq![ExpressionString::Val(a)], seq![Operation::Binary(op)]));
    assert(shunt_state(s) == (seq![ExpressionString::Val(a), ExpressionString::Val(b)], seq![Operation::Binary(op)]));
    let out = seq![ExpressionString::Val(a), ExpressionString::Val(b)];
    let post = seq![ExpressionString::Val(a), ExpressionString::Val(b), ExpressionString::Oper(Operation::Binary(op))];
    assert(seq![Operation::Binary(op)].drop_last() =~= Seq::<Operation>::empty());
    assert(flush(out, seq![Operation::Binary(op)]) == flush(out.push(ExpressionString::Oper(Operation::Binary(op))), Seq::<Operation>::empty()));
    assert(out.push(ExpressionString::Oper(Operation::Binary(op))) =~= post);
    assert(to_postfix(s) == post);
    let p1 = seq![ExpressionString::Val(a)];
    let p2 = seq![ExpressionString::Val(a), ExpressionString::Val(b)];
    assert(post.drop_last() =~= p2);
    assert(p2.drop_last() =~= p1);
    assert(p1.drop_last() =~= Seq::<ExpressionString>::empty());
    assert(run(p1, Seq::empty()) == Some(seq![a]));
    assert(run(p2, Seq::empty()) == Some(seq![a, b]));
    let w = seq![a, b];
    assert(w.drop_last().drop_last() =~= Seq::<Expression>::empty());
    assert(run(post, Seq::empty()) == Some(Seq::<Expression>::empty().push(spec_expr(
        ExpressionKind::BinaryOperation(BinaryOperation { operator: op, operands: [a, b] }),
        false,
    ))));
}

/// An operand followed by a call builds into the call of the operand.
pub proof fn lemma_build_call(a: Expression, ps: Vec<Expression>)
    ensures
        spec_build(seq![ExpressionString::Val(a), ExpressionString::Oper(Operation::Call(ps))]) == Some(
            spec_expr(ExpressionKind::Call(Call { called: a, parameters: ps }), false),
        ),
{
    reveal_with_fuel(shunt_state, 3);
    reveal_with_fuel(flush, 3);
    reveal_with_fuel(run, 3);
    reveal_with_fuel(drain, 2);
    let o = Operation::Call(ps);
    let s = seq![ExpressionString::Val(a), ExpressionString::Oper(o)];
    let s1 = seq![ExpressionString::Val(a)];
    assert(s.drop_last() =~= s1);
    assert(s1.drop_last() =~= Seq::<ExpressionString>::empty());
    assert(shunt_state(s1) == (seq![ExpressionString::Val(a)], Seq::<Operation>::empty()));
    assert(shunt_state(s) == (seq![ExpressionString::Val(a)], seq![o]));
    let post = seq![ExpressionString::Val(a), ExpressionString::Oper(o)];
    assert(seq![o].drop_last() =~= Seq::<Operation>::empty());
    assert(seq![ExpressionString::Val(a)].push(ExpressionString::Oper(o)) =~= post);
    assert(to_postfix(s) == post);
    assert(post.drop_last() =~= s1);
    assert(run(s1, Seq::empty()) == Some(seq![a]));
    assert(seq![a].drop_last() =~= Seq::<Expression>::empty());
    assert(run(post, Seq::empty()) == Some(Seq::<Expression>::empty().push(apply_one(o, a))));
}

/// An operator that follows its operand and is applied to it at once: a
/// call, a method call or a member access.
pub open spec fn is_postfix_op(o: Operation) -> bool {
    o is Call || o is Method || o is Access
}

/// The operators `ops` as written items.
pub open spec fn opers(ops: Seq<Operation>) -> Seq<ExpressionString> {
    ops.map_values(|o: Operation| ExpressionString::Oper(o))
}

/// `x` with the operators `ops` applied to it in turn.
pub open spec fn apply_all(x: Expression, ops: Seq<Operation>) -> Expression
    decreases ops.len(),
{
    if ops.len() == 0 {
        x
    } else {
        apply_one(ops.last(), apply_all(x, ops.drop_last()))
    }
}

/// The shunting yard passes each postfix operator to the output as soon
/// as the next one comes.
proof fn lemma_shunt_postfixes(x: Expression, ops: Seq<Operation>)
    requires
        forall|i: int| 0 <= i < ops.len() ==> is_postfix_op(#[trigger] ops[i]),
    ensures
        ops.len() == 0 ==> shunt_state(seq![ExpressionString::Val(x)] + opers(ops)) == (
            seq![ExpressionString::Val(x)],
            Seq::<Operation>::empty(),
        ),
        ops.len() > 0 ==> shunt_state(seq![ExpressionString::Val(x)] + opers(ops)) == (
            seq![ExpressionString::Val(x)] + opers(ops.drop_last()),
            seq![ops.last()],
        ),
    decreases ops.len(),
{
    let s = seq![ExpressionString::Val(x)] + opers(ops);
    if ops.len() == 0 {
        assert(s =~= seq![ExpressionString::Val(x)]);
        reveal_with_fuel(shunt_state, 2);
        assert(s.drop_last() =~= Seq::<ExpressionString>::empty());
    } else {
        let prev = ops.drop_last();
        let o = ops.last();
        lemma_shunt_postfixes(x, prev);
        assert(s.drop_last() =~= seq![ExpressionString::Val(x)] + opers(prev));
        assert(s.last() == ExpressionString::Oper(o));
        let out = seq![ExpressionString::Val(x)] + opers(prev);
        if prev.len() == 0 {
            reveal_with_fuel(drain, 2);
            assert(seq![ExpressionString::Val(x)] + opers(prev) =~= seq![ExpressionString::Val(x)]);
            assert(drain(seq![ExpressionString::Val(x)], Seq::<Operation>::empty(), o) == (
                seq![ExpressionString::Val(x)],
                Seq::<Operation>::empty().push(o),
            ));
            assert(Seq::<Operation>::empty().push(o) =~= seq![o]);
        } else {
            let top = prev.last();
            assert(is_postfix_op(prev[prev.len() - 1]));
            let before = seq![ExpressionString::Val(x)] + opers(prev.drop_last());
            assert(seq![top].drop_last() =~= Seq::<Operation>::empty());
            reveal_with_fuel(drain, 2);
            assert(drain(before, seq![top], o) == drain(before.push(ExpressionString::Oper(top)), Seq::<Operation>::empty(), o));
            assert(before.push(ExpressionString::Oper(top)) =~= out);
            assert(Seq::<Operation>::empty().push(o) =~= seq![o]);
        }
    }
}

/// Running the items of an operand and its postfix operators leaves the
/// operand with them applied.
proof fn lemma_run_postfixes(x: Expression, ops: Seq<Operation>)
    requires
        forall|i: int| 0 <= i < ops.len() ==> is_postfix_op(#[trigger] ops[i]),
    ensures
        run(seq![ExpressionString::Val(x)] + opers(ops), Seq::empty()) == Some(seq![apply_all(x, ops)]),
    decreases ops.len(),
{
    let s = seq![ExpressionString::Val(x)] + opers(ops);
    if ops.len() == 0 {
        assert(s =~= seq![ExpressionString::Val(x)]);
        reveal_with_fuel(run, 2);
        assert(s.drop_last() =~= Seq::<ExpressionString>::empty());
        assert(Seq::<Expression>::empty().push(x) =~= seq![x]);
    } else {
        let prev = ops.drop_last();
        assert forall|i: int| 0 <= i < prev.len() implies is_postfix_op(#[trigger] prev[i]) by {
            assert(prev[i] == ops[i]);
        }
        lemma_run_postfixes(x, prev);
        assert(s.drop_last() =~= seq![ExpressionString::Val(x)] + opers(prev));
        assert(s.last() == ExpressionString::Oper(ops.last()));
        assert(is_postfix_op(ops[ops.len() - 1]));
        let v = apply_all(x, prev);
        assert(seq![v].drop_last() =~= Seq::<Expression>::empty());
        assert(Seq::<Expression>::empty().push(apply_one(ops.last(), v)) =~= seq![apply_all(x, ops)]);
    }
}

/// An operand followed by postfix operators builds into the operand with
/// them applied in turn.
pub proof fn lemma_build_postfixes(x: Expression, ops: Seq<Operation>)
    requires
        forall|i: int| 0 <= i < ops.len() ==> is_postfix_op(#[trigger] ops[i]),
    ensures
        spec_build(seq![ExpressionString::Val(x)] + opers(ops)) == Some(apply_all(x, ops)),
{
    let s = seq![ExpressionString::Val(x)] + opers(ops);
    lemma_shunt_postfixes(x, ops);
    lemma_run_postfixes(x, ops);
    if ops.len() == 0 {
        assert(s =~= seq![ExpressionString::Val(x)]);
        assert(to_postfix(s) == s);
    } else {
        let a = seq![ExpressionString::Val(x)] + opers(ops.drop_last());
        reveal_with_fuel(flush, 2);
        assert(seq![ops.last()].drop_last() =~= Seq::<Operation>::empty());
        assert(flush(a, seq![ops.last()]) == flush(a.push(ExpressionString::Oper(ops.last())), Seq::<Operation>::empty()));
        assert(a.push(ExpressionString::Oper(ops.last())) =~= s);
        assert(to_postfix(s) == s);
    }
}

/// An operand with postfix operators, a binary operator and a second
/// operand builds into the binary operation of the operand with the
/// postfixes applied and the second operand: the postfixes bind tighter.
pub proof fn lemma_build_postfixes_binary(x: Expression, ops: Seq<Operation>, op: BinaryOperator, y: Expression)
    requires
        forall|i: int| 0 <= i < ops.len() ==> is_postfix_op(#[trigger] ops[i]),
    ensures
        spec_build(seq![ExpressionString::Val(x)] + opers(ops) + seq![
            ExpressionString::Oper(Operation::Binary(op)),
            ExpressionString::Val(y),
        ]) == Some(spec_expr(
            ExpressionKind::BinaryOperation(BinaryOperation { operator: op, operands: [apply_all(x, ops), y] }),
            false,
        )),
{
    let s0 = seq![ExpressionString::Val(x)] + opers(ops);
    let b = Operation::Binary(op);
    let s1 = s0.push(ExpressionString::Oper(b));
    let s = s1.push(ExpressionString::Val(y));
    assert(s =~= s0 + seq![ExpressionString::Oper(b), ExpressionString::Val(y)]);
    assert(s.drop_last() =~= s1);
    assert(s1.drop_last() =~= s0);
    lemma_shunt_postfixes(x, ops);
    lemma_run_postfixes(x, ops);
    if ops.len() == 0 {
        reveal_with_fuel(drain, 2);
        assert(drain(shunt_state(s0).0, shunt_state(s0).1, b) == (s0, seq![b])) by {
            assert(s0 =~= seq![ExpressionString::Val(x)]);
        }
    } else {
        reveal_with_fuel(drain, 3);
        let out = seq![ExpressionString::Val(x)] + opers(ops.drop_last());
        assert(seq![ops.last()].drop_last() =~= Seq::<Operation>::empty());
        assert(out.push(ExpressionString::Oper(ops.last())) =~= s0);
        assert(Seq::<Operation>::empty().push(b) =~= seq![b]);
        assert(drain(out, seq![ops.last()], b) == (s0, seq![b]));
    }
    assert(shunt_state(s1) == (s0, seq![b]));
    assert(shunt_state(s) == (s0.push(ExpressionString::Val(y)), seq![b]));
    reveal_with_fuel(flush, 2);
    assert(seq![b].drop_last() =~= Seq::<Operation>::empty());
    let post = s0.push(ExpressionString::Val(y)).push(ExpressionString::Oper(b));
    assert(to_postfix(s) == post);
    let a = apply_all(x, ops);
    assert(post.drop_last() == s0.push(ExpressionString::Val(y)));
    assert(s0.push(ExpressionString::Val(y)).drop_last() == s0);
    assert(run(s0.push(ExpressionString::Val(y)), Seq::empty()) == Some(seq![a].push(y)));
    assert(seq![a].push(y) =~= seq![a, y]);
    assert(seq![a, y].drop_last().drop_last() =~= Seq::<Expression>::empty());
    let r = spec_expr(ExpressionKind::BinaryOperation(BinaryOperation { operator: op, operands: [a, y] }), false);
    assert(Seq::<Expression>::empty().push(r) =~= seq![r]);
    assert(run(post, Seq::empty()) == Some(seq![r]));
}

/// `e` is the call of the name `w` with arguments that are the chains.
pub open spec fn denotes_call(e: Expression, w: Seq<char>, chs: Seq<(Seq<Seq<char>>, Seq<BinaryOperator>)>) -> bool {
    &&& e.ret_ty is None
    &&& !e.constant
    &&& *e.kind matches ExpressionKind::Call(c)
    &&& denotes_word(c.called, w)
    &&& denotes_chains(c.parameters@, chs)
}

} // verus!
