use vstd::prelude::*;
use crate::ast::{Definition, DefinitionKind, Implementation, Import, TraitImplementation, Visibility};
use crate::ast::function::{FunctionBuilder, FunctionDeclaration, FunctionDefinition, all_params_named};
use crate::ast::expressions::block::Block;
use crate::ast::module::{Module, ModuleKind};
use crate::ast::traits::{Trait, insert_function, names_unique};
use crate::general::types::{Type, TypeKind, VariantType};
use crate::parser::{
    ParseError, Parsed, identifier, keyword, keyword_then_name, lemma_keyword_then_name, skip_ws, starts_with_word, symbol, word_after,
    ws_end, ws_skip, next_char,
};
use crate::parser::expressions::{
    after_semicolon, handle_block_expression, handle_expression, handle_statement, block_written, statements_end, written_at, StmtText,
    denotes_stmt,
};
use crate::parser::chains::denotes_chain;
use crate::ast::expressions::Statement;
use crate::parser::chains::{chain_end, chain_written, valid_chain, valid_path, path_text, path_written, double_colon_at};
use crate::ast::expressions::operations::BinaryOperator;
use crate::parser::type_handling::{
    is_syntax_error, parse_ident_root, handle_import_path, handle_qualified_name, handle_template_def, handle_type_expression,
    handle_type_definitions, syntax_error, grouped_written, grouped_end, group_prefix_end, names_path, lemma_next_char_skip,
    name_at, primitive_written, alias_written, alias_end, struct_written, struct_end, members_are, template_written, template_end,
};
use crate::general::types::PrimitiveType;
use crate::text::chars_of;

verus! {

/// Where the type of a parameter named `x` at `p` starts: after the `:`.
pub open spec fn param_type_pos(s: Seq<char>, p: int, x: Seq<char>) -> int {
    ws_skip(s, ws_skip(s, p) + x.len()) + 1
}

/// Where a parameter written at `p` ends: after its type word.
pub open spec fn param_end(s: Seq<char>, p: int, pr: (Seq<char>, Seq<char>, PrimitiveType)) -> int {
    ws_skip(s, param_type_pos(s, p, pr.0)) + pr.1.len()
}

/// After whitespace, the parameter `pr` at `p`: its name, `:`, and the
/// word of its primitive type.
pub open spec fn param_written(s: Seq<char>, p: int, pr: (Seq<char>, Seq<char>, PrimitiveType)) -> bool {
    &&& name_at(s, p, pr.0)
    &&& next_char(s, ws_skip(s, p) + pr.0.len()) == Some(':')
    &&& primitive_written(s, param_type_pos(s, p, pr.0), pr.1, pr.2)
}

/// `(n, t)` is the parameter `pr`: its name and its primitive type.
pub open spec fn is_param(n: String, t: Type, pr: (Seq<char>, Seq<char>, PrimitiveType)) -> bool {
    n@ == pr.0 && t.kind == TypeKind::Primitive(pr.2)
}

/// From `p` on, the parameters `ps`, separated by `,`, then `close`
/// (which is no comma and starts no name); after the last one a comma may
/// stand before it.
pub open spec fn params_written(s: Seq<char>, p: int, ps: Seq<(Seq<char>, Seq<char>, PrimitiveType)>, close: char) -> bool
    decreases ps.len(),
{
    if ps.len() == 0 {
        next_char(s, p) == Some(close) && !crate::parser::is_ident_start(close) && close != ','
    } else {
        let e = param_end(s, p, ps[0]);
        &&& param_written(s, p, ps[0])
        &&& if ps.len() == 1 {
            !crate::parser::is_ident_start(close) && close != ',' && (next_char(s, e) == Some(close) || (next_char(s, e) == Some(',') && next_char(
                s,
                ws_skip(s, e) + 1,
            ) == Some(close)))
        } else {
            next_char(s, e) == Some(',') && params_written(s, ws_skip(s, e) + 1, ps.drop_first(), close)
        }
    }
}

/// Where the parameters written from `p` end: before the `close`.
pub open spec fn params_end(s: Seq<char>, p: int, ps: Seq<(Seq<char>, Seq<char>, PrimitiveType)>, close: char) -> int
    decreases ps.len(),
{
    if ps.len() == 0 {
        p
    } else {
        let e = param_end(s, p, ps[0]);
        if ps.len() == 1 {
            if next_char(s, e) == Some(close) {
                e
            } else {
                ws_skip(s, e) + 1
            }
        } else {
            params_end(s, ws_skip(s, e) + 1, ps.drop_first(), close)
        }
    }
}

/// `name: type`
pub fn handle_param(cs: &Vec<char>, pos: usize, strict: bool) -> (r: Result<Parsed<(String, Type)>, ParseError>)
    requires
        pos <= cs@.len(),
    ensures
        r matches Ok(p) ==> pos < p.end <= cs@.len() && word_after(cs@, pos as int, p.value.0@),
        forall|pr: (Seq<char>, Seq<char>, PrimitiveType)| #[trigger] param_written(cs@, pos as int, pr) ==> (r matches Ok(p) && p.end
            == param_end(cs@, pos as int, pr) && is_param(p.value.0, p.value.1, pr)),
        !(next_char(cs@, pos as int) matches Some(c) && crate::parser::is_ident_start(c)) ==> r == Err::<Parsed<(String, Type)>, ParseError>(
            ParseError::UnexpectedInput(pos),
        ),
        !strict ==> (r matches Err(e) ==> is_syntax_error(e)),
{
    proof {
        reveal_strlit(":");
        assert(":"@ =~= seq![':']);
    }
    let (name, q) = match identifier(cs, pos) {
        Some(x) => x,
        None => {
            return Err(ParseError::UnexpectedInput(pos));
        },
    };
    proof {
        crate::parser::lemma_word_after_first_char(cs@, pos as int, name@);
        lemma_next_char_skip(cs@, q as int);
    }
    let q2 = match symbol(cs, q, ":") {
        Some(x) => x,
        None => {
            return Err(ParseError::UnexpectedInput(q));
        },
    };
    let t = handle_type_expression(cs, q2, strict)?;
    Ok(Parsed { value: (name, t.value), end: t.end })
}

/// `name: type, name: type, ...` (possibly none, a trailing comma
/// allowed).
pub fn handle_params(cs: &Vec<char>, pos: usize, strict: bool) -> (r: Result<Parsed<Vec<(String, Type)>>, ParseError>)
    requires
        pos <= cs@.len(),
    ensures
        r matches Ok(p) ==> pos <= p.end <= cs@.len(),
        forall|ps: Seq<(Seq<char>, Seq<char>, PrimitiveType)>, close: char| #[trigger] params_written(cs@, pos as int, ps, close) ==> (r matches Ok(p)
            && p.end == params_end(cs@, pos as int, ps, close) && p.value@.len() == ps.len() && forall|i: int| 0 <= i < ps.len()
            ==> is_param(#[trigger] p.value@[i].0, p.value@[i].1, ps[i])),
        !strict ==> (r matches Err(e) ==> is_syntax_error(e)),
{
    let mut out: Vec<(String, Type)> = Vec::new();
    let mut cur = pos;
    proof {
        assert forall|ps: Seq<(Seq<char>, Seq<char>, PrimitiveType)>, close: char| #[trigger] params_written(cs@, pos as int, ps, close) implies ps.skip(0)
            == ps by {
            assert(ps.skip(0) =~= ps);
        }
    }
    loop
        invariant_except_break
            forall|ps: Seq<(Seq<char>, Seq<char>, PrimitiveType)>, close: char| #[trigger] params_written(cs@, pos as int, ps, close) ==> ({
                let k = out@.len() as int;
                &&& k <= ps.len()
                &&& forall|i: int| 0 <= i < k ==> is_param(#[trigger] out@[i].0, out@[i].1, ps[i])
                &&& k < ps.len() ==> params_written(cs@, cur as int, ps.skip(k), close) && params_end(cs@, cur as int, ps.skip(k), close)
                    == params_end(cs@, pos as int, ps, close)
                &&& k == ps.len() ==> next_char(cs@, cur as int) == Some(close) && !crate::parser::is_ident_start(close) && close != ',' && cur == params_end(cs@, pos as int, ps, close)
            }),
        invariant
            pos <= cur <= cs@.len(),
        ensures
            pos <= cur <= cs@.len(),
            forall|ps: Seq<(Seq<char>, Seq<char>, PrimitiveType)>, close: char| #[trigger] params_written(cs@, pos as int, ps, close) ==> (cur == params_end(
                cs@,
                pos as int,
                ps,
                close,
            ) && out@.len() == ps.len() && forall|i: int| 0 <= i < ps.len() ==> is_param(#[trigger] out@[i].0, out@[i].1, ps[i])),
        decreases cs@.len() - cur,
    {
        let ghost k = out@.len() as int;
        let ghost cur0 = cur;
        let ghost out0 = out@;
        proof {
            reveal_strlit(",");
            assert(","@ =~= seq![',']);
            lemma_next_char_skip(cs@, cur as int);
            assert forall|ps: Seq<(Seq<char>, Seq<char>, PrimitiveType)>, close: char| #[trigger] params_written(cs@, pos as int, ps, close) && k < ps.len()
                implies ps.skip(k)[0] == ps[k] && ps.skip(k).drop_first() =~= ps.skip(k + 1) by {
                assert(ps.skip(k)[0] == ps[k]);
                assert(ps.skip(k).drop_first() =~= ps.skip(k + 1));
            }
        }
        match handle_param(cs, cur, strict) {
            Ok(p) => {
                out.push(p.value);
                cur = p.end;
                proof {
                    lemma_next_char_skip(cs@, cur as int);
                    assert forall|ps: Seq<(Seq<char>, Seq<char>, PrimitiveType)>, close: char| #[trigger] params_written(cs@, pos as int, ps, close) implies k
                        < ps.len() && params_written(cs@, cur0 as int, ps.skip(k), close) && param_written(cs@, cur0 as int, ps[k]) && cur
                        == param_end(cs@, cur0 as int, ps[k]) && forall|i: int| 0 <= i < k + 1 ==> is_param(
                        #[trigger] out@[i].0,
                        out@[i].1,
                        ps[i],
                    ) by {
                        if k == ps.len() {
                            assert(next_char(cs@, cur0 as int) == Some(close));
                        }
                        assert(params_written(cs@, cur0 as int, ps.skip(k), close));
                        assert forall|i: int| 0 <= i < k + 1 implies is_param(#[trigger] out@[i].0, out@[i].1, ps[i]) by {
                            if i < k {
                                assert(out@[i] == out0[i]);
                            }
                        }
                    }
                }
                match symbol(cs, cur, ",") {
                    Some(c) => {
                        cur = c;
                        proof {
                            assert forall|ps: Seq<(Seq<char>, Seq<char>, PrimitiveType)>, close: char| #[trigger] params_written(cs@, pos as int, ps, close) implies ({
                                let k1 = out@.len() as int;
                                &&& k1 <= ps.len()
                                &&& k1 < ps.len() ==> params_written(cs@, cur as int, ps.skip(k1), close) && params_end(
                                    cs@,
                                    cur as int,
                                    ps.skip(k1),
                                    close,
                                ) == params_end(cs@, pos as int, ps, close)
                                &&& k1 == ps.len() ==> next_char(cs@, cur as int) == Some(close) && !crate::parser::is_ident_start(close) && close != ',' && cur == params_end(cs@, pos as int, ps, close)
                            }) by {
                                assert(params_written(cs@, cur0 as int, ps.skip(k), close));
                                assert(next_char(cs@, p.end as int) == Some(','));
                                if k + 1 < ps.len() {
                                    assert(params_written(cs@, cur as int, ps.skip(k + 1), close));
                                } else {
                                    assert(next_char(cs@, cur as int) == Some(close));
                                }
                            }
                        }
                    },
                    None => {
                        proof {
                            assert forall|ps: Seq<(Seq<char>, Seq<char>, PrimitiveType)>, close: char| #[trigger] params_written(cs@, pos as int, ps, close) implies cur
                                == params_end(cs@, pos as int, ps, close) && out@.len() == ps.len() by {
                                assert(params_written(cs@, cur0 as int, ps.skip(k), close));
                                assert(next_char(cs@, p.end as int) != Some(','));
                                assert(k + 1 == ps.len());
                            }
                        }
                        break;
                    },
                }
            },
            Err(e) => {
                proof {
                    assert forall|ps: Seq<(Seq<char>, Seq<char>, PrimitiveType)>, close: char| #[trigger] params_written(cs@, pos as int, ps, close) implies k
                        == ps.len() && e == ParseError::UnexpectedInput(cur) by {
                        if k < ps.len() {
                            assert(params_written(cs@, cur as int, ps.skip(k), close));
                            assert(param_written(cs@, cur as int, ps.skip(k)[0]));
                        }
                    }
                }
                if !syntax_error(&e) {
                    return Err(e);
                }
                break;
            },
        }
    }
    Ok(Parsed { value: out, end: cur })
}

/// After the parameters written from `p`, `close` is next.
pub proof fn lemma_params_close(s: Seq<char>, p: int, ps: Seq<(Seq<char>, Seq<char>, PrimitiveType)>, close: char)
    requires
        params_written(s, p, ps, close),
    ensures
        next_char(s, params_end(s, p, ps, close)) == Some(close),
    decreases ps.len(),
{
    if ps.len() > 1 {
        lemma_params_close(s, ws_skip(s, param_end(s, p, ps[0])) + 1, ps.drop_first(), close);
    }
}

/// Where the name of a function written at `pos` stands: after `fn`.
pub open spec fn fn_name_pos(s: Seq<char>, pos: int) -> int {
    ws_skip(s, pos) + 2
}

/// Where the parameters of the function `x` written at `pos` start: after
/// the `(`.
pub open spec fn fn_params_pos(s: Seq<char>, pos: int, x: Seq<char>) -> int {
    ws_skip(s, ws_skip(s, fn_name_pos(s, pos)) + x.len()) + 1
}

/// Where the `)` after the parameters of a function ends.
pub open spec fn fn_close_end(s: Seq<char>, pos: int, x: Seq<char>, ps: Seq<(Seq<char>, Seq<char>, PrimitiveType)>) -> int {
    ws_skip(s, params_end(s, fn_params_pos(s, pos, x), ps, ')')) + 1
}

/// After whitespace, `fn x(ps)` at `pos`, then `-> w` when `ret` is the
/// primitive type word `w` with its type; otherwise no `-` follows.
pub open spec fn fn_decl_written(
    s: Seq<char>,
    pos: int,
    x: Seq<char>,
    ps: Seq<(Seq<char>, Seq<char>, PrimitiveType)>,
    ret: Option<(Seq<char>, PrimitiveType)>,
) -> bool {
    let c = fn_close_end(s, pos, x, ps);
    &&& starts_with_word(s, pos, seq!['f', 'n'])
    &&& name_at(s, fn_name_pos(s, pos), x)
    &&& next_char(s, ws_skip(s, fn_name_pos(s, pos)) + x.len()) == Some('(')
    &&& params_written(s, fn_params_pos(s, pos, x), ps, ')')
    &&& match ret {
        None => next_char(s, c) != Some('-'),
        Some(t) => written_at(s, c, seq!['-', '>']) && primitive_written(s, ws_skip(s, c) + 2, t.0, t.1),
    }
}

/// Where a function declaration written at `pos` ends.
pub open spec fn fn_decl_end(
    s: Seq<char>,
    pos: int,
    x: Seq<char>,
    ps: Seq<(Seq<char>, Seq<char>, PrimitiveType)>,
    ret: Option<(Seq<char>, PrimitiveType)>,
) -> int {
    let c = fn_close_end(s, pos, x, ps);
    match ret {
        None => c,
        Some(t) => ws_skip(s, ws_skip(s, c) + 2) + t.0.len(),
    }
}

/// The return type `ty` is the one `ret` names, or none.
pub open spec fn returns_as(ty: Option<Type>, ret: Option<(Seq<char>, PrimitiveType)>) -> bool {
    match ret {
        None => ty is None,
        Some(p) => ty matches Some(t) && t.kind == TypeKind::Primitive(p.1),
    }
}

/// `b` declares the function `x` with the parameters `ps`, in order, and
/// the return type `ret`.
pub open spec fn declares(
    b: FunctionBuilder,
    x: Seq<char>,
    ps: Seq<(Seq<char>, Seq<char>, PrimitiveType)>,
    ret: Option<(Seq<char>, PrimitiveType)>,
) -> bool {
    &&& b.ident@ == x
    &&& b.params@.len() == ps.len()
    &&& forall|i: int| 0 <= i < ps.len() ==> ((#[trigger] b.params@[i]).0 matches Some(n) && is_param(n, b.params@[i].1, ps[i]))
    &&& returns_as(b.ret_ty, ret)
}

/// `d` defines the function `x` with the parameters `ps`, the return type
/// `ret`, and a body of the statements `chs`.
pub open spec fn defines_fn(
    d: Definition,
    x: Seq<char>,
    ps: Seq<(Seq<char>, Seq<char>, PrimitiveType)>,
    ret: Option<(Seq<char>, PrimitiveType)>,
    chs: Seq<StmtText>,
) -> bool {
    &&& d.name@ == x
    &&& d.kind matches DefinitionKind::FunctionDefinition(f)
    &&& f.decl.parameters@.len() == ps.len()
    &&& forall|i: int| 0 <= i < ps.len() ==> is_param(#[trigger] f.decl.parameters@[i].0, f.decl.parameters@[i].1, ps[i])
    &&& returns_as(f.decl.return_ty, ret)
    &&& f.body.statements@.len() == chs.len()
    &&& forall|i: int| 0 <= i < chs.len() ==> denotes_stmt(#[trigger] f.body.statements@[i], chs[i])
}

/// The parameters `name: type, ...` added, in order and named, to the
/// parameters that `builder` already has; nothing else of it changes.
pub fn handle_fn_params(cs: &Vec<char>, pos: usize, strict: bool, builder: FunctionBuilder) -> (r: Result<Parsed<FunctionBuilder>, ParseError>)
    requires
        pos <= cs@.len(),
    ensures
        r matches Ok(p) ==> {
            &&& pos <= p.end <= cs@.len()
            &&& p.value.params@.len() >= builder.params@.len()
            &&& p.value.params@.subrange(0, builder.params@.len() as int) == builder.params@
            &&& forall|i: int| builder.params@.len() <= i < p.value.params@.len() ==> (#[trigger] p.value.params@[i]).0 is Some
            &&& p.value.ident == builder.ident && p.value.ret_ty == builder.ret_ty && p.value.varidic == builder.varidic
            &&& p.value.constant == builder.constant && p.value.body == builder.body
            &&& p.value.visibility == builder.visibility
        },
        forall|ps: Seq<(Seq<char>, Seq<char>, PrimitiveType)>| #[trigger] params_written(cs@, pos as int, ps, ')') ==> (r matches Ok(p)
            && p.end == params_end(cs@, pos as int, ps, ')') && p.value.params@.len() == builder.params@.len() + ps.len() && forall|i: int|
            0 <= i < ps.len() ==> ((#[trigger] p.value.params@[builder.params@.len() + i]).0 matches Some(n) && is_param(
            n,
            p.value.params@[builder.params@.len() + i].1,
            ps[i],
        ))),
        !strict ==> (r matches Err(e) ==> is_syntax_error(e)),
{
    let ps = handle_params(cs, pos, strict)?;
    let ghost all = ps.value@;
    let ghost n0 = builder.params@.len() as int;
    let mut b = builder;
    let mut params = ps.value;
    while params.len() > 0
        invariant
            b.params@.len() >= builder.params@.len(),
            n0 == builder.params@.len(),
            b.params@.len() - n0 + params@.len() == all.len(),
            params@ == all.skip(b.params@.len() - n0),
            forall|i: int| 0 <= i < b.params@.len() - n0 ==> (#[trigger] b.params@[n0 + i]) == (Some(all[i].0), all[i].1),
            b.params@.subrange(0, builder.params@.len() as int) == builder.params@,
            forall|i: int| builder.params@.len() <= i < b.params@.len() ==> (#[trigger] b.params@[i]).0 is Some,
            b.ident == builder.ident && b.ret_ty == builder.ret_ty && b.varidic == builder.varidic,
            b.constant == builder.constant && b.body == builder.body && b.visibility == builder.visibility,
        decreases params@.len(),
    {
        let ghost j = b.params@.len() - n0;
        let (n, t) = params.remove(0);
        proof {
            assert((n, t) == all[j]);
            assert(params@ =~= all.skip(j + 1));
        }
        let ghost before = b.params@;
        b = b.add_param(n, t);
        assert(b.params@.subrange(0, builder.params@.len() as int) =~= before.subrange(0, builder.params@.len() as int));
        proof {
            assert forall|i: int| 0 <= i < b.params@.len() - n0 implies (#[trigger] b.params@[n0 + i]) == (Some(all[i].0), all[i].1) by {
                if i < j {
                    assert(b.params@[n0 + i] == before[n0 + i]);
                }
            }
        }
    }
    Ok(Parsed { value: b, end: ps.end })
}

/// `fn name<template>?(params) (-> type)?`: the function so far, with its
/// parameters named in order. With `strict`, a template is refused as not
/// supported.
#[verifier::rlimit(50)]
pub fn handle_fn_declaration(cs: &Vec<char>, pos: usize, strict: bool) -> (r: Result<Parsed<FunctionBuilder>, ParseError>)
    requires
        pos <= cs@.len(),
    ensures
        r matches Ok(p) ==> pos < p.end <= cs@.len() && all_params_named(p.value.params@) && p.value.body.is_none()
            && p.value.visibility == Visibility::Private && !p.value.constant,
        r matches Ok(p) ==> keyword_then_name(cs@, pos as int, seq!['f', 'n'], p.value.ident@),
        forall|x: Seq<char>, ps: Seq<(Seq<char>, Seq<char>, PrimitiveType)>, ret: Option<(Seq<char>, PrimitiveType)>| #[trigger] fn_decl_written(
            cs@,
            pos as int,
            x,
            ps,
            ret,
        ) ==> (r matches Ok(p) && p.end == fn_decl_end(cs@, pos as int, x, ps, ret) && declares(p.value, x, ps, ret)),
        !strict ==> (r matches Err(e) ==> is_syntax_error(e)),
{
    proof {
        reveal_strlit("fn");
        reveal_strlit("(");
        reveal_strlit(")");
        reveal_strlit("->");
        assert("fn"@ =~= seq!['f', 'n']);
        assert("("@ =~= seq!['(']);
        assert(")"@ =~= seq![')']);
        assert("->"@ =~= seq!['-', '>']);
    }
    let q = match keyword(cs, pos, "fn") {
        Some(q) => q,
        None => {
            return Err(ParseError::UnexpectedInput(pos));
        },
    };
    proof {
        lemma_keyword_skip(cs@, pos as int, "fn"@, q as int);
    }
    let (name, q1) = match identifier(cs, q) {
        Some(x) => x,
        None => {
            return Err(ParseError::UnexpectedInput(q));
        },
    };
    proof {
        lemma_keyword_then_name(cs@, pos as int, "fn"@, q as int, name@, q1 as int);
        lemma_next_char_skip(cs@, q1 as int);
        assert forall|x: Seq<char>, pw: Seq<(Seq<char>, Seq<char>, PrimitiveType)>, ret: Option<(Seq<char>, PrimitiveType)>| #[trigger] fn_decl_written(cs@, pos as int, x, pw, ret) implies name@ == x && q1 == ws_skip(
            cs@,
            fn_name_pos(cs@, pos as int),
        ) + x.len() && next_char(cs@, q1 as int) == Some('(') by {
            assert(q == fn_name_pos(cs@, pos as int));
            assert(crate::parser::word_at(cs@, ws_skip(cs@, q as int), ws_skip(cs@, q as int) + x.len()));
        }
    }
    let q = q1;
    let q = match handle_template_def(cs, q) {
        Some(e) => {
            if strict {
                return Err(ParseError::Unsupported(q));
            }
            e
        },
        None => q,
    };
    let q = match symbol(cs, q, "(") {
        Some(x) => x,
        None => {
            return Err(ParseError::UnexpectedInput(q));
        },
    };
    proof {
        assert forall|x: Seq<char>, pw: Seq<(Seq<char>, Seq<char>, PrimitiveType)>, ret: Option<(Seq<char>, PrimitiveType)>| #[trigger] fn_decl_written(cs@, pos as int, x, pw, ret) implies q == fn_params_pos(cs@, pos as int, x)
            && params_written(cs@, q as int, pw, ')') by {
        }
    }
    let ghost nm = name@;
    let ps = handle_fn_params(cs, q, strict, FunctionBuilder::new(name.as_str()))?;
    proof {
        assert forall|x: Seq<char>, pw: Seq<(Seq<char>, Seq<char>, PrimitiveType)>, ret: Option<(Seq<char>, PrimitiveType)>| #[trigger] fn_decl_written(cs@, pos as int, x, pw, ret) implies ps.end == params_end(cs@, q as int, pw, ')')
            && ps.value.ident@ == x && ps.value.ret_ty is None && ps.value.params@.len() == pw.len() && forall|i: int| 0 <= i < pw.len()
            ==> ((#[trigger] ps.value.params@[i]).0 matches Some(n) && is_param(n, ps.value.params@[i].1, pw[i])) by {
            assert(params_written(cs@, q as int, pw, ')'));
            assert forall|i: int| 0 <= i < pw.len() implies ((#[trigger] ps.value.params@[i]).0 matches Some(n) && is_param(
                n,
                ps.value.params@[i].1,
                pw[i],
            )) by {
                assert(ps.value.params@[0 + i] == ps.value.params@[i]);
            }
        }
    }
    proof {
        lemma_next_char_skip(cs@, ps.end as int);
        assert forall|x: Seq<char>, pw: Seq<(Seq<char>, Seq<char>, PrimitiveType)>, ret: Option<(Seq<char>, PrimitiveType)>| #[trigger] fn_decl_written(
            cs@,
            pos as int,
            x,
            pw,
            ret,
        ) implies next_char(cs@, ps.end as int) == Some(')') by {
            lemma_params_close(cs@, fn_params_pos(cs@, pos as int, x), pw, ')');
        }
    }
    let q = match symbol(cs, ps.end, ")") {
        Some(x) => x,
        None => {
            return Err(ParseError::UnexpectedInput(ps.end));
        },
    };
    proof {
        lemma_next_char_skip(cs@, q as int);
        assert forall|x: Seq<char>, pw: Seq<(Seq<char>, Seq<char>, PrimitiveType)>, ret: Option<(Seq<char>, PrimitiveType)>| #[trigger] fn_decl_written(cs@, pos as int, x, pw, ret) implies q == fn_close_end(cs@, pos as int, x, pw) by {
        }
    }
    let mut builder = ps.value;
    let mut end = q;
    if let Some(a) = symbol(cs, q, "->") {
        proof {
            assert forall|x: Seq<char>, pw: Seq<(Seq<char>, Seq<char>, PrimitiveType)>, ret: Option<(Seq<char>, PrimitiveType)>| #[trigger] fn_decl_written(cs@, pos as int, x, pw, ret) implies ret is Some && a == ws_skip(cs@, q as int) + 2
                && primitive_written(cs@, a as int, ret.unwrap().0, ret.unwrap().1) by {
            }
        }
        let t = handle_type_expression(cs, a, strict)?;
        builder = builder.set_ret_ty(t.value);
        end = t.end;
    }
    Ok(Parsed { value: builder, end })
}

/// A function declaration followed by its body: its definition.
pub fn handle_fn_definitions(cs: &Vec<char>, pos: usize, strict: bool) -> (r: Result<Parsed<Definition>, ParseError>)
    requires
        pos <= cs@.len(),
    ensures
        r matches Ok(p) ==> pos < p.end <= cs@.len() && p.value.kind is FunctionDefinition
            && p.value.visibility == Visibility::Private,
        r matches Ok(p) ==> keyword_then_name(cs@, pos as int, seq!['f', 'n'], p.value.name@),
        forall|x: Seq<char>, ps: Seq<(Seq<char>, Seq<char>, PrimitiveType)>, ret: Option<(Seq<char>, PrimitiveType)>, chs: Seq<StmtText>| #[trigger] fn_decl_written(cs@, pos as int, x, ps, ret) && #[trigger] block_written(
            cs@,
            fn_decl_end(cs@, pos as int, x, ps, ret),
            chs,
        ) ==> (r matches Ok(p) && p.end == statements_end(cs@, ws_skip(cs@, fn_decl_end(cs@, pos as int, x, ps, ret)) + 1, chs)
            && defines_fn(p.value, x, ps, ret, chs)),
        !strict ==> (r matches Err(e) ==> is_syntax_error(e)),
{
    let d = handle_fn_declaration(cs, pos, strict)?;
    let b = handle_block_expression(cs, d.end, strict)?;
    let def = d.value.set_body(b.value).build_def();
    Ok(Parsed { value: def, end: b.end })
}

/// The function of the trait item `d` (name, parameters, return type, and
/// the statements of its body, `None` for a declaration): `d`'s parameters
/// and return type, and its statements (none for a declaration).
pub open spec fn item_fn_matches(f: FunctionDefinition, d: (Seq<char>, Seq<(Seq<char>, Seq<char>, PrimitiveType)>, Option<(Seq<char>, PrimitiveType)>, Option<Seq<StmtText>>)) -> bool {
    &&& f.decl.parameters@.len() == d.1.len()
    &&& forall|i: int| 0 <= i < d.1.len() ==> is_param(#[trigger] f.decl.parameters@[i].0, f.decl.parameters@[i].1, d.1[i])
    &&& returns_as(f.decl.return_ty, d.2)
    &&& match d.3 {
        None => f.body.statements@.len() == 0,
        Some(chs) => f.body.statements@.len() == chs.len() && forall|i: int| 0 <= i < chs.len() ==> denotes_stmt(
            #[trigger] f.body.statements@[i],
            chs[i],
        ),
    }
}

/// After whitespace, the trait item `d` at `p`: a function declaration
/// ended by `;`, or a definition with its block.
pub open spec fn trait_item_written(s: Seq<char>, p: int, d: (Seq<char>, Seq<(Seq<char>, Seq<char>, PrimitiveType)>, Option<(Seq<char>, PrimitiveType)>, Option<Seq<StmtText>>)) -> bool {
    let e = fn_decl_end(s, p, d.0, d.1, d.2);
    &&& fn_decl_written(s, p, d.0, d.1, d.2)
    &&& match d.3 {
        None => next_char(s, e) == Some(';'),
        Some(chs) => block_written(s, e, chs),
    }
}

/// Where the trait item `d` written at `p` ends.
pub open spec fn trait_item_end(s: Seq<char>, p: int, d: (Seq<char>, Seq<(Seq<char>, Seq<char>, PrimitiveType)>, Option<(Seq<char>, PrimitiveType)>, Option<Seq<StmtText>>)) -> int {
    let e = fn_decl_end(s, p, d.0, d.1, d.2);
    match d.3 {
        None => ws_skip(s, e) + 1,
        Some(chs) => statements_end(s, ws_skip(s, e) + 1, chs),
    }
}

/// From `p` on, the trait items `ds` (see `trait_item_written`), then `}`.
pub open spec fn trait_items_written(s: Seq<char>, p: int, ds: Seq<(Seq<char>, Seq<(Seq<char>, Seq<char>, PrimitiveType)>, Option<(Seq<char>, PrimitiveType)>, Option<Seq<StmtText>>)>) -> bool
    decreases ds.len(),
{
    if ds.len() == 0 {
        next_char(s, p) == Some('}')
    } else {
        &&& trait_item_written(s, p, ds[0])
        &&& trait_items_written(s, trait_item_end(s, p, ds[0]), ds.drop_first())
    }
}

/// Where the `}` after the items written from `p` ends.
pub open spec fn trait_items_end(s: Seq<char>, p: int, ds: Seq<(Seq<char>, Seq<(Seq<char>, Seq<char>, PrimitiveType)>, Option<(Seq<char>, PrimitiveType)>, Option<Seq<StmtText>>)>) -> int
    decreases ds.len(),
{
    if ds.len() == 0 {
        ws_skip(s, p) + 1
    } else {
        trait_items_end(s, trait_item_end(s, p, ds[0]), ds.drop_first())
    }
}

/// Where the items of a trait named `x` written at `pos` start: after
/// the `{`.
pub open spec fn trait_items_pos(s: Seq<char>, pos: int, x: Seq<char>) -> int {
    ws_skip(s, ws_skip(s, ws_skip(s, pos) + 5) + x.len()) + 1
}

/// After whitespace, `inter x { ds }` at `pos`: a trait whose items are
/// the function declarations and definitions `ds`.
pub open spec fn trait_written(s: Seq<char>, pos: int, x: Seq<char>, ds: Seq<(Seq<char>, Seq<(Seq<char>, Seq<char>, PrimitiveType)>, Option<(Seq<char>, PrimitiveType)>, Option<Seq<StmtText>>)>) -> bool {
    &&& starts_with_word(s, pos, seq!['i', 'n', 't', 'e', 'r'])
    &&& name_at(s, ws_skip(s, pos) + 5, x)
    &&& next_char(s, ws_skip(s, ws_skip(s, pos) + 5) + x.len()) == Some('{')
    &&& trait_items_written(s, trait_items_pos(s, pos, x), ds)
}

/// Where the items of a trait named `x` with the template names `ns`,
/// written at `pos`, start: after the `{`.
pub open spec fn trait_tpl_items_pos(s: Seq<char>, pos: int, x: Seq<char>, ns: Seq<Seq<char>>) -> int {
    ws_skip(s, template_end(s, ws_skip(s, ws_skip(s, pos) + 5) + x.len(), ns)) + 1
}

/// After whitespace, `inter x<ns> { ds }` at `pos`: a trait with template
/// names whose items are the function declarations and definitions `ds`.
pub open spec fn trait_tpl_written(
    s: Seq<char>,
    pos: int,
    x: Seq<char>,
    ns: Seq<Seq<char>>,
    ds: Seq<(Seq<char>, Seq<(Seq<char>, Seq<char>, PrimitiveType)>, Option<(Seq<char>, PrimitiveType)>, Option<Seq<StmtText>>)>,
) -> bool {
    let t = ws_skip(s, ws_skip(s, pos) + 5) + x.len();
    &&& starts_with_word(s, pos, seq!['i', 'n', 't', 'e', 'r'])
    &&& name_at(s, ws_skip(s, pos) + 5, x)
    &&& template_written(s, t, ns)
    &&& next_char(s, template_end(s, t, ns)) == Some('{')
    &&& trait_items_written(s, trait_tpl_items_pos(s, pos, x, ns), ds)
}

/// The functions `fs` hold the function of each item of `ds` that no later
/// one of the same name replaces, under its name, and only names of `ds`.
pub open spec fn holds_declarations(fs: Seq<(String, FunctionDefinition)>, ds: Seq<(Seq<char>, Seq<(Seq<char>, Seq<char>, PrimitiveType)>, Option<(Seq<char>, PrimitiveType)>, Option<Seq<StmtText>>)>) -> bool {
    &&& forall|k: int| 0 <= k < ds.len() && (forall|k2: int| k < k2 < ds.len() ==> (#[trigger] ds[k2]).0 != ds[k].0) ==> exists|j: int|
        0 <= j < fs.len() && (#[trigger] fs[j]).0@ == (#[trigger] ds[k]).0 && item_fn_matches(fs[j].1, ds[k])
    &&& forall|j: int| 0 <= j < fs.len() ==> exists|k: int| 0 <= k < ds.len() && (#[trigger] fs[j]).0@ == (#[trigger] ds[k]).0
}

/// One item of a trait body: a declaration `fn ...;` (kept with an empty
/// body), a definition, or a type, which is read and dropped.
fn parse_trait_item(cs: &Vec<char>, pos: usize, strict: bool) -> (r: Result<Parsed<Option<(String, FunctionDefinition)>>, ParseError>)
    requires
        pos <= cs@.len(),
    ensures
        r matches Ok(p) ==> pos < p.end <= cs@.len(),
        forall|d: (Seq<char>, Seq<(Seq<char>, Seq<char>, PrimitiveType)>, Option<(Seq<char>, PrimitiveType)>, Option<Seq<StmtText>>)| #[trigger] trait_item_written(cs@, pos as int, d)
            ==> (r matches Ok(p) && p.end == trait_item_end(cs@, pos as int, d) && (p.value matches Some(nf) && nf.0@ == d.0
            && item_fn_matches(nf.1, d))),
        !strict ==> (r matches Err(e) ==> is_syntax_error(e)),
{
    proof {
        reveal_strlit("fn");
        reveal_strlit(";");
        assert("fn"@ =~= seq!['f', 'n']);
        assert(";"@ =~= seq![';']);
    }
    if keyword(cs, pos, "fn").is_some() {
        let d = handle_fn_declaration(cs, pos, strict)?;
        proof {
            lemma_next_char_skip(cs@, d.end as int);
        }
        if let Some(e) = symbol(cs, d.end, ";") {
            let b = d.value;
            let ghost ps = b.params@;
            let mut params = b.params;
            let mut named: Vec<(String, Type)> = Vec::new();
            while params.len() > 0
                invariant
                    all_params_named(params@),
                    named@.len() + params@.len() == ps.len(),
                    params@ == ps.skip(named@.len() as int),
                    forall|i: int| 0 <= i < named@.len() ==> (#[trigger] named@[i]).0 == ps[i].0.unwrap() && named@[i].1 == ps[i].1,
                decreases params@.len(),
            {
                let ghost k = named@.len() as int;
                let (n, t) = params.remove(0);
                proof {
                    assert((n, t) == ps[k]);
                    assert(params@ =~= ps.skip(k + 1));
                    assert(params@ =~= params@);
                }
                assert(n is Some);
                named.push((n.unwrap(), t));
            }
            let f = FunctionDefinition {
                decl: FunctionDeclaration { constant: b.constant, return_ty: b.ret_ty, parameters: named },
                body: Block::new(),
            };
            proof {
                assert forall|it: (Seq<char>, Seq<(Seq<char>, Seq<char>, PrimitiveType)>, Option<(Seq<char>, PrimitiveType)>, Option<Seq<StmtText>>)| #[trigger] trait_item_written(cs@, pos as int, it)
                    implies it.3 is None && e == trait_item_end(cs@, pos as int, it) && b.ident@ == it.0 && item_fn_matches(f, it) by {
                    assert(fn_decl_written(cs@, pos as int, it.0, it.1, it.2));
                    if it.3 is Some {
                        assert(block_written(cs@, fn_decl_end(cs@, pos as int, it.0, it.1, it.2), it.3->0));
                        assert(next_char(cs@, d.end as int) == Some('{'));
                    }
                    assert forall|i: int| 0 <= i < it.1.len() implies is_param(#[trigger] f.decl.parameters@[i].0, f.decl.parameters@[i].1, it.1[i]) by {
                        assert(b.params@[i].0 is Some);
                    }
                }
            }
            return Ok(Parsed { value: Some((b.ident, f)), end: e });
        }
        let body = handle_block_expression(cs, d.end, strict)?;
        let ghost d0 = d;
        let def = d.value.set_body(body.value).build_def();
        proof {
            assert forall|it: (Seq<char>, Seq<(Seq<char>, Seq<char>, PrimitiveType)>, Option<(Seq<char>, PrimitiveType)>, Option<Seq<StmtText>>)| #[trigger] trait_item_written(cs@, pos as int, it)
                implies it.3 is Some && body.end == trait_item_end(cs@, pos as int, it) && def.name@ == it.0 && (def.kind matches DefinitionKind::FunctionDefinition(f)
                && item_fn_matches(f, it)) by {
                assert(fn_decl_written(cs@, pos as int, it.0, it.1, it.2));
                if it.3 is None {
                    assert(next_char(cs@, d0.end as int) == Some(';'));
                }
                assert(block_written(cs@, fn_decl_end(cs@, pos as int, it.0, it.1, it.2), it.3->0));
            }
        }
        return match def.kind {
            DefinitionKind::FunctionDefinition(f) => Ok(Parsed { value: Some((def.name, f)), end: body.end }),
            _ => Ok(Parsed { value: None, end: body.end }),
        };
    }
    if let Some(q) = keyword(cs, pos, "type") {
        let (_, q2) = match identifier(cs, q) {
            Some(x) => x,
            None => {
                return Err(ParseError::UnexpectedInput(q));
            },
        };
        let q3 = if let Some(a) = symbol(cs, q2, "=") {
            handle_type_expression(cs, a, strict)?.end
        } else if let Some(c) = symbol(cs, q2, ":") {
            handle_qualified_name(cs, c, false)?.end
        } else {
            q2
        };
        return match symbol(cs, q3, ";") {
            Some(e) => Ok(Parsed { value: None, end: e }),
            None => Err(ParseError::UnexpectedInput(q3)),
        };
    }
    let d = handle_type_definitions(cs, pos, strict)?;
    Ok(Parsed { value: None, end: d.end })
}

/// Putting the function of the next declaration under its name keeps
/// the functions holding the declarations read so far.
proof fn lemma_insert_holds(
    old_fs: Seq<(String, FunctionDefinition)>,
    new_fs: Seq<(String, FunctionDefinition)>,
    ds: Seq<(Seq<char>, Seq<(Seq<char>, Seq<char>, PrimitiveType)>, Option<(Seq<char>, PrimitiveType)>, Option<Seq<StmtText>>)>,
    k: int,
    n: String,
    f: FunctionDefinition,
)
    requires
        0 <= k < ds.len(),
        holds_declarations(old_fs, ds.take(k)),
        names_unique(old_fs),
        n@ == ds[k].0,
        item_fn_matches(f, ds[k]),
        (forall|i: int| 0 <= i < old_fs.len() ==> (#[trigger] old_fs[i]).0@ != n@) ==> new_fs == old_fs.push((n, f)),
        forall|i: int|
            0 <= i < old_fs.len() && (#[trigger] old_fs[i]).0@ == n@ && (forall|j: int| 0 <= j < i ==> (#[trigger] old_fs[j]).0@ != n@)
                ==> new_fs == old_fs.update(i, (n, f)),
    ensures
        holds_declarations(new_fs, ds.take(k + 1)),
{
    let dk = ds.take(k);
    let dk1 = ds.take(k + 1);
    // where the new function stands
    let at: int = if forall|i: int| 0 <= i < old_fs.len() ==> (#[trigger] old_fs[i]).0@ != n@ {
        old_fs.len() as int
    } else {
        choose|i: int| 0 <= i < old_fs.len() && (#[trigger] old_fs[i]).0@ == n@
    };
    if at < old_fs.len() {
        assert forall|j: int| 0 <= j < at implies (#[trigger] old_fs[j]).0@ != n@ by {
            if old_fs[j].0@ == n@ {
                assert(old_fs[j].0@ == old_fs[at].0@);
            }
        }
        assert(new_fs == old_fs.update(at, (n, f)));
    } else {
        assert(new_fs == old_fs.push((n, f)));
    }
    assert(new_fs.len() >= old_fs.len());
    assert(new_fs[at] == (n, f));
    assert forall|j: int| 0 <= j < new_fs.len() && j != at implies #[trigger] new_fs[j] == old_fs[j] by {
    }
    assert forall|kk: int| 0 <= kk < dk1.len() && (forall|k2: int| kk < k2 < dk1.len() ==> (#[trigger] dk1[k2]).0 != dk1[kk].0) implies exists|j: int|
        0 <= j < new_fs.len() && (#[trigger] new_fs[j]).0@ == (#[trigger] dk1[kk]).0 && item_fn_matches(new_fs[j].1, dk1[kk]) by {
        if kk == k {
            assert(dk1[kk] == ds[k]);
            assert(new_fs[at].0@ == dk1[kk].0);
        } else {
            assert(dk1[kk] == dk[kk]);
            assert(dk1[k] == ds[k]);
            assert(ds[k].0 != dk[kk].0);
            assert forall|k2: int| kk < k2 < dk.len() implies (#[trigger] dk[k2]).0 != dk[kk].0 by {
                assert(dk[k2] == dk1[k2]);
            }
            let j = choose|j: int| 0 <= j < old_fs.len() && (#[trigger] old_fs[j]).0@ == (#[trigger] dk[kk]).0 && item_fn_matches(old_fs[j].1, dk[kk]);
            assert(j != at);
            assert(new_fs[j] == old_fs[j]);
        }
    }
    assert forall|j: int| 0 <= j < new_fs.len() implies exists|kk: int| 0 <= kk < dk1.len() && (#[trigger] new_fs[j]).0@
        == (#[trigger] dk1[kk]).0 by {
        if j == at {
            assert(dk1[k] == ds[k]);
            assert(new_fs[j].0@ == dk1[k].0);
        } else {
            assert(new_fs[j] == old_fs[j]);
            let kk = choose|kk: int| 0 <= kk < dk.len() && (#[trigger] old_fs[j]).0@ == (#[trigger] dk[kk]).0;
            assert(dk1[kk] == dk[kk]);
        }
    }
}

/// `inter Name<template>? { items }`: a public trait definition holding,
/// under each name, the last function given that name.
#[verifier::rlimit(100)]
#[verifier::spinoff_prover]
pub fn handle_trait_definitions(cs: &Vec<char>, pos: usize, strict: bool) -> (r: Result<Parsed<Definition>, ParseError>)
    requires
        pos <= cs@.len(),
    ensures
        r matches Ok(p) ==> pos < p.end <= cs@.len() && p.value.visibility == Visibility::Public
            && (p.value.kind matches DefinitionKind::Trait(t) && names_unique(t.functions@)),
        r matches Ok(p) ==> keyword_then_name(cs@, pos as int, seq!['i', 'n', 't', 'e', 'r'], p.value.name@),
        forall|x: Seq<char>, ds: Seq<(Seq<char>, Seq<(Seq<char>, Seq<char>, PrimitiveType)>, Option<(Seq<char>, PrimitiveType)>, Option<Seq<StmtText>>)>| #[trigger] trait_written(cs@, pos as int, x, ds) ==> (r matches Ok(p) && p.end
            == trait_items_end(cs@, trait_items_pos(cs@, pos as int, x), ds) && p.value.name@ == x && (p.value.kind matches DefinitionKind::Trait(
            t,
        ) && holds_declarations(t.functions@, ds))),
        forall|x: Seq<char>, ns: Seq<Seq<char>>, ds: Seq<(Seq<char>, Seq<(Seq<char>, Seq<char>, PrimitiveType)>, Option<(Seq<char>, PrimitiveType)>, Option<Seq<StmtText>>)>| #[trigger] trait_tpl_written(cs@, pos as int, x, ns, ds)
            ==> (r matches Ok(p) && p.end == trait_items_end(cs@, trait_tpl_items_pos(cs@, pos as int, x, ns), ds) && p.value.name@ == x
            && (p.value.kind matches DefinitionKind::Trait(t) && holds_declarations(t.functions@, ds))),
        !strict ==> (r matches Err(e) ==> is_syntax_error(e)),
{
    proof {
        reveal_strlit("inter");
        reveal_strlit("{");
        assert("inter"@ =~= seq!['i', 'n', 't', 'e', 'r']);
        assert("{"@ =~= seq!['{']);
    }
    let q = match keyword(cs, pos, "inter") {
        Some(q) => q,
        None => {
            return Err(ParseError::UnexpectedInput(pos));
        },
    };
    proof {
        lemma_keyword_skip(cs@, pos as int, "inter"@, q as int);
    }
    let (name, q1) = match identifier(cs, q) {
        Some(x) => x,
        None => {
            return Err(ParseError::UnexpectedInput(q));
        },
    };
    proof {
        lemma_keyword_then_name(cs@, pos as int, "inter"@, q as int, name@, q1 as int);
        lemma_next_char_skip(cs@, q1 as int);
        assert forall|x: Seq<char>, ds: Seq<(Seq<char>, Seq<(Seq<char>, Seq<char>, PrimitiveType)>, Option<(Seq<char>, PrimitiveType)>, Option<Seq<StmtText>>)>| #[trigger] trait_written(cs@, pos as int, x, ds) implies name@ == x && q1 == ws_skip(
            cs@,
            q as int,
        ) + x.len() && next_char(cs@, q1 as int) == Some('{') by {
            assert(crate::parser::word_at(cs@, ws_skip(cs@, q as int), ws_skip(cs@, q as int) + x.len()));
        }
        assert forall|x: Seq<char>, ns: Seq<Seq<char>>, ds: Seq<(Seq<char>, Seq<(Seq<char>, Seq<char>, PrimitiveType)>, Option<(Seq<char>, PrimitiveType)>, Option<Seq<StmtText>>)>| #[trigger] trait_tpl_written(cs@, pos as int, x, ns, ds)
            implies name@ == x && q1 == ws_skip(cs@, q as int) + x.len() by {
            assert(crate::parser::word_at(cs@, ws_skip(cs@, q as int), ws_skip(cs@, q as int) + x.len()));
        }
    }
    let q = q1;
    let q = match handle_template_def(cs, q) {
        Some(e) => e,
        None => q,
    };
    proof {
        lemma_next_char_skip(cs@, q as int);
    }
    let mut cur = match symbol(cs, q, "{") {
        Some(x) => x,
        None => {
            return Err(ParseError::UnexpectedInput(q));
        },
    };
    let ghost start = cur as int;
    let ghost mut k: int = 0;
    let mut functions: Vec<(String, FunctionDefinition)> = Vec::new();
    proof {
        assert forall|x: Seq<char>, ds: Seq<(Seq<char>, Seq<(Seq<char>, Seq<char>, PrimitiveType)>, Option<(Seq<char>, PrimitiveType)>, Option<Seq<StmtText>>)>| #[trigger] trait_written(cs@, pos as int, x, ds) implies start == trait_items_pos(
            cs@,
            pos as int,
            x,
        ) && x == name@ by {
        }
        assert forall|ds: Seq<(Seq<char>, Seq<(Seq<char>, Seq<char>, PrimitiveType)>, Option<(Seq<char>, PrimitiveType)>, Option<Seq<StmtText>>)>| #[trigger] trait_items_written(cs@, start, ds) implies ds.skip(0) == ds && holds_declarations(
            functions@,
            ds.take(0),
        ) by {
            assert(ds.skip(0) =~= ds);
        }
    }
    loop
        invariant
            pos < start <= cur <= cs@.len(),
            names_unique(functions@),
            keyword_then_name(cs@, pos as int, seq!['i', 'n', 't', 'e', 'r'], name@),
            forall|x: Seq<char>, ds: Seq<(Seq<char>, Seq<(Seq<char>, Seq<char>, PrimitiveType)>, Option<(Seq<char>, PrimitiveType)>, Option<Seq<StmtText>>)>| #[trigger] trait_written(cs@, pos as int, x, ds) ==> start == trait_items_pos(
                cs@,
                pos as int,
                x,
            ) && x == name@,
            forall|x: Seq<char>, ns: Seq<Seq<char>>, ds: Seq<(Seq<char>, Seq<(Seq<char>, Seq<char>, PrimitiveType)>, Option<(Seq<char>, PrimitiveType)>, Option<Seq<StmtText>>)>| #[trigger] trait_tpl_written(cs@, pos as int, x, ns, ds)
                ==> start == trait_tpl_items_pos(cs@, pos as int, x, ns) && x == name@,
            forall|ds: Seq<(Seq<char>, Seq<(Seq<char>, Seq<char>, PrimitiveType)>, Option<(Seq<char>, PrimitiveType)>, Option<Seq<StmtText>>)>| #[trigger] trait_items_written(cs@, start, ds) ==> (0 <= k <= ds.len() && trait_items_written(
                cs@,
                cur as int,
                ds.skip(k),
            ) && trait_items_end(cs@, cur as int, ds.skip(k)) == trait_items_end(cs@, start, ds) && holds_declarations(
                functions@,
                ds.take(k),
            )),
        decreases cs@.len() - cur,
    {
        proof {
            reveal_strlit("}");
            assert("}"@ =~= seq!['}']);
            lemma_next_char_skip(cs@, cur as int);
            crate::parser::lemma_word_first_char(cs@, cur as int, seq!['f', 'n']);
            assert forall|ds: Seq<(Seq<char>, Seq<(Seq<char>, Seq<char>, PrimitiveType)>, Option<(Seq<char>, PrimitiveType)>, Option<Seq<StmtText>>)>| #[trigger] trait_items_written(cs@, start, ds) && k < ds.len() implies ds.skip(k)[0] == ds[k]
                && ds.skip(k).drop_first() =~= ds.skip(k + 1) && fn_decl_written(cs@, cur as int, ds[k].0, ds[k].1, ds[k].2) by {
                assert(ds.skip(k)[0] == ds[k]);
                assert(ds.skip(k).drop_first() =~= ds.skip(k + 1));
            }
        }
        if let Some(e) = symbol(cs, cur, "}") {
            let def = Definition {
                kind: DefinitionKind::Trait(Trait { functions }),
                visibility: Visibility::Public,
                name,
            };
            proof {
                assert forall|ds: Seq<(Seq<char>, Seq<(Seq<char>, Seq<char>, PrimitiveType)>, Option<(Seq<char>, PrimitiveType)>, Option<Seq<StmtText>>)>| #[trigger] trait_items_written(cs@, start, ds) implies k == ds.len() && ds.take(k) =~= ds
                    && e == trait_items_end(cs@, start, ds) by {
                    if k < ds.len() {
                        assert(next_char(cs@, cur as int) == Some('f'));
                    } else {
                        assert(ds.skip(k).len() == 0);
                    }
                }
            }
            return Ok(Parsed { value: def, end: e });
        }
        let ghost fs0 = functions@;
        let item = parse_trait_item(cs, cur, strict)?;
        if let Some((n, f)) = item.value {
            insert_function(&mut functions, n, f);
            proof {
                assert forall|ds: Seq<(Seq<char>, Seq<(Seq<char>, Seq<char>, PrimitiveType)>, Option<(Seq<char>, PrimitiveType)>, Option<Seq<StmtText>>)>| #[trigger] trait_items_written(cs@, start, ds) implies holds_declarations(functions@, ds.take(k + 1)) by {
                    if k == ds.len() {
                        assert(ds.skip(k).len() == 0);
                        assert(next_char(cs@, cur as int) == Some('}'));
                    }
                    lemma_insert_holds(fs0, functions@, ds, k, n, f);
                }
            }
        } else {
            proof {
                assert forall|ds: Seq<(Seq<char>, Seq<(Seq<char>, Seq<char>, PrimitiveType)>, Option<(Seq<char>, PrimitiveType)>, Option<Seq<StmtText>>)>| !#[trigger] trait_items_written(cs@, start, ds) by {
                    if trait_items_written(cs@, start, ds) && k == ds.len() {
                        assert(ds.skip(k).len() == 0);
                    }
                }
            }
        }
        cur = item.end;
        proof {
            assert forall|ds: Seq<(Seq<char>, Seq<(Seq<char>, Seq<char>, PrimitiveType)>, Option<(Seq<char>, PrimitiveType)>, Option<Seq<StmtText>>)>| #[trigger] trait_items_written(cs@, start, ds) implies 0 <= k + 1 <= ds.len() && trait_items_written(
                cs@,
                cur as int,
                ds.skip(k + 1),
            ) && trait_items_end(cs@, cur as int, ds.skip(k + 1)) == trait_items_end(cs@, start, ds) by {
                if k == ds.len() {
                    assert(ds.skip(k).len() == 0);
                }
            }
            k = k + 1;
        }
    }
}

/// `mod name;`: a module kept in a file of its own. An in-file module
/// `mod name { ... }` is refused by `strict` as not supported.
pub fn handle_module_definition(cs: &Vec<char>, pos: usize, strict: bool) -> (r: Result<Parsed<Definition>, ParseError>)
    requires
        pos <= cs@.len(),
    ensures
        r matches Ok(p) ==> pos < p.end <= cs@.len() && p.value.kind is Module,
        r matches Ok(p) ==> keyword_then_name(cs@, pos as int, seq!['m', 'o', 'd'], p.value.name@),
        r matches Ok(p) ==> (p.value.kind matches DefinitionKind::Module(m) && (strict ==> m.kind == ModuleKind::ExFile)),
        !strict ==> (r matches Err(e) ==> is_syntax_error(e)),
    decreases cs@.len() - pos, 0nat,
{
    proof {
        reveal_strlit("mod");
        assert("mod"@ =~= seq!['m', 'o', 'd']);
    }
    let q = match keyword(cs, pos, "mod") {
        Some(q) => q,
        None => {
            return Err(ParseError::UnexpectedInput(pos));
        },
    };
    let (name, q1) = match identifier(cs, q) {
        Some(x) => x,
        None => {
            return Err(ParseError::UnexpectedInput(q));
        },
    };
    proof { lemma_keyword_then_name(cs@, pos as int, "mod"@, q as int, name@, q1 as int); }
    let q = q1;
    if let Some(e) = symbol(cs, q, ";") {
        let mut md = Module::new();
        md.kind = ModuleKind::ExFile;
        return Ok(Parsed { value: Definition::module(name, md), end: e });
    }
    let q2 = match symbol(cs, q, "{") {
        Some(x) => x,
        None => {
            return Err(ParseError::UnexpectedInput(q));
        },
    };
    let inner = parse_stream(cs, q2, false)?;
    let e = match symbol(cs, inner.end, "}") {
        Some(x) => x,
        None => {
            return Err(ParseError::UnexpectedInput(inner.end));
        },
    };
    if strict {
        return Err(ParseError::Unsupported(pos));
    }
    Ok(Parsed { value: Definition::module(name, inner.value), end: e })
}

/// A definition may start at `pos`: one of its keywords is written there.
pub open spec fn starts_definition(s: Seq<char>, pos: int) -> bool {
    ||| starts_with_word(s, pos, seq!['p', 'u', 'b'])
    ||| starts_with_word(s, pos, seq!['f', 'n'])
    ||| starts_with_word(s, pos, seq!['i', 'n', 't', 'e', 'r'])
    ||| starts_with_word(s, pos, seq!['m', 'o', 'd'])
    ||| starts_with_word(s, pos, seq!['t', 'y', 'p', 'e'])
    ||| starts_with_word(s, pos, seq!['s', 't', 'r', 'u', 'c', 't'])
    ||| starts_with_word(s, pos, seq!['u', 'n', 'i', 'o', 'n'])
    ||| starts_with_word(s, pos, seq!['v', 'a', 'r', 'i', 'a', 'n', 't'])
}

/// An item of a module may start at `pos`: an import, an implementation
/// or a definition.
pub open spec fn starts_item(s: Seq<char>, pos: int) -> bool {
    ||| starts_with_word(s, pos, seq!['h', 'e', 'a', 'd', 'e', 'r'])
    ||| starts_with_word(s, pos, seq!['i', 'm', 'p', 'o', 'r', 't'])
    ||| starts_with_word(s, pos, seq!['e', 'x', 't', 'e', 'n', 'd'])
    ||| starts_definition(s, pos)
}

/// A definition starts with a character.
proof fn lemma_definition_has_first_char(s: Seq<char>, pos: int)
    requires
        0 <= pos,
    ensures
        starts_definition(s, pos) ==> next_char(s, pos) is Some,
{
    lemma_item_has_first_char(s, pos);
}

/// An item starts with a character.
proof fn lemma_item_has_first_char(s: Seq<char>, pos: int)
    requires
        0 <= pos,
    ensures
        starts_item(s, pos) ==> next_char(s, pos) is Some,
{
    crate::parser::lemma_word_first_char(s, pos, seq!['h', 'e', 'a', 'd', 'e', 'r']);
    crate::parser::lemma_word_first_char(s, pos, seq!['i', 'm', 'p', 'o', 'r', 't']);
    crate::parser::lemma_word_first_char(s, pos, seq!['e', 'x', 't', 'e', 'n', 'd']);
    crate::parser::lemma_word_first_char(s, pos, seq!['p', 'u', 'b']);
    crate::parser::lemma_word_first_char(s, pos, seq!['f', 'n']);
    crate::parser::lemma_word_first_char(s, pos, seq!['i', 'n', 't', 'e', 'r']);
    crate::parser::lemma_word_first_char(s, pos, seq!['m', 'o', 'd']);
    crate::parser::lemma_word_first_char(s, pos, seq!['t', 'y', 'p', 'e']);
    crate::parser::lemma_word_first_char(s, pos, seq!['s', 't', 'r', 'u', 'c', 't']);
    crate::parser::lemma_word_first_char(s, pos, seq!['u', 'n', 'i', 'o', 'n']);
    crate::parser::lemma_word_first_char(s, pos, seq!['v', 'a', 'r', 'i', 'a', 'n', 't']);
}

/// `pub`? followed by a type, function, trait or module definition; the
/// definition is private whether `pub` is written or not.
pub fn handle_definition(cs: &Vec<char>, pos: usize, strict: bool) -> (r: Result<Parsed<Definition>, ParseError>)
    requires
        pos <= cs@.len(),
    ensures
        r matches Ok(p) ==> pos < p.end <= cs@.len() && p.value.visibility == Visibility::Private,
        !strict ==> (r matches Err(e) ==> is_syntax_error(e)),
        r matches Ok(p) ==> !starts_with_word(cs@, pos as int, seq!['p', 'u', 'b']) ==> {
            &&& starts_with_word(cs@, pos as int, seq!['f', 'n']) ==> p.value.kind is FunctionDefinition
            &&& starts_with_word(cs@, pos as int, seq!['i', 'n', 't', 'e', 'r']) ==> p.value.kind is Trait
            &&& starts_with_word(cs@, pos as int, seq!['m', 'o', 'd']) ==> p.value.kind is Module
            &&& !starts_with_word(cs@, pos as int, seq!['f', 'n']) && !starts_with_word(cs@, pos as int, seq!['i', 'n', 't', 'e', 'r'])
                && !starts_with_word(cs@, pos as int, seq!['m', 'o', 'd']) ==> p.value.kind is Type
        },
        !starts_definition(cs@, pos as int) ==> r == Err::<Parsed<Definition>, ParseError>(ParseError::UnexpectedInput(pos)),
        forall|x: Seq<char>, ps: Seq<(Seq<char>, Seq<char>, PrimitiveType)>, ret: Option<(Seq<char>, PrimitiveType)>, chs: Seq<StmtText>| #[trigger] fn_decl_written(cs@, pos as int, x, ps, ret) && #[trigger] block_written(
            cs@,
            fn_decl_end(cs@, pos as int, x, ps, ret),
            chs,
        ) ==> (r matches Ok(p) && p.end == statements_end(cs@, ws_skip(cs@, fn_decl_end(cs@, pos as int, x, ps, ret)) + 1, chs)
            && defines_fn(p.value, x, ps, ret, chs)),
        forall|x: Seq<char>, w: Seq<char>, t: PrimitiveType| #[trigger] alias_written(cs@, pos as int, x, w, t) ==> (r matches Ok(p)
            && p.end == alias_end(cs@, pos as int, x, w) && p.value.name@ == x && (p.value.kind matches DefinitionKind::Type(ty)
            && ty.kind matches TypeKind::Alias(inner) && inner.kind == TypeKind::Primitive(t))),
        forall|x: Seq<char>, ms: Seq<(Seq<char>, Seq<char>, PrimitiveType)>| #[trigger] struct_written(cs@, pos as int, x, ms) ==> (r matches Ok(
            p,
        ) && p.end == struct_end(cs@, pos as int, x, ms) && p.value.name@ == x && (p.value.kind matches DefinitionKind::Type(ty)
            && ty.kind matches TypeKind::Struct(st) && members_are(st.members@, ms))),
        forall|x: Seq<char>, ds: Seq<(Seq<char>, Seq<(Seq<char>, Seq<char>, PrimitiveType)>, Option<(Seq<char>, PrimitiveType)>, Option<Seq<StmtText>>)>| #[trigger] trait_written(cs@, pos as int, x, ds) ==> (r matches Ok(p) && p.end
            == trait_items_end(cs@, trait_items_pos(cs@, pos as int, x), ds) && p.value.name@ == x && (p.value.kind matches DefinitionKind::Trait(
            t,
        ) && holds_declarations(t.functions@, ds))),
    decreases cs@.len() - pos, 1nat,
{
    proof {
        crate::parser::lemma_word_first_char(cs@, pos as int, seq!['p', 'u', 'b']);
        crate::parser::lemma_word_first_char(cs@, pos as int, seq!['f', 'n']);
        crate::parser::lemma_word_first_char(cs@, pos as int, seq!['i', 'n', 't', 'e', 'r']);
        crate::parser::lemma_word_first_char(cs@, pos as int, seq!['m', 'o', 'd']);
        crate::parser::lemma_word_first_char(cs@, pos as int, seq!['t', 'y', 'p', 'e']);
        crate::parser::lemma_word_first_char(cs@, pos as int, seq!['s', 't', 'r', 'u', 'c', 't']);
        reveal_strlit("pub");
        reveal_strlit("fn");
        reveal_strlit("inter");
        reveal_strlit("mod");
        assert("pub"@ =~= seq!['p', 'u', 'b']);
        assert("fn"@ =~= seq!['f', 'n']);
        assert("inter"@ =~= seq!['i', 'n', 't', 'e', 'r']);
        assert("mod"@ =~= seq!['m', 'o', 'd']);
    }
    let q = match keyword(cs, pos, "pub") {
        Some(q) => q,
        None => pos,
    };
    let d = if keyword(cs, q, "fn").is_some() {
        handle_fn_definitions(cs, q, strict)?
    } else if keyword(cs, q, "inter").is_some() {
        handle_trait_definitions(cs, q, strict)?
    } else if keyword(cs, q, "mod").is_some() {
        handle_module_definition(cs, q, strict)?
    } else {
        handle_type_definitions(cs, q, strict)?
    };
    let mut def = d.value;
    def.visibility = Visibility::Private;
    Ok(Parsed { value: def, end: d.end })
}

/// The keyword of an import: `header` for C imports, `import` otherwise.
pub open spec fn import_keyword(c: bool) -> Seq<char> {
    if c {
        seq!['h', 'e', 'a', 'd', 'e', 'r']
    } else {
        seq!['i', 'm', 'p', 'o', 'r', 't']
    }
}

/// The paths an import names: `pre` itself when no group follows (`ns`
/// empty), else `pre::n` for each name `n` of the group, in order.
pub open spec fn import_paths(pre: Seq<Seq<char>>, ns: Seq<Seq<char>>) -> Seq<Seq<Seq<char>>> {
    if ns.len() == 0 {
        seq![pre]
    } else {
        Seq::new(ns.len(), |i: int| pre.push(ns[i]))
    }
}

/// Where the paths of an import end, written at `q` (after the keyword).
pub open spec fn import_paths_end(s: Seq<char>, q: int, pre: Seq<Seq<char>>, ns: Seq<Seq<char>>) -> int {
    if ns.len() == 0 {
        group_prefix_end(s, q, pre)
    } else {
        grouped_end(s, q, pre, ns)
    }
}

/// After whitespace, an import at `pos`: its keyword, the path `pre` alone
/// (`ns` empty) or grouped as `pre::{ns}`, then `;`; each path of a C
/// import has two segments, the header and the symbol.
pub open spec fn import_written(s: Seq<char>, pos: int, c: bool, pre: Seq<Seq<char>>, ns: Seq<Seq<char>>) -> bool {
    let q = ws_skip(s, pos) + import_keyword(c).len();
    &&& starts_with_word(s, pos, import_keyword(c))
    &&& if ns.len() == 0 {
        valid_path(pre) && path_written(s, q, pre) && !double_colon_at(s, group_prefix_end(s, q, pre))
    } else {
        grouped_written(s, q, pre, ns)
    }
    &&& next_char(s, import_paths_end(s, q, pre, ns)) == Some(';')
    &&& c ==> forall|i: int| 0 <= i < import_paths(pre, ns).len() ==> (#[trigger] import_paths(pre, ns)[i]).len() == 2
}

/// Where an import written at `pos` ends: after its `;`.
pub open spec fn import_end(s: Seq<char>, pos: int, c: bool, pre: Seq<Seq<char>>, ns: Seq<Seq<char>>) -> int {
    ws_skip(s, import_paths_end(s, ws_skip(s, pos) + import_keyword(c).len(), pre, ns)) + 1
}

/// `ims` are the imports of the paths `ps`, C imports when `c`, in order.
pub open spec fn imports_read(ims: Seq<Import>, c: bool, ps: Seq<Seq<Seq<char>>>) -> bool {
    &&& ims.len() == ps.len()
    &&& forall|i: int| 0 <= i < ps.len() ==> (#[trigger] ims[i]).c_import == c && names_path(ims[i].path, ps[i])
}

/// A keyword that `keyword` found at `pos` ends its length after the
/// whitespace there.
pub proof fn lemma_keyword_skip(s: Seq<char>, pos: int, kw: Seq<char>, q: int)
    requires
        0 <= pos,
        exists|a: int| ws_end(s, pos, a) && q == a + kw.len() && s.subrange(a, q) == kw,
    ensures
        q == ws_skip(s, pos) + kw.len(),
{
    let a = choose|a: int| ws_end(s, pos, a) && q == a + kw.len() && s.subrange(a, q) == kw;
    crate::parser::lemma_ws_skip(s, pos, a);
}

/// `header path;`: one C import for each path named, each of two
/// segments (the header and the symbol in it). A path of another length is
/// refused with `strict`, and kept as `_::_` otherwise.
pub fn handle_c_imports(cs: &Vec<char>, pos: usize, strict: bool) -> (r: Result<Parsed<Vec<Import>>, ParseError>)
    requires
        pos <= cs@.len(),
    ensures
        r matches Ok(p) ==> pos < p.end <= cs@.len() && p.value@.len() >= 1,
        r matches Ok(p) ==> forall|i: int| 0 <= i < p.value@.len() ==> (#[trigger] p.value@[i]).c_import
            && p.value@[i].path.v@.len() == 2,
        forall|pre: Seq<Seq<char>>, ns: Seq<Seq<char>>| #[trigger] import_written(cs@, pos as int, true, pre, ns) ==> (r matches Ok(p)
            && p.end == import_end(cs@, pos as int, true, pre, ns) && imports_read(p.value@, true, import_paths(pre, ns))),
        !starts_with_word(cs@, pos as int, seq!['h', 'e', 'a', 'd', 'e', 'r']) ==> r == Err::<Parsed<Vec<Import>>, ParseError>(
            ParseError::UnexpectedInput(pos)),
        !strict ==> (r matches Err(e) ==> is_syntax_error(e)),
{
    proof {
        reveal_strlit("header");
        reveal_strlit(";");
        assert("header"@ =~= seq!['h', 'e', 'a', 'd', 'e', 'r']);
        assert(";"@ =~= seq![';']);
    }
    let q = match keyword(cs, pos, "header") {
        Some(q) => q,
        None => {
            return Err(ParseError::UnexpectedInput(pos));
        },
    };
    proof {
        lemma_keyword_skip(cs@, pos as int, "header"@, q as int);
    }
    let paths = handle_import_path(cs, q, strict)?;
    proof {
        lemma_next_char_skip(cs@, paths.end as int);
    }
    let e = match symbol(cs, paths.end, ";") {
        Some(x) => x,
        None => {
            return Err(ParseError::UnexpectedInput(paths.end));
        },
    };
    let ghost all = paths.value@;
    proof {
        assert forall|pre: Seq<Seq<char>>, ns: Seq<Seq<char>>| #[trigger] import_written(cs@, pos as int, true, pre, ns) implies e
            == import_end(cs@, pos as int, true, pre, ns) && all.len() == import_paths(pre, ns).len() && forall|i: int|
            0 <= i < all.len() ==> names_path(#[trigger] all[i], import_paths(pre, ns)[i]) && all[i].v@.len() == 2 by {
            assert forall|i: int| 0 <= i < all.len() implies names_path(#[trigger] all[i], import_paths(pre, ns)[i])
                && all[i].v@.len() == 2 by {
                assert(import_paths(pre, ns)[i].len() == 2);
            }
        }
    }
    let mut ps = paths.value;
    let mut out: Vec<Import> = Vec::new();
    while ps.len() > 0
        invariant
            forall|i: int| 0 <= i < out@.len() ==> (#[trigger] out@[i]).c_import && out@[i].path.v@.len() == 2,
            forall|i: int| 0 <= i < out@.len() && all[i].v@.len() == 2 ==> (#[trigger] out@[i]).path == all[i],
            out@.len() + ps@.len() == all.len(),
            ps@ == all.skip(out@.len() as int),
            all.len() >= 1,
            starts_with_word(cs@, pos as int, seq!['h', 'e', 'a', 'd', 'e', 'r']),
            forall|pre: Seq<Seq<char>>, ns: Seq<Seq<char>>| #[trigger] import_written(cs@, pos as int, true, pre, ns) ==> forall|i: int|
                0 <= i < all.len() ==> (#[trigger] all[i]).v@.len() == 2,
        decreases ps@.len(),
    {
        let ghost k = out@.len() as int;
        let p = ps.remove(0);
        proof {
            assert(p == all[k]);
            assert(ps@ =~= all.skip(k + 1));
        }
        if p.len() != 2 {
            if strict {
                return Err(ParseError::BadHeaderPath(q));
            }
            let mut placeholder = crate::general::path::QualifiedName::from_ident("_");
            placeholder.add_ident("_");
            out.push(Import::c_import(placeholder));
        } else {
            out.push(Import::c_import(p));
        }
    }
    Ok(Parsed { value: out, end: e })
}

/// `import path;`: one Niebo import for each path named, in order.
pub fn handle_niebo_imports(cs: &Vec<char>, pos: usize, strict: bool) -> (r: Result<Parsed<Vec<Import>>, ParseError>)
    requires
        pos <= cs@.len(),
    ensures
        r matches Ok(p) ==> pos < p.end <= cs@.len() && p.value@.len() >= 1,
        r matches Ok(p) ==> forall|i: int| 0 <= i < p.value@.len() ==> !(#[trigger] p.value@[i]).c_import,
        forall|pre: Seq<Seq<char>>, ns: Seq<Seq<char>>| #[trigger] import_written(cs@, pos as int, false, pre, ns) ==> (r matches Ok(p)
            && p.end == import_end(cs@, pos as int, false, pre, ns) && imports_read(p.value@, false, import_paths(pre, ns))),
        !starts_with_word(cs@, pos as int, seq!['i', 'm', 'p', 'o', 'r', 't']) ==> r == Err::<Parsed<Vec<Import>>, ParseError>(
            ParseError::UnexpectedInput(pos)),
        !strict ==> (r matches Err(e) ==> is_syntax_error(e)),
{
    proof {
        reveal_strlit("import");
        reveal_strlit(";");
        assert("import"@ =~= seq!['i', 'm', 'p', 'o', 'r', 't']);
        assert(";"@ =~= seq![';']);
    }
    let q = match keyword(cs, pos, "import") {
        Some(q) => q,
        None => {
            return Err(ParseError::UnexpectedInput(pos));
        },
    };
    proof {
        lemma_keyword_skip(cs@, pos as int, "import"@, q as int);
    }
    let paths = handle_import_path(cs, q, strict)?;
    proof {
        lemma_next_char_skip(cs@, paths.end as int);
    }
    let e = match symbol(cs, paths.end, ";") {
        Some(x) => x,
        None => {
            return Err(ParseError::UnexpectedInput(paths.end));
        },
    };
    let ghost all = paths.value@;
    proof {
        assert forall|pre: Seq<Seq<char>>, ns: Seq<Seq<char>>| #[trigger] import_written(cs@, pos as int, false, pre, ns) implies e
            == import_end(cs@, pos as int, false, pre, ns) && all.len() == import_paths(pre, ns).len() && forall|i: int|
            0 <= i < all.len() ==> names_path(#[trigger] all[i], import_paths(pre, ns)[i]) by {
        }
    }
    let mut ps = paths.value;
    let mut out: Vec<Import> = Vec::new();
    while ps.len() > 0
        invariant
            forall|i: int| 0 <= i < out@.len() ==> !(#[trigger] out@[i]).c_import && out@[i].path == all[i],
            out@.len() + ps@.len() == all.len(),
            ps@ == all.skip(out@.len() as int),
            all.len() >= 1,
        decreases ps@.len(),
    {
        let ghost k = out@.len() as int;
        let p = ps.remove(0);
        proof {
            assert(p == all[k]);
            assert(ps@ =~= all.skip(k + 1));
        }
        out.push(Import::niebo_import(p));
    }
    Ok(Parsed { value: out, end: e })
}

/// `header path;` (C imports) or `import path;` (Niebo imports); a path
/// may be grouped as `prefix::{a, b}`.
pub fn handle_imports(cs: &Vec<char>, pos: usize, strict: bool) -> (r: Result<Parsed<Vec<Import>>, ParseError>)
    requires
        pos <= cs@.len(),
    ensures
        r matches Ok(p) ==> pos < p.end <= cs@.len() && p.value@.len() >= 1,
        r matches Ok(p) ==> forall|i: int| 0 <= i < p.value@.len() && (#[trigger] p.value@[i]).c_import
            ==> p.value@[i].path.v@.len() == 2,
        r matches Ok(p) ==> forall|i: int| 0 <= i < p.value@.len() ==> ((#[trigger] p.value@[i]).c_import
            <==> starts_with_word(cs@, pos as int, seq!['h', 'e', 'a', 'd', 'e', 'r'])),
        !starts_with_word(cs@, pos as int, seq!['h', 'e', 'a', 'd', 'e', 'r'])
            && !starts_with_word(cs@, pos as int, seq!['i', 'm', 'p', 'o', 'r', 't'])
            ==> r == Err::<Parsed<Vec<Import>>, ParseError>(ParseError::UnexpectedInput(pos)),
        forall|c: bool, pre: Seq<Seq<char>>, ns: Seq<Seq<char>>| #[trigger] import_written(cs@, pos as int, c, pre, ns) ==> (r matches Ok(
            p,
        ) && p.end == import_end(cs@, pos as int, c, pre, ns) && imports_read(p.value@, c, import_paths(pre, ns))),
        !strict ==> (r matches Err(e) ==> is_syntax_error(e)),
{
    proof {
        reveal_strlit("header");
        reveal_strlit("import");
        assert("header"@ =~= seq!['h', 'e', 'a', 'd', 'e', 'r']);
        assert("import"@ =~= seq!['i', 'm', 'p', 'o', 'r', 't']);
        crate::parser::lemma_word_first_char(cs@, pos as int, seq!['h', 'e', 'a', 'd', 'e', 'r']);
        crate::parser::lemma_word_first_char(cs@, pos as int, seq!['i', 'm', 'p', 'o', 'r', 't']);
    }
    if keyword(cs, pos, "header").is_some() {
        handle_c_imports(cs, pos, strict)
    } else {
        handle_niebo_imports(cs, pos, strict)
    }
}

/// Every definition is a private function definition.
pub open spec fn impl_functions(defs: Seq<Definition>) -> bool {
    forall|i: int| 0 <= i < defs.len() ==> (#[trigger] defs[i]).kind is FunctionDefinition && defs[i].visibility
        == Visibility::Private
}

/// `extend Target { fn definitions }` or `extend Target as Trait { ... }`:
/// the implementation, or the trait implementation; either holds only
/// function definitions, in order.
pub fn handle_impls(cs: &Vec<char>, pos: usize, strict: bool) -> (r: Result<Parsed<Result<Implementation, TraitImplementation>>, ParseError>)
    requires
        pos <= cs@.len(),
    ensures
        r matches Ok(p) ==> pos < p.end <= cs@.len(),
        r matches Ok(p) ==> match p.value {
            Ok(i) => impl_functions(i.definitions@) && i.target.v@.len() >= 1,
            Err(t) => impl_functions(t.definitions@) && t.target.v@.len() >= 1 && t.trait_path.v@.len() >= 1,
        },
        !starts_with_word(cs@, pos as int, seq!['e', 'x', 't', 'e', 'n', 'd']) ==> r == Err::<
            Parsed<Result<Implementation, TraitImplementation>>,
            ParseError,
        >(ParseError::UnexpectedInput(pos)),
        !strict ==> (r matches Err(e) ==> is_syntax_error(e)),
{
    proof {
        reveal_strlit("extend");
        assert("extend"@ =~= seq!['e', 'x', 't', 'e', 'n', 'd']);
    }
    let q = match keyword(cs, pos, "extend") {
        Some(q) => q,
        None => {
            return Err(ParseError::UnexpectedInput(pos));
        },
    };
    let target = handle_qualified_name(cs, q, strict)?;
    let mut cur = target.end;
    let mut trait_path = None;
    if let Some(a) = keyword(cs, cur, "as") {
        let t = handle_qualified_name(cs, a, strict)?;
        trait_path = Some(t.value);
        cur = t.end;
    }
    cur = match symbol(cs, cur, "{") {
        Some(x) => x,
        None => {
            return Err(ParseError::UnexpectedInput(cur));
        },
    };
    let mut definitions: Vec<Definition> = Vec::new();
    loop
        invariant
            pos < cur <= cs@.len(),
            impl_functions(definitions@),
            target.value.v@.len() >= 1,
            trait_path matches Some(t) ==> t.v@.len() >= 1,
            starts_with_word(cs@, pos as int, seq!['e', 'x', 't', 'e', 'n', 'd']),
        decreases cs@.len() - cur,
    {
        if let Some(e) = symbol(cs, cur, "}") {
            let value = match trait_path {
                Some(t) => Err(TraitImplementation { trait_path: t, target: target.value, definitions }),
                None => Ok(Implementation { target: target.value, definitions }),
            };
            return Ok(Parsed { value, end: e });
        }
        let d = handle_fn_definitions(cs, cur, strict)?;
        definitions.push(d.value);
        cur = d.end;
    }
}

/// `extend Target { fn definitions }`: the implementation.
pub fn handle_implementation(cs: &Vec<char>, pos: usize, strict: bool) -> (r: Result<Parsed<Implementation>, ParseError>)
    requires
        pos <= cs@.len(),
    ensures
        r matches Ok(p) ==> pos < p.end <= cs@.len(),
        r matches Ok(p) ==> impl_functions(p.value.definitions@) && p.value.target.v@.len() >= 1,
        !strict ==> (r matches Err(e) ==> is_syntax_error(e)),
{
    let i = handle_impls(cs, pos, strict)?;
    match i.value {
        Ok(x) => Ok(Parsed { value: x, end: i.end }),
        Err(_) => Err(ParseError::UnexpectedInput(pos)),
    }
}

/// `extend Target as Trait { fn definitions }`: the trait implementation.
pub fn handle_trait_implementation(cs: &Vec<char>, pos: usize, strict: bool) -> (r: Result<Parsed<TraitImplementation>, ParseError>)
    requires
        pos <= cs@.len(),
    ensures
        r matches Ok(p) ==> pos < p.end <= cs@.len(),
        r matches Ok(p) ==> impl_functions(p.value.definitions@) && p.value.target.v@.len() >= 1,
        !strict ==> (r matches Err(e) ==> is_syntax_error(e)),
{
    let i = handle_impls(cs, pos, strict)?;
    match i.value {
        Err(x) => Ok(Parsed { value: x, end: i.end }),
        Ok(_) => Err(ParseError::UnexpectedInput(pos)),
    }
}

/// Two different words, made of identifier characters, do not both start
/// at one place.
proof fn lemma_one_word_at(s: Seq<char>, p: int, a: Seq<char>, b: Seq<char>)
    requires
        0 <= p,
        a != b,
        forall|i: int| 0 <= i < a.len() ==> #[trigger] crate::parser::is_ident_char(a[i]),
        forall|i: int| 0 <= i < b.len() ==> #[trigger] crate::parser::is_ident_char(b[i]),
    ensures
        !(starts_with_word(s, p, a) && starts_with_word(s, p, b)),
{
    if starts_with_word(s, p, a) && starts_with_word(s, p, b) {
        let qa = choose|q: int| #![trigger ws_end(s, p, q)] ws_end(s, p, q) && q + a.len() <= s.len() && s.subrange(q, q + a.len()) == a
            && (q + a.len() == s.len() || !crate::parser::is_ident_char(s[q + a.len()]));
        let qb = choose|q: int| #![trigger ws_end(s, p, q)] ws_end(s, p, q) && q + b.len() <= s.len() && s.subrange(q, q + b.len()) == b
            && (q + b.len() == s.len() || !crate::parser::is_ident_char(s[q + b.len()]));
        crate::parser::lemma_ws_end_unique(s, p, qa);
        assert(qa == qb);
        if a.len() < b.len() {
            assert(s[qa + a.len()] == b[a.len() as int]) by {
                assert(s.subrange(qb, qb + b.len())[a.len() as int] == s[qa + a.len()]);
            }
        } else if b.len() < a.len() {
            assert(s[qa + b.len()] == a[b.len() as int]) by {
                assert(s.subrange(qa, qa + a.len())[b.len() as int] == s[qa + b.len()]);
            }
        } else {
            assert(a =~= b) by {
                assert forall|i: int| 0 <= i < a.len() implies a[i] == b[i] by {
                    assert(s.subrange(qa, qa + a.len())[i] == s[qa + i]);
                    assert(s.subrange(qb, qb + b.len())[i] == s[qb + i]);
                }
            }
        }
    }
}

/// One item of a module text, as written: an import (whether it is a C
/// import, its path, its group), a function definition (its name,
/// parameters, return type and the statements of its body), a trait (its
/// name and function declarations), a type alias (its name and the word
/// of its primitive type) or a struct (its name and members).
pub enum ItemText {
    Import(bool, Seq<Seq<char>>, Seq<Seq<char>>),
    Function(
        Seq<char>,
        Seq<(Seq<char>, Seq<char>, PrimitiveType)>,
        Option<(Seq<char>, PrimitiveType)>,
        Seq<StmtText>,
    ),
    Trait(Seq<char>, Seq<(Seq<char>, Seq<(Seq<char>, Seq<char>, PrimitiveType)>, Option<(Seq<char>, PrimitiveType)>, Option<Seq<StmtText>>)>),
    Alias(Seq<char>, Seq<char>, PrimitiveType),
    Struct(Seq<char>, Seq<(Seq<char>, Seq<char>, PrimitiveType)>),
}

/// After whitespace, the item `it` at `pos`.
pub open spec fn item_written(s: Seq<char>, pos: int, it: ItemText) -> bool {
    match it {
        ItemText::Import(c, pre, ns) => import_written(s, pos, c, pre, ns),
        ItemText::Function(x, ps, ret, chs) => fn_decl_written(s, pos, x, ps, ret) && block_written(
            s,
            fn_decl_end(s, pos, x, ps, ret),
            chs,
        ),
        ItemText::Trait(x, ds) => trait_written(s, pos, x, ds),
        ItemText::Alias(x, w, t) => alias_written(s, pos, x, w, t),
        ItemText::Struct(x, ms) => struct_written(s, pos, x, ms),
    }
}

/// Where the item `it` written at `pos` ends.
pub open spec fn item_end(s: Seq<char>, pos: int, it: ItemText) -> int {
    match it {
        ItemText::Import(c, pre, ns) => import_end(s, pos, c, pre, ns),
        ItemText::Function(x, ps, ret, chs) => statements_end(s, ws_skip(s, fn_decl_end(s, pos, x, ps, ret)) + 1, chs),
        ItemText::Trait(x, ds) => trait_items_end(s, trait_items_pos(s, pos, x), ds),
        ItemText::Alias(x, w, t) => alias_end(s, pos, x, w),
        ItemText::Struct(x, ms) => struct_end(s, pos, x, ms),
    }
}

/// After whitespace, the text at `pos` is the items `its`, one after the
/// other, and then nothing but whitespace.
pub open spec fn items_written(s: Seq<char>, pos: int, its: Seq<ItemText>) -> bool
    decreases its.len(),
{
    if its.len() == 0 {
        next_char(s, pos) is None
    } else {
        &&& item_written(s, pos, its[0])
        &&& items_written(s, item_end(s, pos, its[0]), its.drop_first())
    }
}

/// The imports that one item gives: the paths of an import, with its
/// kind; none for a definition.
pub open spec fn item_imports(it: ItemText) -> Seq<(bool, Seq<Seq<char>>)> {
    match it {
        ItemText::Import(c, pre, ns) => import_paths(pre, ns).map_values(|p: Seq<Seq<char>>| (c, p)),
        _ => Seq::empty(),
    }
}

/// The imports that the items `its` give, in order.
pub open spec fn run_imports(its: Seq<ItemText>) -> Seq<(bool, Seq<Seq<char>>)>
    decreases its.len(),
{
    if its.len() == 0 {
        Seq::empty()
    } else {
        run_imports(its.drop_last()) + item_imports(its.last())
    }
}

/// The definition items of `its` (all but the imports), in order.
pub open spec fn run_definitions(its: Seq<ItemText>) -> Seq<ItemText>
    decreases its.len(),
{
    if its.len() == 0 {
        Seq::empty()
    } else if !(its.last() is Import) {
        run_definitions(its.drop_last()).push(its.last())
    } else {
        run_definitions(its.drop_last())
    }
}

/// `d` is the definition that the item `it` writes.
pub open spec fn defines_item(d: Definition, it: ItemText) -> bool {
    match it {
        ItemText::Import(..) => false,
        ItemText::Function(x, ps, ret, chs) => defines_fn(d, x, ps, ret, chs),
        ItemText::Trait(x, ds) => d.name@ == x && (d.kind matches DefinitionKind::Trait(t) && holds_declarations(t.functions@, ds)),
        ItemText::Alias(x, w, t) => d.name@ == x && (d.kind matches DefinitionKind::Type(ty) && ty.kind matches TypeKind::Alias(inner)
            && inner.kind == TypeKind::Primitive(t)),
        ItemText::Struct(x, ms) => d.name@ == x && (d.kind matches DefinitionKind::Type(ty) && ty.kind matches TypeKind::Struct(st)
            && members_are(st.members@, ms)),
    }
}

/// `ims` are the imports `xs` (kind and path), in order.
pub open spec fn imports_are(ims: Seq<Import>, xs: Seq<(bool, Seq<Seq<char>>)>) -> bool {
    &&& ims.len() == xs.len()
    &&& forall|i: int| 0 <= i < xs.len() ==> (#[trigger] ims[i]).c_import == xs[i].0 && names_path(ims[i].path, xs[i].1)
}

/// `ds` are the definitions of the items `fs`, in order.
pub open spec fn definitions_are(ds: Seq<Definition>, fs: Seq<ItemText>) -> bool {
    &&& ds.len() == fs.len()
    &&& forall|i: int| 0 <= i < fs.len() ==> defines_item(ds[i], #[trigger] fs[i])
}

/// Imports, definitions and implementations, in any order, as long as
/// they follow; the module they make.
#[verifier::rlimit(100)]
#[verifier::spinoff_prover]
pub fn parse_stream(cs: &Vec<char>, pos: usize, strict: bool) -> (r: Result<Parsed<Module>, ParseError>)
    requires
        pos <= cs@.len(),
    ensures
        r matches Ok(p) ==> pos <= p.end <= cs@.len() && p.value.kind == ModuleKind::InFile,
        r matches Ok(p) ==> forall|i: int| 0 <= i < p.value.imports@.len() && (#[trigger] p.value.imports@[i]).c_import
            ==> p.value.imports@[i].path.v@.len() == 2,
        r matches Ok(p) ==> forall|i: int| 0 <= i < p.value.definitions@.len() ==> (#[trigger] p.value.definitions@[i]).visibility
            == Visibility::Private,
        !strict ==> (r matches Err(e) ==> is_syntax_error(e)),
        !starts_item(cs@, pos as int) ==> (r matches Ok(p) && p.end == pos && p.value.imports@.len() == 0
            && p.value.definitions@.len() == 0 && p.value.impls@.len() == 0 && p.value.trait_impls@.len() == 0),
        forall|its: Seq<ItemText>| #[trigger] items_written(cs@, pos as int, its) ==> (r matches Ok(p) && next_char(cs@, p.end as int) is None
            && imports_are(p.value.imports@, run_imports(its)) && definitions_are(p.value.definitions@, run_definitions(its))
            && p.value.impls@.len() == 0 && p.value.trait_impls@.len() == 0),
    decreases cs@.len() - pos, 2nat,
{
    proof {
        reveal_strlit("header");
        reveal_strlit("import");
        reveal_strlit("extend");
        assert("header"@ =~= seq!['h', 'e', 'a', 'd', 'e', 'r']);
        assert("import"@ =~= seq!['i', 'm', 'p', 'o', 'r', 't']);
        assert("extend"@ =~= seq!['e', 'x', 't', 'e', 'n', 'd']);
    }
    let mut md = Module::new();
    let mut cur = pos;
    let ghost mut k: int = 0;
    proof {
        assert forall|its: Seq<ItemText>| #[trigger] items_written(cs@, pos as int, its) implies its.skip(0) == its && imports_are(
            md.imports@,
            run_imports(its.take(0)),
        ) && definitions_are(md.definitions@, run_definitions(its.take(0))) by {
            assert(its.skip(0) =~= its);
            assert(its.take(0) =~= Seq::<ItemText>::empty());
        }
    }
    loop
        invariant
            pos <= cur <= cs@.len(),
            md.kind == ModuleKind::InFile,
            forall|its: Seq<ItemText>| #[trigger] items_written(cs@, pos as int, its) ==> (0 <= k <= its.len() && items_written(
                cs@,
                cur as int,
                its.skip(k),
            ) && imports_are(md.imports@, run_imports(its.take(k))) && definitions_are(md.definitions@, run_definitions(its.take(k)))
                && md.impls@.len() == 0 && md.trait_impls@.len() == 0),
            forall|i: int| 0 <= i < md.imports@.len() && (#[trigger] md.imports@[i]).c_import ==> md.imports@[i].path.v@.len() == 2,
            forall|i: int| 0 <= i < md.definitions@.len() ==> (#[trigger] md.definitions@[i]).visibility == Visibility::Private,
            !starts_item(cs@, pos as int) ==> cur == pos && md.imports@.len() == 0 && md.definitions@.len() == 0
                && md.impls@.len() == 0 && md.trait_impls@.len() == 0,
        decreases cs@.len() - cur,
    {
        proof {
            reveal_strlit("header");
            reveal_strlit("import");
            reveal_strlit("extend");
            assert("header"@ =~= seq!['h', 'e', 'a', 'd', 'e', 'r']);
            assert("import"@ =~= seq!['i', 'm', 'p', 'o', 'r', 't']);
            assert("extend"@ =~= seq!['e', 'x', 't', 'e', 'n', 'd']);
        }
        proof {
            crate::parser::lemma_word_first_char(cs@, cur as int, seq!['h', 'e', 'a', 'd', 'e', 'r']);
            crate::parser::lemma_word_first_char(cs@, cur as int, seq!['i', 'm', 'p', 'o', 'r', 't']);
            crate::parser::lemma_word_first_char(cs@, cur as int, seq!['e', 'x', 't', 'e', 'n', 'd']);
            crate::parser::lemma_word_first_char(cs@, cur as int, seq!['f', 'n']);
            crate::parser::lemma_word_first_char(cs@, cur as int, seq!['t', 'y', 'p', 'e']);
            crate::parser::lemma_word_first_char(cs@, cur as int, seq!['s', 't', 'r', 'u', 'c', 't']);
            lemma_one_word_at(cs@, cur as int, seq!['i', 'n', 't', 'e', 'r'], seq!['i', 'm', 'p', 'o', 'r', 't']);
            lemma_item_has_first_char(cs@, cur as int);
            assert forall|its: Seq<ItemText>| #[trigger] items_written(cs@, pos as int, its) && k < its.len() implies its.skip(k)[0] == its[k]
                && its.skip(k).drop_first() =~= its.skip(k + 1) && item_written(cs@, cur as int, its[k]) && items_written(
                cs@,
                item_end(cs@, cur as int, its[k]),
                its.skip(k + 1),
            ) && its.take(k + 1).drop_last() =~= its.take(k) && its.take(k + 1).last() == its[k] by {
                assert(its.skip(k)[0] == its[k]);
                assert(its.skip(k).drop_first() =~= its.skip(k + 1));
                assert(its.take(k + 1).drop_last() =~= its.take(k));
            }
        }
        if keyword(cs, cur, "header").is_some() || keyword(cs, cur, "import").is_some() {
            let imps = handle_imports(cs, cur, strict)?;
            let mut v = imps.value;
            let ghost before = md.imports@;
            md.imports.append(&mut v);
            proof {
                assert forall|its: Seq<ItemText>| #[trigger] items_written(cs@, pos as int, its) implies (0 <= k + 1 <= its.len() && items_written(
                    cs@,
                    imps.end as int,
                    its.skip(k + 1),
                ) && imports_are(md.imports@, run_imports(its.take(k + 1))) && definitions_are(
                    md.definitions@,
                    run_definitions(its.take(k + 1)),
                )) by {
                    if k == its.len() {
                        assert(its.skip(k).len() == 0);
                    }
                    let it = its[k];
                    assert(it is Import);
                    assert(run_imports(its.take(k + 1)) == run_imports(its.take(k)) + item_imports(it));
                    assert(run_definitions(its.take(k + 1)) == run_definitions(its.take(k)));
                    assert forall|i: int| 0 <= i < run_imports(its.take(k + 1)).len() implies (#[trigger] md.imports@[i]).c_import
                        == run_imports(its.take(k + 1))[i].0 && names_path(md.imports@[i].path, run_imports(its.take(k + 1))[i].1) by {
                        if i < before.len() {
                            assert(md.imports@[i] == before[i]);
                        } else {
                            assert(md.imports@[i] == imps.value@[i - before.len()]);
                        }
                    }
                }
            }
            proof {
                assert forall|i: int| 0 <= i < md.imports@.len() && (#[trigger] md.imports@[i]).c_import implies md.imports@[i].path.v@.len()
                    == 2 by {
                    if i >= before.len() {
                        assert(md.imports@[i] == imps.value@[i - before.len()]);
                    } else {
                        assert(md.imports@[i] == before[i]);
                    }
                }
            }
            cur = imps.end;
            proof {
                k = k + 1;
            }
        } else if keyword(cs, cur, "extend").is_some() {
            proof {
                assert forall|its: Seq<ItemText>| !#[trigger] items_written(cs@, pos as int, its) by {
                    if items_written(cs@, pos as int, its) && k == its.len() {
                        assert(its.skip(k).len() == 0);
                    }
                }
            }
            let i = handle_impls(cs, cur, strict)?;
            match i.value {
                Ok(x) => md.impls.push(x),
                Err(t) => md.trait_impls.push(t),
            }
            cur = i.end;
        } else {
            proof {
                assert forall|its: Seq<ItemText>| #[trigger] items_written(cs@, pos as int, its) implies (k == its.len() && next_char(cs@, cur as int)
                    is None && its.take(k) =~= its) || (k < its.len() && !(its[k] is Import)) by {
                    if k == its.len() {
                        assert(its.skip(k).len() == 0);
                    }
                }
            }
            match handle_definition(cs, cur, strict) {
                Ok(d) => {
                    let ghost defs0 = md.definitions@;
                    md.definitions.push(d.value);
                    cur = d.end;
                    proof {
                        assert forall|its: Seq<ItemText>| #[trigger] items_written(cs@, pos as int, its) implies (0 <= k + 1 <= its.len() && items_written(
                            cs@,
                            cur as int,
                            its.skip(k + 1),
                        ) && imports_are(md.imports@, run_imports(its.take(k + 1))) && definitions_are(
                            md.definitions@,
                            run_definitions(its.take(k + 1)),
                        )) by {
                            if k == its.len() {
                                lemma_definition_has_first_char(cs@, cur as int);
                                assert(false);
                            }
                            let it = its[k];
                            assert(run_imports(its.take(k + 1)) =~= run_imports(its.take(k)) + item_imports(it));
                            assert(run_imports(its.take(k + 1)) =~= run_imports(its.take(k)));
                            assert(run_definitions(its.take(k + 1)) == run_definitions(its.take(k)).push(it));
                            assert forall|i: int| 0 <= i < run_definitions(its.take(k + 1)).len() implies defines_item(
                                md.definitions@[i],
                                #[trigger] run_definitions(its.take(k + 1))[i],
                            ) by {
                                if i < defs0.len() {
                                    assert(md.definitions@[i] == defs0[i]);
                                    assert(run_definitions(its.take(k + 1))[i] == run_definitions(its.take(k))[i]);
                                }
                            }
                        }
                        k = k + 1;
                    }
                },
                Err(e) => {
                    if !syntax_error(&e) {
                        return Err(e);
                    }
                    return Ok(Parsed { value: md, end: cur });
                },
            }
        }
    }
}

/// Reads a whole module text: only whitespace may follow the last item.
pub fn parse_module(txt: &str) -> (r: Result<Module, ParseError>)
    ensures
        r matches Ok(m) ==> m.kind == ModuleKind::InFile,
        r matches Ok(m) ==> forall|i: int| 0 <= i < m.imports@.len() && (#[trigger] m.imports@[i]).c_import
            ==> m.imports@[i].path.v@.len() == 2,
        r matches Ok(m) ==> forall|i: int| 0 <= i < m.definitions@.len() ==> (#[trigger] m.definitions@[i]).visibility
            == Visibility::Private,
        next_char(txt@, 0) is None ==> (r matches Ok(m) && m.imports@.len() == 0 && m.definitions@.len() == 0
            && m.impls@.len() == 0 && m.trait_impls@.len() == 0),
        next_char(txt@, 0) is Some && !starts_item(txt@, 0) ==> r == Err::<Module, ParseError>(ParseError::UnexpectedInput(
            ws_skip(txt@, 0) as usize,
        )),
        forall|its: Seq<ItemText>| #[trigger] items_written(txt@, 0, its) ==> (r matches Ok(m) && imports_are(m.imports@, run_imports(its))
            && definitions_are(m.definitions@, run_definitions(its)) && m.impls@.len() == 0 && m.trait_impls@.len() == 0),
{
    let cs = chars_of(txt);
    proof { lemma_item_has_first_char(cs@, 0); }
    let s = parse_stream(&cs, 0, true)?;
    let e = skip_ws(&cs, s.end);
    proof {
        crate::parser::lemma_ws_skip_end(cs@, 0);
        crate::parser::lemma_ws_end_unique(cs@, s.end as int, e as int);
        crate::parser::lemma_next_char_at(cs@, 0, ws_skip(cs@, 0));
    }
    proof {
        lemma_next_char_skip(cs@, s.end as int);
        crate::parser::lemma_ws_skip(cs@, s.end as int, e as int);
    }
    if e < cs.len() {
        return Err(ParseError::UnexpectedInput(e));
    }
    Ok(s.value)
}

/// The forms of the grammar that a text can be checked against.
#[allow(non_camel_case_types)]
#[derive(Debug, Clone, Copy, PartialEq, Eq, Structural)]
pub enum Rule {
    module,
    stream,
    definition,
    fn_definition,
    fn_declaration,
    trait_definition,
    trait_implementation,
    implementation,
    import,
    ident_root,
    params,
    statement,
    expression,
    block_expression,
    type_expr,
    path,
}

/// Checks texts against the grammar.
pub struct TokenStream;

impl TokenStream {
    /// Whether a prefix of `text` has the form `rule` (for `module`, the
    /// whole text up to trailing whitespace): the number of characters it
    /// takes. Forms that the tree does not represent yet are accepted
    /// here. An operator chain (see `chain_written`) is an expression that
    /// takes the chain, and a statement that takes it and a `;` after it;
    /// a plain path (see `path_written`) is a path that takes all of it.
    pub fn parse(rule: Rule, text: &str) -> (r: Result<usize, ParseError>)
        ensures
            r matches Ok(e) ==> e <= text@.len(),
            rule == Rule::module ==> (r matches Ok(e) ==> e == text@.len()),
            rule != Rule::module && rule != Rule::stream && rule != Rule::params ==> (r matches Ok(e) ==> e > 0),
            r matches Err(e) ==> is_syntax_error(e),
            rule == Rule::expression ==> forall|ws: Seq<Seq<char>>, ops: Seq<BinaryOperator>| valid_chain(ws, ops)
                && #[trigger] chain_written(text@, 0, ws, ops) ==> r == Ok::<usize, ParseError>(
                chain_end(text@, 0, ws, ops) as usize,
            ),
            rule == Rule::statement ==> forall|ws: Seq<Seq<char>>, ops: Seq<BinaryOperator>| valid_chain(ws, ops)
                && #[trigger] chain_written(text@, 0, ws, ops) ==> r == Ok::<usize, ParseError>(
                after_semicolon(text@, chain_end(text@, 0, ws, ops)) as usize,
            ),
            rule == Rule::path ==> forall|ws: Seq<Seq<char>>| valid_path(ws) && #[trigger] path_written(text@, 0, ws) ==> r
                == Ok::<usize, ParseError>((ws_skip(text@, 0) + path_text(ws).len()) as usize),
    {
        let cs = chars_of(text);
        match rule {
            Rule::module => {
                let s = parse_stream(&cs, 0, false)?;
                let e = skip_ws(&cs, s.end);
                if e < cs.len() {
                    return Err(ParseError::UnexpectedInput(e));
                }
                Ok(e)
            },
            Rule::stream => Ok(parse_stream(&cs, 0, false)?.end),
            Rule::definition => Ok(handle_definition(&cs, 0, false)?.end),
            Rule::fn_definition => Ok(handle_fn_definitions(&cs, 0, false)?.end),
            Rule::fn_declaration => Ok(handle_fn_declaration(&cs, 0, false)?.end),
            Rule::trait_definition => Ok(handle_trait_definitions(&cs, 0, false)?.end),
            Rule::trait_implementation => Ok(handle_trait_implementation(&cs, 0, false)?.end),
            Rule::implementation => Ok(handle_implementation(&cs, 0, false)?.end),
            Rule::import => Ok(handle_imports(&cs, 0, false)?.end),
            Rule::ident_root => match parse_ident_root(&cs, 0) {
                Some((_, _, e)) => Ok(e),
                None => Err(ParseError::UnexpectedInput(0)),
            },
            Rule::params => Ok(handle_params(&cs, 0, false)?.end),
            Rule::statement => Ok(handle_statement(&cs, 0, false)?.end),
            Rule::expression => Ok(handle_expression(&cs, 0, false)?.end),
            Rule::block_expression => Ok(handle_block_expression(&cs, 0, false)?.end),
            Rule::type_expr => Ok(handle_type_expression(&cs, 0, false)?.end),
            Rule::path => Ok(handle_qualified_name(&cs, 0, false)?.end),
        }
    }
}

} // verus!
