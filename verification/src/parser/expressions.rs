use vstd::prelude::*;
use crate::ast::{Definition, DefinitionKind, Import};
use crate::ast::expressions::{Expression, ExpressionKind, Statement};
use crate::ast::expressions::block::Block;
use crate::ast::expressions::conditional::ConditionalBuilder;
use crate::ast::expressions::init::StructInit;
use crate::ast::expressions::intrinsic::{IntrinsicKind, from_str_panics, spec_from_str};
use crate::ast::expressions::literal::{Literal, LiteralInfo};
use crate::ast::expressions::loops::WhileLoop;
use crate::ast::expressions::operations::{BinaryOperator, UnaryOperator};
use crate::general::path::{QualifiedName, QualifiedNameSegment};
use crate::parser::{
    ParseError, Parsed, identifier, is_ident_char, is_ident_start, is_keyword, keyword, keyword_end, keyword_then_name, lemma_keyword_then_name,
    lemma_next_char_at, lemma_word_first_char, lemma_ws_skip, lemma_ws_end_unique, next_char, number, skip_ws, starts_with_word, string_literal,
    literal_close, spec_unescape, word_at, lemma_ws_skip_end,
    symbol, unescape_string_literal, ws_end, ws_skip,
};
use crate::parser::chains::{
    args_end, args_written, denotes_chains, chain_end, chain_written, closes_expression, denotes_call, denotes_chain, denotes_word, lemma_build_call, is_digits, is_name, lemma_build_binary,
    lemma_build_operand, lemma_chain_split, lemma_written_word_is_keyword, operand_word, operator_end, operator_written,
    read_operator, valid_chain, word_written, is_postfix_op, opers, apply_all, lemma_build_postfixes, lemma_build_postfixes_binary, lt_word_written, reads_after_operand,
    path_written, path_text, valid_path,
};
use crate::parser::precedence::apply_one;
use crate::ast::expressions::operations::binary_symbol;
use crate::parser::precedence::{
    ExpressionString, Operation, build_expression, is_binary_item, lemma_well_formed_builds, spec_build, well_formed,
};
use crate::parser::type_handling::{
    is_syntax_error, handle_import_path, handle_qualified_name, handle_type_expression, syntax_error, name_at, primitive_written,
    lemma_name_at_no_keyword, lemma_next_char_skip,
};
use crate::general::types::{PrimitiveType, TypeKind};

verus! {

/// The sequence stays as the grammar writes it when a single operator
/// other than `Binary` is added.
proof fn lemma_push_postfix(s: Seq<ExpressionString>, o: Operation)
    requires
        well_formed(s),
        !(o is Binary),
    ensures
        well_formed(s.push(ExpressionString::Oper(o))),
{
    let t = s.push(ExpressionString::Oper(o));
    assert forall|i: int| 1 <= i < t.len() implies ((#[trigger] t[i] is Val) <==> is_binary_item(t[i - 1])) by {
        if i < s.len() {
            assert(t[i] == s[i]);
            assert(t[i - 1] == s[i - 1]);
        } else {
            assert(!is_binary_item(s.last()));
        }
    }
}

/// ... and when a binary operator with its right operand is added.
proof fn lemma_push_binary(s: Seq<ExpressionString>, b: BinaryOperator, v: Expression)
    requires
        well_formed(s),
    ensures
        well_formed(s.push(ExpressionString::Oper(Operation::Binary(b))).push(ExpressionString::Val(v))),
{
    let t = s.push(ExpressionString::Oper(Operation::Binary(b))).push(ExpressionString::Val(v));
    assert forall|i: int| 1 <= i < t.len() implies ((#[trigger] t[i] is Val) <==> is_binary_item(t[i - 1])) by {
        if i < s.len() {
            assert(t[i] == s[i]);
            assert(t[i - 1] == s[i - 1]);
        } else if i == s.len() {
            assert(!is_binary_item(s.last()));
        }
    }
}

/// The character `c` is next after `p` exactly when the text after the
/// whitespace there starts with it.
proof fn lemma_char_next(s: Seq<char>, p: int, c: char)
    requires
        0 <= p <= s.len(),
    ensures
        next_char(s, p) == Some(c) <==> (ws_skip(s, p) + 1 <= s.len() && s.subrange(ws_skip(s, p), ws_skip(s, p) + 1)
            == seq![c]),
{
    crate::parser::lemma_ws_skip_end(s, p);
    lemma_next_char_at(s, p, ws_skip(s, p));
    let a = ws_skip(s, p);
    if a + 1 <= s.len() {
        assert(s.subrange(a, a + 1)[0] == s[a]);
        if s[a] == c {
            assert(s.subrange(a, a + 1) =~= seq![c]);
        }
    }
}

/// After whitespace, a string literal at `p` whose body is `body`, then
/// `)`.
pub open spec fn string_arg_written(s: Seq<char>, p: int, body: Seq<char>) -> bool {
    &&& next_char(s, p) == Some('"')
    &&& literal_close(s, ws_skip(s, p) + 1) matches Some(c)
    &&& body == s.subrange(ws_skip(s, p) + 1, c)
    &&& next_char(s, c + 1) == Some(')')
}

/// Where a string argument written at `p` ends: after the `)`.
pub open spec fn string_arg_end(s: Seq<char>, p: int) -> int {
    ws_skip(s, literal_close(s, ws_skip(s, p) + 1)->0 + 1) + 1
}

/// `(e, e, ...)` after the opening parenthesis (a trailing comma
/// allowed): the arguments and the position after `)`.
pub fn parse_args(cs: &Vec<char>, pos: usize, strict: bool) -> (r: Result<Parsed<Vec<Expression>>, ParseError>)
    requires
        pos <= cs@.len(),
    ensures
        r matches Ok(p) ==> pos < p.end <= cs@.len(),
        !strict ==> (r matches Err(e) ==> is_syntax_error(e)),
        forall|chs: Seq<(Seq<Seq<char>>, Seq<BinaryOperator>)>| #[trigger] args_written(cs@, pos as int, chs) ==> (r matches Ok(p)
            && p.end == args_end(cs@, pos as int, chs) && denotes_chains(p.value@, chs)),
        forall|body: Seq<char>| #[trigger] string_arg_written(cs@, pos as int, body) ==> (r matches Ok(p) && p.end == string_arg_end(
            cs@,
            pos as int,
        ) && p.value@.len() == 1 && denotes_string(p.value@[0], body)),
    decreases cs@.len() - pos, 3nat,
{
    let mut args: Vec<Expression> = Vec::new();
    let mut cur = pos;
    proof {
        assert forall|chs: Seq<(Seq<Seq<char>>, Seq<BinaryOperator>)>| #[trigger] args_written(cs@, pos as int, chs) implies chs.skip(0)
            == chs by {
            assert(chs.skip(0) =~= chs);
        }
    }
    loop
        invariant
            pos <= cur <= cs@.len(),
            forall|chs: Seq<(Seq<Seq<char>>, Seq<BinaryOperator>)>| #[trigger] args_written(cs@, pos as int, chs) ==> {
                &&& args@.len() <= chs.len()
                &&& args_written(cs@, cur as int, chs.skip(args@.len() as int))
                &&& args_end(cs@, cur as int, chs.skip(args@.len() as int)) == args_end(cs@, pos as int, chs)
                &&& forall|i: int| 0 <= i < args@.len() ==> denotes_chain(#[trigger] args@[i], chs[i].0, chs[i].1)
            },
            forall|body: Seq<char>| #[trigger] string_arg_written(cs@, pos as int, body) ==> cur == pos && args@.len() == 0,
        decreases cs@.len() - cur,
    {
        let ghost k = args@.len() as int;
        let ghost args0 = args@;
        let ghost cur0 = cur as int;
        proof {
            reveal_strlit(")");
            reveal_strlit(",");
            assert(")"@ =~= seq![')']);
            assert(","@ =~= seq![',']);
            lemma_char_next(cs@, cur as int, ')');
            assert forall|chs: Seq<(Seq<Seq<char>>, Seq<BinaryOperator>)>| #[trigger] args_written(cs@, pos as int, chs) && k < chs.len()
                implies next_char(cs@, cur as int) != Some(')') && chs.skip(k)[0] == chs[k] && chs.skip(k).drop_first() == chs.skip(k + 1) by {
                assert(chs.skip(k)[0] == chs[k]);
                assert(chs.skip(k).drop_first() =~= chs.skip(k + 1));
                lemma_chain_first_char(cs@, cur as int, chs[k].0, chs[k].1);
            }
        }
        if let Some(e) = symbol(cs, cur, ")") {
            proof {
                assert forall|chs: Seq<(Seq<Seq<char>>, Seq<BinaryOperator>)>| #[trigger] args_written(cs@, pos as int, chs) implies k
                    == chs.len() by {
                    if k < chs.len() {
                        assert(next_char(cs@, cur as int) != Some(')'));
                    }
                }
            }
            return Ok(Parsed { value: args, end: e });
        }
        let a = handle_expression(cs, cur, strict)?;
        let ghost cur1 = cur as int;
        args.push(a.value);
        cur = a.end;
        proof {
            lemma_char_next(cs@, cur as int, ',');
            lemma_char_next(cs@, cur as int, ')');
            assert forall|body: Seq<char>| #[trigger] string_arg_written(cs@, pos as int, body) implies cur == literal_close(
                cs@,
                ws_skip(cs@, pos as int) + 1,
            )->0 + 1 && next_char(cs@, cur as int) == Some(')') && args@.len() == 1 && denotes_string(args@[0], body) by {
                assert(cur1 == pos);
            }
        }
        match symbol(cs, cur, ",") {
            Some(c) => {
                cur = c;
                proof {
                    assert forall|chs: Seq<(Seq<Seq<char>>, Seq<BinaryOperator>)>| #[trigger] args_written(cs@, pos as int, chs) implies {
                        &&& args@.len() <= chs.len()
                        &&& args_written(cs@, cur as int, chs.skip(args@.len() as int))
                        &&& args_end(cs@, cur as int, chs.skip(args@.len() as int)) == args_end(cs@, pos as int, chs)
                        &&& forall|i: int| 0 <= i < args@.len() ==> denotes_chain(#[trigger] args@[i], chs[i].0, chs[i].1)
                    } by {
                        assert(k < chs.len());
                        assert(chs.skip(k).len() >= 2);
                        assert forall|i: int| 0 <= i < args@.len() implies denotes_chain(#[trigger] args@[i], chs[i].0, chs[i].1) by {
                            if i < k {
                                assert(args@[i] == args0[i]);
                            }
                        }
                    }
                }
            },
            None => {
                return match symbol(cs, cur, ")") {
                    Some(e) => {
                        proof {
                            assert forall|chs: Seq<(Seq<Seq<char>>, Seq<BinaryOperator>)>| #[trigger] args_written(cs@, pos as int, chs) implies (
                            e == args_end(cs@, pos as int, chs) && denotes_chains(args@, chs)) by {
                                assert(k < chs.len());
                                assert(chs.skip(k).len() == 1);
                                assert forall|i: int| 0 <= i < chs.len() implies denotes_chain(#[trigger] args@[i], chs[i].0, chs[i].1) by {
                                    if i < k {
                                        assert(args@[i] == args0[i]);
                                    }
                                }
                            }
                        }
                        Ok(Parsed { value: args, end: e })
                    },
                    None => Err(ParseError::UnexpectedInput(cur)),
                };
            },
        }
    }
}

/// After whitespace, the field `f` at `p`: its name, `:`, and its value, a
/// chain.
pub open spec fn field_written(s: Seq<char>, p: int, f: (Seq<char>, Seq<Seq<char>>, Seq<BinaryOperator>)) -> bool {
    let a = ws_skip(s, p);
    &&& is_name(f.0)
    &&& crate::parser::word_at(s, a, a + f.0.len())
    &&& s.subrange(a, a + f.0.len()) == f.0
    &&& next_char(s, a + f.0.len()) == Some(':')
    &&& valid_chain(f.1, f.2)
    &&& chain_written(s, ws_skip(s, a + f.0.len()) + 1, f.1, f.2)
}

/// Where the value of the field `f` written at `p` ends.
pub open spec fn field_end(s: Seq<char>, p: int, f: (Seq<char>, Seq<Seq<char>>, Seq<BinaryOperator>)) -> int {
    chain_end(s, ws_skip(s, ws_skip(s, p) + f.0.len()) + 1, f.1, f.2)
}

/// From `p` on, the fields `fs` (one or more), separated by `,`, and `}`
/// after the last.
pub open spec fn fields_written(s: Seq<char>, p: int, fs: Seq<(Seq<char>, Seq<Seq<char>>, Seq<BinaryOperator>)>) -> bool
    decreases fs.len(),
{
    &&& fs.len() >= 1
    &&& field_written(s, p, fs[0])
    &&& if fs.len() == 1 {
        next_char(s, field_end(s, p, fs[0])) == Some('}')
    } else {
        &&& next_char(s, field_end(s, p, fs[0])) == Some(',')
        &&& fields_written(s, ws_skip(s, field_end(s, p, fs[0])) + 1, fs.drop_first())
    }
}

/// Where the `}` after the fields written from `p` ends.
pub open spec fn fields_end(s: Seq<char>, p: int, fs: Seq<(Seq<char>, Seq<Seq<char>>, Seq<BinaryOperator>)>) -> int
    decreases fs.len(),
{
    if fs.len() <= 1 {
        ws_skip(s, field_end(s, p, fs[0])) + 1
    } else {
        fields_end(s, ws_skip(s, field_end(s, p, fs[0])) + 1, fs.drop_first())
    }
}

/// The fields `vs` are those of `fs`, one for one: same names, and values
/// the chains.
pub open spec fn denotes_fields(vs: Seq<(String, Expression)>, fs: Seq<(Seq<char>, Seq<Seq<char>>, Seq<BinaryOperator>)>) -> bool {
    &&& vs.len() == fs.len()
    &&& forall|i: int| 0 <= i < fs.len() ==> (#[trigger] vs[i]).0@ == fs[i].0 && denotes_chain(vs[i].1, fs[i].1, fs[i].2)
}

/// A field starts with its name's first character, which closes nothing.
proof fn lemma_field_first_char(s: Seq<char>, p: int, f: (Seq<char>, Seq<Seq<char>>, Seq<BinaryOperator>))
    requires
        0 <= p <= s.len(),
        field_written(s, p, f),
    ensures
        next_char(s, p) == Some(s[ws_skip(s, p)]),
        crate::parser::is_ident_start(s[ws_skip(s, p)]),
        forall|b: int| #[trigger] crate::parser::word_at(s, ws_skip(s, p), b) ==> b == ws_skip(s, p) + f.0.len(),
{
    crate::parser::lemma_ws_skip_end(s, p);
    lemma_next_char_at(s, p, ws_skip(s, p));
    let a = ws_skip(s, p);
    assert forall|b: int| #[trigger] crate::parser::word_at(s, a, b) implies b == a + f.0.len() by {
        if b < a + f.0.len() {
            assert(crate::parser::is_ident_char(s[b]));
        } else if b > a + f.0.len() {
            assert(crate::parser::is_ident_char(s[a + f.0.len()]));
        }
    }
}

/// `name: e, name: e, ...}` after the opening brace of a struct literal
/// (at least one field, a trailing comma allowed).
pub fn parse_fields(cs: &Vec<char>, pos: usize, strict: bool) -> (r: Result<Parsed<Vec<(String, Expression)>>, ParseError>)
    requires
        pos <= cs@.len(),
    ensures
        r matches Ok(p) ==> pos < p.end <= cs@.len() && p.value@.len() >= 1,
        !strict ==> (r matches Err(e) ==> is_syntax_error(e)),
        forall|fs: Seq<(Seq<char>, Seq<Seq<char>>, Seq<BinaryOperator>)>| #[trigger] fields_written(cs@, pos as int, fs) ==> (r matches Ok(
            p,
        ) && p.end == fields_end(cs@, pos as int, fs) && denotes_fields(p.value@, fs)),
    decreases cs@.len() - pos, 3nat,
{
    let mut fields: Vec<(String, Expression)> = Vec::new();
    let mut cur = pos;
    proof {
        assert forall|fs: Seq<(Seq<char>, Seq<Seq<char>>, Seq<BinaryOperator>)>| #[trigger] fields_written(cs@, pos as int, fs) implies fs.skip(
            0,
        ) == fs by {
            assert(fs.skip(0) =~= fs);
        }
    }
    loop
        invariant
            pos <= cur <= cs@.len(),
            fields@.len() > 0 ==> pos < cur,
            forall|fs: Seq<(Seq<char>, Seq<Seq<char>>, Seq<BinaryOperator>)>| #[trigger] fields_written(cs@, pos as int, fs) ==> {
                &&& fields@.len() < fs.len()
                &&& fields_written(cs@, cur as int, fs.skip(fields@.len() as int))
                &&& fields_end(cs@, cur as int, fs.skip(fields@.len() as int)) == fields_end(cs@, pos as int, fs)
                &&& forall|i: int| 0 <= i < fields@.len() ==> (#[trigger] fields@[i]).0@ == fs[i].0 && denotes_chain(
                    fields@[i].1,
                    fs[i].1,
                    fs[i].2,
                )
            },
        decreases cs@.len() - cur,
    {
        let ghost k = fields@.len() as int;
        let ghost fields0 = fields@;
        proof {
            reveal_strlit("}");
            reveal_strlit(":");
            reveal_strlit(",");
            assert("}"@ =~= seq!['}']);
            assert(":"@ =~= seq![':']);
            assert(","@ =~= seq![',']);
            assert forall|fs: Seq<(Seq<char>, Seq<Seq<char>>, Seq<BinaryOperator>)>| #[trigger] fields_written(cs@, pos as int, fs)
                implies fs.skip(k)[0] == fs[k] && fs.skip(k).drop_first() == fs.skip(k + 1) && next_char(cs@, cur as int) != Some('}')
                && field_written(cs@, cur as int, fs[k]) by {
                assert(fs.skip(k)[0] == fs[k]);
                assert(fs.skip(k).drop_first() =~= fs.skip(k + 1));
                lemma_field_first_char(cs@, cur as int, fs[k]);
            }
        }
        if fields.len() > 0 {
            if let Some(e) = symbol(cs, cur, "}") {
                return Ok(Parsed { value: fields, end: e });
            }
        }
        let (name, q) = match identifier(cs, cur) {
            Some(x) => x,
            None => {
                proof {
                    assert forall|fs: Seq<(Seq<char>, Seq<Seq<char>>, Seq<BinaryOperator>)>| !#[trigger] fields_written(cs@, pos as int, fs) by {
                        if fields_written(cs@, pos as int, fs) {
                            let a = ws_skip(cs@, cur as int);
                            assert(crate::parser::word_at(cs@, a, a + fs[k].0.len()));
                        }
                    }
                }
                return Err(ParseError::UnexpectedInput(cur));
            },
        };
        proof {
            assert forall|fs: Seq<(Seq<char>, Seq<Seq<char>>, Seq<BinaryOperator>)>| #[trigger] fields_written(cs@, pos as int, fs) implies name@
                == fs[k].0 && q == ws_skip(cs@, cur as int) + fs[k].0.len() by {
                let a = ws_skip(cs@, cur as int);
                assert(crate::parser::word_at(cs@, a, a + fs[k].0.len()));
                lemma_field_first_char(cs@, cur as int, fs[k]);
            }
            lemma_char_next(cs@, q as int, ':');
        }
        let q2 = match symbol(cs, q, ":") {
            Some(x) => x,
            None => {
                return Err(ParseError::UnexpectedInput(q));
            },
        };
        let v = handle_expression(cs, q2, strict)?;
        fields.push((name, v.value));
        cur = v.end;
        proof {
            lemma_char_next(cs@, cur as int, ',');
            lemma_char_next(cs@, cur as int, '}');
        }
        match symbol(cs, cur, ",") {
            Some(c) => {
                cur = c;
                proof {
                    assert forall|fs: Seq<(Seq<char>, Seq<Seq<char>>, Seq<BinaryOperator>)>| #[trigger] fields_written(cs@, pos as int, fs) implies {
                        &&& fields@.len() < fs.len()
                        &&& fields_written(cs@, cur as int, fs.skip(fields@.len() as int))
                        &&& fields_end(cs@, cur as int, fs.skip(fields@.len() as int)) == fields_end(cs@, pos as int, fs)
                        &&& forall|i: int| 0 <= i < fields@.len() ==> (#[trigger] fields@[i]).0@ == fs[i].0 && denotes_chain(
                            fields@[i].1,
                            fs[i].1,
                            fs[i].2,
                        )
                    } by {
                        assert(fs.skip(k).len() >= 2);
                        assert forall|i: int| 0 <= i < fields@.len() implies (#[trigger] fields@[i]).0@ == fs[i].0 && denotes_chain(
                            fields@[i].1,
                            fs[i].1,
                            fs[i].2,
                        ) by {
                            if i < k {
                                assert(fields@[i] == fields0[i]);
                            }
                        }
                    }
                }
            },
            None => {
                return match symbol(cs, cur, "}") {
                    Some(e) => {
                        proof {
                            assert forall|fs: Seq<(Seq<char>, Seq<Seq<char>>, Seq<BinaryOperator>)>| #[trigger] fields_written(cs@, pos as int, fs) implies (
                            e == fields_end(cs@, pos as int, fs) && denotes_fields(fields@, fs)) by {
                                assert(fs.skip(k).len() == 1);
                                assert forall|i: int| 0 <= i < fs.len() implies (#[trigger] fields@[i]).0@ == fs[i].0 && denotes_chain(
                                    fields@[i].1,
                                    fs[i].1,
                                    fs[i].2,
                                ) by {
                                    if i < k {
                                        assert(fields@[i] == fields0[i]);
                                    }
                                }
                            }
                        }
                        Ok(Parsed { value: fields, end: e })
                    },
                    None => Err(ParseError::UnexpectedInput(cur)),
                };
            },
        }
    }
}

/// The binary operator written at `pos`: `<=`, `<`, `==`, `+` or `*`.
fn binary_operator(cs: &Vec<char>, pos: usize) -> (r: Option<(BinaryOperator, usize)>)
    requires
        pos <= cs@.len(),
    ensures
        r matches Some((_, e)) ==> pos < e <= cs@.len(),
        r is Some ==> (next_char(cs@, pos as int) matches Some(c) && (c == '<' || c == '=' || c == '+' || c == '*')),
        forall|op: BinaryOperator| reads_after_operand(op) && #[trigger] operator_written(cs@, pos as int, op) ==> (r matches Some(
            (o, e),
        ) && o == op && e == ws_skip(cs@, pos as int) + binary_symbol(op).len()),
{
    let a = skip_ws(cs, pos);
    proof {
        lemma_ws_skip(cs@, pos as int, a as int);
        lemma_next_char_at(cs@, pos as int, a as int);
        reveal_strlit("<=");
        reveal_strlit("<");
        reveal_strlit("==");
        reveal_strlit("+");
        reveal_strlit("*");
        assert("<="@ =~= seq!['<', '=']);
        assert("<"@ =~= seq!['<']);
        assert("=="@ =~= seq!['=', '=']);
        assert("+"@ =~= seq!['+']);
        assert("*"@ =~= seq!['*']);
        assert forall|op: BinaryOperator| reads_after_operand(op) && #[trigger] operator_written(cs@, pos as int, op) implies cs@[a as int]
            == binary_symbol(op)[0] by {
            assert(cs@.subrange(a as int, a + binary_symbol(op).len())[0] == cs@[a as int]);
        }
        if a + 2 <= cs@.len() {
            assert(cs@.subrange(a as int, a + 2)[1] == cs@[a + 1]);
        }
    }
    if let Some(e) = symbol(cs, pos, "<=") {
        return Some((BinaryOperator::LesserOrEqual, e));
    }
    if let Some(e) = symbol(cs, pos, "<") {
        return Some((BinaryOperator::Lesser, e));
    }
    if let Some(e) = symbol(cs, pos, "==") {
        return Some((BinaryOperator::Equal, e));
    }
    if let Some(e) = symbol(cs, pos, "+") {
        return Some((BinaryOperator::Addition, e));
    }
    if let Some(e) = symbol(cs, pos, "*") {
        return Some((BinaryOperator::Multiplication, e));
    }
    None
}

/// After whitespace, the text at `pos` starts with `lit`.
pub open spec fn written_at(s: Seq<char>, pos: int, lit: Seq<char>) -> bool {
    ws_skip(s, pos) + lit.len() <= s.len() && s.subrange(ws_skip(s, pos), ws_skip(s, pos) + lit.len()) == lit
}

/// The postfix unary operator written at `pos`: `?`, `++` or `--`.
fn unary_postfix(cs: &Vec<char>, pos: usize) -> (r: Option<(UnaryOperator, usize)>)
    requires
        pos <= cs@.len(),
    ensures
        r matches Some((_, e)) ==> pos < e <= cs@.len(),
        r is Some ==> (next_char(cs@, pos as int) matches Some(c) && (c == '?' || c == '+' || c == '-')),
        written_at(cs@, pos as int, seq!['?']) ==> (r matches Some((u, e)) && u == UnaryOperator::EarlyRet && e == ws_skip(
            cs@,
            pos as int,
        ) + 1),
        !written_at(cs@, pos as int, seq!['?']) && written_at(cs@, pos as int, seq!['+', '+']) ==> (r matches Some((u, e)) && u
            == UnaryOperator::Increase && e == ws_skip(cs@, pos as int) + 2),
        !written_at(cs@, pos as int, seq!['?']) && !written_at(cs@, pos as int, seq!['+', '+']) && written_at(
            cs@,
            pos as int,
            seq!['-', '-'],
        ) ==> (r matches Some((u, e)) && u == UnaryOperator::Decrease && e == ws_skip(cs@, pos as int) + 2),
        !written_at(cs@, pos as int, seq!['?']) && !written_at(cs@, pos as int, seq!['+', '+']) && !written_at(
            cs@,
            pos as int,
            seq!['-', '-'],
        ) ==> r is None,
{
    proof {
        crate::parser::lemma_ws_skip_end(cs@, pos as int);
        reveal_strlit("?");
        reveal_strlit("++");
        reveal_strlit("--");
        assert("?"@ =~= seq!['?']);
        assert("++"@ =~= seq!['+', '+']);
        assert("--"@ =~= seq!['-', '-']);
    }
    if let Some(e) = symbol(cs, pos, "?") {
        return Some((UnaryOperator::EarlyRet, e));
    }
    if let Some(e) = symbol(cs, pos, "++") {
        return Some((UnaryOperator::Increase, e));
    }
    if let Some(e) = symbol(cs, pos, "--") {
        return Some((UnaryOperator::Decrease, e));
    }
    None
}

/// After whitespace, the operator `op` is written at `pos`, and the chain
/// follows it.
pub open spec fn operator_chain_written(s: Seq<char>, pos: int, op: BinaryOperator, ws: Seq<Seq<char>>, ops: Seq<BinaryOperator>) -> bool {
    &&& reads_after_operand(op)
    &&& valid_chain(ws, ops)
    &&& operator_written(s, pos, op)
    &&& chain_written(s, operator_end(s, pos, op), ws, ops)
}

/// `b` is `a` with the operator `op` and an operand that is the chain
/// appended.
pub open spec fn operator_appended(a: Seq<ExpressionString>, b: Seq<ExpressionString>, op: BinaryOperator, ws: Seq<Seq<char>>, ops: Seq<BinaryOperator>) -> bool {
    &&& b.len() == a.len() + 2
    &&& b.take(a.len() as int) == a
    &&& b[a.len() as int] == ExpressionString::Oper(Operation::Binary(op))
    &&& b[(a.len() + 1) as int] matches ExpressionString::Val(v)
    &&& denotes_chain(v, ws, ops)
}

/// After whitespace, `(` is at `pos`, the chains follow as arguments, and
/// the expression closes after the `)`.
pub open spec fn call_written(s: Seq<char>, pos: int, chs: Seq<(Seq<Seq<char>>, Seq<BinaryOperator>)>) -> bool {
    &&& next_char(s, pos) == Some('(')
    &&& args_written(s, ws_skip(s, pos) + 1, chs)
    &&& closes_expression(s, args_end(s, ws_skip(s, pos) + 1, chs))
}

/// `b` is `a` with a call of arguments that are the chains appended.
pub open spec fn call_appended(a: Seq<ExpressionString>, b: Seq<ExpressionString>, chs: Seq<(Seq<Seq<char>>, Seq<BinaryOperator>)>) -> bool {
    &&& b.len() == a.len() + 1
    &&& b.take(a.len() as int) == a
    &&& b[a.len() as int] matches ExpressionString::Oper(Operation::Call(ps))
    &&& denotes_chains(ps@, chs)
}

/// After whitespace, the name `w` is at `pos`, called with the chains as
/// arguments, and the expression closes after the call.
pub open spec fn call_expr_written(s: Seq<char>, pos: int, w: Seq<char>, chs: Seq<(Seq<Seq<char>>, Seq<BinaryOperator>)>) -> bool {
    &&& is_name(w)
    &&& word_written(s, pos, w)
    &&& call_written(s, ws_skip(s, pos) + w.len(), chs)
}

/// Where a call written at `pos` as in `call_expr_written` ends.
pub open spec fn call_expr_end(s: Seq<char>, pos: int, w: Seq<char>, chs: Seq<(Seq<Seq<char>>, Seq<BinaryOperator>)>) -> int {
    args_end(s, ws_skip(s, ws_skip(s, pos) + w.len()) + 1, chs)
}

/// An operator written after an operand: a call with chains as
/// arguments, a member access `.m`, or a method call `.m(...)` with chains
/// as arguments.
pub enum PostfixText {
    Call(Seq<(Seq<Seq<char>>, Seq<BinaryOperator>)>),
    Access(Seq<char>),
    Method(Seq<char>, Seq<(Seq<Seq<char>>, Seq<BinaryOperator>)>),
}

/// Where the name `m` of `.m` written at `p` ends.
pub open spec fn member_end(s: Seq<char>, p: int, m: Seq<char>) -> int {
    ws_skip(s, ws_skip(s, p) + 1) + m.len()
}

/// After whitespace, the postfix `pf` at `p`.
pub open spec fn postfix_written(s: Seq<char>, p: int, pf: PostfixText) -> bool {
    match pf {
        PostfixText::Call(chs) => next_char(s, p) == Some('(') && args_written(s, ws_skip(s, p) + 1, chs),
        PostfixText::Access(m) => next_char(s, p) == Some('.') && name_at(s, ws_skip(s, p) + 1, m) && next_char(s, member_end(s, p, m))
            != Some('('),
        PostfixText::Method(m, chs) => next_char(s, p) == Some('.') && name_at(s, ws_skip(s, p) + 1, m) && next_char(
            s,
            member_end(s, p, m),
        ) == Some('(') && args_written(s, ws_skip(s, member_end(s, p, m)) + 1, chs),
    }
}

/// Where the postfix `pf` written at `p` ends.
pub open spec fn postfix_end(s: Seq<char>, p: int, pf: PostfixText) -> int {
    match pf {
        PostfixText::Call(chs) => args_end(s, ws_skip(s, p) + 1, chs),
        PostfixText::Access(m) => member_end(s, p, m),
        PostfixText::Method(m, chs) => args_end(s, ws_skip(s, member_end(s, p, m)) + 1, chs),
    }
}

/// From `p` on, the postfixes `pfs`, one after the other, and then the
/// expression closes.
pub open spec fn postfixes_written(s: Seq<char>, p: int, pfs: Seq<PostfixText>) -> bool
    decreases pfs.len(),
{
    if pfs.len() == 0 {
        closes_expression(s, p)
    } else {
        postfix_written(s, p, pfs[0]) && postfixes_written(s, postfix_end(s, p, pfs[0]), pfs.drop_first())
    }
}

/// Where the postfixes written from `p` end.
pub open spec fn postfixes_end(s: Seq<char>, p: int, pfs: Seq<PostfixText>) -> int
    decreases pfs.len(),
{
    if pfs.len() == 0 {
        p
    } else {
        postfixes_end(s, postfix_end(s, p, pfs[0]), pfs.drop_first())
    }
}

/// `o` is the operator that the postfix `pf` is.
pub open spec fn denotes_postfix(o: Operation, pf: PostfixText) -> bool {
    match pf {
        PostfixText::Call(chs) => o matches Operation::Call(ps) && denotes_chains(ps@, chs),
        PostfixText::Access(m) => o matches Operation::Access(seg) && seg.ident@ == m && seg.template_spec@.len() == 0,
        PostfixText::Method(m, chs) => o matches Operation::Method(seg, ps) && seg.ident@ == m && seg.template_spec@.len() == 0
            && denotes_chains(ps@, chs),
    }
}

/// `b` is `a` with the operators that the postfixes `pfs` are appended,
/// in order.
pub open spec fn postfixes_appended(a: Seq<ExpressionString>, b: Seq<ExpressionString>, pfs: Seq<PostfixText>) -> bool {
    &&& b.len() == a.len() + pfs.len()
    &&& b.take(a.len() as int) == a
    &&& forall|i: int| 0 <= i < pfs.len() ==> (#[trigger] b[a.len() + i] matches ExpressionString::Oper(o) && denotes_postfix(o, pfs[i]))
}

/// After whitespace, the name `w` at `pos`, then the postfixes `pfs`, and
/// then the expression closes.
pub open spec fn term_written(s: Seq<char>, pos: int, w: Seq<char>, pfs: Seq<PostfixText>) -> bool {
    &&& is_name(w)
    &&& word_written(s, pos, w)
    &&& postfixes_written(s, ws_skip(s, pos) + w.len(), pfs)
}

/// Where a term written at `pos` ends.
pub open spec fn term_end(s: Seq<char>, pos: int, w: Seq<char>, pfs: Seq<PostfixText>) -> int {
    postfixes_end(s, ws_skip(s, pos) + w.len(), pfs)
}

/// From `p` on, the postfixes `pfs`, then the operator `op`, then the term
/// of the name `w` with the postfixes `qfs`.
pub open spec fn postfixes_op_written(
    s: Seq<char>,
    p: int,
    pfs: Seq<PostfixText>,
    op: BinaryOperator,
    w: Seq<char>,
    qfs: Seq<PostfixText>,
) -> bool
    decreases pfs.len(),
{
    if pfs.len() == 0 {
        read_operator(op) && operator_written(s, p, op) && term_written(s, operator_end(s, p, op), w, qfs)
    } else {
        postfix_written(s, p, pfs[0]) && postfixes_op_written(s, postfix_end(s, p, pfs[0]), pfs.drop_first(), op, w, qfs)
    }
}

/// Where the text of `postfixes_op_written` from `p` ends.
pub open spec fn postfixes_op_end(
    s: Seq<char>,
    p: int,
    pfs: Seq<PostfixText>,
    op: BinaryOperator,
    w: Seq<char>,
    qfs: Seq<PostfixText>,
) -> int {
    term_end(s, operator_end(s, postfixes_end(s, p, pfs), op), w, qfs)
}

/// `b` is `a` with the operators of the postfixes `pfs`, the operator `op`
/// and the term of `w` with the postfixes `qfs` appended.
pub open spec fn postfixes_op_appended(
    a: Seq<ExpressionString>,
    b: Seq<ExpressionString>,
    pfs: Seq<PostfixText>,
    op: BinaryOperator,
    w: Seq<char>,
    qfs: Seq<PostfixText>,
) -> bool {
    let n = (a.len() + pfs.len()) as int;
    &&& b.len() == n + 2
    &&& postfixes_appended(a, b.take(n), pfs)
    &&& b[n] == ExpressionString::Oper(Operation::Binary(op))
    &&& b[n + 1] matches ExpressionString::Val(v) && denotes_term(v, w, qfs)
}

/// After whitespace, the name `w` at `pos` with the postfixes `pfs`, then
/// the operator `op` and the term of the name `w2` with the postfixes
/// `qfs`, and then the expression closes.
pub open spec fn term_op_written(
    s: Seq<char>,
    pos: int,
    w: Seq<char>,
    pfs: Seq<PostfixText>,
    op: BinaryOperator,
    w2: Seq<char>,
    qfs: Seq<PostfixText>,
) -> bool {
    &&& is_name(w)
    &&& word_written(s, pos, w)
    &&& postfixes_op_written(s, ws_skip(s, pos) + w.len(), pfs, op, w2, qfs)
}

/// Where two terms joined by an operator, written at `pos`, end.
pub open spec fn term_op_end(
    s: Seq<char>,
    pos: int,
    w: Seq<char>,
    pfs: Seq<PostfixText>,
    op: BinaryOperator,
    w2: Seq<char>,
    qfs: Seq<PostfixText>,
) -> int {
    postfixes_op_end(s, ws_skip(s, pos) + w.len(), pfs, op, w2, qfs)
}

/// `e` is the binary operation `op` of the term of `w` with the postfixes
/// `pfs` and the term of `w2` with the postfixes `qfs`.
pub open spec fn denotes_term_op(
    e: Expression,
    w: Seq<char>,
    pfs: Seq<PostfixText>,
    op: BinaryOperator,
    w2: Seq<char>,
    qfs: Seq<PostfixText>,
) -> bool {
    &&& e.ret_ty is None
    &&& !e.constant
    &&& *e.kind matches ExpressionKind::BinaryOperation(b)
    &&& b.operator == op
    &&& denotes_term(b.operands[0], w, pfs)
    &&& denotes_term(b.operands[1], w2, qfs)
}

/// After whitespace, `(` at `pos`, then the term of the name `w` with the
/// postfixes `pfs`, then `)`.
pub open spec fn paren_written(s: Seq<char>, pos: int, w: Seq<char>, pfs: Seq<PostfixText>) -> bool {
    &&& next_char(s, pos) == Some('(')
    &&& term_written(s, ws_skip(s, pos) + 1, w, pfs)
    &&& next_char(s, term_end(s, ws_skip(s, pos) + 1, w, pfs)) == Some(')')
}

/// Where a term in brackets written at `pos` ends: after the `)`.
pub open spec fn paren_end(s: Seq<char>, pos: int, w: Seq<char>, pfs: Seq<PostfixText>) -> int {
    ws_skip(s, term_end(s, ws_skip(s, pos) + 1, w, pfs)) + 1
}

/// A term in brackets (see `paren_written`), then the postfixes `qfs`, and
/// then the expression closes.
pub open spec fn paren_term_written(s: Seq<char>, pos: int, w: Seq<char>, pfs: Seq<PostfixText>, qfs: Seq<PostfixText>) -> bool {
    &&& paren_written(s, pos, w, pfs)
    &&& postfixes_written(s, paren_end(s, pos, w, pfs), qfs)
}

/// Where a term in brackets with postfixes after it ends.
pub open spec fn paren_term_end(s: Seq<char>, pos: int, w: Seq<char>, pfs: Seq<PostfixText>, qfs: Seq<PostfixText>) -> int {
    postfixes_end(s, paren_end(s, pos, w, pfs), qfs)
}

/// After whitespace, the name `w` at `pos`, then `<` or `<=`, then the
/// chain, and then the expression closes. A `<` followed by a name and a
/// `,` or `>` would open template arguments: such text is left out.
pub open spec fn compare_written(
    s: Seq<char>,
    pos: int,
    w: Seq<char>,
    op: BinaryOperator,
    ws: Seq<Seq<char>>,
    ops: Seq<BinaryOperator>,
) -> bool {
    &&& op == BinaryOperator::Lesser || op == BinaryOperator::LesserOrEqual
    &&& is_name(w)
    &&& lt_word_written(s, pos, w, ws[0])
    &&& operator_chain_written(s, ws_skip(s, pos) + w.len(), op, ws, ops)
}

/// Where a comparison written at `pos` ends.
pub open spec fn compare_end(
    s: Seq<char>,
    pos: int,
    w: Seq<char>,
    op: BinaryOperator,
    ws: Seq<Seq<char>>,
    ops: Seq<BinaryOperator>,
) -> int {
    chain_end(s, operator_end(s, ws_skip(s, pos) + w.len(), op), ws, ops)
}

/// `e` is the comparison `op` of the name `w` with the chain.
pub open spec fn denotes_compare(e: Expression, w: Seq<char>, op: BinaryOperator, ws: Seq<Seq<char>>, ops: Seq<BinaryOperator>) -> bool {
    &&& e.ret_ty is None
    &&& !e.constant
    &&& *e.kind matches ExpressionKind::BinaryOperation(b)
    &&& b.operator == op
    &&& denotes_word(b.operands[0], w)
    &&& denotes_chain(b.operands[1], ws, ops)
}

/// After postfixes written from `p`, the expression closes.
proof fn lemma_postfixes_close(s: Seq<char>, p: int, pfs: Seq<PostfixText>)
    requires
        postfixes_written(s, p, pfs),
    ensures
        closes_expression(s, postfixes_end(s, p, pfs)),
    decreases pfs.len(),
{
    if pfs.len() > 0 {
        lemma_postfixes_close(s, postfix_end(s, p, pfs[0]), pfs.drop_first());
    }
}

/// `e` is the name `w` with the postfixes `pfs` applied in turn, the last
/// outermost; no part of it has a type yet.
pub open spec fn denotes_term(e: Expression, w: Seq<char>, pfs: Seq<PostfixText>) -> bool
    decreases pfs.len(),
{
    if pfs.len() == 0 {
        denotes_word(e, w)
    } else {
        &&& e.ret_ty is None
        &&& match pfs.last() {
            PostfixText::Call(chs) => !e.constant && (*e.kind matches ExpressionKind::Call(c) && denotes_chains(c.parameters@, chs)
                && denotes_term(c.called, w, pfs.drop_last())),
            PostfixText::Access(m) => e.constant && (*e.kind matches ExpressionKind::MemberAccess(ma) && ma.member.ident@ == m
                && ma.member.template_spec@.len() == 0 && denotes_term(ma.object, w, pfs.drop_last())),
            PostfixText::Method(m, chs) => e.constant && (*e.kind matches ExpressionKind::MethodCall(mc) && mc.method.ident@ == m
                && mc.method.template_spec@.len() == 0 && denotes_chains(mc.params@, chs) && denotes_term(mc.object, w, pfs.drop_last())),
        }
    }
}

/// Applying the operators that the postfixes are to the word's operand
/// gives the term.
proof fn lemma_denotes_term(x: Expression, w: Seq<char>, ops: Seq<Operation>, pfs: Seq<PostfixText>)
    requires
        denotes_word(x, w),
        ops.len() == pfs.len(),
        forall|i: int| 0 <= i < pfs.len() ==> denotes_postfix(#[trigger] ops[i], pfs[i]),
    ensures
        denotes_term(apply_all(x, ops), w, pfs),
    decreases pfs.len(),
{
    if pfs.len() > 0 {
        assert forall|i: int| 0 <= i < pfs.len() - 1 implies denotes_postfix(#[trigger] ops.drop_last()[i], pfs.drop_last()[i]) by {
            assert(ops.drop_last()[i] == ops[i]);
            assert(pfs.drop_last()[i] == pfs[i]);
        }
        lemma_denotes_term(x, w, ops.drop_last(), pfs.drop_last());
        assert(denotes_postfix(ops[ops.len() - 1], pfs[pfs.len() - 1]));
    }
}

/// Applying the operators that more postfixes are to a term gives the term
/// with all the postfixes.
proof fn lemma_denotes_term_more(x: Expression, w: Seq<char>, pfs: Seq<PostfixText>, ops: Seq<Operation>, qfs: Seq<PostfixText>)
    requires
        denotes_term(x, w, pfs),
        ops.len() == qfs.len(),
        forall|i: int| 0 <= i < qfs.len() ==> denotes_postfix(#[trigger] ops[i], qfs[i]),
    ensures
        denotes_term(apply_all(x, ops), w, pfs + qfs),
    decreases qfs.len(),
{
    if qfs.len() == 0 {
        assert(pfs + qfs =~= pfs);
    } else {
        assert forall|i: int| 0 <= i < qfs.len() - 1 implies denotes_postfix(#[trigger] ops.drop_last()[i], qfs.drop_last()[i]) by {
            assert(ops.drop_last()[i] == ops[i]);
            assert(qfs.drop_last()[i] == qfs[i]);
        }
        lemma_denotes_term_more(x, w, pfs, ops.drop_last(), qfs.drop_last());
        assert((pfs + qfs).drop_last() =~= pfs + qfs.drop_last());
        assert((pfs + qfs).last() == qfs.last());
        assert(denotes_postfix(ops[ops.len() - 1], qfs[qfs.len() - 1]));
    }
}

/// An operator written at `pos` is the next character there, and it is not
/// whitespace.
proof fn lemma_operators_first_char(s: Seq<char>, pos: int)
    requires
        0 <= pos <= s.len(),
    ensures
        forall|op: BinaryOperator| reads_after_operand(op) && #[trigger] operator_written(s, pos, op) ==> next_char(s, pos) == Some(
            binary_symbol(op)[0],
        ),
        forall|op: BinaryOperator, ws: Seq<Seq<char>>, ops: Seq<BinaryOperator>| #[trigger] operator_chain_written(s, pos, op, ws, ops)
            ==> next_char(s, pos) == Some(binary_symbol(op)[0]) && !closes_expression(s, pos),
{
    crate::parser::lemma_ws_skip_end(s, pos);
    assert forall|op: BinaryOperator| reads_after_operand(op) && #[trigger] operator_written(s, pos, op) implies next_char(s, pos) == Some(
        binary_symbol(op)[0],
    ) by {
        let a = ws_skip(s, pos);
        assert(s.subrange(a, a + binary_symbol(op).len())[0] == s[a]);
        lemma_next_char_at(s, pos, a);
    }
}

/// One step into a sequence of postfixes: the rest after `j` starts with
/// the `j`-th, and taking one more adds it.
proof fn lemma_skip_step(pfs: Seq<PostfixText>, j: int)
    requires
        0 <= j < pfs.len(),
    ensures
        pfs.skip(j)[0] == pfs[j],
        pfs.skip(j).drop_first() == pfs.skip(j + 1),
        pfs.take(j + 1).drop_last() == pfs.take(j),
{
    assert(pfs.skip(j).drop_first() =~= pfs.skip(j + 1));
    assert(pfs.take(j + 1).drop_last() =~= pfs.take(j));
}

/// Appending the operator that the `j`-th postfix is keeps the postfixes
/// appended, one more of them.
proof fn lemma_appended_step(a0: Seq<ExpressionString>, before: Seq<ExpressionString>, after: Seq<ExpressionString>, pfs: Seq<PostfixText>, j: int)
    requires
        0 <= j < pfs.len(),
        postfixes_appended(a0, before, pfs.take(j)),
        after.len() == before.len() + 1,
        forall|k: int| 0 <= k < before.len() ==> after[k] == before[k],
        after.last() matches ExpressionString::Oper(o) && denotes_postfix(o, pfs[j]),
    ensures
        postfixes_appended(a0, after, pfs.take(j + 1)),
{
    assert(after.take(a0.len() as int) =~= a0) by {
        assert forall|k: int| 0 <= k < a0.len() implies after.take(a0.len() as int)[k] == a0[k] by {
            assert(before.take(a0.len() as int)[k] == a0[k]);
        }
    }
    assert forall|i: int| 0 <= i < j + 1 implies (#[trigger] after[a0.len() + i] matches ExpressionString::Oper(o)
        && denotes_postfix(o, pfs.take(j + 1)[i])) by {
        if i < j {
            assert(after[a0.len() + i] == before[a0.len() + i]);
            assert(pfs.take(j + 1)[i] == pfs.take(j)[i]);
        }
    }
}

/// The expression after an operator inside a chain of postfixes (an
/// index, the value of an assignment, the right operand of a binary
/// operator): `handle_expression`, seen through what those need of it.
fn operand_after(cs: &Vec<char>, pos: usize, strict: bool) -> (r: Result<Parsed<Expression>, ParseError>)
    requires
        pos <= cs@.len(),
    ensures
        r matches Ok(p) ==> pos < p.end <= cs@.len(),
        forall|ws: Seq<Seq<char>>, ops: Seq<BinaryOperator>| valid_chain(ws, ops) && #[trigger] chain_written(cs@, pos as int, ws, ops)
            ==> (r matches Ok(p) && p.end == chain_end(cs@, pos as int, ws, ops) && denotes_chain(p.value, ws, ops)),
        forall|w: Seq<char>, pfs: Seq<PostfixText>| #[trigger] term_written(cs@, pos as int, w, pfs) ==> (r matches Ok(p) && p.end
            == term_end(cs@, pos as int, w, pfs) && denotes_term(p.value, w, pfs)),
        !strict ==> (r matches Err(e) ==> is_syntax_error(e)),
    decreases cs@.len() - pos, 3nat,
{
    handle_expression(cs, pos, strict)
}

/// After whitespace, `=` at `p` and then the chain, after which the
/// expression closes.
pub open spec fn assign_written(s: Seq<char>, p: int, ws: Seq<Seq<char>>, ops: Seq<BinaryOperator>) -> bool {
    &&& valid_chain(ws, ops)
    &&& next_char(s, p) == Some('=')
    &&& chain_written(s, ws_skip(s, p) + 1, ws, ops)
}

/// Where an `=` and the chain after it, written at `p`, end.
pub open spec fn assign_end(s: Seq<char>, p: int, ws: Seq<Seq<char>>, ops: Seq<BinaryOperator>) -> int {
    chain_end(s, ws_skip(s, p) + 1, ws, ops)
}

/// `b` is `a` with the assignment of the chain appended.
pub open spec fn assign_appended(a: Seq<ExpressionString>, b: Seq<ExpressionString>, ws: Seq<Seq<char>>, ops: Seq<BinaryOperator>) -> bool {
    &&& b.len() == a.len() + 1
    &&& b.take(a.len() as int) == a
    &&& b.last() matches ExpressionString::Oper(Operation::Assign(x))
    &&& denotes_chain(x, ws, ops)
}

/// After whitespace, `[` at `p`, then the chain, then `]`, after which the
/// expression closes.
pub open spec fn index_written(s: Seq<char>, p: int, ws: Seq<Seq<char>>, ops: Seq<BinaryOperator>) -> bool {
    &&& valid_chain(ws, ops)
    &&& next_char(s, p) == Some('[')
    &&& chain_written(s, ws_skip(s, p) + 1, ws, ops)
    &&& next_char(s, chain_end(s, ws_skip(s, p) + 1, ws, ops)) == Some(']')
    &&& closes_expression(s, ws_skip(s, chain_end(s, ws_skip(s, p) + 1, ws, ops)) + 1)
}

/// Where an index written at `p` ends: after the `]`.
pub open spec fn index_end(s: Seq<char>, p: int, ws: Seq<Seq<char>>, ops: Seq<BinaryOperator>) -> int {
    ws_skip(s, chain_end(s, ws_skip(s, p) + 1, ws, ops)) + 1
}

/// `b` is `a` with the index of the chain appended.
pub open spec fn index_appended(a: Seq<ExpressionString>, b: Seq<ExpressionString>, ws: Seq<Seq<char>>, ops: Seq<BinaryOperator>) -> bool {
    &&& b.len() == a.len() + 1
    &&& b.take(a.len() as int) == a
    &&& b.last() matches ExpressionString::Oper(Operation::Index(x))
    &&& denotes_chain(x, ws, ops)
}

/// `e` is the assignment to the operand written as `w` of the chain.
pub open spec fn denotes_assign(e: Expression, w: Seq<char>, ws: Seq<Seq<char>>, ops: Seq<BinaryOperator>) -> bool {
    &&& e.ret_ty is None
    &&& !e.constant
    &&& *e.kind matches ExpressionKind::Assignment(var, value)
    &&& denotes_word(var, w)
    &&& denotes_chain(value, ws, ops)
}

/// `e` is the operand written as `w` indexed by the chain.
pub open spec fn denotes_index(e: Expression, w: Seq<char>, ws: Seq<Seq<char>>, ops: Seq<BinaryOperator>) -> bool {
    &&& e.ret_ty is None
    &&& !e.constant
    &&& *e.kind matches ExpressionKind::Index(value, index)
    &&& denotes_word(value, w)
    &&& denotes_chain(index, ws, ops)
}

/// After whitespace, `(` at `p`, then one string argument (see
/// `string_arg_written`), after which the expression closes.
pub open spec fn str_call_written(s: Seq<char>, p: int, body: Seq<char>) -> bool {
    &&& next_char(s, p) == Some('(')
    &&& string_arg_written(s, ws_skip(s, p) + 1, body)
    &&& closes_expression(s, string_arg_end(s, ws_skip(s, p) + 1))
}

/// Where a call with one string argument, written at `p`, ends.
pub open spec fn str_call_end(s: Seq<char>, p: int) -> int {
    string_arg_end(s, ws_skip(s, p) + 1)
}

/// `b` is `a` with the call on the one string of `body` appended.
pub open spec fn str_call_appended(a: Seq<ExpressionString>, b: Seq<ExpressionString>, body: Seq<char>) -> bool {
    &&& b.len() == a.len() + 1
    &&& b.take(a.len() as int) == a
    &&& b.last() matches ExpressionString::Oper(Operation::Call(ps))
    &&& ps@.len() == 1
    &&& denotes_string(ps@[0], body)
}

/// `e` is the call of the operand written as `w` on the one string of
/// `body`.
pub open spec fn denotes_str_call(e: Expression, w: Seq<char>, body: Seq<char>) -> bool {
    &&& e.ret_ty is None
    &&& !e.constant
    &&& *e.kind matches ExpressionKind::Call(c)
    &&& denotes_word(c.called, w)
    &&& c.parameters@.len() == 1
    &&& denotes_string(c.parameters@[0], body)
}

/// An `=` followed by a chain is no `==`.
proof fn lemma_assign_not_equal(s: Seq<char>, p: int, ws: Seq<Seq<char>>, ops: Seq<BinaryOperator>)
    requires
        0 <= p <= s.len(),
        assign_written(s, p, ws, ops),
    ensures
        !(ws_skip(s, p) + 2 <= s.len() && s.subrange(ws_skip(s, p), ws_skip(s, p) + 2) == seq!['=', '=']),
        ws_skip(s, p) + 1 <= s.len() && s.subrange(ws_skip(s, p), ws_skip(s, p) + 1) == seq!['='],
{
    crate::parser::lemma_ws_skip_end(s, p);
    let a = ws_skip(s, p);
    lemma_next_char_at(s, p, a);
    assert(s[a] == '=');
    assert(s.subrange(a, a + 1) =~= seq!['=']);
    lemma_chain_first_char(s, a + 1, ws, ops);
    crate::parser::chains::lemma_operand_word_chars(ws[0]);
    if a + 2 <= s.len() && s.subrange(a, a + 2) == seq!['=', '='] {
        assert(s.subrange(a, a + 2)[1] == s[a + 1]);
        assert(s[a + 1] == '=');
        assert(next_char(s, a + 1) == Some('='));
    }
}

/// An operand followed by an assignment or an index builds into that
/// operator applied to the operand.
proof fn lemma_build_applied(a: Expression, o: Operation)
    requires
        o is Assign || o is Index,
    ensures
        spec_build(seq![ExpressionString::Val(a), ExpressionString::Oper(o)]) == Some(apply_one(o, a)),
{
    reveal_with_fuel(crate::parser::precedence::shunt_state, 3);
    reveal_with_fuel(crate::parser::precedence::flush, 3);
    reveal_with_fuel(crate::parser::precedence::run, 3);
    reveal_with_fuel(crate::parser::precedence::drain, 2);
    let s = seq![ExpressionString::Val(a), ExpressionString::Oper(o)];
    let s1 = seq![ExpressionString::Val(a)];
    assert(s.drop_last() =~= s1);
    assert(s1.drop_last() =~= Seq::<ExpressionString>::empty());
    assert(crate::parser::precedence::shunt_state(s1) == (seq![ExpressionString::Val(a)], Seq::<Operation>::empty()));
    assert(crate::parser::precedence::shunt_state(s) == (seq![ExpressionString::Val(a)], seq![o]));
    let post = seq![ExpressionString::Val(a), ExpressionString::Oper(o)];
    assert(seq![o].drop_last() =~= Seq::<Operation>::empty());
    assert(seq![ExpressionString::Val(a)].push(ExpressionString::Oper(o)) =~= post);
    assert(crate::parser::precedence::to_postfix(s) == post);
    assert(post.drop_last() =~= s1);
    assert(crate::parser::precedence::run(s1, Seq::empty()) == Some(seq![a]));
    assert(seq![a].drop_last() =~= Seq::<Expression>::empty());
    assert(crate::parser::precedence::run(post, Seq::empty()) == Some(Seq::<Expression>::empty().push(apply_one(o, a))));
}

/// Where the operators after an operand stop: where the expression
/// closes, or before the `{` of a block that follows it (the body of an
/// `if`, `while` or `loop`).
pub open spec fn ends_operand(s: Seq<char>, pos: int) -> bool {
    closes_expression(s, pos) || next_char(s, pos) == Some('{')
}

/// The operators that follow an operand, appended to `items` in the order
/// written; the position after the last one. A binary operator, and `=`,
/// take a whole expression after them.
#[verifier::rlimit(100)]
#[verifier::spinoff_prover]
pub fn parse_postfixes(cs: &Vec<char>, pos: usize, strict: bool, items: &mut Vec<ExpressionString>) -> (r: Result<usize, ParseError>)
    requires
        pos <= cs@.len(),
        well_formed(old(items)@),
    ensures
        r matches Ok(e) ==> pos <= e <= cs@.len(),
        well_formed(final(items)@),
        !strict ==> (r matches Err(e) ==> is_syntax_error(e)),
        ends_operand(cs@, pos as int) ==> r == Ok::<usize, ParseError>(pos) && final(items)@ == old(items)@,
        forall|op: BinaryOperator, ws: Seq<Seq<char>>, ops: Seq<BinaryOperator>| #[trigger] operator_chain_written(cs@, pos as int, op, ws, ops)
            ==> (r matches Ok(e) && e == chain_end(cs@, operator_end(cs@, pos as int, op), ws, ops)
                && operator_appended(old(items)@, final(items)@, op, ws, ops)),
        forall|chs: Seq<(Seq<Seq<char>>, Seq<BinaryOperator>)>| #[trigger] call_written(cs@, pos as int, chs) ==> (r matches Ok(e)
            && e == args_end(cs@, ws_skip(cs@, pos as int) + 1, chs) && call_appended(old(items)@, final(items)@, chs)),
        forall|pfs: Seq<PostfixText>| #[trigger] postfixes_written(cs@, pos as int, pfs) ==> (r matches Ok(e) && e == postfixes_end(
            cs@,
            pos as int,
            pfs,
        ) && postfixes_appended(old(items)@, final(items)@, pfs)),
        forall|pfs: Seq<PostfixText>, op: BinaryOperator, w: Seq<char>, qfs: Seq<PostfixText>| #[trigger] postfixes_op_written(cs@, pos as int, pfs, op, w, qfs) ==> (r matches Ok(e) && e == postfixes_op_end(cs@, pos as int, pfs, op, w, qfs)
            && postfixes_op_appended(old(items)@, final(items)@, pfs, op, w, qfs)),
        forall|ws: Seq<Seq<char>>, ops: Seq<BinaryOperator>| #[trigger] assign_written(cs@, pos as int, ws, ops) ==> (r matches Ok(e)
            && e == assign_end(cs@, pos as int, ws, ops) && assign_appended(old(items)@, final(items)@, ws, ops)),
        forall|ws: Seq<Seq<char>>, ops: Seq<BinaryOperator>| #[trigger] index_written(cs@, pos as int, ws, ops) ==> (r matches Ok(e)
            && e == index_end(cs@, pos as int, ws, ops) && index_appended(old(items)@, final(items)@, ws, ops)),
        forall|body: Seq<char>| #[trigger] str_call_written(cs@, pos as int, body) ==> (r matches Ok(e) && e == str_call_end(
            cs@,
            pos as int,
        ) && str_call_appended(old(items)@, final(items)@, body)),
    decreases cs@.len() - pos, 0nat,
{
    proof {
        lemma_operators_first_char(cs@, pos as int);
        assert forall|pfs: Seq<PostfixText>| #[trigger] postfixes_written(cs@, pos as int, pfs) implies pfs.skip(0) == pfs && postfixes_appended(
            old(items)@,
            old(items)@,
            pfs.take(0),
        ) by {
            assert(pfs.skip(0) =~= pfs);
            assert(old(items)@.take(old(items)@.len() as int) =~= old(items)@);
        }
        assert forall|pfs: Seq<PostfixText>, op: BinaryOperator, w: Seq<char>, qfs: Seq<PostfixText>| #[trigger] postfixes_op_written(cs@, pos as int, pfs, op, w, qfs) implies pfs.skip(0) == pfs && postfixes_appended(old(items)@, old(items)@, pfs.take(0)) by {
            assert(pfs.skip(0) =~= pfs);
            assert(old(items)@.take(old(items)@.len() as int) =~= old(items)@);
        }
    }
    let mut cur = pos;
    loop
        invariant
            pos <= cur <= cs@.len(),
            well_formed(items@),
            ends_operand(cs@, pos as int) ==> cur == pos && items@ == old(items)@,
            forall|body: Seq<char>| #[trigger] str_call_written(cs@, pos as int, body) ==> (cur == pos && items@ == old(items)@) || (
            cur == str_call_end(cs@, pos as int) && closes_expression(cs@, cur as int) && str_call_appended(old(items)@, items@, body)),
            forall|ws: Seq<Seq<char>>, ops: Seq<BinaryOperator>| #[trigger] assign_written(cs@, pos as int, ws, ops) ==> (cur == pos
                && items@ == old(items)@) || (cur == assign_end(cs@, pos as int, ws, ops) && closes_expression(cs@, cur as int)
                && assign_appended(old(items)@, items@, ws, ops)),
            forall|ws: Seq<Seq<char>>, ops: Seq<BinaryOperator>| #[trigger] index_written(cs@, pos as int, ws, ops) ==> (cur == pos
                && items@ == old(items)@) || (cur == index_end(cs@, pos as int, ws, ops) && closes_expression(cs@, cur as int)
                && index_appended(old(items)@, items@, ws, ops)),
            forall|op: BinaryOperator, ws: Seq<Seq<char>>, ops: Seq<BinaryOperator>| #[trigger] operator_chain_written(cs@, pos as int, op, ws, ops)
                ==> (cur == pos && items@ == old(items)@ && next_char(cs@, pos as int) == Some(binary_symbol(op)[0])) || (
                cur == chain_end(cs@, operator_end(cs@, pos as int, op), ws, ops) && closes_expression(cs@, cur as int)
                    && operator_appended(old(items)@, items@, op, ws, ops)),
            forall|chs: Seq<(Seq<Seq<char>>, Seq<BinaryOperator>)>| #[trigger] call_written(cs@, pos as int, chs) ==> (cur == pos
                && items@ == old(items)@) || (cur == args_end(cs@, ws_skip(cs@, pos as int) + 1, chs) && closes_expression(
                cs@,
                cur as int,
            ) && call_appended(old(items)@, items@, chs)),
            items@.len() >= old(items)@.len(),
            forall|pfs: Seq<PostfixText>| #[trigger] postfixes_written(cs@, pos as int, pfs) ==> ({
                let j = items@.len() - old(items)@.len();
                &&& j <= pfs.len()
                &&& postfixes_written(cs@, cur as int, pfs.skip(j))
                &&& postfixes_end(cs@, cur as int, pfs.skip(j)) == postfixes_end(cs@, pos as int, pfs)
                &&& postfixes_appended(old(items)@, items@, pfs.take(j))
            }),
            forall|pfs: Seq<PostfixText>, op: BinaryOperator, w: Seq<char>, qfs: Seq<PostfixText>| #[trigger] postfixes_op_written(cs@, pos as int, pfs, op, w, qfs) ==> (({
                let j = items@.len() - old(items)@.len();
                &&& j <= pfs.len()
                &&& postfixes_op_written(cs@, cur as int, pfs.skip(j), op, w, qfs)
                &&& postfixes_end(cs@, cur as int, pfs.skip(j)) == postfixes_end(cs@, pos as int, pfs)
                &&& postfixes_appended(old(items)@, items@, pfs.take(j))
            }) || (cur == postfixes_op_end(cs@, pos as int, pfs, op, w, qfs) && closes_expression(cs@, cur as int)
                && postfixes_op_appended(old(items)@, items@, pfs, op, w, qfs))),
        decreases cs@.len() - cur,
    {
        let ghost j = items@.len() - old(items)@.len();
        let ghost items_j = items@;
        let ghost cur_j = cur;
        proof {
            assert forall|ws: Seq<Seq<char>>, ops: Seq<BinaryOperator>| #[trigger] assign_written(cs@, pos as int, ws, ops) && cur == pos
                implies ws_skip(cs@, cur as int) + 1 <= cs@.len() && cs@.subrange(ws_skip(cs@, cur as int), ws_skip(cs@, cur as int) + 1)
                == seq!['='] && !(ws_skip(cs@, cur as int) + 2 <= cs@.len() && cs@.subrange(
                ws_skip(cs@, cur as int),
                ws_skip(cs@, cur as int) + 2,
            ) == seq!['=', '=']) by {
                lemma_assign_not_equal(cs@, pos as int, ws, ops);
            }
            assert forall|ws: Seq<Seq<char>>, ops: Seq<BinaryOperator>| #[trigger] index_written(cs@, pos as int, ws, ops) && cur == pos
                implies ws_skip(cs@, cur as int) + 1 <= cs@.len() && cs@.subrange(ws_skip(cs@, cur as int), ws_skip(cs@, cur as int) + 1)
                == seq!['['] by {
                lemma_char_next(cs@, pos as int, '[');
            }
        }
        proof {
            lemma_next_char_skip(cs@, cur as int);
            assert forall|pfs: Seq<PostfixText>| #[trigger] postfixes_written(cs@, pos as int, pfs) && j < pfs.len() implies pfs.skip(j)[0]
                == pfs[j] && pfs.skip(j).drop_first() =~= pfs.skip(j + 1) && postfix_written(cs@, cur as int, pfs[j])
                && postfixes_written(cs@, postfix_end(cs@, cur as int, pfs[j]), pfs.skip(j + 1)) && postfixes_end(
                cs@,
                postfix_end(cs@, cur as int, pfs[j]),
                pfs.skip(j + 1),
            ) == postfixes_end(cs@, pos as int, pfs) && pfs.take(j + 1).drop_last() =~= pfs.take(j) by {
                lemma_skip_step(pfs, j);
            }
            lemma_operators_first_char(cs@, cur as int);
            assert forall|pfs: Seq<PostfixText>, op: BinaryOperator, w: Seq<char>, qfs: Seq<PostfixText>| #[trigger] postfixes_op_written(cs@, pos as int, pfs, op, w, qfs) && j < pfs.len() && postfixes_op_written(cs@, cur as int, pfs.skip(j), op, w, qfs)
                && postfixes_end(cs@, cur as int, pfs.skip(j)) == postfixes_end(cs@, pos as int, pfs) implies pfs.skip(j)[0] == pfs[j]
                && postfix_written(cs@, cur as int, pfs[j]) && postfixes_op_written(
                cs@,
                postfix_end(cs@, cur as int, pfs[j]),
                pfs.skip(j + 1),
                op,
                w,
                qfs,
            ) && postfixes_end(cs@, postfix_end(cs@, cur as int, pfs[j]), pfs.skip(j + 1)) == postfixes_end(cs@, pos as int, pfs)
                && pfs.take(j + 1).drop_last() =~= pfs.take(j) by {
                lemma_skip_step(pfs, j);
            }
            assert forall|pfs: Seq<PostfixText>, op: BinaryOperator, w: Seq<char>, qfs: Seq<PostfixText>| #[trigger] postfixes_op_written(cs@, pos as int, pfs, op, w, qfs) && j == pfs.len() && postfixes_op_written(cs@, cur as int, pfs.skip(j), op, w, qfs)
                && postfixes_end(cs@, cur as int, pfs.skip(j)) == postfixes_end(cs@, pos as int, pfs) implies read_operator(op)
                && operator_written(cs@, cur as int, op) && term_written(cs@, operator_end(cs@, cur as int, op), w, qfs) && cur
                == postfixes_end(cs@, pos as int, pfs) && next_char(cs@, cur as int) == Some(binary_symbol(op)[0]) && pfs.take(j) =~= pfs by {
                assert(pfs.skip(j).len() == 0);
            }
        }
        proof {
            reveal_strlit("(");
            reveal_strlit(".");
            reveal_strlit("[");
            reveal_strlit("=");
            reveal_strlit("==");
            assert("("@ =~= seq!['(']);
            assert("."@ =~= seq!['.']);
            assert("["@ =~= seq!['[']);
            assert("="@ =~= seq!['=']);
            assert("=="@ =~= seq!['=', '=']);
            lemma_char_next(cs@, cur as int, '(');
        }
        // call
        if let Some(q) = symbol(cs, cur, "(") {
            let ghost items_c = items@;
            let ghost cur_c = cur;
            proof {
                assert forall|chs: Seq<(Seq<Seq<char>>, Seq<BinaryOperator>)>| #[trigger] call_written(cs@, pos as int, chs) implies cur_c
                    == pos && items_c == old(items)@ && q == ws_skip(cs@, pos as int) + 1 && args_written(cs@, q as int, chs) by {
                    if !(cur == pos && items@ == old(items)@) {
                        assert(closes_expression(cs@, cur as int));
                        assert(false);
                    }
                }
                assert forall|body: Seq<char>| #[trigger] str_call_written(cs@, pos as int, body) implies cur_c == pos && items_c == old(
                    items,
                )@ && q == ws_skip(cs@, pos as int) + 1 by {
                    if !(cur == pos && items@ == old(items)@) {
                        assert(closes_expression(cs@, cur as int));
                    }
                }
            }
            match parse_args(cs, q, strict) {
                Ok(a) => {
                    proof { lemma_push_postfix(items@, Operation::Call(a.value)); }
                    items.push(ExpressionString::Oper(Operation::Call(a.value)));
                    cur = a.end;
                    proof {
                        assert forall|body: Seq<char>| #[trigger] str_call_written(cs@, pos as int, body) implies cur == str_call_end(
                            cs@,
                            pos as int,
                        ) && closes_expression(cs@, cur as int) && str_call_appended(old(items)@, items@, body) by {
                            assert(items@.take(items_c.len() as int) =~= items_c);
                        }
                        assert forall|chs: Seq<(Seq<Seq<char>>, Seq<BinaryOperator>)>| #[trigger] call_written(cs@, pos as int, chs) implies (cur
                            == args_end(cs@, ws_skip(cs@, pos as int) + 1, chs) && closes_expression(cs@, cur as int) && call_appended(
                            old(items)@,
                            items@,
                            chs,
                        )) by {
                            assert(items@.take(items_c.len() as int) =~= items_c);
                        }
                        assert forall|pfs: Seq<PostfixText>| #[trigger] postfixes_written(cs@, pos as int, pfs) implies ({
                                let j1 = items@.len() - old(items)@.len();
                                &&& j1 <= pfs.len()
                                &&& postfixes_written(cs@, cur as int, pfs.skip(j1))
                                &&& postfixes_end(cs@, cur as int, pfs.skip(j1)) == postfixes_end(cs@, pos as int, pfs)
                                &&& postfixes_appended(old(items)@, items@, pfs.take(j1))
                            }) by {
                            if j == pfs.len() {
                                assert(pfs.skip(j).len() == 0);
                                assert(closes_expression(cs@, cur_j as int));
                            } else {
                                match pfs[j] {
                                    PostfixText::Call(chs) => {
                                        assert(args_written(cs@, q as int, chs));
                                    },
                                    _ => {},
                                }
                                lemma_appended_step(old(items)@, items_j, items@, pfs, j);
                            }
                        }
                        assert forall|pfs: Seq<PostfixText>, op: BinaryOperator, w: Seq<char>, qfs: Seq<PostfixText>| #[trigger] postfixes_op_written(cs@, pos as int, pfs, op, w, qfs) implies (({
                                let j1 = items@.len() - old(items)@.len();
                                &&& j1 <= pfs.len()
                                &&& postfixes_op_written(cs@, cur as int, pfs.skip(j1), op, w, qfs)
                                &&& postfixes_end(cs@, cur as int, pfs.skip(j1)) == postfixes_end(cs@, pos as int, pfs)
                                &&& postfixes_appended(old(items)@, items@, pfs.take(j1))
                            }) || (cur == postfixes_op_end(cs@, pos as int, pfs, op, w, qfs) && closes_expression(cs@, cur as int)
                                && postfixes_op_appended(old(items)@, items@, pfs, op, w, qfs))) by {
                            if j == pfs.len() {
                                assert(pfs.skip(j).len() == 0);
                            }
                            if j < pfs.len() {
                                match pfs[j] {
                                    PostfixText::Call(chs) => {
                                        assert(args_written(cs@, q as int, chs));
                                    },
                                    _ => {},
                                }
                                lemma_appended_step(old(items)@, items_j, items@, pfs, j);
                            }
                        }
                    }
                    continue;
                },
                Err(e) => {
                    proof {
                        assert forall|chs: Seq<(Seq<Seq<char>>, Seq<BinaryOperator>)>| #[trigger] call_written(cs@, pos as int, chs) implies false by {
                            assert(args_written(cs@, q as int, chs));
                        }
                        assert forall|pfs: Seq<PostfixText>, op: BinaryOperator, w: Seq<char>, qfs: Seq<PostfixText>| !#[trigger] postfixes_op_written(cs@, pos as int, pfs, op, w, qfs) by {
                            if postfixes_op_written(cs@, pos as int, pfs, op, w, qfs) {
                                if j == pfs.len() {
                                    assert(pfs.skip(j).len() == 0);
                                } else if j < pfs.len() {
                                    match pfs[j] {
                                        PostfixText::Call(chs) => {
                                            assert(args_written(cs@, q as int, chs));
                                        },
                                        _ => {},
                                    }
                                }
                            }
                        }

                        assert forall|pfs: Seq<PostfixText>| !#[trigger] postfixes_written(cs@, pos as int, pfs) by {
                            if postfixes_written(cs@, pos as int, pfs) {
                                if j == pfs.len() {
                                    assert(pfs.skip(j).len() == 0);
                                } else {
                                    match pfs[j] {
                                        PostfixText::Call(chs) => {
                                            assert(args_written(cs@, q as int, chs));
                                        },
                                        _ => {},
                                    }
                                }
                            }
                        }
                    }
                    if !syntax_error(&e) {
                        return Err(e);
                    }
                },
            }
        }
        // member access, or method call
        if let Some(q) = symbol(cs, cur, ".") {
            if let Some((m, q2)) = identifier(cs, q) {
                proof {
                    lemma_next_char_skip(cs@, q2 as int);
                    assert forall|pfs: Seq<PostfixText>| #[trigger] postfixes_written(cs@, pos as int, pfs) && j < pfs.len() && !(
                    pfs[j] is Call) implies (match pfs[j] {
                        PostfixText::Access(mm) => m@ == mm && q2 == member_end(cs@, cur as int, mm),
                        PostfixText::Method(mm, _) => m@ == mm && q2 == member_end(cs@, cur as int, mm),
                        _ => true,
                    }) by {
                        match pfs[j] {
                            PostfixText::Access(mm) => {
                                assert(crate::parser::word_at(cs@, ws_skip(cs@, q as int), ws_skip(cs@, q as int) + mm.len()));
                            },
                            PostfixText::Method(mm, _) => {
                                assert(crate::parser::word_at(cs@, ws_skip(cs@, q as int), ws_skip(cs@, q as int) + mm.len()));
                            },
                            _ => {},
                        }
                    }
                }
                let seg = QualifiedNameSegment { ident: m, template_spec: Vec::new() };
                if let Some(q3) = symbol(cs, q2, "(") {
                    match parse_args(cs, q3, strict) {
                        Ok(a) => {
                            proof { lemma_push_postfix(items@, Operation::Method(seg, a.value)); }
                            items.push(ExpressionString::Oper(Operation::Method(seg, a.value)));
                            cur = a.end;
                            proof {
                                assert forall|pfs: Seq<PostfixText>| #[trigger] postfixes_written(cs@, pos as int, pfs) implies ({
                                let j1 = items@.len() - old(items)@.len();
                                &&& j1 <= pfs.len()
                                &&& postfixes_written(cs@, cur as int, pfs.skip(j1))
                                &&& postfixes_end(cs@, cur as int, pfs.skip(j1)) == postfixes_end(cs@, pos as int, pfs)
                                &&& postfixes_appended(old(items)@, items@, pfs.take(j1))
                            }) by {
                                    if j == pfs.len() {
                                        assert(pfs.skip(j).len() == 0);
                                        assert(closes_expression(cs@, cur_j as int));
                                    } else {
                                        match pfs[j] {
                                            PostfixText::Method(mm, chs) => {
                                                assert(args_written(cs@, q3 as int, chs));
                                            },
                                            _ => {},
                                        }
                                lemma_appended_step(old(items)@, items_j, items@, pfs, j);
                                    }
                                }
                                assert forall|pfs: Seq<PostfixText>, op: BinaryOperator, w: Seq<char>, qfs: Seq<PostfixText>| #[trigger] postfixes_op_written(cs@, pos as int, pfs, op, w, qfs) implies (({
                                        let j1 = items@.len() - old(items)@.len();
                                        &&& j1 <= pfs.len()
                                        &&& postfixes_op_written(cs@, cur as int, pfs.skip(j1), op, w, qfs)
                                        &&& postfixes_end(cs@, cur as int, pfs.skip(j1)) == postfixes_end(cs@, pos as int, pfs)
                                        &&& postfixes_appended(old(items)@, items@, pfs.take(j1))
                                    }) || (cur == postfixes_op_end(cs@, pos as int, pfs, op, w, qfs) && closes_expression(cs@, cur as int)
                                        && postfixes_op_appended(old(items)@, items@, pfs, op, w, qfs))) by {
                                    if j == pfs.len() {
                                        assert(pfs.skip(j).len() == 0);
                                    }
                                    if j < pfs.len() {
                                        match pfs[j] {
                                            PostfixText::Access(mm) => {
                                                assert(crate::parser::word_at(cs@, ws_skip(cs@, q as int), ws_skip(cs@, q as int) + mm.len()));
                                            },
                                            PostfixText::Method(mm, chs) => {
                                                assert(crate::parser::word_at(cs@, ws_skip(cs@, q as int), ws_skip(cs@, q as int) + mm.len()));
                                            },
                                            _ => {},
                                        }
                                        match pfs[j] {
                                            PostfixText::Method(mm, chs) => {
                                                assert(args_written(cs@, q3 as int, chs));
                                            },
                                            _ => {},
                                        }
                                        lemma_appended_step(old(items)@, items_j, items@, pfs, j);
                                    }
                                }
                            }
                            continue;
                        },
                        Err(e) => {
                            proof {
                                assert forall|pfs: Seq<PostfixText>| !#[trigger] postfixes_written(cs@, pos as int, pfs) by {
                                    if postfixes_written(cs@, pos as int, pfs) {
                                        if j == pfs.len() {
                                            assert(pfs.skip(j).len() == 0);
                                        } else {
                                            match pfs[j] {
                                                PostfixText::Method(mm, chs) => {
                                                    assert(args_written(cs@, q3 as int, chs));
                                                },
                                                _ => {},
                                            }
                                        }
                                    }
                                }
                                assert forall|pfs: Seq<PostfixText>, op: BinaryOperator, w: Seq<char>, qfs: Seq<PostfixText>| !#[trigger] postfixes_op_written(cs@, pos as int, pfs, op, w, qfs) by {
                                    if postfixes_op_written(cs@, pos as int, pfs, op, w, qfs) {
                                        if j == pfs.len() {
                                            assert(pfs.skip(j).len() == 0);
                                        } else if j < pfs.len() {
                                            match pfs[j] {
                                                PostfixText::Access(mm) => {
                                                    assert(crate::parser::word_at(cs@, ws_skip(cs@, q as int), ws_skip(cs@, q as int) + mm.len()));
                                                },
                                                PostfixText::Method(mm, chs) => {
                                                    assert(crate::parser::word_at(cs@, ws_skip(cs@, q as int), ws_skip(cs@, q as int) + mm.len()));
                                                },
                                                _ => {},
                                            }
                                            match pfs[j] {
                                                PostfixText::Method(mm, chs) => {
                                                    assert(args_written(cs@, q3 as int, chs));
                                                },
                                                _ => {},
                                            }
                                        }
                                    }
                                }
                            }
                            if !syntax_error(&e) {
                                return Err(e);
                            }
                        },
                    }
                }
                proof { lemma_push_postfix(items@, Operation::Access(seg)); }
                items.push(ExpressionString::Oper(Operation::Access(seg)));
                cur = q2;
                proof {
                    assert forall|pfs: Seq<PostfixText>| #[trigger] postfixes_written(cs@, pos as int, pfs) implies ({
                                let j1 = items@.len() - old(items)@.len();
                                &&& j1 <= pfs.len()
                                &&& postfixes_written(cs@, cur as int, pfs.skip(j1))
                                &&& postfixes_end(cs@, cur as int, pfs.skip(j1)) == postfixes_end(cs@, pos as int, pfs)
                                &&& postfixes_appended(old(items)@, items@, pfs.take(j1))
                            }) by {
                        if j == pfs.len() {
                            assert(pfs.skip(j).len() == 0);
                            assert(closes_expression(cs@, cur_j as int));
                        } else {
                                lemma_appended_step(old(items)@, items_j, items@, pfs, j);
                        }
                    }
                    assert forall|pfs: Seq<PostfixText>, op: BinaryOperator, w: Seq<char>, qfs: Seq<PostfixText>| #[trigger] postfixes_op_written(cs@, pos as int, pfs, op, w, qfs) implies (({
                            let j1 = items@.len() - old(items)@.len();
                            &&& j1 <= pfs.len()
                            &&& postfixes_op_written(cs@, cur as int, pfs.skip(j1), op, w, qfs)
                            &&& postfixes_end(cs@, cur as int, pfs.skip(j1)) == postfixes_end(cs@, pos as int, pfs)
                            &&& postfixes_appended(old(items)@, items@, pfs.take(j1))
                        }) || (cur == postfixes_op_end(cs@, pos as int, pfs, op, w, qfs) && closes_expression(cs@, cur as int)
                            && postfixes_op_appended(old(items)@, items@, pfs, op, w, qfs))) by {
                        if j == pfs.len() {
                            assert(pfs.skip(j).len() == 0);
                        }
                        if j < pfs.len() {
                            match pfs[j] {
                                PostfixText::Access(mm) => {
                                    assert(crate::parser::word_at(cs@, ws_skip(cs@, q as int), ws_skip(cs@, q as int) + mm.len()));
                                },
                                PostfixText::Method(mm, chs) => {
                                    assert(crate::parser::word_at(cs@, ws_skip(cs@, q as int), ws_skip(cs@, q as int) + mm.len()));
                                },
                                _ => {},
                            }
                            lemma_appended_step(old(items)@, items_j, items@, pfs, j);
                        }
                    }
                }
                continue;
            }
        }
        proof {
            assert forall|pfs: Seq<PostfixText>| #[trigger] postfixes_written(cs@, pos as int, pfs) implies j == pfs.len() && closes_expression(
                cs@,
                cur as int,
            ) && pfs.take(j) =~= pfs by {
                if j < pfs.len() {
                    match pfs[j] {
                        PostfixText::Call(chs) => {
                            assert(args_written(cs@, ws_skip(cs@, cur as int) + 1, chs));
                        },
                        PostfixText::Access(mm) => {
                            assert(crate::parser::word_at(cs@, ws_skip(cs@, ws_skip(cs@, cur as int) + 1), ws_skip(cs@, ws_skip(cs@, cur as int) + 1) + mm.len()));
                        },
                        PostfixText::Method(mm, chs) => {
                            assert(crate::parser::word_at(cs@, ws_skip(cs@, ws_skip(cs@, cur as int) + 1), ws_skip(cs@, ws_skip(cs@, cur as int) + 1) + mm.len()));
                        },
                    }
                } else {
                    assert(pfs.skip(j).len() == 0);
                }
            }
        }
        proof {
            assert forall|pfs: Seq<PostfixText>, op: BinaryOperator, w: Seq<char>, qfs: Seq<PostfixText>| #[trigger] postfixes_op_written(cs@, pos as int, pfs, op, w, qfs) implies (j == pfs.len() && read_operator(op) && operator_written(cs@, cur as int, op)
                && term_written(cs@, operator_end(cs@, cur as int, op), w, qfs) && cur == postfixes_end(cs@, pos as int, pfs)
                && postfixes_appended(old(items)@, items@, pfs) && next_char(cs@, cur as int) == Some(binary_symbol(op)[0])) || (cur
                == postfixes_op_end(cs@, pos as int, pfs, op, w, qfs) && closes_expression(cs@, cur as int) && postfixes_op_appended(
                old(items)@,
                items@,
                pfs,
                op,
                w,
                qfs,
            )) by {
                if j < pfs.len() && postfixes_op_written(cs@, cur as int, pfs.skip(j), op, w, qfs) && postfixes_end(cs@, cur as int, pfs.skip(j))
                    == postfixes_end(cs@, pos as int, pfs) {
                    match pfs[j] {
                        PostfixText::Call(chs) => {
                            assert(args_written(cs@, ws_skip(cs@, cur as int) + 1, chs));
                        },
                        PostfixText::Access(mm) => {
                            assert(crate::parser::word_at(cs@, ws_skip(cs@, ws_skip(cs@, cur as int) + 1), ws_skip(cs@, ws_skip(cs@, cur as int) + 1) + mm.len()));
                        },
                        PostfixText::Method(mm, chs) => {
                            assert(crate::parser::word_at(cs@, ws_skip(cs@, ws_skip(cs@, cur as int) + 1), ws_skip(cs@, ws_skip(cs@, cur as int) + 1) + mm.len()));
                        },
                    }
                }
            }
        }
        // index
        if let Some(q) = symbol(cs, cur, "[") {
            proof {
                assert forall|pfs: Seq<PostfixText>| !#[trigger] postfixes_written(cs@, pos as int, pfs) by {
                    if postfixes_written(cs@, pos as int, pfs) {
                        assert(closes_expression(cs@, cur as int));
                    }
                }
                assert forall|pfs: Seq<PostfixText>, op: BinaryOperator, w: Seq<char>, qfs: Seq<PostfixText>| !#[trigger] postfixes_op_written(cs@, pos as int, pfs, op, w, qfs) by {
                    if postfixes_op_written(cs@, pos as int, pfs, op, w, qfs) {
                        assert(closes_expression(cs@, cur as int) || next_char(cs@, cur as int) == Some(binary_symbol(op)[0]));
                    }
                }
            }
            let ghost items_i = items@;
            proof {
                reveal_strlit("]");
                assert("]"@ =~= seq![']']);
                assert forall|ws: Seq<Seq<char>>, ops: Seq<BinaryOperator>| #[trigger] index_written(cs@, pos as int, ws, ops) implies cur
                    == pos && items@ == old(items)@ && q == ws_skip(cs@, pos as int) + 1 by {
                    if !(cur == pos && items@ == old(items)@) {
                        assert(closes_expression(cs@, cur as int));
                    }
                }
            }
            match operand_after(cs, q, strict) {
                Ok(x) => {
                    proof {
                        assert forall|ws: Seq<Seq<char>>, ops: Seq<BinaryOperator>| #[trigger] index_written(cs@, pos as int, ws, ops) implies x.end
                            == chain_end(cs@, q as int, ws, ops) && denotes_chain(x.value, ws, ops) by {
                        }
                        lemma_char_next(cs@, x.end as int, ']');
                    }
                    if let Some(q2) = symbol(cs, x.end, "]") {
                        proof { lemma_push_postfix(items@, Operation::Index(x.value)); }
                        items.push(ExpressionString::Oper(Operation::Index(x.value)));
                        cur = q2;
                        proof {
                            assert forall|ws: Seq<Seq<char>>, ops: Seq<BinaryOperator>| #[trigger] index_written(cs@, pos as int, ws, ops) implies cur
                                == index_end(cs@, pos as int, ws, ops) && closes_expression(cs@, cur as int) && index_appended(
                                old(items)@,
                                items@,
                                ws,
                                ops,
                            ) by {
                                assert(items@.take(items_i.len() as int) =~= items_i);
                            }
                        }
                        continue;
                    }
                },
                Err(e) => {
                    if !syntax_error(&e) {
                        return Err(e);
                    }
                },
            }
        }
        // assignment
        if let Some(q) = symbol(cs, cur, "=") {
            proof {
                assert forall|pfs: Seq<PostfixText>| !#[trigger] postfixes_written(cs@, pos as int, pfs) by {
                    if postfixes_written(cs@, pos as int, pfs) {
                        assert(closes_expression(cs@, cur as int));
                    }
                }
            }
            let ghost items_a = items@;
            let eq2 = symbol(cs, cur, "==");
            proof {
                reveal_strlit("==");
                assert("=="@ =~= seq!['=', '=']);
                assert forall|ws: Seq<Seq<char>>, ops: Seq<BinaryOperator>| #[trigger] assign_written(cs@, pos as int, ws, ops) implies cur
                    == pos && items@ == old(items)@ && q == ws_skip(cs@, pos as int) + 1 && eq2 is None by {
                    if !(cur == pos && items@ == old(items)@) {
                        assert(closes_expression(cs@, cur as int));
                    }
                    crate::parser::lemma_ws_skip_end(cs@, cur as int);
                    crate::parser::lemma_ws_end_unique(cs@, cur as int, ws_skip(cs@, cur as int));
                }
            }
            if eq2.is_none() {
                proof {
                    assert forall|pfs: Seq<PostfixText>, op: BinaryOperator, w: Seq<char>, qfs: Seq<PostfixText>| !#[trigger] postfixes_op_written(cs@, pos as int, pfs, op, w, qfs) by {
                        if postfixes_op_written(cs@, pos as int, pfs, op, w, qfs) {
                            assert(closes_expression(cs@, cur as int) || next_char(cs@, cur as int) == Some(binary_symbol(op)[0]));
                        }
                    }
                }
                match operand_after(cs, q, strict) {
                    Ok(x) => {
                        proof { lemma_push_postfix(items@, Operation::Assign(x.value)); }
                        items.push(ExpressionString::Oper(Operation::Assign(x.value)));
                        cur = x.end;
                        proof {
                            assert forall|ws: Seq<Seq<char>>, ops: Seq<BinaryOperator>| #[trigger] assign_written(cs@, pos as int, ws, ops) implies cur
                                == assign_end(cs@, pos as int, ws, ops) && closes_expression(cs@, cur as int) && assign_appended(
                                old(items)@,
                                items@,
                                ws,
                                ops,
                            ) by {
                                assert(items@.take(items_a.len() as int) =~= items_a);
                            }
                        }
                        continue;
                    },
                    Err(e) => {
                        if !syntax_error(&e) {
                            return Err(e);
                        }
                    },
                }
            }
        }
        // binary operator
        if let Some((b, q)) = binary_operator(cs, cur) {
            proof {
                assert forall|pfs: Seq<PostfixText>| !#[trigger] postfixes_written(cs@, pos as int, pfs) by {
                    if postfixes_written(cs@, pos as int, pfs) {
                        assert(closes_expression(cs@, cur as int));
                    }
                }
            }
            let ghost items_b = items@;
            let ghost cur_b = cur;
            proof {
                assert forall|op: BinaryOperator, ws: Seq<Seq<char>>, ops: Seq<BinaryOperator>| #[trigger] operator_chain_written(
                    cs@,
                    pos as int,
                    op,
                    ws,
                    ops,
                ) implies cur_b == pos && items_b == old(items)@ && b == op && q as int == operator_end(cs@, pos as int, op)
                    && chain_written(cs@, q as int, ws, ops) && valid_chain(ws, ops) by {
                    if !(cur == pos && items@ == old(items)@) {
                        assert(closes_expression(cs@, cur as int));
                        assert(false);
                    }
                    assert(operator_written(cs@, cur as int, op));
                    crate::parser::lemma_ws_skip_end(cs@, pos as int);
                    let x = ws_skip(cs@, pos as int) + binary_symbol(op).len();
                    assert(0 <= x <= cs@.len());
                    assert(b == op);
                    assert(q as int == x);
                }
            }
            match operand_after(cs, q, strict) {
                Ok(x) => {
                    proof { lemma_push_binary(items@, b, x.value); }
                    items.push(ExpressionString::Oper(Operation::Binary(b)));
                    items.push(ExpressionString::Val(x.value));
                    cur = x.end;
                    proof {
                        assert forall|op: BinaryOperator, ws: Seq<Seq<char>>, ops: Seq<BinaryOperator>| #[trigger] operator_chain_written(
                            cs@,
                            pos as int,
                            op,
                            ws,
                            ops,
                        ) implies cur == chain_end(cs@, operator_end(cs@, pos as int, op), ws, ops) && closes_expression(cs@, cur as int)
                            && operator_appended(old(items)@, items@, op, ws, ops) by {
                            assert(chain_written(cs@, q as int, ws, ops));
                            assert(items@.take(items_b.len() as int) =~= items_b);
                        }
                        assert forall|pfs: Seq<PostfixText>, op: BinaryOperator, w: Seq<char>, qfs: Seq<PostfixText>| #[trigger] postfixes_op_written(cs@, pos as int, pfs, op, w, qfs) implies (cur == postfixes_op_end(cs@, pos as int, pfs, op, w, qfs) && closes_expression(
                            cs@,
                            cur as int,
                        ) && postfixes_op_appended(old(items)@, items@, pfs, op, w, qfs)) by {
                            assert(b == op);
                            assert(term_written(cs@, q as int, w, qfs));
                            lemma_postfixes_close(cs@, ws_skip(cs@, q as int) + w.len(), qfs);
                            let n = (old(items)@.len() + pfs.len()) as int;
                            assert(items@.take(n) =~= items_b);
                        }
                    }
                    continue;
                },
                Err(e) => {
                    proof {
                        assert forall|op: BinaryOperator, ws: Seq<Seq<char>>, ops: Seq<BinaryOperator>| #[trigger] operator_chain_written(
                            cs@,
                            pos as int,
                            op,
                            ws,
                            ops,
                        ) implies false by {
                            assert(chain_written(cs@, q as int, ws, ops));
                        }
                        assert forall|pfs: Seq<PostfixText>, op: BinaryOperator, w: Seq<char>, qfs: Seq<PostfixText>| !#[trigger] postfixes_op_written(cs@, pos as int, pfs, op, w, qfs) by {
                            if postfixes_op_written(cs@, pos as int, pfs, op, w, qfs) {
                                assert(term_written(cs@, q as int, w, qfs));
                            }
                        }
                    }
                    if !syntax_error(&e) {
                        return Err(e);
                    }
                },
            }
        }
        // postfix unary operator
        if let Some((u, q)) = unary_postfix(cs, cur) {
            proof {
                assert forall|pfs: Seq<PostfixText>| !#[trigger] postfixes_written(cs@, pos as int, pfs) by {
                    if postfixes_written(cs@, pos as int, pfs) {
                        assert(closes_expression(cs@, cur as int));
                    }
                }
                assert forall|pfs: Seq<PostfixText>, op: BinaryOperator, w: Seq<char>, qfs: Seq<PostfixText>| !#[trigger] postfixes_op_written(cs@, pos as int, pfs, op, w, qfs) by {
                    if postfixes_op_written(cs@, pos as int, pfs, op, w, qfs) {
                        assert(closes_expression(cs@, cur as int) || next_char(cs@, cur as int) == Some(binary_symbol(op)[0]));
                    }
                }
            }
            proof { lemma_push_postfix(items@, Operation::Unary(u)); }
            items.push(ExpressionString::Oper(Operation::Unary(u)));
            cur = q;
            continue;
        }
        return Ok(cur);
    }
}

/// What an operand is and whether the operators after it still apply to
/// it (they do not after a prefix operator, whose operand takes them, nor
/// after a struct literal, which drops them).
pub struct Prefix {
    pub value: Expression,
    pub takes_postfix: bool,
}

/// What a written operand word tells of the text at `pos`: its first
/// character, its characters, and that no keyword starts there.
/// A name written before a `<` that opens no template starts with its
/// first character, which starts an identifier, and is none of the
/// keywords that start other operands.
proof fn lemma_lt_operand_written(s: Seq<char>, pos: int)
    requires
        0 <= pos <= s.len(),
    ensures
        forall|w: Seq<char>, w2: Seq<char>| is_name(w) && #[trigger] lt_word_written(s, pos, w, w2) ==> {
            &&& ws_skip(s, pos) < s.len()
            &&& s[ws_skip(s, pos)] == w[0]
            &&& is_ident_start(w[0])
            &&& !('0' <= w[0] <= '9')
            &&& !starts_with_word(s, pos, seq!['l', 'o', 'o', 'p'])
            &&& !starts_with_word(s, pos, seq!['i', 'f'])
            &&& !starts_with_word(s, pos, seq!['w', 'h', 'i', 'l', 'e'])
        },
{
    assert forall|w: Seq<char>, w2: Seq<char>| is_name(w) && #[trigger] lt_word_written(s, pos, w, w2) implies {
        &&& ws_skip(s, pos) < s.len()
        &&& s[ws_skip(s, pos)] == w[0]
        &&& is_ident_start(w[0])
        &&& !('0' <= w[0] <= '9')
        &&& !starts_with_word(s, pos, seq!['l', 'o', 'o', 'p'])
        &&& !starts_with_word(s, pos, seq!['i', 'f'])
        &&& !starts_with_word(s, pos, seq!['w', 'h', 'i', 'l', 'e'])
    } by {
        crate::parser::lemma_ws_skip_end(s, pos);
        let a = ws_skip(s, pos);
        assert(s.subrange(a, a + w.len())[0] == s[a]);
        assert(forall|i: int| 0 <= i < w.len() ==> #[trigger] is_ident_char(w[i])) by {
            assert forall|i: int| 0 <= i < w.len() implies #[trigger] is_ident_char(w[i]) by {
                if i > 0 {
                } else {
                }
            }
        }
        if starts_with_word(s, pos, seq!['l', 'o', 'o', 'p']) {
            lemma_written_word_is_keyword(s, pos, w, seq!['l', 'o', 'o', 'p']);
        }
        if starts_with_word(s, pos, seq!['i', 'f']) {
            lemma_written_word_is_keyword(s, pos, w, seq!['i', 'f']);
        }
        if starts_with_word(s, pos, seq!['w', 'h', 'i', 'l', 'e']) {
            lemma_written_word_is_keyword(s, pos, w, seq!['w', 'h', 'i', 'l', 'e']);
        }
    }
}

proof fn lemma_word_operand_written(s: Seq<char>, pos: int)
    requires
        0 <= pos <= s.len(),
    ensures
        forall|w: Seq<char>| operand_word(w) && #[trigger] word_written(s, pos, w) ==> {
            &&& ws_skip(s, pos) < s.len()
            &&& s[ws_skip(s, pos)] == w[0]
            &&& forall|i: int| 0 <= i < w.len() ==> s[ws_skip(s, pos) + i] == #[trigger] w[i]
            &&& (is_digits(w) <==> '0' <= w[0] <= '9')
            &&& !is_digits(w) ==> is_name(w) && is_ident_start(w[0])
            &&& !starts_with_word(s, pos, seq!['l', 'o', 'o', 'p'])
            &&& !starts_with_word(s, pos, seq!['i', 'f'])
            &&& !starts_with_word(s, pos, seq!['w', 'h', 'i', 'l', 'e'])
        },
{
    assert forall|w: Seq<char>| operand_word(w) && #[trigger] word_written(s, pos, w) implies {
        &&& ws_skip(s, pos) < s.len()
        &&& s[ws_skip(s, pos)] == w[0]
        &&& forall|i: int| 0 <= i < w.len() ==> s[ws_skip(s, pos) + i] == #[trigger] w[i]
        &&& (is_digits(w) <==> '0' <= w[0] <= '9')
        &&& !is_digits(w) ==> is_name(w) && is_ident_start(w[0])
        &&& !starts_with_word(s, pos, seq!['l', 'o', 'o', 'p'])
        &&& !starts_with_word(s, pos, seq!['i', 'f'])
        &&& !starts_with_word(s, pos, seq!['w', 'h', 'i', 'l', 'e'])
    } by {
        crate::parser::lemma_ws_skip_end(s, pos);
        let a = ws_skip(s, pos);
        assert forall|i: int| 0 <= i < w.len() implies s[a + i] == #[trigger] w[i] by {
            assert(s.subrange(a, a + w.len())[i] == s[a + i]);
        }
        assert(forall|i: int| 0 <= i < w.len() ==> #[trigger] is_ident_char(w[i])) by {
            assert forall|i: int| 0 <= i < w.len() implies #[trigger] is_ident_char(w[i]) by {
                if is_name(w) && i > 0 {
                } else if is_name(w) {
                } else {
                    assert('0' <= w[i] <= '9');
                }
            }
        }
        if is_name(w) {
            assert(!('0' <= w[0] <= '9'));
            assert(!is_digits(w));
        }
        if starts_with_word(s, pos, seq!['l', 'o', 'o', 'p']) {
            lemma_written_word_is_keyword(s, pos, w, seq!['l', 'o', 'o', 'p']);
            if is_digits(w) {
                assert('0' <= w[0] <= '9');
            }
        }
        if starts_with_word(s, pos, seq!['i', 'f']) {
            lemma_written_word_is_keyword(s, pos, w, seq!['i', 'f']);
            if is_digits(w) {
                assert('0' <= w[0] <= '9');
            }
        }
        if starts_with_word(s, pos, seq!['w', 'h', 'i', 'l', 'e']) {
            lemma_written_word_is_keyword(s, pos, w, seq!['w', 'h', 'i', 'l', 'e']);
            if is_digits(w) {
                assert('0' <= w[0] <= '9');
            }
        }
    }
}

/// What the operand at `pos` is, told apart by its first character or
/// its keyword.
pub open spec fn prefix_shape(s: Seq<char>, pos: int, x: Prefix) -> bool {
    let c = next_char(s, pos);
    &&& c == Some('(') ==> x.takes_postfix
    &&& (c matches Some(d) && '0' <= d <= '9') ==> x.takes_postfix && (*x.value.kind matches ExpressionKind::Literal(l)
        && l.info == (LiteralInfo::Integer { signed: None, precision: None }) && l.data@.len() > 0
        && forall|i: int| 0 <= i < l.data@.len() ==> '0' <= #[trigger] l.data@[i] <= '9')
    &&& c == Some('"') ==> x.takes_postfix && (*x.value.kind matches ExpressionKind::Literal(l) && l.info == LiteralInfo::String)
    &&& c == Some('@') ==> x.takes_postfix && *x.value.kind is Intrinsic
    &&& c == Some('{') ==> x.takes_postfix && *x.value.kind is Block
    &&& starts_with_word(s, pos, seq!['l', 'o', 'o', 'p']) ==> x.takes_postfix && *x.value.kind is Loop
    &&& starts_with_word(s, pos, seq!['i', 'f']) ==> x.takes_postfix && *x.value.kind is If
    &&& starts_with_word(s, pos, seq!['w', 'h', 'i', 'l', 'e']) ==> x.takes_postfix && *x.value.kind is While
    &&& c == Some('&') ==> !x.takes_postfix && (*x.value.kind matches ExpressionKind::UnaryOperation(u) && u.operator
        == UnaryOperator::Ref)
    &&& c == Some('*') ==> !x.takes_postfix && (*x.value.kind matches ExpressionKind::UnaryOperation(u) && u.operator
        == UnaryOperator::Deref)
    &&& c == Some('-') ==> !x.takes_postfix && (*x.value.kind matches ExpressionKind::UnaryOperation(u) && u.operator
        == UnaryOperator::Negation)
    &&& ((c matches Some(d) && is_ident_start(d)) && !starts_with_word(s, pos, seq!['l', 'o', 'o', 'p'])
        && !starts_with_word(s, pos, seq!['i', 'f']) && !starts_with_word(s, pos, seq!['w', 'h', 'i', 'l', 'e']))
        ==> ((x.takes_postfix && *x.value.kind is Identifier) || (!x.takes_postfix && *x.value.kind is StructInit))
}

/// The intrinsic that the name `n` reads as, when it reads as one.
pub open spec fn intrinsic_named(n: Seq<char>) -> Option<IntrinsicKind> {
    if !from_str_panics(n) && spec_from_str(n) is Ok {
        Some(spec_from_str(n)->Ok_0)
    } else {
        None
    }
}

/// After whitespace, `@` at `pos`, then the name `n`, then `(` and the
/// chains as arguments.
pub open spec fn intrinsic_written(s: Seq<char>, pos: int, n: Seq<char>, chs: Seq<(Seq<Seq<char>>, Seq<BinaryOperator>)>) -> bool {
    let q = ws_skip(s, ws_skip(s, pos) + 1);
    &&& next_char(s, pos) == Some('@')
    &&& word_at(s, q, q + n.len())
    &&& s.subrange(q, q + n.len()) == n
    &&& !is_keyword(n)
    &&& next_char(s, q + n.len()) == Some('(')
    &&& args_written(s, ws_skip(s, q + n.len()) + 1, chs)
}

/// Where an intrinsic written at `pos` as in `intrinsic_written` ends.
pub open spec fn intrinsic_end(s: Seq<char>, pos: int, n: Seq<char>, chs: Seq<(Seq<Seq<char>>, Seq<BinaryOperator>)>) -> int {
    let q = ws_skip(s, ws_skip(s, pos) + 1);
    args_end(s, ws_skip(s, q + n.len()) + 1, chs)
}

/// `e` is the intrinsic of kind `k` with arguments that are the chains.
pub open spec fn denotes_intrinsic(e: Expression, k: IntrinsicKind, chs: Seq<(Seq<Seq<char>>, Seq<BinaryOperator>)>) -> bool {
    &&& e.ret_ty is None
    &&& !e.constant
    &&& *e.kind matches ExpressionKind::Intrinsic(i)
    &&& i.kind == k
    &&& denotes_chains(i.parameters@, chs)
}

/// `e` is the string literal whose body (between its quotes) is `body`,
/// with its escapes read.
pub open spec fn denotes_string(e: Expression, body: Seq<char>) -> bool {
    &&& e.ret_ty is None
    &&& !e.constant
    &&& *e.kind matches ExpressionKind::Literal(l)
    &&& l.info == LiteralInfo::String
    &&& l.data@ == spec_unescape(body)
}

/// After whitespace, `(` at `pos`, then the chain, then `)`.
pub open spec fn paren_chain_written(s: Seq<char>, pos: int, ws: Seq<Seq<char>>, ops: Seq<BinaryOperator>) -> bool {
    &&& valid_chain(ws, ops)
    &&& next_char(s, pos) == Some('(')
    &&& chain_written(s, ws_skip(s, pos) + 1, ws, ops)
    &&& next_char(s, chain_end(s, ws_skip(s, pos) + 1, ws, ops)) == Some(')')
}

/// Where a chain in brackets written at `pos` ends: after the `)`.
pub open spec fn paren_chain_end(s: Seq<char>, pos: int, ws: Seq<Seq<char>>, ops: Seq<BinaryOperator>) -> int {
    ws_skip(s, chain_end(s, ws_skip(s, pos) + 1, ws, ops)) + 1
}

/// Where the block written at `p` ends: after its `}`.
pub open spec fn block_end(s: Seq<char>, p: int, sts: Seq<StmtText>) -> int {
    statements_end(s, ws_skip(s, p) + 1, sts)
}

/// `e` is the block of the statements `sts`, one for one.
pub open spec fn denotes_block(e: Expression, sts: Seq<StmtText>) -> bool {
    &&& e.ret_ty is None
    &&& !e.constant
    &&& *e.kind matches ExpressionKind::Block(b)
    &&& b.statements@.len() == sts.len()
    &&& forall|i: int| 0 <= i < sts.len() ==> denotes_stmt(#[trigger] b.statements@[i], sts[i])
}

/// After whitespace, `while` at `pos`, then the condition, a chain in
/// brackets, then the body, a block of the statements `sts`.
pub open spec fn while_written(s: Seq<char>, pos: int, ws: Seq<Seq<char>>, ops: Seq<BinaryOperator>, sts: Seq<StmtText>) -> bool {
    &&& starts_with_word(s, pos, seq!['w', 'h', 'i', 'l', 'e'])
    &&& paren_chain_written(s, ws_skip(s, pos) + 5, ws, ops)
    &&& block_written(s, paren_chain_end(s, ws_skip(s, pos) + 5, ws, ops), sts)
}

/// Where a `while` written at `pos` ends: after its body.
pub open spec fn while_end(s: Seq<char>, pos: int, ws: Seq<Seq<char>>, ops: Seq<BinaryOperator>, sts: Seq<StmtText>) -> int {
    block_end(s, paren_chain_end(s, ws_skip(s, pos) + 5, ws, ops), sts)
}

/// `e` is the loop `while` the chain holds, over the block of `sts`.
pub open spec fn denotes_while(e: Expression, ws: Seq<Seq<char>>, ops: Seq<BinaryOperator>, sts: Seq<StmtText>) -> bool {
    &&& e.ret_ty is None
    &&& !e.constant
    &&& *e.kind matches ExpressionKind::While(w)
    &&& w.label is None
    &&& denotes_chain(w.condition, ws, ops)
    &&& denotes_block(w.then_, sts)
}

/// After whitespace, `if` at `pos`, then the condition, a chain in
/// brackets, then a block of the statements `sts`; then, where `els` is
/// some statements, `else` and a block of them, and else no `else`.
pub open spec fn if_written(
    s: Seq<char>,
    pos: int,
    ws: Seq<Seq<char>>,
    ops: Seq<BinaryOperator>,
    sts: Seq<StmtText>,
    els: Option<Seq<StmtText>>,
) -> bool {
    let c = paren_chain_end(s, ws_skip(s, pos) + 2, ws, ops);
    let t = block_end(s, c, sts);
    &&& starts_with_word(s, pos, seq!['i', 'f'])
    &&& paren_chain_written(s, ws_skip(s, pos) + 2, ws, ops)
    &&& block_written(s, c, sts)
    &&& match els {
        None => !starts_with_word(s, t, seq!['e', 'l', 's', 'e']),
        Some(es) => starts_with_word(s, t, seq!['e', 'l', 's', 'e']) && block_written(s, ws_skip(s, t) + 4, es),
    }
}

/// Where an `if` written at `pos` ends: after its last block.
pub open spec fn if_end(
    s: Seq<char>,
    pos: int,
    ws: Seq<Seq<char>>,
    ops: Seq<BinaryOperator>,
    sts: Seq<StmtText>,
    els: Option<Seq<StmtText>>,
) -> int {
    let t = block_end(s, paren_chain_end(s, ws_skip(s, pos) + 2, ws, ops), sts);
    match els {
        None => t,
        Some(es) => block_end(s, ws_skip(s, t) + 4, es),
    }
}

/// `e` is the conditional: if the chain holds, the block of `sts`, else the
/// block of `els`, where there is one.
pub open spec fn denotes_if(
    e: Expression,
    ws: Seq<Seq<char>>,
    ops: Seq<BinaryOperator>,
    sts: Seq<StmtText>,
    els: Option<Seq<StmtText>>,
) -> bool {
    &&& e.ret_ty is None
    &&& !e.constant
    &&& *e.kind matches ExpressionKind::If(c)
    &&& denotes_chain(c.condition, ws, ops)
    &&& denotes_block(c.then_, sts)
    &&& match els {
        None => c.else_ is None,
        Some(es) => c.else_ matches Some(x) && denotes_block(x, es),
    }
}

/// After whitespace, `loop` at `pos` with no label, then a block of the
/// statements `sts`.
pub open spec fn loop_written(s: Seq<char>, pos: int, sts: Seq<StmtText>) -> bool {
    &&& starts_with_word(s, pos, seq!['l', 'o', 'o', 'p'])
    &&& block_written(s, ws_skip(s, pos) + 4, sts)
}

/// `e` is the unlabelled loop over the block of `sts`.
pub open spec fn denotes_loop(e: Expression, sts: Seq<StmtText>) -> bool {
    &&& e.ret_ty is None
    &&& !e.constant
    &&& *e.kind matches ExpressionKind::Loop(l)
    &&& l.label is None
    &&& denotes_block(l.body, sts)
}

/// After whitespace, the name `n` at `pos`, then `{` and the fields `fs`.
pub open spec fn struct_literal_written(s: Seq<char>, pos: int, n: Seq<char>, fs: Seq<(Seq<char>, Seq<Seq<char>>, Seq<BinaryOperator>)>) -> bool {
    &&& is_name(n)
    &&& path_written(s, pos, seq![n])
    &&& next_char(s, ws_skip(s, pos) + n.len()) == Some('{')
    &&& fields_written(s, ws_skip(s, ws_skip(s, pos) + n.len()) + 1, fs)
}

/// Where a struct literal written at `pos` ends: after its `}`.
pub open spec fn struct_literal_end(s: Seq<char>, pos: int, n: Seq<char>, fs: Seq<(Seq<char>, Seq<Seq<char>>, Seq<BinaryOperator>)>) -> int {
    fields_end(s, ws_skip(s, ws_skip(s, pos) + n.len()) + 1, fs)
}

/// `e` is the struct literal of the type named `n` with the fields `fs`.
pub open spec fn denotes_struct(e: Expression, n: Seq<char>, fs: Seq<(Seq<char>, Seq<Seq<char>>, Seq<BinaryOperator>)>) -> bool {
    &&& e.ret_ty is None
    &&& !e.constant
    &&& *e.kind matches ExpressionKind::StructInit(si)
    &&& si.ident.v@.len() == 1
    &&& si.ident.v@[0].ident@ == n
    &&& si.ident.v@[0].template_spec@.len() == 0
    &&& denotes_fields(si.params@, fs)
}

/// The prefix operator that the character `c` writes, if it writes one.
pub open spec fn prefix_operator(c: char) -> Option<UnaryOperator> {
    if c == '&' {
        Some(UnaryOperator::Ref)
    } else if c == '*' {
        Some(UnaryOperator::Deref)
    } else if c == '-' {
        Some(UnaryOperator::Negation)
    } else {
        None
    }
}

/// After whitespace, the prefix operator `op` at `pos`, then the chain,
/// which it takes whole as its operand.
pub open spec fn prefix_chain_written(s: Seq<char>, pos: int, op: UnaryOperator, ws: Seq<Seq<char>>, ops: Seq<BinaryOperator>) -> bool {
    &&& next_char(s, pos) matches Some(c)
    &&& prefix_operator(c) == Some(op)
    &&& valid_chain(ws, ops)
    &&& chain_written(s, ws_skip(s, pos) + 1, ws, ops)
}

/// `e` is the prefix operator `op` applied to the chain.
pub open spec fn denotes_prefix_chain(e: Expression, op: UnaryOperator, ws: Seq<Seq<char>>, ops: Seq<BinaryOperator>) -> bool {
    &&& e.ret_ty is None
    &&& !e.constant
    &&& *e.kind matches ExpressionKind::UnaryOperation(u)
    &&& u.operator == op
    &&& denotes_chain(u.operand, ws, ops)
}

/// No identifier starts where a block does.
proof fn lemma_block_no_identifier(s: Seq<char>, p: int)
    requires
        0 <= p <= s.len(),
        next_char(s, p) == Some('{'),
    ensures
        forall|a: int, b: int| ws_end(s, p, a) ==> !#[trigger] word_at(s, a, b),
{
    assert forall|a: int, b: int| ws_end(s, p, a) implies !#[trigger] word_at(s, a, b) by {
        crate::parser::lemma_next_char_at(s, p, a);
    }
}

/// An operand: `(e)`, a number, a string, `@intrinsic(args)`, a block,
/// `loop label { }`, `if`, `while`, a prefix `&`, `*` or `-` applied to an
/// expression, a struct literal, or a path; which one the first character
/// or keyword tells (see `prefix_shape`).
#[verifier::rlimit(60)]
#[verifier::spinoff_prover]
pub fn parse_prefix(cs: &Vec<char>, pos: usize, strict: bool) -> (r: Result<Parsed<Prefix>, ParseError>)
    requires
        pos <= cs@.len(),
    ensures
        r matches Ok(p) ==> pos < p.end <= cs@.len(),
        r matches Ok(p) ==> prefix_shape(cs@, pos as int, p.value),
        forall|w: Seq<char>| operand_word(w) && #[trigger] word_written(cs@, pos as int, w) ==> (r matches Ok(p) && p.end
            == ws_skip(cs@, pos as int) + w.len() && p.value.takes_postfix && denotes_word(p.value.value, w)),
        !strict ==> (r matches Err(e) ==> is_syntax_error(e)),
        forall|n: Seq<char>, chs: Seq<(Seq<Seq<char>>, Seq<BinaryOperator>)>| #[trigger] intrinsic_written(cs@, pos as int, n, chs) ==> (
        match intrinsic_named(n) {
            Some(k) => r matches Ok(p) && p.end == intrinsic_end(cs@, pos as int, n, chs) && p.value.takes_postfix
                && denotes_intrinsic(p.value.value, k, chs),
            None => r is Err,
        }),
        forall|w: Seq<char>, pfs: Seq<PostfixText>| #[trigger] paren_written(cs@, pos as int, w, pfs) ==> (r matches Ok(p) && p.end
            == paren_end(cs@, pos as int, w, pfs) && p.value.takes_postfix && denotes_term(p.value.value, w, pfs)),
        forall|w: Seq<char>, w2: Seq<char>| is_name(w) && #[trigger] lt_word_written(cs@, pos as int, w, w2) ==> (r matches Ok(p)
            && p.end == ws_skip(cs@, pos as int) + w.len() && p.value.takes_postfix && denotes_word(p.value.value, w)),
        next_char(cs@, pos as int) == Some('"') ==> ((r is Ok <==> literal_close(cs@, ws_skip(cs@, pos as int) + 1) is Some) && (
        r matches Ok(p) ==> p.end == literal_close(cs@, ws_skip(cs@, pos as int) + 1)->0 + 1 && p.value.takes_postfix
            && denotes_string(p.value.value, cs@.subrange(ws_skip(cs@, pos as int) + 1, p.end - 1)))),
        forall|ws: Seq<Seq<char>>, ops: Seq<BinaryOperator>| #[trigger] paren_chain_written(cs@, pos as int, ws, ops) ==> (r matches Ok(p)
            && p.end == paren_chain_end(cs@, pos as int, ws, ops) && p.value.takes_postfix && denotes_chain(p.value.value, ws, ops)),
        forall|ws: Seq<Seq<char>>, ops: Seq<BinaryOperator>, sts: Seq<StmtText>| #[trigger] while_written(cs@, pos as int, ws, ops, sts)
            ==> (r matches Ok(p) && p.end == while_end(cs@, pos as int, ws, ops, sts) && p.value.takes_postfix && denotes_while(
            p.value.value,
            ws,
            ops,
            sts,
        )),
        forall|ws: Seq<Seq<char>>, ops: Seq<BinaryOperator>, sts: Seq<StmtText>, els: Option<Seq<StmtText>>| #[trigger] if_written(cs@, pos as int, ws, ops, sts, els)
            ==> (r matches Ok(p) && p.end == if_end(cs@, pos as int, ws, ops, sts, els) && p.value.takes_postfix && denotes_if(
            p.value.value,
            ws,
            ops,
            sts,
            els,
        )),
        forall|sts: Seq<StmtText>| #[trigger] loop_written(cs@, pos as int, sts) ==> (r matches Ok(p) && p.end == block_end(
            cs@,
            ws_skip(cs@, pos as int) + 4,
            sts,
        ) && p.value.takes_postfix && denotes_loop(p.value.value, sts)),
        forall|sts: Seq<StmtText>| #[trigger] block_written(cs@, pos as int, sts) ==> (r matches Ok(p) && p.end == block_end(
            cs@,
            pos as int,
            sts,
        ) && p.value.takes_postfix && denotes_block(p.value.value, sts)),
        forall|n: Seq<char>, fs: Seq<(Seq<char>, Seq<Seq<char>>, Seq<BinaryOperator>)>| #[trigger] struct_literal_written(cs@, pos as int, n, fs)
            ==> (r matches Ok(p) && p.end == struct_literal_end(cs@, pos as int, n, fs) && !p.value.takes_postfix && denotes_struct(
            p.value.value,
            n,
            fs,
        )),
        forall|op: UnaryOperator, ws: Seq<Seq<char>>, ops: Seq<BinaryOperator>| #[trigger] prefix_chain_written(cs@, pos as int, op, ws, ops)
            ==> (r matches Ok(p) && p.end == chain_end(cs@, ws_skip(cs@, pos as int) + 1, ws, ops) && !p.value.takes_postfix
            && denotes_prefix_chain(p.value.value, op, ws, ops)),
    decreases cs@.len() - pos, 1nat,
{
    let q0 = skip_ws(cs, pos);
    proof {
        lemma_ws_skip(cs@, pos as int, q0 as int);
        lemma_ws_end_unique(cs@, pos as int, q0 as int);
        lemma_word_operand_written(cs@, pos as int);
        lemma_lt_operand_written(cs@, pos as int);
        lemma_next_char_at(cs@, pos as int, q0 as int);
        reveal_strlit("{");
        assert("{"@ =~= seq!['{']);
        reveal_strlit("loop");
        reveal_strlit("if");
        reveal_strlit("while");
        assert("loop"@ =~= seq!['l', 'o', 'o', 'p']);
        assert("if"@ =~= seq!['i', 'f']);
        assert("while"@ =~= seq!['w', 'h', 'i', 'l', 'e']);
        lemma_word_first_char(cs@, pos as int, seq!['l', 'o', 'o', 'p']);
        lemma_word_first_char(cs@, pos as int, seq!['i', 'f']);
        lemma_word_first_char(cs@, pos as int, seq!['w', 'h', 'i', 'l', 'e']);
    }
    proof {
        assert forall|n: Seq<char>, fs: Seq<(Seq<char>, Seq<Seq<char>>, Seq<BinaryOperator>)>| #[trigger] struct_literal_written(cs@, pos as int, n, fs)
            implies q0 < cs@.len() && cs@[q0 as int] == n[0] && crate::parser::is_ident_start(n[0]) && path_text(seq![n]) == n && valid_path(seq![n])
            && !starts_with_word(cs@, pos as int, seq!['l', 'o', 'o', 'p']) && !starts_with_word(cs@, pos as int, seq!['i', 'f'])
            && !starts_with_word(cs@, pos as int, seq!['w', 'h', 'i', 'l', 'e']) by {
            assert(path_text(seq![n]) == n);
            assert(seq![n][0] == n);
            assert(cs@.subrange(q0 as int, q0 + n.len())[0] == cs@[q0 as int]);
            assert forall|i: int| 0 <= i < n.len() implies #[trigger] crate::parser::is_ident_char(n[i]) by {}
            if starts_with_word(cs@, pos as int, seq!['l', 'o', 'o', 'p']) {
                lemma_written_word_is_keyword(cs@, pos as int, n, seq!['l', 'o', 'o', 'p']);
            }
            if starts_with_word(cs@, pos as int, seq!['i', 'f']) {
                lemma_written_word_is_keyword(cs@, pos as int, n, seq!['i', 'f']);
            }
            if starts_with_word(cs@, pos as int, seq!['w', 'h', 'i', 'l', 'e']) {
                lemma_written_word_is_keyword(cs@, pos as int, n, seq!['w', 'h', 'i', 'l', 'e']);
            }
        }
    }
    // ' ' stands for the end of the text: whitespace is never the next character
    let c = if q0 < cs.len() {
        cs[q0]
    } else {
        ' '
    };
    // (e)
    if c == '(' {
        let x = handle_expression(cs, q0 + 1, strict)?;
        proof {
            reveal_strlit(")");
            assert(")"@ =~= seq![')']);
            lemma_char_next(cs@, x.end as int, ')');
        }
        return match symbol(cs, x.end, ")") {
            Some(e) => Ok(Parsed { value: Prefix { value: x.value, takes_postfix: true }, end: e }),
            None => Err(ParseError::UnexpectedInput(x.end)),
        };
    }
    // literals
    if '0' <= c && c <= '9' {
        return match number(cs, pos) {
            Some((text, e)) => {
                proof {
                    assert forall|w: Seq<char>| operand_word(w) && #[trigger] word_written(cs@, pos as int, w) implies e == q0 + w.len()
                        && text@ == w && is_digits(w) by {
                        let a2 = choose|a2: int| ws_end(cs@, pos as int, a2) && a2 < e && text@ == cs@.subrange(a2, e as int)
                            && (forall|i: int| a2 <= i < e ==> '0' <= #[trigger] cs@[i] <= '9') && (e == cs@.len() || !(
                            '0' <= cs@[e as int] <= '9'));
                        assert(a2 == q0);
                        assert(is_digits(w));
                        if e < q0 + w.len() {
                            assert(cs@[e as int] == w[e - q0]);
                        } else if e > q0 + w.len() {
                            assert('0' <= cs@[q0 + w.len()] <= '9');
                        }
                        assert(text@ =~= w) by {
                            assert forall|i: int| 0 <= i < w.len() implies text@[i] == w[i] by {
                                assert(cs@[q0 + i] == w[i]);
                            }
                        }
                    }
                }
                let lit = Literal::integer(text, None, None);
                Ok(Parsed { value: Prefix { value: Expression::literal(lit), takes_postfix: true }, end: e })
            },
            None => Err(ParseError::UnexpectedInput(pos)),
        };
    }
    if c == '"' {
        return match string_literal(cs, pos) {
            Some((raw, e)) => {
                proof {
                    assert(q0 == ws_skip(cs@, pos as int));
                    assert(raw@ == cs@.subrange(q0 as int, e as int));
                    assert(raw@.len() >= 2);
                    assert(q0 + 2 <= e);
                    assert(raw@.subrange(1, raw@.len() - 1) =~= cs@.subrange(q0 + 1, e - 1));
                }
                let value = unescape_string_literal(raw.as_str());
                let lit = Literal::string(value);
                Ok(Parsed { value: Prefix { value: Expression::literal(lit), takes_postfix: true }, end: e })
            },
            None => Err(ParseError::UnexpectedInput(pos)),
        };
    }
    // intrinsic
    if c == '@' {
        let q = q0 + 1;
        let (name, q2) = match identifier(cs, q) {
            Some(x) => x,
            None => {
                return Err(ParseError::UnexpectedInput(q));
            },
        };
        proof {
            reveal_strlit("(");
            assert("("@ =~= seq!['(']);
            assert forall|n: Seq<char>, chs: Seq<(Seq<Seq<char>>, Seq<BinaryOperator>)>| #[trigger] intrinsic_written(cs@, pos as int, n, chs)
                implies q2 == ws_skip(cs@, q as int) + n.len() && name@ == n by {
                let w = ws_skip(cs@, q as int);
                lemma_ws_skip_end(cs@, q as int);
                assert(word_at(cs@, w, w + n.len()) && !is_keyword(cs@.subrange(w, w + n.len())));
            }
            lemma_char_next(cs@, q2 as int, '(');
        }
        let q3 = match symbol(cs, q2, "(") {
            Some(x) => x,
            None => {
                return Err(ParseError::UnexpectedInput(q2));
            },
        };
        let args = parse_args(cs, q3, strict)?;
        let kind = if IntrinsicKind::name_splits_badly(name.as_str()) {
            None
        } else {
            match IntrinsicKind::from_str(name.as_str()) {
                Ok(k) => Some(k),
                Err(_) => None,
            }
        };
        let kind = match kind {
            Some(k) => k,
            None => {
                if strict {
                    return Err(ParseError::UnknownIntrinsic(q));
                }
                return Err(ParseError::UnexpectedInput(q));
            },
        };
        return Ok(Parsed { value: Prefix { value: Expression::intrinsic(kind, args.value), takes_postfix: true }, end: args.end });
    }
    // block
    if c == '{' {
        let b = handle_block_expression(cs, pos, strict)?;
        return Ok(Parsed { value: Prefix { value: Expression::block(b.value), takes_postfix: true }, end: b.end });
    }
    // prefix unary operators
    let un = if c == '&' {
        Some(UnaryOperator::Ref)
    } else if c == '*' {
        Some(UnaryOperator::Deref)
    } else if c == '-' {
        Some(UnaryOperator::Negation)
    } else {
        None
    };
    if let Some(op) = un {
        let x = handle_expression(cs, q0 + 1, strict)?;
        return Ok(Parsed { value: Prefix { value: Expression::unary_operation(op, x.value), takes_postfix: false }, end: x.end });
    }
    // loop
    if let Some(q) = keyword(cs, pos, "loop") {
        assert(q == q0 + 4);
        let id = identifier(cs, q);
        proof {
            if exists|sts: Seq<StmtText>| #[trigger] loop_written(cs@, pos as int, sts) {
                lemma_block_no_identifier(cs@, q as int);
                assert(id is None);
            }
        }
        let (label, q2) = match id {
            Some((l, e)) => (Some(l), e),
            None => (None, q),
        };
        let b = handle_block_expression(cs, q2, strict)?;
        return Ok(Parsed { value: Prefix { value: Expression::loop_(Expression::block(b.value), label), takes_postfix: true }, end: b.end });
    }
    // if
    if let Some(q) = keyword(cs, pos, "if") {
        assert(q == q0 + 2);
        let c = handle_expression(cs, q, strict)?;
        let t = handle_block_expression(cs, c.end, strict)?;
        let mut builder = ConditionalBuilder::new(c.value, Expression::block(t.value));
        let mut end = t.end;
        let k = keyword(cs, t.end, "else");
        proof {
            reveal_strlit("else");
            assert("else"@ =~= seq!['e', 'l', 's', 'e']);
            if let Some(q2) = k {
                let w = choose|w: int| ws_end(cs@, t.end as int, w) && q2 == w + 4;
                crate::parser::lemma_ws_skip(cs@, t.end as int, w);
            }
        }
        if let Some(q2) = k {
            let e = handle_block_expression(cs, q2, strict)?;
            builder = builder.set_else(Expression::block(e.value));
            end = e.end;
        }
        let x = Expression::if_(builder.build());
        proof {
            assert forall|ws: Seq<Seq<char>>, ops: Seq<BinaryOperator>, sts: Seq<StmtText>, els: Option<Seq<StmtText>>| #[trigger] if_written(cs@, pos as int, ws, ops, sts, els)
                implies end == if_end(cs@, pos as int, ws, ops, sts, els) && denotes_if(x, ws, ops, sts, els) by {
                assert(ends_operand(cs@, paren_chain_end(cs@, q as int, ws, ops)));
                assert(c.end == paren_chain_end(cs@, q as int, ws, ops));
                assert(block_written(cs@, c.end as int, sts));
                match els {
                    None => {},
                    Some(es) => {
                        assert(k is Some);
                    },
                }
            }
        }
        return Ok(Parsed { value: Prefix { value: x, takes_postfix: true }, end });
    }
    // while
    if let Some(q) = keyword(cs, pos, "while") {
        assert(q == q0 + 5);
        let c = handle_expression(cs, q, strict)?;
        let t = handle_block_expression(cs, c.end, strict)?;
        let w = WhileLoop::new(c.value, Expression::block(t.value));
        return Ok(Parsed { value: Prefix { value: Expression::while_(w), takes_postfix: true }, end: t.end });
    }
    // struct literal, or path
    let p = handle_qualified_name(cs, pos, strict)?;
    proof {
        reveal_strlit("{");
        assert("{"@ =~= seq!['{']);
        lemma_char_next(cs@, p.end as int, '{');
    }
    if let Some(q) = symbol(cs, p.end, "{") {
        match parse_fields(cs, q, strict) {
            Ok(f) => {
                let init = StructInit { ident: p.value, params: f.value };
                return Ok(Parsed { value: Prefix { value: Expression::new(ExpressionKind::StructInit(init)), takes_postfix: false }, end: f.end });
            },
            Err(e) => {
                if !syntax_error(&e) {
                    return Err(e);
                }
            },
        }
    }
    Ok(Parsed { value: Prefix { value: Expression::identifier(p.value), takes_postfix: true }, end: p.end })
}

/// An expression: an operand, then the operators after it, ordered by
/// `build_expression`.
#[verifier::rlimit(60)]
#[verifier::spinoff_prover]
pub fn handle_expression(cs: &Vec<char>, pos: usize, strict: bool) -> (r: Result<Parsed<Expression>, ParseError>)
    requires
        pos <= cs@.len(),
    ensures
        r matches Ok(p) ==> pos < p.end <= cs@.len(),
        r matches Ok(p) ==> (next_char(cs@, pos as int) == Some('&') ==> (*p.value.kind matches ExpressionKind::UnaryOperation(u)
            && u.operator == UnaryOperator::Ref)),
        r matches Ok(p) ==> (next_char(cs@, pos as int) == Some('*') ==> (*p.value.kind matches ExpressionKind::UnaryOperation(u)
            && u.operator == UnaryOperator::Deref)),
        r matches Ok(p) ==> (next_char(cs@, pos as int) == Some('-') ==> (*p.value.kind matches ExpressionKind::UnaryOperation(u)
            && u.operator == UnaryOperator::Negation)),
        forall|ws: Seq<Seq<char>>, ops: Seq<BinaryOperator>| valid_chain(ws, ops) && #[trigger] chain_written(cs@, pos as int, ws, ops)
            ==> (r matches Ok(p) && p.end == chain_end(cs@, pos as int, ws, ops) && denotes_chain(p.value, ws, ops)),
        forall|w: Seq<char>, chs: Seq<(Seq<Seq<char>>, Seq<BinaryOperator>)>| #[trigger] call_expr_written(cs@, pos as int, w, chs)
            ==> (r matches Ok(p) && p.end == call_expr_end(cs@, pos as int, w, chs) && denotes_call(p.value, w, chs)),
        forall|n: Seq<char>, chs: Seq<(Seq<Seq<char>>, Seq<BinaryOperator>)>| #[trigger] intrinsic_written(cs@, pos as int, n, chs)
            && closes_expression(cs@, intrinsic_end(cs@, pos as int, n, chs)) ==> (match intrinsic_named(n) {
            Some(k) => r matches Ok(p) && p.end == intrinsic_end(cs@, pos as int, n, chs) && denotes_intrinsic(p.value, k, chs),
            None => r is Err,
        }),
        forall|w: Seq<char>, pfs: Seq<PostfixText>| #[trigger] term_written(cs@, pos as int, w, pfs) ==> (r matches Ok(p) && p.end
            == term_end(cs@, pos as int, w, pfs) && denotes_term(p.value, w, pfs)),
        forall|w: Seq<char>, pfs: Seq<PostfixText>, op: BinaryOperator, w2: Seq<char>, qfs: Seq<PostfixText>| #[trigger] term_op_written(cs@, pos as int, w, pfs, op, w2, qfs)
            ==> (r matches Ok(p) && p.end == term_op_end(cs@, pos as int, w, pfs, op, w2, qfs) && denotes_term_op(p.value, w, pfs, op, w2, qfs)),
        forall|w: Seq<char>, pfs: Seq<PostfixText>, qfs: Seq<PostfixText>| #[trigger] paren_term_written(cs@, pos as int, w, pfs, qfs)
            ==> (r matches Ok(p) && p.end == paren_term_end(cs@, pos as int, w, pfs, qfs) && denotes_term(p.value, w, pfs + qfs)),
        forall|w: Seq<char>, op: BinaryOperator, ws: Seq<Seq<char>>, ops: Seq<BinaryOperator>| #[trigger] compare_written(cs@, pos as int, w, op, ws, ops)
            ==> (r matches Ok(p) && p.end == compare_end(cs@, pos as int, w, op, ws, ops) && denotes_compare(p.value, w, op, ws, ops)),
        next_char(cs@, pos as int) == Some('"') ==> match literal_close(cs@, ws_skip(cs@, pos as int) + 1) {
            Some(c) => closes_expression(cs@, c + 1) ==> (r matches Ok(p) && p.end == c + 1 && denotes_string(
                p.value,
                cs@.subrange(ws_skip(cs@, pos as int) + 1, c),
            )),
            None => r is Err,
        },
        !strict ==> (r matches Err(e) ==> is_syntax_error(e)),
        forall|ws: Seq<Seq<char>>, ops: Seq<BinaryOperator>| #[trigger] paren_chain_written(cs@, pos as int, ws, ops) && ends_operand(
            cs@,
            paren_chain_end(cs@, pos as int, ws, ops),
        ) ==> (r matches Ok(p) && p.end == paren_chain_end(cs@, pos as int, ws, ops) && denotes_chain(p.value, ws, ops)),
        forall|ws: Seq<Seq<char>>, ops: Seq<BinaryOperator>, sts: Seq<StmtText>| #[trigger] while_written(cs@, pos as int, ws, ops, sts)
            && ends_operand(cs@, while_end(cs@, pos as int, ws, ops, sts)) ==> (r matches Ok(p) && p.end == while_end(
            cs@,
            pos as int,
            ws,
            ops,
            sts,
        ) && denotes_while(p.value, ws, ops, sts)),
        forall|ws: Seq<Seq<char>>, ops: Seq<BinaryOperator>, sts: Seq<StmtText>, els: Option<Seq<StmtText>>| #[trigger] if_written(cs@, pos as int, ws, ops, sts, els)
            && ends_operand(cs@, if_end(cs@, pos as int, ws, ops, sts, els)) ==> (r matches Ok(p) && p.end == if_end(
            cs@,
            pos as int,
            ws,
            ops,
            sts,
            els,
        ) && denotes_if(p.value, ws, ops, sts, els)),
        forall|sts: Seq<StmtText>| #[trigger] loop_written(cs@, pos as int, sts) && ends_operand(
            cs@,
            block_end(cs@, ws_skip(cs@, pos as int) + 4, sts),
        ) ==> (r matches Ok(p) && p.end == block_end(cs@, ws_skip(cs@, pos as int) + 4, sts) && denotes_loop(p.value, sts)),
        forall|sts: Seq<StmtText>| #[trigger] block_written(cs@, pos as int, sts) && ends_operand(cs@, block_end(cs@, pos as int, sts))
            ==> (r matches Ok(p) && p.end == block_end(cs@, pos as int, sts) && denotes_block(p.value, sts)),
        forall|w: Seq<char>, ws: Seq<Seq<char>>, ops: Seq<BinaryOperator>| operand_word(w) && word_written(cs@, pos as int, w)
            && #[trigger] assign_written(cs@, ws_skip(cs@, pos as int) + w.len(), ws, ops) ==> (r matches Ok(p) && p.end == assign_end(
            cs@,
            ws_skip(cs@, pos as int) + w.len(),
            ws,
            ops,
        ) && denotes_assign(p.value, w, ws, ops)),
        forall|w: Seq<char>, ws: Seq<Seq<char>>, ops: Seq<BinaryOperator>| operand_word(w) && word_written(cs@, pos as int, w)
            && #[trigger] index_written(cs@, ws_skip(cs@, pos as int) + w.len(), ws, ops) ==> (r matches Ok(p) && p.end == index_end(
            cs@,
            ws_skip(cs@, pos as int) + w.len(),
            ws,
            ops,
        ) && denotes_index(p.value, w, ws, ops)),
        forall|w: Seq<char>, body: Seq<char>| operand_word(w) && word_written(cs@, pos as int, w) && #[trigger] str_call_written(
            cs@,
            ws_skip(cs@, pos as int) + w.len(),
            body,
        ) ==> (r matches Ok(p) && p.end == str_call_end(cs@, ws_skip(cs@, pos as int) + w.len()) && denotes_str_call(p.value, w, body)),
        forall|n: Seq<char>, fs: Seq<(Seq<char>, Seq<Seq<char>>, Seq<BinaryOperator>)>| #[trigger] struct_literal_written(cs@, pos as int, n, fs)
            && ends_operand(cs@, struct_literal_end(cs@, pos as int, n, fs)) ==> (r matches Ok(p) && p.end == struct_literal_end(cs@, pos as int, n, fs)
            && denotes_struct(p.value, n, fs)),
        forall|op: UnaryOperator, ws: Seq<Seq<char>>, ops: Seq<BinaryOperator>| #[trigger] prefix_chain_written(cs@, pos as int, op, ws, ops)
            ==> (r matches Ok(p) && p.end == chain_end(cs@, ws_skip(cs@, pos as int) + 1, ws, ops) && denotes_prefix_chain(
            p.value,
            op,
            ws,
            ops,
        )),
    decreases cs@.len() - pos, 2nat,
{
    proof {
        assert forall|ws: Seq<Seq<char>>, ops: Seq<BinaryOperator>| valid_chain(ws, ops) && #[trigger] chain_written(cs@, pos as int, ws, ops)
            implies word_written(cs@, pos as int, ws[0]) && operand_word(ws[0]) by {
            lemma_chain_split(cs@, pos as int, ws, ops);
        }
    }
    let pre = parse_prefix(cs, pos, strict)?;
    let mut items: Vec<ExpressionString> = Vec::new();
    if !pre.value.takes_postfix {
        // the operators after a struct literal are read and dropped
        let mut scratch: Vec<ExpressionString> = Vec::new();
        scratch.push(ExpressionString::Val(Expression::literal(Literal::integer(String::new(), None, None))));
        let e = parse_postfixes(cs, pre.end, strict, &mut scratch)?;
        return Ok(Parsed { value: pre.value.value, end: e });
    }
    let ghost operand = pre.value.value;
    items.push(ExpressionString::Val(pre.value.value));
    assert(items@.len() == 1);
    let ghost items0 = items@;
    assert(items0 == seq![ExpressionString::Val(operand)]);
    proof {
        assert forall|ws: Seq<Seq<char>>, ops: Seq<BinaryOperator>| valid_chain(ws, ops) && #[trigger] chain_written(cs@, pos as int, ws, ops)
            implies (ws.len() == 1 ==> closes_expression(cs@, pre.end as int) && chain_end(cs@, pos as int, ws, ops) == pre.end)
            && (ws.len() >= 2 ==> operator_chain_written(cs@, pre.end as int, ops[0], ws.drop_first(), ops.drop_first())
            && chain_end(cs@, operator_end(cs@, pre.end as int, ops[0]), ws.drop_first(), ops.drop_first()) == chain_end(
            cs@,
            pos as int,
            ws,
            ops,
        )) by {
            lemma_chain_split(cs@, pos as int, ws, ops);
            if ws.len() >= 2 {
                assert(read_operator(ops[0]));
            }
        }
    }
    proof {
        assert forall|w: Seq<char>, pfs: Seq<PostfixText>| #[trigger] term_written(cs@, pos as int, w, pfs) implies pre.end == ws_skip(
            cs@,
            pos as int,
        ) + w.len() && denotes_word(operand, w) && postfixes_written(cs@, pre.end as int, pfs) by {
            assert(word_written(cs@, pos as int, w) && operand_word(w));
        }
    }
    let e = parse_postfixes(cs, pre.end, strict, &mut items)?;
    proof { lemma_well_formed_builds(items@); }
    let ghost built = spec_build(items@);
    proof {
        assert forall|w: Seq<char>, pfs: Seq<PostfixText>| #[trigger] term_written(cs@, pos as int, w, pfs) implies built matches Some(
            x,
        ) && e == term_end(cs@, pos as int, w, pfs) && denotes_term(x, w, pfs) by {
            assert(postfixes_written(cs@, pre.end as int, pfs));
            assert(postfixes_appended(items0, items@, pfs));
            let ops = Seq::new(pfs.len(), |i: int| items@[1 + i]->Oper_0);
            assert forall|i: int| 0 <= i < pfs.len() implies denotes_postfix(#[trigger] ops[i], pfs[i]) && is_postfix_op(ops[i]) by {
                assert(items@[items0.len() + i] matches ExpressionString::Oper(o) && denotes_postfix(o, pfs[i]));
            }
            assert(items@ =~= seq![ExpressionString::Val(operand)] + opers(ops)) by {
                assert(items@.take(1) =~= items0);
                assert forall|i: int| 1 <= i < items@.len() implies items@[i] == (seq![ExpressionString::Val(operand)] + opers(ops))[i] by {
                    assert(items@[items0.len() + (i - 1)] matches ExpressionString::Oper(o) && denotes_postfix(o, pfs[i - 1]));
                }
            }
            lemma_build_postfixes(operand, ops);
            lemma_denotes_term(operand, w, ops, pfs);
        }
    }
    proof {
        assert forall|w: Seq<char>, pfs: Seq<PostfixText>, op: BinaryOperator, w2: Seq<char>, qfs: Seq<PostfixText>| #[trigger] term_op_written(cs@, pos as int, w, pfs, op, w2, qfs)
            implies built matches Some(x) && e == term_op_end(cs@, pos as int, w, pfs, op, w2, qfs) && denotes_term_op(x, w, pfs, op, w2, qfs) by {
            assert(word_written(cs@, pos as int, w) && operand_word(w));
            assert(denotes_word(operand, w));
            assert(postfixes_op_written(cs@, pre.end as int, pfs, op, w2, qfs));
            assert(postfixes_op_appended(items0, items@, pfs, op, w2, qfs));
            let n = (1 + pfs.len()) as int;
            let ops = Seq::new(pfs.len(), |i: int| items@[1 + i]->Oper_0);
            assert forall|i: int| 0 <= i < pfs.len() implies denotes_postfix(#[trigger] ops[i], pfs[i]) && is_postfix_op(ops[i]) by {
                assert(items@.take(n)[items0.len() + i] matches ExpressionString::Oper(o) && denotes_postfix(o, pfs[i]));
                assert(items@.take(n)[items0.len() + i] == items@[1 + i]);
            }
            let v2 = items@[n + 1]->Val_0;
            assert(items@ =~= seq![ExpressionString::Val(operand)] + opers(ops) + seq![
                ExpressionString::Oper(Operation::Binary(op)),
                ExpressionString::Val(v2),
            ]) by {
                assert(items@.take(n).take(1) =~= items0);
                assert(items@[0] == items@.take(n).take(1)[0]);
                assert forall|i: int| 1 <= i < n implies items@[i] == (seq![ExpressionString::Val(operand)] + opers(ops))[i] by {
                    assert(items@.take(n)[items0.len() + (i - 1)] matches ExpressionString::Oper(o) && denotes_postfix(o, pfs[i - 1]));
                    assert(items@.take(n)[items0.len() + (i - 1)] == items@[i]);
                }
            }
            lemma_build_postfixes_binary(operand, ops, op, v2);
            lemma_denotes_term(operand, w, ops, pfs);
        }
    }
    proof {
        assert forall|w: Seq<char>, pfs: Seq<PostfixText>, qfs: Seq<PostfixText>| #[trigger] paren_term_written(cs@, pos as int, w, pfs, qfs)
            implies built matches Some(x) && e == paren_term_end(cs@, pos as int, w, pfs, qfs) && denotes_term(x, w, pfs + qfs) by {
            assert(paren_written(cs@, pos as int, w, pfs));
            assert(postfixes_written(cs@, pre.end as int, qfs));
            assert(postfixes_appended(items0, items@, qfs));
            let ops = Seq::new(qfs.len(), |i: int| items@[1 + i]->Oper_0);
            assert forall|i: int| 0 <= i < qfs.len() implies denotes_postfix(#[trigger] ops[i], qfs[i]) && is_postfix_op(ops[i]) by {
                assert(items@[items0.len() + i] matches ExpressionString::Oper(o) && denotes_postfix(o, qfs[i]));
            }
            assert(items@ =~= seq![ExpressionString::Val(operand)] + opers(ops)) by {
                assert(items@.take(1) =~= items0);
                assert forall|i: int| 1 <= i < items@.len() implies items@[i] == (seq![ExpressionString::Val(operand)] + opers(ops))[i] by {
                    assert(items@[items0.len() + (i - 1)] matches ExpressionString::Oper(o) && denotes_postfix(o, qfs[i - 1]));
                }
            }
            lemma_build_postfixes(operand, ops);
            lemma_denotes_term_more(operand, w, pfs, ops, qfs);
        }
    }
    proof {
        assert forall|w: Seq<char>, op: BinaryOperator, ws: Seq<Seq<char>>, ops: Seq<BinaryOperator>| #[trigger] compare_written(cs@, pos as int, w, op, ws, ops)
            implies built matches Some(x) && e == compare_end(cs@, pos as int, w, op, ws, ops) && denotes_compare(x, w, op, ws, ops) by {
            assert(lt_word_written(cs@, pos as int, w, ws[0]));
            assert(denotes_word(operand, w));
            assert(operator_chain_written(cs@, pre.end as int, op, ws, ops));
            assert(operator_appended(items0, items@, op, ws, ops));
            assert(items@.take(1) =~= items0);
            let v2 = items@[2]->Val_0;
            assert(items@ =~= seq![ExpressionString::Val(operand), ExpressionString::Oper(Operation::Binary(op)), ExpressionString::Val(v2)]);
            lemma_build_binary(operand, op, v2);
        }
    }
    let res = build_expression(items);
    proof {
        assert forall|ws: Seq<Seq<char>>, ops: Seq<BinaryOperator>| valid_chain(ws, ops) && #[trigger] chain_written(cs@, pos as int, ws, ops)
            implies (res matches Some(x) && e == chain_end(cs@, pos as int, ws, ops) && denotes_chain(x, ws, ops)) by {
            assert(word_written(cs@, pos as int, ws[0]) && operand_word(ws[0]));
            assert(denotes_word(operand, ws[0]));
            if ws.len() == 1 {
                assert(closes_expression(cs@, pre.end as int));
                assert(e == pre.end);
                assert(items@ == items0);
                lemma_build_operand(operand);
                assert(built == Some(operand));
            } else {
                let op = ops[0];
                assert(operator_chain_written(cs@, pre.end as int, ops[0], ws.drop_first(), ops.drop_first()));
                assert(e == chain_end(cs@, pos as int, ws, ops));
                assert(operator_appended(items0, items@, op, ws.drop_first(), ops.drop_first()));
                assert(items@.take(1) =~= items0);
                let v2 = items@[2]->Val_0;
                assert(items@ =~= seq![ExpressionString::Val(operand), ExpressionString::Oper(Operation::Binary(op)), ExpressionString::Val(v2)]);
                lemma_build_binary(operand, op, v2);
            }
        }
    }
    proof {
        if ends_operand(cs@, pre.end as int) {
            assert(items@ == items0);
            lemma_build_operand(operand);
        }
    }
    proof {
        assert forall|w: Seq<char>, chs: Seq<(Seq<Seq<char>>, Seq<BinaryOperator>)>| #[trigger] call_expr_written(cs@, pos as int, w, chs)
            implies (res matches Some(x) && e == call_expr_end(cs@, pos as int, w, chs) && denotes_call(x, w, chs)) by {
            assert(word_written(cs@, pos as int, w) && operand_word(w));
            assert(denotes_word(operand, w));
            assert(call_written(cs@, pre.end as int, chs));
            assert(items@.take(1) =~= items0);
            let ps = items@[1]->Oper_0->Call_0;
            assert(items@ =~= seq![ExpressionString::Val(operand), ExpressionString::Oper(Operation::Call(ps))]);
            lemma_build_call(operand, ps);
        }
    }
    proof {
        assert forall|w: Seq<char>, ws: Seq<Seq<char>>, ops: Seq<BinaryOperator>| operand_word(w) && word_written(cs@, pos as int, w)
            && #[trigger] assign_written(cs@, ws_skip(cs@, pos as int) + w.len(), ws, ops) implies (res matches Some(x) && e == assign_end(
            cs@,
            ws_skip(cs@, pos as int) + w.len(),
            ws,
            ops,
        ) && denotes_assign(x, w, ws, ops)) by {
            assert(denotes_word(operand, w));
            assert(pre.end == ws_skip(cs@, pos as int) + w.len());
            assert(assign_appended(items0, items@, ws, ops));
            assert(items@.take(1) =~= items0);
            let o = items@[1]->Oper_0;
            assert(items@ =~= seq![ExpressionString::Val(operand), ExpressionString::Oper(o)]);
            lemma_build_applied(operand, o);
        }
        assert forall|w: Seq<char>, ws: Seq<Seq<char>>, ops: Seq<BinaryOperator>| operand_word(w) && word_written(cs@, pos as int, w)
            && #[trigger] index_written(cs@, ws_skip(cs@, pos as int) + w.len(), ws, ops) implies (res matches Some(x) && e == index_end(
            cs@,
            ws_skip(cs@, pos as int) + w.len(),
            ws,
            ops,
        ) && denotes_index(x, w, ws, ops)) by {
            assert(denotes_word(operand, w));
            assert(pre.end == ws_skip(cs@, pos as int) + w.len());
            assert(index_appended(items0, items@, ws, ops));
            assert(items@.take(1) =~= items0);
            let o = items@[1]->Oper_0;
            assert(items@ =~= seq![ExpressionString::Val(operand), ExpressionString::Oper(o)]);
            lemma_build_applied(operand, o);
        }
    }
    proof {
        assert forall|w: Seq<char>, body: Seq<char>| operand_word(w) && word_written(cs@, pos as int, w) && #[trigger] str_call_written(
            cs@,
            ws_skip(cs@, pos as int) + w.len(),
            body,
        ) implies (res matches Some(x) && e == str_call_end(cs@, ws_skip(cs@, pos as int) + w.len()) && denotes_str_call(x, w, body)) by {
            assert(denotes_word(operand, w));
            assert(pre.end == ws_skip(cs@, pos as int) + w.len());
            assert(str_call_appended(items0, items@, body));
            assert(items@.take(1) =~= items0);
            let ps = items@[1]->Oper_0->Call_0;
            assert(items@ =~= seq![ExpressionString::Val(operand), ExpressionString::Oper(Operation::Call(ps))]);
            lemma_build_call(operand, ps);
        }
    }
    match res {
        Some(x) => Ok(Parsed { value: x, end: e }),
        None => Err(ParseError::UnexpectedInput(pos)),
    }
}

/// Where a statement ends that ends at `p` before an optional `;`.
pub open spec fn after_semicolon(s: Seq<char>, p: int) -> int {
    if next_char(s, p) == Some(';') {
        ws_skip(s, p) + 1
    } else {
        p
    }
}

/// A `;` is next after `p` exactly when the text after the whitespace
/// there starts with it.
proof fn lemma_after_semicolon(s: Seq<char>, p: int)
    requires
        0 <= p <= s.len(),
    ensures
        next_char(s, p) == Some(';') <==> (ws_skip(s, p) + 1 <= s.len() && s.subrange(ws_skip(s, p), ws_skip(s, p) + 1)
            == seq![';']),
{
    crate::parser::lemma_ws_skip_end(s, p);
    lemma_next_char_at(s, p, ws_skip(s, p));
    let a = ws_skip(s, p);
    if a + 1 <= s.len() {
        assert(s.subrange(a, a + 1)[0] == s[a]);
        if s[a] == ';' {
            assert(s.subrange(a, a + 1) =~= seq![';']);
        }
    }
}

/// A word that an operand is written as is no keyword, so no keyword
/// starts where it is written.
proof fn lemma_operand_not_keyword(s: Seq<char>, pos: int, w: Seq<char>, kw: Seq<char>)
    requires
        0 <= pos <= s.len(),
        operand_word(w),
        word_written(s, pos, w),
        is_keyword(kw),
        kw.len() > 0,
        forall|i: int| 0 <= i < kw.len() ==> #[trigger] is_ident_char(kw[i]),
        !('0' <= kw[0] <= '9'),
    ensures
        !starts_with_word(s, pos, kw),
{
    crate::parser::chains::lemma_operand_word_chars(w);
    if starts_with_word(s, pos, kw) {
        lemma_written_word_is_keyword(s, pos, w, kw);
        if is_digits(w) {
            assert('0' <= w[0] <= '9');
        }
    }
}

/// A statement of a block, as written: an operator chain ended by `;`, or
/// `break;`.
pub enum StmtText {
    Chain(Seq<Seq<char>>, Seq<BinaryOperator>),
    Break,
    CallStr(Seq<char>, Seq<char>),
}

/// After whitespace, the statement `st` at `p`.
pub open spec fn stmt_written(s: Seq<char>, p: int, st: StmtText) -> bool {
    match st {
        StmtText::Chain(ws, ops) => valid_chain(ws, ops) && chain_written(s, p, ws, ops) && next_char(s, chain_end(s, p, ws, ops))
            == Some(';'),
        StmtText::Break => starts_with_word(s, p, seq!['b', 'r', 'e', 'a', 'k']) && next_char(s, ws_skip(s, p) + 5) == Some(';'),
        StmtText::CallStr(w, body) => operand_word(w) && word_written(s, p, w) && str_call_written(s, ws_skip(s, p) + w.len(), body)
            && next_char(s, str_call_end(s, ws_skip(s, p) + w.len())) == Some(';'),
    }
}

/// Where the statement `st` written at `p` ends: after its `;`.
pub open spec fn stmt_end(s: Seq<char>, p: int, st: StmtText) -> int {
    match st {
        StmtText::Chain(ws, ops) => after_semicolon(s, chain_end(s, p, ws, ops)),
        StmtText::Break => ws_skip(s, ws_skip(s, p) + 5) + 1,
        StmtText::CallStr(w, body) => after_semicolon(s, str_call_end(s, ws_skip(s, p) + w.len())),
    }
}

/// `x` is the statement `st`: the expression the chain denotes, or a
/// `break` without a label.
pub open spec fn denotes_stmt(x: Statement, st: StmtText) -> bool {
    match st {
        StmtText::Chain(ws, ops) => x matches Statement::Expression(e) && denotes_chain(e, ws, ops),
        StmtText::Break => x == Statement::Break(None),
        StmtText::CallStr(w, body) => x matches Statement::Expression(e) && denotes_str_call(e, w, body),
    }
}

/// From `p` on, the statements `sts`, one after the other, and then `}`.
pub open spec fn statements_written(s: Seq<char>, p: int, sts: Seq<StmtText>) -> bool
    decreases sts.len(),
{
    if sts.len() == 0 {
        next_char(s, p) == Some('}')
    } else {
        &&& stmt_written(s, p, sts[0])
        &&& statements_written(s, stmt_end(s, p, sts[0]), sts.drop_first())
    }
}

/// Where the `}` after the statements written from `p` ends.
pub open spec fn statements_end(s: Seq<char>, p: int, sts: Seq<StmtText>) -> int
    decreases sts.len(),
{
    if sts.len() == 0 {
        ws_skip(s, p) + 1
    } else {
        statements_end(s, stmt_end(s, p, sts[0]), sts.drop_first())
    }
}

/// After whitespace, a block opens at `pos` whose statements are `sts`.
pub open spec fn block_written(s: Seq<char>, pos: int, sts: Seq<StmtText>) -> bool {
    next_char(s, pos) == Some('{') && statements_written(s, ws_skip(s, pos) + 1, sts)
}

/// A chain written at `p` starts with the first character of its first
/// word, which neither closes a block nor is whitespace.
proof fn lemma_chain_first_char(s: Seq<char>, p: int, ws: Seq<Seq<char>>, ops: Seq<BinaryOperator>)
    requires
        0 <= p <= s.len(),
        valid_chain(ws, ops),
        chain_written(s, p, ws, ops),
    ensures
        next_char(s, p) == Some(ws[0][0]),
        ws[0][0] != '}',
        chain_end(s, p, ws, ops) <= s.len(),
        p <= ws_skip(s, p),
{
    lemma_chain_split(s, p, ws, ops);
    lemma_word_operand_written(s, p);
    crate::parser::lemma_ws_skip_end(s, p);
    lemma_next_char_at(s, p, ws_skip(s, p));
    crate::parser::chains::lemma_operand_word_chars(ws[0]);
}

/// `{ statement* }`
pub fn handle_block_expression(cs: &Vec<char>, pos: usize, strict: bool) -> (r: Result<Parsed<Block>, ParseError>)
    requires
        pos <= cs@.len(),
    ensures
        r matches Ok(p) ==> pos < p.end <= cs@.len(),
        !strict ==> (r matches Err(e) ==> is_syntax_error(e)),
        forall|chs: Seq<StmtText>| #[trigger] block_written(cs@, pos as int, chs) ==> (r matches Ok(p)
            && p.end == statements_end(cs@, ws_skip(cs@, pos as int) + 1, chs) && p.value.statements@.len() == chs.len()
            && forall|i: int| 0 <= i < chs.len() ==> denotes_stmt(#[trigger] p.value.statements@[i], chs[i])),
    decreases cs@.len() - pos, 0nat,
{
    proof {
        reveal_strlit("{");
        reveal_strlit("}");
        assert("{"@ =~= seq!['{']);
        assert("}"@ =~= seq!['}']);
        crate::parser::lemma_ws_skip_end(cs@, pos as int);
        lemma_next_char_at(cs@, pos as int, ws_skip(cs@, pos as int));
    }
    proof {
        assert forall|chs: Seq<StmtText>| #[trigger] block_written(cs@, pos as int, chs) implies ws_skip(
            cs@,
            pos as int,
        ) + 1 <= cs@.len() && cs@.subrange(ws_skip(cs@, pos as int), ws_skip(cs@, pos as int) + 1) == "{"@ by {
            let a = ws_skip(cs@, pos as int);
            assert(cs@.subrange(a, a + 1) =~= seq!['{']);
        }
    }
    let mut cur = match symbol(cs, pos, "{") {
        Some(q) => q,
        None => {
            return Err(ParseError::UnexpectedInput(pos));
        },
    };
    let ghost start = cur as int;
    let mut block = Block::new();
    proof {
        assert forall|chs: Seq<StmtText>| #[trigger] block_written(cs@, pos as int, chs) implies chs.skip(0)
            == chs by {
            assert(chs.skip(0) =~= chs);
        }
    }
    loop
        invariant
            pos < cur <= cs@.len(),
            start == ws_skip(cs@, pos as int) + 1,
            forall|chs: Seq<StmtText>| #[trigger] block_written(cs@, pos as int, chs) ==> {
                &&& block.statements@.len() <= chs.len()
                &&& statements_written(cs@, cur as int, chs.skip(block.statements@.len() as int))
                &&& statements_end(cs@, cur as int, chs.skip(block.statements@.len() as int)) == statements_end(cs@, start, chs)
                &&& forall|i: int| 0 <= i < block.statements@.len() ==> denotes_stmt(#[trigger] block.statements@[i], chs[i])
            },
        decreases cs@.len() - cur,
    {
        let ghost k = block.statements@.len() as int;
        let ghost stmts0 = block.statements@;
        proof {
            reveal_strlit("}");
            assert("}"@ =~= seq!['}']);
            assert forall|chs: Seq<StmtText>| #[trigger] block_written(cs@, pos as int, chs) && k < chs.len()
                implies next_char(cs@, cur as int) != Some('}') && chs.skip(k)[0] == chs[k] && chs.skip(k).drop_first() == chs.skip(k + 1) by {
                assert(chs.skip(k)[0] == chs[k]);
                assert(chs.skip(k).drop_first() =~= chs.skip(k + 1));
                match chs[k] {
                    StmtText::Chain(ws, ops) => {
                        lemma_chain_first_char(cs@, cur as int, ws, ops);
                    },
                    StmtText::Break => {
                        crate::parser::lemma_word_first_char(cs@, cur as int, seq!['b', 'r', 'e', 'a', 'k']);
                    },
                    StmtText::CallStr(w, body) => {
                        lemma_word_operand_written(cs@, cur as int);
                        crate::parser::lemma_ws_skip_end(cs@, cur as int);
                        lemma_next_char_at(cs@, cur as int, ws_skip(cs@, cur as int));
                    },
                }
            }
            assert forall|chs: Seq<StmtText>| #[trigger] block_written(cs@, pos as int, chs) && k == chs.len()
                implies chs.skip(k).len() == 0 && next_char(cs@, cur as int) == Some('}') && ws_skip(cs@, cur as int) + 1
                == statements_end(cs@, start, chs) && ws_skip(cs@, cur as int) + 1 <= cs@.len() && cs@.subrange(
                ws_skip(cs@, cur as int),
                ws_skip(cs@, cur as int) + 1,
            ) == "}"@ by {
                assert(chs.skip(k).len() == 0);
                crate::parser::lemma_ws_skip_end(cs@, cur as int);
                lemma_next_char_at(cs@, cur as int, ws_skip(cs@, cur as int));
                let a = ws_skip(cs@, cur as int);
                assert(cs@.subrange(a, a + 1) =~= seq!['}']);
            }
        }
        if let Some(e) = symbol(cs, cur, "}") {
            proof {
                assert forall|chs: Seq<StmtText>| #[trigger] block_written(cs@, pos as int, chs) implies k
                    == chs.len() by {
                    if k < chs.len() {
                        assert(next_char(cs@, cur as int) != Some('}'));
                    }
                }
            }
            return Ok(Parsed { value: block, end: e });
        }
        let s = handle_statement(cs, cur, strict)?;
        block.add_statement(s.value);
        cur = s.end;
        proof {
            assert forall|chs: Seq<StmtText>| #[trigger] block_written(cs@, pos as int, chs) implies {
                &&& block.statements@.len() <= chs.len()
                &&& statements_written(cs@, cur as int, chs.skip(block.statements@.len() as int))
                &&& statements_end(cs@, cur as int, chs.skip(block.statements@.len() as int)) == statements_end(cs@, start, chs)
                &&& forall|i: int| 0 <= i < block.statements@.len() ==> denotes_stmt(#[trigger] block.statements@[i], chs[i])
            } by {
                assert(k < chs.len());
                assert forall|i: int| 0 <= i < block.statements@.len() implies denotes_stmt(#[trigger] block.statements@[i], chs[i]) by {
                    if i < k {
                        assert(block.statements@[i] == stmts0[i]);
                    }
                }
            }
        }
    }
}

/// Where the name of a `let` written at `pos` stands: after `let`, and
/// after `mut` when `m`.
pub open spec fn let_name_pos(s: Seq<char>, pos: int, m: bool) -> int {
    let a = ws_skip(s, pos) + 3;
    if m {
        ws_skip(s, a) + 3
    } else {
        a
    }
}

/// Where the `=` of a `let` is looked for: after the name `x` and the type
/// word, when there is one.
pub open spec fn let_eq_pos(s: Seq<char>, pos: int, m: bool, x: Seq<char>, tw: Option<(Seq<char>, PrimitiveType)>) -> int {
    let e1 = ws_skip(s, let_name_pos(s, pos, m)) + x.len();
    match tw {
        None => e1,
        Some(p) => ws_skip(s, ws_skip(s, e1) + 1) + p.0.len(),
    }
}

/// Where the value of a `let` starts: after the `=`.
pub open spec fn let_value_pos(s: Seq<char>, pos: int, m: bool, x: Seq<char>, tw: Option<(Seq<char>, PrimitiveType)>) -> int {
    ws_skip(s, let_eq_pos(s, pos, m, x, tw)) + 1
}

/// After whitespace, `let` at `pos`, `mut` when `m`, the name `x`, `: w`
/// when `tw` is the primitive type word `w` with its type, `=`, the chain
/// `ws`/`ops` and `;`.
pub open spec fn let_written(
    s: Seq<char>,
    pos: int,
    m: bool,
    x: Seq<char>,
    tw: Option<(Seq<char>, PrimitiveType)>,
    ws: Seq<Seq<char>>,
    ops: Seq<BinaryOperator>,
) -> bool {
    let e1 = ws_skip(s, let_name_pos(s, pos, m)) + x.len();
    let v = let_value_pos(s, pos, m, x, tw);
    &&& starts_with_word(s, pos, seq!['l', 'e', 't'])
    &&& m ==> starts_with_word(s, ws_skip(s, pos) + 3, seq!['m', 'u', 't'])
    &&& name_at(s, let_name_pos(s, pos, m), x)
    &&& match tw {
        None => true,
        Some(p) => next_char(s, e1) == Some(':') && primitive_written(s, ws_skip(s, e1) + 1, p.0, p.1),
    }
    &&& next_char(s, let_eq_pos(s, pos, m, x, tw)) == Some('=')
    &&& valid_chain(ws, ops)
    &&& chain_written(s, v, ws, ops)
    &&& next_char(s, chain_end(s, v, ws, ops)) == Some(';')
}

/// Where a `let` written at `pos` ends: after its `;`.
pub open spec fn let_end(
    s: Seq<char>,
    pos: int,
    m: bool,
    x: Seq<char>,
    tw: Option<(Seq<char>, PrimitiveType)>,
    ws: Seq<Seq<char>>,
    ops: Seq<BinaryOperator>,
) -> int {
    ws_skip(s, chain_end(s, let_value_pos(s, pos, m, x, tw), ws, ops)) + 1
}

/// `st` is the variable `x` (mutable when `m`) of the value the chain
/// `ws`/`ops` denotes, with the type `tw` names when there is one.
pub open spec fn denotes_let(st: Statement, m: bool, x: Seq<char>, tw: Option<(Seq<char>, PrimitiveType)>, ws: Seq<Seq<char>>, ops: Seq<BinaryOperator>) -> bool {
    &&& st matches Statement::Definition(d)
    &&& d.name@ == x
    &&& d.kind matches DefinitionKind::Variable(v)
    &&& v.mutable == m
    &&& denotes_chain(v.value, ws, ops)
    &&& match tw {
        None => v.ty is None,
        Some(p) => v.ty matches Some(t) && t.kind == TypeKind::Primitive(p.1),
    }
}

/// `let mut? name (: type)? = e;`
pub fn handle_let_declaration(cs: &Vec<char>, pos: usize, strict: bool) -> (r: Result<Parsed<Statement>, ParseError>)
    requires
        pos <= cs@.len(),
    ensures
        r matches Ok(p) ==> pos < p.end <= cs@.len(),
        r matches Ok(p) ==> p.value matches Statement::Definition(d) && d.kind is Variable,
        r matches Ok(p) ==> (p.value matches Statement::Definition(d) && (d.kind matches DefinitionKind::Variable(v) && {
            &&& !v.mutable ==> keyword_then_name(cs@, pos as int, seq!['l', 'e', 't'], d.name@)
            &&& v.mutable ==> exists|q: int| keyword_end(cs@, pos as int, seq!['l', 'e', 't'], q)
                && keyword_then_name(cs@, q, seq!['m', 'u', 't'], d.name@)
        })),
        forall|m: bool, x: Seq<char>, tw: Option<(Seq<char>, PrimitiveType)>, ws: Seq<Seq<char>>, ops: Seq<BinaryOperator>|
            #[trigger] let_written(cs@, pos as int, m, x, tw, ws, ops) ==> (r matches Ok(p) && p.end == let_end(cs@, pos as int, m, x, tw, ws, ops)
            && denotes_let(p.value, m, x, tw, ws, ops)),
        !strict ==> (r matches Err(e) ==> is_syntax_error(e)),
    decreases cs@.len() - pos, 3nat,
{
    proof {
        reveal_strlit("let");
        reveal_strlit("mut");
        reveal_strlit(":");
        reveal_strlit("=");
        reveal_strlit(";");
        assert("let"@ =~= seq!['l', 'e', 't']);
        assert("mut"@ =~= seq!['m', 'u', 't']);
        assert(":"@ =~= seq![':']);
        assert("="@ =~= seq!['=']);
        assert(";"@ =~= seq![';']);
    }
    let q = match keyword(cs, pos, "let") {
        Some(q) => q,
        None => {
            return Err(ParseError::UnexpectedInput(pos));
        },
    };
    proof {
        crate::parser::items::lemma_keyword_skip(cs@, pos as int, "let"@, q as int);
        assert forall|m: bool, x: Seq<char>, tw: Option<(Seq<char>, PrimitiveType)>, ws: Seq<Seq<char>>, ops: Seq<BinaryOperator>|
            #[trigger] let_written(cs@, pos as int, m, x, tw, ws, ops) && !m implies !starts_with_word(cs@, q as int, seq!['m', 'u', 't']) by {
            lemma_name_at_no_keyword(cs@, q as int, x, seq!['m', 'u', 't']);
        }
    }
    let (mutable, q1) = match keyword(cs, q, "mut") {
        Some(q2) => (true, q2),
        None => (false, q),
    };
    proof {
        if mutable {
            crate::parser::items::lemma_keyword_skip(cs@, q as int, "mut"@, q1 as int);
        }
        assert forall|m: bool, x: Seq<char>, tw: Option<(Seq<char>, PrimitiveType)>, ws: Seq<Seq<char>>, ops: Seq<BinaryOperator>|
            #[trigger] let_written(cs@, pos as int, m, x, tw, ws, ops) implies m == mutable && q1 == let_name_pos(cs@, pos as int, m) by {
        }
    }
    let (name, q2) = match identifier(cs, q1) {
        Some(x) => x,
        None => {
            return Err(ParseError::UnexpectedInput(q1));
        },
    };
    proof {
        if mutable {
            lemma_keyword_then_name(cs@, q as int, "mut"@, q1 as int, name@, q2 as int);
            assert(keyword_end(cs@, pos as int, seq!['l', 'e', 't'], q as int));
        } else {
            lemma_keyword_then_name(cs@, pos as int, "let"@, q as int, name@, q2 as int);
        }
    }
    let q = q2;
    proof {
        lemma_next_char_skip(cs@, q as int);
    }
    let (ty, q) = match symbol(cs, q, ":") {
        Some(q2) => {
            let t = handle_type_expression(cs, q2, strict)?;
            (Some(t.value), t.end)
        },
        None => (None, q),
    };
    proof {
        lemma_next_char_skip(cs@, q as int);
    }
    let q = match symbol(cs, q, "=") {
        Some(q2) => q2,
        None => {
            return Err(ParseError::UnexpectedInput(q));
        },
    };
    let v = handle_expression(cs, q, strict)?;
    proof {
        lemma_next_char_skip(cs@, v.end as int);
    }
    let e = match symbol(cs, v.end, ";") {
        Some(e) => e,
        None => {
            return Err(ParseError::UnexpectedInput(v.end));
        },
    };
    Ok(Parsed { value: Statement::Definition(Definition::variable(name, v.value, mutable, ty)), end: e })
}

/// A statement: `let`, `return e?;`, `break label?;`, `continue;`, or an
/// expression with an optional `;`. A `const` or an import inside a block is
/// read and refused: as not supported with `strict`, else as unexpected
/// input at its start.
pub fn handle_statement(cs: &Vec<char>, pos: usize, strict: bool) -> (r: Result<Parsed<Statement>, ParseError>)
    requires
        pos <= cs@.len(),
    ensures
        r matches Ok(p) ==> pos < p.end <= cs@.len(),
        !strict ==> (r matches Err(e) ==> is_syntax_error(e)),
        r matches Ok(p) ==> (starts_with_word(cs@, pos as int, seq!['l', 'e', 't']) ==> p.value is Definition),
        r matches Ok(p) ==> (starts_with_word(cs@, pos as int, seq!['r', 'e', 't', 'u', 'r', 'n']) ==> p.value is Return),
        r matches Ok(p) ==> (starts_with_word(cs@, pos as int, seq!['b', 'r', 'e', 'a', 'k']) ==> p.value is Break),
        r matches Ok(p) ==> (starts_with_word(cs@, pos as int, seq!['c', 'o', 'n', 't', 'i', 'n', 'u', 'e']) ==> p.value
            is Continue),
        starts_with_word(cs@, pos as int, seq!['c', 'o', 'n', 's', 't']) || starts_with_word(
            cs@,
            pos as int,
            seq!['h', 'e', 'a', 'd', 'e', 'r'],
        ) || starts_with_word(cs@, pos as int, seq!['i', 'm', 'p', 'o', 'r', 't']) ==> r is Err,
        r matches Ok(p) ==> (!starts_with_word(cs@, pos as int, seq!['l', 'e', 't'])
            && !starts_with_word(cs@, pos as int, seq!['r', 'e', 't', 'u', 'r', 'n'])
            && !starts_with_word(cs@, pos as int, seq!['b', 'r', 'e', 'a', 'k'])
            && !starts_with_word(cs@, pos as int, seq!['c', 'o', 'n', 't', 'i', 'n', 'u', 'e'])
            && !starts_with_word(cs@, pos as int, seq!['c', 'o', 'n', 's', 't'])
            && !starts_with_word(cs@, pos as int, seq!['h', 'e', 'a', 'd', 'e', 'r'])
            && !starts_with_word(cs@, pos as int, seq!['i', 'm', 'p', 'o', 'r', 't']) ==> p.value is Expression),
        forall|ws: Seq<Seq<char>>, ops: Seq<BinaryOperator>| valid_chain(ws, ops) && #[trigger] chain_written(cs@, pos as int, ws, ops)
            ==> (r matches Ok(p) && p.value matches Statement::Expression(x) && denotes_chain(x, ws, ops) && p.end == after_semicolon(
            cs@,
            chain_end(cs@, pos as int, ws, ops),
        )),
        stmt_written(cs@, pos as int, StmtText::Break) ==> (r matches Ok(p) && p.value == Statement::Break(None) && p.end == stmt_end(
            cs@,
            pos as int,
            StmtText::Break,
        )),
        forall|w: Seq<char>, body: Seq<char>| operand_word(w) && word_written(cs@, pos as int, w) && #[trigger] str_call_written(
            cs@,
            ws_skip(cs@, pos as int) + w.len(),
            body,
        ) ==> (r matches Ok(p) && p.value matches Statement::Expression(x) && denotes_str_call(x, w, body) && p.end == after_semicolon(
            cs@,
            str_call_end(cs@, ws_skip(cs@, pos as int) + w.len()),
        )),
    decreases cs@.len() - pos, 4nat,
{
    proof {
        assert forall|ws: Seq<Seq<char>>, ops: Seq<BinaryOperator>| valid_chain(ws, ops) && #[trigger] chain_written(cs@, pos as int, ws, ops)
            implies {
            &&& !starts_with_word(cs@, pos as int, seq!['l', 'e', 't'])
            &&& !starts_with_word(cs@, pos as int, seq!['r', 'e', 't', 'u', 'r', 'n'])
            &&& !starts_with_word(cs@, pos as int, seq!['b', 'r', 'e', 'a', 'k'])
            &&& !starts_with_word(cs@, pos as int, seq!['c', 'o', 'n', 't', 'i', 'n', 'u', 'e'])
            &&& !starts_with_word(cs@, pos as int, seq!['c', 'o', 'n', 's', 't'])
            &&& !starts_with_word(cs@, pos as int, seq!['h', 'e', 'a', 'd', 'e', 'r'])
            &&& !starts_with_word(cs@, pos as int, seq!['i', 'm', 'p', 'o', 'r', 't'])
        } by {
            lemma_chain_split(cs@, pos as int, ws, ops);
            let w = ws[0];
            lemma_operand_not_keyword(cs@, pos as int, w, seq!['l', 'e', 't']);
            lemma_operand_not_keyword(cs@, pos as int, w, seq!['r', 'e', 't', 'u', 'r', 'n']);
            lemma_operand_not_keyword(cs@, pos as int, w, seq!['b', 'r', 'e', 'a', 'k']);
            lemma_operand_not_keyword(cs@, pos as int, w, seq!['c', 'o', 'n', 't', 'i', 'n', 'u', 'e']);
            lemma_operand_not_keyword(cs@, pos as int, w, seq!['c', 'o', 'n', 's', 't']);
            lemma_operand_not_keyword(cs@, pos as int, w, seq!['h', 'e', 'a', 'd', 'e', 'r']);
            lemma_operand_not_keyword(cs@, pos as int, w, seq!['i', 'm', 'p', 'o', 'r', 't']);
        }
    }
    proof {
        assert forall|w: Seq<char>, body: Seq<char>| operand_word(w) && word_written(cs@, pos as int, w) && #[trigger] str_call_written(
            cs@,
            ws_skip(cs@, pos as int) + w.len(),
            body,
        ) implies {
            &&& !starts_with_word(cs@, pos as int, seq!['l', 'e', 't'])
            &&& !starts_with_word(cs@, pos as int, seq!['r', 'e', 't', 'u', 'r', 'n'])
            &&& !starts_with_word(cs@, pos as int, seq!['b', 'r', 'e', 'a', 'k'])
            &&& !starts_with_word(cs@, pos as int, seq!['c', 'o', 'n', 't', 'i', 'n', 'u', 'e'])
            &&& !starts_with_word(cs@, pos as int, seq!['c', 'o', 'n', 's', 't'])
            &&& !starts_with_word(cs@, pos as int, seq!['h', 'e', 'a', 'd', 'e', 'r'])
            &&& !starts_with_word(cs@, pos as int, seq!['i', 'm', 'p', 'o', 'r', 't'])
        } by {
            lemma_operand_not_keyword(cs@, pos as int, w, seq!['l', 'e', 't']);
            lemma_operand_not_keyword(cs@, pos as int, w, seq!['r', 'e', 't', 'u', 'r', 'n']);
            lemma_operand_not_keyword(cs@, pos as int, w, seq!['b', 'r', 'e', 'a', 'k']);
            lemma_operand_not_keyword(cs@, pos as int, w, seq!['c', 'o', 'n', 't', 'i', 'n', 'u', 'e']);
            lemma_operand_not_keyword(cs@, pos as int, w, seq!['c', 'o', 'n', 's', 't']);
            lemma_operand_not_keyword(cs@, pos as int, w, seq!['h', 'e', 'a', 'd', 'e', 'r']);
            lemma_operand_not_keyword(cs@, pos as int, w, seq!['i', 'm', 'p', 'o', 'r', 't']);
        }
    }
    proof {
        reveal_strlit("let");
        reveal_strlit("return");
        reveal_strlit("break");
        reveal_strlit("continue");
        reveal_strlit("const");
        reveal_strlit("header");
        reveal_strlit("import");
        assert("let"@ =~= seq!['l', 'e', 't']);
        assert("return"@ =~= seq!['r', 'e', 't', 'u', 'r', 'n']);
        assert("break"@ =~= seq!['b', 'r', 'e', 'a', 'k']);
        assert("continue"@ =~= seq!['c', 'o', 'n', 't', 'i', 'n', 'u', 'e']);
        assert("const"@ =~= seq!['c', 'o', 'n', 's', 't']);
        assert("header"@ =~= seq!['h', 'e', 'a', 'd', 'e', 'r']);
        assert("import"@ =~= seq!['i', 'm', 'p', 'o', 'r', 't']);
    }
    if keyword(cs, pos, "let").is_some() {
        return handle_let_declaration(cs, pos, strict);
    }
    if let Some(q) = keyword(cs, pos, "return") {
        if let Some(e) = symbol(cs, q, ";") {
            return Ok(Parsed { value: Statement::Return(None), end: e });
        }
        // a value that cannot be built makes the statement return nothing
        let (value, end) = match handle_expression(cs, q, strict) {
            Ok(x) => (Some(x.value), x.end),
            Err(e) => {
                if syntax_error(&e) {
                    return Err(e);
                }
                match handle_expression(cs, q, false) {
                    Ok(x) => (None, x.end),
                    Err(e2) => {
                        return Err(e2);
                    },
                }
            },
        };
        return match symbol(cs, end, ";") {
            Some(e) => Ok(Parsed { value: Statement::Return(value), end: e }),
            None => Err(ParseError::UnexpectedInput(end)),
        };
    }
    if let Some(q) = keyword(cs, pos, "break") {
        proof {
            crate::parser::items::lemma_keyword_skip(cs@, pos as int, "break"@, q as int);
            reveal_strlit(";");
            assert(";"@ =~= seq![';']);
            lemma_next_char_skip(cs@, q as int);
        }
        let (label, q2) = match identifier(cs, q) {
            Some((l, e)) => {
                proof {
                    crate::parser::lemma_word_after_first_char(cs@, q as int, l@);
                }
                (Some(l), e)
            },
            None => (None, q),
        };
        return match symbol(cs, q2, ";") {
            Some(e) => Ok(Parsed { value: Statement::Break(label), end: e }),
            None => Err(ParseError::UnexpectedInput(q2)),
        };
    }
    if let Some(q) = keyword(cs, pos, "continue") {
        return match symbol(cs, q, ";") {
            Some(e) => Ok(Parsed { value: Statement::Continue, end: e }),
            None => Err(ParseError::UnexpectedInput(q)),
        };
    }
    if let Some(q) = keyword(cs, pos, "const") {
        let (_, q2) = match identifier(cs, q) {
            Some(x) => x,
            None => {
                return Err(ParseError::UnexpectedInput(q));
            },
        };
        let q3 = match symbol(cs, q2, ":") {
            Some(c) => match handle_type_expression(cs, c, false) {
                Ok(t) => t.end,
                Err(e) => {
                    return Err(e);
                },
            },
            None => q2,
        };
        let q4 = match symbol(cs, q3, "=") {
            Some(x) => x,
            None => {
                return Err(ParseError::UnexpectedInput(q3));
            },
        };
        let v = handle_expression(cs, q4, false)?;
        return match symbol(cs, v.end, ";") {
            Some(_) => if strict {
                Err(ParseError::Unsupported(pos))
            } else {
                Err(ParseError::UnexpectedInput(pos))
            },
            None => Err(ParseError::UnexpectedInput(v.end)),
        };
    }
    let imp = if let Some(q) = keyword(cs, pos, "header") {
        Some(q)
    } else {
        keyword(cs, pos, "import")
    };
    if let Some(q) = imp {
        let paths = handle_import_path(cs, q, false)?;
        return match symbol(cs, paths.end, ";") {
            Some(_) => if strict {
                Err(ParseError::Unsupported(pos))
            } else {
                Err(ParseError::UnexpectedInput(pos))
            },
            None => Err(ParseError::UnexpectedInput(paths.end)),
        };
    }
    let x = handle_expression(cs, pos, strict)?;
    proof {
        reveal_strlit(";");
        assert(";"@ =~= seq![';']);
        lemma_after_semicolon(cs@, x.end as int);
    }
    let end = match symbol(cs, x.end, ";") {
        Some(e) => e,
        None => x.end,
    };
    Ok(Parsed { value: Statement::Expression(x.value), end })
}

} // verus!
