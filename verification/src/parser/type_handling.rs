use vstd::prelude::*;
use crate::ast::{Definition, DefinitionKind, Visibility};
use crate::general::path::{QualifiedName, QualifiedNameSegment};
use crate::general::types::{PrimitiveType, Type, TypeKind, VariantType};
use crate::numbers::{all_digits, parse_usize, spec_parse_usize};
use crate::parser::{
    ParseError, Parsed, identifier, keyword, keyword_then_name, lemma_keyword_then_name, starts_with_word, symbol, word,
    word_after, word_is, ws_end, word_at, ws_skip, next_char, lemma_ws_skip_end, is_ident_start,
};
use crate::parser::chains::{is_name, word_written, lt_word_written, template_fails, segment_written, valid_path, path_text, path_written, double_colon_at, lemma_path_text_prefix, lemma_path_text_len};
use crate::parser::items::{handle_params, params_written, params_end, is_param, lemma_keyword_skip};
use crate::text::string_of;

verus! {

/// Whether the error says only that the text does not have the expected
/// form here (another alternative of the grammar may still match).
pub open spec fn is_syntax_error(e: ParseError) -> bool {
    e is UnexpectedInput
}

pub fn syntax_error(e: &ParseError) -> (r: bool)
    ensures
        r == is_syntax_error(*e),
{
    match e {
        ParseError::UnexpectedInput(_) => true,
        _ => false,
    }
}

/// The primitive type that the word `w` names: `bool`, `int`, `uint`,
/// `float`, `string`, `void`, or `i`, `u`, `f` followed by a decimal width.
/// `Some(None)` is a width that does not fit in a `usize`; `None` a word
/// that names no primitive type.
pub open spec fn spec_primitive(w: Seq<char>) -> Option<Option<PrimitiveType>> {
    if w == seq!['b', 'o', 'o', 'l'] {
        Some(Some(PrimitiveType::Bool))
    } else if w == seq!['i', 'n', 't'] {
        Some(Some(PrimitiveType::Int(32)))
    } else if w == seq!['u', 'i', 'n', 't'] {
        Some(Some(PrimitiveType::Uint(32)))
    } else if w == seq!['f', 'l', 'o', 'a', 't'] {
        Some(Some(PrimitiveType::Float(32)))
    } else if w == seq!['s', 't', 'r', 'i', 'n', 'g'] {
        Some(Some(PrimitiveType::String))
    } else if w == seq!['v', 'o', 'i', 'd'] {
        Some(Some(PrimitiveType::Void))
    } else if w.len() >= 2 && (w[0] == 'i' || w[0] == 'u' || w[0] == 'f') && all_digits(w.drop_first()) {
        Some(
            match spec_parse_usize(w.drop_first()) {
                Some(n) => Some(
                    if w[0] == 'i' {
                        PrimitiveType::Int(n)
                    } else if w[0] == 'u' {
                        PrimitiveType::Uint(n)
                    } else {
                        PrimitiveType::Float(n)
                    },
                ),
                None => None,
            },
        )
    } else {
        None
    }
}

fn digits_in(cs: &Vec<char>, from: usize, to: usize) -> (r: bool)
    requires
        from <= to <= cs@.len(),
    ensures
        r == all_digits(cs@.subrange(from as int, to as int)),
{
    let ghost w = cs@.subrange(from as int, to as int);
    let mut i = from;
    while i < to
        invariant
            from <= i <= to <= cs@.len(),
            w == cs@.subrange(from as int, to as int),
            forall|j: int| from <= j < i ==> crate::numbers::is_digit(#[trigger] cs@[j]),
        decreases to - i,
    {
        if !('0' <= cs[i] && cs[i] <= '9') {
            assert(w[i - from] == cs@[i as int]);
            assert(!crate::numbers::is_digit(w[i - from]));
            return false;
        }
        i += 1;
    }
    assert forall|j: int| 0 <= j < w.len() implies crate::numbers::is_digit(#[trigger] w[j]) by {
        assert(w[j] == cs@[from + j]);
    }
    true
}

/// The primitive type named by `cs[a..b]` (see `spec_primitive`).
pub fn primitive_word(cs: &Vec<char>, a: usize, b: usize) -> (r: Option<Option<PrimitiveType>>)
    requires
        a <= b <= cs@.len(),
    ensures
        r == spec_primitive(cs@.subrange(a as int, b as int)),
{
    let ghost w = cs@.subrange(a as int, b as int);
    proof {
        reveal_strlit("bool");
        reveal_strlit("int");
        reveal_strlit("uint");
        reveal_strlit("float");
        reveal_strlit("string");
        reveal_strlit("void");
        assert("bool"@ =~= seq!['b', 'o', 'o', 'l']);
        assert("int"@ =~= seq!['i', 'n', 't']);
        assert("uint"@ =~= seq!['u', 'i', 'n', 't']);
        assert("float"@ =~= seq!['f', 'l', 'o', 'a', 't']);
        assert("string"@ =~= seq!['s', 't', 'r', 'i', 'n', 'g']);
        assert("void"@ =~= seq!['v', 'o', 'i', 'd']);
    }
    if word_is(cs, a, b, "bool") {
        return Some(Some(PrimitiveType::Bool));
    }
    if word_is(cs, a, b, "int") {
        return Some(Some(PrimitiveType::Int(32)));
    }
    if word_is(cs, a, b, "uint") {
        return Some(Some(PrimitiveType::Uint(32)));
    }
    if word_is(cs, a, b, "float") {
        return Some(Some(PrimitiveType::Float(32)));
    }
    if word_is(cs, a, b, "string") {
        return Some(Some(PrimitiveType::String));
    }
    if word_is(cs, a, b, "void") {
        return Some(Some(PrimitiveType::Void));
    }
    if b - a < 2 {
        return None;
    }
    let c = cs[a];
    assert(w[0] == c);
    if !(c == 'i' || c == 'u' || c == 'f') {
        return None;
    }
    assert(w.drop_first() =~= cs@.subrange(a + 1, b as int));
    if !digits_in(cs, a + 1, b) {
        return None;
    }
    match parse_usize(cs, a + 1, b) {
        Some(n) => Some(
            Some(
                if c == 'i' {
                    PrimitiveType::Int(n)
                } else if c == 'u' {
                    PrimitiveType::Uint(n)
                } else {
                    PrimitiveType::Float(n)
                },
            ),
        ),
        None => Some(None),
    }
}

/// A name written at `pos` is the whole word there, not a reserved one,
/// and starts with neither `:` nor whitespace.
proof fn lemma_name_written_is_word(s: Seq<char>, pos: int)
    requires
        0 <= pos <= s.len(),
    ensures
        forall|w: Seq<char>| is_name(w) && #[trigger] word_written(s, pos, w) ==> {
            &&& word_at(s, ws_skip(s, pos), ws_skip(s, pos) + w.len())
            &&& s.subrange(ws_skip(s, pos), ws_skip(s, pos) + w.len()) == w
            &&& !crate::parser::is_keyword(w)
            &&& next_char(s, pos) == Some(w[0])
        },
{
    lemma_ws_skip_end(s, pos);
    assert forall|w: Seq<char>| is_name(w) && #[trigger] word_written(s, pos, w) implies {
        &&& word_at(s, ws_skip(s, pos), ws_skip(s, pos) + w.len())
        &&& s.subrange(ws_skip(s, pos), ws_skip(s, pos) + w.len()) == w
        &&& !crate::parser::is_keyword(w)
        &&& next_char(s, pos) == Some(w[0])
    } by {
        let a = ws_skip(s, pos);
        assert forall|i: int| 0 <= i < w.len() implies s[a + i] == w[i] by {
            assert(s.subrange(a, a + w.len())[i] == s[a + i]);
        }
        assert(s[a] == w[0]);
        assert forall|i: int| a < i < a + w.len() implies #[trigger] crate::parser::is_ident_char(s[i]) by {
            assert(s[i] == w[i - a]);
        }
        crate::parser::lemma_next_char_at(s, pos, a);
    }
}

/// A name written before a `<` at `pos` is the whole word there, not a
/// reserved one.
proof fn lemma_lt_word_is_word(s: Seq<char>, pos: int)
    requires
        0 <= pos <= s.len(),
    ensures
        forall|w: Seq<char>, w2: Seq<char>| is_name(w) && #[trigger] lt_word_written(s, pos, w, w2) ==> {
            &&& word_at(s, ws_skip(s, pos), ws_skip(s, pos) + w.len())
            &&& s.subrange(ws_skip(s, pos), ws_skip(s, pos) + w.len()) == w
            &&& !crate::parser::is_keyword(w)
            &&& next_char(s, pos) == Some(w[0])
        },
{
    lemma_ws_skip_end(s, pos);
    assert forall|w: Seq<char>, w2: Seq<char>| is_name(w) && #[trigger] lt_word_written(s, pos, w, w2) implies {
        &&& word_at(s, ws_skip(s, pos), ws_skip(s, pos) + w.len())
        &&& s.subrange(ws_skip(s, pos), ws_skip(s, pos) + w.len()) == w
        &&& !crate::parser::is_keyword(w)
        &&& next_char(s, pos) == Some(w[0])
    } by {
        let a = ws_skip(s, pos);
        assert forall|i: int| 0 <= i < w.len() implies s[a + i] == w[i] by {
            assert(s.subrange(a, a + w.len())[i] == s[a + i]);
        }
        assert(s[a] == w[0]);
        assert forall|i: int| a < i < a + w.len() implies #[trigger] crate::parser::is_ident_char(s[i]) by {
            assert(s[i] == w[i - a]);
        }
        crate::parser::lemma_next_char_at(s, pos, a);
    }
}

/// A name written as a path segment at `pos` is the whole word there, not
/// a reserved one.
proof fn lemma_name_segment_is_word(s: Seq<char>, pos: int)
    requires
        0 <= pos <= s.len(),
    ensures
        forall|w: Seq<char>| is_name(w) && #[trigger] segment_written(s, pos, w) ==> {
            &&& word_at(s, ws_skip(s, pos), ws_skip(s, pos) + w.len())
            &&& s.subrange(ws_skip(s, pos), ws_skip(s, pos) + w.len()) == w
            &&& !crate::parser::is_keyword(w)
        },
{
    lemma_ws_skip_end(s, pos);
    assert forall|w: Seq<char>| is_name(w) && #[trigger] segment_written(s, pos, w) implies {
        &&& word_at(s, ws_skip(s, pos), ws_skip(s, pos) + w.len())
        &&& s.subrange(ws_skip(s, pos), ws_skip(s, pos) + w.len()) == w
        &&& !crate::parser::is_keyword(w)
    } by {
        let a = ws_skip(s, pos);
        assert forall|i: int| 0 <= i < w.len() implies s[a + i] == w[i] by {
            assert(s.subrange(a, a + w.len())[i] == s[a + i]);
        }
        assert(s[a] == w[0]);
        assert forall|i: int| a < i < a + w.len() implies #[trigger] crate::parser::is_ident_char(s[i]) by {
            assert(s[i] == w[i - a]);
        }
    }
}

/// `ident` or `ident<path, ...>` (template arguments): the segment; with
/// `strict`, template arguments are refused as not supported.
pub fn handle_path_ident(cs: &Vec<char>, pos: usize, strict: bool) -> (r: Result<Parsed<QualifiedNameSegment>, ParseError>)
    requires
        pos <= cs@.len(),
    ensures
        r matches Ok(p) ==> pos < p.end <= cs@.len() && p.value.template_spec@.len() == 0,
        r matches Ok(p) ==> !crate::parser::is_keyword(p.value.ident@) && word_after(cs@, pos as int, p.value.ident@),
        forall|w: Seq<char>| is_name(w) && #[trigger] word_written(cs@, pos as int, w) ==> (r matches Ok(p) && p.end
            == ws_skip(cs@, pos as int) + w.len() && p.value.ident@ == w && p.value.template_spec@.len() == 0),
        forall|w: Seq<char>| is_name(w) && #[trigger] segment_written(cs@, pos as int, w) ==> (r matches Ok(p) && p.end
            == ws_skip(cs@, pos as int) + w.len() && p.value.ident@ == w && p.value.template_spec@.len() == 0),
        !(next_char(cs@, pos as int) matches Some(c) && is_ident_start(c)) ==> r == Err::<Parsed<QualifiedNameSegment>, ParseError>(
            ParseError::UnexpectedInput(pos),
        ),
        forall|w: Seq<char>, w2: Seq<char>| is_name(w) && #[trigger] lt_word_written(cs@, pos as int, w, w2) ==> (r matches Ok(p)
            && p.end == ws_skip(cs@, pos as int) + w.len() && p.value.ident@ == w && p.value.template_spec@.len() == 0),
        !strict ==> (r matches Err(e) ==> is_syntax_error(e)),
    decreases cs@.len() - pos, 0nat,
{
    proof {
        reveal_strlit("<");
        assert("<"@ =~= seq!['<']);
        lemma_name_written_is_word(cs@, pos as int);
        lemma_name_segment_is_word(cs@, pos as int);
        lemma_lt_word_is_word(cs@, pos as int);
    }
    let (id, e) = match identifier(cs, pos) {
        Some(x) => x,
        None => {
            return Err(ParseError::UnexpectedInput(pos));
        },
    };
    proof { crate::parser::lemma_word_after_first_char(cs@, pos as int, id@); }
    let seg = QualifiedNameSegment { ident: id, template_spec: Vec::new() };
    // template arguments: "<" path ("," path)* ">"
    if let Some(q0) = symbol(cs, e, "<") {
        let mut q = q0;
        let mut ok = false;
        let ghost fails = exists|w: Seq<char>, w2: Seq<char>| is_name(w) && #[trigger] lt_word_written(cs@, pos as int, w, w2);
        let ghost pair: (Seq<char>, Seq<char>) = choose|w: Seq<char>, w2: Seq<char>| is_name(w) && #[trigger] lt_word_written(cs@, pos as int, w, w2);
        let ghost w2s = pair.1;
        proof {
            reveal_strlit(",");
            reveal_strlit(">");
            assert(","@ =~= seq![',']);
            assert(">"@ =~= seq!['>']);
            if fails {
                let w = pair.0;
                assert(e == ws_skip(cs@, pos as int) + w.len());
                assert(q0 == ws_skip(cs@, e as int) + 1);
                assert(template_fails(cs@, q0 as int, w2s));
            }
        }
        loop
            invariant_except_break
                !ok,
                fails ==> q == q0 && template_fails(cs@, q0 as int, w2s),
            invariant
                pos < e < q <= cs@.len(),
            ensures
                fails ==> !ok,
            decreases cs@.len() - q,
        {
            match handle_qualified_name(cs, q, false) {
                Ok(p) => {
                    q = p.end;
                    proof {
                        reveal_strlit(",");
                        reveal_strlit(">");
                        assert(","@ =~= seq![',']);
                        assert(">"@ =~= seq!['>']);
                        if fails {
                            assert(next_char(cs@, q0 as int) matches Some(c) && (is_ident_start(c) || c == ':'));
                            assert(is_name(w2s) && word_written(cs@, q0 as int, w2s));
                            assert(q == ws_skip(cs@, q0 as int) + w2s.len());
                        }
                    }
                    if let Some(q2) = symbol(cs, q, ",") {
                        q = q2;
                    } else {
                        if let Some(q3) = symbol(cs, q, ">") {
                            q = q3;
                            ok = true;
                        }
                        break;
                    }
                },
                Err(_) => {
                    break;
                },
            }
        }
        if ok {
            if strict {
                return Err(ParseError::Unsupported(e));
            }
            return Ok(Parsed { value: seg, end: q });
        }
    }
    Ok(Parsed { value: seg, end: e })
}

/// A path `seg::seg::...` (a leading `::` makes it relative, which
/// `strict` refuses as not supported).
pub fn handle_qualified_name(cs: &Vec<char>, pos: usize, strict: bool) -> (r: Result<Parsed<QualifiedName>, ParseError>)
    requires
        pos <= cs@.len(),
    ensures
        r matches Ok(p) ==> pos < p.end <= cs@.len() && p.value.v@.len() >= 1
            && forall|i: int| 0 <= i < p.value.v@.len() ==> (#[trigger] p.value.v@[i]).template_spec@.len() == 0,
        r is Ok ==> (next_char(cs@, pos as int) matches Some(c) && (is_ident_start(c) || c == ':')),
        forall|w: Seq<char>| is_name(w) && #[trigger] word_written(cs@, pos as int, w) ==> (r matches Ok(p) && p.end
            == ws_skip(cs@, pos as int) + w.len() && p.value.v@.len() == 1 && p.value.v@[0].ident@ == w
            && p.value.v@[0].template_spec@.len() == 0),
        forall|ws: Seq<Seq<char>>| valid_path(ws) && #[trigger] path_written(cs@, pos as int, ws) ==> (r matches Ok(p) && p.end
            == ws_skip(cs@, pos as int) + path_text(ws).len() && p.value.v@.len() == ws.len() && forall|i: int| 0 <= i < ws.len()
            ==> (#[trigger] p.value.v@[i]).ident@ == ws[i] && p.value.v@[i].template_spec@.len() == 0),
        forall|w: Seq<char>, w2: Seq<char>| is_name(w) && #[trigger] lt_word_written(cs@, pos as int, w, w2) ==> (r matches Ok(p)
            && p.end == ws_skip(cs@, pos as int) + w.len() && p.value.v@.len() == 1 && p.value.v@[0].ident@ == w
            && p.value.v@[0].template_spec@.len() == 0),
        !strict ==> (r matches Err(e) ==> is_syntax_error(e)),
    decreases cs@.len() - pos, 1nat,
{
    proof {
        reveal_strlit("::");
        assert("::"@ =~= seq![':', ':']);
        lemma_name_written_is_word(cs@, pos as int);
        lemma_lt_word_is_word(cs@, pos as int);
        assert forall|ws: Seq<Seq<char>>| valid_path(ws) && #[trigger] path_written(cs@, pos as int, ws) implies segment_written(
            cs@,
            pos as int,
            ws[0],
        ) && next_char(cs@, pos as int) == Some(ws[0][0]) && is_name(ws[0]) && path_text(ws.take(1)) == ws[0] by {
            crate::parser::chains::lemma_path_first(cs@, pos as int, ws);
        }
    }
    let mut cur = pos;
    if let Some(q) = symbol(cs, pos, "::") {
        if strict {
            return Err(ParseError::Unsupported(pos));
        }
        cur = q;
    }
    let first = handle_path_ident(cs, cur, strict)?;
    proof {
        crate::parser::lemma_word_after_first_char(cs@, cur as int, first.value.ident@);
    }
    let mut name = QualifiedName::new();
    name.add_segment(first.value);
    cur = first.end;
    loop
        invariant
            pos < cur <= cs@.len(),
            name.v@.len() >= 1,
            forall|i: int| 0 <= i < name.v@.len() ==> (#[trigger] name.v@[i]).template_spec@.len() == 0,
            forall|w: Seq<char>| is_name(w) && #[trigger] word_written(cs@, pos as int, w) ==> (cur == ws_skip(cs@, pos as int)
                + w.len() && name.v@.len() == 1 && name.v@[0].ident@ == w && name.v@[0].template_spec@.len() == 0),
            forall|w: Seq<char>, w2: Seq<char>| is_name(w) && #[trigger] lt_word_written(cs@, pos as int, w, w2) ==> (cur == ws_skip(
                cs@,
                pos as int,
            ) + w.len() && name.v@.len() == 1 && name.v@[0].ident@ == w && name.v@[0].template_spec@.len() == 0),
            forall|ws: Seq<Seq<char>>| valid_path(ws) && #[trigger] path_written(cs@, pos as int, ws) ==> (name.v@.len() <= ws.len()
                && cur == ws_skip(cs@, pos as int) + path_text(ws.take(name.v@.len() as int)).len() && forall|i: int|
                0 <= i < name.v@.len() ==> (#[trigger] name.v@[i]).ident@ == ws[i]),
        ensures
            forall|ws: Seq<Seq<char>>| valid_path(ws) && #[trigger] path_written(cs@, pos as int, ws) ==> name.v@.len() == ws.len(),
        decreases cs@.len() - cur,
    {
        proof {
            reveal_strlit("::");
            assert("::"@ =~= seq![':', ':']);
        }
        let ghost k = name.v@.len() as int;
        let ghost cur0 = cur;
        let ghost name0 = name.v@;
        proof {
            assert forall|ws: Seq<Seq<char>>| valid_path(ws) && #[trigger] path_written(cs@, pos as int, ws) && k < ws.len() implies ({
                let c = ws_skip(cs@, pos as int) + path_text(ws.take(k)).len();
                &&& double_colon_at(cs@, c)
                &&& ws_skip(cs@, c) == c
                &&& ws_skip(cs@, c + 2) == c + 2
                &&& segment_written(cs@, c + 2, ws[k])
                &&& is_name(ws[k])
                &&& c + 2 + ws[k].len() == ws_skip(cs@, pos as int) + path_text(ws.take(k + 1)).len()
            }) by {
                crate::parser::chains::lemma_path_step(cs@, pos as int, ws, k);
            }
            assert forall|ws: Seq<Seq<char>>| valid_path(ws) && #[trigger] path_written(cs@, pos as int, ws) && k == ws.len() && double_colon_at(
                cs@,
                cur as int,
            ) implies !(next_char(cs@, ws_skip(cs@, cur as int) + 2) matches Some(c) && is_ident_start(c)) by {
                assert(ws.take(k) =~= ws);
            }
        }
        match symbol(cs, cur, "::") {
            Some(q) => match handle_path_ident(cs, q, strict) {
                Ok(p) => {
                    name.add_segment(p.value);
                    cur = p.end;
                    proof {
                        assert forall|ws: Seq<Seq<char>>| valid_path(ws) && #[trigger] path_written(cs@, pos as int, ws) implies (name.v@.len() <= ws.len()
                            && cur == ws_skip(cs@, pos as int) + path_text(ws.take(name.v@.len() as int)).len() && forall|i: int|
                            0 <= i < name.v@.len() ==> (#[trigger] name.v@[i]).ident@ == ws[i]) by {
                            if k == ws.len() {
                                crate::parser::lemma_ws_skip_end(cs@, cur0 as int);
                            }
                            assert forall|i: int| 0 <= i < name.v@.len() implies (#[trigger] name.v@[i]).ident@ == ws[i] by {
                                if i < k {
                                    assert(name.v@[i] == name0[i]);
                                }
                            }
                        }
                    }
                },
                Err(e) => {
                    if syntax_error(&e) {
                        break;
                    }
                    return Err(e);
                },
            },
            None => {
                break;
            },
        }
    }
    proof {
        assert forall|ws: Seq<Seq<char>>| valid_path(ws) && #[trigger] path_written(cs@, pos as int, ws) implies path_text(
            ws.take(name.v@.len() as int),
        ) == path_text(ws) by {
            assert(ws.take(name.v@.len() as int) =~= ws);
        }
    }
    Ok(Parsed { value: name, end: cur })
}

/// After whitespace, the name `w` (no reserved word) is the whole word at
/// `p`.
pub open spec fn name_at(s: Seq<char>, p: int, w: Seq<char>) -> bool {
    &&& word_at(s, ws_skip(s, p), ws_skip(s, p) + w.len())
    &&& s.subrange(ws_skip(s, p), ws_skip(s, p) + w.len()) == w
    &&& !crate::parser::is_keyword(w)
}

/// Where a name stands, no keyword starts: the word there is the name.
pub proof fn lemma_name_at_no_keyword(s: Seq<char>, p: int, w: Seq<char>, kw: Seq<char>)
    requires
        0 <= p <= s.len(),
        name_at(s, p, w),
        crate::parser::is_keyword(kw),
        kw.len() > 0,
        forall|i: int| 0 <= i < kw.len() ==> #[trigger] crate::parser::is_ident_char(kw[i]),
    ensures
        !starts_with_word(s, p, kw),
{
    if starts_with_word(s, p, kw) {
        let q = choose|q: int| #![trigger ws_end(s, p, q)] ws_end(s, p, q) && q + kw.len() <= s.len() && s.subrange(q, q + kw.len()) == kw
            && (q + kw.len() == s.len() || !crate::parser::is_ident_char(s[q + kw.len()]));
        crate::parser::lemma_ws_skip(s, p, q);
        assert forall|i: int| q < i < q + kw.len() implies #[trigger] crate::parser::is_ident_char(s[i]) by {
            assert(s.subrange(q, q + kw.len())[i - q] == s[i]);
        }
        assert(word_at(s, q, q + kw.len()));
        crate::parser::lemma_word_end_unique(s, q, q + w.len(), q + kw.len());
        assert(w =~= kw);
    }
}

/// From `p` on, the names of `ns` are written separated by `,`, and `>`
/// follows the last (or comes at once, when there are none).
pub open spec fn template_names_written(s: Seq<char>, p: int, ns: Seq<Seq<char>>) -> bool
    decreases ns.len(),
{
    if ns.len() == 0 {
        next_char(s, p) == Some('>')
    } else {
        &&& name_at(s, p, ns[0])
        &&& if ns.len() == 1 {
            next_char(s, ws_skip(s, p) + ns[0].len()) == Some('>')
        } else {
            &&& next_char(s, ws_skip(s, p) + ns[0].len()) == Some(',')
            &&& template_names_written(s, ws_skip(s, ws_skip(s, p) + ns[0].len()) + 1, ns.drop_first())
        }
    }
}

/// Where the `>` after the names written from `p` ends.
pub open spec fn template_names_end(s: Seq<char>, p: int, ns: Seq<Seq<char>>) -> int
    decreases ns.len(),
{
    if ns.len() == 0 {
        ws_skip(s, p) + 1
    } else if ns.len() == 1 {
        ws_skip(s, ws_skip(s, p) + ns[0].len()) + 1
    } else {
        template_names_end(s, ws_skip(s, ws_skip(s, p) + ns[0].len()) + 1, ns.drop_first())
    }
}

/// After whitespace, a template definition `<T, U, ...>` of plain names is
/// at `pos`.
pub open spec fn template_written(s: Seq<char>, pos: int, ns: Seq<Seq<char>>) -> bool {
    next_char(s, pos) == Some('<') && template_names_written(s, ws_skip(s, pos) + 1, ns)
}

/// Where a template definition written at `pos` ends.
pub open spec fn template_end(s: Seq<char>, pos: int, ns: Seq<Seq<char>>) -> int {
    template_names_end(s, ws_skip(s, pos) + 1, ns)
}

/// The character `c` is next after `p` exactly when the text after the
/// whitespace there starts with it.
proof fn lemma_char_is_next(s: Seq<char>, p: int, c: char)
    requires
        0 <= p <= s.len(),
    ensures
        next_char(s, p) == Some(c) <==> (ws_skip(s, p) + 1 <= s.len() && s.subrange(ws_skip(s, p), ws_skip(s, p) + 1)
            == seq![c]),
{
    lemma_ws_skip_end(s, p);
    crate::parser::lemma_next_char_at(s, p, ws_skip(s, p));
    let a = ws_skip(s, p);
    if a + 1 <= s.len() {
        assert(s.subrange(a, a + 1)[0] == s[a]);
        if s[a] == c {
            assert(s.subrange(a, a + 1) =~= seq![c]);
        }
    }
}

/// `<T, U: path, ...>` (a trailing comma allowed): the position after it.
/// Nothing else starts with `<`; a list of plain names is read whole.
pub fn handle_template_def(cs: &Vec<char>, pos: usize) -> (r: Option<usize>)
    requires
        pos <= cs@.len(),
    ensures
        r matches Some(e) ==> pos < e <= cs@.len(),
        next_char(cs@, pos as int) != Some('<') ==> r is None,
        forall|ns: Seq<Seq<char>>| #[trigger] template_written(cs@, pos as int, ns) ==> (r matches Some(e) && e == template_end(
            cs@,
            pos as int,
            ns,
        )),
{
    proof {
        reveal_strlit("<");
        assert("<"@ =~= seq!['<']);
        lemma_char_is_next(cs@, pos as int, '<');
    }
    let mut q = match symbol(cs, pos, "<") {
        Some(q) => q,
        None => {
            return None;
        },
    };
    proof {
        assert forall|ns: Seq<Seq<char>>| #[trigger] template_written(cs@, pos as int, ns) implies ns.skip(0) == ns by {
            assert(ns.skip(0) =~= ns);
        }
    }
    let ghost start = q as int;
    loop
        invariant
            pos < q <= cs@.len(),
            start == ws_skip(cs@, pos as int) + 1,
            forall|ns: Seq<Seq<char>>| #[trigger] template_written(cs@, pos as int, ns) ==> exists|k: int| 0 <= k <= ns.len()
                && template_names_written(cs@, q as int, #[trigger] ns.skip(k)) && template_names_end(cs@, q as int, ns.skip(k))
                == template_names_end(cs@, start, ns),
        ensures
            forall|ns: Seq<Seq<char>>| #[trigger] template_written(cs@, pos as int, ns) ==> template_names_written(
                cs@,
                q as int,
                Seq::<Seq<char>>::empty(),
            ) && template_names_end(cs@, q as int, Seq::<Seq<char>>::empty()) == template_names_end(cs@, start, ns),
        decreases cs@.len() - q,
    {
        proof {
            reveal_strlit(":");
            reveal_strlit(",");
            assert(":"@ =~= seq![':']);
            assert(","@ =~= seq![',']);
            assert forall|ns: Seq<Seq<char>>| #[trigger] template_written(cs@, pos as int, ns) implies {
                let k = choose|k: int| 0 <= k <= ns.len() && template_names_written(cs@, q as int, #[trigger] ns.skip(k))
                    && template_names_end(cs@, q as int, ns.skip(k)) == template_names_end(cs@, start, ns);
                let rest = ns.skip(k);
                &&& rest.len() > 0 ==> rest[0] == ns[k] && rest.drop_first() == ns.skip(k + 1)
                &&& rest.len() > 0 ==> next_char(cs@, q as int) == Some(ns[k][0])
                &&& rest.len() == 0 ==> next_char(cs@, q as int) == Some('>')
            } by {
                let k = choose|k: int| 0 <= k <= ns.len() && template_names_written(cs@, q as int, #[trigger] ns.skip(k))
                    && template_names_end(cs@, q as int, ns.skip(k)) == template_names_end(cs@, start, ns);
                let rest = ns.skip(k);
                if rest.len() > 0 {
                    assert(rest[0] == ns[k]);
                    assert(rest.drop_first() =~= ns.skip(k + 1));
                    lemma_ws_skip_end(cs@, q as int);
                    crate::parser::lemma_next_char_at(cs@, q as int, ws_skip(cs@, q as int));
                    assert(cs@.subrange(ws_skip(cs@, q as int), ws_skip(cs@, q as int) + ns[k].len())[0] == cs@[ws_skip(cs@, q as int)]);
                }
            }
        }
        match identifier(cs, q) {
            Some((_, e)) => {
                let ghost q0 = q as int;
                q = e;
                proof {
                    lemma_char_is_next(cs@, q as int, ',');
                    lemma_char_is_next(cs@, q as int, '>');
                    assert forall|ns: Seq<Seq<char>>| #[trigger] template_written(cs@, pos as int, ns) implies exists|k: int| 0 <= k <= ns.len()
                        && template_names_written(cs@, q0, #[trigger] ns.skip(k)) && template_names_end(cs@, q0, ns.skip(k))
                        == template_names_end(cs@, start, ns) && ns.skip(k).len() > 0 && e == ws_skip(cs@, q0) + ns[k].len() by {
                        let k = choose|k: int| 0 <= k <= ns.len() && template_names_written(cs@, q0, #[trigger] ns.skip(k))
                            && template_names_end(cs@, q0, ns.skip(k)) == template_names_end(cs@, start, ns);
                        let rest = ns.skip(k);
                        if rest.len() == 0 {
                            assert(next_char(cs@, q0) == Some('>'));
                            lemma_ws_skip_end(cs@, q0);
                            crate::parser::lemma_next_char_at(cs@, q0, ws_skip(cs@, q0));
                            crate::parser::lemma_ws_end_unique(cs@, q0, ws_skip(cs@, q0));
                        } else {
                            assert(rest[0] == ns[k]);
                            assert(word_at(cs@, ws_skip(cs@, q0), ws_skip(cs@, q0) + ns[k].len()));
                            crate::parser::lemma_word_end_unique(cs@, ws_skip(cs@, q0), ws_skip(cs@, q0) + ns[k].len(), e as int);
                            lemma_ws_skip_end(cs@, q0);
                            crate::parser::lemma_ws_end_unique(cs@, q0, ws_skip(cs@, q0));
                        }
                    }
                }
                if let Some(c) = symbol(cs, q, ":") {
                    proof {
                        assert forall|ns: Seq<Seq<char>>| #[trigger] template_written(cs@, pos as int, ns) implies false by {
                            let k = choose|k: int| 0 <= k <= ns.len() && template_names_written(cs@, q0, #[trigger] ns.skip(k))
                                && template_names_end(cs@, q0, ns.skip(k)) == template_names_end(cs@, start, ns) && ns.skip(k).len() > 0
                                && e == ws_skip(cs@, q0) + ns[k].len();
                            assert(ns.skip(k)[0] == ns[k]);
                        }
                    }
                    match handle_qualified_name(cs, c, false) {
                        Ok(p) => {
                            q = p.end;
                        },
                        Err(_) => {
                            return None;
                        },
                    }
                }
                match symbol(cs, q, ",") {
                    Some(c) => {
                        q = c;
                        proof {
                            assert forall|ns: Seq<Seq<char>>| #[trigger] template_written(cs@, pos as int, ns) implies exists|k: int| 0 <= k
                                <= ns.len() && template_names_written(cs@, q as int, #[trigger] ns.skip(k)) && template_names_end(
                                cs@,
                                q as int,
                                ns.skip(k),
                            ) == template_names_end(cs@, start, ns) by {
                                let k = choose|k: int| 0 <= k <= ns.len() && template_names_written(cs@, q0, #[trigger] ns.skip(k))
                                    && template_names_end(cs@, q0, ns.skip(k)) == template_names_end(cs@, start, ns) && ns.skip(k).len() > 0
                                    && e == ws_skip(cs@, q0) + ns[k].len();
                                let rest = ns.skip(k);
                                assert(rest[0] == ns[k]);
                                assert(rest.drop_first() =~= ns.skip(k + 1));
                                if rest.len() == 1 {
                                    assert(next_char(cs@, e as int) == Some('>'));
                                }
                                assert(template_names_written(cs@, q as int, ns.skip(k + 1)));
                            }
                        }
                    },
                    None => {
                        proof {
                            assert forall|ns: Seq<Seq<char>>| #[trigger] template_written(cs@, pos as int, ns) implies template_names_written(
                                cs@,
                                q as int,
                                Seq::<Seq<char>>::empty(),
                            ) && template_names_end(cs@, q as int, Seq::<Seq<char>>::empty()) == template_names_end(cs@, start, ns) by {
                                let k = choose|k: int| 0 <= k <= ns.len() && template_names_written(cs@, q0, #[trigger] ns.skip(k))
                                    && template_names_end(cs@, q0, ns.skip(k)) == template_names_end(cs@, start, ns) && ns.skip(k).len() > 0
                                    && e == ws_skip(cs@, q0) + ns[k].len();
                                let rest = ns.skip(k);
                                assert(rest[0] == ns[k]);
                                if rest.len() > 1 {
                                    assert(next_char(cs@, e as int) == Some(','));
                                }
                            }
                        }
                        break;
                    },
                }
            },
            None => {
                proof {
                    assert forall|ns: Seq<Seq<char>>| #[trigger] template_written(cs@, pos as int, ns) implies template_names_written(
                        cs@,
                        q as int,
                        Seq::<Seq<char>>::empty(),
                    ) && template_names_end(cs@, q as int, Seq::<Seq<char>>::empty()) == template_names_end(cs@, start, ns) by {
                        let k = choose|k: int| 0 <= k <= ns.len() && template_names_written(cs@, q as int, #[trigger] ns.skip(k))
                            && template_names_end(cs@, q as int, ns.skip(k)) == template_names_end(cs@, start, ns);
                        let rest = ns.skip(k);
                        if rest.len() > 0 {
                            assert(rest[0] == ns[k]);
                            assert(word_at(cs@, ws_skip(cs@, q as int), ws_skip(cs@, q as int) + ns[k].len()));
                        } else {
                            assert(rest =~= Seq::<Seq<char>>::empty());
                        }
                    }
                }
                break;
            },
        }
    }
    proof {
        reveal_strlit(">");
        assert(">"@ =~= seq!['>']);
        lemma_char_is_next(cs@, q as int, '>');
    }
    symbol(cs, q, ">")
}

/// An identifier with an optional template definition: the identifier,
/// whether a template definition followed, and the position after both.
pub fn parse_ident_root(cs: &Vec<char>, pos: usize) -> (r: Option<(String, bool, usize)>)
    requires
        pos <= cs@.len(),
    ensures
        r matches Some((s, t, e)) ==> pos < e <= cs@.len() && !crate::parser::is_keyword(s@),
        r matches Some((s, t, e)) ==> word_after(cs@, pos as int, s@),
        forall|b: int| #[trigger] word_at(cs@, ws_skip(cs@, pos as int), b) && !crate::parser::is_keyword(
            cs@.subrange(ws_skip(cs@, pos as int), b),
        ) ==> (r matches Some((s, t, e)) && s@ == cs@.subrange(ws_skip(cs@, pos as int), b) && (next_char(cs@, b) != Some('<')
            ==> !t && e == b) && forall|ns: Seq<Seq<char>>| #[trigger] template_written(cs@, b, ns) ==> t && e == template_end(
            cs@,
            b,
            ns,
        )),
{
    match identifier(cs, pos) {
        Some((id, e)) => {
            let r = match handle_template_def(cs, e) {
                Some(e2) => Some((id, true, e2)),
                None => Some((id, false, e)),
            };
            proof {
                assert forall|b: int| #[trigger] word_at(cs@, ws_skip(cs@, pos as int), b) && !crate::parser::is_keyword(
                    cs@.subrange(ws_skip(cs@, pos as int), b),
                ) implies e == b by {}
                assert forall|b: int, ns: Seq<Seq<char>>| #[trigger] word_at(cs@, ws_skip(cs@, pos as int), b)
                    && !crate::parser::is_keyword(cs@.subrange(ws_skip(cs@, pos as int), b)) && #[trigger] template_written(cs@, b, ns)
                    implies r matches Some((s, t, e3)) && t && e3 == template_end(cs@, b, ns) by {
                    assert(e == b);
                    assert(template_written(cs@, e as int, ns));
                }
            }
            r
        },
        None => None,
    }
}

/// After whitespace, the whole word `w` at `pos`, which names the
/// primitive type `t`.
pub open spec fn primitive_written(s: Seq<char>, pos: int, w: Seq<char>, t: PrimitiveType) -> bool {
    let a = ws_skip(s, pos);
    &&& a + w.len() <= s.len()
    &&& s.subrange(a, a + w.len()) == w
    &&& (a + w.len() == s.len() || !crate::parser::is_ident_char(s[a + w.len()]))
    &&& spec_primitive(w) == Some(Some(t))
}

/// A word that names a primitive type is a word: it starts with a letter
/// and goes on with letters and digits.
proof fn lemma_primitive_word_chars(w: Seq<char>)
    requires
        spec_primitive(w) is Some,
    ensures
        w.len() > 0,
        is_ident_start(w[0]),
        forall|i: int| 0 <= i < w.len() ==> #[trigger] crate::parser::is_ident_char(w[i]),
{
    if w.len() >= 2 && (w[0] == 'i' || w[0] == 'u' || w[0] == 'f') && all_digits(w.drop_first()) {
        assert forall|i: int| 0 <= i < w.len() implies #[trigger] crate::parser::is_ident_char(w[i]) by {
            if i > 0 {
                assert(w[i] == w.drop_first()[i - 1]);
                assert(crate::numbers::is_digit(w.drop_first()[i - 1]));
            }
        }
    }
}

/// A primitive type written at `pos` is the word at the end of the
/// whitespace there.
proof fn lemma_primitive_written_word(s: Seq<char>, pos: int, w: Seq<char>, t: PrimitiveType)
    requires
        0 <= pos <= s.len(),
        primitive_written(s, pos, w, t),
    ensures
        ws_end(s, pos, ws_skip(s, pos)),
        word_at(s, ws_skip(s, pos), ws_skip(s, pos) + w.len()),
        s.subrange(ws_skip(s, pos), ws_skip(s, pos) + w.len()) == w,
{
    crate::parser::lemma_ws_skip_end(s, pos);
    lemma_primitive_word_chars(w);
    let a = ws_skip(s, pos);
    assert(s[a] == w[0]) by {
        assert(s.subrange(a, a + w.len())[0] == s[a]);
    }
    assert forall|i: int| a < i < a + w.len() implies #[trigger] crate::parser::is_ident_char(s[i]) by {
        assert(s.subrange(a, a + w.len())[i - a] == s[i]);
    }
}

/// A type: a primitive type, `&mut type`, `*mut type`, or a path to a
/// named type.
pub fn handle_type_expression(cs: &Vec<char>, pos: usize, strict: bool) -> (r: Result<Parsed<Type>, ParseError>)
    requires
        pos <= cs@.len(),
    ensures
        r matches Ok(p) ==> pos < p.end <= cs@.len(),
        forall|a: int, b: int, t: PrimitiveType| ws_end(cs@, pos as int, a) && word_at(cs@, a, b)
            && spec_primitive(cs@.subrange(a, b)) == Some(Some(t)) ==> (r matches Ok(p) && p.end == b
            && p.value.kind == TypeKind::Primitive(t)),
        r matches Ok(p) ==> (next_char(cs@, pos as int) == Some('&') ==> p.value.kind is MutableReference),
        r matches Ok(p) ==> (next_char(cs@, pos as int) == Some('*') ==> p.value.kind is MutablePointer),
        r matches Ok(p) ==> (forall|a: int, b: int| ws_end(cs@, pos as int, a) && word_at(cs@, a, b)
            && spec_primitive(cs@.subrange(a, b)) is None ==> p.value.kind is Named),
        forall|w: Seq<char>, t: PrimitiveType| #[trigger] primitive_written(cs@, pos as int, w, t) ==> (r matches Ok(p) && p.end
            == ws_skip(cs@, pos as int) + w.len() && p.value.kind == TypeKind::Primitive(t)),
        !strict ==> (r matches Err(e) ==> is_syntax_error(e)),
    decreases cs@.len() - pos, 1nat,
{
    proof {
        assert forall|w: Seq<char>, t: PrimitiveType| #[trigger] primitive_written(cs@, pos as int, w, t) implies ws_end(
            cs@,
            pos as int,
            ws_skip(cs@, pos as int),
        ) && word_at(cs@, ws_skip(cs@, pos as int), ws_skip(cs@, pos as int) + w.len()) && spec_primitive(
            cs@.subrange(ws_skip(cs@, pos as int), ws_skip(cs@, pos as int) + w.len()),
        ) == Some(Some(t)) by {
            lemma_primitive_written_word(cs@, pos as int, w, t);
        }
    }
    match word(cs, pos) {
        Some((a, b)) => {
            proof {
                crate::parser::lemma_ws_end_unique(cs@, pos as int, a as int);
                crate::parser::lemma_next_char_at(cs@, pos as int, a as int);
            }
            match primitive_word(cs, a, b) {
                Some(Some(t)) => {
                    proof {
                        assert forall|a2: int, b2: int| ws_end(cs@, pos as int, a2) && word_at(cs@, a2, b2) implies a2
                            == a && b2 == b by {
                            crate::parser::lemma_word_end_unique(cs@, a as int, b as int, b2);
                        }
                    }
                    Ok(Parsed { value: Type::primitive(t), end: b })
                },
                Some(None) => {
                    proof {
                        assert forall|a2: int, b2: int| ws_end(cs@, pos as int, a2) && word_at(cs@, a2, b2) implies a2
                            == a && b2 == b by {
                            crate::parser::lemma_word_end_unique(cs@, a as int, b as int, b2);
                        }
                    }
                    if strict {
                        return Err(ParseError::NumberTooLarge(a));
                    }
                    Ok(Parsed { value: Type::void(), end: b })
                },
                None => {
                    proof {
                        assert forall|a2: int, b2: int| ws_end(cs@, pos as int, a2) && word_at(cs@, a2, b2) implies a2
                            == a && b2 == b by {
                            crate::parser::lemma_word_end_unique(cs@, a as int, b as int, b2);
                        }
                    }
                    parse_type_tail(cs, pos, strict)
                },
            }
        },
        None => parse_type_tail(cs, pos, strict),
    }
}

fn parse_type_tail(cs: &Vec<char>, pos: usize, strict: bool) -> (r: Result<Parsed<Type>, ParseError>)
    requires
        pos <= cs@.len(),
    ensures
        r matches Ok(p) ==> pos < p.end <= cs@.len(),
        r matches Ok(p) ==> (next_char(cs@, pos as int) == Some('&') ==> p.value.kind is MutableReference),
        r matches Ok(p) ==> (next_char(cs@, pos as int) == Some('*') ==> p.value.kind is MutablePointer),
        r matches Ok(p) ==> (next_char(cs@, pos as int) matches Some(c) && is_ident_start(c) ==> p.value.kind is Named),
        !strict ==> (r matches Err(e) ==> is_syntax_error(e)),
    decreases cs@.len() - pos, 0nat,
{
    proof {
        reveal_strlit("&");
        reveal_strlit("*");
        assert("&"@ =~= seq!['&']);
        assert("*"@ =~= seq!['*']);
    }
    if let Some(q) = symbol(cs, pos, "&") {
        if let Some(q2) = keyword(cs, q, "mut") {
            match handle_type_expression(cs, q2, strict) {
                Ok(p) => {
                    return Ok(Parsed { value: Type::mutable_reference(p.value), end: p.end });
                },
                Err(e) => {
                    if !syntax_error(&e) {
                        return Err(e);
                    }
                },
            }
        }
    }
    if let Some(q) = symbol(cs, pos, "*") {
        if let Some(q2) = keyword(cs, q, "mut") {
            match handle_type_expression(cs, q2, strict) {
                Ok(p) => {
                    return Ok(Parsed { value: Type::mutable_pointer(p.value), end: p.end });
                },
                Err(e) => {
                    if !syntax_error(&e) {
                        return Err(e);
                    }
                },
            }
        }
    }
    let p = handle_qualified_name(cs, pos, strict)?;
    Ok(Parsed { value: Type::named(p.value), end: p.end })
}

/// `a` is `b` with one more segment: the path `b::seg`.
pub open spec fn extends_by_one(a: QualifiedName, b: QualifiedName) -> bool {
    &&& a.v@.len() == b.v@.len() + 1
    &&& forall|k: int| #![trigger a.v@[k]] 0 <= k < b.v@.len() ==> crate::general::path::seg_eqv(a.v@[k], b.v@[k])
    &&& a.v@[b.v@.len() as int].template_spec@.len() == 0
}

/// `q` is the path of the names `ws`, none with template arguments.
pub open spec fn names_path(q: QualifiedName, ws: Seq<Seq<char>>) -> bool {
    &&& q.v@.len() == ws.len()
    &&& forall|i: int| 0 <= i < ws.len() ==> (#[trigger] q.v@[i]).ident@ == ws[i] && q.v@[i].template_spec@.len() == 0
}

/// After whitespace, the names `ns` at `p`, separated by `,`, then `}`;
/// after the last name a comma may stand before the `}`.
pub open spec fn group_names_written(s: Seq<char>, p: int, ns: Seq<Seq<char>>) -> bool
    decreases ns.len(),
{
    if ns.len() == 0 {
        false
    } else {
        let q = ws_skip(s, p) + ns[0].len();
        &&& is_name(ns[0])
        &&& segment_written(s, p, ns[0])
        &&& if ns.len() == 1 {
            next_char(s, q) == Some('}') || (next_char(s, q) == Some(',') && next_char(s, ws_skip(s, q) + 1) == Some('}'))
        } else {
            next_char(s, q) == Some(',') && group_names_written(s, ws_skip(s, q) + 1, ns.drop_first())
        }
    }
}

/// Where the names of a group written at `p` end: after the `}`.
pub open spec fn group_names_end(s: Seq<char>, p: int, ns: Seq<Seq<char>>) -> int
    decreases ns.len(),
{
    if ns.len() == 0 {
        p
    } else {
        let q = ws_skip(s, p) + ns[0].len();
        if ns.len() == 1 {
            if next_char(s, q) == Some('}') {
                ws_skip(s, q) + 1
            } else {
                ws_skip(s, ws_skip(s, q) + 1) + 1
            }
        } else {
            group_names_end(s, ws_skip(s, q) + 1, ns.drop_first())
        }
    }
}

/// Where the prefix `pre` of a group written at `pos` ends.
pub open spec fn group_prefix_end(s: Seq<char>, pos: int, pre: Seq<Seq<char>>) -> int {
    ws_skip(s, pos) + path_text(pre).len()
}

/// Where the names of a group written at `pos` with the prefix `pre`
/// start: after `prefix::{`.
pub open spec fn group_start(s: Seq<char>, pos: int, pre: Seq<Seq<char>>) -> int {
    ws_skip(s, ws_skip(s, group_prefix_end(s, pos, pre)) + 2) + 1
}

/// After whitespace, `pre::{n, n, ...}` at `pos` (a trailing comma
/// allowed), with the names `ns`.
pub open spec fn grouped_written(s: Seq<char>, pos: int, pre: Seq<Seq<char>>, ns: Seq<Seq<char>>) -> bool {
    &&& valid_path(pre)
    &&& path_written(s, pos, pre)
    &&& double_colon_at(s, group_prefix_end(s, pos, pre))
    &&& next_char(s, ws_skip(s, group_prefix_end(s, pos, pre)) + 2) == Some('{')
    &&& group_names_written(s, group_start(s, pos, pre), ns)
}

/// Where a group written at `pos` ends.
pub open spec fn grouped_end(s: Seq<char>, pos: int, pre: Seq<Seq<char>>, ns: Seq<Seq<char>>) -> int {
    group_names_end(s, group_start(s, pos, pre), ns)
}

/// The next character stands where the whitespace ends.
pub proof fn lemma_next_char_skip(s: Seq<char>, pos: int)
    requires
        0 <= pos <= s.len(),
    ensures
        pos <= ws_skip(s, pos) <= s.len(),
        next_char(s, pos) matches Some(c) ==> ws_skip(s, pos) < s.len() && s[ws_skip(s, pos)] == c && s.subrange(
            ws_skip(s, pos),
            ws_skip(s, pos) + 1,
        ) == seq![c],
        next_char(s, pos) is None ==> ws_skip(s, pos) == s.len(),
{
    crate::parser::lemma_ws_skip_end(s, pos);
    crate::parser::lemma_next_char_at(s, pos, ws_skip(s, pos));
    if let Some(c) = next_char(s, pos) {
        assert(s.subrange(ws_skip(s, pos), ws_skip(s, pos) + 1) =~= seq![c]);
    }
}

/// One name of a group read: what follows it, and where the rest of the
/// group stands.
proof fn lemma_group_step(s: Seq<char>, p: int, ns: Seq<Seq<char>>, k: int, q: int)
    requires
        0 <= k < ns.len(),
        group_names_written(s, p, ns.skip(k)),
        q == ws_skip(s, p) + ns[k].len(),
    ensures
        ns.skip(k)[0] == ns[k],
        k + 1 < ns.len() ==> next_char(s, q) == Some(',') && group_names_written(s, ws_skip(s, q) + 1, ns.skip(k + 1))
            && group_names_end(s, p, ns.skip(k)) == group_names_end(s, ws_skip(s, q) + 1, ns.skip(k + 1)),
        k + 1 == ns.len() ==> (next_char(s, q) == Some('}') && group_names_end(s, p, ns.skip(k)) == ws_skip(s, q) + 1) || (
        next_char(s, q) == Some(',') && next_char(s, ws_skip(s, q) + 1) == Some('}') && group_names_end(s, p, ns.skip(k))
            == ws_skip(s, ws_skip(s, q) + 1) + 1),
{
    assert(ns.skip(k)[0] == ns[k]);
    assert(ns.skip(k).drop_first() =~= ns.skip(k + 1));
}

/// `prefix::{seg, seg, ...}` (a trailing comma allowed): the path
/// `prefix::seg` for each segment, in order.
pub fn handle_grouped_import_path(cs: &Vec<char>, pos: usize, strict: bool) -> (r: Result<Parsed<Vec<QualifiedName>>, ParseError>)
    requires
        pos <= cs@.len(),
    ensures
        r matches Ok(p) ==> pos < p.end <= cs@.len() && p.value@.len() >= 1,
        forall|pre: Seq<Seq<char>>, ns: Seq<Seq<char>>| #[trigger] grouped_written(cs@, pos as int, pre, ns) ==> (r matches Ok(p)
            && p.end == grouped_end(cs@, pos as int, pre, ns) && p.value@.len() == ns.len() && forall|i: int|
            0 <= i < ns.len() ==> names_path(#[trigger] p.value@[i], pre.push(ns[i]))),
        forall|pre: Seq<Seq<char>>| valid_path(pre) && #[trigger] path_written(cs@, pos as int, pre) && !double_colon_at(
            cs@,
            group_prefix_end(cs@, pos as int, pre),
        ) ==> r == Err::<Parsed<Vec<QualifiedName>>, ParseError>(
            ParseError::UnexpectedInput(group_prefix_end(cs@, pos as int, pre) as usize),
        ),
        !strict ==> (r matches Err(e) ==> is_syntax_error(e)),
{
    proof {
        reveal_strlit("::");
        reveal_strlit("{");
        reveal_strlit("}");
        reveal_strlit(",");
        assert("::"@ =~= seq![':', ':']);
        assert("{"@ =~= seq!['{']);
        assert("}"@ =~= seq!['}']);
        assert(","@ =~= seq![',']);
    }
    let prefix = handle_qualified_name(cs, pos, strict)?;
    let q = match symbol(cs, prefix.end, "::") {
        Some(q) => q,
        None => {
            return Err(ParseError::UnexpectedInput(prefix.end));
        },
    };
    proof {
        let qq = choose|qq: int| crate::parser::ws_end(cs@, prefix.end as int, qq) && q == qq + 2 && cs@.subrange(qq, q as int) == "::"@;
        crate::parser::lemma_ws_skip(cs@, prefix.end as int, qq);
        assert(double_colon_at(cs@, prefix.end as int));
        lemma_next_char_skip(cs@, q as int);
    }
    let mut cur = match symbol(cs, q, "{") {
        Some(q2) => q2,
        None => {
            return Err(ParseError::UnexpectedInput(q));
        },
    };
    let ghost pre = prefix.value;
    let ghost start = cur;
    proof {
        assert forall|pw: Seq<Seq<char>>, ns: Seq<Seq<char>>| #[trigger] grouped_written(cs@, pos as int, pw, ns) implies start
            == group_start(cs@, pos as int, pw) && names_path(pre, pw) by {
        }
        assert forall|ns: Seq<Seq<char>>| #[trigger] group_names_written(cs@, start as int, ns) implies ns.skip(0) == ns by {
            assert(ns.skip(0) =~= ns);
        }
    }
    let mut paths: Vec<QualifiedName> = Vec::new();
    let mut closed: Option<usize> = None;
    loop
        invariant_except_break
            closed is None,
            forall|ns: Seq<Seq<char>>| #[trigger] group_names_written(cs@, start as int, ns) ==> ({
                let k = paths@.len() as int;
                &&& k <= ns.len()
                &&& forall|i: int| 0 <= i < k ==> (#[trigger] paths@[i]).v@[pre.v@.len() as int].ident@ == ns[i]
                &&& k < ns.len() ==> group_names_written(cs@, cur as int, ns.skip(k)) && group_names_end(cs@, cur as int, ns.skip(k))
                    == group_names_end(cs@, start as int, ns)
                &&& k == ns.len() ==> next_char(cs@, cur as int) == Some('}') && ws_skip(cs@, cur as int) + 1 == group_names_end(
                    cs@,
                    start as int,
                    ns,
                )
            }),
        invariant
            pos < start <= cur <= cs@.len(),
            pre == prefix.value,
            double_colon_at(cs@, prefix.end as int),
            forall|pw: Seq<Seq<char>>| valid_path(pw) && #[trigger] path_written(cs@, pos as int, pw) ==> group_prefix_end(
                cs@,
                pos as int,
                pw,
            ) == prefix.end,
            forall|pw: Seq<Seq<char>>, ns: Seq<Seq<char>>| #[trigger] grouped_written(cs@, pos as int, pw, ns) ==> start
                == group_start(cs@, pos as int, pw) && names_path(pre, pw),
            pre.v@.len() >= 1,
            forall|i: int| 0 <= i < paths@.len() ==> extends_by_one(#[trigger] paths@[i], pre),
        ensures
            pos < cur <= cs@.len(),
            closed matches Some(e) ==> pos < e <= cs@.len(),
            forall|i: int| 0 <= i < paths@.len() ==> extends_by_one(#[trigger] paths@[i], pre),
            forall|ns: Seq<Seq<char>>| #[trigger] group_names_written(cs@, start as int, ns) ==> ((closed matches Some(ce) && ce == group_names_end(cs@, start as int, ns)) && paths@.len() == ns.len() && forall|i: int| 0 <= i < ns.len() ==> (#[trigger] paths@[i]).v@[pre.v@.len() as int].ident@
                == ns[i]),
        decreases cs@.len() - cur,
    {
        let ghost k = paths@.len() as int;
        let ghost cur0 = cur;
        let ghost paths0 = paths@;
        proof {
            reveal_strlit("}");
            reveal_strlit(",");
            assert("}"@ =~= seq!['}']);
            assert(","@ =~= seq![',']);
            lemma_next_char_skip(cs@, cur as int);
            assert forall|ns: Seq<Seq<char>>| #[trigger] group_names_written(cs@, start as int, ns) && k < ns.len() implies
                ns.skip(k)[0] == ns[k] && ns.skip(k).drop_first() =~= ns.skip(k + 1) && ns.skip(k).len() == ns.len() - k by {
            }
        }
        match handle_path_ident(cs, cur, strict) {
            Ok(p) => {
                let mut path = prefix.value.copy();
                path.add_segment(p.value);
                proof {
                    assert forall|j: int| #![trigger path.v@[j]] 0 <= j < pre.v@.len() implies crate::general::path::seg_eqv(
                        path.v@[j],
                        pre.v@[j],
                    ) by {
                    }
                }
                paths.push(path);
                cur = p.end;
                proof {
                    lemma_next_char_skip(cs@, cur as int);
                }
                match symbol(cs, cur, ",") {
                    Some(c) => {
                        cur = c;
                        proof {
                            assert forall|ns: Seq<Seq<char>>| #[trigger] group_names_written(cs@, start as int, ns) implies ({
                                let k1 = paths@.len() as int;
                                &&& k1 <= ns.len()
                                &&& forall|i: int| 0 <= i < k1 ==> (#[trigger] paths@[i]).v@[pre.v@.len() as int].ident@ == ns[i]
                                &&& k1 < ns.len() ==> group_names_written(cs@, cur as int, ns.skip(k1)) && group_names_end(
                                    cs@,
                                    cur as int,
                                    ns.skip(k1),
                                ) == group_names_end(cs@, start as int, ns)
                                &&& k1 == ns.len() ==> next_char(cs@, cur as int) == Some('}') && ws_skip(cs@, cur as int) + 1
                                    == group_names_end(cs@, start as int, ns)
                            }) by {
                                assert(k < ns.len()) by {
                                    if k == ns.len() {
                                        assert(next_char(cs@, cur0 as int) == Some('}'));
                                    }
                                }
                                assert(group_names_written(cs@, cur0 as int, ns.skip(k)));
                                assert(segment_written(cs@, cur0 as int, ns.skip(k)[0]) && is_name(ns.skip(k)[0]));
                                assert(p.end == ws_skip(cs@, cur0 as int) + ns[k].len());
                                lemma_group_step(cs@, cur0 as int, ns, k, p.end as int);
                                assert(paths@[k].v@[pre.v@.len() as int].ident@ == ns[k]);
                                assert forall|i: int| 0 <= i < k + 1 implies (#[trigger] paths@[i]).v@[pre.v@.len() as int].ident@ == ns[i] by {
                                    if i < k {
                                        assert(paths@[i] == paths0[i]);
                                    }
                                }
                                assert(cur == ws_skip(cs@, p.end as int) + 1);
                                assert(next_char(cs@, p.end as int) == Some(','));
                                if k + 1 < ns.len() {
                                    assert(group_names_written(cs@, cur as int, ns.skip(k + 1)));
                                } else {
                                    assert(next_char(cs@, cur as int) == Some('}'));
                                }
                            }
                        }
                    },
                    None => {
                        closed = symbol(cs, cur, "}");
                        proof {
                            assert forall|ns: Seq<Seq<char>>| #[trigger] group_names_written(cs@, start as int, ns) implies ((closed matches Some(ce) && ce == group_names_end(cs@, start as int, ns)) && paths@.len() == ns.len() && forall|i: int| 0 <= i < ns.len() ==> (#[trigger] paths@[i]).v@[pre.v@.len() as int].ident@
                                == ns[i]) by {
                                assert(k < ns.len()) by {
                                    if k == ns.len() {
                                        assert(next_char(cs@, cur0 as int) == Some('}'));
                                    }
                                }
                                assert(group_names_written(cs@, cur0 as int, ns.skip(k)));
                                assert(segment_written(cs@, cur0 as int, ns.skip(k)[0]) && is_name(ns.skip(k)[0]));
                                assert(p.end == ws_skip(cs@, cur0 as int) + ns[k].len());
                                lemma_group_step(cs@, cur0 as int, ns, k, p.end as int);
                                assert(paths@[k].v@[pre.v@.len() as int].ident@ == ns[k]);
                                assert forall|i: int| 0 <= i < k + 1 implies (#[trigger] paths@[i]).v@[pre.v@.len() as int].ident@ == ns[i] by {
                                    if i < k {
                                        assert(paths@[i] == paths0[i]);
                                    }
                                }
                                assert(next_char(cs@, p.end as int) != Some(','));
                                assert(k + 1 == ns.len());
                                assert(next_char(cs@, p.end as int) == Some('}'));
                                assert(closed matches Some(ce) && ce == ws_skip(cs@, p.end as int) + 1);
                            }
                        }
                        break;
                    },
                }
            },
            Err(e) => {
                proof {
                    assert forall|ns: Seq<Seq<char>>| #[trigger] group_names_written(cs@, start as int, ns) implies k == ns.len()
                        && e == ParseError::UnexpectedInput(cur) by {
                        if k < ns.len() {
                            assert(group_names_written(cs@, cur as int, ns.skip(k)));
                            assert(segment_written(cs@, cur as int, ns.skip(k)[0]) && is_name(ns.skip(k)[0]));
                        }
                    }
                }
                if !syntax_error(&e) {
                    proof {
                        assert forall|pw: Seq<Seq<char>>, ns: Seq<Seq<char>>| !#[trigger] grouped_written(cs@, pos as int, pw, ns) by {
                            if grouped_written(cs@, pos as int, pw, ns) {
                                assert(group_names_written(cs@, start as int, ns));
                            }
                        }
                    }
                    return Err(e);
                }
                closed = symbol(cs, cur, "}");
                break;
            },
        }
    }
    proof {
        assert forall|pw: Seq<Seq<char>>, ns: Seq<Seq<char>>| #[trigger] grouped_written(cs@, pos as int, pw, ns) implies (closed
            matches Some(ce) && ce == grouped_end(cs@, pos as int, pw, ns)) && paths@.len() == ns.len() && ns.len() >= 1 by {
            assert(start == group_start(cs@, pos as int, pw));
            assert(group_names_written(cs@, start as int, ns));
        }
    }
    match closed {
        Some(e) => {
            if paths.len() > 0 {
                proof {
                    assert forall|pw: Seq<Seq<char>>, ns: Seq<Seq<char>>| #[trigger] grouped_written(cs@, pos as int, pw, ns) implies (
                    forall|i: int| 0 <= i < ns.len() ==> names_path(#[trigger] paths@[i], pw.push(ns[i]))) by {
                        assert forall|i: int| 0 <= i < ns.len() implies names_path(#[trigger] paths@[i], pw.push(ns[i])) by {
                            let pi = paths@[i];
                            assert forall|j: int| 0 <= j < pw.push(ns[i]).len() implies (#[trigger] pi.v@[j]).ident@ == pw.push(ns[i])[j]
                                && pi.v@[j].template_spec@.len() == 0 by {
                                assert(names_path(pre, pw));
                                assert(extends_by_one(pi, pre));
                                if j < pw.len() {
                                    assert(crate::general::path::seg_eqv(pi.v@[j], pre.v@[j]));
                                    assert(pre.v@[j].ident@ == pw[j]);
                                } else {
                                    assert(j == pre.v@.len());
                                    assert(pi.v@[j].ident@ == ns[i]);
                                }
                            }
                        }
                    }
                }
                Ok(Parsed { value: paths, end: e })
            } else {
                Err(ParseError::UnexpectedInput(cur))
            }
        },
        None => Err(ParseError::UnexpectedInput(cur)),
    }
}

/// The paths an import names: `prefix::{seg, seg, ...}` (each
/// `prefix::seg`) or a single path.
pub fn handle_import_path(cs: &Vec<char>, pos: usize, strict: bool) -> (r: Result<Parsed<Vec<QualifiedName>>, ParseError>)
    requires
        pos <= cs@.len(),
    ensures
        r matches Ok(p) ==> pos < p.end <= cs@.len() && p.value@.len() >= 1,
        forall|pre: Seq<Seq<char>>, ns: Seq<Seq<char>>| #[trigger] grouped_written(cs@, pos as int, pre, ns) ==> (r matches Ok(p)
            && p.end == grouped_end(cs@, pos as int, pre, ns) && p.value@.len() == ns.len() && forall|i: int|
            0 <= i < ns.len() ==> names_path(#[trigger] p.value@[i], pre.push(ns[i]))),
        forall|ws: Seq<Seq<char>>| valid_path(ws) && #[trigger] path_written(cs@, pos as int, ws) && !double_colon_at(
            cs@,
            group_prefix_end(cs@, pos as int, ws),
        ) ==> (r matches Ok(p) && p.end == group_prefix_end(cs@, pos as int, ws) && p.value@.len() == 1 && names_path(
            p.value@[0],
            ws,
        )),
        !strict ==> (r matches Err(e) ==> is_syntax_error(e)),
{
    match handle_grouped_import_path(cs, pos, strict) {
        Ok(g) => {
            return Ok(g);
        },
        Err(e) => {
            if !syntax_error(&e) {
                return Err(e);
            }
        },
    }
    let prefix = handle_qualified_name(cs, pos, strict)?;
    let mut out: Vec<QualifiedName> = Vec::new();
    let end = prefix.end;
    out.push(prefix.value);
    Ok(Parsed { value: out, end })
}

/// Where the members of `kw x { ... }` written at `pos` start: after
/// the `{`.
pub open spec fn members_pos(s: Seq<char>, pos: int, kw: Seq<char>, x: Seq<char>) -> int {
    ws_skip(s, ws_skip(s, ws_skip(s, pos) + kw.len()) + x.len()) + 1
}

/// After whitespace, `kw x { ms }` at `pos`: the members `ms`, each a name
/// and a primitive type, separated by `,` (a trailing comma allowed).
pub open spec fn members_written(s: Seq<char>, pos: int, kw: Seq<char>, x: Seq<char>, ms: Seq<(Seq<char>, Seq<char>, PrimitiveType)>) -> bool {
    let n = ws_skip(s, pos) + kw.len();
    &&& starts_with_word(s, pos, kw)
    &&& name_at(s, n, x)
    &&& next_char(s, ws_skip(s, n) + x.len()) == Some('{')
    &&& params_written(s, members_pos(s, pos, kw, x), ms, '}')
}

/// Where a member block written at `pos` ends: after the `}`.
pub open spec fn members_end(s: Seq<char>, pos: int, kw: Seq<char>, x: Seq<char>, ms: Seq<(Seq<char>, Seq<char>, PrimitiveType)>) -> int {
    ws_skip(s, params_end(s, members_pos(s, pos, kw, x), ms, '}')) + 1
}

/// After whitespace, `struct x { ms }` at `pos`.
pub open spec fn struct_written(s: Seq<char>, pos: int, x: Seq<char>, ms: Seq<(Seq<char>, Seq<char>, PrimitiveType)>) -> bool {
    members_written(s, pos, seq!['s', 't', 'r', 'u', 'c', 't'], x, ms)
}

/// Where a struct written at `pos` ends: after the `}`.
pub open spec fn struct_end(s: Seq<char>, pos: int, x: Seq<char>, ms: Seq<(Seq<char>, Seq<char>, PrimitiveType)>) -> int {
    members_end(s, pos, seq!['s', 't', 'r', 'u', 'c', 't'], x, ms)
}

/// `m` are the members `ms`, in order.
pub open spec fn members_are(m: Seq<(String, Type)>, ms: Seq<(Seq<char>, Seq<char>, PrimitiveType)>) -> bool {
    &&& m.len() == ms.len()
    &&& forall|i: int| 0 <= i < ms.len() ==> is_param(#[trigger] m[i].0, m[i].1, ms[i])
}

/// After whitespace, `type x = w;` at `pos`, with `w` the word of the
/// primitive type `t`.
pub open spec fn alias_written(s: Seq<char>, pos: int, x: Seq<char>, w: Seq<char>, t: PrimitiveType) -> bool {
    let n = ws_skip(s, pos) + 4;
    let e = ws_skip(s, n) + x.len();
    &&& starts_with_word(s, pos, seq!['t', 'y', 'p', 'e'])
    &&& name_at(s, n, x)
    &&& next_char(s, e) == Some('=')
    &&& primitive_written(s, ws_skip(s, e) + 1, w, t)
    &&& next_char(s, ws_skip(s, ws_skip(s, e) + 1) + w.len()) == Some(';')
}

/// Where an alias written at `pos` ends: after the `;`.
pub open spec fn alias_end(s: Seq<char>, pos: int, x: Seq<char>, w: Seq<char>) -> int {
    let e = ws_skip(s, ws_skip(s, pos) + 4) + x.len();
    ws_skip(s, ws_skip(s, ws_skip(s, e) + 1) + w.len()) + 1
}

/// `type Name = type;`: a public alias definition named `Name`.
pub fn handle_type_alias_definitions(cs: &Vec<char>, pos: usize, strict: bool) -> (r: Result<Parsed<Definition>, ParseError>)
    requires
        pos <= cs@.len(),
    ensures
        r matches Ok(p) ==> pos < p.end <= cs@.len() && p.value.visibility == Visibility::Public
            && (p.value.kind matches DefinitionKind::Type(t) && t.kind is Alias)
            && keyword_then_name(cs@, pos as int, seq!['t', 'y', 'p', 'e'], p.value.name@),
        !starts_with_word(cs@, pos as int, seq!['t', 'y', 'p', 'e']) ==> r == Err::<Parsed<Definition>, ParseError>(
            ParseError::UnexpectedInput(pos)),
        forall|x: Seq<char>, w: Seq<char>, t: PrimitiveType| #[trigger] alias_written(cs@, pos as int, x, w, t) ==> (r matches Ok(p)
            && p.end == alias_end(cs@, pos as int, x, w) && p.value.name@ == x && (p.value.kind matches DefinitionKind::Type(ty)
            && ty.kind matches TypeKind::Alias(inner) && inner.kind == TypeKind::Primitive(t))),
        !strict ==> (r matches Err(e) ==> is_syntax_error(e)),
{
    proof {
        reveal_strlit("type");
        reveal_strlit("=");
        reveal_strlit(";");
        assert("type"@ =~= seq!['t', 'y', 'p', 'e']);
        assert("="@ =~= seq!['=']);
        assert(";"@ =~= seq![';']);
    }
    let q = match keyword(cs, pos, "type") {
        Some(q) => q,
        None => {
            return Err(ParseError::UnexpectedInput(pos));
        },
    };
    proof {
        lemma_keyword_skip(cs@, pos as int, "type"@, q as int);
    }
    let (name, q2) = match identifier(cs, q) {
        Some(x) => x,
        None => {
            return Err(ParseError::UnexpectedInput(q));
        },
    };
    proof {
        lemma_keyword_then_name(cs@, pos as int, "type"@, q as int, name@, q2 as int);
        lemma_next_char_skip(cs@, q2 as int);
    }
    let q3 = match symbol(cs, q2, "=") {
        Some(x) => x,
        None => {
            return Err(ParseError::UnexpectedInput(q2));
        },
    };
    let t = handle_type_expression(cs, q3, strict)?;
    proof {
        lemma_next_char_skip(cs@, t.end as int);
    }
    match symbol(cs, t.end, ";") {
        Some(e) => Ok(Parsed { value: Definition::type_def(name, Type::alias(t.value), Visibility::Public), end: e }),
        None => Err(ParseError::UnexpectedInput(t.end)),
    }
}

/// `struct Name;`: the name of the declared struct.
pub fn handle_type_struct_declaration(cs: &Vec<char>, pos: usize) -> (r: Result<Parsed<String>, ParseError>)
    requires
        pos <= cs@.len(),
    ensures
        r matches Ok(p) ==> pos < p.end <= cs@.len()
            && keyword_then_name(cs@, pos as int, seq!['s', 't', 'r', 'u', 'c', 't'], p.value@),
        r matches Err(e) ==> e is UnexpectedInput,
{
    proof {
        reveal_strlit("struct");
        assert("struct"@ =~= seq!['s', 't', 'r', 'u', 'c', 't']);
    }
    let q = match keyword(cs, pos, "struct") {
        Some(q) => q,
        None => {
            return Err(ParseError::UnexpectedInput(pos));
        },
    };
    let (name, q2) = match identifier(cs, q) {
        Some(x) => x,
        None => {
            return Err(ParseError::UnexpectedInput(q));
        },
    };
    proof { lemma_keyword_then_name(cs@, pos as int, "struct"@, q as int, name@, q2 as int); }
    match symbol(cs, q2, ";") {
        Some(e) => Ok(Parsed { value: name, end: e }),
        None => Err(ParseError::UnexpectedInput(q2)),
    }
}

/// `kw Name { name: type, ... }`: the name, the members and the position
/// after the closing brace.
fn handle_member_block(cs: &Vec<char>, pos: usize, strict: bool, kw: &str) -> (r: Result<(String, Vec<(String, Type)>, usize), ParseError>)
    requires
        pos <= cs@.len(),
        kw@.len() > 0,
    ensures
        r matches Ok((n, m, e)) ==> pos < e <= cs@.len() && keyword_then_name(cs@, pos as int, kw@, n@),
        !starts_with_word(cs@, pos as int, kw@) ==> r == Err::<(String, Vec<(String, Type)>, usize), ParseError>(
            ParseError::UnexpectedInput(pos)),
        forall|x: Seq<char>, ms: Seq<(Seq<char>, Seq<char>, PrimitiveType)>| #[trigger] members_written(cs@, pos as int, kw@, x, ms) ==> (r matches Ok((n, m, e)) && n@ == x
            && e == members_end(cs@, pos as int, kw@, x, ms) && members_are(m@, ms)),
        !strict ==> (r matches Err(e) ==> is_syntax_error(e)),
{
    proof {
        reveal_strlit("{");
        reveal_strlit("}");
        assert("{"@ =~= seq!['{']);
        assert("}"@ =~= seq!['}']);
    }
    let q = match keyword(cs, pos, kw) {
        Some(q) => q,
        None => {
            return Err(ParseError::UnexpectedInput(pos));
        },
    };
    proof {
        lemma_keyword_skip(cs@, pos as int, kw@, q as int);
    }
    let (name, q2) = match identifier(cs, q) {
        Some(x) => x,
        None => {
            return Err(ParseError::UnexpectedInput(q));
        },
    };
    proof {
        lemma_keyword_then_name(cs@, pos as int, kw@, q as int, name@, q2 as int);
        lemma_next_char_skip(cs@, q2 as int);
    }
    let q3 = match symbol(cs, q2, "{") {
        Some(x) => x,
        None => {
            return Err(ParseError::UnexpectedInput(q2));
        },
    };
    let ps = handle_params(cs, q3, strict)?;
    proof {
        lemma_next_char_skip(cs@, ps.end as int);
        assert forall|x: Seq<char>, ms: Seq<(Seq<char>, Seq<char>, PrimitiveType)>| #[trigger] members_written(cs@, pos as int, kw@, x, ms) implies next_char(cs@, ps.end as int)
            == Some('}') by {
            crate::parser::items::lemma_params_close(cs@, q3 as int, ms, '}');
        }
    }
    match symbol(cs, ps.end, "}") {
        Some(e) => Ok((name, ps.value, e)),
        None => Err(ParseError::UnexpectedInput(ps.end)),
    }
}

/// `struct Name { name: type, ... }`: a public struct definition named
/// `Name` with those members, in order.
pub fn handle_type_struct_definitions(cs: &Vec<char>, pos: usize, strict: bool) -> (r: Result<Parsed<Definition>, ParseError>)
    requires
        pos <= cs@.len(),
    ensures
        r matches Ok(p) ==> pos < p.end <= cs@.len() && p.value.visibility == Visibility::Public
            && (p.value.kind matches DefinitionKind::Type(t) && t.kind is Struct)
            && keyword_then_name(cs@, pos as int, seq!['s', 't', 'r', 'u', 'c', 't'], p.value.name@),
        !starts_with_word(cs@, pos as int, seq!['s', 't', 'r', 'u', 'c', 't']) ==> r == Err::<Parsed<Definition>, ParseError>(
            ParseError::UnexpectedInput(pos)),
        forall|x: Seq<char>, ms: Seq<(Seq<char>, Seq<char>, PrimitiveType)>| #[trigger] struct_written(cs@, pos as int, x, ms) ==> (r matches Ok(
            p,
        ) && p.end == struct_end(cs@, pos as int, x, ms) && p.value.name@ == x && (p.value.kind matches DefinitionKind::Type(
            ty,
        ) && ty.kind matches TypeKind::Struct(st) && members_are(st.members@, ms))),
        !strict ==> (r matches Err(e) ==> is_syntax_error(e)),
{
    proof {
        reveal_strlit("struct");
        assert("struct"@ =~= seq!['s', 't', 'r', 'u', 'c', 't']);
    }
    let (name, members, e) = handle_member_block(cs, pos, strict, "struct")?;
    Ok(Parsed { value: Definition::type_def(name, Type::struct_t(members), Visibility::Public), end: e })
}

/// `union Name { name: type, ... }`. Unions are not supported yet: with
/// `strict` the definition is refused; otherwise it is recognised and
/// kept as a union type.
pub fn handle_type_union_definitions(cs: &Vec<char>, pos: usize, strict: bool) -> (r: Result<Parsed<Definition>, ParseError>)
    requires
        pos <= cs@.len(),
    ensures
        strict ==> r is Err,
        r matches Ok(p) ==> pos < p.end <= cs@.len() && p.value.visibility == Visibility::Public
            && (p.value.kind matches DefinitionKind::Type(t) && t.kind is Union)
            && keyword_then_name(cs@, pos as int, seq!['u', 'n', 'i', 'o', 'n'], p.value.name@),
        !strict ==> (r matches Err(e) ==> is_syntax_error(e)),
{
    proof {
        reveal_strlit("union");
        assert("union"@ =~= seq!['u', 'n', 'i', 'o', 'n']);
    }
    let (name, members, e) = handle_member_block(cs, pos, strict, "union")?;
    if strict {
        return Err(ParseError::Unsupported(pos));
    }
    Ok(Parsed { value: Definition::type_def(name, Type::union(members), Visibility::Public), end: e })
}

/// `variant Name { name: type, ... }`. Variants are not supported yet: with
/// `strict` the definition is refused; otherwise it is recognised and
/// kept as a variant type.
pub fn handle_type_variant_definitions(cs: &Vec<char>, pos: usize, strict: bool) -> (r: Result<Parsed<Definition>, ParseError>)
    requires
        pos <= cs@.len(),
    ensures
        strict ==> r is Err,
        r matches Ok(p) ==> pos < p.end <= cs@.len() && p.value.visibility == Visibility::Public
            && (p.value.kind matches DefinitionKind::Type(t) && t.kind is Variant)
            && keyword_then_name(cs@, pos as int, seq!['v', 'a', 'r', 'i', 'a', 'n', 't'], p.value.name@),
        !strict ==> (r matches Err(e) ==> is_syntax_error(e)),
{
    proof {
        reveal_strlit("variant");
        assert("variant"@ =~= seq!['v', 'a', 'r', 'i', 'a', 'n', 't']);
    }
    let (name, members, e) = handle_member_block(cs, pos, strict, "variant")?;
    if strict {
        return Err(ParseError::Unsupported(pos));
    }
    let ty = Type { kind: TypeKind::Variant(VariantType { members }) };
    Ok(Parsed { value: Definition::type_def(name, ty, Visibility::Public), end: e })
}

/// A type definition: an alias (`type`), a struct, a union or a variant,
/// told apart by the keyword it starts with.
pub fn handle_type_definitions(cs: &Vec<char>, pos: usize, strict: bool) -> (r: Result<Parsed<Definition>, ParseError>)
    requires
        pos <= cs@.len(),
    ensures
        r matches Ok(p) ==> pos < p.end <= cs@.len() && p.value.kind is Type && p.value.visibility == Visibility::Public,
        r matches Ok(p) ==> (p.value.kind matches DefinitionKind::Type(t) && {
            &&& starts_with_word(cs@, pos as int, seq!['t', 'y', 'p', 'e']) ==> t.kind is Alias
            &&& starts_with_word(cs@, pos as int, seq!['s', 't', 'r', 'u', 'c', 't']) ==> t.kind is Struct
        }),
        strict && (starts_with_word(cs@, pos as int, seq!['u', 'n', 'i', 'o', 'n'])
            || starts_with_word(cs@, pos as int, seq!['v', 'a', 'r', 'i', 'a', 'n', 't'])) ==> r is Err,
        !starts_with_word(cs@, pos as int, seq!['t', 'y', 'p', 'e'])
            && !starts_with_word(cs@, pos as int, seq!['s', 't', 'r', 'u', 'c', 't'])
            && !starts_with_word(cs@, pos as int, seq!['u', 'n', 'i', 'o', 'n'])
            && !starts_with_word(cs@, pos as int, seq!['v', 'a', 'r', 'i', 'a', 'n', 't'])
            ==> r == Err::<Parsed<Definition>, ParseError>(ParseError::UnexpectedInput(pos)),
        forall|x: Seq<char>, w: Seq<char>, t: PrimitiveType| #[trigger] alias_written(cs@, pos as int, x, w, t) ==> (r matches Ok(p)
            && p.end == alias_end(cs@, pos as int, x, w) && p.value.name@ == x && (p.value.kind matches DefinitionKind::Type(ty)
            && ty.kind matches TypeKind::Alias(inner) && inner.kind == TypeKind::Primitive(t))),
        forall|x: Seq<char>, ms: Seq<(Seq<char>, Seq<char>, PrimitiveType)>| #[trigger] struct_written(cs@, pos as int, x, ms) ==> (r matches Ok(
            p,
        ) && p.end == struct_end(cs@, pos as int, x, ms) && p.value.name@ == x && (p.value.kind matches DefinitionKind::Type(
            ty,
        ) && ty.kind matches TypeKind::Struct(st) && members_are(st.members@, ms))),
        !strict ==> (r matches Err(e) ==> is_syntax_error(e)),
{
    proof {
        crate::parser::lemma_word_first_char(cs@, pos as int, seq!['t', 'y', 'p', 'e']);
        crate::parser::lemma_word_first_char(cs@, pos as int, seq!['s', 't', 'r', 'u', 'c', 't']);
        reveal_strlit("type");
        reveal_strlit("struct");
        reveal_strlit("union");
        reveal_strlit("variant");
        assert("type"@ =~= seq!['t', 'y', 'p', 'e']);
        assert("struct"@ =~= seq!['s', 't', 'r', 'u', 'c', 't']);
        assert("union"@ =~= seq!['u', 'n', 'i', 'o', 'n']);
        assert("variant"@ =~= seq!['v', 'a', 'r', 'i', 'a', 'n', 't']);
    }
    if keyword(cs, pos, "type").is_some() {
        handle_type_alias_definitions(cs, pos, strict)
    } else if keyword(cs, pos, "struct").is_some() {
        handle_type_struct_definitions(cs, pos, strict)
    } else if keyword(cs, pos, "union").is_some() {
        handle_type_union_definitions(cs, pos, strict)
    } else if keyword(cs, pos, "variant").is_some() {
        handle_type_variant_definitions(cs, pos, strict)
    } else {
        Err(ParseError::UnexpectedInput(pos))
    }
}

} // verus!
