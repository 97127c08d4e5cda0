pub mod expressions;
pub mod chains;
pub mod items;
pub mod precedence;
pub mod type_handling;

use vstd::prelude::*;
use crate::text::{push_char, string_from_chars, chars_of};

verus! {

/// Why a text could not be parsed.
#[derive(Debug, Clone, Copy, PartialEq, Eq, Structural)]
pub enum ParseError {
    /// the text at this position does not continue any form the grammar
    /// allows here
    UnexpectedInput(usize),
    /// a width or other number that does not fit in a `usize`
    NumberTooLarge(usize),
    /// `@name(...)` whose name is not an intrinsic
    UnknownIntrinsic(usize),
    /// a form the grammar has, which the tree does not represent yet
    /// (templates, relative paths, in-file modules, unlabelled loops,
    /// `continue`, `const`, `union` and `variant` definitions)
    Unsupported(usize),
    /// a `header` import whose path is not exactly a header and a symbol
    BadHeaderPath(usize),
}

/// A parsed value and the position just after it.
pub struct Parsed<T> {
    pub value: T,
    pub end: usize,
}

pub open spec fn is_ws(c: char) -> bool {
    c == ' ' || c == '\t' || c == '\n' || c == '\r'
}

pub open spec fn is_ident_start(c: char) -> bool {
    ('a' <= c && c <= 'z') || ('A' <= c && c <= 'Z') || c == '_'
}

pub open spec fn is_ident_char(c: char) -> bool {
    is_ident_start(c) || ('0' <= c && c <= '9')
}

/// `q` is where the whitespace that starts at `p` ends.
pub open spec fn ws_end(s: Seq<char>, p: int, q: int) -> bool {
    &&& p <= q <= s.len()
    &&& forall|i: int| p <= i < q ==> #[trigger] is_ws(s[i])
    &&& (q == s.len() || !is_ws(s[q]))
}

/// The words that cannot name anything.
pub open spec fn is_keyword(w: Seq<char>) -> bool {
    ||| w == seq!['f', 'n']
    ||| w == seq!['l', 'e', 't']
    ||| w == seq!['m', 'u', 't']
    ||| w == seq!['r', 'e', 't', 'u', 'r', 'n']
    ||| w == seq!['b', 'r', 'e', 'a', 'k']
    ||| w == seq!['c', 'o', 'n', 't', 'i', 'n', 'u', 'e']
    ||| w == seq!['w', 'h', 'i', 'l', 'e']
    ||| w == seq!['l', 'o', 'o', 'p']
    ||| w == seq!['i', 'f']
    ||| w == seq!['e', 'l', 's', 'e']
    ||| w == seq!['t', 'y', 'p', 'e']
    ||| w == seq!['s', 't', 'r', 'u', 'c', 't']
    ||| w == seq!['u', 'n', 'i', 'o', 'n']
    ||| w == seq!['v', 'a', 'r', 'i', 'a', 'n', 't']
    ||| w == seq!['i', 'n', 't', 'e', 'r']
    ||| w == seq!['e', 'x', 't', 'e', 'n', 'd']
    ||| w == seq!['a', 's']
    ||| w == seq!['m', 'o', 'd']
    ||| w == seq!['p', 'u', 'b']
    ||| w == seq!['h', 'e', 'a', 'd', 'e', 'r']
    ||| w == seq!['i', 'm', 'p', 'o', 'r', 't']
    ||| w == seq!['c', 'o', 'n', 's', 't']
}

/// A word that starts at `a` ends at one place only.
pub proof fn lemma_word_end_unique(s: Seq<char>, a: int, b: int, b2: int)
    requires
        word_at(s, a, b),
        word_at(s, a, b2),
    ensures
        b == b2,
{
    if b < b2 {
        assert(is_ident_char(s[b]));
    } else if b2 < b {
        assert(is_ident_char(s[b2]));
    }
}

/// `s[a..b]` is a whole word: identifier characters, not continued by
/// another identifier character.
pub open spec fn word_at(s: Seq<char>, a: int, b: int) -> bool {
    &&& 0 <= a < b <= s.len()
    &&& is_ident_start(s[a])
    &&& forall|i: int| a < i < b ==> #[trigger] is_ident_char(s[i])
    &&& (b == s.len() || !is_ident_char(s[b]))
}

/// The characters of a string literal body with `\n` turned into a line
/// break; any other backslash is kept with the character after it.
pub open spec fn spec_unescape(s: Seq<char>) -> Seq<char>
    decreases s.len(),
{
    if s.len() == 0 {
        Seq::empty()
    } else if s[0] == '\\' {
        if s.len() == 1 {
            seq!['\\']
        } else if s[1] == 'n' {
            seq!['\n'] + spec_unescape(s.skip(2))
        } else {
            seq!['\\', s[1]] + spec_unescape(s.skip(2))
        }
    } else {
        seq![s[0]] + spec_unescape(s.drop_first())
    }
}

/// Skips whitespace.
pub fn skip_ws(cs: &Vec<char>, pos: usize) -> (r: usize)
    requires
        pos <= cs@.len(),
    ensures
        ws_end(cs@, pos as int, r as int),
{
    let mut p = pos;
    while p < cs.len() && (cs[p] == ' ' || cs[p] == '\t' || cs[p] == '\n' || cs[p] == '\r')
        invariant
            pos <= p <= cs@.len(),
            forall|i: int| pos <= i < p ==> #[trigger] is_ws(cs@[i]),
        decreases cs@.len() - p,
    {
        p += 1;
    }
    p
}

pub fn ident_start_char(c: char) -> (r: bool)
    ensures
        r == is_ident_start(c),
{
    ('a' <= c && c <= 'z') || ('A' <= c && c <= 'Z') || c == '_'
}

pub fn ident_char(c: char) -> (r: bool)
    ensures
        r == is_ident_char(c),
{
    ident_start_char(c) || ('0' <= c && c <= '9')
}

/// Whether `cs[from..to]` holds exactly the characters of `lit`.
pub fn chars_are(cs: &Vec<char>, from: usize, lit: &str) -> (r: Option<usize>)
    requires
        from <= cs@.len(),
    ensures
        match r {
            Some(e) => e == from + lit@.len() && e <= cs@.len() && cs@.subrange(from as int, e as int) == lit@,
            None => !(from + lit@.len() <= cs@.len() && cs@.subrange(from as int, from + lit@.len()) == lit@),
        },
{
    let l = chars_of(lit);
    if l.len() > cs.len() - from {
        return None;
    }
    let n = cs.len();
    let mut i: usize = 0;
    while i < l.len()
        invariant
            n == cs@.len(),
            l@ == lit@,
            from + l@.len() <= cs@.len(),
            i <= l@.len(),
            forall|j: int| 0 <= j < i ==> cs@[from + j] == l@[j],
        decreases l@.len() - i,
    {
        if cs[from + i] != l[i] {
            assert(cs@.subrange(from as int, from + l@.len())[i as int] != lit@[i as int]);
            return None;
        }
        i += 1;
    }
    assert(cs@.subrange(from as int, from + l@.len()) =~= lit@);
    Some(from + l.len())
}

/// After whitespace, the (non-empty) symbol `lit`; the position after it.
pub fn symbol(cs: &Vec<char>, pos: usize, lit: &str) -> (r: Option<usize>)
    requires
        pos <= cs@.len(),
    ensures
        r matches Some(e) ==> pos < e <= cs@.len() && lit@.len() > 0,
        r matches Some(e) ==> exists|q: int| ws_end(cs@, pos as int, q) && e == q + lit@.len()
            && cs@.subrange(q, e as int) == lit@,
        lit@.len() > 0 && r is None ==> forall|q: int| ws_end(cs@, pos as int, q) ==> !(q + lit@.len() <= cs@.len()
            && cs@.subrange(q, q + lit@.len()) == lit@),
        r matches Some(e) ==> next_char(cs@, pos as int) == Some(lit@[0]) && e == ws_skip(cs@, pos as int) + lit@.len(),
        lit@.len() > 0 && ws_skip(cs@, pos as int) + lit@.len() <= cs@.len() && cs@.subrange(
            ws_skip(cs@, pos as int),
            ws_skip(cs@, pos as int) + lit@.len(),
        ) == lit@ ==> r == Some((ws_skip(cs@, pos as int) + lit@.len()) as usize),
{
    if lit.unicode_len() == 0 {
        return None;
    }
    let p = skip_ws(cs, pos);
    proof {
        lemma_ws_end_unique(cs@, pos as int, p as int);
        lemma_ws_skip(cs@, pos as int, p as int);
        lemma_next_char_at(cs@, pos as int, p as int);
    }
    let r = chars_are(cs, p, lit);
    proof {
        if r is Some {
            assert(cs@.subrange(p as int, p + lit@.len())[0] == cs@[p as int]);
        }
    }
    r
}

/// Where the whitespace at `pos` ends.
pub open spec fn ws_skip(s: Seq<char>, pos: int) -> int
    decreases s.len() - pos,
{
    if pos < 0 || pos >= s.len() {
        pos
    } else if is_ws(s[pos]) {
        ws_skip(s, pos + 1)
    } else {
        pos
    }
}

/// `ws_skip` gives where the whitespace at `pos` ends.
pub proof fn lemma_ws_skip_end(s: Seq<char>, pos: int)
    requires
        0 <= pos <= s.len(),
    ensures
        ws_end(s, pos, ws_skip(s, pos)),
    decreases s.len() - pos,
{
    if pos < s.len() && is_ws(s[pos]) {
        lemma_ws_skip_end(s, pos + 1);
    }
}

/// The whitespace at `pos` ends where `ws_skip` says.
pub proof fn lemma_ws_skip(s: Seq<char>, pos: int, q: int)
    requires
        0 <= pos,
        ws_end(s, pos, q),
    ensures
        ws_skip(s, pos) == q,
    decreases q - pos,
{
    if pos < q {
        assert(is_ws(s[pos]));
        lemma_ws_skip(s, pos + 1, q);
    }
}

pub proof fn lemma_ws_end_unique(s: Seq<char>, p: int, q: int)
    requires
        ws_end(s, p, q),
    ensures
        forall|q2: int| ws_end(s, p, q2) ==> q2 == q,
{
    assert forall|q2: int| ws_end(s, p, q2) implies q2 == q by {
        if q2 < q {
            assert(is_ws(s[q2]));
        } else if q2 > q {
            assert(is_ws(s[q]));
        }
    }
}

/// After whitespace, the text at `pos` starts with the (non-empty) word
/// `w`, which no identifier character continues.
pub open spec fn starts_with_word(s: Seq<char>, pos: int, w: Seq<char>) -> bool {
    &&& w.len() > 0
    &&& exists|q: int| #![trigger ws_end(s, pos, q)] ws_end(s, pos, q) && q + w.len() <= s.len() && s.subrange(q, q + w.len()) == w
        && (q + w.len() == s.len() || !is_ident_char(s[q + w.len()]))
}

/// The first character at or after `pos` that is not whitespace, if any.
pub open spec fn next_char(s: Seq<char>, pos: int) -> Option<char>
    decreases s.len() - pos,
{
    if pos < 0 || pos >= s.len() {
        None
    } else if is_ws(s[pos]) {
        next_char(s, pos + 1)
    } else {
        Some(s[pos])
    }
}

/// Where the whitespace at `pos` ends is where the next character is.
pub proof fn lemma_next_char_at(s: Seq<char>, pos: int, q: int)
    requires
        0 <= pos,
        ws_end(s, pos, q),
    ensures
        next_char(s, pos) == (if q < s.len() { Some(s[q]) } else { None::<char> }),
    decreases q - pos,
{
    if pos < q {
        assert(is_ws(s[pos]));
        lemma_next_char_at(s, pos + 1, q);
    }
}

/// A word at `pos` starts with its first character.
pub proof fn lemma_word_first_char(s: Seq<char>, pos: int, w: Seq<char>)
    requires
        0 <= pos,
    ensures
        starts_with_word(s, pos, w) ==> next_char(s, pos) == Some(w[0]),
{
    if starts_with_word(s, pos, w) {
        let q = choose|q: int| #![trigger ws_end(s, pos, q)] ws_end(s, pos, q) && q + w.len() <= s.len() && s.subrange(q, q + w.len()) == w
            && (q + w.len() == s.len() || !is_ident_char(s[q + w.len()]));
        lemma_next_char_at(s, pos, q);
        assert(s.subrange(q, q + w.len())[0] == s[q]);
    }
}

/// After whitespace, the whole word `w` (the longest run of identifier
/// characters there).
pub open spec fn word_after(s: Seq<char>, pos: int, w: Seq<char>) -> bool {
    exists|a: int, b: int| #![trigger ws_end(s, pos, a), word_at(s, a, b)] ws_end(s, pos, a) && word_at(s, a, b) && w == s.subrange(a, b)
}

/// A word after whitespace starts with the next character, which starts
/// an identifier.
pub proof fn lemma_word_after_first_char(s: Seq<char>, pos: int, w: Seq<char>)
    requires
        0 <= pos,
        word_after(s, pos, w),
    ensures
        next_char(s, pos) matches Some(c) && is_ident_start(c),
{
    let (a, b) = choose|a: int, b: int| #![trigger ws_end(s, pos, a), word_at(s, a, b)] ws_end(s, pos, a) && word_at(s, a, b)
        && w == s.subrange(a, b);
    lemma_next_char_at(s, pos, a);
}

/// After whitespace, the word `kw` ends at `e`.
pub open spec fn keyword_end(s: Seq<char>, pos: int, kw: Seq<char>, e: int) -> bool {
    exists|q: int| #![trigger ws_end(s, pos, q)] ws_end(s, pos, q) && e == q + kw.len() && e <= s.len() && s.subrange(q, e) == kw
}

/// After whitespace, the word `kw`, then, after whitespace, the
/// identifier `name` (a whole word).
pub open spec fn keyword_then_name(s: Seq<char>, pos: int, kw: Seq<char>, name: Seq<char>) -> bool {
    exists|q: int, a: int, b: int|
        #![trigger ws_end(s, pos, q), word_at(s, a, b)]
        ws_end(s, pos, q) && q + kw.len() <= s.len() && s.subrange(q, q + kw.len()) == kw
            && ws_end(s, q + kw.len(), a) && word_at(s, a, b) && name == s.subrange(a, b)
}

/// The keyword `kw` at `pos` ends at `e`, and the identifier after it is
/// `name`, ending at `b`: the name follows the keyword.
pub proof fn lemma_keyword_then_name(s: Seq<char>, pos: int, kw: Seq<char>, e: int, name: Seq<char>, b: int)
    requires
        exists|q: int| ws_end(s, pos, q) && e == q + kw.len() && s.subrange(q, e) == kw,
        exists|a: int| ws_end(s, e, a) && word_at(s, a, b) && name == s.subrange(a, b),
        e <= s.len(),
    ensures
        keyword_then_name(s, pos, kw, name),
{
    let q = choose|q: int| ws_end(s, pos, q) && e == q + kw.len() && s.subrange(q, e) == kw;
    let a = choose|a: int| ws_end(s, e, a) && word_at(s, a, b) && name == s.subrange(a, b);
    assert(ws_end(s, pos, q) && word_at(s, a, b));
}

/// After whitespace, the (non-empty) word `kw`, not followed by an
/// identifier character; the position after it.
pub fn keyword(cs: &Vec<char>, pos: usize, kw: &str) -> (r: Option<usize>)
    requires
        pos <= cs@.len(),
    ensures
        r matches Some(e) ==> pos < e <= cs@.len(),
        r matches Some(e) ==> exists|q: int| ws_end(cs@, pos as int, q) && e == q + kw@.len()
            && cs@.subrange(q, e as int) == kw@ && (e == cs@.len() || !is_ident_char(cs@[e as int])),
        r is Some <==> starts_with_word(cs@, pos as int, kw@),
{
    let p = skip_ws(cs, pos);
    proof { lemma_ws_end_unique(cs@, pos as int, p as int); }
    match symbol(cs, pos, kw) {
        Some(e) => {
            if e < cs.len() && ident_char(cs[e]) {
                proof {
                    assert(e == p + kw@.len());
                    assert(!starts_with_word(cs@, pos as int, kw@));
                }
                None
            } else {
                proof {
                    assert(ws_end(cs@, pos as int, p as int));
                }
                Some(e)
            }
        },
        None => None,
    }
}

pub(crate) fn word_is(cs: &Vec<char>, a: usize, b: usize, w: &str) -> (r: bool)
    requires
        a <= b <= cs@.len(),
    ensures
        r == (cs@.subrange(a as int, b as int) == w@),
{
    match chars_are(cs, a, w) {
        Some(e) => {
            if e == b {
                true
            } else {
                assert(cs@.subrange(a as int, b as int).len() != w@.len());
                false
            }
        },
        None => {
            proof {
                if (b - a) as int == w@.len() {
                    assert(cs@.subrange(a as int, b as int) =~= cs@.subrange(a as int, a + w@.len()));
                }
            }
            false
        },
    }
}

/// Whether `cs[a..b]` is one of the reserved words.
pub fn is_reserved(cs: &Vec<char>, a: usize, b: usize) -> (r: bool)
    requires
        a <= b <= cs@.len(),
    ensures
        r == is_keyword(cs@.subrange(a as int, b as int)),
{
    proof {
        reveal_strlit("fn");
        reveal_strlit("let");
        reveal_strlit("mut");
        reveal_strlit("return");
        reveal_strlit("break");
        reveal_strlit("continue");
        reveal_strlit("while");
        reveal_strlit("loop");
        reveal_strlit("if");
        reveal_strlit("else");
        reveal_strlit("type");
        reveal_strlit("struct");
        reveal_strlit("union");
        reveal_strlit("variant");
        reveal_strlit("inter");
        reveal_strlit("extend");
        reveal_strlit("as");
        reveal_strlit("mod");
        reveal_strlit("pub");
        reveal_strlit("header");
        reveal_strlit("import");
        reveal_strlit("const");
        assert("fn"@ =~= seq!['f', 'n']);
        assert("let"@ =~= seq!['l', 'e', 't']);
        assert("mut"@ =~= seq!['m', 'u', 't']);
        assert("return"@ =~= seq!['r', 'e', 't', 'u', 'r', 'n']);
        assert("break"@ =~= seq!['b', 'r', 'e', 'a', 'k']);
        assert("continue"@ =~= seq!['c', 'o', 'n', 't', 'i', 'n', 'u', 'e']);
        assert("while"@ =~= seq!['w', 'h', 'i', 'l', 'e']);
        assert("loop"@ =~= seq!['l', 'o', 'o', 'p']);
        assert("if"@ =~= seq!['i', 'f']);
        assert("else"@ =~= seq!['e', 'l', 's', 'e']);
        assert("type"@ =~= seq!['t', 'y', 'p', 'e']);
        assert("struct"@ =~= seq!['s', 't', 'r', 'u', 'c', 't']);
        assert("union"@ =~= seq!['u', 'n', 'i', 'o', 'n']);
        assert("variant"@ =~= seq!['v', 'a', 'r', 'i', 'a', 'n', 't']);
        assert("inter"@ =~= seq!['i', 'n', 't', 'e', 'r']);
        assert("extend"@ =~= seq!['e', 'x', 't', 'e', 'n', 'd']);
        assert("as"@ =~= seq!['a', 's']);
        assert("mod"@ =~= seq!['m', 'o', 'd']);
        assert("pub"@ =~= seq!['p', 'u', 'b']);
        assert("header"@ =~= seq!['h', 'e', 'a', 'd', 'e', 'r']);
        assert("import"@ =~= seq!['i', 'm', 'p', 'o', 'r', 't']);
        assert("const"@ =~= seq!['c', 'o', 'n', 's', 't']);
    }
    word_is(cs, a, b, "fn") || word_is(cs, a, b, "let") || word_is(cs, a, b, "mut") || word_is(cs, a, b, "return")
        || word_is(cs, a, b, "break") || word_is(cs, a, b, "continue") || word_is(cs, a, b, "while")
        || word_is(cs, a, b, "loop") || word_is(cs, a, b, "if") || word_is(cs, a, b, "else")
        || word_is(cs, a, b, "type") || word_is(cs, a, b, "struct") || word_is(cs, a, b, "union")
        || word_is(cs, a, b, "variant") || word_is(cs, a, b, "inter") || word_is(cs, a, b, "extend")
        || word_is(cs, a, b, "as") || word_is(cs, a, b, "mod") || word_is(cs, a, b, "pub")
        || word_is(cs, a, b, "header") || word_is(cs, a, b, "import") || word_is(cs, a, b, "const")
}

/// After whitespace, the longest run of identifier characters that starts
/// with a letter or `_`: its bounds.
pub fn word(cs: &Vec<char>, pos: usize) -> (r: Option<(usize, usize)>)
    requires
        pos <= cs@.len(),
    ensures
        match r {
            Some((a, b)) => ws_end(cs@, pos as int, a as int) && word_at(cs@, a as int, b as int),
            None => forall|q: int| ws_end(cs@, pos as int, q) ==> q == cs@.len() || !is_ident_start(cs@[q]),
        },
{
    let a = skip_ws(cs, pos);
    proof {
        assert forall|q: int| ws_end(cs@, pos as int, q) implies q == a by {
            if q < a {
                assert(is_ws(cs@[q]));
            } else if q > a {
                assert(is_ws(cs@[a as int]));
            }
        }
    }
    if a >= cs.len() || !ident_start_char(cs[a]) {
        return None;
    }
    let mut b = a + 1;
    while b < cs.len() && ident_char(cs[b])
        invariant
            a < b <= cs@.len(),
            forall|i: int| a < i < b ==> #[trigger] is_ident_char(cs@[i]),
        decreases cs@.len() - b,
    {
        b += 1;
    }
    Some((a, b))
}

/// After whitespace, an identifier (a word that is not reserved).
pub fn identifier(cs: &Vec<char>, pos: usize) -> (r: Option<(String, usize)>)
    requires
        pos <= cs@.len(),
    ensures
        r matches Some((s, e)) ==> pos < e <= cs@.len() && exists|a: int| ws_end(cs@, pos as int, a)
            && word_at(cs@, a, e as int) && s@ == cs@.subrange(a, e as int) && !is_keyword(s@),
        r matches Some((s, e)) ==> word_after(cs@, pos as int, s@),
        forall|b: int| #[trigger] word_at(cs@, ws_skip(cs@, pos as int), b) && !is_keyword(cs@.subrange(ws_skip(cs@, pos as int), b))
            ==> (r matches Some((s, e)) && e == b && s@ == cs@.subrange(ws_skip(cs@, pos as int), b)),
{
    let q = skip_ws(cs, pos);
    proof {
        lemma_ws_skip(cs@, pos as int, q as int);
        lemma_ws_end_unique(cs@, pos as int, q as int);
    }
    match word(cs, pos) {
        Some((a, b)) => {
            proof {
                assert forall|b2: int| #[trigger] word_at(cs@, ws_skip(cs@, pos as int), b2) implies b2 == b by {
                    lemma_word_end_unique(cs@, a as int, b as int, b2);
                }
            }
            if is_reserved(cs, a, b) {
                None
            } else {
                Some((string_from_chars(cs, a, b), b))
            }
        },
        None => None,
    }
}

/// After whitespace, a run of decimal digits: its text and the position
/// after it.
pub fn number(cs: &Vec<char>, pos: usize) -> (r: Option<(String, usize)>)
    requires
        pos <= cs@.len(),
    ensures
        (next_char(cs@, pos as int) matches Some(c) && '0' <= c <= '9') ==> r is Some,
        r matches Some((s, e)) ==> pos < e <= cs@.len() && exists|a: int| ws_end(cs@, pos as int, a) && a < e
            && s@ == cs@.subrange(a, e as int)
            && (forall|i: int| a <= i < e ==> '0' <= #[trigger] cs@[i] <= '9')
            && (e == cs@.len() || !('0' <= cs@[e as int] <= '9')),
{
    let a = skip_ws(cs, pos);
    proof { lemma_next_char_at(cs@, pos as int, a as int); }
    if a >= cs.len() || !('0' <= cs[a] && cs[a] <= '9') {
        return None;
    }
    let mut b = a + 1;
    while b < cs.len() && '0' <= cs[b] && cs[b] <= '9'
        invariant
            a < b <= cs@.len(),
            forall|i: int| a <= i < b ==> '0' <= #[trigger] cs@[i] <= '9',
        decreases cs@.len() - b,
    {
        b += 1;
    }
    Some((string_from_chars(cs, a, b), b))
}

/// Where the string literal whose body starts at `b` closes: the first `"`
/// from `b` on that no backslash escapes; `None` when the text ends first.
pub open spec fn literal_close(s: Seq<char>, b: int) -> Option<int>
    decreases s.len() - b,
{
    if b < 0 || b >= s.len() {
        None
    } else if s[b] == '"' {
        Some(b)
    } else if s[b] == '\\' && b + 1 < s.len() {
        literal_close(s, b + 2)
    } else {
        literal_close(s, b + 1)
    }
}

/// After whitespace, a string literal `"..."` (a backslash escapes the
/// character after it): its text with the quotes, and the position after
/// it.
pub fn string_literal(cs: &Vec<char>, pos: usize) -> (r: Option<(String, usize)>)
    requires
        pos <= cs@.len(),
    ensures
        r matches Some((s, e)) ==> pos < e <= cs@.len() && exists|a: int| ws_end(cs@, pos as int, a)
            && s@ == cs@.subrange(a, e as int) && s@.len() >= 2 && s@[0] == '"' && s@.last() == '"',
        ({
            let a = ws_skip(cs@, pos as int);
            &&& r is Some <==> (a < cs@.len() && cs@[a] == '"' && literal_close(cs@, a + 1) is Some)
            &&& r matches Some((s, e)) ==> e == literal_close(cs@, a + 1)->0 + 1 && s@ == cs@.subrange(a, e as int) && a + 2 <= e
        }),
{
    let a = skip_ws(cs, pos);
    proof {
        lemma_ws_skip_end(cs@, pos as int);
        lemma_ws_end_unique(cs@, pos as int, a as int);
    }
    if a >= cs.len() || cs[a] != '"' {
        return None;
    }
    let mut b = a + 1;
    while b < cs.len() && cs[b] != '"'
        invariant
            a < b <= cs@.len(),
            literal_close(cs@, b as int) == literal_close(cs@, a + 1),
        decreases cs@.len() - b,
    {
        if cs[b] == '\\' && b + 1 < cs.len() {
            b += 2;
        } else {
            b += 1;
        }
    }
    if b >= cs.len() {
        return None;
    }
    let s = string_from_chars(cs, a, b + 1);
    Some((s, b + 1))
}

/// The text of a string literal (quotes included) with its escapes read.
pub fn unescape_string_literal(raw: &str) -> (r: String)
    requires
        raw@.len() >= 2,
        raw@[0] < '\u{80}',
        raw@.last() < '\u{80}',
    ensures
        r@ == spec_unescape(raw@.subrange(1, raw@.len() - 1)),
{
    let cs = chars_of(raw);
    let end = cs.len() - 1;
    let ghost inner = cs@.subrange(1, end as int);
    let mut out = String::new();
    let mut i: usize = 1;
    while i < end
        invariant
            1 <= i <= end + 1,
            end == cs@.len() - 1,
            inner == cs@.subrange(1, end as int),
            i <= end ==> spec_unescape(inner) == out@ + spec_unescape(cs@.subrange(i as int, end as int)),
            i > end ==> spec_unescape(inner) == out@,
        decreases end + 1 - i,
    {
        let ghost rest = cs@.subrange(i as int, end as int);
        let ghost old_out = out@;
        let c = cs[i];
        if c == '\\' {
            if i + 1 < end {
                let n = cs[i + 1];
                if n == 'n' {
                    push_char(&mut out, '\n');
                } else {
                    push_char(&mut out, '\\');
                    push_char(&mut out, n);
                }
                assert(rest.skip(2) =~= cs@.subrange(i + 2, end as int));
                assert(rest[1] == n);
                i += 2;
                if i > end {
                    assert(cs@.subrange(i as int, end as int) =~= Seq::<char>::empty());
                }
            } else {
                push_char(&mut out, '\\');
                assert(rest.len() == 1);
                i += 1;
                assert(cs@.subrange(i as int, end as int) =~= Seq::<char>::empty());
            }
        } else {
            push_char(&mut out, c);
            assert(rest.drop_first() =~= cs@.subrange(i + 1, end as int));
            i += 1;
        }
        proof {
            if i <= end {
                assert(spec_unescape(inner) =~= out@ + spec_unescape(cs@.subrange(i as int, end as int)));
            } else {
                assert(spec_unescape(inner) =~= out@);
            }
        }
    }
    proof {
        if i == end {
            assert(cs@.subrange(i as int, end as int) =~= Seq::<char>::empty());
        }
    }
    out
}

} // verus!
