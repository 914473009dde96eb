//! The query expression language: a recursive-descent parser from text to
//! the abstract syntax in `query_types`, and the renderer back to text.
//! Parsing is pure; evaluation is out of scope.

use vstd::prelude::*;

pub mod query_types;

use crate::strings::{chars_to_string, str_to_chars};
use crate::utils::is_space_exec;
use query_types::{Literal, Lookup, Operator, ParseError, QueryNode, Test, TestValue};

verus! {

/// The written form of a comparison.
pub open spec fn spec_test_op(t: Test) -> Seq<char> {
    match t {
        Test::Equal => "=="@,
        Test::NotEqual => "!="@,
        Test::LessThan => "<"@,
        Test::LessThanOrEqual => "<="@,
        Test::GreaterThan => ">"@,
        Test::GreaterThanOrEqual => ">="@,
    }
}

fn render_test_op(t: Test) -> (r: &'static str)
    ensures
        r@ == spec_test_op(t),
{
    match t {
        Test::Equal => "==",
        Test::NotEqual => "!=",
        Test::LessThan => "<",
        Test::LessThanOrEqual => "<=",
        Test::GreaterThan => ">",
        Test::GreaterThanOrEqual => ">=",
    }
}

/// The written form of a connective, spaced as the renderer writes it.
pub open spec fn spec_bool_op(op: Operator) -> Seq<char> {
    match op {
        Operator::And => " && "@,
        Operator::Or => " || "@,
    }
}

fn render_bool_op(op: Operator) -> (r: &'static str)
    ensures
        r@ == spec_bool_op(op),
{
    match op {
        Operator::And => " && ",
        Operator::Or => " || ",
    }
}

/// A string literal's body with quotes and backslashes escaped.
pub open spec fn spec_escape(s: Seq<char>) -> Seq<char>
    decreases s.len(),
{
    if s.len() == 0 {
        Seq::<char>::empty()
    } else {
        (if s[0] == '"' || s[0] == '\\' {
            seq!['\\', s[0]]
        } else {
            seq![s[0]]
        }) + spec_escape(s.drop_first())
    }
}

/// The written form of a lookup.
pub open spec fn spec_render_lookup(l: Lookup) -> Seq<char> {
    match l {
        Lookup::Name => "name"@,
        Lookup::Id => "id"@,
        Lookup::Parameter(n) => "parameter:"@ + n@,
        Lookup::This(n) => "this:"@ + n@,
        Lookup::Environment(n) => "environment:"@ + n@,
    }
}

/// The written form of a literal.  Strings are double-quoted.
pub open spec fn spec_render_literal(l: Literal) -> Seq<char> {
    match l {
        Literal::Bool(b) => if b {
            "true"@
        } else {
            "false"@
        },
        Literal::Number(s) => s@,
        Literal::Text(s) => seq!['"'] + spec_escape(s@) + seq!['"'],
    }
}

/// The written form of a test operand.
pub open spec fn spec_render_value(v: TestValue) -> Seq<char> {
    match v {
        TestValue::Lookup(l) => spec_render_lookup(l),
        TestValue::Literal(l) => spec_render_literal(l),
    }
}

/// The written form of a query.
pub open spec fn spec_render(q: QueryNode) -> Seq<char>
    decreases q,
{
    match q {
        QueryNode::Latest(o) => match o {
            None => "latest"@,
            Some(b) => "latest("@ + spec_render(*b) + ")"@,
        },
        QueryNode::Single(b) => "single("@ + spec_render(*b) + ")"@,
        QueryNode::Negation(b) => "!"@ + spec_render(*b),
        QueryNode::Brackets(b) => "("@ + spec_render(*b) + ")"@,
        QueryNode::Test(t, lhs, rhs) => spec_render_value(lhs) + " "@ + spec_test_op(t) + " "@
            + spec_render_value(rhs),
        QueryNode::BooleanOp(op, l, r) => spec_render(*l) + spec_bool_op(op) + spec_render(*r),
    }
}

fn escape(s: &str) -> (r: String)
    ensures
        r@ == spec_escape(s@),
{
    let chars = str_to_chars(s);
    let n = chars.len();
    let mut out: Vec<char> = Vec::new();
    proof {
        assert(s@.skip(0) =~= s@);
    }
    for i in 0..n
        invariant
            n == chars.len(),
            chars@ == s@,
            spec_escape(s@) =~= out@ + spec_escape(s@.skip(i as int)),
    {
        let c = chars[i];
        if c == '"' || c == '\\' {
            out.push('\\');
        }
        out.push(c);
        proof {
            assert(s@.skip(i as int)[0] == s@[i as int]);
            assert(s@.skip(i as int).drop_first() =~= s@.skip(i + 1));
        }
    }
    proof {
        assert(out@ =~= spec_escape(s@));
    }
    chars_to_string(&out)
}

fn render_lookup(l: &Lookup) -> (r: String)
    ensures
        r@ == spec_render_lookup(*l),
{
    let mut out = String::new();
    match l {
        Lookup::Name => {
            out.append("name");
        },
        Lookup::Id => {
            out.append("id");
        },
        Lookup::Parameter(n) => {
            out.append("parameter:");
            out.append(n.as_str());
        },
        Lookup::This(n) => {
            out.append("this:");
            out.append(n.as_str());
        },
        Lookup::Environment(n) => {
            out.append("environment:");
            out.append(n.as_str());
        },
    }
    out
}

fn render_literal(l: &Literal) -> (r: String)
    ensures
        r@ == spec_render_literal(*l),
{
    let mut out = String::new();
    match l {
        Literal::Bool(b) => {
            if *b {
                out.append("true");
            } else {
                out.append("false");
            }
        },
        Literal::Number(s) => {
            out.append(s.as_str());
        },
        Literal::Text(s) => {
            let escaped = escape(s.as_str());
            out.append("\"");
            out.append(escaped.as_str());
            out.append("\"");
            proof {
                reveal_strlit("\"");
                assert(out@ =~= seq!['"'] + spec_escape(s@) + seq!['"']);
            }
        },
    }
    out
}

fn render_value(v: &TestValue) -> (r: String)
    ensures
        r@ == spec_render_value(*v),
{
    match v {
        TestValue::Lookup(l) => render_lookup(l),
        TestValue::Literal(l) => render_literal(l),
    }
}

/// Write a query back as text.  Rendering then parsing gives the query back.
pub fn render(q: &QueryNode) -> (r: String)
    ensures
        r@ == spec_render(*q),
    decreases *q,
{
    let mut out = String::new();
    match q {
        QueryNode::Latest(o) => {
            match o {
                None => {
                    out.append("latest");
                },
                Some(b) => {
                    let inner = render(&**b);
                    out.append("latest(");
                    out.append(inner.as_str());
                    out.append(")");
                },
            }
        },
        QueryNode::Single(b) => {
            let inner = render(&**b);
            out.append("single(");
            out.append(inner.as_str());
            out.append(")");
        },
        QueryNode::Negation(b) => {
            let inner = render(&**b);
            out.append("!");
            out.append(inner.as_str());
        },
        QueryNode::Brackets(b) => {
            let inner = render(&**b);
            out.append("(");
            out.append(inner.as_str());
            out.append(")");
        },
        QueryNode::Test(t, lhs, rhs) => {
            let l = render_value(lhs);
            let r = render_value(rhs);
            out.append(l.as_str());
            out.append(" ");
            out.append(render_test_op(*t));
            out.append(" ");
            out.append(r.as_str());
        },
        QueryNode::BooleanOp(op, l, r) => {
            let ls = render(&**l);
            let rs = render(&**r);
            out.append(ls.as_str());
            out.append(render_bool_op(*op));
            out.append(rs.as_str());
        },
    }
    out
}

fn parse_error(offset: usize, reason: &str) -> (r: ParseError)
    ensures
        r.offset == offset,
        r.reason@ == reason@,
{
    ParseError { offset, reason: reason.to_owned() }
}

/// Advance past whitespace.
fn skip_ws(chars: &Vec<char>, pos: usize) -> (r: usize)
    requires
        pos <= chars@.len(),
    ensures
        pos <= r <= chars@.len(),
        forall|i: int| pos <= i < r ==> crate::utils::is_space(#[trigger] chars@[i]),
        r < chars@.len() ==> !crate::utils::is_space(chars@[r as int]),
{
    let mut p = pos;
    while p < chars.len() && is_space_exec(chars[p])
        invariant
            pos <= p <= chars@.len(),
            forall|i: int| pos <= i < p ==> crate::utils::is_space(#[trigger] chars@[i]),
        decreases chars@.len() - p,
    {
        p = p + 1;
    }
    p
}

/// Whether `w` is written at `pos` in `s`.
pub open spec fn spec_lit_at(s: Seq<char>, pos: int, w: Seq<char>) -> bool {
    pos + w.len() <= s.len() && s.subrange(pos, pos + w.len()) == w
}

/// If `w` is written at `pos`, the position just after it.
fn match_lit(chars: &Vec<char>, pos: usize, w: &str) -> (r: Option<usize>)
    requires
        pos <= chars@.len(),
    ensures
        r matches Some(p) ==> p == pos + w@.len() && p <= chars@.len(),
        r is Some <==> spec_lit_at(chars@, pos as int, w@),
{
    let wl = w.unicode_len();
    let n = chars.len();
    if n - pos < wl {
        return None;
    }
    let mut i: usize = 0;
    while i < wl
        invariant
            n == chars@.len(),
            pos + wl <= n,
            wl == w@.len(),
            i <= wl,
            forall|j: int| 0 <= j < i ==> chars@[pos + j] == w@[j],
        decreases wl - i,
    {
        proof {
            assert(pos + i < chars@.len());
        }
        let j = pos + i;
        if chars[j] != w.get_char(i) {
            proof {
                assert(!spec_lit_at(chars@, pos as int, w@)) by {
                    if spec_lit_at(chars@, pos as int, w@) {
                        assert(chars@.subrange(pos as int, pos + w@.len())[i as int] == w@[
                            i as int]);
                    }
                }
            }
            return None;
        }
        i = i + 1;
    }
    proof {
        assert(chars@.subrange(pos as int, pos + w@.len()) =~= w@);
    }
    Some(pos + wl)
}

/// Whether `c` may continue an identifier: a letter, digit or underscore.
pub open spec fn spec_ident_char(c: char) -> bool {
    (65 <= c as int && c as int <= 90) || (97 <= c as int && c as int <= 122) || (48 <= c as int
        && c as int <= 57) || c == '_'
}

fn is_ident_char(c: char) -> (r: bool)
    ensures
        r == spec_ident_char(c),
{
    let v = c as u32;
    (65 <= v && v <= 90) || (97 <= v && v <= 122) || (48 <= v && v <= 57) || c == '_'
}

/// Whether `w` is written at `pos` in `s` as a whole word: not running into
/// a longer identifier.
pub open spec fn spec_word_at(s: Seq<char>, pos: int, w: Seq<char>) -> bool {
    spec_lit_at(s, pos, w) && (pos + w.len() == s.len() || !spec_ident_char(s[pos + w.len()]))
}

/// Match a keyword: `w` written at `pos` and not running into a longer word.
fn match_word(chars: &Vec<char>, pos: usize, w: &str) -> (r: Option<usize>)
    requires
        pos <= chars@.len(),
    ensures
        r matches Some(p) ==> p == pos + w@.len() && p <= chars@.len(),
        r is Some <==> spec_word_at(chars@, pos as int, w@),
{
    match match_lit(chars, pos, w) {
        Some(p) => {
            if p < chars.len() && is_ident_char(chars[p]) {
                None
            } else {
                Some(p)
            }
        },
        None => None,
    }
}

/// An identifier: a letter or underscore, then letters, digits, underscores.
fn parse_ident(chars: &Vec<char>, pos: usize) -> (r: Option<(String, usize)>)
    requires
        pos <= chars@.len(),
    ensures
        r matches Some((_, p)) ==> pos < p <= chars@.len(),
{
    if pos >= chars.len() {
        return None;
    }
    let c0 = chars[pos];
    let v0 = c0 as u32;
    if !((65 <= v0 && v0 <= 90) || (97 <= v0 && v0 <= 122) || c0 == '_') {
        return None;
    }
    let mut out: Vec<char> = Vec::new();
    out.push(c0);
    let mut p = pos + 1;
    while p < chars.len() && is_ident_char(chars[p])
        invariant
            pos < p <= chars@.len(),
        decreases chars@.len() - p,
    {
        out.push(chars[p]);
        p = p + 1;
    }
    Some((chars_to_string(&out), p))
}

/// A quoted string with `\"` and `\\` escapes; `pos` is just after the
/// opening quote.
fn parse_string_body(chars: &Vec<char>, pos: usize, quote: char) -> (r: Result<
    (String, usize),
    ParseError,
>)
    requires
        pos <= chars@.len(),
    ensures
        r matches Ok((_, p)) ==> pos <= p <= chars@.len(),
        r matches Err(e) ==> e.offset <= chars@.len(),
{
    let mut out: Vec<char> = Vec::new();
    let mut p = pos;
    loop
        invariant
            pos <= p <= chars@.len(),
        decreases chars@.len() - p,
    {
        if p >= chars.len() {
            return Err(parse_error(p, "unterminated string"));
        }
        let c = chars[p];
        if c == quote {
            return Ok((chars_to_string(&out), p + 1));
        }
        if c == '\\' {
            if p + 1 >= chars.len() {
                return Err(parse_error(p, "unterminated string"));
            }
            let e = chars[p + 1];
            if e != quote && e != '\\' {
                return Err(parse_error(p, "invalid escape sequence"));
            }
            out.push(e);
            p = p + 2;
        } else {
            out.push(c);
            p = p + 1;
        }
    }
}

fn is_digit_char(c: char) -> (r: bool)
    ensures
        r == crate::utils::is_digit(c),
{
    let v = c as u32;
    48 <= v && v <= 57
}

/// A number: an optional sign, digits, and an optional fraction.
fn parse_number(chars: &Vec<char>, pos: usize) -> (r: Option<(String, usize)>)
    requires
        pos <= chars@.len(),
    ensures
        r matches Some((_, p)) ==> pos < p <= chars@.len(),
        r is Some ==> pos < chars@.len() && (chars@[pos as int] == '-' || crate::utils::is_digit(
            chars@[pos as int],
        )),
{
    let mut out: Vec<char> = Vec::new();
    let mut p = pos;
    if p < chars.len() && chars[p] == '-' {
        out.push('-');
        p = p + 1;
    }
    let digits_start = p;
    while p < chars.len() && is_digit_char(chars[p])
        invariant
            pos <= p <= chars@.len(),
            digits_start <= p,
            digits_start == pos || (digits_start == pos + 1 && chars@[pos as int] == '-'),
            p > digits_start ==> digits_start < chars@.len() && crate::utils::is_digit(
                chars@[digits_start as int],
            ),
        decreases chars@.len() - p,
    {
        out.push(chars[p]);
        p = p + 1;
    }
    if p == digits_start {
        return None;
    }
    if p < chars.len() && chars[p] == '.' && p + 1 < chars.len() && is_digit_char(
        chars[p + 1],
    ) {
        out.push('.');
        p = p + 1;
        while p < chars.len() && is_digit_char(chars[p])
            invariant
                pos < p <= chars@.len(),
            decreases chars@.len() - p,
        {
            out.push(chars[p]);
            p = p + 1;
        }
    }
    Some((chars_to_string(&out), p))
}

/// A test operand drawn from the keyword alphabet alone: `name`, `id`,
/// `true` or `false`.
pub open spec fn spec_keyword_value(v: TestValue) -> bool {
    match v {
        TestValue::Lookup(l) => l == Lookup::Name || l == Lookup::Id,
        TestValue::Literal(l) => l matches Literal::Bool(_),
    }
}

proof fn lemma_keyword_value_render(v: TestValue)
    requires
        spec_keyword_value(v),
    ensures
        spec_render_value(v) == "name"@ || spec_render_value(v) == "id"@ || spec_render_value(v)
            == "true"@ || spec_render_value(v) == "false"@,
        2 <= spec_render_value(v).len() <= 5,
        spec_render_value(v)[0] == 'n' || spec_render_value(v)[0] == 'i' || spec_render_value(v)[0]
            == 't' || spec_render_value(v)[0] == 'f',
{
    reveal_strlit("name");
    reveal_strlit("id");
    reveal_strlit("true");
    reveal_strlit("false");
}

/// The hypothesis of the round-trip clauses: the input continues, at `pos`,
/// with the rendering of the keyword operand `v`, followed by `rest`, and
/// `rest` does not run the keyword into a longer word.
pub open spec fn spec_value_hyp(s: Seq<char>, pos: int, v: TestValue, rest: Seq<char>) -> bool {
    &&& spec_keyword_value(v)
    &&& s.skip(pos) == spec_render_value(v) + rest
    &&& (rest.len() == 0 || !spec_ident_char(rest[0]))
}

proof fn lemma_value_hyp_word(s: Seq<char>, pos: int, v: TestValue, rest: Seq<char>)
    requires
        0 <= pos <= s.len(),
        spec_value_hyp(s, pos, v, rest),
    ensures
        spec_word_at(s, pos, spec_render_value(v)),
        forall|j: int|
            0 <= j < spec_render_value(v).len() ==> #[trigger] s[pos + j] == spec_render_value(
                v,
            )[j],
{
    lemma_keyword_value_render(v);
    let rv = spec_render_value(v);
    assert(s.skip(pos).len() == s.len() - pos);
    assert forall|j: int| 0 <= j < rv.len() implies #[trigger] s[pos + j] == rv[j] by {
        assert(s.skip(pos)[j] == s[pos + j]);
        assert((rv + rest)[j] == rv[j]);
    }
    assert(s.subrange(pos, pos + rv.len()) =~= rv);
    if pos + rv.len() < s.len() {
        assert(rest.len() > 0);
        assert(s[pos + rv.len()] == s.skip(pos)[rv.len() as int]);
        assert((rv + rest)[rv.len() as int] == rest[0]);
        assert(!spec_ident_char(s[pos + rv.len()]));
    }
}

/// A test operand: a literal or a lookup.  The last clause is the round-trip
/// law for keyword operands: on input that continues with the rendering of
/// such an operand, exactly that operand is returned.
fn parse_value(chars: &Vec<char>, pos: usize) -> (r: Result<(TestValue, usize), ParseError>)
    requires
        pos <= chars@.len(),
    ensures
        r matches Ok((_, p)) ==> pos <= p <= chars@.len(),
        r matches Err(e) ==> e.offset <= chars@.len(),
        forall|v: TestValue, rest: Seq<char>|
            spec_value_hyp(chars@, pos as int, v, rest) ==> r == Ok::<
                (TestValue, usize),
                ParseError,
            >((v, (pos + spec_render_value(v).len()) as usize)),
{
    if pos < chars.len() && (chars[pos] == '"' || chars[pos] == '\'') {
        proof {
            assert forall|v: TestValue, rest: Seq<char>|
                spec_value_hyp(chars@, pos as int, v, rest) implies false by {
                lemma_value_hyp_word(chars@, pos as int, v, rest);
                lemma_keyword_value_render(v);
                assert(chars@[pos as int] == spec_render_value(v)[0]);
            }
        }
        let (text, p) = match parse_string_body(chars, pos + 1, chars[pos]) {
            Ok(t) => t,
            Err(e) => {
                return Err(e);
            },
        };
        return Ok((TestValue::Literal(Literal::Text(text)), p));
    }
    match parse_number(chars, pos) {
        Some((num, p)) => {
            proof {
                assert forall|v: TestValue, rest: Seq<char>|
                    spec_value_hyp(chars@, pos as int, v, rest) implies false by {
                    lemma_value_hyp_word(chars@, pos as int, v, rest);
                    lemma_keyword_value_render(v);
                    assert(chars@[pos as int] == spec_render_value(v)[0]);
                }
            }
            return Ok((TestValue::Literal(Literal::Number(num)), p));
        },
        None => {},
    }
    if let Some(p) = match_word(chars, pos, "true") {
        proof {
            assert forall|v: TestValue, rest: Seq<char>|
                spec_value_hyp(chars@, pos as int, v, rest) implies v == TestValue::Literal(
                Literal::Bool(true),
            ) && p == pos + spec_render_value(v).len() by {
                lemma_value_hyp_word(chars@, pos as int, v, rest);
                lemma_keyword_value_render(v);
                reveal_strlit("true");
                assert(spec_lit_at(chars@, pos as int, "true"@));
                assert(chars@[pos as int] == "true"@[0]);
                assert(chars@[pos as int + 1] == "true"@[1]);
                assert(chars@[pos as int] == spec_render_value(v)[0]);
                assert(chars@[pos as int + 1] == spec_render_value(v)[1]);
                reveal_strlit("name");
                reveal_strlit("id");
                reveal_strlit("false");
            }
        }
        return Ok((TestValue::Literal(Literal::Bool(true)), p));
    }
    if let Some(p) = match_word(chars, pos, "false") {
        proof {
            assert forall|v: TestValue, rest: Seq<char>|
                spec_value_hyp(chars@, pos as int, v, rest) implies v == TestValue::Literal(
                Literal::Bool(false),
            ) && p == pos + spec_render_value(v).len() by {
                lemma_value_hyp_word(chars@, pos as int, v, rest);
                lemma_keyword_value_render(v);
                reveal_strlit("false");
                assert(spec_lit_at(chars@, pos as int, "false"@));
                assert(chars@[pos as int] == "false"@[0]);
                assert(chars@[pos as int] == spec_render_value(v)[0]);
                reveal_strlit("name");
                reveal_strlit("id");
                reveal_strlit("true");
            }
        }
        return Ok((TestValue::Literal(Literal::Bool(false)), p));
    }
    if let Some(p) = match_word(chars, pos, "name") {
        proof {
            assert forall|v: TestValue, rest: Seq<char>|
                spec_value_hyp(chars@, pos as int, v, rest) implies v == TestValue::Lookup(
                Lookup::Name,
            ) && p == pos + spec_render_value(v).len() by {
                lemma_value_hyp_word(chars@, pos as int, v, rest);
                lemma_keyword_value_render(v);
                reveal_strlit("name");
                assert(spec_lit_at(chars@, pos as int, "name"@));
                assert(chars@[pos as int] == "name"@[0]);
                assert(chars@[pos as int] == spec_render_value(v)[0]);
                reveal_strlit("id");
                reveal_strlit("true");
                reveal_strlit("false");
            }
        }
        return Ok((TestValue::Lookup(Lookup::Name), p));
    }
    if let Some(p) = match_word(chars, pos, "id") {
        proof {
            assert forall|v: TestValue, rest: Seq<char>|
                spec_value_hyp(chars@, pos as int, v, rest) implies v == TestValue::Lookup(
                Lookup::Id,
            ) && p == pos + spec_render_value(v).len() by {
                lemma_value_hyp_word(chars@, pos as int, v, rest);
                lemma_keyword_value_render(v);
                reveal_strlit("id");
                assert(spec_lit_at(chars@, pos as int, "id"@));
                assert(chars@[pos as int] == "id"@[0]);
                assert(chars@[pos as int] == spec_render_value(v)[0]);
                reveal_strlit("name");
                reveal_strlit("true");
                reveal_strlit("false");
            }
        }
        return Ok((TestValue::Lookup(Lookup::Id), p));
    }
    proof {
        assert forall|v: TestValue, rest: Seq<char>|
            spec_value_hyp(chars@, pos as int, v, rest) implies false by {
            lemma_value_hyp_word(chars@, pos as int, v, rest);
            lemma_keyword_value_render(v);
            reveal_strlit("name");
            reveal_strlit("id");
            reveal_strlit("true");
            reveal_strlit("false");
            assert(spec_word_at(chars@, pos as int, spec_render_value(v)));
        }
    }
    if let Some(p) = match_lit(chars, pos, "parameter:") {
        return match parse_ident(chars, p) {
            Some((name, p2)) => Ok((TestValue::Lookup(Lookup::Parameter(name)), p2)),
            None => Err(parse_error(p, "expected identifier")),
        };
    }
    if let Some(p) = match_lit(chars, pos, "this:") {
        return match parse_ident(chars, p) {
            Some((name, p2)) => Ok((TestValue::Lookup(Lookup::This(name)), p2)),
            None => Err(parse_error(p, "expected identifier")),
        };
    }
    if let Some(p) = match_lit(chars, pos, "environment:") {
        return match parse_ident(chars, p) {
            Some((name, p2)) => Ok((TestValue::Lookup(Lookup::Environment(name)), p2)),
            None => Err(parse_error(p, "expected identifier")),
        };
    }
    Err(parse_error(pos, "expected value"))
}

/// The hypothesis of the round-trip clause for comparisons: the input
/// continues, at `pos`, with the written form of `t`, and what follows does
/// not extend a one-character operator into a two-character one.
pub open spec fn spec_cmp_hyp(s: Seq<char>, pos: int, t: Test, rest: Seq<char>) -> bool {
    &&& s.skip(pos) == spec_test_op(t) + rest
    &&& (rest.len() == 0 || rest[0] != '=')
}

proof fn lemma_cmp_hyp_lit(s: Seq<char>, pos: int, t: Test, rest: Seq<char>)
    requires
        0 <= pos <= s.len(),
        spec_cmp_hyp(s, pos, t, rest),
    ensures
        spec_lit_at(s, pos, spec_test_op(t)),
        forall|j: int|
            0 <= j < spec_test_op(t).len() ==> #[trigger] s[pos + j] == spec_test_op(t)[j],
        pos + spec_test_op(t).len() < s.len() ==> s[pos + spec_test_op(t).len()] != '=',
{
    reveal_strlit("==");
    reveal_strlit("!=");
    reveal_strlit("<");
    reveal_strlit("<=");
    reveal_strlit(">");
    reveal_strlit(">=");
    let op = spec_test_op(t);
    assert(s.skip(pos).len() == s.len() - pos);
    assert forall|j: int| 0 <= j < op.len() implies #[trigger] s[pos + j] == op[j] by {
        assert(s.skip(pos)[j] == s[pos + j]);
        assert((op + rest)[j] == op[j]);
    }
    assert(s.subrange(pos, pos + op.len()) =~= op);
    if pos + op.len() < s.len() {
        assert(rest.len() > 0);
        assert(s[pos + op.len()] == s.skip(pos)[op.len() as int]);
        assert((op + rest)[op.len() as int] == rest[0]);
    }
}

/// A comparison operator.  The last clause is the round-trip law: on input
/// that continues with the written form of a comparison, exactly that
/// comparison is returned.
fn parse_cmp(chars: &Vec<char>, pos: usize) -> (r: Result<(Test, usize), ParseError>)
    requires
        pos <= chars@.len(),
    ensures
        r matches Ok((_, p)) ==> pos <= p <= chars@.len(),
        r matches Err(e) ==> e.offset <= chars@.len(),
        forall|t: Test, rest: Seq<char>|
            spec_cmp_hyp(chars@, pos as int, t, rest) ==> r == Ok::<(Test, usize), ParseError>((
                t,
                (pos + spec_test_op(t).len()) as usize,
            )),
{
    if let Some(p) = match_lit(chars, pos, "==") {
        proof {
            assert forall|t: Test, rest: Seq<char>|
                spec_cmp_hyp(chars@, pos as int, t, rest) implies t == Test::Equal && p == pos
                + spec_test_op(t).len() by {
                lemma_cmp_hyp_lit(chars@, pos as int, t, rest);
                reveal_strlit("==");
                assert(chars@[pos as int] == "=="@[0]);
                assert(chars@[pos as int] == spec_test_op(t)[0]);
                reveal_strlit("!=");
                reveal_strlit("<");
                reveal_strlit("<=");
                reveal_strlit(">");
                reveal_strlit(">=");
            }
        }
        return Ok((Test::Equal, p));
    }
    if let Some(p) = match_lit(chars, pos, "!=") {
        proof {
            assert forall|t: Test, rest: Seq<char>|
                spec_cmp_hyp(chars@, pos as int, t, rest) implies t == Test::NotEqual && p == pos
                + spec_test_op(t).len() by {
                lemma_cmp_hyp_lit(chars@, pos as int, t, rest);
                reveal_strlit("==");
                reveal_strlit("!=");
                reveal_strlit("<");
                reveal_strlit("<=");
                reveal_strlit(">");
                reveal_strlit(">=");
                assert(chars@[pos as int] == "!="@[0]);
                assert(chars@[pos as int] == spec_test_op(t)[0]);
            }
        }
        return Ok((Test::NotEqual, p));
    }
    if let Some(p) = match_lit(chars, pos, "<=") {
        proof {
            assert forall|t: Test, rest: Seq<char>|
                spec_cmp_hyp(chars@, pos as int, t, rest) implies t == Test::LessThanOrEqual && p
                == pos + spec_test_op(t).len() by {
                lemma_cmp_hyp_lit(chars@, pos as int, t, rest);
                reveal_strlit("==");
                reveal_strlit("!=");
                reveal_strlit("<");
                reveal_strlit("<=");
                reveal_strlit(">");
                reveal_strlit(">=");
                assert(chars@[pos as int] == "<="@[0]);
                assert(chars@[pos as int + 1] == "<="@[1]);
                assert(chars@[pos as int] == spec_test_op(t)[0]);
                if t == Test::LessThan {
                    // A bare `<` would be followed by `=`, which the
                    // hypothesis rules out.
                    assert(pos + 1 < chars@.len());
                    assert(chars@[pos as int + 1] != '=');
                }
            }
        }
        return Ok((Test::LessThanOrEqual, p));
    }
    if let Some(p) = match_lit(chars, pos, ">=") {
        proof {
            assert forall|t: Test, rest: Seq<char>|
                spec_cmp_hyp(chars@, pos as int, t, rest) implies t == Test::GreaterThanOrEqual
                && p == pos + spec_test_op(t).len() by {
                lemma_cmp_hyp_lit(chars@, pos as int, t, rest);
                reveal_strlit("==");
                reveal_strlit("!=");
                reveal_strlit("<");
                reveal_strlit("<=");
                reveal_strlit(">");
                reveal_strlit(">=");
                assert(chars@[pos as int] == ">="@[0]);
                assert(chars@[pos as int + 1] == ">="@[1]);
                assert(chars@[pos as int] == spec_test_op(t)[0]);
                if t == Test::GreaterThan {
                    assert(pos + 1 < chars@.len());
                    assert(chars@[pos as int + 1] != '=');
                }
            }
        }
        return Ok((Test::GreaterThanOrEqual, p));
    }
    if let Some(p) = match_lit(chars, pos, "<") {
        proof {
            assert forall|t: Test, rest: Seq<char>|
                spec_cmp_hyp(chars@, pos as int, t, rest) implies t == Test::LessThan && p == pos
                + spec_test_op(t).len() by {
                lemma_cmp_hyp_lit(chars@, pos as int, t, rest);
                reveal_strlit("==");
                reveal_strlit("!=");
                reveal_strlit("<");
                reveal_strlit("<=");
                reveal_strlit(">");
                reveal_strlit(">=");
                assert(chars@[pos as int] == "<"@[0]);
                assert(chars@[pos as int] == spec_test_op(t)[0]);
                if t == Test::LessThanOrEqual {
                    // `<=` at `pos` would have matched above.
                    assert(spec_lit_at(chars@, pos as int, "<="@));
                }
            }
        }
        return Ok((Test::LessThan, p));
    }
    if let Some(p) = match_lit(chars, pos, ">") {
        proof {
            assert forall|t: Test, rest: Seq<char>|
                spec_cmp_hyp(chars@, pos as int, t, rest) implies t == Test::GreaterThan && p
                == pos + spec_test_op(t).len() by {
                lemma_cmp_hyp_lit(chars@, pos as int, t, rest);
                reveal_strlit("==");
                reveal_strlit("!=");
                reveal_strlit("<");
                reveal_strlit("<=");
                reveal_strlit(">");
                reveal_strlit(">=");
                assert(chars@[pos as int] == ">"@[0]);
                assert(chars@[pos as int] == spec_test_op(t)[0]);
                if t == Test::GreaterThanOrEqual {
                    assert(spec_lit_at(chars@, pos as int, ">="@));
                }
            }
        }
        return Ok((Test::GreaterThan, p));
    }
    proof {
        assert forall|t: Test, rest: Seq<char>|
            spec_cmp_hyp(chars@, pos as int, t, rest) implies false by {
            lemma_cmp_hyp_lit(chars@, pos as int, t, rest);
            reveal_strlit("==");
            reveal_strlit("!=");
            reveal_strlit("<");
            reveal_strlit("<=");
            reveal_strlit(">");
            reveal_strlit(">=");
            assert(spec_lit_at(chars@, pos as int, spec_test_op(t)));
        }
    }
    Err(parse_error(pos, "expected comparison operator"))
}

/// A single test over keyword operands.
pub open spec fn spec_simple_test(q: QueryNode) -> bool {
    &&& q is Test
    &&& spec_keyword_value(q->Test_1)
    &&& spec_keyword_value(q->Test_2)
}

/// The fragment of the query language whose parse/render round trip is
/// stated on `parse_query`: single tests over keyword operands, under any
/// nesting of `latest`, `single`, negation and brackets.
pub open spec fn spec_round_query(q: QueryNode) -> bool
    decreases q,
{
    match q {
        QueryNode::Test(_, _, _) => spec_simple_test(q),
        QueryNode::Latest(o) => match o {
            None => true,
            Some(b) => spec_round_query(*b),
        },
        QueryNode::Single(b) => spec_round_query(*b),
        QueryNode::Negation(b) => spec_round_query(*b),
        QueryNode::Brackets(b) => spec_round_query(*b),
        QueryNode::BooleanOp(_, _, _) => false,
    }
}

/// What may follow a rendered fragment without changing how it parses:
/// nothing, or a closing bracket.
pub open spec fn spec_rest_ok(rest: Seq<char>) -> bool {
    rest.len() == 0 || rest[0] == ')'
}

/// The hypothesis of the round-trip clauses on the grammar productions: the
/// input continues, at `pos`, with the rendering of the fragment query `q`,
/// followed at most by closing brackets.
pub open spec fn spec_query_hyp(s: Seq<char>, pos: int, q: QueryNode, rest: Seq<char>) -> bool {
    &&& spec_round_query(q)
    &&& s.skip(pos) == spec_render(q) + rest
    &&& spec_rest_ok(rest)
}

/// The opening character of a rendered fragment names its head constructor.
proof fn lemma_round_first(q: QueryNode)
    requires
        spec_round_query(q),
    ensures
        spec_render(q).len() > 0,
        q is Test ==> (spec_render(q)[0] == 'n' || spec_render(q)[0] == 'i' || spec_render(q)[0]
            == 't' || spec_render(q)[0] == 'f'),
        q is Latest ==> spec_render(q)[0] == 'l',
        q is Single ==> spec_render(q)[0] == 's',
        q is Negation ==> spec_render(q)[0] == '!',
        q is Brackets ==> spec_render(q)[0] == '(',
        !crate::utils::is_space(spec_render(q)[0]),
        spec_render(q)[0] != ')',
        spec_render(q)[0] != '&',
        spec_render(q)[0] != '=',
{
    reveal_strlit("latest");
    reveal_strlit("latest(");
    reveal_strlit("single(");
    reveal_strlit("!");
    reveal_strlit("(");
    match q {
        QueryNode::Test(t, lhs, rhs) => {
            lemma_keyword_value_render(lhs);
            let rv1 = spec_render_value(lhs);
            assert(spec_render(q)[0] == rv1[0]);
        },
        _ => {},
    }
}

/// Under the round-trip hypothesis, the input continues with the fragment's
/// opening character.
proof fn lemma_hyp_first(s: Seq<char>, pos: int, q: QueryNode, rest: Seq<char>)
    requires
        0 <= pos <= s.len(),
        spec_query_hyp(s, pos, q, rest),
    ensures
        pos < s.len(),
        s[pos] == spec_render(q)[0],
        !crate::utils::is_space(s[pos]),
{
    lemma_round_first(q);
    assert(s.skip(pos).len() == s.len() - pos);
    assert(s.skip(pos)[0] == s[pos]);
    assert((spec_render(q) + rest)[0] == spec_render(q)[0]);
}

proof fn lemma_concat_skip<A>(s: Seq<A>, pos: int, a: Seq<A>, b: Seq<A>)
    requires
        0 <= pos <= s.len(),
        s.skip(pos) == a + b,
    ensures
        s.skip(pos + a.len()) =~= b,
        forall|j: int| 0 <= j < a.len() ==> s[pos + j] == a[j],
        a.len() > 0 ==> s[pos] == a[0],
{
    assert(s.skip(pos).len() == s.len() - pos);
    if a.len() > 0 {
        assert(s.skip(pos)[0] == s[pos]);
        assert((a + b)[0] == a[0]);
    }
    assert forall|j: int| 0 <= j < a.len() implies s[pos + j] == a[j] by {
        assert(s.skip(pos)[j] == s[pos + j]);
        assert((a + b)[j] == a[j]);
    }
    assert forall|j: int| 0 <= j < b.len() implies s.skip(pos + a.len())[j] == b[j] by {
        assert(s.skip(pos + a.len())[j] == s[pos + a.len() + j]);
        assert(s.skip(pos)[a.len() + j] == s[pos + a.len() + j]);
        assert((a + b)[a.len() + j] == b[j]);
    }
}

#[verifier::rlimit(50)]
proof fn lemma_simple_test_layout(s: Seq<char>, pos: int, q: QueryNode, rest: Seq<char>)
    requires
        0 <= pos <= s.len(),
        spec_simple_test(q),
        spec_rest_ok(rest),
        s.skip(pos) == spec_render(q) + rest,
    ensures
        ({
            let l1 = spec_render_value(q->Test_1).len() as int;
            let opl = spec_test_op(q->Test_0).len() as int;
            let l2 = spec_render_value(q->Test_2).len() as int;
            &&& s.len() == pos + l1 + 1 + opl + 1 + l2 + rest.len()
            &&& spec_value_hyp(s, pos, q->Test_1, s.skip(pos + l1))
            &&& s[pos + l1] == ' '
            &&& spec_cmp_hyp(s, pos + l1 + 1, q->Test_0, s.skip(pos + l1 + 1 + opl))
            &&& s[pos + l1 + 1 + opl] == ' '
            &&& spec_value_hyp(s, pos + l1 + 1 + opl + 1, q->Test_2, rest)
            &&& s.skip(pos + l1 + 1 + opl + 1 + l2) =~= rest
            &&& s[pos + l1 + 1] == spec_test_op(q->Test_0)[0]
        }),
{
    reveal_strlit(" ");
    reveal_strlit(")");
    let rv1 = spec_render_value(q->Test_1);
    let op = spec_test_op(q->Test_0);
    let rv2 = spec_render_value(q->Test_2);
    let l1 = rv1.len() as int;
    let opl = op.len() as int;
    let l2 = rv2.len() as int;
    lemma_keyword_value_render(q->Test_1);
    lemma_keyword_value_render(q->Test_2);
    assert(op.len() >= 1) by {
        reveal_strlit("==");
        reveal_strlit("!=");
        reveal_strlit("<");
        reveal_strlit("<=");
        reveal_strlit(">");
        reveal_strlit(">=");
    }
    // Regroup the rendering so that it peels off the front.
    let tail3 = " "@ + (rv2 + rest);
    let tail2 = op + tail3;
    let tail1 = " "@ + tail2;
    assert(s.skip(pos) =~= rv1 + tail1);
    assert(s.skip(pos).len() == s.len() - pos);
    assert(s.len() == pos + l1 + 1 + opl + 1 + l2 + rest.len());
    lemma_concat_skip(s, pos, rv1, tail1);
    assert(s.skip(pos + l1) == tail1);
    lemma_concat_skip(s, pos + l1, " "@, tail2);
    assert(s[pos + l1] == ' ');
    assert(s.skip(pos + l1 + 1) == tail2);
    lemma_concat_skip(s, pos + l1 + 1, op, tail3);
    assert(s.skip(pos + l1 + 1 + opl) == tail3);
    lemma_concat_skip(s, pos + l1 + 1 + opl, " "@, rv2 + rest);
    assert(s[pos + l1 + 1 + opl] == ' ');
    assert(s.skip(pos + l1 + 1 + opl + 1) == rv2 + rest);
    lemma_concat_skip(s, pos + l1 + 1 + opl + 1, rv2, rest);
    // The left operand, followed by a space.
    assert(!spec_ident_char(' '));
    assert(s.skip(pos) == rv1 + s.skip(pos + l1));
    assert(s.skip(pos + l1).len() > 0 && s.skip(pos + l1)[0] == ' ');
    assert(spec_value_hyp(s, pos, q->Test_1, s.skip(pos + l1)));
    // The comparison, followed by a space.
    assert(s.skip(pos + l1 + 1) == op + s.skip(pos + l1 + 1 + opl));
    assert(s.skip(pos + l1 + 1 + opl).len() > 0 && s.skip(pos + l1 + 1 + opl)[0] == ' ');
    assert(spec_cmp_hyp(s, pos + l1 + 1, q->Test_0, s.skip(pos + l1 + 1 + opl)));
    // The right operand, followed at most by closing brackets.
    assert(!spec_ident_char(')'));
    assert(spec_value_hyp(s, pos + l1 + 1 + opl + 1, q->Test_2, rest));
    assert(s[pos + l1 + 1] == op[0]);
}

/// Peel a literal prefix off a rendered wrapper: the input continues with
/// `prefix`, then the rendering of `inner`, then a closing bracket.
proof fn lemma_wrap_decompose(
    s: Seq<char>,
    pos: int,
    prefix: Seq<char>,
    inner: QueryNode,
    rest: Seq<char>,
)
    requires
        0 <= pos <= s.len(),
        spec_round_query(inner),
        spec_rest_ok(rest),
        s.skip(pos) == (prefix + spec_render(inner) + ")"@) + rest,
    ensures
        spec_lit_at(s, pos, prefix),
        spec_query_hyp(s, pos + prefix.len(), inner, ")"@ + rest),
        s.len() == pos + prefix.len() + spec_render(inner).len() + 1 + rest.len(),
        s.skip(pos + prefix.len() + spec_render(inner).len()) =~= ")"@ + rest,
        s[pos + prefix.len() + spec_render(inner).len()] == ')',
{
    reveal_strlit(")");
    let ri = spec_render(inner);
    assert(s.skip(pos) =~= prefix + (ri + (")"@ + rest)));
    assert(s.skip(pos).len() == s.len() - pos);
    assert(s.len() == pos + prefix.len() + ri.len() + 1 + rest.len());
    lemma_concat_skip(s, pos, prefix, ri + (")"@ + rest));
    assert(s.subrange(pos, pos + prefix.len()) =~= prefix);
    assert(s.skip(pos + prefix.len()) == ri + (")"@ + rest));
    lemma_concat_skip(s, pos + prefix.len(), ri, ")"@ + rest);
    assert(s.skip(pos + prefix.len() + ri.len()) == ")"@ + rest);
    assert((")"@ + rest)[0] == ')');
    assert(spec_rest_ok(")"@ + rest));
}

/// `primary := latest (...)? | single (...) | (...) | test`.  The last
/// clause is the round-trip law for the fragment.
#[verifier::rlimit(100)]
fn parse_primary(chars: &Vec<char>, pos: usize) -> (r: Result<(QueryNode, usize), ParseError>)
    requires
        pos <= chars@.len(),
    ensures
        r matches Ok((_, p)) ==> pos <= p <= chars@.len(),
        r matches Err(e) ==> e.offset <= chars@.len(),
        forall|q: QueryNode, rest: Seq<char>|
            spec_query_hyp(chars@, pos as int, q, rest) && !(q is Negation) ==> r == Ok::<
                (QueryNode, usize),
                ParseError,
            >((q, (pos + spec_render(q).len()) as usize)),
    decreases chars@.len() - pos, 0int,
{
    proof {
        reveal_strlit("latest");
        reveal_strlit("latest(");
        reveal_strlit("single");
        reveal_strlit("single(");
        reveal_strlit("(");
        reveal_strlit(")");
    }
    let p0 = skip_ws(chars, pos);
    if let Some(p1) = match_word(chars, p0, "latest") {
        proof {
            assert forall|q: QueryNode, rest: Seq<char>|
                spec_query_hyp(chars@, pos as int, q, rest) && !(q is Negation) implies q is Latest && p0 == pos by {
                lemma_hyp_first(chars@, pos as int, q, rest);
                lemma_round_first(q);
                if p0 != pos {
                    assert(crate::utils::is_space(chars@[pos as int]));
                }
                assert(spec_lit_at(chars@, p0 as int, "latest"@));
                assert(chars@.subrange(p0 as int, p0 as int + 6)[0] == chars@[p0 as int]);
            }
        }
        let p2 = skip_ws(chars, p1);
        if let Some(p3) = match_lit(chars, p2, "(") {
            proof {
                assert forall|q: QueryNode, rest: Seq<char>|
                    spec_query_hyp(chars@, pos as int, q, rest) && !(q is Negation) implies (q->Latest_0 is Some && {
                    let inner = *q->Latest_0->0;
                    &&& spec_query_hyp(chars@, pos + 7, inner, ")"@ + rest)
                    &&& p2 == pos + 6
                    &&& p3 == pos + 7
                    &&& chars@.len() == pos + 7 + spec_render(inner).len() + 1 + rest.len()
                    &&& chars@[pos + 7 + spec_render(inner).len()] == ')'
                }) by {
                    lemma_hyp_first(chars@, pos as int, q, rest);
                    lemma_round_first(q);
                    if p0 != pos {
                        assert(crate::utils::is_space(chars@[pos as int]));
                    }
                    if q->Latest_0 is None {
                        // A bare `latest` is followed at most by closing
                        // brackets, never by `(`.
                        assert(chars@.skip(pos as int) == "latest"@ + rest);
                        lemma_concat_skip(chars@, pos as int, "latest"@, rest);
                        assert(chars@.skip(pos + 6) =~= rest);
                        assert(p1 == pos + 6);
                        assert(spec_lit_at(chars@, p2 as int, "("@));
                        assert(chars@[p2 as int] == '(');
                        if p2 == p1 {
                            if rest.len() == 0 {
                                assert(p1 == chars@.len());
                            } else {
                                assert(chars@.skip(pos + 6)[0] == chars@[p1 as int]);
                            }
                            assert(false);
                        } else {
                            assert(crate::utils::is_space(chars@[p1 as int]));
                            assert(chars@.skip(pos + 6)[0] == chars@[p1 as int]);
                            assert(rest[0] == ')');
                            assert(false);
                        }
                    }
                    let inner = *q->Latest_0->0;
                    assert(chars@.skip(pos as int) == ("latest("@ + spec_render(inner) + ")"@)
                        + rest);
                    lemma_wrap_decompose(chars@, pos as int, "latest("@, inner, rest);
                    assert(p1 == pos + 6);
                    lemma_hyp_first(chars@, pos + 7, inner, ")"@ + rest);
                    assert(chars@[p1 as int] == '(') by {
                        assert(chars@.subrange(pos as int, pos + 7)[6] == chars@[pos + 6]);
                    }
                    if p2 != p1 {
                        assert(crate::utils::is_space(chars@[p1 as int]));
                    }
                    assert(p2 == pos + 6);
                    assert(p3 == pos + 7);
                }
            }
            let p4 = skip_ws(chars, p3);
            if let Some(p5) = match_lit(chars, p4, ")") {
                proof {
                    assert forall|q: QueryNode, rest: Seq<char>|
                        spec_query_hyp(chars@, pos as int, q, rest) && !(q is Negation) implies false by {
                        let inner = *q->Latest_0->0;
                        lemma_hyp_first(chars@, pos + 7, inner, ")"@ + rest);
                        if p4 != p3 {
                            assert(crate::utils::is_space(chars@[p3 as int]));
                        }
                        assert(p4 == pos + 7);
                        assert(spec_lit_at(chars@, p4 as int, ")"@));
                        assert(chars@.subrange(p4 as int, p4 as int + 1)[0] == chars@[p4 as int]);
                        lemma_round_first(inner);
                    }
                }
                return Ok((QueryNode::Latest(None), p5));
            }
            let (inner, p5) = match parse_or(chars, p3) {
                Ok(t) => t,
                Err(e) => {
                    proof {
                        assert forall|q: QueryNode, rest: Seq<char>|
                            spec_query_hyp(chars@, pos as int, q, rest) && !(q is Negation) implies false by {
                            let inner_q = *q->Latest_0->0;
                            assert(spec_query_hyp(chars@, p3 as int, inner_q, ")"@ + rest));
                        }
                    }
                    return Err(e);
                },
            };
            let p6 = skip_ws(chars, p5);
            proof {
                assert forall|q: QueryNode, rest: Seq<char>|
                    spec_query_hyp(chars@, pos as int, q, rest) && !(q is Negation) implies ({
                    let inner_q = *q->Latest_0->0;
                    &&& inner == inner_q
                    &&& p6 == pos + 7 + spec_render(inner_q).len()
                    &&& spec_lit_at(chars@, p6 as int, ")"@)
                    &&& pos + spec_render(q).len() == p6 + 1
                }) by {
                    let inner_q = *q->Latest_0->0;
                    assert(chars@.len() == chars.len());
                    assert(spec_query_hyp(chars@, p3 as int, inner_q, ")"@ + rest));
                    assert(chars@.skip(p3 as int).len() == chars@.len() - p3);
                    assert(inner == inner_q && p5 == pos + 7 + spec_render(inner_q).len());
                    assert(chars@[p5 as int] == ')');
                    if p6 != p5 {
                        assert(crate::utils::is_space(chars@[p5 as int]));
                    }
                    assert(p6 == p5);
                    assert(chars@.subrange(p6 as int, p6 as int + 1) =~= ")"@) by {
                        reveal_strlit(")");
                    }
                }
            }
            return match match_lit(chars, p6, ")") {
                Some(p7) => Ok((QueryNode::Latest(Some(Box::new(inner))), p7)),
                None => Err(parse_error(p6, "expected ')'")),
            };
        }
        proof {
            assert forall|q: QueryNode, rest: Seq<char>|
                spec_query_hyp(chars@, pos as int, q, rest) && !(q is Negation) implies (q == QueryNode::Latest(
                None::<Box<QueryNode>>,
            ) && p1 == pos + spec_render(q).len()) by {
                lemma_hyp_first(chars@, pos as int, q, rest);
                if p0 != pos {
                    assert(crate::utils::is_space(chars@[pos as int]));
                }
                if q->Latest_0 is Some {
                    let inner = *q->Latest_0->0;
                    assert(chars@.skip(pos as int) == ("latest("@ + spec_render(inner) + ")"@)
                        + rest);
                    lemma_wrap_decompose(chars@, pos as int, "latest("@, inner, rest);
                    assert(p1 == pos + 6);
                    assert(chars@[p1 as int] == '(') by {
                        assert(chars@.subrange(pos as int, pos + 7)[6] == chars@[pos + 6]);
                    }
                    if p2 != p1 {
                        assert(crate::utils::is_space(chars@[p1 as int]));
                    }
                    assert(p2 == p1);
                    assert(spec_lit_at(chars@, p2 as int, "("@)) by {
                        assert(chars@.subrange(p2 as int, p2 as int + 1) =~= "("@);
                    }
                    assert(false);
                }
            }
        }
        return Ok((QueryNode::Latest(None), p1));
    }
    if let Some(p1) = match_word(chars, p0, "single") {
        proof {
            assert forall|q: QueryNode, rest: Seq<char>|
                spec_query_hyp(chars@, pos as int, q, rest) && !(q is Negation) implies (q is Single && p0 == pos && {
                let inner = *q->Single_0;
                &&& spec_query_hyp(chars@, pos + 7, inner, ")"@ + rest)
                &&& p1 == pos + 6
                &&& chars@[pos + 6] == '('
            }) by {
                lemma_hyp_first(chars@, pos as int, q, rest);
                lemma_round_first(q);
                if p0 != pos {
                    assert(crate::utils::is_space(chars@[pos as int]));
                }
                assert(spec_lit_at(chars@, p0 as int, "single"@));
                assert(chars@.subrange(p0 as int, p0 as int + 6)[0] == chars@[p0 as int]);
                let inner = *q->Single_0;
                assert(chars@.skip(pos as int) == ("single("@ + spec_render(inner) + ")"@) + rest);
                lemma_wrap_decompose(chars@, pos as int, "single("@, inner, rest);
                assert(chars@[pos + 6] == '(') by {
                    assert(chars@.subrange(pos as int, pos + 7)[6] == chars@[pos + 6]);
                }
            }
        }
        let p2 = skip_ws(chars, p1);
        let p3 = match match_lit(chars, p2, "(") {
            Some(p3) => p3,
            None => {
                proof {
                    assert forall|q: QueryNode, rest: Seq<char>|
                        spec_query_hyp(chars@, pos as int, q, rest) && !(q is Negation) implies false by {
                        if p2 != p1 {
                            assert(crate::utils::is_space(chars@[p1 as int]));
                        }
                        assert(p2 == p1);
                        assert(spec_lit_at(chars@, p2 as int, "("@)) by {
                            assert(chars@.subrange(p2 as int, p2 as int + 1) =~= "("@);
                        }
                    }
                }
                return Err(parse_error(p2, "expected '('"));
            },
        };
        let (inner, p4) = match parse_or(chars, p3) {
            Ok(t) => t,
            Err(e) => {
                proof {
                    assert forall|q: QueryNode, rest: Seq<char>|
                        spec_query_hyp(chars@, pos as int, q, rest) && !(q is Negation) implies false by {
                        let inner_q = *q->Single_0;
                        assert(p3 == pos + 7);
                        assert(spec_query_hyp(chars@, p3 as int, inner_q, ")"@ + rest));
                    }
                }
                return Err(e);
            },
        };
        let p5 = skip_ws(chars, p4);
        proof {
            assert forall|q: QueryNode, rest: Seq<char>|
                spec_query_hyp(chars@, pos as int, q, rest) && !(q is Negation) implies ({
                let inner_q = *q->Single_0;
                &&& inner == inner_q
                &&& p5 == pos + 7 + spec_render(inner_q).len()
                &&& spec_lit_at(chars@, p5 as int, ")"@)
                &&& pos + spec_render(q).len() == p5 + 1
            }) by {
                let inner_q = *q->Single_0;
                assert(chars@.len() == chars.len());
                assert(p3 == pos + 7);
                assert(spec_query_hyp(chars@, p3 as int, inner_q, ")"@ + rest));
                assert(chars@.skip(p3 as int).len() == chars@.len() - p3);
                assert(inner == inner_q && p4 == pos + 7 + spec_render(inner_q).len());
                assert(chars@.skip(pos as int) == ("single("@ + spec_render(inner_q) + ")"@)
                    + rest);
                lemma_wrap_decompose(chars@, pos as int, "single("@, inner_q, rest);
                assert(chars@[p4 as int] == ')');
                if p5 != p4 {
                    assert(crate::utils::is_space(chars@[p4 as int]));
                }
                assert(p5 == p4);
                assert(chars@.subrange(p5 as int, p5 as int + 1) =~= ")"@) by {
                    reveal_strlit(")");
                }
            }
        }
        return match match_lit(chars, p5, ")") {
            Some(p6) => Ok((QueryNode::Single(Box::new(inner)), p6)),
            None => Err(parse_error(p5, "expected ')'")),
        };
    }
    if let Some(p1) = match_lit(chars, p0, "(") {
        proof {
            assert forall|q: QueryNode, rest: Seq<char>|
                spec_query_hyp(chars@, pos as int, q, rest) && !(q is Negation) implies (q is Brackets && p0 == pos && {
                let inner = *q->Brackets_0;
                &&& spec_query_hyp(chars@, pos + 1, inner, ")"@ + rest)
                &&& p1 == pos + 1
            }) by {
                lemma_hyp_first(chars@, pos as int, q, rest);
                lemma_round_first(q);
                if p0 != pos {
                    assert(crate::utils::is_space(chars@[pos as int]));
                }
                assert(spec_lit_at(chars@, p0 as int, "("@));
                assert(chars@.subrange(p0 as int, p0 as int + 1)[0] == chars@[p0 as int]);
                if q is Latest || q is Single || q is Test {
                    assert(false);
                }
                let inner = *q->Brackets_0;
                assert(chars@.skip(pos as int) == ("("@ + spec_render(inner) + ")"@) + rest);
                lemma_wrap_decompose(chars@, pos as int, "("@, inner, rest);
            }
        }
        let (inner, p2) = match parse_or(chars, p1) {
            Ok(t) => t,
            Err(e) => {
                proof {
                    assert forall|q: QueryNode, rest: Seq<char>|
                        spec_query_hyp(chars@, pos as int, q, rest) && !(q is Negation) implies false by {
                        let inner_q = *q->Brackets_0;
                        assert(spec_query_hyp(chars@, p1 as int, inner_q, ")"@ + rest));
                    }
                }
                return Err(e);
            },
        };
        let p3 = skip_ws(chars, p2);
        proof {
            assert forall|q: QueryNode, rest: Seq<char>|
                spec_query_hyp(chars@, pos as int, q, rest) && !(q is Negation) implies ({
                let inner_q = *q->Brackets_0;
                &&& inner == inner_q
                &&& p3 == pos + 1 + spec_render(inner_q).len()
                &&& spec_lit_at(chars@, p3 as int, ")"@)
                &&& pos + spec_render(q).len() == p3 + 1
            }) by {
                let inner_q = *q->Brackets_0;
                assert(chars@.len() == chars.len());
                assert(spec_query_hyp(chars@, p1 as int, inner_q, ")"@ + rest));
                assert(chars@.skip(p1 as int).len() == chars@.len() - p1);
                assert(inner == inner_q && p2 == pos + 1 + spec_render(inner_q).len());
                assert(chars@.skip(pos as int) == ("("@ + spec_render(inner_q) + ")"@) + rest);
                lemma_wrap_decompose(chars@, pos as int, "("@, inner_q, rest);
                assert(chars@[p2 as int] == ')');
                if p3 != p2 {
                    assert(crate::utils::is_space(chars@[p2 as int]));
                }
                assert(p3 == p2);
                assert(chars@.subrange(p3 as int, p3 as int + 1) =~= ")"@) by {
                    reveal_strlit(")");
                }
            }
        }
        return match match_lit(chars, p3, ")") {
            Some(p4) => Ok((QueryNode::Brackets(Box::new(inner)), p4)),
            None => Err(parse_error(p3, "expected ')'")),
        };
    }
    proof {
        assert forall|q: QueryNode, rest: Seq<char>|
            spec_query_hyp(chars@, pos as int, q, rest) && !(q is Negation) implies (q is Test && p0 == pos) by {
            lemma_hyp_first(chars@, pos as int, q, rest);
            lemma_round_first(q);
            if p0 != pos {
                assert(crate::utils::is_space(chars@[pos as int]));
            }
            if q is Latest {
                assert(chars@.len() == chars.len());
                if q->Latest_0 is None {
                    assert(chars@.skip(pos as int) == "latest"@ + rest);
                    lemma_concat_skip(chars@, pos as int, "latest"@, rest);
                    assert(chars@.subrange(pos as int, pos + 6) =~= "latest"@);
                    if pos + 6 < chars@.len() {
                        assert(chars@.skip(pos + 6)[0] == chars@[pos + 6]);
                        assert(chars@[pos + 6] == rest[0]);
                        assert(!spec_ident_char(')'));
                    }
                    assert(spec_word_at(chars@, p0 as int, "latest"@));
                } else {
                    let inner = *q->Latest_0->0;
                    assert(chars@.skip(pos as int) == ("latest("@ + spec_render(inner) + ")"@)
                        + rest);
                    lemma_wrap_decompose(chars@, pos as int, "latest("@, inner, rest);
                    assert(chars@.subrange(pos as int, pos + 6) =~= "latest"@) by {
                        assert(forall|j: int|
                            0 <= j < 7 ==> chars@.subrange(pos as int, pos + 7)[j] == #[trigger]
                                "latest("@[j]);
                    }
                    assert(chars@[pos + 6] == '(') by {
                        assert(chars@.subrange(pos as int, pos + 7)[6] == chars@[pos + 6]);
                    }
                    assert(!spec_ident_char('('));
                    assert(spec_word_at(chars@, p0 as int, "latest"@));
                }
            }
            if q is Single {
                let inner = *q->Single_0;
                assert(chars@.skip(pos as int) == ("single("@ + spec_render(inner) + ")"@) + rest);
                lemma_wrap_decompose(chars@, pos as int, "single("@, inner, rest);
                assert(chars@.subrange(pos as int, pos + 6) =~= "single"@) by {
                    assert(forall|j: int|
                        0 <= j < 7 ==> chars@.subrange(pos as int, pos + 7)[j] == #[trigger]
                            "single("@[j]);
                }
                assert(chars@[pos + 6] == '(') by {
                    assert(chars@.subrange(pos as int, pos + 7)[6] == chars@[pos + 6]);
                }
                assert(!spec_ident_char('('));
                assert(spec_word_at(chars@, p0 as int, "single"@));
            }
            if q is Brackets {
                let inner = *q->Brackets_0;
                assert(chars@.skip(pos as int) == ("("@ + spec_render(inner) + ")"@) + rest);
                lemma_wrap_decompose(chars@, pos as int, "("@, inner, rest);
                assert(spec_lit_at(chars@, p0 as int, "("@));
            }
        }
    }
    let (lhs, p1) = match parse_value(chars, p0) {
        Ok(t) => t,
        Err(e) => {
            proof {
                assert forall|q: QueryNode, rest: Seq<char>|
                    spec_query_hyp(chars@, pos as int, q, rest) && !(q is Negation) implies false by {
                    lemma_simple_test_layout(chars@, pos as int, q, rest);
                    assert(spec_value_hyp(
                        chars@,
                        p0 as int,
                        q->Test_1,
                        chars@.skip(pos + spec_render_value(q->Test_1).len()),
                    ));
                }
            }
            return Err(e);
        },
    };
    let p2 = skip_ws(chars, p1);
    let (op, p3) = match parse_cmp(chars, p2) {
        Ok(t) => t,
        Err(e) => {
            proof {
                assert forall|q: QueryNode, rest: Seq<char>|
                    spec_query_hyp(chars@, pos as int, q, rest) && !(q is Negation) implies false by {
                    lemma_simple_test_layout(chars@, pos as int, q, rest);
                    assert(chars@.len() == chars.len());
                    let l1 = spec_render_value(q->Test_1).len() as int;
                    let opl = spec_test_op(q->Test_0).len() as int;
                    assert(spec_value_hyp(chars@, p0 as int, q->Test_1, chars@.skip(pos + l1)));
                    assert(lhs == q->Test_1 && p1 == pos + l1);
                    assert(chars@[p1 as int] == ' ');
                    assert(p1 < chars@.len());
                    assert(p2 != p1);
                    assert(!crate::utils::is_space(chars@[p1 + 1])) by {
                        reveal_strlit("==");
                        reveal_strlit("!=");
                        reveal_strlit("<");
                        reveal_strlit("<=");
                        reveal_strlit(">");
                        reveal_strlit(">=");
                        assert(chars@[pos + l1 + 1] == spec_test_op(q->Test_0)[0]);
                    }
                    assert(p2 == p1 + 1);
                    assert(spec_cmp_hyp(
                        chars@,
                        p2 as int,
                        q->Test_0,
                        chars@.skip(pos + l1 + 1 + opl),
                    ));
                }
            }
            return Err(e);
        },
    };
    let p4 = skip_ws(chars, p3);
    let (rhs, p5) = match parse_value(chars, p4) {
        Ok(t) => t,
        Err(e) => {
            proof {
                assert forall|q: QueryNode, rest: Seq<char>|
                    spec_query_hyp(chars@, pos as int, q, rest) && !(q is Negation) implies false by {
                    lemma_simple_test_layout(chars@, pos as int, q, rest);
                    assert(chars@.len() == chars.len());
                    let l1 = spec_render_value(q->Test_1).len() as int;
                    let opl = spec_test_op(q->Test_0).len() as int;
                    assert(spec_value_hyp(chars@, p0 as int, q->Test_1, chars@.skip(pos + l1)));
                    assert(lhs == q->Test_1 && p1 == pos + l1);
                    assert(chars@[p1 as int] == ' ');
                    assert(p1 < chars@.len());
                    assert(p2 != p1);
                    assert(!crate::utils::is_space(chars@[p1 + 1])) by {
                        reveal_strlit("==");
                        reveal_strlit("!=");
                        reveal_strlit("<");
                        reveal_strlit("<=");
                        reveal_strlit(">");
                        reveal_strlit(">=");
                        assert(chars@[pos + l1 + 1] == spec_test_op(q->Test_0)[0]);
                    }
                    assert(p2 == p1 + 1);
                    assert(spec_cmp_hyp(
                        chars@,
                        p2 as int,
                        q->Test_0,
                        chars@.skip(pos + l1 + 1 + opl),
                    ));
                    assert(op == q->Test_0 && p3 == pos + l1 + 1 + opl);
                    assert(chars@[p3 as int] == ' ');
                    assert(p3 < chars@.len());
                    assert(p4 != p3);
                    assert(!crate::utils::is_space(chars@[p3 + 1])) by {
                        let prhs = pos + l1 + 1 + opl + 1;
                        lemma_value_hyp_word(chars@, prhs, q->Test_2, rest);
                        lemma_keyword_value_render(q->Test_2);
                        let rv2 = spec_render_value(q->Test_2);
                        assert(spec_lit_at(chars@, prhs, rv2));
                        assert(chars@.subrange(prhs, prhs + rv2.len())[0] == chars@[prhs]);
                    }
                    assert(p4 == p3 + 1);
                    assert(spec_value_hyp(chars@, p4 as int, q->Test_2, chars@.skip(pos + l1 + 1
                        + opl + 1 + spec_render_value(q->Test_2).len())));
                }
            }
            return Err(e);
        },
    };
    proof {
        assert forall|q: QueryNode, rest: Seq<char>|
            spec_query_hyp(chars@, pos as int, q, rest) && !(q is Negation) implies Ok::<
            (QueryNode, usize),
            ParseError,
        >((QueryNode::Test(op, lhs, rhs), p5)) == Ok::<(QueryNode, usize), ParseError>((
            q,
            (pos + spec_render(q).len()) as usize,
        )) by {
            lemma_simple_test_layout(chars@, pos as int, q, rest);
            assert(chars@.len() == chars.len());
            let l1 = spec_render_value(q->Test_1).len() as int;
            let opl = spec_test_op(q->Test_0).len() as int;
            let l2 = spec_render_value(q->Test_2).len() as int;
            assert(spec_value_hyp(chars@, p0 as int, q->Test_1, chars@.skip(pos + l1)));
            assert(lhs == q->Test_1 && p1 == pos + l1);
            assert(chars@[p1 as int] == ' ');
            assert(p1 < chars@.len());
            assert(p2 != p1);
            assert(!crate::utils::is_space(chars@[p1 + 1])) by {
                reveal_strlit("==");
                reveal_strlit("!=");
                reveal_strlit("<");
                reveal_strlit("<=");
                reveal_strlit(">");
                reveal_strlit(">=");
                assert(chars@[pos + l1 + 1] == spec_test_op(q->Test_0)[0]);
            }
            assert(p2 == p1 + 1);
            assert(spec_cmp_hyp(chars@, p2 as int, q->Test_0, chars@.skip(pos + l1 + 1 + opl)));
            assert(op == q->Test_0 && p3 == pos + l1 + 1 + opl);
            assert(chars@[p3 as int] == ' ');
            assert(p3 < chars@.len());
            assert(p4 != p3);
            assert(!crate::utils::is_space(chars@[p3 + 1])) by {
                let prhs = pos + l1 + 1 + opl + 1;
                lemma_value_hyp_word(chars@, prhs, q->Test_2, rest);
                lemma_keyword_value_render(q->Test_2);
                let rv2 = spec_render_value(q->Test_2);
                assert(spec_lit_at(chars@, prhs, rv2));
                assert(chars@.subrange(prhs, prhs + rv2.len())[0] == chars@[prhs]);
            }
            assert(p4 == p3 + 1);
            assert(spec_value_hyp(chars@, p4 as int, q->Test_2, chars@.skip(pos + l1 + 1 + opl + 1
                + l2)));
            assert(rhs == q->Test_2 && p5 == pos + l1 + 1 + opl + 1 + l2);
            assert(p5 == pos + spec_render(q).len());
            assert(QueryNode::Test(op, lhs, rhs) == q);
        }
    }
    Ok((QueryNode::Test(op, lhs, rhs), p5))
}

/// `notExpr := "!" notExpr | primary`.  The last clause is the round-trip
/// law for the fragment.
fn parse_not(chars: &Vec<char>, pos: usize) -> (r: Result<(QueryNode, usize), ParseError>)
    requires
        pos <= chars@.len(),
    ensures
        r matches Ok((_, p)) ==> pos <= p <= chars@.len(),
        r matches Err(e) ==> e.offset <= chars@.len(),
        forall|q: QueryNode, rest: Seq<char>|
            spec_query_hyp(chars@, pos as int, q, rest) ==> r == Ok::<
                (QueryNode, usize),
                ParseError,
            >((q, (pos + spec_render(q).len()) as usize)),
    decreases chars@.len() - pos, 1int,
{
    proof {
        reveal_strlit("!");
    }
    let p0 = skip_ws(chars, pos);
    if let Some(p1) = match_lit(chars, p0, "!") {
        proof {
            assert forall|q: QueryNode, rest: Seq<char>|
                spec_query_hyp(chars@, pos as int, q, rest) implies (q is Negation && p0 == pos
                && p1 == pos + 1 && spec_query_hyp(chars@, pos + 1, *q->Negation_0, rest)) by {
                lemma_hyp_first(chars@, pos as int, q, rest);
                lemma_round_first(q);
                if p0 != pos {
                    assert(crate::utils::is_space(chars@[pos as int]));
                }
                assert(spec_lit_at(chars@, p0 as int, "!"@));
                assert(chars@.subrange(p0 as int, p0 as int + 1)[0] == chars@[p0 as int]);
                let inner = *q->Negation_0;
                assert(chars@.skip(pos as int) =~= "!"@ + (spec_render(inner) + rest));
                lemma_concat_skip(chars@, pos as int, "!"@, spec_render(inner) + rest);
                assert(chars@.skip(pos + 1) == spec_render(inner) + rest);
            }
        }
        let (inner, p2) = match parse_not(chars, p1) {
            Ok(t) => t,
            Err(e) => {
                proof {
                    assert forall|q: QueryNode, rest: Seq<char>|
                        spec_query_hyp(chars@, pos as int, q, rest) implies false by {
                        assert(spec_query_hyp(chars@, p1 as int, *q->Negation_0, rest));
                    }
                }
                return Err(e);
            },
        };
        proof {
            assert forall|q: QueryNode, rest: Seq<char>|
                spec_query_hyp(chars@, pos as int, q, rest) implies Ok::<
                (QueryNode, usize),
                ParseError,
            >((QueryNode::Negation(Box::new(inner)), p2)) == Ok::<(QueryNode, usize), ParseError>(
                (q, (pos + spec_render(q).len()) as usize),
            ) by {
                assert(chars@.len() == chars.len());
                assert(spec_query_hyp(chars@, p1 as int, *q->Negation_0, rest));
                assert(chars@.skip(p1 as int).len() == chars@.len() - p1);
                assert(p1 == pos + 1);
                assert(inner == *q->Negation_0);
                assert(p2 == pos + 1 + spec_render(*q->Negation_0).len());
                assert(q == QueryNode::Negation(Box::new(inner)));
            }
        }
        Ok((QueryNode::Negation(Box::new(inner)), p2))
    } else {
        let r = parse_primary(chars, p0);
        proof {
            assert forall|q: QueryNode, rest: Seq<char>|
                spec_query_hyp(chars@, pos as int, q, rest) implies r == Ok::<
                (QueryNode, usize),
                ParseError,
            >((q, (pos + spec_render(q).len()) as usize)) by {
                lemma_hyp_first(chars@, pos as int, q, rest);
                lemma_round_first(q);
                if p0 != pos {
                    assert(crate::utils::is_space(chars@[pos as int]));
                }
                if q is Negation {
                    assert(spec_lit_at(chars@, p0 as int, "!"@)) by {
                        assert(chars@.subrange(p0 as int, p0 as int + 1) =~= "!"@);
                    }
                    assert(false);
                }
                assert(spec_query_hyp(chars@, p0 as int, q, rest) && !(q is Negation));
                assert(chars@.skip(p0 as int).len() == chars@.len() - p0);
                assert(chars@.len() == chars.len());
            }
        }
        r
    }
}

/// `andExpr := notExpr ("&&" notExpr)*`, grouped to the left.  The last
/// clause is the round-trip law for the fragment, which has no `&&`.
fn parse_and(chars: &Vec<char>, pos: usize) -> (r: Result<(QueryNode, usize), ParseError>)
    requires
        pos <= chars@.len(),
    ensures
        r matches Ok((_, p)) ==> pos <= p <= chars@.len(),
        r matches Err(e) ==> e.offset <= chars@.len(),
        forall|q: QueryNode, rest: Seq<char>|
            spec_query_hyp(chars@, pos as int, q, rest) ==> r == Ok::<
                (QueryNode, usize),
                ParseError,
            >((q, (pos + spec_render(q).len()) as usize)),
    decreases chars@.len() - pos, 2int,
{
    let (first, p1) = match parse_not(chars, pos) {
        Ok(t) => t,
        Err(e) => {
            return Err(e);
        },
    };
    let mut node = first;
    let mut p = p1;
    proof {
        assert forall|q: QueryNode, rest: Seq<char>|
            spec_query_hyp(chars@, pos as int, q, rest) implies node == q && p == pos
            + spec_render(q).len() by {
            assert(spec_query_hyp(chars@, pos as int, q, rest));
            assert(chars@.len() == chars.len());
            assert(chars@.skip(pos as int).len() == chars@.len() - pos);
        }
    }
    loop
        invariant
            pos <= p <= chars@.len(),
            forall|q: QueryNode, rest: Seq<char>|
                spec_query_hyp(chars@, pos as int, q, rest) ==> node == q && p == pos
                    + spec_render(q).len(),
        decreases chars@.len() - p,
    {
        proof {
            reveal_strlit("&&");
        }
        let p2 = skip_ws(chars, p);
        match match_lit(chars, p2, "&&") {
            Some(p3) => {
                proof {
                    assert forall|q: QueryNode, rest: Seq<char>|
                        spec_query_hyp(chars@, pos as int, q, rest) implies false by {
                        reveal_strlit("&&");
                        lemma_round_first(q);
                        assert(p == pos + spec_render(q).len());
                        assert(chars@.skip(pos as int).len() == chars@.len() - pos);
                        if rest.len() == 0 {
                            assert(p == chars@.len());
                            assert(p2 == chars@.len());
                        } else {
                            assert(chars@.skip(pos as int)[spec_render(q).len() as int] == rest[0]);
                            assert(chars@[p as int] == ')');
                            if p2 != p {
                                assert(crate::utils::is_space(chars@[p as int]));
                            }
                            assert(p2 == p);
                            assert(chars@.subrange(p2 as int, p2 as int + 2)[0] == chars@[
                                p2 as int]);
                        }
                        assert(spec_lit_at(chars@, p2 as int, "&&"@));
                    }
                }
                let (rhs, p4) = match parse_not(chars, p3) {
                    Ok(t) => t,
                    Err(e) => {
                        return Err(e);
                    },
                };
                node = QueryNode::BooleanOp(Operator::And, Box::new(node), Box::new(rhs));
                p = p4;
            },
            None => {
                return Ok((node, p));
            },
        }
    }
}

/// `orExpr := andExpr ("||" andExpr)*`, grouped to the left.  The last
/// clause is the round-trip law for the fragment, which has no `||`.
fn parse_or(chars: &Vec<char>, pos: usize) -> (r: Result<(QueryNode, usize), ParseError>)
    requires
        pos <= chars@.len(),
    ensures
        r matches Ok((_, p)) ==> pos <= p <= chars@.len(),
        r matches Err(e) ==> e.offset <= chars@.len(),
        forall|q: QueryNode, rest: Seq<char>|
            spec_query_hyp(chars@, pos as int, q, rest) ==> r == Ok::<
                (QueryNode, usize),
                ParseError,
            >((q, (pos + spec_render(q).len()) as usize)),
    decreases chars@.len() - pos, 3int,
{
    let (first, p1) = match parse_and(chars, pos) {
        Ok(t) => t,
        Err(e) => {
            return Err(e);
        },
    };
    let mut node = first;
    let mut p = p1;
    proof {
        assert forall|q: QueryNode, rest: Seq<char>|
            spec_query_hyp(chars@, pos as int, q, rest) implies node == q && p == pos
            + spec_render(q).len() by {
            assert(spec_query_hyp(chars@, pos as int, q, rest));
            assert(chars@.len() == chars.len());
            assert(chars@.skip(pos as int).len() == chars@.len() - pos);
        }
    }
    loop
        invariant
            pos <= p <= chars@.len(),
            forall|q: QueryNode, rest: Seq<char>|
                spec_query_hyp(chars@, pos as int, q, rest) ==> node == q && p == pos
                    + spec_render(q).len(),
        decreases chars@.len() - p,
    {
        proof {
            reveal_strlit("||");
        }
        let p2 = skip_ws(chars, p);
        match match_lit(chars, p2, "||") {
            Some(p3) => {
                proof {
                    assert forall|q: QueryNode, rest: Seq<char>|
                        spec_query_hyp(chars@, pos as int, q, rest) implies false by {
                        reveal_strlit("||");
                        lemma_round_first(q);
                        assert(p == pos + spec_render(q).len());
                        assert(chars@.skip(pos as int).len() == chars@.len() - pos);
                        if rest.len() == 0 {
                            assert(p == chars@.len());
                            assert(p2 == chars@.len());
                        } else {
                            assert(chars@.skip(pos as int)[spec_render(q).len() as int] == rest[0]);
                            assert(chars@[p as int] == ')');
                            if p2 != p {
                                assert(crate::utils::is_space(chars@[p as int]));
                            }
                            assert(p2 == p);
                            assert(chars@.subrange(p2 as int, p2 as int + 2)[0] == chars@[
                                p2 as int]);
                        }
                        assert(spec_lit_at(chars@, p2 as int, "||"@));
                    }
                }
                let (rhs, p4) = match parse_and(chars, p3) {
                    Ok(t) => t,
                    Err(e) => {
                        return Err(e);
                    },
                };
                node = QueryNode::BooleanOp(Operator::Or, Box::new(node), Box::new(rhs));
                p = p4;
            },
            None => {
                return Ok((node, p));
            },
        }
    }
}

/// Parse a query expression; the whole input must be consumed.  The last
/// clause is the round-trip law for the fragment of single tests over
/// keyword operands under `latest`, `single`, negation and brackets:
/// rendering such a query and parsing it back gives the query itself.
pub fn parse_query(input: &str) -> (r: Result<QueryNode, ParseError>)
    ensures
        r matches Err(e) ==> e.offset <= input@.len(),
        forall|q: QueryNode|
            spec_round_query(q) && input@ == spec_render(q) ==> r == Ok::<QueryNode, ParseError>(
                q,
            ),
{
    let chars = str_to_chars(input);
    proof {
        assert(chars@.skip(0) =~= chars@);
    }
    let (node, p) = match parse_or(&chars, 0) {
        Ok(t) => t,
        Err(e) => {
            proof {
                assert forall|q: QueryNode|
                    spec_round_query(q) && input@ == spec_render(q) implies false by {
                    assert(chars@.skip(0) =~= spec_render(q) + Seq::<char>::empty());
                    assert(spec_query_hyp(chars@, 0, q, Seq::<char>::empty()));
                }
            }
            return Err(e);
        },
    };
    let p2 = skip_ws(&chars, p);
    if p2 != chars.len() {
        proof {
            assert forall|q: QueryNode|
                spec_round_query(q) && input@ == spec_render(q) implies false by {
                assert(chars@.skip(0) =~= spec_render(q) + Seq::<char>::empty());
                assert(spec_query_hyp(chars@, 0, q, Seq::<char>::empty()));
                assert(p == chars@.len());
                assert(p2 == chars@.len());
            }
        }
        return Err(parse_error(p2, "unexpected trailing characters"));
    }
    proof {
        assert forall|q: QueryNode|
            spec_round_query(q) && input@ == spec_render(q) implies Ok::<QueryNode, ParseError>(
            node,
        ) == Ok::<QueryNode, ParseError>(q) by {
            assert(chars@.skip(0) =~= spec_render(q) + Seq::<char>::empty());
            assert(spec_query_hyp(chars@, 0, q, Seq::<char>::empty()));
        }
    }
    Ok(node)
}

} // verus!
