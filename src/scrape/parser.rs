//! The executable parser. Each function parses at a position of the input and
//! is proved to give exactly what the grammar gives there.
use super::ast::{Expr, ExprModel, Oper, Value};
use super::grammar::{
    add_oper, add_rest, expr_at, factor_at, if_at, keyword_after, keyword_at, let_at, mul_oper,
    mul_rest, parens_at, starts_value, term_at, ws_len, Scope,
};
use super::lexer::{
    is_in_class, lex_value, outcome, scan, value_at, word_at, CharClass, ParseError,
    ParseErrorKind, Parsed,
};
use vstd::prelude::*;

verus! {

/// The names in scope while parsing. A binding made for the body of a `let`
/// hides an outer one of the same name and is taken away again once the body
/// is parsed, so a sibling never sees it.
pub struct Env {
    bindings: Vec<(String, Expr)>,
}

/// The scope that a list of bindings makes, later ones hiding earlier ones.
pub open spec fn scope_of(b: Seq<(String, Expr)>) -> Scope
    decreases b.len(),
{
    if b.len() == 0 {
        Map::empty()
    } else {
        scope_of(b.drop_last()).insert(b.last().0@, b.last().1@)
    }
}

impl View for Env {
    type V = Scope;

    closed spec fn view(&self) -> Scope {
        scope_of(self.bindings@)
    }
}

/// Bindings after index `i` whose names all differ from `k` leave what `k`
/// maps to as the first `i` bindings had it.
proof fn lemma_scope_tail(b: Seq<(String, Expr)>, i: int, k: Seq<char>)
    requires
        0 <= i <= b.len(),
        forall|j: int| i <= j < b.len() ==> (#[trigger] b[j]).0@ != k,
    ensures
        scope_of(b).contains_key(k) == scope_of(b.take(i)).contains_key(k),
        scope_of(b).contains_key(k) ==> scope_of(b)[k] == scope_of(b.take(i))[k],
    decreases b.len(),
{
    if i == b.len() {
        assert(b.take(i) =~= b);
    } else {
        assert(b.drop_last().take(i) =~= b.take(i));
        lemma_scope_tail(b.drop_last(), i, k);
    }
}

impl Env {
    /// An empty scope.
    pub fn new() -> (r: Env)
        ensures
            r@ == Map::<Seq<char>, ExprModel>::empty(),
    {
        Env { bindings: Vec::new() }
    }

    /// Binds `name` to `e`, hiding any earlier binding of `name`.
    pub fn insert(&mut self, name: String, e: Expr)
        ensures
            final(self)@ == old(self)@.insert(name@, e@),
    {
        self.push(name, e);
    }

    fn push(&mut self, name: String, e: Expr)
        ensures
            final(self).bindings@ == old(self).bindings@.push((name, e)),
            final(self)@ == old(self)@.insert(name@, e@),
    {
        self.bindings.push((name, e));
        assert(self.bindings@.drop_last() =~= old(self).bindings@);
    }

    /// The expression that `name` is bound to, if any.
    pub fn get(&self, name: &str) -> (r: Option<&Expr>)
        ensures
            match r {
                Some(e) => self@.contains_key(name@) && e@ == self@[name@],
                None => !self@.contains_key(name@),
            },
    {
        let key = name.to_owned();
        let mut i = self.bindings.len();
        while i > 0
            invariant
                i <= self.bindings@.len(),
                key@ == name@,
                forall|j: int| i <= j < self.bindings@.len() ==> (#[trigger] self.bindings@[j]).0@ != key@,
            decreases i,
        {
            if self.bindings[i - 1].0 == key {
                proof {
                    let b = self.bindings@;
                    lemma_scope_tail(b, i as int, key@);
                    assert(b.take(i as int).drop_last() =~= b.take(i - 1));
                }
                return Some(&self.bindings[i - 1].1);
            }
            i = i - 1;
        }
        proof {
            lemma_scope_tail(self.bindings@, 0, key@);
            assert(self.bindings@.take(0) =~= Seq::<(String, Expr)>::empty());
        }
        None
    }

    /// Takes the latest binding away.
    fn pop(&mut self)
        requires
            old(self).bindings@.len() > 0,
        ensures
            final(self).bindings@ == old(self).bindings@.drop_last(),
    {
        self.bindings.pop();
    }
}


/// The keyword `w` at `p`, followed by whitespace.
fn keyword_here(cs: &Vec<char>, p: usize, w: &[char]) -> (r: bool)
    requires
        p <= cs.len(),
    ensures
        r == keyword_at(cs@, p as int, w@),
{
    word_at(cs, p, w) && w.len() < cs.len() - p && is_in_class(cs[p + w.len()], CharClass::Space)
}

/// Whitespace, the keyword `w`, whitespace after an expression that ends at
/// `f`: where the next expression starts, or where the keyword was missing.
fn keyword_next(cs: &Vec<char>, f: usize, w: &[char]) -> (r: Result<usize, usize>)
    requires
        f <= cs.len(),
    ensures
        match r {
            Ok(h) => keyword_after(cs@, f as int, w@) == Some(h as int) && f < h <= cs.len(),
            Err(g) => keyword_after(cs@, f as int, w@) is None && g == f + ws_len(cs@, f as int),
        },
{
    let g = scan(cs, f, CharClass::Space);
    if g > f && keyword_here(cs, g, w) {
        Ok(scan(cs, g + w.len(), CharClass::Space))
    } else {
        Err(g)
    }
}

/// An expression at `p`, with `d` levels of nesting left.
fn expr_from(env: &mut Env, text: &str, cs: &Vec<char>, p: usize, d: usize) -> (r: Result<(Expr, usize), ParseError>)
    requires
        cs@ == text@,
        p <= cs.len(),
    ensures
        final(env).bindings@ == old(env).bindings@,
        outcome(r, p as int) == expr_at(old(env)@, cs@, p as int, d as nat),
        r matches Ok((_, q)) ==> p <= q <= cs.len(),
    decreases cs.len() - p, 6int,
{
    let q = scan(cs, p, CharClass::Space);
    if d == 0 {
        Err(ParseError { kind: ParseErrorKind::TooDeep, position: p })
    } else if keyword_here(cs, q, &['l', 'e', 't']) {
        let_from(env, text, cs, p, d - 1)
    } else if keyword_here(cs, q, &['i', 'f']) {
        if_from(env, text, cs, p, d - 1)
    } else {
        match term_from(env, text, cs, p, d - 1) {
            Ok((t, q1)) => Ok(add_rest_from(env, text, cs, q1, d - 1, t)),
            Err(e) => Err(e),
        }
    }
}

/// `let name = bound in body` at `p`.
fn let_from(env: &mut Env, text: &str, cs: &Vec<char>, p: usize, d: usize) -> (r: Result<(Expr, usize), ParseError>)
    requires
        cs@ == text@,
        p <= cs.len(),
    ensures
        final(env).bindings@ == old(env).bindings@,
        outcome(r, p as int) == let_at(old(env)@, cs@, p as int, d as nat),
        r matches Ok((_, q)) ==> p <= q <= cs.len(),
    decreases cs.len() - p, 5int,
{
    let q = scan(cs, p, CharClass::Space);
    if !keyword_here(cs, q, &['l', 'e', 't']) {
        return Err(ParseError { kind: ParseErrorKind::Syntax, position: q });
    }
    let a = scan(cs, q + 3, CharClass::Space);
    let b = scan(cs, a, CharClass::Alpha);
    if b == a {
        return Err(ParseError { kind: ParseErrorKind::Syntax, position: a });
    }
    let c = scan(cs, b, CharClass::Space);
    if !(c < cs.len() && cs[c] == '=') {
        return Err(ParseError { kind: ParseErrorKind::Syntax, position: c });
    }
    let start = scan(cs, c + 1, CharClass::Space);
    let (bound, f) = match expr_from(env, text, cs, start, d) {
        Ok(x) => x,
        Err(e) => return Err(e),
    };
    let h = match keyword_next(cs, f, &['i', 'n']) {
        Ok(h) => h,
        Err(g) => return Err(ParseError { kind: ParseErrorKind::Syntax, position: g }),
    };
    let name = text.substring_char(a, b).to_owned();
    env.push(name.clone(), bound.clone());
    let body = expr_from(env, text, cs, h, d);
    env.pop();
    match body {
        Ok((body, k)) => Ok((Expr::Let(name, Box::new(bound), Box::new(body)), k)),
        Err(e) => Err(e),
    }
}

/// `if c then a else b` at `p`.
fn if_from(env: &mut Env, text: &str, cs: &Vec<char>, p: usize, d: usize) -> (r: Result<(Expr, usize), ParseError>)
    requires
        cs@ == text@,
        p <= cs.len(),
    ensures
        final(env).bindings@ == old(env).bindings@,
        outcome(r, p as int) == if_at(old(env)@, cs@, p as int, d as nat),
        r matches Ok((_, q)) ==> p <= q <= cs.len(),
    decreases cs.len() - p, 5int,
{
    let q = scan(cs, p, CharClass::Space);
    if !keyword_here(cs, q, &['i', 'f']) {
        return Err(ParseError { kind: ParseErrorKind::Syntax, position: q });
    }
    let a = scan(cs, q + 2, CharClass::Space);
    let (c, f1) = match expr_from(env, text, cs, a, d) {
        Ok(x) => x,
        Err(e) => return Err(e),
    };
    let a2 = match keyword_next(cs, f1, &['t', 'h', 'e', 'n']) {
        Ok(h) => h,
        Err(g) => return Err(ParseError { kind: ParseErrorKind::Syntax, position: g }),
    };
    let (t, f2) = match expr_from(env, text, cs, a2, d) {
        Ok(x) => x,
        Err(e) => return Err(e),
    };
    let a3 = match keyword_next(cs, f2, &['e', 'l', 's', 'e']) {
        Ok(h) => h,
        Err(g) => return Err(ParseError { kind: ParseErrorKind::Syntax, position: g }),
    };
    match expr_from(env, text, cs, a3, d) {
        Ok((e, f3)) => Ok((Expr::If(Box::new(c), Box::new(t), Box::new(e)), f3)),
        Err(e) => Err(e),
    }
}

fn add_oper_of(c: char) -> (r: Option<Oper>)
    ensures
        r == add_oper(c),
{
    if c == '+' {
        Some(Oper::Add)
    } else if c == '-' {
        Some(Oper::Sub)
    } else {
        None
    }
}

fn mul_oper_of(c: char) -> (r: Option<Oper>)
    ensures
        r == mul_oper(c),
{
    if c == '*' {
        Some(Oper::Mul)
    } else if c == '/' {
        Some(Oper::Div)
    } else {
        None
    }
}

/// `+` or `-` and a term, again and again, after `acc` from `p` on.
fn add_rest_from(env: &mut Env, text: &str, cs: &Vec<char>, p: usize, d: usize, acc: Expr) -> (r: (Expr, usize))
    requires
        cs@ == text@,
        p <= cs.len(),
    ensures
        final(env).bindings@ == old(env).bindings@,
        (r.0@, (r.1 - p) as nat) == add_rest(old(env)@, cs@, p as int, d as nat, acc@),
        p <= r.1 <= cs.len(),
    decreases cs.len() - p, 4int,
{
    let ghost scope = env@;
    let ghost goal = add_rest(scope, cs@, p as int, d as nat, acc@);
    let mut acc = acc;
    let mut q = p;
    loop
        invariant
            cs@ == text@,
            p <= q <= cs.len(),
            env.bindings@ == old(env).bindings@,
            scope == old(env)@,
            goal.0 == add_rest(scope, cs@, q as int, d as nat, acc@).0,
            goal.1 == add_rest(scope, cs@, q as int, d as nat, acc@).1 + (q - p),
        ensures
            p <= q <= cs.len(),
            env.bindings@ == old(env).bindings@,
            goal == (acc@, (q - p) as nat),
        decreases cs.len() - q,
    {
        if q >= cs.len() {
            break;
        }
        let op = match add_oper_of(cs[q]) {
            Some(op) => op,
            None => break,
        };
        match term_from(env, text, cs, q + 1, d) {
            Ok((t, q1)) => {
                acc = Expr::Binop(op, Box::new(acc), Box::new(t));
                q = q1;
            },
            Err(_) => break,
        }
    }
    (acc, q)
}

/// A term at `p`.
fn term_from(env: &mut Env, text: &str, cs: &Vec<char>, p: usize, d: usize) -> (r: Result<(Expr, usize), ParseError>)
    requires
        cs@ == text@,
        p <= cs.len(),
    ensures
        final(env).bindings@ == old(env).bindings@,
        outcome(r, p as int) == term_at(old(env)@, cs@, p as int, d as nat),
        r matches Ok((_, q)) ==> p <= q <= cs.len(),
    decreases cs.len() - p, 3int,
{
    match factor_from(env, text, cs, p, d) {
        Ok((f, q)) => Ok(mul_rest_from(env, text, cs, q, d, f)),
        Err(e) => Err(e),
    }
}

/// `*` or `/` and a factor, again and again, after `acc` from `p` on.
fn mul_rest_from(env: &mut Env, text: &str, cs: &Vec<char>, p: usize, d: usize, acc: Expr) -> (r: (Expr, usize))
    requires
        cs@ == text@,
        p <= cs.len(),
    ensures
        final(env).bindings@ == old(env).bindings@,
        (r.0@, (r.1 - p) as nat) == mul_rest(old(env)@, cs@, p as int, d as nat, acc@),
        p <= r.1 <= cs.len(),
    decreases cs.len() - p, 2int,
{
    let ghost scope = env@;
    let ghost goal = mul_rest(scope, cs@, p as int, d as nat, acc@);
    let mut acc = acc;
    let mut q = p;
    loop
        invariant
            cs@ == text@,
            p <= q <= cs.len(),
            env.bindings@ == old(env).bindings@,
            scope == old(env)@,
            goal.0 == mul_rest(scope, cs@, q as int, d as nat, acc@).0,
            goal.1 == mul_rest(scope, cs@, q as int, d as nat, acc@).1 + (q - p),
        ensures
            p <= q <= cs.len(),
            env.bindings@ == old(env).bindings@,
            goal == (acc@, (q - p) as nat),
        decreases cs.len() - q,
    {
        if q >= cs.len() {
            break;
        }
        let op = match mul_oper_of(cs[q]) {
            Some(op) => op,
            None => break,
        };
        match factor_from(env, text, cs, q + 1, d) {
            Ok((f, q1)) => {
                acc = Expr::Binop(op, Box::new(acc), Box::new(f));
                q = q1;
            },
            Err(_) => break,
        }
    }
    (acc, q)
}

/// Does a literal start at `p`?
fn starts_value_here(cs: &Vec<char>, p: usize) -> (r: bool)
    requires
        p < cs.len(),
    ensures
        r == starts_value(cs@, p as int),
{
    cs[p] == '-' || is_in_class(cs[p], CharClass::Digit) || cs[p] == '"'
        || word_at(cs, p, &['t', 'r', 'u', 'e']) || word_at(cs, p, &['f', 'a', 'l', 's', 'e'])
}

/// A factor at `p`.
fn factor_from(env: &mut Env, text: &str, cs: &Vec<char>, p: usize, d: usize) -> (r: Result<(Expr, usize), ParseError>)
    requires
        cs@ == text@,
        p <= cs.len(),
    ensures
        final(env).bindings@ == old(env).bindings@,
        outcome(r, p as int) == factor_at(old(env)@, cs@, p as int, d as nat),
        r matches Ok((_, q)) ==> p <= q <= cs.len(),
    decreases cs.len() - p, 1int,
{
    if p >= cs.len() {
        Err(ParseError { kind: ParseErrorKind::Syntax, position: p })
    } else if starts_value_here(cs, p) {
        match lex_value(text, cs, p) {
            Ok((v, q)) => Ok((Expr::Value(v), q)),
            Err(e) => Err(e),
        }
    } else if cs[p] == '(' {
        parens_from(env, text, cs, p, d)
    } else {
        let q = scan(cs, p, CharClass::Space);
        let b = scan(cs, q, CharClass::Alpha);
        if b == q {
            return Err(ParseError { kind: ParseErrorKind::Syntax, position: q });
        }
        match env.get(text.substring_char(q, b)) {
            Some(e) => Ok((e.clone(), b)),
            None => Err(ParseError { kind: ParseErrorKind::UnboundIdentifier, position: q }),
        }
    }
}

/// `( expr )` at `p`.
fn parens_from(env: &mut Env, text: &str, cs: &Vec<char>, p: usize, d: usize) -> (r: Result<(Expr, usize), ParseError>)
    requires
        cs@ == text@,
        p <= cs.len(),
    ensures
        final(env).bindings@ == old(env).bindings@,
        outcome(r, p as int) == parens_at(old(env)@, cs@, p as int, d as nat),
        r matches Ok((_, q)) ==> p <= q <= cs.len(),
    decreases cs.len() - p, 0int,
{
    if !(p < cs.len() && cs[p] == '(') {
        return Err(ParseError { kind: ParseErrorKind::Syntax, position: p });
    }
    match expr_from(env, text, cs, p + 1, d) {
        Ok((e, c)) => {
            if c < cs.len() && cs[c] == ')' {
                Ok((e, c + 1))
            } else {
                Err(ParseError { kind: ParseErrorKind::Syntax, position: c })
            }
        },
        Err(e) => Err(e),
    }
}

/// How deeply the public parse functions let expressions nest: parentheses,
/// and the parts of `let` and `if`, each take a level.
pub const MAX_DEPTH: usize = 128;

/// The characters of `text`, one by one.
fn chars_of(text: &str) -> (r: Vec<char>)
    ensures
        r@ == text@,
{
    let mut r: Vec<char> = Vec::new();
    for c in it: text.chars()
        invariant
            r@ == it.seq().take(it.index() as int),
            it.seq() == text@,
    {
        r.push(c);
    }
    r
}

/// How a public parse function's result stands to the grammar's outcome `o`
/// on the whole of `s`: on success the item and the text that is left, on
/// failure the same kind and position.
pub open spec fn parsed<'a, T: View>(r: Result<(&'a str, T), ParseError>, s: Seq<char>, o: Parsed<T::V>) -> bool {
    match o {
        Ok((m, n)) => r matches Ok((rest, v)) && v@ == m && rest@ == s.skip(n as int),
        Err((k, pos)) => r matches Err(e) && e.kind == k && e.position == pos,
    }
}

/// Parses a literal at the start of `i`: a number, `true` or `false`, or a
/// string.
pub fn parse_value(i: &str) -> (r: Result<(&str, Value), ParseError>)
    ensures
        parsed(r, i@, value_at(i@, 0)),
{
    let cs = chars_of(i);
    match lex_value(i, &cs, 0) {
        Ok((v, q)) => Ok((i.substring_char(q, cs.len()), v)),
        Err(e) => Err(e),
    }
}

/// Parses an expression at the start of `i`, with the names of `envo` in
/// scope and at most `MAX_DEPTH` levels of nesting.
pub fn parse_expr(envo: Env, i: &str) -> (r: Result<(&str, Expr), ParseError>)
    ensures
        parsed(r, i@, expr_at(envo@, i@, 0, MAX_DEPTH as nat)),
{
    let cs = chars_of(i);
    let mut env = envo;
    match expr_from(&mut env, i, &cs, 0, MAX_DEPTH) {
        Ok((e, q)) => Ok((i.substring_char(q, cs.len()), e)),
        Err(e) => Err(e),
    }
}

/// Parses `( expr )` at the start of `i`.
pub fn parse_parens(envo: Env, i: &str) -> (r: Result<(&str, Expr), ParseError>)
    ensures
        parsed(r, i@, parens_at(envo@, i@, 0, MAX_DEPTH as nat)),
{
    let cs = chars_of(i);
    let mut env = envo;
    match parens_from(&mut env, i, &cs, 0, MAX_DEPTH) {
        Ok((e, q)) => Ok((i.substring_char(q, cs.len()), e)),
        Err(e) => Err(e),
    }
}

/// Parses a factor at the start of `i`: a literal, an expression in
/// parentheses, or an identifier that `envo` binds.
pub fn parse_factor(envo: Env, i: &str) -> (r: Result<(&str, Expr), ParseError>)
    ensures
        parsed(r, i@, factor_at(envo@, i@, 0, MAX_DEPTH as nat)),
{
    let cs = chars_of(i);
    let mut env = envo;
    match factor_from(&mut env, i, &cs, 0, MAX_DEPTH) {
        Ok((e, q)) => Ok((i.substring_char(q, cs.len()), e)),
        Err(e) => Err(e),
    }
}

/// Parses a term at the start of `i`: factors joined by `*` and `/`.
pub fn parse_term(envo: Env, i: &str) -> (r: Result<(&str, Expr), ParseError>)
    ensures
        parsed(r, i@, term_at(envo@, i@, 0, MAX_DEPTH as nat)),
{
    let cs = chars_of(i);
    let mut env = envo;
    match term_from(&mut env, i, &cs, 0, MAX_DEPTH) {
        Ok((e, q)) => Ok((i.substring_char(q, cs.len()), e)),
        Err(e) => Err(e),
    }
}

/// Folds `* factor` and `/ factor` at the start of `i` onto `factor`, to the
/// left. Never fails: with no such operation, `factor` comes back with all of
/// `i`.
pub fn parse_term_aux(envo: Env, i: &str, factor: Expr) -> (r: Result<(&str, Expr), ParseError>)
    ensures
        parsed(r, i@, Ok(mul_rest(envo@, i@, 0, MAX_DEPTH as nat, factor@))),
{
    let cs = chars_of(i);
    let mut env = envo;
    let (e, q) = mul_rest_from(&mut env, i, &cs, 0, MAX_DEPTH, factor);
    Ok((i.substring_char(q, cs.len()), e))
}

/// Folds `+ term` and `- term` at the start of `i` onto `initial`, to the
/// left. Never fails: with no such operation, `initial` comes back with all
/// of `i`.
pub fn parse_expr_aux(envo: Env, i: &str, initial: Expr) -> (r: Result<(&str, Expr), ParseError>)
    ensures
        parsed(r, i@, Ok(add_rest(envo@, i@, 0, MAX_DEPTH as nat, initial@))),
{
    let cs = chars_of(i);
    let mut env = envo;
    let (e, q) = add_rest_from(&mut env, i, &cs, 0, MAX_DEPTH, initial);
    Ok((i.substring_char(q, cs.len()), e))
}

} // verus!
