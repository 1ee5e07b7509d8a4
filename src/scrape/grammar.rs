//! The expression grammar, as functions from the text and a position to what
//! is parsed there:
//!
//! ```text
//! expr   := let | if | term (("+" | "-") term)*
//! let    := "let" name "=" expr "in" expr
//! if     := "if" expr "then" expr "else" expr
//! term   := factor (("*" | "/") factor)*
//! factor := literal | "(" expr ")" | identifier
//! ```
//!
//! `let` and `if` are chosen when the keyword, followed by whitespace, starts
//! the expression; the choice is then final. A repetition stops, before the
//! operator, at the first operator whose operand does not parse. An
//! identifier is replaced by the expression that the innermost `let` bound it
//! to. Each function takes a budget `d` of nesting: an expression takes one
//! level, and one found where none is left fails with `TooDeep`.
use super::ast::{ExprModel, Oper, ValueModel};
use super::lexer::{
    class_len, decimal_value, digit_value, has_prefix_at, in_class, number_at, value_at, CharClass,
    ParseErrorKind, Parsed, false_word, true_word,
};
use vstd::prelude::*;

verus! {

/// The names in scope while parsing, and the expressions bound to them.
pub type Scope = Map<Seq<char>, ExprModel>;

pub open spec fn ws_len(s: Seq<char>, p: int) -> nat {
    class_len(s, p, CharClass::Space)
}

/// The keyword `w` at `p`, followed by whitespace.
pub open spec fn keyword_at(s: Seq<char>, p: int, w: Seq<char>) -> bool {
    &&& has_prefix_at(s, p, w)
    &&& p + w.len() < s.len()
    &&& in_class(s[p + w.len()], CharClass::Space)
}

/// After the expression that ends at `f`: whitespace, the keyword `w`,
/// whitespace. Gives where the next expression starts.
pub open spec fn keyword_after(s: Seq<char>, f: int, w: Seq<char>) -> Option<int> {
    let g = f + ws_len(s, f);
    if g > f && keyword_at(s, g, w) {
        Some(g + w.len() + ws_len(s, g + w.len()))
    } else {
        None
    }
}

pub open spec fn let_word() -> Seq<char> {
    seq!['l', 'e', 't']
}

pub open spec fn in_word() -> Seq<char> {
    seq!['i', 'n']
}

pub open spec fn if_word() -> Seq<char> {
    seq!['i', 'f']
}

pub open spec fn then_word() -> Seq<char> {
    seq!['t', 'h', 'e', 'n']
}

pub open spec fn else_word() -> Seq<char> {
    seq!['e', 'l', 's', 'e']
}

pub open spec fn add_oper(c: char) -> Option<Oper> {
    if c == '+' {
        Some(Oper::Add)
    } else if c == '-' {
        Some(Oper::Sub)
    } else {
        None
    }
}

pub open spec fn mul_oper(c: char) -> Option<Oper> {
    if c == '*' {
        Some(Oper::Mul)
    } else if c == '/' {
        Some(Oper::Div)
    } else {
        None
    }
}

/// Does a literal start at `p`?
pub open spec fn starts_value(s: Seq<char>, p: int) -> bool {
    &&& 0 <= p < s.len()
    &&& {
        ||| s[p] == '-'
        ||| in_class(s[p], CharClass::Digit)
        ||| s[p] == '"'
        ||| has_prefix_at(s, p, true_word())
        ||| has_prefix_at(s, p, false_word())
    }
}

pub open spec fn binop(o: Oper, a: ExprModel, b: ExprModel) -> ExprModel {
    ExprModel::Binop(o, Box::new(a), Box::new(b))
}

/// How many characters are left from `p` on.
pub open spec fn left(s: Seq<char>, p: int) -> nat {
    if p <= s.len() {
        (s.len() - p) as nat
    } else {
        0
    }
}

/// An expression at `p`.
pub open spec fn expr_at(env: Scope, s: Seq<char>, p: int, d: nat) -> Parsed<ExprModel>
    decreases left(s, p), 6int,
{
    let q = p + ws_len(s, p);
    if d == 0 {
        Err((ParseErrorKind::TooDeep, p))
    } else if keyword_at(s, q, let_word()) {
        let_at(env, s, p, (d - 1) as nat)
    } else if keyword_at(s, q, if_word()) {
        if_at(env, s, p, (d - 1) as nat)
    } else {
        match term_at(env, s, p, (d - 1) as nat) {
            Ok((t, n)) => {
                let (e, m) = add_rest(env, s, p + n, (d - 1) as nat, t);
                Ok((e, n + m))
            },
            Err(x) => Err(x),
        }
    }
}

/// `let name = bound in body` at `p`: `bound` is parsed in `env`, `body` in
/// `env` with `name` bound to `bound`.
pub open spec fn let_at(env: Scope, s: Seq<char>, p: int, d: nat) -> Parsed<ExprModel>
    decreases left(s, p), 5int,
{
    let q = p + ws_len(s, p);
    let a = q + 3 + ws_len(s, q + 3);
    let k = class_len(s, a, CharClass::Alpha);
    let c = a + k + ws_len(s, a + k);
    if !keyword_at(s, q, let_word()) {
        Err((ParseErrorKind::Syntax, q))
    } else if k == 0 {
        Err((ParseErrorKind::Syntax, a))
    } else if !(c < s.len() && s[c] == '=') {
        Err((ParseErrorKind::Syntax, c))
    } else {
        let name = s.subrange(a, a + k);
        let b = c + 1 + ws_len(s, c + 1);
        match expr_at(env, s, b, d) {
            Err(x) => Err(x),
            Ok((bound, n)) => match keyword_after(s, b + n, in_word()) {
                None => Err((ParseErrorKind::Syntax, b + n + ws_len(s, b + n))),
                Some(h) => match expr_at(env.insert(name, bound), s, h, d) {
                    Ok((body, m)) => Ok((
                        ExprModel::Let(name, Box::new(bound), Box::new(body)),
                        (h + m - p) as nat,
                    )),
                    Err(x) => Err(x),
                },
            },
        }
    }
}

/// `if c then a else b` at `p`.
pub open spec fn if_at(env: Scope, s: Seq<char>, p: int, d: nat) -> Parsed<ExprModel>
    decreases left(s, p), 5int,
{
    let q = p + ws_len(s, p);
    if !keyword_at(s, q, if_word()) {
        Err((ParseErrorKind::Syntax, q))
    } else {
        let a = q + 2 + ws_len(s, q + 2);
        match expr_at(env, s, a, d) {
            Err(x) => Err(x),
            Ok((c, n1)) => match keyword_after(s, a + n1, then_word()) {
                None => Err((ParseErrorKind::Syntax, a + n1 + ws_len(s, a + n1))),
                Some(a2) => match expr_at(env, s, a2, d) {
                    Err(x) => Err(x),
                    Ok((t, n2)) => match keyword_after(s, a2 + n2, else_word()) {
                        None => Err((ParseErrorKind::Syntax, a2 + n2 + ws_len(s, a2 + n2))),
                        Some(a3) => match expr_at(env, s, a3, d) {
                            Err(x) => Err(x),
                            Ok((f, n3)) => Ok((
                                ExprModel::If(Box::new(c), Box::new(t), Box::new(f)),
                                (a3 + n3 - p) as nat,
                            )),
                        },
                    },
                },
            },
        }
    }
}

/// What follows `acc` from `p` on: `+` or `-` and a term, again and again,
/// folded to the left. Stops before the first operator whose term fails.
pub open spec fn add_rest(env: Scope, s: Seq<char>, p: int, d: nat, acc: ExprModel) -> (ExprModel, nat)
    decreases left(s, p), 4int,
{
    if 0 <= p < s.len() && add_oper(s[p]) is Some {
        match term_at(env, s, p + 1, d) {
            Ok((t, n)) => {
                let (e, m) = add_rest(env, s, p + 1 + n, d, binop(add_oper(s[p])->0, acc, t));
                (e, 1 + n + m)
            },
            Err(_) => (acc, 0),
        }
    } else {
        (acc, 0)
    }
}

/// A term at `p`: factors joined by `*` and `/`, folded to the left.
pub open spec fn term_at(env: Scope, s: Seq<char>, p: int, d: nat) -> Parsed<ExprModel>
    decreases left(s, p), 3int,
{
    match factor_at(env, s, p, d) {
        Ok((f, n)) => {
            let (e, m) = mul_rest(env, s, p + n, d, f);
            Ok((e, n + m))
        },
        Err(x) => Err(x),
    }
}

/// What follows `acc` from `p` on: `*` or `/` and a factor, again and again,
/// folded to the left. Stops before the first operator whose factor fails.
pub open spec fn mul_rest(env: Scope, s: Seq<char>, p: int, d: nat, acc: ExprModel) -> (ExprModel, nat)
    decreases left(s, p), 2int,
{
    if 0 <= p < s.len() && mul_oper(s[p]) is Some {
        match factor_at(env, s, p + 1, d) {
            Ok((f, n)) => {
                let (e, m) = mul_rest(env, s, p + 1 + n, d, binop(mul_oper(s[p])->0, acc, f));
                (e, 1 + n + m)
            },
            Err(_) => (acc, 0),
        }
    } else {
        (acc, 0)
    }
}

/// A factor at `p`: a literal, an expression in parentheses, or an
/// identifier (after optional whitespace) that `env` binds.
pub open spec fn factor_at(env: Scope, s: Seq<char>, p: int, d: nat) -> Parsed<ExprModel>
    decreases left(s, p), 1int,
{
    if p < 0 || p >= s.len() {
        Err((ParseErrorKind::Syntax, p))
    } else if starts_value(s, p) {
        match value_at(s, p) {
            Ok((v, n)) => Ok((ExprModel::Value(v), n)),
            Err(x) => Err(x),
        }
    } else if s[p] == '(' {
        parens_at(env, s, p, d)
    } else {
        let q = p + ws_len(s, p);
        let k = class_len(s, q, CharClass::Alpha);
        let name = s.subrange(q, q + k);
        if k == 0 {
            Err((ParseErrorKind::Syntax, q))
        } else if env.contains_key(name) {
            Ok((env[name], (q + k - p) as nat))
        } else {
            Err((ParseErrorKind::UnboundIdentifier, q))
        }
    }
}

/// `( expr )` at `p`.
pub open spec fn parens_at(env: Scope, s: Seq<char>, p: int, d: nat) -> Parsed<ExprModel>
    decreases left(s, p), 0int,
{
    if !(0 <= p < s.len() && s[p] == '(') {
        Err((ParseErrorKind::Syntax, p))
    } else {
        match expr_at(env, s, p + 1, d) {
            Ok((e, n)) => {
                let c = p + 1 + n;
                if c < s.len() && s[c] == ')' {
                    Ok((e, n + 2))
                } else {
                    Err((ParseErrorKind::Syntax, c))
                }
            },
            Err(x) => Err(x),
        }
    }
}


/// The digit that writes `d`, for `0 <= d < 10`.
pub open spec fn digit_char(d: int) -> char {
    seq!['0', '1', '2', '3', '4', '5', '6', '7', '8', '9'][d]
}

/// `n` in decimal digits, without leading zeros.
pub open spec fn digits_of(n: nat) -> Seq<char>
    decreases n,
{
    if n < 10 {
        seq![digit_char(n as int)]
    } else {
        digits_of(n / 10).push(digit_char((n % 10) as int))
    }
}

/// `i` as decimal text: a `-` for a negative number, then its digits.
pub open spec fn decimal_text(i: int) -> Seq<char> {
    if i < 0 {
        seq!['-'] + digits_of((-i) as nat)
    } else {
        digits_of(i as nat)
    }
}

proof fn lemma_digits_of(n: nat)
    ensures
        digits_of(n).len() >= 1,
        forall|j: int| 0 <= j < digits_of(n).len() ==> in_class(#[trigger] digits_of(n)[j], CharClass::Digit),
        decimal_value(digits_of(n)) == n,
    decreases n,
{
    let d = if n < 10 { n as int } else { (n % 10) as int };
    assert(in_class(digit_char(d), CharClass::Digit) && digit_value(digit_char(d)) == d) by {
        assert(0 <= d < 10);
        if d == 0 {} else if d == 1 {} else if d == 2 {} else if d == 3 {} else if d == 4 {}
        else if d == 5 {} else if d == 6 {} else if d == 7 {} else if d == 8 {} else {}
    }
    if n < 10 {
        assert(digits_of(n).drop_last() =~= Seq::<char>::empty());
        assert(decimal_value(Seq::<char>::empty()) == 0);
    } else {
        lemma_digits_of(n / 10);
        assert(digits_of(n).drop_last() =~= digits_of(n / 10));
        assert(n == (n / 10) * 10 + n % 10) by (nonlinear_arith);
    }
}

/// A run of digits that reaches the end of the text is taken whole.
proof fn lemma_digit_run_to_end(s: Seq<char>, p: int)
    requires
        0 <= p <= s.len(),
        forall|j: int| p <= j < s.len() ==> in_class(#[trigger] s[j], CharClass::Digit),
    ensures
        class_len(s, p, CharClass::Digit) == s.len() - p,
    decreases s.len() - p,
{
    if p < s.len() {
        lemma_digit_run_to_end(s, p + 1);
    }
}

/// Every `i64` written in decimal parses back, as a literal and as an
/// expression in any scope, to the number `i`, and the whole text is taken.
pub proof fn lemma_decimal_text_parses(env: Scope, i: i64, d: nat)
    requires
        d >= 1,
    ensures
        value_at(decimal_text(i as int), 0) == Ok::<(ValueModel, nat), (ParseErrorKind, int)>((
            ValueModel::Number(i as int),
            decimal_text(i as int).len(),
        )),
        expr_at(env, decimal_text(i as int), 0, d) == Ok::<(ExprModel, nat), (ParseErrorKind, int)>((
            ExprModel::Value(ValueModel::Number(i as int)),
            decimal_text(i as int).len(),
        )),
{
    let s = decimal_text(i as int);
    let mag: nat = if i < 0 { (-i) as nat } else { i as nat };
    let start: int = if i < 0 { 1 } else { 0 };
    lemma_digits_of(mag);
    assert(s.subrange(start, s.len() as int) =~= digits_of(mag));
    assert forall|j: int| start <= j < s.len() implies in_class(#[trigger] s[j], CharClass::Digit) by {
        assert(s[j] == digits_of(mag)[j - start]);
    }
    lemma_digit_run_to_end(s, start);
    assert(s[0] == '-' || in_class(s[0], CharClass::Digit));
    assert(number_at(s, 0) == Ok::<(ValueModel, nat), (ParseErrorKind, int)>((ValueModel::Number(i as int), s.len())));
    assert(value_at(s, 0) == number_at(s, 0));
    assert(ws_len(s, 0) == 0);
    assert(!keyword_at(s, 0, let_word())) by {
        if has_prefix_at(s, 0, let_word()) {
            assert(s.subrange(0, 3)[0] == 'l');
        }
    }
    assert(!keyword_at(s, 0, if_word())) by {
        if has_prefix_at(s, 0, if_word()) {
            assert(s.subrange(0, 2)[0] == 'i');
        }
    }
    assert(starts_value(s, 0));
    let e = (d - 1) as nat;
    assert(factor_at(env, s, 0, e) == Ok::<(ExprModel, nat), (ParseErrorKind, int)>((
        ExprModel::Value(ValueModel::Number(i as int)),
        s.len(),
    )));
    assert(term_at(env, s, 0, e) == factor_at(env, s, 0, e));
}

} // verus!
