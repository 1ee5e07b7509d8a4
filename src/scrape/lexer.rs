use super::ast::{Value, ValueModel};
use vstd::prelude::*;

verus! {

/// What kind of failure stopped a parse.
#[derive(Debug, Clone, Copy, PartialEq, Eq, Structural)]
pub enum ParseErrorKind {
    /// The text does not follow the grammar here.
    Syntax,
    /// An identifier that no enclosing `let` binds.
    UnboundIdentifier,
    /// A numeric literal outside the range of `i64`.
    IntegerOverflow,
    /// A backslash in a string literal not followed by `\`, `"` or `n`.
    InvalidEscape,
    /// Expressions nested deeper than the parser allows.
    TooDeep,
}

/// A failed parse: its kind and the character index at which it was found.
#[derive(Debug, Clone, Copy, PartialEq, Eq, Structural)]
pub struct ParseError {
    pub kind: ParseErrorKind,
    pub position: usize,
}

/// The result of parsing at a position, in the model: the item and the number
/// of characters it took, or the kind of failure and its position.
pub type Parsed<T> = Result<(T, nat), (ParseErrorKind, int)>;

/// The character classes the lexer scans runs of.
#[derive(Clone, Copy, PartialEq, Eq, Structural)]
pub enum CharClass {
    /// space, tab, line feed, carriage return
    Space,
    /// `0` to `9`
    Digit,
    /// ASCII letters
    Alpha,
}

pub open spec fn in_class(c: char, k: CharClass) -> bool {
    match k {
        CharClass::Space => c == ' ' || c == '\t' || c == '\n' || c == '\r',
        CharClass::Digit => '0' <= c && c <= '9',
        CharClass::Alpha => ('a' <= c && c <= 'z') || ('A' <= c && c <= 'Z'),
    }
}

/// Length of the longest run of characters of class `k` that starts at `p`.
pub open spec fn class_len(s: Seq<char>, p: int, k: CharClass) -> nat
    decreases s.len() - p,
{
    if 0 <= p < s.len() && in_class(s[p], k) {
        1 + class_len(s, p + 1, k)
    } else {
        0
    }
}

/// Does `w` occur in `s` at `p`?
pub open spec fn has_prefix_at(s: Seq<char>, p: int, w: Seq<char>) -> bool {
    0 <= p && p + w.len() <= s.len() && s.subrange(p, p + w.len()) == w
}

/// A character that a string literal may hold as it is: printable ASCII but
/// for the quote and the backslash.
pub open spec fn str_char(c: char) -> bool {
    ' ' <= c && c <= '~' && c != '"' && c != '\\'
}

/// The character that `\c` stands for in a string literal.
pub open spec fn unescape(c: char) -> Option<char> {
    if c == '\\' {
        Some('\\')
    } else if c == '"' {
        Some('"')
    } else if c == 'n' {
        Some('\n')
    } else {
        None
    }
}

pub open spec fn digit_value(c: char) -> int {
    (c as u32) - ('0' as u32)
}

/// The number that a sequence of decimal digits writes.
pub open spec fn decimal_value(d: Seq<char>) -> int
    decreases d.len(),
{
    if d.len() == 0 {
        0
    } else {
        decimal_value(d.drop_last()) * 10 + digit_value(d.last())
    }
}

/// A numeric literal at `p`: an optional `-`, then the longest run of digits.
pub open spec fn number_at(s: Seq<char>, p: int) -> Parsed<ValueModel> {
    let neg = 0 <= p < s.len() && s[p] == '-';
    let start = if neg { p + 1 } else { p };
    let n = class_len(s, start, CharClass::Digit);
    if n == 0 {
        Err((ParseErrorKind::Syntax, start))
    } else {
        let m = decimal_value(s.subrange(start, start + n));
        let v = if neg { -m } else { m };
        if i64::MIN <= v <= i64::MAX {
            Ok((ValueModel::Number(v), (start + n - p) as nat))
        } else {
            Err((ParseErrorKind::IntegerOverflow, p))
        }
    }
}

/// The body of a string literal from `q` on: plain characters and escapes,
/// up to the first character that is neither. Gives the characters it
/// stands for and the position where it stops.
pub open spec fn str_body(s: Seq<char>, q: int) -> Result<(Seq<char>, int), (ParseErrorKind, int)>
    decreases s.len() - q,
{
    if q < 0 || q >= s.len() {
        Ok((Seq::empty(), q))
    } else if str_char(s[q]) {
        match str_body(s, q + 1) {
            Ok((t, e)) => Ok((seq![s[q]] + t, e)),
            Err(x) => Err(x),
        }
    } else if s[q] == '\\' {
        if q + 1 < s.len() && unescape(s[q + 1]) is Some {
            match str_body(s, q + 2) {
                Ok((t, e)) => Ok((seq![unescape(s[q + 1])->0] + t, e)),
                Err(x) => Err(x),
            }
        } else {
            Err((ParseErrorKind::InvalidEscape, q))
        }
    } else {
        Ok((Seq::empty(), q))
    }
}

/// A string literal at `p`, which holds a `"`: a body that is not empty,
/// then the closing `"`.
pub open spec fn string_at(s: Seq<char>, p: int) -> Parsed<ValueModel> {
    match str_body(s, p + 1) {
        Ok((t, e)) => if e == p + 1 {
            Err((ParseErrorKind::Syntax, p + 1))
        } else if e < s.len() && s[e] == '"' {
            Ok((ValueModel::Str(t), (e + 1 - p) as nat))
        } else {
            Err((ParseErrorKind::Syntax, e))
        },
        Err(x) => Err(x),
    }
}

pub open spec fn true_word() -> Seq<char> {
    seq!['t', 'r', 'u', 'e']
}

pub open spec fn false_word() -> Seq<char> {
    seq!['f', 'a', 'l', 's', 'e']
}

/// A literal at `p`. Which kind is read is decided by how the text starts:
/// a number by `-` or a digit, a boolean by `true` or `false`, a string by
/// `"`.
pub open spec fn value_at(s: Seq<char>, p: int) -> Parsed<ValueModel> {
    if p < 0 || p >= s.len() {
        Err((ParseErrorKind::Syntax, p))
    } else if s[p] == '-' || in_class(s[p], CharClass::Digit) {
        number_at(s, p)
    } else if has_prefix_at(s, p, true_word()) {
        Ok((ValueModel::Bool(true), 4))
    } else if has_prefix_at(s, p, false_word()) {
        Ok((ValueModel::Bool(false), 5))
    } else if s[p] == '"' {
        string_at(s, p)
    } else {
        Err((ParseErrorKind::Syntax, p))
    }
}

pub fn is_in_class(c: char, k: CharClass) -> (r: bool)
    ensures
        r == in_class(c, k),
{
    match k {
        CharClass::Space => c == ' ' || c == '\t' || c == '\n' || c == '\r',
        CharClass::Digit => '0' <= c && c <= '9',
        CharClass::Alpha => ('a' <= c && c <= 'z') || ('A' <= c && c <= 'Z'),
    }
}

/// The end of the run of class `k` that starts at `p`.
pub fn scan(cs: &Vec<char>, p: usize, k: CharClass) -> (q: usize)
    requires
        p <= cs.len(),
    ensures
        q == p + class_len(cs@, p as int, k),
        q <= cs.len(),
{
    let mut q = p;
    while q < cs.len() && is_in_class(cs[q], k)
        invariant
            p <= q <= cs.len(),
            class_len(cs@, p as int, k) == (q - p) + class_len(cs@, q as int, k),
        decreases cs.len() - q,
    {
        q = q + 1;
    }
    q
}

/// The view of an outcome that the executable lexer and parser return.
pub open spec fn outcome<T: View>(r: Result<(T, usize), ParseError>, p: int) -> Parsed<T::V> {
    match r {
        Ok((v, q)) => Ok((v@, (q - p) as nat)),
        Err(e) => Err((e.kind, e.position as int)),
    }
}

/// Puts `a` in front of the characters of a string body.
pub open spec fn prefix_with(a: Seq<char>, r: Result<(Seq<char>, int), (ParseErrorKind, int)>) -> Result<(Seq<char>, int), (ParseErrorKind, int)> {
    match r {
        Ok((t, e)) => Ok((a + t, e)),
        Err(x) => Err(x),
    }
}

proof fn lemma_class_run(s: Seq<char>, p: int, k: CharClass)
    requires
        0 <= p <= s.len(),
    ensures
        p + class_len(s, p, k) <= s.len(),
        forall|i: int| p <= i < p + class_len(s, p, k) ==> in_class(#[trigger] s[i], k),
    decreases s.len() - p,
{
    if p < s.len() && in_class(s[p], k) {
        lemma_class_run(s, p + 1, k);
    }
}

proof fn lemma_decimal_step(s: Seq<char>, a: int, b: int)
    requires
        0 <= a <= b < s.len(),
    ensures
        decimal_value(s.subrange(a, b + 1)) == decimal_value(s.subrange(a, b)) * 10 + digit_value(s[b]),
{
    assert(s.subrange(a, b + 1).drop_last() =~= s.subrange(a, b));
}

/// Appending digits never lowers the value.
proof fn lemma_decimal_grows(s: Seq<char>, a: int, b: int, c: int)
    requires
        0 <= a <= b <= c <= s.len(),
        forall|i: int| a <= i < c ==> in_class(#[trigger] s[i], CharClass::Digit),
    ensures
        decimal_value(s.subrange(a, b)) <= decimal_value(s.subrange(a, c)),
    decreases c - b,
{
    if b < c {
        lemma_decimal_grows(s, a, b, c - 1);
        lemma_decimal_nonneg(s, a, c - 1);
        lemma_decimal_step(s, a, c - 1);
    }
}

proof fn lemma_decimal_nonneg(s: Seq<char>, a: int, b: int)
    requires
        0 <= a <= b <= s.len(),
        forall|i: int| a <= i < b ==> in_class(#[trigger] s[i], CharClass::Digit),
    ensures
        decimal_value(s.subrange(a, b)) >= 0,
    decreases b - a,
{
    if a < b {
        lemma_decimal_nonneg(s, a, b - 1);
        lemma_decimal_step(s, a, b - 1);
    } else {
        assert(s.subrange(a, b).len() == 0);
    }
}

/// Does `w` occur in `cs` at `p`?
pub fn word_at(cs: &Vec<char>, p: usize, w: &[char]) -> (r: bool)
    requires
        p <= cs.len(),
    ensures
        r == has_prefix_at(cs@, p as int, w@),
{
    if w.len() > cs.len() - p {
        return false;
    }
    let mut i: usize = 0;
    while i < w.len()
        invariant
            p + w@.len() <= cs.len(),
            i <= w@.len(),
            forall|j: int| 0 <= j < i ==> cs@[p + j] == w@[j],
        decreases w.len() - i,
    {
        if cs[p + i] != w[i] {
            assert(cs@.subrange(p as int, p + w@.len())[i as int] != w@[i as int]);
            return false;
        }
        i = i + 1;
    }
    assert(cs@.subrange(p as int, p + w@.len()) =~= w@);
    true
}

/// A numeric literal at `p`.
pub fn lex_number(cs: &Vec<char>, p: usize) -> (r: Result<(Value, usize), ParseError>)
    requires
        p < cs.len(),
    ensures
        outcome(r, p as int) == number_at(cs@, p as int),
        r matches Ok((_, q)) ==> p <= q <= cs.len(),
{
    let neg = cs[p] == '-';
    let start = if neg { p + 1 } else { p };
    let end = scan(cs, start, CharClass::Digit);
    if end == start {
        return Err(ParseError { kind: ParseErrorKind::Syntax, position: start });
    }
    proof {
        lemma_class_run(cs@, start as int, CharClass::Digit);
    }
    let ghost s = cs@;
    let limit: u128 = 0x8000_0000_0000_0000;
    let mut mag: u128 = 0;
    let mut q = start;
    while q < end
        invariant
            start <= q <= end <= cs.len(),
            s == cs@,
            p < s.len(),
            neg == (s[p as int] == '-'),
            start == if neg { p + 1 } else { p as int },
            end == start + class_len(s, start as int, CharClass::Digit),
            forall|i: int| start <= i < end ==> in_class(#[trigger] s[i], CharClass::Digit),
            mag == decimal_value(s.subrange(start as int, q as int)),
            limit == 0x8000_0000_0000_0000,
            mag <= limit,
        decreases end - q,
    {
        let d = (cs[q] as u32 - '0' as u32) as u128;
        assert(d <= 9 && d == digit_value(s[q as int]));
        proof {
            lemma_decimal_step(s, start as int, q as int);
        }
        if mag * 10 + d > limit {
            proof {
                lemma_decimal_grows(s, start as int, q + 1, end as int);
            }
            return Err(ParseError { kind: ParseErrorKind::IntegerOverflow, position: p });
        }
        mag = mag * 10 + d;
        q = q + 1;
    }
    if neg {
        if mag == limit {
            Ok((Value::Number(i64::MIN), end))
        } else {
            Ok((Value::Number(-(mag as i64)), end))
        }
    } else if mag > i64::MAX as u128 {
        Err(ParseError { kind: ParseErrorKind::IntegerOverflow, position: p })
    } else {
        Ok((Value::Number(mag as i64), end))
    }
}


proof fn lemma_prefix_with_twice(a: Seq<char>, b: Seq<char>, r: Result<(Seq<char>, int), (ParseErrorKind, int)>)
    ensures
        prefix_with(a, prefix_with(b, r)) == prefix_with(a + b, r),
{
    if let Ok((t, e)) = r {
        assert(a + (b + t) =~= (a + b) + t);
    }
}

/// The text that an escape `\c` puts in a string.
fn escape_text(c: char) -> (r: &'static str)
    requires
        unescape(c) is Some,
    ensures
        r@ == seq![unescape(c)->0],
{
    proof {
        reveal_strlit("\\");
        reveal_strlit("\"");
        reveal_strlit("\n");
    }
    if c == '\\' {
        "\\"
    } else if c == '"' {
        "\""
    } else {
        "\n"
    }
}

/// A string literal at `p`, which holds a `"`.
pub fn lex_string(text: &str, cs: &Vec<char>, p: usize) -> (r: Result<(Value, usize), ParseError>)
    requires
        cs@ == text@,
        p < cs.len(),
        cs@[p as int] == '"',
    ensures
        outcome(r, p as int) == string_at(cs@, p as int),
        r matches Ok((_, q)) ==> p <= q <= cs.len(),
{
    let ghost s = cs@;
    let mut out = String::new();
    let mut run = p + 1;
    let mut q = p + 1;
    loop
        invariant
            s == cs@,
            s == text@,
            p + 1 <= run <= q <= s.len(),
            str_body(s, p + 1) == prefix_with(out@ + s.subrange(run as int, q as int), str_body(s, q as int)),
        ensures
            p + 1 <= q <= s.len(),
            str_body(s, p + 1) == Ok::<(Seq<char>, int), (ParseErrorKind, int)>((out@, q as int)),
        decreases s.len() - q,
    {
        if q < cs.len() && is_str_char(cs[q]) {
            proof {
                lemma_prefix_with_twice(out@ + s.subrange(run as int, q as int), seq![s[q as int]], str_body(s, q + 1));
                assert(out@ + s.subrange(run as int, q + 1) =~= (out@ + s.subrange(run as int, q as int)) + seq![s[q as int]]);
            }
            q = q + 1;
        } else {
            let piece = text.substring_char(run, q);
            out.append(piece);
            run = q;
            assert(out@ + s.subrange(q as int, q as int) =~= out@);
            if q < cs.len() && cs[q] == '\\' {
                if q + 1 < cs.len() && is_escapable(cs[q + 1]) {
                    let ghost before = out@;
                    out.append(escape_text(cs[q + 1]));
                    proof {
                        lemma_prefix_with_twice(before, seq![unescape(s[q + 1])->0], str_body(s, q + 2));
                        assert(out@ + s.subrange(q + 2, q + 2) =~= before + seq![unescape(s[q + 1])->0]);
                    }
                    q = q + 2;
                    run = q;
                } else {
                    return Err(ParseError { kind: ParseErrorKind::InvalidEscape, position: q });
                }
            } else {
                assert(out@ + Seq::<char>::empty() =~= out@);
                break;
            }
        }
    }
    if q == p + 1 {
        Err(ParseError { kind: ParseErrorKind::Syntax, position: p + 1 })
    } else if q < cs.len() && cs[q] == '"' {
        Ok((Value::Str(out), q + 1))
    } else {
        Err(ParseError { kind: ParseErrorKind::Syntax, position: q })
    }
}

pub fn is_str_char(c: char) -> (r: bool)
    ensures
        r == str_char(c),
{
    ' ' <= c && c <= '~' && c != '"' && c != '\\'
}

pub fn is_escapable(c: char) -> (r: bool)
    ensures
        r == (unescape(c) is Some),
{
    c == '\\' || c == '"' || c == 'n'
}

/// A literal at `p`.
pub fn lex_value(text: &str, cs: &Vec<char>, p: usize) -> (r: Result<(Value, usize), ParseError>)
    requires
        cs@ == text@,
        p <= cs.len(),
    ensures
        outcome(r, p as int) == value_at(cs@, p as int),
        r matches Ok((_, q)) ==> p <= q <= cs.len(),
{
    proof {
        reveal_with_fuel(has_prefix_at, 1);
    }
    if p >= cs.len() {
        Err(ParseError { kind: ParseErrorKind::Syntax, position: p })
    } else if cs[p] == '-' || is_in_class(cs[p], CharClass::Digit) {
        lex_number(cs, p)
    } else if word_at(cs, p, &['t', 'r', 'u', 'e']) {
        Ok((Value::Bool(true), p + 4))
    } else if word_at(cs, p, &['f', 'a', 'l', 's', 'e']) {
        Ok((Value::Bool(false), p + 5))
    } else if cs[p] == '"' {
        lex_string(text, cs, p)
    } else {
        Err(ParseError { kind: ParseErrorKind::Syntax, position: p })
    }
}

} // verus!
