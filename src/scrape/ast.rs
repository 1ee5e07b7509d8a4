use vstd::prelude::*;

verus! {

/// A literal leaf of the tree.
#[derive(Debug, PartialEq, Eq)]
pub enum Value {
    Number(i64),
    Bool(bool),
    Str(String),
}

/// The statically inferred shape of an expression or a value.
#[derive(Debug, Clone, Copy, PartialEq, Eq, Structural)]
pub enum TypeRepr {
    Number,
    Bool,
    Str,
}

/// A binary operator.
#[derive(Debug, Clone, Copy, PartialEq, Eq, Structural)]
pub enum Oper {
    /// 4 + 20
    Add,
    /// 4 - 20
    Sub,
    /// 4 * 20
    Mul,
    /// 4 / 20
    Div,
    /// 4 == 4
    Eq,
    /// 4 != 4
    Neq,
}

/// The syntax tree. Parentheses leave no node of their own: the shape of the
/// tree records them. An identifier leaves no node either: the expression it
/// was bound to stands in its place.
#[derive(Debug, PartialEq, Eq)]
pub enum Expr {
    Value(Value),
    Binop(Oper, Box<Expr>, Box<Expr>),
    /// `let name = bound in body`
    Let(String, Box<Expr>, Box<Expr>),
    /// `if condition then a else b`
    If(Box<Expr>, Box<Expr>, Box<Expr>),
}

/// What a `Value` stands for: strings as sequences of characters.
pub enum ValueModel {
    Number(int),
    Bool(bool),
    Str(Seq<char>),
}

/// What an `Expr` stands for: the same tree, with names and strings as
/// sequences of characters.
pub enum ExprModel {
    Value(ValueModel),
    Binop(Oper, Box<ExprModel>, Box<ExprModel>),
    Let(Seq<char>, Box<ExprModel>, Box<ExprModel>),
    If(Box<ExprModel>, Box<ExprModel>, Box<ExprModel>),
}

pub open spec fn value_model(v: &Value) -> ValueModel {
    match v {
        Value::Number(n) => ValueModel::Number(*n as int),
        Value::Bool(b) => ValueModel::Bool(*b),
        Value::Str(s) => ValueModel::Str(s@),
    }
}

pub open spec fn expr_model(e: &Expr) -> ExprModel
    decreases e,
{
    match e {
        Expr::Value(v) => ExprModel::Value(value_model(v)),
        Expr::Binop(o, a, b) => ExprModel::Binop(*o, Box::new(expr_model(a)), Box::new(expr_model(b))),
        Expr::Let(n, a, b) => ExprModel::Let(n@, Box::new(expr_model(a)), Box::new(expr_model(b))),
        Expr::If(c, a, b) => ExprModel::If(
            Box::new(expr_model(c)),
            Box::new(expr_model(a)),
            Box::new(expr_model(b)),
        ),
    }
}

impl View for Value {
    type V = ValueModel;

    open spec fn view(&self) -> ValueModel {
        value_model(self)
    }
}

impl View for Expr {
    type V = ExprModel;

    open spec fn view(&self) -> ExprModel {
        expr_model(self)
    }
}

/// The operator that a text names: `+`, `-`, `*` or `/`.
pub open spec fn oper_named(t: Seq<char>) -> Option<Oper> {
    if t == seq!['+'] {
        Some(Oper::Add)
    } else if t == seq!['-'] {
        Some(Oper::Sub)
    } else if t == seq!['*'] {
        Some(Oper::Mul)
    } else if t == seq!['/'] {
        Some(Oper::Div)
    } else {
        None
    }
}

impl Oper {
    /// The operator that `s` names, if any.
    pub fn from_symbol(s: &str) -> (r: Option<Oper>)
        ensures
            r == oper_named(s@),
    {
        if s.unicode_len() != 1 {
            return None;
        }
        let c = s.get_char(0);
        assert(s@ =~= seq![c]);
        if c == '+' {
            Some(Oper::Add)
        } else if c == '-' {
            Some(Oper::Sub)
        } else if c == '*' {
            Some(Oper::Mul)
        } else if c == '/' {
            Some(Oper::Div)
        } else {
            assert(s@ != seq!['+'] && s@ != seq!['-'] && s@ != seq!['*'] && s@ != seq!['/']) by {
                assert(seq!['+'][0] == '+' && seq!['-'][0] == '-' && seq!['*'][0] == '*' && seq!['/'][0] == '/');
            }
            None
        }
    }
}

/// The message that refuses a text naming no operator.
pub open spec fn invalid_operator_text() -> Seq<char> {
    seq!['I', 'n', 'v', 'a', 'l', 'i', 'd', ' ', 'O', 'p', 'e', 'r', 'a', 't', 'o', 'r']
}

impl std::str::FromStr for Oper {
    type Err = &'static str;

    /// `+`, `-`, `*` and `/` name `Add`, `Sub`, `Mul` and `Div`; any other
    /// text is refused with "Invalid Operator".
    fn from_str(s: &str) -> (r: Result<Oper, &'static str>)
        ensures
            r matches Ok(o) ==> oper_named(s@) == Some(o),
            r is Err ==> oper_named(s@) is None,
            r matches Err(e) ==> e@ == invalid_operator_text(),
    {
        proof {
            reveal_strlit("Invalid Operator");
        }
        match Oper::from_symbol(s) {
            Some(o) => Ok(o),
            None => Err("Invalid Operator"),
        }
    }
}

impl Clone for Value {
    fn clone(&self) -> (r: Self)
        ensures
            r == *self,
    {
        match self {
            Value::Number(n) => Value::Number(*n),
            Value::Bool(b) => Value::Bool(*b),
            Value::Str(s) => Value::Str(s.clone()),
        }
    }
}

impl Clone for Expr {
    fn clone(&self) -> (r: Self)
        ensures
            r == *self,
        decreases self,
    {
        match self {
            Expr::Value(v) => Expr::Value(v.clone()),
            Expr::Binop(o, a, b) => Expr::Binop(*o, Box::new((**a).clone()), Box::new((**b).clone())),
            Expr::Let(n, a, b) => Expr::Let(n.clone(), Box::new((**a).clone()), Box::new((**b).clone())),
            Expr::If(c, a, b) => Expr::If(
                Box::new((**c).clone()),
                Box::new((**a).clone()),
                Box::new((**b).clone()),
            ),
        }
    }
}

} // verus!
