use super::ast::{Expr, ExprModel, Oper, TypeRepr, Value, ValueModel};
use vstd::prelude::*;

verus! {

/// The type of a literal.
pub open spec fn value_type(v: ValueModel) -> TypeRepr {
    match v {
        ValueModel::Number(_) => TypeRepr::Number,
        ValueModel::Bool(_) => TypeRepr::Bool,
        ValueModel::Str(_) => TypeRepr::Str,
    }
}

/// The type that an operator yields, whatever its operands are.
pub open spec fn oper_type(o: Oper) -> TypeRepr {
    match o {
        Oper::Add | Oper::Sub | Oper::Mul | Oper::Div => TypeRepr::Number,
        Oper::Eq | Oper::Neq => TypeRepr::Bool,
    }
}

/// The operand types that an operator demands, left and right.
pub open spec fn operand_types(o: Oper) -> (TypeRepr, TypeRepr) {
    match o {
        Oper::Add | Oper::Sub | Oper::Mul | Oper::Div => (TypeRepr::Number, TypeRepr::Number),
        Oper::Eq | Oper::Neq => (TypeRepr::Bool, TypeRepr::Bool),
    }
}

/// Inferred type of an expression: an operation by its operator, a `let` by
/// its body, an `if` by its `then` branch. Operands, bound expressions and the
/// other parts are not looked into.
pub open spec fn expr_type(e: ExprModel) -> TypeRepr
    decreases e,
{
    match e {
        ExprModel::Value(v) => value_type(v),
        ExprModel::Binop(o, _, _) => oper_type(o),
        ExprModel::Let(_, _, body) => expr_type(*body),
        ExprModel::If(_, then_branch, _) => expr_type(*then_branch),
    }
}

/// Why an expression fails the check.
#[derive(Debug, Clone, Copy, PartialEq, Eq, Structural)]
pub enum TypeMismatch {
    /// The operands' inferred types are not the pair the operator demands.
    Operands { op: Oper, left: TypeRepr, right: TypeRepr },
    /// The condition of an `if` is not of type `Bool`.
    Condition { found: TypeRepr },
    /// The two branches of an `if` have different types.
    Branches { then_type: TypeRepr, else_type: TypeRepr },
}

/// The verdict of the checker. An operation passes when the inferred types of
/// its operands are the pair its operator demands; a `let` when its body
/// passes; an `if` when its condition is inferred `Bool` and both branches are
/// inferred the same type. Operands, conditions and branches are not checked
/// further down, and the bound expression of a `let` not at all.
pub open spec fn check(e: ExprModel) -> Result<(), TypeMismatch>
    decreases e,
{
    match e {
        ExprModel::Value(_) => Ok(()),
        ExprModel::Binop(op, l, r) => {
            let (left, right) = (expr_type(*l), expr_type(*r));
            if (left, right) == operand_types(op) {
                Ok(())
            } else {
                Err(TypeMismatch::Operands { op, left, right })
            }
        },
        ExprModel::Let(_, _, body) => check(*body),
        ExprModel::If(c, t, f) => {
            if expr_type(*c) != TypeRepr::Bool {
                Err(TypeMismatch::Condition { found: expr_type(*c) })
            } else if expr_type(*t) != expr_type(*f) {
                Err(TypeMismatch::Branches { then_type: expr_type(*t), else_type: expr_type(*f) })
            } else {
                Ok(())
            }
        },
    }
}

impl Value {
    pub fn get_type(&self) -> (r: TypeRepr)
        ensures
            r == value_type(self@),
    {
        match self {
            Value::Number(_) => TypeRepr::Number,
            Value::Bool(_) => TypeRepr::Bool,
            Value::Str(_) => TypeRepr::Str,
        }
    }
}

impl Oper {
    pub fn get_type(&self) -> (r: TypeRepr)
        ensures
            r == oper_type(*self),
    {
        match self {
            Oper::Add | Oper::Sub | Oper::Mul | Oper::Div => TypeRepr::Number,
            Oper::Eq | Oper::Neq => TypeRepr::Bool,
        }
    }

    pub fn get_types_to_check(&self) -> (r: (TypeRepr, TypeRepr))
        ensures
            r == operand_types(*self),
    {
        match self {
            Oper::Add | Oper::Sub | Oper::Mul | Oper::Div => (TypeRepr::Number, TypeRepr::Number),
            Oper::Eq | Oper::Neq => (TypeRepr::Bool, TypeRepr::Bool),
        }
    }
}

impl Expr {
    /// Infers the type of the expression. It reads nothing but the node, so
    /// any two calls on the same node give the same type.
    pub fn get_type(&self) -> (r: TypeRepr)
        ensures
            r == expr_type(self@),
        decreases self,
    {
        match self {
            Expr::Value(v) => v.get_type(),
            Expr::Binop(o, _, _) => o.get_type(),
            Expr::Let(_, _, body) => body.get_type(),
            Expr::If(_, then_branch, _) => then_branch.get_type(),
        }
    }
}

/// Static checking of a tree.
pub trait TypeCheck {
    type R;

    fn typecheck(&self) -> Self::R;
}

impl TypeCheck for Expr {
    type R = Result<(), TypeMismatch>;

    fn typecheck(&self) -> (r: Result<(), TypeMismatch>)
        ensures
            r == check(self@),
        decreases self,
    {
        match self {
            Expr::Value(_) => Ok(()),
            Expr::Binop(op, l, r) => {
                let (want_left, want_right) = op.get_types_to_check();
                let left = l.get_type();
                let right = r.get_type();
                if left == want_left && right == want_right {
                    Ok(())
                } else {
                    Err(TypeMismatch::Operands { op: *op, left, right })
                }
            },
            Expr::Let(_, _, body) => body.typecheck(),
            Expr::If(c, t, f) => {
                let found = c.get_type();
                let then_type = t.get_type();
                let else_type = f.get_type();
                if found != TypeRepr::Bool {
                    Err(TypeMismatch::Condition { found })
                } else if then_type != else_type {
                    Err(TypeMismatch::Branches { then_type, else_type })
                } else {
                    Ok(())
                }
            },
        }
    }
}

} // verus!
