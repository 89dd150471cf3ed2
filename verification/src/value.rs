use crate::decimal::{decimal_digits, decimal_text};
use vstd::prelude::*;
use vstd::std_specs::ops::{AddSpecImpl, NegSpecImpl, NotSpecImpl};
use vstd::string::StringExecFns;

verus! {

/// A runtime value of the language.
///
/// `Nil` is the value of a variable that was declared and not yet given a
/// value; `Nothing` is what reading an unknown name yields.
#[derive(PartialEq, Debug)]
pub enum Value {
    Str(String),
    Int(i32),
    Boolean(bool),
    Nothing,
    Nil,
}

/// The mathematical content of a [`Value`]: a string is its sequence of
/// characters.
pub enum ValueView {
    Str(Seq<char>),
    Int(i32),
    Boolean(bool),
    Nothing,
    Nil,
}

impl View for Value {
    type V = ValueView;

    open spec fn view(&self) -> ValueView {
        match *self {
            Value::Str(s) => ValueView::Str(s@),
            Value::Int(n) => ValueView::Int(n),
            Value::Boolean(b) => ValueView::Boolean(b),
            Value::Nothing => ValueView::Nothing,
            Value::Nil => ValueView::Nil,
        }
    }
}

/// An integer in decimal digits, with a minus sign in front of a negative
/// one.
pub open spec fn integer_text(n: int) -> Seq<char> {
    if n < 0 {
        seq!['-'] + decimal_digits((-n) as nat)
    } else {
        decimal_digits(n as nat)
    }
}

impl ValueView {
    /// The text that stands for a value in output: an integer in decimal, a
    /// boolean as `true` or `false`, a string as it is, and the words `Nil`
    /// and `Nothing`.
    pub open spec fn text(self) -> Seq<char> {
        match self {
            ValueView::Str(s) => s,
            ValueView::Int(n) => integer_text(n as int),
            ValueView::Boolean(b) => if b {
                "true"@
            } else {
                "false"@
            },
            ValueView::Nothing => "Nothing"@,
            ValueView::Nil => "Nil"@,
        }
    }
}

impl Value {
    /// The text that stands for the value in output.
    pub fn to_text(&self) -> (text: String)
        ensures
            text@ == self@.text(),
    {
        match self {
            Value::Int(n) => {
                if *n < 0 {
                    proof {
                        reveal_strlit("-");
                    }
                    let digits = decimal_text((-(*n as i64)) as u64);
                    String::from_str("-").concat(digits.as_str())
                } else {
                    decimal_text(*n as u64)
                }
            },
            Value::Str(s) => s.clone(),
            Value::Boolean(b) => if *b {
                String::from_str("true")
            } else {
                String::from_str("false")
            },
            Value::Nothing => String::from_str("Nothing"),
            Value::Nil => String::from_str("Nil"),
        }
    }
}

impl Clone for Value {
    fn clone(&self) -> (copy: Self)
        ensures
            copy == *self,
    {
        match self {
            Value::Str(s) => Value::Str(s.clone()),
            Value::Int(n) => Value::Int(*n),
            Value::Boolean(b) => Value::Boolean(*b),
            Value::Nothing => Value::Nothing,
            Value::Nil => Value::Nil,
        }
    }
}

/// Arithmetic negation. It is defined on integers other than the least one,
/// whose negation does not fit in 32 bits.
impl std::ops::Neg for Value {
    type Output = Value;

    fn neg(self) -> (negated: Value) {
        match self {
            Value::Int(n) => Value::Int(-n),
            _ => vstd::pervasive::unreached(),
        }
    }
}

impl NegSpecImpl for Value {
    open spec fn obeys_neg_spec() -> bool {
        true
    }

    open spec fn neg_req(self) -> bool {
        self matches Value::Int(n) && n != i32::MIN
    }

    open spec fn neg_spec(self) -> Value {
        Value::Int((-self->Int_0) as i32)
    }
}

/// Logical negation. It is defined on booleans.
impl std::ops::Not for Value {
    type Output = Value;

    fn not(self) -> (negated: Value) {
        match self {
            Value::Boolean(b) => Value::Boolean(!b),
            _ => vstd::pervasive::unreached(),
        }
    }
}

impl NotSpecImpl for Value {
    open spec fn obeys_not_spec() -> bool {
        true
    }

    open spec fn not_req(self) -> bool {
        self is Boolean
    }

    open spec fn not_spec(self) -> Value {
        Value::Boolean(!self->Boolean_0)
    }
}

/// Integer addition. It is defined on two integers whose sum fits in 32 bits.
impl std::ops::Add for Value {
    type Output = Value;

    fn add(self, other: Value) -> (sum: Value) {
        match self {
            Value::Int(x) => match other {
                Value::Int(y) => Value::Int(x + y),
                _ => vstd::pervasive::unreached(),
            },
            _ => vstd::pervasive::unreached(),
        }
    }
}

impl AddSpecImpl for Value {
    open spec fn obeys_add_spec() -> bool {
        true
    }

    open spec fn add_req(self, other: Value) -> bool {
        &&& self matches Value::Int(x)
        &&& other matches Value::Int(y)
        &&& i32::MIN <= x + y <= i32::MAX
    }

    open spec fn add_spec(self, other: Value) -> Value {
        Value::Int((self->Int_0 + other->Int_0) as i32)
    }
}

/// A unary operator of the language.
#[derive(Debug, Copy, Clone, PartialEq, Eq)]
pub enum Operator {
    Minus,
    Plus,
    Bang,
}

} // verus!
