use vstd::prelude::*;

verus! {

/// A runtime value. `ReturnValue` carries an early `return` out of nested
/// statement sequences and never leaves a program's evaluation.
#[derive(Debug)]
pub enum Object {
    Integer(i64),
    Bool(bool),
    ReturnValue(Box<Object>),
    Null,
}

/// The decimal digit `d` as a character.
pub open spec fn digit_char(d: int) -> char {
    (d + 48) as char
}

/// The decimal digits of `n`, most significant first, without leading zeros.
pub open spec fn nat_digits(n: nat) -> Seq<char>
    decreases n,
{
    if n < 10 {
        seq![digit_char(n as int)]
    } else {
        nat_digits(n / 10).push(digit_char((n % 10) as int))
    }
}

/// The decimal text of `n`, with a leading `-` when it is negative.
pub open spec fn decimal(n: int) -> Seq<char> {
    if n < 0 {
        seq!['-'] + nat_digits((-n) as nat)
    } else {
        nat_digits(n as nat)
    }
}

/// The text a value prints as: a return signal prints as what it carries.
pub open spec fn object_text(o: Object) -> Seq<char>
    decreases o,
{
    match o {
        Object::Integer(v) => decimal(v as int),
        Object::Bool(b) => if b {
            seq!['t', 'r', 'u', 'e']
        } else {
            seq!['f', 'a', 'l', 's', 'e']
        },
        Object::ReturnValue(inner) => object_text(*inner),
        Object::Null => seq!['n', 'i', 'l'],
    }
}

/// Relies on `i64`'s `Display` through `to_string`: the decimal digits
/// without leading zeros, after a `-` for a negative number.
#[verifier::external_body]
fn integer_text(v: i64) -> (r: String)
    ensures
        r@ == decimal(v as int),
{
    v.to_string()
}

impl Object {
    /// A value equal to this one, built anew.
    pub fn duplicate(&self) -> (r: Object)
        ensures
            r == *self,
        decreases *self,
    {
        match self {
            Object::Integer(v) => Object::Integer(*v),
            Object::Bool(b) => Object::Bool(*b),
            Object::ReturnValue(inner) => Object::ReturnValue(Box::new(inner.duplicate())),
            Object::Null => Object::Null,
        }
    }

    /// The printed form of the value: `nil` for null.
    pub fn to_string(&self) -> (r: String)
        ensures
            r@ == object_text(*self),
        decreases *self,
    {
        match self {
            Object::Integer(v) => integer_text(*v),
            Object::Bool(b) => {
                let mut s = String::new();
                if *b {
                    s.append("true");
                } else {
                    s.append("false");
                }
                proof {
                    reveal_strlit("true");
                    reveal_strlit("false");
                }
                s
            },
            Object::ReturnValue(inner) => inner.to_string(),
            Object::Null => {
                let mut s = String::new();
                s.append("nil");
                proof {
                    reveal_strlit("nil");
                }
                s
            },
        }
    }
}

} // verus!
