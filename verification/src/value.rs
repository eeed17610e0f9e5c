use vstd::prelude::*;
use crate::expr::Expr;

verus! {

/// A runtime value of the language: a tagged union shared by the compiler
/// (for literals) and the virtual machine (for everything on a stack or in a
/// binding).  A string literal carries the interpolation sub-expressions that
/// appeared inside it; the compiler compiles them separately and emits the
/// string constant with that list emptied, so at run time `printables` is
/// always empty and the machine never reads it.
pub enum Value {
    Number(i64),
    Bool(bool),
    Str { string: String, printables: Vec<Expr> },
    List(Vec<Value>),
    Nil,
}

/// The mathematical model of a runtime value.  Interpolation sub-expressions
/// are a compile-time artifact and are not part of the model: no machine
/// step ever depends on them.
#[verifier::ext_equal]
pub enum ValueV {
    Number(i64),
    Bool(bool),
    Str(Seq<char>),
    List(Seq<ValueV>),
    Nil,
}

/// Model of a single value.
pub open spec fn val_view(v: Value) -> ValueV
    decreases v,
{
    match v {
        Value::Number(n) => ValueV::Number(n),
        Value::Bool(b) => ValueV::Bool(b),
        Value::Str { string, printables } => ValueV::Str(string@),
        Value::List(items) => ValueV::List(vals_view(items@)),
        Value::Nil => ValueV::Nil,
    }
}

/// Model of a sequence of values, element for element.
pub open spec fn vals_view(s: Seq<Value>) -> Seq<ValueV>
    decreases s,
{
    if s.len() == 0 {
        Seq::empty()
    } else {
        seq![val_view(s[0])] + vals_view(s.drop_first())
    }
}

/// `vals_view` maps the sequence element for element.
pub broadcast proof fn lemma_vals_view(s: Seq<Value>)
    ensures
        (#[trigger] vals_view(s)).len() == s.len(),
        forall|i: int| 0 <= i < s.len() ==> vals_view(s)[i] == val_view(s[i]),
    decreases s.len(),
{
    if s.len() > 0 {
        lemma_vals_view(s.drop_first());
    }
}

impl Value {
    /// Copy of the runtime content of the value.  Interpolation
    /// sub-expressions are not carried along: they mean nothing once a value
    /// exists at run time.
    #[verifier::loop_isolation(false)]
    pub fn duplicate(&self) -> (r: Value)
        ensures
            val_view(r) == val_view(*self),
        decreases self,
    {
        broadcast use lemma_vals_view;

        match self {
            Value::Number(n) => Value::Number(*n),
            Value::Bool(b) => Value::Bool(*b),
            Value::Str { string, printables } => Value::Str {
                string: string.clone(),
                printables: Vec::new(),
            },
            Value::List(items) => {
                let mut out: Vec<Value> = Vec::new();
                let mut i: usize = 0;
                while i < items.len()
                    invariant
                        0 <= i <= items@.len(),
                        out@.len() == i,
                        forall|j: int| 0 <= j < i ==> val_view(out@[j]) == val_view(items@[j]),
                    decreases items@.len() - i,
                {
                    out.push(items[i].duplicate());
                    i = i + 1;
                }
                assert(vals_view(out@) =~= vals_view(items@));
                Value::List(out)
            }
            Value::Nil => Value::Nil,
        }
    }
}

/// Equality as the language defines it for `==`: numbers, booleans and
/// strings compare within their own kind; any other pairing is simply
/// unequal, never an error.
pub open spec fn values_equal(a: ValueV, b: ValueV) -> bool {
    match (a, b) {
        (ValueV::Number(x), ValueV::Number(y)) => x == y,
        (ValueV::Bool(x), ValueV::Bool(y)) => x == y,
        (ValueV::Str(x), ValueV::Str(y)) => x == y,
        _ => false,
    }
}

} // verus!
