use vstd::prelude::*;
use crate::value::{val_view, vals_view, Value, ValueV};

verus! {

/// The decimal digit character for `d` (0 to 9).
pub open spec fn digit_char(d: int) -> char {
    if d == 0 {
        '0'
    } else if d == 1 {
        '1'
    } else if d == 2 {
        '2'
    } else if d == 3 {
        '3'
    } else if d == 4 {
        '4'
    } else if d == 5 {
        '5'
    } else if d == 6 {
        '6'
    } else if d == 7 {
        '7'
    } else if d == 8 {
        '8'
    } else {
        '9'
    }
}

/// Decimal digits of a natural number, most significant first.
pub open spec fn dec_u(n: nat) -> Seq<char>
    decreases n,
{
    if n < 10 {
        seq![digit_char(n as int)]
    } else {
        dec_u(n / 10).push(digit_char((n % 10) as int))
    }
}

/// Decimal rendering of an integer: a minus sign before the digits of the
/// magnitude when it is negative.
pub open spec fn int_str(n: int) -> Seq<char> {
    if n >= 0 {
        dec_u(n as nat)
    } else {
        seq!['-'] + dec_u((-n) as nat)
    }
}

/// A single decimal digit as a string slice.
fn digit_str(d: u64) -> (r: &'static str)
    requires
        d < 10,
    ensures
        r@ =~= seq![digit_char(d as int)],
{
    if d == 0 {
        proof { reveal_strlit("0"); }
        "0"
    } else if d == 1 {
        proof { reveal_strlit("1"); }
        "1"
    } else if d == 2 {
        proof { reveal_strlit("2"); }
        "2"
    } else if d == 3 {
        proof { reveal_strlit("3"); }
        "3"
    } else if d == 4 {
        proof { reveal_strlit("4"); }
        "4"
    } else if d == 5 {
        proof { reveal_strlit("5"); }
        "5"
    } else if d == 6 {
        proof { reveal_strlit("6"); }
        "6"
    } else if d == 7 {
        proof { reveal_strlit("7"); }
        "7"
    } else if d == 8 {
        proof { reveal_strlit("8"); }
        "8"
    } else {
        proof { reveal_strlit("9"); }
        "9"
    }
}

/// Decimal rendering of an unsigned number.
pub fn dec_u64(n: u64) -> (r: String)
    ensures
        r@ == dec_u(n as nat),
    decreases n,
{
    if n < 10 {
        String::from_str(digit_str(n))
    } else {
        let mut s = dec_u64(n / 10);
        s.append(digit_str(n % 10));
        assert(s@ =~= dec_u(n as nat));
        s
    }
}

/// Decimal rendering of a signed number.
pub fn i64_to_string(n: i64) -> (r: String)
    ensures
        r@ == int_str(n as int),
{
    if n >= 0 {
        dec_u64(n as u64)
    } else {
        let m: u64 = if n == i64::MIN {
            9223372036854775808u64
        } else {
            (-n) as u64
        };
        assert(m as nat == (-(n as int)) as nat);
        let mut s = String::from_str("-");
        let digits = dec_u64(m);
        s.append(digits.as_str());
        proof { reveal_strlit("-"); }
        assert(s@ =~= int_str(n as int));
        s
    }
}

/// Decimal rendering of a wide unsigned number.
pub fn dec_u128(n: u128) -> (r: String)
    ensures
        r@ == dec_u(n as nat),
    decreases n,
{
    if n < 10 {
        String::from_str(digit_str(n as u64))
    } else {
        let mut s = dec_u128(n / 10);
        s.append(digit_str((n % 10) as u64));
        assert(s@ =~= dec_u(n as nat));
        s
    }
}

/// Decimal rendering of a wide signed number.
pub fn i128_to_string(n: i128) -> (r: String)
    ensures
        r@ == int_str(n as int),
{
    if n >= 0 {
        dec_u128(n as u128)
    } else {
        let m: u128 = if n == i128::MIN {
            170141183460469231731687303715884105728u128
        } else {
            (-n) as u128
        };
        assert(m as nat == (-(n as int)) as nat);
        let mut s = String::from_str("-");
        let digits = dec_u128(m);
        s.append(digits.as_str());
        proof { reveal_strlit("-"); }
        assert(s@ =~= int_str(n as int));
        s
    }
}

/// How a value reads when printed: numbers and booleans in their native
/// form, strings as their text, a list as its rendered elements between
/// square brackets with commas between them, and the none value as a fixed
/// word.
pub open spec fn render_view(v: ValueV) -> Seq<char>
    decreases v,
{
    match v {
        ValueV::Number(n) => int_str(n as int),
        ValueV::Bool(b) => if b { "true"@ } else { "false"@ },
        ValueV::Str(s) => s,
        ValueV::List(items) => seq!['['] + renders_view(items) + seq![']'],
        ValueV::Nil => "None"@,
    }
}

/// Rendered list elements with a comma between each pair of neighbours.
pub open spec fn renders_view(items: Seq<ValueV>) -> Seq<char>
    decreases items,
{
    if items.len() == 0 {
        Seq::empty()
    } else if items.len() == 1 {
        render_view(items[0])
    } else {
        render_view(items[0]) + seq![','] + renders_view(items.drop_first())
    }
}

/// Appending one element extends the rendering by a comma (when anything
/// came before it) and the element's own rendering.
proof fn lemma_renders_push(items: Seq<ValueV>, x: ValueV)
    ensures
        renders_view(items.push(x)) =~= if items.len() == 0 {
            render_view(x)
        } else {
            renders_view(items) + seq![','] + render_view(x)
        },
    decreases items.len(),
{
    if items.len() == 0 {
        assert(items.push(x).len() == 1);
        assert(items.push(x)[0] == x);
    } else {
        lemma_renders_push(items.drop_first(), x);
        assert(items.push(x).drop_first() =~= items.drop_first().push(x));
        if items.len() == 1 {
            assert(renders_view(items) =~= render_view(items[0]));
        }
    }
}

/// Render a value for printing.
#[verifier::loop_isolation(false)]
pub fn render_value(v: &Value) -> (r: String)
    ensures
        r@ == render_view(val_view(*v)),
    decreases v,
{
    broadcast use crate::value::lemma_vals_view;

    match v {
        Value::Number(n) => i64_to_string(*n),
        Value::Bool(b) => {
            if *b {
                String::from_str("true")
            } else {
                String::from_str("false")
            }
        }
        Value::Str { string, printables } => string.clone(),
        Value::List(items) => {
            let mut out = String::from_str("[");
            proof { reveal_strlit("["); }
            let mut i: usize = 0;
            while i < items.len()
                invariant
                    0 <= i <= items@.len(),
                    out@ =~= seq!['['] + renders_view(vals_view_prefix(items@, i as int)),
                decreases items@.len() - i,
            {
                if i > 0 {
                    out.append(",");
                    proof { reveal_strlit(","); }
                }
                let piece = render_value(&items[i]);
                out.append(piece.as_str());
                proof {
                    let pre = vals_view_prefix(items@, i as int);
                    lemma_renders_push(pre, val_view(items@[i as int]));
                    assert(vals_view_prefix(items@, i + 1) =~= pre.push(val_view(items@[i as int])));
                }
                i = i + 1;
            }
            out.append("]");
            proof {
                reveal_strlit("]");
                assert(vals_view_prefix(items@, items@.len() as int) =~= vals_view(items@));
            }
            assert(out@ =~= render_view(val_view(*v)));
            out
        }
        Value::Nil => String::from_str("None"),
    }
}

/// The models of the first `n` elements of a value sequence.
pub open spec fn vals_view_prefix(s: Seq<Value>, n: int) -> Seq<ValueV> {
    Seq::new(if 0 <= n <= s.len() { n as nat } else { 0 }, |i: int| val_view(s[i]))
}

} // verus!
