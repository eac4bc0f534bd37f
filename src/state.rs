//! State values reported by the hub, and their canonical text.
use vstd::prelude::*;
use vstd::string::*;

verus! {

/// The tagged state value of an entity.
///
/// A decimal is held as the text that the standard numeric conversion of the
/// hub's floating-point value gave; the other variants hold the value itself.
pub enum StateValue {
    Integer(i64),
    Decimal(String),
    Boolean(bool),
    Text(String),
}

/// Decimal digits of a natural number, most significant first.
pub open spec fn nat_text(n: nat) -> Seq<char>
    decreases n,
{
    if n < 10 {
        seq![digit_char(n)]
    } else {
        nat_text(n / 10).push(digit_char(n % 10))
    }
}

pub open spec fn digit_char(d: nat) -> char {
    if d < 10 {
        (('0' as u8) + (d as u8)) as char
    } else {
        '?'
    }
}

/// Standard decimal text of an integer: a leading `-` for negatives.
pub open spec fn int_text(i: int) -> Seq<char> {
    if i < 0 {
        seq!['-'] + nat_text((-i) as nat)
    } else {
        nat_text(i as nat)
    }
}

pub open spec fn bool_text(b: bool) -> Seq<char> {
    if b {
        seq!['t', 'r', 'u', 'e']
    } else {
        seq!['f', 'a', 'l', 's', 'e']
    }
}

impl StateValue {
    /// Canonical text of the value.
    pub open spec fn text(&self) -> Seq<char> {
        match self {
            StateValue::Integer(i) => int_text(*i as int),
            StateValue::Decimal(d) => d@,
            StateValue::Boolean(b) => bool_text(*b),
            StateValue::Text(s) => s@,
        }
    }
}

fn digit_str(d: u64) -> (r: &'static str)
    requires
        d < 10,
    ensures
        r@ == seq![digit_char(d as nat)],
{
    proof {
        reveal_strlit("0");
        reveal_strlit("1");
        reveal_strlit("2");
        reveal_strlit("3");
        reveal_strlit("4");
        reveal_strlit("5");
        reveal_strlit("6");
        reveal_strlit("7");
        reveal_strlit("8");
        reveal_strlit("9");
    }
    if d == 0 {
        "0"
    } else if d == 1 {
        "1"
    } else if d == 2 {
        "2"
    } else if d == 3 {
        "3"
    } else if d == 4 {
        "4"
    } else if d == 5 {
        "5"
    } else if d == 6 {
        "6"
    } else if d == 7 {
        "7"
    } else if d == 8 {
        "8"
    } else {
        "9"
    }
}

/// Decimal text of an unsigned integer.
pub fn nat_to_string(n: u64) -> (r: String)
    ensures
        r@ == nat_text(n as nat),
    decreases n,
{
    if n < 10 {
        String::from_str(digit_str(n))
    } else {
        let head = nat_to_string(n / 10);
        let r = head.concat(digit_str(n % 10));
        r
    }
}

/// Standard decimal text of a signed integer.
pub fn int_to_string(i: i64) -> (r: String)
    ensures
        r@ == int_text(i as int),
{
    if i < 0 {
        let m: u64 = if i == i64::MIN {
            9223372036854775808u64
        } else {
            (-i) as u64
        };
        let digits = nat_to_string(m);
        let r = String::from_str("-").concat(digits.as_str());
        proof {
            reveal_strlit("-");
        }
        r
    } else {
        nat_to_string(i as u64)
    }
}

/// Canonical text of a state value: integers in decimal, booleans as
/// `true` / `false`, decimals and text unchanged.
pub fn state_to_string(state: StateValue) -> (r: String)
    ensures
        r@ == state.text(),
{
    match state {
        StateValue::Integer(i) => int_to_string(i),
        StateValue::Decimal(d) => d,
        StateValue::Boolean(b) => {
            proof {
                reveal_strlit("true");
                reveal_strlit("false");
            }
            if b {
                String::from_str("true")
            } else {
                String::from_str("false")
            }
        },
        StateValue::Text(s) => s,
    }
}

} // verus!
