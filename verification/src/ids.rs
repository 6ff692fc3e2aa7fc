//! The fixed population of user ids that exercising clients address:
//! `u001` through `u100`.

use vstd::prelude::*;
use vstd::string::*;

verus! {

/// The decimal digit character for `d`.
pub open spec fn digit_char(d: int) -> char {
    if d == 0 {
        '0'
    } else if d == 1 {
        '1'
    } else if d == 2 {
        '2'
    } else if d == 3 {
        '3'
    } else if d == 4 {
        '4'
    } else if d == 5 {
        '5'
    } else if d == 6 {
        '6'
    } else if d == 7 {
        '7'
    } else if d == 8 {
        '8'
    } else {
        '9'
    }
}

/// `u` followed by the three-digit zero-padded decimal form of `n`.
pub open spec fn user_id_chars(n: int) -> Seq<char> {
    seq!['u', digit_char(n / 100 % 10), digit_char(n / 10 % 10), digit_char(n % 10)]
}

fn digit_str(d: u32) -> (r: &'static str)
    requires
        d < 10,
    ensures
        r@ == seq![digit_char(d as int)],
{
    proof {
        reveal_strlit("0");
        reveal_strlit("1");
        reveal_strlit("2");
        reveal_strlit("3");
        reveal_strlit("4");
        reveal_strlit("5");
        reveal_strlit("6");
        reveal_strlit("7");
        reveal_strlit("8");
        reveal_strlit("9");
    }
    if d == 0 {
        proof {
            assert("0"@ =~= seq![digit_char(0)]);
        }
        "0"
    } else if d == 1 {
        proof {
            assert("1"@ =~= seq![digit_char(1)]);
        }
        "1"
    } else if d == 2 {
        proof {
            assert("2"@ =~= seq![digit_char(2)]);
        }
        "2"
    } else if d == 3 {
        proof {
            assert("3"@ =~= seq![digit_char(3)]);
        }
        "3"
    } else if d == 4 {
        proof {
            assert("4"@ =~= seq![digit_char(4)]);
        }
        "4"
    } else if d == 5 {
        proof {
            assert("5"@ =~= seq![digit_char(5)]);
        }
        "5"
    } else if d == 6 {
        proof {
            assert("6"@ =~= seq![digit_char(6)]);
        }
        "6"
    } else if d == 7 {
        proof {
            assert("7"@ =~= seq![digit_char(7)]);
        }
        "7"
    } else if d == 8 {
        proof {
            assert("8"@ =~= seq![digit_char(8)]);
        }
        "8"
    } else {
        proof {
            assert("9"@ =~= seq![digit_char(9)]);
        }
        "9"
    }
}

/// The id string `u` + three-digit `n`.
fn format_user_id(n: u32) -> (r: String)
    requires
        n < 1000,
    ensures
        r@ == user_id_chars(n as int),
{
    proof {
        reveal_strlit("u");
    }
    let mut s = String::from_str("u");
    s.append(digit_str(n / 100 % 10));
    s.append(digit_str(n / 10 % 10));
    s.append(digit_str(n % 10));
    proof {
        assert(s@ =~= user_id_chars(n as int));
    }
    s
}

/// The ids `u001` through `u100`, in order.
pub fn get_user_ids() -> (r: Vec<String>)
    ensures
        r@.len() == 100,
        forall|i: int| 0 <= i < 100 ==> (#[trigger] r@[i])@ == user_id_chars(i + 1),
{
    let mut r: Vec<String> = Vec::new();
    let mut v: u32 = 1;
    while v <= 100
        invariant
            1 <= v <= 101,
            r@.len() == v - 1,
            forall|i: int| 0 <= i < v - 1 ==> (#[trigger] r@[i])@ == user_id_chars(i + 1),
        decreases 101 - v,
    {
        r.push(format_user_id(v));
        v = v + 1;
    }
    r
}

} // verus!
