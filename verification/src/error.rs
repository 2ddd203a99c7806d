//! The error taxonomy: every failure at the core's boundary is one of four
//! kinds — an I/O failure, a failure of the embedded scripting environment
//! itself, a missing required recipe variable, or a non-zero exit from a named
//! hook or external tool.  There is no fifth "unknown" kind.

use vstd::prelude::*;

verus! {

use vstd::string::StrSliceExecFns;
use vstd::string::StringExecFns;
use crate::text::str_concat;

/// A failure of a pipeline operation.
///
/// `IO` and `Scripting` carry the rendered message of the underlying failure;
/// `MissingVar` names the absent required recipe variable; `NonZero` names the
/// hook or external tool and the status it exited with.
#[derive(Debug, Clone, PartialEq, Eq)]
pub enum CookError {
    IO(String),
    Scripting(String),
    MissingVar(String),
    NonZero(String, i32),
}

/// The mathematical image of a [`CookError`].
pub enum CookErrorView {
    IO(Seq<char>),
    Scripting(Seq<char>),
    MissingVar(Seq<char>),
    NonZero(Seq<char>, int),
}

impl View for CookError {
    type V = CookErrorView;

    open spec fn view(&self) -> CookErrorView {
        match self {
            CookError::IO(m) => CookErrorView::IO(m@),
            CookError::Scripting(m) => CookErrorView::Scripting(m@),
            CookError::MissingVar(v) => CookErrorView::MissingVar(v@),
            CookError::NonZero(f, c) => CookErrorView::NonZero(f@, *c as int),
        }
    }
}

/// The digit character for a value below ten.
pub open spec fn digit_char(d: nat) -> char
    recommends
        d < 10,
{
    if d == 0 {
        '0'
    } else if d == 1 {
        '1'
    } else if d == 2 {
        '2'
    } else if d == 3 {
        '3'
    } else if d == 4 {
        '4'
    } else if d == 5 {
        '5'
    } else if d == 6 {
        '6'
    } else if d == 7 {
        '7'
    } else if d == 8 {
        '8'
    } else {
        '9'
    }
}

/// The decimal digits of a non-negative value, most significant first.
pub open spec fn dec_digits(n: nat) -> Seq<char>
    decreases n,
{
    if n < 10 {
        seq![digit_char(n)]
    } else {
        dec_digits(n / 10) + seq![digit_char(n % 10)]
    }
}

/// The decimal rendering of an integer, with a leading minus sign when
/// negative.
pub open spec fn dec_int(n: int) -> Seq<char> {
    if n < 0 {
        seq!['-'] + dec_digits((-n) as nat)
    } else {
        dec_digits(n as nat)
    }
}

/// The single-digit string for a value below ten.
fn digit_str(d: u64) -> (r: String)
    requires
        d < 10,
    ensures
        r@ == seq![digit_char(d as nat)],
{
    let r: String = if d == 0 {
        proof {
            reveal_strlit("0");
        }
        "0".to_owned()
    } else if d == 1 {
        proof {
            reveal_strlit("1");
        }
        "1".to_owned()
    } else if d == 2 {
        proof {
            reveal_strlit("2");
        }
        "2".to_owned()
    } else if d == 3 {
        proof {
            reveal_strlit("3");
        }
        "3".to_owned()
    } else if d == 4 {
        proof {
            reveal_strlit("4");
        }
        "4".to_owned()
    } else if d == 5 {
        proof {
            reveal_strlit("5");
        }
        "5".to_owned()
    } else if d == 6 {
        proof {
            reveal_strlit("6");
        }
        "6".to_owned()
    } else if d == 7 {
        proof {
            reveal_strlit("7");
        }
        "7".to_owned()
    } else if d == 8 {
        proof {
            reveal_strlit("8");
        }
        "8".to_owned()
    } else {
        proof {
            reveal_strlit("9");
        }
        "9".to_owned()
    };
    proof {
        assert(r@ =~= seq![digit_char(d as nat)]);
    }
    r
}

/// Renders a non-negative value in decimal.
pub fn format_u64(n: u64) -> (r: String)
    ensures
        r@ == dec_digits(n as nat),
    decreases n,
{
    if n < 10 {
        digit_str(n)
    } else {
        let high = format_u64(n / 10);
        high.concat(digit_str(n % 10).as_str())
    }
}

/// Renders a signed value in decimal.
pub fn format_i32(n: i32) -> (r: String)
    ensures
        r@ == dec_int(n as int),
{
    if n >= 0 {
        format_u64(n as u64)
    } else {
        let m: u64 = (-(n as i64)) as u64;
        proof {
            reveal_strlit("-");
            assert("-"@ =~= seq!['-']);
            assert(m as int == -(n as int));
        }
        let digits = format_u64(m);
        str_concat("-", digits.as_str())
    }
}

impl CookError {
    /// The rendered message of this error, exactly [`message_spec`].
    pub fn message(&self) -> (r: String)
        ensures
            r@ == message_spec(self@),
    {
        match self {
            CookError::IO(m) => m.clone(),
            CookError::Scripting(m) => m.clone(),
            CookError::MissingVar(v) => {
                let head = str_concat("Recipe missing '", v.as_str());
                head.concat("' variable")
            },
            CookError::NonZero(f, c) => {
                let head = str_concat(f.as_str(), " returned non-zero status '");
                let with_code = head.concat(format_i32(*c).as_str());
                with_code.concat("'")
            },
        }
    }
}

/// What [`CookError::message`] renders for each error.
pub open spec fn message_spec(e: CookErrorView) -> Seq<char> {
    match e {
        CookErrorView::IO(m) => m,
        CookErrorView::Scripting(m) => m,
        CookErrorView::MissingVar(v) => "Recipe missing '"@ + v + "' variable"@,
        CookErrorView::NonZero(f, c) => f + " returned non-zero status '"@ + dec_int(c) + "'"@,
    }
}

} // verus!
