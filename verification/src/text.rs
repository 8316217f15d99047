//! Rendering of numbers and of the planner's name as text.

use vstd::prelude::*;
use crate::error::PlanError;
use crate::split_compact::SplitCompact;

verus! {

/// The character that stands for the digit `d`.
pub open spec fn digit_char(d: int) -> char {
    if d == 0 {
        '0'
    } else if d == 1 {
        '1'
    } else if d == 2 {
        '2'
    } else if d == 3 {
        '3'
    } else if d == 4 {
        '4'
    } else if d == 5 {
        '5'
    } else if d == 6 {
        '6'
    } else if d == 7 {
        '7'
    } else if d == 8 {
        '8'
    } else {
        '9'
    }
}

/// The number in decimal notation, without leading zeros.
pub open spec fn decimal(n: nat) -> Seq<char>
    decreases n,
{
    if n < 10 {
        seq![digit_char(n as int)]
    } else {
        decimal(n / 10).push(digit_char((n % 10) as int))
    }
}

/// The name of a planner with the given budget and desired file size.
pub open spec fn planner_name(max_compact_size: usize, max_desired_file_size: u64) -> Seq<char> {
    "split_or_compact("@ + decimal(max_compact_size as nat) + ", "@ + decimal(
        max_desired_file_size as nat,
    ) + ")"@
}

/// What a `ConfigInvalid` error says.
pub open spec fn config_invalid_message(
    max_compact_size: usize,
    max_desired_file_size: u64,
) -> Seq<char> {
    "max_compact_size "@ + decimal(max_compact_size as nat)
        + " must be at least 2 times larger than max_desired_file_size "@ + decimal(
        max_desired_file_size as nat,
    )
}

/// What an error says.
pub open spec fn error_message(error: PlanError) -> Seq<char> {
    match error {
        PlanError::ConfigInvalid { max_compact_size, max_desired_file_size } => {
            config_invalid_message(max_compact_size, max_desired_file_size)
        },
        PlanError::MalformedFile => "a file has an inverted time range or no bytes"@,
        PlanError::InternalArithmetic => "the file sizes do not add up within 64 bits"@,
    }
}

/// The text of one digit.
fn digit_text(d: u8) -> (text: &'static str)
    requires
        d < 10,
    ensures
        text@ == seq![digit_char(d as int)],
{
    proof {
        reveal_strlit("0");
        reveal_strlit("1");
        reveal_strlit("2");
        reveal_strlit("3");
        reveal_strlit("4");
        reveal_strlit("5");
        reveal_strlit("6");
        reveal_strlit("7");
        reveal_strlit("8");
        reveal_strlit("9");
    }
    let text = if d == 0 {
        "0"
    } else if d == 1 {
        "1"
    } else if d == 2 {
        "2"
    } else if d == 3 {
        "3"
    } else if d == 4 {
        "4"
    } else if d == 5 {
        "5"
    } else if d == 6 {
        "6"
    } else if d == 7 {
        "7"
    } else if d == 8 {
        "8"
    } else {
        "9"
    };
    assert(text@ =~= seq![digit_char(d as int)]);
    text
}

/// Appends the decimal notation of `n` to `out`.
pub fn append_decimal(out: &mut String, n: u64)
    ensures
        final(out)@ == old(out)@ + decimal(n as nat),
    decreases n,
{
    if n >= 10 {
        append_decimal(out, n / 10);
    }
    out.append(digit_text((n % 10) as u8));
    proof {
        if n >= 10 {
            assert(out@ =~= old(out)@ + decimal((n / 10) as nat).push(
                digit_char((n % 10) as int),
            ));
        } else {
            assert(out@ =~= old(out)@ + seq![digit_char(n as int)]);
        }
    }
}

/// The decimal notation of `n`.
pub fn decimal_string(n: u64) -> (text: String)
    ensures
        text@ == decimal(n as nat),
{
    let mut text = String::new();
    append_decimal(&mut text, n);
    assert(text@ =~= decimal(n as nat));
    text
}

impl SplitCompact {
    /// The name of the planner, made of the budget and the desired file size:
    /// `split_or_compact(<max_compact_size>, <max_desired_file_size>)`.
    pub fn name(&self) -> (name: String)
        ensures
            name@ == planner_name(self.max_compact_size, self.max_desired_file_size),
    {
        let mut name = String::new();
        name.append("split_or_compact(");
        append_decimal(&mut name, self.max_compact_size as u64);
        name.append(", ");
        append_decimal(&mut name, self.max_desired_file_size);
        name.append(")");
        assert(name@ =~= planner_name(self.max_compact_size, self.max_desired_file_size));
        name
    }
}

impl PlanError {
    /// Says in words why there is no plan.
    pub fn message(&self) -> (text: String)
        ensures
            text@ == error_message(*self),
    {
        match self {
            PlanError::ConfigInvalid { max_compact_size, max_desired_file_size } => {
                let mut text = String::new();
                text.append("max_compact_size ");
                append_decimal(&mut text, *max_compact_size as u64);
                text.append(" must be at least 2 times larger than max_desired_file_size ");
                append_decimal(&mut text, *max_desired_file_size);
                assert(text@ =~= config_invalid_message(*max_compact_size, *max_desired_file_size));
                text
            },
            PlanError::MalformedFile => {
                let mut text = String::new();
                text.append("a file has an inverted time range or no bytes");
                assert(text@ =~= "a file has an inverted time range or no bytes"@);
                text
            },
            PlanError::InternalArithmetic => {
                let mut text = String::new();
                text.append("the file sizes do not add up within 64 bits");
                assert(text@ =~= "the file sizes do not add up within 64 bits"@);
                text
            },
        }
    }
}

} // verus!
