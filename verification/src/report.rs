//! The text of a result: amounts with two decimal places and the sign
//! rule of the overall return.

use crate::error::ReturnError;
use crate::models::PortfolioReturn;
use crate::ratio::Rat;
use crate::ratio::Ratio;
use crate::totals::compute_return;
use crate::totals::return_figures;
use vstd::prelude::*;

verus! {

/// The character of a decimal digit.
pub open spec fn digit(d: nat) -> char {
    if d == 0 {
        '0'
    } else if d == 1 {
        '1'
    } else if d == 2 {
        '2'
    } else if d == 3 {
        '3'
    } else if d == 4 {
        '4'
    } else if d == 5 {
        '5'
    } else if d == 6 {
        '6'
    } else if d == 7 {
        '7'
    } else if d == 8 {
        '8'
    } else {
        '9'
    }
}

/// A natural number in decimal, without leading zeros.
pub open spec fn decimal(n: nat) -> Seq<char>
    decreases n,
{
    if n < 10 {
        seq![digit(n)]
    } else {
        decimal(n / 10).push(digit(n % 10))
    }
}

/// A number with two decimal places: rounded to the nearest hundredth,
/// half way to the even one, with `-` in front of every negative number.
pub open spec fn two_places(q: Rat) -> Seq<char> {
    let h = q.hundredths();
    let sign = if q.num < 0 {
        seq!['-']
    } else {
        Seq::<char>::empty()
    };
    sign + decimal(h / 100) + seq!['.', digit(h % 100 / 10), digit(h % 10)]
}

/// The sign that goes in front of both figures of the overall return: `+`
/// for a gain, nothing otherwise.
pub open spec fn gain_sign(dollar: Rat) -> Seq<char> {
    if dollar.num > 0 {
        seq!['+']
    } else {
        Seq::<char>::empty()
    }
}

/// The line of the start total.
pub open spec fn start_line(totals: PortfolioReturn) -> Seq<char> {
    "Start position: $"@ + two_places(totals.start_total@)
}

/// The line of the current total.
pub open spec fn current_line(totals: PortfolioReturn) -> Seq<char> {
    "Current position: $"@ + two_places(totals.current_total@)
}

/// The line of the contributions.
pub open spec fn contribution_line(totals: PortfolioReturn) -> Seq<char> {
    "Contributions made during period: $"@ + two_places(totals.contribution_total@)
}

/// The line of the overall return, as `+$500.00 (+50.00%)` for a gain.
pub open spec fn return_line(dollar: Rat, percent: Rat) -> Seq<char> {
    "Overall return: "@ + gain_sign(dollar) + "$"@ + two_places(dollar) + " ("@ + gain_sign(dollar)
        + two_places(percent) + "%)"@
}

/// The text of one decimal digit.
fn digit_text(d: u8) -> (text: &'static str)
    requires
        d < 10,
    ensures
        text@ == seq![digit(d as nat)],
{
    proof {
        reveal_strlit("0");
        reveal_strlit("1");
        reveal_strlit("2");
        reveal_strlit("3");
        reveal_strlit("4");
        reveal_strlit("5");
        reveal_strlit("6");
        reveal_strlit("7");
        reveal_strlit("8");
        reveal_strlit("9");
    }
    let text = if d == 0 {
        "0"
    } else if d == 1 {
        "1"
    } else if d == 2 {
        "2"
    } else if d == 3 {
        "3"
    } else if d == 4 {
        "4"
    } else if d == 5 {
        "5"
    } else if d == 6 {
        "6"
    } else if d == 7 {
        "7"
    } else if d == 8 {
        "8"
    } else {
        "9"
    };
    assert(text@ =~= seq![digit(d as nat)]);
    text
}

/// Appends `n` in decimal.
fn append_decimal(text: &mut String, n: u128)
    ensures
        final(text)@ == old(text)@ + decimal(n as nat),
    decreases n,
{
    if n >= 10 {
        append_decimal(text, n / 10);
    }
    let last = digit_text((n % 10) as u8);
    vstd::string::StringExecFns::append(text, last);
    assert(text@ =~= old(text)@ + decimal(n as nat));
}

/// Appends `value` with two decimal places.
pub fn append_two_places(text: &mut String, value: &Ratio)
    ensures
        final(text)@ == old(text)@ + two_places(value@),
{
    let h = value.hundredths();
    if value.is_negative() {
        proof {
            reveal_strlit("-");
        }
        vstd::string::StringExecFns::append(text, "-");
    }
    append_decimal(text, h / 100);
    proof {
        reveal_strlit(".");
    }
    vstd::string::StringExecFns::append(text, ".");
    let tenths = digit_text((h % 100 / 10) as u8);
    vstd::string::StringExecFns::append(text, tenths);
    let last = digit_text((h % 10) as u8);
    vstd::string::StringExecFns::append(text, last);
    assert(text@ =~= old(text)@ + two_places(value@));
}

/// `value` with two decimal places.
pub fn format_two_places(value: &Ratio) -> (text: String)
    ensures
        text@ == two_places(value@),
{
    let mut text = String::new();
    append_two_places(&mut text, value);
    assert(text@ =~= two_places(value@));
    text
}

/// A label followed by an amount with two decimal places.
fn amount_line(label: &str, value: &Ratio) -> (text: String)
    ensures
        text@ == label@ + two_places(value@),
{
    let mut text = label.to_owned();
    append_two_places(&mut text, value);
    text
}

/// The four lines of a result: the start total, the current total, the
/// contributions, and the overall return in currency and in percent. Both
/// figures of the return carry a `+` when the return in currency is
/// positive. `Overflow` exactly when the return does not fit.
pub fn output_result(portfolio_return: PortfolioReturn) -> (r: Result<Vec<String>, ReturnError>)
    ensures
        match r {
            Ok(lines) => {
                &&& return_figures(portfolio_return) matches Some(figures)
                &&& lines@.len() == 4
                &&& lines@[0]@ == start_line(portfolio_return)
                &&& lines@[1]@ == current_line(portfolio_return)
                &&& lines@[2]@ == contribution_line(portfolio_return)
                &&& lines@[3]@ == return_line(figures.dollar@, figures.percent@)
            },
            Err(e) => e == ReturnError::Overflow && return_figures(portfolio_return) is None,
        },
{
    let figures = match compute_return(&portfolio_return) {
        Ok(figures) => figures,
        Err(e) => {
            return Err(e);
        },
    };
    let mut lines: Vec<String> = Vec::new();
    lines.push(amount_line("Start position: $", &portfolio_return.start_total));
    lines.push(amount_line("Current position: $", &portfolio_return.current_total));
    lines.push(
        amount_line("Contributions made during period: $", &portfolio_return.contribution_total),
    );
    let gain = figures.dollar.is_positive();
    let mut last = "Overall return: ".to_owned();
    if gain {
        proof {
            reveal_strlit("+");
        }
        vstd::string::StringExecFns::append(&mut last, "+");
    }
    vstd::string::StringExecFns::append(&mut last, "$");
    append_two_places(&mut last, &figures.dollar);
    vstd::string::StringExecFns::append(&mut last, " (");
    if gain {
        proof {
            reveal_strlit("+");
        }
        vstd::string::StringExecFns::append(&mut last, "+");
    }
    append_two_places(&mut last, &figures.percent);
    vstd::string::StringExecFns::append(&mut last, "%)");
    assert(last@ =~= return_line(figures.dollar@, figures.percent@));
    lines.push(last);
    Ok(lines)
}

} // verus!
