//! The fixed strings of the grid: month names, weekday headers, and
//! zero-padded decimal numbers.

use vstd::prelude::*;
use vstd::string::StringExecFns;

verus! {

/// The decimal digit character for a value from 0 to 9.
pub open spec fn digit_char(v: int) -> char {
    if v == 0 {
        '0'
    } else if v == 1 {
        '1'
    } else if v == 2 {
        '2'
    } else if v == 3 {
        '3'
    } else if v == 4 {
        '4'
    } else if v == 5 {
        '5'
    } else if v == 6 {
        '6'
    } else if v == 7 {
        '7'
    } else if v == 8 {
        '8'
    } else {
        '9'
    }
}

/// A number below 100 as two decimal digits, zero padded.
pub open spec fn two_digit_text(n: int) -> Seq<char> {
    seq![digit_char(n / 10), digit_char(n % 10)]
}

/// A year from 1 to 9999 in plain decimal, without padding.
pub open spec fn year_text(n: int) -> Seq<char> {
    if n < 10 {
        seq![digit_char(n)]
    } else if n < 100 {
        seq![digit_char(n / 10), digit_char(n % 10)]
    } else if n < 1000 {
        seq![digit_char(n / 100), digit_char(n / 10 % 10), digit_char(n % 10)]
    } else {
        seq![digit_char(n / 1000), digit_char(n / 100 % 10), digit_char(n / 10 % 10), digit_char(n % 10)]
    }
}

/// The English name of month `m`, from 1 for January to 12 for December.
pub open spec fn month_name_text(m: int) -> Seq<char> {
    if m == 1 {
        "January"@
    } else if m == 2 {
        "February"@
    } else if m == 3 {
        "March"@
    } else if m == 4 {
        "April"@
    } else if m == 5 {
        "May"@
    } else if m == 6 {
        "June"@
    } else if m == 7 {
        "July"@
    } else if m == 8 {
        "August"@
    } else if m == 9 {
        "September"@
    } else if m == 10 {
        "October"@
    } else if m == 11 {
        "November"@
    } else {
        "December"@
    }
}

/// The three-letter header of column `idx`, from 1 to 7.  The order is
/// the one the widget has always drawn: MON, TUE, WED, THU, FRI, SUN,
/// SAT, with the weekend pair swapped against convention.
pub open spec fn weekday_label_text(idx: int) -> Seq<char> {
    if idx == 1 {
        "MON"@
    } else if idx == 2 {
        "TUE"@
    } else if idx == 3 {
        "WED"@
    } else if idx == 4 {
        "THU"@
    } else if idx == 5 {
        "FRI"@
    } else if idx == 6 {
        "SUN"@
    } else {
        "SAT"@
    }
}

/// Executable month name.
pub fn month_name(m: u32) -> (s: &'static str)
    requires
        1 <= m <= 12,
    ensures
        s@ == month_name_text(m as int),
{
    match m {
        1 => "January",
        2 => "February",
        3 => "March",
        4 => "April",
        5 => "May",
        6 => "June",
        7 => "July",
        8 => "August",
        9 => "September",
        10 => "October",
        11 => "November",
        _ => "December",
    }
}

/// Executable weekday-column header.
pub fn weekday_label(idx: u32) -> (s: &'static str)
    requires
        1 <= idx <= 7,
    ensures
        s@ == weekday_label_text(idx as int),
{
    match idx {
        1 => "MON",
        2 => "TUE",
        3 => "WED",
        4 => "THU",
        5 => "FRI",
        6 => "SUN",
        _ => "SAT",
    }
}

fn digit_str(v: u32) -> (s: &'static str)
    requires
        v <= 9,
    ensures
        s@ =~= seq![digit_char(v as int)],
{
    proof {
        reveal_strlit("0");
        reveal_strlit("1");
        reveal_strlit("2");
        reveal_strlit("3");
        reveal_strlit("4");
        reveal_strlit("5");
        reveal_strlit("6");
        reveal_strlit("7");
        reveal_strlit("8");
        reveal_strlit("9");
    }
    match v {
        0 => "0",
        1 => "1",
        2 => "2",
        3 => "3",
        4 => "4",
        5 => "5",
        6 => "6",
        7 => "7",
        8 => "8",
        _ => "9",
    }
}

/// A number below 100 as a two-character, zero-padded string.
pub fn two_digit_string(n: u32) -> (s: String)
    requires
        n < 100,
    ensures
        s@ =~= two_digit_text(n as int),
{
    let mut s = String::from_str(digit_str(n / 10));
    s.append(digit_str(n % 10));
    s
}

/// A year from 1 to 9999 as a plain decimal string.
pub fn year_string(n: u32) -> (s: String)
    requires
        1 <= n <= 9999,
    ensures
        s@ =~= year_text(n as int),
{
    if n < 10 {
        String::from_str(digit_str(n))
    } else if n < 100 {
        two_digit_string(n)
    } else if n < 1000 {
        let mut s = String::from_str(digit_str(n / 100));
        s.append(digit_str(n / 10 % 10));
        s.append(digit_str(n % 10));
        s
    } else {
        let mut s = String::from_str(digit_str(n / 1000));
        s.append(digit_str(n / 100 % 10));
        s.append(digit_str(n / 10 % 10));
        s.append(digit_str(n % 10));
        s
    }
}

} // verus!
