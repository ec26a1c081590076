//! Whole numbers as decimal text.

use vstd::prelude::*;
use vstd::string::*;

verus! {

/// `String::push` of the standard library appends a character.
pub assume_specification[ String::push ](s: &mut String, c: char)
    ensures
        final(s)@ == old(s)@.push(c),
;

/// Where a character first stands in a text from a place on, or the length of the text.
pub open spec fn char_place(text: Seq<char>, c: char, from: int) -> int
    decreases text.len() - from,
{
    if from >= text.len() {
        text.len() as int
    } else if text[from] == c {
        from
    } else {
        char_place(text, c, from + 1)
    }
}

/// Finds where a character first stands in a text, or its length.
pub fn find_char(text: &str, c: char) -> (r: usize)
    ensures
        r == char_place(text@, c, 0),
        r <= text@.len(),
{
    let n = text.unicode_len();
    let mut i: usize = 0;
    while i < n && text.get_char(i) != c
        invariant
            i <= n,
            n == text@.len(),
            char_place(text@, c, 0) == char_place(text@, c, i as int),
        decreases n - i,
    {
        i = i + 1;
    }
    i
}

/// A decimal digit.
pub open spec fn digit_char(d: int) -> char {
    if d == 0 {
        '0'
    } else if d == 1 {
        '1'
    } else if d == 2 {
        '2'
    } else if d == 3 {
        '3'
    } else if d == 4 {
        '4'
    } else if d == 5 {
        '5'
    } else if d == 6 {
        '6'
    } else if d == 7 {
        '7'
    } else if d == 8 {
        '8'
    } else {
        '9'
    }
}

/// A number that is not negative, in decimal digits.
pub open spec fn digits(n: nat) -> Seq<char>
    decreases n,
{
    if n < 10 {
        seq![digit_char(n as int)]
    } else {
        digits(n / 10).push(digit_char((n % 10) as int))
    }
}

/// As many zeros as it takes to make a text `width` long.
pub open spec fn zeros(width: int, len: int) -> Seq<char> {
    Seq::new(
        if len < width {
            (width - len) as nat
        } else {
            0
        },
        |i: int| '0',
    )
}

/// A number in decimal digits, with zeros in front up to a width that counts the
/// sign.
pub open spec fn padded(n: int, width: int) -> Seq<char> {
    if n < 0 {
        let d = digits((-n) as nat);
        seq!['-'] + zeros(width - 1, d.len() as int) + d
    } else {
        let d = digits(n as nat);
        zeros(width, d.len() as int) + d
    }
}

fn digit_text(d: u8) -> (r: &'static str)
    requires
        d < 10,
    ensures
        r@ == seq![digit_char(d as int)],
{
    proof {
        reveal_strlit("0");
        reveal_strlit("1");
        reveal_strlit("2");
        reveal_strlit("3");
        reveal_strlit("4");
        reveal_strlit("5");
        reveal_strlit("6");
        reveal_strlit("7");
        reveal_strlit("8");
        reveal_strlit("9");
    }
    let r = match d {
        0 => "0",
        1 => "1",
        2 => "2",
        3 => "3",
        4 => "4",
        5 => "5",
        6 => "6",
        7 => "7",
        8 => "8",
        _ => "9",
    };
    assert(r@ =~= seq![digit_char(d as int)]);
    r
}

/// Writes the digits of a number.
pub fn digits_text(n: u128) -> (r: String)
    ensures
        r@ == digits(n as nat),
    decreases n,
{
    if n < 10 {
        String::from_str(digit_text(n as u8))
    } else {
        let mut text = digits_text(n / 10);
        let ghost before = text@;
        text.append(digit_text((n % 10) as u8));
        assert(text@ =~= before.push(digit_char((n % 10) as int)));
        text
    }
}

/// A number that is not negative, with zeros in front up to a width.
pub open spec fn zero_filled(n: nat, width: int) -> Seq<char> {
    zeros(width, digits(n).len() as int) + digits(n)
}

/// Writes a number that is not negative with zeros in front up to a width.
pub fn zero_filled_text(n: u128, width: usize) -> (r: String)
    ensures
        r@ == zero_filled(n as nat, width as int),
{
    proof {
        reveal_strlit("");
        reveal_strlit("0");
    }
    let body = digits_text(n);
    let len = body.as_str().unicode_len();
    let mut text = String::from_str("");
    let mut k: usize = len;
    assert(text@ =~= zeros(k as int, len as int));
    while k < width
        invariant
            len <= k,
            k == len || k <= width,
            text@ == zeros(k as int, len as int),
            "0"@ == seq!['0'],
        decreases width - k,
    {
        text.append("0");
        k = k + 1;
        assert(text@ =~= zeros(k as int, len as int));
    }
    assert(zeros(k as int, len as int) =~= zeros(width as int, len as int));
    text.append(body.as_str());
    text
}

/// Writes a number with zeros in front up to a width that counts the sign.
pub fn padded_text(n: i64, width: u8) -> (r: String)
    ensures
        r@ == padded(n as int, width as int),
{
    let wide: i128 = n as i128;
    if wide < 0 {
        let room: usize = if width > 0 {
            width as usize - 1
        } else {
            0
        };
        let size = (-wide) as u128;
        let mut text = String::from_str("-");
        proof {
            reveal_strlit("-");
        }
        text.append(zero_filled_text(size, room).as_str());
        assert(zeros(room as int, digits(size as nat).len() as int) =~= zeros(
            width - 1,
            digits(size as nat).len() as int,
        ));
        assert(text@ =~= padded(n as int, width as int));
        text
    } else {
        zero_filled_text(wide as u128, width as usize)
    }
}

} // verus!
