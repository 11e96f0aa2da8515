//! Timestamps, dates and identifiers, which come from the clock and from chance.
use vstd::prelude::*;
use crate::text::{push_char, take_chars, char_count, cat};

verus! {

/// Calls chrono's `Local::now` and writes it with `DateTime::to_rfc3339`. The
/// result depends on the clock, so nothing is stated of it.
#[verifier::external_body]
pub(crate) fn now() -> String {
    chrono::Local::now().to_rfc3339()
}

/// Calls chrono's `Local::now` and reads its year, month and day through
/// `Datelike`, whose documentation gives the month as 1 to 12 and the day as
/// 1 to 31. Which date comes back depends on the clock and is not stated.
#[verifier::external_body]
fn local_date() -> (r: (i32, u32, u32))
    ensures
        1 <= r.1 <= 12,
        1 <= r.2 <= 31,
{
    let now = chrono::Local::now();
    (chrono::Datelike::year(&now), chrono::Datelike::month(&now), chrono::Datelike::day(&now))
}

/// The decimal digit for `d` (below ten).
pub open spec fn digit_char(d: nat) -> char {
    if d == 0 {
        '0'
    } else if d == 1 {
        '1'
    } else if d == 2 {
        '2'
    } else if d == 3 {
        '3'
    } else if d == 4 {
        '4'
    } else if d == 5 {
        '5'
    } else if d == 6 {
        '6'
    } else if d == 7 {
        '7'
    } else if d == 8 {
        '8'
    } else {
        '9'
    }
}

/// The decimal digits of `n`, without leading zeros.
pub open spec fn decimal(n: nat) -> Seq<char>
    decreases n,
{
    if n < 10 {
        seq![digit_char(n)]
    } else {
        decimal(n / 10).push(digit_char(n % 10))
    }
}

/// The decimal digits of `n`, with zeros in front up to `width` characters.
pub open spec fn zero_padded(n: nat, width: nat) -> Seq<char> {
    let d = decimal(n);
    if d.len() >= width {
        d
    } else {
        Seq::new((width - d.len()) as nat, |i: int| '0') + d
    }
}

/// A year as chrono's `%Y` writes it: four digits at least, and a sign
/// before years outside 0 to 9999.
pub open spec fn year_text(y: int) -> Seq<char> {
    if 0 <= y <= 9999 {
        zero_padded(y as nat, 4)
    } else if y > 9999 {
        seq!['+'] + zero_padded(y as nat, 4)
    } else {
        seq!['-'] + zero_padded((-y) as nat, 4)
    }
}

/// A date as chrono's `%Y-%m-%d` writes it.
pub open spec fn date_text(y: int, m: nat, d: nat) -> Seq<char> {
    year_text(y) + seq!['-'] + zero_padded(m, 2) + seq!['-'] + zero_padded(d, 2)
}

fn digit(d: u64) -> (c: char)
    requires
        d < 10,
    ensures
        c == digit_char(d as nat),
{
    if d == 0 {
        '0'
    } else if d == 1 {
        '1'
    } else if d == 2 {
        '2'
    } else if d == 3 {
        '3'
    } else if d == 4 {
        '4'
    } else if d == 5 {
        '5'
    } else if d == 6 {
        '6'
    } else if d == 7 {
        '7'
    } else if d == 8 {
        '8'
    } else {
        '9'
    }
}

fn push_decimal(out: &mut String, n: u64)
    ensures
        final(out)@ == old(out)@ + decimal(n as nat),
    decreases n,
{
    if n >= 10 {
        push_decimal(out, n / 10);
    }
    push_char(out, digit(n % 10));
    proof {
        if n >= 10 {
            assert(old(out)@ + decimal(n as nat) =~= old(out)@ + decimal((n / 10) as nat) + seq![
                digit_char((n % 10) as nat),
            ]);
        }
    }
}

/// The decimal digits of `n`, zero-padded to `width` characters.
pub fn format_padded(n: u64, width: usize) -> (r: String)
    ensures
        r@ == zero_padded(n as nat, width as nat),
{
    let mut digits = String::new();
    push_decimal(&mut digits, n);
    assert(digits@ =~= decimal(n as nat));
    let len = char_count(digits.as_str());
    let mut zeros = String::new();
    let mut k: usize = len;
    while k < width
        invariant
            len <= k,
            k <= width || k == len,
            zeros@ =~= Seq::new((k - len) as nat, |i: int| '0'),
        decreases width - k,
    {
        push_char(&mut zeros, '0');
        k = k + 1;
    }
    cat(zeros.as_str(), digits.as_str())
}

/// The date written as chrono's `%Y-%m-%d` writes it.
pub fn format_date(y: i32, m: u32, d: u32) -> (r: String)
    ensures
        r@ == date_text(y as int, m as nat, d as nat),
{
    let mut year = String::new();
    if 0 <= y && y <= 9999 {
        year = format_padded(y as u64, 4);
    } else if y > 9999 {
        push_char(&mut year, '+');
        let digits = format_padded(y as u64, 4);
        year = cat(year.as_str(), digits.as_str());
    } else {
        push_char(&mut year, '-');
        let a: i64 = -(y as i64);
        let digits = format_padded(a as u64, 4);
        year = cat(year.as_str(), digits.as_str());
    }
    let mut out = year;
    push_char(&mut out, '-');
    let mm = format_padded(m as u64, 2);
    out = cat(out.as_str(), mm.as_str());
    push_char(&mut out, '-');
    let dd = format_padded(d as u64, 2);
    out = cat(out.as_str(), dd.as_str());
    out
}

/// Today's date by the local clock, as `%Y-%m-%d`.
pub fn today() -> (r: String)
    ensures
        exists|y: i32, m: u32, d: u32|
            1 <= m <= 12 && 1 <= d <= 31 && r@ == #[trigger] date_text(y as int, m as nat, d as nat),
{
    let (y, m, d) = local_date();
    format_date(y, m, d)
}

/// A lower-case hexadecimal digit.
pub open spec fn is_lower_hex(c: char) -> bool {
    let u = c as u32;
    (48 <= u <= 57) || (97 <= u <= 102)
}

/// Where the hyphenated form of a UUID has its hyphens.
pub open spec fn is_hyphen_place(i: int) -> bool {
    i == 8 || i == 13 || i == 18 || i == 23
}

/// The hyphenated lower-case text of a version-4 UUID.
pub open spec fn is_uuid_text(s: Seq<char>) -> bool {
    &&& s.len() == 36
    &&& forall|i: int|
        0 <= i < 36 ==> (if is_hyphen_place(i) {
            #[trigger] s[i] == '-'
        } else {
            is_lower_hex(s[i])
        })
    &&& s[14] == '4'
    &&& (s[19] == '8' || s[19] == '9' || s[19] == 'a' || s[19] == 'b')
}

/// Calls uuid's `Uuid::new_v4` and writes it with `Display`, which gives the
/// hyphenated lower-case form: 36 characters, hyphens at 8, 13, 18 and 23,
/// the version digit `4` at 14 and one of `8`, `9`, `a`, `b` at 19. The
/// other digits are random and are not stated.
#[verifier::external_body]
fn uuid_text() -> (s: String)
    ensures
        is_uuid_text(s@),
{
    uuid::Uuid::new_v4().to_string()
}

/// A fresh identifier: the first ten characters of a random UUID, eight
/// hexadecimal digits, a hyphen and one more digit.
pub fn short_id() -> (id: String)
    ensures
        id@.len() == 10,
        id@[8] == '-',
        forall|i: int| 0 <= i < 10 && i != 8 ==> is_lower_hex(#[trigger] id@[i]),
{
    let u = uuid_text();
    let id = take_chars(u.as_str(), 10);
    proof {
        assert forall|i: int| 0 <= i < 10 && i != 8 implies is_lower_hex(#[trigger] id@[i]) by {
            assert(id@[i] == u@[i]);
            assert(!is_hyphen_place(i));
        }
        assert(id@[8] == u@[8]);
        assert(is_hyphen_place(8));
    }
    id
}

} // verus!
