//! Turning raw rows and form fields into values the store works with.
//!
//! Three small concerns live here: recovering the good rows out of a bulk
//! query whose individual rows may fail to decode, reformatting a date from
//! the wire form a date picker submits (`YYYY-MM-DDTHH:MM:SS`) into the
//! storage form (`YYYY-MM-DD HH:MM:SS`), and rendering a flash message.

use crate::cookie::digit_val;
use crate::cookie::is_digit;
use vstd::prelude::*;

verus! {

/// The values of the successful entries, in order.
pub open spec fn ok_values<T, E>(s: Seq<Result<T, E>>) -> Seq<T>
    decreases s.len(),
{
    if s.len() == 0 {
        Seq::empty()
    } else if s.last() is Ok {
        ok_values(s.drop_last()).push(s.last()->Ok_0)
    } else {
        ok_values(s.drop_last())
    }
}

/// Keep the rows that decoded and drop the ones that did not: a bulk listing
/// never aborts because of one bad record.
pub fn serialise_data<T, E>(items: Vec<Result<T, E>>) -> (r: Vec<T>)
    ensures
        r@ == ok_values(items@),
{
    let ghost full = items@;
    let mut items = items;
    let mut out: Vec<T> = Vec::new();
    while items.len() > 0
        invariant
            ok_values(items@) + out@ =~= ok_values(full),
        decreases items.len(),
    {
        let ghost before = items@;
        let item = items.pop().unwrap();
        proof {
            assert(items@ =~= before.drop_last());
        }
        match item {
            Ok(value) => {
                out.insert(0, value);
            }
            Err(_) => {},
        }
    }
    proof {
        assert(ok_values(items@) + out@ =~= out@);
    }
    out
}

/// A two-digit field starting at position `i`.
pub open spec fn two_digit_val(s: Seq<char>, i: int) -> int {
    digit_val(s[i]) * 10 + digit_val(s[i + 1])
}

pub open spec fn year_val(s: Seq<char>) -> int {
    digit_val(s[0]) * 1000 + digit_val(s[1]) * 100 + digit_val(s[2]) * 10 + digit_val(s[3])
}

pub open spec fn month_val(s: Seq<char>) -> int {
    two_digit_val(s, 5)
}

pub open spec fn day_val(s: Seq<char>) -> int {
    two_digit_val(s, 8)
}

pub open spec fn hour_val(s: Seq<char>) -> int {
    two_digit_val(s, 11)
}

pub open spec fn minute_val(s: Seq<char>) -> int {
    two_digit_val(s, 14)
}

pub open spec fn second_val(s: Seq<char>) -> int {
    two_digit_val(s, 17)
}

pub open spec fn is_leap_year(y: int) -> bool {
    y % 4 == 0 && (y % 100 != 0 || y % 400 == 0)
}

pub open spec fn days_in_month(y: int, m: int) -> int {
    if m == 2 {
        if is_leap_year(y) {
            29
        } else {
            28
        }
    } else if m == 4 || m == 6 || m == 9 || m == 11 {
        30
    } else {
        31
    }
}

/// The fixed shape of a wire date: `YYYY-MM-DDTHH:MM:SS`.
pub open spec fn wire_date_shaped(s: Seq<char>) -> bool {
    &&& s.len() == 19
    &&& is_digit(s[0])
    &&& is_digit(s[1])
    &&& is_digit(s[2])
    &&& is_digit(s[3])
    &&& s[4] == '-'
    &&& is_digit(s[5])
    &&& is_digit(s[6])
    &&& s[7] == '-'
    &&& is_digit(s[8])
    &&& is_digit(s[9])
    &&& s[10] == 'T'
    &&& is_digit(s[11])
    &&& is_digit(s[12])
    &&& s[13] == ':'
    &&& is_digit(s[14])
    &&& is_digit(s[15])
    &&& s[16] == ':'
    &&& is_digit(s[17])
    &&& is_digit(s[18])
}

/// The fixed shape of a storage date: `YYYY-MM-DD HH:MM:SS`, as the wire
/// shape but with a space for the separator.
pub open spec fn storage_date_shaped(s: Seq<char>) -> bool {
    &&& s.len() == 19
    &&& is_digit(s[0])
    &&& is_digit(s[1])
    &&& is_digit(s[2])
    &&& is_digit(s[3])
    &&& s[4] == '-'
    &&& is_digit(s[5])
    &&& is_digit(s[6])
    &&& s[7] == '-'
    &&& is_digit(s[8])
    &&& is_digit(s[9])
    &&& s[10] == ' '
    &&& is_digit(s[11])
    &&& is_digit(s[12])
    &&& s[13] == ':'
    &&& is_digit(s[14])
    &&& is_digit(s[15])
    &&& s[16] == ':'
    &&& is_digit(s[17])
    &&& is_digit(s[18])
}

/// Whether the fields of a shaped date name a real calendar date and time of
/// day. The field positions are the same in the wire and storage shapes.
pub open spec fn date_fields_valid(s: Seq<char>) -> bool {
    &&& 1 <= month_val(s) <= 12
    &&& 1 <= day_val(s) <= days_in_month(year_val(s), month_val(s))
    &&& hour_val(s) <= 23
    &&& minute_val(s) <= 59
    &&& second_val(s) <= 59
}

/// A well-formed wire date: shaped as `YYYY-MM-DDTHH:MM:SS` and naming a real
/// calendar date and time of day.
pub open spec fn valid_wire_date(s: Seq<char>) -> bool {
    wire_date_shaped(s) && date_fields_valid(s)
}

/// A well-formed storage date: shaped as `YYYY-MM-DD HH:MM:SS` and naming a
/// real calendar date and time of day.
pub open spec fn valid_storage_date(s: Seq<char>) -> bool {
    storage_date_shaped(s) && date_fields_valid(s)
}

/// The storage form of a wire date: the same characters with the `T`
/// separator replaced by a space.
pub open spec fn storage_date(s: Seq<char>) -> Seq<char> {
    s.update(10, ' ')
}

fn is_digit_at(s: &str, i: usize) -> (b: bool)
    requires
        i < s@.len(),
    ensures
        b == is_digit(s@[i as int]),
{
    let c = s.get_char(i);
    let u: u32 = c as u32;
    48 <= u && u <= 57
}

fn two_digit_at(s: &str, i: usize) -> (v: u32)
    requires
        s@.len() == 19,
        i + 1 < 19,
        is_digit(s@[i as int]),
        is_digit(s@[i as int + 1]),
    ensures
        v == two_digit_val(s@, i as int),
        v <= 99,
{
    let hi: u32 = s.get_char(i) as u32 - 48;
    let lo: u32 = s.get_char(i + 1) as u32 - 48;
    hi * 10 + lo
}

/// Check the calendar fields of a date whose shape was already checked.
fn date_fields_ok(date: &str) -> (b: bool)
    requires
        date@.len() == 19,
        is_digit(date@[0]),
        is_digit(date@[1]),
        is_digit(date@[2]),
        is_digit(date@[3]),
        is_digit(date@[5]),
        is_digit(date@[6]),
        is_digit(date@[8]),
        is_digit(date@[9]),
        is_digit(date@[11]),
        is_digit(date@[12]),
        is_digit(date@[14]),
        is_digit(date@[15]),
        is_digit(date@[17]),
        is_digit(date@[18]),
    ensures
        b == date_fields_valid(date@),
{
    let year: u32 = {
        let a: u32 = date.get_char(0) as u32 - 48;
        let b: u32 = date.get_char(1) as u32 - 48;
        let c: u32 = date.get_char(2) as u32 - 48;
        let d: u32 = date.get_char(3) as u32 - 48;
        a * 1000 + b * 100 + c * 10 + d
    };
    assert(year == year_val(date@));
    let month: u32 = two_digit_at(date, 5);
    let day: u32 = two_digit_at(date, 8);
    let hour: u32 = two_digit_at(date, 11);
    let minute: u32 = two_digit_at(date, 14);
    let second: u32 = two_digit_at(date, 17);
    if !(1 <= month && month <= 12) {
        return false;
    }
    let leap = year % 4 == 0 && (year % 100 != 0 || year % 400 == 0);
    assert(leap == is_leap_year(year as int));
    let month_days: u32 = if month == 2 {
        if leap {
            29
        } else {
            28
        }
    } else if month == 4 || month == 6 || month == 9 || month == 11 {
        30
    } else {
        31
    };
    if !(1 <= day && day <= month_days) {
        return false;
    }
    if hour > 23 || minute > 59 || second > 59 {
        return false;
    }
    true
}

/// Whether a string is a well-formed storage date, `YYYY-MM-DD HH:MM:SS`.
/// This is the form the persistent store itself writes for timestamps, so a
/// value handed back in from outside is checked before it is stored.
pub fn check_storage_date(s: &str) -> (b: bool)
    ensures
        b == valid_storage_date(s@),
{
    if s.unicode_len() != 19 {
        return false;
    }
    let shaped = is_digit_at(s, 0) && is_digit_at(s, 1) && is_digit_at(s, 2) && is_digit_at(s, 3)
        && s.get_char(4) == '-' && is_digit_at(s, 5) && is_digit_at(s, 6) && s.get_char(7) == '-'
        && is_digit_at(s, 8) && is_digit_at(s, 9) && s.get_char(10) == ' ' && is_digit_at(s, 11)
        && is_digit_at(s, 12) && s.get_char(13) == ':' && is_digit_at(s, 14) && is_digit_at(s, 15)
        && s.get_char(16) == ':' && is_digit_at(s, 17) && is_digit_at(s, 18);
    if !shaped {
        return false;
    }
    assert(storage_date_shaped(s@));
    date_fields_ok(s)
}

/// Reformat a date from the wire form `YYYY-MM-DDTHH:MM:SS` to the storage
/// form `YYYY-MM-DD HH:MM:SS`. A malformed or impossible date is rejected,
/// never silently defaulted.
pub fn parse_date(date: &str) -> (r: Result<String, ()>)
    ensures
        valid_wire_date(date@) ==> (r matches Ok(out) && out@ == storage_date(date@)),
        !valid_wire_date(date@) ==> r is Err,
{
    if date.unicode_len() != 19 {
        return Err(());
    }
    let shaped = is_digit_at(date, 0) && is_digit_at(date, 1) && is_digit_at(date, 2)
        && is_digit_at(date, 3) && date.get_char(4) == '-' && is_digit_at(date, 5)
        && is_digit_at(date, 6) && date.get_char(7) == '-' && is_digit_at(date, 8)
        && is_digit_at(date, 9) && date.get_char(10) == 'T' && is_digit_at(date, 11)
        && is_digit_at(date, 12) && date.get_char(13) == ':' && is_digit_at(date, 14)
        && is_digit_at(date, 15) && date.get_char(16) == ':' && is_digit_at(date, 17)
        && is_digit_at(date, 18);
    if !shaped {
        return Err(());
    }
    assert(wire_date_shaped(date@));
    if !date_fields_ok(date) {
        return Err(());
    }
    assert(valid_wire_date(date@));
    proof {
        assert forall|i: int| 0 <= i < date@.len() implies (date@[i] as nat) < 128 by {
            assert(wire_date_shaped(date@));
        }
        assert(vstd::string::is_ascii(date));
    }
    let head = date.substring_ascii(0, 10);
    let tail = date.substring_ascii(11, 19);
    let mut out = String::new();
    out.append(head);
    out.append(" ");
    out.append(tail);
    proof {
        reveal_strlit(" ");
        assert(out@ =~= storage_date(date@));
    }
    Ok(out)
}

/// A flash message carried from one request to the next: a kind such as
/// `success` or `error`, and the message text.
pub struct FlashMsg {
    pub kind: String,
    pub message: String,
}

/// Render a flash message as `kind: message`, or as the empty string when no
/// message was carried over.
pub fn get_flash_msg(flash: Option<FlashMsg>) -> (r: String)
    ensures
        match flash {
            Some(f) => r@ == f.kind@ + ": "@ + f.message@,
            None => r@ == Seq::<char>::empty(),
        },
{
    match flash {
        Some(f) => {
            let mut out = f.kind;
            out.append(": ");
            out.append(f.message.as_str());
            out
        },
        None => String::new(),
    }
}

} // verus!
