use vstd::prelude::*;

verus! {

/// Earliest year the calendar library represents.
pub const MIN_YEAR: i32 = -262143;

/// Latest year the calendar library represents.
pub const MAX_YEAR: i32 = 262142;

pub open spec fn is_leap(y: int) -> bool {
    y % 4 == 0 && (y % 100 != 0 || y % 400 == 0)
}

pub open spec fn days_in_month(y: int, m: int) -> int {
    if m == 2 {
        if is_leap(y) { 29 } else { 28 }
    } else if m == 4 || m == 6 || m == 9 || m == 11 {
        30
    } else {
        31
    }
}

/// A day of the proleptic Gregorian calendar within the library's year range.
pub open spec fn calendar_date(y: int, m: int, d: int) -> bool {
    MIN_YEAR <= y <= MAX_YEAR && 1 <= m <= 12 && 1 <= d <= days_in_month(y, m)
}

pub open spec fn digit_char(n: int) -> char {
    if n == 0 { '0' }
    else if n == 1 { '1' }
    else if n == 2 { '2' }
    else if n == 3 { '3' }
    else if n == 4 { '4' }
    else if n == 5 { '5' }
    else if n == 6 { '6' }
    else if n == 7 { '7' }
    else if n == 8 { '8' }
    else { '9' }
}

/// `dd/mm/yyyy`, each part zero-padded.
pub open spec fn dmy_text(y: int, m: int, d: int) -> Seq<char> {
    seq![
        digit_char(d / 10), digit_char(d % 10), '/',
        digit_char(m / 10), digit_char(m % 10), '/',
        digit_char(y / 1000), digit_char((y / 100) % 10), digit_char((y / 10) % 10), digit_char(y % 10)
    ]
}

/// Relies on chrono's NaiveDate::from_ymd_opt, which yields a date exactly for a valid
/// calendar day within its year range, and on its "%d/%m/%Y" format, which pads the
/// day and month to two digits and a year in 0..=9999 to four.
#[verifier::external_body]
fn chrono_dmy(year: i32, month: u32, day: u32) -> (r: Option<String>)
    ensures
        r is Some <==> calendar_date(year as int, month as int, day as int),
        r is Some && 0 <= year <= 9999 ==> r->0@ == dmy_text(year as int, month as int, day as int),
{
    match chrono::NaiveDate::from_ymd_opt(year, month, day) {
        Some(date) => Some(date.format("%d/%m/%Y").to_string()),
        None => None,
    }
}

/// The processing date of a run, with its `dd/mm/yyyy` text.
pub struct JobDate {
    pub year: i32,
    pub month: u32,
    pub day: u32,
    pub text: String,
}

impl JobDate {
    pub open spec fn wf(&self) -> bool {
        &&& calendar_date(self.year as int, self.month as int, self.day as int)
        &&& 0 <= self.year <= 9999
        &&& self.text@ == dmy_text(self.year as int, self.month as int, self.day as int)
    }

    /// The date with these parts, if it exists and has a four-digit year.
    pub fn new(year: i32, month: u32, day: u32) -> (r: Option<JobDate>)
        ensures
            r is Some <==> calendar_date(year as int, month as int, day as int) && 0 <= year <= 9999,
            r matches Some(d) ==> d.wf() && d.year == year && d.month == month && d.day == day,
    {
        if year < 0 || year > 9999 {
            return None;
        }
        match chrono_dmy(year, month, day) {
            Some(text) => Some(JobDate { year, month, day, text }),
            None => None,
        }
    }

    /// Reads `dd/mm/yyyy` (exactly two, two and four digits) naming a valid day.
    pub fn parse(s: &[u8]) -> (r: Option<JobDate>)
        ensures
            r is Some <==> dmy_shape(s@) && calendar_date(
                dmy_year(s@),
                dmy_month(s@),
                dmy_day(s@),
            ),
            r matches Some(d) ==> d.wf() && d.year == dmy_year(s@) && d.month == dmy_month(s@)
                && d.day == dmy_day(s@),
    {
        if s.len() != 10 || s[2] != 47u8 || s[5] != 47u8 {
            return None;
        }
        let mut k: usize = 0;
        while k < 10
            invariant
                s.len() == 10,
                s@[2] == 47u8 && s@[5] == 47u8,
                k <= 10,
                forall|j: int| 0 <= j < k && j != 2 && j != 5 ==> is_ascii_digit(#[trigger] s@[j]),
            decreases 10 - k,
        {
            if k != 2 && k != 5 && (s[k] < 48u8 || s[k] > 57u8) {
                return None;
            }
            k = k + 1;
        }
        let day = ((s[0] - 48u8) as u32) * 10 + (s[1] - 48u8) as u32;
        let month = ((s[3] - 48u8) as u32) * 10 + (s[4] - 48u8) as u32;
        let year = ((s[6] - 48u8) as i32) * 1000 + ((s[7] - 48u8) as i32) * 100 + ((s[8] - 48u8) as i32) * 10
            + (s[9] - 48u8) as i32;
        JobDate::new(year, month, day)
    }

    /// The `dd/mm/yyyy` text that tags every row of the run.
    pub fn text(&self) -> (r: String)
        requires
            self.wf(),
        ensures
            r@ == dmy_text(self.year as int, self.month as int, self.day as int),
    {
        self.text.clone()
    }
}

pub open spec fn is_ascii_digit(b: u8) -> bool {
    48 <= b <= 57
}

pub open spec fn dmy_shape(s: Seq<u8>) -> bool {
    s.len() == 10 && s[2] == 47u8 && s[5] == 47u8 && forall|j: int|
        0 <= j < 10 && j != 2 && j != 5 ==> is_ascii_digit(#[trigger] s[j])
}

pub open spec fn digit_at(s: Seq<u8>, j: int) -> int {
    s[j] - 48
}

pub open spec fn dmy_day(s: Seq<u8>) -> int {
    digit_at(s, 0) * 10 + digit_at(s, 1)
}

pub open spec fn dmy_month(s: Seq<u8>) -> int {
    digit_at(s, 3) * 10 + digit_at(s, 4)
}

pub open spec fn dmy_year(s: Seq<u8>) -> int {
    digit_at(s, 6) * 1000 + digit_at(s, 7) * 100 + digit_at(s, 8) * 10 + digit_at(s, 9)
}

proof fn lemma_digit_char(n: int)
    requires
        0 <= n <= 9,
    ensures
        digit_char(n) as u32 == 48 + n,
{
}

proof fn lemma_four_digits(a: int, b: int, c: int, d: int)
    requires
        0 <= a <= 9,
        0 <= b <= 9,
        0 <= c <= 9,
        0 <= d <= 9,
    ensures
        ({
            let y = a * 1000 + b * 100 + c * 10 + d;
            y / 1000 == a && (y / 100) % 10 == b && (y / 10) % 10 == c && y % 10 == d
        }),
{
    let y = a * 1000 + b * 100 + c * 10 + d;
    assert(y / 100 == a * 10 + b);
    assert(y / 10 == a * 100 + b * 10 + c);
}

/// A date read from `dd/mm/yyyy` text is written back as that same text.
pub proof fn lemma_date_text_round_trip(s: Seq<u8>)
    requires
        dmy_shape(s),
        calendar_date(dmy_year(s), dmy_month(s), dmy_day(s)),
    ensures
        ({
            let t = dmy_text(dmy_year(s), dmy_month(s), dmy_day(s));
            &&& t.len() == s.len()
            &&& forall|k: int| 0 <= k < s.len() ==> (#[trigger] t[k]) as u32 == s[k] as u32
        }),
{
    let t = dmy_text(dmy_year(s), dmy_month(s), dmy_day(s));
    assert(is_ascii_digit(s[0]) && is_ascii_digit(s[1]) && is_ascii_digit(s[3]) && is_ascii_digit(s[4]));
    assert(is_ascii_digit(s[6]) && is_ascii_digit(s[7]) && is_ascii_digit(s[8]) && is_ascii_digit(s[9]));
    let (a, b, c, d) = (digit_at(s, 6), digit_at(s, 7), digit_at(s, 8), digit_at(s, 9));
    let y = dmy_year(s);
    assert(y / 1000 == a && (y / 100) % 10 == b && (y / 10) % 10 == c && y % 10 == d) by {
        lemma_four_digits(a, b, c, d);
    }
    let (dd, mm) = (dmy_day(s), dmy_month(s));
    assert(dd / 10 == digit_at(s, 0) && dd % 10 == digit_at(s, 1));
    assert(mm / 10 == digit_at(s, 3) && mm % 10 == digit_at(s, 4));
    lemma_digit_char(digit_at(s, 0));
    lemma_digit_char(digit_at(s, 1));
    lemma_digit_char(digit_at(s, 3));
    lemma_digit_char(digit_at(s, 4));
    lemma_digit_char(a);
    lemma_digit_char(b);
    lemma_digit_char(c);
    lemma_digit_char(d);
    assert forall|k: int| 0 <= k < s.len() implies (#[trigger] t[k]) as u32 == s[k] as u32 by {
        if k == 2 || k == 5 {
            assert(t[k] == '/');
        }
    }
}

} // verus!
