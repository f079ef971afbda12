//! Recurrence durations ("epochs"): their textual grammar, their length
//! in fixed days and their calendar-exact length from a given day.
use vstd::prelude::*;
use vstd::pervasive::unreached;
use crate::DAYS_IN_MONTH;
use crate::DAYS_IN_WEEK;
use crate::DAYS_IN_YEAR;
use crate::calendar::{
    is_calendar_date, CalendarDate, CalendarDateTime, TimeSpan, MAX_SPAN_DAYS, MAX_YEAR, MIN_YEAR,
};
use crate::error::{outcome, AppError, AppErrorView};
use crate::text::{
    chars_of, decimal_value, is_digit, parse_digits, push_signed_decimal, signed_decimal,
    string_of,
};

verus! {

broadcast use vstd::string::group_string_axioms;

/// Represents the calendar data set for an epoch duration, associated with
/// amount: i64 and coefficient: i64.
#[derive(Debug, Copy, Clone, PartialEq, Eq, Structural)]
pub struct CalendarData {
    /// The unit count per occurrence ("every 3 months").
    pub amount: i64,
    /// The number of repeat cycles to project forward ("12 times").
    pub coefficient: i64,
}

impl CalendarData {
    pub fn new(amount: i64, coefficient: i64) -> (out: Self)
        ensures
            out == (CalendarData { amount, coefficient }),
    {
        Self { amount, coefficient }
    }
}

/// A time range represented by various units with duration and coefficient.
///
/// An `Epoch` can represent time duration in units such as year(s), month(s),
/// week(s), days, and single_day.
#[derive(Debug, Copy, Clone, PartialEq, Eq, Structural)]
pub enum Epoch {
    /// Represents a single day.
    SingleDay,
    /// Represents a duration in years.
    Year(CalendarData),
    /// Represents a duration in months.
    Month(CalendarData),
    /// Represents a duration in weeks.
    Week(CalendarData),
    /// Represents a duration in days.
    Day(CalendarData),
}

/// One of the unit letters of the grammar.
pub open spec fn is_unit(c: char) -> bool {
    c == 'd' || c == 'w' || c == 'm' || c == 'y'
}

/// Where the run of decimal digits that starts at `from` ends.
pub open spec fn digits_end(s: Seq<char>, from: int) -> int
    decreases s.len() - from,
{
    if 0 <= from < s.len() && is_digit(s[from]) {
        digits_end(s, from + 1)
    } else {
        from
    }
}

/// Where the decimal number without leading zero that starts at `at` ends,
/// if one starts there.
pub open spec fn number_end(s: Seq<char>, at: int) -> Option<int> {
    if 0 <= at < s.len() && '1' <= s[at] && s[at] <= '9' {
        Some(digits_end(s, at + 1))
    } else {
        None
    }
}

/// One match of the grammar in a text: the digits of the amount, the unit
/// letter and, where the repeat part `<coefficient>x` follows, the digits
/// of the coefficient.
pub struct EpochToken {
    pub amount: Seq<char>,
    pub unit: char,
    pub coefficient: Option<Seq<char>>,
}

/// The match of the grammar that starts at `at`, if there is one: a number
/// without leading zero, a unit letter and, where it follows at once, the
/// repeat part: another such number and the letter `x`.
pub open spec fn token_at(s: Seq<char>, at: int) -> Option<EpochToken> {
    match number_end(s, at) {
        None => None,
        Some(u) => if u < s.len() && is_unit(s[u]) {
            Some(
                EpochToken {
                    amount: s.subrange(at, u),
                    unit: s[u],
                    coefficient: match number_end(s, u + 1) {
                        None => None,
                        Some(x) => if x < s.len() && s[x] == 'x' {
                            Some(s.subrange(u + 1, x))
                        } else {
                            None
                        },
                    },
                },
            )
        } else {
            None
        },
    }
}

/// The leftmost match of the grammar that starts at or after `from`.
pub open spec fn first_token(s: Seq<char>, from: int) -> Option<EpochToken>
    decreases s.len() - from,
{
    if from < 0 || from >= s.len() {
        None
    } else if token_at(s, from) is Some {
        token_at(s, from)
    } else {
        first_token(s, from + 1)
    }
}

/// Unit, amount and coefficient of the leftmost match of the grammar in
/// `s`. A text without any match stands for one day, once. A number that
/// does not fit in 64 bits is a parse error.
pub open spec fn epoch_fields(s: Seq<char>) -> Result<(char, i64, i64), AppErrorView> {
    match first_token(s, 0) {
        None => Ok(('d', 1i64, 1i64)),
        Some(token) => {
            let amount = decimal_value(token.amount);
            let coefficient = match token.coefficient {
                None => 1nat,
                Some(digits) => decimal_value(digits),
            };
            if amount > i64::MAX {
                Err(AppErrorView::ParseError("Failed to parse epoch amount"@))
            } else if coefficient > i64::MAX {
                Err(AppErrorView::ParseError("Failed to parse epoch coefficient"@))
            } else {
                Ok((token.unit, amount as i64, coefficient as i64))
            }
        },
    }
}

/// The epoch with the given unit, amount and coefficient, read from the
/// text `s`: the texts `1d` and `1d1x` are the single day; a letter that
/// is no unit is refused.
pub open spec fn epoch_of_fields(unit: char, amount: i64, coefficient: i64, s: Seq<char>) -> Result<
    Epoch,
    AppErrorView,
> {
    let data = CalendarData { amount, coefficient };
    if unit == 'y' {
        Ok(Epoch::Year(data))
    } else if unit == 'm' {
        Ok(Epoch::Month(data))
    } else if unit == 'w' {
        Ok(Epoch::Week(data))
    } else if unit == 'd' {
        if s == seq!['1', 'd', '1', 'x'] || s == seq!['1', 'd'] {
            Ok(Epoch::SingleDay)
        } else {
            Ok(Epoch::Day(data))
        }
    } else {
        Err(
            AppErrorView::InvalidInputString(
                "Encounterd invalid epoch token unit from string"@,
            ),
        )
    }
}

/// What the text of an epoch stands for.
pub open spec fn parse_epoch_text(s: Seq<char>) -> Result<Epoch, AppErrorView> {
    match epoch_fields(s) {
        Err(e) => Err(e),
        Ok(fields) => epoch_of_fields(fields.0, fields.1, fields.2, s),
    }
}

/// The unit of a match of the grammar is one of the four unit letters.
pub proof fn lemma_first_token_unit(s: Seq<char>, from: int)
    ensures
        first_token(s, from) matches Some(token) ==> is_unit(token.unit),
    decreases s.len() - from,
{
    if 0 <= from < s.len() && token_at(s, from) is None {
        lemma_first_token_unit(s, from + 1);
    }
}

/// Reading a text never ends on an unknown unit: the grammar yields one
/// of the four unit letters, or the day where nothing matches. So a text
/// gives an epoch or, where a number is too large, a parse error.
pub proof fn lemma_parsed_unit_is_known(s: Seq<char>)
    ensures
        epoch_fields(s) matches Ok(fields) ==> is_unit(fields.0),
        parse_epoch_text(s) is Ok <==> epoch_fields(s) is Ok,
        parse_epoch_text(s) matches Err(e) ==> e is ParseError,
{
    lemma_first_token_unit(s, 0);
}

/// The two spellings of the single day, and no other text, give
/// `Epoch::SingleDay`.
pub proof fn lemma_single_day_texts(s: Seq<char>)
    ensures
        parse_epoch_text(s) == Ok::<Epoch, AppErrorView>(Epoch::SingleDay) <==> (s == seq![
            '1',
            'd',
            '1',
            'x',
        ] || s == seq!['1', 'd']),
{
    lemma_first_token_unit(s, 0);
    let short = seq!['1', 'd'];
    let long = seq!['1', 'd', '1', 'x'];
    if s == short || s == long {
        reveal_with_fuel(digits_end, 3);
        reveal_with_fuel(decimal_value, 3);
        assert(digits_end(s, 1) == 1);
        assert(number_end(s, 0) == Some(1int));
        assert(token_at(s, 0) is Some);
        let token = token_at(s, 0)->0;
        assert(first_token(s, 0) == Some(token));
        assert(token.unit == 'd');
        assert(token.amount =~= seq!['1']);
        assert(token.amount.drop_last() =~= Seq::<char>::empty());
        assert(decimal_value(token.amount) == 1);
        if s == long {
            assert(digits_end(s, 3) == 3);
            assert(number_end(s, 2) == Some(3int));
            assert(token.coefficient == Some(s.subrange(2, 3)));
            assert(s.subrange(2, 3) =~= seq!['1']);
            assert(seq!['1'].drop_last() =~= Seq::<char>::empty());
        } else {
            assert(number_end(s, 2) is None);
            assert(token.coefficient is None);
        }
    }
}

/// Where the run of decimal digits that starts at `from` ends.
fn scan_digits(v: &Vec<char>, from: usize) -> (end: usize)
    requires
        from <= v.len(),
    ensures
        from <= end <= v.len(),
        end == digits_end(v@, from as int),
        crate::text::all_digits(v@.subrange(from as int, end as int)),
{
    let mut end: usize = from;
    while end < v.len() && v[end] >= '0' && v[end] <= '9'
        invariant
            from <= end <= v.len(),
            digits_end(v@, from as int) == digits_end(v@, end as int),
            crate::text::all_digits(v@.subrange(from as int, end as int)),
        decreases v.len() - end,
    {
        end += 1;
    }
    end
}

/// Where the decimal number without leading zero that starts at `at` ends,
/// if one starts there.
fn scan_number(v: &Vec<char>, at: usize) -> (end: Option<usize>)
    requires
        at <= v.len(),
    ensures
        match end {
            None => number_end(v@, at as int) is None,
            Some(e) => at < e <= v.len() && number_end(v@, at as int) == Some(e as int)
                && crate::text::all_digits(v@.subrange(at as int, e as int)),
        },
{
    if at < v.len() && v[at] >= '1' && v[at] <= '9' {
        let e = scan_digits(v, at + 1);
        assert forall|i: int| 0 <= i < e - at implies is_digit(
            #[trigger] v@.subrange(at as int, e as int)[i],
        ) by {
            if i > 0 {
                assert(v@.subrange(at as int, e as int)[i] == v@.subrange(at + 1, e as int)[i - 1]);
            }
        }
        Some(e)
    } else {
        None
    }
}

/// The bounds of a match of the grammar: where the unit letter stands
/// and, where the repeat part follows, where its `x` stands.
struct TokenBounds {
    start: usize,
    unit_at: usize,
    x_at: Option<usize>,
}

impl TokenBounds {
    /// The bounds lie in `s` and hold digits where numbers are read.
    spec fn fits(&self, s: Seq<char>) -> bool {
        &&& self.start < self.unit_at < s.len()
        &&& crate::text::all_digits(s.subrange(self.start as int, self.unit_at as int))
        &&& self.x_at matches Some(x) ==> self.unit_at + 1 < x < s.len() && crate::text::all_digits(
            s.subrange(self.unit_at + 1, x as int),
        )
    }

    /// The match that the bounds mark in `s`.
    spec fn token(&self, s: Seq<char>) -> EpochToken {
        EpochToken {
            amount: s.subrange(self.start as int, self.unit_at as int),
            unit: s[self.unit_at as int],
            coefficient: match self.x_at {
                None => None,
                Some(x) => Some(s.subrange(self.unit_at + 1, x as int)),
            },
        }
    }
}

/// The match of the grammar that starts at `at`, if there is one.
fn scan_token(v: &Vec<char>, at: usize) -> (out: Option<TokenBounds>)
    requires
        at < v.len(),
    ensures
        match out {
            None => token_at(v@, at as int) is None,
            Some(b) => b.start == at && b.fits(v@) && token_at(v@, at as int) == Some(b.token(v@)),
        },
{
    match scan_number(v, at) {
        None => None,
        Some(u) => {
            if u < v.len() && (v[u] == 'd' || v[u] == 'w' || v[u] == 'm' || v[u] == 'y') {
                let x_at = match scan_number(v, u + 1) {
                    None => None,
                    Some(x) => if x < v.len() && v[x] == 'x' {
                        Some(x)
                    } else {
                        None
                    },
                };
                Some(TokenBounds { start: at, unit_at: u, x_at })
            } else {
                None
            }
        },
    }
}

/// The leftmost match of the grammar in `v`, if there is one.
fn find_token(v: &Vec<char>) -> (out: Option<TokenBounds>)
    ensures
        match out {
            None => first_token(v@, 0) is None,
            Some(b) => b.fits(v@) && first_token(v@, 0) == Some(b.token(v@)),
        },
{
    let mut at: usize = 0;
    while at < v.len()
        invariant
            at <= v.len(),
            first_token(v@, 0) == first_token(v@, at as int),
        decreases v.len() - at,
    {
        match scan_token(v, at) {
            Some(b) => {
                return Some(b);
            },
            None => {},
        }
        at += 1;
    }
    None
}

/// Finds the unit, the amount and the coefficient that the text of an
/// epoch gives.
///
/// The leftmost part of the text that reads as a number without leading
/// zero followed by one of the unit letters `d`, `w`, `m`, `y` gives unit
/// and amount. Where a second such number and the letter `x` follow at
/// once, the number is the coefficient; it is 1 otherwise. A text without
/// such a part gives one day, once. An amount or a coefficient above
/// `i64::MAX` gives `ParseError`.
pub fn parse_epoch(text: &str) -> (out: Result<(char, i64, i64), AppError>)
    ensures
        outcome(out) == epoch_fields(text@),
{
    let v = chars_of(text);
    parse_epoch_chars(&v)
}

/// `parse_epoch` on the characters of the text.
fn parse_epoch_chars(v: &Vec<char>) -> (out: Result<(char, i64, i64), AppError>)
    ensures
        outcome(out) == epoch_fields(v@),
{
    match find_token(v) {
        None => Ok(('d', 1, 1)),
        Some(b) => {
            let amount = match parse_digits(v, b.start, b.unit_at, 0x7fff_ffff_ffff_ffff) {
                Some(n) => n as i64,
                None => {
                    return Err(AppError::ParseError("Failed to parse epoch amount".to_owned()));
                },
            };
            let coefficient = match b.x_at {
                None => 1,
                Some(x) => match parse_digits(v, b.unit_at + 1, x, 0x7fff_ffff_ffff_ffff) {
                    Some(n) => n as i64,
                    None => {
                        return Err(
                            AppError::ParseError("Failed to parse epoch coefficient".to_owned()),
                        );
                    },
                },
            };
            Ok((v[b.unit_at], amount, coefficient))
        },
    }
}

impl Epoch {
    /// Creates a new `Epoch` with the specified unit and calendar data.
    ///
    /// `unit` is 'y' for year, 'm' for month, 'w' for week, 'd' for day;
    /// any other text gives the single day.
    pub fn new(unit: &str, calendar_data: CalendarData) -> (out: Self)
        ensures
            out == if unit@ == seq!['y'] {
                Epoch::Year(calendar_data)
            } else if unit@ == seq!['m'] {
                Epoch::Month(calendar_data)
            } else if unit@ == seq!['w'] {
                Epoch::Week(calendar_data)
            } else if unit@ == seq!['d'] {
                Epoch::Day(calendar_data)
            } else {
                Epoch::SingleDay
            },
    {
        let v = chars_of(unit);
        if v.len() != 1 {
            return Epoch::SingleDay;
        }
        assert(unit@ =~= seq![v@[0]]);
        if v[0] == 'y' {
            Epoch::Year(calendar_data)
        } else if v[0] == 'm' {
            Epoch::Month(calendar_data)
        } else if v[0] == 'w' {
            Epoch::Week(calendar_data)
        } else if v[0] == 'd' {
            Epoch::Day(calendar_data)
        } else {
            Epoch::SingleDay
        }
    }

    /// The epoch with the given unit, amount and coefficient, as read from
    /// `text`: the texts `1d` and `1d1x` are the single day, and a unit
    /// that is none of `y`, `m`, `w`, `d` gives `InvalidInputString`.
    pub fn from_fields(unit: char, amount: i64, coefficient: i64, text: &Vec<char>) -> (out: Result<
        Epoch,
        AppError,
    >)
        ensures
            outcome(out) == epoch_of_fields(unit, amount, coefficient, text@),
    {
        let data = CalendarData { amount, coefficient };
        if unit == 'y' {
            Ok(Epoch::Year(data))
        } else if unit == 'm' {
            Ok(Epoch::Month(data))
        } else if unit == 'w' {
            Ok(Epoch::Week(data))
        } else if unit == 'd' {
            let short = text.len() == 2 && text[0] == '1' && text[1] == 'd';
            let long = text.len() == 4 && text[0] == '1' && text[1] == 'd' && text[2] == '1'
                && text[3] == 'x';
            assert(short == (text@ =~= seq!['1', 'd']));
            assert(long == (text@ =~= seq!['1', 'd', '1', 'x']));
            if long || short {
                Ok(Epoch::SingleDay)
            } else {
                Ok(Epoch::Day(data))
            }
        } else {
            Err(
                AppError::InvalidInputString(
                    "Encounterd invalid epoch token unit from string".to_owned(),
                ),
            )
        }
    }

    /// Parses a string slice into an `Epoch` instance.
    ///
    /// The text is read as `parse_epoch` reads it; the texts `1d` and
    /// `1d1x` give `Epoch::SingleDay`.
    pub fn from_str(s: &str) -> (out: Result<Epoch, AppError>)
        ensures
            outcome(out) == parse_epoch_text(s@),
    {
        let v = chars_of(s);
        match parse_epoch_chars(&v) {
            Err(e) => Err(e),
            Ok((unit, amount, coefficient)) => Epoch::from_fields(unit, amount, coefficient, &v),
        }
    }

    /// Returns the frequency coefficient associated with the `Epoch`.
    ///
    /// For `SingleDay`, returns 1 as it represents a single day. For other
    /// variants, returns the coefficient of the calendar data.
    pub fn get_frequency(&self) -> (out: i64)
        ensures
            out == match *self {
                Epoch::SingleDay => 1,
                Epoch::Year(data) | Epoch::Month(data) | Epoch::Week(data) | Epoch::Day(
                    data,
                ) => data.coefficient,
            },
    {
        match self {
            Self::SingleDay => 1,
            Self::Year(calendar_data)
            | Self::Month(calendar_data)
            | Self::Week(calendar_data)
            | Self::Day(calendar_data) => calendar_data.coefficient,
        }
    }
}

/// Where `steps` steps of `amount` months lead from `month` of `year`:
/// each step adds `amount` to the month and, where that passes December,
/// takes twelve months off again and moves on to the next year. A step
/// passes one year at most, so steps of more than twelve months end on a
/// month number above twelve.
pub open spec fn month_walk(year: int, month: int, amount: int, steps: nat) -> (int, int)
    decreases steps,
{
    if steps == 0 {
        (year, month)
    } else if month + amount > 12 {
        month_walk(year + 1, month + amount - 12, amount, (steps - 1) as nat)
    } else {
        month_walk(year, month + amount, amount, (steps - 1) as nat)
    }
}

/// The number of days from `since` to the day `day` of `month` in `year`,
/// where the calendar holds that day.
pub open spec fn days_to_date(since: CalendarDate, year: int, month: int) -> Result<
    int,
    AppErrorView,
> {
    if is_calendar_date(year, month, since.day as int) {
        Ok(
            crate::calendar::day_number(year, month, since.day as int) - since.day_number(),
        )
    } else {
        Err(AppErrorView::CalendarConstructionError("No such calendar date"@))
    }
}

/// With steps of no more than twelve months the walk is the arithmetic
/// of the calendar: it ends as many months after its start as all its
/// steps together come to.
pub proof fn lemma_month_walk_is_calendar(year: int, month: int, amount: int, steps: nat)
    requires
        1 <= month <= 12,
        0 <= amount <= 12,
    ensures
        month_walk(year, month, amount, steps) == (
            year + (month - 1 + steps * amount) / 12,
            (month - 1 + steps * amount) % 12 + 1,
        ),
    decreases steps,
{
    if steps == 0 {
        assert(steps * amount == 0);
    } else {
        let rest = (steps - 1) as nat;
        assert(steps * amount == rest * amount + amount) by (nonlinear_arith)
            requires
                rest == steps - 1,
        ;
        assert(rest * amount >= 0) by (nonlinear_arith)
            requires
                rest >= 0,
                amount >= 0,
        ;
        if month + amount > 12 {
            lemma_month_walk_is_calendar(year + 1, month + amount - 12, amount, rest);
        } else {
            lemma_month_walk_is_calendar(year, month + amount, amount, rest);
        }
    }
}

/// A walk never goes back in years.
pub proof fn lemma_month_walk_year(year: int, month: int, amount: int, steps: nat)
    ensures
        month_walk(year, month, amount, steps).0 >= year,
    decreases steps,
{
    if steps > 0 {
        if month + amount > 12 {
            lemma_month_walk_year(year + 1, month + amount - 12, amount, (steps - 1) as nat);
        } else {
            lemma_month_walk_year(year, month + amount, amount, (steps - 1) as nat);
        }
    }
}

/// With steps of twelve months or more, a month number above twelve
/// stays above twelve.
pub proof fn lemma_month_walk_stays_high(year: int, month: int, amount: int, steps: nat)
    requires
        month > 12,
        amount >= 12,
    ensures
        month_walk(year, month, amount, steps).1 > 12,
    decreases steps,
{
    if steps > 0 {
        lemma_month_walk_stays_high(year + 1, month + amount - 12, amount, (steps - 1) as nat);
    }
}

/// With steps backwards, a month number below one stays below one.
pub proof fn lemma_month_walk_stays_low(year: int, month: int, amount: int, steps: nat)
    requires
        month < 1,
        amount <= 0,
    ensures
        month_walk(year, month, amount, steps).1 < 1,
    decreases steps,
{
    if steps > 0 {
        lemma_month_walk_stays_low(year, month + amount, amount, (steps - 1) as nat);
    }
}

/// Steps of no months lead nowhere.
pub proof fn lemma_month_walk_still(year: int, month: int, steps: nat)
    requires
        month <= 12,
    ensures
        month_walk(year, month, 0, steps) == (year, month),
    decreases steps,
{
    if steps > 0 {
        lemma_month_walk_still(year, month, (steps - 1) as nat);
    }
}

/// An epoch of one month, once, is as long as the month in which it
/// starts, wherever the next month has the day on which it starts.
pub proof fn lemma_one_month_once(since: CalendarDate)
    requires
        since.is_valid(),
    ensures
        ({
            let next = if since.month == 12 {
                (since.year + 1, 1int)
            } else {
                (since.year as int, since.month + 1)
            };
            Epoch::Month(CalendarData { amount: 1, coefficient: 1 }).days_since(since)
                == if is_calendar_date(next.0, next.1, since.day as int) {
                Ok::<int, AppErrorView>(
                    crate::calendar::days_in_month(since.year as int, since.month as int),
                )
            } else {
                Err::<int, AppErrorView>(
                    AppErrorView::CalendarConstructionError("No such calendar date"@),
                )
            }
        }),
{
    reveal_with_fuel(month_walk, 2);
    crate::calendar::lemma_days_before_month(since.year as int);
    crate::calendar::lemma_year_length(since.year as int);
    crate::calendar::lemma_days_before_month(since.year + 1);
}

/// An epoch of one year, once, is as long as the twelve months that
/// follow its start: 366 days where they hold a 29th of February, 365
/// otherwise. It fails only from the 29th of February itself and from
/// the last year of the calendar.
pub proof fn lemma_one_year_once(since: CalendarDate)
    requires
        since.is_valid(),
    ensures
        ({
            let leap_ahead = if since.month <= 2 {
                crate::calendar::is_leap_year(since.year as int)
            } else {
                crate::calendar::is_leap_year(since.year + 1)
            };
            Epoch::Year(CalendarData { amount: 1, coefficient: 1 }).days_since(since)
                == if is_calendar_date(since.year + 1, since.month as int, since.day as int) {
                Ok::<int, AppErrorView>(
                    if leap_ahead {
                        366int
                    } else {
                        365int
                    },
                )
            } else {
                Err::<int, AppErrorView>(
                    AppErrorView::CalendarConstructionError("No such calendar date"@),
                )
            }
        }),
{
    let data = CalendarData { amount: 1, coefficient: 1 };
    assert(data.coefficient * data.amount == 1);
    crate::calendar::lemma_days_before_month(since.year as int);
    crate::calendar::lemma_year_length(since.year as int);
    crate::calendar::lemma_days_before_month(since.year + 1);
    assert(Epoch::Year(data).days_since(since) == days_to_date(
        since,
        since.year + 1,
        since.month as int,
    ));
}

/// The fixed length of an epoch of one year, once, is 365 days, that of
/// one month 30 days and that of one week 7 days.
pub proof fn lemma_fixed_unit_lengths()
    ensures
        Epoch::Year(CalendarData { amount: 1, coefficient: 1 }).fixed_days() == 365,
        Epoch::Month(CalendarData { amount: 1, coefficient: 1 }).fixed_days() == 30,
        Epoch::Week(CalendarData { amount: 1, coefficient: 1 }).fixed_days() == 7,
        Epoch::Day(CalendarData { amount: 1, coefficient: 1 }).fixed_days() == 1,
        Epoch::SingleDay.fixed_days() == 1,
{
}

/// A run of digits that ends at `end` is the run that `digits_end` finds.
proof fn lemma_digits_end(s: Seq<char>, from: int, end: int)
    requires
        0 <= from <= end <= s.len(),
        forall|i: int| from <= i < end ==> is_digit(#[trigger] s[i]),
        end == s.len() || !is_digit(s[end]),
    ensures
        digits_end(s, from) == end,
    decreases end - from,
{
    if from < end {
        lemma_digits_end(s, from + 1, end);
    }
}

impl Epoch {
    /// The epoch is one that a text can stand for: amount and coefficient
    /// are at least 1, and one day, once, is the single day.
    pub open spec fn is_canonical(&self) -> bool {
        match *self {
            Epoch::SingleDay => true,
            Epoch::Year(data) | Epoch::Month(data) | Epoch::Week(data) => data.amount >= 1
                && data.coefficient >= 1,
            Epoch::Day(data) => data.amount >= 1 && data.coefficient >= 1 && !(data.amount == 1
                && data.coefficient == 1),
        }
    }
}

/// The text of an epoch is read back as that epoch, where amount and
/// coefficient are at least 1; one day, once, is read back as the single
/// day.
pub proof fn lemma_display_is_read_back(epoch: Epoch)
    requires
        epoch.is_canonical(),
    ensures
        parse_epoch_text(epoch.display()) == Ok::<Epoch, AppErrorView>(epoch),
{
    match epoch {
        Epoch::SingleDay => {
            lemma_single_day_texts(epoch.display());
        },
        Epoch::Year(data) => {
            lemma_fields_are_read_back(data, 'y');
        },
        Epoch::Month(data) => {
            lemma_fields_are_read_back(data, 'm');
        },
        Epoch::Week(data) => {
            lemma_fields_are_read_back(data, 'w');
        },
        Epoch::Day(data) => {
            lemma_fields_are_read_back(data, 'd');
            let text = signed_decimal(data.amount as int).push('d') + signed_decimal(
                data.coefficient as int,
            ).push('x');
            let amount = crate::text::decimal_digits(data.amount as nat);
            let coefficient = crate::text::decimal_digits(data.coefficient as nat);
            crate::text::lemma_decimal_round_trip(data.amount as nat);
            crate::text::lemma_decimal_round_trip(data.coefficient as nat);
            if text == seq!['1', 'd', '1', 'x'] {
                assert(text.len() == 4);
                assert(amount.len() == 1 && coefficient.len() == 1);
                assert(amount[0] == text[0]);
                assert(coefficient[0] == text[2]);
                assert(amount =~= seq!['1']);
                assert(coefficient =~= seq!['1']);
                reveal_with_fuel(decimal_value, 2);
                assert(seq!['1'].drop_last() =~= Seq::<char>::empty());
                assert(decimal_value(seq!['1']) == 1);
                assert(false);
            }
        },
    }
}

/// The text made of an amount, a unit letter, a coefficient and `x`
/// gives these three back as its fields.
proof fn lemma_fields_are_read_back(data: CalendarData, unit: char)
    requires
        data.amount >= 1,
        data.coefficient >= 1,
        is_unit(unit),
    ensures
        epoch_fields(
            signed_decimal(data.amount as int).push(unit) + signed_decimal(
                data.coefficient as int,
            ).push('x'),
        ) == Ok::<(char, i64, i64), AppErrorView>((unit, data.amount, data.coefficient)),
{
    let amount = crate::text::decimal_digits(data.amount as nat);
    let coefficient = crate::text::decimal_digits(data.coefficient as nat);
    let text = amount.push(unit) + coefficient.push('x');
    let u = amount.len() as int;
    let x = u + 1 + coefficient.len();
    crate::text::lemma_decimal_round_trip(data.amount as nat);
    crate::text::lemma_decimal_round_trip(data.coefficient as nat);
    assert(text.len() == x + 1);
    assert forall|i: int| 0 <= i < u implies text[i] == amount[i] by {}
    assert forall|i: int| u + 1 <= i < x implies text[i] == coefficient[i - u - 1] by {}
    assert(text[u] == unit);
    assert(text[x] == 'x');
    assert(is_digit(amount[0]) && is_digit(coefficient[0]));
    assert forall|i: int| 1 <= i < u implies is_digit(#[trigger] text[i]) by {
        assert(is_digit(amount[i]));
    }
    assert forall|i: int| u + 2 <= i < x implies is_digit(#[trigger] text[i]) by {
        assert(is_digit(coefficient[i - u - 1]));
    }
    lemma_digits_end(text, 1, u);
    lemma_digits_end(text, u + 2, x);
    assert(number_end(text, 0) == Some(u));
    assert(number_end(text, u + 1) == Some(x));
    assert(text.subrange(0, u) =~= amount);
    assert(text.subrange(u + 1, x) =~= coefficient);
    assert(token_at(text, 0) == Some(
        EpochToken { amount: amount, unit: unit, coefficient: Some(coefficient) },
    ));
    assert(first_token(text, 0) == token_at(text, 0));
}

/// The product of two 64-bit numbers fits in 128 bits.
proof fn lemma_product_bounds(a: int, b: int)
    requires
        -0x8000_0000_0000_0000 <= a <= 0x7fff_ffff_ffff_ffff,
        -0x8000_0000_0000_0000 <= b <= 0x7fff_ffff_ffff_ffff,
    ensures
        -0x4000_0000_0000_0000_0000_0000_0000_0000 <= a * b
            <= 0x4000_0000_0000_0000_0000_0000_0000_0000,
{
    assert(-0x4000_0000_0000_0000_0000_0000_0000_0000 <= a * b
        <= 0x4000_0000_0000_0000_0000_0000_0000_0000) by (nonlinear_arith)
        requires
            -0x8000_0000_0000_0000 <= a <= 0x7fff_ffff_ffff_ffff,
            -0x8000_0000_0000_0000 <= b <= 0x7fff_ffff_ffff_ffff,
    ;
}

impl Epoch {
    /// The length of the epoch in days, counting 365 days to the year, 30
    /// to the month and 7 to the week: amount times coefficient times the
    /// days of the unit. The single day is one day long.
    pub open spec fn fixed_days(&self) -> int {
        match *self {
            Epoch::SingleDay => 1,
            Epoch::Year(data) => data.amount * data.coefficient * 365,
            Epoch::Month(data) => data.amount * data.coefficient * 30,
            Epoch::Week(data) => data.amount * data.coefficient * 7,
            Epoch::Day(data) => data.amount * data.coefficient,
        }
    }

    /// The number of days that the epoch spans when it starts on the day
    /// `since`.
    ///
    /// Weeks and days are plain arithmetic and the single day is always
    /// one day. Months walk forward `coefficient` times by `amount` months,
    /// years go `coefficient` times `amount` years ahead at once; both keep
    /// the day of the month, and where the calendar has no such day they
    /// are an error.
    pub open spec fn days_since(&self, since: CalendarDate) -> Result<int, AppErrorView> {
        match *self {
            Epoch::SingleDay => Ok(1),
            Epoch::Week(data) => Ok(data.amount * data.coefficient * 7),
            Epoch::Day(data) => Ok(data.amount * data.coefficient),
            Epoch::Month(data) => {
                let steps = if data.coefficient > 0 {
                    data.coefficient as nat
                } else {
                    0
                };
                let end = month_walk(
                    since.year as int,
                    since.month as int,
                    data.amount as int,
                    steps,
                );
                days_to_date(since, end.0, end.1)
            },
            Epoch::Year(data) => days_to_date(
                since,
                since.year + data.coefficient * data.amount,
                since.month as int,
            ),
        }
    }

    /// The length of the epoch in days, by the fixed count of
    /// `fixed_days`, where that fits in 64 bits.
    pub fn fixed_day_count(&self) -> (out: Option<i64>)
        ensures
            match out {
                Some(days) => days == self.fixed_days(),
                None => !(i64::MIN <= self.fixed_days() <= i64::MAX),
            },
    {
        let (data, unit_days) = match self {
            Self::SingleDay => {
                return Some(1);
            },
            Self::Year(data) => (data, DAYS_IN_YEAR),
            Self::Month(data) => (data, DAYS_IN_MONTH),
            Self::Week(data) => (data, DAYS_IN_WEEK),
            Self::Day(data) => (data, 1),
        };
        assert(self.fixed_days() == data.amount * data.coefficient * unit_days);
        proof {
            lemma_product_bounds(data.amount as int, data.coefficient as int);
        }
        let product: i128 = data.amount as i128 * data.coefficient as i128;
        assert(i64::MIN <= product * unit_days <= i64::MAX ==> i64::MIN <= product <= i64::MAX)
            by (nonlinear_arith)
            requires
                1 <= unit_days <= 365,
        ;
        if product < i64::MIN as i128 || product > i64::MAX as i128 {
            return None;
        }
        match (product as i64).checked_mul(unit_days) {
            Some(days) => Some(days),
            None => None,
        }
    }

    /// Returns the number of days from a given date, typically a
    /// `start_date`.
    ///
    /// This method calculates the number of days based on the epoch type
    /// and the provided starting date (`since`). It considers months and
    /// leap years to compute the exact number of days. A month or year
    /// epoch that ends on a day that the calendar does not hold, such as
    /// the 31st of a month of 30 days, gives `CalendarConstructionError`.
    #[verifier::loop_isolation(false)]
    pub fn calculate_days_since(&self, since: CalendarDateTime) -> (out: Result<i64, AppError>)
        requires
            since.is_valid(),
            (*self is Week || *self is Day) ==> i64::MIN <= self.fixed_days() <= i64::MAX,
        ensures
            match self.days_since(since.date) {
                Ok(days) => out == Ok::<i64, AppError>(days as i64) && i64::MIN <= days
                    <= i64::MAX,
                Err(e) => out matches Err(err) && err@ == e,
            },
    {
        let start = since.date;
        match self {
            Self::SingleDay => Ok(1),
            Self::Week(_) | Self::Day(_) => match self.fixed_day_count() {
                Some(days) => Ok(days),
                None => unreached(),
            },
            Self::Year(data) => {
                proof {
                    lemma_product_bounds(data.coefficient as int, data.amount as int);
                }
                let shift: i128 = data.coefficient as i128 * data.amount as i128;
                let year: i128 = start.year as i128 + shift;
                if year < MIN_YEAR as i128 || year > MAX_YEAR as i128 {
                    return Err(no_such_date());
                }
                Self::days_to(&start, year as i32, start.month)
            },
            Self::Month(data) => {
                let steps: u64 = if data.coefficient > 0 {
                    data.coefficient as u64
                } else {
                    0
                };
                let amount: i128 = data.amount as i128;
                let mut year: i32 = start.year;
                let mut month: i128 = start.month as i128;
                let ghost goal = month_walk(
                    start.year as int,
                    start.month as int,
                    amount as int,
                    steps as nat,
                );
                if amount == 0 {
                    proof {
                        lemma_month_walk_still(start.year as int, start.month as int, steps as nat);
                    }
                    return Self::days_to(&start, year, start.month);
                }
                let mut done: u64 = 0;
                while done < steps
                    invariant
                        done <= steps,
                        amount == data.amount,
                        amount != 0,
                        1 <= month <= 12,
                        MIN_YEAR <= year <= MAX_YEAR,
                        goal == month_walk(
                            year as int,
                            month as int,
                            amount as int,
                            (steps - done) as nat,
                        ),
                    decreases steps - done,
                {
                    let next = month + amount;
                    let ghost left = (steps - done - 1) as nat;
                    if next > 12 {
                        if next - 12 > 12 {
                            proof {
                                lemma_month_walk_stays_high(
                                    year + 1,
                                    next - 12,
                                    amount as int,
                                    left,
                                );
                            }
                            return Err(no_such_date());
                        }
                        if year == MAX_YEAR {
                            proof {
                                lemma_month_walk_year(year + 1, next - 12, amount as int, left);
                            }
                            return Err(no_such_date());
                        }
                        year = year + 1;
                        month = next - 12;
                    } else {
                        if next < 1 {
                            proof {
                                lemma_month_walk_stays_low(year as int, next as int, amount as int, left);
                            }
                            return Err(no_such_date());
                        }
                        month = next;
                    }
                    done += 1;
                }
                Self::days_to(&start, year, month as u32)
            },
        }
    }

    /// The number of days from `since` to the same day of `month` in
    /// `year`, where the calendar holds that day.
    fn days_to(since: &CalendarDate, year: i32, month: u32) -> (out: Result<i64, AppError>)
        requires
            since.is_valid(),
        ensures
            match days_to_date(*since, year as int, month as int) {
                Ok(days) => out == Ok::<i64, AppError>(days as i64) && i64::MIN <= days
                    <= i64::MAX,
                Err(e) => out matches Err(err) && err@ == e,
            },
    {
        match CalendarDate::new(year, month, since.day) {
            Some(end) => Ok(since.days_until(&end)),
            None => Err(no_such_date()),
        }
    }

    /// Converts the epoch into the span of time that its fixed count of
    /// days comes to: 365 days to the year, 30 to the month, 7 to the
    /// week.
    pub fn to_duration(&self) -> (out: TimeSpan)
        requires
            -MAX_SPAN_DAYS <= self.fixed_days() <= MAX_SPAN_DAYS,
        ensures
            out.seconds == self.fixed_days() * 86_400,
            out.is_valid(),
    {
        match self.fixed_day_count() {
            Some(days) => match TimeSpan::try_days(days) {
                Some(span) => span,
                None => unreached(),
            },
            None => unreached(),
        }
    }

    /// The text of the epoch: amount, unit letter, coefficient and `x`;
    /// `1d1x` for the single day.
    pub open spec fn display(&self) -> Seq<char> {
        match *self {
            Epoch::SingleDay => seq!['1', 'd', '1', 'x'],
            Epoch::Year(data) => signed_decimal(data.amount as int).push('y') + signed_decimal(
                data.coefficient as int,
            ).push('x'),
            Epoch::Month(data) => signed_decimal(data.amount as int).push('m') + signed_decimal(
                data.coefficient as int,
            ).push('x'),
            Epoch::Week(data) => signed_decimal(data.amount as int).push('w') + signed_decimal(
                data.coefficient as int,
            ).push('x'),
            Epoch::Day(data) => signed_decimal(data.amount as int).push('d') + signed_decimal(
                data.coefficient as int,
            ).push('x'),
        }
    }

    /// The text of the epoch, as `display` gives it.
    pub fn to_string(&self) -> (out: String)
        ensures
            out@ == self.display(),
    {
        let (data, unit) = match self {
            Self::SingleDay => (CalendarData { amount: 1, coefficient: 1 }, 'd'),
            Self::Year(data) => (*data, 'y'),
            Self::Month(data) => (*data, 'm'),
            Self::Week(data) => (*data, 'w'),
            Self::Day(data) => (*data, 'd'),
        };
        let mut buffer: Vec<char> = Vec::new();
        push_signed_decimal(&mut buffer, data.amount);
        buffer.push(unit);
        push_signed_decimal(&mut buffer, data.coefficient);
        buffer.push('x');
        proof {
            assert(buffer@ =~= signed_decimal(data.amount as int).push(unit) + signed_decimal(
                data.coefficient as int,
            ).push('x'));
            reveal_with_fuel(crate::text::decimal_digits, 2);
            assert(signed_decimal(1) =~= seq!['1']);
            assert(seq!['1'].push('d') + seq!['1'].push('x') =~= seq!['1', 'd', '1', 'x']);
        }
        string_of(&buffer)
    }
}

/// The error of a day that the calendar does not hold.
fn no_such_date() -> (e: AppError)
    ensures
        e@ == AppErrorView::CalendarConstructionError("No such calendar date"@),
{
    AppError::CalendarConstructionError("No such calendar date".to_owned())
}

impl std::str::FromStr for Epoch {
    type Err = AppError;

    /// Parses a string slice into an `Epoch` instance, as
    /// `Epoch::from_str` does: the text is read by the grammar of
    /// `parse_epoch_text`.
    fn from_str(s: &str) -> (out: Result<Epoch, AppError>)
        ensures
            outcome(out) == parse_epoch_text(s@),
    {
        Epoch::from_str(s)
    }
}

} // verus!
