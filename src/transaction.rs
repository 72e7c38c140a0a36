//! Transactions: a date, a description and line items whose real amounts
//! and virtual amounts each add up to zero.
use vstd::prelude::*;
use crate::amount::{digit_char, digit_char_of};
use crate::line_item::{line_text, LineItem, LineItemView};
use crate::merge::views;
use crate::text::{chars_of, string_of};

verus! {

/// A calendar day.
#[derive(Debug, Clone, Copy, PartialEq, Eq, Structural)]
pub struct Date {
    pub year: i32,
    pub month: u32,
    pub day: u32,
}

pub open spec fn is_leap(y: int) -> bool {
    (y % 4 == 0 && y % 100 != 0) || y % 400 == 0
}

pub open spec fn days_in_month(y: int, m: int) -> int {
    if m == 2 {
        if is_leap(y) {
            29
        } else {
            28
        }
    } else if m == 4 || m == 6 || m == 9 || m == 11 {
        30
    } else {
        31
    }
}

/// A day of the Gregorian calendar whose year has at most four digits.
pub open spec fn valid_date(y: int, m: int, d: int) -> bool {
    0 <= y <= 9999 && 1 <= m <= 12 && 1 <= d <= days_in_month(y, m)
}

/// `n < 100` in two digits.
pub open spec fn two_digits(n: int) -> Seq<char> {
    seq![digit_char(n / 10), digit_char(n % 10)]
}

/// A date as `YYYY-MM-DD`.
pub open spec fn date_text(d: Date) -> Seq<char> {
    let y = d.year as int;
    two_digits(y / 100) + two_digits(y % 100) + seq!['-'] + two_digits(
        d.month as int,
    ) + seq!['-'] + two_digits(d.day as int)
}

impl Date {
    pub open spec fn valid(&self) -> bool {
        valid_date(self.year as int, self.month as int, self.day as int)
    }

    /// The date, if it is a day of the calendar with a year in `0..=9999`.
    pub fn new(year: i32, month: u32, day: u32) -> (r: Option<Date>)
        ensures
            r is Some <==> valid_date(year as int, month as int, day as int),
            r matches Some(d) ==> d.year == year && d.month == month && d.day == day,
    {
        if year < 0 || year > 9999 || month < 1 || month > 12 || day < 1 {
            return None;
        }
        let leap = (year % 4 == 0 && year % 100 != 0) || year % 400 == 0;
        let days: u32 = if month == 2 {
            if leap {
                29
            } else {
                28
            }
        } else if month == 4 || month == 6 || month == 9 || month == 11 {
            30
        } else {
            31
        };
        if day > days {
            None
        } else {
            Some(Date { year, month, day })
        }
    }

    /// The date as `YYYY-MM-DD`.
    pub fn to_text(&self) -> (r: String)
        requires
            self.valid(),
        ensures
            r@ == date_text(*self),
    {
        let y = self.year as u64;
        let m = self.month as u64;
        let d = self.day as u64;
        let mut cs: Vec<char> = Vec::new();
        cs.push(digit_char_of(y / 1000));
        cs.push(digit_char_of(y / 100 % 10));
        cs.push(digit_char_of(y % 100 / 10));
        cs.push(digit_char_of(y % 10));
        cs.push('-');
        cs.push(digit_char_of(m / 10));
        cs.push(digit_char_of(m % 10));
        cs.push('-');
        cs.push(digit_char_of(d / 10));
        cs.push(digit_char_of(d % 10));
        assert(cs@ =~= date_text(*self));
        string_of(&cs)
    }
}

/// Sum of the values of the real items (`reality` true) or of the virtual ones.
pub open spec fn ledger_sum(s: Seq<LineItemView>, reality: bool) -> int
    decreases s.len(),
{
    if s.len() == 0 {
        0
    } else {
        ledger_sum(s.drop_last(), reality) + if s.last().is_real == reality {
            s.last().value
        } else {
            0
        }
    }
}

/// `v` if it fits in an `i64`, else the nearest end of that range.
pub open spec fn clamp_i64(v: int) -> int {
    if v > i64::MAX {
        i64::MAX as int
    } else if v < i64::MIN {
        i64::MIN as int
    } else {
        v
    }
}

#[derive(Debug, Clone, Copy, PartialEq, Eq, Structural)]
pub enum TransactionBuilderError {
    MissingDate,
    MissingDesc,
    NotEnoughLineItems,
    /// A ledger whose sum is not zero, with that sum (held to the range of
    /// an `i64`).
    DoesNotBalance(i64),
}

/// The exact sum of one ledger of `items`.
fn sum_of(items: &Vec<LineItem>, reality: bool) -> (r: i128)
    ensures
        r == ledger_sum(views(items@), reality),
{
    let ghost v = views(items@);
    let mut acc: i128 = 0;
    let mut i: usize = 0;
    while i < items.len()
        invariant
            i <= items.len(),
            v == views(items@),
            acc == ledger_sum(v.take(i as int), reality),
            -(i as int) * 0x8000_0000_0000_0000 <= acc <= (i as int) * 0x8000_0000_0000_0000,
        decreases items.len() - i,
    {
        assert(v.take(i + 1).drop_last() =~= v.take(i as int));
        if items[i].is_real == reality {
            acc = acc + items[i].value as i128;
        }
        i += 1;
        assert(-(i as int) * 0x8000_0000_0000_0000 <= acc <= (i as int) * 0x8000_0000_0000_0000)
            by (nonlinear_arith)
            requires
                -(i - 1) * 0x8000_0000_0000_0000 - 0x8000_0000_0000_0000 <= acc <= (i - 1)
                    * 0x8000_0000_0000_0000 + 0x8000_0000_0000_0000,
        ;
    }
    assert(v.take(i as int) =~= v);
    acc
}

fn clamp(v: i128) -> (r: i64)
    ensures
        r == clamp_i64(v as int),
{
    if v > i64::MAX as i128 {
        i64::MAX
    } else if v < i64::MIN as i128 {
        i64::MIN
    } else {
        v as i64
    }
}

/// A transaction under construction: nothing is checked until
/// [`TransactionBuilder::balance`].
#[derive(Debug)]
pub struct TransactionBuilder {
    date: Option<Date>,
    desc: Option<String>,
    line_items: Vec<LineItem>,
}

/// A transaction with a valid date, a description, at least two line items,
/// and real and virtual amounts that each add up to zero.
#[derive(Debug)]
pub struct Transaction {
    date: Date,
    desc: String,
    line_items: Vec<LineItem>,
}

impl Transaction {
    #[verifier::type_invariant]
    spec fn inv(&self) -> bool {
        self.is_balanced()
    }

    /// A valid date, at least two items, and each ledger sums to zero.
    pub open spec fn is_balanced(&self) -> bool {
        &&& self.date_spec().valid()
        &&& self.items_spec().len() >= 2
        &&& ledger_sum(self.items_spec(), true) == 0
        &&& ledger_sum(self.items_spec(), false) == 0
    }

    pub closed spec fn date_spec(&self) -> Date {
        self.date
    }

    pub closed spec fn desc_spec(&self) -> Seq<char> {
        self.desc@
    }

    pub closed spec fn items_spec(&self) -> Seq<LineItemView> {
        views(self.line_items@)
    }

    pub fn date(&self) -> (r: Date)
        ensures
            r == self.date_spec(),
    {
        self.date
    }

    pub fn desc(&self) -> (r: &str)
        ensures
            r@ == self.desc_spec(),
    {
        self.desc.as_str()
    }

    pub fn line_items(&self) -> (r: &Vec<LineItem>)
        ensures
            views(r@) == self.items_spec(),
    {
        &self.line_items
    }
}

impl TransactionBuilder {
    pub closed spec fn date_spec(&self) -> Option<Date> {
        self.date
    }

    /// A date is set, and it is a valid one.
    pub open spec fn has_date(&self) -> bool {
        self.date_spec() matches Some(d) && d.valid()
    }

    pub closed spec fn desc_spec(&self) -> Option<Seq<char>> {
        match self.desc {
            Some(d) => Some(d@),
            None => None,
        }
    }

    pub closed spec fn items_spec(&self) -> Seq<LineItemView> {
        views(self.line_items@)
    }

    pub fn new() -> (r: Self)
        ensures
            r.date_spec() is None,
            r.desc_spec() is None,
            r.items_spec() == Seq::<LineItemView>::empty(),
    {
        let r = TransactionBuilder { date: None, desc: None, line_items: Vec::new() };
        assert(r.items_spec() =~= Seq::<LineItemView>::empty());
        r
    }

    pub fn date(self, date: Date) -> (r: Self)
        ensures
            r.date_spec() == Some(date),
            r.desc_spec() == self.desc_spec(),
            r.items_spec() == self.items_spec(),
    {
        TransactionBuilder { date: Some(date), ..self }
    }

    pub fn desc(self, desc: &str) -> (r: Self)
        ensures
            r.date_spec() == self.date_spec(),
            r.desc_spec() == Some(desc@),
            r.items_spec() == self.items_spec(),
    {
        TransactionBuilder { desc: Some(String::from_str(desc)), ..self }
    }

    /// Replaces the line items.
    pub fn line_items(self, line_items: Vec<LineItem>) -> (r: Self)
        ensures
            r.date_spec() == self.date_spec(),
            r.desc_spec() == self.desc_spec(),
            r.items_spec() == views(line_items@),
    {
        TransactionBuilder { line_items, ..self }
    }

    pub fn add_line(self, line: LineItem) -> (r: Self)
        ensures
            r.date_spec() == self.date_spec(),
            r.desc_spec() == self.desc_spec(),
            r.items_spec() == self.items_spec().push(line@),
    {
        let mut lines = self.line_items;
        lines.push(line);
        let r = TransactionBuilder { line_items: lines, ..self };
        assert(r.items_spec() =~= self.items_spec().push(line@));
        r
    }

    /// The sum of the virtual items so far, held to the range of an `i64`.
    pub fn current_virt_balance(&self) -> (r: i64)
        ensures
            r == clamp_i64(ledger_sum(self.items_spec(), false)),
    {
        clamp(sum_of(&self.line_items, false))
    }

    /// The sum of the real items so far, held to the range of an `i64`.
    pub fn current_real_balance(&self) -> (r: i64)
        ensures
            r == clamp_i64(ledger_sum(self.items_spec(), true)),
    {
        clamp(sum_of(&self.line_items, true))
    }

    /// The transaction, if it is complete and balances. The checks run in
    /// this order and the first that fails is reported: date, description,
    /// at least two items, virtual sum zero, real sum zero.
    pub fn balance(self) -> (r: Result<Transaction, TransactionBuilderError>)
        ensures
            !self.has_date() ==> r == Err::<Transaction, _>(TransactionBuilderError::MissingDate),
            self.has_date() && self.desc_spec() is None ==> r == Err::<Transaction, _>(
                TransactionBuilderError::MissingDesc,
            ),
            self.has_date() && self.desc_spec() is Some && self.items_spec().len() < 2
                ==> r == Err::<Transaction, _>(TransactionBuilderError::NotEnoughLineItems),
            self.has_date() && self.desc_spec() is Some && self.items_spec().len() >= 2
                && ledger_sum(self.items_spec(), false) != 0 ==> r == Err::<Transaction, _>(
                TransactionBuilderError::DoesNotBalance(
                    clamp_i64(ledger_sum(self.items_spec(), false)) as i64,
                ),
            ),
            self.has_date() && self.desc_spec() is Some && self.items_spec().len() >= 2
                && ledger_sum(self.items_spec(), false) == 0 && ledger_sum(self.items_spec(), true)
                != 0 ==> r == Err::<Transaction, _>(
                TransactionBuilderError::DoesNotBalance(
                    clamp_i64(ledger_sum(self.items_spec(), true)) as i64,
                ),
            ),
            r matches Ok(t) ==> t.is_balanced(),
            r matches Ok(t) ==> (Some(t.date_spec()) == self.date_spec() && Some(t.desc_spec())
                == self.desc_spec() && t.items_spec() == self.items_spec()),
            self.has_date() && self.desc_spec() is Some
                && self.items_spec().len() >= 2 && ledger_sum(self.items_spec(), false) == 0
                && ledger_sum(self.items_spec(), true) == 0 ==> r is Ok,
    {
        let date = match self.date {
            Some(d) => d,
            None => {
                return Err(TransactionBuilderError::MissingDate);
            },
        };
        if Date::new(date.year, date.month, date.day).is_none() {
            return Err(TransactionBuilderError::MissingDate);
        }
        let desc = match self.desc {
            Some(d) => d,
            None => {
                return Err(TransactionBuilderError::MissingDesc);
            },
        };
        if self.line_items.len() < 2 {
            return Err(TransactionBuilderError::NotEnoughLineItems);
        }
        let virt_sum = sum_of(&self.line_items, false);
        if virt_sum != 0 {
            return Err(TransactionBuilderError::DoesNotBalance(clamp(virt_sum)));
        }
        let real_sum = sum_of(&self.line_items, true);
        if real_sum != 0 {
            return Err(TransactionBuilderError::DoesNotBalance(clamp(real_sum)));
        }
        Ok(Transaction { date, desc, line_items: self.line_items })
    }
}

/// The item lines of a transaction: each indented by four spaces, one
/// per line.
pub open spec fn lines_text(items: Seq<LineItemView>) -> Seq<char>
    decreases items.len(),
{
    let line = seq![' ', ' ', ' ', ' '] + line_text(items.last());
    if items.len() == 0 {
        Seq::empty()
    } else if items.len() == 1 {
        line
    } else {
        lines_text(items.drop_last()) + seq!['\n'] + line
    }
}

/// A transaction as text: `YYYY-MM-DD description`, then its item lines.
pub open spec fn transaction_text(date: Date, desc: Seq<char>, items: Seq<LineItemView>) -> Seq<char> {
    date_text(date) + seq![' '] + desc + seq!['\n'] + lines_text(items)
}

impl Transaction {
    /// The transaction as text, as it is appended to a ledger file.
    pub fn to_text(&self) -> (r: String)
        ensures
            r@ == transaction_text(self.date_spec(), self.desc_spec(), self.items_spec()),
    {
        proof {
            use_type_invariant(self);
        }
        let ghost items = views(self.line_items@);
        let mut cs = chars_of(self.date.to_text().as_str());
        cs.push(' ');
        let mut desc = chars_of(self.desc.as_str());
        cs.append(&mut desc);
        cs.push('\n');
        let ghost head = cs@;
        let mut i: usize = 0;
        assert(items.take(0) =~= Seq::<LineItemView>::empty());
        assert(cs@ =~= head + lines_text(items.take(0)));
        while i < self.line_items.len()
            invariant
                i <= self.line_items.len(),
                items == views(self.line_items@),
                cs@ == head + lines_text(items.take(i as int)),
            decreases self.line_items.len() - i,
        {
            if i > 0 {
                cs.push('\n');
            }
            cs.push(' ');
            cs.push(' ');
            cs.push(' ');
            cs.push(' ');
            let mut line = chars_of(self.line_items[i].to_text().as_str());
            cs.append(&mut line);
            assert(items.take(i + 1).drop_last() =~= items.take(i as int));
            assert(items.take(i + 1).last() == items[i as int]);
            i += 1;
            assert(cs@ =~= head + lines_text(items.take(i as int)));
        }
        assert(items.take(i as int) =~= items);
        string_of(&cs)
    }
}

} // verus!
