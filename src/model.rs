use vstd::prelude::*;

verus! {

/// Whether money comes in or goes out.
#[derive(Clone, Copy, Debug, PartialEq, Eq, Structural)]
pub enum EntryType {
    Income,
    Expense,
}

impl Default for EntryType {
    fn default() -> (r: Self)
        ensures
            r == EntryType::Income,
    {
        EntryType::Income
    }
}

/// How often a recurring entry falls due.
#[derive(Clone, Copy, Debug, PartialEq, Eq, Structural)]
pub enum RecurringType {
    Monthly,
    Yearly,
}

impl Default for RecurringType {
    fn default() -> (r: Self)
        ensures
            r == RecurringType::Monthly,
    {
        RecurringType::Monthly
    }
}

impl RecurringType {
    /// The short label of the rate: "M" for monthly, "Y" for yearly.
    pub fn label(&self) -> (r: &'static str)
        ensures
            r@ == (match self {
                RecurringType::Monthly => "M"@,
                RecurringType::Yearly => "Y"@,
            }),
    {
        match self {
            RecurringType::Monthly => "M",
            RecurringType::Yearly => "Y",
        }
    }
}

/// Seconds since the Unix epoch, as told by the system clock; negative when
/// the clock reads before 1970.
///
/// Relies on `chrono`'s `From<SystemTime> for DateTime<Utc>` and
/// `DateTime::timestamp`: the conversion takes clocks on either side of the
/// epoch (it fails only beyond chrono's range of about 262,000 years).
/// Nothing is promised of the value read.
#[verifier::external_body]
fn current_timestamp() -> (r: i64) {
    chrono::DateTime::<chrono::Utc>::from(std::time::SystemTime::now()).timestamp()
}

/// A one-off transaction.  `amount` is a magnitude in cents; its direction
/// comes from `kind`.  `date` is in seconds since the Unix epoch.
#[derive(Clone, Debug)]
pub struct BookEntry {
    pub name: String,
    pub kind: EntryType,
    pub category_token: String,
    pub amount: u32,
    pub date: i64,
}

impl BookEntry {
    /// A booking dated now.
    pub fn new(name: &str, kind: EntryType, category_token: &str, amount: u32) -> (r: Self)
        ensures
            r.name@ == name@,
            r.kind == kind,
            r.category_token@ == category_token@,
            r.amount == amount,
    {
        BookEntry {
            name: name.to_owned(),
            kind,
            category_token: category_token.to_owned(),
            amount,
            date: current_timestamp(),
        }
    }
}

/// An ongoing monthly or yearly obligation or income.  `amount` is the
/// magnitude in cents of one occurrence.
#[derive(Clone, Debug)]
pub struct RecurringEntry {
    pub name: String,
    pub kind: EntryType,
    pub category_token: String,
    pub amount: u32,
    pub rate_type: RecurringType,
}

impl RecurringEntry {
    pub fn new(
        name: &str,
        kind: EntryType,
        category_token: &str,
        amount: u32,
        rate_type: RecurringType,
    ) -> (r: Self)
        ensures
            r.name@ == name@,
            r.kind == kind,
            r.category_token@ == category_token@,
            r.amount == amount,
            r.rate_type == rate_type,
    {
        RecurringEntry {
            name: name.to_owned(),
            kind,
            category_token: category_token.to_owned(),
            amount,
            rate_type,
        }
    }
}

/// A category: a short token that entries refer to, and its display name.
#[derive(Clone, Debug)]
pub struct Category {
    pub token: String,
    pub name: String,
}

impl Category {
    pub fn new(name: &str, token: &str) -> (r: Self)
        ensures
            r.name@ == name@,
            r.token@ == token@,
    {
        Category { name: name.to_owned(), token: token.to_owned() }
    }
}

/// A key and value pair of the settings collection.
#[derive(Clone, Debug)]
pub struct Setting {
    pub key: String,
    pub value: String,
}

} // verus!
