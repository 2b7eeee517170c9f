use vstd::prelude::*;

use crate::calculation::{
    find_first_kind, lemma_len_times_max, lemma_recurring_sum_small, recurring_sum,
    signed_by_first, sorted_distinct_tokens, sorted_token_set, sum_recurring, max_amount,
};
use crate::category_map::{category_names, CategoryMap};
use crate::model::{BookEntry, Category, EntryType, RecurringEntry, RecurringType};
use crate::tokens::views_of;

verus! {

/// Label of the row that closes the category sums with the ad-hoc spend.
pub const BUDGET_EXPENSES_LABEL: &'static str = "Budget Expenses";

/// Twelfths of a cent in one currency unit: the scale of every figure that
/// is stated on a monthly basis.
pub const UNITS_PER_CURRENCY_UNIT: i128 = 1200;

/// Sum in cents of the amounts of the bookings of the given kind.
pub open spec fn booking_sum(b: Seq<BookEntry>, kind: EntryType) -> int
    decreases b.len(),
{
    if b.len() == 0 {
        0
    } else {
        booking_sum(b.drop_last(), kind) + if b.last().kind == kind {
            b.last().amount as int
        } else {
            0
        }
    }
}

/// Recurring income, in twelfths of a cent: every income entry counts with
/// its raw amount, whatever its rate.
pub open spec fn income_units(rec: Seq<RecurringEntry>) -> int {
    12 * recurring_sum(rec, Some(EntryType::Income), None, None)
}

/// Monthly-equivalent recurring expense, in twelfths of a cent: monthly
/// amounts count whole, yearly amounts one twelfth.
pub open spec fn recurring_expense_units(rec: Seq<RecurringEntry>) -> int {
    12 * recurring_sum(rec, Some(EntryType::Expense), Some(RecurringType::Monthly), None)
        + recurring_sum(rec, Some(EntryType::Expense), Some(RecurringType::Yearly), None)
}

/// Ad-hoc expense net of ad-hoc income, in twelfths of a cent.
pub open spec fn budget_spent_units(b: Seq<BookEntry>) -> int {
    12 * (booking_sum(b, EntryType::Expense) - booking_sum(b, EntryType::Income))
}

/// What is left of the income after recurring expense and ad-hoc spend, in
/// twelfths of a cent.
pub open spec fn budget_left_units(rec: Seq<RecurringEntry>, b: Seq<BookEntry>) -> int {
    income_units(rec) - (recurring_expense_units(rec) + budget_spent_units(b))
}

/// Monthly-equivalent sum, in twelfths of a cent, of the recurring entries
/// of one category, whatever their kind.
pub open spec fn category_units(rec: Seq<RecurringEntry>, token: Seq<char>) -> int {
    12 * recurring_sum(rec, None, Some(RecurringType::Monthly), Some(token)) + recurring_sum(
        rec,
        None,
        Some(RecurringType::Yearly),
        Some(token),
    )
}

/// The recurring entries of the given kind, in collection order.
pub open spec fn recurring_of_kind(s: Seq<RecurringEntry>, kind: EntryType) -> Seq<RecurringEntry>
    decreases s.len(),
{
    if s.len() == 0 {
        Seq::empty()
    } else if s.last().kind == kind {
        recurring_of_kind(s.drop_last(), kind).push(s.last())
    } else {
        recurring_of_kind(s.drop_last(), kind)
    }
}

/// The bookings of the given kind, in collection order.
pub open spec fn bookings_of_kind(s: Seq<BookEntry>, kind: EntryType) -> Seq<BookEntry>
    decreases s.len(),
{
    if s.len() == 0 {
        Seq::empty()
    } else if s.last().kind == kind {
        bookings_of_kind(s.drop_last(), kind).push(s.last())
    } else {
        bookings_of_kind(s.drop_last(), kind)
    }
}

/// One row of the category sums: a category token, or the closing label,
/// and a signed monthly-equivalent amount in twelfths of a cent.
#[derive(Clone, Debug)]
pub struct CategorySum {
    pub name: String,
    pub amount: i128,
}

/// The names of a list of category rows.
pub open spec fn row_names(rows: Seq<CategorySum>) -> Seq<Seq<char>> {
    rows.map_values(|c: CategorySum| c.name@)
}

/// `rows` are the category sums of `rec`: one row per distinct token, in
/// ascending order, each the monthly-equivalent sum of its category, negated
/// when the category's first entry is an expense; then one closing row that
/// holds the ad-hoc spend as an outflow.
pub open spec fn is_category_sums(
    rows: Seq<CategorySum>,
    rec: Seq<RecurringEntry>,
    budget_spent: int,
) -> bool {
    &&& rows.len() >= 1
    &&& sorted_token_set(row_names(rows.drop_last()), rec)
    &&& forall|i: int|
        0 <= i < rows.len() - 1 ==> (#[trigger] rows[i]).amount == signed_by_first(
            rec,
            rows[i].name@,
            category_units(rec, rows[i].name@),
        )
    &&& rows.last().name@ == BUDGET_EXPENSES_LABEL@
    &&& rows.last().amount == -budget_spent
}

/// The collections that the service computes from, as loaded together.
#[derive(Clone, Debug)]
pub struct Snapshot {
    pub recurring_bookings: Vec<RecurringEntry>,
    pub budget_bookings: Vec<BookEntry>,
    pub budget_bookings_archive: Vec<BookEntry>,
    pub categories: Vec<Category>,
}

/// The in-memory snapshot and the four headline figures computed from it.
/// The figures are in twelfths of a cent.
#[derive(Debug)]
pub struct DataService {
    total_income: i128,
    total_reccuring_expenses: i128,
    total_budget_spent: i128,
    total_budget_left: i128,
    recurring_bookings: Vec<RecurringEntry>,
    budget_bookings: Vec<BookEntry>,
    budget_bookings_archive: Vec<BookEntry>,
    categories: Vec<Category>,
}

impl Default for DataService {
    fn default() -> (r: Self)
        ensures
            r.recurring().len() == 0,
            r.bookings().len() == 0,
            r.archive().len() == 0,
            r.category_list().len() == 0,
            r.income_figure() == 0,
            r.recurring_expense_figure() == 0,
            r.budget_spent_figure() == 0,
            r.budget_left_figure() == 0,
    {
        DataService {
            total_income: 0,
            total_reccuring_expenses: 0,
            total_budget_spent: 0,
            total_budget_left: 0,
            recurring_bookings: Vec::new(),
            budget_bookings: Vec::new(),
            budget_bookings_archive: Vec::new(),
            categories: Vec::new(),
        }
    }
}

impl DataService {
    /// The ad-hoc spend can always be negated.
    #[verifier::type_invariant]
    spec fn inv(self) -> bool {
        self.total_budget_spent > i128::MIN
    }

    pub closed spec fn recurring(&self) -> Seq<RecurringEntry> {
        self.recurring_bookings@
    }

    pub closed spec fn bookings(&self) -> Seq<BookEntry> {
        self.budget_bookings@
    }

    pub closed spec fn archive(&self) -> Seq<BookEntry> {
        self.budget_bookings_archive@
    }

    pub closed spec fn category_list(&self) -> Seq<Category> {
        self.categories@
    }

    pub closed spec fn income_figure(&self) -> i128 {
        self.total_income
    }

    pub closed spec fn recurring_expense_figure(&self) -> i128 {
        self.total_reccuring_expenses
    }

    pub closed spec fn budget_spent_figure(&self) -> i128 {
        self.total_budget_spent
    }

    pub closed spec fn budget_left_figure(&self) -> i128 {
        self.total_budget_left
    }

    /// The same snapshot with the four figures recomputed from it.
    pub closed spec fn with_overview(self) -> DataService {
        DataService {
            total_income: income_units(self.recurring()) as i128,
            total_reccuring_expenses: recurring_expense_units(self.recurring()) as i128,
            total_budget_spent: budget_spent_units(self.bookings()) as i128,
            total_budget_left: budget_left_units(self.recurring(), self.bookings()) as i128,
            ..self
        }
    }

    /// A service over the snapshot, with its figures computed.
    pub fn new(snapshot: Snapshot) -> (r: Self)
        ensures
            r.recurring() == snapshot.recurring_bookings@,
            r.bookings() == snapshot.budget_bookings@,
            r.archive() == snapshot.budget_bookings_archive@,
            r.category_list() == snapshot.categories@,
            r.income_figure() == income_units(r.recurring()),
            r.recurring_expense_figure() == recurring_expense_units(r.recurring()),
            r.budget_spent_figure() == budget_spent_units(r.bookings()),
            r.budget_left_figure() == budget_left_units(r.recurring(), r.bookings()),
    {
        let mut data_service = DataService::default();
        data_service.load_data(snapshot);
        data_service.calculate();
        data_service
    }

    /// Replaces the whole snapshot at once.  The figures are left as they
    /// were until the next `calculate`.
    pub fn load_data(&mut self, snapshot: Snapshot)
        ensures
            final(self).recurring() == snapshot.recurring_bookings@,
            final(self).bookings() == snapshot.budget_bookings@,
            final(self).archive() == snapshot.budget_bookings_archive@,
            final(self).category_list() == snapshot.categories@,
            final(self).income_figure() == old(self).income_figure(),
            final(self).recurring_expense_figure() == old(self).recurring_expense_figure(),
            final(self).budget_spent_figure() == old(self).budget_spent_figure(),
            final(self).budget_left_figure() == old(self).budget_left_figure(),
    {
        proof {
            use_type_invariant(&*self);
        }
        self.recurring_bookings = snapshot.recurring_bookings;
        self.budget_bookings = snapshot.budget_bookings;
        self.budget_bookings_archive = snapshot.budget_bookings_archive;
        self.categories = snapshot.categories;
    }

    /// Recomputes the four figures from the snapshot; the snapshot itself is
    /// left as it is.
    pub fn calculate(&mut self)
        ensures
            *final(self) == old(self).with_overview(),
            final(self).recurring() == old(self).recurring(),
            final(self).bookings() == old(self).bookings(),
            final(self).archive() == old(self).archive(),
            final(self).category_list() == old(self).category_list(),
            final(self).income_figure() == income_units(old(self).recurring()),
            final(self).recurring_expense_figure() == recurring_expense_units(old(self).recurring()),
            final(self).budget_spent_figure() == budget_spent_units(old(self).bookings()),
            final(self).budget_left_figure() == budget_left_units(
                old(self).recurring(),
                old(self).bookings(),
            ),
    {
        let income = sum_recurring(&self.recurring_bookings, Some(EntryType::Income), None, None);
        let monthly = sum_recurring(
            &self.recurring_bookings,
            Some(EntryType::Expense),
            Some(RecurringType::Monthly),
            None,
        );
        let yearly = sum_recurring(
            &self.recurring_bookings,
            Some(EntryType::Expense),
            Some(RecurringType::Yearly),
            None,
        );
        let budget_spent = sum_bookings(&self.budget_bookings, EntryType::Expense);
        let budget_income = sum_bookings(&self.budget_bookings, EntryType::Income);
        proof {
            use_type_invariant(&*self);
            let rec = self.recurring_bookings@;
            assert(rec.len() == self.recurring_bookings.len());
            lemma_recurring_sum_small(rec, Some(EntryType::Income), None, None);
            lemma_recurring_sum_small(
                rec,
                Some(EntryType::Expense),
                Some(RecurringType::Monthly),
                None,
            );
            lemma_recurring_sum_small(
                rec,
                Some(EntryType::Expense),
                Some(RecurringType::Yearly),
                None,
            );
            assert(self.budget_bookings@.len() == self.budget_bookings.len());
            lemma_booking_sum_small(self.budget_bookings@, EntryType::Expense);
            lemma_booking_sum_small(self.budget_bookings@, EntryType::Income);
        }
        let income_u = 12 * (income as i128);
        let monthly_u = 12 * (monthly as i128);
        let yearly_u = yearly as i128;
        let spent_u = 12 * (budget_spent as i128 - budget_income as i128);
        self.total_income = income_u;
        self.total_reccuring_expenses = monthly_u + yearly_u;
        self.total_budget_left = income_u - (monthly_u + yearly_u + spent_u);
        self.total_budget_spent = spent_u;
    }

    /// For each distinct category token of the recurring entries, in
    /// ascending order, its monthly-equivalent sum, negated when the first
    /// entry of the category is an expense; then the closing row with the
    /// ad-hoc spend as an outflow.
    pub fn calculate_reccuring_categorie_sums(&self) -> (r: Vec<CategorySum>)
        ensures
            is_category_sums(r@, self.recurring(), self.budget_spent_figure() as int),
    {
        proof {
            use_type_invariant(self);
        }
        let rec = &self.recurring_bookings;
        let categories = sorted_distinct_tokens(rec);
        let mut result: Vec<CategorySum> = Vec::new();
        let mut i: usize = 0;
        while i < categories.len()
            invariant
                i <= categories.len(),
                sorted_token_set(views_of(categories@), rec@),
                row_names(result@) == views_of(categories@).take(i as int),
                forall|k: int|
                    0 <= k < result.len() ==> (#[trigger] result@[k]).amount == signed_by_first(
                        rec@,
                        result@[k].name@,
                        category_units(rec@, result@[k].name@),
                    ),
            decreases categories.len() - i,
        {
            let cat = categories[i].clone();
            let monthly_sum = sum_recurring(rec, None, Some(RecurringType::Monthly), Some(&cat));
            let yearly_sum = sum_recurring(rec, None, Some(RecurringType::Yearly), Some(&cat));
            proof {
                assert(rec@.len() == rec.len());
                lemma_recurring_sum_small(rec@, None, Some(RecurringType::Monthly), Some(cat@));
                lemma_recurring_sum_small(rec@, None, Some(RecurringType::Yearly), Some(cat@));
            }
            let mut sum = 12 * (monthly_sum as i128) + yearly_sum as i128;
            if find_first_kind(rec, &cat) == Some(EntryType::Expense) {
                sum = -sum;
            }
            let ghost before = result@;
            assert(cat@ == categories@[i as int]@);
            result.push(CategorySum { name: cat, amount: sum });
            assert(row_names(result@) =~= row_names(before).push(categories@[i as int]@));
            assert(views_of(categories@).take(i + 1) =~= views_of(categories@).take(
                i as int,
            ).push(categories@[i as int]@));
            i = i + 1;
        }
        assert(views_of(categories@).take(i as int) =~= views_of(categories@));
        let ghost rows = result@;
        result.push(
            CategorySum {
                name: BUDGET_EXPENSES_LABEL.to_owned(),
                amount: -self.total_budget_spent,
            },
        );
        assert(result@.drop_last() =~= rows);
        result
    }

    /// The recurring entries of the given kind, in collection order.
    pub fn get_recurring(&self, kind: EntryType) -> (r: Vec<&RecurringEntry>)
        ensures
            r.len() == recurring_of_kind(self.recurring(), kind).len(),
            forall|i: int|
                0 <= i < r.len() ==> *(#[trigger] r@[i]) == recurring_of_kind(
                    self.recurring(),
                    kind,
                )[i],
    {
        let mut r: Vec<&RecurringEntry> = Vec::new();
        let mut i: usize = 0;
        while i < self.recurring_bookings.len()
            invariant
                i <= self.recurring_bookings.len(),
                r.len() == recurring_of_kind(self.recurring_bookings@.take(i as int), kind).len(),
                forall|k: int|
                    0 <= k < r.len() ==> *(#[trigger] r@[k]) == recurring_of_kind(
                        self.recurring_bookings@.take(i as int),
                        kind,
                    )[k],
            decreases self.recurring_bookings.len() - i,
        {
            assert(self.recurring_bookings@.take(i + 1).drop_last() =~= self.recurring_bookings@.take(
                i as int,
            ));
            let e = &self.recurring_bookings[i];
            if e.kind == kind {
                r.push(e);
            }
            i = i + 1;
        }
        assert(self.recurring_bookings@.take(i as int) =~= self.recurring_bookings@);
        r
    }

    /// All active bookings.
    pub fn get_all_bookings(&self) -> (r: &Vec<BookEntry>)
        ensures
            r@ == self.bookings(),
    {
        &self.budget_bookings
    }

    /// The active bookings of the given kind, in collection order.
    pub fn get_bookings(&self, kind: EntryType) -> (r: Vec<&BookEntry>)
        ensures
            r.len() == bookings_of_kind(self.bookings(), kind).len(),
            forall|i: int|
                0 <= i < r.len() ==> *(#[trigger] r@[i]) == bookings_of_kind(
                    self.bookings(),
                    kind,
                )[i],
    {
        let mut r: Vec<&BookEntry> = Vec::new();
        let mut i: usize = 0;
        while i < self.budget_bookings.len()
            invariant
                i <= self.budget_bookings.len(),
                r.len() == bookings_of_kind(self.budget_bookings@.take(i as int), kind).len(),
                forall|k: int|
                    0 <= k < r.len() ==> *(#[trigger] r@[k]) == bookings_of_kind(
                        self.budget_bookings@.take(i as int),
                        kind,
                    )[k],
            decreases self.budget_bookings.len() - i,
        {
            assert(self.budget_bookings@.take(i + 1).drop_last() =~= self.budget_bookings@.take(
                i as int,
            ));
            let e = &self.budget_bookings[i];
            if e.kind == kind {
                r.push(e);
            }
            i = i + 1;
        }
        assert(self.budget_bookings@.take(i as int) =~= self.budget_bookings@);
        r
    }

    /// All archived bookings.
    pub fn get_bookings_archive(&self) -> (r: &Vec<BookEntry>)
        ensures
            r@ == self.archive(),
    {
        &self.budget_bookings_archive
    }

    /// All categories, in collection order.
    pub fn get_categories(&self) -> (r: &Vec<Category>)
        ensures
            r@ == self.category_list(),
    {
        &self.categories
    }

    /// Display names by category token; of two categories with one token the
    /// later one wins.
    pub fn get_categorie_map(&self) -> (r: CategoryMap)
        ensures
            r@ == category_names(self.category_list()),
    {
        let mut map = CategoryMap::new();
        let mut i: usize = 0;
        while i < self.categories.len()
            invariant
                i <= self.categories@.len(),
                map@ == category_names(self.categories@.take(i as int)),
            decreases self.categories@.len() - i,
        {
            assert(self.categories@.take(i + 1).drop_last() =~= self.categories@.take(i as int));
            let c = &self.categories[i];
            map.insert(c.token.clone(), c.name.clone());
            i = i + 1;
        }
        assert(self.categories@.take(i as int) =~= self.categories@);
        map
    }

    pub fn total_income(&self) -> (r: i128)
        ensures
            r == self.income_figure(),
    {
        self.total_income
    }

    pub fn total_reccuring_expenses(&self) -> (r: i128)
        ensures
            r == self.recurring_expense_figure(),
    {
        self.total_reccuring_expenses
    }

    pub fn total_budget_spent(&self) -> (r: i128)
        ensures
            r == self.budget_spent_figure(),
    {
        self.total_budget_spent
    }

    pub fn total_budget_left(&self) -> (r: i128)
        ensures
            r == self.budget_left_figure(),
    {
        self.total_budget_left
    }
}

/// Computing the figures is a function of the snapshot alone: recomputing
/// them on an unchanged snapshot gives back the same service, so a second
/// `calculate` changes nothing.
pub proof fn lemma_calculate_idempotent(ds: DataService)
    ensures
        ds.with_overview().with_overview() == ds.with_overview(),
{
}

pub proof fn lemma_booking_sum_bounds(b: Seq<BookEntry>, kind: EntryType)
    ensures
        0 <= booking_sum(b, kind) <= b.len() * max_amount(),
    decreases b.len(),
{
    if b.len() > 0 {
        lemma_booking_sum_bounds(b.drop_last(), kind);
    }
}

pub proof fn lemma_booking_sum_small(b: Seq<BookEntry>, kind: EntryType)
    requires
        b.len() <= usize::MAX,
    ensures
        0 <= booking_sum(b, kind) < 0x1_0000_0000_0000_0000_0000_0000,
{
    lemma_booking_sum_bounds(b, kind);
    lemma_len_times_max(b.len() as int);
}

/// Sums the amounts, in cents, of the bookings of the given kind.
pub fn sum_bookings(items: &Vec<BookEntry>, kind: EntryType) -> (r: u128)
    ensures
        r == booking_sum(items@, kind),
{
    let mut acc: u128 = 0;
    let mut i: usize = 0;
    while i < items.len()
        invariant
            i <= items.len(),
            acc == booking_sum(items@.take(i as int), kind),
        decreases items.len() - i,
    {
        proof {
            assert(items@.take(i + 1).drop_last() =~= items@.take(i as int));
            lemma_booking_sum_bounds(items@.take(i as int), kind);
        }
        if items[i].kind == kind {
            acc = acc + items[i].amount as u128;
        }
        i = i + 1;
    }
    assert(items@.take(i as int) =~= items@);
    acc
}

} // verus!
