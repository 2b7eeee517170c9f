use bum::dataservice::{DataService, Snapshot, BUDGET_EXPENSES_LABEL, UNITS_PER_CURRENCY_UNIT};
use bum::EntryType::{Expense, Income};
use bum::RecurringType::{Monthly, Yearly};
use bum::{calculate_total, BookEntry, Category, RecurringEntry};

/// An amount written in currency units, as cents.
fn cents(x: f64) -> u32 {
    (x * 100.0).round() as u32
}

/// A monthly-basis figure in currency units.
fn money(units: i128) -> f64 {
    units as f64 / UNITS_PER_CURRENCY_UNIT as f64
}

fn service(recurring: Vec<RecurringEntry>, bookings: Vec<BookEntry>) -> DataService {
    let mut ds = DataService::default();
    ds.load_data(Snapshot {
        recurring_bookings: recurring,
        budget_bookings: bookings,
        budget_bookings_archive: vec![],
        categories: vec![],
    });
    ds
}

#[test]
fn test_simple_calculation() {
    let budget_bookings = vec![
        BookEntry::new("T", Expense, "tt", cents(2.00)),
        BookEntry::new("T", Expense, "tt", cents(1.00)),
        BookEntry::new("T", Expense, "tt", cents(1.00)),
        BookEntry::new("T", Expense, "tt", cents(3.00)),
        BookEntry::new("T", Income, "tt", cents(3.00)),
    ];
    let recurring_bookings = vec![
        RecurringEntry::new("Ti", Expense, "tt", cents(1.00), Monthly),
        RecurringEntry::new("Ti", Expense, "tt", cents(12.00), Yearly),
        RecurringEntry::new("Ti", Income, "tt", cents(10.00), Monthly),
    ];
    let mut ds = service(recurring_bookings, budget_bookings);
    ds.calculate();

    assert_eq!(money(ds.total_budget_left()), 4.00);
    assert_eq!(money(ds.total_income()), 10.00);
    assert_eq!(money(ds.total_reccuring_expenses()), 2.00);
    assert_eq!(money(ds.total_budget_spent()), 4.00);
}

#[test]
fn test_complex_calculation() {
    let budget_bookings = vec![
        BookEntry::new("E1", Expense, "tt", cents(3.00)),
        BookEntry::new("E2", Expense, "tt", cents(33.12)),
        BookEntry::new("E3", Expense, "tt", cents(13.49)),
        BookEntry::new("E4", Expense, "tt", cents(32.00)),
        BookEntry::new("E5", Expense, "tt", cents(22.22)),
        BookEntry::new("E6", Expense, "tt", cents(750.00)),
        BookEntry::new("E7", Expense, "tt", cents(123.01)),
        BookEntry::new("I1", Income, "tt", cents(10.00)),
        BookEntry::new("I2", Income, "tt", cents(33.33)),
        BookEntry::new("I3", Income, "tt", cents(5.49)),
    ];
    let recurring_bookings = vec![
        RecurringEntry::new("Income", Income, "tt", cents(4000.00), Monthly),
        RecurringEntry::new("M1", Expense, "tt", cents(1.00), Monthly),
        RecurringEntry::new("M2", Expense, "tt", cents(2.00), Monthly),
        RecurringEntry::new("M3", Expense, "tt", cents(22.50), Monthly),
        RecurringEntry::new("M4", Expense, "tt", cents(11.00), Monthly),
        RecurringEntry::new("M5", Expense, "tt", cents(21.85), Monthly),
        RecurringEntry::new("M6", Expense, "tt", cents(7.01), Monthly),
        RecurringEntry::new("M7", Expense, "tt", cents(41.00), Monthly),
        RecurringEntry::new("M8", Expense, "tt", cents(600.00), Monthly),
        RecurringEntry::new("M9", Expense, "tt", cents(1001.11), Monthly),
        RecurringEntry::new("Y1", Expense, "tt", cents(12.00), Yearly),
        RecurringEntry::new("Y2", Expense, "tt", cents(389.00), Yearly),
        RecurringEntry::new("Y3", Expense, "tt", cents(72.22), Yearly),
    ];
    let mut ds = service(recurring_bookings, budget_bookings);
    ds.calculate();

    assert_eq!(money(ds.total_budget_left()), 1325.075);
    assert_eq!(money(ds.total_income()), 4000.00);
    assert_eq!(money(ds.total_reccuring_expenses()), 1746.905);
    assert_eq!(money(ds.total_budget_spent()), 928.02);
}

#[test]
fn test_categories() {
    let categories = vec![
        Category::new("Cat A", "a"),
        Category::new("b", "b"),
        Category::new("c", "c"),
        Category::new("Cat D", "dd"),
        Category::new("e", "e"),
        Category::new("f", "ff"),
    ];
    let mut ds = DataService::default();
    ds.load_data(Snapshot {
        recurring_bookings: vec![],
        budget_bookings: vec![],
        budget_bookings_archive: vec![],
        categories,
    });
    let map = ds.get_categorie_map();

    assert_eq!(map.get("a").unwrap(), "Cat A");
    assert_eq!(map.get("dd").unwrap(), "Cat D");
    assert_eq!(map.get("ff").unwrap(), "f");
    assert_eq!(map.get("g"), None);
}

#[test]
fn later_category_with_same_token_wins() {
    let mut ds = DataService::default();
    ds.load_data(Snapshot {
        recurring_bookings: vec![],
        budget_bookings: vec![],
        budget_bookings_archive: vec![],
        categories: vec![Category::new("Old", "x"), Category::new("New", "x")],
    });
    assert_eq!(ds.get_categorie_map().get("x").unwrap(), "New");
}

#[test]
fn exact_figures_in_twelfths_of_a_cent() {
    let recurring = vec![
        RecurringEntry::new("rent", Expense, "home", 10000, Monthly),
        RecurringEntry::new("tax", Expense, "car", 38900, Yearly),
        RecurringEntry::new("pay", Income, "job", 250000, Yearly),
    ];
    let bookings = vec![
        BookEntry::new("food", Expense, "f", 1234),
        BookEntry::new("refund", Income, "f", 34),
    ];
    let mut ds = service(recurring, bookings);
    ds.calculate();
    // recurring income is not normalised by rate
    assert_eq!(ds.total_income(), 12 * 250000);
    assert_eq!(ds.total_reccuring_expenses(), 12 * 10000 + 38900);
    assert_eq!(ds.total_budget_spent(), 12 * 1200);
    assert_eq!(ds.total_budget_left(), 12 * 250000 - (12 * 10000 + 38900 + 12 * 1200));
}

#[test]
fn calculate_twice_gives_same_figures() {
    let recurring = vec![
        RecurringEntry::new("a", Expense, "x", 505, Monthly),
        RecurringEntry::new("b", Expense, "y", 1201, Yearly),
        RecurringEntry::new("c", Income, "z", 9999, Monthly),
    ];
    let bookings = vec![BookEntry::new("d", Expense, "x", 77)];
    let mut ds = service(recurring, bookings);
    ds.calculate();
    let first = (
        ds.total_income(),
        ds.total_reccuring_expenses(),
        ds.total_budget_spent(),
        ds.total_budget_left(),
    );
    ds.calculate();
    let second = (
        ds.total_income(),
        ds.total_reccuring_expenses(),
        ds.total_budget_spent(),
        ds.total_budget_left(),
    );
    assert_eq!(first, second);
}

#[test]
fn load_data_keeps_figures_until_calculate() {
    let mut ds = service(vec![RecurringEntry::new("a", Income, "x", 100, Monthly)], vec![]);
    ds.calculate();
    assert_eq!(ds.total_income(), 1200);
    ds.load_data(Snapshot {
        recurring_bookings: vec![],
        budget_bookings: vec![],
        budget_bookings_archive: vec![BookEntry::new("old", Expense, "x", 5)],
        categories: vec![],
    });
    assert_eq!(ds.total_income(), 1200);
    assert_eq!(ds.get_bookings_archive().len(), 1);
    ds.calculate();
    assert_eq!(ds.total_income(), 0);
}

#[test]
fn new_computes_the_figures() {
    let ds = DataService::new(Snapshot {
        recurring_bookings: vec![RecurringEntry::new("a", Expense, "x", 1200, Yearly)],
        budget_bookings: vec![BookEntry::new("b", Expense, "x", 300)],
        budget_bookings_archive: vec![],
        categories: vec![],
    });
    assert_eq!(ds.total_reccuring_expenses(), 1200);
    assert_eq!(ds.total_budget_spent(), 3600);
    assert_eq!(ds.total_budget_left(), -4800);
}

#[test]
fn category_sums_are_signed_sorted_and_closed() {
    let recurring = vec![
        RecurringEntry::new("tax", Expense, "car", 1200, Yearly),
        RecurringEntry::new("pay", Income, "job", 500000, Monthly),
        RecurringEntry::new("fuel", Expense, "car", 8000, Monthly),
        RecurringEntry::new("rent", Expense, "appartment", 90000, Monthly),
    ];
    let bookings = vec![BookEntry::new("food", Expense, "f", 2500)];
    let mut ds = service(recurring, bookings);
    ds.calculate();
    let rows = ds.calculate_reccuring_categorie_sums();
    let names: Vec<&str> = rows.iter().map(|r| r.name.as_str()).collect();
    assert_eq!(names, vec!["appartment", "car", "job", BUDGET_EXPENSES_LABEL]);
    assert_eq!(rows[0].amount, -12 * 90000);
    // the yearly 12.00 counts as 1.00 a month
    assert_eq!(rows[1].amount, -(12 * 8000 + 1200));
    assert_eq!(money(rows[1].amount), -81.00);
    assert_eq!(rows[2].amount, 12 * 500000);
    assert_eq!(rows[3].amount, -12 * 2500);
    assert_eq!(BUDGET_EXPENSES_LABEL, "Budget Expenses");
}

#[test]
fn category_sign_follows_first_entry() {
    let recurring = vec![
        RecurringEntry::new("gift", Income, "mixed", 1000, Monthly),
        RecurringEntry::new("fee", Expense, "mixed", 300, Monthly),
    ];
    let mut ds = service(recurring, vec![]);
    ds.calculate();
    let rows = ds.calculate_reccuring_categorie_sums();
    assert_eq!(rows.len(), 2);
    assert_eq!(rows[0].amount, 12 * 1300);
}

#[test]
fn category_groups_cover_every_entry_once() {
    let recurring = vec![
        RecurringEntry::new("a", Expense, "b", 100, Monthly),
        RecurringEntry::new("b", Expense, "a", 1200, Yearly),
        RecurringEntry::new("c", Expense, "b", 50, Yearly),
        RecurringEntry::new("d", Expense, "c", 7, Monthly),
        RecurringEntry::new("e", Expense, "a", 3, Monthly),
    ];
    let mut ds = service(recurring, vec![]);
    ds.calculate();
    let rows = ds.calculate_reccuring_categorie_sums();
    assert_eq!(rows.len(), 4);
    let total: i128 = rows[..rows.len() - 1].iter().map(|r| -r.amount).sum();
    assert_eq!(total, ds.total_reccuring_expenses());
}

#[test]
fn empty_recurring_still_gives_closing_row() {
    let bookings = vec![
        BookEntry::new("x", Expense, "t", 1000),
        BookEntry::new("y", Income, "t", 250),
    ];
    let mut ds = service(vec![], bookings);
    ds.calculate();
    let rows = ds.calculate_reccuring_categorie_sums();
    assert_eq!(rows.len(), 1);
    assert_eq!(rows[0].name, "Budget Expenses");
    assert_eq!(rows[0].amount, -ds.total_budget_spent());
    assert_eq!(money(rows[0].amount), -7.50);
}

#[test]
fn empty_snapshot_gives_zero_figures() {
    let mut ds = DataService::default();
    ds.calculate();
    assert_eq!(ds.total_income(), 0);
    assert_eq!(ds.total_budget_left(), 0);
    let rows = ds.calculate_reccuring_categorie_sums();
    assert_eq!(rows.len(), 1);
    assert_eq!(rows[0].amount, 0);
}

#[test]
fn filtered_accessors_keep_order() {
    let recurring = vec![
        RecurringEntry::new("a", Expense, "x", 1, Monthly),
        RecurringEntry::new("b", Income, "x", 2, Monthly),
        RecurringEntry::new("c", Expense, "x", 3, Yearly),
    ];
    let bookings = vec![
        BookEntry::new("d", Income, "x", 4),
        BookEntry::new("e", Expense, "x", 5),
        BookEntry::new("f", Income, "x", 6),
    ];
    let ds = service(recurring, bookings);
    let exp: Vec<&str> = ds.get_recurring(Expense).iter().map(|e| e.name.as_str()).collect();
    assert_eq!(exp, vec!["a", "c"]);
    let inc: Vec<&str> = ds.get_bookings(Income).iter().map(|e| e.name.as_str()).collect();
    assert_eq!(inc, vec!["d", "f"]);
    assert_eq!(ds.get_all_bookings().len(), 3);
    assert!(ds.get_bookings_archive().is_empty());
}

#[test]
fn calculate_total_sums_raw_amounts_per_category() {
    let items = vec![
        RecurringEntry::new("a", Expense, "zz", 100, Monthly),
        RecurringEntry::new("b", Income, "aa", 250, Monthly),
        RecurringEntry::new("c", Expense, "zz", 1200, Yearly),
    ];
    let rows = calculate_total(&items);
    assert_eq!(rows.len(), 2);
    assert_eq!(rows[0].name, "aa");
    assert_eq!(rows[0].amount, 250);
    assert_eq!(rows[1].name, "zz");
    assert_eq!(rows[1].amount, -1300);
    assert!(calculate_total(&vec![]).is_empty());
}

#[test]
fn yearly_entry_moves_only_its_category_row() {
    let recurring = vec![
        RecurringEntry::new("fuel", Expense, "car", 8000, Monthly),
        RecurringEntry::new("pay", Income, "job", 500000, Monthly),
    ];
    let mut before = service(recurring.clone(), vec![]);
    before.calculate();
    let rows = before.calculate_reccuring_categorie_sums();

    let mut more = recurring;
    more.push(RecurringEntry::new("tax", Expense, "car", cents(389.00), Yearly));
    more.push(RecurringEntry::new("bonus", Income, "job", cents(12.00), Yearly));
    let mut after = service(more, vec![]);
    after.calculate();
    let rows2 = after.calculate_reccuring_categorie_sums();

    assert_eq!(rows2.len(), rows.len());
    assert_eq!(rows2[0].name, "car");
    assert_eq!(money(rows2[0].amount - rows[0].amount), -389.00 / 12.0);
    assert_eq!(rows2[1].name, "job");
    assert_eq!(money(rows2[1].amount - rows[1].amount), 1.00);
    assert_eq!(rows2[2].amount, rows[2].amount);
}
