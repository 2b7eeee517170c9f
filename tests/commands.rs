use bum::amount::parse_amount;
use bum::commands::split_spaces_exec;
use bum::settings::get_setting_currency_symbol;
use bum::{handle_command, BookEntry, Command, CommandError, EntryType, RecurringType, Setting};

#[test]
fn parse_amount_reads_cents() {
    assert_eq!(parse_amount("33.12"), Some(3312));
    assert_eq!(parse_amount("5"), Some(500));
    assert_eq!(parse_amount("5."), Some(500));
    assert_eq!(parse_amount(".5"), Some(50));
    assert_eq!(parse_amount("0.05"), Some(5));
    assert_eq!(parse_amount("1001.1"), Some(100110));
    assert_eq!(parse_amount("42949672.95"), Some(u32::MAX));
}

#[test]
fn parse_amount_rejects_other_text() {
    assert_eq!(parse_amount(""), None);
    assert_eq!(parse_amount("."), None);
    assert_eq!(parse_amount("-1"), None);
    assert_eq!(parse_amount("1.234"), None);
    assert_eq!(parse_amount("1e3"), None);
    assert_eq!(parse_amount("1.2.3"), None);
    assert_eq!(parse_amount("abc"), None);
    assert_eq!(parse_amount("42949672.96"), None);
    assert_eq!(parse_amount("99999999999999999999999"), None);
}

#[test]
fn split_keeps_empty_pieces() {
    assert_eq!(split_spaces_exec("ae rent  x"), vec!["ae", "rent", "", "x"]);
    assert_eq!(split_spaces_exec(""), vec![""]);
    assert_eq!(split_spaces_exec("a "), vec!["a", ""]);
}

#[test]
fn add_expense_command() {
    match handle_command("ae lunch food 12.50") {
        Ok(Command::AddExpense(b)) => {
            assert_eq!(b.name, "lunch");
            assert_eq!(b.kind, EntryType::Expense);
            assert_eq!(b.category_token, "food");
            assert_eq!(b.amount, 1250);
        }
        other => panic!("unexpected {:?}", other),
    }
}

#[test]
fn add_recurring_commands() {
    match handle_command("ari salary job 4000") {
        Ok(Command::AddRecurring(e)) => {
            assert_eq!(e.kind, EntryType::Income);
            assert_eq!(e.rate_type, RecurringType::Monthly);
            assert_eq!(e.amount, 400000);
            assert_eq!(e.name, "salary");
            assert_eq!(e.category_token, "job");
        }
        other => panic!("unexpected {:?}", other),
    }
    match handle_command("are insurance car 389 yearly") {
        Ok(Command::AddRecurring(e)) => {
            assert_eq!(e.kind, EntryType::Expense);
            assert_eq!(e.rate_type, RecurringType::Yearly);
            assert_eq!(e.amount, 38900);
        }
        other => panic!("unexpected {:?}", other),
    }
    match handle_command("are insurance car 389 monthly") {
        Ok(Command::AddRecurring(e)) => assert_eq!(e.rate_type, RecurringType::Monthly),
        other => panic!("unexpected {:?}", other),
    }
}

#[test]
fn add_category_command() {
    match handle_command("ac Groceries gr") {
        Ok(Command::AddCategory(c)) => {
            assert_eq!(c.name, "Groceries");
            assert_eq!(c.token, "gr");
        }
        other => panic!("unexpected {:?}", other),
    }
}

#[test]
fn invalid_commands() {
    assert_eq!(handle_command("xx a b 1").err(), Some(CommandError::InvalidCommand));
    assert_eq!(handle_command("").err(), Some(CommandError::InvalidCommand));
    assert_eq!(handle_command("ae lunch food").err(), Some(CommandError::InvalidCommand));
    assert_eq!(handle_command("ac Groceries").err(), Some(CommandError::InvalidCommand));
    assert_eq!(handle_command(" ae lunch food 1").err(), Some(CommandError::InvalidCommand));
}

#[test]
fn unparsable_amount() {
    assert_eq!(handle_command("ae lunch food ten").err(), Some(CommandError::ParseError));
    assert_eq!(handle_command("are x y -3 yearly").err(), Some(CommandError::ParseError));
}

#[test]
fn booking_is_dated_now() {
    let b = BookEntry::new("n", EntryType::Income, "t", 1);
    assert!(b.date > 1_600_000_000);
}

#[test]
fn currency_symbol_joins_matching_settings() {
    let settings = vec![
        Setting { key: "Theme".to_string(), value: "dark".to_string() },
        Setting { key: "Currency_Symbol".to_string(), value: "€".to_string() },
    ];
    assert_eq!(get_setting_currency_symbol(&settings), "€");
    assert_eq!(get_setting_currency_symbol(&vec![]), "");
}
