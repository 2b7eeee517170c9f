use bum::ui::INVALID_COMMAND_MESSAGE;
use bum::{get_command_help_text, App, Command, DataService, Key, KeyAction, UIMode, UserInterface};

#[test]
fn app_tabs_cycle() {
    let mut app = App::new();
    assert_eq!(app.titles, vec!["Planning", "Budget", "Settings"]);
    assert_eq!(app.index, 0);
    app.previous();
    assert_eq!(app.index, 2);
    app.next();
    assert_eq!(app.index, 0);
    app.next();
    app.next();
    assert_eq!(app.index, 2);
    app.previous();
    assert_eq!(app.index, 1);
    assert_eq!(app.mode, UIMode::Normal);
}

#[test]
fn help_text_by_prefix() {
    assert_eq!(
        get_command_help_text("are x"),
        "Add-Recurring-Expense Syntax: <Name> <Category-Token> <Amount> (<Yearly>)"
    );
    assert_eq!(
        get_command_help_text("ari"),
        "Add-Recurring-Income Syntax: <Name> <Category-Token> <Amount>"
    );
    assert_eq!(get_command_help_text("ae"), "Add-Expense Syntax: <Name> <Category-Token> <Amount>");
    assert_eq!(get_command_help_text("ac x"), "Add-Category Syntax: <Name> <Category-Token>");
    assert_eq!(
        get_command_help_text("a"),
        "Commands: add-expense | add-recurring-expense | add-recurring-income | add-categorie"
    );
}

fn type_text(ui: &mut UserInterface, text: &str) {
    for c in text.chars() {
        assert!(matches!(ui.handle_key(Key::Char(c)), KeyAction::Continue));
    }
}

#[test]
fn normal_mode_keys() {
    let mut ui = UserInterface::new(DataService::default());
    ui.handle_key(Key::Right);
    assert_eq!(ui.index, 1);
    ui.handle_key(Key::Char('s'));
    assert_eq!(ui.index, 2);
    ui.handle_key(Key::Right);
    assert_eq!(ui.index, 0);
    ui.handle_key(Key::Left);
    assert_eq!(ui.index, 2);
    ui.handle_key(Key::Char('p'));
    assert_eq!(ui.index, 0);
    assert!(matches!(ui.handle_key(Key::Char('q')), KeyAction::Quit));
}

#[test]
fn typed_command_is_handed_back() {
    let mut ui = UserInterface::new(DataService::default());
    ui.handle_key(Key::Char(':'));
    assert_eq!(ui.mode, UIMode::Command);
    type_text(&mut ui, "ac Foodx");
    ui.handle_key(Key::Backspace);
    type_text(&mut ui, " fd");
    assert_eq!(ui.command, "ac Food fd");
    match ui.handle_key(Key::Enter) {
        KeyAction::Apply(Command::AddCategory(c)) => {
            assert_eq!(c.name, "Food");
            assert_eq!(c.token, "fd");
        }
        _ => panic!("expected a category"),
    }
    assert_eq!(ui.mode, UIMode::Normal);
    assert_eq!(ui.command, "");
}

#[test]
fn rejected_command_shows_error() {
    let mut ui = UserInterface::new(DataService::default());
    ui.handle_key(Key::Char('c'));
    type_text(&mut ui, "zz");
    assert!(matches!(ui.handle_key(Key::Enter), KeyAction::Continue));
    assert_eq!(ui.error_message, INVALID_COMMAND_MESSAGE);
    assert_eq!(ui.error_message, "Invalid Command");
    ui.handle_key(Key::Char(':'));
    assert_eq!(ui.error_message, "");
    type_text(&mut ui, "x");
    ui.handle_key(Key::Esc);
    assert_eq!(ui.mode, UIMode::Normal);
    assert_eq!(ui.command, "");
}

#[test]
fn backspace_on_empty_command() {
    let mut ui = UserInterface::new(DataService::default());
    ui.handle_key(Key::Char(':'));
    ui.handle_key(Key::Backspace);
    assert_eq!(ui.command, "");
    assert_eq!(ui.mode, UIMode::Command);
}
