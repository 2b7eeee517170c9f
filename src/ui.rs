use vstd::prelude::*;

use crate::commands::{handle_command, split_spaces, command_outcome, command_fits, Command};
use crate::dataservice::DataService;

verus! {

/// Whether keys move around the tabs or type a command.
#[derive(Clone, Copy, Debug, PartialEq, Eq, Structural)]
pub enum UIMode {
    Normal,
    Command,
}

impl Default for UIMode {
    fn default() -> (r: Self)
        ensures
            r == UIMode::Normal,
    {
        UIMode::Normal
    }
}

/// A key press, as far as the interface tells keys apart.
#[derive(Clone, Copy, Debug, PartialEq, Eq, Structural)]
pub enum Key {
    Char(char),
    Left,
    Right,
    Enter,
    Esc,
    Backspace,
    Other,
}

/// What the caller is to do after a key press.
#[derive(Clone, Debug)]
pub enum KeyAction {
    /// Nothing beyond drawing again.
    Continue,
    /// Leave the interface.
    Quit,
    /// Append the record that the typed command asks for.
    Apply(Command),
}

/// Message shown when a command cannot be carried out.
pub const INVALID_COMMAND_MESSAGE: &'static str = "Invalid Command";

/// Relies on `String::push`: appends one character.
#[verifier::external_body]
fn push_char(s: &mut String, c: char)
    ensures
        final(s)@ == old(s)@.push(c),
{
    s.push(c)
}

/// Removes and returns the last character, or returns `None` and leaves the
/// string as it is when it is empty.
fn pop_char(s: &mut String) -> (r: Option<char>)
    ensures
        old(s)@.len() == 0 ==> r is None && final(s)@ == old(s)@,
        old(s)@.len() > 0 ==> r == Some(old(s)@.last()) && final(s)@ == old(s)@.drop_last(),
{
    let n = s.as_str().unicode_len();
    if n == 0 {
        return None;
    }
    let c = s.as_str().get_char(n - 1);
    let rest = s.as_str().substring_char(0, n - 1).to_owned();
    *s = rest;
    Some(c)
}

/// The tab after `index`, cycling to the first.
fn next_index(index: usize, len: usize) -> (r: usize)
    requires
        len > 0,
    ensures
        r == (index + 1) % (len as int),
{
    let m = index % len;
    proof {
        lemma_mod_succ(index as int, len as int);
    }
    if m + 1 == len {
        0
    } else {
        m + 1
    }
}

proof fn lemma_mod_succ(i: int, n: int)
    requires
        0 <= i,
        0 < n,
    ensures
        (i + 1) % n == if i % n + 1 == n {
            0
        } else {
            i % n + 1
        },
{
    if n == 1 {
        assert((i + 1) % 1 == 0);
        assert(i % 1 == 0);
    } else {
        vstd::arithmetic::div_mod::lemma_add_mod_noop(i, 1, n);
        vstd::arithmetic::div_mod::lemma_small_mod(1nat, n as nat);
        if i % n + 1 < n {
            vstd::arithmetic::div_mod::lemma_small_mod((i % n + 1) as nat, n as nat);
        } else {
            vstd::arithmetic::div_mod::lemma_mod_self_0(n);
        }
    }
}

/// `p` begins `s`.
pub open spec fn starts_with(s: Seq<char>, p: Seq<char>) -> bool {
    p.len() <= s.len() && s.take(p.len() as int) == p
}

/// Whether `s` begins with `p`.
pub fn has_prefix(s: &str, p: &str) -> (r: bool)
    ensures
        r == starts_with(s@, p@),
{
    let n = s.unicode_len();
    let m = p.unicode_len();
    if m > n {
        return false;
    }
    let mut i: usize = 0;
    while i < m
        invariant
            n == s@.len(),
            m == p@.len(),
            m <= n,
            i <= m,
            s@.take(i as int) == p@.take(i as int),
        decreases m - i,
    {
        if s.get_char(i) != p.get_char(i) {
            assert(s@.take(m as int)[i as int] != p@[i as int]);
            return false;
        }
        assert(s@.take(i + 1) =~= s@.take(i as int).push(s@[i as int]));
        assert(p@.take(i + 1) =~= p@.take(i as int).push(p@[i as int]));
        i = i + 1;
    }
    assert(p@.take(m as int) =~= p@);
    true
}

/// The line of help shown under a command being typed.
pub open spec fn help_text(cmd: Seq<char>) -> Seq<char> {
    if starts_with(cmd, "are"@) {
        "Add-Recurring-Expense Syntax: <Name> <Category-Token> <Amount> (<Yearly>)"@
    } else if starts_with(cmd, "ari"@) {
        "Add-Recurring-Income Syntax: <Name> <Category-Token> <Amount>"@
    } else if starts_with(cmd, "ae"@) {
        "Add-Expense Syntax: <Name> <Category-Token> <Amount>"@
    } else if starts_with(cmd, "ac"@) {
        "Add-Category Syntax: <Name> <Category-Token>"@
    } else {
        "Commands: add-expense | add-recurring-expense | add-recurring-income | add-categorie"@
    }
}

/// The syntax of the command whose name `app` begins with, or the list of
/// commands.
pub fn get_command_help_text(app: &str) -> (r: String)
    ensures
        r@ == help_text(app@),
{
    if has_prefix(app, "are") {
        "Add-Recurring-Expense Syntax: <Name> <Category-Token> <Amount> (<Yearly>)".to_owned()
    } else if has_prefix(app, "ari") {
        "Add-Recurring-Income Syntax: <Name> <Category-Token> <Amount>".to_owned()
    } else if has_prefix(app, "ae") {
        "Add-Expense Syntax: <Name> <Category-Token> <Amount>".to_owned()
    } else if has_prefix(app, "ac") {
        "Add-Category Syntax: <Name> <Category-Token>".to_owned()
    } else {
        "Commands: add-expense | add-recurring-expense | add-recurring-income | add-categorie".to_owned()
    }
}

/// Tab index after a key press in normal mode.
pub open spec fn normal_index(index: usize, len: int, key: Key) -> int {
    if key == Key::Right {
        (index + 1) % len
    } else if key == Key::Left {
        if index > 0 {
            index - 1
        } else {
            len - 1
        }
    } else if key == Key::Char('p') {
        0
    } else if key == Key::Char('b') {
        1
    } else if key == Key::Char('s') {
        2
    } else {
        index as int
    }
}

/// Tab state of the interface.
pub struct App<'a> {
    pub titles: Vec<&'a str>,
    pub index: usize,
    pub mode: UIMode,
    pub input: String,
}

impl<'a> App<'a> {
    pub fn new() -> (r: App<'a>)
        ensures
            r.titles@.len() == 3,
            r.titles@[0]@ == "Planning"@,
            r.titles@[1]@ == "Budget"@,
            r.titles@[2]@ == "Settings"@,
            r.index == 0,
            r.mode == UIMode::Normal,
            r.input@.len() == 0,
    {
        App {
            titles: vec!["Planning", "Budget", "Settings"],
            index: 0,
            mode: UIMode::Normal,
            input: String::new(),
        }
    }

    /// Moves to the next tab, from the last back to the first.
    pub fn next(&mut self)
        requires
            old(self).titles@.len() > 0,
        ensures
            final(self).index == (old(self).index + 1) % (old(self).titles@.len() as int),
            final(self).titles == old(self).titles,
            final(self).mode == old(self).mode,
            final(self).input == old(self).input,
    {
        self.index = next_index(self.index, self.titles.len());
    }

    /// Moves to the previous tab, from the first back to the last.
    pub fn previous(&mut self)
        requires
            old(self).index > 0 || old(self).titles@.len() > 0,
        ensures
            final(self).index == if old(self).index > 0 {
                old(self).index - 1
            } else {
                old(self).titles@.len() - 1
            },
            final(self).titles == old(self).titles,
            final(self).mode == old(self).mode,
            final(self).input == old(self).input,
    {
        if self.index > 0 {
            self.index = self.index - 1;
        } else {
            self.index = self.titles.len() - 1;
        }
    }
}

/// The interface: tabs, the typed command, the last error, and the data.
pub struct UserInterface<'a> {
    pub tabs: Vec<&'a str>,
    pub index: usize,
    pub mode: UIMode,
    pub error_message: String,
    pub command: String,
    pub dataservice: DataService,
}

impl<'a> UserInterface<'a> {
    pub fn new(dataservice: DataService) -> (r: UserInterface<'a>)
        ensures
            r.tabs@.len() == 3,
            r.tabs@[0]@ == "Planning"@,
            r.tabs@[1]@ == "Budget"@,
            r.tabs@[2]@ == "Settings"@,
            r.index == 0,
            r.mode == UIMode::Normal,
            r.command@.len() == 0,
            r.error_message@.len() == 0,
            r.dataservice == dataservice,
    {
        UserInterface {
            tabs: vec!["Planning", "Budget", "Settings"],
            index: 0,
            mode: UIMode::Normal,
            command: String::new(),
            error_message: String::new(),
            dataservice,
        }
    }

    /// Moves to the next tab, from the last back to the first.
    pub fn next(&mut self)
        requires
            old(self).tabs@.len() > 0,
        ensures
            final(self).index == (old(self).index + 1) % (old(self).tabs@.len() as int),
            final(self).tabs == old(self).tabs,
            final(self).mode == old(self).mode,
            final(self).command == old(self).command,
            final(self).error_message == old(self).error_message,
            final(self).dataservice == old(self).dataservice,
    {
        self.index = next_index(self.index, self.tabs.len());
    }

    /// Moves to the previous tab, from the first back to the last.
    pub fn previous(&mut self)
        requires
            old(self).index > 0 || old(self).tabs@.len() > 0,
        ensures
            final(self).index == if old(self).index > 0 {
                old(self).index - 1
            } else {
                old(self).tabs@.len() - 1
            },
            final(self).tabs == old(self).tabs,
            final(self).mode == old(self).mode,
            final(self).command == old(self).command,
            final(self).error_message == old(self).error_message,
            final(self).dataservice == old(self).dataservice,
    {
        if self.index > 0 {
            self.index = self.index - 1;
        } else {
            self.index = self.tabs.len() - 1;
        }
    }

    /// Shows that a command could not be carried out.
    pub fn report_invalid_command(&mut self)
        ensures
            final(self).error_message@ == INVALID_COMMAND_MESSAGE@,
            final(self).tabs == old(self).tabs,
            final(self).index == old(self).index,
            final(self).mode == old(self).mode,
            final(self).command == old(self).command,
            final(self).dataservice == old(self).dataservice,
    {
        self.error_message = INVALID_COMMAND_MESSAGE.to_owned();
    }

    /// Applies one key press.  In normal mode keys move between tabs, 'q'
    /// quits, and ':' or 'c' start a command.  In command mode keys edit the
    /// command, Esc drops it, and Enter reads it: an accepted command is
    /// handed back to be appended, a rejected one shows the error message.
    pub fn handle_key(&mut self, key: Key) -> (r: KeyAction)
        requires
            old(self).mode == UIMode::Normal ==> old(self).tabs@.len() > 0,
        ensures
            final(self).tabs == old(self).tabs,
            final(self).dataservice == old(self).dataservice,
            old(self).mode == UIMode::Normal ==> {
                &&& final(self).index == normal_index(
                    old(self).index,
                    old(self).tabs@.len() as int,
                    key,
                )
                &&& final(self).command == old(self).command
                &&& (r is Quit) == (key == Key::Char('q'))
                &&& !(r is Apply)
                &&& if key == Key::Char(':') || key == Key::Char('c') {
                    final(self).mode == UIMode::Command && final(self).error_message@.len() == 0
                } else {
                    final(self).mode == UIMode::Normal && final(self).error_message
                        == old(self).error_message
                }
            },
            old(self).mode == UIMode::Command ==> {
                let w = split_spaces(old(self).command@);
                &&& final(self).index == old(self).index
                &&& !(r is Quit)
                &&& key != Key::Enter ==> r is Continue && final(self).error_message
                    == old(self).error_message
                &&& (key == Key::Esc || key == Key::Enter) ==> final(self).mode == UIMode::Normal
                    && final(self).command@.len() == 0
                &&& key == Key::Enter ==> match r {
                    KeyAction::Apply(c) => command_outcome(w) is Ok && command_fits(c, w)
                        && final(self).error_message == old(self).error_message,
                    _ => command_outcome(w) is Err && final(self).error_message@
                        == INVALID_COMMAND_MESSAGE@,
                }
                &&& key is Char ==> final(self).mode == UIMode::Command && final(self).command@
                    == old(self).command@.push(key->Char_0)
                &&& key == Key::Backspace ==> final(self).mode == UIMode::Command
                    && final(self).command@ == if old(self).command@.len() > 0 {
                    old(self).command@.drop_last()
                } else {
                    old(self).command@
                }
                &&& (key == Key::Left || key == Key::Right || key == Key::Other) ==> final(self).mode
                    == UIMode::Command && final(self).command == old(self).command
            },
    {
        match self.mode {
            UIMode::Normal => {
                match key {
                    Key::Char('q') => {
                        return KeyAction::Quit;
                    },
                    Key::Right => self.next(),
                    Key::Left => self.previous(),
                    Key::Char('p') => self.index = 0,
                    Key::Char('b') => self.index = 1,
                    Key::Char('s') => self.index = 2,
                    Key::Char(':') | Key::Char('c') => {
                        self.mode = UIMode::Command;
                        self.error_message = String::new();
                    },
                    _ => {},
                }
                KeyAction::Continue
            },
            UIMode::Command => {
                match key {
                    Key::Esc => {
                        self.mode = UIMode::Normal;
                        self.command = String::new();
                        KeyAction::Continue
                    },
                    Key::Enter => {
                        self.mode = UIMode::Normal;
                        let outcome = handle_command(self.command.as_str());
                        self.command = String::new();
                        match outcome {
                            Ok(c) => KeyAction::Apply(c),
                            Err(_) => {
                                self.report_invalid_command();
                                KeyAction::Continue
                            },
                        }
                    },
                    Key::Char(c) => {
                        push_char(&mut self.command, c);
                        KeyAction::Continue
                    },
                    Key::Backspace => {
                        pop_char(&mut self.command);
                        KeyAction::Continue
                    },
                    _ => KeyAction::Continue,
                }
            },
        }
    }
}

} // verus!
