use vstd::prelude::*;

use crate::amount::{amount_value, parse_amount};
use crate::model::{BookEntry, Category, EntryType, RecurringEntry, RecurringType};
use crate::tokens::{compare_tokens, views_of};

verus! {

/// The pieces of `s` between single spaces, empty pieces included, as
/// `str::split(' ')` yields them.
pub open spec fn split_spaces(s: Seq<char>) -> Seq<Seq<char>>
    decreases s.len(),
{
    if s.len() == 0 {
        seq![Seq::empty()]
    } else {
        let init = split_spaces(s.drop_last());
        if s.last() == ' ' {
            init.push(Seq::empty())
        } else {
            init.drop_last().push(init.last().push(s.last()))
        }
    }
}

proof fn lemma_split_nonempty(s: Seq<char>)
    ensures
        split_spaces(s).len() >= 1,
    decreases s.len(),
{
    if s.len() > 0 {
        lemma_split_nonempty(s.drop_last());
    }
}

/// Splits `s` at every space.
pub fn split_spaces_exec(s: &str) -> (r: Vec<String>)
    ensures
        views_of(r@) == split_spaces(s@),
{
    let n = s.unicode_len();
    let mut words: Vec<String> = Vec::new();
    let mut start: usize = 0;
    let mut i: usize = 0;
    assert(s@.take(0) =~= Seq::<char>::empty());
    assert(s@.subrange(0, 0) =~= Seq::<char>::empty());
    while i < n
        invariant
            n == s@.len(),
            start <= i <= n,
            views_of(words@).push(s@.subrange(start as int, i as int)) == split_spaces(
                s@.take(i as int),
            ),
        decreases n - i,
    {
        let c = s.get_char(i);
        let ghost before = views_of(words@);
        proof {
            assert(s@.take(i + 1).drop_last() =~= s@.take(i as int));
            assert(s@.take(i + 1).last() == c);
            lemma_split_nonempty(s@.take(i as int));
        }
        if c == ' ' {
            let w = s.substring_char(start, i).to_owned();
            words.push(w);
            start = i + 1;
            assert(views_of(words@) =~= before.push(w@));
            assert(s@.subrange(start as int, i + 1) =~= Seq::<char>::empty());
        } else {
            assert(s@.subrange(start as int, i + 1) =~= s@.subrange(start as int, i as int).push(c));
        }
        i = i + 1;
    }
    let w = s.substring_char(start, n).to_owned();
    let ghost before = views_of(words@);
    words.push(w);
    assert(views_of(words@) =~= before.push(w@));
    assert(s@.take(n as int) =~= s@);
    words
}

/// What is wrong with a command line.
#[derive(Clone, Copy, Debug, PartialEq, Eq, Structural)]
pub enum CommandError {
    /// An unknown command word, or a positional argument missing.
    InvalidCommand,
    /// An amount that is not a decimal number of cents that fits.
    ParseError,
}

/// The record that a command line asks to append.
#[derive(Clone, Debug)]
pub enum Command {
    AddExpense(BookEntry),
    AddRecurring(RecurringEntry),
    AddCategory(Category),
}

/// The rate that the words ask for: yearly when the fifth word is
/// "yearly", monthly otherwise.
pub open spec fn rate_of(w: Seq<Seq<char>>) -> RecurringType {
    if w.len() > 4 && w[4] == "yearly"@ {
        RecurringType::Yearly
    } else {
        RecurringType::Monthly
    }
}

/// Whether the words name a command with a name, a token and an amount.
pub open spec fn is_amount_command(w: Seq<Seq<char>>) -> bool {
    w[0] == "ae"@ || w[0] == "ari"@ || w[0] == "are"@
}

/// Whether a command line is accepted, and if not, why.
pub open spec fn command_outcome(w: Seq<Seq<char>>) -> Result<(), CommandError> {
    if is_amount_command(w) {
        if w.len() < 4 {
            Err(CommandError::InvalidCommand)
        } else if amount_value(w[3]) is None {
            Err(CommandError::ParseError)
        } else {
            Ok(())
        }
    } else if w[0] == "ac"@ {
        if w.len() < 3 {
            Err(CommandError::InvalidCommand)
        } else {
            Ok(())
        }
    } else {
        Err(CommandError::InvalidCommand)
    }
}

/// `c` is the record that the accepted words ask for.
pub open spec fn command_fits(c: Command, w: Seq<Seq<char>>) -> bool {
    match c {
        Command::AddExpense(b) => {
            &&& w[0] == "ae"@
            &&& b.name@ == w[1]
            &&& b.kind == EntryType::Expense
            &&& b.category_token@ == w[2]
            &&& amount_value(w[3]) == Some(b.amount)
        },
        Command::AddRecurring(e) => {
            &&& (w[0] == "ari"@ && e.kind == EntryType::Income) || (w[0] != "ari"@ && w[0]
                == "are"@ && e.kind == EntryType::Expense)
            &&& e.name@ == w[1]
            &&& e.category_token@ == w[2]
            &&& amount_value(w[3]) == Some(e.amount)
            &&& e.rate_type == rate_of(w)
        },
        Command::AddCategory(k) => {
            &&& w[0] == "ac"@
            &&& k.name@ == w[1]
            &&& k.token@ == w[2]
        },
    }
}

/// Reads a command line of space-separated words:
/// `ae <name> <token> <amount>` adds an expense booking dated now;
/// `ari` / `are <name> <token> <amount> [yearly]` add a recurring income or
/// expense, monthly unless the fifth word is "yearly";
/// `ac <name> <token>` adds a category.  Words beyond these are ignored.
pub fn handle_command(cmd: &str) -> (r: Result<Command, CommandError>)
    ensures
        match r {
            Ok(c) => command_outcome(split_spaces(cmd@)) is Ok && command_fits(
                c,
                split_spaces(cmd@),
            ),
            Err(e) => command_outcome(split_spaces(cmd@)) == Err::<(), CommandError>(e),
        },
{
    let action = split_spaces_exec(cmd);
    let ghost w = split_spaces(cmd@);
    proof {
        lemma_split_nonempty(cmd@);
    }
    assert(action@.len() == w.len());
    assert(forall|i: int| 0 <= i < w.len() ==> w[i] == (#[trigger] action@[i])@);
    let mut rec_type = RecurringType::Monthly;
    if action.len() > 4 && compare_tokens(action[4].as_str(), "yearly") == 0 {
        rec_type = RecurringType::Yearly;
    }
    let word = action[0].as_str();
    let is_ae = compare_tokens(word, "ae") == 0;
    let is_ari = compare_tokens(word, "ari") == 0;
    let is_are = compare_tokens(word, "are") == 0;
    if is_ae || is_ari || is_are {
        if action.len() < 4 {
            return Err(CommandError::InvalidCommand);
        }
        let amount = match parse_amount(action[3].as_str()) {
            Some(a) => a,
            None => return Err(CommandError::ParseError),
        };
        if is_ae {
            Ok(
                Command::AddExpense(
                    BookEntry::new(
                        action[1].as_str(),
                        EntryType::Expense,
                        action[2].as_str(),
                        amount,
                    ),
                ),
            )
        } else if is_ari {
            Ok(
                Command::AddRecurring(
                    RecurringEntry::new(
                        action[1].as_str(),
                        EntryType::Income,
                        action[2].as_str(),
                        amount,
                        rec_type,
                    ),
                ),
            )
        } else {
            Ok(
                Command::AddRecurring(
                    RecurringEntry::new(
                        action[1].as_str(),
                        EntryType::Expense,
                        action[2].as_str(),
                        amount,
                        rec_type,
                    ),
                ),
            )
        }
    } else if compare_tokens(word, "ac") == 0 {
        if action.len() < 3 {
            return Err(CommandError::InvalidCommand);
        }
        Ok(Command::AddCategory(Category::new(action[1].as_str(), action[2].as_str())))
    } else {
        Err(CommandError::InvalidCommand)
    }
}

} // verus!
