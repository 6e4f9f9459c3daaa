//! What the front end shows for a state: which screen, its title and help
//! line, and the lines of its lists.

use vstd::prelude::*;
use crate::text::push_char;
use crate::tui::{App, AppView};
use crate::vault::EntryView;
use crate::assoc::lookup;

verus! {

/// The screens of the front end.
pub enum Screen {
    /// The vault is locked and no password is being asked for.
    Locked,
    /// The vault is locked and the master password is being typed.
    PasswordPrompt,
    /// The name of a new entry is being typed.
    EntryName,
    /// The variables of a new entry are being typed.
    EntryVariables,
    /// The variables of an entry are shown.
    Secret,
    /// The vault is open and holds no entry.
    NoEntries,
    /// The vault is open and its entries are listed.
    Entries,
}

/// The screen shown for a state.
pub open spec fn screen_of(a: AppView) -> Screen {
    if a.vault is None {
        if a.show_password_input {
            Screen::PasswordPrompt
        } else {
            Screen::Locked
        }
    } else if a.adding_entry {
        if a.adding_id_mode {
            Screen::EntryName
        } else {
            Screen::EntryVariables
        }
    } else if a.show_secret {
        Screen::Secret
    } else if a.entries.len() == 0 {
        Screen::NoEntries
    } else {
        Screen::Entries
    }
}

/// Each screen is shown exactly in its state: locked with or without the
/// password prompt, the two stages of adding an entry (its name, then its
/// variables), the secret view, and the entry list, empty or not.
pub proof fn lemma_screens(a: AppView)
    ensures
        screen_of(a) is Locked <==> a.vault is None && !a.show_password_input,
        screen_of(a) is PasswordPrompt <==> a.vault is None && a.show_password_input,
        screen_of(a) is EntryName <==> a.vault is Some && a.adding_entry && a.adding_id_mode,
        screen_of(a) is EntryVariables <==> a.vault is Some && a.adding_entry && !a.adding_id_mode,
        screen_of(a) is Secret <==> a.vault is Some && !a.adding_entry && a.show_secret,
        screen_of(a) is NoEntries <==> a.vault is Some && !a.adding_entry && !a.show_secret
            && a.entries.len() == 0,
        screen_of(a) is Entries <==> a.vault is Some && !a.adding_entry && !a.show_secret
            && a.entries.len() > 0,
{
}

/// The mark in front of a list line: `>` on the highlighted line.
pub open spec fn mark(here: bool) -> Seq<char> {
    if here {
        ">"@
    } else {
        " "@
    }
}

/// A line of the variable editor: an empty value shows as `_`.
pub open spec fn row_line(name: Seq<char>, value: Seq<char>, here: bool) -> Seq<char> {
    mark(here) + " "@ + name + " = "@ + (if value.len() == 0 {
        "_"@
    } else {
        value
    })
}

/// A line of the secret view: only the highlighted value is shown in clear.
pub open spec fn secret_line(name: Seq<char>, value: Seq<char>, here: bool) -> Seq<char> {
    mark(here) + " "@ + name + " = "@ + (if here {
        value
    } else {
        "*****"@
    })
}

/// A line of the entry list.
pub open spec fn entry_line(key: Seq<char>, here: bool) -> Seq<char> {
    mark(here) + " "@ + key
}

/// The lines of the variable editor.
pub open spec fn row_lines(a: AppView) -> Seq<Seq<char>> {
    Seq::new(
        a.new_vars.len(),
        |i: int| row_line(a.new_vars[i].0, a.new_vars[i].1, i == a.current_var),
    )
}

/// The lines of the secret view of entry `e`.
pub open spec fn secret_lines(a: AppView, e: EntryView) -> Seq<Seq<char>> {
    Seq::new(
        e.variables.len(),
        |i: int| secret_line(e.variables[i].0, e.variables[i].1, i == a.secret_index),
    )
}

/// The lines of the entry list.
pub open spec fn entry_lines(a: AppView) -> Seq<Seq<char>> {
    Seq::new(a.entries.len(), |i: int| entry_line(a.entries[i], i == a.selected))
}

/// The password prompt: one `*` per typed character.
pub open spec fn password_line(a: AppView) -> Seq<char> {
    "Password: "@ + Seq::new(a.password_input.len(), |i: int| '*')
}

/// The prompt for the name of a new entry.
pub open spec fn entry_name_line(a: AppView) -> Seq<char> {
    "Entry ID: "@ + a.new_entry_id
}

/// The view of a list of strings.
pub open spec fn lines_view(v: Seq<String>) -> Seq<Seq<char>> {
    v.map_values(|s: String| s@)
}

/// `mark(here)` as a string.
fn mark_str(here: bool) -> (r: &'static str)
    ensures
        r@ == mark(here),
{
    if here {
        ">"
    } else {
        " "
    }
}

impl Screen {
    /// The title bar of the screen.
    pub fn title(&self) -> (r: &'static str)
        ensures
            r@ == match self {
                Screen::Locked | Screen::PasswordPrompt => " Passterm - Locked "@,
                Screen::EntryName | Screen::EntryVariables => " Passterm - Add Entry "@,
                Screen::Secret => " Passterm - View Secret "@,
                Screen::NoEntries | Screen::Entries => " Passterm "@,
            },
    {
        match self {
            Screen::Locked | Screen::PasswordPrompt => " Passterm - Locked ",
            Screen::EntryName | Screen::EntryVariables => " Passterm - Add Entry ",
            Screen::Secret => " Passterm - View Secret ",
            Screen::NoEntries | Screen::Entries => " Passterm ",
        }
    }

    /// The help line of the screen.
    pub fn help(&self) -> (r: &'static str)
        ensures
            r@ == match self {
                Screen::Locked | Screen::PasswordPrompt => "[Enter] unlock"@,
                Screen::EntryName => "[Enter] next | [Esc] cancel"@,
                Screen::EntryVariables => "[n] new var | [Enter] save | [Tab] skip key | [Esc] cancel"@,
                Screen::Secret => "[c] copy value | [Enter] next | [Esc] back"@,
                Screen::NoEntries | Screen::Entries => "[Enter] view | [a] add | [d] delete | [q] quit"@,
            },
    {
        match self {
            Screen::Locked | Screen::PasswordPrompt => "[Enter] unlock",
            Screen::EntryName => "[Enter] next | [Esc] cancel",
            Screen::EntryVariables => "[n] new var | [Enter] save | [Tab] skip key | [Esc] cancel",
            Screen::Secret => "[c] copy value | [Enter] next | [Esc] back",
            Screen::NoEntries | Screen::Entries => "[Enter] view | [a] add | [d] delete | [q] quit",
        }
    }
}

impl App {
    /// The screen shown for this state.
    pub fn screen(&self) -> (r: Screen)
        ensures
            r == screen_of(self@),
    {
        if self.vault.is_none() {
            if self.show_password_input {
                Screen::PasswordPrompt
            } else {
                Screen::Locked
            }
        } else if self.adding_entry {
            if self.adding_id_mode {
                Screen::EntryName
            } else {
                Screen::EntryVariables
            }
        } else if self.show_secret {
            Screen::Secret
        } else if self.entries.len() == 0 {
            Screen::NoEntries
        } else {
            Screen::Entries
        }
    }

    /// The password prompt, with the typed password masked.
    pub fn password_line(&self) -> (r: String)
        ensures
            r@ == password_line(self@),
    {
        let mut out = String::new();
        out.append("Password: ");
        let ghost head = out@;
        for c in it: self.password_input.as_str().chars()
            invariant
                it.seq() == self.password_input@,
                out@ == head + Seq::new(it.index() as nat, |i: int| '*'),
        {
            push_char(&mut out, '*');
            assert(head + Seq::new((it.index() + 1) as nat, |i: int| '*') =~= (head + Seq::new(
                it.index() as nat,
                |i: int| '*',
            )).push('*'));
        }
        assert(out@ =~= password_line(self@));
        out
    }

    /// The prompt for the name of a new entry.
    pub fn entry_name_line(&self) -> (r: String)
        ensures
            r@ == entry_name_line(self@),
    {
        let mut out = String::new();
        out.append("Entry ID: ");
        out.append(self.new_entry_id.as_str());
        out
    }

    /// The lines of the variable editor.
    pub fn row_lines(&self) -> (r: Vec<String>)
        ensures
            lines_view(r@) == row_lines(self@),
    {
        let mut out: Vec<String> = Vec::new();
        let mut i: usize = 0;
        while i < self.new_vars.len()
            invariant
                i <= self.new_vars@.len(),
                lines_view(out@) == row_lines(self@).take(i as int),
            decreases self.new_vars@.len() - i,
        {
            let (name, value) = &self.new_vars[i];
            let mut line = String::new();
            line.append(mark_str(i == self.current_var));
            line.append(" ");
            line.append(name.as_str());
            line.append(" = ");
            if value.as_str().is_empty() {
                line.append("_");
            } else {
                line.append(value.as_str());
            }
            assert(line@ == row_lines(self@)[i as int]);
            out.push(line);
            assert(row_lines(self@).take(i + 1) =~= row_lines(self@).take(i as int).push(row_lines(self@)[i as int]));
            assert(lines_view(out@) =~= row_lines(self@).take(i + 1));
            i += 1;
        }
        assert(row_lines(self@).take(i as int) =~= row_lines(self@));
        out
    }

    /// The title and lines of the secret view, when the viewed entry exists.
    pub fn secret_lines(&self) -> (r: Option<(String, Vec<String>)>)
        ensures
            match self@.vault {
                Some(v) => match lookup(v.entries, self@.secret_entry) {
                    Some(e) => match r {
                        Some((title, lines)) => title@ == " "@ + self@.secret_entry + " "@
                            && lines_view(lines@) == secret_lines(self@, e),
                        None => false,
                    },
                    None => r is None,
                },
                None => r is None,
            },
    {
        let v = match &self.vault {
            Some(v) => v,
            None => return None,
        };
        let e = match v.get_entry(self.secret_entry.as_str()) {
            Some(e) => e,
            None => return None,
        };
        let ghost ev = e@;
        let mut out: Vec<String> = Vec::new();
        let mut i: usize = 0;
        while i < e.variables.len()
            invariant
                i <= e.variables@.len(),
                ev == e@,
                lines_view(out@) == secret_lines(self@, ev).take(i as int),
            decreases e.variables@.len() - i,
        {
            let here = i == self.secret_index;
            let mut line = String::new();
            line.append(mark_str(here));
            line.append(" ");
            line.append(e.variables.key_at(i).as_str());
            line.append(" = ");
            if here {
                line.append(e.variables.value_at(i).as_str());
            } else {
                line.append("*****");
            }
            assert(line@ == secret_lines(self@, ev)[i as int]);
            out.push(line);
            assert(secret_lines(self@, ev).take(i + 1) =~= secret_lines(self@, ev).take(i as int).push(secret_lines(self@, ev)[i as int]));
            assert(lines_view(out@) =~= secret_lines(self@, ev).take(i + 1));
            i += 1;
        }
        assert(secret_lines(self@, ev).take(i as int) =~= secret_lines(self@, ev));
        let mut title = String::new();
        title.append(" ");
        title.append(self.secret_entry.as_str());
        title.append(" ");
        Some((title, out))
    }

    /// The lines of the entry list.
    pub fn entry_lines(&self) -> (r: Vec<String>)
        ensures
            lines_view(r@) == entry_lines(self@),
    {
        let mut out: Vec<String> = Vec::new();
        let mut i: usize = 0;
        while i < self.entries.len()
            invariant
                i <= self.entries@.len(),
                lines_view(out@) == entry_lines(self@).take(i as int),
            decreases self.entries@.len() - i,
        {
            let mut line = String::new();
            line.append(mark_str(i == self.selected));
            line.append(" ");
            line.append(self.entries[i].as_str());
            assert(line@ == entry_lines(self@)[i as int]);
            out.push(line);
            assert(entry_lines(self@).take(i + 1) =~= entry_lines(self@).take(i as int).push(entry_lines(self@)[i as int]));
            assert(lines_view(out@) =~= entry_lines(self@).take(i + 1));
            i += 1;
        }
        assert(entry_lines(self@).take(i as int) =~= entry_lines(self@));
        out
    }
}

} // verus!
