//! The state of the terminal front end and how keys change it.
//!
//! `handle_key` decides; what it asks for in return (quitting, loading the
//! vault, saving it, copying a value) is carried out by the caller.

use vstd::prelude::*;
use crate::assoc::{StrMap, keys_of, lookup, put, delete, unique_keys, lemma_put, lemma_delete, lemma_key_index};
use crate::text::{push_char, pop_char};
use crate::vault::{Vault, VaultView, EntryView, VarMap};
use crate::vault::storage::StorageError;

verus! {

/// A key press, as the front end sees it.
pub enum Key {
    Char(char),
    Esc,
    Up,
    Down,
    Enter,
    Tab,
    Backspace,
    Other,
}

/// What the caller has to do after a key press.
pub enum Action {
    Nothing,
    Quit,
    /// Load the vault with `App::password` and hand the result to `App::finish_unlock`.
    Unlock,
    /// Write the vault back with `App::password`.
    Save,
    /// Put this value on the clipboard.
    Copy(String),
}

/// `Action` as a mathematical value.
pub enum ActionView {
    Nothing,
    Quit,
    Unlock,
    Save,
    Copy(Seq<char>),
}

impl View for Action {
    type V = ActionView;

    open spec fn view(&self) -> ActionView {
        match self {
            Action::Nothing => ActionView::Nothing,
            Action::Quit => ActionView::Quit,
            Action::Unlock => ActionView::Unlock,
            Action::Save => ActionView::Save,
            Action::Copy(s) => ActionView::Copy(s@),
        }
    }
}

/// The state of the front end.
pub struct App {
    pub vault: Option<Vault>,
    pub password: String,
    pub entries: Vec<String>,
    pub selected: usize,
    pub show_password_input: bool,
    pub password_input: String,
    pub adding_entry: bool,
    pub adding_id_mode: bool,
    pub new_entry_id: String,
    pub new_vars: Vec<(String, String)>,
    pub current_var: usize,
    pub show_secret: bool,
    pub secret_entry: String,
    pub secret_index: usize,
}

/// `App` as mathematical values.
#[verifier::ext_equal]
pub struct AppView {
    pub vault: Option<VaultView>,
    pub password: Seq<char>,
    pub entries: Seq<Seq<char>>,
    pub selected: usize,
    pub show_password_input: bool,
    pub password_input: Seq<char>,
    pub adding_entry: bool,
    pub adding_id_mode: bool,
    pub new_entry_id: Seq<char>,
    pub new_vars: Seq<(Seq<char>, Seq<char>)>,
    pub current_var: usize,
    pub show_secret: bool,
    pub secret_entry: Seq<char>,
    pub secret_index: usize,
}

/// The view of an optional vault.
pub open spec fn vault_view(v: Option<Vault>) -> Option<VaultView> {
    match v {
        Some(v) => Some(v@),
        None => None,
    }
}

/// The view of a list of strings.
pub open spec fn strs_view(s: Seq<String>) -> Seq<Seq<char>> {
    s.map_values(|x: String| x@)
}

/// The view of a list of pairs of strings.
pub open spec fn pairs_view(s: Seq<(String, String)>) -> Seq<(Seq<char>, Seq<char>)> {
    s.map_values(|p: (String, String)| (p.0@, p.1@))
}

impl View for App {
    type V = AppView;

    open spec fn view(&self) -> AppView {
        AppView {
            vault: vault_view(self.vault),
            password: self.password@,
            entries: strs_view(self.entries@),
            selected: self.selected,
            show_password_input: self.show_password_input,
            password_input: self.password_input@,
            adding_entry: self.adding_entry,
            adding_id_mode: self.adding_id_mode,
            new_entry_id: self.new_entry_id@,
            new_vars: pairs_view(self.new_vars@),
            current_var: self.current_var,
            show_secret: self.show_secret,
            secret_entry: self.secret_entry@,
            secret_index: self.secret_index,
        }
    }
}

/// `n - 1`, or 0 when `n` is 0.
pub open spec fn dec(n: usize) -> usize {
    if n > 0 {
        (n - 1) as usize
    } else {
        0
    }
}

/// The selection points into the list of entries (or at its start).
pub open spec fn selection_ok(a: AppView) -> bool {
    a.selected == 0 || a.selected < a.entries.len()
}

/// The invariant that the front end keeps: the selection is in range, the list
/// shows exactly the vault's keys in order, and nothing is listed while locked.
pub open spec fn consistent(a: AppView) -> bool {
    &&& selection_ok(a)
    &&& match a.vault {
        Some(v) => a.entries == keys_of(v.entries) && unique_keys(v.entries),
        None => a.entries.len() == 0,
    }
}

/// The variables collected from the rows being edited: rows with an empty
/// name are left out, and a later row wins over an earlier one of the same name.
pub open spec fn collect_vars(s: Seq<(Seq<char>, Seq<char>)>) -> Seq<(Seq<char>, Seq<char>)>
    decreases s.len(),
{
    if s.len() == 0 {
        Seq::empty()
    } else {
        let acc = collect_vars(s.drop_last());
        if s.last().0.len() == 0 {
            acc
        } else {
            put(acc, s.last().0, s.last().1)
        }
    }
}

/// Saving the entry being edited changes the vault.
pub open spec fn save_changes(a: AppView) -> bool {
    a.vault is Some && a.new_entry_id.len() > 0
}

/// The state after saving the entry being edited.
pub open spec fn saved(a: AppView) -> AppView {
    match a.vault {
        Some(v) => if a.new_entry_id.len() > 0 {
            let entries = put(
                v.entries,
                a.new_entry_id,
                EntryView { id: a.new_entry_id, folder: None, variables: collect_vars(a.new_vars) },
            );
            AppView {
                vault: Some(VaultView { entries, folders: v.folders }),
                entries: keys_of(entries),
                ..a
            }
        } else {
            a
        },
        None => a,
    }
}

/// The entry being viewed, if it exists.
pub open spec fn viewed_entry(a: AppView) -> Option<EntryView> {
    match a.vault {
        Some(v) => lookup(v.entries, a.secret_entry),
        None => None,
    }
}

/// Escape: leave every prompt and view.
pub open spec fn after_esc(a: AppView) -> AppView {
    AppView {
        show_password_input: false,
        password_input: Seq::empty(),
        adding_entry: false,
        adding_id_mode: true,
        new_entry_id: Seq::empty(),
        new_vars: Seq::empty(),
        show_secret: false,
        ..a
    }
}

/// In the secret view: highlight the next variable of the viewed entry, if any.
pub open spec fn next_variable(a: AppView) -> AppView {
    match viewed_entry(a) {
        Some(e) => if a.secret_index + 1 < e.variables.len() {
            AppView { secret_index: (a.secret_index + 1) as usize, ..a }
        } else {
            a
        },
        None => a,
    }
}

/// Down: move to the next variable, row or entry.
pub open spec fn after_down(a: AppView) -> AppView {
    if a.show_secret {
        next_variable(a)
    } else if a.adding_entry {
        if a.current_var + 1 < a.new_vars.len() {
            AppView { current_var: (a.current_var + 1) as usize, ..a }
        } else {
            a
        }
    } else if a.selected + 1 < a.entries.len() {
        AppView { selected: (a.selected + 1) as usize, ..a }
    } else {
        a
    }
}

/// Up: move to the previous variable, row or entry.
pub open spec fn after_up(a: AppView) -> AppView {
    if a.show_secret {
        AppView { secret_index: dec(a.secret_index), ..a }
    } else if a.adding_entry {
        AppView { current_var: dec(a.current_var), ..a }
    } else if a.selected > 0 {
        AppView { selected: (a.selected - 1) as usize, ..a }
    } else {
        a
    }
}

/// Some row has an empty name.
pub open spec fn some_name_empty(s: Seq<(Seq<char>, Seq<char>)>) -> bool {
    exists|i: int| 0 <= i < s.len() && #[trigger] s[i].0.len() == 0
}

/// Some row has a value.
pub open spec fn some_value_given(s: Seq<(Seq<char>, Seq<char>)>) -> bool {
    exists|i: int| 0 <= i < s.len() && #[trigger] s[i].1.len() > 0
}

/// Enter: open the password prompt, unlock, accept the entry's name, save
/// the entry, view the selected entry, or, in the secret view, move to the
/// next variable (as the secret view's help line offers).
pub open spec fn after_enter(a: AppView) -> (AppView, ActionView) {
    if a.vault is None {
        if !a.show_password_input {
            (AppView { show_password_input: true, ..a }, ActionView::Nothing)
        } else if a.password_input.len() > 0 {
            (AppView { password: a.password_input, ..a }, ActionView::Unlock)
        } else {
            (a, ActionView::Nothing)
        }
    } else if a.adding_entry {
        if a.adding_id_mode {
            if a.new_entry_id.len() > 0 {
                (
                    AppView {
                        adding_id_mode: false,
                        new_vars: seq![(Seq::<char>::empty(), Seq::<char>::empty())],
                        current_var: 0,
                        ..a
                    },
                    ActionView::Nothing,
                )
            } else {
                (a, ActionView::Nothing)
            }
        } else if !some_name_empty(a.new_vars) || some_value_given(a.new_vars) {
            let b = saved(a);
            (
                AppView {
                    adding_entry: false,
                    new_entry_id: Seq::empty(),
                    new_vars: Seq::empty(),
                    ..b
                },
                if save_changes(a) {
                    ActionView::Save
                } else {
                    ActionView::Nothing
                },
            )
        } else {
            (a, ActionView::Nothing)
        }
    } else if a.entries.len() > 0 && !a.show_secret {
        (
            AppView {
                secret_entry: a.entries[a.selected as int],
                secret_index: 0,
                show_secret: true,
                ..a
            },
            ActionView::Nothing,
        )
    } else if a.show_secret {
        (next_variable(a), ActionView::Nothing)
    } else {
        (a, ActionView::Nothing)
    }
}

/// 'a': start adding an entry.
pub open spec fn after_add(a: AppView) -> AppView {
    if a.vault is Some && !a.adding_entry && !a.show_secret {
        AppView {
            adding_entry: true,
            adding_id_mode: true,
            new_entry_id: Seq::empty(),
            new_vars: Seq::empty(),
            ..a
        }
    } else {
        a
    }
}

/// 'd': delete the selected entry.
pub open spec fn after_delete(a: AppView) -> (AppView, ActionView) {
    match a.vault {
        Some(v) => if !a.adding_entry && !a.show_secret && a.entries.len() > 0 {
            let id = a.entries[a.selected as int];
            let rest = a.entries.remove(a.selected as int);
            (
                AppView {
                    entries: rest,
                    vault: Some(VaultView { entries: delete(v.entries, id), folders: v.folders }),
                    selected: if a.selected > 0 && a.selected >= rest.len() {
                        dec(rest.len() as usize)
                    } else {
                        a.selected
                    },
                    ..a
                },
                ActionView::Save,
            )
        } else {
            (a, ActionView::Nothing)
        },
        None => (a, ActionView::Nothing),
    }
}

/// 'c': copy the value of the highlighted variable.
pub open spec fn copy_action(a: AppView) -> ActionView {
    if a.show_secret {
        match viewed_entry(a) {
            Some(e) => if a.secret_index < e.variables.len() {
                ActionView::Copy(e.variables[a.secret_index as int].1)
            } else {
                ActionView::Nothing
            },
            None => ActionView::Nothing,
        }
    } else {
        ActionView::Nothing
    }
}

/// Tab: clear the value of the row being edited when the cursor is on a name.
pub open spec fn after_tab(a: AppView) -> AppView {
    if a.adding_entry && !a.adding_id_mode && a.current_var % 2 == 0 && a.current_var
        < a.new_vars.len() && a.new_vars[a.current_var as int].0.len() > 0 {
        AppView {
            new_vars: a.new_vars.update(
                a.current_var as int,
                (a.new_vars[a.current_var as int].0, Seq::empty()),
            ),
            ..a
        }
    } else {
        a
    }
}

/// Backspace: delete the last character typed into the password or the entry's name.
pub open spec fn after_backspace(a: AppView) -> AppView {
    if a.show_password_input && a.password_input.len() > 0 {
        AppView { password_input: a.password_input.drop_last(), ..a }
    } else if a.adding_entry && a.adding_id_mode && a.new_entry_id.len() > 0 {
        AppView { new_entry_id: a.new_entry_id.drop_last(), ..a }
    } else {
        a
    }
}

/// A typed character goes to the password, the entry's name, or the name
/// (even row) or value (odd row) of the row being edited.
pub open spec fn typed(a: AppView, c: char) -> AppView {
    if a.show_password_input {
        AppView { password_input: a.password_input.push(c), ..a }
    } else if a.adding_entry {
        if a.adding_id_mode {
            AppView { new_entry_id: a.new_entry_id.push(c), ..a }
        } else if a.current_var < a.new_vars.len() {
            let p = a.new_vars[a.current_var as int];
            AppView {
                new_vars: a.new_vars.update(
                    a.current_var as int,
                    if a.current_var % 2 == 0 {
                        (p.0.push(c), p.1)
                    } else {
                        (p.0, p.1.push(c))
                    },
                ),
                ..a
            }
        } else {
            a
        }
    } else {
        a
    }
}

/// A character key.
pub open spec fn after_char(a: AppView, c: char) -> (AppView, ActionView) {
    if c == 'q' && !a.adding_entry && !a.show_password_input && !a.show_secret {
        (a, ActionView::Quit)
    } else if c == 'a' {
        (after_add(a), ActionView::Nothing)
    } else if c == 'd' {
        after_delete(a)
    } else if c == 'c' {
        (a, copy_action(a))
    } else if c == 'n' && a.adding_entry && !a.adding_id_mode {
        (
            AppView {
                new_vars: a.new_vars.push((Seq::<char>::empty(), Seq::<char>::empty())),
                ..a
            },
            ActionView::Nothing,
        )
    } else {
        (typed(a, c), ActionView::Nothing)
    }
}

/// The state after a key press, and what the caller has to do.
pub open spec fn step(a: AppView, key: Key) -> (AppView, ActionView) {
    match key {
        Key::Char(c) => after_char(a, c),
        Key::Esc => (after_esc(a), ActionView::Nothing),
        Key::Up => (after_up(a), ActionView::Nothing),
        Key::Down => (after_down(a), ActionView::Nothing),
        Key::Enter => after_enter(a),
        Key::Tab => (after_tab(a), ActionView::Nothing),
        Key::Backspace => (after_backspace(a), ActionView::Nothing),
        Key::Other => (a, ActionView::Nothing),
    }
}

/// Saving the entry being edited keeps the front end consistent.
pub proof fn lemma_saved_consistent(a: AppView)
    requires
        consistent(a),
    ensures
        consistent(saved(a)),
{
    if let Some(v) = a.vault {
        if a.new_entry_id.len() > 0 {
            lemma_put(
                v.entries,
                a.new_entry_id,
                EntryView { id: a.new_entry_id, folder: None, variables: collect_vars(a.new_vars) },
            );
        }
    }
}

/// Every key press keeps the front end consistent: the selection stays in
/// range and the list keeps showing exactly the vault's keys.
pub proof fn lemma_step_consistent(a: AppView, key: Key)
    requires
        consistent(a),
    ensures
        consistent(step(a, key).0),
{
    lemma_saved_consistent(a);
    if let Some(v) = a.vault {
        if !a.adding_entry && !a.show_secret && a.entries.len() > 0 {
            let id = a.entries[a.selected as int];
            assert(id == v.entries[a.selected as int].0);
            lemma_key_index(v.entries, a.selected as int);
            lemma_delete(v.entries, id);
            assert(keys_of(v.entries).remove(a.selected as int) =~= a.entries.remove(a.selected as int));
        }
    }
}

/// At the password prompt or while naming a new entry, typing a character and
/// then pressing Backspace gives back the state from before.
pub proof fn lemma_type_then_backspace(a: AppView, c: char)
    requires
        c != 'a' && c != 'd' && c != 'c',
        (!a.adding_entry && a.show_password_input) || (a.adding_entry && a.adding_id_mode
            && !a.show_password_input),
    ensures
        step(step(a, Key::Char(c)).0, Key::Backspace).0 == a,
{
    assert(a.password_input.push(c).drop_last() =~= a.password_input);
    assert(a.new_entry_id.push(c).drop_last() =~= a.new_entry_id);
    assert(step(step(a, Key::Char(c)).0, Key::Backspace).0 =~= a);
}

/// The list shows the open vault's keys, each once, in some order, and the
/// selection is in range.
pub open spec fn lists_vault(a: AppView) -> bool {
    &&& a.vault is Some
    &&& unique_keys(a.vault->Some_0.entries)
    &&& a.entries.to_multiset() == keys_of(a.vault->Some_0.entries).to_multiset()
    &&& selection_ok(a)
}

/// Every key press keeps the list a rearrangement of the open vault's keys and
/// the selection in range, whatever order the list is in.
pub proof fn lemma_step_lists_vault(a: AppView, key: Key)
    requires
        lists_vault(a),
    ensures
        lists_vault(step(a, key).0),
{
    broadcast use vstd::seq_lib::group_to_multiset_ensures;

    let v = a.vault->Some_0;
    if a.new_entry_id.len() > 0 {
        let e = EntryView { id: a.new_entry_id, folder: None, variables: collect_vars(a.new_vars) };
        lemma_put(v.entries, a.new_entry_id, e);
        assert(a.entries.len() == a.entries.to_multiset().len());
        assert(keys_of(v.entries).len() == keys_of(v.entries).to_multiset().len());
    }
    if !a.adding_entry && !a.show_secret && a.entries.len() > 0 {
        let id = a.entries[a.selected as int];
        assert(a.entries.contains(id));
        assert(a.entries.to_multiset().count(id) > 0);
        assert(keys_of(v.entries).contains(id));
        let j = choose|j: int| 0 <= j < keys_of(v.entries).len() && keys_of(v.entries)[j] == id;
        assert(v.entries[j].0 == id);
        lemma_key_index(v.entries, j);
        lemma_delete(v.entries, id);
        assert(a.entries.remove(a.selected as int).to_multiset() == a.entries.to_multiset().remove(id));
        assert(keys_of(v.entries).remove(j).to_multiset() == keys_of(v.entries).to_multiset().remove(id));
    }
}

/// While the variables of a new entry are edited in an open vault, Enter
/// saves the entry when every row is named or some row has a value: the vault
/// then binds the entry's name to an entry at the root holding the collected
/// variables, the other entries stay, the list shows the vault's keys, editing
/// ends, and the vault has to be written.
pub proof fn lemma_enter_saves_entry(a: AppView)
    requires
        a.vault is Some,
        unique_keys(a.vault->Some_0.entries),
        a.adding_entry,
        !a.adding_id_mode,
        a.new_entry_id.len() > 0,
        (forall|i: int| 0 <= i < a.new_vars.len() ==> #[trigger] a.new_vars[i].0.len() > 0) || (exists|
            i: int,
        | 0 <= i < a.new_vars.len() && #[trigger] a.new_vars[i].1.len() > 0),
    ensures
        ({
            let (b, act) = step(a, Key::Enter);
            &&& act == ActionView::Save
            &&& !b.adding_entry
            &&& b.new_vars.len() == 0
            &&& b.new_entry_id.len() == 0
            &&& b.vault is Some
            &&& lookup(b.vault->Some_0.entries, a.new_entry_id) == Some(
                EntryView { id: a.new_entry_id, folder: None, variables: collect_vars(a.new_vars) },
            )
            &&& forall|k: Seq<char>|
                k != a.new_entry_id ==> lookup(b.vault->Some_0.entries, k) == lookup(
                    a.vault->Some_0.entries,
                    k,
                )
            &&& b.entries == keys_of(b.vault->Some_0.entries)
        }),
{
    let v = a.vault->Some_0;
    lemma_put(
        v.entries,
        a.new_entry_id,
        EntryView { id: a.new_entry_id, folder: None, variables: collect_vars(a.new_vars) },
    );
    if forall|i: int| 0 <= i < a.new_vars.len() ==> #[trigger] a.new_vars[i].0.len() > 0 {
        assert(!some_name_empty(a.new_vars));
    } else {
        assert(some_value_given(a.new_vars));
    }
}

/// In the secret view, Up highlights the previous variable and stays on the
/// same entry.
pub proof fn lemma_up_in_secret_view(a: AppView)
    requires
        a.show_secret,
        a.secret_index > 0,
    ensures
        step(a, Key::Up).0.secret_index == a.secret_index - 1,
        step(a, Key::Up).0.show_secret,
        step(a, Key::Up).0.secret_entry == a.secret_entry,
        step(a, Key::Up).0.vault == a.vault,
        step(a, Key::Up).1 == ActionView::Nothing,
{
}

/// In the secret view, Down (or Enter) to the next variable and then Up come
/// back to the state from before, so the same value is highlighted and copied.
pub proof fn lemma_next_then_up(a: AppView)
    requires
        a.show_secret,
        a.vault is Some,
        !a.adding_entry,
        viewed_entry(a) matches Some(e) && a.secret_index + 1 < e.variables.len(),
        a.secret_index < usize::MAX,
    ensures
        step(a, Key::Down).0.secret_index == a.secret_index + 1,
        step(a, Key::Enter).0.secret_index == a.secret_index + 1,
        step(step(a, Key::Down).0, Key::Up).0 == a,
        step(step(a, Key::Enter).0, Key::Up).0 == a,
        step(step(step(a, Key::Down).0, Key::Up).0, Key::Char('c')).1 == step(a, Key::Char('c')).1,
{
    assert(step(step(a, Key::Down).0, Key::Up).0 =~= a);
    assert(step(step(a, Key::Enter).0, Key::Up).0 =~= a);
}

/// Deleting with 'd' always asks for the vault to be written when it changes
/// the vault; in an open vault, outside editing and viewing, with a non-empty
/// list, it removes the selected entry from the list and from the vault.
pub proof fn lemma_delete_saves(a: AppView)
    ensures
        step(a, Key::Char('d')).0.vault != a.vault ==> step(a, Key::Char('d')).1 == ActionView::Save,
        a.vault is Some && !a.adding_entry && !a.show_secret && a.entries.len() > 0 && selection_ok(a)
            && unique_keys(a.vault->Some_0.entries) ==> {
            let (b, act) = step(a, Key::Char('d'));
            &&& act == ActionView::Save
            &&& b.entries == a.entries.remove(a.selected as int)
            &&& b.vault is Some
            &&& lookup(b.vault->Some_0.entries, a.entries[a.selected as int]) is None
            &&& forall|k: Seq<char>|
                k != a.entries[a.selected as int] ==> lookup(b.vault->Some_0.entries, k) == lookup(
                    a.vault->Some_0.entries,
                    k,
                )
        },
{
    if a.vault is Some && a.entries.len() > 0 && a.selected < a.entries.len() {
        if unique_keys(a.vault->Some_0.entries) {
            lemma_delete(a.vault->Some_0.entries, a.entries[a.selected as int]);
        }
    }
}

impl App {
    /// The front end at start: locked, nothing listed.
    pub fn new() -> (r: Self)
        ensures
            r@ == (AppView {
                vault: None,
                password: Seq::empty(),
                entries: Seq::empty(),
                selected: 0,
                show_password_input: false,
                password_input: Seq::empty(),
                adding_entry: false,
                adding_id_mode: true,
                new_entry_id: Seq::empty(),
                new_vars: Seq::empty(),
                current_var: 0,
                show_secret: false,
                secret_entry: Seq::empty(),
                secret_index: 0,
            }),
            consistent(r@),
    {
        let entries: Vec<String> = Vec::new();
        let new_vars: Vec<(String, String)> = Vec::new();
        let r = App {
            vault: None,
            password: String::new(),
            entries,
            selected: 0,
            show_password_input: false,
            password_input: String::new(),
            adding_entry: false,
            adding_id_mode: true,
            new_entry_id: String::new(),
            new_vars,
            current_var: 0,
            show_secret: false,
            secret_entry: String::new(),
            secret_index: 0,
        };
        assert(r@.entries =~= Seq::<Seq<char>>::empty());
        assert(r@.new_vars =~= Seq::<(Seq<char>, Seq<char>)>::empty());
        r
    }

    /// Takes the vault that loading with `password` gave: on success it becomes
    /// the open vault and its keys are listed.
    pub fn unlock(&mut self, loaded: Result<Vault, StorageError>) -> (r: bool)
        ensures
            r == loaded is Ok,
            match loaded {
                Ok(v) => final(self)@ == (AppView {
                    vault: Some(v@),
                    entries: keys_of(v@.entries),
                    ..old(self)@
                }) && unique_keys(v@.entries),
                Err(_) => final(self)@ == old(self)@,
            },
    {
        match loaded {
            Ok(v) => {
                v.entries.keys_unique();
                let keys = v.entries.keys();
                self.entries = keys;
                self.vault = Some(v);
                assert(self@ =~= (AppView {
                    vault: Some(v@),
                    entries: keys_of(v@.entries),
                    ..old(self)@
                }));
                true
            },
            Err(_) => false,
        }
    }

    /// Ends an unlock asked for by `handle_key`: the prompt is cleared, and
    /// closed when the vault was opened.
    pub fn finish_unlock(&mut self, loaded: Result<Vault, StorageError>) -> (r: bool)
        ensures
            r == loaded is Ok,
            match loaded {
                Ok(v) => final(self)@ == (AppView {
                    vault: Some(v@),
                    entries: keys_of(v@.entries),
                    show_password_input: false,
                    password_input: Seq::empty(),
                    ..old(self)@
                }),
                Err(_) => final(self)@ == (AppView { password_input: Seq::empty(), ..old(self)@ }),
            },
            consistent(old(self)@) && old(self)@.vault is None ==> consistent(final(self)@),
    {
        let ok = self.unlock(loaded);
        if ok {
            self.show_password_input = false;
        }
        self.password_input = String::new();
        assert(self@.password_input =~= Seq::<char>::empty());
        ok
    }

    /// Stores the entry being edited in the open vault (when there is one and the
    /// entry has a name) and lists the vault's keys again. Returns whether the
    /// vault changed, in which case it has to be written back.
    pub fn save_entry(&mut self) -> (r: bool)
        ensures
            r == save_changes(old(self)@),
            final(self)@ == saved(old(self)@),
            consistent(old(self)@) ==> consistent(final(self)@),
    {
        proof {
            if consistent(old(self)@) {
                lemma_saved_consistent(old(self)@);
            }
        }
        if self.vault.is_none() || self.new_entry_id.as_str().is_empty() {
            return false;
        }
        let mut vars: VarMap = StrMap::new();
        let ghost rows = pairs_view(self.new_vars@);
        let mut i: usize = 0;
        while i < self.new_vars.len()
            invariant
                i <= self.new_vars@.len(),
                rows == pairs_view(self.new_vars@),
                vars@ == collect_vars(rows.take(i as int)),
            decreases self.new_vars@.len() - i,
        {
            assert(rows.take(i + 1).drop_last() =~= rows.take(i as int));
            if !self.new_vars[i].0.as_str().is_empty() {
                vars.insert(self.new_vars[i].0.clone(), self.new_vars[i].1.clone());
            }
            i += 1;
        }
        assert(rows.take(i as int) =~= rows);
        let mut v = self.vault.take().unwrap();
        v.add_entry(self.new_entry_id.clone(), vars);
        self.entries = v.entries.keys();
        self.vault = Some(v);
        assert(self@ =~= saved(old(self)@));
        true
    }

    fn on_esc(&mut self)
        ensures
            final(self)@ == after_esc(old(self)@),
    {
        self.show_password_input = false;
        self.password_input = String::new();
        self.adding_entry = false;
        self.adding_id_mode = true;
        self.new_entry_id = String::new();
        self.new_vars = Vec::new();
        self.show_secret = false;
        assert(self@ =~= after_esc(old(self)@));
    }

    /// The number of variables of the entry being viewed.
    fn viewed_len(&self) -> (r: Option<usize>)
        ensures
            match viewed_entry(self@) {
                Some(e) => r is Some && r->0 == e.variables.len(),
                None => r is None,
            },
    {
        match &self.vault {
            Some(v) => match v.get_entry(self.secret_entry.as_str()) {
                Some(e) => Some(e.variables.len()),
                None => None,
            },
            None => None,
        }
    }

    fn on_next_variable(&mut self)
        ensures
            final(self)@ == next_variable(old(self)@),
    {
        match self.viewed_len() {
            Some(total) => {
                if total > 0 && self.secret_index < total - 1 {
                    self.secret_index += 1;
                }
            },
            None => {},
        }
        assert(self@ =~= next_variable(old(self)@));
    }

    fn on_down(&mut self)
        ensures
            final(self)@ == after_down(old(self)@),
    {
        if self.show_secret {
            self.on_next_variable();
        } else if self.adding_entry {
            if self.new_vars.len() > 0 && self.current_var < self.new_vars.len() - 1 {
                self.current_var += 1;
            }
        } else if self.entries.len() > 0 && self.selected < self.entries.len() - 1 {
            self.selected += 1;
        }
        assert(self@ =~= after_down(old(self)@));
    }

    fn on_up(&mut self)
        ensures
            final(self)@ == after_up(old(self)@),
    {
        if self.show_secret {
            if self.secret_index > 0 {
                self.secret_index -= 1;
            }
        } else if self.adding_entry {
            if self.current_var > 0 {
                self.current_var -= 1;
            }
        } else if self.selected > 0 {
            self.selected -= 1;
        }
        assert(self@ =~= after_up(old(self)@));
    }

    /// Whether some row being edited has an empty name.
    fn some_name_empty(&self) -> (r: bool)
        ensures
            r == some_name_empty(self@.new_vars),
    {
        let mut i: usize = 0;
        while i < self.new_vars.len()
            invariant
                i <= self.new_vars@.len(),
                forall|j: int| 0 <= j < i ==> #[trigger] self@.new_vars[j].0.len() > 0,
            decreases self.new_vars@.len() - i,
        {
            if self.new_vars[i].0.as_str().is_empty() {
                assert(self@.new_vars[i as int].0.len() == 0);
                return true;
            }
            i += 1;
        }
        false
    }

    /// Whether some row being edited has a value.
    fn some_value_given(&self) -> (r: bool)
        ensures
            r == some_value_given(self@.new_vars),
    {
        let mut i: usize = 0;
        while i < self.new_vars.len()
            invariant
                i <= self.new_vars@.len(),
                forall|j: int| 0 <= j < i ==> #[trigger] self@.new_vars[j].1.len() == 0,
            decreases self.new_vars@.len() - i,
        {
            if !self.new_vars[i].1.as_str().is_empty() {
                assert(self@.new_vars[i as int].1.len() > 0);
                return true;
            }
            i += 1;
        }
        false
    }

    fn on_enter(&mut self) -> (r: Action)
        requires
            selection_ok(old(self)@),
        ensures
            (final(self)@, r@) == after_enter(old(self)@),
    {
        if self.vault.is_none() {
            if !self.show_password_input {
                self.show_password_input = true;
                assert(self@ =~= after_enter(old(self)@).0);
                Action::Nothing
            } else if !self.password_input.as_str().is_empty() {
                self.password = self.password_input.clone();
                assert(self@ =~= after_enter(old(self)@).0);
                Action::Unlock
            } else {
                Action::Nothing
            }
        } else if self.adding_entry {
            if self.adding_id_mode {
                if !self.new_entry_id.as_str().is_empty() {
                    self.adding_id_mode = false;
                    let mut rows: Vec<(String, String)> = Vec::new();
                    rows.push((String::new(), String::new()));
                    self.new_vars = rows;
                    self.current_var = 0;
                    assert(self@ =~= after_enter(old(self)@).0);
                }
                Action::Nothing
            } else if !self.some_name_empty() || self.some_value_given() {
                let changed = self.save_entry();
                self.adding_entry = false;
                self.new_entry_id = String::new();
                self.new_vars = Vec::new();
                assert(self@ =~= after_enter(old(self)@).0);
                if changed {
                    Action::Save
                } else {
                    Action::Nothing
                }
            } else {
                Action::Nothing
            }
        } else if self.entries.len() > 0 && !self.show_secret {
            self.secret_entry = self.entries[self.selected].clone();
            self.secret_index = 0;
            self.show_secret = true;
            assert(self@ =~= after_enter(old(self)@).0);
            Action::Nothing
        } else if self.show_secret {
            self.on_next_variable();
            Action::Nothing
        } else {
            Action::Nothing
        }
    }

    fn on_add(&mut self)
        ensures
            final(self)@ == after_add(old(self)@),
    {
        if self.vault.is_some() && !self.adding_entry && !self.show_secret {
            self.adding_entry = true;
            self.adding_id_mode = true;
            self.new_entry_id = String::new();
            self.new_vars = Vec::new();
            assert(self@ =~= after_add(old(self)@));
        }
    }

    fn on_delete(&mut self) -> (r: Action)
        requires
            selection_ok(old(self)@),
        ensures
            (final(self)@, r@) == after_delete(old(self)@),
    {
        if self.vault.is_some() && !self.adding_entry && !self.show_secret && self.entries.len() > 0 {
            let entry_id = self.entries.remove(self.selected);
            let mut v = self.vault.take().unwrap();
            v.remove_entry(entry_id.as_str());
            self.vault = Some(v);
            if self.selected > 0 && self.selected >= self.entries.len() {
                self.selected = if self.entries.len() > 0 {
                    self.entries.len() - 1
                } else {
                    0
                };
            }
            assert(self@ =~= after_delete(old(self)@).0);
            Action::Save
        } else {
            Action::Nothing
        }
    }

    fn on_copy(&self) -> (r: Action)
        ensures
            r@ == copy_action(self@),
    {
        if self.show_secret {
            match &self.vault {
                Some(v) => match v.get_entry(self.secret_entry.as_str()) {
                    Some(e) => {
                        if self.secret_index < e.variables.len() {
                            Action::Copy(e.variables.value_at(self.secret_index).clone())
                        } else {
                            Action::Nothing
                        }
                    },
                    None => Action::Nothing,
                },
                None => Action::Nothing,
            }
        } else {
            Action::Nothing
        }
    }

    fn on_new_row(&mut self)
        requires
            old(self).adding_entry && !old(self).adding_id_mode,
        ensures
            final(self)@ == (AppView {
                new_vars: old(self)@.new_vars.push((Seq::<char>::empty(), Seq::<char>::empty())),
                ..old(self)@
            }),
    {
        self.new_vars.push((String::new(), String::new()));
        assert(self@ =~= (AppView {
            new_vars: old(self)@.new_vars.push((Seq::<char>::empty(), Seq::<char>::empty())),
            ..old(self)@
        }));
    }

    fn on_tab(&mut self)
        ensures
            final(self)@ == after_tab(old(self)@),
    {
        let idx = self.current_var;
        if self.adding_entry && !self.adding_id_mode && idx % 2 == 0 && idx < self.new_vars.len()
            && !self.new_vars[idx].0.as_str().is_empty() {
            let (k, _) = self.new_vars.remove(idx);
            self.new_vars.insert(idx, (k, String::new()));
            assert(self@ =~= after_tab(old(self)@));
        }
    }

    fn on_backspace(&mut self)
        ensures
            final(self)@ == after_backspace(old(self)@),
    {
        if self.show_password_input && !self.password_input.as_str().is_empty() {
            pop_char(&mut self.password_input);
            assert(self@ =~= after_backspace(old(self)@));
        } else if self.adding_entry && self.adding_id_mode && !self.new_entry_id.as_str().is_empty() {
            pop_char(&mut self.new_entry_id);
            assert(self@ =~= after_backspace(old(self)@));
        }
    }

    fn on_typed(&mut self, c: char)
        ensures
            final(self)@ == typed(old(self)@, c),
    {
        if self.show_password_input {
            push_char(&mut self.password_input, c);
            assert(self@ =~= typed(old(self)@, c));
        } else if self.adding_entry {
            if self.adding_id_mode {
                push_char(&mut self.new_entry_id, c);
                assert(self@ =~= typed(old(self)@, c));
            } else if self.current_var < self.new_vars.len() {
                let idx = self.current_var;
                let (mut k, mut v) = self.new_vars.remove(idx);
                if idx % 2 == 0 {
                    push_char(&mut k, c);
                } else {
                    push_char(&mut v, c);
                }
                self.new_vars.insert(idx, (k, v));
                assert(self@ =~= typed(old(self)@, c));
            }
        }
    }
}

/// Applies a key press to the front end and says what the caller has to do.
pub fn handle_key(code: Key, app: &mut App) -> (r: Action)
    requires
        selection_ok(old(app)@),
    ensures
        (final(app)@, r@) == step(old(app)@, code),
        consistent(old(app)@) ==> consistent(final(app)@),
        lists_vault(old(app)@) ==> lists_vault(final(app)@),
{
    proof {
        if consistent(old(app)@) {
            lemma_step_consistent(old(app)@, code);
        }
        if lists_vault(old(app)@) {
            lemma_step_lists_vault(old(app)@, code);
        }
    }
    match code {
        Key::Char(c) => {
            if c == 'q' && !app.adding_entry && !app.show_password_input && !app.show_secret {
                Action::Quit
            } else if c == 'a' {
                app.on_add();
                Action::Nothing
            } else if c == 'd' {
                app.on_delete()
            } else if c == 'c' {
                app.on_copy()
            } else if c == 'n' && app.adding_entry && !app.adding_id_mode {
                app.on_new_row();
                Action::Nothing
            } else {
                app.on_typed(c);
                Action::Nothing
            }
        },
        Key::Esc => {
            app.on_esc();
            Action::Nothing
        },
        Key::Up => {
            app.on_up();
            Action::Nothing
        },
        Key::Down => {
            app.on_down();
            Action::Nothing
        },
        Key::Enter => app.on_enter(),
        Key::Tab => {
            app.on_tab();
            Action::Nothing
        },
        Key::Backspace => {
            app.on_backspace();
            Action::Nothing
        },
        Key::Other => Action::Nothing,
    }
}

} // verus!
