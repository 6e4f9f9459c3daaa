//! The decisions of the command-line front end.

use vstd::prelude::*;
use crate::text::{trim, trimmed};
use crate::vault::VaultEntry;

verus! {

/// Why a new master password is refused.
#[derive(Debug, Clone, Copy, PartialEq, Eq, Structural)]
pub enum InitError {
    /// The password is empty.
    EmptyPassword,
    /// The confirmation differs from the password.
    Mismatch,
}

/// Accepts a master password that is not empty.
pub fn require_password(password: &str) -> (r: Result<(), InitError>)
    ensures
        match r {
            Ok(()) => password@.len() > 0,
            Err(e) => password@.len() == 0 && e == InitError::EmptyPassword,
        },
{
    if password.is_empty() {
        Err(InitError::EmptyPassword)
    } else {
        Ok(())
    }
}

/// Accepts a confirmation that repeats the password.
pub fn confirm_password(password: &str, confirm: &str) -> (r: Result<(), InitError>)
    ensures
        match r {
            Ok(()) => password@ == confirm@,
            Err(e) => password@ != confirm@ && e == InitError::Mismatch,
        },
{
    let a = password.to_owned();
    let b = confirm.to_owned();
    if a == b {
        Ok(())
    } else {
        Err(InitError::Mismatch)
    }
}

/// Accepts a new master password when it is not empty and the confirmation
/// repeats it.
pub fn check_new_password(password: &str, confirm: &str) -> (r: Result<(), InitError>)
    ensures
        match r {
            Ok(()) => password@.len() > 0 && password@ == confirm@,
            Err(e) => if password@.len() == 0 {
                e == InitError::EmptyPassword
            } else {
                password@ != confirm@ && e == InitError::Mismatch
            },
        },
{
    match require_password(password) {
        Ok(()) => confirm_password(password, confirm),
        Err(e) => Err(e),
    }
}

/// The name of a variable typed on a line: the trimmed line, or `None` when it
/// is empty, which ends the input of variables.
pub fn variable_name(line: &str) -> (r: Option<String>)
    ensures
        match r {
            Some(name) => name@ == trimmed(line@) && name@.len() > 0,
            None => trimmed(line@).len() == 0,
        },
{
    let name = trim(line);
    if name.as_str().is_empty() {
        None
    } else {
        Some(name)
    }
}

/// The lines that show the variables of an entry: `  NAME=value`, in order.
pub fn variable_lines(entry: &VaultEntry) -> (r: Vec<String>)
    ensures
        r@.map_values(|s: String| s@) == Seq::new(
            entry@.variables.len(),
            |i: int| "  "@ + entry@.variables[i].0 + "="@ + entry@.variables[i].1,
        ),
{
    let ghost want = Seq::new(
        entry@.variables.len(),
        |i: int| "  "@ + entry@.variables[i].0 + "="@ + entry@.variables[i].1,
    );
    let mut out: Vec<String> = Vec::new();
    let mut i: usize = 0;
    while i < entry.variables.len()
        invariant
            i <= entry@.variables.len(),
            want == Seq::new(
                entry@.variables.len(),
                |i: int| "  "@ + entry@.variables[i].0 + "="@ + entry@.variables[i].1,
            ),
            out@.map_values(|s: String| s@) == want.take(i as int),
        decreases entry@.variables.len() - i,
    {
        let mut line = String::new();
        line.append("  ");
        line.append(entry.variables.key_at(i).as_str());
        line.append("=");
        line.append(entry.variables.value_at(i).as_str());
        assert(line@ == want[i as int]);
        out.push(line);
        assert(want.take(i + 1) =~= want.take(i as int).push(want[i as int]));
        assert(out@.map_values(|s: String| s@) =~= want.take(i + 1));
        i += 1;
    }
    assert(want.take(i as int) =~= want);
    out
}

} // verus!
