//! Choosing what one invocation does from its arguments.

use vstd::prelude::*;
use crate::apply::OipError;

verus! {

/// What one invocation does.
pub enum Mode {
    /// Restore every backup in the working directory.
    Revert,
    /// Watch the clipboard, then apply it to the given target or, if none,
    /// to an inferred one.
    Interactive(Option<String>),
    /// Apply the clipboard to the given target once.
    OneShot(String),
}

/// Pick the mode: revert wins over everything else, then interactive; a
/// one-shot apply needs a target.
pub fn choose_mode(target: Option<String>, interactive: bool, revert: bool) -> (r: Result<Mode, OipError>)
    ensures
        revert ==> r matches Ok(Mode::Revert),
        !revert && interactive ==> (r matches Ok(Mode::Interactive(t)) && t == target),
        !revert && !interactive ==> match target {
            Some(p) => (r matches Ok(Mode::OneShot(q)) && q == p),
            None => r matches Err(OipError::NoTarget),
        },
{
    if revert {
        Ok(Mode::Revert)
    } else if interactive {
        Ok(Mode::Interactive(target))
    } else {
        match target {
            Some(p) => Ok(Mode::OneShot(p)),
            None => Err(OipError::NoTarget),
        }
    }
}

} // verus!
