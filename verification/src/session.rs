use vstd::prelude::*;
use crate::model::{push_str, AppError};
use crate::text::push_char;

verus! {

// ── When the board is saved ──────────────────────────────────────────────────

/// What the event loop saw.
#[derive(Debug, Clone, Copy, PartialEq, Eq, Structural)]
pub enum LoopEvent {
    /// No input within the poll interval; `since_reorder_ms` is the time since the last
    /// reorder key.
    Tick { since_reorder_ms: u64 },
    /// A key press: whether it reorders cards, and whether it quits.
    Key { reorder: bool, quit: bool },
    /// A mouse click.
    Click,
}

/// What the event loop does about saving.
#[derive(Debug, Clone, Copy, PartialEq, Eq, Structural)]
pub enum SaveAction {
    Nothing,
    Save,
    SaveThenQuit,
    Quit,
}

/// The board is saved after every change, except that reordering waits until one second
/// has passed without input after the last reorder key, or until the program quits.
pub open spec fn save_step_spec(pending: bool, ev: LoopEvent) -> (bool, SaveAction) {
    match ev {
        LoopEvent::Key { reorder, quit } => if quit {
            (
                false,
                if pending {
                    SaveAction::SaveThenQuit
                } else {
                    SaveAction::Quit
                },
            )
        } else if reorder {
            (true, SaveAction::Nothing)
        } else {
            (false, SaveAction::Save)
        },
        LoopEvent::Click => (pending, SaveAction::Save),
        LoopEvent::Tick { since_reorder_ms } => if pending && since_reorder_ms >= 1000 {
            (false, SaveAction::Save)
        } else {
            (pending, SaveAction::Nothing)
        },
    }
}

/// One step of the save policy: with a reorder save `pending`, the event `ev` gives whether
/// one is still pending and what to do now.
pub fn save_step(pending: bool, ev: LoopEvent) -> (r: (bool, SaveAction))
    ensures
        r == save_step_spec(pending, ev),
{
    match ev {
        LoopEvent::Key { reorder, quit } => {
            if quit {
                if pending {
                    (false, SaveAction::SaveThenQuit)
                } else {
                    (false, SaveAction::Quit)
                }
            } else if reorder {
                (true, SaveAction::Nothing)
            } else {
                (false, SaveAction::Save)
            }
        },
        LoopEvent::Click => (pending, SaveAction::Save),
        LoopEvent::Tick { since_reorder_ms } => {
            if pending && since_reorder_ms >= 1000 {
                (false, SaveAction::Save)
            } else {
                (pending, SaveAction::Nothing)
            }
        },
    }
}

/// The save policy over every state and event:
/// - a key that neither reorders nor quits always saves the board at once and leaves no
///   save pending;
/// - a reorder key never saves at once, and leaves a save pending;
/// - quitting saves first exactly when a save is pending, and always quits;
/// - a click always saves, and leaves what was pending;
/// - a quiet poll saves a pending reorder once a second or more has passed since the last
///   reorder key, and otherwise does nothing;
/// - nothing is saved twice: after a save no save is pending, but for a click.
pub proof fn law_save_policy(pending: bool, reorder: bool, since_reorder_ms: u64)
    ensures
        save_step_spec(pending, LoopEvent::Key { reorder: false, quit: false }) == (false, SaveAction::Save),
        save_step_spec(pending, LoopEvent::Key { reorder: true, quit: false }) == (true, SaveAction::Nothing),
        save_step_spec(pending, LoopEvent::Key { reorder, quit: true }).1 == if pending {
            SaveAction::SaveThenQuit
        } else {
            SaveAction::Quit
        },
        save_step_spec(pending, LoopEvent::Click) == (pending, SaveAction::Save),
        pending && since_reorder_ms >= 1000 ==> save_step_spec(
            pending,
            LoopEvent::Tick { since_reorder_ms },
        ) == (false, SaveAction::Save),
        !(pending && since_reorder_ms >= 1000) ==> save_step_spec(
            pending,
            LoopEvent::Tick { since_reorder_ms },
        ) == (pending, SaveAction::Nothing),
        forall|ev: LoopEvent|
            (#[trigger] save_step_spec(pending, ev)).1 == SaveAction::Save && ev != LoopEvent::Click
                ==> !save_step_spec(pending, ev).0,
{
}

// ── Where the board is kept ──────────────────────────────────────────────────

/// The directory `.tudo` under `home`, joined with the separator `sep` unless `home` is
/// empty or already ends with it.
pub open spec fn under_home(home: Seq<char>, sep: char) -> Seq<char> {
    if home.len() == 0 || home.last() == sep {
        home + ".tudo"@
    } else {
        home.push(sep) + ".tudo"@
    }
}

/// The message when no data directory can be found.
pub open spec fn no_home_message() -> Seq<char> {
    "cannot determine application data directory: no valid home directory found"@
}

/// The data directory: the platform's local data directory for the application when there
/// is one, else `.tudo` in the home directory (`HOME`, or else `USERPROFILE`), else an error.
/// `sep` is the platform's path separator.
pub fn data_dir_choice(
    project_dir: Option<String>,
    home: Option<String>,
    userprofile: Option<String>,
    sep: char,
) -> (r: Result<String, AppError>)
    ensures
        match (project_dir, home, userprofile) {
            (Some(p), _, _) => r matches Ok(d) && d@ == p@,
            (None, Some(h), _) => r matches Ok(d) && d@ == under_home(h@, sep),
            (None, None, Some(u)) => r matches Ok(d) && d@ == under_home(u@, sep),
            (None, None, None) => r matches Err(AppError::Other(m)) && m@ == no_home_message(),
        },
{
    if let Some(p) = project_dir {
        return Ok(p);
    }
    let base = match home {
        Some(h) => h,
        None => match userprofile {
            Some(u) => u,
            None => {
                return Err(
                    AppError::Other(
                        "cannot determine application data directory: no valid home directory found".to_owned(),
                    ),
                );
            },
        },
    };
    let cs = crate::text::chars_of(base.as_str());
    let mut d = base;
    if cs.len() > 0 && cs[cs.len() - 1] != sep {
        push_char(&mut d, sep);
    }
    push_str(&mut d, ".tudo");
    Ok(d)
}

} // verus!
