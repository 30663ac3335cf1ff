use vstd::prelude::*;

pub mod credentials;
pub mod export;
pub mod history;
pub mod hotkey;
pub mod ipc;
pub mod model;
pub mod native;
pub mod normalize;
pub mod paddle;
pub mod queue;
pub mod records;
pub mod settings;
pub mod shortcut;
pub mod text;

verus! {

/// The native-autostart change needed to move from `current` to `desired`.
pub fn autostart_change(current: bool, desired: bool) -> (change: Option<bool>)
    ensures
        change == (if current != desired { Some(desired) } else { None::<bool> }),
{
    if current != desired {
        Some(desired)
    } else {
        None
    }
}

} // verus!
