//! Changing the screenshot hotkey: the new shortcut is registered before it
//! is stored, and the old one is released only after the new one is stored;
//! every failure leaves the registrations and the stored settings as they
//! were.
//!
//! The shell owns the global-shortcut registry and the settings store; it
//! performs each [`HotkeyAction`] and answers with a [`HotkeyEvent`].
use vstd::prelude::*;

use crate::shortcut::registration_shortcut;
use crate::text::{replace_all, seq_eq, chars_of};

verus! {

/// What the shell must do next.
pub enum HotkeyAction {
    /// Ask whether a shortcut is registered (answer with `Registered`).
    IsRegistered(String),
    /// Register a shortcut (answer with `Done`).
    Register(String),
    /// Unregister a shortcut (answer with `Done`).
    Unregister(String),
    /// Store settings in one transaction (answer with `Done`).
    Save(Vec<(String, String)>),
    /// The change is over.
    Finish(Result<String, String>),
}

/// The shell's answer.
pub enum HotkeyEvent {
    Registered(bool),
    Done(Result<(), String>),
}

#[derive(Clone, Copy, PartialEq, Eq, Structural)]
pub enum HotkeyPhase {
    /// The shortcut is the stored one: is it registered?
    CheckCurrent,
    /// Marking the stored shortcut available.
    MarkAvailable,
    /// Registering the new shortcut.
    RegisterNew,
    /// Storing the new shortcut.
    SaveNew,
    /// Storing failed; releasing the new shortcut.
    ReleaseNewAfterSave,
    /// Is the previous shortcut registered?
    CheckPrevious,
    /// Releasing the previous shortcut.
    ReleasePrevious,
    /// Releasing the previous shortcut failed; restoring the stored settings.
    Rollback,
    /// Releasing the new shortcut after the rollback.
    ReleaseNewAfterRollback,
    Finished,
}

pub const HOTKEY_KEY: &'static str = "screenshot_hotkey";

pub const AVAILABLE_KEY: &'static str = "screenshot_hotkey_available";

/// A hotkey change in progress.
pub struct HotkeyChange {
    shortcut: String,
    previous: String,
    previous_available: String,
    registered: String,
    failure: String,
    phase: HotkeyPhase,
}

pub open spec fn settings_view(s: Seq<(String, String)>) -> Seq<(Seq<char>, Seq<char>)> {
    s.map_values(|p: (String, String)| (p.0@, p.1@))
}

fn pair(k: &str, v: String) -> (p: (String, String))
    ensures
        p.0@ == k@,
        p.1@ == v@,
{
    (crate::text::owned(k), v)
}

impl HotkeyChange {
    pub closed spec fn phase(&self) -> HotkeyPhase {
        self.phase
    }

    pub closed spec fn shortcut(&self) -> Seq<char> {
        self.shortcut@
    }

    pub closed spec fn previous(&self) -> Seq<char> {
        self.previous@
    }

    pub closed spec fn previous_available(&self) -> Seq<char> {
        self.previous_available@
    }

    /// The spelling under which the new shortcut is registered.
    pub closed spec fn registered(&self) -> Seq<char> {
        self.registered@
    }

    /// The error that the change ends with, once one occurred.
    pub closed spec fn failure(&self) -> Seq<char> {
        self.failure@
    }

    /// Starts changing the hotkey to `shortcut` (already normalised), given the
    /// stored one and its stored availability flag.
    pub fn new(shortcut: String, previous: String, previous_available: String) -> (r: (HotkeyChange, HotkeyAction))
        ensures
            r.0.shortcut() == shortcut@,
            r.0.previous() == previous@,
            r.0.previous_available() == previous_available@,
            r.0.registered() == replace_all(shortcut@, "Win"@, "Super"@),
            shortcut@ == previous@ ==> r.0.phase() == HotkeyPhase::CheckCurrent && (r.1 matches HotkeyAction::IsRegistered(s)
                && s@ == r.0.registered()),
            shortcut@ != previous@ ==> r.0.phase() == HotkeyPhase::RegisterNew && (r.1 matches HotkeyAction::Register(s)
                && s@ == r.0.registered()),
    {
        let registered = registration_shortcut(shortcut.as_str());
        let same = seq_eq(&chars_of(shortcut.as_str()), &chars_of(previous.as_str()));
        let phase = if same {
            HotkeyPhase::CheckCurrent
        } else {
            HotkeyPhase::RegisterNew
        };
        let action = if same {
            HotkeyAction::IsRegistered(registered.clone())
        } else {
            HotkeyAction::Register(registered.clone())
        };
        (
            HotkeyChange {
                shortcut,
                previous,
                previous_available,
                registered,
                failure: String::new(),
                phase,
            },
            action,
        )
    }

    /// Whether `e` answers the action that the change waits on.
    pub open spec fn answers(&self, e: HotkeyEvent) -> bool {
        match self.phase() {
            HotkeyPhase::CheckCurrent | HotkeyPhase::CheckPrevious => e is Registered,
            HotkeyPhase::Finished => false,
            _ => e is Done,
        }
    }

    /// Advances the change on the shell's answer to the last action.
    pub fn step(&mut self, event: HotkeyEvent) -> (a: HotkeyAction)
        requires
            old(self).answers(event),
        ensures
            final(self).shortcut() == old(self).shortcut(),
            final(self).previous() == old(self).previous(),
            final(self).previous_available() == old(self).previous_available(),
            final(self).registered() == old(self).registered(),
            match (old(self).phase(), event) {
                // The stored shortcut is registered: only mark it available.
                (HotkeyPhase::CheckCurrent, HotkeyEvent::Registered(true)) => final(self).phase()
                    == HotkeyPhase::MarkAvailable && (a matches HotkeyAction::Save(s) && settings_view(s@)
                    == seq![(AVAILABLE_KEY@, "1"@)]),
                (HotkeyPhase::CheckCurrent, HotkeyEvent::Registered(false)) => final(self).phase()
                    == HotkeyPhase::RegisterNew && (a matches HotkeyAction::Register(s) && s@ == old(self).registered()),
                (HotkeyPhase::MarkAvailable, HotkeyEvent::Done(r)) => final(self).phase() == HotkeyPhase::Finished
                    && match r {
                    Ok(()) => a matches HotkeyAction::Finish(Ok(s)) && s@ == old(self).shortcut(),
                    Err(e) => a matches HotkeyAction::Finish(Err(x)) && x@ == e@,
                },
                // Registered: store the new shortcut, marked available.
                (HotkeyPhase::RegisterNew, HotkeyEvent::Done(Ok(()))) => final(self).phase() == HotkeyPhase::SaveNew
                    && (a matches HotkeyAction::Save(s) && settings_view(s@) == seq![
                    (HOTKEY_KEY@, old(self).shortcut()),
                    (AVAILABLE_KEY@, "1"@),
                ]),
                (HotkeyPhase::RegisterNew, HotkeyEvent::Done(Err(e))) => final(self).phase() == HotkeyPhase::Finished
                    && (a matches HotkeyAction::Finish(Err(x)) && x@ == e@),
                // Storing failed: release the new shortcut, then fail.
                (HotkeyPhase::SaveNew, HotkeyEvent::Done(Err(e))) => final(self).phase()
                    == HotkeyPhase::ReleaseNewAfterSave && final(self).failure() == e@ && (a matches HotkeyAction::Unregister(s)
                    && s@ == old(self).registered()),
                (HotkeyPhase::ReleaseNewAfterSave, HotkeyEvent::Done(_)) => final(self).phase() == HotkeyPhase::Finished
                    && (a matches HotkeyAction::Finish(Err(x)) && x@ == old(self).failure()),
                // Stored: the previous shortcut, if it differs, is released.
                (HotkeyPhase::SaveNew, HotkeyEvent::Done(Ok(()))) => if old(self).shortcut() == old(self).previous() {
                    final(self).phase() == HotkeyPhase::Finished && (a matches HotkeyAction::Finish(Ok(s)) && s@
                        == old(self).shortcut())
                } else {
                    final(self).phase() == HotkeyPhase::CheckPrevious && (a matches HotkeyAction::IsRegistered(s)
                        && s@ == replace_all(old(self).previous(), "Win"@, "Super"@))
                },
                (HotkeyPhase::CheckPrevious, HotkeyEvent::Registered(false)) => final(self).phase()
                    == HotkeyPhase::Finished && (a matches HotkeyAction::Finish(Ok(s)) && s@ == old(self).shortcut()),
                (HotkeyPhase::CheckPrevious, HotkeyEvent::Registered(true)) => final(self).phase()
                    == HotkeyPhase::ReleasePrevious && (a matches HotkeyAction::Unregister(s) && s@ == replace_all(
                    old(self).previous(),
                    "Win"@,
                    "Super"@,
                )),
                (HotkeyPhase::ReleasePrevious, HotkeyEvent::Done(Ok(()))) => final(self).phase()
                    == HotkeyPhase::Finished && (a matches HotkeyAction::Finish(Ok(s)) && s@ == old(self).shortcut()),
                // Releasing the previous shortcut failed: restore the stored
                // settings, release the new shortcut, then fail.
                (HotkeyPhase::ReleasePrevious, HotkeyEvent::Done(Err(e))) => final(self).phase()
                    == HotkeyPhase::Rollback && final(self).failure() == e@ && (a matches HotkeyAction::Save(s)
                    && settings_view(s@) == seq![
                    (HOTKEY_KEY@, old(self).previous()),
                    (AVAILABLE_KEY@, old(self).previous_available()),
                ]),
                (HotkeyPhase::Rollback, HotkeyEvent::Done(_)) => final(self).phase()
                    == HotkeyPhase::ReleaseNewAfterRollback && final(self).failure() == old(self).failure() && (
                a matches HotkeyAction::Unregister(s) && s@ == old(self).registered()),
                (HotkeyPhase::ReleaseNewAfterRollback, HotkeyEvent::Done(_)) => final(self).phase()
                    == HotkeyPhase::Finished && (a matches HotkeyAction::Finish(Err(x)) && x@ == old(self).failure()),
                _ => false,
            },
    {
        match (self.phase, event) {
            (HotkeyPhase::CheckCurrent, HotkeyEvent::Registered(true)) => {
                self.phase = HotkeyPhase::MarkAvailable;
                let mut s: Vec<(String, String)> = Vec::new();
                s.push(pair(AVAILABLE_KEY, crate::text::owned("1")));
                assert(settings_view(s@) =~= seq![(AVAILABLE_KEY@, "1"@)]);
                HotkeyAction::Save(s)
            },
            (HotkeyPhase::CheckCurrent, HotkeyEvent::Registered(false)) => {
                self.phase = HotkeyPhase::RegisterNew;
                HotkeyAction::Register(self.registered.clone())
            },
            (HotkeyPhase::MarkAvailable, HotkeyEvent::Done(r)) => {
                self.phase = HotkeyPhase::Finished;
                match r {
                    Ok(()) => HotkeyAction::Finish(Ok(self.shortcut.clone())),
                    Err(e) => HotkeyAction::Finish(Err(e)),
                }
            },
            (HotkeyPhase::RegisterNew, HotkeyEvent::Done(Ok(()))) => {
                self.phase = HotkeyPhase::SaveNew;
                let mut s: Vec<(String, String)> = Vec::new();
                s.push(pair(HOTKEY_KEY, self.shortcut.clone()));
                s.push(pair(AVAILABLE_KEY, crate::text::owned("1")));
                assert(settings_view(s@) =~= seq![(HOTKEY_KEY@, self.shortcut@), (AVAILABLE_KEY@, "1"@)]);
                HotkeyAction::Save(s)
            },
            (HotkeyPhase::RegisterNew, HotkeyEvent::Done(Err(e))) => {
                self.phase = HotkeyPhase::Finished;
                HotkeyAction::Finish(Err(e))
            },
            (HotkeyPhase::SaveNew, HotkeyEvent::Done(Err(e))) => {
                self.phase = HotkeyPhase::ReleaseNewAfterSave;
                self.failure = e;
                HotkeyAction::Unregister(self.registered.clone())
            },
            (HotkeyPhase::ReleaseNewAfterSave, HotkeyEvent::Done(_)) => {
                self.phase = HotkeyPhase::Finished;
                HotkeyAction::Finish(Err(self.failure.clone()))
            },
            (HotkeyPhase::SaveNew, HotkeyEvent::Done(Ok(()))) => {
                if seq_eq(&chars_of(self.shortcut.as_str()), &chars_of(self.previous.as_str())) {
                    self.phase = HotkeyPhase::Finished;
                    HotkeyAction::Finish(Ok(self.shortcut.clone()))
                } else {
                    self.phase = HotkeyPhase::CheckPrevious;
                    HotkeyAction::IsRegistered(registration_shortcut(self.previous.as_str()))
                }
            },
            (HotkeyPhase::CheckPrevious, HotkeyEvent::Registered(false)) => {
                self.phase = HotkeyPhase::Finished;
                HotkeyAction::Finish(Ok(self.shortcut.clone()))
            },
            (HotkeyPhase::CheckPrevious, HotkeyEvent::Registered(true)) => {
                self.phase = HotkeyPhase::ReleasePrevious;
                HotkeyAction::Unregister(registration_shortcut(self.previous.as_str()))
            },
            (HotkeyPhase::ReleasePrevious, HotkeyEvent::Done(Ok(()))) => {
                self.phase = HotkeyPhase::Finished;
                HotkeyAction::Finish(Ok(self.shortcut.clone()))
            },
            (HotkeyPhase::ReleasePrevious, HotkeyEvent::Done(Err(e))) => {
                self.phase = HotkeyPhase::Rollback;
                self.failure = e;
                let mut s: Vec<(String, String)> = Vec::new();
                s.push(pair(HOTKEY_KEY, self.previous.clone()));
                s.push(pair(AVAILABLE_KEY, self.previous_available.clone()));
                assert(settings_view(s@) =~= seq![
                    (HOTKEY_KEY@, self.previous@),
                    (AVAILABLE_KEY@, self.previous_available@),
                ]);
                HotkeyAction::Save(s)
            },
            (HotkeyPhase::Rollback, HotkeyEvent::Done(_)) => {
                self.phase = HotkeyPhase::ReleaseNewAfterRollback;
                HotkeyAction::Unregister(self.registered.clone())
            },
            (HotkeyPhase::ReleaseNewAfterRollback, HotkeyEvent::Done(_)) => {
                self.phase = HotkeyPhase::Finished;
                HotkeyAction::Finish(Err(self.failure.clone()))
            },
            _ => {
                assert(false);
                HotkeyAction::Finish(Err(String::new()))
            },
        }
    }
}

} // verus!
