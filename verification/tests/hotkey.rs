use paddledesk::hotkey::{HotkeyAction, HotkeyChange, HotkeyEvent, AVAILABLE_KEY, HOTKEY_KEY};

fn saved(action: &HotkeyAction) -> Vec<(String, String)> {
    match action {
        HotkeyAction::Save(settings) => settings.clone(),
        _ => panic!("expected settings to store"),
    }
}

#[test]
fn changing_the_hotkey_registers_stores_then_releases_the_old_one() {
    let (mut change, action) =
        HotkeyChange::new("Win+Shift+X".into(), "Ctrl+Alt+S".into(), "1".into());
    assert!(matches!(&action, HotkeyAction::Register(s) if s == "Super+Shift+X"));
    let action = change.step(HotkeyEvent::Done(Ok(())));
    assert_eq!(
        saved(&action),
        vec![
            (HOTKEY_KEY.to_string(), "Win+Shift+X".to_string()),
            (AVAILABLE_KEY.to_string(), "1".to_string()),
        ]
    );
    let action = change.step(HotkeyEvent::Done(Ok(())));
    assert!(matches!(&action, HotkeyAction::IsRegistered(s) if s == "Ctrl+Alt+S"));
    let action = change.step(HotkeyEvent::Registered(true));
    assert!(matches!(&action, HotkeyAction::Unregister(s) if s == "Ctrl+Alt+S"));
    let action = change.step(HotkeyEvent::Done(Ok(())));
    assert!(matches!(&action, HotkeyAction::Finish(Ok(s)) if s == "Win+Shift+X"));
}

#[test]
fn keeping_a_registered_hotkey_only_marks_it_available() {
    let (mut change, action) = HotkeyChange::new("F8".into(), "F8".into(), "0".into());
    assert!(matches!(&action, HotkeyAction::IsRegistered(s) if s == "F8"));
    let action = change.step(HotkeyEvent::Registered(true));
    assert_eq!(
        saved(&action),
        vec![(AVAILABLE_KEY.to_string(), "1".to_string())]
    );
    let action = change.step(HotkeyEvent::Done(Ok(())));
    assert!(matches!(&action, HotkeyAction::Finish(Ok(s)) if s == "F8"));
}

#[test]
fn a_failed_store_releases_the_new_hotkey() {
    let (mut change, _) = HotkeyChange::new("Ctrl+F1".into(), "Ctrl+Alt+S".into(), "1".into());
    change.step(HotkeyEvent::Done(Ok(())));
    let action = change.step(HotkeyEvent::Done(Err("database locked".into())));
    assert!(matches!(&action, HotkeyAction::Unregister(s) if s == "Ctrl+F1"));
    let action = change.step(HotkeyEvent::Done(Ok(())));
    assert!(matches!(&action, HotkeyAction::Finish(Err(e)) if e == "database locked"));
}

#[test]
fn a_failed_release_rolls_the_settings_back() {
    let (mut change, _) = HotkeyChange::new("Ctrl+F1".into(), "Ctrl+Alt+S".into(), "0".into());
    change.step(HotkeyEvent::Done(Ok(())));
    change.step(HotkeyEvent::Done(Ok(())));
    change.step(HotkeyEvent::Registered(true));
    let action = change.step(HotkeyEvent::Done(Err("busy".into())));
    assert_eq!(
        saved(&action),
        vec![
            (HOTKEY_KEY.to_string(), "Ctrl+Alt+S".to_string()),
            (AVAILABLE_KEY.to_string(), "0".to_string()),
        ]
    );
    let action = change.step(HotkeyEvent::Done(Ok(())));
    assert!(matches!(&action, HotkeyAction::Unregister(s) if s == "Ctrl+F1"));
    let action = change.step(HotkeyEvent::Done(Ok(())));
    assert!(matches!(&action, HotkeyAction::Finish(Err(e)) if e == "busy"));
}

#[test]
fn a_failed_registration_ends_the_change() {
    let (mut change, _) = HotkeyChange::new("Ctrl+F2".into(), "Ctrl+Alt+S".into(), "1".into());
    let action = change.step(HotkeyEvent::Done(Err("taken".into())));
    assert!(matches!(&action, HotkeyAction::Finish(Err(e)) if e == "taken"));
}
