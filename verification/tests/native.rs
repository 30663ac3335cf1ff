use paddledesk::autostart_change;
use paddledesk::native::{native_copy, native_locale, resolve_native_locale, NativeLocale};

#[test]
fn resolves_system_language_with_english_fallback() {
    assert_eq!(
        resolve_native_locale("system", Some("zh-Hans-CN")),
        NativeLocale::ZhCn
    );
    assert_eq!(
        resolve_native_locale("system", Some("fr-FR")),
        NativeLocale::En
    );
    assert_eq!(
        resolve_native_locale("zh-CN", Some("en-US")),
        NativeLocale::ZhCn
    );
}

#[test]
fn native_copy_covers_tray_and_capture_notifications() {
    let zh = native_copy(NativeLocale::ZhCn);
    assert_eq!(
        (zh.show, zh.capture, zh.quit),
        ("显示 PaddleDesk", "截图识别", "退出")
    );
    assert_eq!(zh.capture_done, "识别结果已复制到剪贴板");

    let en = native_copy(NativeLocale::En);
    assert_eq!(
        (en.show, en.capture, en.quit),
        ("Show PaddleDesk", "Capture and recognize", "Quit")
    );
    assert_eq!(en.capture_failed, "Screen recognition failed");
}

#[test]
fn disabled_autostart_is_idempotent() {
    assert_eq!(autostart_change(false, false), None);
}

#[test]
fn autostart_changes_only_when_the_state_differs() {
    assert_eq!(autostart_change(false, true), Some(true));
    assert_eq!(autostart_change(true, false), Some(false));
    assert_eq!(autostart_change(true, true), None);
}

#[test]
fn explicit_languages_ignore_the_system_locale() {
    assert_eq!(resolve_native_locale("en", Some("zh-CN")), NativeLocale::En);
    assert_eq!(resolve_native_locale("system", None), NativeLocale::En);
    assert_eq!(resolve_native_locale("system", Some("ZH-tw")), NativeLocale::ZhCn);
    assert_eq!(native_locale("zh-CN"), NativeLocale::ZhCn);
    assert_eq!(native_locale("en"), NativeLocale::En);
}
