//! The language of the native surfaces (tray menu, notifications) and their
//! texts.
use vstd::prelude::*;

use crate::text::{chars_of, eq_lit, lower_seq, occurs_at_exec, starts_with, to_ascii_lower};

verus! {

/// The language of the native surfaces.
#[derive(Debug, Clone, Copy, PartialEq, Eq, Structural)]
pub enum NativeLocale {
    ZhCn,
    En,
}

/// The texts of the tray menu and of the capture notifications.
pub struct NativeCopy {
    pub show: &'static str,
    pub capture: &'static str,
    pub quit: &'static str,
    pub notification_title: &'static str,
    pub capture_done: &'static str,
    pub capture_failed: &'static str,
}

/// Simplified Chinese when the language setting asks for it, or when it follows
/// the system and the system locale is a Chinese one; English otherwise.
pub open spec fn native_locale_of(setting: Seq<char>, system_locale: Option<Seq<char>>) -> NativeLocale {
    let system = match system_locale {
        Some(l) => l,
        None => Seq::empty(),
    };
    if setting == "zh-CN"@ || (setting == "system"@ && starts_with(lower_seq(system), "zh"@)) {
        NativeLocale::ZhCn
    } else {
        NativeLocale::En
    }
}

pub fn resolve_native_locale(setting: &str, system_locale: Option<&str>) -> (locale: NativeLocale)
    ensures
        locale == native_locale_of(
            setting@,
            match system_locale {
                Some(l) => Some(l@),
                None => None,
            },
        ),
{
    let s = chars_of(setting);
    if eq_lit(&s, "zh-CN") {
        return NativeLocale::ZhCn;
    }
    if eq_lit(&s, "system") {
        let system = match system_locale {
            Some(l) => chars_of(l),
            None => Vec::new(),
        };
        let lower = to_ascii_lower(&system);
        if occurs_at_exec(&lower, &chars_of("zh"), 0) {
            return NativeLocale::ZhCn;
        }
    }
    NativeLocale::En
}

/// The preferred locale of the system, as `sys_locale` reports it.
#[verifier::external_body]
fn system_locale() -> (locale: Option<String>) {
    sys_locale::get_locale()
}

/// The native language for a language setting on this system.
pub fn native_locale(setting: &str) -> (locale: NativeLocale)
    ensures
        exists|system: Option<Seq<char>>| locale == native_locale_of(setting@, system),
{
    let system = system_locale();
    let locale = match &system {
        Some(l) => resolve_native_locale(setting, Some(l.as_str())),
        None => resolve_native_locale(setting, None),
    };
    assert(locale == native_locale_of(
        setting@,
        match system {
            Some(l) => Some(l@),
            None => None,
        },
    ));
    locale
}

/// The native texts in a language.
pub fn native_copy(locale: NativeLocale) -> (copy: NativeCopy)
    ensures
        locale == NativeLocale::ZhCn ==> copy.show@ == "显示 PaddleDesk"@ && copy.capture@ == "截图识别"@
            && copy.quit@ == "退出"@ && copy.notification_title@ == "PaddleDesk 截图识别"@
            && copy.capture_done@ == "识别结果已复制到剪贴板"@ && copy.capture_failed@ == "截图识别失败"@,
        locale == NativeLocale::En ==> copy.show@ == "Show PaddleDesk"@ && copy.capture@
            == "Capture and recognize"@ && copy.quit@ == "Quit"@ && copy.notification_title@
            == "PaddleDesk screen recognition"@ && copy.capture_done@
            == "Recognition result copied to the clipboard"@ && copy.capture_failed@
            == "Screen recognition failed"@,
{
    match locale {
        NativeLocale::ZhCn => NativeCopy {
            show: "显示 PaddleDesk",
            capture: "截图识别",
            quit: "退出",
            notification_title: "PaddleDesk 截图识别",
            capture_done: "识别结果已复制到剪贴板",
            capture_failed: "截图识别失败",
        },
        NativeLocale::En => NativeCopy {
            show: "Show PaddleDesk",
            capture: "Capture and recognize",
            quit: "Quit",
            notification_title: "PaddleDesk screen recognition",
            capture_done: "Recognition result copied to the clipboard",
            capture_failed: "Screen recognition failed",
        },
    }
}

} // verus!
