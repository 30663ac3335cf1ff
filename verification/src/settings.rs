//! Application settings: which keys and values the settings store accepts,
//! and how a few of them are read back.
//!
//! A batch of settings is a list of distinct keys with their values, in the
//! order in which the caller's map yields them.
use vstd::prelude::*;

use crate::model::{service_from_name, service_name_of, ServiceId};
use crate::text::{
    chars_of, contains_exec, contains_seq, eq_lit, lower_seq, push_all, push_str, string_from_chars,
    to_ascii_lower,
};

verus! {

pub open spec fn pair_views(s: Seq<(String, String)>) -> Seq<(Seq<char>, Seq<char>)> {
    s.map_values(|p: (String, String)| (p.0@, p.1@))
}

/// No key occurs twice in a batch, as in the map it comes from.
pub open spec fn distinct_keys(s: Seq<(Seq<char>, Seq<char>)>) -> bool {
    forall|i: int, j: int| 0 <= i < j < s.len() ==> #[trigger] s[i].0 != #[trigger] s[j].0
}

/// Keys that would hold the access token, which belongs in the credential store.
pub open spec fn is_secret_key(key: Seq<char>) -> bool {
    contains_seq(lower_seq(key), "token"@)
}

pub fn is_secret_setting_key(key: &str) -> (r: bool)
    ensures
        r == is_secret_key(key@),
{
    let lower = to_ascii_lower(&chars_of(key));
    contains_exec(&lower, &chars_of("token"))
}

/// The values that a known setting accepts; other keys accept any value.
pub open spec fn valid_setting(key: Seq<char>, value: Seq<char>) -> bool {
    if key == "language"@ {
        value == "system"@ || value == "zh-CN"@ || value == "en"@
    } else if key == "theme"@ {
        value == "system"@ || value == "light"@ || value == "dark"@
    } else if key == "proxy_mode"@ {
        value == "system"@ || value == "custom"@ || value == "direct"@
    } else if key == "concurrency"@ {
        value == "1"@ || value == "2"@ || value == "3"@ || value == "4"@
    } else if key == "save_history"@ || key == "autostart"@ || key == "onboarding_complete"@ {
        value == "0"@ || value == "1"@
    } else if key == "current_service"@ {
        value == "vl16"@ || value == "pp_ocr_v6"@ || value == "structure_v3"@
    } else {
        true
    }
}

fn valid_setting_exec(key: &Vec<char>, value: &Vec<char>) -> (r: bool)
    ensures
        r == valid_setting(key@, value@),
{
    if eq_lit(key, "language") {
        eq_lit(value, "system") || eq_lit(value, "zh-CN") || eq_lit(value, "en")
    } else if eq_lit(key, "theme") {
        eq_lit(value, "system") || eq_lit(value, "light") || eq_lit(value, "dark")
    } else if eq_lit(key, "proxy_mode") {
        eq_lit(value, "system") || eq_lit(value, "custom") || eq_lit(value, "direct")
    } else if eq_lit(key, "concurrency") {
        eq_lit(value, "1") || eq_lit(value, "2") || eq_lit(value, "3") || eq_lit(value, "4")
    } else if eq_lit(key, "save_history") || eq_lit(key, "autostart") || eq_lit(key, "onboarding_complete") {
        eq_lit(value, "0") || eq_lit(value, "1")
    } else if eq_lit(key, "current_service") {
        eq_lit(value, "vl16") || eq_lit(value, "pp_ocr_v6") || eq_lit(value, "structure_v3")
    } else {
        true
    }
}

/// The values that each known setting accepts, and no others; a key that
/// is not one of them accepts any value.
pub proof fn lemma_setting_values(key: Seq<char>, value: Seq<char>)
    ensures
        key == "language"@ ==> (valid_setting(key, value) <==> (value == "system"@ || value == "zh-CN"@
            || value == "en"@)),
        key == "theme"@ ==> (valid_setting(key, value) <==> (value == "system"@ || value == "light"@
            || value == "dark"@)),
        key == "proxy_mode"@ ==> (valid_setting(key, value) <==> (value == "system"@ || value
            == "custom"@ || value == "direct"@)),
        key == "concurrency"@ ==> (valid_setting(key, value) <==> (value == "1"@ || value == "2"@
            || value == "3"@ || value == "4"@)),
        key == "save_history"@ || key == "autostart"@ || key == "onboarding_complete"@ ==> (
        valid_setting(key, value) <==> (value == "0"@ || value == "1"@)),
        key == "current_service"@ ==> (valid_setting(key, value) <==> (value == "vl16"@ || value
            == "pp_ocr_v6"@ || value == "structure_v3"@)),
        key != "language"@ && key != "theme"@ && key != "proxy_mode"@ && key != "concurrency"@ && key
            != "save_history"@ && key != "autostart"@ && key != "onboarding_complete"@ && key
            != "current_service"@ ==> valid_setting(key, value),
{
    reveal_strlit("language");
    reveal_strlit("theme");
    reveal_strlit("proxy_mode");
    reveal_strlit("concurrency");
    reveal_strlit("save_history");
    reveal_strlit("autostart");
    reveal_strlit("onboarding_complete");
    reveal_strlit("current_service");
    assert("language"@.len() == 8 && "theme"@.len() == 5 && "proxy_mode"@.len() == 10);
    assert("concurrency"@.len() == 11 && "save_history"@.len() == 12 && "autostart"@.len() == 9);
    assert("onboarding_complete"@.len() == 19 && "current_service"@.len() == 15);
    assert("language"@[0] != "autostart"@[0]);
}

pub open spec fn secret_key_message(key: Seq<char>) -> Seq<char> {
    "setting '"@ + key + "' must use Windows Credential Manager"@
}

pub open spec fn invalid_value_message(key: Seq<char>) -> Seq<char> {
    "invalid value for setting '"@ + key + "'"@
}

/// Checks a batch of settings before anything is stored: no key may name the
/// token, and every known key must hold one of its values. The first offending
/// entry, secret keys before invalid values, is reported.
pub fn validate_setting_keys(settings: &Vec<(String, String)>) -> (r: Result<(), String>)
    requires
        distinct_keys(pair_views(settings@)),
    ensures
        r is Ok <==> (forall|i: int|
            0 <= i < settings.len() ==> !is_secret_key(#[trigger] pair_views(settings@)[i].0)) && (forall|i: int|
            0 <= i < settings.len() ==> valid_setting(
                #[trigger] pair_views(settings@)[i].0,
                pair_views(settings@)[i].1,
            )),
        r matches Err(m) ==> {
            let s = pair_views(settings@);
            (exists|i: int|
                0 <= i < s.len() && is_secret_key(s[i].0) && (forall|k: int|
                    0 <= k < i ==> !is_secret_key(#[trigger] s[k].0)) && m@ == secret_key_message(s[i].0))
                || ((forall|k: int| 0 <= k < s.len() ==> !is_secret_key(#[trigger] s[k].0)) && exists|i: int|
                0 <= i < s.len() && !valid_setting(s[i].0, s[i].1) && (forall|k: int|
                    0 <= k < i ==> valid_setting(#[trigger] s[k].0, s[k].1)) && m@
                    == invalid_value_message(s[i].0))
        },
{
    let ghost s = pair_views(settings@);
    let mut i: usize = 0;
    while i < settings.len()
        invariant
            0 <= i <= settings.len(),
            s == pair_views(settings@),
            forall|k: int| 0 <= k < i ==> !is_secret_key(#[trigger] s[k].0),
        decreases settings.len() - i,
    {
        if is_secret_setting_key(settings[i].0.as_str()) {
            let mut m = chars_of("setting '");
            push_str(&mut m, settings[i].0.as_str());
            push_str(&mut m, "' must use Windows Credential Manager");
            assert(s[i as int].0 == settings@[i as int].0@);
            return Err(string_from_chars(&m));
        }
        i = i + 1;
    }
    let mut j: usize = 0;
    while j < settings.len()
        invariant
            0 <= j <= settings.len(),
            s == pair_views(settings@),
            forall|k: int| 0 <= k < settings.len() ==> !is_secret_key(#[trigger] s[k].0),
            forall|k: int| 0 <= k < j ==> valid_setting(#[trigger] s[k].0, s[k].1),
        decreases settings.len() - j,
    {
        let key = chars_of(settings[j].0.as_str());
        let value = chars_of(settings[j].1.as_str());
        if !valid_setting_exec(&key, &value) {
            let mut m = chars_of("invalid value for setting '");
            push_all(&mut m, &key);
            push_str(&mut m, "'");
            assert(s[j as int].0 == key@ && s[j as int].1 == value@);
            return Err(string_from_chars(&m));
        }
        j = j + 1;
    }
    Ok(())
}

/// The batch without the keys that would hold the token.
pub fn public_settings(settings: Vec<(String, String)>) -> (out: Vec<(String, String)>)
    requires
        distinct_keys(pair_views(settings@)),
    ensures
        pair_views(out@) == pair_views(settings@).filter(
            |p: (Seq<char>, Seq<char>)| !is_secret_key(p.0),
        ),
{
    let ghost s = pair_views(settings@);
    let ghost keep = |p: (Seq<char>, Seq<char>)| !is_secret_key(p.0);
    let mut out: Vec<(String, String)> = Vec::new();
    let mut i: usize = 0;
    while i < settings.len()
        invariant
            0 <= i <= settings.len(),
            s == pair_views(settings@),
            keep == (|p: (Seq<char>, Seq<char>)| !is_secret_key(p.0)),
            pair_views(out@) == s.take(i as int).filter(keep),
        decreases settings.len() - i,
    {
        reveal_with_fuel(Seq::<_>::filter, 1);
        assert(s.take(i + 1).drop_last() =~= s.take(i as int));
        if !is_secret_setting_key(settings[i].0.as_str()) {
            let p = (settings[i].0.clone(), settings[i].1.clone());
            let ghost prev = out@;
            out.push(p);
            assert(pair_views(out@) =~= pair_views(prev).push(s[i as int]));
        }
        i = i + 1;
    }
    assert(s.take(settings.len() as int) =~= s);
    out
}

/// Whether recognition results are kept in history after a batch of settings is
/// applied: set by `save_history` when the batch holds it.
pub fn persist_results_setting(settings: &Vec<(String, String)>) -> (r: Option<bool>)
    requires
        distinct_keys(pair_views(settings@)),
    ensures
        match r {
            Some(b) => (exists|i: int|
                0 <= i < settings.len() && pair_views(settings@)[i].0 == "save_history"@) && forall|i: int|
                0 <= i < settings.len() && #[trigger] pair_views(settings@)[i].0 == "save_history"@ ==> b == (
                pair_views(settings@)[i].1 == "1"@),
            None => forall|i: int| 0 <= i < settings.len() ==> pair_views(settings@)[i].0 != "save_history"@,
        },
{
    let ghost s = pair_views(settings@);
    let mut i: usize = 0;
    while i < settings.len()
        invariant
            0 <= i <= settings.len(),
            s == pair_views(settings@),
            distinct_keys(s),
            forall|k: int| 0 <= k < i ==> s[k].0 != "save_history"@,
        decreases settings.len() - i,
    {
        let key = chars_of(settings[i].0.as_str());
        if eq_lit(&key, "save_history") {
            let value = chars_of(settings[i].1.as_str());
            let b = eq_lit(&value, "1");
            assert(s[i as int].0 == key@ && s[i as int].1 == value@);
            assert(0 <= i < settings.len() && pair_views(settings@)[i as int].0 == "save_history"@);
            assert forall|k: int|
                0 <= k < settings.len() && #[trigger] pair_views(settings@)[k].0 == "save_history"@ implies b
                == (pair_views(settings@)[k].1 == "1"@) by {
                if k != i {
                    if k < i {
                        assert(s[k].0 != s[i as int].0);
                    } else {
                        assert(s[i as int].0 != s[k].0);
                    }
                }
            }
            return Some(b);
        }
        i = i + 1;
    }
    None
}

/// The service selected in the settings; PaddleOCR-VL when none is stored.
pub fn current_service_setting(stored: Option<String>) -> (r: Result<ServiceId, String>)
    ensures
        match stored {
            None => r == Ok::<ServiceId, String>(ServiceId::Vl16),
            Some(v) => match r {
                Ok(s) => service_name_of(s) == v@,
                Err(m) => m@ == "invalid stored current service"@ && forall|s: ServiceId|
                    service_name_of(s) != v@,
            },
        },
{
    match stored {
        None => Ok(ServiceId::Vl16),
        Some(v) => match service_from_name(v.as_str()) {
            Some(s) => Ok(s),
            None => Err(crate::text::owned("invalid stored current service")),
        },
    }
}

/// The default screenshot hotkey.
pub const SCREENSHOT_SHORTCUT: &'static str = "Ctrl+Alt+S";

/// The stored screenshot hotkey, or the default one.
pub fn screenshot_hotkey_setting(stored: Option<String>) -> (r: String)
    ensures
        r@ == match stored {
            Some(v) => v@,
            None => SCREENSHOT_SHORTCUT@,
        },
{
    match stored {
        Some(v) => v,
        None => crate::text::owned(SCREENSHOT_SHORTCUT),
    }
}

} // verus!
