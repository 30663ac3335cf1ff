//! Screenshot hotkeys: validation and canonical spelling.
use vstd::prelude::*;

use crate::text::{
    all_digits, chars_of, contains_char, eq_lit, is_ascii_alnum, is_ascii_digit, join,
    lemma_split_join, lemma_split_pieces, lemma_split_without, lemma_trim_fixed,
    lemma_trim_keeps_absent, lemma_upper_seq, parse_unsigned, parse_unsigned_exec, push_all, push_str,
    replace_all, replace_chars, split_char, split_exec, string_from_chars, to_ascii_upper, trim,
    trim_chars, upper_seq, views_of,
};

verus! {

/// `F1` to `F12` (the number may carry a `+` sign or leading zeros, as
/// `u8::from_str` accepts them).
pub open spec fn is_function_key_of(key: Seq<char>) -> bool {
    key.len() > 0 && key[0] == 'F' && match parse_unsigned(key.drop_first(), 255) {
        Some(n) => 1 <= n <= 12,
        None => false,
    }
}

pub fn is_function_key(key: &str) -> (r: bool)
    ensures
        r == is_function_key_of(key@),
{
    is_function_key_chars(&chars_of(key))
}

fn is_function_key_chars(key: &Vec<char>) -> (r: bool)
    ensures
        r == is_function_key_of(key@),
{
    if key.len() == 0 || key[0] != 'F' {
        return false;
    }
    let mut rest: Vec<char> = Vec::new();
    let mut i: usize = 1;
    while i < key.len()
        invariant
            1 <= i <= key.len(),
            rest@ =~= key@.subrange(1, i as int),
        decreases key.len() - i,
    {
        rest.push(key[i]);
        i = i + 1;
    }
    assert(rest@ =~= key@.drop_first());
    match parse_unsigned_exec(&rest, 255) {
        Some(n) => 1 <= n && n <= 12,
        None => false,
    }
}

/// The keys of a shortcut: its `+`-separated pieces, trimmed, empty ones dropped.
pub open spec fn key_parts(pieces: Seq<Seq<char>>) -> Seq<Seq<char>>
    decreases pieces.len(),
{
    if pieces.len() == 0 {
        Seq::empty()
    } else if trim(pieces.last()).len() > 0 {
        key_parts(pieces.drop_last()).push(trim(pieces.last()))
    } else {
        key_parts(pieces.drop_last())
    }
}

pub open spec fn shortcut_keys(shortcut: Seq<char>) -> Seq<Seq<char>> {
    key_parts(split_char(shortcut, '+'))
}

#[derive(Debug, Clone, Copy, PartialEq, Eq, Structural)]
pub enum Modifier {
    Ctrl,
    Alt,
    Shift,
    Win,
}

/// The modifier that an upper-cased key names, if any.
pub open spec fn modifier_of(u: Seq<char>) -> Option<Modifier> {
    if u == "CTRL"@ || u == "CONTROL"@ {
        Some(Modifier::Ctrl)
    } else if u == "ALT"@ {
        Some(Modifier::Alt)
    } else if u == "SHIFT"@ {
        Some(Modifier::Shift)
    } else if u == "WIN"@ || u == "WINDOWS"@ || u == "SUPER"@ || u == "META"@ {
        Some(Modifier::Win)
    } else {
        None
    }
}

/// A main key is one ASCII letter or digit, or a function key.
pub open spec fn is_main_key(u: Seq<char>) -> bool {
    (u.len() == 1 && is_ascii_alnum(u[0])) || is_function_key_of(u)
}

/// The modifiers and the main key seen so far.
pub struct Keys {
    pub ctrl: bool,
    pub alt: bool,
    pub win: bool,
    pub shift: bool,
    pub main: Option<Seq<char>>,
}

pub open spec fn has_modifier(k: Keys, m: Modifier) -> bool {
    match m {
        Modifier::Ctrl => k.ctrl,
        Modifier::Alt => k.alt,
        Modifier::Win => k.win,
        Modifier::Shift => k.shift,
    }
}

pub open spec fn with_modifier(k: Keys, m: Modifier) -> Keys {
    match m {
        Modifier::Ctrl => Keys { ctrl: true, ..k },
        Modifier::Alt => Keys { alt: true, ..k },
        Modifier::Win => Keys { win: true, ..k },
        Modifier::Shift => Keys { shift: true, ..k },
    }
}

/// Adds one (upper-cased) key.
pub open spec fn add_key(k: Keys, u: Seq<char>) -> Result<Keys, Seq<char>> {
    match modifier_of(u) {
        Some(m) => if has_modifier(k, m) {
            Err("shortcut contains a duplicate modifier"@)
        } else {
            Ok(with_modifier(k, m))
        },
        None => if !is_main_key(u) || k.main is Some {
            Err("shortcut must contain exactly one main key"@)
        } else {
            Ok(Keys { main: Some(u), ..k })
        },
    }
}

/// The first `n` keys, added in order; the first failure wins.
pub open spec fn add_keys(parts: Seq<Seq<char>>, n: nat) -> Result<Keys, Seq<char>>
    decreases n,
{
    if n == 0 {
        Ok(Keys { ctrl: false, alt: false, win: false, shift: false, main: None })
    } else {
        match add_keys(parts, (n - 1) as nat) {
            Ok(k) => add_key(k, upper_seq(parts[n - 1])),
            Err(e) => Err(e),
        }
    }
}

/// The canonical spelling: modifiers in the order Ctrl, Alt, Win, Shift, then the
/// main key, joined by `+`.
pub open spec fn spelled(k: Keys) -> Seq<char> {
    join(modifier_names(k.ctrl, k.alt, k.win, k.shift).push(k.main->0), "+"@)
}

/// The names of the chosen modifiers in the order Ctrl, Alt, Win, Shift.
pub open spec fn modifier_names(ctrl: bool, alt: bool, win: bool, shift: bool) -> Seq<Seq<char>> {
    (if ctrl {
        seq!["Ctrl"@]
    } else {
        Seq::empty()
    }) + (if alt {
        seq!["Alt"@]
    } else {
        Seq::empty()
    }) + (if win {
        seq!["Win"@]
    } else {
        Seq::empty()
    }) + (if shift {
        seq!["Shift"@]
    } else {
        Seq::empty()
    })
}

/// A shortcut is a single function key, or two to five keys of which exactly one
/// is a main key and the others distinct modifiers. Keys are compared without
/// ASCII case.
pub open spec fn normalized_shortcut(shortcut: Seq<char>) -> Result<Seq<char>, Seq<char>> {
    let parts = shortcut_keys(shortcut);
    if parts.len() == 1 {
        if is_function_key_of(upper_seq(parts[0])) {
            Ok(upper_seq(parts[0]))
        } else {
            Err("single-key shortcuts must be F1-F12"@)
        }
    } else if !(2 <= parts.len() <= 5) {
        Err("shortcut must contain 2 to 5 keys"@)
    } else {
        match add_keys(parts, parts.len()) {
            Err(e) => Err(e),
            Ok(k) => if k.main is None {
                Err("shortcut is missing a main key"@)
            } else if !(k.ctrl || k.alt || k.win || k.shift) {
                Err("shortcut must contain a modifier"@)
            } else {
                Ok(spelled(k))
            },
        }
    }
}

fn keys_of(shortcut: &str) -> (parts: Vec<Vec<char>>)
    ensures
        views_of(parts@) == shortcut_keys(shortcut@),
{
    let pieces = split_exec(&chars_of(shortcut), '+');
    let ghost pv = views_of(pieces@);
    let mut parts: Vec<Vec<char>> = Vec::new();
    let mut i: usize = 0;
    while i < pieces.len()
        invariant
            0 <= i <= pieces.len(),
            pv == views_of(pieces@),
            views_of(parts@) == key_parts(pv.take(i as int)),
        decreases pieces.len() - i,
    {
        let t = trim_chars(&pieces[i]);
        assert(pv.take(i + 1).drop_last() =~= pv.take(i as int));
        assert(pv.take(i + 1).last() == pieces@[i as int]@);
        if t.len() > 0 {
            let ghost prev = parts@;
            parts.push(t);
            assert(views_of(parts@) =~= views_of(prev).push(t@));
        }
        i = i + 1;
    }
    assert(pv.take(pieces.len() as int) =~= pv);
    parts
}

fn modifier_exec(u: &Vec<char>) -> (m: Option<Modifier>)
    ensures
        m == modifier_of(u@),
{
    if eq_lit(u, "CTRL") || eq_lit(u, "CONTROL") {
        Some(Modifier::Ctrl)
    } else if eq_lit(u, "ALT") {
        Some(Modifier::Alt)
    } else if eq_lit(u, "SHIFT") {
        Some(Modifier::Shift)
    } else if eq_lit(u, "WIN") || eq_lit(u, "WINDOWS") || eq_lit(u, "SUPER") || eq_lit(u, "META") {
        Some(Modifier::Win)
    } else {
        None
    }
}

/// Validates a shortcut and spells it canonically.
pub fn normalize_shortcut(shortcut: &str) -> (r: Result<String, String>)
    ensures
        match normalized_shortcut(shortcut@) {
            Ok(s) => r matches Ok(x) && x@ == s,
            Err(e) => r matches Err(x) && x@ == e,
        },
{
    let parts = keys_of(shortcut);
    let ghost pv = views_of(parts@);
    if parts.len() == 1 {
        let key = to_ascii_upper(&parts[0]);
        if is_function_key_chars(&key) {
            return Ok(string_from_chars(&key));
        }
        return Err(crate::text::owned("single-key shortcuts must be F1-F12"));
    }
    if !(2 <= parts.len() && parts.len() <= 5) {
        return Err(crate::text::owned("shortcut must contain 2 to 5 keys"));
    }
    let mut ctrl = false;
    let mut alt = false;
    let mut win = false;
    let mut shift = false;
    let mut main: Option<Vec<char>> = None;
    let mut i: usize = 0;
    while i < parts.len()
        invariant
            0 <= i <= parts.len(),
            pv == views_of(parts@),
            pv == shortcut_keys(shortcut@),
            2 <= parts.len() <= 5,
            add_keys(pv, i as nat) == Ok::<Keys, Seq<char>>(
                Keys {
                    ctrl,
                    alt,
                    win,
                    shift,
                    main: match main {
                        Some(m) => Some(m@),
                        None => None,
                    },
                },
            ),
        decreases parts.len() - i,
    {
        let upper = to_ascii_upper(&parts[i]);
        assert(upper@ == upper_seq(pv[i as int]));
        match modifier_exec(&upper) {
            Some(m) => {
                let present = match m {
                    Modifier::Ctrl => ctrl,
                    Modifier::Alt => alt,
                    Modifier::Win => win,
                    Modifier::Shift => shift,
                };
                if present {
                    proof {
                        lemma_add_keys_err(pv, (i + 1) as nat, pv.len());
                    }
                    return Err(crate::text::owned("shortcut contains a duplicate modifier"));
                }
                match m {
                    Modifier::Ctrl => ctrl = true,
                    Modifier::Alt => alt = true,
                    Modifier::Win => win = true,
                    Modifier::Shift => shift = true,
                }
            },
            None => {
                let valid_main = (upper.len() == 1 && crate::text::char_is_ascii_alnum(upper[0]))
                    || is_function_key_chars(&upper);
                if !valid_main || main.is_some() {
                    proof {
                        lemma_add_keys_err(pv, (i + 1) as nat, pv.len());
                    }
                    return Err(crate::text::owned("shortcut must contain exactly one main key"));
                }
                main = Some(upper);
            },
        }
        i = i + 1;
    }
    let main_key = match main {
        Some(m) => m,
        None => return Err(crate::text::owned("shortcut is missing a main key")),
    };
    if !(ctrl || alt || win || shift) {
        return Err(crate::text::owned("shortcut must contain a modifier"));
    }
    let mut names: Vec<Vec<char>> = Vec::new();
    if ctrl {
        names.push(chars_of("Ctrl"));
    }
    if alt {
        names.push(chars_of("Alt"));
    }
    if win {
        names.push(chars_of("Win"));
    }
    if shift {
        names.push(chars_of("Shift"));
    }
    names.push(main_key);
    let ghost k = Keys { ctrl, alt, win, shift, main: Some(main_key@) };
    assert(views_of(names@) =~= ((if ctrl {
        seq!["Ctrl"@]
    } else {
        Seq::empty()
    }) + (if alt {
        seq!["Alt"@]
    } else {
        Seq::empty()
    }) + (if win {
        seq!["Win"@]
    } else {
        Seq::empty()
    }) + (if shift {
        seq!["Shift"@]
    } else {
        Seq::empty()
    })).push(main_key@));
    let out = crate::text::join_chars(&names, "+");
    Ok(string_from_chars(&out))
}

proof fn lemma_add_keys_err(parts: Seq<Seq<char>>, k: nat, n: nat)
    requires
        k <= n,
        add_keys(parts, k) is Err,
    ensures
        add_keys(parts, n) == add_keys(parts, k),
    decreases n - k,
{
    if k < n {
        lemma_add_keys_err(parts, k, (n - 1) as nat);
    }
}

/// The spelling that the global-shortcut registry expects: `Win` is `Super`.
pub fn registration_shortcut(shortcut: &str) -> (r: String)
    ensures
        r@ == replace_all(shortcut@, "Win"@, "Super"@),
{
    let s = chars_of(shortcut);
    let pat = chars_of("Win");
    proof {
        reveal_strlit("Win");
    }
    let out = replace_chars(&s, &pat, &chars_of("Super"));
    string_from_chars(&out)
}

// ---------------------------------------------------------------------------
// The canonical spelling is a fixed point
// ---------------------------------------------------------------------------

proof fn lemma_key_parts_fixed(ps: Seq<Seq<char>>)
    requires
        forall|i: int| 0 <= i < ps.len() ==> trim(#[trigger] ps[i]) == ps[i] && ps[i].len() > 0,
    ensures
        key_parts(ps) == ps,
    decreases ps.len(),
{
    if ps.len() > 0 {
        lemma_key_parts_fixed(ps.drop_last());
        assert(trim(ps[ps.len() - 1]) == ps.last());
        assert(ps.drop_last().push(ps.last()) =~= ps);
    }
}

proof fn lemma_key_parts_absent(ps: Seq<Seq<char>>, c: char)
    requires
        forall|i: int| 0 <= i < ps.len() ==> !contains_char(#[trigger] ps[i], c),
    ensures
        forall|i: int| 0 <= i < key_parts(ps).len() ==> !contains_char(#[trigger] key_parts(ps)[i], c),
    decreases ps.len(),
{
    if ps.len() > 0 {
        lemma_key_parts_absent(ps.drop_last(), c);
        assert(!contains_char(ps[ps.len() - 1], c));
        lemma_trim_keeps_absent(ps.last(), c);
        let rest = key_parts(ps.drop_last());
        if trim(ps.last()).len() > 0 {
            assert forall|i: int| 0 <= i < key_parts(ps).len() implies !contains_char(
                #[trigger] key_parts(ps)[i],
                c,
            ) by {
                if i < rest.len() {
                    assert(key_parts(ps)[i] == rest[i]);
                }
            }
        }
    }
}

/// No key of a shortcut holds `+`.
proof fn lemma_keys_without_plus(shortcut: Seq<char>)
    ensures
        forall|i: int|
            0 <= i < shortcut_keys(shortcut).len() ==> !contains_char(
                #[trigger] shortcut_keys(shortcut)[i],
                '+',
            ),
{
    lemma_split_pieces(shortcut, '+');
    lemma_key_parts_absent(split_char(shortcut, '+'), '+');
}

proof fn lemma_add_keys_prefix(p: Seq<Seq<char>>, x: Seq<char>, n: nat)
    requires
        n <= p.len(),
    ensures
        add_keys(p.push(x), n) == add_keys(p, n),
    decreases n,
{
    if n > 0 {
        lemma_add_keys_prefix(p, x, (n - 1) as nat);
        assert(p.push(x)[n - 1] == p[n - 1]);
    }
}

/// Adding one more key to a list of keys.
proof fn lemma_add_keys_push(p: Seq<Seq<char>>, x: Seq<char>)
    ensures
        add_keys(p.push(x), p.len() + 1) == match add_keys(p, p.len()) {
            Ok(k) => add_key(k, upper_seq(x)),
            Err(e) => Err(e),
        },
{
    lemma_add_keys_prefix(p, x, p.len());
    assert(p.push(x)[p.len() as int] == x);
}

/// The main key of a valid list of keys is one of the keys, upper-cased,
/// and names no modifier.
proof fn lemma_add_keys_main(p: Seq<Seq<char>>, n: nat)
    requires
        n <= p.len(),
        add_keys(p, n) is Ok,
        add_keys(p, n)->Ok_0.main is Some,
    ensures
        ({
            let m = add_keys(p, n)->Ok_0.main->0;
            &&& is_main_key(m)
            &&& modifier_of(m) is None
            &&& exists|j: int| 0 <= j < n && m == upper_seq(#[trigger] p[j])
        }),
    decreases n,
{
    let k0 = add_keys(p, (n - 1) as nat)->Ok_0;
    let u = upper_seq(p[n - 1]);
    if k0.main is Some && add_keys(p, n)->Ok_0.main == k0.main {
        lemma_add_keys_main(p, (n - 1) as nat);
        let j = choose|j: int| 0 <= j < n - 1 && k0.main->0 == upper_seq(#[trigger] p[j]);
        assert(0 <= j < n && add_keys(p, n)->Ok_0.main->0 == upper_seq(p[j]));
    } else {
        assert(add_keys(p, n)->Ok_0.main->0 == u);
        assert(u == upper_seq(p[n - 1]));
    }
}

proof fn lemma_main_key_trimmed(m: Seq<char>)
    requires
        is_main_key(m),
        !contains_char(m, '+'),
    ensures
        m.len() > 0,
        trim(m) == m,
{
    if m.len() == 1 && is_ascii_alnum(m[0]) {
        lemma_trim_fixed(m);
    } else {
        let d = m.drop_first();
        assert(d.len() > 0 ==> d[0] == m[1]);
        assert(d.len() > 0 && all_digits(d));
        assert(is_ascii_digit(d[d.len() - 1]));
        assert(m.last() == d.last());
        lemma_trim_fixed(m);
    }
}

pub open spec fn modifier_name(s: Seq<char>) -> bool {
    s == "Ctrl"@ || s == "Alt"@ || s == "Win"@ || s == "Shift"@
}

/// The names of the modifiers, in their canonical order.
proof fn lemma_modifier_names()
    ensures
        upper_seq("Ctrl"@) == "CTRL"@,
        upper_seq("Alt"@) == "ALT"@,
        upper_seq("Win"@) == "WIN"@,
        upper_seq("Shift"@) == "SHIFT"@,
        "+"@ == seq!['+'],
        forall|s: Seq<char>|
            #[trigger] modifier_name(s) ==> s.len() > 0 && trim(s) == s && !contains_char(s, '+'),
{
    reveal_strlit("Ctrl");
    reveal_strlit("Alt");
    reveal_strlit("Win");
    reveal_strlit("Shift");
    reveal_strlit("CTRL");
    reveal_strlit("ALT");
    reveal_strlit("WIN");
    reveal_strlit("SHIFT");
    reveal_strlit("+");
    assert(upper_seq("Ctrl"@) =~= "CTRL"@);
    assert(upper_seq("Alt"@) =~= "ALT"@);
    assert(upper_seq("Win"@) =~= "WIN"@);
    assert(upper_seq("Shift"@) =~= "SHIFT"@);
    assert("+"@ =~= seq!['+']);
    lemma_trim_fixed("Ctrl"@);
    lemma_trim_fixed("Alt"@);
    lemma_trim_fixed("Win"@);
    lemma_trim_fixed("Shift"@);
}

proof fn lemma_modifier_keys()
    ensures
        modifier_of("CTRL"@) == Some(Modifier::Ctrl),
        modifier_of("ALT"@) == Some(Modifier::Alt),
        modifier_of("WIN"@) == Some(Modifier::Win),
        modifier_of("SHIFT"@) == Some(Modifier::Shift),
{
    reveal_strlit("CTRL");
    reveal_strlit("CONTROL");
    reveal_strlit("ALT");
    reveal_strlit("SHIFT");
    reveal_strlit("WIN");
    assert("CTRL"@.len() == 4);
    assert("CONTROL"@.len() == 7);
    assert("ALT"@.len() == 3);
    assert("SHIFT"@.len() == 5);
    assert("WIN"@.len() == 3);
    assert("ALT"@ != "CTRL"@ && "ALT"@ != "CONTROL"@);
    assert("SHIFT"@ != "CTRL"@ && "SHIFT"@ != "CONTROL"@ && "SHIFT"@ != "ALT"@);
    assert("WIN"@ != "CTRL"@ && "WIN"@ != "CONTROL"@ && "WIN"@ != "SHIFT"@);
    assert("WIN"@[0] != "ALT"@[0]);
}

/// The keys of a multi-key normalisation result: the keys that `add_keys`
/// collected, spelled in canonical order, hold no `+` and are trimmed, so
/// splitting the spelling on `+` gives them back.
proof fn lemma_spelled_keys(shortcut: Seq<char>)
    requires
        normalized_shortcut(shortcut) is Ok,
        shortcut_keys(shortcut).len() != 1,
    ensures
        ({
            let parts = shortcut_keys(shortcut);
            let k = add_keys(parts, parts.len())->Ok_0;
            let m = k.main->0;
            let names = modifier_names(k.ctrl, k.alt, k.win, k.shift).push(m);
            &&& add_keys(parts, parts.len()) is Ok
            &&& k.main is Some
            &&& (k.ctrl || k.alt || k.win || k.shift)
            &&& normalized_shortcut(shortcut) == Ok::<Seq<char>, Seq<char>>(spelled(k))
            &&& is_main_key(m)
            &&& modifier_of(m) is None
            &&& upper_seq(m) == m
            &&& spelled(k) == join(names, seq!['+'])
            &&& split_char(spelled(k), '+') == names
            &&& shortcut_keys(spelled(k)) == names
            &&& forall|i: int| 0 <= i < names.len() - 1 ==> modifier_name(#[trigger] names[i])
        }),
{
    let parts = shortcut_keys(shortcut);
    lemma_keys_without_plus(shortcut);
    lemma_modifier_names();
    let k = add_keys(parts, parts.len())->Ok_0;
    let m = k.main->0;
    lemma_add_keys_main(parts, parts.len());
    let j = choose|j: int| 0 <= j < parts.len() && m == upper_seq(#[trigger] parts[j]);
    lemma_upper_seq(parts[j]);
    assert(!contains_char(parts[j], '+'));
    lemma_main_key_trimmed(m);
    let mods = modifier_names(k.ctrl, k.alt, k.win, k.shift);
    let names = mods.push(m);
    assert forall|i: int| 0 <= i < mods.len() implies modifier_name(#[trigger] mods[i]) by {
        let a = if k.ctrl { seq!["Ctrl"@] } else { Seq::<Seq<char>>::empty() };
        let b = if k.alt { seq!["Alt"@] } else { Seq::<Seq<char>>::empty() };
        let c = if k.win { seq!["Win"@] } else { Seq::<Seq<char>>::empty() };
        let d = if k.shift { seq!["Shift"@] } else { Seq::<Seq<char>>::empty() };
        assert(mods == a + b + c + d);
        if i < a.len() {
            assert(mods[i] == a[i]);
        } else if i < a.len() + b.len() {
            assert(mods[i] == b[i - a.len()]);
        } else if i < a.len() + b.len() + c.len() {
            assert(mods[i] == c[i - a.len() - b.len()]);
        } else {
            assert(mods[i] == d[i - a.len() - b.len() - c.len()]);
        }
    }
    assert forall|i: int| 0 <= i < names.len() implies !contains_char(#[trigger] names[i], '+')
        && trim(names[i]) == names[i] && names[i].len() > 0 by {
        if i < mods.len() {
            assert(names[i] == mods[i]);
            assert(modifier_name(names[i]));
        } else {
            assert(names[i] == m);
        }
    }
    assert forall|i: int| 0 <= i < names.len() - 1 implies modifier_name(#[trigger] names[i]) by {
        assert(names[i] == mods[i]);
    }
    lemma_split_join(names, '+');
    lemma_key_parts_fixed(names);
}

/// Normalising a shortcut that is already in its canonical spelling gives
/// it back: the canonical spelling is a fixed point of the normalisation.
pub proof fn lemma_normalized_shortcut_is_canonical(shortcut: Seq<char>)
    ensures
        normalized_shortcut(shortcut) matches Ok(t) ==> normalized_shortcut(t) == Ok::<
            Seq<char>,
            Seq<char>,
        >(t),
{
    let parts = shortcut_keys(shortcut);
    lemma_keys_without_plus(shortcut);
    lemma_modifier_names();
    lemma_modifier_keys();
    if normalized_shortcut(shortcut) is Ok {
        if parts.len() == 1 {
            let t = upper_seq(parts[0]);
            lemma_upper_seq(parts[0]);
            assert(is_main_key(t));
            lemma_main_key_trimmed(t);
            lemma_split_without(t, '+');
            lemma_key_parts_fixed(seq![t]);
            assert(shortcut_keys(t) == seq![t]);
        } else {
            lemma_spelled_keys(shortcut);
            let k = add_keys(parts, parts.len())->Ok_0;
            let m = k.main->0;
            let e = Seq::<Seq<char>>::empty();
            let k0 = Keys { ctrl: false, alt: false, win: false, shift: false, main: None };
            let p1 = if k.ctrl { e.push("Ctrl"@) } else { e };
            let k1 = Keys { ctrl: k.ctrl, ..k0 };
            if k.ctrl {
                lemma_add_keys_push(e, "Ctrl"@);
            }
            assert(add_keys(p1, p1.len()) == Ok::<Keys, Seq<char>>(k1));
            let p2 = if k.alt { p1.push("Alt"@) } else { p1 };
            let k2 = Keys { alt: k.alt, ..k1 };
            if k.alt {
                lemma_add_keys_push(p1, "Alt"@);
            }
            assert(add_keys(p2, p2.len()) == Ok::<Keys, Seq<char>>(k2));
            let p3 = if k.win { p2.push("Win"@) } else { p2 };
            let k3 = Keys { win: k.win, ..k2 };
            if k.win {
                lemma_add_keys_push(p2, "Win"@);
            }
            assert(add_keys(p3, p3.len()) == Ok::<Keys, Seq<char>>(k3));
            let p4 = if k.shift { p3.push("Shift"@) } else { p3 };
            let k4 = Keys { shift: k.shift, ..k3 };
            if k.shift {
                lemma_add_keys_push(p3, "Shift"@);
            }
            assert(add_keys(p4, p4.len()) == Ok::<Keys, Seq<char>>(k4));
            assert(modifier_names(k.ctrl, k.alt, k.win, k.shift) =~= p4);
            let names = p4.push(m);
            lemma_add_keys_push(p4, m);
            assert(k4.main is None);
            assert(add_keys(names, names.len()) == Ok::<Keys, Seq<char>>(k));
        }
    }
}

/// The shape of a normalised shortcut, split on `+`: one function key F1 to
/// F12, or one to four distinct modifiers in the order Ctrl, Alt, Win, Shift
/// followed by one upper-case main key that names no modifier.
pub open spec fn canonical_shape(n: Seq<char>) -> bool {
    let keys = split_char(n, '+');
    ||| keys.len() == 1 && is_function_key_of(keys[0]) && upper_seq(keys[0]) == keys[0]
    ||| exists|ctrl: bool, alt: bool, win: bool, shift: bool|
        #![trigger modifier_names(ctrl, alt, win, shift)]
        {
            &&& ctrl || alt || win || shift
            &&& keys == modifier_names(ctrl, alt, win, shift).push(keys.last())
            &&& is_main_key(keys.last())
            &&& upper_seq(keys.last()) == keys.last()
            &&& modifier_of(keys.last()) is None
        }
}

/// Every successful normalisation has the canonical shape.
pub proof fn lemma_normalized_shortcut_shape(shortcut: Seq<char>)
    ensures
        normalized_shortcut(shortcut) matches Ok(n) ==> canonical_shape(n),
{
    let parts = shortcut_keys(shortcut);
    lemma_keys_without_plus(shortcut);
    if normalized_shortcut(shortcut) is Ok {
        if parts.len() == 1 {
            let t = upper_seq(parts[0]);
            lemma_upper_seq(parts[0]);
            lemma_main_key_trimmed(t);
            lemma_split_without(t, '+');
        } else {
            lemma_spelled_keys(shortcut);
            let k = add_keys(parts, parts.len())->Ok_0;
            let m = k.main->0;
            let names = modifier_names(k.ctrl, k.alt, k.win, k.shift).push(m);
            assert(split_char(spelled(k), '+').last() == m);
            assert(names == modifier_names(k.ctrl, k.alt, k.win, k.shift).push(
                split_char(spelled(k), '+').last(),
            ));
        }
    }
}

/// Adding keys keeps every modifier already added.
proof fn lemma_add_keys_keeps_modifiers(p: Seq<Seq<char>>, n: nat)
    requires
        n <= p.len(),
        add_keys(p, n) is Ok,
    ensures
        forall|i: int|
            0 <= i < n && #[trigger] modifier_of(upper_seq(p[i])) is Some ==> has_modifier(
                add_keys(p, n)->Ok_0,
                modifier_of(upper_seq(p[i]))->0,
            ),
    decreases n,
{
    if n > 0 {
        lemma_add_keys_keeps_modifiers(p, (n - 1) as nat);
    }
}

/// A shortcut that names one modifier twice, in any spelling, is refused.
pub proof fn lemma_repeated_modifier_is_refused(shortcut: Seq<char>, i: int, j: int)
    requires
        0 <= i < j < shortcut_keys(shortcut).len(),
        modifier_of(upper_seq(shortcut_keys(shortcut)[i])) is Some,
        modifier_of(upper_seq(shortcut_keys(shortcut)[i])) == modifier_of(
            upper_seq(shortcut_keys(shortcut)[j]),
        ),
    ensures
        normalized_shortcut(shortcut) is Err,
{
    let parts = shortcut_keys(shortcut);
    if add_keys(parts, j as nat) is Ok {
        lemma_add_keys_keeps_modifiers(parts, j as nat);
        assert(add_keys(parts, (j + 1) as nat) is Err);
        lemma_add_keys_err(parts, (j + 1) as nat, parts.len());
    } else {
        lemma_add_keys_err(parts, j as nat, parts.len());
    }
}

} // verus!
