//! Logitech device names: identity for deduplication, quality, and kinds.

use vstd::prelude::*;
use crate::text::{
    alnum_words, chars_of, contains, contains_str, eq_ignore_case, eq_ignore_case_str, is_ascii_digit,
    is_control, is_control_char, join, join_exec, lower, lower_chars, opt_view, owned, runs_exec,
    seq_eq, starts_with, starts_with_str, string_of, trim, trim_bounds, trimmed_chars, views,
};

verus! {

/// Transport and marketing words that do not distinguish two devices.
pub open spec fn is_stopword(w: Seq<char>) -> bool {
    w == "logitech"@ || w == "logi"@ || w == "inc"@ || w == "wireless"@ || w == "lightspeed"@
}

pub open spec fn not_stopword() -> spec_fn(Seq<char>) -> bool {
    |w: Seq<char>| !is_stopword(w)
}

/// Identity of a device name: its lower-case ASCII alphanumeric words, without
/// transport and marketing words, separated by single spaces.
pub open spec fn identity(name: Seq<char>) -> Seq<char> {
    join(alnum_words(lower(name)).filter(not_stopword()), " "@)
}

/// Two names denote the same device when their non-empty identities agree.
pub open spec fn same_name(left: Seq<char>, right: Seq<char>) -> bool {
    identity(left).len() > 0 && identity(left) == identity(right)
}

pub open spec fn has_control(s: Seq<char>) -> bool {
    exists|i: int| 0 <= i < s.len() && is_control(s[i])
}

/// How descriptive a name is: the length of its trimmed text, and 0 for names
/// with control characters or for generic "Logitech device" placeholders.
pub open spec fn name_quality(s: Seq<char>) -> nat {
    if has_control(s) || starts_with(s, "Logitech device"@) {
        0
    } else {
        trim(s).len()
    }
}

pub open spec fn clean_name(s: Seq<char>) -> Seq<char> {
    let t = trim(s);
    if starts_with(t, "Logitech, Inc. "@) {
        t.skip(15)
    } else if starts_with(t, "Logitech "@) {
        t.skip(9)
    } else {
        t
    }
}

/// A `g` followed by a digit, as in gaming mice such as "G309".
pub open spec fn gaming_model(n: Seq<char>) -> bool {
    n.len() >= 2 && n[0] == 'g' && is_ascii_digit(n[1])
}

/// The device kind suggested by a name.
pub open spec fn inferred_kind(name: Seq<char>) -> Option<Seq<char>> {
    let n = lower(name);
    if contains(n, "keyboard"@) || contains(n, "mechanical"@) || contains(n, "keys"@) {
        Some("keyboard"@)
    } else if contains(n, "numpad"@) || contains(n, "number pad"@) {
        Some("numpad"@)
    } else if contains(n, "trackball"@) || contains(n, "ergo"@) {
        Some("trackball"@)
    } else if contains(n, "touchpad"@) {
        Some("touchpad"@)
    } else if contains(n, "presenter"@) || contains(n, "spotlight"@) {
        Some("presenter"@)
    } else if contains(n, "headset"@) || contains(n, "headphone"@) || contains(n, "zone wireless"@)
        || contains(n, "pro x"@) {
        Some("headset"@)
    } else if contains(n, "mouse"@) || gaming_model(n) || contains(n, "master"@) || contains(
        n,
        "anywhere"@,
    ) {
        Some("mouse"@)
    } else {
        None
    }
}

/// Normalized power-supply status text.
pub open spec fn power_status(status: Seq<char>) -> Option<Seq<char>> {
    let s = lower(status);
    if s == "charging"@ {
        Some("charging"@)
    } else if s == "full"@ {
        Some("charged"@)
    } else if s == "discharging"@ || s == "not charging"@ {
        Some("discharging"@)
    } else if s == "unknown"@ {
        None
    } else {
        Some(s)
    }
}

fn is_stopword_exec(w: &[char]) -> (r: bool)
    ensures
        r == is_stopword(w@),
{
    seq_eq(w, &chars_of("logitech")) || seq_eq(w, &chars_of("logi")) || seq_eq(
        w,
        &chars_of("inc"),
    ) || seq_eq(w, &chars_of("wireless")) || seq_eq(w, &chars_of("lightspeed"))
}

/// Identity of a device name (see `identity`).
pub fn device_identity(name: &str) -> (r: String)
    ensures
        r@ == identity(name@),
{
    let lowered = lower_chars(&chars_of(name));
    let tokens = runs_exec(&lowered, true);
    let mut kept: Vec<Vec<char>> = Vec::new();
    let mut i: usize = 0;
    assert(views(tokens@.subrange(0, 0)) =~= Seq::<Seq<char>>::empty());
    proof {
        reveal(Seq::filter);
        assert(views(tokens@.subrange(0, 0)).filter(not_stopword()) =~= Seq::<Seq<char>>::empty());
    }
    while i < tokens.len()
        invariant
            i <= tokens@.len(),
            views(kept@) == views(tokens@.subrange(0, i as int)).filter(not_stopword()),
        decreases tokens@.len() - i,
    {
        let ghost prev = views(tokens@.subrange(0, i as int));
        assert(views(tokens@.subrange(0, i + 1)) =~= prev.push(tokens@[i as int]@));
        proof {
            prev.lemma_filter_push(tokens@[i as int]@, not_stopword());
        }
        if !is_stopword_exec(tokens[i].as_slice()) {
            let ghost before = views(kept@);
            kept.push(tokens[i].clone());
            assert(views(kept@) =~= before.push(tokens@[i as int]@));
        }
        i += 1;
    }
    assert(tokens@.subrange(0, tokens@.len() as int) =~= tokens@);
    let joined = join_exec(&kept, &chars_of(" "));
    string_of(&joined)
}

/// Whether two names denote the same device.
pub fn same_device_name(left: &str, right: &str) -> (r: bool)
    ensures
        r == same_name(left@, right@),
{
    let l = device_identity(left);
    let r = device_identity(right);
    l.as_str().unicode_len() > 0 && l.eq(&r)
}

fn has_control_exec(v: &[char]) -> (r: bool)
    ensures
        r == has_control(v@),
{
    let mut i: usize = 0;
    while i < v.len()
        invariant
            i <= v.len(),
            forall|j: int| 0 <= j < i ==> !is_control(v@[j]),
        decreases v.len() - i,
    {
        if is_control_char(v[i]) {
            return true;
        }
        i += 1;
    }
    false
}

/// How descriptive a device name is (see `name_quality`).
pub fn device_name_quality(name: &str) -> (r: usize)
    ensures
        r as nat == name_quality(name@),
{
    let v = chars_of(name);
    if has_control_exec(&v) || starts_with_str(&v, "Logitech device") {
        return 0;
    }
    let (a, b) = trim_bounds(&v);
    b - a
}

fn skip_chars(v: &[char], n: usize) -> (r: Vec<char>)
    requires
        n <= v.len(),
    ensures
        r@ == v@.skip(n as int),
{
    let mut r: Vec<char> = Vec::new();
    let mut i = n;
    while i < v.len()
        invariant
            n <= i <= v.len(),
            r@ == v@.subrange(n as int, i as int),
        decreases v.len() - i,
    {
        r.push(v[i]);
        i += 1;
    }
    r
}

/// Removes surrounding white space and a leading "Logitech" vendor prefix.
pub fn clean_logitech_name(name: &str) -> (r: String)
    ensures
        r@ == clean_name(name@),
{
    let t = trimmed_chars(name);
    proof {
        reveal_strlit("Logitech, Inc. ");
        reveal_strlit("Logitech ");
    }
    if starts_with_str(&t, "Logitech, Inc. ") {
        string_of(&skip_chars(&t, 15))
    } else if starts_with_str(&t, "Logitech ") {
        string_of(&skip_chars(&t, 9))
    } else {
        string_of(&t)
    }
}

/// The device kind that a name suggests (see `inferred_kind`).
pub fn infer_kind(name: &str) -> (r: Option<String>)
    ensures
        opt_view(r) == inferred_kind(name@),
{
    let n = lower_chars(&chars_of(name));
    if contains_str(&n, "keyboard") || contains_str(&n, "mechanical") || contains_str(&n, "keys") {
        Some(owned("keyboard"))
    } else if contains_str(&n, "numpad") || contains_str(&n, "number pad") {
        Some(owned("numpad"))
    } else if contains_str(&n, "trackball") || contains_str(&n, "ergo") {
        Some(owned("trackball"))
    } else if contains_str(&n, "touchpad") {
        Some(owned("touchpad"))
    } else if contains_str(&n, "presenter") || contains_str(&n, "spotlight") {
        Some(owned("presenter"))
    } else if contains_str(&n, "headset") || contains_str(&n, "headphone") || contains_str(
        &n,
        "zone wireless",
    ) || contains_str(&n, "pro x") {
        Some(owned("headset"))
    } else if contains_str(&n, "mouse") || (n.len() >= 2 && n[0] == 'g' && '0' <= n[1] && n[1]
        <= '9') || contains_str(&n, "master") || contains_str(&n, "anywhere") {
        Some(owned("mouse"))
    } else {
        None
    }
}

/// Normalizes a `status` attribute of a power supply.
pub fn normalize_power_status(status: String) -> (r: Option<String>)
    ensures
        opt_view(r) == power_status(status@),
{
    let s = lower_chars(&chars_of(status.as_str()));
    if seq_eq(&s, &chars_of("charging")) {
        Some(owned("charging"))
    } else if seq_eq(&s, &chars_of("full")) {
        Some(owned("charged"))
    } else if seq_eq(&s, &chars_of("discharging")) || seq_eq(&s, &chars_of("not charging")) {
        Some(owned("discharging"))
    } else if seq_eq(&s, &chars_of("unknown")) {
        None
    } else {
        Some(string_of(&s))
    }
}

/// Both pairing names are known and descriptive, and denote the same device.
pub open spec fn pairing_match(left: Option<String>, right: Option<String>) -> bool {
    match (left, right) {
        (Some(l), Some(r)) => name_quality(l@) > 0 && name_quality(r@) > 0 && same_name(l@, r@),
        _ => false,
    }
}

/// Whether two pairing names are both descriptive and denote the same device.
pub fn pairing_names_match(left: &Option<String>, right: &Option<String>) -> (r: bool)
    ensures
        r == pairing_match(*left, *right),
{
    match (left, right) {
        (Some(l), Some(r)) => device_name_quality(l.as_str()) > 0 && device_name_quality(
            r.as_str(),
        ) > 0 && same_device_name(l.as_str(), r.as_str()),
        _ => false,
    }
}

pub open spec fn kinds_compatible(left: Option<String>, right: Option<String>) -> bool {
    match (left, right) {
        (Some(l), Some(r)) => eq_ignore_case(l@, r@),
        _ => true,
    }
}

/// Known kinds must agree (ignoring ASCII case); an unknown kind agrees with any.
pub fn compatible_device_kinds(left: &Option<String>, right: &Option<String>) -> (r: bool)
    ensures
        r == kinds_compatible(*left, *right),
{
    match (left, right) {
        (Some(l), Some(r)) => eq_ignore_case_str(l.as_str(), r.as_str()),
        _ => true,
    }
}

} // verus!
