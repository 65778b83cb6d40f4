use vstd::prelude::*;

use crate::linux::index_of;
use crate::text::{push_str, string_of, to_chars};

verus! {

/// The first dot-separated field of a version, and the second if there is one.
pub open spec fn version_fields(v: Seq<char>) -> (Seq<char>, Option<Seq<char>>) {
    let e = index_of(v, '.', 0);
    if e < v.len() {
        let f = index_of(v, '.', e + 1);
        (v.subrange(0, e), Some(v.subrange(e + 1, f)))
    } else {
        (v, None)
    }
}

/// The marketing name of macOS 11 and later, by major version.
pub open spec fn modern_name(major: Seq<char>) -> Option<Seq<char>> {
    if major == "15"@ {
        Some("Sequoia"@)
    } else if major == "14"@ {
        Some("Sonoma"@)
    } else if major == "13"@ {
        Some("Ventura"@)
    } else if major == "12"@ {
        Some("Monterey"@)
    } else if major == "11"@ {
        Some("Big Sur"@)
    } else {
        None
    }
}

/// The marketing name of Mac OS X 10.x, by minor version.
pub open spec fn classic_name(minor: Seq<char>) -> Option<Seq<char>> {
    if minor == "16"@ {
        Some("Big Sur"@)
    } else if minor == "15"@ {
        Some("Catalina"@)
    } else if minor == "14"@ {
        Some("Mojave"@)
    } else if minor == "13"@ {
        Some("High Sierra"@)
    } else if minor == "12"@ {
        Some("Sierra"@)
    } else if minor == "11"@ {
        Some("El Capitan"@)
    } else if minor == "10"@ {
        Some("Yosemite"@)
    } else if minor == "9"@ {
        Some("Mavericks"@)
    } else if minor == "8"@ {
        Some("Mountain Lion"@)
    } else if minor == "7"@ {
        Some("Lion"@)
    } else if minor == "6"@ {
        Some("Snow Leopard"@)
    } else if minor == "5"@ {
        Some("Leopard"@)
    } else if minor == "4"@ {
        Some("Tiger"@)
    } else if minor == "3"@ {
        Some("Panther"@)
    } else if minor == "2"@ {
        Some("Jaguar"@)
    } else if minor == "1"@ {
        Some("Puma"@)
    } else if minor == "0"@ {
        Some("Cheetah"@)
    } else {
        None
    }
}

/// The marketing name of a macOS version; absent for a version it does not know.
pub open spec fn mac_codename(v: Seq<char>) -> Option<Seq<char>> {
    let (major, minor) = version_fields(v);
    if major == "10"@ {
        match minor {
            Some(m) => classic_name(m),
            None => None,
        }
    } else {
        modern_name(major)
    }
}

fn eq_lit(s: &String, lit: &str) -> (r: bool)
    ensures
        r == (s@ == lit@),
{
    *s == lit.to_owned()
}

fn modern_name_exec(major: &String) -> (r: Option<&'static str>)
    ensures
        match modern_name(major@) {
            Some(n) => r.is_some() && r.unwrap()@ == n,
            None => r.is_none(),
        },
{
    if eq_lit(major, "15") {
        Some("Sequoia")
    } else if eq_lit(major, "14") {
        Some("Sonoma")
    } else if eq_lit(major, "13") {
        Some("Ventura")
    } else if eq_lit(major, "12") {
        Some("Monterey")
    } else if eq_lit(major, "11") {
        Some("Big Sur")
    } else {
        None
    }
}

fn classic_name_exec(minor: &String) -> (r: Option<&'static str>)
    ensures
        match classic_name(minor@) {
            Some(n) => r.is_some() && r.unwrap()@ == n,
            None => r.is_none(),
        },
{
    if eq_lit(minor, "16") {
        Some("Big Sur")
    } else if eq_lit(minor, "15") {
        Some("Catalina")
    } else if eq_lit(minor, "14") {
        Some("Mojave")
    } else if eq_lit(minor, "13") {
        Some("High Sierra")
    } else if eq_lit(minor, "12") {
        Some("Sierra")
    } else if eq_lit(minor, "11") {
        Some("El Capitan")
    } else if eq_lit(minor, "10") {
        Some("Yosemite")
    } else if eq_lit(minor, "9") {
        Some("Mavericks")
    } else if eq_lit(minor, "8") {
        Some("Mountain Lion")
    } else if eq_lit(minor, "7") {
        Some("Lion")
    } else if eq_lit(minor, "6") {
        Some("Snow Leopard")
    } else if eq_lit(minor, "5") {
        Some("Leopard")
    } else if eq_lit(minor, "4") {
        Some("Tiger")
    } else if eq_lit(minor, "3") {
        Some("Panther")
    } else if eq_lit(minor, "2") {
        Some("Jaguar")
    } else if eq_lit(minor, "1") {
        Some("Puma")
    } else if eq_lit(minor, "0") {
        Some("Cheetah")
    } else {
        None
    }
}

fn find_dot(c: &Vec<char>, from: usize) -> (r: usize)
    requires
        from <= c@.len(),
    ensures
        r == index_of(c@, '.', from as int),
        from <= r <= c@.len(),
{
    let mut k = from;
    while k < c.len() && c[k] != '.'
        invariant
            from <= k <= c@.len(),
            index_of(c@, '.', k as int) == index_of(c@, '.', from as int),
        decreases c@.len() - k,
    {
        k = k + 1;
    }
    k
}

/// The marketing name of a macOS version such as `14.2.1` or `10.15.7`.
pub fn macos_codename(version: &str) -> (r: Option<&'static str>)
    ensures
        match mac_codename(version@) {
            Some(n) => r.is_some() && r.unwrap()@ == n,
            None => r.is_none(),
        },
{
    let c = to_chars(version);
    let e = find_dot(&c, 0);
    let major = string_of(&c, 0, e);
    if e < c.len() {
        let f = find_dot(&c, e + 1);
        if eq_lit(&major, "10") {
            classic_name_exec(&string_of(&c, e + 1, f))
        } else {
            modern_name_exec(&major)
        }
    } else {
        proof {
            assert(c@.subrange(0, e as int) =~= c@);
        }
        if eq_lit(&major, "10") {
            None
        } else {
            modern_name_exec(&major)
        }
    }
}

/// The operating-system line on macOS: product name, marketing name and
/// version; absent when the version is not known.
pub fn mac_os_line(name: &String, version: &String) -> (r: Option<String>)
    ensures
        match mac_codename(version@) {
            Some(n) => r.is_some() && r.unwrap()@ == name@ + " "@ + n + " "@ + version@,
            None => r.is_none(),
        },
{
    match macos_codename(version.as_str()) {
        Some(code) => {
            let mut s = name.clone();
            push_str(&mut s, " ");
            push_str(&mut s, code);
            push_str(&mut s, " ");
            push_str(&mut s, version.as_str());
            Some(s)
        },
        None => None,
    }
}

} // verus!
