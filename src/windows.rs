use vstd::prelude::*;

use crate::info::texts_view;
use crate::linux::{join, joined, skip_word, skip_ws};
use crate::text::{decimal, push_char, push_decimal, push_str, starts_with_chars, string_of, to_chars};

verus! {

/// `s` with every leading copy of a non-empty `p` removed.
pub open spec fn strip_prefixes(s: Seq<char>, p: Seq<char>) -> Seq<char>
    decreases s.len(),
{
    if p.len() > 0 && p.len() <= s.len() && s.subrange(0, p.len() as int) == p {
        strip_prefixes(s.subrange(p.len() as int, s.len() as int), p)
    } else {
        s
    }
}

/// The words of `s` from index `i` on, separated by ASCII white space.
pub open spec fn words_from(s: Seq<char>, i: int) -> Seq<Seq<char>>
    decreases s.len() - i,
    via words_from_decreases
{
    let a = skip_ws(s, i);
    if 0 <= i && a < s.len() {
        let e = skip_word(s, a);
        seq![s.subrange(a, e)] + words_from(s, e)
    } else {
        Seq::empty()
    }
}

proof fn lemma_skip_ws_bounds(s: Seq<char>, i: int)
    requires
        0 <= i <= s.len(),
    ensures
        i <= skip_ws(s, i) <= s.len(),
        skip_ws(s, i) < s.len() ==> !crate::linux::is_ascii_ws(s[skip_ws(s, i)]),
    decreases s.len() - i,
{
    if i < s.len() && crate::linux::is_ascii_ws(s[i]) {
        lemma_skip_ws_bounds(s, i + 1);
    }
}

proof fn lemma_skip_word_bounds(s: Seq<char>, i: int)
    requires
        0 <= i <= s.len(),
    ensures
        i <= skip_word(s, i) <= s.len(),
        i < s.len() && !crate::linux::is_ascii_ws(s[i]) ==> skip_word(s, i) > i,
    decreases s.len() - i,
{
    if i < s.len() && !crate::linux::is_ascii_ws(s[i]) {
        lemma_skip_word_bounds(s, i + 1);
    }
}

#[via_fn]
proof fn words_from_decreases(s: Seq<char>, i: int) {
    if 0 <= i && i <= s.len() {
        lemma_skip_ws_bounds(s, i);
        let a = skip_ws(s, i);
        if a < s.len() {
            lemma_skip_word_bounds(s, a);
        }
    } else if i > s.len() {
        assert(skip_ws(s, i) == i);
    }
}

/// The platform identifier from the operating-system caption: without the
/// `Microsoft ` prefix and the last word (the edition), as in `Windows 11`.
pub open spec fn windows_id_of(caption: Seq<char>) -> Seq<char> {
    let w = words_from(strip_prefixes(caption, "Microsoft "@), 0);
    if w.len() == 0 {
        Seq::empty()
    } else {
        joined(w.drop_last(), " "@)
    }
}

/// The platform identifier from the operating-system caption (see `windows_id_of`).
pub fn windows_id(caption: &str) -> (r: String)
    ensures
        r@ == windows_id_of(caption@),
{
    let p = to_chars("Microsoft ");
    let mut c = to_chars(caption);
    proof {
        reveal_strlit("Microsoft ");
    }
    while starts_with_chars(&c, &p)
        invariant
            p@ == "Microsoft "@,
            p@.len() > 0,
            strip_prefixes(c@, p@) == strip_prefixes(caption@, p@),
        decreases c@.len(),
    {
        let n = c.len();
        let rest = crate::text::to_chars(string_of(&c, p.len(), n).as_str());
        c = rest;
    }
    let n = c.len();
    let mut words: Vec<String> = Vec::new();
    let mut i: usize = 0;
    let ghost s = c@;
    proof {
        assert(strip_prefixes(caption@, p@) == s);
    }
    while i < n
        invariant
            s == c@,
            n == s.len(),
            i <= n,
            words_from(s, 0) == texts_view(words@) + words_from(s, i as int),
        decreases n - i,
    {
        let mut a = i;
        while a < n && is_ascii_ws_exec(c[a])
            invariant
                i <= a <= n,
                n == s.len(),
                s == c@,
                skip_ws(s, a as int) == skip_ws(s, i as int),
            decreases n - a,
        {
            a = a + 1;
        }
        if a == n {
            proof {
                assert(words_from(s, i as int) =~= Seq::<Seq<char>>::empty());
                assert(words_from(s, n as int) =~= Seq::<Seq<char>>::empty());
            }
            i = n;
        } else {
            let mut e = a;
            while e < n && !is_ascii_ws_exec(c[e])
                invariant
                    a <= e <= n,
                    n == s.len(),
                    s == c@,
                    skip_word(s, e as int) == skip_word(s, a as int),
                decreases n - e,
            {
                e = e + 1;
            }
            let word = string_of(&c, a, e);
            proof {
                assert(words_from(s, i as int) == seq![word@] + words_from(s, e as int));
                assert(texts_view(words@.push(word)) =~= texts_view(words@).push(word@));
            }
            words.push(word);
            i = e;
        }
    }
    proof {
        assert(words_from(s, i as int) =~= Seq::<Seq<char>>::empty());
        assert(texts_view(words@) =~= words_from(s, 0));
    }
    if words.len() == 0 {
        return String::new();
    }
    let last = words.len() - 1;
    let mut kept: Vec<String> = Vec::new();
    let mut k: usize = 0;
    while k < last
        invariant
            k <= last,
            last == words@.len() - 1,
            texts_view(kept@) == texts_view(words@).subrange(0, k as int),
        decreases last - k,
    {
        let w = words[k].clone();
        proof {
            assert(texts_view(kept@.push(w)) =~= texts_view(kept@).push(w@));
            assert(texts_view(words@).subrange(0, k + 1) =~= texts_view(words@).subrange(
                0,
                k as int,
            ).push(words@[k as int]@));
        }
        kept.push(w);
        k = k + 1;
    }
    proof {
        assert(texts_view(words@).subrange(0, last as int) =~= texts_view(words@).drop_last());
    }
    join(&kept, " ")
}

fn is_ascii_ws_exec(c: char) -> (r: bool)
    ensures
        r == crate::linux::is_ascii_ws(c),
{
    c == ' ' || c == '\t' || c == '\n' || c == '\x0C' || c == '\r'
}

/// One character of an uptime text with its unit letter spelled out.
pub open spec fn unit_word(c: char) -> Seq<char> {
    if c == 'h' {
        " hours, "@
    } else if c == 'm' {
        " mins"@
    } else {
        seq![c]
    }
}

/// All characters of `s` with the unit letters spelled out.
pub open spec fn spelled(s: Seq<char>) -> Seq<char>
    decreases s.len(),
{
    if s.len() == 0 {
        Seq::empty()
    } else {
        spelled(s.drop_last()) + unit_word(s.last())
    }
}

/// The uptime line from a duration text such as `5h12m3s`: the text up to
/// and including the first `m` (all of it if there is none) with `h` and `m`
/// spelled out, as in `5 hours, 12 mins`. Absent for an empty text.
pub open spec fn uptime_line(d: Seq<char>) -> Option<Seq<char>> {
    if d.len() == 0 {
        None
    } else {
        let m = crate::linux::index_of(d, 'm', 0);
        let end = if m < d.len() {
            m + 1
        } else {
            d.len() as int
        };
        Some(spelled(d.subrange(0, end)))
    }
}

/// The uptime line from a duration text (see `uptime_line`).
pub fn windows_uptime(d: &str) -> (r: Option<String>)
    ensures
        crate::config::opt_view(r) == uptime_line(d@),
{
    let c = to_chars(d);
    let n = c.len();
    if n == 0 {
        return None;
    }
    let mut m: usize = 0;
    while m < n && c[m] != 'm'
        invariant
            m <= n,
            n == c@.len(),
            crate::linux::index_of(c@, 'm', m as int) == crate::linux::index_of(c@, 'm', 0),
        decreases n - m,
    {
        m = m + 1;
    }
    let end = if m < n {
        m + 1
    } else {
        n
    };
    let mut out = String::new();
    let mut k: usize = 0;
    proof {
        reveal_strlit(" hours, ");
        reveal_strlit(" mins");
    }
    while k < end
        invariant
            k <= end <= n,
            n == c@.len(),
            out@ == spelled(c@.subrange(0, k as int)),
        decreases end - k,
    {
        let ch = c[k];
        if ch == 'h' {
            push_str(&mut out, " hours, ");
        } else if ch == 'm' {
            push_str(&mut out, " mins");
        } else {
            push_char(&mut out, ch);
        }
        proof {
            assert(c@.subrange(0, k + 1).drop_last() =~= c@.subrange(0, k as int));
        }
        k = k + 1;
    }
    Some(out)
}

/// The kernel line: `major.minor.build.ubr (display version)`.
pub fn windows_kernel(major: u32, minor: u32, build: &str, ubr: u32, version: &str) -> (r: String)
    ensures
        r@ == decimal(major as nat) + "."@ + decimal(minor as nat) + "."@ + build@ + "."@ + decimal(
            ubr as nat,
        ) + " ("@ + version@ + ")"@,
{
    let mut s = String::new();
    push_decimal(&mut s, major as usize);
    push_str(&mut s, ".");
    push_decimal(&mut s, minor as usize);
    push_str(&mut s, ".");
    push_str(&mut s, build);
    push_str(&mut s, ".");
    push_decimal(&mut s, ubr as usize);
    push_str(&mut s, " (");
    push_str(&mut s, version);
    push_str(&mut s, ")");
    proof {
        assert(s@ =~= decimal(major as nat) + "."@ + decimal(minor as nat) + "."@ + build@ + "."@
            + decimal(ubr as nat) + " ("@ + version@ + ")"@);
    }
    s
}

/// The desktop shell name for a Windows version: Fluent from 10 on, Metro
/// for 6.2 and later 6.x, Aero for earlier 6.x, none before.
pub open spec fn windows_de_of(major: u32, minor: u32) -> Option<Seq<char>> {
    if major >= 10 {
        Some("Fluent"@)
    } else if major >= 6 {
        if minor >= 2 {
            Some("Metro"@)
        } else {
            Some("Aero"@)
        }
    } else {
        None
    }
}

/// The desktop shell name for a Windows version (see `windows_de_of`).
pub fn windows_de(major: u32, minor: u32) -> (r: Option<&'static str>)
    ensures
        match windows_de_of(major, minor) {
            Some(n) => r.is_some() && r.unwrap()@ == n,
            None => r.is_none(),
        },
{
    if major >= 10 {
        Some("Fluent")
    } else if major >= 6 {
        if minor >= 2 {
            Some("Metro")
        } else {
            Some("Aero")
        }
    } else {
        None
    }
}

/// The red, green and blue bytes of an accent colour that the registry
/// stores as `0xAABBGGRR`.
pub fn accent_rgb(v: u32) -> (r: (u8, u8, u8))
    ensures
        r.0 == v % 0x100,
        r.1 == (v / 0x100) % 0x100,
        r.2 == (v / 0x10000) % 0x100,
{
    ((v % 0x100) as u8, ((v / 0x100) % 0x100) as u8, ((v / 0x10000) % 0x100) as u8)
}

/// Index of the last `c` before `j`, or `-1`.
pub open spec fn last_index_of(s: Seq<char>, c: char, j: int) -> int
    decreases j,
{
    if j <= 0 || j > s.len() {
        -1
    } else if s[j - 1] == c {
        j - 1
    } else {
        last_index_of(s, c, j - 1)
    }
}

/// The theme name in a theme file path such as `C:\Windows\Themes\dark.theme`:
/// the text between the last backslash and the last dot after it.
pub open spec fn theme_name_of(path: Seq<char>) -> Option<Seq<char>> {
    let d = last_index_of(path, '.', path.len() as int);
    let b = last_index_of(path, '\\', d);
    if d >= 0 && b >= 0 {
        Some(path.subrange(b + 1, d))
    } else {
        None
    }
}

proof fn lemma_last_index_bounds(s: Seq<char>, c: char, j: int)
    requires
        0 <= j <= s.len(),
    ensures
        -1 <= last_index_of(s, c, j) < j,
    decreases j,
{
    if j > 0 && s[j - 1] != c {
        lemma_last_index_bounds(s, c, j - 1);
    }
}

fn last_index_exec(s: &Vec<char>, c: char, j: usize) -> (r: Option<usize>)
    requires
        j <= s@.len(),
    ensures
        match r {
            Some(i) => i as int == last_index_of(s@, c, j as int) && i < j,
            None => last_index_of(s@, c, j as int) == -1,
        },
{
    let mut k = j;
    while k > 0 && s[k - 1] != c
        invariant
            k <= j <= s@.len(),
            last_index_of(s@, c, k as int) == last_index_of(s@, c, j as int),
        decreases k,
    {
        k = k - 1;
    }
    if k == 0 {
        None
    } else {
        Some(k - 1)
    }
}

/// The theme name in a theme file path (see `theme_name_of`).
pub fn theme_name(path: &str) -> (r: Option<String>)
    ensures
        crate::config::opt_view(r) == theme_name_of(path@),
{
    let c = to_chars(path);
    match last_index_exec(&c, '.', c.len()) {
        None => None,
        Some(d) => match last_index_exec(&c, '\\', d) {
            None => None,
            Some(b) => {
                proof {
                    lemma_last_index_bounds(c@, '\\', d as int);
                }
                Some(string_of(&c, b + 1, d))
            },
        },
    }
}

} // verus!
