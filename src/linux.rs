use vstd::prelude::*;

use crate::info::UNKNOWN_ID;
use crate::template::{digits_value, is_digit};
use crate::text::{
    contains_part, has_part, line_spans, lines, push_str, starts_with_chars, string_of, to_chars,
    trim_chars, trimmed,
};

verus! {

/// Index of the first `c` at or after `i`, or `s.len()`.
pub open spec fn index_of(s: Seq<char>, c: char, i: int) -> int
    decreases s.len() - i,
{
    if 0 <= i < s.len() {
        if s[i] == c {
            i
        } else {
            index_of(s, c, i + 1)
        }
    } else {
        s.len() as int
    }
}

/// Index of the first character at or after `i` that is not a double quote.
pub open spec fn quote_start(s: Seq<char>, i: int) -> int
    decreases s.len() - i,
{
    if 0 <= i < s.len() && s[i] == '"' {
        quote_start(s, i + 1)
    } else {
        i
    }
}

/// Index just past the last character before `j` that is not a double quote,
/// not going below `i`.
pub open spec fn quote_end(s: Seq<char>, i: int, j: int) -> int
    decreases j - i,
{
    if i < j && j <= s.len() && s[j - 1] == '"' {
        quote_end(s, i, j - 1)
    } else {
        j
    }
}

/// `s` without leading and trailing double quotes.
pub open spec fn unquoted(s: Seq<char>) -> Seq<char> {
    let i = quote_start(s, 0);
    s.subrange(i, quote_end(s, i, s.len() as int))
}

/// The entry of an os-release line `KEY=value`: the key before the first `=`
/// and the value after it with its double quotes stripped. A line without
/// `=` holds no entry.
pub open spec fn release_entry(l: Seq<char>) -> Option<(Seq<char>, Seq<char>)> {
    let e = index_of(l, '=', 0);
    if e < l.len() {
        Some((l.subrange(0, e), unquoted(l.subrange(e + 1, l.len() as int))))
    } else {
        None
    }
}

/// The entries of the given lines, in order.
pub open spec fn release_entries(ls: Seq<Seq<char>>) -> Seq<(Seq<char>, Seq<char>)>
    decreases ls.len(),
{
    if ls.len() == 0 {
        Seq::empty()
    } else {
        release_entries(ls.drop_last()) + match release_entry(ls.last()) {
            Some(e) => seq![e],
            None => Seq::empty(),
        }
    }
}

/// The value of the last entry with `key`.
pub open spec fn last_value(es: Seq<(Seq<char>, Seq<char>)>, key: Seq<char>) -> Option<Seq<char>>
    decreases es.len(),
{
    if es.len() == 0 {
        None
    } else if es.last().0 == key {
        Some(es.last().1)
    } else {
        last_value(es.drop_last(), key)
    }
}

/// The values of a list of string pairs.
pub open spec fn pairs_view(v: Seq<(String, String)>) -> Seq<(Seq<char>, Seq<char>)> {
    v.map_values(|p: (String, String)| (p.0@, p.1@))
}

/// The characters `c[from..to]` without leading and trailing double quotes.
fn unquote(c: &Vec<char>, from: usize, to: usize) -> (r: String)
    requires
        from <= to <= c@.len(),
    ensures
        r@ == unquoted(c@.subrange(from as int, to as int)),
{
    let ghost v = c@.subrange(from as int, to as int);
    let mut i = from;
    while i < to && c[i] == '"'
        invariant
            from <= i <= to <= c@.len(),
            v == c@.subrange(from as int, to as int),
            quote_start(v, i - from) == quote_start(v, 0),
        decreases to - i,
    {
        i = i + 1;
    }
    let mut j = to;
    while j > i && c[j - 1] == '"'
        invariant
            from <= i <= j <= to <= c@.len(),
            v == c@.subrange(from as int, to as int),
            quote_start(v, 0) == i - from,
            quote_end(v, i - from, j - from) == quote_end(v, i - from, to - from),
        decreases j - i,
    {
        j = j - 1;
    }
    proof {
        assert(v.subrange(i - from, j - from) =~= c@.subrange(i as int, j as int));
    }
    string_of(c, i, j)
}

/// Reads the `KEY=value` entries of an os-release file, in order; lines
/// without `=` are skipped.
pub fn parse_os_release(data: &str) -> (r: Vec<(String, String)>)
    ensures
        pairs_view(r@) == release_entries(lines(data@)),
{
    let c = to_chars(data);
    let spans = line_spans(&c);
    let ghost ls = lines(c@);
    let mut out: Vec<(String, String)> = Vec::new();
    let mut k: usize = 0;
    while k < spans.len()
        invariant
            k <= spans@.len(),
            c@ == data@,
            ls == lines(c@),
            spans@.len() == ls.len(),
            forall|j: int|
                0 <= j < spans@.len() ==> {
                    &&& (#[trigger] spans@[j]).0 <= spans@[j].1 <= c@.len()
                    &&& c@.subrange(spans@[j].0 as int, spans@[j].1 as int) == ls[j]
                },
            pairs_view(out@) == release_entries(ls.subrange(0, k as int)),
        decreases spans@.len() - k,
    {
        let (a, b) = spans[k];
        let ghost l = ls[k as int];
        let mut e = a;
        while e < b && c[e] != '='
            invariant
                a <= e <= b <= c@.len(),
                l == c@.subrange(a as int, b as int),
                index_of(l, '=', e - a) == index_of(l, '=', 0),
            decreases b - e,
        {
            e = e + 1;
        }
        proof {
            assert(ls.subrange(0, k + 1).drop_last() =~= ls.subrange(0, k as int));
            assert(ls.subrange(0, k + 1).last() == l);
        }
        if e < b {
            let key = string_of(&c, a, e);
            let value = unquote(&c, e + 1, b);
            proof {
                assert(l.subrange(0, e - a) =~= c@.subrange(a as int, e as int));
                assert(l.subrange(e - a + 1, l.len() as int) =~= c@.subrange(e + 1, b as int));
                assert(pairs_view(out@.push((key, value))) =~= pairs_view(out@).push((key@, value@)));
            }
            out.push((key, value));
        }
        k = k + 1;
    }
    proof {
        assert(ls.subrange(0, k as int) =~= ls);
    }
    out
}

/// The value of the last entry with `key`, if any.
pub fn release_value(entries: &Vec<(String, String)>, key: &str) -> (r: Option<String>)
    ensures
        match last_value(pairs_view(entries@), key@) {
            Some(v) => r.is_some() && r.unwrap()@ == v,
            None => r.is_none(),
        },
{
    let k_owned = key.to_owned();
    let ghost pv = pairs_view(entries@);
    let mut k = entries.len();
    proof {
        assert(pv.subrange(0, k as int) =~= pv);
    }
    while k > 0
        invariant
            k <= entries@.len(),
            pv == pairs_view(entries@),
            k_owned@ == key@,
            last_value(pv, key@) == last_value(pv.subrange(0, k as int), key@),
        decreases k,
    {
        proof {
            assert(pv.subrange(0, k as int).drop_last() =~= pv.subrange(0, k - 1));
        }
        if entries[k - 1].0 == k_owned {
            return Some(entries[k - 1].1.clone());
        }
        k = k - 1;
    }
    None
}

/// `part` added after a space, unless `res` already contains it.
pub open spec fn append_if_missing(res: Seq<char>, part: Seq<char>) -> Seq<char> {
    if has_part(res, part) {
        res
    } else {
        res.push(' ') + part
    }
}

/// The first of up to three optional values that is present.
pub open spec fn first_present(
    a: Option<Seq<char>>,
    b: Option<Seq<char>>,
    c: Option<Seq<char>>,
) -> Option<Seq<char>> {
    if a is Some {
        a
    } else if b is Some {
        b
    } else {
        c
    }
}

/// `res` with the first present part of two appended if missing.
pub open spec fn add_either(res: Seq<char>, a: Option<Seq<char>>, b: Option<Seq<char>>) -> Seq<char> {
    match a {
        Some(x) => append_if_missing(res, x),
        None => match b {
            Some(y) => append_if_missing(res, y),
            None => res,
        },
    }
}

/// The operating-system line: the distribution name (`NAME`, else
/// `PRETTY_NAME`, else `ID`), its version id or code name, its version id or
/// version, and the architecture, each added only if not already part of the
/// text, then trimmed. Absent without a name.
pub open spec fn os_line(es: Seq<(Seq<char>, Seq<char>)>, arch: Seq<char>) -> Option<Seq<char>> {
    match first_present(
        last_value(es, "NAME"@),
        last_value(es, "PRETTY_NAME"@),
        last_value(es, "ID"@),
    ) {
        None => None,
        Some(base) => {
            let r1 = add_either(base, last_value(es, "VERSION_ID"@), last_value(es, "VERSION_CODENAME"@));
            let r2 = add_either(r1, last_value(es, "VERSION_ID"@), last_value(es, "VERSION"@));
            Some(trimmed(append_if_missing(r2, arch)))
        },
    }
}

fn append_missing(res: &mut Vec<char>, part: &String)
    ensures
        final(res)@ == append_if_missing(old(res)@, part@),
{
    let p = to_chars(part.as_str());
    if !contains_part(res, &p) {
        res.push(' ');
        let mut k: usize = 0;
        let ghost start = res@;
        while k < p.len()
            invariant
                k <= p@.len(),
                res@ == start + p@.subrange(0, k as int),
            decreases p@.len() - k,
        {
            res.push(p[k]);
            k = k + 1;
            proof {
                assert(res@ =~= start + p@.subrange(0, k as int));
            }
        }
        proof {
            assert(p@.subrange(0, k as int) =~= p@);
        }
    }
}

fn add_either_exec(res: &mut Vec<char>, a: &Option<String>, b: &Option<String>)
    ensures
        final(res)@ == add_either(old(res)@, crate::config::opt_view(*a), crate::config::opt_view(*b)),
{
    match a {
        Some(x) => append_missing(res, x),
        None => match b {
            Some(y) => append_missing(res, y),
            None => {},
        },
    }
}

/// The operating-system line from os-release entries and the machine
/// architecture (see `os_line`).
pub fn os_name(entries: &Vec<(String, String)>, arch: &String) -> (r: Option<String>)
    ensures
        crate::config::opt_view(r) == os_line(pairs_view(entries@), arch@),
{
    let name = release_value(entries, "NAME");
    let pretty = release_value(entries, "PRETTY_NAME");
    let id = release_value(entries, "ID");
    let base = match name {
        Some(n) => n,
        None => match pretty {
            Some(p) => p,
            None => match id {
                Some(i) => i,
                None => {
                    return None;
                },
            },
        },
    };
    let mut res = to_chars(base.as_str());
    let version_id = release_value(entries, "VERSION_ID");
    let codename = release_value(entries, "VERSION_CODENAME");
    let version = release_value(entries, "VERSION");
    add_either_exec(&mut res, &version_id, &codename);
    add_either_exec(&mut res, &version_id, &version);
    append_missing(&mut res, arch);
    Some(trim_chars(&res))
}

/// The distribution identifier: the `ID` entry, or the fixed fallback name.
pub fn distro_id(entries: &Vec<(String, String)>) -> (r: String)
    ensures
        r@ == match last_value(pairs_view(entries@), "ID"@) {
            Some(v) => v,
            None => UNKNOWN_ID@,
        },
{
    match release_value(entries, "ID") {
        Some(v) => v,
        None => UNKNOWN_ID.to_owned(),
    }
}

/// The desktop line: the desktop name, followed by the session protocol in
/// parentheses when it is known.
pub fn describe_de(de: String, protocol: Option<String>) -> (r: String)
    ensures
        r@ == match protocol {
            Some(p) => de@ + " ("@ + p@ + ")"@,
            None => de@,
        },
{
    match protocol {
        Some(p) => {
            let mut s = de;
            push_str(&mut s, " (");
            push_str(&mut s, p.as_str());
            push_str(&mut s, ")");
            s
        },
        None => de,
    }
}

/// The first candidate that is present and not empty.
pub open spec fn first_nonempty(c: Seq<Option<Seq<char>>>) -> Option<Seq<char>>
    decreases c.len(),
{
    if c.len() == 0 {
        None
    } else {
        match c[0] {
            Some(s) => if s.len() > 0 {
                Some(s)
            } else {
                first_nonempty(c.drop_first())
            },
            None => first_nonempty(c.drop_first()),
        }
    }
}

/// The values of a list of optional strings.
pub open spec fn opts_view(v: Seq<Option<String>>) -> Seq<Option<Seq<char>>> {
    v.map_values(|o: Option<String>| crate::config::opt_view(o))
}

/// The locale: the first of the candidates (`LANG`, `LC_ALL`, `LC_MESSAGES`
/// in that order) that is set and not empty.
pub fn pick_locale(candidates: &Vec<Option<String>>) -> (r: Option<String>)
    ensures
        crate::config::opt_view(r) == first_nonempty(opts_view(candidates@)),
{
    let ghost ov = opts_view(candidates@);
    let mut k: usize = 0;
    proof {
        assert(ov.subrange(0, ov.len() as int) =~= ov);
    }
    while k < candidates.len()
        invariant
            k <= candidates@.len(),
            ov == opts_view(candidates@),
            first_nonempty(ov) == first_nonempty(ov.subrange(k as int, ov.len() as int)),
        decreases candidates@.len() - k,
    {
        let ghost rest = ov.subrange(k as int, ov.len() as int);
        proof {
            assert(rest.drop_first() =~= ov.subrange(k + 1, ov.len() as int));
            assert(rest[0] == ov[k as int]);
        }
        match &candidates[k] {
            Some(s) => {
                if !s.as_str().is_empty() {
                    return Some(s.clone());
                }
            },
            None => {},
        }
        k = k + 1;
    }
    None
}

/// The machine name: a QEMU "Standard PC" gets a `KVM/QEMU` prefix; the
/// result is trimmed.
pub open spec fn machine_line(s: Seq<char>) -> Seq<char> {
    if "Standard PC"@.len() <= s.len() && s.subrange(0, "Standard PC"@.len() as int)
        == "Standard PC"@ {
        trimmed("KVM/QEMU"@ + s)
    } else {
        trimmed(s)
    }
}

/// The machine name as shown (see `machine_line`).
pub fn normalize_machine(s: &String) -> (r: String)
    ensures
        r@ == machine_line(s@),
{
    let c = to_chars(s.as_str());
    let prefix = to_chars("Standard PC");
    if starts_with_chars(&c, &prefix) {
        let mut full = to_chars("KVM/QEMU");
        let ghost start = full@;
        let mut k: usize = 0;
        while k < c.len()
            invariant
                k <= c@.len(),
                full@ == start + c@.subrange(0, k as int),
            decreases c@.len() - k,
        {
            full.push(c[k]);
            k = k + 1;
            proof {
                assert(full@ =~= start + c@.subrange(0, k as int));
            }
        }
        proof {
            assert(c@.subrange(0, k as int) =~= c@);
        }
        trim_chars(&full)
    } else {
        trim_chars(&c)
    }
}

/// One battery's line: its trimmed capacity with a percent sign, then its
/// status unless the status says `Unknown`, all trimmed.
pub open spec fn battery_line(capacity: Seq<char>, status: Option<Seq<char>>) -> Seq<char> {
    let base = trimmed(capacity) + "% "@;
    match status {
        Some(st) => if has_part(st, "Unknown"@) {
            trimmed(base)
        } else {
            trimmed(base + st)
        },
        None => trimmed(base),
    }
}

/// One battery's line (see `battery_line`).
pub fn battery_entry(capacity: &String, status: &Option<String>) -> (r: String)
    ensures
        r@ == battery_line(capacity@, crate::config::opt_view(*status)),
{
    let cap = trim_chars(&to_chars(capacity.as_str()));
    let mut line = cap;
    push_str(&mut line, "% ");
    match status {
        Some(st) => {
            let sc = to_chars(st.as_str());
            let unknown = to_chars("Unknown");
            if !contains_part(&sc, &unknown) {
                push_str(&mut line, st.as_str());
            }
        },
        None => {},
    }
    trim_chars(&to_chars(line.as_str()))
}

/// The parts joined with `sep` between neighbours.
pub open spec fn joined(parts: Seq<Seq<char>>, sep: Seq<char>) -> Seq<char>
    decreases parts.len(),
{
    if parts.len() == 0 {
        Seq::empty()
    } else if parts.len() == 1 {
        parts[0]
    } else {
        joined(parts.drop_last(), sep) + sep + parts.last()
    }
}

/// The parts joined with `sep` between neighbours.
pub fn join(parts: &Vec<String>, sep: &str) -> (r: String)
    ensures
        r@ == joined(crate::info::texts_view(parts@), sep@),
{
    let ghost pv = crate::info::texts_view(parts@);
    let mut out = String::new();
    let mut k: usize = 0;
    while k < parts.len()
        invariant
            k <= parts@.len(),
            pv == crate::info::texts_view(parts@),
            out@ == joined(pv.subrange(0, k as int), sep@),
        decreases parts@.len() - k,
    {
        if k > 0 {
            push_str(&mut out, sep);
        }
        push_str(&mut out, parts[k].as_str());
        proof {
            let sub = pv.subrange(0, k + 1);
            assert(sub.drop_last() =~= pv.subrange(0, k as int));
            assert(sub.last() == parts@[k as int]@);
            if k == 0 {
                assert(out@ =~= joined(sub, sep@));
            }
        }
        k = k + 1;
    }
    proof {
        assert(pv.subrange(0, k as int) =~= pv);
    }
    out
}

/// The number after `key` on the first line that starts with `key`: white
/// space is skipped and the run of digits that follows is read. Absent when
/// no line starts with `key` or no digit follows.
pub open spec fn kib_of(ls: Seq<Seq<char>>, key: Seq<char>) -> Option<nat>
    decreases ls.len(),
{
    if ls.len() == 0 {
        None
    } else if key.len() <= ls[0].len() && ls[0].subrange(0, key.len() as int) == key {
        let rest = ls[0].subrange(key.len() as int, ls[0].len() as int);
        let i = crate::text::trim_start_index(rest, 0);
        let d = rest.subrange(i, crate::template::digits_end(rest, i));
        if d.len() > 0 {
            Some(digits_value(d))
        } else {
            None
        }
    } else {
        kib_of(ls.drop_first(), key)
    }
}

/// Total and available memory in KiB as `/proc/meminfo` states them.
pub open spec fn meminfo_fields(text: Seq<char>) -> Option<(nat, nat)> {
    match (kib_of(lines(text), "MemTotal:"@), kib_of(lines(text), "MemAvailable:"@)) {
        (Some(t), Some(a)) => Some((t, a)),
        _ => None,
    }
}

fn read_kib(c: &Vec<char>, spans: &Vec<(usize, usize)>, key: &str) -> (r: Option<u64>)
    requires
        spans@.len() == lines(c@).len(),
        forall|j: int|
            0 <= j < spans@.len() ==> {
                &&& (#[trigger] spans@[j]).0 <= spans@[j].1 <= c@.len()
                &&& c@.subrange(spans@[j].0 as int, spans@[j].1 as int) == lines(c@)[j]
            },
    ensures
        match kib_of(lines(c@), key@) {
            Some(v) => if v <= u64::MAX {
                r == Some(v as u64)
            } else {
                r is None
            },
            None => r is None,
        },
{
    let ghost ls = lines(c@);
    let kc = to_chars(key);
    let mut k: usize = 0;
    proof {
        assert(ls.subrange(0, ls.len() as int) =~= ls);
    }
    while k < spans.len()
        invariant
            k <= spans@.len(),
            spans@.len() == ls.len(),
            ls == lines(c@),
            kc@ == key@,
            forall|j: int|
                0 <= j < spans@.len() ==> {
                    &&& (#[trigger] spans@[j]).0 <= spans@[j].1 <= c@.len()
                    &&& c@.subrange(spans@[j].0 as int, spans@[j].1 as int) == ls[j]
                },
            kib_of(ls, key@) == kib_of(ls.subrange(k as int, ls.len() as int), key@),
        decreases spans@.len() - k,
    {
        let (a, b) = spans[k];
        let lc = to_chars(string_of(c, a, b).as_str());
        let ghost rest_ls = ls.subrange(k as int, ls.len() as int);
        proof {
            assert(rest_ls[0] == ls[k as int]);
            assert(rest_ls.drop_first() =~= ls.subrange(k + 1, ls.len() as int));
        }
        if starts_with_chars(&lc, &kc) {
            let n = lc.len();
            let mut i = kc.len();
            let ghost rest = lc@.subrange(kc@.len() as int, lc@.len() as int);
            while i < n && crate::text::is_ws_exec(lc[i])
                invariant
                    kc@.len() <= i <= n,
                    n == lc@.len(),
                    rest == lc@.subrange(kc@.len() as int, lc@.len() as int),
                    crate::text::trim_start_index(rest, i - kc@.len()) == crate::text::trim_start_index(rest, 0),
                decreases n - i,
            {
                i = i + 1;
            }
            let start = i;
            let mut v: u64 = 0;
            let mut big = false;
            while i < n && '0' <= lc[i] && lc[i] <= '9'
                invariant
                    start <= i <= n,
                    n == lc@.len(),
                    kc@.len() <= start,
                    rest == lc@.subrange(kc@.len() as int, lc@.len() as int),
                    crate::template::digits_end(rest, i - kc@.len()) == crate::template::digits_end(rest, start - kc@.len()),
                    forall|j: int| start <= j < i ==> is_digit(lc@[j]),
                    !big ==> v == digits_value(lc@.subrange(start as int, i as int)),
                    big ==> digits_value(lc@.subrange(start as int, i as int)) > u64::MAX,
                decreases n - i,
            {
                let d = (lc[i] as u32 - '0' as u32) as u64;
                proof {
                    assert(lc@.subrange(start as int, i + 1).drop_last() =~= lc@.subrange(start as int, i as int));
                }
                if !big {
                    if v > (u64::MAX - d) / 10 {
                        big = true;
                    } else {
                        v = v * 10 + d;
                    }
                }
                i = i + 1;
            }
            proof {
                let s0 = crate::text::trim_start_index(rest, 0);
                assert(s0 == start - kc@.len());
                assert(rest.subrange(s0, crate::template::digits_end(rest, s0)) =~= lc@.subrange(start as int, i as int));
            }
            if i == start || big {
                return None;
            }
            return Some(v);
        }
        k = k + 1;
    }
    None
}

/// Total and available memory in KiB from the text of `/proc/meminfo`;
/// absent when a field is missing, has no digits, or exceeds `u64`.
pub fn meminfo_kib(text: &str) -> (r: Option<(u64, u64)>)
    ensures
        match meminfo_fields(text@) {
            Some((t, a)) => if t <= u64::MAX && a <= u64::MAX {
                r == Some((t as u64, a as u64))
            } else {
                r is None
            },
            None => r is None,
        },
{
    let c = to_chars(text);
    let spans = line_spans(&c);
    let total = read_kib(&c, &spans, "MemTotal:");
    let avail = read_kib(&c, &spans, "MemAvailable:");
    match (total, avail) {
        (Some(t), Some(a)) => Some((t, a)),
        _ => None,
    }
}

/// `1024` to the power `k`.
pub open spec fn pow1024(k: nat) -> nat
    decreases k,
{
    if k == 0 {
        1
    } else {
        1024 * pow1024((k - 1) as nat)
    }
}

/// The unit for a byte count: 0 for bytes, 1 for KiB, and so on up to 6 for
/// EiB; the largest unit that the count reaches.
pub fn byte_unit(i: u64) -> (r: u8)
    ensures
        r <= 6,
        r == 0 || i >= pow1024(r as nat),
        r == 6 || i < pow1024((r + 1) as nat),
{
    proof {
        reveal_with_fuel(pow1024, 7);
    }
    if i < 1024 {
        0
    } else if i < 1048576 {
        1
    } else if i < 1073741824 {
        2
    } else if i < 1099511627776 {
        3
    } else if i < 1125899906842624 {
        4
    } else if i < 1152921504606846976 {
        5
    } else {
        6
    }
}

/// ASCII white space as `u8::is_ascii_whitespace` defines it.
pub open spec fn is_ascii_ws(c: char) -> bool {
    c == ' ' || c == '\t' || c == '\n' || c == '\x0C' || c == '\r'
}

/// Index of the first character at or after `i` that is not ASCII white space.
pub open spec fn skip_ws(s: Seq<char>, i: int) -> int
    decreases s.len() - i,
{
    if 0 <= i < s.len() && is_ascii_ws(s[i]) {
        skip_ws(s, i + 1)
    } else {
        i
    }
}

/// Index of the first ASCII white space at or after `i`, or the end.
pub open spec fn skip_word(s: Seq<char>, i: int) -> int
    decreases s.len() - i,
{
    if 0 <= i < s.len() && !is_ascii_ws(s[i]) {
        skip_word(s, i + 1)
    } else {
        i
    }
}

/// Whether the mount-table line names a device that gets no disk row: a
/// loop, ram or floppy device, or anything under `/var/snap`.
pub open spec fn ignored_mount(l: Seq<char>) -> bool {
    starts(l, "/dev/loop"@) || starts(l, "/dev/ram"@) || starts(l, "/dev/fd"@) || has_part(
        l,
        "/var/snap"@,
    )
}

/// `l` begins with `p`.
pub open spec fn starts(l: Seq<char>, p: Seq<char>) -> bool {
    p.len() <= l.len() && l.subrange(0, p.len() as int) == p
}

/// The mount point of a mount-table line that names a disk: the line starts
/// with `/dev/`, `/rpool/` or `drvfs`, is not ignored, and has at least three
/// fields; the mount point is the second.
pub open spec fn disk_mount(l: Seq<char>) -> Option<Seq<char>> {
    if ignored_mount(l) || !(starts(l, "/rpool/"@) || starts(l, "drvfs"@) || starts(l, "/dev/"@)) {
        None
    } else {
        let a1 = skip_ws(l, 0);
        let e1 = skip_word(l, a1);
        let a2 = skip_ws(l, e1);
        let e2 = skip_word(l, a2);
        let a3 = skip_ws(l, e2);
        if e1 > a1 && e2 > a2 && a3 < l.len() {
            Some(l.subrange(a2, e2))
        } else {
            None
        }
    }
}

/// The mount points of the disk lines, in order.
pub open spec fn disk_mounts(ls: Seq<Seq<char>>) -> Seq<Seq<char>>
    decreases ls.len(),
{
    if ls.len() == 0 {
        Seq::empty()
    } else {
        disk_mounts(ls.drop_last()) + match disk_mount(ls.last()) {
            Some(m) => seq![m],
            None => Seq::empty(),
        }
    }
}

fn is_ascii_ws_char(c: char) -> (r: bool)
    ensures
        r == is_ascii_ws(c),
{
    c == ' ' || c == '\t' || c == '\n' || c == '\x0C' || c == '\r'
}

fn skip_ws_exec(s: &Vec<char>, i: usize) -> (r: usize)
    requires
        i <= s@.len(),
    ensures
        r == skip_ws(s@, i as int),
        i <= r <= s@.len(),
{
    let mut k = i;
    while k < s.len() && is_ascii_ws_char(s[k])
        invariant
            i <= k <= s@.len(),
            skip_ws(s@, k as int) == skip_ws(s@, i as int),
        decreases s@.len() - k,
    {
        k = k + 1;
    }
    k
}

fn skip_word_exec(s: &Vec<char>, i: usize) -> (r: usize)
    requires
        i <= s@.len(),
    ensures
        r == skip_word(s@, i as int),
        i <= r <= s@.len(),
{
    let mut k = i;
    while k < s.len() && !is_ascii_ws_char(s[k])
        invariant
            i <= k <= s@.len(),
            skip_word(s@, k as int) == skip_word(s@, i as int),
        decreases s@.len() - k,
    {
        k = k + 1;
    }
    k
}

fn starts_lit(l: &Vec<char>, p: &str) -> (r: bool)
    ensures
        r == starts(l@, p@),
{
    starts_with_chars(l, &to_chars(p))
}

/// The mount point of one mount-table line, if it names a disk (see `disk_mount`).
pub fn mount_of_line(line: &str) -> (r: Option<String>)
    ensures
        crate::config::opt_view(r) == disk_mount(line@),
{
    let l = to_chars(line);
    let ignored = starts_lit(&l, "/dev/loop") || starts_lit(&l, "/dev/ram") || starts_lit(
        &l,
        "/dev/fd",
    ) || contains_part(&l, &to_chars("/var/snap"));
    if ignored {
        return None;
    }
    if !(starts_lit(&l, "/rpool/") || starts_lit(&l, "drvfs") || starts_lit(&l, "/dev/")) {
        return None;
    }
    let a1 = skip_ws_exec(&l, 0);
    let e1 = skip_word_exec(&l, a1);
    let a2 = skip_ws_exec(&l, e1);
    let e2 = skip_word_exec(&l, a2);
    let a3 = skip_ws_exec(&l, e2);
    if e1 > a1 && e2 > a2 && a3 < l.len() {
        Some(string_of(&l, a2, e2))
    } else {
        None
    }
}

/// The mount points of the disks that a mount table lists, in order.
pub fn mount_points(table: &str) -> (r: Vec<String>)
    ensures
        crate::info::texts_view(r@) == disk_mounts(lines(table@)),
{
    let c = to_chars(table);
    let spans = line_spans(&c);
    let ghost ls = lines(c@);
    let mut out: Vec<String> = Vec::new();
    let mut k: usize = 0;
    while k < spans.len()
        invariant
            k <= spans@.len(),
            c@ == table@,
            ls == lines(c@),
            spans@.len() == ls.len(),
            forall|j: int|
                0 <= j < spans@.len() ==> {
                    &&& (#[trigger] spans@[j]).0 <= spans@[j].1 <= c@.len()
                    &&& c@.subrange(spans@[j].0 as int, spans@[j].1 as int) == ls[j]
                },
            crate::info::texts_view(out@) == disk_mounts(ls.subrange(0, k as int)),
        decreases spans@.len() - k,
    {
        let (a, b) = spans[k];
        let line = string_of(&c, a, b);
        proof {
            assert(ls.subrange(0, k + 1).drop_last() =~= ls.subrange(0, k as int));
            assert(ls.subrange(0, k + 1).last() == line@);
        }
        match mount_of_line(line.as_str()) {
            Some(m) => {
                proof {
                    assert(crate::info::texts_view(out@.push(m)) =~= crate::info::texts_view(
                        out@,
                    ).push(m@));
                }
                out.push(m);
            },
            None => {},
        }
        k = k + 1;
    }
    proof {
        assert(ls.subrange(0, k as int) =~= ls);
    }
    out
}
} // verus!
