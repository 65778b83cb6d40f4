use vstd::prelude::*;

use crate::text::{push_char, push_str, string_of, to_chars, trim_chars, trimmed};

verus! {

/// The value of a hexadecimal digit, or `None` for another character.
pub open spec fn hex_digit(c: char) -> Option<nat> {
    if '0' <= c && c <= '9' {
        Some((c as nat - '0' as nat) as nat)
    } else if 'a' <= c && c <= 'f' {
        Some((c as nat - 'a' as nat + 10) as nat)
    } else if 'A' <= c && c <= 'F' {
        Some((c as nat - 'A' as nat + 10) as nat)
    } else {
        None
    }
}

/// The value of a run of hexadecimal digits; `None` if a character is not one.
pub open spec fn hex_value(d: Seq<char>) -> Option<nat>
    decreases d.len(),
{
    if d.len() == 0 {
        Some(0)
    } else {
        match (hex_value(d.drop_last()), hex_digit(d.last())) {
            (Some(v), Some(x)) => Some(v * 16 + x),
            _ => None,
        }
    }
}

/// A PCI id as sysfs writes it (`0x10de` and a line feed): the trimmed text
/// minus its first two characters, read as hexadecimal; absent when that
/// rest is empty, holds a non-digit, or exceeds `u16`.
pub open spec fn pci_id_of(text: Seq<char>) -> Option<u16> {
    let t = trimmed(text);
    if t.len() < 2 {
        None
    } else {
        let d = t.subrange(2, t.len() as int);
        match hex_value(d) {
            Some(v) => if d.len() > 0 && v <= 0xFFFF {
                Some(v as u16)
            } else {
                None
            },
            None => None,
        }
    }
}

fn hex_digit_exec(c: char) -> (r: Option<u32>)
    ensures
        match hex_digit(c) {
            Some(x) => r == Some(x as u32),
            None => r is None,
        },
{
    if '0' <= c && c <= '9' {
        Some(c as u32 - '0' as u32)
    } else if 'a' <= c && c <= 'f' {
        Some(c as u32 - 'a' as u32 + 10)
    } else if 'A' <= c && c <= 'F' {
        Some(c as u32 - 'A' as u32 + 10)
    } else {
        None
    }
}

proof fn lemma_hex_value_grows(d: Seq<char>, m: int)
    requires
        0 <= m <= d.len(),
        hex_value(d) is Some,
    ensures
        hex_value(d.subrange(0, m)) is Some,
        hex_value(d.subrange(0, m)).unwrap() <= hex_value(d).unwrap(),
    decreases d.len(),
{
    if m < d.len() {
        lemma_hex_value_grows(d.drop_last(), m);
        assert(d.drop_last().subrange(0, m) =~= d.subrange(0, m));
    } else {
        assert(d.subrange(0, m) =~= d);
    }
}

/// Reads a PCI id from the text of a sysfs `vendor` or `device` file.
pub fn parse_pci_id(text: &str) -> (r: Option<u16>)
    ensures
        r == pci_id_of(text@),
{
    let t = trim_chars(&to_chars(text));
    let c = to_chars(t.as_str());
    let n = c.len();
    if n < 2 || n == 2 {
        return None;
    }
    let ghost d = c@.subrange(2, n as int);
    let mut v: u32 = 0;
    let mut k: usize = 2;
    while k < n
        invariant
            2 <= k <= n,
            n == c@.len(),
            c@ == trimmed(text@),
            d == c@.subrange(2, n as int),
            hex_value(c@.subrange(2, k as int)) == Some(v as nat),
            v <= 0xFFFF,
        decreases n - k,
    {
        proof {
            assert(c@.subrange(2, k + 1).drop_last() =~= c@.subrange(2, k as int));
        }
        match hex_digit_exec(c[k]) {
            Some(x) => {
                if v > (0xFFFF - x) / 16 {
                    proof {
                        if hex_value(d) is Some {
                            lemma_hex_value_grows(d, k + 1 - 2);
                            assert(d.subrange(0, k + 1 - 2) =~= c@.subrange(2, k + 1));
                        }
                    }
                    return None;
                }
                v = v * 16 + x;
            },
            None => {
                proof {
                    if hex_value(d) is Some {
                        lemma_hex_value_grows(d, k + 1 - 2);
                        assert(d.subrange(0, k + 1 - 2) =~= c@.subrange(2, k + 1));
                    }
                }
                return None;
            },
        }
        k = k + 1;
    }
    proof {
        assert(c@.subrange(2, k as int) =~= d);
    }
    Some(v as u16)
}

/// `s` from index `i` on with every occurrence of `pat` (taken leftmost
/// first, without overlap) replaced by `rep`, as `str::replace` does.
pub open spec fn replaced_from(s: Seq<char>, pat: Seq<char>, rep: Seq<char>, i: int) -> Seq<char>
    decreases s.len() - i,
{
    if i < 0 || i >= s.len() {
        Seq::empty()
    } else if pat.len() > 0 && i + pat.len() <= s.len() && s.subrange(i, i + pat.len()) == pat {
        rep + replaced_from(s, pat, rep, i + pat.len())
    } else {
        seq![s[i]] + replaced_from(s, pat, rep, i + 1)
    }
}

/// `s` with every occurrence of `pat` replaced by `rep`.
pub open spec fn replaced(s: Seq<char>, pat: Seq<char>, rep: Seq<char>) -> Seq<char> {
    replaced_from(s, pat, rep, 0)
}

/// `s` with every occurrence of a non-empty `pat` replaced by `rep`.
pub fn replace_all(s: &Vec<char>, pat: &Vec<char>, rep: &Vec<char>) -> (r: Vec<char>)
    requires
        pat@.len() > 0,
    ensures
        r@ == replaced(s@, pat@, rep@),
{
    let n = s.len();
    let mut out: Vec<char> = Vec::new();
    let mut i: usize = 0;
    while i < n
        invariant
            i <= n,
            n == s@.len(),
            pat@.len() > 0,
            replaced(s@, pat@, rep@) == out@ + replaced_from(s@, pat@, rep@, i as int),
        decreases n - i,
    {
        let hit = if pat.len() <= n - i {
            let sl = slice_from(s, i, i + pat.len());
            proof {
                assert(sl@.subrange(0, pat@.len() as int) =~= sl@);
            }
            crate::text::starts_with_chars(&sl, pat)
        } else {
            false
        };
        if hit {
            let ghost before = out@;
            let mut k: usize = 0;
            while k < rep.len()
                invariant
                    k <= rep@.len(),
                    out@ == before + rep@.subrange(0, k as int),
                decreases rep@.len() - k,
            {
                out.push(rep[k]);
                k = k + 1;
                proof {
                    assert(out@ =~= before + rep@.subrange(0, k as int));
                }
            }
            proof {
                assert(rep@.subrange(0, k as int) =~= rep@);
                assert(s@.subrange(i as int, i + pat@.len()) == pat@);
                assert(replaced_from(s@, pat@, rep@, i as int) == rep@ + replaced_from(
                    s@,
                    pat@,
                    rep@,
                    i + pat@.len(),
                ));
                assert(before + replaced_from(s@, pat@, rep@, i as int) =~= out@ + replaced_from(
                    s@,
                    pat@,
                    rep@,
                    i + pat@.len(),
                ));
            }
            i = i + pat.len();
        } else {
            let ghost before = out@;
            out.push(s[i]);
            proof {
                assert(replaced_from(s@, pat@, rep@, i as int) == seq![s@[i as int]] + replaced_from(
                    s@,
                    pat@,
                    rep@,
                    i + 1,
                ));
                assert(before + replaced_from(s@, pat@, rep@, i as int) =~= out@ + replaced_from(
                    s@,
                    pat@,
                    rep@,
                    i + 1,
                ));
            }
            i = i + 1;
        }
    }
    proof {
        assert(out@ + replaced_from(s@, pat@, rep@, i as int) =~= out@);
    }
    out
}

fn slice_from(s: &Vec<char>, from: usize, to: usize) -> (r: Vec<char>)
    requires
        from <= to <= s@.len(),
    ensures
        r@ == s@.subrange(from as int, to as int),
{
    let mut out: Vec<char> = Vec::new();
    let mut k = from;
    while k < to
        invariant
            from <= k <= to <= s@.len(),
            out@ == s@.subrange(from as int, k as int),
        decreases to - k,
    {
        out.push(s[k]);
        k = k + 1;
        proof {
            assert(out@ =~= s@.subrange(from as int, k as int));
        }
    }
    out
}

/// The vendor and device names that the PCI id database gives for an id pair.
pub uninterp spec fn pci_names(vid: u16, pid: u16) -> Option<(Seq<char>, Seq<char>)>;

/// Relies on pci-ids' `Device::from_vid_pid`, `Device::vendor`, `Vendor::name`
/// and `Device::name`: a lookup in the database built into the crate.
#[verifier::external_body]
fn pci_lookup(vid: u16, pid: u16) -> (r: Option<(String, String)>)
    ensures
        match pci_names(vid, pid) {
            Some((v, d)) => r.is_some() && r.unwrap().0@ == v && r.unwrap().1@ == d,
            None => r is None,
        },
{
    pci_ids::Device::from_vid_pid(vid, pid).map(|d| (d.vendor().name().to_string(), d.name().to_string()))
}

/// A vendor name with the two long forms shortened: AMD's and Intel's.
pub open spec fn short_vendor(v: Seq<char>) -> Seq<char> {
    replaced(
        replaced(v, "Advanced Micro Devices, Inc. [AMD/ATI]"@, "AMD"@),
        "Intel Corporation"@,
        "Intel"@,
    )
}

/// The GPU line for known vendor and device names: the short vendor name, a
/// space, and the device name.
pub open spec fn gpu_line_of(names: (Seq<char>, Seq<char>)) -> Seq<char> {
    short_vendor(names.0).push(' ') + names.1
}

/// The GPU line for named vendor and device names.
pub fn gpu_line(vendor: &String, device: &String) -> (r: String)
    ensures
        r@ == gpu_line_of((vendor@, device@)),
{
    let v = to_chars(vendor.as_str());
    let amd_long = to_chars("Advanced Micro Devices, Inc. [AMD/ATI]");
    let intel_long = to_chars("Intel Corporation");
    proof {
        reveal_strlit("Advanced Micro Devices, Inc. [AMD/ATI]");
        reveal_strlit("Intel Corporation");
    }
    let v1 = replace_all(&v, &amd_long, &to_chars("AMD"));
    let v2 = replace_all(&v1, &intel_long, &to_chars("Intel"));
    let mut s = string_of(&v2, 0, v2.len());
    push_char(&mut s, ' ');
    push_str(&mut s, device.as_str());
    proof {
        assert(v2@.subrange(0, v2@.len() as int) =~= v2@);
    }
    s
}

/// The GPU line for the PCI id files of a card: absent when an id cannot
/// be read or the database does not know the pair.
pub fn gpu_name(vendor_text: &str, device_text: &str) -> (r: Option<String>)
    ensures
        match (pci_id_of(vendor_text@), pci_id_of(device_text@)) {
            (Some(vid), Some(pid)) => match pci_names(vid, pid) {
                Some(names) => r.is_some() && r.unwrap()@ == gpu_line_of(names),
                None => r is None,
            },
            _ => r is None,
        },
{
    let vid = match parse_pci_id(vendor_text) {
        Some(v) => v,
        None => {
            return None;
        },
    };
    let pid = match parse_pci_id(device_text) {
        Some(p) => p,
        None => {
            return None;
        },
    };
    match pci_lookup(vid, pid) {
        Some((v, d)) => Some(gpu_line(&v, &d)),
        None => None,
    }
}

} // verus!
