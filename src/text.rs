use vstd::prelude::*;

verus! {

/// Relies on `String::push`: appends one character.
#[verifier::external_body]
pub(crate) fn push_char(s: &mut String, c: char)
    ensures
        final(s)@ == old(s)@.push(c),
{
    s.push(c)
}

/// Appends a string slice.
pub(crate) fn push_str(s: &mut String, t: &str)
    ensures
        final(s)@ == old(s)@ + t@,
{
    s.append(t)
}

/// The characters of `t`, one by one.
pub fn to_chars(t: &str) -> (r: Vec<char>)
    ensures
        r@ == t@,
{
    let n = t.unicode_len();
    let mut out: Vec<char> = Vec::new();
    let mut i: usize = 0;
    while i < n
        invariant
            n == t@.len(),
            i <= n,
            out@ == t@.subrange(0, i as int),
        decreases n - i,
    {
        out.push(t.get_char(i));
        i = i + 1;
        proof {
            assert(out@ =~= t@.subrange(0, i as int));
        }
    }
    proof {
        assert(t@.subrange(0, n as int) =~= t@);
    }
    out
}

/// A string holding the characters `c`, in order.
pub fn string_of(c: &Vec<char>, from: usize, to: usize) -> (r: String)
    requires
        from <= to <= c@.len(),
    ensures
        r@ == c@.subrange(from as int, to as int),
{
    let mut s = String::new();
    let mut k = from;
    while k < to
        invariant
            from <= k <= to <= c@.len(),
            s@ == c@.subrange(from as int, k as int),
        decreases to - k,
    {
        push_char(&mut s, c[k]);
        k = k + 1;
        proof {
            assert(s@ =~= c@.subrange(from as int, k as int));
        }
    }
    s
}

/// Number of bytes that the UTF-8 encoding of `c` takes.
pub open spec fn utf8_width(c: char) -> nat {
    if (c as u32) < 0x80 {
        1
    } else if (c as u32) < 0x800 {
        2
    } else if (c as u32) < 0x10000 {
        3
    } else {
        4
    }
}

/// Number of bytes of the UTF-8 encoding of `s`.
pub open spec fn utf8_len(s: Seq<char>) -> nat
    decreases s.len(),
{
    if s.len() == 0 {
        0
    } else {
        utf8_len(s.drop_last()) + utf8_width(s.last())
    }
}

/// Byte length of `s` in UTF-8; `None` if it does not fit in `usize`.
pub fn utf8_length(s: &Vec<char>) -> (r: Option<usize>)
    ensures
        r.is_some() == (utf8_len(s@) <= usize::MAX),
        r.is_some() ==> r.unwrap() == utf8_len(s@),
{
    let mut total: usize = 0;
    let mut k: usize = 0;
    while k < s.len()
        invariant
            k <= s@.len(),
            total == utf8_len(s@.subrange(0, k as int)),
        decreases s@.len() - k,
    {
        let c = s[k] as u32;
        let w: usize = if c < 0x80 {
            1
        } else if c < 0x800 {
            2
        } else if c < 0x10000 {
            3
        } else {
            4
        };
        proof {
            assert(s@.subrange(0, k + 1).drop_last() =~= s@.subrange(0, k as int));
        }
        if total > usize::MAX - w {
            proof {
                lemma_utf8_len_prefix(s@, k + 1);
            }
            return None;
        }
        total = total + w;
        k = k + 1;
    }
    proof {
        assert(s@.subrange(0, k as int) =~= s@);
    }
    Some(total)
}

proof fn lemma_utf8_len_prefix(s: Seq<char>, m: int)
    requires
        0 <= m <= s.len(),
    ensures
        utf8_len(s.subrange(0, m)) <= utf8_len(s),
    decreases s.len(),
{
    if m < s.len() {
        lemma_utf8_len_prefix(s.drop_last(), m);
        assert(s.drop_last().subrange(0, m) =~= s.subrange(0, m));
    } else {
        assert(s.subrange(0, m) =~= s);
    }
}

/// The decimal digit for `d < 10`.
pub open spec fn digit_char(d: nat) -> char {
    ((d + '0' as nat) as u8) as char
}

/// Decimal rendering of `n`, without leading zeros.
pub open spec fn decimal(n: nat) -> Seq<char>
    decreases n,
{
    if n < 10 {
        seq![digit_char(n)]
    } else {
        decimal(n / 10).push(digit_char(n % 10))
    }
}

/// Appends the decimal rendering of `n` to `s`.
pub fn push_decimal(s: &mut String, n: usize)
    ensures
        final(s)@ == old(s)@ + decimal(n as nat),
    decreases n,
{
    if n >= 10 {
        push_decimal(s, n / 10);
    }
    let d = (n % 10) as u8 + 48u8;
    proof {
        assert(d == (n % 10) as nat + '0' as nat);
    }
    push_char(s, d as char);
    proof {
        if n >= 10 {
            assert(old(s)@ + decimal(n as nat) =~= old(s)@ + decimal((n / 10) as nat) + seq![
                digit_char((n % 10) as nat),
            ]);
        }
    }
}

/// Index of the first line feed at or after `i`, or `s.len()`.
pub open spec fn newline_index(s: Seq<char>, i: int) -> int
    decreases s.len() - i,
{
    if i < 0 || i >= s.len() {
        s.len() as int
    } else if s[i] == '\n' {
        i
    } else {
        newline_index(s, i + 1)
    }
}

/// The line that starts at `i` and ends at the line feed `k` (or at the end
/// of the text): a carriage return just before a line feed is dropped.
pub open spec fn line_at(s: Seq<char>, i: int, k: int) -> Seq<char> {
    if k < s.len() && k > i && s[k - 1] == '\r' {
        s.subrange(i, k - 1)
    } else {
        s.subrange(i, k)
    }
}

/// The lines of `s` from index `i` on. A final line feed ends the last line
/// and starts no new, empty one.
pub open spec fn lines_from(s: Seq<char>, i: int) -> Seq<Seq<char>>
    decreases s.len() - i,
    via lines_from_decreases
{
    if 0 <= i < s.len() {
        let k = newline_index(s, i);
        if k < s.len() {
            seq![line_at(s, i, k)] + lines_from(s, k + 1)
        } else {
            seq![line_at(s, i, k)]
        }
    } else {
        Seq::empty()
    }
}

proof fn lemma_newline_index_bounds(s: Seq<char>, i: int)
    requires
        0 <= i <= s.len(),
    ensures
        i <= newline_index(s, i) <= s.len(),
        newline_index(s, i) < s.len() ==> s[newline_index(s, i)] == '\n',
    decreases s.len() - i,
{
    if i < s.len() && s[i] != '\n' {
        lemma_newline_index_bounds(s, i + 1);
    }
}

#[via_fn]
proof fn lines_from_decreases(s: Seq<char>, i: int) {
    if 0 <= i < s.len() {
        lemma_newline_index_bounds(s, i);
    }
}

/// The lines of `s`, split as `str::lines` does.
pub open spec fn lines(s: Seq<char>) -> Seq<Seq<char>> {
    lines_from(s, 0)
}

/// The start and end index of each line of `s` (see `lines`).
pub fn line_spans(s: &Vec<char>) -> (r: Vec<(usize, usize)>)
    ensures
        r@.len() == lines(s@).len(),
        forall|j: int|
            0 <= j < r@.len() ==> {
                &&& (#[trigger] r@[j]).0 <= r@[j].1 <= s@.len()
                &&& s@.subrange(r@[j].0 as int, r@[j].1 as int) == lines(s@)[j]
            },
{
    let n = s.len();
    let mut out: Vec<(usize, usize)> = Vec::new();
    let mut i: usize = 0;
    let ghost done: Seq<Seq<char>> = Seq::empty();
    while i < n
        invariant
            n == s@.len(),
            i <= n,
            lines(s@) == done + lines_from(s@, i as int),
            out@.len() == done.len(),
            forall|j: int|
                0 <= j < out@.len() ==> {
                    &&& (#[trigger] out@[j]).0 <= out@[j].1 <= s@.len()
                    &&& s@.subrange(out@[j].0 as int, out@[j].1 as int) == done[j]
                },
        decreases n - i,
    {
        let mut k = i;
        while k < n && s[k] != '\n'
            invariant
                i <= k <= n,
                n == s@.len(),
                newline_index(s@, k as int) == newline_index(s@, i as int),
            decreases n - k,
        {
            k = k + 1;
        }
        let end = if k < n && k > i && s[k - 1] == '\r' {
            k - 1
        } else {
            k
        };
        proof {
            let line = line_at(s@, i as int, k as int);
            done = done.push(line);
            if k < n {
                assert(lines_from(s@, i as int) == seq![line] + lines_from(s@, k + 1));
                assert(lines(s@) =~= done + lines_from(s@, k + 1));
            } else {
                assert(lines_from(s@, i as int) == seq![line]);
                assert(lines(s@) =~= done + lines_from(s@, n as int));
            }
        }
        out.push((i, end));
        i = if k < n {
            k + 1
        } else {
            n
        };
    }
    proof {
        assert(lines_from(s@, i as int) =~= Seq::<Seq<char>>::empty());
        assert(lines(s@) =~= done);
    }
    out
}

/// White space as `char::is_whitespace` defines it (the Unicode
/// `White_Space` property).
pub open spec fn is_ws(c: char) -> bool {
    let v = c as u32;
    (0x9 <= v && v <= 0xD) || v == 0x20 || v == 0x85 || v == 0xA0 || v == 0x1680 || (0x2000 <= v
        && v <= 0x200A) || v == 0x2028 || v == 0x2029 || v == 0x202F || v == 0x205F || v == 0x3000
}

pub(crate) fn is_ws_exec(c: char) -> (r: bool)
    ensures
        r == is_ws(c),
{
    let v = c as u32;
    (0x9 <= v && v <= 0xD) || v == 0x20 || v == 0x85 || v == 0xA0 || v == 0x1680 || (0x2000 <= v
        && v <= 0x200A) || v == 0x2028 || v == 0x2029 || v == 0x202F || v == 0x205F || v == 0x3000
}

/// Index of the first character at or after `i` that is not white space.
pub open spec fn trim_start_index(s: Seq<char>, i: int) -> int
    decreases s.len() - i,
{
    if 0 <= i < s.len() && is_ws(s[i]) {
        trim_start_index(s, i + 1)
    } else {
        i
    }
}

/// Index just past the last character before `j` that is not white space,
/// not going below `i`.
pub open spec fn trim_end_index(s: Seq<char>, i: int, j: int) -> int
    decreases j - i,
{
    if i < j && j <= s.len() && is_ws(s[j - 1]) {
        trim_end_index(s, i, j - 1)
    } else {
        j
    }
}

/// `s` without leading and trailing white space, as `str::trim` gives it.
pub open spec fn trimmed(s: Seq<char>) -> Seq<char> {
    let i = trim_start_index(s, 0);
    s.subrange(i, trim_end_index(s, i, s.len() as int))
}

/// `s` without leading and trailing white space.
pub fn trim_chars(s: &Vec<char>) -> (r: String)
    ensures
        r@ == trimmed(s@),
{
    let n = s.len();
    let mut i: usize = 0;
    while i < n && is_ws_exec(s[i])
        invariant
            i <= n,
            n == s@.len(),
            trim_start_index(s@, i as int) == trim_start_index(s@, 0),
        decreases n - i,
    {
        i = i + 1;
    }
    let mut j: usize = n;
    while j > i && is_ws_exec(s[j - 1])
        invariant
            i <= j <= n,
            n == s@.len(),
            trim_start_index(s@, 0) == i,
            trim_end_index(s@, i as int, j as int) == trim_end_index(s@, i as int, n as int),
        decreases j - i,
    {
        j = j - 1;
    }
    string_of(s, i, j)
}

/// `t` occurs in `s` as a contiguous part.
pub open spec fn has_part(s: Seq<char>, t: Seq<char>) -> bool {
    exists|i: int| 0 <= i && i + t.len() <= s.len() && #[trigger] s.subrange(i, i + t.len()) == t
}

/// `t` occurs in `s` at index `i`.
fn matches_at(s: &Vec<char>, t: &Vec<char>, i: usize) -> (r: bool)
    requires
        i + t@.len() <= s@.len(),
    ensures
        r == (s@.subrange(i as int, i + t@.len()) == t@),
{
    let n = s.len();
    let mut k: usize = 0;
    while k < t.len()
        invariant
            k <= t@.len(),
            i + t@.len() <= s@.len(),
            n == s@.len(),
            s@.subrange(i as int, i + k) == t@.subrange(0, k as int),
        decreases t@.len() - k,
    {
        if s[i + k] != t[k] {
            proof {
                assert(s@.subrange(i as int, i + t@.len())[k as int] != t@[k as int]);
            }
            return false;
        }
        k = k + 1;
        proof {
            assert(s@.subrange(i as int, i + k) =~= t@.subrange(0, k as int));
        }
    }
    proof {
        assert(t@.subrange(0, k as int) =~= t@);
    }
    true
}

/// Whether `t` occurs in `s`.
pub fn contains_part(s: &Vec<char>, t: &Vec<char>) -> (r: bool)
    ensures
        r == has_part(s@, t@),
{
    if t.len() > s.len() {
        return false;
    }
    let last = s.len() - t.len();
    let mut i: usize = 0;
    while i < last
        invariant
            i <= last,
            last == s@.len() - t@.len(),
            forall|j: int| 0 <= j < i ==> #[trigger] s@.subrange(j, j + t@.len()) != t@,
        decreases last - i,
    {
        if matches_at(s, t, i) {
            return true;
        }
        i = i + 1;
    }
    let r = matches_at(s, t, last);
    proof {
        if !r && has_part(s@, t@) {
            let j = choose|j: int|
                0 <= j && j + t@.len() <= s@.len() && #[trigger] s@.subrange(j, j + t@.len()) == t@;
            assert(j <= last);
        }
    }
    r
}

/// Whether `s` begins with `t`.
pub fn starts_with_chars(s: &Vec<char>, t: &Vec<char>) -> (r: bool)
    ensures
        r == (t@.len() <= s@.len() && s@.subrange(0, t@.len() as int) == t@),
{
    if t.len() > s.len() {
        return false;
    }
    matches_at(s, t, 0)
}

} // verus!
