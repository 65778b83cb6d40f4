use vstd::prelude::*;

use crate::text::to_chars;

verus! {

/// An ASCII decimal digit.
pub open spec fn is_digit(c: char) -> bool {
    '0' <= c && c <= '9'
}

/// Index just past the run of ASCII digits that starts at `i`.
pub open spec fn digits_end(s: Seq<char>, i: int) -> int
    decreases s.len() - i,
{
    if 0 <= i < s.len() && is_digit(s[i]) {
        digits_end(s, i + 1)
    } else {
        i
    }
}

/// A colour marker `${c<digits>}` starts at index `i` of `s`.
pub open spec fn marker_at(s: Seq<char>, i: int) -> bool {
    &&& 0 <= i
    &&& i + 3 <= s.len()
    &&& s[i] == '$'
    &&& s[i + 1] == '{'
    &&& s[i + 2] == 'c'
    &&& digits_end(s, i + 3) < s.len()
    &&& s[digits_end(s, i + 3)] == '}'
}

/// Index of the first marker at or after `i`, or `s.len()` if there is none.
pub open spec fn next_marker(s: Seq<char>, i: int) -> int
    decreases s.len() - i,
{
    if i < 0 || i >= s.len() {
        s.len() as int
    } else if marker_at(s, i) {
        i
    } else {
        next_marker(s, i + 1)
    }
}

/// Index just past the marker that starts at `i`.
pub open spec fn marker_end(s: Seq<char>, i: int) -> int {
    digits_end(s, i + 3) + 1
}

/// The raw segments from the marker at `i` on: for each marker, its digits and
/// the text up to the next marker or the end.
pub open spec fn raw_segments(s: Seq<char>, i: int) -> Seq<(Seq<char>, Seq<char>)>
    decreases s.len() - i,
    via raw_segments_decreases
{
    if 0 <= i < s.len() && marker_at(s, i) {
        let e = marker_end(s, i);
        let n = next_marker(s, e);
        seq![(s.subrange(i + 3, e - 1), s.subrange(e, n))] + raw_segments(s, n)
    } else {
        Seq::empty()
    }
}

proof fn lemma_digits_end_bounds(s: Seq<char>, i: int)
    requires
        0 <= i <= s.len(),
    ensures
        i <= digits_end(s, i) <= s.len(),
        forall|k: int| i <= k < digits_end(s, i) ==> is_digit(s[k]),
        digits_end(s, i) < s.len() ==> !is_digit(s[digits_end(s, i)]),
    decreases s.len() - i,
{
    if i < s.len() && is_digit(s[i]) {
        lemma_digits_end_bounds(s, i + 1);
    }
}

proof fn lemma_next_marker_bounds(s: Seq<char>, i: int)
    requires
        0 <= i <= s.len(),
    ensures
        i <= next_marker(s, i) <= s.len(),
        next_marker(s, i) < s.len() ==> marker_at(s, next_marker(s, i)),
        forall|k: int| i <= k < next_marker(s, i) ==> !marker_at(s, k),
    decreases s.len() - i,
{
    if i < s.len() && !marker_at(s, i) {
        lemma_next_marker_bounds(s, i + 1);
    }
}

#[via_fn]
proof fn raw_segments_decreases(s: Seq<char>, i: int) {
    if 0 <= i < s.len() && marker_at(s, i) {
        lemma_digits_end_bounds(s, i + 3);
        lemma_next_marker_bounds(s, marker_end(s, i));
    }
}

/// Value of a sequence of decimal digits.
pub open spec fn digits_value(d: Seq<char>) -> nat
    decreases d.len(),
{
    if d.len() == 0 {
        0
    } else {
        digits_value(d.drop_last()) * 10 + (d.last() as nat - '0' as nat) as nat
    }
}

/// The digits of a marker name a colour index: at least one digit, value at most 255.
pub open spec fn valid_index_digits(d: Seq<char>) -> bool {
    d.len() > 0 && digits_value(d) <= 255
}

/// The segments of a template: text before the first marker is dropped.
pub open spec fn template_segments(s: Seq<char>) -> Seq<(Seq<char>, Seq<char>)> {
    raw_segments(s, next_marker(s, 0))
}

/// Every marker of the template names a valid colour index.
pub open spec fn template_valid(s: Seq<char>) -> bool {
    forall|k: int|
        0 <= k < template_segments(s).len() ==> valid_index_digits(
            #[trigger] template_segments(s)[k].0,
        )
}

/// The compiled segments of a template: for each marker, its colour index and
/// the text that follows it up to the next marker.
pub open spec fn compiled_segments(s: Seq<char>) -> Seq<(u8, Seq<char>)> {
    index_segments(template_segments(s))
}

/// Raw segments with their digits read as colour indices.
pub open spec fn index_segments(raw: Seq<(Seq<char>, Seq<char>)>) -> Seq<(u8, Seq<char>)> {
    raw.map_values(|seg: (Seq<char>, Seq<char>)| (digits_value(seg.0) as u8, seg.1))
}

/// The view of a compiled segment list.
pub open spec fn segments_view(v: Seq<(u8, String)>) -> Seq<(u8, Seq<char>)> {
    v.map_values(|seg: (u8, String)| (seg.0, seg.1@))
}

fn digits_end_exec(s: &Vec<char>, i: usize) -> (r: usize)
    requires
        i <= s@.len(),
    ensures
        r == digits_end(s@, i as int),
{
    let mut k = i;
    while k < s.len() && '0' <= s[k] && s[k] <= '9'
        invariant
            i <= k <= s@.len(),
            digits_end(s@, k as int) == digits_end(s@, i as int),
        decreases s@.len() - k,
    {
        k = k + 1;
    }
    k
}

fn marker_at_exec(s: &Vec<char>, i: usize) -> (r: bool)
    requires
        i <= s@.len(),
    ensures
        r == marker_at(s@, i as int),
{
    if s.len() - i < 3 {
        return false;
    }
    if s[i] != '$' || s[i + 1] != '{' || s[i + 2] != 'c' {
        return false;
    }
    let e = digits_end_exec(s, i + 3);
    e < s.len() && s[e] == '}'
}

fn next_marker_exec(s: &Vec<char>, i: usize) -> (r: usize)
    requires
        i <= s@.len(),
    ensures
        r == next_marker(s@, i as int),
{
    let mut k = i;
    while k < s.len() && !marker_at_exec(s, k)
        invariant
            i <= k <= s@.len(),
            next_marker(s@, k as int) == next_marker(s@, i as int),
        decreases s@.len() - k,
    {
        k = k + 1;
    }
    k
}

/// Reads the digits `s[from..to]` as a colour index; `None` when there are no
/// digits or the value exceeds 255.
fn parse_index(s: &Vec<char>, from: usize, to: usize) -> (r: Option<u8>)
    requires
        from <= to <= s@.len(),
        forall|k: int| from <= k < to ==> is_digit(s@[k]),
    ensures
        r.is_some() == valid_index_digits(s@.subrange(from as int, to as int)),
        r.is_some() ==> r.unwrap() as nat == digits_value(s@.subrange(from as int, to as int)),
{
    if from == to {
        return None;
    }
    let mut v: u32 = 0;
    let mut k = from;
    while k < to
        invariant
            from <= k <= to <= s@.len(),
            forall|j: int| from <= j < to ==> is_digit(s@[j]),
            v <= 255,
            v == digits_value(s@.subrange(from as int, k as int)),
        decreases to - k,
    {
        let d = (s[k] as u32) - ('0' as u32);
        let ghost prev = s@.subrange(from as int, k as int);
        proof {
            assert(s@.subrange(from as int, k + 1).drop_last() =~= prev);
        }
        let nv = v * 10 + d;
        if nv > 255 {
            proof {
                lemma_digits_value_grows(s@.subrange(from as int, to as int), k + 1 - from);
                assert(s@.subrange(from as int, to as int).subrange(0, k + 1 - from) =~= s@.subrange(
                    from as int,
                    k + 1,
                ));
            }
            return None;
        }
        v = nv;
        k = k + 1;
    }
    Some(v as u8)
}

/// A longer run of digits is never worth less than a prefix of it.
pub(crate) proof fn lemma_digits_value_grows(d: Seq<char>, m: int)
    requires
        0 <= m <= d.len(),
        forall|j: int| 0 <= j < d.len() ==> is_digit(d[j]),
    ensures
        digits_value(d.subrange(0, m)) <= digits_value(d),
    decreases d.len(),
{
    if m < d.len() {
        lemma_digits_value_grows(d.drop_last(), m);
        assert(d.drop_last().subrange(0, m) =~= d.subrange(0, m));
    } else {
        assert(d.subrange(0, m) =~= d);
    }
}

/// Splits a template on its `${c<N>}` markers into `(N, text)` segments,
/// dropping any text before the first marker. Fails when a marker has no
/// digits or a value above 255.
pub fn compile_template(t: &str) -> (r: Option<Vec<(u8, String)>>)
    ensures
        r.is_some() == template_valid(t@),
        r.is_some() ==> segments_view(r.unwrap()@) == compiled_segments(t@),
{
    let s = to_chars(t);
    let n = s.len();
    let mut i = next_marker_exec(&s, 0);
    let mut out: Vec<(u8, String)> = Vec::new();
    let ghost done: Seq<(Seq<char>, Seq<char>)> = Seq::empty();
    proof {
        lemma_next_marker_bounds(s@, 0);
        assert(template_segments(s@) =~= done + raw_segments(s@, i as int));
    }
    while i < n
        invariant
            s@ == t@,
            n == s@.len(),
            i <= n,
            i < n ==> marker_at(s@, i as int),
            template_segments(s@) == done + raw_segments(s@, i as int),
            forall|k: int| 0 <= k < done.len() ==> valid_index_digits(#[trigger] done[k].0),
            segments_view(out@) == index_segments(done),
        decreases n - i,
    {
        proof {
            lemma_digits_end_bounds(s@, i + 3);
        }
        let d_end = digits_end_exec(&s, i + 3);
        let e = d_end + 1;
        let idx = parse_index(&s, i + 3, d_end);
        proof {
            lemma_next_marker_bounds(s@, e as int);
        }
        let ghost seg = (s@.subrange(i + 3, d_end as int), s@.subrange(e as int, next_marker(s@, e as int)));
        proof {
            assert(raw_segments(s@, i as int)[0] == seg);
        }
        match idx {
            None => {
                proof {
                    assert(template_segments(s@)[done.len() as int] == seg);
                    assert(!valid_index_digits(template_segments(s@)[done.len() as int].0));
                }
                return None;
            },
            Some(v) => {
                let next = next_marker_exec(&s, e);
                let chunk = t.substring_char(e, next).to_owned();
                let ghost old_out = out@;
                out.push((v, chunk));
                proof {
                    let old_done = done;
                    done = done.push(seg);
                    assert(raw_segments(s@, i as int) =~= seq![seg] + raw_segments(s@, next as int));
                    assert(template_segments(s@) =~= done + raw_segments(s@, next as int));
                    assert(segments_view(old_out) == index_segments(old_done));
                    assert(segments_view(old_out).len() == old_out.len());
                    assert(index_segments(old_done).len() == old_done.len());
                    assert(out@.len() == old_out.len() + 1);
                    assert forall|k: int| 0 <= k < done.len() implies segments_view(out@)[k]
                        == index_segments(done)[k] by {
                        if k < old_done.len() {
                            assert(segments_view(old_out)[k] == index_segments(old_done)[k]);
                            assert(out@[k] == old_out[k]);
                        }
                    }
                    assert(segments_view(out@) =~= index_segments(done));
                }
                i = next;
            },
        }
    }
    proof {
        assert(raw_segments(s@, i as int) =~= Seq::<(Seq<char>, Seq<char>)>::empty());
        assert(done =~= template_segments(s@));
        assert(segments_view(out@) =~= compiled_segments(s@));
    }
    Some(out)
}

proof fn lemma_digits_end_shift(p: Seq<char>, t: Seq<char>, i: int)
    requires
        0 <= i <= t.len(),
    ensures
        digits_end(p + t, i + p.len()) == digits_end(t, i) + p.len(),
    decreases t.len() - i,
{
    let s = p + t;
    if i < t.len() {
        assert(s[i + p.len()] == t[i]);
        if is_digit(t[i]) {
            lemma_digits_end_shift(p, t, i + 1);
        }
    }
}

proof fn lemma_marker_at_shift(p: Seq<char>, t: Seq<char>, i: int)
    requires
        0 <= i <= t.len(),
    ensures
        marker_at(p + t, i + p.len()) == marker_at(t, i),
{
    let s = p + t;
    let n = p.len() as int;
    if i + 3 <= t.len() {
        assert(s[i + n] == t[i] && s[i + n + 1] == t[i + 1] && s[i + n + 2] == t[i + 2]);
        lemma_digits_end_shift(p, t, i + 3);
        lemma_digits_end_bounds(t, i + 3);
        let d = digits_end(t, i + 3);
        if d < t.len() {
            assert(s[d + n] == t[d]);
        }
    }
}

proof fn lemma_next_marker_shift(p: Seq<char>, t: Seq<char>, i: int)
    requires
        0 <= i <= t.len(),
    ensures
        next_marker(p + t, i + p.len()) == next_marker(t, i) + p.len(),
    decreases t.len() - i,
{
    if i < t.len() {
        lemma_marker_at_shift(p, t, i);
        if !marker_at(t, i) {
            lemma_next_marker_shift(p, t, i + 1);
        }
    }
}

proof fn lemma_raw_segments_shift(p: Seq<char>, t: Seq<char>, i: int)
    requires
        0 <= i <= t.len(),
    ensures
        raw_segments(p + t, i + p.len()) == raw_segments(t, i),
    decreases t.len() - i,
{
    let s = p + t;
    let n = p.len() as int;
    lemma_marker_at_shift(p, t, i);
    if i < t.len() && marker_at(t, i) {
        lemma_digits_end_bounds(t, i + 3);
        lemma_digits_end_shift(p, t, i + 3);
        let e = marker_end(t, i);
        lemma_next_marker_shift(p, t, e);
        lemma_next_marker_bounds(t, e);
        let m = next_marker(t, e);
        assert(s.subrange(i + n + 3, e + n - 1) =~= t.subrange(i + 3, e - 1));
        assert(s.subrange(e + n, m + n) =~= t.subrange(e, m));
        lemma_raw_segments_shift(p, t, m);
    }
}

/// Text before the first marker does not reach the compiled segments:
/// compiling a template gives what compiling it from its first marker on gives.
pub proof fn lemma_preamble_dropped(s: Seq<char>)
    ensures
        compiled_segments(s) == compiled_segments(s.subrange(next_marker(s, 0), s.len() as int)),
{
    lemma_next_marker_bounds(s, 0);
    let m = next_marker(s, 0);
    let p = s.subrange(0, m);
    let t = s.subrange(m, s.len() as int);
    assert(p + t =~= s);
    lemma_marker_at_shift(p, t, 0);
    lemma_raw_segments_shift(p, t, 0);
    assert(next_marker(t, 0) == 0) by {
        if t.len() > 0 {
            assert(marker_at(s, m));
        }
    }
}

} // verus!
