//! The binary archive of compiled icons and colour schemes.
//!
//! Integers are little-endian. A list is its length as a u64 followed by its
//! items. A string is a list of characters, each a u32 scalar value. A colour
//! is a tag byte (0 to 16 for the named colours, 17 for RGB followed by three
//! bytes, 18 for an ANSI index followed by one byte). An icon is its aliases,
//! its palette, its width and height as u16, and its segments, each an index
//! byte and a string. A colour scheme is its name and a list of RGB triples.
//! An archive is a list of icons, or of colour schemes, and nothing after it.
//! Loading checks every length, tag and character against the bytes at hand
//! and the icons' colour indices against their palettes.

use vstd::prelude::*;
use vstd::bytes::{
    lemma_auto_spec_u16_to_from_le_bytes, lemma_auto_spec_u32_to_from_le_bytes,
    lemma_auto_spec_u64_to_from_le_bytes, spec_u16_from_le_bytes, spec_u16_to_le_bytes,
    spec_u32_from_le_bytes, spec_u32_to_le_bytes, spec_u64_from_le_bytes, spec_u64_to_le_bytes,
    u16_from_le_bytes, u16_to_le_bytes, u32_from_le_bytes, u32_to_le_bytes, u64_from_le_bytes,
    u64_to_le_bytes,
};
use vstd::slice::slice_subrange;

use crate::asset::{compiled_view, compiles, icons_view, AsciiArt, AsciiArtView, AssetError, IconSource};
use crate::color::Color;
use crate::scheme::SchemeEntry;

verus! {

/// The encoding of a list length.
pub open spec fn enc_len(n: nat) -> Seq<u8> {
    spec_u64_to_le_bytes(n as u64)
}

/// The items of a list, each encoded by `e`, one after the other.
pub open spec fn enc_many<X>(xs: Seq<X>, e: spec_fn(X) -> Seq<u8>) -> Seq<u8>
    decreases xs.len(),
{
    if xs.len() == 0 {
        Seq::empty()
    } else {
        enc_many(xs.drop_last(), e) + e(xs.last())
    }
}

/// Reads `n` items one after the other with `p`; the result and the number
/// of bytes read.
pub open spec fn parse_many<X>(b: Seq<u8>, n: nat, p: spec_fn(Seq<u8>) -> Option<(X, int)>) -> Option<
    (Seq<X>, int),
>
    decreases n,
{
    if n == 0 {
        Some((Seq::empty(), 0))
    } else {
        match parse_many(b, (n - 1) as nat, p) {
            Some((xs, c)) => match p(b.subrange(c, b.len() as int)) {
                Some((x, d)) => Some((xs.push(x), c + d)),
                None => None,
            },
            None => None,
        }
    }
}

/// Reads a list length.
pub open spec fn parse_len(b: Seq<u8>) -> Option<(u64, int)> {
    if b.len() >= 8 {
        Some((spec_u64_from_le_bytes(b.subrange(0, 8)), 8))
    } else {
        None
    }
}

/// Reads a length-prefixed list with `p`.
pub open spec fn parse_list<X>(b: Seq<u8>, p: spec_fn(Seq<u8>) -> Option<(X, int)>) -> Option<
    (Seq<X>, int),
> {
    match parse_len(b) {
        Some((n, c)) => match parse_many(b.subrange(8, b.len() as int), n as nat, p) {
            Some((xs, d)) => Some((xs, 8 + d)),
            None => None,
        },
        None => None,
    }
}

/// `p` reads back what `e` wrote, for items that satisfy `valid`, whatever follows.
pub open spec fn inverts<X>(
    e: spec_fn(X) -> Seq<u8>,
    p: spec_fn(Seq<u8>) -> Option<(X, int)>,
    valid: spec_fn(X) -> bool,
) -> bool {
    forall|x: X, rest: Seq<u8>|
        valid(x) ==> #[trigger] p(e(x) + rest) == Some((x, e(x).len() as int))
}

proof fn lemma_parse_many<X>(
    xs: Seq<X>,
    rest: Seq<u8>,
    e: spec_fn(X) -> Seq<u8>,
    p: spec_fn(Seq<u8>) -> Option<(X, int)>,
    valid: spec_fn(X) -> bool,
)
    requires
        inverts(e, p, valid),
        forall|i: int| 0 <= i < xs.len() ==> valid(#[trigger] xs[i]),
    ensures
        parse_many(enc_many(xs, e) + rest, xs.len(), p) == Some(
            (xs, enc_many(xs, e).len() as int),
        ),
    decreases xs.len(),
{
    if xs.len() > 0 {
        let init = xs.drop_last();
        let last = xs.last();
        let b = enc_many(xs, e) + rest;
        let rest2 = e(last) + rest;
        assert(b =~= enc_many(init, e) + rest2);
        assert forall|i: int| 0 <= i < init.len() implies valid(#[trigger] init[i]) by {
            assert(init[i] == xs[i]);
        }
        lemma_parse_many(init, rest2, e, p, valid);
        let c = enc_many(init, e).len() as int;
        assert(b.subrange(c, b.len() as int) =~= rest2);
        assert(valid(xs[xs.len() - 1]));
        assert(p(e(last) + rest) == Some((last, e(last).len() as int)));
        assert(init.push(last) =~= xs);
    }
}

proof fn lemma_parse_list<X>(
    xs: Seq<X>,
    rest: Seq<u8>,
    e: spec_fn(X) -> Seq<u8>,
    p: spec_fn(Seq<u8>) -> Option<(X, int)>,
    valid: spec_fn(X) -> bool,
)
    requires
        inverts(e, p, valid),
        forall|i: int| 0 <= i < xs.len() ==> valid(#[trigger] xs[i]),
        xs.len() <= u64::MAX,
    ensures
        parse_list(enc_len(xs.len()) + enc_many(xs, e) + rest, p) == Some(
            (xs, 8 + enc_many(xs, e).len() as int),
        ),
{
    lemma_auto_spec_u64_to_from_le_bytes();
    let b = enc_len(xs.len()) + enc_many(xs, e) + rest;
    assert(b.subrange(0, 8) =~= enc_len(xs.len()));
    assert(b.subrange(8, b.len() as int) =~= enc_many(xs, e) + rest);
    lemma_parse_many(xs, rest, e, p, valid);
}

/// The encoding of a character: its scalar value.
pub open spec fn enc_char(c: char) -> Seq<u8> {
    spec_u32_to_le_bytes(c as u32)
}

/// A scalar value: at most 0x10FFFF and not a surrogate.
pub open spec fn is_scalar_value(v: u32) -> bool {
    v <= 0x10FFFF && !(0xD800 <= v && v <= 0xDFFF)
}

/// The scalar value of a character.
pub open spec fn char_value(c: char) -> u32 {
    c as u32
}

/// Reads a character.
pub open spec fn parse_char(b: Seq<u8>) -> Option<(char, int)> {
    if b.len() >= 4 && is_scalar_value(spec_u32_from_le_bytes(b.subrange(0, 4))) {
        Some((choose|c: char| #[trigger] char_value(c) == spec_u32_from_le_bytes(b.subrange(0, 4)), 4))
    } else {
        None
    }
}

/// The character encoder, as a function value.
pub open spec fn char_enc() -> spec_fn(char) -> Seq<u8> {
    |c: char| enc_char(c)
}

/// The character reader, as a function value.
pub open spec fn char_par() -> spec_fn(Seq<u8>) -> Option<(char, int)> {
    |x: Seq<u8>| parse_char(x)
}

/// Every character can be stored.
pub open spec fn char_ok() -> spec_fn(char) -> bool {
    |c: char| true
}

/// The encoding of a string.
pub open spec fn enc_str(s: Seq<char>) -> Seq<u8> {
    enc_len(s.len()) + enc_many(s, char_enc())
}

/// Reads a string.
pub open spec fn parse_str(b: Seq<u8>) -> Option<(Seq<char>, int)> {
    parse_list(b, char_par())
}

/// The string encoder, as a function value.
pub open spec fn str_enc() -> spec_fn(Seq<char>) -> Seq<u8> {
    |s: Seq<char>| enc_str(s)
}

/// The string reader, as a function value.
pub open spec fn str_par() -> spec_fn(Seq<u8>) -> Option<(Seq<char>, int)> {
    |x: Seq<u8>| parse_str(x)
}

/// A string can be stored when its length fits the length field.
pub open spec fn str_ok() -> spec_fn(Seq<char>) -> bool {
    |s: Seq<char>| s.len() <= u64::MAX
}

proof fn lemma_char_range(c: char)
    ensures
        is_scalar_value(char_value(c)),
{
}

proof fn lemma_char_injective(c: char, d: char)
    requires
        char_value(c) == char_value(d),
    ensures
        c == d,
{
}

proof fn lemma_char_inverts()
    ensures
        inverts(char_enc(), char_par(), char_ok()),
{
    lemma_auto_spec_u32_to_from_le_bytes();
    assert forall|c: char, rest: Seq<u8>| char_ok()(c) implies #[trigger] char_par()(
        char_enc()(c) + rest,
    ) == Some((c, char_enc()(c).len() as int)) by {
        let b = enc_char(c) + rest;
        assert(enc_char(c).len() == 4);
        assert(b.subrange(0, 4) =~= enc_char(c));
        let v = spec_u32_from_le_bytes(b.subrange(0, 4));
        assert(v == char_value(c));
        lemma_char_range(c);
        let d = choose|d: char| #[trigger] char_value(d) == v;
        assert(char_value(d) == v);
        lemma_char_injective(c, d);
        assert(parse_char(b) == Some((d, 4int)));
    }
}

proof fn lemma_str_inverts()
    ensures
        inverts(str_enc(), str_par(), str_ok()),
{
    assert forall|s: Seq<char>, rest: Seq<u8>| str_ok()(s) implies #[trigger] str_par()(
        str_enc()(s) + rest,
    ) == Some((s, str_enc()(s).len() as int)) by {
        lemma_char_inverts();
        lemma_auto_spec_u64_to_from_le_bytes();
        lemma_parse_list(s, rest, char_enc(), char_par(), char_ok());
        assert(enc_len(s.len()).len() == 8);
        assert(enc_str(s) + rest =~= enc_len(s.len()) + enc_many(s, char_enc()) + rest);
        assert(parse_str(enc_str(s) + rest) == Some((s, enc_str(s).len() as int)));
    }
}

/// The tag byte of a colour.
pub open spec fn color_tag(c: Color) -> u8 {
    match c {
        Color::Reset => 0,
        Color::Black => 1,
        Color::DarkGrey => 2,
        Color::Red => 3,
        Color::DarkRed => 4,
        Color::Green => 5,
        Color::DarkGreen => 6,
        Color::Yellow => 7,
        Color::DarkYellow => 8,
        Color::Blue => 9,
        Color::DarkBlue => 10,
        Color::Magenta => 11,
        Color::DarkMagenta => 12,
        Color::Cyan => 13,
        Color::DarkCyan => 14,
        Color::White => 15,
        Color::Grey => 16,
        Color::Rgb { .. } => 17,
        Color::AnsiValue(_) => 18,
    }
}

/// The named colour with tag `t` (at most 16).
pub open spec fn named_color(t: u8) -> Color {
    if t == 0 {
        Color::Reset
    } else if t == 1 {
        Color::Black
    } else if t == 2 {
        Color::DarkGrey
    } else if t == 3 {
        Color::Red
    } else if t == 4 {
        Color::DarkRed
    } else if t == 5 {
        Color::Green
    } else if t == 6 {
        Color::DarkGreen
    } else if t == 7 {
        Color::Yellow
    } else if t == 8 {
        Color::DarkYellow
    } else if t == 9 {
        Color::Blue
    } else if t == 10 {
        Color::DarkBlue
    } else if t == 11 {
        Color::Magenta
    } else if t == 12 {
        Color::DarkMagenta
    } else if t == 13 {
        Color::Cyan
    } else if t == 14 {
        Color::DarkCyan
    } else if t == 15 {
        Color::White
    } else {
        Color::Grey
    }
}

/// The encoding of a colour.
pub open spec fn enc_color(c: Color) -> Seq<u8> {
    match c {
        Color::Rgb { r, g, b } => seq![17u8, r, g, b],
        Color::AnsiValue(v) => seq![18u8, v],
        _ => seq![color_tag(c)],
    }
}

/// Reads a colour.
pub open spec fn parse_color(b: Seq<u8>) -> Option<(Color, int)> {
    if b.len() == 0 {
        None
    } else if b[0] <= 16 {
        Some((named_color(b[0]), 1))
    } else if b[0] == 17 && b.len() >= 4 {
        Some((Color::Rgb { r: b[1], g: b[2], b: b[3] }, 4))
    } else if b[0] == 18 && b.len() >= 2 {
        Some((Color::AnsiValue(b[1]), 2))
    } else {
        None
    }
}

/// The colour encoder, as a function value.
pub open spec fn color_enc() -> spec_fn(Color) -> Seq<u8> {
    |c: Color| enc_color(c)
}

/// The colour reader, as a function value.
pub open spec fn color_par() -> spec_fn(Seq<u8>) -> Option<(Color, int)> {
    |x: Seq<u8>| parse_color(x)
}

/// Every colour can be stored.
pub open spec fn color_ok() -> spec_fn(Color) -> bool {
    |c: Color| true
}

proof fn lemma_color_inverts()
    ensures
        inverts(color_enc(), color_par(), color_ok()),
{
    assert forall|c: Color, rest: Seq<u8>| color_ok()(c) implies #[trigger] color_par()(
        color_enc()(c) + rest,
    ) == Some((c, color_enc()(c).len() as int)) by {
        let b = enc_color(c) + rest;
        assert(b[0] == enc_color(c)[0]);
        match c {
            Color::Rgb { r, g, b: bl } => {
                assert(b[1] == r && b[2] == g && b[3] == bl);
            },
            Color::AnsiValue(v) => {
                assert(b[1] == v);
            },
            _ => {},
        }
    }
}

/// The encoding of a segment: its index byte and its text.
pub open spec fn enc_segment(s: (u8, Seq<char>)) -> Seq<u8> {
    seq![s.0] + enc_str(s.1)
}

/// Reads a segment.
pub open spec fn parse_segment(b: Seq<u8>) -> Option<((u8, Seq<char>), int)> {
    if b.len() == 0 {
        None
    } else {
        match parse_str(b.subrange(1, b.len() as int)) {
            Some((t, c)) => Some(((b[0], t), 1 + c)),
            None => None,
        }
    }
}

/// The segment encoder, as a function value.
pub open spec fn seg_enc() -> spec_fn((u8, Seq<char>)) -> Seq<u8> {
    |s: (u8, Seq<char>)| enc_segment(s)
}

/// The segment reader, as a function value.
pub open spec fn seg_par() -> spec_fn(Seq<u8>) -> Option<((u8, Seq<char>), int)> {
    |x: Seq<u8>| parse_segment(x)
}

/// A segment can be stored when its text can.
pub open spec fn seg_ok() -> spec_fn((u8, Seq<char>)) -> bool {
    |s: (u8, Seq<char>)| s.1.len() <= u64::MAX
}

proof fn lemma_segment_inverts()
    ensures
        inverts(seg_enc(), seg_par(), seg_ok()),
{
    lemma_str_inverts();
    assert forall|s: (u8, Seq<char>), rest: Seq<u8>| seg_ok()(s) implies #[trigger] seg_par()(
        seg_enc()(s) + rest,
    ) == Some((s, seg_enc()(s).len() as int)) by {
        let b = enc_segment(s) + rest;
        assert(b.subrange(1, b.len() as int) =~= enc_str(s.1) + rest);
        assert(str_ok()(s.1));
        assert(str_par()(str_enc()(s.1) + rest) == Some((s.1, str_enc()(s.1).len() as int)));
    }
}

/// The encoding of a list.
pub open spec fn enc_list<X>(xs: Seq<X>, e: spec_fn(X) -> Seq<u8>) -> Seq<u8> {
    enc_len(xs.len()) + enc_many(xs, e)
}

/// The encoding of an icon.
pub open spec fn enc_icon(a: AsciiArtView) -> Seq<u8> {
    enc_list(a.name, str_enc()) + enc_list(a.colors, color_enc()) + spec_u16_to_le_bytes(a.width)
        + spec_u16_to_le_bytes(a.height) + enc_list(a.art, seg_enc())
}

/// Reads an icon.
pub open spec fn parse_icon(b: Seq<u8>) -> Option<(AsciiArtView, int)> {
    match parse_list(b, str_par()) {
        None => None,
        Some((name, c1)) => match parse_list(b.subrange(c1, b.len() as int), color_par()) {
            None => None,
            Some((colors, c2)) => {
                let o = c1 + c2;
                if o + 4 > b.len() {
                    None
                } else {
                    match parse_list(b.subrange(o + 4, b.len() as int), seg_par()) {
                        None => None,
                        Some((art, c3)) => Some(
                            (
                                AsciiArtView {
                                    name,
                                    colors,
                                    width: spec_u16_from_le_bytes(b.subrange(o, o + 2)),
                                    height: spec_u16_from_le_bytes(b.subrange(o + 2, o + 4)),
                                    art,
                                },
                                o + 4 + c3,
                            ),
                        ),
                    }
                }
            },
        },
    }
}

/// An icon fits the format: every list and text length fits its length field.
pub open spec fn icon_storable(a: AsciiArtView) -> bool {
    &&& a.name.len() <= u64::MAX
    &&& a.colors.len() <= u64::MAX
    &&& a.art.len() <= u64::MAX
    &&& forall|i: int| 0 <= i < a.name.len() ==> (#[trigger] a.name[i]).len() <= u64::MAX
    &&& forall|i: int| 0 <= i < a.art.len() ==> (#[trigger] a.art[i]).1.len() <= u64::MAX
}

/// The icon encoder, as a function value.
pub open spec fn icon_enc() -> spec_fn(AsciiArtView) -> Seq<u8> {
    |a: AsciiArtView| enc_icon(a)
}

/// The icon reader, as a function value.
pub open spec fn icon_par() -> spec_fn(Seq<u8>) -> Option<(AsciiArtView, int)> {
    |x: Seq<u8>| parse_icon(x)
}

/// Icons that fit the format.
pub open spec fn icon_ok() -> spec_fn(AsciiArtView) -> bool {
    |a: AsciiArtView| icon_storable(a)
}

proof fn lemma_icon_inverts()
    ensures
        inverts(icon_enc(), icon_par(), icon_ok()),
{
    lemma_str_inverts();
    lemma_color_inverts();
    lemma_segment_inverts();
    lemma_auto_spec_u16_to_from_le_bytes();
    lemma_auto_spec_u64_to_from_le_bytes();
    assert forall|a: AsciiArtView, rest: Seq<u8>| icon_ok()(a) implies #[trigger] icon_par()(
        icon_enc()(a) + rest,
    ) == Some((a, icon_enc()(a).len() as int)) by {
        let e1 = enc_list(a.name, str_enc());
        let e2 = enc_list(a.colors, color_enc());
        let w = spec_u16_to_le_bytes(a.width);
        let h = spec_u16_to_le_bytes(a.height);
        let e3 = enc_list(a.art, seg_enc());
        let b = enc_icon(a) + rest;
        assert forall|i: int| 0 <= i < a.name.len() implies str_ok()(#[trigger] a.name[i]) by {}
        assert forall|i: int| 0 <= i < a.art.len() implies seg_ok()(#[trigger] a.art[i]) by {}
        assert forall|i: int| 0 <= i < a.colors.len() implies color_ok()(#[trigger] a.colors[i]) by {}
        lemma_parse_list(a.name, e2 + w + h + e3 + rest, str_enc(), str_par(), str_ok());
        assert(b =~= enc_len(a.name.len()) + enc_many(a.name, str_enc()) + (e2 + w + h + e3 + rest));
        let c1 = e1.len() as int;
        assert(b.subrange(c1, b.len() as int) =~= enc_len(a.colors.len()) + enc_many(
            a.colors,
            color_enc(),
        ) + (w + h + e3 + rest));
        lemma_parse_list(a.colors, w + h + e3 + rest, color_enc(), color_par(), color_ok());
        let o = c1 + e2.len();
        assert(b.subrange(o, o + 2) =~= w);
        assert(b.subrange(o + 2, o + 4) =~= h);
        assert(b.subrange(o + 4, b.len() as int) =~= enc_len(a.art.len()) + enc_many(
            a.art,
            seg_enc(),
        ) + rest);
        lemma_parse_list(a.art, rest, seg_enc(), seg_par(), seg_ok());
    }
}

/// The encoding of an icon archive.
pub open spec fn encode_icons(icons: Seq<AsciiArtView>) -> Seq<u8> {
    enc_list(icons, icon_enc())
}

/// What an icon archive holds: the icons that its bytes encode, when they
/// encode a list of well-formed icons with nothing after it.
pub open spec fn decode_icons(b: Seq<u8>) -> Option<Seq<AsciiArtView>> {
    match parse_list(b, icon_par()) {
        Some((icons, c)) => if c == b.len() && forall|i: int|
            0 <= i < icons.len() ==> (#[trigger] icons[i]).wf() {
            Some(icons)
        } else {
            None
        },
        None => None,
    }
}

/// Loading an archive gives back exactly the icons that were archived.
pub proof fn lemma_archive_round_trip(icons: Seq<AsciiArtView>)
    requires
        icons.len() <= u64::MAX,
        forall|i: int| 0 <= i < icons.len() ==> (#[trigger] icons[i]).wf() && icon_storable(
            icons[i],
        ),
    ensures
        decode_icons(encode_icons(icons)) == Some(icons),
{
    lemma_icon_inverts();
    assert forall|i: int| 0 <= i < icons.len() implies icon_ok()(#[trigger] icons[i]) by {}
    lemma_parse_list(icons, Seq::empty(), icon_enc(), icon_par(), icon_ok());
    assert(encode_icons(icons) + Seq::<u8>::empty() =~= encode_icons(icons));
    lemma_auto_spec_u64_to_from_le_bytes();
}

/// The bytes of `b` from `pos` on.
pub open spec fn rem(b: Seq<u8>, pos: int) -> Seq<u8> {
    b.subrange(pos, b.len() as int)
}

proof fn lemma_enc_many_step<X>(xs: Seq<X>, k: int, e: spec_fn(X) -> Seq<u8>)
    requires
        0 <= k < xs.len(),
    ensures
        enc_many(xs.subrange(0, k + 1), e) == enc_many(xs.subrange(0, k), e) + e(xs[k]),
{
    assert(xs.subrange(0, k + 1).drop_last() =~= xs.subrange(0, k));
}

proof fn lemma_parse_many_fails<X>(
    b: Seq<u8>,
    m: nat,
    n: nat,
    p: spec_fn(Seq<u8>) -> Option<(X, int)>,
)
    requires
        m <= n,
        parse_many(b, m, p) is None,
    ensures
        parse_many(b, n, p) is None,
    decreases n,
{
    if n > m {
        lemma_parse_many_fails(b, m, (n - 1) as nat, p);
    }
}

proof fn lemma_rem_rem(b: Seq<u8>, pos: int, c: int)
    requires
        0 <= pos,
        0 <= c,
        pos + c <= b.len(),
    ensures
        rem(b, pos).subrange(c, rem(b, pos).len() as int) == rem(b, pos + c),
{
    assert(rem(b, pos).subrange(c, rem(b, pos).len() as int) =~= rem(b, pos + c));
}

fn write_len(out: &mut Vec<u8>, n: usize)
    ensures
        final(out)@ == old(out)@ + enc_len(n as nat),
{
    let mut v = u64_to_le_bytes(n as u64);
    out.append(&mut v);
}

fn write_str(out: &mut Vec<u8>, s: &String)
    ensures
        final(out)@ == old(out)@ + enc_str(s@),
{
    let c = crate::text::to_chars(s.as_str());
    let ghost start = out@;
    write_len(out, c.len());
    let mut k: usize = 0;
    while k < c.len()
        invariant
            k <= c@.len(),
            c@ == s@,
            out@ == start + enc_len(c@.len()) + enc_many(c@.subrange(0, k as int), char_enc()),
        decreases c@.len() - k,
    {
        let mut v = u32_to_le_bytes(c[k] as u32);
        out.append(&mut v);
        proof {
            lemma_enc_many_step(c@, k as int, char_enc());
        }
        k = k + 1;
    }
    proof {
        assert(c@.subrange(0, k as int) =~= c@);
    }
}

fn write_color(out: &mut Vec<u8>, c: Color)
    ensures
        final(out)@ == old(out)@ + enc_color(c),
{
    let ghost start = out@;
    match c {
        Color::Reset => out.push(0),
        Color::Black => out.push(1),
        Color::DarkGrey => out.push(2),
        Color::Red => out.push(3),
        Color::DarkRed => out.push(4),
        Color::Green => out.push(5),
        Color::DarkGreen => out.push(6),
        Color::Yellow => out.push(7),
        Color::DarkYellow => out.push(8),
        Color::Blue => out.push(9),
        Color::DarkBlue => out.push(10),
        Color::Magenta => out.push(11),
        Color::DarkMagenta => out.push(12),
        Color::Cyan => out.push(13),
        Color::DarkCyan => out.push(14),
        Color::White => out.push(15),
        Color::Grey => out.push(16),
        Color::Rgb { r, g, b } => {
            out.push(17);
            out.push(r);
            out.push(g);
            out.push(b);
        },
        Color::AnsiValue(v) => {
            out.push(18);
            out.push(v);
        },
    }
    proof {
        assert(out@ =~= start + enc_color(c));
    }
}

fn write_icon(out: &mut Vec<u8>, a: &AsciiArt)
    ensures
        final(out)@ == old(out)@ + enc_icon(a@),
{
    let ghost start = out@;
    let ghost names = a@.name;
    write_len(out, a.name.len());
    let mut k: usize = 0;
    while k < a.name.len()
        invariant
            k <= a.name@.len(),
            names == a@.name,
            names.len() == a.name@.len(),
            out@ == start + enc_len(names.len()) + enc_many(names.subrange(0, k as int), str_enc()),
        decreases a.name@.len() - k,
    {
        write_str(out, &a.name[k]);
        proof {
            lemma_enc_many_step(names, k as int, str_enc());
        }
        k = k + 1;
    }
    proof {
        assert(names.subrange(0, k as int) =~= names);
    }
    let ghost mid1 = out@;
    write_len(out, a.colors.len());
    let mut k: usize = 0;
    while k < a.colors.len()
        invariant
            k <= a.colors@.len(),
            out@ == mid1 + enc_len(a.colors@.len()) + enc_many(
                a.colors@.subrange(0, k as int),
                color_enc(),
            ),
        decreases a.colors@.len() - k,
    {
        write_color(out, a.colors[k]);
        proof {
            lemma_enc_many_step(a.colors@, k as int, color_enc());
        }
        k = k + 1;
    }
    proof {
        assert(a.colors@.subrange(0, k as int) =~= a.colors@);
    }
    let mut w = u16_to_le_bytes(a.width);
    out.append(&mut w);
    let mut h = u16_to_le_bytes(a.height);
    out.append(&mut h);
    let ghost mid2 = out@;
    let ghost segs = a@.art;
    write_len(out, a.art.len());
    let mut k: usize = 0;
    while k < a.art.len()
        invariant
            k <= a.art@.len(),
            segs == a@.art,
            segs.len() == a.art@.len(),
            out@ == mid2 + enc_len(segs.len()) + enc_many(segs.subrange(0, k as int), seg_enc()),
        decreases a.art@.len() - k,
    {
        out.push(a.art[k].0);
        write_str(out, &a.art[k].1);
        proof {
            lemma_enc_many_step(segs, k as int, seg_enc());
            assert(seg_enc()(segs[k as int]) =~= seq![a.art@[k as int].0] + enc_str(a.art@[k as int].1@));
        }
        k = k + 1;
    }
    proof {
        assert(segs.subrange(0, k as int) =~= segs);
        assert(out@ =~= start + enc_icon(a@));
    }
}

/// Encodes a list of compiled icons into an archive.
pub fn archive_icons(icons: &Vec<AsciiArt>) -> (r: Vec<u8>)
    ensures
        r@ == encode_icons(icons_view(icons@)),
{
    let ghost iv = icons_view(icons@);
    let mut out: Vec<u8> = Vec::new();
    write_len(&mut out, icons.len());
    let mut k: usize = 0;
    while k < icons.len()
        invariant
            k <= icons@.len(),
            iv == icons_view(icons@),
            out@ == enc_len(iv.len()) + enc_many(iv.subrange(0, k as int), icon_enc()),
        decreases icons@.len() - k,
    {
        write_icon(&mut out, &icons[k]);
        proof {
            lemma_enc_many_step(iv, k as int, icon_enc());
        }
        k = k + 1;
    }
    proof {
        assert(iv.subrange(0, k as int) =~= iv);
    }
    out
}

/// Relies on `char::from_u32`: `Some` exactly for scalar values, holding that value.
#[verifier::external_body]
fn char_from_u32(v: u32) -> (r: Option<char>)
    ensures
        r.is_some() == is_scalar_value(v),
        r.is_some() ==> char_value(r.unwrap()) == v,
{
    char::from_u32(v)
}

fn read_len(b: &Vec<u8>, pos: usize) -> (r: Option<(u64, usize)>)
    requires
        pos <= b@.len(),
    ensures
        match parse_len(rem(b@, pos as int)) {
            Some((n, c)) => r == Some((n, (pos + c) as usize)),
            None => r is None,
        },
        r is Some ==> r.unwrap().1 == pos + 8 && pos + 8 <= b@.len(),
{
    if b.len() - pos < 8 {
        return None;
    }
    let s = slice_subrange(b.as_slice(), pos, pos + 8);
    proof {
        assert(rem(b@, pos as int).subrange(0, 8) =~= s@);
    }
    Some((u64_from_le_bytes(s), pos + 8))
}

fn read_char(b: &Vec<u8>, pos: usize) -> (r: Option<(char, usize)>)
    requires
        pos <= b@.len(),
    ensures
        match parse_char(rem(b@, pos as int)) {
            Some((x, c)) => r == Some((x, (pos + c) as usize)),
            None => r is None,
        },
        r is Some ==> r.unwrap().1 == pos + 4 && pos + 4 <= b@.len(),
{
    if b.len() - pos < 4 {
        return None;
    }
    let s = slice_subrange(b.as_slice(), pos, pos + 4);
    proof {
        assert(rem(b@, pos as int).subrange(0, 4) =~= s@);
    }
    let v = u32_from_le_bytes(s);
    match char_from_u32(v) {
        Some(c) => {
            proof {
                let d = choose|d: char| #[trigger] char_value(d) == v;
                lemma_char_injective(c, d);
            }
            Some((c, pos + 4))
        },
        None => None,
    }
}

fn read_str(b: &Vec<u8>, pos: usize) -> (r: Option<(String, usize)>)
    requires
        pos <= b@.len(),
    ensures
        match parse_str(rem(b@, pos as int)) {
            Some((x, c)) => r.is_some() && r.unwrap().0@ == x && r.unwrap().1 == pos + c,
            None => r is None,
        },
        r is Some ==> pos <= r.unwrap().1 <= b@.len(),
{
    let (n, start) = match read_len(b, pos) {
        Some(x) => x,
        None => {
            return None;
        },
    };
    let ghost rb = rem(b@, start as int);
    proof {
        lemma_rem_rem(b@, pos as int, 8);
    }
    let mut s = String::new();
    let mut cur = start;
    let mut k: u64 = 0;
    while k < n
        invariant
            start <= cur <= b@.len(),
            start == pos + 8,
            rb == rem(b@, start as int),
            rem(b@, pos as int).subrange(8, rem(b@, pos as int).len() as int) == rb,
            parse_len(rem(b@, pos as int)) == Some((n, 8int)),
            k <= n,
            parse_many(rb, k as nat, char_par()) == Some((s@, cur - start)),
        decreases n - k,
    {
        proof {
            lemma_rem_rem(b@, start as int, cur - start);
        }
        match read_char(b, cur) {
            Some((c, next)) => {
                crate::text::push_char(&mut s, c);
                cur = next;
            },
            None => {
                proof {
                    assert(parse_many(rb, (k + 1) as nat, char_par()) is None);
                    lemma_parse_many_fails(rb, (k + 1) as nat, n as nat, char_par());
                }
                return None;
            },
        }
        k = k + 1;
    }
    Some((s, cur))
}

fn read_color(b: &Vec<u8>, pos: usize) -> (r: Option<(Color, usize)>)
    requires
        pos <= b@.len(),
    ensures
        match parse_color(rem(b@, pos as int)) {
            Some((x, c)) => r.is_some() && r.unwrap().0 == x && r.unwrap().1 == pos + c,
            None => r is None,
        },
        r is Some ==> pos <= r.unwrap().1 <= b@.len(),
{
    if pos == b.len() {
        return None;
    }
    let ghost rb = rem(b@, pos as int);
    let t = b[pos];
    proof {
        assert(rb[0] == t);
    }
    if t <= 16 {
        let c = if t == 0 {
            Color::Reset
        } else if t == 1 {
            Color::Black
        } else if t == 2 {
            Color::DarkGrey
        } else if t == 3 {
            Color::Red
        } else if t == 4 {
            Color::DarkRed
        } else if t == 5 {
            Color::Green
        } else if t == 6 {
            Color::DarkGreen
        } else if t == 7 {
            Color::Yellow
        } else if t == 8 {
            Color::DarkYellow
        } else if t == 9 {
            Color::Blue
        } else if t == 10 {
            Color::DarkBlue
        } else if t == 11 {
            Color::Magenta
        } else if t == 12 {
            Color::DarkMagenta
        } else if t == 13 {
            Color::Cyan
        } else if t == 14 {
            Color::DarkCyan
        } else if t == 15 {
            Color::White
        } else {
            Color::Grey
        };
        Some((c, pos + 1))
    } else if t == 17 && b.len() - pos >= 4 {
        proof {
            assert(rb[1] == b@[pos + 1] && rb[2] == b@[pos + 2] && rb[3] == b@[pos + 3]);
        }
        Some((Color::Rgb { r: b[pos + 1], g: b[pos + 2], b: b[pos + 3] }, pos + 4))
    } else if t == 18 && b.len() - pos >= 2 {
        proof {
            assert(rb[1] == b@[pos + 1]);
        }
        Some((Color::AnsiValue(b[pos + 1]), pos + 2))
    } else {
        None
    }
}

fn read_segment(b: &Vec<u8>, pos: usize) -> (r: Option<((u8, String), usize)>)
    requires
        pos <= b@.len(),
    ensures
        match parse_segment(rem(b@, pos as int)) {
            Some((x, c)) => r.is_some() && (r.unwrap().0.0, r.unwrap().0.1@) == x && r.unwrap().1
                == pos + c,
            None => r is None,
        },
        r is Some ==> pos <= r.unwrap().1 <= b@.len(),
{
    if pos == b.len() {
        return None;
    }
    let idx = b[pos];
    proof {
        lemma_rem_rem(b@, pos as int, 1);
        assert(rem(b@, pos as int)[0] == idx);
    }
    match read_str(b, pos + 1) {
        Some((t, next)) => Some(((idx, t), next)),
        None => None,
    }
}

fn read_strings(b: &Vec<u8>, pos: usize) -> (r: Option<(Vec<String>, usize)>)
    requires
        pos <= b@.len(),
    ensures
        match parse_list(rem(b@, pos as int), str_par()) {
            Some((x, c)) => r.is_some() && crate::asset::strings_view(r.unwrap().0@) == x && r.unwrap().1 == pos + c,
            None => r is None,
        },
        r is Some ==> pos <= r.unwrap().1 <= b@.len(),
{
    let (n, start) = match read_len(b, pos) {
        Some(x) => x,
        None => {
            return None;
        },
    };
    let ghost rb = rem(b@, start as int);
    proof {
        lemma_rem_rem(b@, pos as int, 8);
        assert(crate::asset::strings_view(Seq::<String>::empty()) =~= Seq::empty());
    }
    let mut out: Vec<String> = Vec::new();
    let mut cur = start;
    let mut k: u64 = 0;
    while k < n
        invariant
            start <= cur <= b@.len(),
            start == pos + 8,
            rb == rem(b@, start as int),
            rem(b@, pos as int).subrange(8, rem(b@, pos as int).len() as int) == rb,
            parse_len(rem(b@, pos as int)) == Some((n, 8int)),
            k <= n,
            parse_many(rb, k as nat, str_par()) == Some((crate::asset::strings_view(out@), cur - start)),
        decreases n - k,
    {
        proof {
            lemma_rem_rem(b@, start as int, cur - start);
        }
        match read_str(b, cur) {
            Some((x, next)) => {
                proof {
                    crate::asset::lemma_strings_view_push(out@, x);
                }
                out.push(x);
                cur = next;
            },
            None => {
                proof {
                    assert(parse_many(rb, (k + 1) as nat, str_par()) is None);
                    lemma_parse_many_fails(rb, (k + 1) as nat, n as nat, str_par());
                }
                return None;
            },
        }
        k = k + 1;
    }
    Some((out, cur))
}

fn read_colors(b: &Vec<u8>, pos: usize) -> (r: Option<(Vec<Color>, usize)>)
    requires
        pos <= b@.len(),
    ensures
        match parse_list(rem(b@, pos as int), color_par()) {
            Some((x, c)) => r.is_some() && r.unwrap().0@ == x && r.unwrap().1 == pos + c,
            None => r is None,
        },
        r is Some ==> pos <= r.unwrap().1 <= b@.len(),
{
    let (n, start) = match read_len(b, pos) {
        Some(x) => x,
        None => {
            return None;
        },
    };
    let ghost rb = rem(b@, start as int);
    proof {
        lemma_rem_rem(b@, pos as int, 8);
    }
    let mut out: Vec<Color> = Vec::new();
    let mut cur = start;
    let mut k: u64 = 0;
    while k < n
        invariant
            start <= cur <= b@.len(),
            start == pos + 8,
            rb == rem(b@, start as int),
            rem(b@, pos as int).subrange(8, rem(b@, pos as int).len() as int) == rb,
            parse_len(rem(b@, pos as int)) == Some((n, 8int)),
            k <= n,
            parse_many(rb, k as nat, color_par()) == Some((out@, cur - start)),
        decreases n - k,
    {
        proof {
            lemma_rem_rem(b@, start as int, cur - start);
        }
        match read_color(b, cur) {
            Some((x, next)) => {
                out.push(x);
                cur = next;
            },
            None => {
                proof {
                    assert(parse_many(rb, (k + 1) as nat, color_par()) is None);
                    lemma_parse_many_fails(rb, (k + 1) as nat, n as nat, color_par());
                }
                return None;
            },
        }
        k = k + 1;
    }
    Some((out, cur))
}

fn read_segments(b: &Vec<u8>, pos: usize) -> (r: Option<(Vec<(u8, String)>, usize)>)
    requires
        pos <= b@.len(),
    ensures
        match parse_list(rem(b@, pos as int), seg_par()) {
            Some((x, c)) => r.is_some() && crate::template::segments_view(r.unwrap().0@) == x && r.unwrap().1 == pos + c,
            None => r is None,
        },
        r is Some ==> pos <= r.unwrap().1 <= b@.len(),
{
    let (n, start) = match read_len(b, pos) {
        Some(x) => x,
        None => {
            return None;
        },
    };
    let ghost rb = rem(b@, start as int);
    proof {
        lemma_rem_rem(b@, pos as int, 8);
        assert(crate::template::segments_view(Seq::<(u8, String)>::empty()) =~= Seq::empty());
    }
    let mut out: Vec<(u8, String)> = Vec::new();
    let mut cur = start;
    let mut k: u64 = 0;
    while k < n
        invariant
            start <= cur <= b@.len(),
            start == pos + 8,
            rb == rem(b@, start as int),
            rem(b@, pos as int).subrange(8, rem(b@, pos as int).len() as int) == rb,
            parse_len(rem(b@, pos as int)) == Some((n, 8int)),
            k <= n,
            parse_many(rb, k as nat, seg_par()) == Some((crate::template::segments_view(out@), cur - start)),
        decreases n - k,
    {
        proof {
            lemma_rem_rem(b@, start as int, cur - start);
        }
        match read_segment(b, cur) {
            Some((x, next)) => {
                proof {
                    crate::asset::lemma_segments_view_push(out@, x);
                }
                out.push(x);
                cur = next;
            },
            None => {
                proof {
                    assert(parse_many(rb, (k + 1) as nat, seg_par()) is None);
                    lemma_parse_many_fails(rb, (k + 1) as nat, n as nat, seg_par());
                }
                return None;
            },
        }
        k = k + 1;
    }
    Some((out, cur))
}

fn read_icon(b: &Vec<u8>, pos: usize) -> (r: Option<(AsciiArt, usize)>)
    requires
        pos <= b@.len(),
    ensures
        match parse_icon(rem(b@, pos as int)) {
            Some((x, c)) => r.is_some() && r.unwrap().0@ == x && r.unwrap().1 == pos + c,
            None => r is None,
        },
        r is Some ==> pos <= r.unwrap().1 <= b@.len(),
{
    let ghost rb = rem(b@, pos as int);
    let (name, p1) = match read_strings(b, pos) {
        Some(x) => x,
        None => {
            return None;
        },
    };
    proof {
        lemma_rem_rem(b@, pos as int, p1 - pos);
    }
    let (colors, p2) = match read_colors(b, p1) {
        Some(x) => x,
        None => {
            return None;
        },
    };
    if b.len() - p2 < 4 {
        return None;
    }
    let ws = slice_subrange(b.as_slice(), p2, p2 + 2);
    let hs = slice_subrange(b.as_slice(), p2 + 2, p2 + 4);
    let ghost o = (p2 - pos) as int;
    proof {
        assert(rb.subrange(o, o + 2) =~= ws@);
        assert(rb.subrange(o + 2, o + 4) =~= hs@);
        lemma_rem_rem(b@, pos as int, o + 4);
    }
    let width = u16_from_le_bytes(ws);
    let height = u16_from_le_bytes(hs);
    let (art, p3) = match read_segments(b, p2 + 4) {
        Some(x) => x,
        None => {
            return None;
        },
    };
    Some((AsciiArt { name, colors, width, height, art }, p3))
}

fn read_icons(b: &Vec<u8>, pos: usize) -> (r: Option<(Vec<AsciiArt>, usize)>)
    requires
        pos <= b@.len(),
    ensures
        match parse_list(rem(b@, pos as int), icon_par()) {
            Some((x, c)) => r.is_some() && icons_view(r.unwrap().0@) == x && r.unwrap().1 == pos + c,
            None => r is None,
        },
        r is Some ==> pos <= r.unwrap().1 <= b@.len(),
{
    let (n, start) = match read_len(b, pos) {
        Some(x) => x,
        None => {
            return None;
        },
    };
    let ghost rb = rem(b@, start as int);
    proof {
        lemma_rem_rem(b@, pos as int, 8);
        assert(icons_view(Seq::<AsciiArt>::empty()) =~= Seq::empty());
    }
    let mut out: Vec<AsciiArt> = Vec::new();
    let mut cur = start;
    let mut k: u64 = 0;
    while k < n
        invariant
            start <= cur <= b@.len(),
            start == pos + 8,
            rb == rem(b@, start as int),
            rem(b@, pos as int).subrange(8, rem(b@, pos as int).len() as int) == rb,
            parse_len(rem(b@, pos as int)) == Some((n, 8int)),
            k <= n,
            parse_many(rb, k as nat, icon_par()) == Some((icons_view(out@), cur - start)),
        decreases n - k,
    {
        proof {
            lemma_rem_rem(b@, start as int, cur - start);
        }
        match read_icon(b, cur) {
            Some((x, next)) => {
                proof {
                    lemma_icons_view_push(out@, x);
                }
                out.push(x);
                cur = next;
            },
            None => {
                proof {
                    assert(parse_many(rb, (k + 1) as nat, icon_par()) is None);
                    lemma_parse_many_fails(rb, (k + 1) as nat, n as nat, icon_par());
                }
                return None;
            },
        }
        k = k + 1;
    }
    Some((out, cur))
}

proof fn lemma_icons_view_push(v: Seq<AsciiArt>, a: AsciiArt)
    ensures
        icons_view(v.push(a)) == icons_view(v).push(a@),
{
    assert(icons_view(v.push(a)) =~= icons_view(v).push(a@));
}

/// Loads an icon archive. Fails with `ArchiveCorrupt` unless the bytes are
/// exactly the encoding of a list of well-formed icons.
pub fn load_icons(b: &Vec<u8>) -> (r: Result<Vec<AsciiArt>, AssetError>)
    ensures
        match decode_icons(b@) {
            Some(icons) => r.is_ok() && icons_view(r.unwrap()@) == icons,
            None => r == Err::<Vec<AsciiArt>, AssetError>(AssetError::ArchiveCorrupt),
        },
{
    proof {
        assert(rem(b@, 0) =~= b@);
    }
    let (icons, end) = match read_icons(b, 0) {
        Some(x) => x,
        None => {
            return Err(AssetError::ArchiveCorrupt);
        },
    };
    if end != b.len() {
        return Err(AssetError::ArchiveCorrupt);
    }
    proof {
        assert(rem(b@, 0) =~= b@);
    }
    let ghost parsed = parse_list(b@, icon_par());
    let mut k: usize = 0;
    while k < icons.len()
        invariant
            k <= icons@.len(),
            parsed == parse_list(b@, icon_par()),
            parsed == Some((icons_view(icons@), b@.len() as int)),
            forall|i: int| 0 <= i < k ==> (#[trigger] icons@[i])@.wf(),
        decreases icons@.len() - k,
    {
        if !icons[k].is_well_formed() {
            proof {
                assert(icons_view(icons@)[k as int] == icons@[k as int]@);
            }
            return Err(AssetError::ArchiveCorrupt);
        }
        k = k + 1;
    }
    proof {
        let iv = icons_view(icons@);
        assert forall|i: int| 0 <= i < iv.len() implies (#[trigger] iv[i]).wf() by {
            assert(iv[i] == icons@[i]@);
        }
    }
    Ok(icons)
}

/// The encoding of an RGB triple.
pub open spec fn enc_triple(t: (u8, u8, u8)) -> Seq<u8> {
    seq![t.0, t.1, t.2]
}

/// Reads an RGB triple.
pub open spec fn parse_triple(b: Seq<u8>) -> Option<((u8, u8, u8), int)> {
    if b.len() >= 3 {
        Some(((b[0], b[1], b[2]), 3))
    } else {
        None
    }
}

/// The triple encoder, as a function value.
pub open spec fn triple_enc() -> spec_fn((u8, u8, u8)) -> Seq<u8> {
    |t: (u8, u8, u8)| enc_triple(t)
}

/// The triple reader, as a function value.
pub open spec fn triple_par() -> spec_fn(Seq<u8>) -> Option<((u8, u8, u8), int)> {
    |x: Seq<u8>| parse_triple(x)
}

/// Every triple can be stored.
pub open spec fn triple_ok() -> spec_fn((u8, u8, u8)) -> bool {
    |t: (u8, u8, u8)| true
}

/// The value of a stored colour scheme: its name and its triples.
pub type SchemeView = (Seq<char>, Seq<(u8, u8, u8)>);

/// The views of a list of colour schemes.
pub open spec fn schemes_view(v: Seq<SchemeEntry>) -> Seq<SchemeView> {
    v.map_values(|e: SchemeEntry| (e.0@, e.1@))
}

/// The encoding of a colour scheme.
pub open spec fn enc_scheme(e: SchemeView) -> Seq<u8> {
    enc_str(e.0) + enc_list(e.1, triple_enc())
}

/// Reads a colour scheme.
pub open spec fn parse_scheme(b: Seq<u8>) -> Option<(SchemeView, int)> {
    match parse_str(b) {
        Some((name, c1)) => match parse_list(b.subrange(c1, b.len() as int), triple_par()) {
            Some((t, c2)) => Some(((name, t), c1 + c2)),
            None => None,
        },
        None => None,
    }
}

/// The scheme encoder, as a function value.
pub open spec fn scheme_enc() -> spec_fn(SchemeView) -> Seq<u8> {
    |e: SchemeView| enc_scheme(e)
}

/// The scheme reader, as a function value.
pub open spec fn scheme_par() -> spec_fn(Seq<u8>) -> Option<(SchemeView, int)> {
    |x: Seq<u8>| parse_scheme(x)
}

/// A scheme fits the format when its name and triple list lengths fit.
pub open spec fn scheme_ok() -> spec_fn(SchemeView) -> bool {
    |e: SchemeView| e.0.len() <= u64::MAX && e.1.len() <= u64::MAX
}

proof fn lemma_scheme_inverts()
    ensures
        inverts(scheme_enc(), scheme_par(), scheme_ok()),
{
    lemma_str_inverts();
    assert(inverts(triple_enc(), triple_par(), triple_ok())) by {
        assert forall|t: (u8, u8, u8), rest: Seq<u8>| triple_ok()(t) implies #[trigger] triple_par()(
            triple_enc()(t) + rest,
        ) == Some((t, triple_enc()(t).len() as int)) by {
            let b = enc_triple(t) + rest;
            assert(b[0] == t.0 && b[1] == t.1 && b[2] == t.2);
        }
    }
    assert forall|e: SchemeView, rest: Seq<u8>| scheme_ok()(e) implies #[trigger] scheme_par()(
        scheme_enc()(e) + rest,
    ) == Some((e, scheme_enc()(e).len() as int)) by {
        let e2 = enc_list(e.1, triple_enc());
        let b = enc_scheme(e) + rest;
        assert(b =~= enc_str(e.0) + (e2 + rest));
        assert(str_ok()(e.0));
        assert(str_par()(str_enc()(e.0) + (e2 + rest)) == Some((e.0, str_enc()(e.0).len() as int)));
        let c1 = enc_str(e.0).len() as int;
        assert(b.subrange(c1, b.len() as int) =~= enc_len(e.1.len()) + enc_many(e.1, triple_enc())
            + rest);
        lemma_parse_list(e.1, rest, triple_enc(), triple_par(), triple_ok());
        lemma_auto_spec_u64_to_from_le_bytes();
        assert(enc_len(e.1.len()).len() == 8);
        assert(parse_str(b) == Some((e.0, c1)));
        assert(parse_list(b.subrange(c1, b.len() as int), triple_par()) == Some((e.1, e2.len() as int)));
        assert(enc_scheme(e).len() == c1 + e2.len());
    }
}

/// The encoding of a colour scheme archive.
pub open spec fn encode_schemes(s: Seq<SchemeView>) -> Seq<u8> {
    enc_list(s, scheme_enc())
}

/// What a colour scheme archive holds, when its bytes are exactly an encoding.
pub open spec fn decode_schemes(b: Seq<u8>) -> Option<Seq<SchemeView>> {
    match parse_list(b, scheme_par()) {
        Some((s, c)) => if c == b.len() {
            Some(s)
        } else {
            None
        },
        None => None,
    }
}

/// Loading a colour scheme archive gives back exactly the archived schemes.
pub proof fn lemma_scheme_archive_round_trip(s: Seq<SchemeView>)
    requires
        s.len() <= u64::MAX,
        forall|i: int| 0 <= i < s.len() ==> (#[trigger] s[i]).0.len() <= u64::MAX && s[i].1.len() <= u64::MAX,
    ensures
        decode_schemes(encode_schemes(s)) == Some(s),
{
    lemma_scheme_inverts();
    assert forall|i: int| 0 <= i < s.len() implies scheme_ok()(#[trigger] s[i]) by {}
    lemma_parse_list(s, Seq::empty(), scheme_enc(), scheme_par(), scheme_ok());
    assert(encode_schemes(s) + Seq::<u8>::empty() =~= encode_schemes(s));
    lemma_auto_spec_u64_to_from_le_bytes();
}

fn write_scheme(out: &mut Vec<u8>, e: &SchemeEntry)
    ensures
        final(out)@ == old(out)@ + enc_scheme((e.0@, e.1@)),
{
    let ghost start = out@;
    write_str(out, &e.0);
    let ghost mid = out@;
    write_len(out, e.1.len());
    let mut k: usize = 0;
    while k < e.1.len()
        invariant
            k <= e.1@.len(),
            out@ == mid + enc_len(e.1@.len()) + enc_many(e.1@.subrange(0, k as int), triple_enc()),
        decreases e.1@.len() - k,
    {
        let (r, g, b) = e.1[k];
        out.push(r);
        out.push(g);
        out.push(b);
        proof {
            lemma_enc_many_step(e.1@, k as int, triple_enc());
            assert(triple_enc()(e.1@[k as int]) =~= seq![r, g, b]);
        }
        k = k + 1;
    }
    proof {
        assert(e.1@.subrange(0, k as int) =~= e.1@);
        assert(out@ =~= start + enc_scheme((e.0@, e.1@)));
    }
}

/// Encodes a list of named colour schemes into an archive.
pub fn archive_flags(schemes: &Vec<SchemeEntry>) -> (r: Vec<u8>)
    ensures
        r@ == encode_schemes(schemes_view(schemes@)),
{
    let ghost sv = schemes_view(schemes@);
    let mut out: Vec<u8> = Vec::new();
    write_len(&mut out, schemes.len());
    let mut k: usize = 0;
    while k < schemes.len()
        invariant
            k <= schemes@.len(),
            sv == schemes_view(schemes@),
            out@ == enc_len(sv.len()) + enc_many(sv.subrange(0, k as int), scheme_enc()),
        decreases schemes@.len() - k,
    {
        write_scheme(&mut out, &schemes[k]);
        proof {
            lemma_enc_many_step(sv, k as int, scheme_enc());
        }
        k = k + 1;
    }
    proof {
        assert(sv.subrange(0, k as int) =~= sv);
    }
    out
}

fn read_triple(b: &Vec<u8>, pos: usize) -> (r: Option<((u8, u8, u8), usize)>)
    requires
        pos <= b@.len(),
    ensures
        match parse_triple(rem(b@, pos as int)) {
            Some((x, c)) => r.is_some() && r.unwrap().0 == x && r.unwrap().1 == pos + c,
            None => r is None,
        },
        r is Some ==> pos <= r.unwrap().1 <= b@.len(),
{
    if b.len() - pos < 3 {
        return None;
    }
    proof {
        let rb = rem(b@, pos as int);
        assert(rb[0] == b@[pos as int] && rb[1] == b@[pos + 1] && rb[2] == b@[pos + 2]);
    }
    Some(((b[pos], b[pos + 1], b[pos + 2]), pos + 3))
}

fn read_triples(b: &Vec<u8>, pos: usize) -> (r: Option<(Vec<(u8, u8, u8)>, usize)>)
    requires
        pos <= b@.len(),
    ensures
        match parse_list(rem(b@, pos as int), triple_par()) {
            Some((x, c)) => r.is_some() && r.unwrap().0@ == x && r.unwrap().1 == pos + c,
            None => r is None,
        },
        r is Some ==> pos <= r.unwrap().1 <= b@.len(),
{
    let (n, start) = match read_len(b, pos) {
        Some(x) => x,
        None => {
            return None;
        },
    };
    let ghost rb = rem(b@, start as int);
    proof {
        lemma_rem_rem(b@, pos as int, 8);
    }
    let mut out: Vec<(u8, u8, u8)> = Vec::new();
    let mut cur = start;
    let mut k: u64 = 0;
    while k < n
        invariant
            start <= cur <= b@.len(),
            start == pos + 8,
            rb == rem(b@, start as int),
            rem(b@, pos as int).subrange(8, rem(b@, pos as int).len() as int) == rb,
            parse_len(rem(b@, pos as int)) == Some((n, 8int)),
            k <= n,
            parse_many(rb, k as nat, triple_par()) == Some((out@, cur - start)),
        decreases n - k,
    {
        proof {
            lemma_rem_rem(b@, start as int, cur - start);
        }
        match read_triple(b, cur) {
            Some((x, next)) => {
                out.push(x);
                cur = next;
            },
            None => {
                proof {
                    assert(parse_many(rb, (k + 1) as nat, triple_par()) is None);
                    lemma_parse_many_fails(rb, (k + 1) as nat, n as nat, triple_par());
                }
                return None;
            },
        }
        k = k + 1;
    }
    Some((out, cur))
}
fn read_scheme(b: &Vec<u8>, pos: usize) -> (r: Option<(SchemeEntry, usize)>)
    requires
        pos <= b@.len(),
    ensures
        match parse_scheme(rem(b@, pos as int)) {
            Some((x, c)) => r.is_some() && (r.unwrap().0.0@, r.unwrap().0.1@) == x && r.unwrap().1
                == pos + c,
            None => r is None,
        },
        r is Some ==> pos <= r.unwrap().1 <= b@.len(),
{
    let (name, p1) = match read_str(b, pos) {
        Some(x) => x,
        None => {
            return None;
        },
    };
    proof {
        lemma_rem_rem(b@, pos as int, p1 - pos);
    }
    match read_triples(b, p1) {
        Some((t, p2)) => Some(((name, t), p2)),
        None => None,
    }
}

proof fn lemma_schemes_view_push(v: Seq<SchemeEntry>, e: SchemeEntry)
    ensures
        schemes_view(v.push(e)) == schemes_view(v).push((e.0@, e.1@)),
{
    assert(schemes_view(v.push(e)) =~= schemes_view(v).push((e.0@, e.1@)));
}

fn read_schemes(b: &Vec<u8>, pos: usize) -> (r: Option<(Vec<SchemeEntry>, usize)>)
    requires
        pos <= b@.len(),
    ensures
        match parse_list(rem(b@, pos as int), scheme_par()) {
            Some((x, c)) => r.is_some() && schemes_view(r.unwrap().0@) == x && r.unwrap().1 == pos + c,
            None => r is None,
        },
        r is Some ==> pos <= r.unwrap().1 <= b@.len(),
{
    let (n, start) = match read_len(b, pos) {
        Some(x) => x,
        None => {
            return None;
        },
    };
    let ghost rb = rem(b@, start as int);
    proof {
        lemma_rem_rem(b@, pos as int, 8);
        assert(schemes_view(Seq::<SchemeEntry>::empty()) =~= Seq::empty());
    }
    let mut out: Vec<SchemeEntry> = Vec::new();
    let mut cur = start;
    let mut k: u64 = 0;
    while k < n
        invariant
            start <= cur <= b@.len(),
            start == pos + 8,
            rb == rem(b@, start as int),
            rem(b@, pos as int).subrange(8, rem(b@, pos as int).len() as int) == rb,
            parse_len(rem(b@, pos as int)) == Some((n, 8int)),
            k <= n,
            parse_many(rb, k as nat, scheme_par()) == Some((schemes_view(out@), cur - start)),
        decreases n - k,
    {
        proof {
            lemma_rem_rem(b@, start as int, cur - start);
        }
        match read_scheme(b, cur) {
            Some((x, next)) => {
                proof {
                    lemma_schemes_view_push(out@, x);
                }
                out.push(x);
                cur = next;
            },
            None => {
                proof {
                    assert(parse_many(rb, (k + 1) as nat, scheme_par()) is None);
                    lemma_parse_many_fails(rb, (k + 1) as nat, n as nat, scheme_par());
                }
                return None;
            },
        }
        k = k + 1;
    }
    Some((out, cur))
}
/// Loads a colour scheme archive. Fails with `ArchiveCorrupt` unless the
/// bytes are exactly the encoding of a list of schemes.
pub fn load_flags(b: &Vec<u8>) -> (r: Result<Vec<SchemeEntry>, AssetError>)
    ensures
        match decode_schemes(b@) {
            Some(s) => r.is_ok() && schemes_view(r.unwrap()@) == s,
            None => r == Err::<Vec<SchemeEntry>, AssetError>(AssetError::ArchiveCorrupt),
        },
{
    proof {
        assert(rem(b@, 0) =~= b@);
    }
    match read_schemes(b, 0) {
        Some((s, end)) => if end == b.len() {
            Ok(s)
        } else {
            Err(AssetError::ArchiveCorrupt)
        },
        None => Err(AssetError::ArchiveCorrupt),
    }
}

/// Compiling icon definitions, archiving the icons and loading the archive
/// gives back exactly the compiled icons, in order.
pub proof fn lemma_compiled_archive_round_trip(defs: Seq<IconSource>)
    requires
        defs.len() <= u64::MAX,
        forall|k: int| 0 <= k < defs.len() ==> compiles(&#[trigger] defs[k]),
        forall|k: int| 0 <= k < defs.len() ==> icon_storable(compiled_view(&#[trigger] defs[k])),
    ensures
        decode_icons(encode_icons(Seq::new(defs.len(), |k: int| compiled_view(&defs[k])))) == Some(
            Seq::new(defs.len(), |k: int| compiled_view(&defs[k])),
        ),
{
    let icons = Seq::new(defs.len(), |k: int| compiled_view(&defs[k]));
    assert forall|i: int| 0 <= i < icons.len() implies (#[trigger] icons[i]).wf() && icon_storable(
        icons[i],
    ) by {
        assert(compiles(&defs[i]));
        assert(icon_storable(compiled_view(&defs[i])));
    }
    lemma_archive_round_trip(icons);
}

} // verus!
