use vstd::prelude::*;

use crate::asset::{AsciiArt, AsciiArtView, AssetError};
use crate::color::{Color, Styled};
use crate::stripes::{length_to_colors, stripe_colors, lemma_stripe_colors_len};
use crate::text::{line_spans, lines, push_char, string_of, to_chars};

verus! {

/// Whether banding paints whole lines or single columns.
#[derive(Clone, Copy, Debug, PartialEq, Eq, Structural)]
pub enum Orientation {
    Horizontal,
    Vertical,
}

/// The value of a painted piece: its text and its colour.
pub open spec fn styled_view(s: Styled) -> (Seq<char>, Color) {
    (s.text@, s.color)
}

/// The values of a list of painted pieces.
pub open spec fn pieces_view(v: Seq<Styled>) -> Seq<(Seq<char>, Color)> {
    v.map_values(|s: Styled| styled_view(s))
}

proof fn lemma_pieces_view_push(v: Seq<Styled>, s: Styled)
    ensures
        pieces_view(v.push(s)) == pieces_view(v).push(styled_view(s)),
{
    assert(pieces_view(v.push(s)) =~= pieces_view(v).push(styled_view(s)));
}

/// The value of a colouring result.
pub open spec fn painted_view(r: Result<Vec<Styled>, AssetError>) -> Result<
    Seq<(Seq<char>, Color)>,
    AssetError,
> {
    match r {
        Ok(v) => Ok(pieces_view(v@)),
        Err(e) => Err(e),
    }
}

/// A strategy that turns a compiled icon into painted pieces of text.
pub trait Colorizer {
    /// What `colorize` yields for an icon.
    spec fn paint(&self, art: AsciiArtView) -> Result<Seq<(Seq<char>, Color)>, AssetError>;

    fn colorize(&self, ascii_art: &AsciiArt) -> (r: Result<Vec<Styled>, AssetError>)
        requires
            ascii_art@.wf(),
        ensures
            painted_view(r) == self.paint(ascii_art@),
    ;
}

/// Paints each segment in the icon's own palette colour.
pub struct DefaultColorizer {}

/// Each segment's text in its palette colour (indices count from 1).
pub open spec fn direct_paint(art: AsciiArtView) -> Seq<(Seq<char>, Color)> {
    art.art.map_values(|seg: (u8, Seq<char>)| (seg.1, art.colors[seg.0 - 1]))
}

impl Colorizer for DefaultColorizer {
    open spec fn paint(&self, art: AsciiArtView) -> Result<Seq<(Seq<char>, Color)>, AssetError> {
        Ok(direct_paint(art))
    }

    fn colorize(&self, ascii_art: &AsciiArt) -> (r: Result<Vec<Styled>, AssetError>) {
        let mut out: Vec<Styled> = Vec::new();
        let mut k: usize = 0;
        while k < ascii_art.art.len()
            invariant
                k <= ascii_art.art@.len(),
                ascii_art@.wf(),
                pieces_view(out@) == direct_paint(ascii_art@).subrange(
                    0,
                    k as int,
                ),
            decreases ascii_art.art@.len() - k,
        {
            let idx = ascii_art.art[k].0;
            proof {
                assert(ascii_art@.art[k as int].0 == idx);
            }
            let piece = Styled { text: ascii_art.art[k].1.clone(), color: ascii_art.colors[(idx - 1) as usize] };
            proof {
                lemma_pieces_view_push(out@, piece);
                assert(direct_paint(ascii_art@).subrange(0, k + 1) =~= direct_paint(
                    ascii_art@,
                ).subrange(0, k as int).push(styled_view(piece)));
            }
            out.push(piece);
            k = k + 1;
        }
        proof {
            assert(direct_paint(ascii_art@).subrange(0, k as int) =~= direct_paint(ascii_art@));
        }
        Ok(out)
    }
}

/// Recolours whole lines or single columns in stripes of an outside palette,
/// ignoring the icon's own colours.
pub struct FlagColorizer {
    pub color_scheme: Vec<Color>,
    pub orientation: Orientation,
}

/// The name that the strategy of direct palette lookup also goes by.
pub type DefaultColors = DefaultColorizer;

/// The name that the banding strategy also goes by.
pub type FlagColors = FlagColorizer;

/// The icon's text: all segment texts joined in order.
pub open spec fn art_text(art: Seq<(u8, Seq<char>)>) -> Seq<char>
    decreases art.len(),
{
    if art.len() == 0 {
        Seq::empty()
    } else {
        art_text(art.drop_last()) + art.last().1
    }
}

/// Horizontal banding: line `i` with a line feed, in stripe colour `i`.
pub open spec fn horizontal_paint(scheme: Seq<Color>, ls: Seq<Seq<char>>) -> Seq<(Seq<char>, Color)> {
    Seq::new(ls.len(), |i: int| (ls[i].push('\n'), stripe_colors(scheme, ls.len() as int)[i]))
}

/// The pieces of one line under vertical banding: each character in the
/// colour of its column, then a line feed in the reset colour.
pub open spec fn column_pieces(line: Seq<char>, cs: Seq<Color>) -> Seq<(Seq<char>, Color)> {
    Seq::new(line.len(), |j: int| (seq![line[j]], cs[j])).push((seq!['\n'], Color::Reset))
}

/// Vertical banding of all lines with column colours `cs`.
pub open spec fn vertical_paint(ls: Seq<Seq<char>>, cs: Seq<Color>) -> Seq<(Seq<char>, Color)>
    decreases ls.len(),
{
    if ls.len() == 0 {
        Seq::empty()
    } else {
        vertical_paint(ls.drop_last(), cs) + column_pieces(ls.last(), cs)
    }
}

/// Every line has exactly `w` characters and there is at least one line.
pub open spec fn rectangular(ls: Seq<Seq<char>>, w: int) -> bool {
    ls.len() > 0 && forall|i: int| 0 <= i < ls.len() ==> (#[trigger] ls[i]).len() == w
}

/// What banding with `scheme` yields for an icon.
pub open spec fn flag_paint(scheme: Seq<Color>, orientation: Orientation, art: AsciiArtView) -> Result<
    Seq<(Seq<char>, Color)>,
    AssetError,
> {
    let ls = lines(art_text(art.art));
    if scheme.len() == 0 {
        Err(AssetError::InvalidAsset)
    } else {
        match orientation {
            Orientation::Horizontal => Ok(horizontal_paint(scheme, ls)),
            Orientation::Vertical => if rectangular(ls, art.width as int) {
                Ok(vertical_paint(ls, stripe_colors(scheme, art.width as int)))
            } else {
                Err(AssetError::InvalidAsset)
            },
        }
    }
}

/// The characters of all segment texts, joined in order.
fn text_chars(art: &Vec<(u8, String)>) -> (r: Vec<char>)
    ensures
        r@ == art_text(crate::template::segments_view(art@)),
{
    let mut out: Vec<char> = Vec::new();
    let mut k: usize = 0;
    while k < art.len()
        invariant
            k <= art@.len(),
            out@ == art_text(crate::template::segments_view(art@).subrange(0, k as int)),
        decreases art@.len() - k,
    {
        let mut c = to_chars(art[k].1.as_str());
        let ghost before = out@;
        out.append(&mut c);
        k = k + 1;
        proof {
            let sv = crate::template::segments_view(art@);
            assert(sv.subrange(0, k as int).drop_last() =~= sv.subrange(0, k - 1));
        }
    }
    proof {
        let sv = crate::template::segments_view(art@);
        assert(sv.subrange(0, k as int) =~= sv);
    }
    out
}

impl Colorizer for FlagColorizer {
    open spec fn paint(&self, art: AsciiArtView) -> Result<Seq<(Seq<char>, Color)>, AssetError> {
        flag_paint(self.color_scheme@, self.orientation, art)
    }

    fn colorize(&self, ascii_art: &AsciiArt) -> (r: Result<Vec<Styled>, AssetError>) {
        if self.color_scheme.len() == 0 {
            return Err(AssetError::InvalidAsset);
        }
        let txt = text_chars(&ascii_art.art);
        let spans = line_spans(&txt);
        let ghost ls = lines(txt@);
        match self.orientation {
            Orientation::Horizontal => {
                let colors = length_to_colors(&self.color_scheme, spans.len());
                let mut out: Vec<Styled> = Vec::new();
                let mut i: usize = 0;
                while i < spans.len()
                    invariant
                        i <= spans@.len(),
                        spans@.len() == ls.len(),
                        colors@ == stripe_colors(self.color_scheme@, ls.len() as int),
                        colors@.len() == ls.len(),
                        forall|j: int|
                            0 <= j < spans@.len() ==> {
                                &&& (#[trigger] spans@[j]).0 <= spans@[j].1 <= txt@.len()
                                &&& txt@.subrange(spans@[j].0 as int, spans@[j].1 as int) == ls[j]
                            },
                        pieces_view(out@) == horizontal_paint(
                            self.color_scheme@,
                            ls,
                        ).subrange(0, i as int),
                    decreases spans@.len() - i,
                {
                    let (a, b) = spans[i];
                    let mut line = string_of(&txt, a, b);
                    push_char(&mut line, '\n');
                    let piece = Styled { text: line, color: colors[i] };
                    proof {
                        let hp = horizontal_paint(self.color_scheme@, ls);
                        lemma_pieces_view_push(out@, piece);
                        assert(hp.subrange(0, i + 1) =~= hp.subrange(0, i as int).push(
                            styled_view(piece),
                        ));
                    }
                    out.push(piece);
                    i = i + 1;
                }
                proof {
                    let hp = horizontal_paint(self.color_scheme@, ls);
                    assert(hp.subrange(0, i as int) =~= hp);
                }
                Ok(out)
            },
            Orientation::Vertical => {
                let w = ascii_art.width as usize;
                if spans.len() == 0 {
                    return Err(AssetError::InvalidAsset);
                }
                let mut r: usize = 0;
                while r < spans.len()
                    invariant
                        w == ascii_art.width as usize,
                        ls == lines(art_text(ascii_art@.art)),
                        self.color_scheme@.len() > 0,
                        self.orientation == Orientation::Vertical,
                        r <= spans@.len(),
                        spans@.len() == ls.len(),
                        forall|j: int|
                            0 <= j < spans@.len() ==> {
                                &&& (#[trigger] spans@[j]).0 <= spans@[j].1 <= txt@.len()
                                &&& txt@.subrange(spans@[j].0 as int, spans@[j].1 as int) == ls[j]
                            },
                        forall|j: int| 0 <= j < r ==> (#[trigger] ls[j]).len() == w,
                    decreases spans@.len() - r,
                {
                    if spans[r].1 - spans[r].0 != w {
                        proof {
                            assert(ls[r as int].len() == spans@[r as int].1 - spans@[r as int].0);
                            assert(ls[r as int].len() != ascii_art@.width as int);
                            assert(!rectangular(ls, ascii_art@.width as int));
                        }
                        return Err(AssetError::InvalidAsset);
                    }
                    r = r + 1;
                }
                let colors = length_to_colors(&self.color_scheme, w);
                let ghost cs = colors@;
                let mut out: Vec<Styled> = Vec::new();
                let mut i: usize = 0;
                while i < spans.len()
                    invariant
                        i <= spans@.len(),
                        spans@.len() == ls.len(),
                        cs == colors@,
                        colors@.len() == w,
                        forall|j: int|
                            0 <= j < spans@.len() ==> {
                                &&& (#[trigger] spans@[j]).0 <= spans@[j].1 <= txt@.len()
                                &&& txt@.subrange(spans@[j].0 as int, spans@[j].1 as int) == ls[j]
                            },
                        forall|j: int| 0 <= j < ls.len() ==> (#[trigger] ls[j]).len() == w,
                        pieces_view(out@) == vertical_paint(
                            ls.subrange(0, i as int),
                            cs,
                        ),
                    decreases spans@.len() - i,
                {
                    let (a, b) = spans[i];
                    let ghost line = ls[i as int];
                    let ghost before = pieces_view(out@);
                    let mut col: usize = 0;
                    while col < w
                        invariant
                            col <= w,
                            a + w == b,
                            b <= txt@.len(),
                            txt@.subrange(a as int, b as int) == line,
                            colors@.len() == w,
                            cs == colors@,
                            pieces_view(out@) == before + Seq::new(
                                col as nat,
                                |j: int| (seq![line[j]], cs[j]),
                            ),
                        decreases w - col,
                    {
                        let mut piece = String::new();
                        push_char(&mut piece, txt[a + col]);
                        let p = Styled { text: piece, color: colors[col] };
                        proof {
                            assert(p.text@ =~= seq![line[col as int]]);
                            lemma_pieces_view_push(out@, p);
                            assert(before + Seq::new((col + 1) as nat, |j: int| (seq![line[j]], cs[j]))
                                =~= (before + Seq::new(col as nat, |j: int| (seq![line[j]], cs[j]))).push(
                                styled_view(p),
                            ));
                        }
                        out.push(p);
                        col = col + 1;
                    }
                    let mut nl = String::new();
                    push_char(&mut nl, '\n');
                    let p = Styled { text: nl, color: Color::Reset };
                    proof {
                        assert(p.text@ =~= seq!['\n']);
                        lemma_pieces_view_push(out@, p);
                        let sub = ls.subrange(0, i + 1);
                        assert(sub.drop_last() =~= ls.subrange(0, i as int));
                        assert(sub.last() == line);
                        assert(line.len() == w);
                        assert(column_pieces(line, cs) =~= Seq::new(
                            w as nat,
                            |j: int| (seq![line[j]], cs[j]),
                        ).push(styled_view(p)));
                        assert(pieces_view(out@.push(p)) =~= vertical_paint(sub, cs));
                    }
                    out.push(p);
                    i = i + 1;
                }
                proof {
                    assert(ls.subrange(0, i as int) =~= ls);
                    assert(rectangular(ls, ascii_art@.width as int));
                }
                Ok(out)
            },
        }
    }
}

} // verus!
