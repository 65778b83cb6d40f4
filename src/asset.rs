use vstd::prelude::*;

use crate::color::Color;
use crate::template::{compile_template, compiled_segments, segments_view, template_valid};
use crate::text::{line_spans, lines, to_chars};

verus! {

/// What can go wrong with compiled assets and their configuration.
#[derive(Clone, Copy, Debug, PartialEq, Eq, Structural)]
pub enum AssetError {
    /// No icon or colour scheme has the requested name.
    NotFound,
    /// An archive failed structural validation.
    ArchiveCorrupt,
    /// A colour scheme was chosen but no orientation was configured.
    MissingOrientation,
    /// An asset breaks a rule of its kind (a bad marker, a colour index out
    /// of range, art that is not rectangular where it must be).
    InvalidAsset,
}

/// An icon as written by hand: aliases, palette, declared width, and a
/// template with `${c<N>}` colour markers.
pub struct IconSource {
    pub name: Vec<String>,
    pub colors: Vec<Color>,
    pub width: u16,
    pub art: String,
}

/// A compiled icon: lower-cased aliases, palette, width of its left column,
/// number of template lines, and `(palette index, text)` segments with
/// 1-based indices.
pub struct AsciiArt {
    pub name: Vec<String>,
    pub colors: Vec<Color>,
    pub width: u16,
    pub height: u16,
    pub art: Vec<(u8, String)>,
}

/// The mathematical value of a compiled icon.
pub struct AsciiArtView {
    pub name: Seq<Seq<char>>,
    pub colors: Seq<Color>,
    pub width: u16,
    pub height: u16,
    pub art: Seq<(u8, Seq<char>)>,
}

/// The views of a list of strings.
pub open spec fn strings_view(v: Seq<String>) -> Seq<Seq<char>> {
    v.map_values(|s: String| s@)
}

impl View for AsciiArt {
    type V = AsciiArtView;

    open spec fn view(&self) -> AsciiArtView {
        AsciiArtView {
            name: strings_view(self.name@),
            colors: self.colors@,
            width: self.width,
            height: self.height,
            art: segments_view(self.art@),
        }
    }
}

/// Every segment names a colour of the palette, counting from 1.
pub open spec fn indices_in_range(art: Seq<(u8, Seq<char>)>, n: int) -> bool {
    forall|k: int| 0 <= k < art.len() ==> 1 <= (#[trigger] art[k]).0 && art[k].0 <= n
}

impl AsciiArtView {
    /// The well-formedness of a compiled icon.
    pub open spec fn wf(self) -> bool {
        indices_in_range(self.art, self.colors.len() as int)
    }
}

/// The lower-case form of a string, as `str::to_lowercase` gives it.
pub uninterp spec fn lower_of(s: Seq<char>) -> Seq<char>;

/// Relies on `str::to_lowercase`: the result depends on the characters alone.
#[verifier::external_body]
pub(crate) fn lowercase(s: &str) -> (r: String)
    ensures
        r@ == lower_of(s@),
{
    s.to_lowercase()
}

/// The lower-cased aliases.
pub open spec fn lowered(names: Seq<Seq<char>>) -> Seq<Seq<char>> {
    names.map_values(|s: Seq<char>| lower_of(s))
}

/// The value that compiling `src` yields, when it succeeds.
pub open spec fn compiled_view(src: &IconSource) -> AsciiArtView {
    AsciiArtView {
        name: lowered(strings_view(src.name@)),
        colors: src.colors@,
        width: src.width,
        height: (lines(src.art@).len() % 0x10000) as u16,
        art: compiled_segments(src.art@),
    }
}

/// Compiling `src` succeeds: every marker is valid and names a palette colour.
pub open spec fn compiles(src: &IconSource) -> bool {
    template_valid(src.art@) && indices_in_range(
        compiled_segments(src.art@),
        src.colors@.len() as int,
    )
}

pub(crate) proof fn lemma_strings_view_push(v: Seq<String>, s: String)
    ensures
        strings_view(v.push(s)) == strings_view(v).push(s@),
{
    assert(strings_view(v.push(s)) =~= strings_view(v).push(s@));
}

pub(crate) proof fn lemma_segments_view_push(v: Seq<(u8, String)>, s: (u8, String))
    ensures
        segments_view(v.push(s)) == segments_view(v).push((s.0, s.1@)),
{
    assert(segments_view(v.push(s)) =~= segments_view(v).push((s.0, s.1@)));
}

proof fn lemma_lowered_push(v: Seq<Seq<char>>, s: Seq<char>)
    ensures
        lowered(v.push(s)) == lowered(v).push(lower_of(s)),
{
    assert(lowered(v.push(s)) =~= lowered(v).push(lower_of(s)));
}

/// A copy of a colour list.
pub fn copy_colors(v: &Vec<Color>) -> (r: Vec<Color>)
    ensures
        r@ == v@,
{
    let mut out: Vec<Color> = Vec::new();
    let mut k: usize = 0;
    while k < v.len()
        invariant
            k <= v@.len(),
            out@ == v@.subrange(0, k as int),
        decreases v@.len() - k,
    {
        out.push(v[k]);
        k = k + 1;
        proof {
            assert(out@ =~= v@.subrange(0, k as int));
        }
    }
    proof {
        assert(v@.subrange(0, k as int) =~= v@);
    }
    out
}

/// A copy of a list of strings.
pub fn copy_strings(v: &Vec<String>) -> (r: Vec<String>)
    ensures
        strings_view(r@) == strings_view(v@),
{
    let mut out: Vec<String> = Vec::new();
    let mut k: usize = 0;
    while k < v.len()
        invariant
            k <= v@.len(),
            strings_view(out@) == strings_view(v@.subrange(0, k as int)),
        decreases v@.len() - k,
    {
        let s = v[k].clone();
        proof {
            lemma_strings_view_push(out@, s);
            lemma_strings_view_push(v@.subrange(0, k as int), v@[k as int]);
            assert(v@.subrange(0, k + 1) =~= v@.subrange(0, k as int).push(v@[k as int]));
        }
        out.push(s);
        k = k + 1;
    }
    proof {
        assert(v@.subrange(0, k as int) =~= v@);
    }
    out
}

/// A copy of a segment list.
pub fn copy_segments(v: &Vec<(u8, String)>) -> (r: Vec<(u8, String)>)
    ensures
        segments_view(r@) == segments_view(v@),
{
    let mut out: Vec<(u8, String)> = Vec::new();
    let mut k: usize = 0;
    while k < v.len()
        invariant
            k <= v@.len(),
            segments_view(out@) == segments_view(v@.subrange(0, k as int)),
        decreases v@.len() - k,
    {
        let seg = (v[k].0, v[k].1.clone());
        proof {
            lemma_segments_view_push(out@, seg);
            lemma_segments_view_push(v@.subrange(0, k as int), v@[k as int]);
            assert(v@.subrange(0, k + 1) =~= v@.subrange(0, k as int).push(v@[k as int]));
        }
        out.push(seg);
        k = k + 1;
    }
    proof {
        assert(v@.subrange(0, k as int) =~= v@);
    }
    out
}

impl AsciiArt {
    /// Whether every segment names a palette colour, counting from 1.
    pub fn is_well_formed(&self) -> (r: bool)
        ensures
            r == self@.wf(),
    {
        let n = self.colors.len();
        let mut k: usize = 0;
        while k < self.art.len()
            invariant
                k <= self.art@.len(),
                n == self.colors@.len(),
                forall|j: int| 0 <= j < k ==> 1 <= (#[trigger] self.art@[j]).0 && self.art@[j].0 <= n,
            decreases self.art@.len() - k,
        {
            let idx = self.art[k].0;
            if idx == 0 || idx as usize > n {
                proof {
                    assert(self@.art[k as int].0 == idx);
                }
                return false;
            }
            k = k + 1;
        }
        proof {
            assert forall|j: int| 0 <= j < self@.art.len() implies 1 <= (#[trigger] self@.art[j]).0
                && self@.art[j].0 <= self@.colors.len() by {
                assert(self@.art[j].0 == self.art@[j].0);
            }
        }
        true
    }

    /// A copy of this icon.
    pub fn duplicate(&self) -> (r: AsciiArt)
        ensures
            r@ == self@,
    {
        AsciiArt {
            name: copy_strings(&self.name),
            colors: copy_colors(&self.colors),
            width: self.width,
            height: self.height,
            art: copy_segments(&self.art),
        }
    }

    /// Compiles a hand-written icon: lower-cases its aliases, counts the
    /// template's lines and splits the template into segments. Fails with
    /// `InvalidAsset` when a marker is malformed or names no palette colour.
    pub fn compile(src: &IconSource) -> (r: Result<AsciiArt, AssetError>)
        ensures
            r.is_ok() == compiles(src),
            r.is_ok() ==> r.unwrap()@ == compiled_view(src) && r.unwrap()@.wf(),
            r.is_err() ==> r == Err::<AsciiArt, AssetError>(AssetError::InvalidAsset),
    {
        let segments = match compile_template(src.art.as_str()) {
            Some(v) => v,
            None => {
                return Err(AssetError::InvalidAsset);
            },
        };
        let n = src.colors.len();
        let mut k: usize = 0;
        while k < segments.len()
            invariant
                k <= segments@.len(),
                n == src.colors@.len(),
                segments_view(segments@) == compiled_segments(src.art@),
                indices_in_range(segments_view(segments@).subrange(0, k as int), n as int),
            decreases segments@.len() - k,
        {
            let idx = segments[k].0;
            if idx == 0 || idx as usize > n {
                proof {
                    assert(segments_view(segments@)[k as int].0 == idx);
                }
                return Err(AssetError::InvalidAsset);
            }
            k = k + 1;
            proof {
                let sv = segments_view(segments@);
                assert forall|j: int| 0 <= j < k implies 1 <= (#[trigger] sv.subrange(
                    0,
                    k as int,
                )[j]).0 && sv.subrange(0, k as int)[j].0 <= n by {
                    if j < k - 1 {
                        assert(sv.subrange(0, k - 1)[j] == sv.subrange(0, k as int)[j]);
                    }
                }
            }
        }
        proof {
            assert(segments_view(segments@).subrange(0, k as int) =~= segments_view(segments@));
        }
        let mut names: Vec<String> = Vec::new();
        let mut j: usize = 0;
        while j < src.name.len()
            invariant
                j <= src.name@.len(),
                strings_view(names@) == lowered(strings_view(src.name@.subrange(0, j as int))),
            decreases src.name@.len() - j,
        {
            let l = lowercase(src.name[j].as_str());
            proof {
                lemma_strings_view_push(names@, l);
                lemma_strings_view_push(src.name@.subrange(0, j as int), src.name@[j as int]);
                lemma_lowered_push(strings_view(src.name@.subrange(0, j as int)), src.name@[j as int]@);
                assert(src.name@.subrange(0, j + 1) =~= src.name@.subrange(0, j as int).push(
                    src.name@[j as int],
                ));
            }
            names.push(l);
            j = j + 1;
        }
        proof {
            assert(src.name@.subrange(0, j as int) =~= src.name@);
        }
        let chars = to_chars(src.art.as_str());
        let spans = line_spans(&chars);
        let height = (spans.len() % 0x10000) as u16;
        Ok(AsciiArt { name: names, colors: copy_colors(&src.colors), width: src.width, height, art: segments })
    }
}

/// Compiles every icon of a list, in order; fails with `InvalidAsset` as
/// soon as one does not compile.
pub fn process_ascii_art(data: &Vec<IconSource>) -> (r: Result<Vec<AsciiArt>, AssetError>)
    ensures
        r.is_ok() == (forall|k: int| 0 <= k < data@.len() ==> compiles(&#[trigger] data@[k])),
        r.is_ok() ==> r.unwrap()@.len() == data@.len() && (forall|k: int|
            0 <= k < data@.len() ==> (#[trigger] r.unwrap()@[k])@ == compiled_view(&data@[k])),
        r.is_err() ==> r == Err::<Vec<AsciiArt>, AssetError>(AssetError::InvalidAsset),
{
    let mut out: Vec<AsciiArt> = Vec::new();
    let mut k: usize = 0;
    while k < data.len()
        invariant
            k <= data@.len(),
            out@.len() == k,
            forall|j: int| 0 <= j < k ==> compiles(&#[trigger] data@[j]),
            forall|j: int| 0 <= j < k ==> (#[trigger] out@[j])@ == compiled_view(&data@[j]),
        decreases data@.len() - k,
    {
        match AsciiArt::compile(&data[k]) {
            Ok(a) => {
                out.push(a);
            },
            Err(e) => {
                return Err(e);
            },
        }
        k = k + 1;
    }
    Ok(out)
}

/// Index of the first icon that has `key` among its aliases.
pub open spec fn first_icon_with(icons: Seq<AsciiArtView>, key: Seq<char>) -> Option<int> {
    if exists|k: int| 0 <= k < icons.len() && (#[trigger] icons[k]).name.contains(key) {
        Some(
            choose|k: int|
                0 <= k < icons.len() && (#[trigger] icons[k]).name.contains(key) && forall|j: int|
                    0 <= j < k ==> !(#[trigger] icons[j]).name.contains(key),
        )
    } else {
        None
    }
}

/// The views of a list of icons.
pub open spec fn icons_view(icons: Seq<AsciiArt>) -> Seq<AsciiArtView> {
    icons.map_values(|a: AsciiArt| a@)
}

/// Whether `names` holds `key`.
fn contains_name(names: &Vec<String>, key: &String) -> (r: bool)
    ensures
        r == strings_view(names@).contains(key@),
{
    let mut k: usize = 0;
    while k < names.len()
        invariant
            k <= names@.len(),
            forall|j: int| 0 <= j < k ==> names@[j]@ != key@,
        decreases names@.len() - k,
    {
        if names[k] == *key {
            proof {
                assert(strings_view(names@)[k as int] == key@);
            }
            return true;
        }
        k = k + 1;
    }
    proof {
        if strings_view(names@).contains(key@) {
            let j = choose|j: int| 0 <= j < names@.len() && strings_view(names@)[j] == key@;
            assert(names@[j]@ == key@);
        }
    }
    false
}

/// The first icon with the alias `key`, compared exactly; `NotFound` if none has it.
pub fn find_icon(icons: &Vec<AsciiArt>, key: &String) -> (r: Result<AsciiArt, AssetError>)
    ensures
        match first_icon_with(icons_view(icons@), key@) {
            Some(k) => r.is_ok() && r.unwrap()@ == icons@[k]@,
            None => r == Err::<AsciiArt, AssetError>(AssetError::NotFound),
        },
{
    let mut k: usize = 0;
    while k < icons.len()
        invariant
            k <= icons@.len(),
            forall|j: int| 0 <= j < k ==> !(#[trigger] icons@[j])@.name.contains(key@),
        decreases icons@.len() - k,
    {
        if contains_name(&icons[k].name, key) {
            proof {
                let iv = icons_view(icons@);
                assert(iv[k as int].name.contains(key@));
                assert forall|j: int| 0 <= j < k implies !(#[trigger] iv[j]).name.contains(key@) by {
                    assert(iv[j] == icons@[j]@);
                }
                let f = first_icon_with(iv, key@).unwrap();
                if f < k {
                    assert(iv[f] == icons@[f]@);
                } else if f > k {
                }
                assert(f == k);
            }
            return Ok(icons[k].duplicate());
        }
        k = k + 1;
    }
    proof {
        let iv = icons_view(icons@);
        assert forall|j: int| 0 <= j < iv.len() implies !(#[trigger] iv[j]).name.contains(key@) by {
            assert(iv[j] == icons@[j]@);
        }
    }
    Err(AssetError::NotFound)
}

/// The icon named `icon_name`, compared without regard to case.
pub open spec fn icon_lookup(icons: Seq<AsciiArtView>, icon_name: Seq<char>) -> Option<int> {
    first_icon_with(icons, lower_of(icon_name))
}

/// Looks an icon up by name without regard to case: the name is lower-cased
/// as the aliases were when the icon was compiled.
pub fn get_icon(icons: &Vec<AsciiArt>, icon_name: &str) -> (r: Result<AsciiArt, AssetError>)
    ensures
        match icon_lookup(icons_view(icons@), icon_name@) {
            Some(k) => r.is_ok() && r.unwrap()@ == icons@[k]@,
            None => r == Err::<AsciiArt, AssetError>(AssetError::NotFound),
        },
{
    let key = lowercase(icon_name);
    find_icon(icons, &key)
}

/// Names that lower-case alike find the same icon.
pub proof fn lemma_lookup_ignores_case(icons: Seq<AsciiArtView>, a: Seq<char>, b: Seq<char>)
    requires
        lower_of(a) == lower_of(b),
    ensures
        icon_lookup(icons, a) == icon_lookup(icons, b),
{
}

} // verus!
