use vstd::prelude::*;

use crate::asset::{lower_of, lowercase, AssetError};
use crate::color::Color;

verus! {

/// A named colour scheme as stored: its name and its RGB triples, in stripe
/// order. Names are not required to be unique: a lookup takes the first
/// scheme whose name matches, so an earlier entry shadows a later one.
pub type SchemeEntry = (String, Vec<(u8, u8, u8)>);

/// The RGB colours of a list of triples, in order.
pub open spec fn rgb_colors(t: Seq<(u8, u8, u8)>) -> Seq<Color> {
    t.map_values(|c: (u8, u8, u8)| Color::Rgb { r: c.0, g: c.1, b: c.2 })
}

/// Index of the first scheme whose name lower-cases to `key`.
pub open spec fn first_scheme_with(schemes: Seq<SchemeEntry>, key: Seq<char>) -> Option<int> {
    if exists|k: int| 0 <= k < schemes.len() && lower_of((#[trigger] schemes[k]).0@) == key {
        Some(
            choose|k: int|
                0 <= k < schemes.len() && lower_of((#[trigger] schemes[k]).0@) == key && forall|
                    j: int,
                | 0 <= j < k ==> lower_of((#[trigger] schemes[j]).0@) != key,
        )
    } else {
        None
    }
}

/// The scheme named `name`, compared without regard to case.
pub open spec fn scheme_lookup(schemes: Seq<SchemeEntry>, name: Seq<char>) -> Option<int> {
    first_scheme_with(schemes, lower_of(name))
}

/// Turns RGB triples into colours.
pub fn to_rgb(t: &Vec<(u8, u8, u8)>) -> (r: Vec<Color>)
    ensures
        r@ == rgb_colors(t@),
{
    let mut out: Vec<Color> = Vec::new();
    let mut k: usize = 0;
    while k < t.len()
        invariant
            k <= t@.len(),
            out@ == rgb_colors(t@).subrange(0, k as int),
        decreases t@.len() - k,
    {
        let (r, g, b) = t[k];
        out.push(Color::Rgb { r, g, b });
        k = k + 1;
        proof {
            assert(out@ =~= rgb_colors(t@).subrange(0, k as int));
        }
    }
    proof {
        assert(rgb_colors(t@).subrange(0, k as int) =~= rgb_colors(t@));
    }
    out
}

/// The first scheme whose name lower-cases to `key`; `NotFound` if none does.
pub fn find_colorscheme(schemes: &Vec<SchemeEntry>, key: &String) -> (r: Result<Vec<Color>, AssetError>)
    ensures
        match first_scheme_with(schemes@, key@) {
            Some(k) => r.is_ok() && r.unwrap()@ == rgb_colors(schemes@[k].1@),
            None => r == Err::<Vec<Color>, AssetError>(AssetError::NotFound),
        },
{
    let mut k: usize = 0;
    while k < schemes.len()
        invariant
            k <= schemes@.len(),
            forall|j: int| 0 <= j < k ==> lower_of((#[trigger] schemes@[j]).0@) != key@,
        decreases schemes@.len() - k,
    {
        let l = lowercase(schemes[k].0.as_str());
        if l == *key {
            proof {
                let f = first_scheme_with(schemes@, key@).unwrap();
                assert(lower_of(schemes@[k as int].0@) == key@);
                if f < k {
                    assert(lower_of(schemes@[f].0@) != key@);
                }
                assert(f == k);
            }
            return Ok(to_rgb(&schemes[k].1));
        }
        k = k + 1;
    }
    Err(AssetError::NotFound)
}

/// Looks a colour scheme up by name without regard to case, as RGB colours.
/// When several names match, the first in the list wins.
pub fn get_colorscheme(schemes: &Vec<SchemeEntry>, scheme_name: &str) -> (r: Result<
    Vec<Color>,
    AssetError,
>)
    ensures
        match scheme_lookup(schemes@, scheme_name@) {
            Some(k) => r.is_ok() && r.unwrap()@ == rgb_colors(schemes@[k].1@),
            None => r == Err::<Vec<Color>, AssetError>(AssetError::NotFound),
        },
{
    let key = lowercase(scheme_name);
    find_colorscheme(schemes, &key)
}

} // verus!
