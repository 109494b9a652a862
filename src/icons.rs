//! Whether an icon file is usable: its bytes must parse as the image kind its
//! extension names, and the first usable one of a list of candidates wins.
use vstd::prelude::*;

use crate::apps::{extension_of, has_extension};

verus! {

/// The bytes decode as a PNG image.
pub uninterp spec fn png_valid(b: Seq<u8>) -> bool;

/// The bytes parse as an SVG document.
pub uninterp spec fn svg_valid(b: Seq<u8>) -> bool;

/// Relies on `image::load_from_memory_with_format` with `ImageFormat::Png`,
/// whose outcome depends on the bytes alone.
#[verifier::external_body]
fn decodes_as_png(b: &[u8]) -> (r: bool)
    ensures
        r == png_valid(b@),
{
    image::load_from_memory_with_format(b, image::ImageFormat::Png).is_ok()
}

/// Relies on `usvg::Tree::from_data` with default options, whose outcome
/// depends on the bytes alone (a referenced file that cannot be loaded is
/// skipped, not an error).
#[verifier::external_body]
fn parses_as_svg(b: &[u8]) -> (r: bool)
    ensures
        r == svg_valid(b@),
{
    usvg::Tree::from_data(b, &usvg::Options::default()).is_ok()
}

/// An icon file at `path` with contents `b` is usable: not empty, and a
/// `png` that decodes or an `svg` that parses. No dependency of this library
/// reads `xpm`, so an `xpm` file (or one of any other kind) is never usable.
pub open spec fn icon_valid(path: Seq<char>, b: Seq<u8>) -> bool {
    b.len() > 0 && (if extension_of(path) == Some("png"@) {
        png_valid(b)
    } else if extension_of(path) == Some("svg"@) {
        svg_valid(b)
    } else {
        false
    })
}

/// Whether the icon file at `path`, holding `b`, is usable.
pub fn valid_icon(path: &str, b: &[u8]) -> (r: bool)
    ensures
        r == icon_valid(path@, b@),
{
    if b.len() == 0 {
        false
    } else if has_extension(path, "png") {
        decodes_as_png(b)
    } else if has_extension(path, "svg") {
        parses_as_svg(b)
    } else {
        false
    }
}

/// A candidate with contents (`None`: the file is missing) is usable.
pub open spec fn candidate_valid(c: (String, Option<Vec<u8>>)) -> bool {
    match c.1 {
        Some(b) => icon_valid(c.0@, b@),
        None => false,
    }
}

/// The first usable icon among `candidates` (each path with the file's
/// contents, `None` when it is missing), in order; `None` when none is usable.
pub fn pick_valid_icon(candidates: &Vec<(String, Option<Vec<u8>>)>) -> (r: Option<String>)
    ensures
        r is None <==> forall|k: int| 0 <= k < candidates@.len() ==> !candidate_valid(#[trigger] candidates@[k]),
        r matches Some(p) ==> exists|k: int|
            0 <= k < candidates@.len() && candidate_valid(#[trigger] candidates@[k]) && p@ == candidates@[k].0@
                && forall|j: int| 0 <= j < k ==> !candidate_valid(#[trigger] candidates@[j]),
{
    let mut i: usize = 0;
    while i < candidates.len()
        invariant
            i <= candidates@.len(),
            forall|j: int| 0 <= j < i ==> !candidate_valid(#[trigger] candidates@[j]),
        decreases candidates@.len() - i,
    {
        let c = &candidates[i];
        let ok = match &c.1 {
            Some(b) => valid_icon(c.0.as_str(), b.as_slice()),
            None => false,
        };
        if ok {
            let p = c.0.clone();
            assert(candidate_valid(candidates@[i as int]));
            return Some(p);
        }
        i = i + 1;
    }
    None
}

} // verus!
