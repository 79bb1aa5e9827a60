//! Which request paths name static assets.

use crate::text::{chars_of, lemma_split_nonempty, spells, split_chars, split_on, views};
use vstd::prelude::*;

verus! {

/// Whether `e` is one of the file extensions treated as a static asset.
/// The comparison is exact: upper-case spellings are not assets.
pub open spec fn is_asset_extension(e: Seq<char>) -> bool {
    e == "css"@ || e == "js"@ || e == "mjs"@ || e == "map"@ || e == "png"@ || e == "jpg"@
        || e == "jpeg"@ || e == "gif"@ || e == "webp"@ || e == "svg"@ || e == "ico"@ || e
        == "ttf"@ || e == "otf"@ || e == "woff"@ || e == "woff2"@ || e == "mp4"@ || e == "webm"@
        || e == "mp3"@
}

/// The extension of a path: the text after its last `.`, and nothing where
/// it holds no `.`.
pub open spec fn extension_text(p: Seq<char>) -> Seq<char> {
    if split_on(p, '.').len() == 1 {
        Seq::<char>::empty()
    } else {
        split_on(p, '.').last()
    }
}

fn asset_extension(e: &[char]) -> (b: bool)
    ensures
        b == is_asset_extension(e@),
{
    spells(e, "css") || spells(e, "js") || spells(e, "mjs") || spells(e, "map") || spells(
        e,
        "png",
    ) || spells(e, "jpg") || spells(e, "jpeg") || spells(e, "gif") || spells(e, "webp")
        || spells(e, "svg") || spells(e, "ico") || spells(e, "ttf") || spells(e, "otf") || spells(
        e,
        "woff",
    ) || spells(e, "woff2") || spells(e, "mp4") || spells(e, "webm") || spells(e, "mp3")
}

/// Whether a request path names a static asset, judged by its extension. A
/// path without a `.` has no extension and names none.
pub fn is_asset_path(p: &str) -> (b: bool)
    ensures
        b == is_asset_extension(extension_text(p@)),
{
    let chars = chars_of(p);
    let parts = split_chars(chars.as_slice(), '.');
    proof {
        lemma_split_nonempty(p@, '.');
    }
    if parts.len() == 1 {
        let none: Vec<char> = Vec::new();
        assert(views(parts@).len() == 1);
        assert(none@ =~= extension_text(p@));
        return asset_extension(none.as_slice());
    }
    let last = &parts[parts.len() - 1];
    asset_extension(last.as_slice())
}

} // verus!
