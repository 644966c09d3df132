//! Which files of a repository are indexed.
use vstd::prelude::*;

use crate::text::{eq_ignore_ascii_case, lowered};

verus! {

/// Extensions of files that hold no text: images, audio and video, archives,
/// compiled code, office documents, fonts and data.
pub open spec fn binary_extensions() -> Seq<Seq<char>> {
    seq![
        "png"@, "jpg"@, "jpeg"@, "gif"@, "bmp"@, "ico"@, "svg"@, "webp"@, "tiff"@, "tif"@, "avif"@,
        "mp3"@, "mp4"@, "wav"@, "ogg"@, "flac"@, "avi"@, "mov"@, "mkv"@, "webm"@, "zip"@, "tar"@,
        "gz"@, "bz2"@, "xz"@, "7z"@, "rar"@, "zst"@, "wasm"@, "pyc"@, "pyo"@, "class"@, "o"@, "a"@,
        "so"@, "dylib"@, "dll"@, "exe"@, "pdf"@, "doc"@, "docx"@, "xls"@, "xlsx"@, "ppt"@, "pptx"@,
        "ttf"@, "otf"@, "woff"@, "woff2"@, "eot"@, "sqlite"@, "db"@, "bin"@, "dat"@,
    ]
}

/// Whether an extension, whatever its case, is one of the list.
pub open spec fn is_binary(ext: Seq<char>) -> bool {
    exists|i: int|
        0 <= i < binary_extensions().len() && lowered(#[trigger] binary_extensions()[i])
            == lowered(ext)
}

/// Whether a file of that extension holds no text. A file without one may.
pub fn is_binary_extension(extension: Option<&str>) -> (r: bool)
    ensures
        r == (extension matches Some(e) && is_binary(e@)),
{
    let ext = match extension {
        Some(e) => e,
        None => {
            return false;
        },
    };
    let known: Vec<&'static str> = vec![
        "png", "jpg", "jpeg", "gif", "bmp", "ico", "svg", "webp", "tiff", "tif", "avif", "mp3",
        "mp4", "wav", "ogg", "flac", "avi", "mov", "mkv", "webm", "zip", "tar", "gz", "bz2", "xz",
        "7z", "rar", "zst", "wasm", "pyc", "pyo", "class", "o", "a", "so", "dylib", "dll", "exe",
        "pdf", "doc", "docx", "xls", "xlsx", "ppt", "pptx", "ttf", "otf", "woff", "woff2", "eot",
        "sqlite", "db", "bin", "dat",
    ];
    let ghost list = binary_extensions();
    assert(known.deep_view() =~= list);
    let mut i: usize = 0;
    while i < known.len()
        invariant
            i <= known@.len(),
            list == binary_extensions(),
            known.deep_view() == list,
            extension == Some(ext),
            forall|j: int| 0 <= j < i ==> lowered(#[trigger] list[j]) != lowered(ext@),
        decreases known@.len() - i,
    {
        assert(list[i as int] == known@[i as int]@);
        if eq_ignore_ascii_case(known[i], ext) {
            assert(lowered(binary_extensions()[i as int]) == lowered(ext@));
            return true;
        }
        i += 1;
    }
    false
}

} // verus!
