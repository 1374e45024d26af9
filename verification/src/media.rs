//! The two kinds of media that are counted, told by a file's extension.

use crate::extension::{matches_any, names_of, FileExtension};
use vstd::prelude::*;

verus! {

/// The extensions of a video.
pub open spec fn video_extensions() -> Seq<&'static str> {
    seq!["mp4"]
}

/// The extensions of an image.
pub open spec fn image_extensions() -> Seq<&'static str> {
    seq!["png", "jpg", "jpeg", "gif", "bmp", "webp"]
}

/// Whether a file of this name is a video.
pub open spec fn is_video(name: Seq<u8>) -> bool {
    matches_any(name, names_of(video_extensions()))
}

/// Whether a file of this name is an image.
pub open spec fn is_image(name: Seq<u8>) -> bool {
    matches_any(name, names_of(image_extensions()))
}

/// Tells whether a file of this name is a video.
pub fn has_video_extension(name: &[u8]) -> (video: bool)
    ensures
        video == is_video(name@),
{
    let extensions: [&str; 1] = ["mp4"];
    assert(extensions@ =~= video_extensions());
    name.has_extension(&extensions)
}

/// Tells whether a file of this name is an image.
pub fn has_image_extension(name: &[u8]) -> (image: bool)
    ensures
        image == is_image(name@),
{
    let extensions: [&str; 6] = ["png", "jpg", "jpeg", "gif", "bmp", "webp"];
    assert(extensions@ =~= image_extensions());
    name.has_extension(&extensions)
}

} // verus!
