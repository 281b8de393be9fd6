//! Descriptive tags of an audio file.

use vstd::prelude::*;

verus! {

/// Tags read from an audio file.
#[derive(Debug, Clone)]
pub struct AudioMetadata {
    /// Track title.
    pub title: Option<String>,
    /// Artist name.
    pub artist: Option<String>,
    /// Album name.
    pub album: Option<String>,
    /// Track number.
    pub track: Option<u32>,
    /// Year of release.
    pub year: Option<u32>,
    /// Genre.
    pub genre: Option<String>,
    /// Free comment.
    pub comment: Option<String>,
}

} // verus!
