//! One parsed directory entry: a file or a directory.

use crate::size::Size;
use crate::timestamp::Timestamp;
use vstd::prelude::*;

verus! {

/// A directory entry produced by the listing parser.  `path` is the
/// request path joined with `name`; `size` is present exactly for files.
#[derive(Debug, Clone)]
pub struct Segment {
    pub name: String,
    pub path: String,
    pub size: Option<Size>,
    pub volume_id: String,
    pub uploaded_at: Timestamp,
    pub is_file: bool,
    pub is_dir: bool,
}

/// The mathematical shape of a `Segment`.
pub ghost struct SegView {
    pub name: Seq<char>,
    pub path: Seq<char>,
    pub size: Option<Size>,
    pub volume_id: Seq<char>,
    pub uploaded_at: Timestamp,
    pub is_file: bool,
    pub is_dir: bool,
}

impl View for Segment {
    type V = SegView;

    open spec fn view(&self) -> SegView {
        SegView {
            name: self.name@,
            path: self.path@,
            size: self.size,
            volume_id: self.volume_id@,
            uploaded_at: self.uploaded_at,
            is_file: self.is_file,
            is_dir: self.is_dir,
        }
    }
}

impl Segment {
    /// A file entry: it carries a size.
    pub fn from_file(
        name: String,
        path: String,
        size: Size,
        volume_id: String,
        uploaded_at: Timestamp,
    ) -> (r: Segment)
        ensures
            r@ == (SegView {
                name: name@,
                path: path@,
                size: Some(size),
                volume_id: volume_id@,
                uploaded_at,
                is_file: true,
                is_dir: false,
            }),
    {
        Segment { name, path, size: Some(size), volume_id, uploaded_at, is_file: true, is_dir: false }
    }

    /// A directory entry: it has no size.
    pub fn from_dir(name: String, path: String, volume_id: String, uploaded_at: Timestamp) -> (r:
        Segment)
        ensures
            r@ == (SegView {
                name: name@,
                path: path@,
                size: None,
                volume_id: volume_id@,
                uploaded_at,
                is_file: false,
                is_dir: true,
            }),
    {
        Segment { name, path, size: None, volume_id, uploaded_at, is_file: false, is_dir: true }
    }
}

} // verus!
