//! Which loader an image popup's file goes through.
use vstd::prelude::*;

verus! {

/// Where the segment of `p[..end]` after its last `/` starts.
pub open spec fn segment_start(p: Seq<char>, end: int) -> int
    decreases end,
{
    if end <= 0 {
        0
    } else if p[end - 1] == '/' {
        end
    } else {
        segment_start(p, end - 1)
    }
}

/// A segment starts within the text before it.
pub proof fn lemma_segment_start_bounds(p: Seq<char>, end: int)
    ensures
        0 <= segment_start(p, end),
        end >= 0 ==> segment_start(p, end) <= end,
    decreases end,
{
    if end > 0 {
        lemma_segment_start_bounds(p, end - 1);
    }
}

/// The file name of `p[..end]` on Unix, as `Path::file_name` gives it: the
/// last segment between `/` separators that is neither empty nor `.`; none
/// when there is no such segment or it is `..`.
pub open spec fn file_name_before(p: Seq<char>, end: int) -> Option<Seq<char>>
    decreases end,
{
    if end <= 0 {
        None
    } else {
        proof {
            lemma_segment_start_bounds(p, end);
        }
        let start = segment_start(p, end);
        let seg = p.subrange(start, end);
        if seg.len() == 0 || seg == seq!['.'] {
            if start <= 0 {
                None
            } else {
                file_name_before(p, start - 1)
            }
        } else if seg == seq!['.', '.'] {
            None
        } else {
            Some(seg)
        }
    }
}

/// The position of the last `.` of `name[..end]`, or -1 when it has none.
pub open spec fn last_dot(name: Seq<char>, end: int) -> int
    decreases end,
{
    if end <= 0 {
        -1
    } else if name[end - 1] == '.' {
        end - 1
    } else {
        last_dot(name, end - 1)
    }
}

/// The extension of a path, as `std::path::Path::extension` gives it on
/// Unix: the part of the file name after its last `.`; none when the name
/// has no `.` or its only `.` leads.
pub open spec fn path_extension(path: Seq<char>) -> Option<Seq<char>> {
    match file_name_before(path, path.len() as int) {
        None => None,
        Some(name) => {
            let k = last_dot(name, name.len() as int);
            if k <= 0 {
                None
            } else {
                Some(name.subrange(k + 1, name.len() as int))
            }
        },
    }
}

/// Calls `std::path::Path::extension` on `uri`; the contract claims that the
/// result is `path_extension` of that text: the file name is the last
/// component that `Path::components` yields as a normal one, and the
/// extension what follows its last `.` unless that `.` leads the name (the
/// extension of a path made from a `&str` is valid UTF-8, so the conversion
/// back to a `String` loses nothing).
#[verifier::external_body]
fn extension_of(uri: &str) -> (res: Option<String>)
    ensures
        match res {
            Some(e) => path_extension(uri@) == Some(e@),
            None => path_extension(uri@) is None,
        },
{
    std::path::Path::new(uri).extension().map(|e| e.to_string_lossy().into_owned())
}

/// How an image popup's file is loaded.
#[derive(Clone, Copy, Debug, PartialEq, Eq, Structural)]
pub enum AssetLoadKind {
    /// Decoded frame by frame as an animation.
    Animated,
    /// Loaded as a still image.
    Static,
}

/// `gif` and `webp` files are animations, everything else a still image.
pub open spec fn spec_load_kind(ext: Option<Seq<char>>) -> AssetLoadKind {
    match ext {
        Some(e) => if e == "gif"@ || e == "webp"@ {
            AssetLoadKind::Animated
        } else {
            AssetLoadKind::Static
        },
        None => AssetLoadKind::Static,
    }
}

/// The loader for a file with extension `ext` (`None` when it has none).
pub fn load_kind_of_extension(ext: Option<&str>) -> (res: AssetLoadKind)
    ensures
        res == spec_load_kind(
            match ext {
                Some(e) => Some(e@),
                None => None,
            },
        ),
{
    match ext {
        Some(e) => {
            let e = e.to_owned();
            let gif = "gif".to_owned();
            let webp = "webp".to_owned();
            if e == gif || e == webp {
                AssetLoadKind::Animated
            } else {
                AssetLoadKind::Static
            }
        },
        None => AssetLoadKind::Static,
    }
}

/// Decides by the extension of `uri` how its file is loaded.
pub fn asset_load_kind(uri: &str) -> (res: AssetLoadKind)
    ensures
        res == spec_load_kind(path_extension(uri@)),
{
    match extension_of(uri) {
        Some(ext) => load_kind_of_extension(Some(ext.as_str())),
        None => load_kind_of_extension(None),
    }
}

} // verus!
