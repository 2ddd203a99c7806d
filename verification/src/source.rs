//! The source resolver: parses the recipe's `src` string into a typed source
//! specification.
//!
//! Parsing is total.  A string beginning with `git://` is a version-control
//! reference, split once on `#branch=` into URL and branch; a string beginning
//! with `git+` is the same after the prefix is stripped; anything else is an
//! archive URL.  There is no "invalid source" error — malformed URLs surface
//! only when the external tool later invoked on them fails.

use vstd::prelude::*;

verus! {

use vstd::string::StrSliceExecFns;
use crate::text::{starts_with, find, str_starts_with, str_find, lemma_find_at_bounds};

/// A parsed source specification: a version-control checkout or an archive
/// download.
#[derive(Debug, Clone, PartialEq, Eq)]
pub enum Source {
    VersionControl { url: String, branch: Option<String> },
    Archive { url: String },
}

/// The mathematical image of a [`Source`].
pub enum SourceView {
    VersionControl { url: Seq<char>, branch: Option<Seq<char>> },
    Archive { url: Seq<char> },
}

impl View for Source {
    type V = SourceView;

    open spec fn view(&self) -> SourceView {
        match self {
            Source::VersionControl { url, branch } => SourceView::VersionControl {
                url: url@,
                branch: branch.deep_view(),
            },
            Source::Archive { url } => SourceView::Archive { url: url@ },
        }
    }
}

/// Splits a reference once on the branch marker: the part before the first
/// `#branch=` is the URL, the part after it (if the marker occurs) the branch.
pub open spec fn split_branch(s: Seq<char>) -> (Seq<char>, Option<Seq<char>>) {
    match find(s, "#branch="@) {
        Some(i) => (s.subrange(0, i), Some(s.subrange(i + "#branch="@.len(), s.len() as int))),
        None => (s, None),
    }
}

/// What `resolve` returns on each input: `git://...` and `git+...` are
/// version-control references (the latter with the prefix stripped), anything
/// else an archive URL.
pub open spec fn resolve_spec(s: Seq<char>) -> SourceView {
    if starts_with(s, "git://"@) {
        let (url, branch) = split_branch(s);
        SourceView::VersionControl { url, branch }
    } else if starts_with(s, "git+"@) {
        let (url, branch) = split_branch(s.subrange("git+"@.len() as int, s.len() as int));
        SourceView::VersionControl { url, branch }
    } else {
        SourceView::Archive { url: s }
    }
}

/// Splits on the first `#branch=` marker, as [`split_branch`] describes.
fn split_branch_exec(s: &str) -> (r: (String, Option<String>))
    ensures
        (r.0@, r.1.deep_view()) == split_branch(s@),
{
    proof {
        reveal_strlit("#branch=");
    }
    let n: usize = s.unicode_len();
    match str_find(s, "#branch=") {
        Some(i) => {
            proof {
                lemma_find_at_bounds(s@, "#branch="@, 0);
            }
            let url = s.substring_char(0, i).to_owned();
            let branch = s.substring_char(i + 8, n).to_owned();
            (url, Some(branch))
        },
        None => (s.to_owned(), None),
    }
}

/// Parses a raw `src` string into a [`Source`].  Total: every string resolves,
/// exactly as [`resolve_spec`] says.
pub fn resolve(src: &str) -> (r: Source)
    ensures
        r@ == resolve_spec(src@),
{
    proof {
        reveal_strlit("git://");
        reveal_strlit("git+");
    }
    if str_starts_with(src, "git://") {
        let (url, branch) = split_branch_exec(src);
        Source::VersionControl { url, branch }
    } else if str_starts_with(src, "git+") {
        let n: usize = src.unicode_len();
        let rest = src.substring_char(4, n);
        let (url, branch) = split_branch_exec(rest);
        Source::VersionControl { url, branch }
    } else {
        Source::Archive { url: src.to_owned() }
    }
}

} // verus!
