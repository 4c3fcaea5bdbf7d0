//! Downloading and unpacking release archives: the local name chosen for a
//! downloaded file, and the effect of unpacking an archive on the modeled
//! tree.

use vstd::prelude::*;

use crate::fs_model::{ensure_dir_model, Fs, FsError, FsModel};

verus! {

/// Why a download failed.
#[derive(Debug, Clone, Copy, PartialEq, Eq, Structural)]
pub enum DownloadErrorKind {
    NoDownloadUrl,
    RequestError,
    NoDestination,
    CannotExtract,
}

/// An error which occurred while downloading a runtime archive.
#[derive(Debug, Clone, Copy, PartialEq, Eq, Structural)]
pub struct DownloadError(pub DownloadErrorKind);

impl DownloadError {
    /// A human-readable description of the error.
    pub fn message(&self) -> (r: &'static str)
        ensures
            match self.0 {
                DownloadErrorKind::NoDownloadUrl => r@ == "No download URL"@,
                DownloadErrorKind::RequestError => r@ == "Error while making the request"@,
                DownloadErrorKind::NoDestination => r@ == "No destination for download"@,
                DownloadErrorKind::CannotExtract => r@ == "Cannot extract archive"@,
            },
    {
        match self.0 {
            DownloadErrorKind::NoDownloadUrl => "No download URL",
            DownloadErrorKind::RequestError => "Error while making the request",
            DownloadErrorKind::NoDestination => "No destination for download",
            DownloadErrorKind::CannotExtract => "Cannot extract archive",
        }
    }
}

/// The observable content of a downloaded archive: the names of its
/// top-level entries, in archive order.
pub struct NodeArchive {
    pub entries: Vec<String>,
}

/// The characters of `s` after its last slash; the whole string when it
/// has none.
pub open spec fn last_segment(s: Seq<char>) -> Seq<char>
    decreases s.len(),
{
    if s.len() == 0 {
        s
    } else if s.last() == '/' {
        Seq::empty()
    } else {
        last_segment(s.drop_last()).push(s.last())
    }
}

/// The file name for a download: the final path segment of the URL, or a
/// fixed default name when that segment is empty.
pub open spec fn spec_download_file_name(url: Seq<char>) -> Seq<char> {
    if last_segment(url).len() == 0 {
        "nen-node-download.tar.gz"@
    } else {
        last_segment(url)
    }
}

/// When nothing from position `j` on is a slash, the last segment is the
/// last segment of the prefix extended by the rest.
proof fn lemma_last_segment_split(s: Seq<char>, j: int)
    requires
        0 <= j <= s.len(),
        forall|k: int| j <= k < s.len() ==> s[k] != '/',
    ensures
        last_segment(s) =~= last_segment(s.take(j)) + s.skip(j),
    decreases s.len() - j,
{
    if j == s.len() {
        assert(s.take(j) =~= s);
        assert(last_segment(s) =~= last_segment(s) + s.skip(j));
    } else {
        assert(s.last() != '/');
        lemma_last_segment_split(s.drop_last(), j);
        assert(s.drop_last().take(j) =~= s.take(j));
        assert(last_segment(s) =~= (last_segment(s.take(j)) + s.drop_last().skip(j)).push(
            s.last(),
        ));
        assert((last_segment(s.take(j)) + s.drop_last().skip(j)).push(s.last()) =~= last_segment(
            s.take(j),
        ) + s.skip(j));
    }
}

/// Effect of unpacking the archive's top-level entries under `dir`, in
/// order, stopping at the first refused creation.
pub open spec fn extract_entries_model(m: FsModel, entries: Seq<Seq<char>>, dir: Seq<char>) -> (
    FsModel,
    Result<(), FsError>,
)
    decreases entries.len(),
{
    if entries.len() == 0 {
        (m, Ok(()))
    } else {
        let (m1, r1) = extract_entries_model(m, entries.drop_last(), dir);
        if r1 is Err {
            (m1, r1)
        } else {
            ensure_dir_model(m1, dir + seq!['/'] + entries.last())
        }
    }
}

/// Effect of unpacking an archive into `dir`: the directory itself and
/// each top-level entry come to exist.
pub open spec fn extract_model(m: FsModel, entries: Seq<Seq<char>>, dir: Seq<char>) -> (
    FsModel,
    Result<(), FsError>,
) {
    let (m1, r1) = ensure_dir_model(m, dir);
    if r1 is Err {
        (m1, r1)
    } else {
        extract_entries_model(m1, entries, dir)
    }
}

/// A failure while unpacking entries is final: the remaining entries
/// change nothing.
proof fn lemma_extract_entries_fail_extends(
    m: FsModel,
    entries: Seq<Seq<char>>,
    dir: Seq<char>,
    i: int,
)
    requires
        0 <= i <= entries.len(),
        extract_entries_model(m, entries.take(i), dir).1 is Err,
    ensures
        extract_entries_model(m, entries, dir) == extract_entries_model(m, entries.take(i), dir),
    decreases entries.len() - i,
{
    if i == entries.len() {
        assert(entries.take(i) =~= entries);
    } else {
        assert(entries.take(i + 1).drop_last() =~= entries.take(i));
        lemma_extract_entries_fail_extends(m, entries, dir, i + 1);
    }
}

/// Directories already present stay present through an unpacking, and
/// links and refused paths are untouched.
pub proof fn lemma_extract_entries_grow(m: FsModel, entries: Seq<Seq<char>>, dir: Seq<char>)
    ensures
        ({
            let (m1, r) = extract_entries_model(m, entries, dir);
            &&& forall|p: Seq<char>| m.dirs.contains(p) ==> #[trigger] m1.dirs.contains(p)
            &&& m1.links == m.links
            &&& m1.denied == m.denied
        }),
    decreases entries.len(),
{
    if entries.len() > 0 {
        lemma_extract_entries_grow(m, entries.drop_last(), dir);
        let (m1, r1) = extract_entries_model(m, entries.drop_last(), dir);
        if r1 is Ok {
            let (m2, r2) = ensure_dir_model(m1, dir + seq!['/'] + entries.last());
            assert forall|p: Seq<char>| m.dirs.contains(p) implies #[trigger] m2.dirs.contains(
                p,
            ) by {
                assert(m1.dirs.contains(p));
                if m2.dirs != m1.dirs {
                    assert(m2.dirs == m1.dirs.push(dir + seq!['/'] + entries.last()));
                    let q = choose|q: int| 0 <= q < m1.dirs.len() && m1.dirs[q] == p;
                    assert(m2.dirs[q] == p);
                }
            }
        }
    }
}

/// Downloads and unpacks release archives.
pub struct NodeDownloader {}

impl NodeDownloader {
    /// The local file name for a downloaded URL: its final path segment,
    /// or a fixed default name when that segment is empty.
    pub fn download_file_name(url: &str) -> (r: String)
        ensures
            r@ == spec_download_file_name(url@),
    {
        let len = url.unicode_len();
        let mut j: usize = len;
        while j > 0 && url.get_char(j - 1) != '/'
            invariant
                0 <= j <= len,
                len == url@.len(),
                forall|k: int| j <= k < len ==> url@[k] != '/',
            decreases j,
        {
            j = j - 1;
        }
        proof {
            lemma_last_segment_split(url@, j as int);
            if j == 0 {
                assert(url@.take(0) =~= Seq::<char>::empty());
                assert(last_segment(Seq::<char>::empty()) =~= Seq::<char>::empty());
                assert(last_segment(url@) =~= url@.skip(0));
            } else {
                assert(url@.take(j as int).last() == url@[j - 1]);
                assert(last_segment(url@.take(j as int)) =~= Seq::<char>::empty());
                assert(last_segment(url@) =~= url@.skip(j as int));
            }
        }
        if j == len {
            let name = "nen-node-download.tar.gz".to_owned();
            assert(last_segment(url@).len() == 0);
            name
        } else {
            let segment = url.substring_char(j, len);
            proof {
                assert(segment@ =~= url@.skip(j as int));
            }
            segment.to_owned()
        }
    }

    /// Unpack an archive into `path`: the directory itself and each of the
    /// archive's top-level entries come to exist; a refused creation stops
    /// the unpacking where it stands.
    pub fn extract(fs: &mut Fs, archive: &NodeArchive, path: &String) -> (r: Result<(), FsError>)
        ensures
            (final(fs)@, r) == extract_model(old(fs)@, archive.entries.deep_view(), path@),
    {
        let ghost entries = archive.entries.deep_view();
        match fs.ensure_dir(path) {
            Err(e) => {
                return Err(e);
            },
            Ok(()) => {},
        }
        let ghost root = fs@;
        let mut i: usize = 0;
        proof {
            assert(entries.take(0) =~= Seq::<Seq<char>>::empty());
        }
        while i < archive.entries.len()
            invariant
                0 <= i <= entries.len(),
                entries == archive.entries.deep_view(),
                (root, Ok::<(), FsError>(())) == ensure_dir_model(old(fs)@, path@),
                (fs@, Ok::<(), FsError>(())) == extract_entries_model(
                    root,
                    entries.take(i as int),
                    path@,
                ),
            decreases entries.len() - i,
        {
            let mut child = path.clone();
            child.append("/");
            child.append(archive.entries[i].as_str());
            proof {
                reveal_strlit("/");
                assert("/"@ =~= seq!['/']);
                assert(archive.entries@[i as int]@ == entries[i as int]);
                assert(child@ == path@ + seq!['/'] + entries[i as int]);
                assert(entries.take(i + 1).drop_last() =~= entries.take(i as int));
                assert(entries.take(i + 1).last() == entries[i as int]);
            }
            match fs.ensure_dir(&child) {
                Err(e) => {
                    proof {
                        lemma_extract_entries_fail_extends(root, entries, path@, i + 1);
                    }
                    return Err(e);
                },
                Ok(()) => {},
            }
            i = i + 1;
        }
        proof {
            assert(entries.take(entries.len() as int) =~= entries);
        }
        Ok(())
    }
}

} // verus!
