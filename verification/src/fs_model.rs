//! An explicit model of the directory tree the provisioning pipeline works
//! on: which directories exist, which symbolic links exist and where they
//! point, and which paths refuse creation.
//!
//! The verified lifecycle functions operate on this state; the unverified
//! shell mirrors each step with the corresponding real filesystem call.
//! Paths are plain `/`-separated absolute strings.

use vstd::prelude::*;

verus! {

/// An error from a modeled filesystem operation.
#[derive(Debug, Clone, Copy, PartialEq, Eq, Structural)]
pub enum FsError {
    /// The path already names a directory or link.
    AlreadyExists,
    /// The path refuses creation (for example, for lack of permission).
    PermissionDenied,
}

/// Spec-level state of the modeled tree.
#[verifier::ext_equal]
pub struct FsModel {
    /// Existing directories, in creation order.
    pub dirs: Seq<Seq<char>>,
    /// Symbolic links: link path to target path.
    pub links: Map<Seq<char>, Seq<char>>,
    /// Paths on which creation fails.
    pub denied: Set<Seq<char>>,
}

/// The links named by a list of (link, target) pairs; later pairs win.
pub open spec fn links_of(pairs: Seq<(String, String)>) -> Map<Seq<char>, Seq<char>>
    decreases pairs.len(),
{
    if pairs.len() == 0 {
        Map::empty()
    } else {
        links_of(pairs.drop_last()).insert(pairs.last().0@, pairs.last().1@)
    }
}

/// A key is in the map exactly when some pair carries it.
proof fn lemma_links_of_domain(pairs: Seq<(String, String)>)
    ensures
        forall|k: Seq<char>|
            #[trigger] links_of(pairs).contains_key(k) <==> exists|i: int|
                0 <= i < pairs.len() && (#[trigger] pairs[i]).0@ == k,
    decreases pairs.len(),
{
    if pairs.len() == 0 {
        assert forall|k: Seq<char>| !(#[trigger] links_of(pairs).contains_key(k)) by {
            assert(!Map::<Seq<char>, Seq<char>>::empty().dom().contains(k));
        }
    } else {
        let rest = pairs.drop_last();
        lemma_links_of_domain(rest);
        assert forall|k: Seq<char>| #[trigger] links_of(pairs).contains_key(k) implies exists|
            i: int,
        | 0 <= i < pairs.len() && (#[trigger] pairs[i]).0@ == k by {
            if pairs.last().0@ == k {
                assert((pairs[pairs.len() - 1]).0@ == k);
            } else {
                assert(links_of(rest).contains_key(k));
                let i = choose|i: int| 0 <= i < rest.len() && (#[trigger] rest[i]).0@ == k;
                assert(pairs[i] == rest[i]);
                assert((pairs[i]).0@ == k);
            }
        }
        assert forall|k: Seq<char>|
            (exists|i: int|
                0 <= i < pairs.len() && (#[trigger] pairs[i]).0@ == k) implies #[trigger] links_of(
            pairs,
        ).contains_key(k) by {
            let i = choose|i: int| 0 <= i < pairs.len() && (#[trigger] pairs[i]).0@ == k;
            if i < pairs.len() - 1 {
                assert(rest[i] == pairs[i]);
                assert((rest[i]).0@ == k);
                assert(links_of(rest).contains_key(k));
            } else {
                assert(pairs.last().0@ == k);
            }
        }
    }
}

/// The path names an existing directory or link.
pub open spec fn fs_entry_exists(m: FsModel, path: Seq<char>) -> bool {
    m.dirs.contains(path) || m.links.contains_key(path)
}

/// Effect of one strict directory creation.
pub open spec fn create_dir_model(m: FsModel, path: Seq<char>) -> (FsModel, Result<(), FsError>) {
    if fs_entry_exists(m, path) {
        (m, Err(FsError::AlreadyExists))
    } else if m.denied.contains(path) {
        (m, Err(FsError::PermissionDenied))
    } else {
        (FsModel { dirs: m.dirs.push(path), ..m }, Ok(()))
    }
}

/// Effect of one create-if-missing directory creation: a pre-existing
/// entry is success.
pub open spec fn ensure_dir_model(m: FsModel, path: Seq<char>) -> (FsModel, Result<(), FsError>) {
    let (m1, r) = create_dir_model(m, path);
    match r {
        Err(FsError::AlreadyExists) => (m1, Ok(())),
        _ => (m1, r),
    }
}

/// Effect of one symbolic-link creation; fails on an existing entry.
pub open spec fn symlink_model(m: FsModel, target: Seq<char>, link: Seq<char>) -> (
    FsModel,
    Result<(), FsError>,
) {
    if fs_entry_exists(m, link) {
        (m, Err(FsError::AlreadyExists))
    } else if m.denied.contains(link) {
        (m, Err(FsError::PermissionDenied))
    } else {
        (FsModel { links: m.links.insert(link, target), ..m }, Ok(()))
    }
}

/// `path` is a direct child of `dir`: `dir` plus a slash plus a nonempty
/// name without further slashes.
pub open spec fn is_direct_child(path: Seq<char>, dir: Seq<char>) -> bool {
    &&& path.len() > dir.len() + 1
    &&& path.take(dir.len() as int) == dir
    &&& path[dir.len() as int] == '/'
    &&& forall|i: int| dir.len() + 1 <= i < path.len() ==> path[i] != '/'
}

/// The first directory, in creation order, that is a direct child of
/// `dir`.
pub open spec fn spec_first_child(dirs: Seq<Seq<char>>, dir: Seq<char>) -> Option<Seq<char>>
    decreases dirs.len(),
{
    if dirs.len() == 0 {
        None
    } else if is_direct_child(dirs.first(), dir) {
        Some(dirs.first())
    } else {
        spec_first_child(dirs.drop_first(), dir)
    }
}

/// A found first child is an existing directory and a direct child.
pub proof fn lemma_first_child_sound(dirs: Seq<Seq<char>>, dir: Seq<char>)
    ensures
        match spec_first_child(dirs, dir) {
            Some(c) => dirs.contains(c) && is_direct_child(c, dir),
            None => true,
        },
    decreases dirs.len(),
{
    if dirs.len() > 0 {
        if is_direct_child(dirs.first(), dir) {
            assert(dirs[0] == dirs.first());
        } else {
            lemma_first_child_sound(dirs.drop_first(), dir);
            match spec_first_child(dirs.drop_first(), dir) {
                Some(c) => {
                    let i = choose|i: int|
                        0 <= i < dirs.drop_first().len() && dirs.drop_first()[i] == c;
                    assert(dirs[i + 1] == c);
                },
                None => {},
            }
        }
    }
}

/// The modeled directory tree.
pub struct Fs {
    dirs: Vec<String>,
    links: Vec<(String, String)>,
    denied: Vec<String>,
}

impl View for Fs {
    type V = FsModel;

    closed spec fn view(&self) -> FsModel {
        FsModel {
            dirs: self.dirs.deep_view(),
            links: links_of(self.links@),
            denied: self.denied.deep_view().to_set(),
        }
    }
}

impl Fs {
    /// An empty tree: nothing exists, everything may be created.
    pub fn new() -> (fs: Fs)
        ensures
            fs@.dirs == Seq::<Seq<char>>::empty(),
            fs@.links == Map::<Seq<char>, Seq<char>>::empty(),
            fs@.denied == Set::<Seq<char>>::empty(),
    {
        let fs = Fs { dirs: Vec::new(), links: Vec::new(), denied: Vec::new() };
        proof {
            assert(fs@.dirs =~= Seq::<Seq<char>>::empty());
            assert(fs@.denied =~= Set::<Seq<char>>::empty());
        }
        fs
    }

    /// Refuse future creation at `path`, modeling an unwritable location.
    pub fn mark_unwritable(&mut self, path: String)
        ensures
            final(self)@ == (FsModel { denied: old(self)@.denied.insert(path@), ..old(self)@ }),
    {
        let ghost before = self.denied.deep_view();
        self.denied.push(path);
        proof {
            assert(self.denied.deep_view() =~= before + seq![path@]);
            Seq::<Seq<char>>::lemma_to_set_insert_commutes(before, path@);
            assert(self@ =~= (FsModel { denied: old(self)@.denied.insert(path@), ..old(self)@ }));
        }
    }

    /// The path names an existing directory.
    pub fn dir_exists(&self, path: &String) -> (r: bool)
        ensures
            r == self@.dirs.contains(path@),
    {
        let mut i: usize = 0;
        while i < self.dirs.len()
            invariant
                0 <= i <= self.dirs@.len(),
                forall|j: int| 0 <= j < i ==> (#[trigger] self.dirs@[j])@ != path@,
            decreases self.dirs@.len() - i,
        {
            if self.dirs[i] == *path {
                assert(self@.dirs[i as int] == path@);
                return true;
            }
            i = i + 1;
        }
        assert forall|j: int| 0 <= j < self@.dirs.len() implies #[trigger] self@.dirs[j]
            != path@ by {
            assert(self@.dirs[j] == (self.dirs@[j])@);
        }
        false
    }

    /// The path names an existing link.
    fn link_exists(&self, path: &String) -> (r: bool)
        ensures
            r == self@.links.contains_key(path@),
    {
        proof {
            lemma_links_of_domain(self.links@);
        }
        let mut i: usize = 0;
        while i < self.links.len()
            invariant
                0 <= i <= self.links@.len(),
                forall|j: int| 0 <= j < i ==> (#[trigger] self.links@[j]).0@ != path@,
            decreases self.links@.len() - i,
        {
            let pair = &self.links[i];
            if pair.0 == *path {
                proof {
                    lemma_links_of_domain(self.links@);
                    assert((self.links@[i as int]).0@ == path@);
                }
                return true;
            }
            i = i + 1;
        }
        proof {
            lemma_links_of_domain(self.links@);
        }
        false
    }

    /// The path names an existing directory or link.
    pub fn entry_exists(&self, path: &String) -> (r: bool)
        ensures
            r == fs_entry_exists(self@, path@),
    {
        self.dir_exists(path) || self.link_exists(path)
    }

    /// Creation at the path is refused.
    fn is_denied(&self, path: &String) -> (r: bool)
        ensures
            r == self@.denied.contains(path@),
    {
        let mut i: usize = 0;
        while i < self.denied.len()
            invariant
                0 <= i <= self.denied@.len(),
                forall|j: int| 0 <= j < i ==> (#[trigger] self.denied@[j])@ != path@,
            decreases self.denied@.len() - i,
        {
            if self.denied[i] == *path {
                assert(self.denied.deep_view()[i as int] == path@);
                assert(self.denied.deep_view().contains(path@));
                return true;
            }
            i = i + 1;
        }
        assert forall|j: int| 0 <= j < self.denied.deep_view().len() implies #[trigger] self
            .denied
            .deep_view()[j] != path@ by {
            assert(self.denied.deep_view()[j] == (self.denied@[j])@);
        }
        assert(!self.denied.deep_view().contains(path@));
        false
    }

    /// Create a directory; an existing entry at the path is an error.
    pub fn create_dir(&mut self, path: &String) -> (r: Result<(), FsError>)
        ensures
            (final(self)@, r) == create_dir_model(old(self)@, path@),
    {
        if self.entry_exists(path) {
            return Err(FsError::AlreadyExists);
        }
        if self.is_denied(path) {
            return Err(FsError::PermissionDenied);
        }
        let ghost before = self@;
        self.dirs.push(path.clone());
        proof {
            assert(self.dirs.deep_view() =~= before.dirs.push(path@));
            assert(self@ =~= (FsModel { dirs: before.dirs.push(path@), ..before }));
        }
        Ok(())
    }

    /// Create a directory unless it exists; only a refused creation is an
    /// error.
    pub fn ensure_dir(&mut self, path: &String) -> (r: Result<(), FsError>)
        ensures
            (final(self)@, r) == ensure_dir_model(old(self)@, path@),
    {
        match self.create_dir(path) {
            Ok(()) => Ok(()),
            Err(FsError::AlreadyExists) => Ok(()),
            Err(e) => Err(e),
        }
    }

    /// Create a symbolic link at `link` pointing at `target`; an existing
    /// entry at `link` is an error.
    pub fn symlink_dir(&mut self, target: &String, link: &String) -> (r: Result<(), FsError>)
        ensures
            (final(self)@, r) == symlink_model(old(self)@, target@, link@),
    {
        if self.entry_exists(link) {
            return Err(FsError::AlreadyExists);
        }
        if self.is_denied(link) {
            return Err(FsError::PermissionDenied);
        }
        let ghost before = self@;
        self.links.push((link.clone(), target.clone()));
        proof {
            assert(self.links@.drop_last() =~= old(self).links@);
            assert(self@.links == before.links.insert(link@, target@));
            assert(self@ =~= (FsModel { links: before.links.insert(link@, target@), ..before }));
        }
        Ok(())
    }

    /// The target a link points at, when the link exists.
    pub fn link_target(&self, link: &String) -> (r: Option<String>)
        ensures
            match r {
                Some(t) => self@.links.contains_key(link@) && self@.links[link@] == t@,
                None => !self@.links.contains_key(link@),
            },
    {
        proof {
            lemma_links_of_domain(self.links@);
        }
        let mut i: usize = self.links.len();
        proof {
            assert(self.links@.take(self.links@.len() as int) =~= self.links@);
        }
        while i > 0
            invariant
                0 <= i <= self.links@.len(),
                links_of(self.links@.take(i as int)).contains_key(link@) == links_of(
                    self.links@,
                ).contains_key(link@),
                links_of(self.links@.take(i as int)).contains_key(link@) ==> links_of(
                    self.links@.take(i as int),
                )[link@] == links_of(self.links@)[link@],
            decreases i,
        {
            let pair = &self.links[i - 1];
            proof {
                assert(self.links@.take(i as int).drop_last() =~= self.links@.take(i - 1));
                assert(self.links@.take(i as int).last() == self.links@[i - 1]);
            }
            if pair.0 == *link {
                proof {
                    let prefix = self.links@.take(i as int);
                    assert(links_of(prefix) == links_of(self.links@.take(i - 1)).insert(
                        (self.links@[i - 1]).0@,
                        (self.links@[i - 1]).1@,
                    ));
                    assert(links_of(prefix).contains_key(link@));
                    assert(links_of(prefix)[link@] == (self.links@[i - 1]).1@);
                }
                let t = pair.1.clone();
                return Some(t);
            }
            proof {
                let prefix = self.links@.take(i as int);
                let shorter = self.links@.take(i - 1);
                assert(links_of(prefix) == links_of(shorter).insert(
                    (self.links@[i - 1]).0@,
                    (self.links@[i - 1]).1@,
                ));
                assert((self.links@[i - 1]).0@ != link@);
                assert(links_of(prefix).contains_key(link@) == links_of(shorter).contains_key(
                    link@,
                ));
                assert(links_of(shorter).contains_key(link@) ==> links_of(shorter)[link@]
                    == links_of(prefix)[link@]);
            }
            i = i - 1;
        }
        proof {
            assert(self.links@.take(0) =~= Seq::<(String, String)>::empty());
        }
        None
    }

    /// The first directory, in creation order, that is a direct child of
    /// `dir`.
    pub fn first_child(&self, dir: &String) -> (r: Option<String>)
        ensures
            match r {
                Some(name) => spec_first_child(self@.dirs, dir@) == Some(name@),
                None => spec_first_child(self@.dirs, dir@) is None,
            },
    {
        let ghost all = self.dirs.deep_view();
        let mut i: usize = 0;
        proof {
            assert(all.skip(0) =~= all);
        }
        while i < self.dirs.len()
            invariant
                0 <= i <= self.dirs@.len(),
                all == self.dirs.deep_view(),
                spec_first_child(all.skip(i as int), dir@) == spec_first_child(all, dir@),
            decreases self.dirs@.len() - i,
        {
            proof {
                assert(all.skip(i as int).drop_first() =~= all.skip(i + 1));
                assert(all.skip(i as int).first() == all[i as int]);
            }
            if is_direct_child_exec(&self.dirs[i], dir) {
                let name = self.dirs[i].clone();
                return Some(name);
            }
            i = i + 1;
        }
        proof {
            assert(all.skip(all.len() as int) =~= Seq::<Seq<char>>::empty());
        }
        None
    }
}

/// Decide `is_direct_child` on path strings.
fn is_direct_child_exec(path: &String, dir: &String) -> (r: bool)
    ensures
        r == is_direct_child(path@, dir@),
{
    let p = path.as_str();
    let d = dir.as_str();
    let plen = p.unicode_len();
    let dlen = d.unicode_len();
    if plen <= dlen {
        return false;
    }
    if plen == dlen + 1 {
        return false;
    }
    let mut i: usize = 0;
    while i < dlen
        invariant
            0 <= i <= dlen,
            dlen < plen,
            plen == p@.len(),
            dlen == d@.len(),
            p@ == path@,
            d@ == dir@,
            forall|j: int| 0 <= j < i ==> p@[j] == d@[j],
        decreases dlen - i,
    {
        if p.get_char(i) != d.get_char(i) {
            assert(p@.take(dlen as int)[i as int] != d@[i as int]);
            return false;
        }
        i = i + 1;
    }
    assert(p@.take(dlen as int) =~= d@);
    if p.get_char(dlen) != '/' {
        return false;
    }
    let mut j: usize = dlen + 1;
    while j < plen
        invariant
            dlen + 1 <= j <= plen,
            plen == p@.len(),
            dlen == d@.len(),
            p@ == path@,
            d@ == dir@,
            forall|k: int| dlen + 1 <= k < j ==> p@[k] != '/',
        decreases plen - j,
    {
        if p.get_char(j) == '/' {
            return false;
        }
        j = j + 1;
    }
    true
}

} // verus!
