//! The mount table: file systems by the text of the path they are mounted
//! at, found again by the longest mount path that begins a path.

use vstd::prelude::*;
use crate::vfs::FsError;
use crate::vfs::path::{parsed_path, path_text, Path};

verus! {

/// A file system and the path it is mounted at.
pub struct MountPoint<F> {
    pub path: Path,
    pub fs: F,
}

/// Whether `k` begins `t`.
pub open spec fn begins(k: Seq<char>, t: Seq<char>) -> bool {
    k.len() <= t.len() && t.subrange(0, k.len() as int) == k
}

/// The text a path is written as.
pub open spec fn text_of(p: Path) -> Seq<char> {
    path_text(p@.0, p@.1)
}

/// What follows mount path `k` in the path text `t`, as a path: the root
/// when nothing follows.
pub open spec fn relative_to(t: Seq<char>, k: Seq<char>) -> (Seq<Seq<char>>, bool) {
    if t.len() > k.len() {
        parsed_path(t.subrange(k.len() as int, t.len() as int))
    } else {
        parsed_path(seq!['/'])
    }
}

/// File systems by mount path, each path at most once.
pub struct MountTable<F> {
    mounts: Vec<(String, F)>,
}

impl<F> MountTable<F> {
    /// The mount paths in the table, in the order they were mounted.
    pub closed spec fn keys(&self) -> Seq<Seq<char>> {
        self.mounts@.map_values(|e: (String, F)| e.0@)
    }

    /// The file systems, in the same order.
    pub closed spec fn systems(&self) -> Seq<F> {
        self.mounts@.map_values(|e: (String, F)| e.1)
    }

    /// No path is mounted twice.
    pub open spec fn wf(&self) -> bool {
        &&& self.keys().len() == self.systems().len()
        &&& forall|i: int, j: int| 0 <= i < j < self.keys().len() ==> self.keys()[i] != self.keys()[j]
    }

    /// Index `i` holds the longest mount path that begins `t`.
    pub open spec fn best_for(&self, t: Seq<char>, i: int) -> bool {
        &&& 0 <= i < self.keys().len()
        &&& begins(self.keys()[i], t)
        &&& forall|j: int| 0 <= j < self.keys().len() && begins(#[trigger] self.keys()[j], t) ==> self.keys()[j].len() <= self.keys()[i].len()
    }

    /// Some mount path begins `t`.
    pub open spec fn covers(&self, t: Seq<char>) -> bool {
        exists|j: int| 0 <= j < self.keys().len() && begins(#[trigger] self.keys()[j], t)
    }

    /// An empty table.
    pub fn new() -> (r: Self)
        ensures
            r.wf(),
            r.keys().len() == 0,
    {
        let r = MountTable { mounts: Vec::new() };
        assert(r.keys() =~= Seq::<Seq<char>>::empty());
        assert(r.systems() =~= Seq::<F>::empty());
        r
    }

    /// The index of mount path `key`, if it is mounted.
    fn index_of(&self, key: &String) -> (r: Option<usize>)
        ensures
            r matches Some(i) ==> i < self.keys().len() && self.keys()[i as int] == key@,
            r is None ==> forall|j: int| 0 <= j < self.keys().len() ==> self.keys()[j] != key@,
    {
        let mut i: usize = 0;
        while i < self.mounts.len()
            invariant
                i <= self.mounts@.len(),
                forall|j: int| 0 <= j < i ==> self.keys()[j] != key@,
            decreases self.mounts@.len() - i,
        {
            if self.mounts[i].0 == *key {
                return Some(i);
            }
            i = i + 1;
        }
        None
    }

    /// Mount `fs` at `path`; a path already mounted is refused with
    /// `MountFailed`.
    pub fn mount(&mut self, fs: F, path: Path) -> (r: Result<(), FsError>)
        requires
            old(self).wf(),
        ensures
            final(self).wf(),
            r is Err <==> old(self).keys().contains(text_of(path)),
            r matches Err(e) ==> e == FsError::MountFailed,
            r is Err ==> final(self).keys() == old(self).keys() && final(self).systems() == old(self).systems(),
            r is Ok ==> final(self).keys() == old(self).keys().push(text_of(path))
                && final(self).systems() == old(self).systems().push(fs),
    {
        let key = path.to_string();
        match self.index_of(&key) {
            Some(i) => {
                assert(old(self).keys()[i as int] == text_of(path));
                Err(FsError::MountFailed)
            },
            None => {
                let ghost k0 = self.keys();
                let ghost s0 = self.systems();
                let ghost kv = key@;
                self.mounts.push((key, fs));
                assert(self.keys() =~= k0.push(kv));
                assert(self.systems() =~= s0.push(fs));
                Ok(())
            },
        }
    }

    /// Unmount the file system at `path`; a path not mounted is `NotFound`.
    pub fn unmount(&mut self, path: &Path) -> (r: Result<(), FsError>)
        requires
            old(self).wf(),
        ensures
            final(self).wf(),
            r is Err <==> !old(self).keys().contains(text_of(*path)),
            r matches Err(e) ==> e == FsError::NotFound,
            r is Err ==> final(self).keys() == old(self).keys(),
            r is Ok ==> exists|i: int| 0 <= i < old(self).keys().len() && old(self).keys()[i] == text_of(*path)
                && final(self).keys() == old(self).keys().remove(i) && final(self).systems() == old(self).systems().remove(i),
    {
        let key = path.to_string();
        match self.index_of(&key) {
            Some(i) => {
                let ghost k0 = self.keys();
                let ghost s0 = self.systems();
                self.mounts.remove(i);
                assert(self.keys() =~= k0.remove(i as int));
                assert(self.systems() =~= s0.remove(i as int));
                assert forall|a: int, b: int| 0 <= a < b < self.keys().len() implies self.keys()[a] != self.keys()[b] by {
                    let a0 = if a < i { a } else { a + 1 };
                    let b0 = if b < i { b } else { b + 1 };
                    assert(self.keys()[a] == k0[a0] && self.keys()[b] == k0[b0]);
                }
                Ok(())
            },
            None => {
                assert(!old(self).keys().contains(key@));
                Err(FsError::NotFound)
            },
        }
    }

    /// The index of the longest mount path that begins `t`.
    fn best_index(&self, t: &str) -> (r: Option<usize>)
        requires
            self.wf(),
        ensures
            r is None <==> !self.covers(t@),
            r matches Some(i) ==> self.best_for(t@, i as int),
    {
        let mut best: Option<usize> = None;
        let mut best_len: usize = 0;
        let mut i: usize = 0;
        while i < self.mounts.len()
            invariant
                i <= self.mounts@.len(),
                self.wf(),
                best is None ==> best_len == 0 && forall|j: int| 0 <= j < i ==> !begins(#[trigger] self.keys()[j], t@),
                best matches Some(b) ==> b < i && begins(self.keys()[b as int], t@) && best_len == self.keys()[b as int].len()
                    && forall|j: int| 0 <= j < i && begins(#[trigger] self.keys()[j], t@) ==> self.keys()[j].len() <= best_len,
            decreases self.mounts@.len() - i,
        {
            let k = self.mounts[i].0.as_str();
            assert(k@ == self.keys()[i as int]);
            let kl = k.unicode_len();
            if begins_with(t, k) && kl >= best_len {
                best = Some(i);
                best_len = kl;
            }
            i = i + 1;
        }
        best
    }

    /// The file system mounted at the longest mount path that begins the
    /// text of `path`; `NotFound` when none does.
    pub fn find_mount(&self, path: &Path) -> (r: Result<&F, FsError>)
        requires
            self.wf(),
        ensures
            r is Err <==> !self.covers(text_of(*path)),
            r matches Err(e) ==> e == FsError::NotFound,
            r matches Ok(fs) ==> exists|i: int| #[trigger] self.best_for(text_of(*path), i) && *fs == self.systems()[i],
    {
        let t = path.to_string();
        match self.best_index(t.as_str()) {
            Some(i) => {
                assert(self.systems()[i as int] == self.mounts@[i as int].1);
                Ok(&self.mounts[i].1)
            },
            None => Err(FsError::NotFound),
        }
    }

    /// The file system that handles `path` and the path within it: what
    /// follows the longest mount path that begins the text of `path`, or
    /// the root when nothing follows; `NotFound` when no mount path begins
    /// it.
    pub fn resolve(&self, path: &Path) -> (r: Result<(&F, Path), FsError>)
        requires
            self.wf(),
        ensures
            r is Err <==> !self.covers(text_of(*path)),
            r matches Err(e) ==> e == FsError::NotFound,
            r matches Ok((fs, rel)) ==> exists|i: int| {
                &&& #[trigger] self.best_for(text_of(*path), i)
                &&& *fs == self.systems()[i]
                &&& rel@ == relative_to(text_of(*path), self.keys()[i])
            },
    {
        let t = path.to_string();
        match self.best_index(t.as_str()) {
            Some(i) => {
                let k = self.mounts[i].0.as_str();
                assert(k@ == self.keys()[i as int]);
                let kl = k.unicode_len();
                let tl = t.as_str().unicode_len();
                let rel = if tl > kl {
                    let rest = t.as_str().substring_char(kl, tl);
                    match Path::new(rest) {
                        Ok(p) => p,
                        Err(e) => return Err(e),
                    }
                } else {
                    proof {
                        reveal_strlit("/");
                    }
                    assert("/"@ =~= seq!['/']);
                    match Path::new("/") {
                        Ok(p) => p,
                        Err(e) => return Err(e),
                    }
                };
                assert(self.systems()[i as int] == self.mounts@[i as int].1);
                assert(rel@ == relative_to(text_of(*path), self.keys()[i as int]));
                assert(self.best_for(text_of(*path), i as int));
                Ok((&self.mounts[i].1, rel))
            },
            None => Err(FsError::NotFound),
        }
    }
}

/// The file system mounted at a path is the one found for that path: its
/// mount path is the longest that begins it, and no other is.
pub proof fn lemma_mounted_path_finds_itself<F>(t: MountTable<F>, i: int)
    requires
        t.wf(),
        0 <= i < t.keys().len(),
    ensures
        t.best_for(t.keys()[i], i),
        forall|j: int| #[trigger] t.best_for(t.keys()[i], j) ==> j == i,
{
    let k = t.keys()[i];
    assert(k.subrange(0, k.len() as int) =~= k);
    assert forall|j: int| #[trigger] t.best_for(k, j) implies j == i by {
        assert(t.keys()[j].len() == k.len());
        assert(t.keys()[j] =~= k.subrange(0, t.keys()[j].len() as int));
        if j != i {
            if j < i {
                assert(t.keys()[j] != t.keys()[i]);
            } else {
                assert(t.keys()[i] != t.keys()[j]);
            }
        }
    }
}

/// Whether `prefix` begins `s`.
pub fn begins_with(s: &str, prefix: &str) -> (r: bool)
    ensures
        r == begins(prefix@, s@),
{
    let n = prefix.unicode_len();
    if n > s.unicode_len() {
        return false;
    }
    let mut i: usize = 0;
    while i < n
        invariant
            i <= n,
            n == prefix@.len(),
            n <= s@.len(),
            forall|j: int| 0 <= j < i ==> s@[j] == prefix@[j],
        decreases n - i,
    {
        if s.get_char(i) != prefix.get_char(i) {
            assert(s@.subrange(0, n as int)[i as int] != prefix@[i as int]);
            return false;
        }
        i = i + 1;
    }
    assert(s@.subrange(0, n as int) =~= prefix@);
    true
}

} // verus!
