//! Paths: a list of components, absolute or relative.

use vstd::prelude::*;
use crate::text::{path_components, push_char, split_path, split_prefix, strings_view};
use crate::vfs::FsError;

verus! {

/// A path split into its non-empty components.
#[derive(Debug)]
pub struct Path {
    components: Vec<String>,
    absolute: bool,
}

/// The components joined with `'/'` between them.
pub open spec fn join_components(cs: Seq<Seq<char>>) -> Seq<char>
    decreases cs.len(),
{
    if cs.len() == 0 {
        Seq::empty()
    } else if cs.len() == 1 {
        cs[0]
    } else {
        join_components(cs.drop_last()) + seq!['/'] + cs.last()
    }
}

/// The path text `s` stands for: its components, and whether it starts at
/// the root.
pub open spec fn parsed_path(s: Seq<char>) -> (Seq<Seq<char>>, bool) {
    (path_components(s), s[0] == '/')
}

/// The text of a path: its components joined with `'/'`, behind a leading
/// `'/'` when it is absolute.
pub open spec fn path_text(cs: Seq<Seq<char>>, absolute: bool) -> Seq<char> {
    if absolute {
        seq!['/'] + join_components(cs)
    } else {
        join_components(cs)
    }
}

/// Every component is non-empty and holds no `'/'`.
pub open spec fn components_ok(cs: Seq<Seq<char>>) -> bool {
    forall|i: int| 0 <= i < cs.len() ==> #[trigger] cs[i].len() > 0 && !cs[i].contains('/')
}

/// Splitting looks only at the characters it has passed.
proof fn lemma_split_prefix_local(s1: Seq<char>, s2: Seq<char>, n: nat)
    requires
        n <= s1.len(),
        n <= s2.len(),
        s1.subrange(0, n as int) == s2.subrange(0, n as int),
    ensures
        split_prefix(s1, n) == split_prefix(s2, n),
    decreases n,
{
    if n > 0 {
        assert(s1[n - 1] == s1.subrange(0, n as int)[n - 1]);
        assert(s2[n - 1] == s2.subrange(0, n as int)[n - 1]);
        assert(s1.subrange(0, n - 1) =~= s1.subrange(0, n as int).subrange(0, n - 1));
        assert(s2.subrange(0, n - 1) =~= s2.subrange(0, n as int).subrange(0, n - 1));
        lemma_split_prefix_local(s1, s2, (n - 1) as nat);
    }
}

/// Characters other than `'/'` extend the component being read.
proof fn lemma_split_plain(s: Seq<char>, t: Seq<char>)
    requires
        !t.contains('/'),
    ensures
        split_prefix(s + t, s.len() + t.len()) == (split_prefix(s, s.len()).0, split_prefix(s, s.len()).1 + t),
    decreases t.len(),
{
    if t.len() == 0 {
        assert(s + t =~= s);
        assert(split_prefix(s, s.len()).1 + t =~= split_prefix(s, s.len()).1);
    } else {
        let u = t.drop_last();
        let x = t.last();
        assert(!u.contains('/')) by {
            if u.contains('/') {
                let k = choose|k: int| 0 <= k < u.len() && u[k] == '/';
                assert(t[k] == '/');
            }
        }
        assert(x != '/') by {
            assert(t[t.len() - 1] == x);
        }
        lemma_split_plain(s, u);
        let n = s.len() + t.len();
        assert((s + t).subrange(0, n - 1) =~= (s + u).subrange(0, n - 1));
        assert((s + u).subrange(0, n - 1) =~= s + u);
        lemma_split_prefix_local(s + t, s + u, (n - 1) as nat);
        assert((s + t)[n - 1] == x);
        assert((split_prefix(s, s.len()).1 + u).push(x) =~= split_prefix(s, s.len()).1 + t);
    }
}

/// A `'/'` closes the component being read.
proof fn lemma_split_slash(s: Seq<char>)
    ensures
        split_prefix(s + seq!['/'], s.len() + 1) == (
            if split_prefix(s, s.len()).1.len() > 0 {
                split_prefix(s, s.len()).0.push(split_prefix(s, s.len()).1)
            } else {
                split_prefix(s, s.len()).0
            },
            Seq::<char>::empty(),
        ),
{
    let t = s + seq!['/'];
    assert(t.subrange(0, s.len() as int) =~= s.subrange(0, s.len() as int));
    lemma_split_prefix_local(t, s, s.len());
    assert(t[s.len() as int] == '/');
}

/// After a prefix that leaves nothing behind, the joined components split
/// back into the same components.
proof fn lemma_split_join(p: Seq<char>, cs: Seq<Seq<char>>)
    requires
        split_prefix(p, p.len()) == (Seq::<Seq<char>>::empty(), Seq::<char>::empty()),
        components_ok(cs),
        cs.len() > 0,
    ensures
        split_prefix(p + join_components(cs), p.len() + join_components(cs).len()) == (cs.drop_last(), cs.last()),
    decreases cs.len(),
{
    if cs.len() == 1 {
        assert(cs[0].len() > 0 && !cs[0].contains('/'));
        lemma_split_plain(p, cs[0]);
        assert(Seq::<char>::empty() + cs[0] =~= cs[0]);
        assert(cs.drop_last() =~= Seq::<Seq<char>>::empty());
    } else {
        let pre = cs.drop_last();
        let c = cs.last();
        assert(components_ok(pre)) by {
            assert forall|i: int| 0 <= i < pre.len() implies #[trigger] pre[i].len() > 0 && !pre[i].contains('/') by {
                assert(pre[i] == cs[i]);
            }
        }
        assert(c.len() > 0 && !c.contains('/')) by {
            assert(cs[cs.len() - 1] == c);
        }
        lemma_split_join(p, pre);
        let j = join_components(pre);
        lemma_split_slash(p + j);
        assert(pre.last().len() > 0) by {
            assert(pre[pre.len() - 1] == cs[pre.len() - 1]);
        }
        assert(pre.drop_last().push(pre.last()) =~= pre);
        lemma_split_plain(p + j + seq!['/'], c);
        assert(p + j + seq!['/'] + c =~= p + join_components(cs));
        assert(Seq::<char>::empty() + c =~= c);
    }
}

/// A joined list of at least one component starts with the first one's
/// first character.
proof fn lemma_join_first(cs: Seq<Seq<char>>)
    requires
        components_ok(cs),
        cs.len() > 0,
    ensures
        join_components(cs).len() > 0,
        join_components(cs)[0] == cs[0][0],
    decreases cs.len(),
{
    assert(cs[0].len() > 0);
    if cs.len() > 1 {
        let pre = cs.drop_last();
        assert(components_ok(pre)) by {
            assert forall|i: int| 0 <= i < pre.len() implies #[trigger] pre[i].len() > 0 && !pre[i].contains('/') by {
                assert(pre[i] == cs[i]);
            }
        }
        lemma_join_first(pre);
        assert(pre[0] == cs[0]);
    }
}

/// The components that splitting gives are non-empty and hold no `'/'`.
proof fn lemma_split_components_ok(s: Seq<char>, n: nat)
    requires
        n <= s.len(),
    ensures
        components_ok(split_prefix(s, n).0),
        !split_prefix(s, n).1.contains('/'),
    decreases n,
{
    if n > 0 {
        lemma_split_components_ok(s, (n - 1) as nat);
        let (d, c) = split_prefix(s, (n - 1) as nat);
        if s[n - 1] != '/' {
            let c2 = c.push(s[n - 1]);
            assert(!c2.contains('/')) by {
                if c2.contains('/') {
                    let k = choose|k: int| 0 <= k < c2.len() && #[trigger] c2[k] == '/';
                    if k < c.len() {
                        assert(c[k] == '/');
                    }
                }
            }
        } else if c.len() > 0 {
            let d2 = d.push(c);
            assert forall|i: int| 0 <= i < d2.len() implies #[trigger] d2[i].len() > 0 && !d2[i].contains('/') by {
                if i < d.len() {
                    assert(d2[i] == d[i]);
                }
            }
        }
    }
}

/// The components of any text are non-empty and hold no `'/'`.
pub proof fn lemma_path_components_ok(s: Seq<char>)
    ensures
        components_ok(path_components(s)),
{
    lemma_split_components_ok(s, s.len());
    let (d, c) = split_prefix(s, s.len());
    if c.len() > 0 {
        let d2 = d.push(c);
        assert forall|i: int| 0 <= i < d2.len() implies #[trigger] d2[i].len() > 0 && !d2[i].contains('/') by {
            if i < d.len() {
                assert(d2[i] == d[i]);
            }
        }
    }
}

/// Writing a path out and parsing the text gives the path back: the same
/// components, absolute exactly when it was. A relative path with no
/// component writes as the empty text, which `Path::new` refuses, and is
/// left out.
pub proof fn lemma_path_text_round_trip(cs: Seq<Seq<char>>, absolute: bool)
    requires
        components_ok(cs),
        absolute || cs.len() > 0,
    ensures
        path_text(cs, absolute).len() > 0,
        path_components(path_text(cs, absolute)) == cs,
        (path_text(cs, absolute)[0] == '/') == absolute,
{
    let t = path_text(cs, absolute);
    let p: Seq<char> = if absolute { seq!['/'] } else { Seq::empty() };
    assert(split_prefix(p, p.len()) == (Seq::<Seq<char>>::empty(), Seq::<char>::empty())) by {
        if absolute {
            assert(split_prefix(p, 0) == (Seq::<Seq<char>>::empty(), Seq::<char>::empty()));
        }
    }
    if cs.len() == 0 {
        assert(t =~= seq!['/']);
        assert(split_prefix(t, 1) == (Seq::<Seq<char>>::empty(), Seq::<char>::empty()));
        assert(path_components(t) =~= cs);
    } else {
        lemma_split_join(p, cs);
        assert(p + join_components(cs) =~= t);
        assert(cs.drop_last().push(cs.last()) =~= cs);
        assert(cs.last().len() > 0) by {
            assert(cs[cs.len() - 1] == cs.last());
        }
        lemma_join_first(cs);
        if !absolute {
            assert(t =~= join_components(cs));
            assert(!cs[0].contains('/'));
            assert(cs[0][0] != '/') by {
                if cs[0][0] == '/' {
                    assert(cs[0].contains('/'));
                }
            }
        }
    }
}

impl View for Path {
    type V = (Seq<Seq<char>>, bool);

    closed spec fn view(&self) -> (Seq<Seq<char>>, bool) {
        (strings_view(self.components@), self.absolute)
    }
}

/// Append the characters of `s` to `out`.
fn push_str_chars(out: &mut String, s: &str)
    ensures
        final(out)@ == old(out)@ + s@,
{
    let n = s.unicode_len();
    let mut i: usize = 0;
    while i < n
        invariant
            i <= n,
            n == s@.len(),
            out@ == old(out)@ + s@.subrange(0, i as int),
        decreases n - i,
    {
        let c = s.get_char(i);
        push_char(out, c);
        assert(s@.subrange(0, i + 1) =~= s@.subrange(0, i as int).push(c));
        i = i + 1;
    }
    assert(s@.subrange(0, n as int) =~= s@);
}

/// Copies of the first `k` strings of `v`.
fn copy_components(v: &Vec<String>, k: usize) -> (r: Vec<String>)
    requires
        k <= v@.len(),
    ensures
        strings_view(r@) == strings_view(v@).subrange(0, k as int),
{
    let mut comps: Vec<String> = Vec::new();
    let mut i: usize = 0;
    while i < k
        invariant
            i <= k,
            k <= v@.len(),
            strings_view(comps@) == strings_view(v@).subrange(0, i as int),
        decreases k - i,
    {
        let c = v[i].clone();
        let ghost before = strings_view(comps@);
        comps.push(c);
        assert(strings_view(comps@) =~= before.push(v@[i as int]@));
        assert(strings_view(v@).subrange(0, i + 1) =~= strings_view(v@).subrange(0, i as int).push(v@[i as int]@));
        i = i + 1;
    }
    comps
}

impl Clone for Path {
    /// The same path.
    fn clone(&self) -> (r: Self)
        ensures
            r@ == self@,
    {
        proof { use_type_invariant(self); }
        let components = copy_components(&self.components, self.components.len());
        assert(strings_view(self.components@).subrange(0, self.components@.len() as int) =~= strings_view(self.components@));
        Path { components, absolute: self.absolute }
    }
}

impl Path {
    /// Every component of a path is non-empty and holds no `'/'`.
    #[verifier::type_invariant]
    spec fn well_formed(self) -> bool {
        components_ok(strings_view(self.components@))
    }

    /// Parse `s`: absolute when it starts with `'/'`, split at `'/'` with
    /// the empty pieces dropped; the empty string is refused with
    /// `InvalidPath`.
    pub fn new(s: &str) -> (r: Result<Path, FsError>)
        ensures
            r is Err <==> s@.len() == 0,
            r matches Err(e) ==> e == FsError::InvalidPath,
            r matches Ok(p) ==> p@ == parsed_path(s@) && components_ok(p@.0),
    {
        proof {
            lemma_path_components_ok(s@);
        }
        if s.unicode_len() == 0 {
            return Err(FsError::InvalidPath);
        }
        let absolute = s.get_char(0) == '/';
        let components = split_path(s);
        Ok(Path { components, absolute })
    }

    /// The components: none is empty, none holds a `'/'`.
    pub fn components(&self) -> (r: &[String])
        ensures
            strings_view(r@) == self@.0,
            components_ok(self@.0),
    {
        proof { use_type_invariant(self); }
        self.components.as_slice()
    }

    /// Whether the path starts at the root.
    pub fn is_absolute(&self) -> (r: bool)
        ensures
            r == self@.1,
    {
        self.absolute
    }

    /// The path without its last component; `None` when it has none.
    pub fn parent(&self) -> (r: Option<Path>)
        ensures
            r is None <==> self@.0.len() == 0,
            r matches Some(p) ==> p@ == (self@.0.drop_last(), self@.1),
    {
        let n = self.components.len();
        if n == 0 {
            return None;
        }
        let comps = copy_components(&self.components, n - 1);
        assert(strings_view(self.components@).subrange(0, n - 1) =~= strings_view(self.components@).drop_last());
        proof {
            use_type_invariant(self);
            let all = strings_view(self.components@);
            let pre = strings_view(comps@);
            assert forall|i: int| 0 <= i < pre.len() implies #[trigger] pre[i].len() > 0 && !pre[i].contains('/') by {
                assert(pre[i] == all[i]);
            }
        }
        Some(Path { components: comps, absolute: self.absolute })
    }

    /// The last component; `None` when there is none.
    pub fn filename(&self) -> (r: Option<&str>)
        ensures
            r is None <==> self@.0.len() == 0,
            r matches Some(s) ==> s@ == self@.0.last(),
    {
        let n = self.components.len();
        if n == 0 {
            None
        } else {
            Some(self.components[n - 1].as_str())
        }
    }

    /// The path as text. Unless the path is relative with no component,
    /// the text is not empty and parses back to the same path.
    pub fn to_string(&self) -> (r: String)
        ensures
            r@ == path_text(self@.0, self@.1),
            self@.1 || self@.0.len() > 0 ==> r@.len() > 0 && parsed_path(r@) == self@,
    {
        proof {
            use_type_invariant(self);
            if self@.1 || self@.0.len() > 0 {
                lemma_path_text_round_trip(self@.0, self@.1);
            }
        }
        let mut out = String::new();
        if self.absolute {
            push_char(&mut out, '/');
        }
        let ghost lead = out@;
        let n = self.components.len();
        let ghost cs = strings_view(self.components@);
        let mut i: usize = 0;
        while i < n
            invariant
                i <= n,
                n == self.components@.len(),
                cs == strings_view(self.components@),
                out@ == lead + join_components(cs.subrange(0, i as int)),
            decreases n - i,
        {
            let ghost before = out@;
            if i > 0 {
                push_char(&mut out, '/');
            }
            push_str_chars(&mut out, self.components[i].as_str());
            proof {
                let pre = cs.subrange(0, i + 1);
                assert(pre.drop_last() =~= cs.subrange(0, i as int));
                if i == 0 {
                    assert(join_components(cs.subrange(0, 0)) =~= Seq::<char>::empty());
                    assert(out@ =~= lead + join_components(pre));
                } else {
                    assert(out@ =~= lead + join_components(pre));
                }
            }
            i = i + 1;
        }
        assert(cs.subrange(0, n as int) =~= cs);
        proof {
            if self.absolute {
                assert(lead =~= seq!['/']);
            } else {
                assert(lead =~= Seq::<char>::empty());
                assert(out@ =~= join_components(cs));
            }
        }
        out
    }
}

} // verus!
