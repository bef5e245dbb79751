//! Character-level helpers: building strings and splitting paths.

use vstd::prelude::*;

verus! {

/// Appends one character: a wrapper for `String::push`, which the standard
/// library documents as appending `c` to the end of the string.
#[verifier::external_body]
pub(crate) fn push_char(s: &mut String, c: char)
    ensures
        final(s)@ == old(s)@.push(c),
{
    s.push(c);
}

/// Splitting the first `n` characters of `s` at `'/'`: the finished
/// non-empty components, and the component still being read.
pub open spec fn split_prefix(s: Seq<char>, n: nat) -> (Seq<Seq<char>>, Seq<char>)
    decreases n,
{
    if n == 0 {
        (Seq::empty(), Seq::empty())
    } else {
        let (done, cur) = split_prefix(s, (n - 1) as nat);
        if s[n - 1] == '/' {
            if cur.len() > 0 {
                (done.push(cur), Seq::empty())
            } else {
                (done, Seq::empty())
            }
        } else {
            (done, cur.push(s[n - 1]))
        }
    }
}

/// The non-empty pieces of `s` between `'/'` separators, in order.
pub open spec fn path_components(s: Seq<char>) -> Seq<Seq<char>> {
    let (done, cur) = split_prefix(s, s.len());
    if cur.len() > 0 {
        done.push(cur)
    } else {
        done
    }
}

/// The strings of a list, by value.
pub open spec fn strings_view(v: Seq<String>) -> Seq<Seq<char>> {
    v.map_values(|s: String| s@)
}

/// Split a path at `'/'`, dropping empty pieces.
pub fn split_path(path: &str) -> (r: Vec<String>)
    ensures
        strings_view(r@) == path_components(path@),
{
    let n = path.unicode_len();
    let mut done: Vec<String> = Vec::new();
    let mut cur = String::new();
    let mut i: usize = 0;
    while i < n
        invariant
            i <= n,
            n == path@.len(),
            (strings_view(done@), cur@) == split_prefix(path@, i as nat),
        decreases n - i,
    {
        let c = path.get_char(i);
        let ghost d0 = strings_view(done@);
        if c == '/' {
            if cur.as_str().unicode_len() > 0 {
                let piece = cur;
                let ghost pv = piece@;
                cur = String::new();
                done.push(piece);
                assert(strings_view(done@) =~= d0.push(pv));
            } else {
                cur = String::new();
            }
        } else {
            push_char(&mut cur, c);
        }
        i = i + 1;
    }
    if cur.as_str().unicode_len() > 0 {
        let ghost d0 = strings_view(done@);
        let ghost cv = cur@;
        done.push(cur);
        assert(strings_view(done@) =~= d0.push(cv));
    }
    done
}

/// `s` with every run of `'/'` squeezed to a single `'/'`.
pub open spec fn squeeze_slashes(s: Seq<char>) -> Seq<char>
    decreases s.len(),
{
    if s.len() == 0 {
        s
    } else {
        let r = squeeze_slashes(s.drop_last());
        if s.last() == '/' && r.len() > 0 && r.last() == '/' {
            r
        } else {
            r.push(s.last())
        }
    }
}

/// A path in normal form: the root for the empty path, otherwise the path
/// with runs of `'/'` squeezed and a trailing `'/'` dropped unless the
/// path is just `/`.
pub open spec fn normalized_path(s: Seq<char>) -> Seq<char> {
    if s.len() == 0 {
        seq!['/']
    } else {
        let r = squeeze_slashes(s);
        if r.len() > 1 && r.last() == '/' {
            r.drop_last()
        } else {
            r
        }
    }
}

/// Bring a path to normal form: `""` becomes `/`, `"//a///b/"` becomes
/// `/a/b`.
pub fn normalize_path(path: &str) -> (r: String)
    ensures
        r@ == normalized_path(path@),
{
    let n = path.unicode_len();
    if n == 0 {
        let mut root = String::new();
        push_char(&mut root, '/');
        assert(root@ =~= seq!['/']);
        return root;
    }
    let mut v: Vec<char> = Vec::new();
    let mut i: usize = 0;
    while i < n
        invariant
            i <= n,
            n == path@.len(),
            v@ == squeeze_slashes(path@.take(i as int)),
        decreases n - i,
    {
        let c = path.get_char(i);
        let ghost t = path@.take(i as int + 1);
        assert(t.drop_last() =~= path@.take(i as int));
        assert(t.last() == c);
        if !(c == '/' && v.len() > 0 && v[v.len() - 1] == '/') {
            v.push(c);
        }
        i = i + 1;
    }
    assert(path@.take(n as int) =~= path@);
    let keep = if v.len() > 1 && v[v.len() - 1] == '/' { v.len() - 1 } else { v.len() };
    let mut r = String::new();
    let mut j: usize = 0;
    while j < keep
        invariant
            j <= keep,
            keep <= v@.len(),
            r@ == v@.take(j as int),
        decreases keep - j,
    {
        push_char(&mut r, v[j]);
        assert(v@.take(j as int + 1) =~= v@.take(j as int).push(v@[j as int]));
        j = j + 1;
    }
    assert(v@.take(keep as int) =~= (if keep < v@.len() { v@.drop_last() } else { v@ }));
    r
}

/// No two `'/'` stand next to each other in `s`.
pub open spec fn no_double_slash(s: Seq<char>) -> bool {
    forall|i: int| 0 <= i && i + 1 < s.len() ==> !(#[trigger] s[i] == '/' && s[i + 1] == '/')
}

proof fn lemma_squeeze_shape(s: Seq<char>)
    ensures
        no_double_slash(squeeze_slashes(s)),
        s.len() > 0 ==> squeeze_slashes(s).len() > 0,
    decreases s.len(),
{
    if s.len() > 0 {
        let r = squeeze_slashes(s.drop_last());
        lemma_squeeze_shape(s.drop_last());
        let q = squeeze_slashes(s);
        if !(s.last() == '/' && r.len() > 0 && r.last() == '/') {
            assert(q == r.push(s.last()));
            assert forall|i: int| 0 <= i && i + 1 < q.len() implies !(#[trigger] q[i] == '/' && q[i + 1] == '/') by {
                if i + 1 < r.len() {
                    assert(q[i] == r[i] && q[i + 1] == r[i + 1]);
                } else {
                    assert(q[i] == r.last());
                }
            }
        }
    }
}

proof fn lemma_squeeze_fixed(t: Seq<char>)
    requires
        no_double_slash(t),
    ensures
        squeeze_slashes(t) == t,
    decreases t.len(),
{
    if t.len() > 0 {
        let p = t.drop_last();
        assert(no_double_slash(p)) by {
            assert forall|i: int| 0 <= i && i + 1 < p.len() implies !(#[trigger] p[i] == '/' && p[i + 1] == '/') by {
                assert(p[i] == t[i] && p[i + 1] == t[i + 1]);
            }
        }
        lemma_squeeze_fixed(p);
        if p.len() > 0 {
            assert(t[p.len() - 1] == p.last());
            assert(!(t[p.len() - 1] == '/' && t[p.len() as int] == '/'));
        }
        assert(p.push(t.last()) =~= t);
    }
}

/// Normalizing a path that is already normal changes nothing.
pub proof fn lemma_normalize_idempotent(s: Seq<char>)
    ensures
        normalized_path(normalized_path(s)) == normalized_path(s),
{
    let n = normalized_path(s);
    if s.len() == 0 {
        assert(squeeze_slashes(n) == n) by {
            lemma_squeeze_fixed(n);
        }
    } else {
        let r = squeeze_slashes(s);
        lemma_squeeze_shape(s);
        if r.len() > 1 && r.last() == '/' {
            assert(no_double_slash(n)) by {
                assert forall|i: int| 0 <= i && i + 1 < n.len() implies !(#[trigger] n[i] == '/' && n[i + 1] == '/') by {
                    assert(n[i] == r[i] && n[i + 1] == r[i + 1]);
                }
            }
            assert(n.last() == r[r.len() - 2]);
            assert(!(r[r.len() - 2] == '/' && r[r.len() - 1] == '/'));
        }
        lemma_squeeze_fixed(n);
    }
}

/// The character of decimal digit `d`.
pub open spec fn digit_char(d: int) -> char {
    if d == 0 { '0' } else if d == 1 { '1' } else if d == 2 { '2' } else if d == 3 { '3' }
    else if d == 4 { '4' } else if d == 5 { '5' } else if d == 6 { '6' } else if d == 7 { '7' }
    else if d == 8 { '8' } else { '9' }
}

/// The decimal digits of `n`, most significant first, without leading
/// zeros (`0` is a single digit).
pub open spec fn decimal_text(n: nat) -> Seq<char>
    decreases n,
{
    if n < 10 {
        seq![digit_char(n as int)]
    } else {
        decimal_text(n / 10).push(digit_char((n % 10) as int))
    }
}

/// Append the decimal digits of `n` to `s`.
pub fn push_decimal(s: &mut String, n: u64)
    ensures
        final(s)@ == old(s)@ + decimal_text(n as nat),
    decreases n,
{
    if n >= 10 {
        push_decimal(s, n / 10);
    }
    let d = n % 10;
    let c = if d == 0 { '0' } else if d == 1 { '1' } else if d == 2 { '2' } else if d == 3 { '3' }
        else if d == 4 { '4' } else if d == 5 { '5' } else if d == 6 { '6' } else if d == 7 { '7' }
        else if d == 8 { '8' } else { '9' };
    let ghost mid = s@;
    push_char(s, c);
    proof {
        if n >= 10 {
            assert(mid + seq![c] =~= mid.push(c));
            assert(old(s)@ + decimal_text((n / 10) as nat) + seq![c] =~= old(s)@ + decimal_text((n / 10) as nat).push(c));
        } else {
            assert(old(s)@.push(c) =~= old(s)@ + seq![c]);
        }
    }
}

} // verus!
