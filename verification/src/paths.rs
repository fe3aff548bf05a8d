//! Paths, as text with `/` between the components.

use crate::text;
use crate::types;
use vstd::prelude::*;

verus! {

/// What joining `tail` to `base` gives: an absolute `tail` replaces `base`, any
/// other is appended, after one separator where `base` does not end in one.
pub open spec fn joined(base: Seq<char>, tail: Seq<char>) -> Seq<char> {
    if tail.len() > 0 && tail[0] == '/' {
        tail
    } else if base.len() == 0 || base.last() == '/' {
        base + tail
    } else {
        base.push('/') + tail
    }
}

/// Joins two paths.
pub fn join(base: &str, tail: &str) -> (r: String)
    ensures
        r@ == joined(base@, tail@),
{
    let t = text::chars_of(tail);
    if t.len() > 0 && t[0] == '/' {
        return text::own(tail);
    }
    let b = text::chars_of(base);
    let mut out = text::own(base);
    if b.len() > 0 && b[b.len() - 1] != '/' {
        out.push('/');
    }
    out.push_str(tail);
    out
}

/// A path without what says nothing at its end: separators, and components that are a
/// single dot.
pub open spec fn base(s: Seq<char>) -> Seq<char>
    decreases s.len(),
{
    if s.len() > 1 && (s.last() == '/' || (s.last() == '.' && s[s.len() - 2] == '/')) {
        base(s.drop_last())
    } else {
        s
    }
}

/// The index of the last separator, or minus one.
pub open spec fn last_slash(s: Seq<char>) -> int
    decreases s.len(),
{
    if s.len() == 0 {
        -1
    } else if s.last() == '/' {
        s.len() - 1
    } else {
        last_slash(s.drop_last())
    }
}

/// The last component of a path: none where it ends in the root, in the current
/// directory or in the one above.
pub open spec fn file_name_of(s: Seq<char>) -> Option<Seq<char>> {
    let b = base(s);
    let part = b.skip(last_slash(b) + 1);
    if part.len() == 0 || part == "."@ || part == ".."@ {
        None
    } else {
        Some(part)
    }
}

/// A path without its last component: none for the root and the empty path.
pub open spec fn parent_of(s: Seq<char>) -> Option<Seq<char>> {
    let b = base(s);
    let k = last_slash(b);
    if b.len() == 0 || b == "/"@ {
        None
    } else if k < 0 {
        Some(Seq::empty())
    } else if k == 0 {
        Some("/"@)
    } else {
        Some(base(b.take(k)))
    }
}

/// The index of the last dot of a name that has something before it, or minus one.
pub open spec fn last_dot(s: Seq<char>) -> int
    decreases s.len(),
{
    if s.len() <= 1 {
        -1
    } else if s.last() == '.' {
        s.len() - 1
    } else {
        last_dot(s.drop_last())
    }
}

/// The last component of a path without its extension.
pub open spec fn stem_of(s: Seq<char>) -> Option<Seq<char>> {
    match file_name_of(s) {
        Some(n) => if last_dot(n) < 0 {
            Some(n)
        } else {
            Some(n.take(last_dot(n)))
        },
        None => None,
    }
}

/// What stands behind the last dot of the last component.
pub open spec fn extension_of(s: Seq<char>) -> Option<Seq<char>> {
    match file_name_of(s) {
        Some(n) => if last_dot(n) < 0 {
            None
        } else {
            Some(n.skip(last_dot(n) + 1))
        },
        None => None,
    }
}

/// A path with the extension of its last component replaced by `ext`.
pub open spec fn with_extension_of(s: Seq<char>, ext: Seq<char>) -> Seq<char> {
    match file_name_of(s) {
        Some(n) => {
            let b = base(s);
            let stem = if last_dot(n) < 0 {
                b
            } else {
                b.take(b.len() - (n.len() - last_dot(n)))
            };
            stem.push('.') + ext
        },
        None => s,
    }
}

/// A piece between separators that says something: it is not empty, and no single dot
/// other than at the beginning.
pub open spec fn says_something(v: Seq<Seq<char>>, k: int) -> bool {
    v[k].len() > 0 && (k == 0 || v[k] != "."@)
}

/// Those of the pieces that say something.
pub open spec fn telling(v: Seq<Seq<char>>) -> Seq<Seq<char>>
    decreases v.len(),
{
    if v.len() == 0 {
        Seq::empty()
    } else if says_something(v, v.len() - 1) {
        telling(v.drop_last()).push(v.last())
    } else {
        telling(v.drop_last())
    }
}

/// Whether a path starts at the root.
pub open spec fn is_rooted(s: Seq<char>) -> bool {
    s.len() > 0 && s[0] == '/'
}

/// Two spellings of one path: they have the same components.
pub open spec fn same_path(a: Seq<char>, b: Seq<char>) -> bool {
    &&& is_rooted(a) == is_rooted(b)
    &&& telling(text::pieces(a, '/')) == telling(text::pieces(b, '/'))
}

/// What is left of a path without what it ends in is its beginning.
pub proof fn base_is_prefix(s: Seq<char>)
    ensures
        base(s).len() <= s.len(),
        base(s) == s.take(base(s).len() as int),
    decreases s.len(),
{
    if s.len() > 1 && (s.last() == '/' || (s.last() == '.' && s[s.len() - 2] == '/')) {
        base_is_prefix(s.drop_last());
        assert(s.drop_last().take(base(s).len() as int) =~= s.take(base(s).len() as int));
    } else {
        assert(s.take(s.len() as int) =~= s);
    }
}

proof fn last_slash_bounds(s: Seq<char>)
    ensures
        -1 <= last_slash(s) < s.len(),
        last_slash(s) >= 0 ==> s[last_slash(s)] == '/',
    decreases s.len(),
{
    if s.len() > 0 && s.last() != '/' {
        last_slash_bounds(s.drop_last());
    }
}

proof fn last_dot_bounds(s: Seq<char>)
    ensures
        -1 <= last_dot(s) < s.len() || s.len() == 0,
        last_dot(s) != 0,
        last_dot(s) >= 0 ==> s[last_dot(s)] == '.',
    decreases s.len(),
{
    if s.len() > 1 && s.last() != '.' {
        last_dot_bounds(s.drop_last());
    }
}

/// The path above is shorter.
pub proof fn parent_is_shorter(s: Seq<char>)
    ensures
        parent_of(s) matches Some(p) ==> p.len() < s.len(),
{
    let b = base(s);
    base_is_prefix(s);
    last_slash_bounds(b);
    reveal_strlit("/");
    let k = last_slash(b);
    if k > 0 {
        base_is_prefix(b.take(k));
    }
    if k == 0 && b.len() == 1 {
        assert(b =~= "/"@);
    }
}

/// How much of a path is left without what says nothing at its end.
fn base_len(v: &Vec<char>) -> (r: usize)
    ensures
        r <= v@.len(),
        v@.take(r as int) == base(v@),
{
    let mut n: usize = v.len();
    assert(v@.take(n as int) =~= v@);
    while n > 1 && (v[n - 1] == '/' || (v[n - 1] == '.' && v[n - 2] == '/'))
        invariant
            n <= v@.len(),
            base(v@.take(n as int)) == base(v@),
        decreases n,
    {
        assert(v@.take(n as int).drop_last() =~= v@.take(n - 1));
        n -= 1;
    }
    n
}

fn rooted(s: &str) -> (r: bool)
    ensures
        r == is_rooted(s@),
{
    let v = text::chars_of(s);
    v.len() > 0 && v[0] == '/'
}

fn parts(s: &str) -> (r: Vec<String>)
    ensures
        types::texts(r@) == telling(text::pieces(s@, '/')),
{
    let v = text::split(s, '/');
    let ghost all = types::texts(v@);
    let mut out: Vec<String> = Vec::new();
    let mut i: usize = 0;
    assert(types::texts(out@) =~= telling(all.take(0)));
    while i < v.len()
        invariant
            i <= v@.len(),
            all == types::texts(v@),
            types::texts(out@) == telling(all.take(i as int)),
        decreases v@.len() - i,
    {
        let p = v[i].as_str();
        let chars = text::chars_of(p);
        proof {
            assert(all.take(i + 1).drop_last() =~= all.take(i as int));
            assert(all.take(i + 1).last() == p@);
        }
        if chars.len() > 0 && (i == 0 || *p != *".") {
            types::push_text(&mut out, p);
        }
        i += 1;
    }
    assert(all.take(i as int) =~= all);
    out
}

/// One past the last separator before `n`, or zero.
fn after_slash(v: &Vec<char>, n: usize) -> (r: usize)
    requires
        n <= v@.len(),
    ensures
        r == last_slash(v@.take(n as int)) + 1,
        r <= n,
{
    let mut k: usize = n;
    while k > 0 && v[k - 1] != '/'
        invariant
            k <= n <= v@.len(),
            last_slash(v@.take(k as int)) == last_slash(v@.take(n as int)),
        decreases k,
    {
        assert(v@.take(k as int).drop_last() =~= v@.take(k - 1));
        k -= 1;
    }
    proof {
        last_slash_bounds(v@.take(n as int));
        if k == 0 {
            assert(v@.take(0).len() == 0);
        } else {
            assert(v@.take(k as int).last() == '/');
        }
    }
    k
}

/// The last part of a path.
pub fn file_name(path: &str) -> (r: Option<String>)
    ensures
        types::opt_text(r) == file_name_of(path@),
{
    let v = text::chars_of(path);
    let n: usize = base_len(&v);
    let k: usize = after_slash(&v, n);
    let part = text::string_of(&v, k, n);
    assert(part@ =~= base(path@).skip(last_slash(base(path@)) + 1));
    if k == n || *part.as_str() == *"." || *part.as_str() == *".." {
        None
    } else {
        Some(part)
    }
}

/// A path without its last part.
pub fn parent(path: &str) -> (r: Option<String>)
    ensures
        types::opt_text(r) == parent_of(path@),
{
    let v = text::chars_of(path);
    let n: usize = base_len(&v);
    let k: usize = after_slash(&v, n);
    proof {
        reveal_strlit("/");
        if n == 1 && v@[0] == '/' {
            assert(v@.take(1) =~= "/"@);
        }
        if v@.take(n as int) == "/"@ {
            assert(v@.take(n as int)[0] == '/');
        }
    }
    if n == 0 || (n == 1 && v[0] == '/') {
        return None;
    }
    if k == 0 {
        let out = String::new();
        assert(out@ =~= Seq::empty());
        return Some(out);
    }
    if k == 1 {
        return Some(text::own("/"));
    }
    let head = text::string_of(&v, 0, k - 1);
    assert(head@ =~= base(path@).take(k - 1));
    let h = text::chars_of(head.as_str());
    let m: usize = base_len(&h);
    let out = text::string_of(&h, 0, m);
    assert(out@ =~= h@.take(m as int));
    Some(out)
}

fn dot_index(v: &Vec<char>) -> (r: Option<usize>)
    ensures
        match r {
            Some(i) => last_dot(v@) == i && i < v@.len(),
            None => last_dot(v@) < 0,
        },
{
    let mut n: usize = v.len();
    assert(v@.take(n as int) =~= v@);
    while n > 1
        invariant
            n <= v@.len(),
            last_dot(v@.take(n as int)) == last_dot(v@),
        decreases n,
    {
        if v[n - 1] == '.' {
            assert(v@.take(n as int).last() == '.');
            return Some(n - 1);
        }
        assert(v@.take(n as int).drop_last() =~= v@.take(n - 1));
        n -= 1;
    }
    None
}

/// The name of a file without its extension.
pub fn file_stem(path: &str) -> (r: Option<String>)
    ensures
        types::opt_text(r) == stem_of(path@),
{
    match file_name(path) {
        None => None,
        Some(name) => {
            let v = text::chars_of(name.as_str());
            match dot_index(&v) {
                None => Some(name),
                Some(i) => {
                    let out = text::string_of(&v, 0, i);
                    assert(out@ =~= v@.take(i as int));
                    Some(out)
                },
            }
        },
    }
}

/// The extension of a file.
pub fn extension(path: &str) -> (r: Option<String>)
    ensures
        types::opt_text(r) == extension_of(path@),
{
    match file_name(path) {
        None => None,
        Some(name) => {
            let v = text::chars_of(name.as_str());
            match dot_index(&v) {
                None => None,
                Some(i) => {
                    let total: usize = v.len();
                    let out = text::string_of(&v, i + 1, total);
                    assert(out@ =~= v@.skip(i + 1));
                    Some(out)
                },
            }
        },
    }
}

/// A path with another extension.
pub fn with_extension(path: &str, ext: &str) -> (r: String)
    ensures
        r@ == with_extension_of(path@, ext@),
{
    match file_name(path) {
        None => text::own(path),
        Some(name) => {
            let v = text::chars_of(path);
            let n: usize = base_len(&v);
            let w = text::chars_of(name.as_str());
            proof {
                last_slash_bounds(base(path@));
            }
            let keep: usize = match dot_index(&w) {
                None => n,
                Some(i) => n - (w.len() - i),
            };
            let mut out = text::string_of(&v, 0, keep);
            assert(out@ =~= base(path@).take(keep as int));
            assert(base(path@).take(n as int) =~= base(path@));
            out.push('.');
            out.push_str(ext);
            out
        },
    }
}

/// Whether two spellings are of one path.
pub fn is_same(a: &str, b: &str) -> (r: bool)
    ensures
        r == same_path(a@, b@),
{
    let x = parts(a);
    let y = parts(b);
    if rooted(a) != rooted(b) || x.len() != y.len() {
        assert(types::texts(x@).len() == x@.len());
        return false;
    }
    let mut i: usize = 0;
    while i < x.len()
        invariant
            i <= x@.len(),
            x@.len() == y@.len(),
            types::texts(x@) == telling(text::pieces(a@, '/')),
            types::texts(y@) == telling(text::pieces(b@, '/')),
            forall|k: int| 0 <= k < i ==> types::texts(x@)[k] == types::texts(y@)[k],
        decreases x@.len() - i,
    {
        if *x[i].as_str() != *y[i].as_str() {
            assert(types::texts(x@)[i as int] != types::texts(y@)[i as int]);
            return false;
        }
        i += 1;
    }
    assert(types::texts(x@) =~= types::texts(y@));
    true
}

/// A path with a new extension has that extension.
pub proof fn new_extension_is_there(s: Seq<char>, ext: Seq<char>)
    requires
        file_name_of(s) is Some,
        ext.len() > 0,
        forall|i: int| 0 <= i < ext.len() ==> ext[i] != '/' && ext[i] != '.',
    ensures
        extension_of(with_extension_of(s, ext)) == Some(ext),
{
    let b = base(s);
    let n = file_name_of(s)->0;
    let t = with_extension_of(s, ext);
    last_slash_bounds(b);
    last_dot_bounds(n);
    let k = last_slash(b);
    let stem = if last_dot(n) < 0 {
        n
    } else {
        n.take(last_dot(n))
    };
    assert(stem.len() > 0);
    assert(t.last() == ext.last());
    assert(base(t) == t);
    let part = stem.push('.') + ext;
    assert(t =~= b.take(k + 1) + part);
    assert forall|i: int| k < i < t.len() implies t[i] != '/' by {
        if i - (k + 1) < stem.len() {
            no_slash_behind(b, i);
            assert(t[i] == b[i]);
        }
    }
    last_slash_is(t, k);
    assert(t.skip(k + 1) =~= part);
    reveal_strlit(".");
    reveal_strlit("..");
    assert(part.len() >= 3);
    assert(file_name_of(t) == Some(part));
    last_dot_is(part, stem.len() as int);
    assert(part.skip(stem.len() + 1int) =~= ext);
}

proof fn no_slash_behind(s: Seq<char>, i: int)
    requires
        0 <= i,
        last_slash(s) < i < s.len(),
    ensures
        s[i] != '/',
    decreases s.len(),
{
    if i < s.len() - 1 {
        no_slash_behind(s.drop_last(), i);
    }
}

proof fn last_slash_is(s: Seq<char>, k: int)
    requires
        -1 <= k < s.len(),
        k >= 0 ==> s[k] == '/',
        forall|i: int| k < i < s.len() ==> s[i] != '/',
    ensures
        last_slash(s) == k,
    decreases s.len(),
{
    if s.len() > 0 && k < s.len() - 1 {
        assert(s.last() != '/');
        last_slash_is(s.drop_last(), k);
    }
}

proof fn last_dot_is(s: Seq<char>, k: int)
    requires
        0 < k < s.len(),
        s[k] == '.',
        forall|i: int| k < i < s.len() ==> s[i] != '.',
    ensures
        last_dot(s) == k,
    decreases s.len(),
{
    if k < s.len() - 1 {
        assert(s.last() != '.');
        last_dot_is(s.drop_last(), k);
    }
}

// ---- further laws ----

/// A file's name is its stem, a dot and its extension; the extension has no dot, and the
/// stem is not empty. A name without an extension is its own stem.
pub proof fn name_is_stem_and_extension(s: Seq<char>)
    requires
        file_name_of(s) is Some,
    ensures
        ({
            let n = file_name_of(s)->0;
            &&& stem_of(s) is Some
            &&& match extension_of(s) {
                Some(e) => n == (stem_of(s)->0).push('.') + e && !e.contains('.') && (stem_of(
                    s,
                )->0).len() > 0,
                None => stem_of(s) == Some(n) && forall|i: int|
                    0 < i < n.len() ==> #[trigger] n[i] != '.',
            }
        }),
{
    let n = file_name_of(s)->0;
    last_dot_bounds(n);
    let k = last_dot(n);
    no_dot_behind(n);
    if k >= 0 {
        let e = n.skip(k + 1);
        assert(n =~= n.take(k).push('.') + e);
        assert(!e.contains('.')) by {
            if e.contains('.') {
                let i = choose|i: int| 0 <= i < e.len() && e[i] == '.';
                assert(n[k + 1 + i] == '.');
            }
        }
    }
}

proof fn no_dot_behind(s: Seq<char>)
    ensures
        forall|i: int| 0 < i && last_dot(s) < i < s.len() ==> #[trigger] s[i] != '.',
    decreases s.len(),
{
    if s.len() > 1 && s.last() != '.' {
        let t = s.drop_last();
        no_dot_behind(t);
        assert forall|i: int| 0 < i && last_dot(s) < i < s.len() implies #[trigger] s[i] != '.' by {
            if i < t.len() {
                assert(s[i] == t[i]);
            }
        }
    }
}

/// What is joined to a directory is found as the name of the path, and the directory as what
/// is above it.
pub proof fn joined_name_is_found(dir: Seq<char>, name: Seq<char>)
    requires
        dir.len() > 0,
        dir.last() != '/',
        base(dir) == dir,
        name.len() > 0,
        !name.contains('/'),
        name != "."@,
        name != ".."@,
    ensures
        joined(dir, name) == dir.push('/') + name,
        file_name_of(joined(dir, name)) == Some(name),
        parent_of(joined(dir, name)) == Some(dir),
{
    reveal_strlit(".");
    reveal_strlit("..");
    reveal_strlit("/");
    assert forall|i: int| 0 <= i < name.len() implies #[trigger] name[i] != '/' by {
        assert(name.contains(name[i]));
    }
    assert(name[0] != '/');
    let s = joined(dir, name);
    assert(s == dir.push('/') + name);
    let n = s.len() as int;
    assert(s.last() == name.last());
    assert(name[name.len() - 1] != '/');
    if s.last() == '.' && s[n - 2] == '/' {
        if name.len() == 1 {
            assert(name =~= "."@);
        } else {
            assert(s[n - 2] == name[name.len() - 2]);
        }
    }
    assert(base(s) == s);
    let k = dir.len() as int;
    assert(s[k] == '/');
    assert forall|i: int| k < i < s.len() implies s[i] != '/' by {
        assert(s[i] == name[i - k - 1]);
    }
    last_slash_is(s, k);
    assert(s.skip(k + 1) =~= name);
    assert(s.take(k) =~= dir);
    assert(s != "/"@) by {
        assert("/"@.len() == 1);
    }
}

} // verus!
