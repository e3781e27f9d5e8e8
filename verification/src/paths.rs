//! Paths of the library tree, compared as the file system compares them:
//! by their components, so that a doubled or trailing `/` and a `.` inside
//! a path make no difference.
use vstd::prelude::*;
use vstd::string::*;
use crate::text::{chars_of, views};

verus! {

/// The parts of a path: its maximal runs of characters other than `/`.
pub open spec fn path_parts(s: Seq<char>) -> Seq<Seq<char>>
    decreases s.len(),
{
    if s.len() == 0 {
        Seq::empty()
    } else {
        let before = path_parts(s.drop_last());
        let c = s.last();
        if c == '/' {
            before
        } else if s.len() >= 2 && s[s.len() - 2] != '/' && before.len() > 0 {
            before.update(before.len() - 1, before.last().push(c))
        } else {
            before.push(seq![c])
        }
    }
}

/// True when the path starts at the root.
pub open spec fn is_absolute(s: Seq<char>) -> bool {
    s.len() > 0 && s[0] == '/'
}

/// The parts that count as components: every part but `.`, and a `.` that
/// leads a relative path.
pub open spec fn kept_parts(parts: Seq<Seq<char>>, absolute: bool) -> Seq<Seq<char>>
    decreases parts.len(),
{
    if parts.len() == 0 {
        Seq::empty()
    } else {
        let rest = kept_parts(parts.drop_last(), absolute);
        if parts.last() == seq!['.'] && (absolute || parts.len() > 1) {
            rest
        } else {
            rest.push(parts.last())
        }
    }
}

/// The components of a path, without its root.
pub open spec fn components(s: Seq<char>) -> Seq<Seq<char>> {
    kept_parts(path_parts(s), is_absolute(s))
}

/// True when two paths have the same components and both or neither start
/// at the root.
pub open spec fn same_path(a: Seq<char>, b: Seq<char>) -> bool {
    is_absolute(a) == is_absolute(b) && components(a) == components(b)
}

/// True when `path` is, by its components, one of `dirs`.
pub open spec fn is_among_paths(dirs: Seq<Seq<char>>, path: Seq<char>) -> bool {
    exists|i: int| 0 <= i < dirs.len() && same_path(#[trigger] dirs[i], path)
}

fn split_path(s: &Vec<char>) -> (r: Vec<Vec<char>>)
    ensures
        views(r@) == path_parts(s@),
{
    let n: usize = s.len();
    let mut out: Vec<Vec<char>> = Vec::new();
    let mut cur: Vec<char> = Vec::new();
    let mut i: usize = 0;
    proof {
        assert(views(out@) =~= Seq::<Seq<char>>::empty());
    }
    while i < n
        invariant
            i <= n == s@.len(),
            cur@.len() > 0 <==> (i > 0 && s@[i - 1] != '/'),
            path_parts(s@.take(i as int)) == if cur@.len() > 0 {
                views(out@).push(cur@)
            } else {
                views(out@)
            },
        decreases n - i,
    {
        let c = s[i];
        proof {
            assert(s@.take(i + 1).drop_last() =~= s@.take(i as int));
            assert(s@.take(i + 1).last() == c);
            if i > 0 {
                assert(s@.take(i + 1)[i - 1] == s@[i - 1]);
            }
        }
        if c == '/' {
            if cur.len() > 0 {
                let ghost before = views(out@);
                let ghost word = cur@;
                out.push(cur);
                cur = Vec::new();
                proof {
                    assert(views(out@) =~= before.push(word));
                }
            }
        } else {
            let ghost before = path_parts(s@.take(i as int));
            let ghost word = cur@;
            cur.push(c);
            proof {
                if word.len() > 0 {
                    assert(before.update(before.len() - 1, before.last().push(c)) =~= views(
                        out@,
                    ).push(cur@));
                } else {
                    assert(cur@ =~= seq![c]);
                }
            }
        }
        i += 1;
    }
    proof {
        assert(s@.take(n as int) =~= s@);
    }
    if cur.len() > 0 {
        let ghost before = views(out@);
        let ghost word = cur@;
        out.push(cur);
        proof {
            assert(views(out@) =~= before.push(word));
        }
    }
    out
}

fn same_chars(a: &Vec<char>, b: &Vec<char>) -> (r: bool)
    ensures
        r == (a@ == b@),
{
    if a.len() != b.len() {
        return false;
    }
    let mut i: usize = 0;
    while i < a.len()
        invariant
            i <= a@.len() == b@.len(),
            forall|j: int| 0 <= j < i ==> a@[j] == b@[j],
        decreases a@.len() - i,
    {
        if a[i] != b[i] {
            return false;
        }
        i += 1;
    }
    proof {
        assert(a@ =~= b@);
    }
    true
}

fn is_dot(part: &Vec<char>) -> (r: bool)
    ensures
        r == (part@ == seq!['.']),
{
    let r = part.len() == 1 && part[0] == '.';
    proof {
        if r {
            assert(part@ =~= seq!['.']);
        } else if part@.len() == 1 {
            assert(seq!['.'][0] == '.');
        }
    }
    r
}

/// The key by which a path is compared: whether it starts at the root, and
/// its components.
#[derive(Debug, Clone, PartialEq, Eq)]
pub struct PathKey {
    pub absolute: bool,
    pub parts: Vec<Vec<char>>,
}

/// Reads a path into its key.
pub fn path_key(path: &str) -> (r: PathKey)
    ensures
        r.absolute == is_absolute(path@),
        views(r.parts@) == components(path@),
{
    let s = chars_of(path);
    let absolute = s.len() > 0 && s[0] == '/';
    let parts = split_path(&s);
    let mut out: Vec<Vec<char>> = Vec::new();
    let mut i: usize = 0;
    proof {
        assert(views(out@) =~= kept_parts(views(parts@).take(0), absolute));
    }
    while i < parts.len()
        invariant
            i <= parts@.len(),
            views(out@) == kept_parts(views(parts@).take(i as int), absolute),
        decreases parts@.len() - i,
    {
        proof {
            assert(views(parts@).take(i + 1).drop_last() =~= views(parts@).take(i as int));
            assert(views(parts@).take(i + 1).last() == parts@[i as int]@);
        }
        if !(is_dot(&parts[i]) && (absolute || i > 0)) {
            let ghost before = views(out@);
            out.push(parts[i].clone());
            proof {
                assert(views(out@) =~= before.push(parts@[i as int]@));
            }
        }
        i += 1;
    }
    proof {
        assert(views(parts@).take(parts@.len() as int) =~= views(parts@));
    }
    PathKey { absolute, parts: out }
}

/// Whether two keys are the same.
pub fn same_key(a: &PathKey, b: &PathKey) -> (r: bool)
    ensures
        r == (a.absolute == b.absolute && views(a.parts@) == views(b.parts@)),
{
    if a.absolute != b.absolute || a.parts.len() != b.parts.len() {
        proof {
            if a.parts@.len() != b.parts@.len() {
                assert(views(a.parts@).len() != views(b.parts@).len());
            }
        }
        return false;
    }
    let mut i: usize = 0;
    while i < a.parts.len()
        invariant
            i <= a.parts@.len() == b.parts@.len(),
            forall|j: int| 0 <= j < i ==> a.parts@[j]@ == b.parts@[j]@,
        decreases a.parts@.len() - i,
    {
        if !same_chars(&a.parts[i], &b.parts[i]) {
            proof {
                assert(views(a.parts@)[i as int] != views(b.parts@)[i as int]);
            }
            return false;
        }
        i += 1;
    }
    proof {
        assert(views(a.parts@) =~= views(b.parts@));
    }
    true
}

/// Whether two paths are the same by their components.
pub fn paths_match(a: &str, b: &str) -> (r: bool)
    ensures
        r == same_path(a@, b@),
{
    let x = path_key(a);
    let y = path_key(b);
    same_key(&x, &y)
}

} // verus!
