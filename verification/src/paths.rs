//! Path text helpers for input traversal: where a glob walk starts, and
//! which runtime directories are always skipped.

use vstd::prelude::*;

use crate::plan::has_string;
use crate::pointer::{split_slash, views_of};
use crate::text::{str_chars, string_from_chars};

verus! {

/// The name of the runtime working directory that traversal always skips.
pub open spec fn ignored_runtime_dir() -> Seq<char> {
    ".worktoolai"@
}

/// Does some `/`-separated component of the path equal the ignored runtime
/// directory name?
pub open spec fn has_ignored_component(p: Seq<char>) -> bool {
    exists|i: int|
        0 <= i < split_slash(p).len() && #[trigger] split_slash(p)[i] == ignored_runtime_dir()
}

/// Whether the path passes through the runtime working directory that
/// traversal must skip.
#[verifier::loop_isolation(false)]
pub fn path_has_ignored_runtime_dir(path: &str) -> (r: bool)
    ensures
        r == has_ignored_component(path@),
{
    let cs = str_chars(path);
    let parts = crate::pointer::split_slash_chars(&cs);
    let needle = String::from_str(".worktoolai");
    proof {
        reveal_strlit(".worktoolai");
    }
    let mut i: usize = 0;
    while i < parts.len()
        invariant
            i <= parts@.len(),
            views_of(parts@) == split_slash(path@),
            needle@ == ignored_runtime_dir(),
            forall|j: int| 0 <= j < i ==> split_slash(path@)[j] != ignored_runtime_dir(),
        decreases parts.len() - i,
    {
        let part = string_from_chars(&parts[i]);
        if part == needle {
            proof {
                assert(split_slash(path@)[i as int] == ignored_runtime_dir());
            }
            return true;
        }
        proof {
            assert(split_slash(path@)[i as int] == parts@[i as int]@);
        }
        i = i + 1;
    }
    proof {
        if has_ignored_component(path@) {
            let j = choose|j: int|
                0 <= j < split_slash(path@).len() && split_slash(path@)[j]
                    == ignored_runtime_dir();
            assert(false);
        }
    }
    false
}

/// Is the character a glob wildcard?
pub open spec fn is_wildcard(c: char) -> bool {
    c == '*' || c == '?' || c == '[' || c == '{'
}

/// Index of the first wildcard, or `-1`.
pub open spec fn find_wildcard(s: Seq<char>) -> int
    decreases s.len(),
{
    if s.len() == 0 {
        -1
    } else if is_wildcard(s[0]) {
        0
    } else if find_wildcard(s.skip(1)) < 0 {
        -1
    } else {
        1 + find_wildcard(s.skip(1))
    }
}

proof fn lemma_find_wildcard(s: Seq<char>)
    ensures
        -1 <= find_wildcard(s) < s.len(),
        find_wildcard(s) >= 0 ==> is_wildcard(s[find_wildcard(s)]),
    decreases s.len(),
{
    if s.len() > 0 && !is_wildcard(s[0]) {
        lemma_find_wildcard(s.skip(1));
        if find_wildcard(s.skip(1)) >= 0 {
            assert(s[find_wildcard(s)] == s.skip(1)[find_wildcard(s.skip(1))]);
        }
    }
}

proof fn lemma_find_wildcard_at(s: Seq<char>, j: int)
    requires
        0 <= j < s.len(),
        is_wildcard(s[j]),
        forall|i: int| 0 <= i < j ==> !is_wildcard(s[i]),
    ensures
        find_wildcard(s) == j,
    decreases s.len(),
{
    if j > 0 {
        assert(s.skip(1)[j - 1] == s[j]);
        assert(forall|i: int| 0 <= i < j - 1 ==> s.skip(1)[i] == s[i + 1]);
        lemma_find_wildcard_at(s.skip(1), j - 1);
    }
}

/// The parent of a path, as text: everything before the last `/` (the root
/// `/` stays itself); a single component has the empty parent; the empty
/// path has none.
pub open spec fn parent_of(p: Seq<char>) -> Option<Seq<char>> {
    if p.len() == 0 || p == seq!['/'] {
        None
    } else if last_slash(p) < 0 {
        Some(Seq::empty())
    } else if last_slash(p) == 0 {
        Some(seq!['/'])
    } else {
        Some(p.take(last_slash(p)))
    }
}

/// Index of the last `/`, or `-1`.
pub open spec fn last_slash(p: Seq<char>) -> int
    decreases p.len(),
{
    if p.len() == 0 {
        -1
    } else if p.last() == '/' {
        p.len() - 1
    } else {
        last_slash(p.drop_last())
    }
}

proof fn lemma_last_slash(p: Seq<char>)
    ensures
        -1 <= last_slash(p) < p.len(),
        last_slash(p) >= 0 ==> p[last_slash(p)] == '/',
    decreases p.len(),
{
    if p.len() > 0 && p.last() != '/' {
        lemma_last_slash(p.drop_last());
        if last_slash(p.drop_last()) >= 0 {
            assert(p[last_slash(p)] == p.drop_last()[last_slash(p.drop_last())]);
        }
    }
}

/// Finds the index just past the last `/`, scanning from the end.
#[verifier::loop_isolation(false)]
fn last_slash_exec(cs: &Vec<char>) -> (r: Option<usize>)
    ensures
        match r {
            Some(i) => i < cs@.len() && last_slash(cs@) == i as int,
            None => last_slash(cs@) < 0,
        },
{
    proof {
        lemma_last_slash(cs@);
    }
    let mut hi: usize = cs.len();
    proof {
        assert(cs@.take(cs@.len() as int) =~= cs@);
    }
    while hi > 0
        invariant
            hi <= cs@.len(),
            last_slash(cs@) == last_slash(cs@.take(hi as int)),
        decreases hi,
    {
        proof {
            let cur = cs@.take(hi as int);
            assert(cur.last() == cs@[hi - 1]);
            assert(cur.drop_last() =~= cs@.take(hi - 1 as int));
        }
        if cs[hi - 1] == '/' {
            proof {
                assert(last_slash(cs@.take(hi as int)) == hi - 1);
            }
            return Some(hi - 1);
        }
        hi = hi - 1;
    }
    proof {
        assert(cs@.take(0).len() == 0);
    }
    None
}

/// The directory a glob search scans from: the text before the first
/// wildcard; its parent unless it ends in `/`; `.` when nothing is left.
pub open spec fn glob_search_root_spec(pattern: Seq<char>) -> Seq<char> {
    let w = find_wildcard(pattern);
    let prefix = if w < 0 {
        pattern
    } else {
        pattern.take(w)
    };
    if prefix.len() == 0 {
        seq!['.']
    } else if prefix.last() == '/' {
        prefix
    } else {
        match parent_of(prefix) {
            Some(par) => if par.len() == 0 {
                seq!['.']
            } else {
                par
            },
            None => seq!['.'],
        }
    }
}

/// The directory a glob search scans from.
#[verifier::loop_isolation(false)]
pub fn glob_search_root(pattern: &str) -> (r: String)
    ensures
        r@ == glob_search_root_spec(pattern@),
{
    let cs = str_chars(pattern);
    proof {
        lemma_find_wildcard(cs@);
        assert(cs@.skip(0) =~= cs@);
    }
    let mut w: usize = 0;
    let mut found = false;
    while w < cs.len() && !found
        invariant
            w <= cs@.len(),
            forall|j: int| 0 <= j < w ==> !is_wildcard(cs@[j]),
            found ==> w < cs@.len() && find_wildcard(cs@) == w as int,
        decreases cs.len() - w + (if found {
            0int
        } else {
            1int
        }),
    {
        let c = cs[w];
        if c == '*' || c == '?' || c == '[' || c == '{' {
            proof {
                lemma_find_wildcard_at(cs@, w as int);
            }
            found = true;
        } else {
            w = w + 1;
        }
    }
    proof {
        if !found {
            if find_wildcard(cs@) >= 0 {
                assert(is_wildcard(cs@[find_wildcard(cs@)]));
                assert(false);
            }
        }
    }
    let prefix_len: usize = if found {
        w
    } else {
        cs.len()
    };
    let ghost prefix = if find_wildcard(cs@) < 0 {
        cs@
    } else {
        cs@.take(find_wildcard(cs@))
    };
    let mut pc: Vec<char> = Vec::new();
    let mut i: usize = 0;
    while i < prefix_len
        invariant
            i <= prefix_len,
            prefix_len <= cs@.len(),
            prefix_len as int == prefix.len(),
            prefix == (if find_wildcard(cs@) < 0 {
                cs@
            } else {
                cs@.take(find_wildcard(cs@))
            }),
            pc@ =~= prefix.take(i as int),
        decreases prefix_len - i,
    {
        pc.push(cs[i]);
        proof {
            assert(prefix[i as int] == cs@[i as int]);
            assert(prefix.take(i + 1 as int) =~= prefix.take(i as int).push(prefix[i as int]));
        }
        i = i + 1;
    }
    proof {
        assert(pc@ =~= prefix);
    }
    if pc.len() == 0 {
        let mut dot: Vec<char> = Vec::new();
        dot.push('.');
        proof {
            assert(dot@ =~= glob_search_root_spec(pattern@));
        }
        return string_from_chars(&dot);
    }
    if pc[pc.len() - 1] == '/' {
        proof {
            assert(pc@.last() == '/');
        }
        return string_from_chars(&pc);
    }
    match last_slash_exec(&pc) {
        Some(ls) => {
            if ls == 0 {
                let mut root: Vec<char> = Vec::new();
                root.push('/');
                proof {
                    assert(parent_of(prefix) == Some(seq!['/']));
                    assert(root@ =~= glob_search_root_spec(pattern@));
                }
                string_from_chars(&root)
            } else {
                let mut par: Vec<char> = Vec::new();
                let mut j: usize = 0;
                while j < ls
                    invariant
                        j <= ls < pc@.len(),
                        par@ =~= pc@.take(ls as int).take(j as int),
                    decreases ls - j,
                {
                    par.push(pc[j]);
                    proof {
                        assert(pc@.take(ls as int)[j as int] == pc@[j as int]);
                        assert(pc@.take(ls as int).take(j + 1 as int) =~= pc@.take(
                            ls as int,
                        ).take(j as int).push(pc@[j as int]));
                    }
                    j = j + 1;
                }
                proof {
                    assert(pc@.take(ls as int).take(ls as int) =~= pc@.take(ls as int));
                    assert(prefix != seq!['/']) by {
                        if prefix == seq!['/'] {
                            assert(prefix.last() == '/');
                        }
                    }
                    assert(parent_of(prefix) == Some(pc@.take(ls as int)));
                    assert(pc@.take(ls as int).len() > 0);
                }
                string_from_chars(&par)
            }
        },
        None => {
            let mut dot: Vec<char> = Vec::new();
            dot.push('.');
            proof {
                assert(prefix != seq!['/']) by {
                    if prefix == seq!['/'] {
                        assert(prefix.last() == '/');
                    }
                }
                assert(parent_of(prefix) == Some(Seq::<char>::empty()));
                assert(dot@ =~= glob_search_root_spec(pattern@));
            }
            string_from_chars(&dot)
        },
    }
}

/// One step of the climb: the text before the last `/` (the root `/` for a
/// top-level entry); a path without `/`, or an empty one, ends the climb.
pub open spec fn walk_parent(c: Seq<char>) -> Option<Seq<char>> {
    if c.len() == 0 || last_slash(c) < 0 {
        None
    } else if last_slash(c) == 0 {
        Some(seq!['/'])
    } else {
        Some(c.take(last_slash(c)))
    }
}

proof fn lemma_walk_parent_shorter(c: Seq<char>)
    ensures
        match walk_parent(c) {
            Some(p) => p != c ==> p.len() < c.len(),
            None => true,
        },
{
    lemma_last_slash(c);
    match walk_parent(c) {
        Some(p) => {
            if last_slash(c) == 0 {
                if c.len() == 1 {
                    assert(c =~= seq!['/']) by {
                        assert(c[0] == '/');
                    }
                }
            }
        },
        None => {},
    }
}

/// Where the walk starts: climb from the search root while the parent
/// directory is among those the caller found a repository marker in, and
/// stop at the first that is not.
pub open spec fn walk_root_spec(c: Seq<char>, marked: Seq<String>) -> Seq<char>
    decreases c.len(),
    via walk_root_spec_decreases
{
    match walk_parent(c) {
        Some(p) => if p != c && has_string(marked, p) {
            walk_root_spec(p, marked)
        } else {
            c
        },
        None => c,
    }
}

#[via_fn]
proof fn walk_root_spec_decreases(c: Seq<char>, marked: Seq<String>) {
    lemma_walk_parent_shorter(c);
}

/// Is the path among the marked parents?
#[verifier::loop_isolation(false)]
fn is_marked(parents: &Vec<String>, p: &String) -> (r: bool)
    ensures
        r == has_string(parents@, p@),
{
    let mut m: usize = 0;
    while m < parents.len()
        invariant
            m <= parents.len(),
            forall|q: int| 0 <= q < m ==> parents@[q]@ != p@,
        decreases parents.len() - m,
    {
        if parents[m] == *p {
            return true;
        }
        m = m + 1;
    }
    proof {
        if has_string(parents@, p@) {
            let q = choose|q: int| 0 <= q < parents@.len() && #[trigger] parents@[q]@ == p@;
            assert(false);
        }
    }
    false
}

/// Climbs from the search root to the top of the repository: while the
/// caller reports that the parent directory holds a repository marker,
/// walking starts there instead. `parents_with_marker` carries the parent
/// paths the caller found the marker in, so the verified climb never touches
/// the disk.
#[verifier::loop_isolation(false)]
pub fn glob_walk_root(search_root: &str, parents_with_marker: &Vec<String>) -> (r: String)
    ensures
        r@ == walk_root_spec(search_root@, parents_with_marker@),
{
    let mut candidate = String::from_str(search_root);
    loop
        invariant
            walk_root_spec(search_root@, parents_with_marker@) == walk_root_spec(
                candidate@,
                parents_with_marker@,
            ),
        decreases candidate@.len(),
    {
        let cc = str_chars(candidate.as_str());
        let parent: String = match last_slash_exec(&cc) {
            Some(0) => {
                let mut root: Vec<char> = Vec::new();
                root.push('/');
                proof {
                    assert(root@ =~= seq!['/']);
                }
                string_from_chars(&root)
            },
            Some(ls) => {
                let mut out: Vec<char> = Vec::new();
                let mut j: usize = 0;
                while j < ls
                    invariant
                        j <= ls,
                        ls < cc@.len(),
                        out@ =~= cc@.take(ls as int).take(j as int),
                    decreases ls - j,
                {
                    out.push(cc[j]);
                    proof {
                        assert(cc@.take(ls as int)[j as int] == cc@[j as int]);
                        assert(cc@.take(ls as int).take(j + 1 as int) =~= cc@.take(
                            ls as int,
                        ).take(j as int).push(cc@[j as int]));
                    }
                    j = j + 1;
                }
                proof {
                    assert(cc@.take(ls as int).take(ls as int) =~= cc@.take(ls as int));
                }
                string_from_chars(&out)
            },
            None => {
                proof {
                    assert(walk_parent(candidate@) is None);
                }
                return candidate;
            },
        };
        proof {
            assert(walk_parent(candidate@) == Some(parent@));
        }
        if parent == candidate {
            return candidate;
        }
        if is_marked(parents_with_marker, &parent) {
            proof {
                lemma_walk_parent_shorter(candidate@);
                assert(walk_root_spec(candidate@, parents_with_marker@) == walk_root_spec(
                    parent@,
                    parents_with_marker@,
                ));
            }
            candidate = parent;
        } else {
            return candidate;
        }
    }
}

} // verus!
