//! Paths as text: joining, and which changed files are nobody's business.

use vstd::prelude::*;

use crate::text;

verus! {

/// `child` under `base`. An absolute child stands alone; a separator goes
/// between the two unless `base` is empty or ends in one.
pub open spec fn join_of(base: Seq<char>, child: Seq<char>) -> Seq<char> {
    if child.len() > 0 && child[0] == '/' {
        child
    } else if base.len() == 0 || base.last() == '/' {
        base + child
    } else {
        base + "/"@ + child
    }
}

pub fn join(base: &str, child: &str) -> (r: String)
    ensures
        r@ == join_of(base@, child@),
{
    let n = child.unicode_len();
    if n > 0 && child.get_char(0) == '/' {
        return child.to_string();
    }
    let m = base.unicode_len();
    let mut r = base.to_string();
    if m > 0 && base.get_char(m - 1) != '/' {
        r.append("/");
    }
    r.append(child);
    r
}

/// The pieces of a path that count: empty pieces do not, nor does a dot, but
/// for one at the start of a relative path.
pub open spec fn significant(parts: Seq<Seq<char>>, rooted: bool) -> Seq<Seq<char>>
    decreases parts.len(),
{
    if parts.len() == 0 {
        Seq::empty()
    } else {
        let before = significant(parts.drop_last(), rooted);
        let p = parts.last();
        if p.len() == 0 || (p == "."@ && (rooted || parts.len() > 1)) {
            before
        } else {
            before.push(p)
        }
    }
}

/// The components of a path; the root, where there is one, comes first as
/// `/`.
pub open spec fn components_of(path: Seq<char>) -> Seq<Seq<char>> {
    let rooted = path.len() > 0 && path[0] == '/';
    (if rooted {
        seq!["/"@]
    } else {
        Seq::empty()
    }) + significant(text::split_of(path, '/'), rooted)
}

/// The components of a path.
pub fn components(path: &str) -> (r: Vec<String>)
    ensures
        text::views(r@) == components_of(path@),
{
    broadcast use text::views_push;

    let rooted = path.unicode_len() > 0 && path.get_char(0) == '/';
    let parts = text::split(path, '/');
    let ghost all = text::split_of(path@, '/');
    let mut r: Vec<String> = Vec::new();
    if rooted {
        r.push("/".to_string());
    }
    let ghost head = text::views(r@);
    let mut i: usize = 0;
    proof {
        assert(head =~= if rooted {
            seq!["/"@]
        } else {
            Seq::empty()
        });
        assert(head + significant(all.take(0), rooted) =~= head);
    }
    while i < parts.len()
        invariant
            i <= parts@.len(),
            all == text::views(parts@),
            text::views(r@) == head + significant(all.take(i as int), rooted),
        decreases parts@.len() - i,
    {
        broadcast use text::views_push;

        let ghost before = text::views(r@);
        proof {
            assert(all.take(i + 1).drop_last() == all.take(i as int));
            assert(all.take(i + 1).last() == parts@[i as int]@);
        }
        let p = parts[i].as_str();
        if !(p.is_empty() || (text::same(p, ".") && (rooted || i > 0))) {
            r.push(p.to_string());
            proof {
                assert(text::views(r@) =~= head + significant(all.take(i + 1), rooted));
            }
        }
        i = i + 1;
    }
    proof {
        assert(all.take(i as int) == all);
    }
    r
}

/// A directory whose changes are of no interest: the agent's own, those of
/// version control, and build output.
pub open spec fn is_ignored_segment(s: Seq<char>) -> bool {
    s == ".thclaws"@ || s == ".git"@ || s == ".DS_Store"@ || s == "node_modules"@ || s == "target"@
        || s == "dist"@ || s == "build"@ || s == ".next"@ || s == ".cache"@
}

fn ignored_segment(s: &str) -> (r: bool)
    ensures
        r == is_ignored_segment(s@),
{
    text::same(s, ".thclaws") || text::same(s, ".git") || text::same(s, ".DS_Store")
        || text::same(s, "node_modules") || text::same(s, "target") || text::same(s, "dist")
        || text::same(s, "build") || text::same(s, ".next") || text::same(s, ".cache")
}

/// `path` lies at or below `root`.
pub open spec fn is_under(root: Seq<Seq<char>>, path: Seq<Seq<char>>) -> bool {
    root.len() <= path.len() && path.take(root.len() as int) == root
}

/// Whether a change is of no interest: a change of the root itself, which
/// does not say what changed, and one inside an ignored directory. A change
/// outside the root is not held to this.
pub open spec fn path_ignored(root: Seq<Seq<char>>, changed: Seq<Seq<char>>) -> bool {
    is_under(root, changed) && (changed.len() == root.len() || exists|i: int|
        root.len() <= i < changed.len() && is_ignored_segment(#[trigger] changed[i]))
}

/// Whether a changed path is of no interest to a watch on `root`. Both are
/// canonical paths where the files still exist.
pub fn is_path_ignored(root: &str, changed: &str) -> (r: bool)
    ensures
        r == path_ignored(components_of(root@), components_of(changed@)),
{
    let a = components(root);
    let b = components(changed);
    let ghost av = components_of(root@);
    let ghost bv = components_of(changed@);
    proof {
        assert(a@.len() == av.len());
        assert(b@.len() == bv.len());
    }
    if b.len() < a.len() {
        return false;
    }
    let mut i: usize = 0;
    while i < a.len()
        invariant
            i <= a@.len() <= b@.len(),
            av == text::views(a@),
            bv == text::views(b@),
            av == components_of(root@),
            bv == components_of(changed@),
            forall|k: int| 0 <= k < i ==> #[trigger] av[k] == bv[k],
        decreases a@.len() - i,
    {
        if !text::same(a[i].as_str(), b[i].as_str()) {
            proof {
                assert(bv.take(av.len() as int)[i as int] != av[i as int]);
            }
            return false;
        }
        i = i + 1;
    }
    proof {
        assert(bv.take(av.len() as int) =~= av);
    }
    if b.len() == a.len() {
        return true;
    }
    let mut k: usize = a.len();
    while k < b.len()
        invariant
            a@.len() <= k <= b@.len(),
            a@.len() == av.len(),
            bv == text::views(b@),
            bv == components_of(changed@),
            av == components_of(root@),
            is_under(av, bv),
            av.len() < bv.len(),
            forall|j: int| av.len() <= j < k ==> !is_ignored_segment(#[trigger] bv[j]),
        decreases b@.len() - k,
    {
        if ignored_segment(b[k].as_str()) {
            proof {
                assert(is_ignored_segment(bv[k as int]));
            }
            return true;
        }
        k = k + 1;
    }
    false
}

/// Whatever happens in an ignored directory below the root stays unnoticed, so
/// that a job cannot set itself off by what it writes there.
pub proof fn own_writes_are_ignored(root: Seq<Seq<char>>, changed: Seq<Seq<char>>, i: int)
    requires
        is_under(root, changed),
        root.len() <= i < changed.len(),
        is_ignored_segment(changed[i]),
    ensures
        path_ignored(root, changed),
{
}

/// What is ignored below the root is what lies in one of these directories,
/// and the root itself; every other change below the root is noticed, and so is
/// every change outside it.
pub proof fn other_changes_are_noticed(root: Seq<Seq<char>>, changed: Seq<Seq<char>>)
    ensures
        is_under(root, changed) && changed.len() > root.len() && (forall|i: int|
            root.len() <= i < changed.len() ==> !seq![
                ".thclaws"@,
                ".git"@,
                ".DS_Store"@,
                "node_modules"@,
                "target"@,
                "dist"@,
                "build"@,
                ".next"@,
                ".cache"@,
            ].contains(#[trigger] changed[i])) ==> !path_ignored(root, changed),
        !is_under(root, changed) ==> !path_ignored(root, changed),
        path_ignored(root, root),
{
    let names = seq![
        ".thclaws"@,
        ".git"@,
        ".DS_Store"@,
        "node_modules"@,
        "target"@,
        "dist"@,
        "build"@,
        ".next"@,
        ".cache"@,
    ];
    assert(names[0] == ".thclaws"@ && names[1] == ".git"@ && names[2] == ".DS_Store"@ && names[3]
        == "node_modules"@ && names[4] == "target"@ && names[5] == "dist"@ && names[6] == "build"@
        && names[7] == ".next"@ && names[8] == ".cache"@);
    assert forall|s: Seq<char>| #[trigger] is_ignored_segment(s) implies names.contains(s) by {
    }
    assert(root.take(root.len() as int) =~= root);
}

/// Each of these directories is ignored.
pub proof fn working_directories_are_ignored(k: int)
    requires
        0 <= k < 9,
    ensures
        is_ignored_segment(
            seq![
                ".thclaws"@,
                ".git"@,
                ".DS_Store"@,
                "node_modules"@,
                "target"@,
                "dist"@,
                "build"@,
                ".next"@,
                ".cache"@,
            ][k],
        ),
{
}

/// A path below another begins with it, and an absolute one stands alone.
pub proof fn joined_paths_hold_both(base: Seq<char>, child: Seq<char>)
    ensures
        child.len() > 0 && child[0] == '/' ==> join_of(base, child) == child,
        !(child.len() > 0 && child[0] == '/') ==> {
            let r = join_of(base, child);
            &&& text::has_prefix(r, base)
            &&& r.len() >= child.len()
            &&& r.skip(r.len() - child.len()) == child
            &&& base.len() > 0 ==> r[r.len() - child.len() - 1] == '/'
            &&& r.len() <= base.len() + child.len() + 1
        },
{
    reveal_strlit("/");
    let r = join_of(base, child);
    if !(child.len() > 0 && child[0] == '/') {
        assert(r.take(base.len() as int) =~= base);
        assert(r.skip(r.len() - child.len()) =~= child);
    }
}

proof fn lemma_significant(parts: Seq<Seq<char>>, rooted: bool)
    ensures
        forall|i: int|
            0 <= i < parts.len() && (#[trigger] parts[i]).len() > 0 && parts[i] != "."@
                ==> significant(parts, rooted).contains(parts[i]),
        forall|k: int|
            0 <= k < significant(parts, rooted).len() ==> {
                &&& (#[trigger] significant(parts, rooted)[k]).len() > 0
                &&& significant(parts, rooted)[k] == "."@ ==> k == 0 && !rooted
                &&& parts.contains(significant(parts, rooted)[k])
            },
    decreases parts.len(),
{
    if parts.len() > 0 {
        let d = parts.drop_last();
        let p = parts.last();
        let before = significant(d, rooted);
        let after = significant(parts, rooted);
        lemma_significant(d, rooted);
        assert forall|i: int|
            0 <= i < parts.len() && (#[trigger] parts[i]).len() > 0 && parts[i]
                != "."@ implies after.contains(parts[i]) by {
            if i < d.len() {
                assert(d[i] == parts[i]);
                let k = choose|k: int| 0 <= k < before.len() && before[k] == parts[i];
                assert(after[k] == parts[i]);
            } else {
                assert(after[after.len() - 1] == p);
            }
        }
        assert forall|k: int| 0 <= k < after.len() implies {
            &&& (#[trigger] after[k]).len() > 0
            &&& after[k] == "."@ ==> k == 0 && !rooted
            &&& parts.contains(after[k])
        } by {
            if k < before.len() {
                assert(after[k] == before[k]);
                let i = choose|i: int| 0 <= i < d.len() && d[i] == before[k];
                assert(parts[i] == after[k]);
            } else {
                assert(parts[parts.len() - 1] == p);
                if p == "."@ {
                    assert(d.len() == 0);
                }
            }
        }
    }
}

/// Every piece between slashes is a component, but for empty ones and dots;
/// every component is such a piece, or the root, or a dot that a relative path
/// begins with.
pub proof fn components_are_the_pieces_that_count(path: Seq<char>, i: int, k: int)
    requires
        0 <= i < text::split_of(path, '/').len(),
        0 <= k < components_of(path).len(),
    ensures
        text::split_of(path, '/')[i].len() > 0 && text::split_of(path, '/')[i] != "."@
            ==> components_of(path).contains(text::split_of(path, '/')[i]),
        components_of(path)[k].len() > 0,
        components_of(path)[k] == "."@ ==> k == 0,
        text::split_of(path, '/').contains(components_of(path)[k]) || (k == 0 && path[0] == '/'
            && components_of(path)[k] == "/"@),
{
    reveal_strlit("/");
    reveal_strlit(".");
    let parts = text::split_of(path, '/');
    let rooted = path.len() > 0 && path[0] == '/';
    let s = significant(parts, rooted);
    let c = components_of(path);
    lemma_significant(parts, rooted);
    let p = parts[i];
    if p.len() > 0 && p != "."@ {
        let j = choose|j: int| 0 <= j < s.len() && s[j] == p;
        let at = if rooted {
            j + 1
        } else {
            j
        };
        assert(c[at] == p);
    }
    if rooted && k > 0 {
        assert(c[k] == s[k - 1]);
    } else if !rooted {
        assert(c[k] == s[k]);
    } else {
        assert(c[0] == "/"@);
        assert("/"@[0] != "."@[0]);
    }
}

} // verus!
