//! Deploying a project's settings to a pod: what is shipped, what is asked of
//! the pod, and what is said about it.

use vstd::prelude::*;

use crate::ansi;
use crate::archive;
use crate::json::{self, Json};
use crate::keyed;
use crate::text;

verus! {

/// What the user asks for.
#[derive(Debug, PartialEq, Eq)]
pub struct DeployArgs {
    pub pod: String,
    pub token: Option<String>,
    pub include_memory: bool,
    pub allow_stdio_mcp: bool,
    pub dry_run: bool,
    pub full: bool,
    /// Restart the pod once everything is there.
    pub restart: bool,
}

/// What a line is about.
#[derive(Clone, Copy, Debug, PartialEq, Eq, Structural)]
pub enum DeployLog {
    Info,
    Warn,
    Error,
}

// ---------------------------------------------------------------------------
// What is shipped
// ---------------------------------------------------------------------------

/// The entries of the settings directory that are shipped.
pub open spec fn allowed_top(name: Seq<char>, include_memory: bool) -> bool {
    ||| name == "settings.json"@
    ||| name == "mcp.json"@
    ||| name == "AGENTS.md"@
    ||| name == "agents"@
    ||| name == "skills"@
    ||| name == "commands"@
    ||| name == "plugins"@
    ||| name == "plugins.json"@
    ||| name == "prompt"@
    ||| name == "rules"@
    ||| name == "kms"@
    ||| include_memory && name == "memory"@
}

/// The entries of the settings directory that are shipped, in the order in
/// which they are looked for.
pub open spec fn top_names(include_memory: bool) -> Seq<Seq<char>> {
    let names = seq![
        "settings.json"@,
        "mcp.json"@,
        "AGENTS.md"@,
        "agents"@,
        "skills"@,
        "commands"@,
        "plugins"@,
        "plugins.json"@,
        "prompt"@,
        "rules"@,
        "kms"@,
    ];
    if include_memory {
        names.push("memory"@)
    } else {
        names
    }
}

/// The entries of the settings directory that are looked for; nothing else in
/// it is touched.
pub fn top_level(include_memory: bool) -> (r: Vec<&'static str>)
    ensures
        text::views(r@) == top_names(include_memory),
        forall|name: Seq<char>| #[trigger]
            allowed_top(name, include_memory) <==> text::views(r@).contains(name),
{
    let mut r: Vec<&'static str> = vec![
        "settings.json",
        "mcp.json",
        "AGENTS.md",
        "agents",
        "skills",
        "commands",
        "plugins",
        "plugins.json",
        "prompt",
        "rules",
        "kms",
    ];
    if include_memory {
        r.push("memory");
    }
    proof {
        let names = text::views(r@);
        assert(names =~= top_names(include_memory));
        assert forall|name: Seq<char>| #[trigger]
            allowed_top(name, include_memory) implies names.contains(name) by {
            assert(names[0] == "settings.json"@);
            assert(names[1] == "mcp.json"@);
            assert(names[2] == "AGENTS.md"@);
            assert(names[3] == "agents"@);
            assert(names[4] == "skills"@);
            assert(names[5] == "commands"@);
            assert(names[6] == "plugins"@);
            assert(names[7] == "plugins.json"@);
            assert(names[8] == "prompt"@);
            assert(names[9] == "rules"@);
            assert(names[10] == "kms"@);
            if include_memory {
                assert(names[11] == "memory"@);
            }
        }
    }
    r
}

/// The document beside the settings directory that is always looked for.
pub const ROOT_DOC: &'static str = "AGENTS.md";

/// The names in a list with commas, without blanks around them.
pub open spec fn listed_names(parts: Seq<Seq<char>>) -> Seq<Seq<char>>
    decreases parts.len(),
{
    if parts.len() == 0 {
        Seq::empty()
    } else if text::trim_of(parts.last()).len() == 0 {
        listed_names(parts.drop_last())
    } else {
        listed_names(parts.drop_last()).push(text::trim_of(parts.last()))
    }
}

/// The documents beside the settings directory that belong to it: the usual
/// one, and those of a list with commas.
pub fn root_documents(more: &str) -> (r: Vec<String>)
    ensures
        text::views(r@) == seq![ROOT_DOC@] + listed_names(text::split_of(more@, ',')),
{
    broadcast use text::views_push;

    let parts = text::split(more, ',');
    let ghost all = text::split_of(more@, ',');
    let mut r: Vec<String> = Vec::new();
    r.push(ROOT_DOC.to_string());
    let n = parts.len();
    let mut i: usize = 0;
    proof {
        assert(text::views(r@) =~= seq![ROOT_DOC@] + listed_names(all.take(0)));
    }
    while i < n
        invariant
            n == parts@.len(),
            all == text::views(parts@),
            i <= n,
            text::views(r@) == seq![ROOT_DOC@] + listed_names(all.take(i as int)),
        decreases n - i,
    {
        let name = text::trim(parts[i].as_str());
        proof {
            assert(all[i as int] == parts@[i as int]@);
            assert(all.take(i + 1).drop_last() == all.take(i as int));
            assert(all.take(i + 1).last() == all[i as int]);
        }
        if name.unicode_len() > 0 {
            let ghost before = listed_names(all.take(i as int));
            r.push(name.to_string());
            proof {
                assert((seq![ROOT_DOC@] + before).push(name@) =~= seq![ROOT_DOC@] + before.push(
                    name@,
                ));
            }
        }
        i = i + 1;
    }
    proof {
        assert(all.take(n as int) == all);
    }
    r
}

/// The entries that are never shipped.
pub open spec fn never_shipped(name: Seq<char>) -> bool {
    name == "sessions"@ || name == "team"@ || name == ".env"@
}

/// A path as it is shipped: with slashes.
pub open spec fn shipped_path(rel: Seq<char>) -> Seq<char> {
    text::replace_of(rel, "\\"@, "/"@)
}

proof fn lemma_no_backslash(rel: Seq<char>)
    ensures
        !shipped_path(rel).contains('\\'),
    decreases rel.len(),
{
    reveal_strlit("\\");
    reveal_strlit("/");
    let p = "\\"@;
    let w = "/"@;
    let r = shipped_path(rel);
    if rel.len() > 0 {
        let rest = rel.skip(1);
        lemma_no_backslash(rest);
        let first = if text::has_prefix(rel, p) {
            w
        } else {
            seq![rel[0]]
        };
        assert(first.len() == 1);
        assert(first[0] != '\\') by {
            if rel[0] == '\\' {
                assert(rel.take(1) =~= p);
            }
        }
        assert(r == first + shipped_path(rest));
        if r.contains('\\') {
            let i = choose|i: int| 0 <= i < r.len() && r[i] == '\\';
            assert(i > 0);
            assert(shipped_path(rest)[i - 1] == '\\');
        }
    }
}

/// The first piece of a path.
pub open spec fn top_of(path: Seq<char>) -> Seq<char> {
    text::before_first(path, "/"@)
}

/// Whether a file of the settings directory is shipped.
pub open spec fn ships(path: Seq<char>, include_memory: bool) -> bool {
    allowed_top(top_of(path), include_memory) && !never_shipped(top_of(path))
}

fn is_shipped(path: &str, include_memory: bool) -> (r: bool)
    ensures
        r == ships(path@, include_memory),
{
    let top = text::split_once(path, "/").0;
    let allowed = text::same(top, "settings.json") || text::same(top, "mcp.json") || text::same(
        top,
        "AGENTS.md",
    ) || text::same(top, "agents") || text::same(top, "skills") || text::same(top, "commands")
        || text::same(top, "plugins") || text::same(top, "plugins.json") || text::same(
        top,
        "prompt",
    ) || text::same(top, "rules") || text::same(top, "kms") || (include_memory && text::same(
        top,
        "memory",
    ));
    allowed && !(text::same(top, "sessions") || text::same(top, "team") || text::same(top, ".env"))
}

/// A file to ship.
#[derive(Debug, PartialEq, Eq)]
pub struct FileMeta {
    pub path: String,
    pub size: u64,
    pub sha256: String,
    /// It lies beside the settings directory, not in it.
    pub beside: bool,
}

pub struct FileView {
    pub path: Seq<char>,
    pub size: u64,
    pub sha256: Seq<char>,
    pub beside: bool,
}

impl View for FileMeta {
    type V = FileView;

    open spec fn view(&self) -> FileView {
        FileView {
            path: self.path@,
            size: self.size,
            sha256: self.sha256@,
            beside: self.beside,
        }
    }
}

/// What is known of a file with some bytes.
pub open spec fn file_of(path: Seq<char>, bytes: Seq<u8>, beside: bool) -> FileView {
    FileView { path, size: bytes.len() as u64, sha256: archive::sha256_hex(bytes), beside }
}

fn file_meta(path: &str, bytes: &Vec<u8>, beside: bool) -> (r: FileMeta)
    ensures
        r@ == file_of(path@, bytes@, beside),
{
    FileMeta {
        path: path.to_string(),
        size: bytes.len() as u64,
        sha256: archive::sha256_of(bytes.as_slice()),
        beside,
    }
}

/// The files to ship, by path.
#[derive(Debug, PartialEq, Eq)]
pub struct Bundle {
    pub files: Vec<FileMeta>,
}

impl View for Bundle {
    type V = Seq<FileView>;

    open spec fn view(&self) -> Seq<FileView> {
        text::views(self.files@)
    }
}

/// The file of a path.
pub open spec fn find_file(s: Seq<FileView>, path: Seq<char>) -> Option<FileView>
    decreases s.len(),
{
    if s.len() == 0 {
        None
    } else if s[0].path == path {
        Some(s[0])
    } else {
        find_file(s.skip(1), path)
    }
}

/// The files with one more: in place of the one of that path, or before the
/// first that comes after it in order.
pub open spec fn with_file(s: Seq<FileView>, f: FileView) -> Seq<FileView>
    decreases s.len(),
{
    if s.len() == 0 {
        seq![f]
    } else if s[0].path == f.path {
        seq![f] + s.skip(1)
    } else if text::le(f.path, s[0].path) {
        seq![f] + s
    } else {
        seq![s[0]] + with_file(s.skip(1), f)
    }
}

/// The files are in order, each path once.
pub open spec fn in_order(s: Seq<FileView>) -> bool {
    forall|i: int, j: int|
        0 <= i < j < s.len() ==> text::le((#[trigger] s[i]).path, (#[trigger] s[j]).path)
            && s[i].path != s[j].path
}

proof fn lemma_with_file(s: Seq<FileView>, f: FileView, i: int)
    requires
        0 <= i <= s.len(),
        forall|k: int|
            0 <= k < i ==> (#[trigger] s[k]).path != f.path && !text::le(f.path, s[k].path),
        i < s.len() ==> s[i].path == f.path || text::le(f.path, s[i].path),
    ensures
        with_file(s, f) == if i < s.len() && s[i].path == f.path {
            s.update(i, f)
        } else {
            s.insert(i, f)
        },
    decreases i,
{
    if i > 0 {
        let t = s.skip(1);
        assert forall|k: int| 0 <= k < i - 1 implies (#[trigger] t[k]).path != f.path && !text::le(
            f.path,
            t[k].path,
        ) by {
            assert(t[k] == s[k + 1]);
        }
        lemma_with_file(t, f, i - 1);
        if i < s.len() && s[i].path == f.path {
            assert(seq![s[0]] + t.update(i - 1, f) =~= s.update(i, f));
        } else {
            assert(seq![s[0]] + t.insert(i - 1, f) =~= s.insert(i, f));
        }
    } else if s.len() == 0 {
        assert(seq![f] =~= s.insert(0, f));
    } else if s[0].path == f.path {
        assert(seq![f] + s.skip(1) =~= s.update(0, f));
    } else {
        assert(seq![f] + s =~= s.insert(0, f));
    }
}

/// A file that was added is there; the others stay.
pub proof fn added_file_is_found(s: Seq<FileView>, f: FileView, other: Seq<char>)
    ensures
        find_file(with_file(s, f), f.path) == Some(f),
        other != f.path ==> find_file(with_file(s, f), other) == find_file(s, other),
    decreases s.len(),
{
    let w = with_file(s, f);
    if s.len() == 0 {
        assert(w.skip(1) =~= Seq::empty());
        reveal_with_fuel(find_file, 2);
    } else if s[0].path == f.path {
        assert(w.skip(1) =~= s.skip(1));
    } else if text::le(f.path, s[0].path) {
        assert(w.skip(1) =~= s);
    } else {
        added_file_is_found(s.skip(1), f, other);
        assert(w.skip(1) =~= with_file(s.skip(1), f));
    }
}

proof fn lemma_files_come_from(s: Seq<FileView>, f: FileView)
    ensures
        forall|i: int|
            0 <= i < with_file(s, f).len() ==> (#[trigger] with_file(s, f)[i]) == f || s.contains(
                with_file(s, f)[i],
            ),
    decreases s.len(),
{
    let w = with_file(s, f);
    if s.len() > 0 {
        lemma_files_come_from(s.skip(1), f);
        assert forall|i: int| 0 <= i < w.len() implies (#[trigger] w[i]) == f || s.contains(
            w[i],
        ) by {
            if s[0].path == f.path {
                if i > 0 {
                    assert(w[i] == s[i]);
                }
            } else if text::le(f.path, s[0].path) {
                if i > 0 {
                    assert(w[i] == s[i - 1]);
                }
            } else if i == 0 {
                assert(w[0] == s[0]);
            } else {
                let v = with_file(s.skip(1), f);
                assert(w[i] == v[i - 1]);
                if v[i - 1] != f {
                    let k = choose|k: int| 0 <= k < s.skip(1).len() && s.skip(1)[k] == v[i - 1];
                    assert(s[k + 1] == w[i]);
                }
            }
        }
    }
}

/// Adding a file keeps the files in order.
pub proof fn adding_keeps_order(s: Seq<FileView>, f: FileView)
    requires
        in_order(s),
    ensures
        in_order(with_file(s, f)),
    decreases s.len(),
{
    let w = with_file(s, f);
    if s.len() > 0 {
        let t = s.skip(1);
        assert(in_order(t)) by {
            assert forall|i: int, j: int| 0 <= i < j < t.len() implies text::le(
                (#[trigger] t[i]).path,
                (#[trigger] t[j]).path,
            ) && t[i].path != t[j].path by {
                assert(t[i] == s[i + 1] && t[j] == s[j + 1]);
            }
        }
        adding_keeps_order(t, f);
        if s[0].path == f.path {
            assert forall|i: int, j: int| 0 <= i < j < w.len() implies text::le(
                (#[trigger] w[i]).path,
                (#[trigger] w[j]).path,
            ) && w[i].path != w[j].path by {
                assert(w[j] == s[j]);
                assert(w[i].path == s[i].path);
            }
        } else if text::le(f.path, s[0].path) {
            assert forall|i: int, j: int| 0 <= i < j < w.len() implies text::le(
                (#[trigger] w[i]).path,
                (#[trigger] w[j]).path,
            ) && w[i].path != w[j].path by {
                assert(w[j] == s[j - 1]);
                if i > 0 {
                    assert(w[i] == s[i - 1]);
                } else if j > 1 {
                    assert(text::le(s[0].path, s[j - 1].path));
                    text::le_is_transitive(f.path, s[0].path, s[j - 1].path);
                    if f.path == s[j - 1].path {
                        text::le_is_antisymmetric(f.path, s[0].path);
                    }
                }
            }
        } else {
            let v = with_file(t, f);
            lemma_files_come_from(t, f);
            text::le_is_total(f.path, s[0].path);
            assert forall|i: int, j: int| 0 <= i < j < w.len() implies text::le(
                (#[trigger] w[i]).path,
                (#[trigger] w[j]).path,
            ) && w[i].path != w[j].path by {
                assert(w[j] == v[j - 1]);
                if i > 0 {
                    assert(w[i] == v[i - 1]);
                } else if v[j - 1] != f {
                    let k = choose|k: int| 0 <= k < t.len() && t[k] == v[j - 1];
                    assert(t[k] == s[k + 1]);
                    assert(text::le(s[0].path, s[k + 1].path));
                }
            }
        }
    }
}

/// Only such files are in a bundle as may be shipped: those of the settings
/// directory that are, and some that lie beside it, but no private ones.
pub open spec fn may_ship(f: FileView) -> bool {
    &&& f.beside || ships(f.path, true)
    &&& !never_shipped(top_of(f.path))
    &&& !f.path.contains('\\')
}

pub open spec fn is_bundle(s: Seq<FileView>) -> bool {
    in_order(s) && forall|i: int| 0 <= i < s.len() ==> may_ship(#[trigger] s[i])
}

proof fn lemma_bundle_grows(s: Seq<FileView>, f: FileView)
    requires
        is_bundle(s),
        may_ship(f),
    ensures
        is_bundle(with_file(s, f)),
{
    adding_keeps_order(s, f);
    lemma_files_come_from(s, f);
    let w = with_file(s, f);
    assert forall|i: int| 0 <= i < w.len() implies may_ship(#[trigger] w[i]) by {
        if w[i] != f {
            let k = choose|k: int| 0 <= k < s.len() && s[k] == w[i];
            assert(may_ship(s[k]));
        }
    }
}

impl Bundle {
    /// A bundle without files.
    pub fn new() -> (r: Bundle)
        ensures
            r@ == Seq::<FileView>::empty(),
            is_bundle(r@),
    {
        let r = Bundle { files: Vec::new() };
        assert(r@ =~= Seq::<FileView>::empty());
        r
    }

    /// The place of a path: of the file of that path, or of the first that
    /// comes after it.
    fn place(&self, path: &str) -> (r: usize)
        ensures
            r <= self@.len(),
            forall|k: int|
                0 <= k < r ==> (#[trigger] self@[k]).path != path@ && !text::le(
                    path@,
                    self@[k].path,
                ),
            r < self@.len() ==> self@[r as int].path == path@ || text::le(
                path@,
                self@[r as int].path,
            ),
    {
        let n = self.files.len();
        let mut i: usize = 0;
        while i < n && !text::same(self.files[i].path.as_str(), path) && !text::at_most(
            path,
            self.files[i].path.as_str(),
        )
            invariant
                n == self.files@.len(),
                i <= n,
                forall|k: int|
                    0 <= k < i ==> (#[trigger] self@[k]).path != path@ && !text::le(
                        path@,
                        self@[k].path,
                    ),
            decreases n - i,
        {
            assert(self@[i as int].path == self.files@[i as int].path@);
            i = i + 1;
        }
        i
    }

    fn insert(&mut self, f: FileMeta)
        ensures
            final(self)@ == with_file(old(self)@, f@),
    {
        let i = self.place(f.path.as_str());
        let ghost before = self@;
        proof {
            lemma_with_file(before, f@, i as int);
        }
        if i < self.files.len() && text::same(self.files[i].path.as_str(), f.path.as_str()) {
            self.files[i] = f;
            assert(self@ =~= before.update(i as int, f@));
        } else {
            self.files.insert(i, f);
            assert(self@ =~= before.insert(i as int, f@));
        }
    }

    /// Takes in the bytes of a file of the settings directory.
    pub(crate) fn set_file(&mut self, path: &str, bytes: &Vec<u8>)
        ensures
            final(self)@ == with_file(old(self)@, file_of(path@, bytes@, false)),
    {
        self.insert(file_meta(path, bytes, false));
    }

    /// The file of a path.
    pub fn find(&self, path: &str) -> (r: Option<&FileMeta>)
        ensures
            match r {
                Some(f) => find_file(self@, path@) == Some(f@),
                None => find_file(self@, path@) is None,
            },
    {
        let ghost all = self@;
        let n = self.files.len();
        let mut i: usize = 0;
        proof {
            assert(all.skip(0) =~= all);
        }
        while i < n
            invariant
                n == self.files@.len(),
                all == self@,
                i <= n,
                find_file(all, path@) == find_file(all.skip(i as int), path@),
            decreases n - i,
        {
            proof {
                assert(all.skip(i as int)[0] == self.files@[i as int]@);
                assert(all.skip(i as int).skip(1) =~= all.skip(i + 1));
            }
            if text::same(self.files[i].path.as_str(), path) {
                return Some(&self.files[i]);
            }
            i = i + 1;
        }
        None
    }

    /// Takes in a file of the settings directory, if it is one that is
    /// shipped. `rel` is its path in that directory.
    pub fn offer(&mut self, rel: &str, bytes: &Vec<u8>, include_memory: bool) -> (r: bool)
        requires
            is_bundle(old(self)@),
        ensures
            r == ships(shipped_path(rel@), include_memory),
            final(self)@ == if r {
                with_file(old(self)@, file_of(shipped_path(rel@), bytes@, false))
            } else {
                old(self)@
            },
            is_bundle(final(self)@),
    {
        proof {
            reveal_strlit("\\");
        }
        let path = text::replace(rel, "\\", "/");
        if !is_shipped(path.as_str(), include_memory) {
            return false;
        }
        proof {
            lemma_no_backslash(rel@);
            lemma_bundle_grows(self@, file_of(path@, bytes@, false));
        }
        self.insert(file_meta(path.as_str(), bytes, false));
        true
    }

    /// Takes in a file that lies beside the settings directory, if its name is
    /// one of `docs`, no private one, and the directory has none of that name.
    pub fn offer_beside(&mut self, name: &str, bytes: &Vec<u8>, docs: &Vec<String>) -> (r: bool)
        requires
            is_bundle(old(self)@),
        ensures
            r == (text::views(docs@).contains(name@) && !never_shipped(top_of(name@))
                && !name@.contains('\\') && find_file(old(self)@, name@) is None),
            final(self)@ == if r {
                with_file(old(self)@, file_of(name@, bytes@, true))
            } else {
                old(self)@
            },
            is_bundle(final(self)@),
    {
        if !keyed::has_name(docs, name) || self.find(name).is_some() {
            return false;
        }
        let top = text::split_once(name, "/").0;
        if text::same(top, "sessions") || text::same(top, "team") || text::same(top, ".env") {
            return false;
        }
        if text::contains(name, "\\") {
            proof {
                reveal_strlit("\\");
                let i = choose|i: int| text::occurs_at(name@, "\\"@, i);
                assert(name@.subrange(i, i + 1)[0] == name@[i]);
            }
            return false;
        }
        proof {
            reveal_strlit("\\");
            if name@.contains('\\') {
                let i = choose|i: int| 0 <= i < name@.len() && name@[i] == '\\';
                assert(name@.subrange(i, i + 1) =~= "\\"@);
                assert(text::occurs_at(name@, "\\"@, i));
            }
            lemma_bundle_grows(self@, file_of(name@, bytes@, true));
        }
        self.insert(file_meta(name, bytes, true));
        true
    }
}

/// Sessions, team state and keys are never in a bundle.
pub proof fn private_files_stay_home(s: Seq<FileView>, i: int)
    requires
        is_bundle(s),
        0 <= i < s.len(),
    ensures
        !never_shipped(top_of(s[i].path)),
{
    assert(may_ship(s[i]));
}

// ---------------------------------------------------------------------------
// Servers that a pod cannot reach
// ---------------------------------------------------------------------------

/// A server that is a program on this machine: it says so, or does not say
/// what it is.
pub open spec fn is_stdio(server: json::JsonView) -> bool {
    match server.text_at("transport"@) {
        Some(t) => t == "stdio"@,
        None => true,
    }
}

/// The servers that a document lists, where it has a list.
pub open spec fn servers_of(doc: json::JsonView) -> Option<Seq<(Seq<char>, json::JsonView)>> {
    match doc.get("mcpServers"@) {
        Some(json::JsonView::Obj(m)) => Some(m),
        _ => None,
    }
}

/// The names of the servers that are programs on this machine.
pub open spec fn stdio_of(m: Seq<(Seq<char>, json::JsonView)>) -> Seq<Seq<char>>
    decreases m.len(),
{
    if m.len() == 0 {
        Seq::empty()
    } else if is_stdio(m.last().1) {
        stdio_of(m.drop_last()).push(m.last().0)
    } else {
        stdio_of(m.drop_last())
    }
}

/// The other servers.
pub open spec fn remote_of(m: Seq<(Seq<char>, json::JsonView)>) -> Seq<(Seq<char>, json::JsonView)>
    decreases m.len(),
{
    if m.len() == 0 {
        m
    } else if is_stdio(m.last().1) {
        remote_of(m.drop_last())
    } else {
        remote_of(m.drop_last()).push(m.last())
    }
}

fn runs_here(server: &Json) -> (r: bool)
    ensures
        r == is_stdio(server@),
{
    match server.str_at("transport") {
        Some(t) => text::same(t, "stdio"),
        None => true,
    }
}

/// The names of the servers that are programs on this machine; none where the
/// document has no list of servers.
pub open spec fn stdio_names(doc: json::JsonView) -> Seq<Seq<char>> {
    match servers_of(doc) {
        Some(m) => stdio_of(m),
        None => Seq::empty(),
    }
}

fn stdio_servers(doc: &Json) -> (r: Vec<String>)
    ensures
        text::views(r@) == stdio_names(doc@),
{
    let mut names: Vec<String> = Vec::new();
    if let Some(Json::Obj(m)) = doc.get("mcpServers") {
        let ghost all = Json::Obj(*m)@.members();
        let n = m.len();
        let mut i: usize = 0;
        while i < n
            invariant
                n == m@.len(),
                n == all.len(),
                i <= n,
                forall|k: int| 0 <= k < n ==> #[trigger] all[k] == (m@[k].0@, m@[k].1@),
                text::views(names@) == stdio_of(all.take(i as int)),
            decreases n - i,
        {
            broadcast use text::views_push;

            proof {
                assert(all.take(i + 1).drop_last() == all.take(i as int));
                assert(all.take(i + 1).last() == all[i as int]);
            }
            if runs_here(&m[i].1) {
                names.push(m[i].0.clone());
            }
            i = i + 1;
        }
        proof {
            assert(all.take(n as int) == all);
        }
    } else {
        assert(text::views(names@) =~= stdio_names(doc@));
    }
    names
}

/// The document of a text, or what is said where it is none.
pub open spec fn mcp_document(body: Seq<char>) -> Result<json::JsonView, Seq<char>> {
    match json::json_parse(body) {
        Ok(v) => Ok(v),
        Err(e) => Err("parse mcp.json: "@ + e),
    }
}

fn parse_mcp(body: &str) -> (r: Result<Json, String>)
    ensures
        match r {
            Ok(j) => mcp_document(body@) == Ok::<json::JsonView, Seq<char>>(j@),
            Err(e) => mcp_document(body@) == Err::<json::JsonView, Seq<char>>(e@),
        },
{
    match json::parse_json(body) {
        Ok(j) => Ok(j),
        Err(e) => {
            let mut m = "parse mcp.json: ".to_string();
            m.append(e.as_str());
            Err(m)
        },
    }
}

/// The names of the servers in a text that are programs on this machine.
pub fn scan_stdio_mcp_names(body: &str) -> (r: Result<Vec<String>, String>)
    ensures
        match (r, mcp_document(body@)) {
            (Ok(names), Ok(doc)) => text::views(names@) == stdio_names(doc),
            (Err(e), Err(x)) => e@ == x,
            _ => false,
        },
{
    match parse_mcp(body) {
        Ok(doc) => Ok(stdio_servers(&doc)),
        Err(e) => Err(e),
    }
}

/// A document without the servers that are programs on this machine.
pub open spec fn without_stdio(doc: json::JsonView) -> json::JsonView {
    match servers_of(doc) {
        Some(m) => doc.with("mcpServers"@, json::JsonView::Obj(remote_of(m))),
        None => doc,
    }
}

fn strip_servers(doc: Json) -> (r: Json)
    ensures
        r@ == without_stdio(doc@),
{
    let mut kept: Vec<(String, Json)> = Vec::new();
    let ghost mut all: Seq<(Seq<char>, json::JsonView)> = Seq::empty();
    match doc.get("mcpServers") {
        Some(Json::Obj(m)) => {
            proof {
                all = Json::Obj(*m)@.members();
            }
            let n = m.len();
            let mut i: usize = 0;
            proof {
                assert(Json::Obj(kept)@.members() =~= remote_of(all.take(0)));
            }
            while i < n
                invariant
                    n == m@.len(),
                    n == all.len(),
                    i <= n,
                    forall|k: int| 0 <= k < n ==> #[trigger] all[k] == (m@[k].0@, m@[k].1@),
                    Json::Obj(kept)@.members() == remote_of(all.take(i as int)),
                decreases n - i,
            {
                proof {
                    assert(all.take(i + 1).drop_last() == all.take(i as int));
                    assert(all.take(i + 1).last() == all[i as int]);
                }
                if !runs_here(&m[i].1) {
                    let ghost before = Json::Obj(kept)@.members();
                    let c = m[i].1.copy();
                    kept.push((m[i].0.clone(), c));
                    proof {
                        assert(Json::Obj(kept)@.members() =~= before.push(all[i as int]));
                    }
                }
                i = i + 1;
            }
            proof {
                assert(all.take(n as int) == all);
                assert(servers_of(doc@) == Some(all));
            }
        },
        _ => {
            return doc;
        },
    }
    let mut r = doc;
    r.put("mcpServers", Json::Obj(kept));
    r
}

/// A text without the servers that are programs on this machine, and their
/// names; nothing where there are none.
pub fn filter_stdio_mcp(body: &str) -> (r: Result<Option<(Vec<u8>, Vec<String>)>, String>)
    ensures
        match mcp_document(body@) {
            Ok(doc) => match r {
                Ok(Some((bytes, names))) => stdio_names(doc).len() > 0 && text::views(names@)
                    == stdio_names(doc) && bytes@ == json::json_pretty(without_stdio(doc)),
                Ok(None) => stdio_names(doc).len() == 0,
                Err(_) => false,
            },
            Err(x) => r matches Err(e) && e@ == x,
        },
{
    let doc = match parse_mcp(body) {
        Ok(doc) => doc,
        Err(e) => return Err(e),
    };
    let names = stdio_servers(&doc);
    proof {
        assert(text::views(names@).len() == names@.len());
    }
    if names.len() == 0 {
        return Ok(None);
    }
    let stripped = strip_servers(doc);
    match json::render_pretty(&stripped) {
        Ok(bytes) => Ok(Some((bytes, names))),
        Err(e) => {
            let mut m = "serialize filtered mcp.json: ".to_string();
            m.append(e.as_str());
            Err(m)
        },
    }
}

/// Refuses a text with servers that are programs on this machine.
pub fn scan_mcp_json(body: &str) -> (r: Result<(), String>)
    ensures
        match mcp_document(body@) {
            Ok(doc) => match r {
                Ok(_) => stdio_names(doc).len() == 0,
                Err(e) => stdio_names(doc).len() > 0 && e@
                    == "mcp.json contains stdio MCP servers that won't resolve on the pod: "@
                    + text::join_of(stdio_names(doc), ", "@) + " (each spawns a local binary)"@,
            },
            Err(x) => r matches Err(e) && e@ == x,
        },
{
    let names = match scan_stdio_mcp_names(body) {
        Ok(names) => names,
        Err(e) => return Err(e),
    };
    proof {
        assert(text::views(names@).len() == names@.len());
    }
    if names.len() == 0 {
        return Ok(());
    }
    let mut m =
        "mcp.json contains stdio MCP servers that won't resolve on the pod: ".to_string();
    m.append(text::join(&names, ", ").as_str());
    m.append(" (each spawns a local binary)");
    Err(m)
}

/// What is left after stripping has no program of this machine, and nothing
/// else is lost: every server is either named or left.
pub proof fn stripping_leaves_remote_servers(m: Seq<(Seq<char>, json::JsonView)>)
    ensures
        stdio_of(remote_of(m)) == Seq::<Seq<char>>::empty(),
        stdio_of(m).len() + remote_of(m).len() == m.len(),
        forall|i: int| 0 <= i < remote_of(m).len() ==> m.contains(#[trigger] remote_of(m)[i]),
    decreases m.len(),
{
    if m.len() > 0 {
        let t = m.drop_last();
        stripping_leaves_remote_servers(t);
        let r = remote_of(m);
        if !is_stdio(m.last().1) {
            assert(r.drop_last() =~= remote_of(t));
        }
        assert forall|i: int| 0 <= i < r.len() implies m.contains(#[trigger] r[i]) by {
            if i < remote_of(t).len() {
                assert(t.contains(remote_of(t)[i]));
                let k = choose|k: int| 0 <= k < t.len() && t[k] == remote_of(t)[i];
                assert(m[k] == r[i]);
            } else {
                assert(m[m.len() - 1] == r[i]);
            }
        }
    }
}

// ---------------------------------------------------------------------------
// What the pod tells
// ---------------------------------------------------------------------------

/// A line to show.
#[derive(Debug, PartialEq, Eq)]
pub struct LogLine {
    pub text: String,
    pub level: DeployLog,
}

pub struct LogView {
    pub text: Seq<char>,
    pub level: DeployLog,
}

impl View for LogLine {
    type V = LogView;

    open spec fn view(&self) -> LogView {
        LogView { text: self.text@, level: self.level }
    }
}

/// A line as it is shown: without terminal escapes, whatever it quotes.
pub open spec fn shown(text: Seq<char>, level: DeployLog) -> LogView {
    LogView { text: ansi::plain_text(text), level }
}

pub open spec fn log(text: Seq<char>, level: DeployLog) -> LogView {
    shown("[deploy] "@ + text, level)
}

/// A line that quotes no escape is shown as it is.
pub proof fn plain_lines_are_shown_whole(text: Seq<char>, level: DeployLog)
    requires
        !text.contains('\x1b'),
    ensures
        log(text, level).text == "[deploy] "@ + text,
{
    reveal_strlit("[deploy] ");
    let whole = "[deploy] "@ + text;
    if whole.contains('\x1b') {
        let i = choose|i: int| 0 <= i < whole.len() && whole[i] == '\x1b';
        assert(i >= "[deploy] "@.len());
        assert(text[i - "[deploy] "@.len()] == '\x1b');
    }
    ansi::plain_text_has_no_escape(whole);
}

/// No line holds an escape.
pub open spec fn are_plain(lines: Seq<LogView>) -> bool {
    forall|i: int| 0 <= i < lines.len() ==> !(#[trigger] lines[i]).text.contains('\x1b')
}

pub(crate) fn show(text: &str, level: DeployLog) -> (r: LogLine)
    ensures
        r@ == shown(text@, level),
{
    LogLine { text: ansi::plain(text), level }
}

pub(crate) fn line(text: &str, level: DeployLog) -> (r: LogLine)
    ensures
        r@ == log(text@, level),
{
    let mut m = "[deploy] ".to_string();
    m.append(text);
    show(m.as_str(), level)
}

/// The members of an object that are not null, as `name=value`.
pub open spec fn member_texts(m: Seq<(Seq<char>, json::JsonView)>) -> Seq<Seq<char>>
    decreases m.len(),
{
    if m.len() == 0 {
        Seq::empty()
    } else if m.last().1 is Null {
        member_texts(m.drop_last())
    } else {
        member_texts(m.drop_last()).push(m.last().0 + "="@ + json::json_text(m.last().1))
    }
}

/// A text in short: of an object its members, of anything else the text
/// itself.
pub open spec fn summary_of(text: Seq<char>) -> Seq<char> {
    match json::json_parse(text) {
        Ok(json::JsonView::Obj(m)) => text::join_of(member_texts(m), " "@),
        _ => text,
    }
}

/// A text in short.
pub fn summarize(body: &str) -> (r: String)
    ensures
        r@ == summary_of(body@),
{
    let doc = match json::parse_json(body) {
        Ok(doc) => doc,
        Err(_) => return body.to_string(),
    };
    match &doc {
        Json::Obj(m) => {
            let ghost all = doc@.members();
            let mut parts: Vec<String> = Vec::new();
            let n = m.len();
            let mut i: usize = 0;
            while i < n
                invariant
                    n == m@.len(),
                    n == all.len(),
                    i <= n,
                    forall|k: int| 0 <= k < n ==> #[trigger] all[k] == (m@[k].0@, m@[k].1@),
                    text::views(parts@) == member_texts(all.take(i as int)),
                decreases n - i,
            {
                broadcast use text::views_push;

                proof {
                    assert(all.take(i + 1).drop_last() == all.take(i as int));
                    assert(all.take(i + 1).last() == all[i as int]);
                }
                match &m[i].1 {
                    Json::Null => {},
                    v => {
                        let mut part = m[i].0.clone();
                        part.append("=");
                        part.append(json::render_json(v).as_str());
                        parts.push(part);
                    },
                }
                i = i + 1;
            }
            proof {
                assert(all.take(n as int) == all);
            }
            text::join(&parts, " ")
        },
        _ => body.to_string(),
    }
}

/// What is known of the event being read, and the lines so far.
pub struct SseView {
    pub event: Option<Seq<char>>,
    pub data: Option<Seq<char>>,
    pub lines: Seq<LogView>,
}

/// The line about an event.
pub open spec fn event_line(event: Seq<char>, data: Seq<char>) -> LogView {
    log(
        event + ": "@ + summary_of(data),
        if event == "error"@ {
            DeployLog::Error
        } else {
            DeployLog::Info
        },
    )
}

/// The end of an event: it is told if it has both a name and data, and
/// forgotten either way.
pub open spec fn event_ends(s: SseView) -> SseView {
    SseView {
        event: None,
        data: None,
        lines: match (s.event, s.data) {
            (Some(e), Some(d)) => s.lines.push(event_line(e, d)),
            _ => s.lines,
        },
    }
}

/// One line of the stream. A blank line ends the event.
pub open spec fn sse_step(s: SseView, line: Seq<char>) -> SseView {
    if text::has_prefix(line, "event:"@) {
        SseView { event: Some(text::trim_of(line.skip("event:"@.len() as int))), ..s }
    } else if text::has_prefix(line, "data:"@) {
        SseView { data: Some(text::trim_of(line.skip("data:"@.len() as int))), ..s }
    } else if text::trim_of(line).len() == 0 {
        event_ends(s)
    } else {
        s
    }
}

pub open spec fn sse_fold(lines: Seq<Seq<char>>) -> SseView
    decreases lines.len(),
{
    if lines.len() == 0 {
        SseView { event: None, data: None, lines: Seq::empty() }
    } else {
        sse_step(sse_fold(lines.drop_last()), lines.last())
    }
}

/// What the stream of a pod tells, event by event.
pub open spec fn sse_lines(text: Seq<char>) -> Seq<LogView> {
    event_ends(sse_fold(text::lines_of(text))).lines
}

proof fn lemma_log_is_plain(text: Seq<char>, level: DeployLog)
    ensures
        !shown(text, level).text.contains('\x1b'),
        !log(text, level).text.contains('\x1b'),
{
    ansi::plain_text_has_no_escape(text);
    ansi::plain_text_has_no_escape("[deploy] "@ + text);
}

proof fn lemma_event_ends_plain(s: SseView)
    requires
        are_plain(s.lines),
    ensures
        are_plain(event_ends(s).lines),
{
    if let (Some(e), Some(d)) = (s.event, s.data) {
        lemma_log_is_plain(
            e + ": "@ + summary_of(d),
            if e == "error"@ {
                DeployLog::Error
            } else {
                DeployLog::Info
            },
        );
    }
}

proof fn lemma_fold_plain(lines: Seq<Seq<char>>)
    ensures
        are_plain(sse_fold(lines).lines),
    decreases lines.len(),
{
    if lines.len() > 0 {
        lemma_fold_plain(lines.drop_last());
        lemma_event_ends_plain(sse_fold(lines.drop_last()));
    }
}

/// Whatever a pod tells, no line about it holds an escape.
pub proof fn told_lines_are_plain(text: Seq<char>)
    ensures
        are_plain(sse_lines(text)),
{
    lemma_fold_plain(text::lines_of(text));
    lemma_event_ends_plain(sse_fold(text::lines_of(text)));
}

fn push_event(event: &Option<String>, data: &Option<String>, lines: &mut Vec<LogLine>)
    ensures
        text::views(final(lines)@) == event_ends(
            SseView {
                event: text::view_opt(*event),
                data: text::view_opt(*data),
                lines: text::views(old(lines)@),
            },
        ).lines,
{
    broadcast use text::views_push;

    if let Some(e) = event {
        if let Some(d) = data {
            let mut m = e.clone();
            m.append(": ");
            m.append(summarize(d.as_str()).as_str());
            let level = if text::same(e.as_str(), "error") {
                DeployLog::Error
            } else {
                DeployLog::Info
            };
            lines.push(line(m.as_str(), level));
        }
    }
}

/// What the stream of a pod tells, event by event.
pub fn render_sse(body: &str) -> (r: Vec<LogLine>)
    ensures
        text::views(r@) == sse_lines(body@),
{
    let mut event: Option<String> = None;
    let mut data: Option<String> = None;
    let mut out: Vec<LogLine> = Vec::new();
    let lines = text::lines(body);
    let ghost all = text::lines_of(body@);
    let n = lines.len();
    let mut i: usize = 0;
    proof {
        assert(text::views(out@) =~= Seq::<LogView>::empty());
    }
    while i < n
        invariant
            n == lines@.len(),
            all == text::views(lines@),
            i <= n,
            sse_fold(all.take(i as int)) == (SseView {
                event: text::view_opt(event),
                data: text::view_opt(data),
                lines: text::views(out@),
            }),
        decreases n - i,
    {
        let line = lines[i].as_str();
        proof {
            assert(all[i as int] == line@);
            assert(all.take(i + 1).drop_last() == all.take(i as int));
            assert(all.take(i + 1).last() == line@);
        }
        if let Some(rest) = text::strip_prefix(line, "event:") {
            event = Some(text::trim(rest).to_string());
        } else if let Some(rest) = text::strip_prefix(line, "data:") {
            data = Some(text::trim(rest).to_string());
        } else if text::trim(line).unicode_len() == 0 {
            push_event(&event, &data, &mut out);
            event = None;
            data = None;
        }
        i = i + 1;
    }
    proof {
        assert(all.take(n as int) == all);
    }
    push_event(&event, &data, &mut out);
    out
}

/// The list of servers may always be shipped.
pub proof fn mcp_file_may_ship(s: Seq<FileView>, bytes: Seq<u8>)
    requires
        is_bundle(s),
    ensures
        is_bundle(with_file(s, file_of("mcp.json"@, bytes, false))),
{
    reveal_strlit("mcp.json");
    reveal_strlit("/");
    let p = "mcp.json"@;
    assert(!text::contains_text(p, "/"@)) by {
        assert forall|i: int| !text::occurs_at(p, "/"@, i) by {
            if 0 <= i && i + 1 <= p.len() {
                assert(p.subrange(i, i + 1)[0] == p[i]);
                assert("/"@[0] == '/');
            }
        }
    }
    text::text_without_mark_is_whole(p, "/"@);
    reveal_strlit("sessions");
    reveal_strlit("team");
    reveal_strlit(".env");
    assert(p[0] == 'm');
    lemma_bundle_grows(s, file_of(p, bytes, false));
}

// ---------------------------------------------------------------------------
// What holds of names and of what the pod tells
// ---------------------------------------------------------------------------

/// What may be shipped is what is looked for, and nothing private is either:
/// neither sessions nor the team nor the environment, and the memory only where
/// it was asked for.
pub proof fn shipped_entries_are_those_looked_for(name: Seq<char>, with_memory: bool)
    ensures
        allowed_top(name, with_memory) <==> top_names(with_memory).contains(name),
        top_names(with_memory).contains("memory"@) <==> with_memory,
        allowed_top(name, with_memory) ==> name != "sessions"@ && name != "team"@ && name
            != ".env"@,
{
    reveal_strlit("settings.json");
    reveal_strlit("mcp.json");
    reveal_strlit("AGENTS.md");
    reveal_strlit("agents");
    reveal_strlit("skills");
    reveal_strlit("commands");
    reveal_strlit("plugins");
    reveal_strlit("plugins.json");
    reveal_strlit("prompt");
    reveal_strlit("rules");
    reveal_strlit("kms");
    reveal_strlit("memory");
    reveal_strlit("sessions");
    reveal_strlit("team");
    reveal_strlit(".env");
    let n = top_names(with_memory);
    assert("mcp.json"@[0] != "sessions"@[0] && "commands"@[0] != "sessions"@[0]);
    assert("agents"@[0] != "memory"@[0] && "skills"@[0] != "memory"@[0] && "prompt"@[0]
        != "memory"@[0]);
    assert("settings.json"@.len() == 13 && "AGENTS.md"@.len() == 9 && "plugins"@.len() == 7
        && "plugins.json"@.len() == 12 && "rules"@.len() == 5 && "kms"@.len() == 3 && "team"@.len()
        == 4 && ".env"@.len() == 4 && "sessions"@.len() == 8);
    assert(n[0] == "settings.json"@ && n[1] == "mcp.json"@ && n[2] == "AGENTS.md"@ && n[3]
        == "agents"@ && n[4] == "skills"@ && n[5] == "commands"@);
    assert(n[6] == "plugins"@ && n[7] == "plugins.json"@ && n[8] == "prompt"@ && n[9] == "rules"@
        && n[10] == "kms"@);
    assert("memory"@.len() == 6 && "mcp.json"@.len() == 8 && "commands"@.len() == 8);
    if with_memory {
        assert(n[11] == "memory"@);
    } else if n.contains("memory"@) {
        let i = choose|i: int| 0 <= i < n.len() && n[i] == "memory"@;
        assert(i == 0 || i == 1 || i == 2 || i == 3 || i == 4 || i == 5 || i == 6 || i == 7 || i
            == 8 || i == 9 || i == 10);
    }
}

/// Every event of the pod that has a name and data becomes one line, behind
/// those before, with both of them in it; one that reports an error is shown as
/// an error.
pub proof fn events_become_lines(
    before: Seq<Seq<char>>,
    event: Seq<char>,
    data: Seq<char>,
    blank: Seq<char>,
)
    requires
        text::trim_of(blank).len() == 0,
        !text::has_prefix(blank, "event:"@),
        !text::has_prefix(blank, "data:"@),
    ensures
        sse_fold(before + seq!["event:"@ + event, "data:"@ + data, blank]).lines == sse_fold(
            before,
        ).lines.push(
            log(
                text::trim_of(event) + ": "@ + summary_of(text::trim_of(data)),
                if text::trim_of(event) == "error"@ {
                    DeployLog::Error
                } else {
                    DeployLog::Info
                },
            ),
        ),
{
    reveal_strlit("event:");
    reveal_strlit("data:");
    let e = "event:"@ + event;
    let d = "data:"@ + data;
    let all = before + seq![e, d, blank];
    let two = before + seq![e, d];
    let one = before + seq![e];
    assert(all.drop_last() =~= two);
    assert(two.drop_last() =~= one);
    assert(one.drop_last() =~= before);
    assert(e.take(6) =~= "event:"@);
    assert(e.skip(6) =~= event);
    assert(d.take(5) =~= "data:"@);
    assert(d.skip(5) =~= data);
    assert(!text::has_prefix(d, "event:"@)) by {
        if text::has_prefix(d, "event:"@) {
            assert(d.take(6)[0] == "event:"@[0]);
            assert(d[0] == "data:"@[0]);
        }
    }
    let s0 = sse_fold(before);
    let s1 = sse_step(s0, e);
    let s2 = sse_step(s1, d);
    assert(sse_fold(one) == s1);
    assert(sse_fold(two) == s2);
    assert(sse_fold(all) == sse_step(s2, blank));
    assert(s2.event == Some(text::trim_of(event)));
    assert(s2.data == Some(text::trim_of(data)));
}

/// A document in short names every member that is not null, in order, with its
/// value.
pub proof fn summaries_name_every_member(m: Seq<(Seq<char>, json::JsonView)>, i: int)
    requires
        0 <= i < m.len(),
        !(m[i].1 is Null),
    ensures
        member_texts(m).contains(m[i].0 + "="@ + json::json_text(m[i].1)),
    decreases m.len(),
{
    let t = m.drop_last();
    let before = member_texts(t);
    let after = member_texts(m);
    let x = m[i].0 + "="@ + json::json_text(m[i].1);
    if i < t.len() {
        summaries_name_every_member(t, i);
        let k = choose|k: int| 0 <= k < before.len() && before[k] == x;
        assert(after[k] == x);
    } else {
        assert(after[after.len() - 1] == x);
    }
}

/// All that makes up an agent is shipped: its settings, servers and
/// instructions, its agents, skills, commands, plugins, prompts and rules, and
/// what it knows; nothing else is, but for its memory.
pub proof fn what_makes_up_an_agent_is_shipped(with_memory: bool)
    ensures
        allowed_top("settings.json"@, with_memory),
        allowed_top("mcp.json"@, with_memory),
        allowed_top("AGENTS.md"@, with_memory),
        allowed_top("agents"@, with_memory),
        allowed_top("skills"@, with_memory),
        allowed_top("commands"@, with_memory),
        allowed_top("plugins"@, with_memory),
        allowed_top("plugins.json"@, with_memory),
        allowed_top("prompt"@, with_memory),
        allowed_top("rules"@, with_memory),
        allowed_top("kms"@, with_memory),
        top_names(with_memory).len() == if with_memory {
            12int
        } else {
            11
        },
{
}

/// A server stays at home that says that it is a program or does not say what
/// it is; one that says anything else is shipped as it is.
pub proof fn servers_are_parted_by_their_transport(
    m: Seq<(Seq<char>, json::JsonView)>,
    i: int,
    how: Seq<char>,
)
    requires
        0 <= i < m.len(),
    ensures
        m[i].1.get("transport"@) is None ==> stdio_of(m).contains(m[i].0) && !remote_of(
            m,
        ).contains(m[i]),
        m[i].1.get("transport"@) == Some(json::JsonView::Str(how)) && how == "stdio"@
            ==> stdio_of(m).contains(m[i].0) && !remote_of(m).contains(m[i]),
        m[i].1.get("transport"@) == Some(json::JsonView::Str(how)) && how != "stdio"@
            ==> remote_of(m).contains(m[i]),
    decreases m.len(),
{
    let t = m.drop_last();
    let x = m[i];
    let s = stdio_of(m);
    let r = remote_of(m);
    if i < t.len() {
        assert(t[i] == x);
        servers_are_parted_by_their_transport(t, i, how);
        if stdio_of(t).contains(x.0) {
            let k = choose|k: int| 0 <= k < stdio_of(t).len() && stdio_of(t)[k] == x.0;
            assert(s[k] == x.0);
        }
        if remote_of(t).contains(x) {
            let k = choose|k: int| 0 <= k < remote_of(t).len() && remote_of(t)[k] == x;
            assert(r[k] == x);
        }
    } else if is_stdio(x.1) {
        assert(s[s.len() - 1] == x.0);
    } else {
        assert(r[r.len() - 1] == x);
    }
    if is_stdio(x.1) && r.contains(x) {
        let k = choose|k: int| 0 <= k < r.len() && r[k] == x;
        lemma_remote_is_remote(m, k);
    }
}

proof fn lemma_remote_is_remote(m: Seq<(Seq<char>, json::JsonView)>, k: int)
    requires
        0 <= k < remote_of(m).len(),
    ensures
        !is_stdio(remote_of(m)[k].1),
    decreases m.len(),
{
    let t = m.drop_last();
    if k < remote_of(t).len() {
        lemma_remote_is_remote(t, k);
    }
}

} // verus!
