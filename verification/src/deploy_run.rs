//! A deployment, step by step: what happened goes in, what to do next comes
//! out.

use vstd::prelude::*;

use crate::ansi;
use crate::archive;
use crate::deploy_client::{self, Bundle, DeployArgs, DeployLog, LogLine};
use crate::json::{self, Json};
use crate::text;

verus! {

/// What the deployment waits for.
#[derive(Clone, Copy, Debug, PartialEq, Eq, Structural)]
pub enum DeployPhase {
    Scan,
    Mcp,
    Manifest,
    Pack,
    Upload,
    Restart,
    Over,
}

/// How the search for files went.
#[derive(Debug, PartialEq, Eq)]
pub enum Scan {
    /// The current directory is not known.
    NoCwd(String),
    /// It has no settings directory.
    NoRoot(String),
    Failed(String),
    Found(Bundle),
}

/// How the upload went.
#[derive(Debug, PartialEq, Eq)]
pub enum UploadReply {
    Failed(String),
    /// The pod said no: the status, and what it said.
    Rejected { status: String, body: String },
    /// The pod's answer could not be read.
    Unread(String),
    /// The pod's answer.
    Told(String),
}

/// What happened.
#[derive(Debug, PartialEq, Eq)]
pub enum DeployEvent {
    Scanned(Scan),
    McpRead(Result<String, String>),
    ManifestAnswered(Result<String, String>),
    Packed(Result<Vec<u8>, String>),
    Uploaded(UploadReply),
    Restarted(Result<(), String>),
}

/// Where the bytes of a file are.
#[derive(Debug, PartialEq, Eq)]
pub enum PackFrom {
    /// In the settings directory, under its path.
    Settings,
    /// Beside the settings directory, under its name.
    Beside,
    /// Here.
    Bytes(Vec<u8>),
}

/// A file to put into the archive.
#[derive(Debug, PartialEq, Eq)]
pub struct PackItem {
    pub path: String,
    pub from: PackFrom,
}

pub enum PackFromView {
    Settings,
    Beside,
    Bytes(Seq<u8>),
}

pub struct PackView {
    pub path: Seq<char>,
    pub from: PackFromView,
}

impl View for PackItem {
    type V = PackView;

    open spec fn view(&self) -> PackView {
        PackView {
            path: self.path@,
            from: match self.from {
                PackFrom::Settings => PackFromView::Settings,
                PackFrom::Beside => PackFromView::Beside,
                PackFrom::Bytes(b) => PackFromView::Bytes(b@),
            },
        }
    }
}

/// What to do next.
#[allow(inconsistent_fields)]
#[derive(Debug, PartialEq, Eq)]
pub enum DeployAction {
    /// Read the list of servers.
    ReadMcp,
    /// Ask the pod which files it is missing.
    AskManifest { url: String, token: String, body: String },
    /// Put files into an archive.
    Pack(Vec<PackItem>),
    /// Send the archive.
    Upload { url: String, token: String, body: Vec<u8> },
    Restart { url: String, token: String },
    Exit(i32),
    /// Nothing: this was not waited for.
    Wait,
}

#[allow(inconsistent_fields)]
pub enum ActionView {
    ReadMcp,
    AskManifest { url: Seq<char>, token: Seq<char>, body: Seq<char> },
    Pack(Seq<PackView>),
    Upload { url: Seq<char>, token: Seq<char>, body: Seq<u8> },
    Restart { url: Seq<char>, token: Seq<char> },
    Exit(i32),
    Wait,
}

impl View for DeployAction {
    type V = ActionView;

    open spec fn view(&self) -> ActionView {
        match self {
            DeployAction::ReadMcp => ActionView::ReadMcp,
            DeployAction::AskManifest { url, token, body } => ActionView::AskManifest {
                url: url@,
                token: token@,
                body: body@,
            },
            DeployAction::Pack(items) => ActionView::Pack(text::views(items@)),
            DeployAction::Upload { url, token, body } => ActionView::Upload {
                url: url@,
                token: token@,
                body: body@,
            },
            DeployAction::Restart { url, token } => ActionView::Restart { url: url@, token: token@ },
            DeployAction::Exit(code) => ActionView::Exit(*code),
            DeployAction::Wait => ActionView::Wait,
        }
    }
}

/// A deployment under way.
pub struct Deploy {
    pub args: DeployArgs,
    /// The token that the environment gives.
    pub env_token: Option<String>,
    pub phase: DeployPhase,
    pub bundle: Bundle,
    /// The list of servers as it is shipped, where it is not the file's.
    pub mcp: Option<Vec<u8>>,
    pub token: String,
    /// How many files are on their way.
    pub shipping: usize,
}

pub struct DeployView {
    pub args: DeployArgs,
    pub env_token: Option<Seq<char>>,
    pub phase: DeployPhase,
    pub files: Seq<deploy_client::FileView>,
    pub mcp: Option<Seq<u8>>,
    pub token: Seq<char>,
    pub shipping: int,
}

impl View for Deploy {
    type V = DeployView;

    open spec fn view(&self) -> DeployView {
        DeployView {
            args: self.args,
            env_token: text::view_opt(self.env_token),
            phase: self.phase,
            files: self.bundle@,
            mcp: text::view_opt(self.mcp),
            token: self.token@,
            shipping: self.shipping as int,
        }
    }
}

/// What comes of an event: what to show, and what to do.
#[derive(Debug, PartialEq, Eq)]
pub struct DeployStep {
    pub lines: Vec<LogLine>,
    pub action: DeployAction,
}

pub struct StepView {
    pub state: DeployView,
    pub lines: Seq<deploy_client::LogView>,
    pub action: ActionView,
}

/// The end, with a line.
pub open spec fn ends(d: DeployView, line: Seq<char>, level: DeployLog, code: i32) -> StepView {
    StepView {
        state: DeployView { phase: DeployPhase::Over, ..d },
        lines: seq![deploy_client::log(line, level)],
        action: ActionView::Exit(code),
    }
}

pub open spec fn fails(d: DeployView, line: Seq<char>) -> StepView {
    ends(d, line, DeployLog::Error, 1)
}

/// A step after some lines.
pub open spec fn after_lines(lines: Seq<deploy_client::LogView>, s: StepView) -> StepView {
    StepView { lines: lines + s.lines, ..s }
}

/// The token: what the user gave, else what the environment gives; a blank one
/// does not count.
pub open spec fn token_of(d: DeployView) -> Option<Seq<char>> {
    let t = match d.args.token {
        Some(t) => Some(t@),
        None => d.env_token,
    };
    match t {
        Some(t) => if text::trim_of(t).len() > 0 {
            Some(t)
        } else {
            None
        },
        None => None,
    }
}

/// The pod's address without slashes at the end.
pub open spec fn base_of(d: DeployView) -> Seq<char> {
    text::trim_end_char_of(d.args.pod@, '/')
}

/// The bytes of all files, as a number of 64 bits.
pub open spec fn total_of(files: Seq<deploy_client::FileView>) -> u64
    decreases files.len(),
{
    if files.len() == 0 {
        0
    } else {
        total_of(files.drop_last()).wrapping_add(files.last().size)
    }
}

/// What a dry run shows.
pub open spec fn dry_lines(files: Seq<deploy_client::FileView>) -> Seq<deploy_client::LogView> {
    seq![
        deploy_client::log(
            "dry run — would ship "@ + text::decimal_of(files.len()) + " file(s), "@
                + text::decimal_of(total_of(files) as nat) + " bytes:"@,
            DeployLog::Info,
        ),
    ] + Seq::new(
        files.len(),
        |i: int|
            deploy_client::shown(
                "  "@ + files[i].path + " ("@ + text::decimal_of(files[i].size as nat)
                    + " bytes)"@,
                DeployLog::Info,
            ),
    )
}

/// The paths of all files.
pub open spec fn paths_of(files: Seq<deploy_client::FileView>) -> Seq<Seq<char>> {
    Seq::new(files.len(), |i: int| files[i].path)
}

/// Where the bytes of a path are, if it is to be shipped at all.
pub open spec fn pack_item(d: DeployView, path: Seq<char>) -> Option<PackView> {
    match deploy_client::find_file(d.files, path) {
        Some(f) => Some(
            PackView {
                path,
                from: if path == "mcp.json"@ && d.mcp is Some {
                    PackFromView::Bytes(d.mcp->0)
                } else if f.beside {
                    PackFromView::Beside
                } else {
                    PackFromView::Settings
                },
            },
        ),
        None => None,
    }
}

/// The files of some paths that are to be shipped.
pub open spec fn pack_items(d: DeployView, paths: Seq<Seq<char>>) -> Seq<PackView>
    decreases paths.len(),
{
    if paths.len() == 0 {
        Seq::empty()
    } else {
        let before = pack_items(d, paths.drop_last());
        match pack_item(d, paths.last()) {
            Some(item) => before.push(item),
            None => before,
        }
    }
}

/// On to the archive.
pub open spec fn packs(d: DeployView, paths: Seq<Seq<char>>) -> StepView {
    StepView {
        state: DeployView { phase: DeployPhase::Pack, shipping: paths.len() as int, ..d },
        lines: Seq::empty(),
        action: ActionView::Pack(pack_items(d, paths)),
    }
}

/// What the pod is told of the files.
pub open spec fn manifest_of(files: Seq<deploy_client::FileView>) -> json::JsonView {
    json::JsonView::obj().with(
        "files"@,
        json::JsonView::Arr(
            Seq::new(
                files.len(),
                |i: int|
                    json::JsonView::obj().with(
                        "path"@,
                        json::JsonView::text(files[i].path),
                    ).with("sha256"@, json::JsonView::text(files[i].sha256)),
            ),
        ),
    )
}

/// On from a bundle that is complete: show it, or ask the pod, or ship it all.
pub open spec fn ready(d: DeployView) -> StepView {
    if d.args.dry_run {
        StepView {
            state: DeployView { phase: DeployPhase::Over, ..d },
            lines: dry_lines(d.files),
            action: ActionView::Exit(0),
        }
    } else {
        match token_of(d) {
            None => fails(
                d,
                "no token: pass --token <BEARER> or set THCLAWS_DEPLOY_TOKEN"@,
            ),
            Some(token) => {
                let e = DeployView { token, ..d };
                if d.args.full {
                    packs(e, paths_of(d.files))
                } else {
                    StepView {
                        state: DeployView { phase: DeployPhase::Manifest, ..e },
                        lines: Seq::empty(),
                        action: ActionView::AskManifest {
                            url: base_of(d) + "/v1/deploy/manifest"@,
                            token,
                            body: json::json_text(manifest_of(d.files)),
                        },
                    }
                }
            },
        }
    }
}

/// After the search for files.
pub open spec fn scanned(d: DeployView, scan: Scan) -> StepView {
    match scan {
        Scan::NoCwd(e) => fails(d, "cannot resolve current dir: "@ + e@),
        Scan::NoRoot(cwd) => fails(
            d,
            "no .thclaws/ in "@ + cwd@ + ": run thclaws here first to create one"@,
        ),
        Scan::Failed(e) => fails(d, "scan failed: "@ + e@),
        Scan::Found(b) => {
            let e = DeployView { files: b@, ..d };
            if b@.len() == 0 {
                ends(
                    e,
                    "nothing to ship under .thclaws/ — bundle is empty"@,
                    DeployLog::Warn,
                    1,
                )
            } else if deploy_client::find_file(b@, "mcp.json"@) is Some {
                StepView {
                    state: DeployView { phase: DeployPhase::Mcp, ..e },
                    lines: Seq::empty(),
                    action: ActionView::ReadMcp,
                }
            } else {
                ready(e)
            }
        },
    }
}

/// What is said of servers that are shipped though the pod cannot reach them.
pub open spec fn kept_line(names: Seq<Seq<char>>) -> deploy_client::LogView {
    deploy_client::log(
        "--allow-stdio-mcp set; shipping "@ + text::decimal_of(names.len())
            + " stdio MCP entries verbatim (they'll log spawn errors on the pod): "@
            + text::join_of(names, ", "@),
        DeployLog::Warn,
    )
}

/// What is said of servers that are not shipped.
pub open spec fn stripped_line(names: Seq<Seq<char>>) -> deploy_client::LogView {
    deploy_client::log(
        "stripping "@ + text::decimal_of(names.len()) + " stdio MCP entr"@ + (if names.len() == 1 {
            "y"@
        } else {
            "ies"@
        }) + " from mcp.json: "@ + text::join_of(names, ", "@)
            + " (laptop's mcp.json unchanged; use --allow-stdio-mcp to keep them on the pod)"@,
        DeployLog::Info,
    )
}

/// After the list of servers was read. Those that are programs on this machine
/// are left out of what is shipped, unless the user wants them; the file stays
/// as it is.
pub open spec fn mcp_read(d: DeployView, body: Result<String, String>) -> StepView {
    let doc = match body {
        Ok(b) => deploy_client::mcp_document(b@),
        Err(e) => Err("read mcp.json: "@ + e@),
    };
    match doc {
        Err(e) => fails(
            d,
            (if d.args.allow_stdio_mcp {
                "mcp.json scan: "@
            } else {
                "mcp.json filter: "@
            }) + e,
        ),
        Ok(v) => {
            let names = deploy_client::stdio_names(v);
            if names.len() == 0 {
                ready(d)
            } else if d.args.allow_stdio_mcp {
                after_lines(seq![kept_line(names)], ready(d))
            } else {
                let bytes = json::json_pretty(deploy_client::without_stdio(v));
                let e = DeployView {
                    files: deploy_client::with_file(
                        d.files,
                        deploy_client::file_of("mcp.json"@, bytes, false),
                    ),
                    mcp: Some(bytes),
                    ..d
                };
                after_lines(seq![stripped_line(names)], ready(e))
            }
        },
    }
}

/// The texts of some values.
pub open spec fn texts_of(items: Seq<json::JsonView>) -> Seq<Seq<char>>
    decreases items.len(),
{
    if items.len() == 0 {
        Seq::empty()
    } else {
        match items.last().as_text() {
            Some(t) => texts_of(items.drop_last()).push(t),
            None => texts_of(items.drop_last()),
        }
    }
}

/// What is said of an answer that is no JSON document.
pub const UNREADABLE: &'static str = "decode: error decoding response body";

/// The files that a pod says it is missing, or what is wrong with its answer.
pub open spec fn missing_of(body: Seq<char>) -> Result<Seq<Seq<char>>, Seq<char>> {
    match json::json_parse(body) {
        Ok(v) => match v.get("missing"@) {
            Some(json::JsonView::Arr(items)) => Ok(texts_of(items)),
            _ => Err("manifest response missing `missing` array"@),
        },
        Err(_) => Err(UNREADABLE@),
    }
}

/// After the pod was asked. Where that failed, everything is shipped.
pub open spec fn manifest_answered(d: DeployView, answer: Result<String, String>) -> StepView {
    let missing = match answer {
        Ok(body) => missing_of(body@),
        Err(e) => Err(e@),
    };
    match missing {
        Ok(m) => {
            let line = deploy_client::log(
                "diff: pod is missing "@ + text::decimal_of(m.len()) + "/"@ + text::decimal_of(
                    d.files.len(),
                ) + " file(s)"@,
                DeployLog::Info,
            );
            if m.len() == 0 {
                after_lines(
                    seq![line],
                    ends(
                        d,
                        "pod is already up to date — nothing to ship"@,
                        DeployLog::Info,
                        0,
                    ),
                )
            } else {
                after_lines(seq![line], packs(d, m))
            }
        },
        Err(e) => after_lines(
            seq![
                deploy_client::log(
                    "manifest handshake failed ("@ + e + "); falling back to full upload"@,
                    DeployLog::Warn,
                ),
            ],
            packs(d, paths_of(d.files)),
        ),
    }
}

/// After the archive was made.
pub open spec fn packed(d: DeployView, result: Result<Vec<u8>, String>) -> StepView {
    match result {
        Err(e) => fails(d, "tar build failed: "@ + e@),
        Ok(body) => StepView {
            state: DeployView { phase: DeployPhase::Upload, ..d },
            lines: seq![
                deploy_client::log(
                    "bundled "@ + text::decimal_of(d.shipping as nat) + " file(s), "@
                        + text::decimal_of(body@.len()) + " bytes — uploading to "@ + base_of(d),
                    DeployLog::Info,
                ),
            ],
            action: ActionView::Upload {
                url: base_of(d) + "/v1/deploy"@,
                token: d.token,
                body: body@,
            },
        },
    }
}

/// The first characters of a text.
pub open spec fn clipped(s: Seq<char>, n: nat) -> Seq<char> {
    if s.len() <= n {
        s
    } else {
        s.take(n as int)
    }
}

/// After the upload.
pub open spec fn uploaded(d: DeployView, reply: UploadReply) -> StepView {
    match reply {
        UploadReply::Failed(e) => fails(d, "upload failed: "@ + e@),
        UploadReply::Rejected { status, body } => fails(
            d,
            "pod rejected upload: HTTP "@ + status@ + ": "@ + clipped(body@, 500),
        ),
        UploadReply::Unread(e) => fails(d, "read SSE body failed: "@ + e@),
        UploadReply::Told(body) => if d.args.restart {
            StepView {
                state: DeployView { phase: DeployPhase::Restart, ..d },
                lines: deploy_client::sse_lines(body@),
                action: ActionView::Restart { url: base_of(d) + "/v1/restart"@, token: d.token },
            }
        } else {
            StepView {
                state: DeployView { phase: DeployPhase::Over, ..d },
                lines: deploy_client::sse_lines(body@),
                action: ActionView::Exit(0),
            }
        },
    }
}

/// After the restart. The files are there by now, so a pod that did not
/// restart is only warned of.
pub open spec fn restarted(d: DeployView, result: Result<(), String>) -> StepView {
    match result {
        Ok(_) => StepView {
            state: DeployView { phase: DeployPhase::Over, ..d },
            lines: Seq::empty(),
            action: ActionView::Exit(0),
        },
        Err(e) => ends(d, "restart failed: "@ + e@, DeployLog::Warn, 0),
    }
}

/// What comes of an event. One that is not waited for changes nothing.
pub open spec fn step_of(d: DeployView, event: DeployEvent) -> StepView {
    match (d.phase, event) {
        (DeployPhase::Scan, DeployEvent::Scanned(scan)) => scanned(d, scan),
        (DeployPhase::Mcp, DeployEvent::McpRead(body)) => mcp_read(d, body),
        (DeployPhase::Manifest, DeployEvent::ManifestAnswered(a)) => manifest_answered(d, a),
        (DeployPhase::Pack, DeployEvent::Packed(r)) => packed(d, r),
        (DeployPhase::Upload, DeployEvent::Uploaded(r)) => uploaded(d, r),
        (DeployPhase::Restart, DeployEvent::Restarted(r)) => restarted(d, r),
        _ => StepView { state: d, lines: Seq::empty(), action: ActionView::Wait },
    }
}

/// What was done, as it was meant.
pub open spec fn does(d: Deploy, r: DeployStep, s: StepView) -> bool {
    d@ == s.state && text::views(r.lines@) == s.lines && r.action@ == s.action
}

fn ended(line: &str, level: DeployLog, code: i32) -> (r: DeployStep)
    ensures
        text::views(r.lines@) == seq![deploy_client::log(line@, level)],
        r.action@ == ActionView::Exit(code),
{
    let mut lines: Vec<LogLine> = Vec::new();
    lines.push(deploy_client::line(line, level));
    assert(text::views(lines@) =~= seq![deploy_client::log(line@, level)]);
    DeployStep { lines, action: DeployAction::Exit(code) }
}

fn quiet(action: DeployAction) -> (r: DeployStep)
    ensures
        text::views(r.lines@) == Seq::<deploy_client::LogView>::empty(),
        r.action == action,
{
    let lines: Vec<LogLine> = Vec::new();
    assert(text::views(lines@) =~= Seq::<deploy_client::LogView>::empty());
    DeployStep { lines, action }
}

fn put_first(line: LogLine, step: DeployStep) -> (r: DeployStep)
    ensures
        text::views(r.lines@) == seq![line@] + text::views(step.lines@),
        r.action == step.action,
{
    let mut rest = step.lines;
    let ghost tail = text::views(rest@);
    let mut lines: Vec<LogLine> = Vec::new();
    lines.push(line);
    lines.append(&mut rest);
    assert(text::views(lines@) =~= seq![line@] + tail);
    DeployStep { lines, action: step.action }
}

fn joined(a: &str, b: &str) -> (r: String)
    ensures
        r@ == a@ + b@,
{
    let mut m = a.to_string();
    m.append(b);
    m
}

impl Deploy {
    /// A deployment that has not begun: the files are looked for first.
    pub fn new(args: DeployArgs, env_token: Option<String>) -> (r: Deploy)
        ensures
            r@ == (DeployView {
                args,
                env_token: text::view_opt(env_token),
                phase: DeployPhase::Scan,
                files: Seq::empty(),
                mcp: None,
                token: Seq::empty(),
                shipping: 0,
            }),
    {
        let r = Deploy {
            args,
            env_token,
            phase: DeployPhase::Scan,
            bundle: Bundle::new(),
            mcp: None,
            token: String::new(),
            shipping: 0,
        };
        assert(r@.token =~= Seq::<char>::empty());
        r
    }

    fn pick_token(&self) -> (r: Option<String>)
        ensures
            text::view_opt(r) == token_of(self@),
    {
        let t = match &self.args.token {
            Some(t) => t,
            None => match &self.env_token {
                Some(t) => t,
                None => return None,
            },
        };
        if text::trim(t.as_str()).unicode_len() > 0 {
            Some(t.clone())
        } else {
            None
        }
    }

    fn base(&self) -> (r: &str)
        ensures
            r@ == base_of(self@),
    {
        text::trim_end_char(self.args.pod.as_str(), '/')
    }

    fn url(&self, path: &str) -> (r: String)
        ensures
            r@ == base_of(self@) + path@,
    {
        joined(self.base(), path)
    }

    fn over(&mut self)
        ensures
            final(self)@ == (DeployView { phase: DeployPhase::Over, ..old(self)@ }),
    {
        self.phase = DeployPhase::Over;
    }

    fn fail(&mut self, line: &str) -> (r: DeployStep)
        ensures
            does(*final(self), r, fails(old(self)@, line@)),
    {
        self.over();
        ended(line, DeployLog::Error, 1)
    }

    fn dry_run(&self) -> (r: Vec<LogLine>)
        ensures
            text::views(r@) == dry_lines(self@.files),
    {
        let ghost files = self@.files;
        let n = self.bundle.files.len();
        let mut total: u64 = 0;
        let mut i: usize = 0;
        while i < n
            invariant
                n == files.len(),
                n == self.bundle.files@.len(),
                files == self@.files,
                i <= n,
                total == total_of(files.take(i as int)),
            decreases n - i,
        {
            proof {
                assert(files.take(i + 1).drop_last() == files.take(i as int));
                assert(files.take(i + 1).last() == self.bundle.files@[i as int]@);
            }
            total = total.wrapping_add(self.bundle.files[i].size);
            i = i + 1;
        }
        proof {
            assert(files.take(n as int) == files);
        }
        let mut m = "dry run — would ship ".to_string();
        m.append(text::decimal(n as u64).as_str());
        m.append(" file(s), ");
        m.append(text::decimal(total).as_str());
        m.append(" bytes:");
        let mut lines: Vec<LogLine> = Vec::new();
        lines.push(deploy_client::line(m.as_str(), DeployLog::Info));
        let ghost head = deploy_client::log(m@, DeployLog::Info);
        assert(text::views(lines@) =~= seq![head]);
        let ghost each = |i: int|
            deploy_client::shown(
                "  "@ + files[i].path + " ("@ + text::decimal_of(files[i].size as nat)
                    + " bytes)"@,
                DeployLog::Info,
            );
        let mut k: usize = 0;
        while k < n
            invariant
                n == files.len(),
                n == self.bundle.files@.len(),
                files == self@.files,
                k <= n,
                each == |i: int|
                    deploy_client::shown(
                        "  "@ + files[i].path + " ("@ + text::decimal_of(files[i].size as nat)
                            + " bytes)"@,
                        DeployLog::Info,
                    ),
                text::views(lines@) == seq![head] + Seq::new(k as nat, each),
            decreases n - k,
        {
            broadcast use text::views_push;

            let f = &self.bundle.files[k];
            proof {
                assert(files[k as int] == f@);
            }
            let mut t = "  ".to_string();
            t.append(f.path.as_str());
            t.append(" (");
            t.append(text::decimal(f.size).as_str());
            t.append(" bytes)");
            let l = deploy_client::show(t.as_str(), DeployLog::Info);
            proof {
                assert(seq![head] + Seq::new((k + 1) as nat, each) =~= (seq![head] + Seq::new(
                    k as nat,
                    each,
                )).push(l@));
            }
            lines.push(l);
            k = k + 1;
        }
        assert(text::views(lines@) =~= dry_lines(files));
        lines
    }

    fn paths(&self) -> (r: Vec<String>)
        ensures
            text::views(r@) == paths_of(self@.files),
    {
        let ghost files = self@.files;
        let mut r: Vec<String> = Vec::new();
        let n = self.bundle.files.len();
        let mut i: usize = 0;
        while i < n
            invariant
                n == files.len(),
                n == self.bundle.files@.len(),
                files == self@.files,
                i <= n,
                text::views(r@) == paths_of(files).take(i as int),
            decreases n - i,
        {
            broadcast use text::views_push;

            proof {
                assert(files[i as int] == self.bundle.files@[i as int]@);
                assert(paths_of(files).take(i + 1) =~= paths_of(files).take(i as int).push(
                    files[i as int].path,
                ));
            }
            r.push(self.bundle.files[i].path.clone());
            i = i + 1;
        }
        proof {
            assert(paths_of(files).take(n as int) =~= paths_of(files));
        }
        r
    }

    fn items(&self, paths: &Vec<String>) -> (r: Vec<PackItem>)
        ensures
            text::views(r@) == pack_items(self@, text::views(paths@)),
    {
        let ghost all = text::views(paths@);
        let mut r: Vec<PackItem> = Vec::new();
        let n = paths.len();
        let mut i: usize = 0;
        while i < n
            invariant
                n == paths@.len(),
                all == text::views(paths@),
                i <= n,
                text::views(r@) == pack_items(self@, all.take(i as int)),
            decreases n - i,
        {
            broadcast use text::views_push;

            let path = &paths[i];
            proof {
                assert(all[i as int] == path@);
                assert(all.take(i + 1).drop_last() == all.take(i as int));
                assert(all.take(i + 1).last() == path@);
            }
            if let Some(f) = self.bundle.find(path.as_str()) {
                let from = if text::same(path.as_str(), "mcp.json") && self.mcp.is_some() {
                    match &self.mcp {
                        Some(b) => PackFrom::Bytes(b.clone()),
                        None => PackFrom::Settings,
                    }
                } else if f.beside {
                    PackFrom::Beside
                } else {
                    PackFrom::Settings
                };
                r.push(PackItem { path: path.clone(), from });
            }
            i = i + 1;
        }
        proof {
            assert(all.take(n as int) == all);
        }
        r
    }

    fn pack(&mut self, paths: Vec<String>) -> (r: DeployStep)
        ensures
            does(*final(self), r, packs(old(self)@, text::views(paths@))),
    {
        let items = self.items(&paths);
        self.phase = DeployPhase::Pack;
        self.shipping = paths.len();
        quiet(DeployAction::Pack(items))
    }

    fn manifest(&self) -> (r: Json)
        ensures
            r@ == manifest_of(self@.files),
    {
        let ghost files = self@.files;
        let ghost each = |i: int|
            json::JsonView::obj().with("path"@, json::JsonView::text(files[i].path)).with(
                "sha256"@,
                json::JsonView::text(files[i].sha256),
            );
        let mut list = Json::array();
        let n = self.bundle.files.len();
        let mut i: usize = 0;
        proof {
            assert(list@.items() =~= Seq::new(0, each));
        }
        while i < n
            invariant
                n == files.len(),
                n == self.bundle.files@.len(),
                files == self@.files,
                i <= n,
                each == |i: int|
                    json::JsonView::obj().with("path"@, json::JsonView::text(files[i].path)).with(
                        "sha256"@,
                        json::JsonView::text(files[i].sha256),
                    ),
                list@ == json::JsonView::Arr(Seq::new(i as nat, each)),
            decreases n - i,
        {
            let f = &self.bundle.files[i];
            let mut j = Json::object();
            j.put("path", Json::text(f.path.as_str()));
            j.put("sha256", Json::text(f.sha256.as_str()));
            proof {
                assert(files[i as int] == f@);
                assert(Seq::new((i + 1) as nat, each) =~= Seq::new(i as nat, each).push(j@));
            }
            list.append(j);
            i = i + 1;
        }
        let mut doc = Json::object();
        doc.put("files", list);
        doc
    }

    fn go_on(&mut self) -> (r: DeployStep)
        ensures
            does(*final(self), r, ready(old(self)@)),
    {
        if self.args.dry_run {
            let lines = self.dry_run();
            self.over();
            return DeployStep { lines, action: DeployAction::Exit(0) };
        }
        let token = match self.pick_token() {
            Some(t) => t,
            None => {
                return self.fail("no token: pass --token <BEARER> or set THCLAWS_DEPLOY_TOKEN");
            },
        };
        self.token = token;
        if self.args.full {
            let paths = self.paths();
            return self.pack(paths);
        }
        let url = self.url("/v1/deploy/manifest");
        let body = json::render_json(&self.manifest());
        self.phase = DeployPhase::Manifest;
        quiet(DeployAction::AskManifest { url, token: self.token.clone(), body })
    }

    fn on_scan(&mut self, scan: Scan) -> (r: DeployStep)
        ensures
            does(*final(self), r, scanned(old(self)@, scan)),
    {
        match scan {
            Scan::NoCwd(e) => self.fail(joined("cannot resolve current dir: ", e.as_str()).as_str()),
            Scan::NoRoot(cwd) => {
                let mut m = "no .thclaws/ in ".to_string();
                m.append(cwd.as_str());
                m.append(": run thclaws here first to create one");
                self.fail(m.as_str())
            },
            Scan::Failed(e) => self.fail(joined("scan failed: ", e.as_str()).as_str()),
            Scan::Found(b) => {
                self.bundle = b;
                if self.bundle.files.len() == 0 {
                    self.over();
                    return ended(
                        "nothing to ship under .thclaws/ — bundle is empty",
                        DeployLog::Warn,
                        1,
                    );
                }
                if self.bundle.find("mcp.json").is_some() {
                    self.phase = DeployPhase::Mcp;
                    return quiet(DeployAction::ReadMcp);
                }
                self.go_on()
            },
        }
    }

    fn on_mcp(&mut self, body: Result<String, String>) -> (r: DeployStep)
        ensures
            does(*final(self), r, mcp_read(old(self)@, body)),
    {
        let prefix = if self.args.allow_stdio_mcp {
            "mcp.json scan: "
        } else {
            "mcp.json filter: "
        };
        let body = match body {
            Ok(b) => b,
            Err(e) => {
                let what = joined("read mcp.json: ", e.as_str());
                return self.fail(joined(prefix, what.as_str()).as_str());
            },
        };
        if self.args.allow_stdio_mcp {
            let names = match deploy_client::scan_stdio_mcp_names(body.as_str()) {
                Ok(names) => names,
                Err(e) => return self.fail(joined(prefix, e.as_str()).as_str()),
            };
            let ghost all = text::views(names@);
            assert(all.len() == names@.len());
            if names.len() == 0 {
                return self.go_on();
            }
            let mut m = "--allow-stdio-mcp set; shipping ".to_string();
            m.append(text::decimal(names.len() as u64).as_str());
            m.append(" stdio MCP entries verbatim (they'll log spawn errors on the pod): ");
            m.append(text::join(&names, ", ").as_str());
            let first = deploy_client::line(m.as_str(), DeployLog::Warn);
            let step = self.go_on();
            return put_first(first, step);
        }
        match deploy_client::filter_stdio_mcp(body.as_str()) {
            Ok(Some((bytes, names))) => {
                let ghost all = text::views(names@);
                assert(all.len() == names@.len());
                let mut m = "stripping ".to_string();
                m.append(text::decimal(names.len() as u64).as_str());
                m.append(" stdio MCP entr");
                m.append(
                    if names.len() == 1 {
                        "y"
                    } else {
                        "ies"
                    },
                );
                m.append(" from mcp.json: ");
                m.append(text::join(&names, ", ").as_str());
                m.append(
                    " (laptop's mcp.json unchanged; use --allow-stdio-mcp to keep them on the pod)",
                );
                let first = deploy_client::line(m.as_str(), DeployLog::Info);
                self.bundle.set_file("mcp.json", &bytes);
                self.mcp = Some(bytes);
                let step = self.go_on();
                put_first(first, step)
            },
            Ok(None) => self.go_on(),
            Err(e) => self.fail(joined(prefix, e.as_str()).as_str()),
        }
    }

    fn on_manifest(&mut self, answer: Result<String, String>) -> (r: DeployStep)
        ensures
            does(*final(self), r, manifest_answered(old(self)@, answer)),
    {
        let missing = match answer {
            Ok(body) => read_missing(body.as_str()),
            Err(e) => Err(e),
        };
        match missing {
            Ok(paths) => {
                let ghost all = text::views(paths@);
                assert(all.len() == paths@.len());
                let mut m = "diff: pod is missing ".to_string();
                m.append(text::decimal(paths.len() as u64).as_str());
                m.append("/");
                m.append(text::decimal(self.bundle.files.len() as u64).as_str());
                m.append(" file(s)");
                let first = deploy_client::line(m.as_str(), DeployLog::Info);
                if paths.len() == 0 {
                    self.over();
                    let step = ended(
                        "pod is already up to date — nothing to ship",
                        DeployLog::Info,
                        0,
                    );
                    return put_first(first, step);
                }
                let step = self.pack(paths);
                put_first(first, step)
            },
            Err(e) => {
                let mut m = "manifest handshake failed (".to_string();
                m.append(e.as_str());
                m.append("); falling back to full upload");
                let first = deploy_client::line(m.as_str(), DeployLog::Warn);
                let paths = self.paths();
                let step = self.pack(paths);
                put_first(first, step)
            },
        }
    }

    fn on_pack(&mut self, result: Result<Vec<u8>, String>) -> (r: DeployStep)
        ensures
            does(*final(self), r, packed(old(self)@, result)),
    {
        match result {
            Err(e) => self.fail(joined("tar build failed: ", e.as_str()).as_str()),
            Ok(body) => {
                let mut m = "bundled ".to_string();
                m.append(text::decimal(self.shipping as u64).as_str());
                m.append(" file(s), ");
                m.append(text::decimal(body.len() as u64).as_str());
                m.append(" bytes — uploading to ");
                m.append(self.base());
                let first = deploy_client::line(m.as_str(), DeployLog::Info);
                let url = self.url("/v1/deploy");
                self.phase = DeployPhase::Upload;
                let step = quiet(DeployAction::Upload { url, token: self.token.clone(), body });
                let r = put_first(first, step);
                assert(text::views(r.lines@) =~= seq![first@]);
                r
            },
        }
    }

    fn on_upload(&mut self, reply: UploadReply) -> (r: DeployStep)
        ensures
            does(*final(self), r, uploaded(old(self)@, reply)),
    {
        match reply {
            UploadReply::Failed(e) => self.fail(joined("upload failed: ", e.as_str()).as_str()),
            UploadReply::Rejected { status, body } => {
                let mut m = "pod rejected upload: HTTP ".to_string();
                m.append(status.as_str());
                m.append(": ");
                m.append(clip(body.as_str(), 500));
                self.fail(m.as_str())
            },
            UploadReply::Unread(e) => self.fail(
                joined("read SSE body failed: ", e.as_str()).as_str(),
            ),
            UploadReply::Told(body) => {
                let lines = deploy_client::render_sse(body.as_str());
                if self.args.restart {
                    let url = self.url("/v1/restart");
                    self.phase = DeployPhase::Restart;
                    DeployStep {
                        lines,
                        action: DeployAction::Restart { url, token: self.token.clone() },
                    }
                } else {
                    self.over();
                    DeployStep { lines, action: DeployAction::Exit(0) }
                }
            },
        }
    }

    fn on_restart(&mut self, result: Result<(), String>) -> (r: DeployStep)
        ensures
            does(*final(self), r, restarted(old(self)@, result)),
    {
        self.over();
        match result {
            Ok(_) => quiet(DeployAction::Exit(0)),
            Err(e) => ended(
                joined("restart failed: ", e.as_str()).as_str(),
                DeployLog::Warn,
                0,
            ),
        }
    }

    /// Takes in what happened; says what to show and what to do next.
    pub fn advance(&mut self, event: DeployEvent) -> (r: DeployStep)
        ensures
            does(*final(self), r, step_of(old(self)@, event)),
            deploy_client::are_plain(text::views(r.lines@)),
    {
        proof {
            lines_hold_no_escape(self@, event);
        }
        match (self.phase, event) {
            (DeployPhase::Scan, DeployEvent::Scanned(scan)) => self.on_scan(scan),
            (DeployPhase::Mcp, DeployEvent::McpRead(body)) => self.on_mcp(body),
            (DeployPhase::Manifest, DeployEvent::ManifestAnswered(a)) => self.on_manifest(a),
            (DeployPhase::Pack, DeployEvent::Packed(r)) => self.on_pack(r),
            (DeployPhase::Upload, DeployEvent::Uploaded(r)) => self.on_upload(r),
            (DeployPhase::Restart, DeployEvent::Restarted(r)) => self.on_restart(r),
            _ => quiet(DeployAction::Wait),
        }
    }
}

fn clip(s: &str, n: usize) -> (r: &str)
    ensures
        r@ == clipped(s@, n as nat),
{
    if s.unicode_len() <= n {
        s
    } else {
        proof {
            assert(s@.take(n as int) == s@.subrange(0, n as int));
        }
        s.substring_char(0, n)
    }
}

fn read_missing(body: &str) -> (r: Result<Vec<String>, String>)
    ensures
        match (r, missing_of(body@)) {
            (Ok(v), Ok(m)) => text::views(v@) == m,
            (Err(e), Err(x)) => e@ == x,
            _ => false,
        },
{
    let doc = match json::parse_json(body) {
        Ok(doc) => doc,
        Err(_) => return Err(UNREADABLE.to_string()),
    };
    match doc.get("missing") {
        Some(Json::Arr(items)) => {
            let ghost all = Json::Arr(*items)@.items();
            let mut r: Vec<String> = Vec::new();
            let n = items.len();
            let mut i: usize = 0;
            while i < n
                invariant
                    n == items@.len(),
                    n == all.len(),
                    i <= n,
                    forall|k: int| 0 <= k < n ==> #[trigger] all[k] == items@[k]@,
                    text::views(r@) == texts_of(all.take(i as int)),
                decreases n - i,
            {
                broadcast use text::views_push;

                proof {
                    assert(all.take(i + 1).drop_last() == all.take(i as int));
                    assert(all.take(i + 1).last() == all[i as int]);
                }
                if let Some(t) = items[i].as_str() {
                    r.push(t.to_string());
                }
                i = i + 1;
            }
            proof {
                assert(all.take(n as int) == all);
            }
            Ok(r)
        },
        _ => Err("manifest response missing `missing` array".to_string()),
    }
}

/// The permissions that every shipped file has.
pub const FILE_MODE: u32 = 0o644;

/// A file that was read, as it goes into the archive.
pub fn shipped_file(path: &str, mtime: u64, bytes: Vec<u8>) -> (r: archive::TarFile)
    ensures
        r@ == archive::tar_file(path@, FILE_MODE, mtime, bytes@),
{
    archive::TarFile { path: path.to_string(), mode: FILE_MODE, mtime, bytes }
}

// ---------------------------------------------------------------------------
// What holds of every deployment
// ---------------------------------------------------------------------------

/// An event that brings a bundle brings a proper one.
pub open spec fn brings_bundle(event: DeployEvent) -> bool {
    event matches DeployEvent::Scanned(Scan::Found(b)) ==> deploy_client::is_bundle(b@)
}

/// The files of a deployment are always such as may be shipped, in order and
/// each once.
pub proof fn step_keeps_bundle(d: DeployView, event: DeployEvent)
    requires
        deploy_client::is_bundle(d.files),
        brings_bundle(event),
    ensures
        deploy_client::is_bundle(step_of(d, event).state.files),
{
    if d.phase == DeployPhase::Mcp {
        if let DeployEvent::McpRead(Ok(body)) = event {
            if let Ok(v) = deploy_client::mcp_document(body@) {
                let bytes = json::json_pretty(deploy_client::without_stdio(v));
                deploy_client::mcp_file_may_ship(d.files, bytes);
            }
        }
    }
}

proof fn lemma_found(files: Seq<deploy_client::FileView>, path: Seq<char>)
    ensures
        match deploy_client::find_file(files, path) {
            Some(f) => f.path == path && files.contains(f),
            None => forall|i: int| 0 <= i < files.len() ==> (#[trigger] files[i]).path != path,
        },
    decreases files.len(),
{
    if files.len() > 0 {
        let t = files.skip(1);
        lemma_found(t, path);
        if files[0].path == path {
            assert(files.contains(files[0]));
        } else {
            match deploy_client::find_file(t, path) {
                Some(f) => {
                    let k = choose|k: int| 0 <= k < t.len() && t[k] == f;
                    assert(files[k + 1] == f);
                },
                None => {
                    assert forall|i: int| 0 <= i < files.len() implies (#[trigger] files[i]).path
                        != path by {
                        if i > 0 {
                            assert(t[i - 1] == files[i]);
                        }
                    }
                },
            }
        }
    }
}

/// Whatever paths a pod asks for, only files of the bundle are packed: so none
/// of the private ones, and no path with a backslash.
pub proof fn only_bundled_files_are_packed(d: DeployView, paths: Seq<Seq<char>>, i: int)
    requires
        deploy_client::is_bundle(d.files),
        0 <= i < pack_items(d, paths).len(),
    ensures
        deploy_client::find_file(d.files, pack_items(d, paths)[i].path) is Some,
        !deploy_client::never_shipped(deploy_client::top_of(pack_items(d, paths)[i].path)),
        !pack_items(d, paths)[i].path.contains('\\'),
    decreases paths.len(),
{
    if paths.len() > 0 {
        let before = pack_items(d, paths.drop_last());
        if i < before.len() {
            only_bundled_files_are_packed(d, paths.drop_last(), i);
        } else {
            let path = paths.last();
            lemma_found(d.files, path);
            let f = deploy_client::find_file(d.files, path)->0;
            let k = choose|k: int| 0 <= k < d.files.len() && d.files[k] == f;
            deploy_client::private_files_stay_home(d.files, k);
            assert(deploy_client::may_ship(d.files[k]));
        }
    }
}

/// Where everything is shipped, no file of the bundle is left out.
pub proof fn full_upload_packs_every_file(d: DeployView)
    ensures
        pack_items(d, paths_of(d.files)).len() == d.files.len(),
        forall|i: int|
            0 <= i < d.files.len() ==> (#[trigger] pack_items(d, paths_of(d.files))[i]).path
                == d.files[i].path,
{
    lemma_full(d, d.files.len() as int);
    assert(paths_of(d.files).take(d.files.len() as int) =~= paths_of(d.files));
}

proof fn lemma_full(d: DeployView, n: int)
    requires
        0 <= n <= d.files.len(),
    ensures
        ({
            let items = pack_items(d, paths_of(d.files).take(n));
            &&& items.len() == n
            &&& forall|i: int| 0 <= i < n ==> (#[trigger] items[i]).path == d.files[i].path
        }),
    decreases n,
{
    if n > 0 {
        lemma_full(d, n - 1);
        let paths = paths_of(d.files).take(n);
        assert(paths.drop_last() =~= paths_of(d.files).take(n - 1));
        assert(paths.last() == d.files[n - 1].path);
        lemma_found(d.files, d.files[n - 1].path);
    }
}

/// A step that sends something to the pod.
pub open spec fn sends(a: ActionView) -> bool {
    a is AskManifest || a is Upload || a is Restart
}

/// A dry run sends nothing to the pod, whatever happens: from the beginning on
/// it stays among the phases that do not.
pub proof fn dry_run_sends_nothing(d: DeployView, event: DeployEvent)
    requires
        d.args.dry_run,
        d.phase == DeployPhase::Scan || d.phase == DeployPhase::Mcp || d.phase
            == DeployPhase::Over,
    ensures
        !sends(step_of(d, event).action),
        ({
            let e = step_of(d, event).state;
            e.args.dry_run && (e.phase == DeployPhase::Scan || e.phase == DeployPhase::Mcp
                || e.phase == DeployPhase::Over)
        }),
{
}

/// What is sent carries the token, and goes to the pod that was named.
pub proof fn only_the_pod_is_spoken_to(d: DeployView, event: DeployEvent)
    requires
        d.phase != DeployPhase::Scan && d.phase != DeployPhase::Mcp ==> Some(d.token) == token_of(
            d,
        ),
    ensures
        match step_of(d, event).action {
            ActionView::AskManifest { url, token, .. } => url == base_of(d)
                + "/v1/deploy/manifest"@ && Some(token) == token_of(d),
            ActionView::Upload { url, token, .. } => url == base_of(d) + "/v1/deploy"@ && Some(
                token,
            ) == token_of(d),
            ActionView::Restart { url, token } => url == base_of(d) + "/v1/restart"@ && Some(token)
                == token_of(d),
            _ => true,
        },
{
}

/// Without leave, no program of this machine is in the list of servers that is
/// shipped: it is the list without them, whenever it holds any.
pub proof fn stdio_servers_stay_home(d: DeployView, body: String, doc: json::JsonView)
    requires
        d.phase == DeployPhase::Mcp,
        !d.args.allow_stdio_mcp,
        deploy_client::mcp_document(body@) == Ok::<json::JsonView, Seq<char>>(doc),
        deploy_client::stdio_names(doc).len() > 0,
    ensures
        ({
            let e = step_of(d, DeployEvent::McpRead(Ok(body))).state;
            &&& e.mcp == Some(json::json_pretty(deploy_client::without_stdio(doc)))
            &&& pack_item(e, "mcp.json"@) == Some(
                PackView {
                    path: "mcp.json"@,
                    from: PackFromView::Bytes(
                        json::json_pretty(deploy_client::without_stdio(doc)),
                    ),
                },
            )
        }),
{
    let bytes = json::json_pretty(deploy_client::without_stdio(doc));
    deploy_client::added_file_is_found(
        d.files,
        deploy_client::file_of("mcp.json"@, bytes, false),
        "mcp.json"@,
    );
}

proof fn lemma_shown_is_plain(t: Seq<char>, level: DeployLog)
    ensures
        !(#[trigger] deploy_client::shown(t, level)).text.contains('\x1b'),
{
    ansi::plain_text_has_no_escape(t);
}

/// No line of a deployment holds a terminal escape, whatever a path, an error
/// or the pod says.
pub proof fn lines_hold_no_escape(d: DeployView, event: DeployEvent)
    ensures
        deploy_client::are_plain(step_of(d, event).lines),
{
    assert forall|t: Seq<char>, level: DeployLog|
        !(#[trigger] deploy_client::shown(t, level)).text.contains('\x1b') by {
        lemma_shown_is_plain(t, level);
    }
    if let DeployEvent::Uploaded(UploadReply::Told(body)) = event {
        deploy_client::told_lines_are_plain(body@);
    }
}

/// An event that is not waited for changes nothing.
pub proof fn stray_events_change_nothing(d: DeployView, event: DeployEvent)
    requires
        step_of(d, event).action is Wait,
    ensures
        step_of(d, event).state == d,
        step_of(d, event).lines == Seq::<deploy_client::LogView>::empty(),
{
}

/// The file of a path is among those to pack, from where its bytes are.
pub open spec fn packs_from(items: Seq<PackView>, path: Seq<char>, from: PackFromView) -> bool {
    items.contains(PackView { path, from })
}

/// Every file of the bundle that is asked for is packed: what was made here
/// from the bytes that were made, any other from where it lies.
pub proof fn files_asked_for_are_packed(d: DeployView, paths: Seq<Seq<char>>, i: int)
    requires
        0 <= i < paths.len(),
        deploy_client::find_file(d.files, paths[i]) is Some,
    ensures
        packs_from(
            pack_items(d, paths),
            paths[i],
            if paths[i] == "mcp.json"@ && d.mcp is Some {
                PackFromView::Bytes(d.mcp->0)
            } else if deploy_client::find_file(d.files, paths[i])->0.beside {
                PackFromView::Beside
            } else {
                PackFromView::Settings
            },
        ),
    decreases paths.len(),
{
    let t = paths.drop_last();
    let before = pack_items(d, t);
    let after = pack_items(d, paths);
    let x = pack_item(d, paths[i])->0;
    if i < t.len() {
        files_asked_for_are_packed(d, t, i);
        let k = choose|k: int| 0 <= k < before.len() && before[k] == x;
        assert(after[k] == x);
    } else {
        assert(after[after.len() - 1] == x);
    }
}

/// The pod is told every file of the bundle, in order, with its checksum.
pub proof fn manifests_name_every_file(files: Seq<deploy_client::FileView>, i: int)
    requires
        0 <= i < files.len(),
    ensures
        manifest_of(files).get("files"@) matches Some(json::JsonView::Arr(list)) && list.len()
            == files.len() && list[i] == json::JsonView::Obj(
            seq![
                ("path"@, json::JsonView::Str(files[i].path)),
                ("sha256"@, json::JsonView::Str(files[i].sha256)),
            ],
        ),
{
    broadcast use {json::member_put_is_read, json::new_member_goes_last};

    reveal_strlit("path");
    reveal_strlit("sha256");
    assert("path"@.len() != "sha256"@.len());
    let item = json::JsonView::obj().with("path"@, json::JsonView::text(files[i].path)).with(
        "sha256"@,
        json::JsonView::text(files[i].sha256),
    );
    assert(item.members() =~= seq![
        ("path"@, json::JsonView::Str(files[i].path)),
        ("sha256"@, json::JsonView::Str(files[i].sha256)),
    ]);
}

/// A bundle that is found and complete goes on its way. A dry run shows every
/// file and is over. Without a token the deployment fails. Else everything is
/// packed where that was asked for, and where it was not, the pod is asked
/// what it is missing of the whole bundle.
pub proof fn complete_bundles_go_on(d: DeployView, b: Bundle)
    requires
        d.phase == DeployPhase::Scan,
        b@.len() > 0,
        deploy_client::find_file(b@, "mcp.json"@) is None,
    ensures
        ({
            let r = step_of(d, DeployEvent::Scanned(Scan::Found(b)));
            let given = match d.args.token {
                Some(t) => Some(t@),
                None => d.env_token,
            };
            let usable = given is Some && text::trim_of(given->0).len() > 0;
            &&& r.state.files == b@
            &&& if d.args.dry_run {
                &&& r.action == ActionView::Exit(0)
                &&& r.lines.len() == b@.len() + 1
                &&& forall|i: int|
                    0 <= i < b@.len() ==> #[trigger] r.lines[i + 1] == deploy_client::shown(
                        "  "@ + b@[i].path + " ("@ + text::decimal_of(b@[i].size as nat)
                            + " bytes)"@,
                        DeployLog::Info,
                    )
            } else if !usable {
                r.action == ActionView::Exit(1) && r.lines.len() == 1 && r.lines[0].level
                    == DeployLog::Error
            } else if d.args.full {
                &&& r.action matches ActionView::Pack(items)
                &&& items.len() == b@.len()
                &&& forall|i: int| 0 <= i < b@.len() ==> (#[trigger] items[i]).path == b@[i].path
                &&& r.state.token == given->0
            } else {
                r.action == (ActionView::AskManifest {
                    url: base_of(d) + "/v1/deploy/manifest"@,
                    token: given->0,
                    body: json::json_text(manifest_of(b@)),
                })
            }
        }),
{
    let e = DeployView { files: b@, ..d };
    if let Some(token) = token_of(e) {
        full_upload_packs_every_file(DeployView { token, ..e });
    }
}

/// A bundle with a list of servers has that list read first; one that is empty
/// is not deployed, and neither is one that could not be found.
pub proof fn bundles_are_looked_through_first(d: DeployView, scan: Scan)
    requires
        d.phase == DeployPhase::Scan,
    ensures
        ({
            let r = step_of(d, DeployEvent::Scanned(scan));
            match scan {
                Scan::Found(b) => {
                    &&& b@.len() == 0 ==> r.action == ActionView::Exit(1)
                    &&& b@.len() > 0 && deploy_client::find_file(b@, "mcp.json"@) is Some
                        ==> r.action is ReadMcp && r.state.phase == DeployPhase::Mcp
                        && r.state.files == b@
                },
                _ => r.action == ActionView::Exit(1) && r.lines.len() == 1 && r.lines[0].level
                    == DeployLog::Error,
            }
        }),
{
}

/// What the pod is missing is packed, all of it that is in the bundle. A pod
/// that misses nothing is left alone; one that gives no proper answer gets
/// everything.
pub proof fn what_the_pod_misses_is_packed(
    d: DeployView,
    answer: Result<String, String>,
    items: Seq<json::JsonView>,
)
    requires
        d.phase == DeployPhase::Manifest,
    ensures
        ({
            let r = step_of(d, DeployEvent::ManifestAnswered(answer));
            let said = answer matches Ok(body) && json::json_parse(body@) matches Ok(doc)
                && doc.get("missing"@) == Some(json::JsonView::Arr(items));
            &&& said && (forall|k: int| 0 <= k < items.len() ==> !(#[trigger] items[k] is Str))
                ==> r.action == ActionView::Exit(0)
            &&& said && (exists|k: int| 0 <= k < items.len() && #[trigger] items[k] is Str) ==> (
            r.action matches ActionView::Pack(p) && forall|k: int|
                0 <= k < items.len() && (#[trigger] items[k] matches json::JsonView::Str(path)
                    && deploy_client::find_file(d.files, path) is Some) ==> exists|j: int|
                    0 <= j < p.len() && (#[trigger] p[j]).path == items[k]->Str_0)
            &&& answer is Err ==> (r.action matches ActionView::Pack(p) && p.len()
                == d.files.len() && forall|i: int|
                0 <= i < d.files.len() ==> (#[trigger] p[i]).path == d.files[i].path)
        }),
{
    full_upload_packs_every_file(d);
    if let Ok(body) = answer {
        if let Ok(doc) = json::json_parse(body@) {
            if doc.get("missing"@) == Some(json::JsonView::Arr(items)) {
                let m = texts_of(items);
                lemma_texts(items);
                let p = pack_items(d, m);
                assert forall|k: int|
                    0 <= k < items.len() && (#[trigger] items[k] matches json::JsonView::Str(path)
                        && deploy_client::find_file(d.files, path) is Some) implies exists|j: int|
                    0 <= j < p.len() && (#[trigger] p[j]).path == items[k]->Str_0 by {
                    let path = items[k]->Str_0;
                    assert(m.contains(path));
                    let i = choose|i: int| 0 <= i < m.len() && m[i] == path;
                    files_asked_for_are_packed(d, m, i);
                    let x = pack_item(d, path)->0;
                    let j = choose|j: int| 0 <= j < p.len() && p[j] == x;
                    assert(p[j].path == path);
                }
                if exists|k: int| 0 <= k < items.len() && #[trigger] items[k] is Str {
                    let k = choose|k: int| 0 <= k < items.len() && #[trigger] items[k] is Str;
                    assert(m.contains(items[k]->Str_0));
                }
                if forall|k: int| 0 <= k < items.len() ==> !(#[trigger] items[k] is Str) {
                    if m.len() > 0 {
                        assert(m.contains(m[0]));
                    }
                }
            }
        }
    }
}

proof fn lemma_texts(items: Seq<json::JsonView>)
    ensures
        forall|k: int|
            0 <= k < items.len() && #[trigger] items[k] is Str ==> texts_of(items).contains(
                items[k]->Str_0,
            ),
        (forall|k: int| 0 <= k < items.len() ==> !(#[trigger] items[k] is Str)) ==> texts_of(
            items,
        ).len() == 0,
    decreases items.len(),
{
    if items.len() > 0 {
        let t = items.drop_last();
        lemma_texts(t);
        let before = texts_of(t);
        let after = texts_of(items);
        assert forall|k: int| 0 <= k < items.len() && #[trigger] items[k] is Str implies
            after.contains(items[k]->Str_0) by {
            if k < t.len() {
                assert(t[k] is Str);
                let j = choose|j: int| 0 <= j < before.len() && before[j] == items[k]->Str_0;
                assert(after[j] == items[k]->Str_0);
            } else {
                assert(after[after.len() - 1] == items[k]->Str_0);
            }
        }
        if forall|k: int| 0 <= k < items.len() ==> !(#[trigger] items[k] is Str) {
            assert(!(items[items.len() - 1] is Str));
            assert forall|k: int| 0 <= k < t.len() implies !(#[trigger] t[k] is Str) by {
                assert(!(items[k] is Str));
            }
        }
    }
}

/// The archive that was made is what is uploaded. Whatever fails until the
/// files are on the pod ends the deployment with an error; once they are there
/// it has succeeded, whether or not the pod could be restarted.
pub proof fn archives_are_uploaded(d: DeployView, event: DeployEvent)
    ensures
        ({
            let r = step_of(d, event);
            match (d.phase, event) {
                (DeployPhase::Pack, DeployEvent::Packed(Ok(body))) => r.action == (
                ActionView::Upload {
                    url: base_of(d) + "/v1/deploy"@,
                    token: d.token,
                    body: body@,
                }) && r.state.phase == DeployPhase::Upload,
                (DeployPhase::Upload, DeployEvent::Uploaded(UploadReply::Told(_))) => if
                d.args.restart {
                    r.action == (ActionView::Restart {
                        url: base_of(d) + "/v1/restart"@,
                        token: d.token,
                    }) && r.state.phase == DeployPhase::Restart
                } else {
                    r.action == ActionView::Exit(0)
                },
                (DeployPhase::Restart, DeployEvent::Restarted(_)) => r.action == ActionView::Exit(
                    0,
                ),
                (DeployPhase::Pack, DeployEvent::Packed(Err(_))) => r.action == ActionView::Exit(1)
                    && r.lines.len() == 1 && r.lines[0].level == DeployLog::Error,
                (DeployPhase::Upload, DeployEvent::Uploaded(_)) => r.action == ActionView::Exit(1)
                    && r.lines.len() == 1 && r.lines[0].level == DeployLog::Error,
                (DeployPhase::Mcp, DeployEvent::McpRead(Err(_))) => r.action == ActionView::Exit(1),
                _ => true,
            }
        }),
{
}

/// The bytes of files, added up.
pub open spec fn bytes_in(files: Seq<deploy_client::FileView>) -> nat
    decreases files.len(),
{
    if files.len() == 0 {
        0
    } else {
        bytes_in(files.drop_last()) + files.last().size as nat
    }
}

/// The bytes that a dry run tells of are those of all files, added up.
pub proof fn sizes_add_up(files: Seq<deploy_client::FileView>)
    requires
        bytes_in(files) <= u64::MAX,
    ensures
        total_of(files) == bytes_in(files),
    decreases files.len(),
{
    if files.len() > 0 {
        sizes_add_up(files.drop_last());
    }
}

/// A list without local servers goes on as it is, and so does one whose local
/// servers are to be shipped, though a line says so; only where they are not
/// is the list replaced, and a line says that. One that cannot be read ends
/// the deployment.
pub proof fn local_servers_are_told_of(d: DeployView, body: Result<String, String>)
    requires
        d.phase == DeployPhase::Mcp,
    ensures
        ({
            let r = step_of(d, DeployEvent::McpRead(body));
            match body {
                Err(_) => r.action == ActionView::Exit(1),
                Ok(b) => match deploy_client::mcp_document(b@) {
                    Err(_) => r.action == ActionView::Exit(1) && r.lines.len() == 1
                        && r.lines[0].level == DeployLog::Error,
                    Ok(doc) => {
                        let local = deploy_client::stdio_names(doc).len() > 0;
                        &&& !local || d.args.allow_stdio_mcp ==> r.state.files == d.files
                            && r.state.mcp == d.mcp
                        &&& local ==> r.lines.len() > 0 && r.lines[0].level == (
                        if d.args.allow_stdio_mcp {
                            DeployLog::Warn
                        } else {
                            DeployLog::Info
                        })
                        &&& local && !d.args.allow_stdio_mcp ==> r.state.mcp is Some
                    },
                },
            }
        }),
{
}

} // verus!
