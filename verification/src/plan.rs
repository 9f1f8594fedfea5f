//! Plans and the reminders that keep the model on them.

use vstd::prelude::*;

use crate::text;

verus! {

/// How tool calls are let through.
#[derive(Clone, Copy, Debug, PartialEq, Eq, Structural)]
pub enum PermissionMode {
    /// Every tool runs unasked.
    Auto,
    /// Tools that change things are asked about on the spot.
    Ask,
    /// Tools that change things are off until a plan is approved.
    Plan,
    /// Like `Ask`, with the question sent to the user's phone.
    LineGated,
}

impl PermissionMode {
    /// Whether this mode asks before a tool that needs approval runs.
    pub open spec fn asks(self) -> bool {
        self == PermissionMode::Ask || self == PermissionMode::LineGated
    }

    pub fn asks_for_approval(self) -> (r: bool)
        ensures
            r == self.asks(),
    {
        match self {
            PermissionMode::Ask | PermissionMode::LineGated => true,
            PermissionMode::Auto | PermissionMode::Plan => false,
        }
    }
}

/// How far a step of a plan has come.
#[derive(Clone, Copy, Debug, PartialEq, Eq, Structural)]
pub enum StepStatus {
    Todo,
    InProgress,
    Done,
    Failed,
}

/// One step of a plan.
#[derive(Debug, PartialEq, Eq)]
pub struct PlanStep {
    pub id: String,
    pub title: String,
    pub description: String,
    pub status: StepStatus,
    pub note: Option<String>,
    pub output: Option<String>,
}

/// An ordered list of steps.
#[derive(Debug, PartialEq, Eq)]
pub struct Plan {
    pub id: String,
    pub steps: Vec<PlanStep>,
}

/// How often a step may be tried before it counts as failed.
pub const MAX_RETRIES_PER_STEP: usize = 3;

/// How the text begins that the model is told in plan mode before it has
/// submitted a plan.
pub const EXPLORE_HEAD: &'static str = "## Plan mode is active";

/// What follows it.
pub const EXPLORE_BODY: &'static str = "\n\n\
    Mutating tools (Write, Edit, Bash, document editors, etc.) \
    are BLOCKED. Use Read / Grep / Glob / Ls to explore the \
    codebase. When you have enough context, call SubmitPlan \
    with an ordered list of concrete, testable steps. The \
    user will review the plan in the right-side sidebar and \
    approve before execution.\n\n\
    Do NOT call TodoWrite in plan mode — SubmitPlan is the \
    structured replacement that the user can see live.\n\n\
    ### What makes a good plan\n\n\
    **Step count: as many as needed; no caps.** A plan is \
    correctly decomposed when EVERY step satisfies all three:\n\
    1. ONE action — a single command, edit, or generation. \
    \"Scaffold the project\" is one action; \"scaffold AND \
    install deps\" is two.\n\
    2. ONE shell-runnable verification — exit code, file \
    existence, regex match, HTTP probe, or test runner. If \
    you wrote two verifications (build exits 0 AND tests \
    pass), it's two steps.\n\
    3. PRESERVED across the next step — if step N's output \
    gets overwritten or replaced by step N+1, merge them. \
    Throwaway work shouldn't be a step.\n\n\
    If a 30-step plan satisfies all three rules, ship it. The \
    driver runs one step at a time with bounded retries; long \
    plans don't burn context because history is compacted at \
    every step boundary. Bundling steps to fit a small count \
    makes the plan WORSE — when a combined step fails, the \
    user can't tell which half failed.\n\n\
    Floor: a plan needs at least 2 steps. A 1-step plan isn't \
    a plan, it's a tool call — just do the work without \
    entering plan mode.\n\n\
    **Build-and-run, implement-and-test, refactor-and-smoke- \
    test are all TWO steps each.** When a combined step \
    fails, the user can't tell which half failed; the sidebar \
    just shows ✕ on a vague label. Keep one action per step.\n\n\
    **Verifications must be shell-runnable.** Every \
    verification is one of:\n\
    - Shell exit code: `cargo build --release` exits 0\n\
    - File existence: `test -f target/release/foo` or `ls \
    dist/index.html`\n\
    - Regex match: `grep -q 'useState' src/App.tsx`\n\
    - HTTP probe: `curl -fsS localhost:8080/healthz`\n\
    - Test runner: `pnpm test`, `cargo test --test integration`\n\n\
    NO human-eye checks: \"in browser\", \"visually clear\", \
    \"feels right\", \"the UI works\" — an autonomous agent \
    can't verify these. If a step's only check is human-eye, \
    reframe it as \"file matches grep pattern X\" or \"build \
    exits 0\" or split it so a different step has the runnable \
    check.\n\n\
    **Long-running processes are NOT verifications.** \
    `pnpm run dev` / `cargo run --release` / `python -m \
    http.server` are servers — they don't exit. The Bash tool \
    can't sit on them. Use the equivalent build/test command \
    instead: `pnpm run build` (static check), `cargo build \
    --release` (compile only), `python -c \"import …\"` \
    (import smoke).\n\n\
    **No bootstrap-then-overwrite steps.** If step N+1 will \
    replace what step N produced, merge them. Test: would \
    step N's output survive into step N+1? If no, step N is \
    throwaway. Example: \"step 1: pnpm init\" + \"step 2: \
    pnpm create vite . --force\" — step 2 overwrites step 1's \
    package.json, so step 1 is throwaway. Use the canonical \
    scaffolder as one step.\n\n\
    **Default to canonical scaffolders.** When the goal needs \
    a Vite / Next / Nuxt / cargo project, use the official \
    non-interactive scaffolder as ONE step (`pnpm create \
    vite@latest <dir> --template react-ts`, `cargo new <dir> \
    --bin`, etc.) — don't decompose it into \"init package, \
    add deps, configure tooling\". Scaffolders exist for a \
    reason. Avoid commands that require an interactive TTY \
    prompt; the Bash tool can't answer them.\n\n\
    **Name cross-step artifacts in descriptions.** When step \
    N+1 depends on a file step N produced, BOTH descriptions \
    must name the file. \"Step 3 edits src/App.tsx\" requires \
    step 2's description to name `src/App.tsx` as an output. \
    Surfaces implicit deps and lets the user audit the chain \
    before approving.\n\n\
    **When executing the step, ACTUALLY RUN the verification \
    before marking it done.** The flow is:\n\
    1. UpdatePlanStep(id, \"in_progress\")\n\
    2. Perform the step's main action (Edit / Write / Bash)\n\
    3. **Run the verification** (Bash / Read / curl — whatever \
    you specified)\n\
    4. If verification passes → UpdatePlanStep(id, \"done\")\n\
    5. If verification fails → UpdatePlanStep(id, \"failed\", \
    note: \"<what failed, ideally one line>\")\n\n\
    Do NOT skip the verification and call \"done\" anyway. The \
    gate will accept it (the agent can't tell whether you \
    actually ran the check), but the user is going to find out \
    on the next step or in production, and trust degrades.\n\n\
    On failure, mark the step Failed — don't paper over a \
    broken build by marking it done and moving on. The user \
    has Retry / Skip / Abort buttons in the sidebar; that's \
    the right path when something legitimately broke.\n\n\
    **Titles: imperative verb + outcome.** \"Add /healthz \
    endpoint to web server\", not \"Endpoint work\" or \"I \
    will add an endpoint\". User skims titles; make them \
    scannable.\n\n\
    **Descriptions: name the files, the operations, and the \
    verification.** \"Edit src/routes.rs: add GET /healthz \
    handler returning {ok: true}. Verify: `curl \
    localhost:8080/healthz | jq .ok` returns true.\"\n\n\
    **Order by dependency, then by risk.** Step N+1 must be \
    safe to start only after step N succeeds — that's how the \
    gate works. Within dependency constraints, tackle \
    risky / uncertain work early so failures surface before \
    half the plan is committed. Don't put \"deploy to \
    production\" before \"run the test suite\".\n\n\
    **Read before planning.** Drafted-from-imagination plans \
    miss real constraints — function signatures, build \
    configs, existing patterns. If your plan involves editing \
    a file you haven't read, read it now before calling \
    SubmitPlan.\n\n\
    **Ask before submitting if the stack is undetermined.** \
    AskUserQuestion is REQUIRED — not optional — when a key \
    decision can't be resolved from the code or the user's \
    prompt alone (which framework? which storage backend? \
    which deployment target?). A wrong assumption forces a \
    full replan, wastes the user's review time, and burns \
    execution attempts on the wrong target. Ask BEFORE \
    SubmitPlan.\n\n\
    **No \"maybe\" / \"optional\" steps.** Either a step is \
    needed and you'll do it, or it isn't and you skip it. The \
    gate has Done / Failed, not Maybe.\n\n\
    ### Audit BEFORE calling SubmitPlan\n\n\
    After drafting the plan, run this self-audit. If any \
    check fails, revise — don't submit a plan you wouldn't \
    approve yourself.\n\n\
    1. **Goal coverage** — Read the user's original ask. Does \
    executing every step in order actually deliver what they \
    asked for? If a step is missing (a feature, a build \
    check, a final smoke test), add it.\n\
    2. **Atomic steps** — Apply the three-rule test (one \
    action, one shell-runnable verification, output preserved \
    across the next step) to EVERY step. Split any that fail.\n\
    3. **Bash-runnable verifications** — Re-read every \
    `Verify:` line. Could you run that as a shell command \
    right now? If a verification mentions \"browser\", \
    \"visually\", or \"feels\", replace it with a grep / curl \
    / build check, or split the step.\n\
    4. **Cross-step dependencies named** — For every step \
    that edits a file, confirm the file's existence is \
    established by an earlier step's description (or by the \
    current code). If step 3 needs `src/App.tsx` and the \
    plan never names where that comes from, fix step 2's \
    description.\n\
    5. **No throwaway steps** — Walk pairs (step N, step \
    N+1). Will step N+1 overwrite or replace step N's \
    output? If yes, merge them.\n\
    6. **No long-running servers as verifications** — Search \
    your verification lines for `pnpm run dev`, `cargo run`, \
    `npm start`, `python -m http.server`. Replace each with \
    the build-only equivalent.\n\
    7. **Stack decisions made** — Did you assume a framework \
    / storage / deploy target the user didn't specify? If so, \
    call AskUserQuestion BEFORE SubmitPlan.\n\n\
    Only call SubmitPlan once all seven checks pass. The user \
    trusts the plan you submit; submitting a plan you'd flag \
    as weak yourself wastes their approval and your retry \
    budget.";

/// What the model is told while its plan waits for approval, up to the number of
/// steps.
pub const AWAIT_HEAD: &'static str = "## Plan mode — awaiting user approval\n\n\
    You have submitted a plan (";

/// What follows the number of steps.
pub const AWAIT_COUNTED: &'static str = " steps)";

/// What follows that.
pub const AWAIT_TAIL: &'static str = ". The user is reviewing \
    it in the right-side sidebar. They will click **Approve** to \
    begin execution, or **Cancel** to discard the plan.\n\n\
    While waiting for approval, do NOT:\n\
    - Call **any other tools** — not Read, Grep, Edit, Bash, \
    UpdatePlanStep, or ExitPlanMode. The agent loop will block \
    these and surface a tool-result error if you try.\n\
    - Call **SubmitPlan again** unless the user explicitly asks \
    for a different plan.\n\
    - Tell the user to **type anything** to start (\"type 'go' \
    / 'start' / 'begin' to proceed\"). The buttons are the \
    contract — there is no chat-input route to approve. If you \
    tell them to type something, they will, and the system will \
    block your follow-up tool calls anyway.\n\n\
    Just emit a brief one-line confirmation that the plan is \
    ready for review (or stay silent) and stop. The sidebar \
    buttons are how the user moves the workflow forward, not \
    chat messages.";

/// How to go on with a step in progress, up to the first mention of its id.
pub const PROTOCOL_IN_PROGRESS_HEAD: &'static str = "Per-step protocol:\n\
    - You're already on this step. Focus on completing it.\n\
    - **Run the verification before marking done.** The plan's description \
    for this step should specify what to check (build exits 0, test passes, \
    endpoint returns 200, etc.). Actually run that check.\n\
    - If verification passes: UpdatePlanStep(\"";

/// What stands between the two mentions of its id.
pub const PROTOCOL_IN_PROGRESS_MID: &'static str = "\", \"done\")\n\
    - If verification fails: UpdatePlanStep(\"";

/// What follows the second mention.
pub const PROTOCOL_IN_PROGRESS_TAIL: &'static str = "\", \"failed\", note: \"<one-line reason>\")\n\
    - Don't paper over a failure by marking it done — the user has Retry / \
    Skip / Abort buttons in the sidebar for the Failed path.";

/// How to begin a step, up to the first mention of its id.
pub const PROTOCOL_TODO_HEAD: &'static str = "Per-step protocol:\n\
    - Begin: UpdatePlanStep(\"";

/// What stands between the first and the second mention.
pub const PROTOCOL_TODO_BEGUN: &'static str = "\", \"in_progress\")\n\
    - Perform the step's main action.\n\
    - **Run the verification** specified in the step's description.\n\
    - If verification passes: UpdatePlanStep(\"";

/// What stands between the second and the third mention.
pub const PROTOCOL_TODO_PASSED: &'static str = "\", \"done\")\n\
    - If verification fails: UpdatePlanStep(\"";

/// What follows the third mention.
pub const PROTOCOL_TODO_TAIL: &'static str = "\", \"failed\", note: \"<one-line reason>\")";

/// What to do about a failed step.
pub const PROTOCOL_FAILED: &'static str = "Per-step protocol:\n\
    - This step is in Failed state. The user has Retry / Skip / Abort \
    buttons in the sidebar. Do NOT call UpdatePlanStep again unless \
    the user explicitly retries — wait for their next message.";

/// What to do once every step is done.
pub const ALL_DONE_TEXT: &'static str = "Every step is Done. Wrap up the conversation with a brief \
    summary of what was accomplished. Do not call any further \
    tools unless the user requests follow-up work.\n\n";

/// How to execute an approved plan.
pub const AUTONOMY_TEXT: &'static str = "**Execute autonomously.** The user has already approved this \
    plan by clicking the sidebar Approve button — do NOT pause to \
    ask \"shall I proceed?\" / \"should I do X?\" / \"continue with \
    the next step?\". Step transitions are the contract; the user \
    monitors progress via the sidebar checkmarks, not via chat \
    confirmations. Run end-to-end without intermediate user \
    checkpoints.\n\n\
    Only stop to ask the user (via AskUserQuestion or plain chat) \
    if you hit a genuine blocker — missing credentials, an ambiguous \
    decision the plan didn't resolve, or a destructive action that \
    materially exceeds the plan's scope. Otherwise: keep going.\n\n\
    Plans are strictly sequential — focus only on the current step. The \
    gate will reject any out-of-order transition.";

/// How a list of open todos is introduced.
pub const TODOS_HEAD: &'static str = "## Existing todos (.thclaws/todos.md)\n\n\
    A scratchpad todo list from a prior session is present in this \
    workspace. Surface this to the user before asking what to work \
    on, and offer to resume incomplete items (`[ ]` pending or \
    `[-]` in_progress) or replace the list. Don't ask \"what \
    should we do?\" while these answers are sitting in front of \
    you.\n\n\
    Current contents:\n\n\
    ```markdown\n";

/// What the model may do with the list.
pub const TODOS_TAIL: &'static str = "```\n\n\
    If the user wants to resume, mark the next pending item as \
    `in_progress` via TodoWrite (passing the full list with that \
    one item flipped) and start work on it. If they want a fresh \
    start, write an updated list via TodoWrite that reflects the \
    new direction.";
// ---------------------------------------------------------------------------
// Finding steps
// ---------------------------------------------------------------------------

/// The first step with a status.
pub open spec fn first_with(s: Seq<PlanStep>, status: StepStatus) -> Option<nat>
    decreases s.len(),
{
    if s.len() == 0 {
        None
    } else if s[0].status == status {
        Some(0)
    } else {
        match first_with(s.skip(1), status) {
            Some(i) => Some(i + 1),
            None => None,
        }
    }
}

proof fn lemma_first_with(s: Seq<PlanStep>, status: StepStatus, i: int)
    requires
        0 <= i <= s.len(),
        forall|k: int| 0 <= k < i ==> (#[trigger] s[k]).status != status,
        i < s.len() ==> s[i].status == status,
    ensures
        first_with(s, status) == if i < s.len() {
            Some(i as nat)
        } else {
            None::<nat>
        },
    decreases i,
{
    if i > 0 {
        assert forall|k: int| 0 <= k < i - 1 implies (#[trigger] s.skip(1)[k]).status != status by {
            assert(s.skip(1)[k] == s[k + 1]);
        }
        lemma_first_with(s.skip(1), status, i - 1);
    }
}

fn find_status(steps: &Vec<PlanStep>, status: StepStatus) -> (r: Option<usize>)
    ensures
        match r {
            Some(i) => first_with(steps@, status) == Some(i as nat) && i < steps@.len()
                && steps@[i as int].status == status,
            None => first_with(steps@, status) is None,
        },
{
    let mut i: usize = 0;
    while i < steps.len()
        invariant
            i <= steps@.len(),
            forall|k: int| 0 <= k < i ==> (#[trigger] steps@[k]).status != status,
        decreases steps@.len() - i,
    {
        if steps[i].status == status {
            proof {
                lemma_first_with(steps@, status, i as int);
            }
            return Some(i);
        }
        i = i + 1;
    }
    proof {
        lemma_first_with(steps@, status, i as int);
    }
    None
}

/// The first step with an id.
pub open spec fn first_with_id(s: Seq<PlanStep>, id: Seq<char>) -> Option<nat>
    decreases s.len(),
{
    if s.len() == 0 {
        None
    } else if s[0].id@ == id {
        Some(0)
    } else {
        match first_with_id(s.skip(1), id) {
            Some(i) => Some(i + 1),
            None => None,
        }
    }
}

proof fn lemma_first_with_id(s: Seq<PlanStep>, id: Seq<char>, i: int)
    requires
        0 <= i <= s.len(),
        forall|k: int| 0 <= k < i ==> (#[trigger] s[k]).id@ != id,
        i < s.len() ==> s[i].id@ == id,
    ensures
        first_with_id(s, id) == if i < s.len() {
            Some(i as nat)
        } else {
            None::<nat>
        },
    decreases i,
{
    if i > 0 {
        assert forall|k: int| 0 <= k < i - 1 implies (#[trigger] s.skip(1)[k]).id@ != id by {
            assert(s.skip(1)[k] == s[k + 1]);
        }
        lemma_first_with_id(s.skip(1), id, i - 1);
    }
}

fn find_id(steps: &Vec<PlanStep>, id: &str) -> (r: Option<usize>)
    ensures
        match r {
            Some(i) => first_with_id(steps@, id@) == Some(i as nat) && i < steps@.len(),
            None => first_with_id(steps@, id@) is None,
        },
{
    let mut i: usize = 0;
    while i < steps.len()
        invariant
            i <= steps@.len(),
            forall|k: int| 0 <= k < i ==> (#[trigger] steps@[k]).id@ != id@,
        decreases steps@.len() - i,
    {
        if text::same(steps[i].id.as_str(), id) {
            proof {
                lemma_first_with_id(steps@, id@, i as int);
            }
            return Some(i);
        }
        i = i + 1;
    }
    proof {
        lemma_first_with_id(steps@, id@, i as int);
    }
    None
}

/// The step that a reminder puts in focus: the one in progress, else the
/// failed one, else the first that is still to do.
pub open spec fn focus_of(s: Seq<PlanStep>) -> Option<nat> {
    match first_with(s, StepStatus::InProgress) {
        Some(i) => Some(i),
        None => match first_with(s, StepStatus::Failed) {
            Some(i) => Some(i),
            None => first_with(s, StepStatus::Todo),
        },
    }
}

fn find_focus(steps: &Vec<PlanStep>) -> (r: Option<usize>)
    ensures
        match r {
            Some(i) => focus_of(steps@) == Some(i as nat) && i < steps@.len(),
            None => focus_of(steps@) is None,
        },
{
    match find_status(steps, StepStatus::InProgress) {
        Some(i) => Some(i),
        None => match find_status(steps, StepStatus::Failed) {
            Some(i) => Some(i),
            None => find_status(steps, StepStatus::Todo),
        },
    }
}

// ---------------------------------------------------------------------------
// Pieces of a reminder
// ---------------------------------------------------------------------------

/// Each line on a line of its own, two blanks in.
pub open spec fn indented(lines: Seq<Seq<char>>) -> Seq<char>
    decreases lines.len(),
{
    if lines.len() == 0 {
        Seq::empty()
    } else {
        indented(lines.drop_last()) + "  "@ + lines.last() + "\n"@
    }
}

/// The finished steps of `s`, numbered as in the plan.
pub open spec fn done_titles(s: Seq<PlanStep>) -> Seq<Seq<char>>
    decreases s.len(),
{
    if s.len() == 0 {
        Seq::empty()
    } else if s.last().status == StepStatus::Done {
        done_titles(s.drop_last()).push(text::decimal_of(s.len()) + ". "@ + s.last().title@)
    } else {
        done_titles(s.drop_last())
    }
}

/// The unfinished steps of `s` from position `from` on, numbered as in the
/// plan: titles only.
pub open spec fn remaining_titles(s: Seq<PlanStep>, from: nat) -> Seq<Seq<char>>
    decreases s.len(),
{
    if s.len() <= from {
        Seq::empty()
    } else if s.last().status != StepStatus::Done {
        remaining_titles(s.drop_last(), from).push(
            "  • "@ + text::decimal_of(s.len()) + ". "@ + s.last().title@,
        )
    } else {
        remaining_titles(s.drop_last(), from)
    }
}

/// What a finished step left for later steps: its number, title and trimmed
/// output, where it left any.
pub open spec fn step_output(s: PlanStep) -> Option<Seq<char>> {
    if s.status != StepStatus::Done {
        None
    } else {
        match s.output {
            Some(o) => if text::trim_of(o@).len() == 0 {
                None
            } else {
                Some(text::trim_of(o@))
            },
            None => None,
        }
    }
}

/// What the steps of `s` left for later ones.
pub open spec fn outputs_of(s: Seq<PlanStep>) -> Seq<(nat, Seq<char>, Seq<char>)>
    decreases s.len(),
{
    if s.len() == 0 {
        Seq::empty()
    } else {
        match step_output(s.last()) {
            Some(o) => outputs_of(s.drop_last()).push((s.len(), s.last().title@, o)),
            None => outputs_of(s.drop_last()),
        }
    }
}

/// What the steps before the one named `id` left for it; before all steps'
/// end where no step has that name.
pub open spec fn prior_outputs(s: Seq<PlanStep>, id: Seq<char>) -> Seq<
    (nat, Seq<char>, Seq<char>),
> {
    match first_with_id(s, id) {
        Some(i) => outputs_of(s.take(i as int)),
        None => outputs_of(s),
    }
}

/// One line for each output.
pub open spec fn output_lines(o: Seq<(nat, Seq<char>, Seq<char>)>) -> Seq<char>
    decreases o.len(),
{
    if o.len() == 0 {
        Seq::empty()
    } else {
        output_lines(o.drop_last()) + "  - Step "@ + text::decimal_of(o.last().0) + " ("@
            + o.last().1 + "): "@ + o.last().2 + "\n"@
    }
}

/// What a finished step left for later steps.
#[derive(Debug, PartialEq, Eq)]
pub struct StepOutput {
    pub position: usize,
    pub title: String,
    pub output: String,
}

impl View for StepOutput {
    type V = (nat, Seq<char>, Seq<char>);

    open spec fn view(&self) -> (nat, Seq<char>, Seq<char>) {
        (self.position as nat, self.title@, self.output@)
    }
}

fn put_indented(out: &mut String, body: &str)
    ensures
        final(out)@ == old(out)@ + indented(text::lines_of(body@)),
{
    let lines = text::lines(body);
    let ghost base = out@;
    let ghost all = text::lines_of(body@);
    let mut i: usize = 0;
    while i < lines.len()
        invariant
            i <= lines@.len(),
            text::views(lines@) == all,
            out@ == base + indented(all.take(i as int)),
        decreases lines@.len() - i,
    {
        out.append("  ");
        out.append(lines[i].as_str());
        out.append("\n");
        proof {
            let t = all.take(i + 1);
            assert(t.drop_last() == all.take(i as int));
            assert(t.last() == lines@[i as int]@);
            assert(out@ =~= base + indented(t));
        }
        i = i + 1;
    }
    proof {
        assert(all.take(i as int) == all);
    }
}

fn list_done(steps: &Vec<PlanStep>) -> (r: Vec<String>)
    ensures
        text::views(r@) == done_titles(steps@),
{
    let mut r: Vec<String> = Vec::new();
    let mut i: usize = 0;
    proof {
        assert(text::views(r@) =~= done_titles(steps@.take(0)));
    }
    while i < steps.len()
        invariant
            i <= steps@.len(),
            text::views(r@) == done_titles(steps@.take(i as int)),
        decreases steps@.len() - i,
    {
        broadcast use text::views_push;

        proof {
            let t = steps@.take(i + 1);
            assert(t.drop_last() == steps@.take(i as int));
            assert(t.last() == steps@[i as int]);
        }
        if steps[i].status == StepStatus::Done {
            let mut line = text::decimal(i as u64 + 1);
            line.append(". ");
            line.append(steps[i].title.as_str());
            r.push(line);
        }
        i = i + 1;
    }
    proof {
        assert(steps@.take(i as int) == steps@);
    }
    r
}

fn list_remaining(steps: &Vec<PlanStep>, from: usize) -> (r: Vec<String>)
    requires
        from <= steps@.len(),
    ensures
        text::views(r@) == remaining_titles(steps@, from as nat),
{
    let mut r: Vec<String> = Vec::new();
    let mut i: usize = from;
    proof {
        assert(text::views(r@) =~= remaining_titles(steps@.take(from as int), from as nat));
    }
    while i < steps.len()
        invariant
            from <= i <= steps@.len(),
            text::views(r@) == remaining_titles(steps@.take(i as int), from as nat),
        decreases steps@.len() - i,
    {
        broadcast use text::views_push;

        proof {
            let t = steps@.take(i + 1);
            assert(t.drop_last() == steps@.take(i as int));
            assert(t.last() == steps@[i as int]);
        }
        if steps[i].status != StepStatus::Done {
            let mut line = "  • ".to_string();
            line.append(text::decimal(i as u64 + 1).as_str());
            line.append(". ");
            line.append(steps[i].title.as_str());
            r.push(line);
        }
        i = i + 1;
    }
    proof {
        assert(steps@.take(i as int) == steps@);
    }
    r
}

/// What the finished steps before `current_step_id` left for it.
pub fn collect_prior_step_outputs(plan: &Plan, current_step_id: &str) -> (r: Vec<StepOutput>)
    ensures
        text::views(r@) == prior_outputs(plan.steps@, current_step_id@),
{
    let end = match find_id(&plan.steps, current_step_id) {
        Some(i) => i,
        None => plan.steps.len(),
    };
    let mut r: Vec<StepOutput> = Vec::new();
    let mut i: usize = 0;
    proof {
        assert(text::views(r@) =~= outputs_of(plan.steps@.take(0)));
    }
    while i < end
        invariant
            i <= end <= plan.steps@.len(),
            text::views(r@) == outputs_of(plan.steps@.take(i as int)),
        decreases end - i,
    {
        broadcast use text::views_push;

        proof {
            let t = plan.steps@.take(i + 1);
            assert(t.drop_last() == plan.steps@.take(i as int));
            assert(t.last() == plan.steps@[i as int]);
        }
        let step = &plan.steps[i];
        if step.status == StepStatus::Done {
            if let Some(o) = &step.output {
                let trimmed = text::trim(o.as_str());
                if !trimmed.is_empty() {
                    r.push(
                        StepOutput {
                            position: i + 1,
                            title: step.title.clone(),
                            output: trimmed.to_string(),
                        },
                    );
                }
            }
        }
        i = i + 1;
    }
    proof {
        if end == plan.steps@.len() {
            assert(plan.steps@.take(end as int) == plan.steps@);
        }
    }
    r
}

fn put_outputs(out: &mut String, outputs: &Vec<StepOutput>)
    ensures
        final(out)@ == old(out)@ + output_lines(text::views(outputs@)),
{
    let ghost base = out@;
    let ghost all = text::views(outputs@);
    let mut i: usize = 0;
    while i < outputs.len()
        invariant
            i <= outputs@.len(),
            all == text::views(outputs@),
            out@ == base + output_lines(all.take(i as int)),
        decreases outputs@.len() - i,
    {
        out.append("  - Step ");
        out.append(text::decimal(outputs[i].position as u64).as_str());
        out.append(" (");
        out.append(outputs[i].title.as_str());
        out.append("): ");
        out.append(outputs[i].output.as_str());
        out.append("\n");
        proof {
            let t = all.take(i + 1);
            assert(t.drop_last() == all.take(i as int));
            assert(t.last() == outputs@[i as int]@);
            assert(out@ =~= base + output_lines(t));
        }
        i = i + 1;
    }
    proof {
        assert(all.take(i as int) == all);
    }
}

// ---------------------------------------------------------------------------
// The execution reminder
// ---------------------------------------------------------------------------

/// How the step in focus is introduced.
pub open spec fn status_hint(status: StepStatus) -> Seq<char> {
    match status {
        StepStatus::InProgress => "  Current step:"@,
        StepStatus::Failed => "  Failed step (awaiting user retry / skip / abort):"@,
        StepStatus::Todo => "  Next step (call UpdatePlanStep with \"in_progress\" to begin):"@,
        StepStatus::Done => "  Step:"@,
    }
}

/// What to do with the step in focus.
pub open spec fn protocol_of(status: StepStatus, id: Seq<char>) -> Seq<char> {
    match status {
        StepStatus::InProgress => PROTOCOL_IN_PROGRESS_HEAD@ + id + PROTOCOL_IN_PROGRESS_MID@ + id
            + PROTOCOL_IN_PROGRESS_TAIL@,
        StepStatus::Todo => PROTOCOL_TODO_HEAD@ + id + PROTOCOL_TODO_BEGUN@ + id
            + PROTOCOL_TODO_PASSED@ + id + PROTOCOL_TODO_TAIL@,
        StepStatus::Failed => PROTOCOL_FAILED@,
        StepStatus::Done => Seq::empty(),
    }
}

/// The description of the step in focus, indented, with an empty line after
/// it; nothing where it is blank.
pub open spec fn description_block(d: Seq<char>) -> Seq<char> {
    if text::trim_of(d).len() == 0 {
        Seq::empty()
    } else {
        indented(text::lines_of(d)) + "\n"@
    }
}

pub open spec fn note_block(note: Option<String>) -> Seq<char> {
    match note {
        Some(n) => if text::trim_of(n@).len() == 0 {
            Seq::empty()
        } else {
            "  (note: "@ + n@ + ")\n\n"@
        },
        None => Seq::empty(),
    }
}

pub open spec fn done_block(s: Seq<PlanStep>) -> Seq<char> {
    if done_titles(s).len() == 0 {
        Seq::empty()
    } else {
        "Already complete: "@ + text::join_of(done_titles(s), ", "@) + "\n\n"@
    }
}

pub open spec fn remaining_block(s: Seq<PlanStep>, from: nat) -> Seq<char> {
    if remaining_titles(s, from).len() == 0 {
        Seq::empty()
    } else {
        "Remaining (titles only, do NOT preview):\n"@ + text::join_of(
            remaining_titles(s, from),
            "\n"@,
        ) + "\n\n"@
    }
}

pub open spec fn outputs_block(o: Seq<(nat, Seq<char>, Seq<char>)>) -> Seq<char> {
    if o.len() == 0 {
        Seq::empty()
    } else {
        "Outputs from prior steps (use these instead of guessing):\n"@ + output_lines(o) + "\n"@
    }
}

pub open spec fn protocol_block(status: StepStatus, id: Seq<char>) -> Seq<char> {
    if protocol_of(status, id).len() == 0 {
        Seq::empty()
    } else {
        protocol_of(status, id) + "\n\n"@
    }
}

/// The part of the reminder on the step in focus, `s[i]`.
pub open spec fn focus_block(s: Seq<PlanStep>, i: nat) -> Seq<char> {
    let step = s[i as int];
    " — step "@ + text::decimal_of(i + 1) + " of "@ + text::decimal_of(s.len()) + "\n\n"@
        + status_hint(step.status) + " \""@ + step.title@ + "\"\n\n"@ + description_block(
        step.description@,
    ) + note_block(step.note) + done_block(s) + remaining_block(s, i + 1) + outputs_block(
        prior_outputs(s, step.id@),
    ) + protocol_block(step.status, step.id@)
}

/// The reminder while a plan is carried out: the step in focus in full, the
/// finished steps and the remaining ones by title only.
pub open spec fn execution_reminder(s: Seq<PlanStep>) -> Seq<char> {
    "## Executing approved plan"@ + (match focus_of(s) {
        Some(i) => focus_block(s, i),
        None => " — all steps complete\n\n"@ + ALL_DONE_TEXT@,
    }) + AUTONOMY_TEXT@
}

fn hint_text(status: StepStatus) -> (r: &'static str)
    ensures
        r@ == status_hint(status),
{
    match status {
        StepStatus::InProgress => "  Current step:",
        StepStatus::Failed => "  Failed step (awaiting user retry / skip / abort):",
        StepStatus::Todo => "  Next step (call UpdatePlanStep with \"in_progress\" to begin):",
        StepStatus::Done => "  Step:",
    }
}

fn protocol_text(status: StepStatus, id: &str) -> (r: String)
    ensures
        r@ == protocol_of(status, id@),
{
    match status {
        StepStatus::InProgress => {
            let mut p = PROTOCOL_IN_PROGRESS_HEAD.to_string();
            p.append(id);
            p.append(PROTOCOL_IN_PROGRESS_MID);
            p.append(id);
            p.append(PROTOCOL_IN_PROGRESS_TAIL);
            p
        },
        StepStatus::Todo => {
            let mut p = PROTOCOL_TODO_HEAD.to_string();
            p.append(id);
            p.append(PROTOCOL_TODO_BEGUN);
            p.append(id);
            p.append(PROTOCOL_TODO_PASSED);
            p.append(id);
            p.append(PROTOCOL_TODO_TAIL);
            p
        },
        StepStatus::Failed => PROTOCOL_FAILED.to_string(),
        StepStatus::Done => String::new(),
    }
}

fn description_text(d: &str) -> (r: String)
    ensures
        r@ == description_block(d@),
{
    let mut out = String::new();
    if !text::trim(d).is_empty() {
        put_indented(&mut out, d);
        out.append("\n");
    }
    proof {
        assert(out@ =~= description_block(d@));
    }
    out
}

fn note_text(note: &Option<String>) -> (r: String)
    ensures
        r@ == note_block(*note),
{
    if let Some(n) = note {
        if !text::trim(n.as_str()).is_empty() {
            let mut out = "  (note: ".to_string();
            out.append(n.as_str());
            out.append(")\n\n");
            return out;
        }
    }
    String::new()
}

fn done_text(steps: &Vec<PlanStep>) -> (r: String)
    ensures
        r@ == done_block(steps@),
{
    let titles = list_done(steps);
    proof {
        assert(titles@.len() == text::views(titles@).len());
    }
    if titles.is_empty() {
        return String::new();
    }
    let mut out = "Already complete: ".to_string();
    out.append(text::join(&titles, ", ").as_str());
    out.append("\n\n");
    out
}

fn remaining_text(steps: &Vec<PlanStep>, from: usize) -> (r: String)
    requires
        from <= steps@.len(),
    ensures
        r@ == remaining_block(steps@, from as nat),
{
    let titles = list_remaining(steps, from);
    proof {
        assert(titles@.len() == text::views(titles@).len());
    }
    if titles.is_empty() {
        return String::new();
    }
    let mut out = "Remaining (titles only, do NOT preview):\n".to_string();
    out.append(text::join(&titles, "\n").as_str());
    out.append("\n\n");
    out
}

fn outputs_text(outputs: &Vec<StepOutput>) -> (r: String)
    ensures
        r@ == outputs_block(text::views(outputs@)),
{
    if outputs.is_empty() {
        return String::new();
    }
    let mut out = "Outputs from prior steps (use these instead of guessing):\n".to_string();
    put_outputs(&mut out, outputs);
    out.append("\n");
    out
}

/// The reminder while a plan is carried out.
pub fn build_execution_reminder(plan: &Plan) -> (r: String)
    ensures
        r@ == execution_reminder(plan.steps@),
{
    let total = plan.steps.len();
    let mut out = "## Executing approved plan".to_string();
    match find_focus(&plan.steps) {
        Some(idx) => {
            let step = &plan.steps[idx];
            let mut body = " — step ".to_string();
            body.append(text::decimal(idx as u64 + 1).as_str());
            body.append(" of ");
            body.append(text::decimal(total as u64).as_str());
            body.append("\n\n");
            body.append(hint_text(step.status));
            body.append(" \"");
            body.append(step.title.as_str());
            body.append("\"\n\n");
            body.append(description_text(step.description.as_str()).as_str());
            body.append(note_text(&step.note).as_str());
            body.append(done_text(&plan.steps).as_str());
            body.append(remaining_text(&plan.steps, idx + 1).as_str());
            let outputs = collect_prior_step_outputs(plan, step.id.as_str());
            body.append(outputs_text(&outputs).as_str());
            let mut protocol = protocol_text(step.status, step.id.as_str());
            if !protocol.as_str().is_empty() {
                protocol.append("\n\n");
            }
            body.append(protocol.as_str());
            out.append(body.as_str());
        },
        None => {
            let mut body = " — all steps complete\n\n".to_string();
            body.append(ALL_DONE_TEXT);
            out.append(body.as_str());
        },
    }
    out.append(AUTONOMY_TEXT);
    out
}

// ---------------------------------------------------------------------------
// The plan reminder
// ---------------------------------------------------------------------------

pub open spec fn all_done(s: Seq<PlanStep>) -> bool {
    forall|i: int| 0 <= i < s.len() ==> (#[trigger] s[i]).status == StepStatus::Done
}

/// What the model is told in plan mode before it has submitted a plan.
pub open spec fn explore_reminder() -> Seq<char> {
    EXPLORE_HEAD@ + EXPLORE_BODY@
}

fn explore_text() -> (r: String)
    ensures
        r@ == explore_reminder(),
{
    let mut out = EXPLORE_HEAD.to_string();
    out.append(EXPLORE_BODY);
    out
}

/// The reminder of a turn, by permission mode and plan.
pub open spec fn plan_reminder(mode: PermissionMode, plan: Option<Seq<PlanStep>>) -> Option<
    Seq<char>,
> {
    match plan {
        None => if mode == PermissionMode::Plan {
            Some(explore_reminder())
        } else {
            None
        },
        Some(s) => if mode != PermissionMode::Plan {
            Some(execution_reminder(s))
        } else if all_done(s) {
            Some(explore_reminder())
        } else {
            Some(AWAIT_HEAD@ + text::decimal_of(s.len()) + AWAIT_COUNTED@ + AWAIT_TAIL@)
        },
    }
}

/// The steps of an optional plan.
pub open spec fn steps_of(plan: Option<&Plan>) -> Option<Seq<PlanStep>> {
    match plan {
        Some(p) => Some(p.steps@),
        None => None,
    }
}

fn is_all_done(steps: &Vec<PlanStep>) -> (r: bool)
    ensures
        r == all_done(steps@),
{
    let mut i: usize = 0;
    while i < steps.len()
        invariant
            i <= steps@.len(),
            forall|k: int| 0 <= k < i ==> (#[trigger] steps@[k]).status == StepStatus::Done,
        decreases steps@.len() - i,
    {
        if steps[i].status != StepStatus::Done {
            return false;
        }
        i = i + 1;
    }
    true
}

/// The plan reminder that goes into the system prompt at the start of a turn:
/// none without a plan outside plan mode; in plan mode the exploration text
/// before a plan is submitted (or once the last one is finished) and the
/// waiting text after; otherwise the execution reminder.
pub fn build_plan_reminder(mode: PermissionMode, plan: Option<&Plan>) -> (r: Option<String>)
    ensures
        text::view_opt(r) == plan_reminder(mode, steps_of(plan)),
{
    match plan {
        None => if mode == PermissionMode::Plan {
            Some(explore_text())
        } else {
            None
        },
        Some(p) => if mode != PermissionMode::Plan {
            Some(build_execution_reminder(p))
        } else if is_all_done(&p.steps) {
            Some(explore_text())
        } else {
            let mut out = AWAIT_HEAD.to_string();
            out.append(text::decimal(p.steps.len() as u64).as_str());
            out.append(AWAIT_COUNTED);
            out.append(AWAIT_TAIL);
            Some(out)
        },
    }
}

// ---------------------------------------------------------------------------
// What the execution reminder keeps to itself
// ---------------------------------------------------------------------------

/// Two steps that differ at most in description and note.
pub open spec fn same_outline(a: PlanStep, b: PlanStep) -> bool {
    a.id@ == b.id@ && a.title@ == b.title@ && a.status == b.status && text::view_opt(a.output)
        == text::view_opt(b.output)
}

/// Two plans whose steps differ at most in description and note.
pub open spec fn same_outlines(s: Seq<PlanStep>, t: Seq<PlanStep>) -> bool {
    s.len() == t.len() && forall|i: int|
        0 <= i < s.len() ==> same_outline(#[trigger] s[i], #[trigger] t[i])
}

proof fn lemma_outline_finds(s: Seq<PlanStep>, t: Seq<PlanStep>, status: StepStatus, id: Seq<char>)
    requires
        same_outlines(s, t),
    ensures
        first_with(s, status) == first_with(t, status),
        first_with_id(s, id) == first_with_id(t, id),
    decreases s.len(),
{
    if s.len() > 0 {
        assert(same_outline(s[0], t[0]));
        assert forall|i: int| 0 <= i < s.len() - 1 implies same_outline(
            #[trigger] s.skip(1)[i],
            #[trigger] t.skip(1)[i],
        ) by {
            assert(same_outline(s[i + 1], t[i + 1]));
        }
        lemma_outline_finds(s.skip(1), t.skip(1), status, id);
    }
}

proof fn lemma_outline_lists(s: Seq<PlanStep>, t: Seq<PlanStep>, from: nat)
    requires
        same_outlines(s, t),
    ensures
        done_titles(s) == done_titles(t),
        remaining_titles(s, from) == remaining_titles(t, from),
        outputs_of(s) == outputs_of(t),
    decreases s.len(),
{
    if s.len() > 0 {
        assert(same_outline(s[s.len() - 1], t[t.len() - 1]));
        lemma_outline_lists(s.drop_last(), t.drop_last(), from);
    }
}

proof fn lemma_first_in_range(s: Seq<PlanStep>, status: StepStatus, id: Seq<char>)
    ensures
        first_with(s, status) matches Some(i) ==> i < s.len(),
        first_with_id(s, id) matches Some(i) ==> i < s.len(),
    decreases s.len(),
{
    if s.len() > 0 {
        lemma_first_in_range(s.skip(1), status, id);
    }
}

/// Of a plan being carried out, the reminder shows the description and the
/// note of the step in focus and of no other: two plans that agree on the
/// outline of every step and on those two texts of the step in focus give the
/// same reminder.
pub proof fn reminder_hides_other_descriptions(s: Seq<PlanStep>, t: Seq<PlanStep>)
    requires
        same_outlines(s, t),
        focus_of(s) matches Some(i) ==> s[i as int].description@ == t[i as int].description@
            && text::view_opt(s[i as int].note) == text::view_opt(t[i as int].note),
    ensures
        execution_reminder(s) == execution_reminder(t),
{
    lemma_outline_finds(s, t, StepStatus::InProgress, Seq::empty());
    lemma_outline_finds(s, t, StepStatus::Failed, Seq::empty());
    lemma_outline_finds(s, t, StepStatus::Todo, Seq::empty());
    lemma_first_in_range(s, StepStatus::InProgress, Seq::empty());
    lemma_first_in_range(s, StepStatus::Failed, Seq::empty());
    lemma_first_in_range(s, StepStatus::Todo, Seq::empty());
    if let Some(i) = focus_of(s) {
        let id = s[i as int].id@;
        assert(same_outline(s[i as int], t[i as int]));
        lemma_outline_lists(s, t, i + 1);
        lemma_outline_finds(s, t, StepStatus::Todo, id);
        lemma_first_in_range(s, StepStatus::Todo, id);
        if let Some(k) = first_with_id(s, id) {
            lemma_outline_lists(s.take(k as int), t.take(k as int), 0);
        }
        assert(note_block(s[i as int].note) == note_block(t[i as int].note));
    }
}

/// Outside plan mode there is a reminder exactly where there is a plan; in
/// plan mode there always is one.
pub proof fn reminder_is_given(mode: PermissionMode, plan: Option<Seq<PlanStep>>)
    ensures
        plan_reminder(mode, plan) is Some <==> mode == PermissionMode::Plan || plan is Some,
{
}

proof fn lemma_part_occurs(a: Seq<char>, p: Seq<char>, b: Seq<char>)
    ensures
        text::contains_text(a + p + b, p),
{
    let n = a.len() as int;
    assert((a + p + b).subrange(n, n + p.len()) =~= p);
    assert(text::occurs_at(a + p + b, p, n));
}

/// What the reminder says, case by case: outside plan mode nothing without a
/// plan and the execution reminder with one; in plan mode that it is active
/// where no plan waits, and otherwise that the plan, with its number of steps,
/// awaits approval.
pub proof fn reminder_says(mode: PermissionMode, plan: Option<Seq<PlanStep>>)
    ensures
        ({
            let r = plan_reminder(mode, plan);
            match plan {
                None => if mode != PermissionMode::Plan {
                    r is None
                } else {
                    r matches Some(t) && text::contains_text(t, "Plan mode is active"@)
                },
                Some(s) => if mode != PermissionMode::Plan {
                    r == Some(execution_reminder(s))
                } else if all_done(s) {
                    r == plan_reminder(PermissionMode::Plan, None) && (r matches Some(t)
                        && text::contains_text(t, "Plan mode is active"@))
                } else {
                    r matches Some(t) && text::contains_text(t, "awaiting user approval"@)
                        && text::contains_text(
                        t,
                        "("@ + text::decimal_of(s.len()) + " steps)"@,
                    )
                },
            }
        }),
{
    reveal_strlit("## Plan mode is active");
    reveal_strlit("## ");
    reveal_strlit("Plan mode is active");
    assert("## "@ + "Plan mode is active"@ =~= EXPLORE_HEAD@);
    lemma_part_occurs("## "@, "Plan mode is active"@, EXPLORE_BODY@);
    if let Some(s) = plan {
        reveal_strlit("## Plan mode — awaiting user approval\n\nYou have submitted a plan (");
        reveal_strlit("## Plan mode — ");
        reveal_strlit("awaiting user approval");
        reveal_strlit("\n\nYou have submitted a plan ");
        reveal_strlit("(");
        let n = text::decimal_of(s.len());
        let a = "## Plan mode — "@;
        let w = "awaiting user approval"@;
        let b = "\n\nYou have submitted a plan "@;
        assert(a + w + b + "("@ =~= AWAIT_HEAD@);
        lemma_part_occurs(a, w, b + "("@ + n + AWAIT_COUNTED@ + AWAIT_TAIL@);
        assert(a + w + (b + "("@ + n + AWAIT_COUNTED@ + AWAIT_TAIL@) =~= AWAIT_HEAD@ + n
            + AWAIT_COUNTED@ + AWAIT_TAIL@);
        lemma_part_occurs(a + w + b, "("@ + n + AWAIT_COUNTED@, AWAIT_TAIL@);
        assert(a + w + b + ("("@ + n + AWAIT_COUNTED@) + AWAIT_TAIL@ =~= AWAIT_HEAD@ + n
            + AWAIT_COUNTED@ + AWAIT_TAIL@);
    }
}

/// In plan mode a finished plan counts as none.
pub proof fn finished_plan_counts_as_none(s: Seq<PlanStep>)
    requires
        all_done(s),
    ensures
        plan_reminder(PermissionMode::Plan, Some(s)) == plan_reminder(PermissionMode::Plan, None),
{
}

// ---------------------------------------------------------------------------
// The continuation prompt
// ---------------------------------------------------------------------------

/// The name of a status.
pub open spec fn status_name(s: StepStatus) -> Seq<char> {
    match s {
        StepStatus::Todo => "Todo"@,
        StepStatus::InProgress => "InProgress"@,
        StepStatus::Done => "Done"@,
        StepStatus::Failed => "Failed"@,
    }
}

fn status_text(s: StepStatus) -> (r: &'static str)
    ensures
        r@ == status_name(s),
{
    match s {
        StepStatus::Todo => "Todo",
        StepStatus::InProgress => "InProgress",
        StepStatus::Done => "Done",
        StepStatus::Failed => "Failed",
    }
}

/// What to do next on a step that can be worked on.
pub open spec fn action_hint(step: PlanStep) -> Seq<char> {
    if step.status == StepStatus::Todo {
        "Begin: UpdatePlanStep(\""@ + step.id@
            + "\", \"in_progress\"). Then perform the step's action, run the verification, and finish with UpdatePlanStep(\""@
            + step.id@ + "\", \"done\") or UpdatePlanStep(\""@ + step.id@
            + "\", \"failed\", note: \"<reason>\")."@
    } else {
        "You're already on this step. Run the verification specified in the step's description, then call UpdatePlanStep(\""@
            + step.id@ + "\", \"done\") if it passed, or UpdatePlanStep(\""@ + step.id@
            + "\", \"failed\", note: \"<reason>\") if it didn't."@
    }
}

pub open spec fn continuation_outputs(o: Seq<(nat, Seq<char>, Seq<char>)>) -> Seq<char> {
    if o.len() == 0 {
        Seq::empty()
    } else {
        "\n\nOutputs from prior steps:\n"@ + output_lines(o)
    }
}

/// The one-based position of the step named `id`; 0 where there is none.
pub open spec fn position_of(s: Seq<PlanStep>, id: Seq<char>) -> nat {
    match first_with_id(s, id) {
        Some(i) => i + 1,
        None => 0,
    }
}

/// The message that sets the model to work on a step; from the second attempt
/// on it names the attempt and the number of attempts there are.
pub open spec fn continuation_prompt(
    s: Seq<PlanStep>,
    step: PlanStep,
    attempt: nat,
    limit: nat,
) -> Seq<char> {
    let at = text::decimal_of(position_of(s, step.id@)) + "/"@ + text::decimal_of(s.len());
    if step.status == StepStatus::Done || step.status == StepStatus::Failed {
        "Plan step \""@ + step.title@ + "\" is in state "@ + status_name(step.status)
            + ". Wait for the user to retry, skip, or abort via the sidebar."@
    } else if attempt <= 1 {
        "Continue plan execution. Focus: step "@ + at + " \""@ + step.title@ + "\".\n\n"@
            + action_hint(step) + continuation_outputs(prior_outputs(s, step.id@))
    } else {
        "Continue plan execution — attempt "@ + text::decimal_of(attempt) + " on step "@ + at
            + " \""@ + step.title@ + "\". You have at most "@ + text::decimal_of(limit)
            + " attempts per step; after that the driver will mark this step Failed automatically. Commit to a transition this turn: do the work and call UpdatePlanStep(\""@
            + step.id@
            + "\", \"done\"), OR if the step can't be finished, call UpdatePlanStep(\""@ + step.id@
            + "\", \"failed\", note: \"<one-line reason>\") so the user can retry / skip / abort via the sidebar.\n\n"@
            + action_hint(step)
    }
}

fn hint_for(step: &PlanStep) -> (r: String)
    ensures
        r@ == action_hint(*step),
{
    if step.status == StepStatus::Todo {
        let mut h = "Begin: UpdatePlanStep(\"".to_string();
        h.append(step.id.as_str());
        h.append(
            "\", \"in_progress\"). Then perform the step's action, run the verification, and finish with UpdatePlanStep(\"",
        );
        h.append(step.id.as_str());
        h.append("\", \"done\") or UpdatePlanStep(\"");
        h.append(step.id.as_str());
        h.append("\", \"failed\", note: \"<reason>\").");
        h
    } else {
        let mut h =
            "You're already on this step. Run the verification specified in the step's description, then call UpdatePlanStep(\"".to_string();
        h.append(step.id.as_str());
        h.append("\", \"done\") if it passed, or UpdatePlanStep(\"");
        h.append(step.id.as_str());
        h.append("\", \"failed\", note: \"<reason>\") if it didn't.");
        h
    }
}

/// The message that wakes the model up for one step of a plan. `attempt` is 1
/// for the first nudge.
pub fn build_step_continuation_prompt(plan: &Plan, step: &PlanStep, attempt: usize) -> (r: String)
    ensures
        r@ == continuation_prompt(
            plan.steps@,
            *step,
            attempt as nat,
            MAX_RETRIES_PER_STEP as nat,
        ),
{
    if step.status == StepStatus::Done || step.status == StepStatus::Failed {
        let mut p = "Plan step \"".to_string();
        p.append(step.title.as_str());
        p.append("\" is in state ");
        p.append(status_text(step.status));
        p.append(". Wait for the user to retry, skip, or abort via the sidebar.");
        return p;
    }
    let total = plan.steps.len();
    let position: u64 = match find_id(&plan.steps, step.id.as_str()) {
        Some(i) => (i + 1) as u64,
        None => 0,
    };
    let mut at = text::decimal(position);
    at.append("/");
    at.append(text::decimal(total as u64).as_str());
    let hint = hint_for(step);
    if attempt <= 1 {
        let outputs = collect_prior_step_outputs(plan, step.id.as_str());
        let mut block = String::new();
        if !outputs.is_empty() {
            block = "\n\nOutputs from prior steps:\n".to_string();
            put_outputs(&mut block, &outputs);
        }
        let mut p = "Continue plan execution. Focus: step ".to_string();
        p.append(at.as_str());
        p.append(" \"");
        p.append(step.title.as_str());
        p.append("\".\n\n");
        p.append(hint.as_str());
        p.append(block.as_str());
        p
    } else {
        let mut p = "Continue plan execution — attempt ".to_string();
        p.append(text::decimal(attempt as u64).as_str());
        p.append(" on step ");
        p.append(at.as_str());
        p.append(" \"");
        p.append(step.title.as_str());
        p.append("\". You have at most ");
        p.append(text::decimal(MAX_RETRIES_PER_STEP as u64).as_str());
        p.append(
            " attempts per step; after that the driver will mark this step Failed automatically. Commit to a transition this turn: do the work and call UpdatePlanStep(\"",
        );
        p.append(step.id.as_str());
        p.append("\", \"done\"), OR if the step can't be finished, call UpdatePlanStep(\"");
        p.append(step.id.as_str());
        p.append(
            "\", \"failed\", note: \"<one-line reason>\") so the user can retry / skip / abort via the sidebar.\n\n",
        );
        p.append(hint.as_str());
        p
    }
}

// ---------------------------------------------------------------------------
// The todo reminder
// ---------------------------------------------------------------------------

/// A line of a todo list that is not finished: pending or in progress.
pub open spec fn is_open_item(line: Seq<char>) -> bool {
    text::has_prefix(text::trim_start_of(line), "- [ ]"@) || text::has_prefix(
        text::trim_start_of(line),
        "- [-]"@,
    )
}

/// Whether a todo list has an unfinished item.
pub open spec fn has_open_item(raw: Seq<char>) -> bool {
    exists|i: int|
        0 <= i < text::lines_of(raw).len() && is_open_item(#[trigger] text::lines_of(raw)[i])
}

/// The reminder on a todo list, where anything in it is left to do.
pub open spec fn todos_reminder(raw: Option<Seq<char>>) -> Option<Seq<char>> {
    match raw {
        Some(r) => if text::trim_of(r).len() > 0 && has_open_item(r) {
            Some(TODOS_HEAD@ + excerpt_of(r) + TODOS_TAIL@)
        } else {
            None
        },
        None => None,
    }
}

/// Whether a todo list has anything left to do.
pub fn has_incomplete(raw: &str) -> (r: bool)
    ensures
        r == has_open_item(raw@),
{
    let lines = text::lines(raw);
    let ghost all = text::lines_of(raw@);
    let mut i: usize = 0;
    while i < lines.len()
        invariant
            i <= lines@.len(),
            text::views(lines@) == all,
            all == text::lines_of(raw@),
            forall|k: int| 0 <= k < i ==> !is_open_item(#[trigger] all[k]),
        decreases lines@.len() - i,
    {
        let t = text::trim_start(lines[i].as_str());
        proof {
            assert(all[i as int] == lines@[i as int]@);
        }
        if text::starts_with(t, "- [ ]") || text::starts_with(t, "- [-]") {
            return true;
        }
        i = i + 1;
    }
    false
}

/// The most lines of the todo list that go into a prompt.
pub const TODOS_MAX_LINES: usize = 80;

/// The most bytes of the todo list that go into a prompt.
pub const TODOS_MAX_BYTES: usize = 6_000;

/// How many lines are kept, where the first `i` are and take up `bytes`: the
/// whole lines that stay within both limits.
pub open spec fn kept_lines(lines: Seq<Seq<char>>, i: nat, bytes: nat) -> nat
    decreases lines.len() - i,
{
    if i >= lines.len() || i >= TODOS_MAX_LINES || bytes + vstd::utf8::encode_utf8(
        lines[i as int],
    ).len() + 1 > TODOS_MAX_BYTES {
        i
    } else {
        kept_lines(lines, i + 1, bytes + vstd::utf8::encode_utf8(lines[i as int]).len() + 1)
    }
}

/// How much of the todo list goes into a prompt.
pub open spec fn excerpt_of(raw: Seq<char>) -> Seq<char> {
    let lines = text::lines_of(text::trim_end_of(raw));
    text::join_of(lines.take(kept_lines(lines, 0, 0) as int), "\n"@)
}

/// How much of the todo list goes into a prompt: its first lines, as far as
/// they stay within the limits.
pub fn todos_excerpt(raw: &str) -> (r: String)
    ensures
        r@ == excerpt_of(raw@),
{
    broadcast use text::views_push;

    let lines = text::lines(text::trim_end(raw));
    let ghost all = text::views(lines@);
    let mut kept: Vec<String> = Vec::new();
    let n = lines.len();
    let mut i: usize = 0;
    let mut bytes: usize = 0;
    proof {
        assert(text::views(kept@) =~= all.take(0));
    }
    while i < n && i < TODOS_MAX_LINES && lines[i].as_str().as_bytes().len() < TODOS_MAX_BYTES
        - bytes
        invariant
            n == lines@.len(),
            all == text::views(lines@),
            i <= n,
            bytes <= TODOS_MAX_BYTES,
            text::views(kept@) == all.take(i as int),
            kept_lines(all, 0, 0) == kept_lines(all, i as nat, bytes as nat),
        decreases n - i,
    {
        proof {
            assert(all[i as int] == lines@[i as int]@);
            assert(all.take(i + 1) =~= all.take(i as int).push(all[i as int]));
        }
        bytes = bytes + lines[i].as_str().as_bytes().len() + 1;
        kept.push(lines[i].clone());
        i = i + 1;
    }
    proof {
        if i < n {
            assert(all[i as int] == lines@[i as int]@);
        }
    }
    text::join(&kept, "\n")
}

/// The reminder on the todo list of the workspace, of which an excerpt is
/// shown. `raw` is what the list's file holds, where there is one.
pub fn build_todos_reminder(raw: Option<&str>) -> (r: Option<String>)
    ensures
        text::view_opt(r) == todos_reminder(
            match raw {
                Some(s) => Some(s@),
                None => None,
            },
        ),
{
    match raw {
        Some(s) => {
            if text::trim(s).is_empty() || !has_incomplete(s) {
                return None;
            }
            let mut out = TODOS_HEAD.to_string();
            out.append(todos_excerpt(s).as_str());
            out.append(TODOS_TAIL);
            Some(out)
        },
        None => None,
    }
}

// ---------------------------------------------------------------------------
// What the texts hold
// ---------------------------------------------------------------------------

proof fn lemma_within(a: Seq<char>, p: Seq<char>, b: Seq<char>, q: Seq<char>)
    requires
        text::contains_text(p, q),
    ensures
        text::contains_text(a + p + b, q),
{
    let i = choose|i: int| text::occurs_at(p, q, i);
    let s = a + p + b;
    let n = a.len() + i;
    assert(s.subrange(n, n + q.len()) =~= p.subrange(i, i + q.len()));
    assert(text::occurs_at(s, q, n));
}

proof fn lemma_holds_itself(p: Seq<char>)
    ensures
        text::contains_text(p, p),
{
    lemma_part_occurs(Seq::empty(), p, Seq::empty());
    assert(Seq::<char>::empty() + p + Seq::<char>::empty() =~= p);
}

proof fn lemma_join_holds(parts: Seq<Seq<char>>, sep: Seq<char>, k: int)
    requires
        0 <= k < parts.len(),
    ensures
        text::contains_text(text::join_of(parts, sep), parts[k]),
    decreases parts.len(),
{
    let e = Seq::<char>::empty();
    if parts.len() == 1 {
        lemma_holds_itself(parts[0]);
    } else {
        let d = text::join_of(parts.drop_last(), sep);
        let last = parts.last();
        if k < parts.len() - 1 {
            lemma_join_holds(parts.drop_last(), sep, k);
            lemma_within(e, d, sep + last, parts[k]);
            assert(e + d + (sep + last) =~= d + sep + last);
        } else {
            lemma_part_occurs(d + sep, last, e);
            assert(d + sep + last + e =~= d + sep + last);
        }
    }
}

proof fn lemma_indented_holds(lines: Seq<Seq<char>>, k: int)
    requires
        0 <= k < lines.len(),
    ensures
        text::contains_text(indented(lines), lines[k]),
    decreases lines.len(),
{
    let d = indented(lines.drop_last());
    let last = lines.last();
    let e = Seq::<char>::empty();
    if k < lines.len() - 1 {
        lemma_indented_holds(lines.drop_last(), k);
        lemma_within(e, d, "  "@ + last + "\n"@, lines[k]);
        assert(e + d + ("  "@ + last + "\n"@) =~= d + "  "@ + last + "\n"@);
    } else {
        lemma_part_occurs(d + "  "@, last, "\n"@);
    }
}

proof fn lemma_outputs_hold(o: Seq<(nat, Seq<char>, Seq<char>)>, k: int)
    requires
        0 <= k < o.len(),
    ensures
        text::contains_text(output_lines(o), o[k].2),
    decreases o.len(),
{
    let d = output_lines(o.drop_last());
    let last = o.last();
    let head = "  - Step "@ + text::decimal_of(last.0) + " ("@ + last.1 + "): "@;
    let e = Seq::<char>::empty();
    assert(output_lines(o) =~= d + head + last.2 + "\n"@);
    if k < o.len() - 1 {
        lemma_outputs_hold(o.drop_last(), k);
        lemma_within(e, d, head + last.2 + "\n"@, o[k].2);
        assert(e + d + (head + last.2 + "\n"@) =~= d + head + last.2 + "\n"@);
    } else {
        lemma_part_occurs(d + head, last.2, "\n"@);
    }
}

proof fn lemma_first(s: Seq<PlanStep>, status: StepStatus)
    ensures
        match first_with(s, status) {
            Some(i) => i < s.len() && s[i as int].status == status && forall|k: int|
                0 <= k < i ==> (#[trigger] s[k]).status != status,
            None => forall|k: int| 0 <= k < s.len() ==> (#[trigger] s[k]).status != status,
        },
    decreases s.len(),
{
    if s.len() > 0 {
        let t = s.skip(1);
        lemma_first(t, status);
        if s[0].status != status {
            match first_with(t, status) {
                Some(i) => {
                    assert(t[i as int] == s[i as int + 1]);
                    assert forall|k: int| 0 <= k < i + 1 implies (#[trigger] s[k]).status
                        != status by {
                        if k > 0 {
                            assert(t[k - 1] == s[k]);
                        }
                    }
                },
                None => {
                    assert forall|k: int| 0 <= k < s.len() implies (#[trigger] s[k]).status
                        != status by {
                        if k > 0 {
                            assert(t[k - 1] == s[k]);
                        }
                    }
                },
            }
        }
    }
}

/// The step in focus is the first that is in progress; without one the first
/// that failed; without either the first that is still to do. Only a plan all
/// of whose steps are done has none.
pub proof fn focus_is_on_the_step_to_work_on(s: Seq<PlanStep>)
    ensures
        match focus_of(s) {
            Some(i) => {
                &&& i < s.len()
                &&& s[i as int].status != StepStatus::Done
                &&& forall|k: int|
                    0 <= k < s.len() && (#[trigger] s[k]).status == StepStatus::InProgress
                        ==> s[i as int].status == StepStatus::InProgress && i <= k
                &&& s[i as int].status == StepStatus::Todo ==> forall|k: int|
                    0 <= k < s.len() ==> (#[trigger] s[k]).status == StepStatus::Done || (
                    s[k].status == StepStatus::Todo && i <= k)
                &&& s[i as int].status == StepStatus::Failed ==> forall|k: int|
                    0 <= k < s.len() && (#[trigger] s[k]).status == StepStatus::Failed ==> i <= k
            },
            None => forall|k: int|
                0 <= k < s.len() ==> (#[trigger] s[k]).status == StepStatus::Done,
        },
{
    lemma_first(s, StepStatus::InProgress);
    lemma_first(s, StepStatus::Failed);
    lemma_first(s, StepStatus::Todo);
}

/// A finished step hands its output on, trimmed, under its number and title.
pub proof fn finished_steps_hand_their_output_on(s: Seq<PlanStep>, k: int, out: String)
    requires
        0 <= k < s.len(),
        s[k].status == StepStatus::Done,
        s[k].output == Some(out),
        text::trim_of(out@).len() > 0,
    ensures
        outputs_of(s).contains(((k + 1) as nat, s[k].title@, text::trim_of(out@))),
    decreases s.len(),
{
    let t = s.drop_last();
    let before = outputs_of(t);
    let after = outputs_of(s);
    let x = ((k + 1) as nat, s[k].title@, text::trim_of(out@));
    if k < t.len() {
        finished_steps_hand_their_output_on(t, k, out);
        let j = choose|j: int| 0 <= j < before.len() && before[j] == x;
        assert(after[j] == x);
    } else {
        assert(after[after.len() - 1] == x);
    }
}

proof fn lemma_done_title(s: Seq<PlanStep>, k: int)
    requires
        0 <= k < s.len(),
        s[k].status == StepStatus::Done,
    ensures
        done_titles(s).contains(text::decimal_of((k + 1) as nat) + ". "@ + s[k].title@),
    decreases s.len(),
{
    let t = s.drop_last();
    let before = done_titles(t);
    let after = done_titles(s);
    let x = text::decimal_of((k + 1) as nat) + ". "@ + s[k].title@;
    if k < t.len() {
        lemma_done_title(t, k);
        let j = choose|j: int| 0 <= j < before.len() && before[j] == x;
        assert(after[j] == x);
    } else {
        assert(after[after.len() - 1] == x);
    }
}

proof fn lemma_remaining_title(s: Seq<PlanStep>, from: nat, k: int)
    requires
        from <= k < s.len(),
        s[k].status != StepStatus::Done,
    ensures
        remaining_titles(s, from).contains(
            "  • "@ + text::decimal_of((k + 1) as nat) + ". "@ + s[k].title@,
        ),
    decreases s.len(),
{
    let t = s.drop_last();
    let before = remaining_titles(t, from);
    let after = remaining_titles(s, from);
    let x = "  • "@ + text::decimal_of((k + 1) as nat) + ". "@ + s[k].title@;
    if k < t.len() {
        lemma_remaining_title(t, from, k);
        let j = choose|j: int| 0 <= j < before.len() && before[j] == x;
        assert(after[j] == x);
    } else {
        assert(after[after.len() - 1] == x);
    }
}

/// The ids of a plan's steps differ.
pub open spec fn ids_differ(s: Seq<PlanStep>) -> bool {
    forall|i: int, j: int| 0 <= i < j < s.len() ==> (#[trigger] s[i]).id@ != (#[trigger] s[j]).id@
}

proof fn lemma_own_id(s: Seq<PlanStep>, i: int)
    requires
        ids_differ(s),
        0 <= i < s.len(),
    ensures
        first_with_id(s, s[i].id@) == Some(i as nat),
{
    let id = s[i].id@;
    assert forall|k: int| 0 <= k < i implies (#[trigger] s[k]).id@ != id by {
        assert(s[k].id@ != s[i].id@);
    }
    lemma_first_with_id(s, id, i);
}

/// The parts of the reminder on the step in focus.
spec fn focus_parts(s: Seq<PlanStep>, i: nat) -> Seq<Seq<char>> {
    let step = s[i as int];
    seq![
        " — step "@ + text::decimal_of(i + 1) + " of "@ + text::decimal_of(s.len()) + "\n\n"@
            + status_hint(step.status) + " "@,
        "\""@ + step.title@ + "\""@,
        "\n\n"@,
        description_block(step.description@),
        note_block(step.note),
        done_block(s),
        remaining_block(s, i + 1),
        outputs_block(prior_outputs(s, step.id@)),
        protocol_block(step.status, step.id@),
    ]
}

proof fn lemma_focus_parts(s: Seq<PlanStep>, i: nat, k: int)
    requires
        focus_of(s) == Some(i),
        0 <= k < 9,
    ensures
        text::contains_text(execution_reminder(s), focus_parts(s, i)[k]),
{
    let p = focus_parts(s, i);
    let e = Seq::<char>::empty();
    let whole = p[0] + p[1] + p[2] + p[3] + p[4] + p[5] + p[6] + p[7] + p[8];
    reveal_strlit(" \"");
    reveal_strlit("\"\n\n");
    reveal_strlit(" ");
    reveal_strlit("\"");
    reveal_strlit("\n\n");
    assert(" \""@ =~= " "@ + "\""@);
    assert("\"\n\n"@ =~= "\""@ + "\n\n"@);
    assert(focus_block(s, i) =~= whole);
    reveal_with_fuel(text::join_of, 10);
    assert(p.drop_last().drop_last().drop_last().drop_last().drop_last().drop_last().drop_last().drop_last()
        =~= seq![p[0]]);
    assert(text::join_of(p, e) =~= whole);
    lemma_join_holds(p, e, k);
    lemma_within("## Executing approved plan"@, whole, AUTONOMY_TEXT@, p[k]);
}

proof fn lemma_transitive(r: Seq<char>, p: Seq<char>, q: Seq<char>)
    requires
        text::contains_text(r, p),
        text::contains_text(p, q),
    ensures
        text::contains_text(r, q),
{
    let i = choose|i: int| text::occurs_at(r, p, i);
    let a = r.take(i);
    let b = r.skip(i + p.len());
    assert(r =~= a + p + b);
    lemma_within(a, p, b, q);
}

/// While a plan is carried out the reminder holds all that the step in focus
/// needs: its title, every line of its description, what earlier steps have
/// left for it, every finished step and every step that is left, each under its
/// number.
pub proof fn reminder_holds_what_the_step_needs(s: Seq<PlanStep>, i: nat, k: int)
    requires
        focus_of(s) == Some(i),
        ids_differ(s),
        0 <= k < s.len(),
    ensures
        text::contains_text(execution_reminder(s), "\""@ + s[i as int].title@ + "\""@),
        text::trim_of(s[i as int].description@).len() > 0 ==> forall|j: int|
            0 <= j < text::lines_of(s[i as int].description@).len() ==> text::contains_text(
                execution_reminder(s),
                #[trigger] text::lines_of(s[i as int].description@)[j],
            ),
        s[k].status == StepStatus::Done ==> text::contains_text(
            execution_reminder(s),
            text::decimal_of((k + 1) as nat) + ". "@ + s[k].title@,
        ),
        k > i && s[k].status != StepStatus::Done ==> text::contains_text(
            execution_reminder(s),
            text::decimal_of((k + 1) as nat) + ". "@ + s[k].title@,
        ),
        k < i && s[k].status == StepStatus::Done && s[k].output is Some && text::trim_of(
            s[k].output->0@,
        ).len() > 0 ==> text::contains_text(
            execution_reminder(s),
            text::trim_of(s[k].output->0@),
        ),
{
    let r = execution_reminder(s);
    let step = s[i as int];
    let p = focus_parts(s, i);
    focus_is_on_the_step_to_work_on(s);
    lemma_focus_parts(s, i, 1);
    lemma_focus_parts(s, i, 3);
    lemma_focus_parts(s, i, 5);
    lemma_focus_parts(s, i, 6);
    lemma_focus_parts(s, i, 7);
    let e = Seq::<char>::empty();
    let lines = text::lines_of(step.description@);
    if text::trim_of(step.description@).len() > 0 {
        assert forall|j: int| 0 <= j < lines.len() implies text::contains_text(
            r,
            #[trigger] lines[j],
        ) by {
            lemma_indented_holds(lines, j);
            lemma_within(e, indented(lines), "\n"@, lines[j]);
            assert(e + indented(lines) + "\n"@ =~= p[3]);
            lemma_transitive(r, p[3], lines[j]);
        }
    }
    let x = text::decimal_of((k + 1) as nat) + ". "@ + s[k].title@;
    if s[k].status == StepStatus::Done {
        lemma_done_title(s, k);
        let d = done_titles(s);
        let j = choose|j: int| 0 <= j < d.len() && d[j] == x;
        lemma_join_holds(d, ", "@, j);
        lemma_within("Already complete: "@, text::join_of(d, ", "@), "\n\n"@, x);
        lemma_transitive(r, p[5], x);
    } else if k > i {
        lemma_remaining_title(s, i + 1, k);
        let d = remaining_titles(s, i + 1);
        let y = "  • "@ + x;
        assert("  • "@ + text::decimal_of((k + 1) as nat) + ". "@ + s[k].title@ =~= y);
        let j = choose|j: int| 0 <= j < d.len() && d[j] == y;
        lemma_join_holds(d, "\n"@, j);
        lemma_within(
            "Remaining (titles only, do NOT preview):\n"@,
            text::join_of(d, "\n"@),
            "\n\n"@,
            y,
        );
        lemma_part_occurs("  • "@, x, e);
        assert("  • "@ + x + e =~= y);
        lemma_transitive(p[6], y, x);
        lemma_transitive(r, p[6], x);
    }
    if k < i && s[k].status == StepStatus::Done && s[k].output is Some && text::trim_of(
        s[k].output->0@,
    ).len() > 0 {
        lemma_own_id(s, i as int);
        let before = s.take(i as int);
        let o = prior_outputs(s, step.id@);
        let out = s[k].output->0;
        assert(before[k] == s[k]);
        finished_steps_hand_their_output_on(before, k, out);
        let y = ((k + 1) as nat, s[k].title@, text::trim_of(out@));
        let j = choose|j: int| 0 <= j < o.len() && o[j] == y;
        lemma_outputs_hold(o, j);
        lemma_within(
            "Outputs from prior steps (use these instead of guessing):\n"@,
            output_lines(o),
            "\n"@,
            text::trim_of(out@),
        );
        lemma_transitive(r, p[7], text::trim_of(out@));
    }
}

/// The bytes that lines take up, each with its line feed.
pub open spec fn bytes_of_lines(lines: Seq<Seq<char>>) -> nat
    decreases lines.len(),
{
    if lines.len() == 0 {
        0
    } else {
        bytes_of_lines(lines.drop_last()) + vstd::utf8::encode_utf8(lines.last()).len() + 1
    }
}

proof fn lemma_kept(lines: Seq<Seq<char>>, i: nat)
    requires
        i <= lines.len(),
        i <= 80,
        bytes_of_lines(lines.take(i as int)) <= 6_000,
    ensures
        ({
            let n = kept_lines(lines, i, bytes_of_lines(lines.take(i as int)));
            &&& i <= n <= lines.len()
            &&& n <= 80
            &&& bytes_of_lines(lines.take(n as int)) <= 6_000
            &&& n < lines.len() ==> n == 80 || bytes_of_lines(lines.take(n as int + 1)) > 6_000
        }),
    decreases lines.len() - i,
{
    if i < lines.len() {
        let t = lines.take(i as int + 1);
        assert(t.drop_last() =~= lines.take(i as int));
        assert(t.last() == lines[i as int]);
        if i < 80 && bytes_of_lines(t) <= 6_000 {
            lemma_kept(lines, i + 1);
        }
    }
}

/// The excerpt of a todo list is its first lines, whole, as many as stay within
/// 80 lines and 6,000 bytes: a list within both limits is shown whole, and no
/// line is left out that would still fit.
pub proof fn excerpts_hold_what_fits(raw: Seq<char>)
    ensures
        exists|n: nat|
            #![trigger text::lines_of(text::trim_end_of(raw)).take(n as int)]
            {
                let lines = text::lines_of(text::trim_end_of(raw));
                &&& n <= lines.len()
                &&& n <= 80
                &&& excerpt_of(raw) == text::join_of(lines.take(n as int), "\n"@)
                &&& bytes_of_lines(lines.take(n as int)) <= 6_000
                &&& n < lines.len() ==> n == 80 || bytes_of_lines(lines.take(n as int + 1)) > 6_000
            },
{
    let lines = text::lines_of(text::trim_end_of(raw));
    assert(lines.take(0) =~= Seq::empty());
    lemma_kept(lines, 0);
    let n = kept_lines(lines, 0, 0);
    assert(lines.take(n as int).len() == n);
}

/// There is a reminder of a todo list exactly where it has an item that is
/// pending or in progress, and it holds the excerpt.
pub proof fn open_items_are_reminded_of(raw: Seq<char>)
    ensures
        todos_reminder(Some(raw)) is Some <==> text::trim_of(raw).len() > 0 && exists|i: int|
            0 <= i < text::lines_of(raw).len() && (text::has_prefix(
                text::trim_start_of(#[trigger] text::lines_of(raw)[i]),
                "- [ ]"@,
            ) || text::has_prefix(text::trim_start_of(text::lines_of(raw)[i]), "- [-]"@)),
        todos_reminder(Some(raw)) matches Some(t) ==> text::contains_text(t, excerpt_of(raw)),
        todos_reminder(None) is None,
{
    lemma_part_occurs(TODOS_HEAD@, excerpt_of(raw), TODOS_TAIL@);
    if has_open_item(raw) {
        let i = choose|i: int|
            0 <= i < text::lines_of(raw).len() && is_open_item(#[trigger] text::lines_of(raw)[i]);
        assert(is_open_item(text::lines_of(raw)[i]));
    }
}

/// The message that sets the model to work on a step names the step and its
/// id, and on the first attempt holds what earlier steps have left for it; a
/// step that is done or has failed is not worked on.
pub proof fn continuation_names_the_step(
    s: Seq<PlanStep>,
    step: PlanStep,
    attempt: nat,
    limit: nat,
    k: int,
)
    ensures
        text::contains_text(continuation_prompt(s, step, attempt, limit), step.title@),
        step.status == StepStatus::Todo || step.status == StepStatus::InProgress
            ==> text::contains_text(continuation_prompt(s, step, attempt, limit), step.id@)
            && text::contains_text(
            continuation_prompt(s, step, attempt, limit),
            text::decimal_of(position_of(s, step.id@)) + "/"@ + text::decimal_of(s.len()),
        ),
        (step.status == StepStatus::Todo || step.status == StepStatus::InProgress) && attempt <= 1
            && 0 <= k < prior_outputs(s, step.id@).len() ==> text::contains_text(
            continuation_prompt(s, step, attempt, limit),
            prior_outputs(s, step.id@)[k].2,
        ),
{
    let r = continuation_prompt(s, step, attempt, limit);
    let t = step.title@;
    let at = text::decimal_of(position_of(s, step.id@)) + "/"@ + text::decimal_of(s.len());
    let o = prior_outputs(s, step.id@);
    let e = Seq::<char>::empty();
    if step.status == StepStatus::Done || step.status == StepStatus::Failed {
        let b = "\" is in state "@ + status_name(step.status)
            + ". Wait for the user to retry, skip, or abort via the sidebar."@;
        assert(r =~= "Plan step \""@ + t + b);
        lemma_part_occurs("Plan step \""@, t, b);
    } else {
        lemma_hint_names(step);
        let hint = action_hint(step);
        if attempt <= 1 {
            let a = "Continue plan execution. Focus: step "@;
            let z = continuation_outputs(o);
            assert(r =~= a + at + " \""@ + t + "\".\n\n"@ + hint + z);
            lemma_part_occurs(a, at, " \""@ + t + "\".\n\n"@ + hint + z);
            assert(r =~= a + at + (" \""@ + t + "\".\n\n"@ + hint + z));
            lemma_part_occurs(a + at + " \""@, t, "\".\n\n"@ + hint + z);
            assert(r =~= (a + at + " \""@) + t + ("\".\n\n"@ + hint + z));
            lemma_within(a + at + " \""@ + t + "\".\n\n"@, hint, z, step.id@);
            if 0 <= k < o.len() {
                lemma_outputs_hold(o, k);
                lemma_within("\n\nOutputs from prior steps:\n"@, output_lines(o), e, o[k].2);
                assert("\n\nOutputs from prior steps:\n"@ + output_lines(o) + e =~= z);
                lemma_within(a + at + " \""@ + t + "\".\n\n"@ + hint, z, e, o[k].2);
                assert(a + at + " \""@ + t + "\".\n\n"@ + hint + z + e =~= r);
            }
        } else {
            let a = "Continue plan execution — attempt "@ + text::decimal_of(attempt)
                + " on step "@;
            let c = "\". You have at most "@ + text::decimal_of(limit)
                + " attempts per step; after that the driver will mark this step Failed automatically. Commit to a transition this turn: do the work and call UpdatePlanStep(\""@
                + step.id@
                + "\", \"done\"), OR if the step can't be finished, call UpdatePlanStep(\""@ + step.id@
                + "\", \"failed\", note: \"<one-line reason>\") so the user can retry / skip / abort via the sidebar.\n\n"@;
            assert(r =~= a + at + " \""@ + t + c + hint);
            lemma_part_occurs(a, at, " \""@ + t + c + hint);
            assert(r =~= a + at + (" \""@ + t + c + hint));
            lemma_part_occurs(a + at + " \""@, t, c + hint);
            assert(r =~= (a + at + " \""@) + t + (c + hint));
            lemma_within(a + at + " \""@ + t + c, hint, e, step.id@);
            assert(a + at + " \""@ + t + c + hint + e =~= r);
        }
    }
}

proof fn lemma_hint_names(step: PlanStep)
    ensures
        text::contains_text(action_hint(step), step.id@),
{
    let id = step.id@;
    let hint = action_hint(step);
    if step.status == StepStatus::Todo {
        let a = "Begin: UpdatePlanStep(\""@;
        let b = "\", \"in_progress\"). Then perform the step's action, run the verification, and finish with UpdatePlanStep(\""@
            + id + "\", \"done\") or UpdatePlanStep(\""@ + id
            + "\", \"failed\", note: \"<reason>\")."@;
        assert(hint =~= a + id + b);
        lemma_part_occurs(a, id, b);
    } else {
        let a = "You're already on this step. Run the verification specified in the step's description, then call UpdatePlanStep(\""@;
        let b = "\", \"done\") if it passed, or UpdatePlanStep(\""@ + id
            + "\", \"failed\", note: \"<reason>\") if it didn't."@;
        assert(hint =~= a + id + b);
        lemma_part_occurs(a, id, b);
    }
}

/// A step that is still to do is to be begun first, and one that was begun is
/// not begun again; either is ended as done or as failed, under its own id.
pub proof fn steps_are_begun_and_ended(step: PlanStep)
    ensures
        step.status == StepStatus::Todo ==> text::has_prefix(
            action_hint(step),
            "Begin: UpdatePlanStep(\""@ + step.id@ + "\", \"in_progress\")"@,
        ),
        step.status != StepStatus::Todo ==> !text::has_prefix(action_hint(step), "Begin: "@),
        text::contains_text(
            action_hint(step),
            "UpdatePlanStep(\""@ + step.id@ + "\", \"done\")"@,
        ),
        text::contains_text(
            action_hint(step),
            "UpdatePlanStep(\""@ + step.id@ + "\", \"failed\""@,
        ),
{
    let id = step.id@;
    let hint = action_hint(step);
    let call = "UpdatePlanStep(\""@;
    let done = "\", \"done\")"@;
    let failed = "\", \"failed\""@;
    if step.status == StepStatus::Todo {
        let a = "Begin: UpdatePlanStep(\""@;
        let b = "\", \"in_progress\"). Then perform the step's action, run the verification, and finish with UpdatePlanStep(\""@;
        let c = "\", \"done\") or UpdatePlanStep(\""@;
        let d = "\", \"failed\", note: \"<reason>\")."@;
        let begun = "\", \"in_progress\")"@;
        lemma_words_of_a_beginning();
        let start = a + id + begun;
        assert(hint =~= start + (b.skip(begun.len() as int) + id + c + id + d)) by {
            assert(b =~= begun + b.skip(begun.len() as int));
        }
        assert(hint.take(start.len() as int) =~= start);
        assert(hint =~= (a + id + b) + id + c + id + d);
        lemma_calls_stand(a + id, b, id, c, d, call, done, failed);
    } else {
        let a = "You're already on this step. Run the verification specified in the step's description, then call UpdatePlanStep(\""@;
        let c = "\", \"done\") if it passed, or UpdatePlanStep(\""@;
        let d = "\", \"failed\", note: \"<reason>\") if it didn't."@;
        lemma_words_of_an_end();
        let e = Seq::<char>::empty();
        assert(hint =~= (e + a) + id + c + id + d);
        assert(hint[0] == a[0]);
        assert(!text::has_prefix(hint, "Begin: "@)) by {
            if text::has_prefix(hint, "Begin: "@) {
                assert(hint.take("Begin: "@.len() as int)[0] == "Begin: "@[0]);
            }
        }
        lemma_calls_stand(e, a, id, c, d, call, done, failed);
    }
}

proof fn lemma_words_of_a_beginning()
    ensures
        ({
            let b = "\", \"in_progress\"). Then perform the step's action, run the verification, and finish with UpdatePlanStep(\""@;
            let c = "\", \"done\") or UpdatePlanStep(\""@;
            let d = "\", \"failed\", note: \"<reason>\")."@;
            &&& text::has_prefix(b, "\", \"in_progress\")"@)
            &&& text::has_suffix(b, "UpdatePlanStep(\""@)
            &&& text::has_prefix(c, "\", \"done\")"@)
            &&& text::has_suffix(c, "UpdatePlanStep(\""@)
            &&& text::has_prefix(d, "\", \"failed\""@)
        }),
{
    reveal_strlit("UpdatePlanStep(\"");
    reveal_strlit("\", \"done\")");
    reveal_strlit("\", \"failed\"");
    reveal_strlit("\", \"in_progress\")");
    reveal_strlit(
        "\", \"in_progress\"). Then perform the step's action, run the verification, and finish with UpdatePlanStep(\"",
    );
    reveal_strlit("\", \"done\") or UpdatePlanStep(\"");
    reveal_strlit("\", \"failed\", note: \"<reason>\").");
    let b = "\", \"in_progress\"). Then perform the step's action, run the verification, and finish with UpdatePlanStep(\""@;
    let c = "\", \"done\") or UpdatePlanStep(\""@;
    let d = "\", \"failed\", note: \"<reason>\")."@;
    let call = "UpdatePlanStep(\""@;
    let begun = "\", \"in_progress\")"@;
    let done = "\", \"done\")"@;
    let failed = "\", \"failed\""@;
    assert(b.take(begun.len() as int) =~= begun);
    assert(b.skip(b.len() - call.len()) =~= call);
    assert(c.take(done.len() as int) =~= done);
    assert(c.skip(c.len() - call.len()) =~= call);
    assert(d.take(failed.len() as int) =~= failed);
}

proof fn lemma_words_of_an_end()
    ensures
        ({
            let a = "You're already on this step. Run the verification specified in the step's description, then call UpdatePlanStep(\""@;
            let c = "\", \"done\") if it passed, or UpdatePlanStep(\""@;
            let d = "\", \"failed\", note: \"<reason>\") if it didn't."@;
            &&& a.len() > 0
            &&& "Begin: "@.len() > 0
            &&& a[0] != "Begin: "@[0]
            &&& text::has_suffix(a, "UpdatePlanStep(\""@)
            &&& text::has_prefix(c, "\", \"done\")"@)
            &&& text::has_suffix(c, "UpdatePlanStep(\""@)
            &&& text::has_prefix(d, "\", \"failed\""@)
        }),
{
    reveal_strlit("Begin: ");
    reveal_strlit("UpdatePlanStep(\"");
    reveal_strlit("\", \"done\")");
    reveal_strlit("\", \"failed\"");
    reveal_strlit(
        "You're already on this step. Run the verification specified in the step's description, then call UpdatePlanStep(\"",
    );
    reveal_strlit("\", \"done\") if it passed, or UpdatePlanStep(\"");
    reveal_strlit("\", \"failed\", note: \"<reason>\") if it didn't.");
    let a = "You're already on this step. Run the verification specified in the step's description, then call UpdatePlanStep(\""@;
    let c = "\", \"done\") if it passed, or UpdatePlanStep(\""@;
    let d = "\", \"failed\", note: \"<reason>\") if it didn't."@;
    let call = "UpdatePlanStep(\""@;
    let done = "\", \"done\")"@;
    let failed = "\", \"failed\""@;
    assert(a.skip(a.len() - call.len()) =~= call);
    assert(c.take(done.len() as int) =~= done);
    assert(c.skip(c.len() - call.len()) =~= call);
    assert(d.take(failed.len() as int) =~= failed);
}

proof fn lemma_calls_stand(
    z: Seq<char>,
    a: Seq<char>,
    id: Seq<char>,
    c: Seq<char>,
    d: Seq<char>,
    call: Seq<char>,
    done: Seq<char>,
    failed: Seq<char>,
)
    requires
        text::has_suffix(a, call),
        text::has_prefix(c, done),
        text::has_suffix(c, call),
        text::has_prefix(d, failed),
    ensures
        text::contains_text((z + a) + id + c + id + d, call + id + done),
        text::contains_text((z + a) + id + c + id + d, call + id + failed),
{
    let s = (z + a) + id + c + id + d;
    let a1 = a.take(a.len() - call.len());
    let c1 = c.take(c.len() - call.len());
    let c2 = c.skip(done.len() as int);
    let d2 = d.skip(failed.len() as int);
    assert(a =~= a1 + call);
    assert(c =~= c1 + call);
    assert(c =~= done + c2);
    assert(d =~= failed + d2);
    let x = call + id + done;
    let y = call + id + failed;
    assert(s =~= (z + a1) + x + (c2 + id + d));
    lemma_part_occurs(z + a1, x, c2 + id + d);
    assert(s =~= (z + a + id + c1) + y + d2);
    lemma_part_occurs(z + a + id + c1, y, d2);
}

} // verus!
