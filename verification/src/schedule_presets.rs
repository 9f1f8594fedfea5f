//! Ready-made schedules for looking after a knowledge base.

use vstd::prelude::*;

use crate::schedule::{self, Schedule, ScheduleStore};
use crate::text;
use crate::types::{Error, ErrorView};

verus! {

/// A ready-made schedule. `{kms}` stands for the name of a knowledge base.
#[derive(Clone, Copy, Debug, PartialEq, Eq)]
pub struct SchedulePreset {
    pub id: &'static str,
    pub description: &'static str,
    pub cron: &'static str,
    pub prompt_template: &'static str,
}

pub const NIGHTLY_CLOSE_PROMPT: &'static str = "Run a nightly maintenance pass on KMS '{kms}'. Pass `kms: \"{kms}\"` to every tool call. Walk pages/ via KmsRead/KmsSearch and fix:\n1. Broken markdown page links — `[text](pages/<stem>.md)` where `<stem>.md` doesn't exist. KmsSearch for the intended target stem; if exactly one strong match exists, KmsWrite the source page with the corrected link. Otherwise leave alone and report.\n2. Pages on disk missing from index.md — KmsAppend a one-line bullet to index.md under the matching `category:` section.\n3. STALE markers (`> ⚠ STALE: source ` followed by the alias) — KmsRead the source page (alias is the page stem), KmsWrite a refreshed body that drops the STALE line.\nHard rules: don't invent sources; never use KmsDelete; every new page must reference at least one existing page via markdown link. End with `**Fixed**` / `**Skipped**` blocks.";

pub const WEEKLY_REVIEW_PROMPT: &'static str = "Run the weekly review pass on KMS '{kms}'. Pass `kms: \"{kms}\"` to every tool call.\nPhase 1 — Consolidate. KmsRead the index page to enumerate pages. Use KmsSearch to find pages that overlap heavily on the same topic. If two pages clearly cover the same subject, merge them: KmsWrite the canonical page with combined content (preserve every claim and source URL). Leave the duplicate page in place with a `> See [primary](pages/<stem>.md).` pointer at the top — do NOT KmsDelete.\nPhase 2 — Hygiene. Find broken markdown page links and pages missing from index.md (same procedure as nightly-close).\nHard rules: don't invent sources; never KmsDelete; preserve all source URLs and recency markers (e.g. `(as of 2026-04, …)`); every new page must reference at least one existing page. End with `**Consolidated**` / `**Fixed**` / `**Skipped**` blocks.";

pub const CONTRADICTION_SWEEP_PROMPT: &'static str = "Run the contradiction sweep on KMS '{kms}'. Pass `kms: \"{kms}\"` to every tool call. Four passes:\n1. Claims — KmsSearch for facts that may conflict (numbers, dates, definitions). KmsRead candidate pages; identify pairs that disagree.\n2. Entities — KmsRead pages under entities/people sections; flag drifted roles/companies/titles.\n3. Decisions — find decision pages contradicted by later pages without an explicit `supersedes:` link.\n4. Source-freshness — pages citing old sources when newer sources on the same topic exist in the KMS.\nPer finding: clear-winner (newer + more authoritative) → KmsWrite the outdated page appending a `## History` section that documents the change with reason and source dates. Ambiguous → KmsWrite a new `Conflict — <topic>.md` with `status: open` and both positions, link the original conflicting pages via markdown links `[<label>](pages/<stem>.md)`. Evolution (user changed mind, not contradiction) → update with a `## Timeline` section.\nHard rules: never silently delete a claim; recency markers + source URLs intact across rewrites; never use KmsDelete; never invent dates or sources. End with `**Auto-resolved**` / `**Flagged**` / `**Stale pages updated**` blocks.";

pub const VAULT_HEALTH_PROMPT: &'static str = "Run a read-only health check on KMS '{kms}'. Pass `kms: \"{kms}\"` to every tool call. Walk pages/ via KmsRead/KmsSearch and report counts + samples for each category:\n- Broken markdown page links: `[text](pages/<stem>.md)` where `pages/<stem>.md` doesn't exist\n- Orphan pages: page on disk with no inbound markdown link from any other page\n- Pages missing from index.md (page stem on disk but not listed in index)\n- Pages with no YAML frontmatter `---` block\n- Pages carrying STALE markers (`> ⚠ STALE: …`) awaiting refresh\nRead-only — do NOT call KmsWrite, KmsAppend, or KmsDelete. End with a totals table.";

/// All ready-made schedules.
pub open spec fn preset_list() -> Seq<SchedulePreset> {
    seq![
        SchedulePreset {
            id: "nightly-close",
            description: "Wrap up the day — lint + auto-fix + stale-marker review (KMS '{kms}')",
            cron: "0 23 * * *",
            prompt_template: NIGHTLY_CLOSE_PROMPT,
        },
        SchedulePreset {
            id: "weekly-review",
            description: "Sunday-morning consolidation across KMS '{kms}'",
            cron: "0 9 * * SUN",
            prompt_template: WEEKLY_REVIEW_PROMPT,
        },
        SchedulePreset {
            id: "contradiction-sweep",
            description: "Daily noon reconcile — auto-resolve clear-winner contradictions in '{kms}'",
            cron: "0 12 * * *",
            prompt_template: CONTRADICTION_SWEEP_PROMPT,
        },
        SchedulePreset {
            id: "vault-health",
            description: "Morning lint summary at 06:00 for KMS '{kms}'",
            cron: "0 6 * * *",
            prompt_template: VAULT_HEALTH_PROMPT,
        },
    ]
}

/// All ready-made schedules.
pub fn presets() -> (r: Vec<SchedulePreset>)
    ensures
        r@ == preset_list(),
{
    let mut r: Vec<SchedulePreset> = Vec::new();
    r.push(
        SchedulePreset {
            id: "nightly-close",
            description: "Wrap up the day — lint + auto-fix + stale-marker review (KMS '{kms}')",
            cron: "0 23 * * *",
            prompt_template: NIGHTLY_CLOSE_PROMPT,
        },
    );
    r.push(
        SchedulePreset {
            id: "weekly-review",
            description: "Sunday-morning consolidation across KMS '{kms}'",
            cron: "0 9 * * SUN",
            prompt_template: WEEKLY_REVIEW_PROMPT,
        },
    );
    r.push(
        SchedulePreset {
            id: "contradiction-sweep",
            description: "Daily noon reconcile — auto-resolve clear-winner contradictions in '{kms}'",
            cron: "0 12 * * *",
            prompt_template: CONTRADICTION_SWEEP_PROMPT,
        },
    );
    r.push(
        SchedulePreset {
            id: "vault-health",
            description: "Morning lint summary at 06:00 for KMS '{kms}'",
            cron: "0 6 * * *",
            prompt_template: VAULT_HEALTH_PROMPT,
        },
    );
    assert(r@ =~= preset_list());
    r
}

/// The first of some ready-made schedules with an id.
pub open spec fn first_preset(list: Seq<SchedulePreset>, id: Seq<char>) -> Option<SchedulePreset>
    decreases list.len(),
{
    if list.len() == 0 {
        None
    } else if list[0].id@ == id {
        Some(list[0])
    } else {
        first_preset(list.skip(1), id)
    }
}

/// The ready-made schedule with an id.
pub open spec fn preset_of(id: Seq<char>) -> Option<SchedulePreset> {
    first_preset(preset_list(), id)
}

pub fn find(id: &str) -> (r: Option<SchedulePreset>)
    ensures
        r == preset_of(id@),
{
    let list = presets();
    let ghost all = list@;
    let n = list.len();
    let mut i: usize = 0;
    proof {
        assert(all.skip(0) =~= all);
    }
    while i < n
        invariant
            n == list@.len(),
            all == list@,
            all == preset_list(),
            i <= n,
            first_preset(all, id@) == first_preset(all.skip(i as int), id@),
        decreases n - i,
    {
        proof {
            assert(all.skip(i as int)[0] == all[i as int]);
            assert(all.skip(i as int).skip(1) =~= all.skip(i + 1));
        }
        if text::same(list[i].id, id) {
            return Some(list[i]);
        }
        i = i + 1;
    }
    None
}

/// The ids of all ready-made schedules.
pub open spec fn preset_ids() -> Seq<Seq<char>> {
    Seq::new(preset_list().len(), |i: int| preset_list()[i].id@)
}

pub fn list_ids() -> (r: Vec<&'static str>)
    ensures
        r@.len() == preset_ids().len(),
        forall|i: int| 0 <= i < r@.len() ==> (#[trigger] r@[i])@ == preset_ids()[i],
{
    let list = presets();
    let mut r: Vec<&'static str> = Vec::new();
    let n = list.len();
    let mut i: usize = 0;
    while i < n
        invariant
            n == list@.len(),
            list@ == preset_list(),
            i <= n,
            r@.len() == i,
            forall|k: int| 0 <= k < i ==> (#[trigger] r@[k])@ == preset_ids()[k],
        decreases n - i,
    {
        r.push(list[i].id);
        i = i + 1;
    }
    r
}

/// A template with the name of a knowledge base put in everywhere.
pub open spec fn rendered(template: Seq<char>, kms: Seq<char>) -> Seq<char> {
    text::replace_of(template, "{kms}"@, kms)
}

/// The prompt of a ready-made schedule for a knowledge base.
pub fn render_prompt(preset: &SchedulePreset, kms: &str) -> (r: String)
    ensures
        r@ == rendered(preset.prompt_template@, kms@),
{
    proof {
        reveal_strlit("{kms}");
    }
    text::replace(preset.prompt_template, "{kms}", kms)
}

/// The description of a ready-made schedule for a knowledge base.
pub fn render_description(preset: &SchedulePreset, kms: &str) -> (r: String)
    ensures
        r@ == rendered(preset.description@, kms@),
{
    proof {
        reveal_strlit("{kms}");
    }
    text::replace(preset.description, "{kms}", kms)
}

/// The line about a ready-made schedule.
pub open spec fn preset_line(p: SchedulePreset) -> Seq<char> {
    "  "@ + text::pad_right_of(p.id@, 22) + " "@ + text::pad_right_of(p.cron@, 14) + " "@
        + p.description@ + "\n"@
}

pub open spec fn preset_lines(list: Seq<SchedulePreset>) -> Seq<char>
    decreases list.len(),
{
    if list.len() == 0 {
        Seq::empty()
    } else {
        preset_lines(list.drop_last()) + preset_line(list.last())
    }
}

/// The table of all ready-made schedules.
pub fn format_preset_list() -> (r: String)
    ensures
        r@ == "schedule presets:\n  ID                     CRON           DESCRIPTION\n"@
            + preset_lines(preset_list())
            + "\nadd via: /schedule preset add <id> --kms <name> [--cwd <path>]\n"@,
{
    let list = presets();
    let mut out =
        "schedule presets:\n  ID                     CRON           DESCRIPTION\n".to_string();
    let ghost head = out@;
    let n = list.len();
    let mut i: usize = 0;
    proof {
        assert(head + preset_lines(list@.take(0)) =~= head);
    }
    while i < n
        invariant
            n == list@.len(),
            i <= n,
            out@ == head + preset_lines(list@.take(i as int)),
        decreases n - i,
    {
        let p = &list[i];
        proof {
            assert(list@.take(i + 1).drop_last() == list@.take(i as int));
            assert(list@.take(i + 1).last() == *p);
        }
        let mut line = "  ".to_string();
        line.append(text::pad_right(p.id, 22).as_str());
        line.append(" ");
        line.append(text::pad_right(p.cron, 14).as_str());
        line.append(" ");
        line.append(p.description);
        line.append("\n");
        proof {
            assert((head + preset_lines(list@.take(i as int))) + line@ =~= head + (preset_lines(
                list@.take(i as int),
            ) + line@));
        }
        out.append(line.as_str());
        i = i + 1;
    }
    proof {
        assert(list@.take(n as int) == list@);
    }
    out.append("\nadd via: /schedule preset add <id> --kms <name> [--cwd <path>]\n");
    out
}

/// What is wrong with asking for a ready-made schedule.
pub open spec fn preset_error(preset_id: Seq<char>, kms: Seq<char>) -> Option<ErrorView> {
    if preset_of(preset_id) is None {
        Some(
            ErrorView::Tool(
                "unknown preset '"@ + preset_id + "' — try one of: "@ + text::join_of(
                    preset_ids(),
                    ", "@,
                ),
            ),
        )
    } else if kms.len() == 0 {
        Some(
            ErrorView::Tool("preset requires a KMS name — preset prompts substitute {kms}"@),
        )
    } else {
        None
    }
}

/// The id of a ready-made schedule for a knowledge base.
pub open spec fn preset_job_id(preset_id: Seq<char>, kms: Seq<char>) -> Seq<char> {
    preset_id + "-"@ + kms
}

/// A job that is a ready-made schedule for a knowledge base.
pub open spec fn is_preset_job(s: Schedule, p: SchedulePreset, kms: Seq<char>, cwd: String) -> bool {
    &&& s.id@ == preset_job_id(p.id@, kms)
    &&& s.cron@ == p.cron@
    &&& s.run_at is None
    &&& s.cwd == cwd
    &&& s.prompt@ == rendered(p.prompt_template@, kms)
    &&& s.model is None
    &&& s.max_iterations is None
    &&& s.timeout_secs is None
    &&& s.enabled
    &&& !s.watch_workspace
    &&& s.last_run is None
    &&& s.last_exit is None
}

/// The job that a ready-made schedule makes for a knowledge base.
pub fn preset_job(preset_id: &str, kms: &str, cwd: String) -> (r: Result<Schedule, Error>)
    ensures
        match r {
            Ok(s) => preset_error(preset_id@, kms@) is None && is_preset_job(
                s,
                preset_of(preset_id@)->0,
                kms@,
                cwd,
            ),
            Err(e) => preset_error(preset_id@, kms@) == Some(e@),
        },
{
    let preset = match find(preset_id) {
        Some(p) => p,
        None => {
            let ids = list_ids();
            let mut names: Vec<String> = Vec::new();
            let mut i: usize = 0;
            while i < ids.len()
                invariant
                    i <= ids@.len(),
                    ids@.len() == preset_ids().len(),
                    forall|k: int|
                        0 <= k < ids@.len() ==> (#[trigger] ids@[k])@ == preset_ids()[k],
                    text::views(names@) == preset_ids().take(i as int),
                decreases ids@.len() - i,
            {
                broadcast use text::views_push;

                proof {
                    assert(preset_ids().take(i + 1) =~= preset_ids().take(i as int).push(
                        preset_ids()[i as int],
                    ));
                }
                names.push(ids[i].to_string());
                i = i + 1;
            }
            proof {
                assert(preset_ids().take(preset_ids().len() as int) =~= preset_ids());
            }
            let mut m = "unknown preset '".to_string();
            m.append(preset_id);
            m.append("' — try one of: ");
            m.append(text::join(&names, ", ").as_str());
            return Err(Error::Tool(m));
        },
    };
    if kms.unicode_len() == 0 {
        return Err(
            Error::Tool(
                "preset requires a KMS name — preset prompts substitute {kms}".to_string(),
            ),
        );
    }
    let mut id = preset.id.to_string();
    id.append("-");
    id.append(kms);
    Ok(
        Schedule {
            id,
            cron: preset.cron.to_string(),
            run_at: None,
            cwd,
            prompt: render_prompt(&preset, kms),
            model: None,
            max_iterations: None,
            timeout_secs: None,
            enabled: true,
            watch_workspace: false,
            last_run: None,
            last_exit: None,
        },
    )
}

/// Adds the job that a ready-made schedule makes for a knowledge base. Where
/// it cannot be made or added, the store stays as it is.
pub fn add_from_preset_with_store(
    preset_id: &str,
    kms: &str,
    cwd: String,
    store: &mut ScheduleStore,
) -> (r: Result<Schedule, Error>)
    ensures
        match r {
            Ok(s) => preset_error(preset_id@, kms@) is None && is_preset_job(
                s,
                preset_of(preset_id@)->0,
                kms@,
                cwd,
            ) && schedule::add_error(old(store).schedules@, s) is None
                && final(store).schedules@ == old(store).schedules@.push(s)
                && final(store).version == old(store).version,
            Err(e) => *final(store) == *old(store) && match preset_error(preset_id@, kms@) {
                Some(x) => e@ == x,
                None => exists|s: Schedule| #[trigger]
                    is_preset_job(s, preset_of(preset_id@)->0, kms@, cwd) && schedule::add_error(
                        old(store).schedules@,
                        s,
                    ) == Some(e@),
            },
        },
{
    match preset_job(preset_id, kms, cwd) {
        Ok(job) => {
            let copy = job.clone();
            match store.add(job) {
                Ok(_) => Ok(copy),
                Err(e) => Err(e),
            }
        },
        Err(e) => Err(e),
    }
}

/// One ready-made schedule can serve several knowledge bases: their jobs have
/// different ids.
pub proof fn ids_differ_by_knowledge_base(preset_id: Seq<char>, kms: Seq<char>, other: Seq<char>)
    requires
        kms != other,
    ensures
        preset_job_id(preset_id, kms) != preset_job_id(preset_id, other),
{
    let a = preset_job_id(preset_id, kms);
    let b = preset_job_id(preset_id, other);
    let n = (preset_id + "-"@).len() as int;
    if a == b {
        assert(a.skip(n) =~= kms);
        assert(b.skip(n) =~= other);
    }
}

/// The name of the knowledge base takes the place of `{kms}`, and nothing else
/// of a template changes.
pub proof fn knowledge_base_takes_its_place(before: Seq<char>, rest: Seq<char>, kms: Seq<char>)
    requires
        !before.contains('{'),
    ensures
        rendered(before + "{kms}"@ + rest, kms) == before + kms + rendered(rest, kms),
        rendered(before, kms) == before,
{
    reveal_strlit("{kms}");
    text::occurrences_are_replaced(before, rest, "{kms}"@, kms);
}

/// Every ready-made schedule is found by its id, and makes a job for every
/// knowledge base with a name; no other id makes one.
pub proof fn presets_are_found_by_their_id(id: Seq<char>, kms: Seq<char>, i: int)
    requires
        0 <= i < preset_list().len(),
    ensures
        preset_of(preset_list()[i].id@) == Some(preset_list()[i]),
        preset_error(preset_list()[i].id@, kms) is None <==> kms.len() > 0,
        preset_of(id) matches Some(p) ==> p.id@ == id && preset_list().contains(p),
        (forall|k: int| 0 <= k < preset_list().len() ==> #[trigger] preset_list()[k].id@ != id)
            ==> preset_error(id, kms) is Some,
{
    let list = preset_list();
    assert forall|k: int| 0 <= k < i implies #[trigger] list[k].id@ != list[i].id@ by {
        crate::preset_language::preset_ids_differ(k, i);
    }
    lemma_first_is_found(list, i);
    lemma_found_is_listed(list, id);
}

proof fn lemma_first_is_found(list: Seq<SchedulePreset>, i: int)
    requires
        0 <= i < list.len(),
        forall|k: int| 0 <= k < i ==> #[trigger] list[k].id@ != list[i].id@,
    ensures
        first_preset(list, list[i].id@) == Some(list[i]),
    decreases i,
{
    if i > 0 {
        let rest = list.skip(1);
        assert(list[0].id@ != list[i].id@);
        assert forall|k: int| 0 <= k < i - 1 implies #[trigger] rest[k].id@ != rest[i - 1].id@ by {
            assert(rest[k] == list[k + 1]);
        }
        lemma_first_is_found(rest, i - 1);
    }
}

proof fn lemma_found_is_listed(list: Seq<SchedulePreset>, id: Seq<char>)
    ensures
        first_preset(list, id) matches Some(p) ==> p.id@ == id && list.contains(p),
    decreases list.len(),
{
    if list.len() > 0 && list[0].id@ != id {
        let rest = list.skip(1);
        lemma_found_is_listed(rest, id);
        if let Some(p) = first_preset(rest, id) {
            let k = choose|k: int| 0 <= k < rest.len() && rest[k] == p;
            assert(list[k + 1] == p);
        }
    }
}

/// A job from a ready-made schedule comes round at the times of the schedule,
/// is on from the start, has not run yet, and sends the prompt of the schedule
/// in the directory it was asked for in.
pub proof fn preset_jobs_are_ready(s: Schedule, p: SchedulePreset, kms: Seq<char>, cwd: String)
    requires
        is_preset_job(s, p, kms, cwd),
    ensures
        s.enabled,
        s.cron@ == p.cron@,
        s.run_at is None,
        s.last_run is None,
        s.last_exit is None,
        s.cwd == cwd,
        s.prompt@ == text::replace_of(p.prompt_template@, "{kms}"@, kms),
        s.id@ == p.id@ + "-"@ + kms,
{
}

} // verus!
