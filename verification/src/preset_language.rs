//! What holds of the ready-made schedules: their times are accepted, and their
//! prompts speak to the model and are no commands.

use vstd::prelude::*;

use crate::clock;
use crate::schedule;
use crate::schedule_presets;
use crate::text;

verus! {

/// What every prompt tells the model to pass on.
pub open spec fn argument_hint() -> Seq<char> {
    "kms: \"{kms}\""@
}

/// A text that begins with a command.
pub open spec fn is_command(s: Seq<char>) -> bool {
    text::has_prefix(s, "/kms "@) || text::has_prefix(s, "/dream"@)
}

/// Whether a line holds nothing but white space after one more character.
pub open spec fn still_blank(blank: bool, c: char) -> bool {
    c == '\n' || (blank && text::is_space(c))
}

/// No line of a text begins with a command, white space aside. `blank` says
/// whether the line that the text begins in is blank up to there.
pub open spec fn free_of_commands(s: Seq<char>, blank: bool) -> bool
    decreases s.len(),
{
    s.len() == 0 || (!(blank && is_command(s)) && free_of_commands(
        s.skip(1),
        still_blank(blank, s[0]),
    ))
}

/// A character that a line of a template may begin with.
pub open spec fn opens_line(c: char) -> bool {
    !text::is_space(c) && c != '/' && c != '{'
}

/// Every line of a template begins with a word, and a quote follows wherever
/// something is put in.
pub open spec fn is_template(s: Seq<char>, blank: bool) -> bool {
    &&& blank && s.len() > 0 ==> opens_line(s[0])
    &&& forall|i: int|
        0 <= i < s.len() - 1 && #[trigger] s[i] == '\n' ==> opens_line(s[i + 1])
    &&& forall|i: int|
        0 <= i < s.len() && #[trigger] s[i] == '}' ==> i + 1 < s.len() && (s[i + 1] == '\'' || s[i
            + 1] == '"')
}

proof fn lemma_nightly_close()
    ensures
        is_template(schedule_presets::NIGHTLY_CLOSE_PROMPT@, true),
        text::contains_text(schedule_presets::NIGHTLY_CLOSE_PROMPT@, argument_hint()),
{
    reveal_strlit("Run a nightly maintenance pass on KMS '{kms}'. Pass `kms: \"{kms}\"` to every tool call. Walk pages/ via KmsRead/KmsSearch and fix:\n1. Broken markdown page links — `[text](pages/<stem>.md)` where `<stem>.md` doesn't exist. KmsSearch for the intended target stem; if exactly one strong match exists, KmsWrite the source page with the corrected link. Otherwise leave alone and report.\n2. Pages on disk missing from index.md — KmsAppend a one-line bullet to index.md under the matching `category:` section.\n3. STALE markers (`> ⚠ STALE: source ` followed by the alias) — KmsRead the source page (alias is the page stem), KmsWrite a refreshed body that drops the STALE line.\nHard rules: don't invent sources; never use KmsDelete; every new page must reference at least one existing page via markdown link. End with `**Fixed**` / `**Skipped**` blocks.");
    let t = schedule_presets::NIGHTLY_CLOSE_PROMPT@;
    reveal_strlit("kms: \"{kms}\"");
    assert(t.subrange(53, 65) =~= argument_hint());
    assert(text::occurs_at(t, argument_hint(), 53));
}

proof fn lemma_weekly_review()
    ensures
        is_template(schedule_presets::WEEKLY_REVIEW_PROMPT@, true),
        text::contains_text(schedule_presets::WEEKLY_REVIEW_PROMPT@, argument_hint()),
{
    reveal_strlit("Run the weekly review pass on KMS '{kms}'. Pass `kms: \"{kms}\"` to every tool call.\nPhase 1 — Consolidate. KmsRead the index page to enumerate pages. Use KmsSearch to find pages that overlap heavily on the same topic. If two pages clearly cover the same subject, merge them: KmsWrite the canonical page with combined content (preserve every claim and source URL). Leave the duplicate page in place with a `> See [primary](pages/<stem>.md).` pointer at the top — do NOT KmsDelete.\nPhase 2 — Hygiene. Find broken markdown page links and pages missing from index.md (same procedure as nightly-close).\nHard rules: don't invent sources; never KmsDelete; preserve all source URLs and recency markers (e.g. `(as of 2026-04, …)`); every new page must reference at least one existing page. End with `**Consolidated**` / `**Fixed**` / `**Skipped**` blocks.");
    let t = schedule_presets::WEEKLY_REVIEW_PROMPT@;
    reveal_strlit("kms: \"{kms}\"");
    assert(t.subrange(49, 61) =~= argument_hint());
    assert(text::occurs_at(t, argument_hint(), 49));
}

proof fn lemma_contradiction_sweep()
    ensures
        is_template(schedule_presets::CONTRADICTION_SWEEP_PROMPT@, true),
        text::contains_text(schedule_presets::CONTRADICTION_SWEEP_PROMPT@, argument_hint()),
{
    reveal_strlit("Run the contradiction sweep on KMS '{kms}'. Pass `kms: \"{kms}\"` to every tool call. Four passes:\n1. Claims — KmsSearch for facts that may conflict (numbers, dates, definitions). KmsRead candidate pages; identify pairs that disagree.\n2. Entities — KmsRead pages under entities/people sections; flag drifted roles/companies/titles.\n3. Decisions — find decision pages contradicted by later pages without an explicit `supersedes:` link.\n4. Source-freshness — pages citing old sources when newer sources on the same topic exist in the KMS.\nPer finding: clear-winner (newer + more authoritative) → KmsWrite the outdated page appending a `## History` section that documents the change with reason and source dates. Ambiguous → KmsWrite a new `Conflict — <topic>.md` with `status: open` and both positions, link the original conflicting pages via markdown links `[<label>](pages/<stem>.md)`. Evolution (user changed mind, not contradiction) → update with a `## Timeline` section.\nHard rules: never silently delete a claim; recency markers + source URLs intact across rewrites; never use KmsDelete; never invent dates or sources. End with `**Auto-resolved**` / `**Flagged**` / `**Stale pages updated**` blocks.");
    let t = schedule_presets::CONTRADICTION_SWEEP_PROMPT@;
    reveal_strlit("kms: \"{kms}\"");
    assert(t.subrange(50, 62) =~= argument_hint());
    assert(text::occurs_at(t, argument_hint(), 50));
}

proof fn lemma_vault_health()
    ensures
        is_template(schedule_presets::VAULT_HEALTH_PROMPT@, true),
        text::contains_text(schedule_presets::VAULT_HEALTH_PROMPT@, argument_hint()),
{
    reveal_strlit("Run a read-only health check on KMS '{kms}'. Pass `kms: \"{kms}\"` to every tool call. Walk pages/ via KmsRead/KmsSearch and report counts + samples for each category:\n- Broken markdown page links: `[text](pages/<stem>.md)` where `pages/<stem>.md` doesn't exist\n- Orphan pages: page on disk with no inbound markdown link from any other page\n- Pages missing from index.md (page stem on disk but not listed in index)\n- Pages with no YAML frontmatter `---` block\n- Pages carrying STALE markers (`> ⚠ STALE: …`) awaiting refresh\nRead-only — do NOT call KmsWrite, KmsAppend, or KmsDelete. End with a totals table.");
    let t = schedule_presets::VAULT_HEALTH_PROMPT@;
    reveal_strlit("kms: \"{kms}\"");
    assert(t.subrange(51, 63) =~= argument_hint());
    assert(text::occurs_at(t, argument_hint(), 51));
}

proof fn lemma_rest_is_template(s: Seq<char>, blank: bool, n: int)
    requires
        is_template(s, blank),
        1 <= n <= s.len(),
        n > 1 ==> s[n - 1] != '\n' && !blank,
    ensures
        is_template(
            s.skip(n),
            n == 1 && still_blank(blank, s[0]),
        ),
{
    let t = s.skip(n);
    assert forall|i: int| 0 <= i < t.len() - 1 && #[trigger] t[i] == '\n' implies opens_line(
        t[i + 1],
    ) by {
        assert(s[i + n] == '\n');
    }
    assert forall|i: int| 0 <= i < t.len() && #[trigger] t[i] == '}' implies i + 1 < t.len() && (t[i
        + 1] == '\'' || t[i + 1] == '"') by {
        assert(s[i + n] == '}');
    }
}

proof fn lemma_no_command_at(s: Seq<char>)
    requires
        s.len() > 0,
        s[0] != '/',
    ensures
        !is_command(s),
{
    reveal_strlit("/kms ");
    reveal_strlit("/dream");
    if text::has_prefix(s, "/kms "@) {
        assert(s.take(5)[0] == s[0]);
    }
    if text::has_prefix(s, "/dream"@) {
        assert(s.take(6)[0] == s[0]);
    }
}

proof fn lemma_template_is_free(s: Seq<char>, blank: bool)
    requires
        is_template(s, blank),
    ensures
        free_of_commands(s, blank),
    decreases s.len(),
{
    if s.len() > 0 {
        if blank {
            lemma_no_command_at(s);
        }
        lemma_rest_is_template(s, blank, 1);
        lemma_template_is_free(s.skip(1), still_blank(blank, s[0]));
    }
}

/// A command that a quote cuts off is none.
proof fn lemma_command_before_quote(a: Seq<char>, q: Seq<char>)
    requires
        q.len() > 0,
        q[0] == '\'' || q[0] == '"',
        is_command(a + q),
    ensures
        is_command(a),
{
    reveal_strlit("/kms ");
    reveal_strlit("/dream");
    let s = a + q;
    if text::has_prefix(s, "/kms "@) {
        if a.len() < 5 {
            assert(s.take(5)[a.len() as int] == q[0]);
        }
        assert(a.take(5) =~= s.take(5));
    } else {
        if a.len() < 6 {
            assert(s.take(6)[a.len() as int] == q[0]);
        }
        assert(a.take(6) =~= s.take(6));
    }
}

proof fn lemma_quote_goes_on(a: Seq<char>, q: Seq<char>, blank: bool)
    requires
        free_of_commands(a, blank),
        q.len() > 0,
        q[0] == '\'' || q[0] == '"',
        free_of_commands(q, false),
    ensures
        free_of_commands(a + q, blank),
    decreases a.len(),
{
    let s = a + q;
    if a.len() == 0 {
        assert(s =~= q);
        lemma_no_command_at(q);
    } else {
        if blank && is_command(s) {
            lemma_command_before_quote(a, q);
        }
        lemma_quote_goes_on(a.skip(1), q, still_blank(blank, a[0]));
        assert(s.skip(1) =~= a.skip(1) + q);
    }
}

proof fn lemma_rendered(s: Seq<char>, kms: Seq<char>, blank: bool)
    requires
        is_template(s, blank),
        free_of_commands(kms, false),
    ensures
        free_of_commands(text::replace_of(s, "{kms}"@, kms), blank),
        s.len() > 0 && s[0] != '{' ==> text::replace_of(s, "{kms}"@, kms).len() > 0
            && text::replace_of(s, "{kms}"@, kms)[0] == s[0],
    decreases s.len(),
{
    let p = "{kms}"@;
    reveal_strlit("{kms}");
    let r = text::replace_of(s, p, kms);
    if s.len() < p.len() {
        lemma_template_is_free(s, blank);
    } else if text::has_prefix(s, p) {
        let rest = s.skip(5);
        assert(s.take(5)[0] == s[0]);
        assert(s.take(5)[4] == s[4]);
        assert(s[4] == '}');
        lemma_rest_is_template(s, blank, 5);
        lemma_rendered(rest, kms, false);
        assert(rest[0] == s[5]);
        lemma_quote_goes_on(kms, text::replace_of(rest, p, kms), false);
    } else {
        let rest = s.skip(1);
        lemma_rest_is_template(s, blank, 1);
        lemma_rendered(rest, kms, still_blank(blank, s[0]));
        assert(r.skip(1) =~= text::replace_of(rest, p, kms));
        if blank {
            lemma_no_command_at(r);
        }
    }
}

/// Everything between two places of a text is white space.
spec fn is_blank_between(s: Seq<char>, from: int, to: int) -> bool {
    forall|k: int| from <= k < to ==> text::is_space(#[trigger] s[k])
}

proof fn lemma_free_at(s: Seq<char>, blank: bool, from: int, at: int)
    requires
        free_of_commands(s, blank),
        0 <= from <= at < s.len(),
        from == 0 ==> blank,
        from > 0 ==> s[from - 1] == '\n',
        is_blank_between(s, from, at),
    ensures
        !is_command(s.skip(at)),
    decreases s.len(),
{
    if at == 0 {
        assert(s.skip(0) =~= s);
    } else {
        let t = s.skip(1);
        let f = if from == 0 {
            0
        } else {
            from - 1
        };
        assert forall|k: int| f <= k < at - 1 implies text::is_space(#[trigger] t[k]) by {
            assert(text::is_space(s[k + 1]));
        }
        if from == 0 {
            assert(text::is_space(s[0]));
        } else if from > 1 {
            assert(t[f - 1] == s[from - 1]);
        }
        lemma_free_at(t, still_blank(blank, s[0]), f, at - 1);
        assert(t.skip(at - 1) =~= s.skip(at));
    }
}

/// Where a piece of a text stands: it begins the text or follows a separator.
spec fn stands_at(s: Seq<char>, sep: char, piece: Seq<char>, from: int) -> bool {
    &&& 0 <= from && from + piece.len() <= s.len()
    &&& piece == s.subrange(from, from + piece.len())
    &&& from > 0 ==> s[from - 1] == sep
}

proof fn lemma_piece_stands(s: Seq<char>, sep: char, i: int) -> (from: int)
    requires
        0 <= i < text::split_of(s, sep).len(),
    ensures
        stands_at(s, sep, text::split_of(s, sep)[i], from),
        i == text::split_of(s, sep).len() - 1 ==> from + text::split_of(s, sep)[i].len() == s.len(),
    decreases s.len(),
{
    let all = text::split_of(s, sep);
    if s.len() == 0 {
        assert(all[i] =~= s.subrange(0, 0));
        0
    } else {
        let t = s.drop_last();
        let before = text::split_of(t, sep);
        text::lemma_split_nonempty(t, sep);
        if i >= before.len() {
            assert(all[i] =~= s.subrange(s.len() as int, s.len() as int));
            s.len() as int
        } else {
            let from = lemma_piece_stands(t, sep, i);
            let n = before[i].len() as int;
            assert(t.subrange(from, from + n) =~= s.subrange(from, from + n));
            if s.last() != sep && i == before.len() - 1 {
                assert(all[i] =~= s.subrange(from, from + n + 1));
            }
            from
        }
    }
}

proof fn lemma_trim_start(s: Seq<char>) -> (n: int)
    ensures
        0 <= n <= s.len(),
        text::trim_start_of(s) == s.skip(n),
        is_blank_between(s, 0, n),
    decreases s.len(),
{
    if s.len() > 0 && text::is_space(s[0]) {
        let t = s.skip(1);
        let n = lemma_trim_start(t);
        assert(t.skip(n) =~= s.skip(n + 1));
        assert forall|k: int| 0 <= k < n + 1 implies text::is_space(#[trigger] s[k]) by {
            if k > 0 {
                assert(text::is_space(t[k - 1]));
            }
        }
        n + 1
    } else {
        assert(s.skip(0) =~= s);
        0
    }
}

/// A line that begins with a command does so in the text that it is part of.
proof fn lemma_command_in_text(s: Seq<char>, from: int, line: Seq<char>)
    requires
        0 <= from,
        from + line.len() <= s.len(),
        line == s.subrange(from, from + line.len()),
        is_command(line),
    ensures
        is_command(s.skip(from)),
{
    reveal_strlit("/kms ");
    reveal_strlit("/dream");
    if text::has_prefix(line, "/kms "@) {
        assert(s.skip(from).take(5) =~= line.take(5));
    } else {
        assert(s.skip(from).take(6) =~= line.take(6));
    }
}

proof fn lemma_lines_are_free(s: Seq<char>, i: int)
    requires
        free_of_commands(s, true),
        0 <= i < text::lines_of(s).len(),
    ensures
        !is_command(text::trim_start_of(text::lines_of(s)[i])),
{
    text::lemma_split_nonempty(s, '\n');
    let piece = text::split_of(s, '\n')[i];
    let line = text::lines_of(s)[i];
    let from = lemma_piece_stands(s, '\n', i);
    assert(line =~= s.subrange(from, from + line.len()));
    let n = lemma_trim_start(line);
    let rest = line.skip(n);
    if is_command(rest) {
        reveal_strlit("/kms ");
        reveal_strlit("/dream");
        assert(rest.len() > 0);
        assert(rest =~= s.subrange(from + n, from + n + rest.len()));
        lemma_command_in_text(s, from + n, rest);
        assert forall|k: int| from <= k < from + n implies text::is_space(#[trigger] s[k]) by {
            assert(text::is_space(line[k - from]));
        }
        lemma_free_at(s, true, from, from + n);
    }
}

/// There are four ready-made schedules, no two of the same id.
pub proof fn preset_ids_differ(i: int, k: int)
    requires
        0 <= i < k < schedule_presets::preset_list().len(),
    ensures
        schedule_presets::preset_list().len() == 4,
        schedule_presets::preset_list()[i].id@ != schedule_presets::preset_list()[k].id@,
{
    reveal_strlit("nightly-close");
    reveal_strlit("weekly-review");
    reveal_strlit("contradiction-sweep");
    reveal_strlit("vault-health");
    let list = schedule_presets::preset_list();
    assert(list[0].id@[0] == 'n');
    assert(list[1].id@[0] == 'w');
    assert(list[2].id@[0] == 'c');
    assert(list[3].id@[0] == 'v');
    assert(i == 0 || i == 1 || i == 2);
    assert(k == 1 || k == 2 || k == 3);
}

proof fn lemma_templates(i: int)
    requires
        0 <= i < schedule_presets::preset_list().len(),
    ensures
        is_template(schedule_presets::preset_list()[i].prompt_template@, true),
        text::contains_text(
            schedule_presets::preset_list()[i].prompt_template@,
            argument_hint(),
        ),
{
    lemma_nightly_close();
    lemma_weekly_review();
    lemma_contradiction_sweep();
    lemma_vault_health();
}

/// Every ready-made prompt tells the model which knowledge base to pass on.
pub proof fn prompts_name_the_knowledge_base(i: int)
    requires
        0 <= i < schedule_presets::preset_list().len(),
    ensures
        text::contains_text(
            schedule_presets::preset_list()[i].prompt_template@,
            argument_hint(),
        ),
{
    lemma_templates(i);
}

/// No line of a ready-made prompt is a command, whatever the knowledge base,
/// unless its own name brings one in on a line of its own: the job that sends
/// the prompt would not carry one out.
pub proof fn prompts_are_no_commands(i: int, kms: Seq<char>, k: int)
    requires
        0 <= i < schedule_presets::preset_list().len(),
        free_of_commands(kms, false),
        0 <= k < text::lines_of(
            schedule_presets::rendered(
                schedule_presets::preset_list()[i].prompt_template@,
                kms,
            ),
        ).len(),
    ensures
        ({
            let line = text::trim_start_of(
                text::lines_of(
                    schedule_presets::rendered(
                        schedule_presets::preset_list()[i].prompt_template@,
                        kms,
                    ),
                )[k],
            );
            !text::has_prefix(line, "/kms "@) && !text::has_prefix(line, "/dream"@)
        }),
{
    let t = schedule_presets::preset_list()[i].prompt_template@;
    lemma_templates(i);
    lemma_rendered(t, kms, true);
    lemma_lines_are_free(schedule_presets::rendered(t, kms), k);
}

/// A name of one line brings no command in.
pub proof fn names_of_one_line_are_safe(kms: Seq<char>)
    requires
        !kms.contains('\n'),
    ensures
        free_of_commands(kms, false),
    decreases kms.len(),
{
    if kms.len() > 0 {
        let t = kms.skip(1);
        assert(kms.contains(kms[0]));
        if t.contains('\n') {
            let k = choose|k: int| 0 <= k < t.len() && t[k] == '\n';
            assert(kms[k + 1] == '\n');
        }
        names_of_one_line_are_safe(t);
    }
}

proof fn lemma_decimals()
    ensures
        text::decimal_of(0) == "0"@,
        text::decimal_of(6) == "6"@,
        text::decimal_of(9) == "9"@,
        text::decimal_of(12) == "12"@,
        text::decimal_of(23) == "23"@,
{
    reveal_with_fuel(text::decimal_of, 3);
    reveal_strlit("0");
    reveal_strlit("6");
    reveal_strlit("9");
    reveal_strlit("12");
    reveal_strlit("23");
    assert(text::decimal_of(0) =~= "0"@);
    assert(text::decimal_of(6) =~= "6"@);
    assert(text::decimal_of(9) =~= "9"@);
    assert(text::decimal_of(12) =~= "12"@);
    assert(text::decimal_of(23) =~= "23"@);
}

proof fn lemma_nightly_close_time()
    ensures
        clock::names_time_of_day(schedule::normalized_cron("0 23 * * *"@)),
{
    let c = "0 23 * * *"@;
    reveal_strlit("0 23 * * *");
    reveal_strlit("0 ");
    reveal_strlit("0");
    reveal_strlit("23");
    reveal_strlit(" ");
    reveal_strlit(" * * ");
    reveal_strlit("*");
    lemma_decimals();
    lemma_trimmed(c);
    reveal_with_fuel(text::words_of, 11);
    assert(text::words_of(c).len() == 5);
    assert("0 "@ + c =~= clock::time_of_day(0, 23, "*"@));
    assert(clock::is_day("*"@));
}

proof fn lemma_weekly_review_time()
    ensures
        clock::names_time_of_day(schedule::normalized_cron("0 9 * * SUN"@)),
{
    let c = "0 9 * * SUN"@;
    reveal_strlit("0 9 * * SUN");
    reveal_strlit("0 ");
    reveal_strlit("0");
    reveal_strlit("9");
    reveal_strlit(" ");
    reveal_strlit(" * * ");
    reveal_strlit("SUN");
    lemma_decimals();
    lemma_trimmed(c);
    reveal_with_fuel(text::words_of, 12);
    assert(text::words_of(c).len() == 5);
    assert("0 "@ + c =~= clock::time_of_day(0, 9, "SUN"@));
    assert(clock::is_day("SUN"@));
}

proof fn lemma_contradiction_sweep_time()
    ensures
        clock::names_time_of_day(schedule::normalized_cron("0 12 * * *"@)),
{
    let c = "0 12 * * *"@;
    reveal_strlit("0 12 * * *");
    reveal_strlit("0 ");
    reveal_strlit("0");
    reveal_strlit("12");
    reveal_strlit(" ");
    reveal_strlit(" * * ");
    reveal_strlit("*");
    lemma_decimals();
    lemma_trimmed(c);
    reveal_with_fuel(text::words_of, 11);
    assert(text::words_of(c).len() == 5);
    assert("0 "@ + c =~= clock::time_of_day(0, 12, "*"@));
    assert(clock::is_day("*"@));
}

proof fn lemma_vault_health_time()
    ensures
        clock::names_time_of_day(schedule::normalized_cron("0 6 * * *"@)),
{
    let c = "0 6 * * *"@;
    reveal_strlit("0 6 * * *");
    reveal_strlit("0 ");
    reveal_strlit("0");
    reveal_strlit("6");
    reveal_strlit(" ");
    reveal_strlit(" * * ");
    reveal_strlit("*");
    lemma_decimals();
    lemma_trimmed(c);
    reveal_with_fuel(text::words_of, 10);
    assert(text::words_of(c).len() == 5);
    assert("0 "@ + c =~= clock::time_of_day(0, 6, "*"@));
    assert(clock::is_day("*"@));
}

/// A text that neither begins nor ends with white space is trimmed.
proof fn lemma_trimmed(s: Seq<char>)
    requires
        s.len() > 0,
        !text::is_space(s[0]),
        !text::is_space(s.last()),
    ensures
        text::trim_of(s) == s,
{
}

/// Every ready-made schedule is for a time of the day, which
/// [`validate_cron`](schedule::validate_cron) accepts.
pub proof fn presets_name_a_time(i: int)
    requires
        0 <= i < schedule_presets::preset_list().len(),
    ensures
        clock::names_time_of_day(
            schedule::normalized_cron(schedule_presets::preset_list()[i].cron@),
        ),
{
    lemma_nightly_close_time();
    lemma_weekly_review_time();
    lemma_contradiction_sweep_time();
    lemma_vault_health_time();
}

} // verus!
