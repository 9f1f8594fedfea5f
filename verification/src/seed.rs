//! One run over all providers: what each answered is merged into the
//! catalogue, and a report says what came of it.

use vstd::prelude::*;

use crate::catalogue::{
    self, Catalogue, GeminiModel, MergeStats, Mirror, ModelEntry, OpenRouterModel, ProviderCatalogue,
};
use crate::keyed::{self, Keyed};
use crate::text;

verus! {

// ---------------------------------------------------------------------------
// The report
// ---------------------------------------------------------------------------

/// The line that opens the report on a provider.
pub open spec fn stats_header(
    provider: Seq<char>,
    stats: catalogue::StatsView,
    suffix: Option<Seq<char>>,
) -> Seq<char> {
    let counts = "  "@ + text::pad_right_of(provider + ":"@, 12) + " +"@ + text::decimal_of(
        stats.added.len(),
    ) + " new, "@ + text::decimal_of(stats.unchanged as nat) + " unchanged"@;
    let skipped = if stats.skipped_no_context > 0 {
        counts + ", "@ + text::decimal_of(stats.skipped_no_context as nat)
            + " skipped (no context)"@
    } else {
        counts
    };
    match suffix {
        Some(s) => skipped + " "@ + s,
        None => skipped,
    }
}

/// The report on a provider: the counts, and the first of the new ids in
/// order.
pub open spec fn stats_lines(
    provider: Seq<char>,
    stats: catalogue::StatsView,
    suffix: Option<Seq<char>>,
) -> Seq<Seq<char>> {
    let sorted = text::sort_of(stats.added);
    let count = stats.added.len();
    let shown = if count > catalogue::MAX_LIST_IDS {
        catalogue::MAX_LIST_IDS as nat
    } else {
        count
    };
    let lines = seq![stats_header(provider, stats, suffix)] + Seq::new(
        shown,
        |i: int| "                 · "@ + sorted[i],
    );
    if count > catalogue::MAX_LIST_IDS {
        lines.push(
            "                 … (+"@ + text::decimal_of((count - catalogue::MAX_LIST_IDS) as nat)
                + " more)"@,
        )
    } else {
        lines
    }
}

/// Adds the report on a provider.
pub fn push_provider_stats(
    report: &mut Vec<String>,
    provider: &str,
    stats: MergeStats,
    suffix: Option<&str>,
)
    ensures
        text::views(final(report)@) == text::views(old(report)@) + stats_lines(
            provider@,
            stats@,
            text::view_opt(suffix),
        ),
{
    broadcast use text::views_push;

    let ghost head = text::views(report@);
    let ghost view = stats@;
    let count = stats.added.len();
    let mut label = provider.to_string();
    label.append(":");
    let mut header = "  ".to_string();
    header.append(text::pad_right(label.as_str(), 12).as_str());
    header.append(" +");
    header.append(text::decimal(count as u64).as_str());
    header.append(" new, ");
    header.append(text::decimal(stats.unchanged as u64).as_str());
    header.append(" unchanged");
    if stats.skipped_no_context > 0 {
        header.append(", ");
        header.append(text::decimal(stats.skipped_no_context as u64).as_str());
        header.append(" skipped (no context)");
    }
    if let Some(s) = suffix {
        header.append(" ");
        header.append(s);
    }
    assert(header@ == stats_header(provider@, view, text::view_opt(suffix)));
    report.push(header);
    let sorted = text::sort(stats.added);
    let ghost names = text::views(sorted@);
    let ghost top = text::views(report@);
    proof {
        text::sorting_orders(view.added);
        assert(names.len() == count);
    }
    let shown = if count > catalogue::MAX_LIST_IDS {
        catalogue::MAX_LIST_IDS
    } else {
        count
    };
    let mut i: usize = 0;
    while i < shown
        invariant
            shown <= sorted@.len(),
            names == text::views(sorted@),
            i <= shown,
            text::views(report@) == top + Seq::new(
                i as nat,
                |k: int| "                 · "@ + names[k],
            ),
        decreases shown - i,
    {
        let mut line = "                 · ".to_string();
        line.append(sorted[i].as_str());
        proof {
            assert(names[i as int] == sorted@[i as int]@);
            assert(top + Seq::new((i + 1) as nat, |k: int| "                 · "@ + names[k]) =~= (
            top + Seq::new(i as nat, |k: int| "                 · "@ + names[k])).push(line@));
        }
        report.push(line);
        i = i + 1;
    }
    if count > catalogue::MAX_LIST_IDS {
        let mut line = "                 … (+".to_string();
        line.append(text::decimal((count - catalogue::MAX_LIST_IDS) as u64).as_str());
        line.append(" more)");
        report.push(line);
    }
    assert(text::views(report@) =~= head + stats_lines(provider@, view, text::view_opt(suffix)));
}

/// A line that says of a provider why there is nothing to merge.
pub open spec fn note_line(provider: Seq<char>, note: Seq<char>) -> Seq<char> {
    "  "@ + text::pad_right_of(provider + ":"@, 12) + " "@ + note
}

fn note(provider: &str, what: &str) -> (r: String)
    ensures
        r@ == note_line(provider@, what@),
{
    let mut label = provider.to_string();
    label.append(":");
    let mut line = "  ".to_string();
    line.append(text::pad_right(label.as_str(), 12).as_str());
    line.append(" ");
    line.append(what);
    line
}

pub open spec fn failed_note(e: Seq<char>) -> Seq<char> {
    "FAILED ("@ + e + ")"@
}

fn failed(e: &str) -> (r: String)
    ensures
        r@ == failed_note(e@),
{
    let mut m = "FAILED (".to_string();
    m.append(e);
    m.append(")");
    m
}

pub open spec fn skipped_note(key: Seq<char>) -> Seq<char> {
    "skipped (no "@ + key + ")"@
}

fn skipped(key: &str) -> (r: String)
    ensures
        r@ == skipped_note(key@),
{
    let mut m = "skipped (no ".to_string();
    m.append(key);
    m.append(")");
    m
}

// ---------------------------------------------------------------------------
// Providers that list bare ids
// ---------------------------------------------------------------------------

/// What a provider answered.
pub enum Probe {
    /// It was not asked, for want of a key.
    NoKey,
    Failed(String),
    Listed(Vec<String>),
}

/// Which of a provider's ids count.
#[derive(Clone, Copy, Debug, PartialEq, Eq, Structural)]
pub enum IdFilter {
    All,
    OpenAi,
    DashScope,
}

pub open spec fn counts(filter: IdFilter, id: Seq<char>) -> bool {
    match filter {
        IdFilter::All => true,
        IdFilter::OpenAi => catalogue::openai_chat(id),
        IdFilter::DashScope => catalogue::dashscope_chat(id),
    }
}

/// A provider that lists ids and nothing else.
#[derive(Clone, Copy)]
pub struct Source<'a> {
    pub name: &'a str,
    pub url: &'a str,
    /// Where its key is looked for.
    pub key: &'a str,
    /// What is put before its ids, so that they lead back to it.
    pub prefix: &'a str,
    /// The context of its models, where the catalogue has none yet.
    pub default_context: Option<u32>,
    pub filter: IdFilter,
}

pub struct SourceView {
    pub name: Seq<char>,
    pub url: Seq<char>,
    pub key: Seq<char>,
    pub prefix: Seq<char>,
    pub default_context: Option<u32>,
    pub filter: IdFilter,
}

impl<'a> View for Source<'a> {
    type V = SourceView;

    open spec fn view(&self) -> SourceView {
        SourceView {
            name: self.name@,
            url: self.url@,
            key: self.key@,
            prefix: self.prefix@,
            default_context: self.default_context,
            filter: self.filter,
        }
    }
}

/// The ids that count, with the prefix.
pub open spec fn ids_of(filter: IdFilter, prefix: Seq<char>, ids: Seq<Seq<char>>) -> Seq<Seq<char>>
    decreases ids.len(),
{
    if ids.len() == 0 {
        Seq::empty()
    } else {
        let before = ids_of(filter, prefix, ids.drop_last());
        if counts(filter, ids.last()) {
            before.push(prefix + ids.last())
        } else {
            before
        }
    }
}

fn kept_ids(filter: IdFilter, prefix: &str, ids: &Vec<String>) -> (r: Vec<String>)
    ensures
        text::views(r@) == ids_of(filter, prefix@, text::views(ids@)),
        r@.len() <= ids@.len(),
{
    let ghost all = text::views(ids@);
    let mut r: Vec<String> = Vec::new();
    let n = ids.len();
    let mut i: usize = 0;
    while i < n
        invariant
            n == ids@.len(),
            all == text::views(ids@),
            i <= n,
            r@.len() <= i,
            text::views(r@) == ids_of(filter, prefix@, all.take(i as int)),
        decreases n - i,
    {
        broadcast use text::views_push;

        let id = ids[i].as_str();
        proof {
            assert(all[i as int] == id@);
            assert(all.take(i + 1).drop_last() == all.take(i as int));
            assert(all.take(i + 1).last() == id@);
        }
        let keep = match filter {
            IdFilter::All => true,
            IdFilter::OpenAi => catalogue::is_openai_chat(id),
            IdFilter::DashScope => catalogue::is_dashscope_chat(id),
        };
        if keep {
            let mut name = prefix.to_string();
            name.append(id);
            r.push(name);
        }
        i = i + 1;
    }
    proof {
        assert(all.take(n as int) == all);
    }
    r
}

/// The catalogue's providers, and the report so far.
pub struct SeedView {
    pub providers: catalogue::Providers,
    pub report: Seq<Seq<char>>,
}

/// A provider with a context for its models.
pub open spec fn with_default_context(
    pc: catalogue::ProviderView,
    n: Option<u32>,
) -> catalogue::ProviderView {
    catalogue::ProviderView {
        default_context: if pc.default_context is None {
            n
        } else {
            pc.default_context
        },
        ..pc
    }
}

/// What is said of the ids that do not count.
pub open spec fn filter_note(filter: IdFilter, dropped: nat) -> Option<Seq<char>> {
    match filter {
        IdFilter::OpenAi => Some(
            "("@ + text::decimal_of(dropped) + " filtered: fine-tunes/audio/image/embedding)"@,
        ),
        _ => None,
    }
}

/// One provider dealt with.
pub open spec fn listed_step(
    st: SeedView,
    src: SourceView,
    probe: Probe,
    mirror: catalogue::MirrorView,
    today: Seq<char>,
) -> SeedView {
    match probe {
        Probe::NoKey => SeedView {
            report: st.report.push(note_line(src.name, skipped_note(src.key))),
            ..st
        },
        Probe::Failed(e) => SeedView {
            report: st.report.push(note_line(src.name, failed_note(e@))),
            ..st
        },
        Probe::Listed(ids) => {
            let all = text::views(ids@);
            let kept = ids_of(src.filter, src.prefix, all);
            let pc = with_default_context(
                catalogue::provider_or(st.providers, src.name, catalogue::empty_provider()),
                src.default_context,
            );
            let m = catalogue::discovered_provider(pc, kept, src.url, mirror, today);
            SeedView {
                providers: keyed::with_entry(st.providers, src.name, m.0),
                report: st.report + stats_lines(
                    src.name,
                    m.1,
                    filter_note(src.filter, (all.len() - kept.len()) as nat),
                ),
            }
        },
    }
}

/// Deals with one provider.
pub fn seed_listed(
    cat: &mut Catalogue,
    report: &mut Vec<String>,
    src: Source,
    probe: Probe,
    mirror: &Mirror,
    today: &str,
)
    ensures
        ({
            let st = listed_step(
                SeedView { providers: old(cat).providers@, report: text::views(old(report)@) },
                src@,
                probe,
                mirror@,
                today@,
            );
            &&& final(cat).providers@ == st.providers
            &&& text::views(final(report)@) == st.report
        }),
        final(cat).schema == old(cat).schema,
        final(cat).source == old(cat).source,
        final(cat).fetched_at == old(cat).fetched_at,
{
    broadcast use text::views_push;

    match probe {
        Probe::NoKey => {
            report.push(note(src.name, skipped(src.key).as_str()));
        },
        Probe::Failed(e) => {
            report.push(note(src.name, failed(e.as_str()).as_str()));
        },
        Probe::Listed(ids) => {
            let kept = kept_ids(src.filter, src.prefix, &ids);
            let dropped = ids.len() - kept.len();
            let ghost providers = cat.providers@;
            let pc = cat.providers.entry_or(src.name, ProviderCatalogue::default());
            if pc.default_context.is_none() {
                pc.default_context = src.default_context;
            }
            let ghost seeded = with_default_context(
                catalogue::provider_or(providers, src.name@, catalogue::empty_provider()),
                src.default_context,
            );
            proof {
                assert(cat.providers@ == keyed::with_entry(providers, src.name@, seeded));
                keyed::entry_set_is_found(providers, src.name@, seeded, src.name@);
                keyed::setting_twice(
                    providers,
                    src.name@,
                    seeded,
                    catalogue::discovered_provider(
                        seeded,
                        text::views(kept@),
                        src.url@,
                        mirror@,
                        today@,
                    ).0,
                );
            }
            let stats = catalogue::merge_discovered(cat, src.name, src.url, kept, mirror, today);
            match src.filter {
                IdFilter::OpenAi => {
                    let mut suffix = "(".to_string();
                    suffix.append(text::decimal(dropped as u64).as_str());
                    suffix.append(" filtered: fine-tunes/audio/image/embedding)");
                    push_provider_stats(report, src.name, stats, Some(suffix.as_str()));
                },
                _ => {
                    push_provider_stats(report, src.name, stats, None);
                },
            }
        },
    }
}

// ---------------------------------------------------------------------------
// Gemini
// ---------------------------------------------------------------------------

/// What Gemini answered.
pub enum GeminiProbe {
    NoKey,
    Failed(String),
    Listed(Vec<GeminiModel>),
}

/// The models of Gemini that chat.
pub open spec fn chat_rows(rows: Seq<GeminiModel>) -> Seq<GeminiModel>
    decreases rows.len(),
{
    if rows.len() == 0 {
        rows
    } else if catalogue::gemini_chat(catalogue::gemini_id(rows.last().name@)) {
        chat_rows(rows.drop_last()).push(rows.last())
    } else {
        chat_rows(rows.drop_last())
    }
}

fn keep_chat_rows(rows: Vec<GeminiModel>) -> (r: Vec<GeminiModel>)
    ensures
        r@ == chat_rows(rows@),
        r@.len() <= rows@.len(),
{
    let ghost all = rows@;
    let mut r: Vec<GeminiModel> = Vec::new();
    for m in it: rows
        invariant
            it.seq() == all,
            r@ == chat_rows(all.take(it.index())),
            r@.len() <= it.index(),
    {
        proof {
            assert(all.take(it.index() + 1).drop_last() == all.take(it.index()));
            assert(all.take(it.index() + 1).last() == m);
        }
        let keep = catalogue::is_gemini_chat(catalogue::id_of_gemini(m.name.as_str()));
        if keep {
            r.push(m);
        }
    }
    proof {
        assert(all.take(all.len() as int) == all);
    }
    r
}

/// Gemini dealt with.
pub open spec fn gemini_seeded(st: SeedView, probe: GeminiProbe, today: Seq<char>) -> SeedView {
    match probe {
        GeminiProbe::NoKey => SeedView {
            report: st.report.push(note_line("gemini"@, skipped_note("GEMINI_API_KEY"@))),
            ..st
        },
        GeminiProbe::Failed(e) => SeedView {
            report: st.report.push(note_line("gemini"@, failed_note(e@))),
            ..st
        },
        GeminiProbe::Listed(rows) => {
            let kept = chat_rows(rows@);
            let pc = catalogue::provider_or(st.providers, "gemini"@, catalogue::new_gemini());
            let m = catalogue::gemini_merge(
                catalogue::Merge { models: pc.models, stats: catalogue::no_stats() },
                kept,
                today,
            );
            SeedView {
                providers: keyed::with_entry(
                    st.providers,
                    "gemini"@,
                    catalogue::ProviderView { models: m.models, ..pc },
                ),
                report: st.report + stats_lines(
                    "gemini"@,
                    m.stats,
                    Some(
                        "("@ + text::decimal_of((rows@.len() - kept.len()) as nat)
                            + " filtered: imagen/veo/gemma/embedding/tts)"@,
                    ),
                ),
            }
        },
    }
}

/// Deals with Gemini, which gives the context of its models itself.
pub fn seed_gemini(
    cat: &mut Catalogue,
    report: &mut Vec<String>,
    probe: GeminiProbe,
    today: &str,
)
    ensures
        ({
            let st = gemini_seeded(
                SeedView { providers: old(cat).providers@, report: text::views(old(report)@) },
                probe,
                today@,
            );
            &&& final(cat).providers@ == st.providers
            &&& text::views(final(report)@) == st.report
        }),
        final(cat).schema == old(cat).schema,
        final(cat).source == old(cat).source,
        final(cat).fetched_at == old(cat).fetched_at,
{
    broadcast use text::views_push;

    match probe {
        GeminiProbe::NoKey => {
            report.push(note("gemini", skipped("GEMINI_API_KEY").as_str()));
        },
        GeminiProbe::Failed(e) => {
            report.push(note("gemini", failed(e.as_str()).as_str()));
        },
        GeminiProbe::Listed(rows) => {
            let before = rows.len();
            let kept = keep_chat_rows(rows);
            let dropped = before - kept.len();
            let stats = catalogue::merge_gemini(cat, kept, today);
            let mut suffix = "(".to_string();
            suffix.append(text::decimal(dropped as u64).as_str());
            suffix.append(" filtered: imagen/veo/gemma/embedding/tts)");
            push_provider_stats(report, "gemini", stats, Some(suffix.as_str()));
        },
    }
}

// ---------------------------------------------------------------------------
// The agent SDK, which takes every model of Anthropic
// ---------------------------------------------------------------------------

/// One model of Anthropic taken over.
pub open spec fn derived_step(
    m: catalogue::Merge,
    row: (Seq<char>, catalogue::EntryView),
    today: Seq<char>,
) -> catalogue::Merge {
    let id = "agent/"@ + row.0;
    match keyed::lookup(m.models, id) {
        Some(_) => m.leave(),
        None => m.insert(
            id,
            catalogue::EntryView {
                context: row.1.context,
                max_output: None,
                source: Some("derived:"@ + row.0),
                verified_at: Some(today),
                free: None,
                chat: None,
            },
        ),
    }
}

pub open spec fn derived_merge(
    m: catalogue::Merge,
    rows: Seq<(Seq<char>, catalogue::EntryView)>,
    today: Seq<char>,
) -> catalogue::Merge
    decreases rows.len(),
{
    if rows.len() == 0 {
        m
    } else {
        derived_step(derived_merge(m, rows.drop_last(), today), rows.last(), today)
    }
}

/// The agent SDK dealt with: nothing where Anthropic has no models.
pub open spec fn agent_sdk_seeded(st: SeedView, today: Seq<char>) -> SeedView {
    let rows = catalogue::provider_or(
        st.providers,
        "anthropic"@,
        catalogue::empty_provider(),
    ).models;
    if rows.len() == 0 {
        st
    } else {
        let pc = with_default_context(
            catalogue::provider_or(st.providers, "agent-sdk"@, catalogue::empty_provider()),
            Some(200_000),
        );
        let m = derived_merge(
            catalogue::Merge { models: pc.models, stats: catalogue::no_stats() },
            rows,
            today,
        );
        SeedView {
            providers: keyed::with_entry(
                st.providers,
                "agent-sdk"@,
                catalogue::ProviderView { models: m.models, ..pc },
            ),
            report: st.report + stats_lines(
                "agent-sdk"@,
                m.stats,
                Some("(derived from anthropic)"@),
            ),
        }
    }
}

/// The ids of Anthropic's models, with their contexts.
fn anthropic_rows(cat: &Catalogue) -> (r: Vec<(String, Option<u32>)>)
    ensures
        ({
            let rows = catalogue::provider_or(
                cat.providers@,
                "anthropic"@,
                catalogue::empty_provider(),
            ).models;
            &&& r@.len() == rows.len()
            &&& forall|i: int|
                0 <= i < r@.len() ==> (#[trigger] r@[i]).0@ == rows[i].0 && r@[i].1
                    == rows[i].1.context
        }),
{
    let mut r: Vec<(String, Option<u32>)> = Vec::new();
    match cat.providers.get("anthropic") {
        Some(p) => {
            let ghost rows = p.models@;
            let n = p.models.entries.len();
            let mut i: usize = 0;
            while i < n
                invariant
                    n == rows.len(),
                    n == p.models.entries@.len(),
                    rows == p.models@,
                    i <= n,
                    r@.len() == i,
                    forall|k: int|
                        0 <= k < i ==> (#[trigger] r@[k]).0@ == rows[k].0 && r@[k].1
                            == rows[k].1.context,
                decreases n - i,
            {
                let e = &p.models.entries[i];
                r.push((e.0.clone(), e.1.context));
                i = i + 1;
            }
        },
        None => {},
    }
    r
}

/// Deals with the agent SDK.
pub fn seed_agent_sdk(cat: &mut Catalogue, report: &mut Vec<String>, today: &str)
    ensures
        ({
            let st = agent_sdk_seeded(
                SeedView { providers: old(cat).providers@, report: text::views(old(report)@) },
                today@,
            );
            &&& final(cat).providers@ == st.providers
            &&& text::views(final(report)@) == st.report
        }),
        final(cat).schema == old(cat).schema,
        final(cat).source == old(cat).source,
        final(cat).fetched_at == old(cat).fetched_at,
{
    let ids = anthropic_rows(cat);
    let ghost rows = catalogue::provider_or(
        cat.providers@,
        "anthropic"@,
        catalogue::empty_provider(),
    ).models;
    let n = ids.len();
    if n == 0 {
        return ;
    }
    let pc = cat.providers.entry_or("agent-sdk", ProviderCatalogue::default());
    if pc.default_context.is_none() {
        pc.default_context = Some(200_000);
    }
    let ghost start = catalogue::Merge { models: pc.models@, stats: catalogue::no_stats() };
    let mut models: Keyed<ModelEntry> = Keyed::new();
    std::mem::swap(&mut models, &mut pc.models);
    let mut stats = MergeStats::default();
    let mut i: usize = 0;
    while i < n
        invariant
            n == ids@.len(),
            n == rows.len(),
            i <= n,
            forall|k: int|
                0 <= k < n ==> (#[trigger] ids@[k]).0@ == rows[k].0 && ids@[k].1
                    == rows[k].1.context,
            models@ == derived_merge(start, rows.take(i as int), today@).models,
            stats@ == derived_merge(start, rows.take(i as int), today@).stats,
            stats@.seen() == i,
        decreases n - i,
    {
        broadcast use text::views_push;

        proof {
            assert(rows.take(i + 1).drop_last() == rows.take(i as int));
            assert(rows.take(i + 1).last() == rows[i as int]);
        }
        let mut id = "agent/".to_string();
        id.append(ids[i].0.as_str());
        if models.get(id.as_str()).is_some() {
            stats.unchanged = stats.unchanged + 1;
        } else {
            let mut source = "derived:".to_string();
            source.append(ids[i].0.as_str());
            models.set(
                id.as_str(),
                ModelEntry {
                    context: ids[i].1,
                    max_output: None,
                    source: Some(source),
                    verified_at: Some(today.to_string()),
                    free: None,
                    chat: None,
                },
            );
            stats.added.push(id);
        }
        i = i + 1;
    }
    proof {
        assert(rows.take(n as int) == rows);
    }
    pc.models = models;
    push_provider_stats(report, "agent-sdk", stats, Some("(derived from anthropic)"));
}

// ---------------------------------------------------------------------------
// All providers
// ---------------------------------------------------------------------------

/// What all providers answered, and where the two that can be moved are.
pub struct Replies {
    pub openrouter: Result<Vec<OpenRouterModel>, String>,
    pub anthropic: Probe,
    pub openai: Probe,
    pub gemini: GeminiProbe,
    pub ollama_cloud: Probe,
    pub deepseek: Probe,
    pub thaillm: Probe,
    pub nvidia: Probe,
    pub minimax: Probe,
    pub dashscope: Probe,
    pub dashscope_url: String,
    pub qwen_cloud: Probe,
    pub qwen_cloud_url: String,
}

/// Where the list of a provider is that can be moved.
pub open spec fn models_url_of(base: Option<Seq<char>>, default: Seq<char>) -> Seq<char> {
    match base {
        Some(b) => text::trim_end_char_of(b, '/') + "/models"@,
        None => default,
    }
}

pub fn models_url(base: Option<&str>, default: &str) -> (r: String)
    ensures
        r@ == models_url_of(text::view_opt(base), default@),
{
    match base {
        Some(b) => {
            let mut url = text::trim_end_char(b, '/').to_string();
            url.append("/models");
            url
        },
        None => default.to_string(),
    }
}

/// OpenRouter dealt with. Where it failed, it is as if it listed nothing.
pub open spec fn openrouter_seeded(
    st: SeedView,
    reply: Result<Vec<OpenRouterModel>, String>,
    today: Seq<char>,
) -> SeedView {
    let rows = match reply {
        Ok(rows) => rows@,
        Err(_) => Seq::empty(),
    };
    let noted = match reply {
        Ok(_) => st.report,
        Err(e) => st.report.push("  openrouter: "@ + failed_note(e@)),
    };
    let pc = catalogue::provider_or(st.providers, "openrouter"@, catalogue::new_openrouter());
    let m = catalogue::openrouter_merge(
        catalogue::Merge { models: pc.models, stats: catalogue::no_stats() },
        rows,
        today,
    );
    SeedView {
        providers: keyed::with_entry(
            st.providers,
            "openrouter"@,
            catalogue::ProviderView { models: m.models, ..pc },
        ),
        report: noted + stats_lines("openrouter"@, m.stats, None),
    }
}

/// What OpenRouter says of models, where it answered.
pub open spec fn mirrored(reply: Result<Vec<OpenRouterModel>, String>) -> catalogue::MirrorView {
    match reply {
        Ok(rows) => catalogue::mirror_of(rows@),
        Err(_) => catalogue::mirror_of(Seq::empty()),
    }
}

pub open spec fn anthropic_source() -> SourceView {
    SourceView {
        name: "anthropic"@,
        url: catalogue::ANTHROPIC_URL@,
        key: "ANTHROPIC_API_KEY"@,
        prefix: ""@,
        default_context: None,
        filter: IdFilter::All,
    }
}

pub open spec fn openai_source() -> SourceView {
    SourceView {
        name: "openai"@,
        url: catalogue::OPENAI_URL@,
        key: "OPENAI_API_KEY"@,
        prefix: ""@,
        default_context: None,
        filter: IdFilter::OpenAi,
    }
}

pub open spec fn ollama_cloud_source() -> SourceView {
    SourceView {
        name: "ollama-cloud"@,
        url: catalogue::OLLAMA_CLOUD_URL@,
        key: "OLLAMA_CLOUD_API_KEY"@,
        prefix: "ollama-cloud/"@,
        default_context: Some(262_144),
        filter: IdFilter::All,
    }
}

pub open spec fn deepseek_source() -> SourceView {
    SourceView {
        name: "deepseek"@,
        url: catalogue::DEEPSEEK_URL@,
        key: "DEEPSEEK_API_KEY"@,
        prefix: ""@,
        default_context: Some(131_072),
        filter: IdFilter::All,
    }
}

pub open spec fn thaillm_source() -> SourceView {
    SourceView {
        name: "thaillm"@,
        url: catalogue::THAILLM_URL@,
        key: "THAILLM_API_KEY"@,
        prefix: "thaillm/"@,
        default_context: Some(131_072),
        filter: IdFilter::All,
    }
}

pub open spec fn nvidia_source() -> SourceView {
    SourceView {
        name: "nvidia"@,
        url: catalogue::NVIDIA_URL@,
        key: "NVIDIA_API_KEY"@,
        prefix: "nvidia/"@,
        default_context: Some(131_072),
        filter: IdFilter::All,
    }
}

pub open spec fn minimax_source() -> SourceView {
    SourceView {
        name: "minimax"@,
        url: catalogue::MINIMAX_URL@,
        key: "MINIMAX_API_KEY"@,
        prefix: "minimax/"@,
        default_context: Some(200_000),
        filter: IdFilter::All,
    }
}

pub open spec fn dashscope_source(url: Seq<char>) -> SourceView {
    SourceView {
        name: "dashscope"@,
        url,
        key: "DASHSCOPE_API_KEY"@,
        prefix: "dashscope/"@,
        default_context: Some(32_768),
        filter: IdFilter::DashScope,
    }
}

pub open spec fn qwen_cloud_source(url: Seq<char>) -> SourceView {
    SourceView {
        name: "qwen-cloud"@,
        url,
        key: "QWENCLOUD_API_KEY"@,
        prefix: "qc/"@,
        default_context: Some(32_768),
        filter: IdFilter::DashScope,
    }
}

/// All providers dealt with, one after the other.
pub open spec fn seeded(providers: catalogue::Providers, r: Replies, today: Seq<char>) -> SeedView {
    let mirror = mirrored(r.openrouter);
    let s0 = SeedView { providers, report: Seq::empty() };
    let s1 = openrouter_seeded(s0, r.openrouter, today);
    let s2 = listed_step(s1, anthropic_source(), r.anthropic, mirror, today);
    let s3 = listed_step(s2, openai_source(), r.openai, mirror, today);
    let s4 = gemini_seeded(s3, r.gemini, today);
    let s5 = listed_step(s4, ollama_cloud_source(), r.ollama_cloud, mirror, today);
    let s6 = listed_step(s5, deepseek_source(), r.deepseek, mirror, today);
    let s7 = listed_step(s6, thaillm_source(), r.thaillm, mirror, today);
    let s8 = listed_step(s7, nvidia_source(), r.nvidia, mirror, today);
    let s9 = listed_step(s8, minimax_source(), r.minimax, mirror, today);
    let s10 = listed_step(s9, dashscope_source(r.dashscope_url@), r.dashscope, mirror, today);
    let s11 = listed_step(s10, qwen_cloud_source(r.qwen_cloud_url@), r.qwen_cloud, mirror, today);
    agent_sdk_seeded(s11, today)
}

/// Merges what all providers answered into the catalogue, and dates it; gives
/// the report.
pub fn run(cat: &mut Catalogue, replies: Replies, today: &str) -> (r: Vec<String>)
    ensures
        final(cat).providers@ == seeded(old(cat).providers@, replies, today@).providers,
        text::views(r@) == seeded(old(cat).providers@, replies, today@).report,
        final(cat).schema == old(cat).schema,
        final(cat).source@ == "baseline "@ + today@,
        final(cat).fetched_at@ == today@ + "T00:00:00Z"@,
{
    broadcast use text::views_push;

    let mut report: Vec<String> = Vec::new();
    assert(text::views(report@) =~= Seq::<Seq<char>>::empty());
    let rows = match replies.openrouter {
        Ok(rows) => rows,
        Err(e) => {
            let mut line = "  openrouter: ".to_string();
            line.append(failed(e.as_str()).as_str());
            report.push(line);
            Vec::new()
        },
    };
    let mirror = catalogue::mirror(&rows);
    let stats = catalogue::merge_openrouter(cat, rows, today);
    push_provider_stats(&mut report, "openrouter", stats, None);
    seed_listed(
        cat,
        &mut report,
        Source {
            name: "anthropic",
            url: catalogue::ANTHROPIC_URL,
            key: "ANTHROPIC_API_KEY",
            prefix: "",
            default_context: None,
            filter: IdFilter::All,
        },
        replies.anthropic,
        &mirror,
        today,
    );
    seed_listed(
        cat,
        &mut report,
        Source {
            name: "openai",
            url: catalogue::OPENAI_URL,
            key: "OPENAI_API_KEY",
            prefix: "",
            default_context: None,
            filter: IdFilter::OpenAi,
        },
        replies.openai,
        &mirror,
        today,
    );
    seed_gemini(cat, &mut report, replies.gemini, today);
    seed_listed(
        cat,
        &mut report,
        Source {
            name: "ollama-cloud",
            url: catalogue::OLLAMA_CLOUD_URL,
            key: "OLLAMA_CLOUD_API_KEY",
            prefix: "ollama-cloud/",
            default_context: Some(262_144),
            filter: IdFilter::All,
        },
        replies.ollama_cloud,
        &mirror,
        today,
    );
    seed_listed(
        cat,
        &mut report,
        Source {
            name: "deepseek",
            url: catalogue::DEEPSEEK_URL,
            key: "DEEPSEEK_API_KEY",
            prefix: "",
            default_context: Some(131_072),
            filter: IdFilter::All,
        },
        replies.deepseek,
        &mirror,
        today,
    );
    seed_listed(
        cat,
        &mut report,
        Source {
            name: "thaillm",
            url: catalogue::THAILLM_URL,
            key: "THAILLM_API_KEY",
            prefix: "thaillm/",
            default_context: Some(131_072),
            filter: IdFilter::All,
        },
        replies.thaillm,
        &mirror,
        today,
    );
    seed_listed(
        cat,
        &mut report,
        Source {
            name: "nvidia",
            url: catalogue::NVIDIA_URL,
            key: "NVIDIA_API_KEY",
            prefix: "nvidia/",
            default_context: Some(131_072),
            filter: IdFilter::All,
        },
        replies.nvidia,
        &mirror,
        today,
    );
    seed_listed(
        cat,
        &mut report,
        Source {
            name: "minimax",
            url: catalogue::MINIMAX_URL,
            key: "MINIMAX_API_KEY",
            prefix: "minimax/",
            default_context: Some(200_000),
            filter: IdFilter::All,
        },
        replies.minimax,
        &mirror,
        today,
    );
    seed_listed(
        cat,
        &mut report,
        Source {
            name: "dashscope",
            url: replies.dashscope_url.as_str(),
            key: "DASHSCOPE_API_KEY",
            prefix: "dashscope/",
            default_context: Some(32_768),
            filter: IdFilter::DashScope,
        },
        replies.dashscope,
        &mirror,
        today,
    );
    seed_listed(
        cat,
        &mut report,
        Source {
            name: "qwen-cloud",
            url: replies.qwen_cloud_url.as_str(),
            key: "QWENCLOUD_API_KEY",
            prefix: "qc/",
            default_context: Some(32_768),
            filter: IdFilter::DashScope,
        },
        replies.qwen_cloud,
        &mirror,
        today,
    );
    seed_agent_sdk(cat, &mut report, today);
    let mut origin = "baseline ".to_string();
    origin.append(today);
    cat.source = origin;
    let mut fetched = today.to_string();
    fetched.append("T00:00:00Z");
    cat.fetched_at = fetched;
    report
}

/// What is wrong with a catalogue of another schema.
pub fn schema_error(schema: u32, expected: u32) -> (r: Option<String>)
    ensures
        match r {
            Some(m) => schema != expected && m@ == "target has schema "@ + text::decimal_of(
                schema as nat,
            ) + ", expected "@ + text::decimal_of(expected as nat),
            None => schema == expected,
        },
{
    if schema == expected {
        return None;
    }
    let mut m = "target has schema ".to_string();
    m.append(text::decimal(schema as u64).as_str());
    m.append(", expected ");
    m.append(text::decimal(expected as u64).as_str());
    Some(m)
}

/// How many models the catalogue holds.
pub open spec fn row_count(p: catalogue::Providers) -> nat
    decreases p.len(),
{
    if p.len() == 0 {
        0
    } else {
        row_count(p.drop_last()) + p.last().1.models.len()
    }
}

proof fn lemma_row_count_grows(p: catalogue::Providers, i: int)
    requires
        0 <= i <= p.len(),
    ensures
        row_count(p.take(i)) <= row_count(p),
    decreases p.len() - i,
{
    if i < p.len() {
        lemma_row_count_grows(p, i + 1);
        assert(p.take(i + 1).drop_last() == p.take(i));
    } else {
        assert(p.take(i) == p);
    }
}

/// What a run prints in the end.
pub fn summary(target: &str, cat: &Catalogue, report: &Vec<String>) -> (r: String)
    requires
        row_count(cat.providers@) <= u64::MAX,
    ensures
        r@ == "wrote "@ + target@ + " ("@ + text::decimal_of(row_count(cat.providers@))
            + " total rows):\n"@ + text::join_of(text::views(report@), "\n"@),
{
    let ghost p = cat.providers@;
    let mut total: u64 = 0;
    let n = cat.providers.entries.len();
    let mut i: usize = 0;
    while i < n
        invariant
            n == cat.providers.entries@.len(),
            p == cat.providers@,
            row_count(p) <= u64::MAX,
            i <= n,
            total == row_count(p.take(i as int)),
        decreases n - i,
    {
        proof {
            assert(p.take(i + 1).drop_last() == p.take(i as int));
            assert(p.take(i + 1).last() == p[i as int]);
            lemma_row_count_grows(p, i + 1);
        }
        total = total + cat.providers.entries[i].1.models.entries.len() as u64;
        i = i + 1;
    }
    proof {
        assert(p.take(n as int) == p);
    }
    let mut m = "wrote ".to_string();
    m.append(target);
    m.append(" (");
    m.append(text::decimal(total).as_str());
    m.append(" total rows):\n");
    m.append(text::join(report, "\n").as_str());
    m
}

// ---------------------------------------------------------------------------
// What a run keeps
// ---------------------------------------------------------------------------

/// Every provider of `p` is still in `q`, with all its rows.
pub open spec fn keeps_providers(p: catalogue::Providers, q: catalogue::Providers) -> bool {
    forall|name: Seq<char>| #[trigger]
        keyed::lookup(p, name) is Some ==> keyed::lookup(q, name) is Some && catalogue::keeps_rows(
            keyed::lookup(p, name)->0.models,
            keyed::lookup(q, name)->0.models,
        )
}

proof fn lemma_keeps_with(p: catalogue::Providers, name: Seq<char>, pc: catalogue::ProviderView)
    requires
        keyed::lookup(p, name) is Some ==> catalogue::keeps_rows(
            keyed::lookup(p, name)->0.models,
            pc.models,
        ),
    ensures
        keeps_providers(p, keyed::with_entry(p, name, pc)),
{
    let q = keyed::with_entry(p, name, pc);
    assert forall|other: Seq<char>| #[trigger]
        keyed::lookup(p, other) is Some implies keyed::lookup(q, other) is Some
        && catalogue::keeps_rows(
        keyed::lookup(p, other)->0.models,
        keyed::lookup(q, other)->0.models,
    ) by {
        keyed::entry_set_is_found(p, name, pc, other);
    }
}

proof fn lemma_keeps_transitive(
    p: catalogue::Providers,
    q: catalogue::Providers,
    r: catalogue::Providers,
)
    requires
        keeps_providers(p, q),
        keeps_providers(q, r),
    ensures
        keeps_providers(p, r),
{
    assert forall|name: Seq<char>| #[trigger]
        keyed::lookup(p, name) is Some implies keyed::lookup(r, name) is Some
        && catalogue::keeps_rows(
        keyed::lookup(p, name)->0.models,
        keyed::lookup(r, name)->0.models,
    ) by {
        let a = keyed::lookup(p, name)->0.models;
        let b = keyed::lookup(q, name)->0.models;
        let c = keyed::lookup(r, name)->0.models;
        assert forall|id: Seq<char>| #[trigger]
            keyed::lookup(a, id) is Some implies keyed::lookup(c, id) is Some
            && catalogue::says_the_same(keyed::lookup(a, id)->0, keyed::lookup(c, id)->0) by {
            assert(keyed::lookup(b, id) is Some);
        }
    }
}

proof fn lemma_listed_keeps(
    st: SeedView,
    src: SourceView,
    probe: Probe,
    mirror: catalogue::MirrorView,
    today: Seq<char>,
)
    ensures
        keeps_providers(st.providers, listed_step(st, src, probe, mirror, today).providers),
{
    if let Probe::Listed(ids) = probe {
        let kept = ids_of(src.filter, src.prefix, text::views(ids@));
        let pc = with_default_context(
            catalogue::provider_or(st.providers, src.name, catalogue::empty_provider()),
            src.default_context,
        );
        catalogue::discovery_keeps_rows(
            catalogue::Merge { models: pc.models, stats: catalogue::no_stats() },
            kept,
            src.url,
            pc.default_context,
            mirror,
            today,
        );
        lemma_keeps_with(
            st.providers,
            src.name,
            catalogue::discovered_provider(pc, kept, src.url, mirror, today).0,
        );
    }
}

proof fn lemma_openrouter_keeps(
    st: SeedView,
    reply: Result<Vec<OpenRouterModel>, String>,
    today: Seq<char>,
)
    ensures
        keeps_providers(st.providers, openrouter_seeded(st, reply, today).providers),
{
    let rows = match reply {
        Ok(rows) => rows@,
        Err(_) => Seq::empty(),
    };
    let pc = catalogue::provider_or(st.providers, "openrouter"@, catalogue::new_openrouter());
    let m = catalogue::Merge { models: pc.models, stats: catalogue::no_stats() };
    catalogue::openrouter_keeps_rows(m, rows, today);
    lemma_keeps_with(
        st.providers,
        "openrouter"@,
        catalogue::ProviderView {
            models: catalogue::openrouter_merge(m, rows, today).models,
            ..pc
        },
    );
}

proof fn lemma_gemini_keeps(st: SeedView, probe: GeminiProbe, today: Seq<char>)
    ensures
        keeps_providers(st.providers, gemini_seeded(st, probe, today).providers),
{
    if let GeminiProbe::Listed(rows) = probe {
        let kept = chat_rows(rows@);
        let pc = catalogue::provider_or(st.providers, "gemini"@, catalogue::new_gemini());
        let m = catalogue::Merge { models: pc.models, stats: catalogue::no_stats() };
        catalogue::gemini_keeps_rows(m, kept, today);
        lemma_keeps_with(
            st.providers,
            "gemini"@,
            catalogue::ProviderView {
                models: catalogue::gemini_merge(m, kept, today).models,
                ..pc
            },
        );
    }
}

/// Taking over the models of Anthropic loses and rewrites no row of the agent
/// SDK, and leaves a row for each of them.
pub proof fn derivation_keeps_rows(
    m: catalogue::Merge,
    rows: Seq<(Seq<char>, catalogue::EntryView)>,
    today: Seq<char>,
)
    ensures
        ({
            let after = derived_merge(m, rows, today);
            &&& catalogue::keeps_rows(m.models, after.models)
            &&& forall|i: int|
                0 <= i < rows.len() ==> keyed::lookup(
                    after.models,
                    "agent/"@ + (#[trigger] rows[i]).0,
                ) is Some
        }),
    decreases rows.len(),
{
    if rows.len() > 0 {
        let rest = rows.drop_last();
        derivation_keeps_rows(m, rest, today);
        let before = derived_merge(m, rest, today);
        let after = derived_merge(m, rows, today);
        let row = rows.last();
        let id = "agent/"@ + row.0;
        let e = catalogue::EntryView {
            context: row.1.context,
            max_output: None,
            source: Some("derived:"@ + row.0),
            verified_at: Some(today),
            free: None,
            chat: None,
        };
        if keyed::lookup(before.models, id) is None {
            assert forall|other: Seq<char>| #[trigger]
                keyed::lookup(before.models, other) is Some implies keyed::lookup(
                after.models,
                other,
            ) == keyed::lookup(before.models, other) by {
                keyed::entry_set_is_found(before.models, id, e, other);
            }
            keyed::entry_set_is_found(before.models, id, e, id);
        }
        assert forall|i: int| 0 <= i < rows.len() implies keyed::lookup(
            after.models,
            "agent/"@ + (#[trigger] rows[i]).0,
        ) is Some by {
            if i < rest.len() {
                assert(rest[i] == rows[i]);
                assert(keyed::lookup(before.models, "agent/"@ + rest[i].0) is Some);
            }
        }
    }
}

proof fn lemma_agent_sdk_keeps(st: SeedView, today: Seq<char>)
    ensures
        keeps_providers(st.providers, agent_sdk_seeded(st, today).providers),
{
    let rows = catalogue::provider_or(
        st.providers,
        "anthropic"@,
        catalogue::empty_provider(),
    ).models;
    if rows.len() > 0 {
        let pc = with_default_context(
            catalogue::provider_or(st.providers, "agent-sdk"@, catalogue::empty_provider()),
            Some(200_000),
        );
        let m = catalogue::Merge { models: pc.models, stats: catalogue::no_stats() };
        derivation_keeps_rows(m, rows, today);
        lemma_keeps_with(
            st.providers,
            "agent-sdk"@,
            catalogue::ProviderView { models: derived_merge(m, rows, today).models, ..pc },
        );
    }
}

/// A run loses no row of the catalogue and rewrites none: each is still under
/// its provider and its id, and is what it was, but that it may have learned
/// its longest output where it did not know it.
pub proof fn run_keeps_rows(providers: catalogue::Providers, r: Replies, today: Seq<char>)
    ensures
        keeps_providers(providers, seeded(providers, r, today).providers),
{
    let mirror = mirrored(r.openrouter);
    let s0 = SeedView { providers, report: Seq::empty() };
    let s1 = openrouter_seeded(s0, r.openrouter, today);
    lemma_openrouter_keeps(s0, r.openrouter, today);
    let s2 = listed_step(s1, anthropic_source(), r.anthropic, mirror, today);
    lemma_listed_keeps(s1, anthropic_source(), r.anthropic, mirror, today);
    lemma_keeps_transitive(providers, s1.providers, s2.providers);
    let s3 = listed_step(s2, openai_source(), r.openai, mirror, today);
    lemma_listed_keeps(s2, openai_source(), r.openai, mirror, today);
    lemma_keeps_transitive(providers, s2.providers, s3.providers);
    let s4 = gemini_seeded(s3, r.gemini, today);
    lemma_gemini_keeps(s3, r.gemini, today);
    lemma_keeps_transitive(providers, s3.providers, s4.providers);
    let s5 = listed_step(s4, ollama_cloud_source(), r.ollama_cloud, mirror, today);
    lemma_listed_keeps(s4, ollama_cloud_source(), r.ollama_cloud, mirror, today);
    lemma_keeps_transitive(providers, s4.providers, s5.providers);
    let s6 = listed_step(s5, deepseek_source(), r.deepseek, mirror, today);
    lemma_listed_keeps(s5, deepseek_source(), r.deepseek, mirror, today);
    lemma_keeps_transitive(providers, s5.providers, s6.providers);
    let s7 = listed_step(s6, thaillm_source(), r.thaillm, mirror, today);
    lemma_listed_keeps(s6, thaillm_source(), r.thaillm, mirror, today);
    lemma_keeps_transitive(providers, s6.providers, s7.providers);
    let s8 = listed_step(s7, nvidia_source(), r.nvidia, mirror, today);
    lemma_listed_keeps(s7, nvidia_source(), r.nvidia, mirror, today);
    lemma_keeps_transitive(providers, s7.providers, s8.providers);
    let s9 = listed_step(s8, minimax_source(), r.minimax, mirror, today);
    lemma_listed_keeps(s8, minimax_source(), r.minimax, mirror, today);
    lemma_keeps_transitive(providers, s8.providers, s9.providers);
    let s10 = listed_step(s9, dashscope_source(r.dashscope_url@), r.dashscope, mirror, today);
    lemma_listed_keeps(s9, dashscope_source(r.dashscope_url@), r.dashscope, mirror, today);
    lemma_keeps_transitive(providers, s9.providers, s10.providers);
    let s11 = listed_step(s10, qwen_cloud_source(r.qwen_cloud_url@), r.qwen_cloud, mirror, today);
    lemma_listed_keeps(s10, qwen_cloud_source(r.qwen_cloud_url@), r.qwen_cloud, mirror, today);
    lemma_keeps_transitive(providers, s10.providers, s11.providers);
    lemma_agent_sdk_keeps(s11, today);
    lemma_keeps_transitive(providers, s11.providers, agent_sdk_seeded(s11, today).providers);
}

proof fn lemma_listed_leaves(
    st: SeedView,
    src: SourceView,
    probe: Probe,
    mirror: catalogue::MirrorView,
    today: Seq<char>,
)
    requires
        src.name != "openrouter"@,
    ensures
        keyed::lookup(listed_step(st, src, probe, mirror, today).providers, "openrouter"@)
            == keyed::lookup(st.providers, "openrouter"@),
{
    if let Probe::Listed(ids) = probe {
        let kept = ids_of(src.filter, src.prefix, text::views(ids@));
        let pc = with_default_context(
            catalogue::provider_or(st.providers, src.name, catalogue::empty_provider()),
            src.default_context,
        );
        keyed::entry_set_is_found(
            st.providers,
            src.name,
            catalogue::discovered_provider(pc, kept, src.url, mirror, today).0,
            "openrouter"@,
        );
    }
}

proof fn lemma_gemini_leaves(st: SeedView, probe: GeminiProbe, today: Seq<char>)
    ensures
        keyed::lookup(gemini_seeded(st, probe, today).providers, "openrouter"@) == keyed::lookup(
            st.providers,
            "openrouter"@,
        ),
{
    reveal_strlit("openrouter");
    reveal_strlit("gemini");
    if let GeminiProbe::Listed(rows) = probe {
        let kept = chat_rows(rows@);
        let pc = catalogue::provider_or(st.providers, "gemini"@, catalogue::new_gemini());
        let m = catalogue::Merge { models: pc.models, stats: catalogue::no_stats() };
        keyed::entry_set_is_found(
            st.providers,
            "gemini"@,
            catalogue::ProviderView {
                models: catalogue::gemini_merge(m, kept, today).models,
                ..pc
            },
            "openrouter"@,
        );
    }
}

proof fn lemma_agent_sdk_leaves(st: SeedView, today: Seq<char>)
    ensures
        keyed::lookup(agent_sdk_seeded(st, today).providers, "openrouter"@) == keyed::lookup(
            st.providers,
            "openrouter"@,
        ),
{
    reveal_strlit("openrouter");
    reveal_strlit("agent-sdk");
    let rows = catalogue::provider_or(
        st.providers,
        "anthropic"@,
        catalogue::empty_provider(),
    ).models;
    if rows.len() > 0 {
        let pc = with_default_context(
            catalogue::provider_or(st.providers, "agent-sdk"@, catalogue::empty_provider()),
            Some(200_000),
        );
        let m = catalogue::Merge { models: pc.models, stats: catalogue::no_stats() };
        keyed::entry_set_is_found(
            st.providers,
            "agent-sdk"@,
            catalogue::ProviderView { models: derived_merge(m, rows, today).models, ..pc },
            "openrouter"@,
        );
    }
}

/// A run leaves every row of OpenRouter whole: only ids that are new to it are
/// entered there.
pub proof fn run_leaves_openrouter_rows(
    providers: catalogue::Providers,
    r: Replies,
    today: Seq<char>,
)
    ensures
        ({
            let before = catalogue::provider_or(
                providers,
                "openrouter"@,
                catalogue::new_openrouter(),
            );
            keyed::lookup(seeded(providers, r, today).providers, "openrouter"@) matches Some(after)
                && catalogue::same_rows(before.models, after.models)
        }),
{
    reveal_strlit("openrouter");
    reveal_strlit("anthropic");
    reveal_strlit("openai");
    reveal_strlit("ollama-cloud");
    reveal_strlit("deepseek");
    reveal_strlit("thaillm");
    reveal_strlit("nvidia");
    reveal_strlit("minimax");
    reveal_strlit("dashscope");
    reveal_strlit("qwen-cloud");
    assert("qwen-cloud"@[0] != "openrouter"@[0]);
    let mirror = mirrored(r.openrouter);
    let s0 = SeedView { providers, report: Seq::empty() };
    let s1 = openrouter_seeded(s0, r.openrouter, today);
    let rows = match r.openrouter {
        Ok(rows) => rows@,
        Err(_) => Seq::empty(),
    };
    let pc = catalogue::provider_or(providers, "openrouter"@, catalogue::new_openrouter());
    let m = catalogue::Merge { models: pc.models, stats: catalogue::no_stats() };
    let after = catalogue::ProviderView {
        models: catalogue::openrouter_merge(m, rows, today).models,
        ..pc
    };
    catalogue::openrouter_keeps_rows(m, rows, today);
    keyed::entry_set_is_found(providers, "openrouter"@, after, "openrouter"@);
    let s2 = listed_step(s1, anthropic_source(), r.anthropic, mirror, today);
    lemma_listed_leaves(s1, anthropic_source(), r.anthropic, mirror, today);
    let s3 = listed_step(s2, openai_source(), r.openai, mirror, today);
    lemma_listed_leaves(s2, openai_source(), r.openai, mirror, today);
    let s4 = gemini_seeded(s3, r.gemini, today);
    lemma_gemini_leaves(s3, r.gemini, today);
    let s5 = listed_step(s4, ollama_cloud_source(), r.ollama_cloud, mirror, today);
    lemma_listed_leaves(s4, ollama_cloud_source(), r.ollama_cloud, mirror, today);
    let s6 = listed_step(s5, deepseek_source(), r.deepseek, mirror, today);
    lemma_listed_leaves(s5, deepseek_source(), r.deepseek, mirror, today);
    let s7 = listed_step(s6, thaillm_source(), r.thaillm, mirror, today);
    lemma_listed_leaves(s6, thaillm_source(), r.thaillm, mirror, today);
    let s8 = listed_step(s7, nvidia_source(), r.nvidia, mirror, today);
    lemma_listed_leaves(s7, nvidia_source(), r.nvidia, mirror, today);
    let s9 = listed_step(s8, minimax_source(), r.minimax, mirror, today);
    lemma_listed_leaves(s8, minimax_source(), r.minimax, mirror, today);
    let s10 = listed_step(s9, dashscope_source(r.dashscope_url@), r.dashscope, mirror, today);
    lemma_listed_leaves(s9, dashscope_source(r.dashscope_url@), r.dashscope, mirror, today);
    let s11 = listed_step(s10, qwen_cloud_source(r.qwen_cloud_url@), r.qwen_cloud, mirror, today);
    lemma_listed_leaves(s10, qwen_cloud_source(r.qwen_cloud_url@), r.qwen_cloud, mirror, today);
    lemma_agent_sdk_leaves(s11, today);
}

// ---------------------------------------------------------------------------
// What a run enters
// ---------------------------------------------------------------------------

/// The ids that count come through with the prefix, and no other does.
pub proof fn ids_that_count_are_kept(
    filter: IdFilter,
    prefix: Seq<char>,
    ids: Seq<Seq<char>>,
    i: int,
)
    requires
        0 <= i < ids.len(),
    ensures
        counts(filter, ids[i]) ==> ids_of(filter, prefix, ids).contains(prefix + ids[i]),
        ids_of(filter, prefix, ids).len() <= ids.len(),
        filter == IdFilter::All ==> counts(filter, ids[i]) && ids_of(filter, prefix, ids).len()
            == ids.len(),
    decreases ids.len(),
{
    let t = ids.drop_last();
    let last = ids[ids.len() - 1];
    let before = ids_of(filter, prefix, t);
    if t.len() > 0 {
        ids_that_count_are_kept(
            filter,
            prefix,
            t,
            if i < t.len() {
                i
            } else {
                0
            },
        );
    }
    keyed::lemma_push_contains(before, prefix + last, prefix + ids[i]);
}

/// Every id of a reply that counts is in the catalogue, under its provider and
/// with its prefix; where `known` is given, those whose context is known there.
pub open spec fn enters(
    q: catalogue::Providers,
    name: Seq<char>,
    prefix: Seq<char>,
    filter: IdFilter,
    probe: Probe,
    known: Option<Seq<(Seq<char>, u32)>>,
) -> bool {
    probe matches Probe::Listed(ids) ==> forall|i: int|
        0 <= i < ids@.len() && counts(filter, (#[trigger] ids@[i])@) && (known matches Some(k)
            ==> keyed::lookup(k, catalogue::bare_of(prefix + ids@[i]@)) is Some) ==> holds_row(
            q,
            name,
            prefix + ids@[i]@,
        )
}

/// The catalogue has a row for a model of a provider.
pub open spec fn holds_row(q: catalogue::Providers, name: Seq<char>, id: Seq<char>) -> bool {
    keyed::lookup(q, name) matches Some(p) && keyed::lookup(p.models, id) is Some
}

/// The contexts that an id is looked up in, where the provider has none of its
/// own for its models.
spec fn asked_of(src: SourceView, mirror: catalogue::MirrorView) -> Option<
    Seq<(Seq<char>, u32)>,
> {
    if src.default_context is Some {
        None
    } else {
        Some(mirror.contexts)
    }
}

proof fn lemma_listed_enters(
    st: SeedView,
    src: SourceView,
    probe: Probe,
    mirror: catalogue::MirrorView,
    today: Seq<char>,
)
    ensures
        enters(
            listed_step(st, src, probe, mirror, today).providers,
            src.name,
            src.prefix,
            src.filter,
            probe,
            asked_of(src, mirror),
        ),
{
    if let Probe::Listed(ids) = probe {
        let all = text::views(ids@);
        let kept = ids_of(src.filter, src.prefix, all);
        let pc = with_default_context(
            catalogue::provider_or(st.providers, src.name, catalogue::empty_provider()),
            src.default_context,
        );
        let m = catalogue::Merge { models: pc.models, stats: catalogue::no_stats() };
        catalogue::discovery_keeps_rows(m, kept, src.url, pc.default_context, mirror, today);
        let after = catalogue::discovered_provider(pc, kept, src.url, mirror, today).0;
        keyed::entry_set_is_found(st.providers, src.name, after, src.name);
        let q = listed_step(st, src, probe, mirror, today).providers;
        assert forall|i: int|
            0 <= i < ids@.len() && counts(src.filter, (#[trigger] ids@[i])@) && (asked_of(
                src,
                mirror,
            ) matches Some(k) ==> keyed::lookup(k, catalogue::bare_of(src.prefix + ids@[i]@))
                is Some) implies holds_row(q, src.name, src.prefix + ids@[i]@) by {
            let id = src.prefix + ids@[i]@;
            assert(all[i] == ids@[i]@);
            ids_that_count_are_kept(src.filter, src.prefix, all, i);
            let k = choose|k: int| 0 <= k < kept.len() && kept[k] == id;
            assert(catalogue::found_context(kept[k], src.url, pc.default_context, mirror.contexts)
                is Some);
        }
    }
}

proof fn lemma_entered_stays(
    p: catalogue::Providers,
    q: catalogue::Providers,
    src: SourceView,
    probe: Probe,
    mirror: catalogue::MirrorView,
)
    requires
        keeps_providers(p, q),
        enters(p, src.name, src.prefix, src.filter, probe, asked_of(src, mirror)),
    ensures
        enters(q, src.name, src.prefix, src.filter, probe, asked_of(src, mirror)),
{
    if let Probe::Listed(ids) = probe {
        assert forall|i: int|
            0 <= i < ids@.len() && counts(src.filter, (#[trigger] ids@[i])@) && (asked_of(
                src,
                mirror,
            ) matches Some(k) ==> keyed::lookup(k, catalogue::bare_of(src.prefix + ids@[i]@))
                is Some) implies holds_row(q, src.name, src.prefix + ids@[i]@) by {
            assert(holds_row(p, src.name, src.prefix + ids@[i]@));
            assert(keyed::lookup(p, src.name) is Some);
        }
    }
}

/// After a run every model that a provider lists, and that counts, is in the
/// catalogue under that provider, with the provider's prefix before its id. Of
/// Anthropic and OpenAI, which tell no context, this holds where OpenRouter
/// knows one.
pub proof fn run_enters_what_is_listed(
    providers: catalogue::Providers,
    r: Replies,
    today: Seq<char>,
)
    ensures
        ({
            let q = seeded(providers, r, today).providers;
            let known = mirrored(r.openrouter).contexts;
            &&& enters(q, "anthropic"@, ""@, IdFilter::All, r.anthropic, Some(known))
            &&& enters(q, "openai"@, ""@, IdFilter::OpenAi, r.openai, Some(known))
            &&& enters(q, "ollama-cloud"@, "ollama-cloud/"@, IdFilter::All, r.ollama_cloud, None)
            &&& enters(q, "deepseek"@, ""@, IdFilter::All, r.deepseek, None)
            &&& enters(q, "thaillm"@, "thaillm/"@, IdFilter::All, r.thaillm, None)
            &&& enters(q, "nvidia"@, "nvidia/"@, IdFilter::All, r.nvidia, None)
            &&& enters(q, "minimax"@, "minimax/"@, IdFilter::All, r.minimax, None)
            &&& enters(q, "dashscope"@, "dashscope/"@, IdFilter::DashScope, r.dashscope, None)
            &&& enters(q, "qwen-cloud"@, "qc/"@, IdFilter::DashScope, r.qwen_cloud, None)
        }),
{
    reveal_strlit("");
    let mirror = mirrored(r.openrouter);
    let s0 = SeedView { providers, report: Seq::empty() };
    let s1 = openrouter_seeded(s0, r.openrouter, today);
    let s2 = listed_step(s1, anthropic_source(), r.anthropic, mirror, today);
    let s3 = listed_step(s2, openai_source(), r.openai, mirror, today);
    let s4 = gemini_seeded(s3, r.gemini, today);
    let s5 = listed_step(s4, ollama_cloud_source(), r.ollama_cloud, mirror, today);
    let s6 = listed_step(s5, deepseek_source(), r.deepseek, mirror, today);
    let s7 = listed_step(s6, thaillm_source(), r.thaillm, mirror, today);
    let s8 = listed_step(s7, nvidia_source(), r.nvidia, mirror, today);
    let s9 = listed_step(s8, minimax_source(), r.minimax, mirror, today);
    let s10 = listed_step(s9, dashscope_source(r.dashscope_url@), r.dashscope, mirror, today);
    let s11 = listed_step(s10, qwen_cloud_source(r.qwen_cloud_url@), r.qwen_cloud, mirror, today);
    let end = agent_sdk_seeded(s11, today);
    lemma_listed_keeps(s1, anthropic_source(), r.anthropic, mirror, today);
    lemma_listed_keeps(s2, openai_source(), r.openai, mirror, today);
    lemma_listed_keeps(s4, ollama_cloud_source(), r.ollama_cloud, mirror, today);
    lemma_listed_keeps(s5, deepseek_source(), r.deepseek, mirror, today);
    lemma_listed_keeps(s6, thaillm_source(), r.thaillm, mirror, today);
    lemma_listed_keeps(s7, nvidia_source(), r.nvidia, mirror, today);
    lemma_listed_keeps(s8, minimax_source(), r.minimax, mirror, today);
    lemma_listed_keeps(s9, dashscope_source(r.dashscope_url@), r.dashscope, mirror, today);
    lemma_listed_keeps(s10, qwen_cloud_source(r.qwen_cloud_url@), r.qwen_cloud, mirror, today);
    lemma_gemini_keeps(s3, r.gemini, today);
    lemma_agent_sdk_keeps(s11, today);
    lemma_keeps_transitive(s10.providers, s11.providers, end.providers);
    lemma_keeps_transitive(s9.providers, s10.providers, end.providers);
    lemma_keeps_transitive(s8.providers, s9.providers, end.providers);
    lemma_keeps_transitive(s7.providers, s8.providers, end.providers);
    lemma_keeps_transitive(s6.providers, s7.providers, end.providers);
    lemma_keeps_transitive(s5.providers, s6.providers, end.providers);
    lemma_keeps_transitive(s4.providers, s5.providers, end.providers);
    lemma_keeps_transitive(s3.providers, s4.providers, end.providers);
    lemma_keeps_transitive(s2.providers, s3.providers, end.providers);
    lemma_listed_enters(s1, anthropic_source(), r.anthropic, mirror, today);
    lemma_entered_stays(s2.providers, end.providers, anthropic_source(), r.anthropic, mirror);
    lemma_listed_enters(s2, openai_source(), r.openai, mirror, today);
    lemma_entered_stays(s3.providers, end.providers, openai_source(), r.openai, mirror);
    lemma_listed_enters(s4, ollama_cloud_source(), r.ollama_cloud, mirror, today);
    lemma_entered_stays(s5.providers, end.providers, ollama_cloud_source(), r.ollama_cloud, mirror);
    lemma_listed_enters(s5, deepseek_source(), r.deepseek, mirror, today);
    lemma_entered_stays(s6.providers, end.providers, deepseek_source(), r.deepseek, mirror);
    lemma_listed_enters(s6, thaillm_source(), r.thaillm, mirror, today);
    lemma_entered_stays(s7.providers, end.providers, thaillm_source(), r.thaillm, mirror);
    lemma_listed_enters(s7, nvidia_source(), r.nvidia, mirror, today);
    lemma_entered_stays(s8.providers, end.providers, nvidia_source(), r.nvidia, mirror);
    lemma_listed_enters(s8, minimax_source(), r.minimax, mirror, today);
    lemma_entered_stays(s9.providers, end.providers, minimax_source(), r.minimax, mirror);
    lemma_listed_enters(s9, dashscope_source(r.dashscope_url@), r.dashscope, mirror, today);
    lemma_entered_stays(s10.providers, end.providers, dashscope_source(r.dashscope_url@), r.dashscope, mirror);
    lemma_listed_enters(s10, qwen_cloud_source(r.qwen_cloud_url@), r.qwen_cloud, mirror, today);
    lemma_entered_stays(s11.providers, end.providers, qwen_cloud_source(r.qwen_cloud_url@), r.qwen_cloud, mirror);
}

/// After a run every model of Gemini that chats and tells its limit is in the
/// catalogue, and so is every model of OpenRouter that tells its context.
pub proof fn run_enters_what_tells_its_context(
    providers: catalogue::Providers,
    r: Replies,
    today: Seq<char>,
    i: int,
)
    ensures
        r.gemini matches GeminiProbe::Listed(rows) ==> (0 <= i < rows@.len()
            && rows@[i].input_token_limit is Some && catalogue::gemini_chat(
            catalogue::gemini_id(rows@[i].name@),
        ) ==> holds_row(
            seeded(providers, r, today).providers,
            "gemini"@,
            catalogue::gemini_id(rows@[i].name@),
        )),
        r.openrouter matches Ok(rows) ==> (0 <= i < rows@.len() && rows@[i].context_length is Some
            ==> holds_row(seeded(providers, r, today).providers, "openrouter"@, rows@[i].id@)),
{
    let mirror = mirrored(r.openrouter);
    let s0 = SeedView { providers, report: Seq::empty() };
    let s1 = openrouter_seeded(s0, r.openrouter, today);
    let s2 = listed_step(s1, anthropic_source(), r.anthropic, mirror, today);
    let s3 = listed_step(s2, openai_source(), r.openai, mirror, today);
    let s4 = gemini_seeded(s3, r.gemini, today);
    let s5 = listed_step(s4, ollama_cloud_source(), r.ollama_cloud, mirror, today);
    let s6 = listed_step(s5, deepseek_source(), r.deepseek, mirror, today);
    let s7 = listed_step(s6, thaillm_source(), r.thaillm, mirror, today);
    let s8 = listed_step(s7, nvidia_source(), r.nvidia, mirror, today);
    let s9 = listed_step(s8, minimax_source(), r.minimax, mirror, today);
    let s10 = listed_step(s9, dashscope_source(r.dashscope_url@), r.dashscope, mirror, today);
    let s11 = listed_step(s10, qwen_cloud_source(r.qwen_cloud_url@), r.qwen_cloud, mirror, today);
    let end = agent_sdk_seeded(s11, today);
    lemma_listed_keeps(s1, anthropic_source(), r.anthropic, mirror, today);
    lemma_listed_keeps(s2, openai_source(), r.openai, mirror, today);
    lemma_listed_keeps(s4, ollama_cloud_source(), r.ollama_cloud, mirror, today);
    lemma_listed_keeps(s5, deepseek_source(), r.deepseek, mirror, today);
    lemma_listed_keeps(s6, thaillm_source(), r.thaillm, mirror, today);
    lemma_listed_keeps(s7, nvidia_source(), r.nvidia, mirror, today);
    lemma_listed_keeps(s8, minimax_source(), r.minimax, mirror, today);
    lemma_listed_keeps(s9, dashscope_source(r.dashscope_url@), r.dashscope, mirror, today);
    lemma_listed_keeps(s10, qwen_cloud_source(r.qwen_cloud_url@), r.qwen_cloud, mirror, today);
    lemma_gemini_keeps(s3, r.gemini, today);
    lemma_agent_sdk_keeps(s11, today);
    lemma_keeps_transitive(s10.providers, s11.providers, end.providers);
    lemma_keeps_transitive(s9.providers, s10.providers, end.providers);
    lemma_keeps_transitive(s8.providers, s9.providers, end.providers);
    lemma_keeps_transitive(s7.providers, s8.providers, end.providers);
    lemma_keeps_transitive(s6.providers, s7.providers, end.providers);
    lemma_keeps_transitive(s5.providers, s6.providers, end.providers);
    lemma_keeps_transitive(s4.providers, s5.providers, end.providers);
    lemma_keeps_transitive(s3.providers, s4.providers, end.providers);
    lemma_keeps_transitive(s2.providers, s3.providers, end.providers);
    if let GeminiProbe::Listed(rows) = r.gemini {
        if 0 <= i < rows@.len() && rows@[i].input_token_limit is Some && catalogue::gemini_chat(
            catalogue::gemini_id(rows@[i].name@),
        ) {
            let kept = chat_rows(rows@);
            let pc = catalogue::provider_or(s3.providers, "gemini"@, catalogue::new_gemini());
            let m = catalogue::Merge { models: pc.models, stats: catalogue::no_stats() };
            let k = lemma_chat_row(rows@, i);
            lemma_gemini_row_is_there(m, kept, today, k);
            keyed::entry_set_is_found(
                s3.providers,
                "gemini"@,
                catalogue::ProviderView {
                    models: catalogue::gemini_merge(m, kept, today).models,
                    ..pc
                },
                "gemini"@,
            );
            assert(keyed::lookup(s4.providers, "gemini"@) is Some);
        }
    }
    if let Ok(rows) = r.openrouter {
        if 0 <= i < rows@.len() && rows@[i].context_length is Some {
            let pc = catalogue::provider_or(
                providers,
                "openrouter"@,
                catalogue::new_openrouter(),
            );
            let m = catalogue::Merge { models: pc.models, stats: catalogue::no_stats() };
            lemma_openrouter_row_is_there(m, rows@, today, i);
            keyed::entry_set_is_found(
                providers,
                "openrouter"@,
                catalogue::ProviderView {
                    models: catalogue::openrouter_merge(m, rows@, today).models,
                    ..pc
                },
                "openrouter"@,
            );
            assert(keyed::lookup(s1.providers, "openrouter"@) is Some);
        }
    }
}

proof fn lemma_chat_row(rows: Seq<GeminiModel>, i: int) -> (k: int)
    requires
        0 <= i < rows.len(),
        catalogue::gemini_chat(catalogue::gemini_id(rows[i].name@)),
    ensures
        0 <= k < chat_rows(rows).len(),
        chat_rows(rows)[k] == rows[i],
    decreases rows.len(),
{
    if i == rows.len() - 1 {
        chat_rows(rows).len() - 1
    } else {
        lemma_chat_row(rows.drop_last(), i)
    }
}

proof fn lemma_gemini_row_is_there(
    m: catalogue::Merge,
    rows: Seq<GeminiModel>,
    today: Seq<char>,
    i: int,
)
    requires
        0 <= i < rows.len(),
        rows[i].input_token_limit is Some,
    ensures
        keyed::lookup(
            catalogue::gemini_merge(m, rows, today).models,
            catalogue::gemini_id(rows[i].name@),
        ) is Some,
    decreases rows.len(),
{
    let t = rows.drop_last();
    let last = rows[rows.len() - 1];
    let before = catalogue::gemini_merge(m, t, today);
    if i < t.len() {
        lemma_gemini_row_is_there(m, t, today, i);
    }
    keyed::entry_set_is_found(
        before.models,
        catalogue::gemini_id(last.name@),
        catalogue::EntryView {
            context: last.input_token_limit,
            max_output: last.output_token_limit,
            source: Some(catalogue::GEMINI_URL@),
            verified_at: Some(today),
            free: None,
            chat: None,
        },
        catalogue::gemini_id(rows[i].name@),
    );
}

proof fn lemma_openrouter_row_is_there(
    m: catalogue::Merge,
    rows: Seq<OpenRouterModel>,
    today: Seq<char>,
    i: int,
)
    requires
        0 <= i < rows.len(),
        rows[i].context_length is Some,
    ensures
        keyed::lookup(catalogue::openrouter_merge(m, rows, today).models, rows[i].id@) is Some,
    decreases rows.len(),
{
    let t = rows.drop_last();
    let last = rows[rows.len() - 1];
    let before = catalogue::openrouter_merge(m, t, today);
    if i < t.len() {
        lemma_openrouter_row_is_there(m, t, today, i);
    }
    keyed::entry_set_is_found(
        before.models,
        last.id@,
        catalogue::EntryView {
            context: last.context_length,
            max_output: match last.top_provider {
                Some(p) => p.max_completion_tokens,
                None => None,
            },
            source: Some(catalogue::OPENROUTER_URL@),
            verified_at: Some(today),
            free: Some(last.free()),
            chat: last.chat(),
        },
        rows[i].id@,
    );
}

/// After a run the agent SDK has every model of Anthropic, under a prefix of
/// its own.
pub proof fn run_hands_anthropic_on(
    providers: catalogue::Providers,
    r: Replies,
    today: Seq<char>,
    i: int,
)
    ensures
        ({
            let q = seeded(providers, r, today).providers;
            keyed::lookup(q, "anthropic"@) matches Some(a) ==> (0 <= i < a.models.len()
                ==> holds_row(q, "agent-sdk"@, "agent/"@ + a.models[i].0))
        }),
{
    reveal_strlit("anthropic");
    reveal_strlit("agent-sdk");
    assert("anthropic"@[1] != "agent-sdk"@[1]);
    let mirror = mirrored(r.openrouter);
    let s0 = SeedView { providers, report: Seq::empty() };
    let s1 = openrouter_seeded(s0, r.openrouter, today);
    let s2 = listed_step(s1, anthropic_source(), r.anthropic, mirror, today);
    let s3 = listed_step(s2, openai_source(), r.openai, mirror, today);
    let s4 = gemini_seeded(s3, r.gemini, today);
    let s5 = listed_step(s4, ollama_cloud_source(), r.ollama_cloud, mirror, today);
    let s6 = listed_step(s5, deepseek_source(), r.deepseek, mirror, today);
    let s7 = listed_step(s6, thaillm_source(), r.thaillm, mirror, today);
    let s8 = listed_step(s7, nvidia_source(), r.nvidia, mirror, today);
    let s9 = listed_step(s8, minimax_source(), r.minimax, mirror, today);
    let s10 = listed_step(s9, dashscope_source(r.dashscope_url@), r.dashscope, mirror, today);
    let s11 = listed_step(s10, qwen_cloud_source(r.qwen_cloud_url@), r.qwen_cloud, mirror, today);
    let end = agent_sdk_seeded(s11, today);
    let rows = catalogue::provider_or(
        s11.providers,
        "anthropic"@,
        catalogue::empty_provider(),
    ).models;
    if rows.len() > 0 {
        let pc = with_default_context(
            catalogue::provider_or(s11.providers, "agent-sdk"@, catalogue::empty_provider()),
            Some(200_000),
        );
        let m = catalogue::Merge { models: pc.models, stats: catalogue::no_stats() };
        derivation_keeps_rows(m, rows, today);
        let after = catalogue::ProviderView {
            models: derived_merge(m, rows, today).models,
            ..pc
        };
        keyed::entry_set_is_found(s11.providers, "agent-sdk"@, after, "agent-sdk"@);
        keyed::entry_set_is_found(s11.providers, "agent-sdk"@, after, "anthropic"@);
        if let Some(a) = keyed::lookup(end.providers, "anthropic"@) {
            if 0 <= i < a.models.len() {
                assert(rows[i] == a.models[i]);
            }
        }
    }
}

/// A list that was moved is asked for below its base, whether or not the base
/// ends in a slash; one that was not stays where it is.
pub proof fn moved_lists_stand_below_their_base(base: Seq<char>, default: Seq<char>)
    ensures
        models_url_of(Some(base + "/"@), default) == models_url_of(Some(base), default),
        base.len() > 0 && base.last() != '/' ==> models_url_of(Some(base), default) == base
            + "/models"@,
        models_url_of(None, default) == default,
{
    reveal_strlit("/");
    let b = base + "/"@;
    assert(b.drop_last() =~= base);
    assert(b.last() == '/');
}

/// The report on a provider has a line for each new model, in order, up to the
/// number that is listed; where there are more, one line says so.
pub proof fn reports_list_the_new_models(
    provider: Seq<char>,
    stats: catalogue::StatsView,
    suffix: Option<Seq<char>>,
    i: int,
)
    ensures
        stats.added.len() <= catalogue::MAX_LIST_IDS ==> stats_lines(provider, stats, suffix).len()
            == 1 + stats.added.len(),
        stats.added.len() > catalogue::MAX_LIST_IDS ==> stats_lines(provider, stats, suffix).len()
            == 2 + catalogue::MAX_LIST_IDS,
        0 <= i < stats.added.len() && i < catalogue::MAX_LIST_IDS ==> text::has_suffix(
            stats_lines(provider, stats, suffix)[i + 1],
            text::sort_of(stats.added)[i],
        ),
        text::contains_text(
            stats_lines(provider, stats, suffix)[0],
            " +"@ + text::decimal_of(stats.added.len()) + " new, "@ + text::decimal_of(
                stats.unchanged as nat,
            ) + " unchanged"@,
        ),
{
    let lines = stats_lines(provider, stats, suffix);
    if 0 <= i < stats.added.len() && i < catalogue::MAX_LIST_IDS {
        let x = text::sort_of(stats.added)[i];
        let dot = "                 · "@;
        assert(lines[i + 1] == dot + x);
        assert((dot + x).skip((dot + x).len() - x.len()) =~= x);
    }
    let head = "  "@ + text::pad_right_of(provider + ":"@, 12);
    let words = " +"@ + text::decimal_of(stats.added.len()) + " new, "@ + text::decimal_of(
        stats.unchanged as nat,
    ) + " unchanged"@;
    let line = lines[0];
    assert(line == stats_header(provider, stats, suffix));
    let n = head.len() as int;
    assert(line.subrange(n, n + words.len()) =~= words);
    assert(text::occurs_at(line, words, n));
}

/// Of a provider that was not asked, for want of a key, or that did not answer,
/// one line says so and why, and its models stay as they are.
pub proof fn silent_providers_are_noted(
    st: SeedView,
    src: SourceView,
    probe: Probe,
    mirror: catalogue::MirrorView,
    today: Seq<char>,
)
    requires
        !(probe is Listed),
    ensures
        ({
            let r = listed_step(st, src, probe, mirror, today);
            &&& r.providers == st.providers
            &&& r.report.len() == st.report.len() + 1
            &&& r.report.drop_last() == st.report
            &&& text::contains_text(r.report.last(), src.name)
            &&& probe is NoKey ==> text::contains_text(r.report.last(), src.key)
            &&& probe matches Probe::Failed(e) ==> text::contains_text(r.report.last(), e@)
        }),
{
    let r = listed_step(st, src, probe, mirror, today);
    let line = r.report.last();
    assert(r.report.drop_last() =~= st.report);
    text::padding_adds_space_only(src.name + ":"@, 12);
    let cell = text::pad_right_of(src.name + ":"@, 12);
    let head = "  "@ + cell + " "@;
    let n = "  "@.len() as int;
    assert((src.name + ":"@) =~= cell.take((src.name + ":"@).len() as int));
    assert(line.subrange(n, n + src.name.len()) =~= src.name) by {
        assert forall|i: int| 0 <= i < src.name.len() implies line[n + i] == src.name[i] by {
            assert(cell[i] == cell.take((src.name + ":"@).len() as int)[i]);
        }
    }
    assert(text::occurs_at(line, src.name, n));
    match probe {
        Probe::NoKey => {
            let k = (head.len() + "skipped (no "@.len()) as int;
            assert(line.subrange(k, k + src.key.len()) =~= src.key);
            assert(text::occurs_at(line, src.key, k));
        },
        Probe::Failed(e) => {
            let k = (head.len() + "FAILED ("@.len()) as int;
            assert(line.subrange(k, k + e@.len()) =~= e@);
            assert(text::occurs_at(line, e@, k));
        },
        _ => {},
    }
}

} // verus!
