//! The catalogue of models: which ids belong in it, and how what the providers
//! list is merged into it.

use vstd::prelude::*;

use crate::keyed::{self, Keyed};
use crate::text;

verus! {

pub const OPENROUTER_URL: &'static str = "https://openrouter.ai/api/v1/models";

pub const ANTHROPIC_URL: &'static str = "https://api.anthropic.com/v1/models";

pub const OPENAI_URL: &'static str = "https://api.openai.com/v1/models";

pub const GEMINI_URL: &'static str = "https://generativelanguage.googleapis.com/v1beta/models";

pub const OLLAMA_CLOUD_URL: &'static str = "https://ollama.com/v1/models";

pub const DEEPSEEK_URL: &'static str = "https://api.deepseek.com/v1/models";

pub const THAILLM_URL: &'static str = "http://thaillm.or.th/api/v1/models";

pub const NVIDIA_URL: &'static str = "https://integrate.api.nvidia.com/v1/models";

pub const MINIMAX_URL: &'static str = "https://api.minimax.io/v1/models";

pub const DASHSCOPE_URL: &'static str = "https://dashscope.aliyuncs.com/compatible-mode/v1/models";

pub const QWENCLOUD_URL: &'static str = "https://dashscope-intl.aliyuncs.com/compatible-mode/v1/models";

/// The most new ids that a report names for one provider.
pub const MAX_LIST_IDS: usize = 30;

// ---------------------------------------------------------------------------
// Which ids belong in the catalogue
// ---------------------------------------------------------------------------

/// An id of a model of OpenAI that chats or reasons: of one of the families
/// that do, no fine-tune, and no variant for another medium.
pub open spec fn openai_chat(id: Seq<char>) -> bool {
    &&& !text::has_prefix(id, "ft:"@)
    &&& {
        ||| text::has_prefix(id, "gpt-"@)
        ||| text::has_prefix(id, "o1"@)
        ||| text::has_prefix(id, "o3"@)
        ||| text::has_prefix(id, "o4"@)
        ||| text::has_prefix(id, "o5"@)
        ||| text::has_prefix(id, "chatgpt-"@)
    }
    &&& !text::contains_text(id, "image"@)
    &&& !text::contains_text(id, "-transcribe"@)
    &&& !text::contains_text(id, "-realtime"@)
    &&& !text::contains_text(id, "-audio"@)
    &&& !text::contains_text(id, "-tts"@)
    &&& !text::contains_text(id, "-search-preview"@)
}

pub fn is_openai_chat(id: &str) -> (r: bool)
    ensures
        r == openai_chat(id@),
{
    if text::starts_with(id, "ft:") {
        return false;
    }
    let family = text::starts_with(id, "gpt-") || text::starts_with(id, "o1") || text::starts_with(
        id,
        "o3",
    ) || text::starts_with(id, "o4") || text::starts_with(id, "o5") || text::starts_with(
        id,
        "chatgpt-",
    );
    if !family {
        return false;
    }
    !(text::contains(id, "image") || text::contains(id, "-transcribe") || text::contains(
        id,
        "-realtime",
    ) || text::contains(id, "-audio") || text::contains(id, "-tts") || text::contains(
        id,
        "-search-preview",
    ))
}

/// An id of a Gemini model that has been shut down, though it may still be
/// listed.
pub open spec fn retired_gemini(id: Seq<char>) -> bool {
    ||| text::has_prefix(id, "gemini-1."@)
    ||| id == "gemini-pro"@
    ||| id == "gemini-pro-vision"@
    ||| text::has_prefix(id, "gemini-2.0-flash"@)
    ||| id == "gemini-3-pro-preview"@
}

pub fn is_retired_gemini(id: &str) -> (r: bool)
    ensures
        r == retired_gemini(id@),
{
    text::starts_with(id, "gemini-1.") || text::same(id, "gemini-pro") || text::same(
        id,
        "gemini-pro-vision",
    ) || text::starts_with(id, "gemini-2.0-flash") || text::same(id, "gemini-3-pro-preview")
}

/// An id of a Gemini model that chats and is in service.
pub open spec fn gemini_chat(id: Seq<char>) -> bool {
    &&& text::has_prefix(id, "gemini-"@)
    &&& !text::contains_text(id, "embedding"@)
    &&& !text::contains_text(id, "-tts"@)
    &&& !text::contains_text(id, "robotics"@)
    &&& !text::contains_text(id, "-image"@)
    &&& !text::contains_text(id, "-audio"@)
    &&& !text::contains_text(id, "computer-use"@)
    &&& !retired_gemini(id)
}

pub fn is_gemini_chat(id: &str) -> (r: bool)
    ensures
        r == gemini_chat(id@),
{
    if !text::starts_with(id, "gemini-") {
        return false;
    }
    let other = text::contains(id, "embedding") || text::contains(id, "-tts") || text::contains(
        id,
        "robotics",
    ) || text::contains(id, "-image") || text::contains(id, "-audio") || text::contains(
        id,
        "computer-use",
    );
    !other && !is_retired_gemini(id)
}

/// An id of a model of DashScope that chats.
pub open spec fn dashscope_chat(id: Seq<char>) -> bool {
    &&& text::has_prefix(id, "qwen"@)
    &&& !text::contains_text(id, "embedding"@)
    &&& !text::contains_text(id, "rerank"@)
    &&& !text::contains_text(id, "-audio"@)
    &&& !text::contains_text(id, "-tts"@)
    &&& !text::contains_text(id, "-asr"@)
    &&& !text::contains_text(id, "-image"@)
    &&& !text::contains_text(id, "-mt-"@)
}

pub fn is_dashscope_chat(id: &str) -> (r: bool)
    ensures
        r == dashscope_chat(id@),
{
    text::starts_with(id, "qwen") && !text::contains(id, "embedding") && !text::contains(
        id,
        "rerank",
    ) && !text::contains(id, "-audio") && !text::contains(id, "-tts") && !text::contains(id, "-asr")
        && !text::contains(id, "-image") && !text::contains(id, "-mt-")
}

// ---------------------------------------------------------------------------
// The catalogue
// ---------------------------------------------------------------------------

/// One model.
#[derive(Debug, PartialEq, Eq)]
pub struct ModelEntry {
    pub context: Option<u32>,
    pub max_output: Option<u32>,
    /// Where the entry comes from.
    pub source: Option<String>,
    pub verified_at: Option<String>,
    pub free: Option<bool>,
    pub chat: Option<bool>,
}

#[verifier::ext_equal]
pub struct EntryView {
    pub context: Option<u32>,
    pub max_output: Option<u32>,
    pub source: Option<Seq<char>>,
    pub verified_at: Option<Seq<char>>,
    pub free: Option<bool>,
    pub chat: Option<bool>,
}

impl View for ModelEntry {
    type V = EntryView;

    open spec fn view(&self) -> EntryView {
        EntryView {
            context: self.context,
            max_output: self.max_output,
            source: text::view_opt(self.source),
            verified_at: text::view_opt(self.verified_at),
            free: self.free,
            chat: self.chat,
        }
    }
}

/// The models of one provider.
pub struct ProviderCatalogue {
    pub list_url: Option<String>,
    /// The context of models that no other is known of.
    pub default_context: Option<u32>,
    pub models: Keyed<ModelEntry>,
}

pub struct ProviderView {
    pub list_url: Option<Seq<char>>,
    pub default_context: Option<u32>,
    pub models: Seq<(Seq<char>, EntryView)>,
}

impl View for ProviderCatalogue {
    type V = ProviderView;

    open spec fn view(&self) -> ProviderView {
        ProviderView {
            list_url: text::view_opt(self.list_url),
            default_context: self.default_context,
            models: self.models@,
        }
    }
}

/// A provider with nothing known of it.
pub open spec fn empty_provider() -> ProviderView {
    ProviderView { list_url: None, default_context: None, models: Seq::empty() }
}

impl Default for ProviderCatalogue {
    fn default() -> (r: ProviderCatalogue)
        ensures
            r@ == empty_provider(),
    {
        ProviderCatalogue { list_url: None, default_context: None, models: Keyed::new() }
    }
}

/// The catalogue of all providers.
pub struct Catalogue {
    pub schema: u32,
    pub source: String,
    pub fetched_at: String,
    pub providers: Keyed<ProviderCatalogue>,
}

/// Providers under their names.
pub type Providers = Seq<(Seq<char>, ProviderView)>;

/// A provider, or what stands for it where it is not there yet.
pub open spec fn provider_or(p: Providers, name: Seq<char>, default: ProviderView) -> ProviderView {
    match keyed::lookup(p, name) {
        Some(v) => v,
        None => default,
    }
}

// ---------------------------------------------------------------------------
// What the providers list
// ---------------------------------------------------------------------------

/// What OpenRouter asks for a model, as far as it matters: whether each rate
/// is there, is a number, and is zero.
#[derive(Clone, Copy, Debug, PartialEq, Eq)]
pub struct OpenRouterPricing {
    pub prompt_is_zero: bool,
    pub completion_is_zero: bool,
}

/// Which media a model takes and gives.
#[derive(Debug, PartialEq, Eq)]
pub struct OpenRouterArchitecture {
    /// In short, as in `text+image->text`.
    pub modality: Option<String>,
    /// The media that it gives, one by one.
    pub output_modalities: Option<Vec<String>>,
}

#[derive(Clone, Copy, Debug, PartialEq, Eq)]
pub struct TopProvider {
    pub max_completion_tokens: Option<u32>,
}

/// A model as OpenRouter lists it.
#[derive(Debug, PartialEq, Eq)]
pub struct OpenRouterModel {
    pub id: String,
    pub context_length: Option<u32>,
    pub top_provider: Option<TopProvider>,
    pub pricing: Option<OpenRouterPricing>,
    pub architecture: Option<OpenRouterArchitecture>,
}

/// A model as Gemini lists it.
#[derive(Debug, PartialEq, Eq)]
pub struct GeminiModel {
    pub name: String,
    pub input_token_limit: Option<u32>,
    pub output_token_limit: Option<u32>,
}

/// A medium other than text.
pub open spec fn non_chat(m: Seq<char>) -> bool {
    m == "audio"@ || m == "image"@ || m == "video"@ || m == "embedding"@ || m == "embeddings"@
}

/// Names without blanks around them, in lower case.
pub open spec fn plain_names(parts: Seq<Seq<char>>) -> Seq<Seq<char>> {
    Seq::new(parts.len(), |i: int| text::ascii_lower_of(text::trim_of(parts[i])))
}

/// The media that a model gives, where they are known.
pub open spec fn outputs_of(a: OpenRouterArchitecture) -> Option<Seq<Seq<char>>> {
    match a.output_modalities {
        Some(list) => if list@.len() == 0 {
            None
        } else {
            Some(plain_names(text::views(list@)))
        },
        None => match a.modality {
            Some(m) => match text::after_first(m@, "->"@) {
                Some(rest) => {
                    let output = text::trim_of(text::before_first(rest, "->"@));
                    if output.len() == 0 {
                        None
                    } else {
                        Some(plain_names(text::split_of(output, '+')))
                    }
                },
                None => None,
            },
            None => None,
        },
    }
}

impl OpenRouterModel {
    pub open spec fn free(self) -> bool {
        match self.pricing {
            Some(p) => p.prompt_is_zero && p.completion_is_zero,
            None => false,
        }
    }

    /// Both rates are there and zero.
    pub fn is_free(&self) -> (r: bool)
        ensures
            r == self.free(),
    {
        match &self.pricing {
            Some(p) => p.prompt_is_zero && p.completion_is_zero,
            None => false,
        }
    }

    pub open spec fn chat(self) -> Option<bool> {
        match self.architecture {
            Some(a) => match outputs_of(a) {
                Some(o) => if exists|i: int| 0 <= i < o.len() && non_chat(#[trigger] o[i]) {
                    Some(false)
                } else if o.contains("text"@) {
                    Some(true)
                } else {
                    None
                },
                None => None,
            },
            None => None,
        }
    }

    /// Whether the model gives text and nothing else, where that is known. One
    /// that gives another medium beside text does not chat.
    pub fn is_chat(&self) -> (r: Option<bool>)
        ensures
            r == self.chat(),
    {
        let outputs = match &self.architecture {
            Some(a) => match outputs(a) {
                Some(o) => o,
                None => return None,
            },
            None => return None,
        };
        let ghost o = text::views(outputs@);
        let mut i: usize = 0;
        while i < outputs.len()
            invariant
                i <= outputs@.len(),
                o == text::views(outputs@),
                self.architecture is Some,
                outputs_of(self.architecture->0) == Some(o),
                forall|k: int| 0 <= k < i ==> !non_chat(#[trigger] o[k]),
            decreases outputs@.len() - i,
        {
            let m = outputs[i].as_str();
            assert(o[i as int] == m@);
            if text::same(m, "audio") || text::same(m, "image") || text::same(m, "video")
                || text::same(m, "embedding") || text::same(m, "embeddings") {
                assert(non_chat(o[i as int]));
                return Some(false);
            }
            i = i + 1;
        }
        if keyed::has_name(&outputs, "text") {
            Some(true)
        } else {
            None
        }
    }
}

fn plain(parts: &Vec<String>) -> (r: Vec<String>)
    ensures
        text::views(r@) == plain_names(text::views(parts@)),
{
    let ghost all = text::views(parts@);
    let mut r: Vec<String> = Vec::new();
    let n = parts.len();
    let mut i: usize = 0;
    while i < n
        invariant
            n == parts@.len(),
            all == text::views(parts@),
            i <= n,
            text::views(r@) == plain_names(all).take(i as int),
        decreases n - i,
    {
        broadcast use text::views_push;

        let name = text::ascii_lower(text::trim(parts[i].as_str()));
        proof {
            assert(all[i as int] == parts@[i as int]@);
            assert(plain_names(all).take(i + 1) =~= plain_names(all).take(i as int).push(name@));
        }
        r.push(name);
        i = i + 1;
    }
    proof {
        assert(plain_names(all).take(n as int) =~= plain_names(all));
    }
    r
}

fn outputs(a: &OpenRouterArchitecture) -> (r: Option<Vec<String>>)
    ensures
        match r {
            Some(v) => outputs_of(*a) == Some(text::views(v@)),
            None => outputs_of(*a) is None,
        },
{
    match &a.output_modalities {
        Some(list) => {
            if list.len() == 0 {
                return None;
            }
            Some(plain(list))
        },
        None => match &a.modality {
            Some(m) => match text::split_once(m.as_str(), "->").1 {
                Some(rest) => {
                    let output = text::trim(text::split_once(rest, "->").0);
                    if output.unicode_len() == 0 {
                        return None;
                    }
                    Some(plain(&text::split(output, '+')))
                },
                None => None,
            },
            None => None,
        },
    }
}

// ---------------------------------------------------------------------------
// Merging
// ---------------------------------------------------------------------------

/// What came of merging the list of one provider.
#[derive(Debug, PartialEq, Eq)]
pub struct MergeStats {
    /// The ids that were new.
    pub added: Vec<String>,
    /// How many were there already.
    pub unchanged: usize,
    /// How many were left out, as no context is known of them.
    pub skipped_no_context: usize,
}

pub struct StatsView {
    pub added: Seq<Seq<char>>,
    pub unchanged: int,
    pub skipped_no_context: int,
}

pub open spec fn no_stats() -> StatsView {
    StatsView { added: Seq::empty(), unchanged: 0, skipped_no_context: 0 }
}

impl View for MergeStats {
    type V = StatsView;

    open spec fn view(&self) -> StatsView {
        StatsView {
            added: text::views(self.added@),
            unchanged: self.unchanged as int,
            skipped_no_context: self.skipped_no_context as int,
        }
    }
}

impl StatsView {
    /// How many models were looked at.
    pub open spec fn seen(self) -> int {
        self.added.len() + self.unchanged + self.skipped_no_context
    }
}

impl Default for MergeStats {
    fn default() -> (r: MergeStats)
        ensures
            r@ == no_stats(),
    {
        let r = MergeStats { added: Vec::new(), unchanged: 0, skipped_no_context: 0 };
        assert(text::views(r.added@) =~= Seq::<Seq<char>>::empty());
        r
    }
}

/// The models of a provider and what was merged into them so far.
pub struct Merge {
    pub models: Seq<(Seq<char>, EntryView)>,
    pub stats: StatsView,
}

impl Merge {
    pub open spec fn skip(self) -> Merge {
        Merge {
            stats: StatsView {
                skipped_no_context: self.stats.skipped_no_context + 1,
                ..self.stats
            },
            ..self
        }
    }

    /// A model that is there already, as it is from now on.
    pub open spec fn keep(self, id: Seq<char>, e: EntryView) -> Merge {
        Merge {
            models: keyed::with_entry(self.models, id, e),
            stats: StatsView { unchanged: self.stats.unchanged + 1, ..self.stats },
        }
    }

    /// A model that is there already, and stays as it is.
    pub open spec fn leave(self) -> Merge {
        Merge { stats: StatsView { unchanged: self.stats.unchanged + 1, ..self.stats }, ..self }
    }

    pub open spec fn insert(self, id: Seq<char>, e: EntryView) -> Merge {
        Merge {
            models: keyed::with_entry(self.models, id, e),
            stats: StatsView { added: self.stats.added.push(id), ..self.stats },
        }
    }
}

/// One model of OpenRouter merged. One without a context is left out. One that
/// is there already stays as it is; one that is new is entered.
pub open spec fn openrouter_step(m: Merge, row: OpenRouterModel, today: Seq<char>) -> Merge {
    match row.context_length {
        None => m.skip(),
        Some(ctx) => match keyed::lookup(m.models, row.id@) {
            Some(_) => m.leave(),
            None => m.insert(
                row.id@,
                EntryView {
                    context: Some(ctx),
                    max_output: match row.top_provider {
                        Some(p) => p.max_completion_tokens,
                        None => None,
                    },
                    source: Some(OPENROUTER_URL@),
                    verified_at: Some(today),
                    free: Some(row.free()),
                    chat: row.chat(),
                },
            ),
        },
    }
}

pub open spec fn openrouter_merge(m: Merge, rows: Seq<OpenRouterModel>, today: Seq<char>) -> Merge
    decreases rows.len(),
{
    if rows.len() == 0 {
        m
    } else {
        openrouter_step(openrouter_merge(m, rows.drop_last(), today), rows.last(), today)
    }
}

/// OpenRouter, where it is not in the catalogue yet.
pub open spec fn new_openrouter() -> ProviderView {
    ProviderView {
        list_url: Some(OPENROUTER_URL@),
        default_context: Some(128_000),
        models: Seq::empty(),
    }
}

/// Merges the list of OpenRouter.
pub fn merge_openrouter(cat: &mut Catalogue, rows: Vec<OpenRouterModel>, today: &str) -> (r:
    MergeStats)
    ensures
        ({
            let pc = provider_or(old(cat).providers@, "openrouter"@, new_openrouter());
            let m = openrouter_merge(
                Merge { models: pc.models, stats: no_stats() },
                rows@,
                today@,
            );
            &&& final(cat).providers@ == keyed::with_entry(
                old(cat).providers@,
                "openrouter"@,
                ProviderView { models: m.models, ..pc },
            )
            &&& r@ == m.stats
        }),
        final(cat).schema == old(cat).schema,
        final(cat).source == old(cat).source,
        final(cat).fetched_at == old(cat).fetched_at,
{
    let pc = cat.providers.entry_or(
        "openrouter",
        ProviderCatalogue {
            list_url: Some(OPENROUTER_URL.to_string()),
            default_context: Some(128_000),
            models: Keyed::new(),
        },
    );
    let ghost start = Merge { models: pc.models@, stats: no_stats() };
    let mut models: Keyed<ModelEntry> = Keyed::new();
    std::mem::swap(&mut models, &mut pc.models);
    let mut stats = MergeStats::default();
    let n = rows.len();
    let mut i: usize = 0;
    while i < n
        invariant
            n == rows@.len(),
            i <= n,
            models@ == openrouter_merge(start, rows@.take(i as int), today@).models,
            stats@ == openrouter_merge(start, rows@.take(i as int), today@).stats,
            stats@.seen() == i,
        decreases n - i,
    {
        broadcast use text::views_push;

        let m = &rows[i];
        proof {
            assert(rows@.take(i + 1).drop_last() == rows@.take(i as int));
            assert(rows@.take(i + 1).last() == *m);
        }
        match m.context_length {
            None => {
                stats.skipped_no_context = stats.skipped_no_context + 1;
            },
            Some(ctx) => {
                if models.get(m.id.as_str()).is_some() {
                    stats.unchanged = stats.unchanged + 1;
                } else {
                    let max_output = match &m.top_provider {
                        Some(p) => p.max_completion_tokens,
                        None => None,
                    };
                    models.set(
                        m.id.as_str(),
                        ModelEntry {
                            context: Some(ctx),
                            max_output,
                            source: Some(OPENROUTER_URL.to_string()),
                            verified_at: Some(today.to_string()),
                            free: Some(m.is_free()),
                            chat: m.is_chat(),
                        },
                    );
                    stats.added.push(m.id.clone());
                }
            },
        }
        i = i + 1;
    }
    proof {
        assert(rows@.take(n as int) == rows@);
    }
    pc.models = models;
    stats
}

/// One model of Gemini merged, under its name without the word in front.
pub open spec fn gemini_id(name: Seq<char>) -> Seq<char> {
    if text::has_prefix(name, "models/"@) {
        name.skip("models/"@.len() as int)
    } else {
        name
    }
}

pub(crate) fn id_of_gemini(name: &str) -> (r: &str)
    ensures
        r@ == gemini_id(name@),
{
    match text::strip_prefix(name, "models/") {
        Some(id) => id,
        None => name,
    }
}

pub open spec fn gemini_step(m: Merge, row: GeminiModel, today: Seq<char>) -> Merge {
    match row.input_token_limit {
        None => m.skip(),
        Some(ctx) => match keyed::lookup(m.models, gemini_id(row.name@)) {
            Some(_) => m.leave(),
            None => m.insert(
                gemini_id(row.name@),
                EntryView {
                    context: Some(ctx),
                    max_output: row.output_token_limit,
                    source: Some(GEMINI_URL@),
                    verified_at: Some(today),
                    free: None,
                    chat: None,
                },
            ),
        },
    }
}

pub open spec fn gemini_merge(m: Merge, rows: Seq<GeminiModel>, today: Seq<char>) -> Merge
    decreases rows.len(),
{
    if rows.len() == 0 {
        m
    } else {
        gemini_step(gemini_merge(m, rows.drop_last(), today), rows.last(), today)
    }
}

/// Gemini, where it is not in the catalogue yet.
pub open spec fn new_gemini() -> ProviderView {
    ProviderView {
        list_url: Some(GEMINI_URL@),
        default_context: Some(1_000_000),
        models: Seq::empty(),
    }
}

/// Merges the list of Gemini.
pub fn merge_gemini(cat: &mut Catalogue, rows: Vec<GeminiModel>, today: &str) -> (r: MergeStats)
    ensures
        ({
            let pc = provider_or(old(cat).providers@, "gemini"@, new_gemini());
            let m = gemini_merge(Merge { models: pc.models, stats: no_stats() }, rows@, today@);
            &&& final(cat).providers@ == keyed::with_entry(
                old(cat).providers@,
                "gemini"@,
                ProviderView { models: m.models, ..pc },
            )
            &&& r@ == m.stats
        }),
        final(cat).schema == old(cat).schema,
        final(cat).source == old(cat).source,
        final(cat).fetched_at == old(cat).fetched_at,
{
    let pc = cat.providers.entry_or(
        "gemini",
        ProviderCatalogue {
            list_url: Some(GEMINI_URL.to_string()),
            default_context: Some(1_000_000),
            models: Keyed::new(),
        },
    );
    let ghost start = Merge { models: pc.models@, stats: no_stats() };
    let mut models: Keyed<ModelEntry> = Keyed::new();
    std::mem::swap(&mut models, &mut pc.models);
    let mut stats = MergeStats::default();
    let n = rows.len();
    let mut i: usize = 0;
    while i < n
        invariant
            n == rows@.len(),
            i <= n,
            models@ == gemini_merge(start, rows@.take(i as int), today@).models,
            stats@ == gemini_merge(start, rows@.take(i as int), today@).stats,
            stats@.seen() == i,
        decreases n - i,
    {
        broadcast use text::views_push;

        let m = &rows[i];
        proof {
            assert(rows@.take(i + 1).drop_last() == rows@.take(i as int));
            assert(rows@.take(i + 1).last() == *m);
        }
        let id = id_of_gemini(m.name.as_str());
        match m.input_token_limit {
            None => {
                stats.skipped_no_context = stats.skipped_no_context + 1;
            },
            Some(ctx) => {
                if models.get(id).is_some() {
                    stats.unchanged = stats.unchanged + 1;
                } else {
                    models.set(
                        id,
                        ModelEntry {
                            context: Some(ctx),
                            max_output: m.output_token_limit,
                            source: Some(GEMINI_URL.to_string()),
                            verified_at: Some(today.to_string()),
                            free: None,
                            chat: None,
                        },
                    );
                    stats.added.push(id.to_string());
                }
            },
        }
        i = i + 1;
    }
    proof {
        assert(rows@.take(n as int) == rows@);
    }
    pc.models = models;
    stats
}

/// An id without what stands before its last slash.
pub open spec fn bare_of(id: Seq<char>) -> Seq<char> {
    text::split_of(id, '/').last()
}

/// An id without what stands before its last slash.
pub fn bare(id: &str) -> (r: String)
    ensures
        r@ == bare_of(id@),
{
    let mut parts = text::split(id, '/');
    proof {
        text::lemma_split_nonempty(id@, '/');
        assert(text::views(parts@).last() == parts@.last()@);
    }
    match parts.pop() {
        Some(p) => p,
        None => String::new(),
    }
}

/// What is known of the model that an id names, and where from.
pub open spec fn found_context(
    id: Seq<char>,
    list_url: Seq<char>,
    default_context: Option<u32>,
    contexts: Seq<(Seq<char>, u32)>,
) -> Option<(u32, Seq<char>)> {
    match keyed::lookup(contexts, bare_of(id)) {
        Some(n) => Some((n, OPENROUTER_URL@ + " via bare id"@)),
        None => match default_context {
            Some(n) => Some((n, list_url + " (context unverified)"@)),
            None => None,
        },
    }
}

/// What OpenRouter says of models, by their bare ids: context, and longest
/// output.
pub struct MirrorView {
    pub contexts: Seq<(Seq<char>, u32)>,
    pub outputs: Seq<(Seq<char>, u32)>,
}

/// One id of a provider merged. One that is there already has its longest
/// output filled in where it is missing and the mirror knows it; one that is
/// new is entered, where a context is known.
pub open spec fn discovered_step(
    m: Merge,
    id: Seq<char>,
    list_url: Seq<char>,
    default_context: Option<u32>,
    mirror: MirrorView,
    today: Seq<char>,
) -> Merge {
    let output = keyed::lookup(mirror.outputs, bare_of(id));
    match keyed::lookup(m.models, id) {
        Some(e) => m.keep(
            id,
            EntryView {
                max_output: if e.max_output is None {
                    output
                } else {
                    e.max_output
                },
                ..e
            },
        ),
        None => match found_context(id, list_url, default_context, mirror.contexts) {
            Some(found) => m.insert(
                id,
                EntryView {
                    context: Some(found.0),
                    max_output: output,
                    source: Some(found.1),
                    verified_at: Some(today),
                    free: None,
                    chat: None,
                },
            ),
            None => m.skip(),
        },
    }
}

pub open spec fn discovered_merge(
    m: Merge,
    ids: Seq<Seq<char>>,
    list_url: Seq<char>,
    default_context: Option<u32>,
    mirror: MirrorView,
    today: Seq<char>,
) -> Merge
    decreases ids.len(),
{
    if ids.len() == 0 {
        m
    } else {
        discovered_step(
            discovered_merge(m, ids.drop_last(), list_url, default_context, mirror, today),
            ids.last(),
            list_url,
            default_context,
            mirror,
            today,
        )
    }
}

/// What OpenRouter says of models, by their bare ids.
pub struct Mirror {
    pub contexts: Keyed<u32>,
    pub outputs: Keyed<u32>,
}

impl View for Mirror {
    type V = MirrorView;

    open spec fn view(&self) -> MirrorView {
        MirrorView { contexts: self.contexts@, outputs: self.outputs@ }
    }
}

/// What OpenRouter says of models, by their bare ids; of two models with the
/// same, the later one's.
pub open spec fn mirror_of(rows: Seq<OpenRouterModel>) -> MirrorView
    decreases rows.len(),
{
    if rows.len() == 0 {
        MirrorView { contexts: Seq::empty(), outputs: Seq::empty() }
    } else {
        let before = mirror_of(rows.drop_last());
        let row = rows.last();
        MirrorView {
            contexts: match row.context_length {
                Some(n) => keyed::with_entry(before.contexts, bare_of(row.id@), n),
                None => before.contexts,
            },
            outputs: match row.top_provider {
                Some(p) => match p.max_completion_tokens {
                    Some(n) => keyed::with_entry(before.outputs, bare_of(row.id@), n),
                    None => before.outputs,
                },
                None => before.outputs,
            },
        }
    }
}

/// What OpenRouter says of models, by their bare ids.
pub fn mirror(rows: &Vec<OpenRouterModel>) -> (r: Mirror)
    ensures
        r@ == mirror_of(rows@),
{
    let mut contexts: Keyed<u32> = Keyed::new();
    let mut outputs: Keyed<u32> = Keyed::new();
    let n = rows.len();
    let mut i: usize = 0;
    while i < n
        invariant
            n == rows@.len(),
            i <= n,
            contexts@ == mirror_of(rows@.take(i as int)).contexts,
            outputs@ == mirror_of(rows@.take(i as int)).outputs,
        decreases n - i,
    {
        let m = &rows[i];
        proof {
            assert(rows@.take(i + 1).drop_last() == rows@.take(i as int));
            assert(rows@.take(i + 1).last() == *m);
        }
        let id = bare(m.id.as_str());
        if let Some(ctx) = m.context_length {
            contexts.set(id.as_str(), ctx);
        }
        if let Some(p) = &m.top_provider {
            if let Some(max) = p.max_completion_tokens {
                outputs.set(id.as_str(), max);
            }
        }
        i = i + 1;
    }
    proof {
        assert(rows@.take(n as int) == rows@);
    }
    Mirror { contexts, outputs }
}

/// A provider once its ids were merged: it has a list, if it had none.
pub open spec fn discovered_provider(
    pc: ProviderView,
    ids: Seq<Seq<char>>,
    list_url: Seq<char>,
    mirror: MirrorView,
    today: Seq<char>,
) -> (ProviderView, StatsView) {
    let m = discovered_merge(
        Merge { models: pc.models, stats: no_stats() },
        ids,
        list_url,
        pc.default_context,
        mirror,
        today,
    );
    (
        ProviderView {
            list_url: if pc.list_url is None {
                Some(list_url)
            } else {
                pc.list_url
            },
            default_context: pc.default_context,
            models: m.models,
        },
        m.stats,
    )
}

/// Merges the ids that a provider lists. They come without a context: it is
/// looked up under the bare id, else the provider's own is taken.
pub fn merge_discovered(
    cat: &mut Catalogue,
    provider: &str,
    list_url: &str,
    ids: Vec<String>,
    mirror: &Mirror,
    today: &str,
) -> (r: MergeStats)
    ensures
        ({
            let pc = provider_or(old(cat).providers@, provider@, empty_provider());
            let m = discovered_provider(pc, text::views(ids@), list_url@, mirror@, today@);
            &&& final(cat).providers@ == keyed::with_entry(old(cat).providers@, provider@, m.0)
            &&& r@ == m.1
        }),
        final(cat).schema == old(cat).schema,
        final(cat).source == old(cat).source,
        final(cat).fetched_at == old(cat).fetched_at,
{
    let pc = cat.providers.entry_or(provider, ProviderCatalogue::default());
    let ghost start = Merge { models: pc.models@, stats: no_stats() };
    if pc.list_url.is_none() {
        pc.list_url = Some(list_url.to_string());
    }
    let default_context = pc.default_context;
    let mut models: Keyed<ModelEntry> = Keyed::new();
    std::mem::swap(&mut models, &mut pc.models);
    let mut stats = MergeStats::default();
    let ghost all = text::views(ids@);
    let n = ids.len();
    let mut i: usize = 0;
    while i < n
        invariant
            n == ids@.len(),
            all == text::views(ids@),
            i <= n,
            models@ == discovered_merge(
                start,
                all.take(i as int),
                list_url@,
                default_context,
                mirror@,
                today@,
            ).models,
            stats@ == discovered_merge(
                start,
                all.take(i as int),
                list_url@,
                default_context,
                mirror@,
                today@,
            ).stats,
            stats@.seen() == i,
        decreases n - i,
    {
        broadcast use text::views_push;

        let id = &ids[i];
        proof {
            assert(all[i as int] == id@);
            assert(all.take(i + 1).drop_last() == all.take(i as int));
            assert(all.take(i + 1).last() == id@);
        }
        let b = bare(id.as_str());
        let output = match mirror.outputs.get(b.as_str()) {
            Some(n) => Some(*n),
            None => None,
        };
        let known = match models.get_mut(id.as_str()) {
            Some(existing) => {
                if existing.max_output.is_none() {
                    existing.max_output = output;
                }
                true
            },
            None => false,
        };
        if known {
            stats.unchanged = stats.unchanged + 1;
        } else {
            let found = match mirror.contexts.get(b.as_str()) {
                Some(n) => {
                    let mut source = OPENROUTER_URL.to_string();
                    source.append(" via bare id");
                    Some((*n, source))
                },
                None => match default_context {
                    Some(n) => {
                        let mut source = list_url.to_string();
                        source.append(" (context unverified)");
                        Some((n, source))
                    },
                    None => None,
                },
            };
            match found {
                Some((ctx, source)) => {
                    models.set(
                        id.as_str(),
                        ModelEntry {
                            context: Some(ctx),
                            max_output: output,
                            source: Some(source),
                            verified_at: Some(today.to_string()),
                            free: None,
                            chat: None,
                        },
                    );
                    stats.added.push(id.clone());
                },
                None => {
                    stats.skipped_no_context = stats.skipped_no_context + 1;
                },
            }
        }
        i = i + 1;
    }
    proof {
        assert(all.take(n as int) == all);
    }
    pc.models = models;
    stats
}

// ---------------------------------------------------------------------------
// What merging keeps
// ---------------------------------------------------------------------------

/// A row that is as it was, but for the longest output, which it may have
/// learned where it did not know it.
pub open spec fn says_the_same(e: EntryView, f: EntryView) -> bool {
    &&& f == (EntryView { max_output: f.max_output, ..e })
    &&& e.max_output is Some ==> f.max_output == e.max_output
}

/// Every row of `a` is in `b` as it was.
pub open spec fn same_rows(
    a: Seq<(Seq<char>, EntryView)>,
    b: Seq<(Seq<char>, EntryView)>,
) -> bool {
    forall|id: Seq<char>| #[trigger]
        keyed::lookup(a, id) is Some ==> keyed::lookup(b, id) == keyed::lookup(a, id)
}

/// Every row of `a` is still in `b` and says the same.
pub open spec fn keeps_rows(
    a: Seq<(Seq<char>, EntryView)>,
    b: Seq<(Seq<char>, EntryView)>,
) -> bool {
    forall|id: Seq<char>| #[trigger]
        keyed::lookup(a, id) is Some ==> keyed::lookup(b, id) is Some && says_the_same(
            keyed::lookup(a, id)->0,
            keyed::lookup(b, id)->0,
        )
}

proof fn lemma_keep(m: Merge, id: Seq<char>, e: EntryView)
    requires
        keyed::lookup(m.models, id) is Some,
        says_the_same(keyed::lookup(m.models, id)->0, e),
    ensures
        keeps_rows(m.models, m.keep(id, e).models),
{
    assert forall|other: Seq<char>| #[trigger]
        keyed::lookup(m.models, other) is Some implies keyed::lookup(
        m.keep(id, e).models,
        other,
    ) is Some && says_the_same(
        keyed::lookup(m.models, other)->0,
        keyed::lookup(m.keep(id, e).models, other)->0,
    ) by {
        keyed::entry_set_is_found(m.models, id, e, other);
    }
}

proof fn lemma_insert(m: Merge, id: Seq<char>, e: EntryView)
    requires
        keyed::lookup(m.models, id) is None,
    ensures
        same_rows(m.models, m.insert(id, e).models),
{
    assert forall|other: Seq<char>| #[trigger]
        keyed::lookup(m.models, other) is Some implies keyed::lookup(
        m.insert(id, e).models,
        other,
    ) == keyed::lookup(m.models, other) by {
        keyed::entry_set_is_found(m.models, id, e, other);
    }
}

/// No row of the catalogue is lost or changed by merging what OpenRouter
/// lists: what is there stays whole, and only new ids are entered. Every model
/// that is listed is accounted for.
pub proof fn openrouter_keeps_rows(m: Merge, rows: Seq<OpenRouterModel>, today: Seq<char>)
    ensures
        same_rows(m.models, openrouter_merge(m, rows, today).models),
        openrouter_merge(m, rows, today).stats.seen() == m.stats.seen() + rows.len(),
    decreases rows.len(),
{
    if rows.len() > 0 {
        openrouter_keeps_rows(m, rows.drop_last(), today);
        let before = openrouter_merge(m, rows.drop_last(), today);
        let row = rows.last();
        if row.context_length is Some && keyed::lookup(before.models, row.id@) is None {
            lemma_insert(
                before,
                row.id@,
                EntryView {
                    context: row.context_length,
                    max_output: match row.top_provider {
                        Some(p) => p.max_completion_tokens,
                        None => None,
                    },
                    source: Some(OPENROUTER_URL@),
                    verified_at: Some(today),
                    free: Some(row.free()),
                    chat: row.chat(),
                },
            );
        }
    }
}

/// No row of the catalogue is lost or changed by merging what Gemini lists.
/// Every model that is listed is accounted for.
pub proof fn gemini_keeps_rows(m: Merge, rows: Seq<GeminiModel>, today: Seq<char>)
    ensures
        same_rows(m.models, gemini_merge(m, rows, today).models),
        gemini_merge(m, rows, today).stats.seen() == m.stats.seen() + rows.len(),
    decreases rows.len(),
{
    if rows.len() > 0 {
        gemini_keeps_rows(m, rows.drop_last(), today);
        let before = gemini_merge(m, rows.drop_last(), today);
        let row = rows.last();
        let id = gemini_id(row.name@);
        if row.input_token_limit is Some && keyed::lookup(before.models, id) is None {
            lemma_insert(
                before,
                id,
                EntryView {
                    context: row.input_token_limit,
                    max_output: row.output_token_limit,
                    source: Some(GEMINI_URL@),
                    verified_at: Some(today),
                    free: None,
                    chat: None,
                },
            );
        }
    }
}

proof fn lemma_discovered_step_keeps(
    m: Merge,
    id: Seq<char>,
    list_url: Seq<char>,
    default_context: Option<u32>,
    mirror: MirrorView,
    today: Seq<char>,
)
    ensures
        keeps_rows(
            m.models,
            discovered_step(m, id, list_url, default_context, mirror, today).models,
        ),
        discovered_step(m, id, list_url, default_context, mirror, today).stats.seen()
            == m.stats.seen() + 1,
        found_context(id, list_url, default_context, mirror.contexts) is Some ==> keyed::lookup(
            discovered_step(m, id, list_url, default_context, mirror, today).models,
            id,
        ) is Some,
{
    let output = keyed::lookup(mirror.outputs, bare_of(id));
    match keyed::lookup(m.models, id) {
        Some(e) => {
            let f = EntryView {
                max_output: if e.max_output is None {
                    output
                } else {
                    e.max_output
                },
                ..e
            };
            lemma_keep(m, id, f);
            keyed::entry_set_is_found(m.models, id, f, id);
        },
        None => {
            if let Some(found) = found_context(id, list_url, default_context, mirror.contexts) {
                let f = EntryView {
                    context: Some(found.0),
                    max_output: output,
                    source: Some(found.1),
                    verified_at: Some(today),
                    free: None,
                    chat: None,
                };
                lemma_insert(m, id, f);
                keyed::entry_set_is_found(m.models, id, f, id);
            }
        },
    }
}

/// No row of the catalogue is lost or rewritten by merging the ids that a
/// provider lists. Every id is accounted for, and every one with a context is
/// in the catalogue afterwards.
pub proof fn discovery_keeps_rows(
    m: Merge,
    ids: Seq<Seq<char>>,
    list_url: Seq<char>,
    default_context: Option<u32>,
    mirror: MirrorView,
    today: Seq<char>,
)
    ensures
        ({
            let after = discovered_merge(m, ids, list_url, default_context, mirror, today);
            &&& keeps_rows(m.models, after.models)
            &&& after.stats.seen() == m.stats.seen() + ids.len()
            &&& forall|i: int|
                0 <= i < ids.len() && found_context(
                    #[trigger] ids[i],
                    list_url,
                    default_context,
                    mirror.contexts,
                ) is Some ==> keyed::lookup(after.models, ids[i]) is Some
        }),
    decreases ids.len(),
{
    if ids.len() > 0 {
        let rest = ids.drop_last();
        discovery_keeps_rows(m, rest, list_url, default_context, mirror, today);
        let before = discovered_merge(m, rest, list_url, default_context, mirror, today);
        let after = discovered_merge(m, ids, list_url, default_context, mirror, today);
        lemma_discovered_step_keeps(
            before,
            ids.last(),
            list_url,
            default_context,
            mirror,
            today,
        );
        assert forall|i: int|
            0 <= i < ids.len() && found_context(
                #[trigger] ids[i],
                list_url,
                default_context,
                mirror.contexts,
            ) is Some implies keyed::lookup(after.models, ids[i]) is Some by {
            if i < rest.len() {
                assert(rest[i] == ids[i]);
                assert(keyed::lookup(before.models, rest[i]) is Some);
            }
        }
    }
}

/// Merging the same ids a second time adds none.
pub proof fn second_discovery_adds_nothing(
    m: Merge,
    ids: Seq<Seq<char>>,
    list_url: Seq<char>,
    default_context: Option<u32>,
    mirror: MirrorView,
    today: Seq<char>,
)
    ensures
        ({
            let once = discovered_merge(m, ids, list_url, default_context, mirror, today);
            let again = Merge { models: once.models, stats: no_stats() };
            discovered_merge(again, ids, list_url, default_context, mirror, today).stats.added
                == Seq::<Seq<char>>::empty()
        }),
{
    let once = discovered_merge(m, ids, list_url, default_context, mirror, today);
    discovery_keeps_rows(m, ids, list_url, default_context, mirror, today);
    lemma_known_ids_add_nothing(
        Merge { models: once.models, stats: no_stats() },
        ids,
        list_url,
        default_context,
        mirror,
        today,
    );
}

proof fn lemma_known_ids_add_nothing(
    m: Merge,
    ids: Seq<Seq<char>>,
    list_url: Seq<char>,
    default_context: Option<u32>,
    mirror: MirrorView,
    today: Seq<char>,
)
    requires
        forall|i: int|
            0 <= i < ids.len() && found_context(
                #[trigger] ids[i],
                list_url,
                default_context,
                mirror.contexts,
            ) is Some ==> keyed::lookup(m.models, ids[i]) is Some,
    ensures
        discovered_merge(m, ids, list_url, default_context, mirror, today).stats.added
            == m.stats.added,
    decreases ids.len(),
{
    if ids.len() > 0 {
        let rest = ids.drop_last();
        assert forall|i: int|
            0 <= i < rest.len() && found_context(
                #[trigger] rest[i],
                list_url,
                default_context,
                mirror.contexts,
            ) is Some implies keyed::lookup(m.models, rest[i]) is Some by {
            assert(rest[i] == ids[i]);
        }
        lemma_known_ids_add_nothing(m, rest, list_url, default_context, mirror, today);
        discovery_keeps_rows(m, rest, list_url, default_context, mirror, today);
        let before = discovered_merge(m, rest, list_url, default_context, mirror, today);
        let id = ids[ids.len() - 1];
        assert(found_context(id, list_url, default_context, mirror.contexts) is Some
            ==> keyed::lookup(m.models, id) is Some);
        assert(keyed::lookup(m.models, id) is Some ==> keyed::lookup(before.models, id) is Some);
    }
}

// ---------------------------------------------------------------------------
// What new rows say
// ---------------------------------------------------------------------------

proof fn lemma_openrouter_leaves(
    m: Merge,
    rows: Seq<OpenRouterModel>,
    today: Seq<char>,
    id: Seq<char>,
)
    requires
        forall|j: int|
            0 <= j < rows.len() ==> (#[trigger] rows[j]).id@ != id || rows[j].context_length is None,
    ensures
        keyed::lookup(openrouter_merge(m, rows, today).models, id) == keyed::lookup(m.models, id),
    decreases rows.len(),
{
    if rows.len() > 0 {
        let t = rows.drop_last();
        let row = rows[rows.len() - 1];
        assert forall|j: int| 0 <= j < t.len() implies (#[trigger] t[j]).id@ != id
            || t[j].context_length is None by {
            assert(rows[j].id@ != id || rows[j].context_length is None);
        }
        lemma_openrouter_leaves(m, t, today, id);
        let before = openrouter_merge(m, t, today);
        if row.context_length is Some && keyed::lookup(before.models, row.id@) is None {
            let after = openrouter_step(before, row, today);
            keyed::entry_set_is_found(
                before.models,
                row.id@,
                EntryView {
                    context: row.context_length,
                    max_output: match row.top_provider {
                        Some(p) => p.max_completion_tokens,
                        None => None,
                    },
                    source: Some(OPENROUTER_URL@),
                    verified_at: Some(today),
                    free: Some(row.free()),
                    chat: row.chat(),
                },
                id,
            );
        }
    }
}

/// Every model of OpenRouter that is new and has a context is entered with
/// what its row says: its context, its longest output where that is given, the
/// day, and as free where nothing is asked for it, and is reported as added. A
/// model without a context is not entered.
pub proof fn openrouter_rows_are_entered(
    m: Merge,
    rows: Seq<OpenRouterModel>,
    today: Seq<char>,
    i: int,
)
    requires
        0 <= i < rows.len(),
        keyed::lookup(m.models, rows[i].id@) is None,
        forall|j: int| 0 <= j < i ==> (#[trigger] rows[j]).id@ != rows[i].id@,
    ensures
        ({
            let after = openrouter_merge(m, rows, today);
            let row = rows[i];
            if row.context_length is Some {
                &&& after.stats.added.contains(row.id@)
                &&& keyed::lookup(after.models, row.id@) matches Some(e)
                &&& e.context == row.context_length
                &&& e.max_output == (match row.top_provider {
                    Some(p) => p.max_completion_tokens,
                    None => None,
                })
                &&& e.source == Some(OPENROUTER_URL@)
                &&& e.verified_at == Some(today)
                &&& e.free == Some(
                    row.pricing is Some && row.pricing->0.prompt_is_zero
                        && row.pricing->0.completion_is_zero,
                )
                &&& e.chat == row.chat()
            } else {
                (forall|j: int|
                    i < j < rows.len() ==> (#[trigger] rows[j]).id@ != row.id@) ==> keyed::lookup(
                    after.models,
                    row.id@,
                ) is None
            }
        }),
    decreases rows.len(),
{
    let t = rows.drop_last();
    let last = rows[rows.len() - 1];
    let row = rows[i];
    let id = row.id@;
    let before = openrouter_merge(m, t, today);
    let after = openrouter_merge(m, rows, today);
    let entry = EntryView {
        context: last.context_length,
        max_output: match last.top_provider {
            Some(p) => p.max_completion_tokens,
            None => None,
        },
        source: Some(OPENROUTER_URL@),
        verified_at: Some(today),
        free: Some(last.free()),
        chat: last.chat(),
    };
    keyed::entry_set_is_found(before.models, last.id@, entry, id);
    keyed::lemma_push_contains(before.stats.added, last.id@, id);
    if row.context_length is None {
        if forall|j: int| i < j < rows.len() ==> (#[trigger] rows[j]).id@ != id {
            lemma_openrouter_leaves(m, rows, today, id);
        }
    } else if i == rows.len() - 1 {
        assert forall|j: int| 0 <= j < t.len() implies (#[trigger] t[j]).id@ != id
            || t[j].context_length is None by {
            assert(rows[j].id@ != id);
        }
        lemma_openrouter_leaves(m, t, today, id);
    } else {
        assert forall|j: int| 0 <= j < i implies (#[trigger] t[j]).id@ != t[i].id@ by {
            assert(rows[j].id@ != rows[i].id@);
        }
        openrouter_rows_are_entered(m, t, today, i);
    }
}

proof fn lemma_gemini_leaves(m: Merge, rows: Seq<GeminiModel>, today: Seq<char>, id: Seq<char>)
    requires
        forall|j: int| 0 <= j < rows.len() ==> gemini_id((#[trigger] rows[j]).name@) != id,
    ensures
        keyed::lookup(gemini_merge(m, rows, today).models, id) == keyed::lookup(m.models, id),
    decreases rows.len(),
{
    if rows.len() > 0 {
        let t = rows.drop_last();
        let row = rows[rows.len() - 1];
        assert forall|j: int| 0 <= j < t.len() implies gemini_id((#[trigger] t[j]).name@)
            != id by {
            assert(gemini_id(rows[j].name@) != id);
        }
        lemma_gemini_leaves(m, t, today, id);
        let before = gemini_merge(m, t, today);
        keyed::entry_set_is_found(
            before.models,
            gemini_id(row.name@),
            EntryView {
                context: row.input_token_limit,
                max_output: row.output_token_limit,
                source: Some(GEMINI_URL@),
                verified_at: Some(today),
                free: None,
                chat: None,
            },
            id,
        );
    }
}

/// A model of Gemini goes by its name without the word that the list puts in
/// front.
pub proof fn gemini_ids_are_bare(name: Seq<char>)
    ensures
        gemini_id("models/"@ + name) == name,
        !text::has_prefix(name, "models/"@) ==> gemini_id(name) == name,
{
    let full = "models/"@ + name;
    assert(full.take("models/"@.len() as int) =~= "models/"@);
    assert(full.skip("models/"@.len() as int) =~= name);
}

/// Every model of Gemini that is new and has a limit is entered with what its
/// row says, and is reported as added.
pub proof fn gemini_rows_are_entered(m: Merge, rows: Seq<GeminiModel>, today: Seq<char>, i: int)
    requires
        0 <= i < rows.len(),
        rows[i].input_token_limit is Some,
        keyed::lookup(m.models, gemini_id(rows[i].name@)) is None,
        forall|j: int|
            0 <= j < i ==> gemini_id((#[trigger] rows[j]).name@) != gemini_id(rows[i].name@),
    ensures
        ({
            let after = gemini_merge(m, rows, today);
            let id = gemini_id(rows[i].name@);
            &&& after.stats.added.contains(id)
            &&& keyed::lookup(after.models, id) matches Some(e)
            &&& e.context == rows[i].input_token_limit
            &&& e.max_output == rows[i].output_token_limit
            &&& e.source == Some(GEMINI_URL@)
            &&& e.verified_at == Some(today)
        }),
    decreases rows.len(),
{
    let t = rows.drop_last();
    let last = rows[rows.len() - 1];
    let id = gemini_id(rows[i].name@);
    let before = gemini_merge(m, t, today);
    keyed::entry_set_is_found(
        before.models,
        gemini_id(last.name@),
        EntryView {
            context: last.input_token_limit,
            max_output: last.output_token_limit,
            source: Some(GEMINI_URL@),
            verified_at: Some(today),
            free: None,
            chat: None,
        },
        id,
    );
    keyed::lemma_push_contains(before.stats.added, gemini_id(last.name@), id);
    if i == rows.len() - 1 {
        assert forall|j: int| 0 <= j < t.len() implies gemini_id((#[trigger] t[j]).name@)
            != id by {
            assert(gemini_id(rows[j].name@) != id);
        }
        lemma_gemini_leaves(m, t, today, id);
    } else {
        assert forall|j: int| 0 <= j < i implies gemini_id((#[trigger] t[j]).name@) != gemini_id(
            t[i].name@,
        ) by {
            assert(gemini_id(rows[j].name@) != gemini_id(rows[i].name@));
        }
        gemini_rows_are_entered(m, t, today, i);
    }
}

/// What the mirror knows of a bare id is what the last row with that bare id
/// and a context says.
pub proof fn mirror_knows_the_last_row(rows: Seq<OpenRouterModel>, i: int)
    requires
        0 <= i < rows.len(),
        rows[i].context_length is Some,
        forall|j: int|
            i < j < rows.len() ==> bare_of((#[trigger] rows[j]).id@) != bare_of(rows[i].id@)
                || rows[j].context_length is None,
    ensures
        keyed::lookup(mirror_of(rows).contexts, bare_of(rows[i].id@)) == rows[i].context_length,
    decreases rows.len(),
{
    let t = rows.drop_last();
    let last = rows[rows.len() - 1];
    let id = bare_of(rows[i].id@);
    let before = mirror_of(t);
    if let Some(n) = last.context_length {
        keyed::entry_set_is_found(before.contexts, bare_of(last.id@), n, id);
    }
    if i < rows.len() - 1 {
        assert forall|j: int| i < j < t.len() implies bare_of((#[trigger] t[j]).id@) != bare_of(
            t[i].id@,
        ) || t[j].context_length is None by {
            assert(bare_of(rows[j].id@) != bare_of(rows[i].id@) || rows[j].context_length is None);
        }
        mirror_knows_the_last_row(t, i);
    }
}

/// An id without what stands before its last slash.
pub proof fn bare_ids_stand_behind_the_last_slash(lead: Seq<char>, name: Seq<char>)
    requires
        !name.contains('/'),
    ensures
        bare_of(name) == name,
        bare_of(lead.push('/') + name) == name,
    decreases name.len(),
{
    let full = lead.push('/') + name;
    if name.len() == 0 {
        assert(full =~= lead.push('/'));
        assert(full.drop_last() =~= lead);
        assert(text::split_of(full, '/').last() =~= name);
        assert(text::split_of(name, '/').last() =~= name);
    } else {
        let d = name.drop_last();
        assert forall|k: int| 0 <= k < d.len() implies d[k] != '/' by {
            assert(d[k] == name[k]);
            if name[k] == '/' {
                assert(name.contains('/'));
            }
        }
        bare_ids_stand_behind_the_last_slash(lead, d);
        assert(full.drop_last() =~= lead.push('/') + d);
        assert(name[name.len() - 1] != '/') by {
            if name[name.len() - 1] == '/' {
                assert(name.contains('/'));
            }
        }
        text::lemma_split_nonempty(d, '/');
        text::lemma_split_nonempty(lead.push('/') + d, '/');
        assert(bare_of(name) =~= d.push(name.last()));
        assert(bare_of(full) =~= d.push(name.last()));
        assert(d.push(name.last()) =~= name);
    }
}

/// What merging an id that a provider lists leaves in the catalogue. A model
/// that is there keeps all that is known of it, and has its longest output
/// filled in where that was missing. A new one gets the context that the mirror
/// knows of its bare id, else the provider's default.
pub proof fn discovered_ids_are_entered(
    m: Merge,
    id: Seq<char>,
    list_url: Seq<char>,
    default_context: Option<u32>,
    mirror: MirrorView,
    today: Seq<char>,
)
    ensures
        ({
            let after = discovered_merge(m, seq![id], list_url, default_context, mirror, today);
            let known = keyed::lookup(mirror.contexts, bare_of(id));
            let output = keyed::lookup(mirror.outputs, bare_of(id));
            match keyed::lookup(m.models, id) {
                Some(old_row) => keyed::lookup(after.models, id) == Some(
                    EntryView {
                        max_output: if old_row.max_output is Some {
                            old_row.max_output
                        } else {
                            output
                        },
                        ..old_row
                    },
                ) && after.stats.added == m.stats.added,
                None => if known is Some || default_context is Some {
                    &&& keyed::lookup(after.models, id) matches Some(e)
                    &&& e.context == (if known is Some {
                        known
                    } else {
                        default_context
                    })
                    &&& e.max_output == output
                    &&& e.verified_at == Some(today)
                    &&& after.stats.added == m.stats.added.push(id)
                } else {
                    after.models == m.models && after.stats.added == m.stats.added
                },
            }
        }),
{
    let after = discovered_merge(m, seq![id], list_url, default_context, mirror, today);
    assert(seq![id].drop_last() =~= Seq::empty());
    assert(discovered_merge(
        m,
        seq![id].drop_last(),
        list_url,
        default_context,
        mirror,
        today,
    ) == m);
    assert(after == discovered_step(m, id, list_url, default_context, mirror, today));
    let output = keyed::lookup(mirror.outputs, bare_of(id));
    match keyed::lookup(m.models, id) {
        Some(e) => {
            keyed::entry_set_is_found(
                m.models,
                id,
                EntryView {
                    max_output: if e.max_output is None {
                        output
                    } else {
                        e.max_output
                    },
                    ..e
                },
                id,
            );
        },
        None => {
            if let Some(found) = found_context(id, list_url, default_context, mirror.contexts) {
                keyed::entry_set_is_found(
                    m.models,
                    id,
                    EntryView {
                        context: Some(found.0),
                        max_output: output,
                        source: Some(found.1),
                        verified_at: Some(today),
                        free: None,
                        chat: None,
                    },
                    id,
                );
            }
        },
    }
}

// ---------------------------------------------------------------------------
// Which ids chat
// ---------------------------------------------------------------------------

/// An id of one of these families.
pub open spec fn is_of_family(id: Seq<char>, families: Seq<Seq<char>>) -> bool {
    exists|k: int| 0 <= k < families.len() && text::has_prefix(id, #[trigger] families[k])
}

/// An id that none of these words stands in.
pub open spec fn has_none_of(id: Seq<char>, words: Seq<Seq<char>>) -> bool {
    forall|k: int| 0 <= k < words.len() ==> !text::contains_text(id, #[trigger] words[k])
}

/// The models of OpenAI that chat: those of the families that do, but for
/// fine-tuned ones and for those that are for another medium or for search.
pub proof fn openai_chat_families(id: Seq<char>)
    ensures
        openai_chat(id) <==> is_of_family(
            id,
            seq!["gpt-"@, "chatgpt-"@, "o1"@, "o3"@, "o4"@, "o5"@],
        ) && has_none_of(
            id,
            seq!["image"@, "-transcribe"@, "-realtime"@, "-audio"@, "-tts"@, "-search-preview"@],
        ) && !text::has_prefix(id, "ft:"@),
{
    let f = seq!["gpt-"@, "chatgpt-"@, "o1"@, "o3"@, "o4"@, "o5"@];
    let w = seq!["image"@, "-transcribe"@, "-realtime"@, "-audio"@, "-tts"@, "-search-preview"@];
    if openai_chat(id) {
        assert(f[0] == "gpt-"@ && f[1] == "chatgpt-"@ && f[2] == "o1"@ && f[3] == "o3"@ && f[4]
            == "o4"@ && f[5] == "o5"@);
    }
    if has_none_of(id, w) {
        assert(!text::contains_text(id, w[0]));
        assert(!text::contains_text(id, w[1]));
        assert(!text::contains_text(id, w[2]));
        assert(!text::contains_text(id, w[3]));
        assert(!text::contains_text(id, w[4]));
        assert(!text::contains_text(id, w[5]));
    }
}

/// The models of Gemini that chat: those that are neither for another use nor
/// out of service.
pub proof fn gemini_chat_families(id: Seq<char>)
    ensures
        gemini_chat(id) <==> is_of_family(id, seq!["gemini-"@]) && has_none_of(
            id,
            seq!["embedding"@, "-tts"@, "robotics"@, "-image"@, "-audio"@, "computer-use"@],
        ) && !is_of_family(id, seq!["gemini-1."@, "gemini-2.0-flash"@]) && !seq![
            "gemini-pro"@,
            "gemini-pro-vision"@,
            "gemini-3-pro-preview"@,
        ].contains(id),
{
    let f = seq!["gemini-"@];
    let w = seq!["embedding"@, "-tts"@, "robotics"@, "-image"@, "-audio"@, "computer-use"@];
    let g = seq!["gemini-1."@, "gemini-2.0-flash"@];
    let n = seq!["gemini-pro"@, "gemini-pro-vision"@, "gemini-3-pro-preview"@];
    assert(f[0] == "gemini-"@);
    assert(g[0] == "gemini-1."@ && g[1] == "gemini-2.0-flash"@);
    assert(n[0] == "gemini-pro"@ && n[1] == "gemini-pro-vision"@ && n[2]
        == "gemini-3-pro-preview"@);
    if has_none_of(id, w) {
        assert(!text::contains_text(id, w[0]));
        assert(!text::contains_text(id, w[1]));
        assert(!text::contains_text(id, w[2]));
        assert(!text::contains_text(id, w[3]));
        assert(!text::contains_text(id, w[4]));
        assert(!text::contains_text(id, w[5]));
    }
}

/// The models of DashScope that chat: those of Qwen that are not for another
/// use.
pub proof fn dashscope_chat_families(id: Seq<char>)
    ensures
        dashscope_chat(id) <==> is_of_family(id, seq!["qwen"@]) && has_none_of(
            id,
            seq![
                "embedding"@,
                "rerank"@,
                "-audio"@,
                "-tts"@,
                "-asr"@,
                "-image"@,
                "-mt-"@,
            ],
        ),
{
    let f = seq!["qwen"@];
    let w = seq!["embedding"@, "rerank"@, "-audio"@, "-tts"@, "-asr"@, "-image"@, "-mt-"@];
    assert(f[0] == "qwen"@);
    if has_none_of(id, w) {
        assert(!text::contains_text(id, w[0]));
        assert(!text::contains_text(id, w[1]));
        assert(!text::contains_text(id, w[2]));
        assert(!text::contains_text(id, w[3]));
        assert(!text::contains_text(id, w[4]));
        assert(!text::contains_text(id, w[5]));
        assert(!text::contains_text(id, w[6]));
    }
}

/// A medium goes by this name, in whatever case and between whatever blanks.
pub open spec fn is_named(x: String, w: Seq<char>) -> bool {
    text::ascii_lower_of(text::trim_of(x@)) == w
}

/// A medium of this name is among those listed.
pub open spec fn gives(list: Seq<String>, w: Seq<char>) -> bool {
    exists|i: int| 0 <= i < list.len() && #[trigger] is_named(list[i], w)
}

proof fn lemma_gives(list: Seq<String>, w: Seq<char>)
    ensures
        gives(list, w) <==> plain_names(text::views(list)).contains(w),
{
    let o = plain_names(text::views(list));
    assert forall|i: int| 0 <= i < list.len() implies (#[trigger] o[i] == w) == is_named(
        list[i],
        w,
    ) by {
        assert(text::views(list)[i] == list[i]@);
    }
    if gives(list, w) {
        let i = choose|i: int| 0 <= i < list.len() && #[trigger] is_named(list[i], w);
        assert(o[i] == w);
    }
    if o.contains(w) {
        let i = choose|i: int| 0 <= i < o.len() && o[i] == w;
        assert(is_named(list[i], w));
    }
}

/// A model of OpenRouter that lists its media chats where it gives text and
/// none of the other media; whether one that gives neither does is not known.
pub proof fn chatting_models_give_text_only(m: OpenRouterModel, list: Vec<String>)
    requires
        m.architecture is Some,
        m.architecture->0.output_modalities == Some(list),
        list@.len() > 0,
    ensures
        m.chat() == if gives(list@, "audio"@) || gives(list@, "image"@) || gives(list@, "video"@)
            || gives(list@, "embedding"@) || gives(list@, "embeddings"@) {
            Some(false)
        } else if gives(list@, "text"@) {
            Some(true)
        } else {
            None
        },
{
    let o = plain_names(text::views(list@));
    lemma_gives(list@, "audio"@);
    lemma_gives(list@, "image"@);
    lemma_gives(list@, "video"@);
    lemma_gives(list@, "embedding"@);
    lemma_gives(list@, "embeddings"@);
    lemma_gives(list@, "text"@);
    if o.contains("audio"@) || o.contains("image"@) || o.contains("video"@) || o.contains(
        "embedding"@,
    ) || o.contains("embeddings"@) {
        let i = choose|i: int|
            0 <= i < o.len() && (o[i] == "audio"@ || o[i] == "image"@ || o[i] == "video"@ || o[i]
                == "embedding"@ || o[i] == "embeddings"@);
        assert(non_chat(o[i]));
    }
}

/// The rows that a merge has counted, whatever became of them.
pub open spec fn counted(s: StatsView) -> int {
    s.added.len() + s.unchanged + s.skipped_no_context
}

/// Every row of OpenRouter is counted once, as new, as there already or as left
/// out; only one without a context is left out.
pub proof fn openrouter_rows_are_counted(m: Merge, rows: Seq<OpenRouterModel>, today: Seq<char>)
    ensures
        counted(openrouter_merge(m, rows, today).stats) == counted(m.stats) + rows.len(),
        (forall|i: int| 0 <= i < rows.len() ==> (#[trigger] rows[i]).context_length is Some)
            ==> openrouter_merge(m, rows, today).stats.skipped_no_context
            == m.stats.skipped_no_context,
    decreases rows.len(),
{
    if rows.len() > 0 {
        let d = rows.drop_last();
        openrouter_rows_are_counted(m, d, today);
        if forall|i: int| 0 <= i < rows.len() ==> (#[trigger] rows[i]).context_length is Some {
            assert forall|i: int| 0 <= i < d.len() implies (#[trigger] d[i]).context_length
                is Some by {
                assert(d[i] == rows[i]);
            }
            assert(rows[rows.len() - 1].context_length is Some);
        }
    }
}

/// Every row of Gemini is counted once; only one without a context is left out.
pub proof fn gemini_rows_are_counted(m: Merge, rows: Seq<GeminiModel>, today: Seq<char>)
    ensures
        counted(gemini_merge(m, rows, today).stats) == counted(m.stats) + rows.len(),
        (forall|i: int| 0 <= i < rows.len() ==> (#[trigger] rows[i]).input_token_limit is Some)
            ==> gemini_merge(m, rows, today).stats.skipped_no_context
            == m.stats.skipped_no_context,
    decreases rows.len(),
{
    if rows.len() > 0 {
        let d = rows.drop_last();
        gemini_rows_are_counted(m, d, today);
        if forall|i: int| 0 <= i < rows.len() ==> (#[trigger] rows[i]).input_token_limit is Some {
            assert forall|i: int| 0 <= i < d.len() implies (#[trigger] d[i]).input_token_limit
                is Some by {
                assert(d[i] == rows[i]);
            }
            assert(rows[rows.len() - 1].input_token_limit is Some);
        }
    }
}

/// Every id that a provider lists is counted once; none is left out where the
/// provider has a context for its models.
pub proof fn listed_ids_are_counted(
    m: Merge,
    ids: Seq<Seq<char>>,
    list_url: Seq<char>,
    default_context: Option<u32>,
    mirror: MirrorView,
    today: Seq<char>,
)
    ensures
        counted(discovered_merge(m, ids, list_url, default_context, mirror, today).stats)
            == counted(m.stats) + ids.len(),
        default_context is Some ==> discovered_merge(
            m,
            ids,
            list_url,
            default_context,
            mirror,
            today,
        ).stats.skipped_no_context == m.stats.skipped_no_context,
    decreases ids.len(),
{
    if ids.len() > 0 {
        listed_ids_are_counted(m, ids.drop_last(), list_url, default_context, mirror, today);
    }
}

/// A medium of this name is among those joined by `+`.
pub open spec fn is_joined_in(joined: Seq<char>, w: Seq<char>) -> bool {
    exists|i: int|
        0 <= i < text::split_of(joined, '+').len() && text::ascii_lower_of(
            text::trim_of(#[trigger] text::split_of(joined, '+')[i]),
        ) == w
}

proof fn lemma_joined_in(joined: Seq<char>, w: Seq<char>)
    ensures
        is_joined_in(joined, w) <==> plain_names(text::split_of(joined, '+')).contains(w),
{
    let parts = text::split_of(joined, '+');
    let o = plain_names(parts);
    if is_joined_in(joined, w) {
        let i = choose|i: int|
            0 <= i < parts.len() && text::ascii_lower_of(text::trim_of(#[trigger] parts[i])) == w;
        assert(o[i] == w);
    }
    if o.contains(w) {
        let i = choose|i: int| 0 <= i < o.len() && o[i] == w;
        assert(text::ascii_lower_of(text::trim_of(parts[i])) == w);
    }
}

/// Where the media are told in one text, those that a model gives stand behind
/// the arrow, and what it takes makes no difference.
pub proof fn media_behind_the_arrow_count(
    m: OpenRouterModel,
    takes: Seq<char>,
    gives: Seq<char>,
)
    requires
        m.architecture is Some,
        m.architecture->0.output_modalities is None,
        m.architecture->0.modality is Some,
        m.architecture->0.modality->0@ == takes + "->"@ + gives,
        !takes.contains('-'),
        !gives.contains('-'),
        text::trim_of(gives).len() > 0,
    ensures
        ({
            let given = text::trim_of(gives);
            m.chat() == if is_joined_in(given, "audio"@) || is_joined_in(given, "image"@)
                || is_joined_in(given, "video"@) || is_joined_in(given, "embedding"@)
                || is_joined_in(given, "embeddings"@) {
                Some(false)
            } else if is_joined_in(given, "text"@) {
                Some(true)
            } else {
                None
            }
        }),
{
    reveal_strlit("->");
    text::marks_part_a_text(takes, "->"@, gives);
    text::marks_part_a_text(gives, "->"@, Seq::empty());
    let given = text::trim_of(gives);
    let o = plain_names(text::split_of(given, '+'));
    assert(outputs_of(m.architecture->0) == Some(o));
    lemma_joined_in(given, "audio"@);
    lemma_joined_in(given, "image"@);
    lemma_joined_in(given, "video"@);
    lemma_joined_in(given, "embedding"@);
    lemma_joined_in(given, "embeddings"@);
    lemma_joined_in(given, "text"@);
    if o.contains("audio"@) || o.contains("image"@) || o.contains("video"@) || o.contains(
        "embedding"@,
    ) || o.contains("embeddings"@) {
        let i = choose|i: int|
            0 <= i < o.len() && (o[i] == "audio"@ || o[i] == "image"@ || o[i] == "video"@ || o[i]
                == "embedding"@ || o[i] == "embeddings"@);
        assert(non_chat(o[i]));
    }
}

} // verus!
