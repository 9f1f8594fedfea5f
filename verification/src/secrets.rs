//! Keys: where they are kept, which are known of, and which go into the
//! environment.

use vstd::prelude::*;

use crate::json::{self, Json};
use crate::keyed::{self, Keyed};
use crate::paths;
use crate::text;
use crate::types::{Error, ErrorView};

verus! {

/// The name under which the system's keychain holds everything.
pub const SERVICE: &'static str = "thclaws";

/// The one entry that holds all keys, so that the system asks but once.
pub const BUNDLE_ACCOUNT: &'static str = "api-keys";

/// The providers whose keys are kept, and the variables that hold them.
pub const MANAGED: [(&'static str, &'static str); 14] = [
    ("agentic-press", "AGENTIC_PRESS_LLM_API_KEY"),
    ("anthropic", "ANTHROPIC_API_KEY"),
    ("openai", "OPENAI_API_KEY"),
    ("openrouter", "OPENROUTER_API_KEY"),
    ("gemini", "GEMINI_API_KEY"),
    ("dashscope", "DASHSCOPE_API_KEY"),
    ("qwen-cloud", "QWENCLOUD_API_KEY"),
    ("ollama-cloud", "OLLAMA_CLOUD_API_KEY"),
    ("zai", "ZAI_API_KEY"),
    ("azure", "AZURE_AI_FOUNDRY_API_KEY"),
    ("openai-compat", "OPENAI_COMPAT_API_KEY"),
    ("deepseek", "DEEPSEEK_API_KEY"),
    ("thaillm", "THAILLM_API_KEY"),
    ("nvidia", "NVIDIA_API_KEY"),
];

/// Other services whose keys are kept, and the variables that hold them.
pub const SERVICE_KEYS: [(&'static str, &'static str); 3] = [
    ("tavily", "TAVILY_API_KEY"),
    ("brave-search", "BRAVE_SEARCH_API_KEY"),
    ("hal", "HAL_API_KEY"),
];

/// Where the user has chosen to keep keys.
#[derive(Clone, Copy, Debug, PartialEq, Eq, Structural)]
pub enum Backend {
    Keychain,
    Dotenv,
}

impl Backend {
    pub fn as_str(self) -> (r: &'static str)
        ensures
            r@ == match self {
                Backend::Keychain => "keychain"@,
                Backend::Dotenv => "dotenv"@,
            },
    {
        match self {
            Backend::Keychain => "keychain",
            Backend::Dotenv => "dotenv",
        }
    }
}

/// Where the user's choice is kept, given the home directory.
pub fn backend_path(home: Option<&str>) -> (r: Option<String>)
    ensures
        text::view_opt(r) == match home {
            Some(h) => Some(paths::join_of(h@, ".config/thclaws/secrets.json"@)),
            None => None,
        },
{
    match home {
        Some(h) => Some(paths::join(h, ".config/thclaws/secrets.json")),
        None => None,
    }
}

/// Where keys are kept right now. As long as the user has not chosen, the
/// keychain is left alone.
pub fn resolved_backend(chosen: Option<Backend>) -> (r: Backend)
    ensures
        r == match chosen {
            Some(b) => b,
            None => Backend::Dotenv,
        },
{
    match chosen {
        Some(b) => b,
        None => Backend::Dotenv,
    }
}

/// The variable of a service, where it is one of those that are known.
pub open spec fn service_var(name: Seq<char>) -> Option<Seq<char>> {
    if name == "tavily"@ {
        Some("TAVILY_API_KEY"@)
    } else if name == "brave-search"@ {
        Some("BRAVE_SEARCH_API_KEY"@)
    } else if name == "hal"@ {
        Some("HAL_API_KEY"@)
    } else {
        None
    }
}

/// The variable of a service.
pub fn service_env_var(name: &str) -> (r: Option<&'static str>)
    ensures
        text::view_opt(r) == service_var(name@),
{
    let keys = SERVICE_KEYS;
    let mut i: usize = 0;
    while i < 3
        invariant
            i <= 3,
            keys@ == SERVICE_KEYS@,
            i > 0 ==> name@ != "tavily"@,
            i > 1 ==> name@ != "brave-search"@,
            i > 2 ==> name@ != "hal"@,
        decreases 3 - i,
    {
        if text::same(keys[i].0, name) {
            return Some(keys[i].1);
        }
        i = i + 1;
    }
    None
}

// ---------------------------------------------------------------------------
// The bundle
// ---------------------------------------------------------------------------

/// The texts of an object all of whose members are texts.
pub open spec fn text_members(m: Seq<(Seq<char>, json::JsonView)>) -> Option<
    Seq<(Seq<char>, Seq<char>)>,
>
    decreases m.len(),
{
    if m.len() == 0 {
        Some(Seq::empty())
    } else {
        match (text_members(m.drop_last()), m.last().1.as_text()) {
            (Some(before), Some(t)) => Some(keyed::with_entry(before, m.last().0, t)),
            _ => None,
        }
    }
}

/// The keys that an entry of the keychain holds; none where it is missing or
/// cannot be read.
pub open spec fn bundle_of(entry: Option<Seq<char>>) -> Seq<(Seq<char>, Seq<char>)> {
    match entry {
        Some(t) => match json::json_parse(t) {
            Ok(json::JsonView::Obj(m)) => match text_members(m) {
                Some(keys) => keys,
                None => Seq::empty(),
            },
            _ => Seq::empty(),
        },
        None => Seq::empty(),
    }
}

/// The keys that an entry of the keychain holds.
pub fn parse_bundle(entry: Option<&str>) -> (r: Keyed<String>)
    ensures
        r@ == bundle_of(text::view_opt(entry)),
{
    let t = match entry {
        Some(t) => t,
        None => return Keyed::new(),
    };
    let doc = match json::parse_json(t) {
        Ok(doc) => doc,
        Err(_) => return Keyed::new(),
    };
    match &doc {
        Json::Obj(m) => {
            let ghost all = doc@.members();
            let mut r: Keyed<String> = Keyed::new();
            let n = m.len();
            let mut i: usize = 0;
            while i < n
                invariant
                    n == m@.len(),
                    n == all.len(),
                    i <= n,
                    entry is Some,
                    json::json_parse(entry->0@) == Ok::<json::JsonView, Seq<char>>(
                        json::JsonView::Obj(all),
                    ),
                    forall|k: int| 0 <= k < n ==> #[trigger] all[k] == (m@[k].0@, m@[k].1@),
                    text_members(all.take(i as int)) == Some(r@),
                decreases n - i,
            {
                proof {
                    assert(all.take(i + 1).drop_last() == all.take(i as int));
                    assert(all.take(i + 1).last() == all[i as int]);
                }
                match m[i].1.as_str() {
                    Some(key) => {
                        r.set(m[i].0.as_str(), key.to_string());
                    },
                    None => {
                        proof {
                            lemma_one_bad_member(all, i + 1);
                        }
                        return Keyed::new();
                    },
                }
                i = i + 1;
            }
            proof {
                assert(all.take(n as int) == all);
            }
            r
        },
        _ => Keyed::new(),
    }
}

proof fn lemma_one_bad_member(m: Seq<(Seq<char>, json::JsonView)>, i: int)
    requires
        0 <= i <= m.len(),
        text_members(m.take(i)) is None,
    ensures
        text_members(m) is None,
    decreases m.len() - i,
{
    if i < m.len() {
        assert(m.take(i + 1).drop_last() == m.take(i));
        lemma_one_bad_member(m, i + 1);
    } else {
        assert(m.take(i) == m);
    }
}

/// Keys as an object.
pub open spec fn bundle_json(keys: Seq<(Seq<char>, Seq<char>)>) -> json::JsonView
    decreases keys.len(),
{
    if keys.len() == 0 {
        json::JsonView::obj()
    } else {
        bundle_json(keys.drop_last()).with(
            keys.last().0,
            json::JsonView::text(keys.last().1),
        )
    }
}

proof fn lemma_bundle_json(keys: Seq<(Seq<char>, Seq<char>)>)
    requires
        keyed::unique_names(keys),
    ensures
        json::is_text_object(bundle_json(keys)),
        forall|name: Seq<char>| #[trigger]
            bundle_json(keys).get(name) == match keyed::lookup(keys, name) {
                Some(t) => Some(json::JsonView::Str(t)),
                None => None,
            },
    decreases keys.len(),
{
    if keys.len() > 0 {
        let d = keys.drop_last();
        let x = keys.last();
        let m = bundle_json(d).members();
        let v = json::JsonView::Str(x.1);
        let w = json::set_member(m, x.0, v);
        assert(keyed::unique_names(d)) by {
            assert forall|i: int, j: int| 0 <= i < j < d.len() implies (#[trigger] d[i]).0 != (
            #[trigger] d[j]).0 by {
                assert(keys[i].0 != keys[j].0);
            }
        }
        lemma_bundle_json(d);
        json::members_are_entries(m, x.0, v);
        keyed::setting_keeps_names_unique(m, x.0, v);
        keyed::entries_come_from(m, x.0, v);
        assert forall|i: int| 0 <= i < w.len() implies (#[trigger] w[i]).1 is Str by {
            if w[i] != (x.0, v) {
                let k = choose|k: int| 0 <= k < m.len() && m[k] == w[i];
                assert(m[k].1 is Str);
            }
        }
        assert(d.push(x) =~= keys);
        assert forall|name: Seq<char>| #[trigger]
            bundle_json(keys).get(name) == match keyed::lookup(keys, name) {
                Some(t) => Some(json::JsonView::Str(t)),
                None => None,
            } by {
            json::member_set_is_found(m, x.0, v, name);
            keyed::pushed_entry_is_last(d, x, name);
            if name == x.0 {
                keyed::found_is_listed(d, name);
                if keyed::lookup(d, name) is Some {
                    let i = choose|i: int| 0 <= i < d.len() && (#[trigger] d[i]).0 == name;
                    assert(keys[i].0 != keys[keys.len() - 1].0);
                }
            }
            assert(bundle_json(d).get(name) == json::find_member(m, name));
        }
    }
}

proof fn lemma_text_members(m: Seq<(Seq<char>, json::JsonView)>)
    requires
        keyed::unique_names(m),
        forall|i: int| 0 <= i < m.len() ==> (#[trigger] m[i]).1 is Str,
    ensures
        text_members(m) is Some,
        forall|name: Seq<char>| #[trigger]
            keyed::lookup(text_members(m)->0, name) == match json::find_member(m, name) {
                Some(v) => v.as_text(),
                None => None,
            },
    decreases m.len(),
{
    if m.len() > 0 {
        let d = m.drop_last();
        let x = m.last();
        assert(m[m.len() - 1].1 is Str);
        assert forall|i: int| 0 <= i < d.len() implies (#[trigger] d[i]).1 is Str by {
            assert(m[i].1 is Str);
        }
        assert(keyed::unique_names(d)) by {
            assert forall|i: int, j: int| 0 <= i < j < d.len() implies (#[trigger] d[i]).0 != (
            #[trigger] d[j]).0 by {
                assert(m[i].0 != m[j].0);
            }
        }
        lemma_text_members(d);
        let k = text_members(d)->0;
        let t = x.1.as_text()->0;
        assert(d.push(x) =~= m);
        assert forall|name: Seq<char>| #[trigger]
            keyed::lookup(text_members(m)->0, name) == match json::find_member(m, name) {
                Some(v) => v.as_text(),
                None => None,
            } by {
            keyed::entry_set_is_found(k, x.0, t, name);
            json::members_are_entries(m, name, x.1);
            json::members_are_entries(d, name, x.1);
            keyed::pushed_entry_is_last(d, x, name);
            assert(keyed::lookup(k, name) == match json::find_member(d, name) {
                Some(v) => v.as_text(),
                None => None,
            });
            if name == x.0 {
                keyed::found_is_listed(d, name);
                if keyed::lookup(d, name) is Some {
                    let i = choose|i: int| 0 <= i < d.len() && (#[trigger] d[i]).0 == name;
                    assert(m[i].0 != m[m.len() - 1].0);
                }
            }
        }
    } else {
        assert(text_members(m)->0 =~= Seq::empty());
    }
}

/// Keys as the entry of the keychain holds them. They read back as they are.
pub fn bundle_text(keys: &Keyed<String>) -> (r: String)
    ensures
        r@ == json::json_text(bundle_json(keys@)),
        keyed::unique_names(keys@) ==> forall|name: Seq<char>| #[trigger]
            keyed::lookup(bundle_of(Some(r@)), name) == keyed::lookup(keys@, name),
{
    let ghost all = keys@;
    let mut doc = Json::object();
    let n = keys.entries.len();
    let mut i: usize = 0;
    while i < n
        invariant
            n == keys.entries@.len(),
            all == keys@,
            i <= n,
            doc@ == bundle_json(all.take(i as int)),
        decreases n - i,
    {
        proof {
            assert(all.take(i + 1).drop_last() == all.take(i as int));
            assert(all.take(i + 1).last() == (keys.entries@[i as int].0@, keys.entries@[i as int].1@));
        }
        doc.put(keys.entries[i].0.as_str(), Json::text(keys.entries[i].1.as_str()));
        i = i + 1;
    }
    proof {
        assert(all.take(n as int) == all);
    }
    let r = json::render_json(&doc);
    proof {
        if keyed::unique_names(all) {
            lemma_bundle_json(all);
            let back = json::json_parse(r@)->Ok_0;
            lemma_text_members(back.members());
            assert forall|name: Seq<char>| #[trigger]
                keyed::lookup(bundle_of(Some(r@)), name) == keyed::lookup(all, name) by {
                assert(back.get(name) == doc@.get(name));
                assert(bundle_json(all).get(name) == match keyed::lookup(all, name) {
                    Some(t) => Some(json::JsonView::Str(t)),
                    None => None,
                });
            }
        }
    }
    r
}

/// What is known of the user's keys.
pub struct Vault {
    /// The environment keeps the keychain from being read.
    pub disabled: bool,
    pub chosen: Option<Backend>,
    pub bundle: Keyed<String>,
}

pub struct VaultView {
    pub disabled: bool,
    pub chosen: Option<Backend>,
    pub bundle: Seq<(Seq<char>, Seq<char>)>,
}

impl View for Vault {
    type V = VaultView;

    open spec fn view(&self) -> VaultView {
        VaultView { disabled: self.disabled, chosen: self.chosen, bundle: self.bundle@ }
    }
}

impl VaultView {
    /// The keychain may be read: the user chose it, and nothing forbids it.
    pub open spec fn may_read(self) -> bool {
        !self.disabled && self.chosen == Some(Backend::Keychain)
    }

    /// The key of a provider or a service.
    pub open spec fn key(self, name: Seq<char>) -> Option<Seq<char>> {
        if self.may_read() {
            keyed::lookup(self.bundle, name)
        } else {
            None
        }
    }
}

/// What to do with the keychain's entry after a key was taken out.
#[derive(Clone, Copy, Debug, PartialEq, Eq, Structural)]
pub enum ClearStep {
    Nothing,
    /// No key is left: remove the entry.
    Remove,
    Write,
}

/// Where a variable's value comes from.
#[derive(Clone, Copy, Debug, PartialEq, Eq, Structural)]
pub enum KeySource {
    /// It is set; by whom is not known.
    Environment,
    Unset,
}

/// What is known of a key.
#[derive(Clone, Copy, Debug, PartialEq, Eq)]
pub struct KeyStatus {
    pub provider: &'static str,
    pub env_var: &'static str,
    pub configured_in_keychain: bool,
    pub env_source: KeySource,
    /// The bytes of the value in the environment.
    pub key_length: usize,
    /// `provider` or `service`.
    pub kind: &'static str,
}

/// What is known of the key of a name, given the environment.
pub open spec fn has_status(
    s: KeyStatus,
    v: VaultView,
    env: Seq<(Seq<char>, Seq<char>)>,
    row: (&'static str, &'static str),
    kind: Seq<char>,
) -> bool {
    let value = keyed::lookup(env, row.1@);
    &&& s.provider == row.0
    &&& s.env_var == row.1
    &&& s.configured_in_keychain == v.key(row.0@) is Some
    &&& s.env_source == if value is Some {
        KeySource::Environment
    } else {
        KeySource::Unset
    }
    &&& s.key_length == match value {
        Some(t) => vstd::utf8::encode_utf8(t).len(),
        None => 0,
    }
    &&& s.kind@ == kind
}

/// A variable, and the value that it gets.
#[derive(Debug, PartialEq, Eq)]
pub struct Export {
    pub env_var: String,
    pub value: String,
}

impl View for Export {
    type V = (Seq<char>, Seq<char>);

    open spec fn view(&self) -> (Seq<char>, Seq<char>) {
        (self.env_var@, self.value@)
    }
}

/// The variables of some keys that are not set yet, with the keys that are
/// known.
pub open spec fn exports_of(
    rows: Seq<(&'static str, &'static str)>,
    v: VaultView,
    env: Seq<(Seq<char>, Seq<char>)>,
) -> Seq<(Seq<char>, Seq<char>)>
    decreases rows.len(),
{
    if rows.len() == 0 {
        Seq::empty()
    } else {
        let before = exports_of(rows.drop_last(), v, env);
        let row = rows.last();
        match (keyed::lookup(env, row.1@), v.key(row.0@)) {
            (None, Some(key)) => before.push((row.1@, key)),
            _ => before,
        }
    }
}

impl Vault {
    /// Whether the keychain may be read, before anything in it is known.
    pub fn may_read(disabled: bool, chosen: Option<Backend>) -> (r: bool)
        ensures
            r == (!disabled && chosen == Some(Backend::Keychain)),
    {
        !disabled && match chosen {
            Some(Backend::Keychain) => true,
            _ => false,
        }
    }

    /// The key of a provider or a service.
    pub fn get(&self, provider: &str) -> (r: Option<String>)
        ensures
            text::view_opt(r) == self@.key(provider@),
    {
        if !Vault::may_read(self.disabled, self.chosen) {
            return None;
        }
        match self.bundle.get(provider) {
            Some(k) => Some(k.clone()),
            None => None,
        }
    }

    /// Sets the key of a provider or a service, unless keys are not kept in
    /// the keychain; the bundle is then to be written.
    pub fn set(&mut self, provider: &str, key: &str) -> (r: Result<(), Error>)
        ensures
            final(self).disabled == old(self).disabled,
            final(self).chosen == old(self).chosen,
            if old(self).chosen == Some(Backend::Keychain) {
                r is Ok && final(self).bundle@ == keyed::with_entry(
                    old(self).bundle@,
                    provider@,
                    key@,
                )
            } else {
                (r matches Err(e) && e@ == ErrorView::Config(
                    "keychain disabled by user preference"@,
                )) && final(self).bundle@ == old(self).bundle@
            },
    {
        match resolved_backend(self.chosen) {
            Backend::Dotenv => Err(
                Error::Config("keychain disabled by user preference".to_string()),
            ),
            Backend::Keychain => {
                self.bundle.set(provider, key.to_string());
                Ok(())
            },
        }
    }

    /// Takes out the key of a provider or a service; says what to do with the
    /// keychain's entry.
    pub fn clear(&mut self, provider: &str) -> (r: ClearStep)
        ensures
            final(self).disabled == old(self).disabled,
            final(self).chosen == old(self).chosen,
            if old(self).chosen == Some(Backend::Keychain) {
                final(self).bundle@ == keyed::without_entry(old(self).bundle@, provider@) && r
                    == if final(self).bundle@.len() == 0 {
                    ClearStep::Remove
                } else {
                    ClearStep::Write
                }
            } else {
                final(self).bundle@ == old(self).bundle@ && r == ClearStep::Nothing
            },
    {
        match resolved_backend(self.chosen) {
            Backend::Dotenv => ClearStep::Nothing,
            Backend::Keychain => {
                self.bundle.remove(provider);
                if self.bundle.entries.len() == 0 {
                    ClearStep::Remove
                } else {
                    ClearStep::Write
                }
            },
        }
    }

    fn status_of(
        &self,
        env: &Keyed<String>,
        row: (&'static str, &'static str),
        kind: &'static str,
    ) -> (r: KeyStatus)
        ensures
            has_status(r, self@, env@, row, kind@),
    {
        let configured = self.get(row.0).is_some();
        let (env_source, key_length) = match env.get(row.1) {
            Some(v) => (KeySource::Environment, v.as_str().as_bytes().len()),
            None => (KeySource::Unset, 0),
        };
        KeyStatus {
            provider: row.0,
            env_var: row.1,
            configured_in_keychain: configured,
            env_source,
            key_length,
            kind,
        }
    }

    /// What is known of every key: the providers first, then the services.
    pub fn status(&self, env: &Keyed<String>) -> (r: Vec<KeyStatus>)
        ensures
            r@.len() == 17,
            forall|i: int|
                0 <= i < 14 ==> has_status(
                    #[trigger] r@[i],
                    self@,
                    env@,
                    MANAGED@[i],
                    "provider"@,
                ),
            forall|i: int|
                14 <= i < 17 ==> has_status(
                    #[trigger] r@[i],
                    self@,
                    env@,
                    SERVICE_KEYS@[i - 14],
                    "service"@,
                ),
    {
        let managed = MANAGED;
        let services = SERVICE_KEYS;
        let mut r: Vec<KeyStatus> = Vec::new();
        let mut i: usize = 0;
        while i < 14
            invariant
                i <= 14,
                managed@ == MANAGED@,
                r@.len() == i,
                forall|k: int|
                    0 <= k < i ==> has_status(
                        #[trigger] r@[k],
                        self@,
                        env@,
                        MANAGED@[k],
                        "provider"@,
                    ),
            decreases 14 - i,
        {
            let s = self.status_of(env, managed[i], "provider");
            r.push(s);
            i = i + 1;
        }
        let mut j: usize = 0;
        while j < 3
            invariant
                j <= 3,
                services@ == SERVICE_KEYS@,
                r@.len() == 14 + j,
                forall|k: int|
                    0 <= k < 14 ==> has_status(
                        #[trigger] r@[k],
                        self@,
                        env@,
                        MANAGED@[k],
                        "provider"@,
                    ),
                forall|k: int|
                    14 <= k < 14 + j ==> has_status(
                        #[trigger] r@[k],
                        self@,
                        env@,
                        SERVICE_KEYS@[k - 14],
                        "service"@,
                    ),
            decreases 3 - j,
        {
            let s = self.status_of(env, services[j], "service");
            r.push(s);
            j = j + 1;
        }
        r
    }

    fn push_export(
        &self,
        env: &Keyed<String>,
        row: (&'static str, &'static str),
        out: &mut Vec<Export>,
    )
        ensures
            text::views(final(out)@) == match (keyed::lookup(env@, row.1@), self@.key(row.0@)) {
                (None, Some(key)) => text::views(old(out)@).push((row.1@, key)),
                _ => text::views(old(out)@),
            },
    {
        broadcast use text::views_push;

        if env.get(row.1).is_none() {
            if let Some(key) = self.get(row.0) {
                out.push(Export { env_var: row.1.to_string(), value: key });
            }
        }
    }

    /// The keys that go into the environment: none where the user has not
    /// chosen the keychain, or where it has been done already; else every key
    /// that is known and whose variable is not set.
    pub fn load_into_env(&self, loaded: bool, env: &Keyed<String>) -> (r: Option<Vec<Export>>)
        ensures
            match r {
                Some(v) => self.chosen == Some(Backend::Keychain) && !loaded && text::views(v@)
                    == exports_of(MANAGED@, self@, env@) + exports_of(
                    SERVICE_KEYS@,
                    self@,
                    env@,
                ),
                None => self.chosen != Some(Backend::Keychain) || loaded,
            },
    {
        match self.chosen {
            Some(Backend::Keychain) => {},
            _ => return None,
        }
        if loaded {
            return None;
        }
        let managed = MANAGED;
        let services = SERVICE_KEYS;
        let mut out: Vec<Export> = Vec::new();
        let mut i: usize = 0;
        proof {
            assert(text::views(out@) =~= exports_of(MANAGED@.take(0), self@, env@));
        }
        while i < 14
            invariant
                i <= 14,
                managed@ == MANAGED@,
                text::views(out@) == exports_of(MANAGED@.take(i as int), self@, env@),
            decreases 14 - i,
        {
            proof {
                assert(MANAGED@.take(i + 1).drop_last() == MANAGED@.take(i as int));
                assert(MANAGED@.take(i + 1).last() == MANAGED@[i as int]);
            }
            self.push_export(env, managed[i], &mut out);
            i = i + 1;
        }
        proof {
            assert(MANAGED@.take(14) =~= MANAGED@);
        }
        let ghost first = text::views(out@);
        let mut j: usize = 0;
        proof {
            assert(first =~= first + exports_of(SERVICE_KEYS@.take(0), self@, env@));
        }
        while j < 3
            invariant
                j <= 3,
                services@ == SERVICE_KEYS@,
                text::views(out@) == first + exports_of(SERVICE_KEYS@.take(j as int), self@, env@),
            decreases 3 - j,
        {
            proof {
                assert(SERVICE_KEYS@.take(j + 1).drop_last() == SERVICE_KEYS@.take(j as int));
                assert(SERVICE_KEYS@.take(j + 1).last() == SERVICE_KEYS@[j as int]);
                let before = exports_of(SERVICE_KEYS@.take(j as int), self@, env@);
                let row = SERVICE_KEYS@[j as int];
                assert(forall|x: (Seq<char>, Seq<char>)| #[trigger]
                    (first + before).push(x) =~= first + before.push(x));
            }
            self.push_export(env, services[j], &mut out);
            j = j + 1;
        }
        proof {
            assert(SERVICE_KEYS@.take(3) =~= SERVICE_KEYS@);
        }
        Some(out)
    }
}

/// The names of some keys that are not in the bundle.
pub open spec fn missing_names(
    rows: Seq<(&'static str, &'static str)>,
    bundle: Seq<(Seq<char>, Seq<char>)>,
) -> Seq<&'static str>
    decreases rows.len(),
{
    if rows.len() == 0 {
        Seq::empty()
    } else if keyed::lookup(bundle, rows.last().0@) is None {
        missing_names(rows.drop_last(), bundle).push(rows.last().0)
    } else {
        missing_names(rows.drop_last(), bundle)
    }
}

/// The managed providers whose keys are not in the bundle; each may have an
/// entry of its own from before there was one.
pub fn legacy_names(bundle: &Keyed<String>) -> (r: Vec<&'static str>)
    ensures
        r@ == missing_names(MANAGED@, bundle@),
{
    let managed = MANAGED;
    let mut r: Vec<&'static str> = Vec::new();
    let mut i: usize = 0;
    while i < 14
        invariant
            i <= 14,
            managed@ == MANAGED@,
            r@ == missing_names(MANAGED@.take(i as int), bundle@),
        decreases 14 - i,
    {
        proof {
            assert(MANAGED@.take(i + 1).drop_last() == MANAGED@.take(i as int));
            assert(MANAGED@.take(i + 1).last() == MANAGED@[i as int]);
        }
        let name = managed[i].0;
        if bundle.get(name).is_none() {
            r.push(name);
        }
        i = i + 1;
    }
    proof {
        assert(MANAGED@.take(14) =~= MANAGED@);
    }
    r
}

/// Entries taken over into the bundle.
pub open spec fn taken_over(
    bundle: Seq<(Seq<char>, Seq<char>)>,
    found: Seq<(Seq<char>, Seq<char>)>,
) -> Seq<(Seq<char>, Seq<char>)>
    decreases found.len(),
{
    if found.len() == 0 {
        bundle
    } else {
        keyed::with_entry(
            taken_over(bundle, found.drop_last()),
            found.last().0,
            found.last().1,
        )
    }
}

/// Takes over entries into the bundle; says whether there were any, so that
/// the bundle is to be written.
pub fn migrate(bundle: &mut Keyed<String>, found: &Keyed<String>) -> (r: bool)
    ensures
        final(bundle)@ == taken_over(old(bundle)@, found@),
        r == (found@.len() > 0),
{
    let ghost all = found@;
    let n = found.entries.len();
    let mut i: usize = 0;
    while i < n
        invariant
            n == found.entries@.len(),
            all == found@,
            i <= n,
            bundle@ == taken_over(old(bundle)@, all.take(i as int)),
        decreases n - i,
    {
        proof {
            assert(all.take(i + 1).drop_last() == all.take(i as int));
            assert(all.take(i + 1).last() == (
                found.entries@[i as int].0@,
                found.entries@[i as int].1@,
            ));
        }
        bundle.set(found.entries[i].0.as_str(), found.entries[i].1.clone());
        i = i + 1;
    }
    proof {
        assert(all.take(n as int) == all);
    }
    n > 0
}

/// A key that is set in the environment is never put there again from the
/// keychain: what the user exports comes first.
pub proof fn environment_comes_first(
    rows: Seq<(&'static str, &'static str)>,
    v: VaultView,
    env: Seq<(Seq<char>, Seq<char>)>,
    i: int,
)
    requires
        0 <= i < exports_of(rows, v, env).len(),
    ensures
        keyed::lookup(env, exports_of(rows, v, env)[i].0) is None,
        v.may_read(),
    decreases rows.len(),
{
    if rows.len() > 0 && i < exports_of(rows.drop_last(), v, env).len() {
        environment_comes_first(rows.drop_last(), v, env, i);
    }
}

/// As long as the user has not chosen the keychain, no key comes from it.
pub proof fn keychain_is_opt_in(v: VaultView, name: Seq<char>)
    requires
        v.chosen != Some(Backend::Keychain),
    ensures
        v.key(name) is None,
{
}

/// A key that was set is the one that is got, and one that was cleared is
/// gone; the other keys stay.
pub proof fn set_keys_are_got(v: VaultView, name: Seq<char>, key: Seq<char>, other: Seq<char>)
    requires
        v.may_read(),
    ensures
        (VaultView { bundle: keyed::with_entry(v.bundle, name, key), ..v }).key(name) == Some(key),
        (VaultView { bundle: keyed::without_entry(v.bundle, name), ..v }).key(name) is None,
        other != name ==> (VaultView {
            bundle: keyed::with_entry(v.bundle, name, key),
            ..v
        }).key(other) == v.key(other),
        other != name ==> (VaultView {
            bundle: keyed::without_entry(v.bundle, name),
            ..v
        }).key(other) == v.key(other),
{
    keyed::entry_set_is_found(v.bundle, name, key, other);
    keyed::entry_taken_out_is_gone(v.bundle, name, other);
}

/// Every key that is known and whose variable is not set yet goes into the
/// environment, under the variable of its name.
pub proof fn known_keys_are_exported(
    rows: Seq<(&'static str, &'static str)>,
    v: VaultView,
    env: Seq<(Seq<char>, Seq<char>)>,
    i: int,
)
    requires
        0 <= i < rows.len(),
        v.may_read(),
        keyed::lookup(env, rows[i].1@) is None,
        keyed::lookup(v.bundle, rows[i].0@) is Some,
    ensures
        exports_of(rows, v, env).contains(
            (rows[i].1@, keyed::lookup(v.bundle, rows[i].0@)->0),
        ),
    decreases rows.len(),
{
    let t = rows.drop_last();
    let last = rows[rows.len() - 1];
    let before = exports_of(t, v, env);
    let after = exports_of(rows, v, env);
    let x = (rows[i].1@, keyed::lookup(v.bundle, rows[i].0@)->0);
    if i < t.len() {
        known_keys_are_exported(t, v, env, i);
        let k = choose|k: int| 0 <= k < before.len() && before[k] == x;
        assert(after[k] == x);
    } else {
        assert(after[after.len() - 1] == x);
    }
}

/// The names whose keys are asked for one by one are those of the rows that
/// the bundle has no key for.
pub proof fn missing_names_are_those_without_a_key(
    rows: Seq<(&'static str, &'static str)>,
    bundle: Seq<(Seq<char>, Seq<char>)>,
    i: int,
)
    requires
        0 <= i < rows.len(),
    ensures
        keyed::lookup(bundle, rows[i].0@) is None ==> missing_names(rows, bundle).contains(
            rows[i].0,
        ),
        forall|k: int|
            0 <= k < missing_names(rows, bundle).len() ==> keyed::lookup(
                bundle,
                (#[trigger] missing_names(rows, bundle)[k])@,
            ) is None,
    decreases rows.len(),
{
    let t = rows.drop_last();
    let before = missing_names(t, bundle);
    let after = missing_names(rows, bundle);
    if t.len() > 0 {
        missing_names_are_those_without_a_key(
            t,
            bundle,
            if i < t.len() {
                i
            } else {
                0
            },
        );
    }
    if keyed::lookup(bundle, rows[i].0@) is None {
        if i < t.len() {
            let k = choose|k: int| 0 <= k < before.len() && before[k] == rows[i].0;
            assert(after[k] == rows[i].0);
        } else {
            assert(after[after.len() - 1] == rows[i].0);
        }
    }
    assert forall|k: int| 0 <= k < after.len() implies keyed::lookup(bundle, (#[trigger] after[k])@)
        is None by {
        if k < before.len() {
            assert(after[k] == before[k]);
        }
    }
}

/// Entries that are taken over are in the bundle afterwards, the last of a
/// name counting, and every other key stays.
pub proof fn keys_taken_over_are_in_the_bundle(
    bundle: Seq<(Seq<char>, Seq<char>)>,
    found: Seq<(Seq<char>, Seq<char>)>,
    name: Seq<char>,
)
    ensures
        (forall|i: int| 0 <= i < found.len() ==> (#[trigger] found[i]).0 != name) ==> keyed::lookup(
            taken_over(bundle, found),
            name,
        ) == keyed::lookup(bundle, name),
        forall|i: int|
            0 <= i < found.len() && (#[trigger] found[i]).0 == name && (forall|j: int|
                i < j < found.len() ==> (#[trigger] found[j]).0 != name) ==> keyed::lookup(
                taken_over(bundle, found),
                name,
            ) == Some(found[i].1),
    decreases found.len(),
{
    if found.len() > 0 {
        let t = found.drop_last();
        let last = found[found.len() - 1];
        let before = taken_over(bundle, t);
        keys_taken_over_are_in_the_bundle(bundle, t, name);
        keyed::entry_set_is_found(before, last.0, last.1, name);
        if forall|i: int| 0 <= i < found.len() ==> (#[trigger] found[i]).0 != name {
            assert(found[found.len() - 1].0 != name);
            assert forall|i: int| 0 <= i < t.len() implies (#[trigger] t[i]).0 != name by {
                assert(found[i].0 != name);
            }
        }
        assert forall|i: int|
            0 <= i < found.len() && (#[trigger] found[i]).0 == name && (forall|j: int|
                i < j < found.len() ==> (#[trigger] found[j]).0 != name) implies keyed::lookup(
            taken_over(bundle, found),
            name,
        ) == Some(found[i].1) by {
            if i < t.len() {
                assert(found[found.len() - 1].0 != name);
                assert(t[i] == found[i]);
                assert forall|j: int| i < j < t.len() implies (#[trigger] t[j]).0 != name by {
                    assert(found[j].0 != name);
                }
            }
        }
    }
}

/// Each service has a variable of its own, and nothing else has one.
pub proof fn services_have_their_variables(name: Seq<char>)
    ensures
        service_var("tavily"@) == Some("TAVILY_API_KEY"@),
        service_var("brave-search"@) == Some("BRAVE_SEARCH_API_KEY"@),
        service_var("hal"@) == Some("HAL_API_KEY"@),
        service_var(name) is Some <==> seq!["tavily"@, "brave-search"@, "hal"@].contains(name),
{
    reveal_strlit("tavily");
    reveal_strlit("brave-search");
    reveal_strlit("hal");
    assert("tavily"@.len() == 6 && "brave-search"@.len() == 12 && "hal"@.len() == 3);
    let n = seq!["tavily"@, "brave-search"@, "hal"@];
    assert(n[0] == "tavily"@ && n[1] == "brave-search"@ && n[2] == "hal"@);
}

/// The keys that an entry of the keychain holds are those of its document,
/// where all of them are texts; an entry that is none, or that holds anything
/// else, holds no key.
pub proof fn entries_hold_their_texts(
    entry: Seq<char>,
    m: Seq<(Seq<char>, json::JsonView)>,
    i: int,
)
    requires
        json::json_parse(entry) == Ok::<json::JsonView, Seq<char>>(json::JsonView::Obj(m)),
        0 <= i < m.len(),
    ensures
        !(m[i].1 is Str) ==> bundle_of(Some(entry)).len() == 0,
        (forall|j: int| 0 <= j < m.len() ==> (#[trigger] m[j]).1 is Str) && (forall|j: int|
            i < j < m.len() ==> (#[trigger] m[j]).0 != m[i].0) ==> keyed::lookup(
            bundle_of(Some(entry)),
            m[i].0,
        ) == Some(m[i].1->Str_0),
{
    if !(m[i].1 is Str) {
        assert(m.take(i + 1).last() == m[i]);
        assert(text_members(m.take(i + 1)) is None);
        lemma_one_bad_member(m, i + 1);
    }
    if forall|j: int| 0 <= j < m.len() ==> (#[trigger] m[j]).1 is Str {
        lemma_members_are_read(m, i);
    }
}

proof fn lemma_members_are_read(m: Seq<(Seq<char>, json::JsonView)>, i: int)
    requires
        0 <= i < m.len(),
        forall|j: int| 0 <= j < m.len() ==> (#[trigger] m[j]).1 is Str,
    ensures
        text_members(m) is Some,
        (forall|j: int| i < j < m.len() ==> (#[trigger] m[j]).0 != m[i].0) ==> keyed::lookup(
            text_members(m)->0,
            m[i].0,
        ) == Some(m[i].1->Str_0),
    decreases m.len(),
{
    let t = m.drop_last();
    let last = m[m.len() - 1];
    assert(last.1 is Str);
    assert forall|j: int| 0 <= j < t.len() implies (#[trigger] t[j]).1 is Str by {
        assert(m[j].1 is Str);
    }
    if t.len() > 0 {
        lemma_members_are_read(
            t,
            if i < t.len() {
                i
            } else {
                0
            },
        );
    }
    let before = text_members(t)->0;
    keyed::entry_set_is_found(before, last.0, last.1->Str_0, m[i].0);
    if forall|j: int| i < j < m.len() ==> (#[trigger] m[j]).0 != m[i].0 {
        if i < t.len() {
            assert(m[m.len() - 1].0 != m[i].0);
            assert forall|j: int| i < j < t.len() implies (#[trigger] t[j]).0 != t[i].0 by {
                assert(m[j].0 != m[i].0);
            }
        }
    }
}

/// A bundle holds every key under its name, and nothing under another.
pub proof fn bundles_hold_every_key(keys: Seq<(Seq<char>, Seq<char>)>, i: int, name: Seq<char>)
    requires
        keyed::unique_names(keys),
        0 <= i < keys.len(),
    ensures
        bundle_json(keys).get(keys[i].0) == Some(json::JsonView::Str(keys[i].1)),
        (forall|k: int| 0 <= k < keys.len() ==> (#[trigger] keys[k]).0 != name) ==> bundle_json(
            keys,
        ).get(name) is None,
{
    lemma_bundle_json(keys);
    keyed::found_is_listed(keys, name);
    lemma_listed_is_found(keys, i);
}

proof fn lemma_listed_is_found(keys: Seq<(Seq<char>, Seq<char>)>, i: int)
    requires
        keyed::unique_names(keys),
        0 <= i < keys.len(),
    ensures
        keyed::lookup(keys, keys[i].0) == Some(keys[i].1),
    decreases keys.len(),
{
    if i > 0 {
        let rest = keys.skip(1);
        assert(keys[0].0 != keys[i].0);
        assert(keyed::unique_names(rest)) by {
            assert forall|a: int, b: int| 0 <= a < b < rest.len() implies (#[trigger] rest[a]).0
                != (#[trigger] rest[b]).0 by {
                assert(keys[a + 1].0 != keys[b + 1].0);
            }
        }
        assert(rest[i - 1] == keys[i]);
        lemma_listed_is_found(rest, i - 1);
    }
}

} // verus!
