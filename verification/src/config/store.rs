//! Store configuration. No backend is known by name: each registered one
//! declares its settings, and they are resolved like everything else.
use vstd::prelude::*;

use crate::config::{
    alias_of, chosen_text, full_key, nested_of, resolve_text, text_source, Env, EnvView,
    FileConfig, FileConfigView, FileStoreConfigView, Source, SourceView,
};
use crate::text::{
    eq_ignore_ascii_case, is_blank, join, joined, lemma_joined_holds, lowered, occurs, same,
    trimmed,
};
use crate::textmap::TextMap;

verus! {

/// A setting that a backend declares.
#[derive(Debug)]
pub struct SettingSpec {
    pub key: &'static str,
    /// The environment variable that overrides it.
    pub env: &'static str,
    /// Whether it is withheld from listings.
    pub secret: bool,
    /// Its value where no layer has one.
    pub default: String,
    /// Deprecated flat keys under `store` that are still read.
    pub file_aliases: Vec<&'static str>,
}

/// What a [`SettingSpec`] holds.
#[verifier::ext_equal]
pub struct SettingSpecView {
    pub key: Seq<char>,
    pub env: Seq<char>,
    pub secret: bool,
    pub default: Seq<char>,
    pub file_aliases: Seq<Seq<char>>,
}

impl DeepView for SettingSpec {
    type V = SettingSpecView;

    open spec fn deep_view(&self) -> SettingSpecView {
        SettingSpecView {
            key: self.key@,
            env: self.env@,
            secret: self.secret,
            default: self.default@,
            file_aliases: self.file_aliases.deep_view(),
        }
    }
}

/// A registered backend: its name and the settings it declares.
#[derive(Debug)]
pub struct StoreBackend {
    pub name: String,
    pub settings: Vec<SettingSpec>,
}

/// What a [`StoreBackend`] holds.
#[verifier::ext_equal]
pub struct StoreBackendView {
    pub name: Seq<char>,
    pub settings: Seq<SettingSpecView>,
}

impl DeepView for StoreBackend {
    type V = StoreBackendView;

    open spec fn deep_view(&self) -> StoreBackendView {
        StoreBackendView {
            name: self.name@,
            settings: self.settings.deep_view(),
        }
    }
}

/// The chosen provider and the settings of all registered backends, each under
/// `backend.key`.
#[derive(Debug)]
pub struct StoreConfig {
    pub provider: String,
    pub settings: TextMap,
}

/// What a [`StoreConfig`] holds.
#[verifier::ext_equal]
pub struct StoreConfigView {
    pub provider: Seq<char>,
    pub settings: Map<Seq<char>, Seq<char>>,
}

impl DeepView for StoreConfig {
    type V = StoreConfigView;

    open spec fn deep_view(&self) -> StoreConfigView {
        StoreConfigView {
            provider: self.provider@,
            settings: self.settings@,
        }
    }
}

impl Clone for StoreConfig {
    fn clone(&self) -> (r: Self)
        ensures
            r.deep_view() == self.deep_view(),
    {
        StoreConfig {
            provider: self.provider.clone(),
            settings: self.settings.clone(),
        }
    }
}

/// The source of one setting.
#[derive(Debug)]
pub struct SourceEntry {
    pub key: String,
    pub source: Source,
}

/// What a [`SourceEntry`] holds.
#[verifier::ext_equal]
pub struct SourceEntryView {
    pub key: Seq<char>,
    pub source: SourceView,
}

impl DeepView for SourceEntry {
    type V = SourceEntryView;

    open spec fn deep_view(&self) -> SourceEntryView {
        SourceEntryView {
            key: self.key@,
            source: self.source.deep_view(),
        }
    }
}

impl Clone for SourceEntry {
    fn clone(&self) -> (r: Self)
        ensures
            r.deep_view() == self.deep_view(),
    {
        SourceEntry {
            key: self.key.clone(),
            source: self.source.clone(),
        }
    }
}

/// Where the store's values came from.
#[derive(Debug)]
pub struct StoreSources {
    pub provider: Source,
    pub settings: Vec<SourceEntry>,
}

/// What a [`StoreSources`] holds.
#[verifier::ext_equal]
pub struct StoreSourcesView {
    pub provider: SourceView,
    pub settings: Seq<SourceEntryView>,
}

impl DeepView for StoreSources {
    type V = StoreSourcesView;

    open spec fn deep_view(&self) -> StoreSourcesView {
        StoreSourcesView {
            provider: self.provider.deep_view(),
            settings: self.settings.deep_view(),
        }
    }
}

impl Clone for StoreSources {
    fn clone(&self) -> (r: Self)
        ensures
            r.deep_view() == self.deep_view(),
    {
        StoreSources {
            provider: self.provider.clone(),
            settings: self.settings.clone(),
        }
    }
}

/// Why a store configuration is not usable.
#[derive(Debug)]
pub enum StoreError {
    /// No provider is chosen, and none could be.
    NoBackends,
    /// No provider is chosen.
    NotSet { available: String },
    /// The chosen provider is not registered.
    Unknown { provider: String, available: String },
}

/// What a [`StoreError`] holds.
#[verifier::ext_equal]
pub enum StoreErrorView {
    NoBackends,
    NotSet { available: Seq<char> },
    Unknown { provider: Seq<char>, available: Seq<char> },
}

impl DeepView for StoreError {
    type V = StoreErrorView;

    open spec fn deep_view(&self) -> StoreErrorView {
        match self {
            StoreError::NoBackends => StoreErrorView::NoBackends,
            StoreError::NotSet { available } => StoreErrorView::NotSet { available: available@ },
            StoreError::Unknown { provider, available } => StoreErrorView::Unknown {
                provider: provider@,
                available: available@,
            },
        }
    }
}

/// An error in words.
pub open spec fn store_error_words(e: StoreErrorView) -> Seq<char> {
    match e {
        StoreErrorView::NoBackends =>
            "no store backend is registered. The consuming crate must call wdpkr_core::store::register_provider before resolving config."@,
        StoreErrorView::NotSet { available } => "store.provider is not set. available: "@
            + available,
        StoreErrorView::Unknown { provider, available } => "unknown store provider '"@ + provider
            + "'; available: "@ + available,
    }
}

impl StoreError {
    /// The error as text.
    pub fn message(&self) -> (r: String)
        ensures
            r@ == store_error_words(self.deep_view()),
    {
        match self {
            StoreError::NoBackends =>
                "no store backend is registered. The consuming crate must call wdpkr_core::store::register_provider before resolving config.".to_string(),
            StoreError::NotSet { available } => {
                let mut r = "store.provider is not set. available: ".to_string();
                r.append(available.as_str());
                r
            },
            StoreError::Unknown { provider, available } => {
                let mut r = "unknown store provider '".to_string();
                r.append(provider.as_str());
                r.append("'; available: ");
                r.append(available.as_str());
                r
            },
        }
    }
}

/// The file's store block.
pub open spec fn file_store(file: Option<FileConfigView>) -> Option<FileStoreConfigView> {
    match file {
        Some(f) => f.store,
        None => None,
    }
}

/// The file's provider, where it names one.
pub open spec fn file_provider(file: Option<FileConfigView>) -> Option<Seq<char>> {
    match file_store(file) {
        Some(s) => match s.provider {
            Some(p) => if p.len() == 0 {
                None
            } else {
                Some(p)
            },
            None => None,
        },
        None => None,
    }
}

/// The first of the flat keys that the block still has.
pub open spec fn first_alias(s: FileStoreConfigView, aliases: Seq<Seq<char>>) -> Option<Seq<char>>
    decreases aliases.len(),
{
    if aliases.len() == 0 {
        None
    } else {
        match alias_of(s.backends.entries, aliases[0]) {
            Some(v) => Some(v),
            None => first_alias(s, aliases.drop_first()),
        }
    }
}

/// What the file says of a setting: the nested key, or else a flat one.
pub open spec fn file_setting(
    file: Option<FileConfigView>,
    backend: Seq<char>,
    spec_: SettingSpecView,
) -> Option<Seq<char>> {
    match file_store(file) {
        Some(s) => match nested_of(s.backends.entries, backend, spec_.key) {
            Some(v) => Some(v),
            None => first_alias(s, spec_.file_aliases),
        },
        None => None,
    }
}

/// A backend's settings resolved into a map, on top of earlier ones.
pub open spec fn backend_settings(
    file: Option<FileConfigView>,
    env: EnvView,
    backend: Seq<char>,
    settings: Seq<SettingSpecView>,
    base: Map<Seq<char>, Seq<char>>,
) -> Map<Seq<char>, Seq<char>>
    decreases settings.len(),
{
    if settings.len() == 0 {
        base
    } else {
        let s = settings.last();
        backend_settings(file, env, backend, settings.drop_last(), base).insert(
            full_key(backend, s.key),
            chosen_text(env.vars, s.env, file_setting(file, backend, s), s.default),
        )
    }
}

/// All backends' settings resolved.
pub open spec fn resolved_settings(
    file: Option<FileConfigView>,
    env: EnvView,
    backends: Seq<StoreBackendView>,
) -> Map<Seq<char>, Seq<char>>
    decreases backends.len(),
{
    if backends.len() == 0 {
        Map::<Seq<char>, Seq<char>>::empty()
    } else {
        backend_settings(
            file,
            env,
            backends.last().name,
            backends.last().settings,
            resolved_settings(file, env, backends.drop_last()),
        )
    }
}

/// The sources of a backend's settings.
pub open spec fn backend_sources(
    file: Option<FileConfigView>,
    env: EnvView,
    backend: Seq<char>,
    settings: Seq<SettingSpecView>,
) -> Seq<SourceEntryView>
    decreases settings.len(),
{
    if settings.len() == 0 {
        Seq::<SourceEntryView>::empty()
    } else {
        let s = settings.last();
        backend_sources(file, env, backend, settings.drop_last()).push(
            SourceEntryView {
                key: full_key(backend, s.key),
                source: text_source(env.vars, s.env, file_setting(file, backend, s)),
            },
        )
    }
}

/// The sources of all backends' settings.
pub open spec fn resolved_sources(
    file: Option<FileConfigView>,
    env: EnvView,
    backends: Seq<StoreBackendView>,
) -> Seq<SourceEntryView>
    decreases backends.len(),
{
    if backends.len() == 0 {
        Seq::<SourceEntryView>::empty()
    } else {
        resolved_sources(file, env, backends.drop_last()) + backend_sources(
            file,
            env,
            backends.last().name,
            backends.last().settings,
        )
    }
}

/// The source of a setting: that of its last resolution.
pub open spec fn sources_get(list: Seq<SourceEntryView>, key: Seq<char>) -> Option<SourceView>
    decreases list.len(),
{
    if list.len() == 0 {
        None
    } else if list.last().key == key {
        Some(list.last().source)
    } else {
        sources_get(list.drop_last(), key)
    }
}

/// The store configuration of a file, an environment and the backends.
pub open spec fn store_of(
    file: Option<FileConfigView>,
    env: EnvView,
    backends: Seq<StoreBackendView>,
) -> StoreConfigView {
    StoreConfigView {
        provider: chosen_text(env.vars, "WDPKR_STORE_PROVIDER"@, file_provider(file), ""@),
        settings: resolved_settings(file, env, backends),
    }
}

/// Where its values come from.
pub open spec fn store_sources_of(
    file: Option<FileConfigView>,
    env: EnvView,
    backends: Seq<StoreBackendView>,
) -> StoreSourcesView {
    StoreSourcesView {
        provider: text_source(env.vars, "WDPKR_STORE_PROVIDER"@, file_provider(file)),
        settings: resolved_sources(file, env, backends),
    }
}

/// The names of the registered backends.
pub open spec fn backend_names(backends: Seq<StoreBackendView>) -> Seq<Seq<char>> {
    backends.map_values(|b: StoreBackendView| b.name)
}

/// The position of the first backend of that name, whatever its case.
pub open spec fn backend_position(backends: Seq<StoreBackendView>, name: Seq<char>, i: int) ->
    Option<int>
    decreases backends.len() - i,
{
    if i < 0 || i >= backends.len() {
        None
    } else if lowered(backends[i].name) == lowered(name) {
        Some(i)
    } else {
        backend_position(backends, name, i + 1)
    }
}

/// The chosen backend, or why there is none.
pub open spec fn chosen_backend(provider: Seq<char>, backends: Seq<StoreBackendView>) -> Result<
    int,
    StoreErrorView,
> {
    let available = joined(backend_names(backends), ", "@);
    if trimmed(provider).len() == 0 {
        if backends.len() == 0 {
            Err(StoreErrorView::NoBackends)
        } else {
            Err(StoreErrorView::NotSet { available })
        }
    } else {
        match backend_position(backends, provider, 0) {
            Some(i) => Ok(i),
            None => Err(StoreErrorView::Unknown { provider, available }),
        }
    }
}

fn find_file_setting(file: &Option<FileConfig>, backend: &str, spec_: &SettingSpec) -> (r: Option<
    String,
>)
    ensures
        r.deep_view() == file_setting(file.deep_view(), backend@, spec_.deep_view()),
{
    let f = match file {
        Some(f) => f,
        None => {
            return None;
        },
    };
    let s = match &f.store {
        Some(s) => s,
        None => {
            return None;
        },
    };
    if let Some(v) = s.nested(backend, spec_.key) {
        return Some(v);
    }
    let ghost av = spec_.file_aliases.deep_view();
    let mut i: usize = 0;
    assert(av.skip(0) =~= av);
    while i < spec_.file_aliases.len()
        invariant
            i <= spec_.file_aliases@.len(),
            av == spec_.file_aliases.deep_view(),
            first_alias(s.deep_view(), av) == first_alias(s.deep_view(), av.skip(i as int)),
            file_setting(file.deep_view(), backend@, spec_.deep_view()) == first_alias(
                s.deep_view(),
                av,
            ),
        decreases spec_.file_aliases@.len() - i,
    {
        proof {
            assert(av.skip(i as int)[0] == spec_.file_aliases@[i as int]@);
            assert(av.skip(i as int).drop_first() =~= av.skip(i + 1));
        }
        if let Some(v) = s.alias(spec_.file_aliases[i]) {
            return Some(v);
        }
        i += 1;
    }
    None
}

fn names_of(backends: &Vec<StoreBackend>) -> (r: Vec<String>)
    ensures
        r.deep_view() == backend_names(backends.deep_view()),
{
    let ghost want = backend_names(backends.deep_view());
    let mut out: Vec<String> = Vec::new();
    let mut i: usize = 0;
    assert(out.deep_view() =~= want.take(0));
    while i < backends.len()
        invariant
            i <= backends@.len(),
            want == backend_names(backends.deep_view()),
            out.deep_view() == want.take(i as int),
        decreases backends@.len() - i,
    {
        let ghost before = out.deep_view();
        let n = backends[i].name.clone();
        let ghost nv = n@;
        out.push(n);
        proof {
            assert(want[i as int] == nv);
            assert(out.deep_view() =~= before.push(nv));
            assert(want.take(i + 1) =~= want.take(i as int).push(want[i as int]));
        }
        i += 1;
    }
    assert(want.take(i as int) =~= want);
    out
}

/// The map of a list of keys and values; of equal keys the last one counts.
pub open spec fn pairs_map(pairs: Seq<(&str, &str)>) -> Map<Seq<char>, Seq<char>>
    decreases pairs.len(),
{
    if pairs.len() == 0 {
        Map::<Seq<char>, Seq<char>>::empty()
    } else {
        pairs_map(pairs.drop_last()).insert(pairs.last().0@, pairs.last().1@)
    }
}

impl StoreConfig {
    /// A configuration from a provider and settings.
    pub fn new(provider: &str, settings: &[(&str, &str)]) -> (r: StoreConfig)
        ensures
            r.provider@ == provider@,
            r.settings@ == pairs_map(settings@),
    {
        let mut map = TextMap::new();
        let mut i: usize = 0;
        assert(settings@.take(0) =~= Seq::empty());
        while i < settings.len()
            invariant
                i <= settings@.len(),
                map@ == pairs_map(settings@.take(i as int)),
            decreases settings@.len() - i,
        {
            assert(settings@.take(i + 1).drop_last() =~= settings@.take(i as int));
            map.insert(settings[i].0, settings[i].1);
            i += 1;
        }
        assert(settings@.take(i as int) =~= settings@);
        StoreConfig { provider: provider.to_string(), settings: map }
    }

    /// A setting by its full key, or the empty text where it is unset.
    pub fn get(&self, key: &str) -> (r: &str)
        ensures
            r@ == if self.settings@.contains_key(key@) {
                self.settings@[key@]
            } else {
                ""@
            },
    {
        match self.settings.get(key) {
            Some(v) => v,
            None => "",
        }
    }

    /// A setting by its full key, where it is set and not empty.
    pub fn get_opt(&self, key: &str) -> (r: Option<&str>)
        ensures
            r.deep_view() == if self.settings@.contains_key(key@) && self.settings@[key@].len()
                > 0 {
                Some(self.settings@[key@])
            } else {
                None
            },
    {
        match self.settings.get(key) {
            Some(v) => if v.unicode_len() > 0 {
                Some(v)
            } else {
                None
            },
            None => None,
        }
    }

    /// The keys of all settings in ascending order.
    pub fn keys(&self) -> (r: Vec<&str>)
        ensures
            r.deep_view() == self.settings.keys(),
            forall|k: Seq<char>|
                #[trigger] self.settings@.contains_key(k) <==> self.settings.keys().contains(k),
            forall|i: int, j: int|
                0 <= i < j < r@.len() ==> crate::text::precedes(
                    #[trigger] r.deep_view()[i],
                    #[trigger] r.deep_view()[j],
                ),
    {
        let n: usize = self.settings.len();
        let ghost ks = self.settings.keys();
        let mut out: Vec<&str> = Vec::new();
        let mut i: usize = 0;
        while i < n
            invariant
                i <= n,
                ks == self.settings.keys(),
                n == ks.len(),
                out@.len() == i,
                forall|j: int| 0 <= j < i ==> (#[trigger] out@[j])@ == ks[j],
            decreases n - i,
        {
            out.push(self.settings.key_at(i));
            i += 1;
        }
        assert(out.deep_view() =~= ks);
        out
    }

    /// The chosen backend: an error where none is chosen or it is not
    /// registered. Whether its settings are usable is for the backend to say.
    pub fn validate(&self, backends: &Vec<StoreBackend>) -> (r: Result<usize, StoreError>)
        ensures
            match r {
                Ok(i) => chosen_backend(self.provider@, backends.deep_view()) == Ok::<
                    int,
                    StoreErrorView,
                >(i as int) && i < backends@.len(),
                Err(e) => chosen_backend(self.provider@, backends.deep_view()) == Err::<
                    int,
                    StoreErrorView,
                >(e.deep_view()),
            },
    {
        let available = join(&names_of(backends), ", ");
        if is_blank(self.provider.as_str()) {
            return if backends.len() == 0 {
                Err(StoreError::NoBackends)
            } else {
                Err(StoreError::NotSet { available })
            };
        }
        let ghost bv = backends.deep_view();
        let mut i: usize = 0;
        while i < backends.len()
            invariant
                i <= backends@.len(),
                bv == backends.deep_view(),
                trimmed(self.provider@).len() > 0,
                backend_position(bv, self.provider@, 0) == backend_position(
                    bv,
                    self.provider@,
                    i as int,
                ),
            decreases backends@.len() - i,
        {
            assert(bv[i as int] == backends@[i as int].deep_view());
            if eq_ignore_ascii_case(backends[i].name.as_str(), self.provider.as_str()) {
                return Ok(i);
            }
            i += 1;
        }
        Err(StoreError::Unknown { provider: self.provider.clone(), available })
    }

    /// The values alone.
    pub fn from_env(file: &Option<FileConfig>, env: &Env, backends: &Vec<StoreBackend>) -> (r:
        StoreConfig)
        ensures
            r.deep_view() == store_of(file.deep_view(), env.deep_view(), backends.deep_view()),
    {
        StoreConfig::resolve(file, env, backends).0
    }

    /// Resolves the provider and the settings of every registered backend.
    pub fn resolve(file: &Option<FileConfig>, env: &Env, backends: &Vec<StoreBackend>) -> (r: (
        StoreConfig,
        StoreSources,
    ))
        ensures
            r.0.deep_view() == store_of(file.deep_view(), env.deep_view(), backends.deep_view()),
            r.1.deep_view() == store_sources_of(
                file.deep_view(),
                env.deep_view(),
                backends.deep_view(),
            ),
    {
        let ghost fv = file.deep_view();
        let ghost ev = env.deep_view();
        let ghost bv = backends.deep_view();
        let from_file: Option<String> = match file {
            Some(f) => match &f.store {
                Some(s) => match &s.provider {
                    Some(p) => if p.as_str().unicode_len() == 0 {
                        None
                    } else {
                        Some(p.clone())
                    },
                    None => None,
                },
                None => None,
            },
            None => None,
        };
        let (provider, provider_source) = resolve_text(env, "WDPKR_STORE_PROVIDER", &from_file, "");
        let mut settings = TextMap::new();
        let mut sources: Vec<SourceEntry> = Vec::new();
        let mut i: usize = 0;
        assert(sources.deep_view() =~= resolved_sources(fv, ev, bv.take(0)));
        while i < backends.len()
            invariant
                i <= backends@.len(),
                fv == file.deep_view(),
                ev == env.deep_view(),
                bv == backends.deep_view(),
                settings@ == resolved_settings(fv, ev, bv.take(i as int)),
                sources.deep_view() == resolved_sources(fv, ev, bv.take(i as int)),
            decreases backends@.len() - i,
        {
            let b = &backends[i];
            let ghost sv = b.settings.deep_view();
            let ghost base = settings@;
            let ghost start = sources.deep_view();
            proof {
                assert(bv.take(i + 1).drop_last() =~= bv.take(i as int));
                assert(bv.take(i + 1).last() == b.deep_view());
                assert(start + backend_sources(fv, ev, b.name@, sv.take(0)) =~= start);
            }
            let mut k: usize = 0;
            while k < b.settings.len()
                invariant
                    k <= b.settings@.len(),
                    fv == file.deep_view(),
                    ev == env.deep_view(),
                    sv == b.settings.deep_view(),
                    settings@ == backend_settings(fv, ev, b.name@, sv.take(k as int), base),
                    sources.deep_view() == start + backend_sources(
                        fv,
                        ev,
                        b.name@,
                        sv.take(k as int),
                    ),
                decreases b.settings@.len() - k,
            {
                let spec_ = &b.settings[k];
                let ghost before = sources.deep_view();
                proof {
                    assert(sv.take(k + 1).drop_last() =~= sv.take(k as int));
                    assert(sv.take(k + 1).last() == spec_.deep_view());
                }
                let found = find_file_setting(file, b.name.as_str(), spec_);
                let (value, source) = resolve_text(
                    env,
                    spec_.env,
                    &found,
                    spec_.default.as_str(),
                );
                let mut key = b.name.clone();
                key.append(".");
                key.append(spec_.key);
                settings.insert(key.as_str(), value.as_str());
                let e = SourceEntry { key, source };
                let ghost entry = e.deep_view();
                sources.push(e);
                proof {
                    assert(sources.deep_view() =~= before.push(entry));
                    assert(sources.deep_view() =~= start + backend_sources(
                        fv,
                        ev,
                        b.name@,
                        sv.take(k + 1),
                    ));
                }
                k += 1;
            }
            assert(sv.take(k as int) =~= sv);
            i += 1;
        }
        assert(bv.take(i as int) =~= bv);
        (
            StoreConfig { provider, settings },
            StoreSources { provider: provider_source, settings: sources },
        )
    }
}

impl StoreSources {
    /// The source of a setting by its full key, if it was resolved.
    pub fn get(&self, key: &str) -> (r: Option<&Source>)
        ensures
            r.deep_view() == sources_get(self.deep_view().settings, key@),
    {
        let ghost lv = self.settings.deep_view();
        let mut i: usize = self.settings.len();
        assert(lv.take(i as int) =~= lv);
        while i > 0
            invariant
                i <= self.settings@.len(),
                lv == self.settings.deep_view(),
                sources_get(lv, key@) == sources_get(lv.take(i as int), key@),
            decreases i,
        {
            proof {
                assert(lv.take(i as int).drop_last() =~= lv.take(i - 1));
                assert(lv.take(i as int).last() == self.settings@[i - 1].deep_view());
            }
            i -= 1;
            if same(self.settings[i].key.as_str(), key) {
                return Some(&self.settings[i].source);
            }
        }
        None
    }
}

// ---------------------------------------------------------------------------
// Laws
// ---------------------------------------------------------------------------

/// The chosen backend is the first whose name is the provider, whatever its case;
/// an error comes only where there is none, and tells the names that there are.
pub proof fn law_the_named_backend_is_chosen(provider: Seq<char>, backends: Seq<StoreBackendView>)
    ensures
        match chosen_backend(provider, backends) {
            Ok(i) => {
                &&& 0 <= i < backends.len()
                &&& lowered(backends[i].name) == lowered(provider)
                &&& forall|j: int|
                    0 <= j < i ==> lowered((#[trigger] backends[j]).name) != lowered(provider)
            },
            Err(StoreErrorView::NoBackends) => backends.len() == 0 && trimmed(provider).len() == 0,
            Err(StoreErrorView::NotSet { available }) => trimmed(provider).len() == 0 && forall|
                k: int,
            |
                0 <= k < backends.len() ==> occurs(available, (#[trigger] backends[k]).name),
            Err(StoreErrorView::Unknown { provider: p, available }) => {
                &&& p == provider
                &&& forall|k: int|
                    0 <= k < backends.len() ==> lowered((#[trigger] backends[k]).name) != lowered(
                        provider,
                    ) && occurs(available, backends[k].name)
            },
        },
{
    lemma_backend_position(backends, provider, 0);
    let names = backend_names(backends);
    assert forall|k: int| 0 <= k < backends.len() implies occurs(
        joined(names, ", "@),
        (#[trigger] backends[k]).name,
    ) by {
        assert(names[k] == backends[k].name);
        lemma_joined_holds(names, ", "@, k);
    }
}

proof fn lemma_backend_position(backends: Seq<StoreBackendView>, name: Seq<char>, i: int)
    requires
        0 <= i <= backends.len(),
    ensures
        match backend_position(backends, name, i) {
            Some(k) => i <= k < backends.len() && lowered(backends[k].name) == lowered(name)
                && forall|j: int|
                i <= j < k ==> lowered((#[trigger] backends[j]).name) != lowered(name),
            None => forall|j: int|
                i <= j < backends.len() ==> lowered((#[trigger] backends[j]).name) != lowered(name),
        },
    decreases backends.len() - i,
{
    if i < backends.len() && lowered(backends[i].name) != lowered(name) {
        lemma_backend_position(backends, name, i + 1);
    }
}

proof fn lemma_backend_settings(
    file: Option<FileConfigView>,
    env: EnvView,
    backend: Seq<char>,
    settings: Seq<SettingSpecView>,
    base: Map<Seq<char>, Seq<char>>,
    i: int,
)
    requires
        0 <= i < settings.len(),
        forall|j: int| i < j < settings.len() ==> (#[trigger] settings[j]).key != settings[i].key,
    ensures
        ({
            let m = backend_settings(file, env, backend, settings, base);
            let key = backend + "."@ + settings[i].key;
            m.contains_key(key) && m[key] == chosen_text(
                env.vars,
                settings[i].env,
                file_setting(file, backend, settings[i]),
                settings[i].default,
            )
        }),
    decreases settings.len(),
{
    let before = settings.drop_last();
    if i < before.len() {
        assert forall|j: int| i < j < before.len() implies (#[trigger] before[j]).key
            != before[i].key by {
            assert(before[j] == settings[j]);
        }
        lemma_backend_settings(file, env, backend, before, base, i);
        let a = full_key(backend, settings.last().key);
        let b = full_key(backend, settings[i].key);
        if a == b {
            let n = (backend.len() + "."@.len()) as int;
            assert(a.skip(n) =~= settings.last().key);
            assert(b.skip(n) =~= settings[i].key);
            assert(settings[settings.len() - 1].key != settings[i].key);
        }
    }
}

/// Every setting that the last backend declares is resolved under the backend's
/// name and its own: from its variable, else from the file, else from its default.
pub proof fn law_declared_settings_are_resolved(
    file: Option<FileConfigView>,
    env: EnvView,
    backends: Seq<StoreBackendView>,
    i: int,
)
    requires
        backends.len() > 0,
        0 <= i < backends.last().settings.len(),
        forall|j: int|
            i < j < backends.last().settings.len() ==> (
            #[trigger] backends.last().settings[j]).key != backends.last().settings[i].key,
    ensures
        ({
            let spec_ = backends.last().settings[i];
            let m = resolved_settings(file, env, backends);
            let key = backends.last().name + "."@ + spec_.key;
            let stated = file_setting(file, backends.last().name, spec_);
            &&& m.contains_key(key)
            &&& env.vars.contains_key(spec_.env) ==> m[key] == env.vars[spec_.env]
            &&& !env.vars.contains_key(spec_.env) && stated is Some ==> m[key] == stated->0
            &&& !env.vars.contains_key(spec_.env) && stated is None ==> m[key] == spec_.default
        }),
{
    lemma_backend_settings(
        file,
        env,
        backends.last().name,
        backends.last().settings,
        resolved_settings(file, env, backends.drop_last()),
        i,
    );
}

} // verus!
