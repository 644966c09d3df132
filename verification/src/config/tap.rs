//! Taps as configured, and how their results age.
use vstd::prelude::*;

use crate::config::value::{
    field_value, find_field, setting_value, FieldView, Scalar, ScalarView, Settings, SettingsView,
    SettingView, Value, ValueView,
};
use crate::config::{FileConfig, FileConfigView, Source, SourceView};
use crate::number::Real;
use crate::text::{pieces, same, split, trim, trimmed};

verus! {

/// The bit pattern of 90.0.
pub const NINETY: u64 = 0x4056_8000_0000_0000;

/// The bit pattern of 0.4.
pub const TWO_FIFTHS: u64 = 0x3fd9_9999_9999_999a;

/// The bit pattern of 1.0.
pub const ONE: u64 = 0x3ff0_0000_0000_0000;

/// A tap as a configuration file declares it.
#[derive(Debug)]
pub struct FileTapConfig {
    pub name: String,
    pub command: Option<String>,
    pub args: Option<Vec<String>>,
    pub settings: Option<Settings>,
}

/// What a [`FileTapConfig`] holds.
#[verifier::ext_equal]
pub struct FileTapConfigView {
    pub name: Seq<char>,
    pub command: Option<Seq<char>>,
    pub args: Option<Seq<Seq<char>>>,
    pub settings: Option<SettingsView>,
}

impl DeepView for FileTapConfig {
    type V = FileTapConfigView;

    open spec fn deep_view(&self) -> FileTapConfigView {
        FileTapConfigView {
            name: self.name@,
            command: self.command.deep_view(),
            args: self.args.deep_view(),
            settings: self.settings.deep_view(),
        }
    }
}

impl Clone for FileTapConfig {
    fn clone(&self) -> (r: Self)
        ensures
            r.deep_view() == self.deep_view(),
    {
        FileTapConfig {
            name: self.name.clone(),
            command: self.command.clone(),
            args: self.args.clone(),
            settings: self.settings.clone(),
        }
    }
}

/// A tap as configured.
#[derive(Debug)]
pub struct TapConfig {
    pub name: String,
    pub command: Option<String>,
    pub args: Vec<String>,
    pub settings: Settings,
}

/// What a [`TapConfig`] holds.
#[verifier::ext_equal]
pub struct TapConfigView {
    pub name: Seq<char>,
    pub command: Option<Seq<char>>,
    pub args: Seq<Seq<char>>,
    pub settings: SettingsView,
}

impl DeepView for TapConfig {
    type V = TapConfigView;

    open spec fn deep_view(&self) -> TapConfigView {
        TapConfigView {
            name: self.name@,
            command: self.command.deep_view(),
            args: self.args.deep_view(),
            settings: self.settings.deep_view(),
        }
    }
}

impl Clone for TapConfig {
    fn clone(&self) -> (r: Self)
        ensures
            r.deep_view() == self.deep_view(),
    {
        TapConfig {
            name: self.name.clone(),
            command: self.command.clone(),
            args: self.args.clone(),
            settings: self.settings.clone(),
        }
    }
}

/// How a tap's results age in search. Off unless asked for. When on, a score
/// is multiplied by the larger of `floor` and one half to the power of the age
/// over the half-life, so that stale documents sink but never vanish.
#[derive(Clone, Copy, PartialEq, Eq, Structural, Debug)]
pub struct DecayConfig {
    pub enabled: bool,
    pub half_life_days: Real,
    pub floor: Real,
}

impl DeepView for DecayConfig {
    type V = DecayConfig;

    open spec fn deep_view(&self) -> DecayConfig {
        *self
    }
}

/// What may be wrong with a `decay` block.
#[derive(Clone, Copy, PartialEq, Eq, Structural, Debug)]
pub enum DecayError {
    NotAMapping,
    EnabledNotABoolean,
    HalfLifeNotANumber,
    HalfLifeNotPositive,
    FloorNotANumber,
    FloorOutOfRange,
}

impl DecayError {
    /// The error in words.
    pub open spec fn words(self) -> Seq<char> {
        match self {
            DecayError::NotAMapping => "tap 'decay' must be a mapping"@,
            DecayError::EnabledNotABoolean => "tap decay 'enabled' must be a boolean"@,
            DecayError::HalfLifeNotANumber => "tap decay 'half_life_days' must be a number"@,
            DecayError::HalfLifeNotPositive => "tap decay 'half_life_days' must be > 0"@,
            DecayError::FloorNotANumber => "tap decay 'floor' must be a number"@,
            DecayError::FloorOutOfRange => "tap decay 'floor' must be between 0.0 and 1.0"@,
        }
    }

    /// The error as text.
    pub fn message(self) -> (r: String)
        ensures
            r@ == self.words(),
    {
        let s = match self {
            DecayError::NotAMapping => "tap 'decay' must be a mapping",
            DecayError::EnabledNotABoolean => "tap decay 'enabled' must be a boolean",
            DecayError::HalfLifeNotANumber => "tap decay 'half_life_days' must be a number",
            DecayError::HalfLifeNotPositive => "tap decay 'half_life_days' must be > 0",
            DecayError::FloorNotANumber => "tap decay 'floor' must be a number",
            DecayError::FloorOutOfRange => "tap decay 'floor' must be between 0.0 and 1.0",
        };
        s.to_string()
    }
}

/// Decay switched off: 90 days of half-life, a floor of 0.4.
pub open spec fn no_decay() -> DecayConfig {
    DecayConfig {
        enabled: false,
        half_life_days: Real { bits: NINETY },
        floor: Real { bits: TWO_FIFTHS },
    }
}

/// Whether `enabled` is readable, and what it says.
pub open spec fn decay_enabled(t: Seq<FieldView>) -> Result<bool, DecayError> {
    match field_value(t, "enabled"@) {
        None => Ok(true),
        Some(ScalarView::Bool(b)) => Ok(b),
        Some(_) => Err(DecayError::EnabledNotABoolean),
    }
}

/// Whether `half_life_days` is readable and positive, and what it says.
pub open spec fn decay_half_life(t: Seq<FieldView>) -> Result<Real, DecayError> {
    match field_value(t, "half_life_days"@) {
        None => Ok(Real { bits: NINETY }),
        Some(ScalarView::Number(n)) => if (Real { bits: 0 }).below_spec(n.value) {
            Ok(n.value)
        } else {
            Err(DecayError::HalfLifeNotPositive)
        },
        Some(_) => Err(DecayError::HalfLifeNotANumber),
    }
}

/// Whether `floor` is readable and from 0 to 1, and what it says.
pub open spec fn decay_floor(t: Seq<FieldView>) -> Result<Real, DecayError> {
    match field_value(t, "floor"@) {
        None => Ok(Real { bits: TWO_FIFTHS }),
        Some(ScalarView::Number(n)) => if (Real { bits: 0 }).at_most_spec(n.value)
            && n.value.at_most_spec(Real { bits: ONE }) {
            Ok(n.value)
        } else {
            Err(DecayError::FloorOutOfRange)
        },
        Some(_) => Err(DecayError::FloorNotANumber),
    }
}

/// What a tap's settings say of decay: off without a `decay` block, on with
/// one unless it says otherwise; the first unreadable part is the error.
pub open spec fn decay_of(s: Seq<SettingView>) -> Result<DecayConfig, DecayError> {
    match setting_value(s, "decay"@) {
        None => Ok(no_decay()),
        Some(ValueView::One(_)) => Err(DecayError::NotAMapping),
        Some(ValueView::Table(t)) => match decay_enabled(t) {
            Err(e) => Err(e),
            Ok(enabled) => match decay_half_life(t) {
                Err(e) => Err(e),
                Ok(half_life_days) => match decay_floor(t) {
                    Err(e) => Err(e),
                    Ok(floor) => Ok(DecayConfig { enabled, half_life_days, floor }),
                },
            },
        },
    }
}

impl Default for DecayConfig {
    /// Decay switched off.
    fn default() -> (r: DecayConfig)
        ensures
            r == no_decay(),
    {
        DecayConfig {
            enabled: false,
            half_life_days: Real { bits: NINETY },
            floor: Real { bits: TWO_FIFTHS },
        }
    }
}

impl DecayConfig {
    /// Reads a tap's `decay` block. A half-life must be above 0, a floor from 0
    /// to 1.
    pub fn from_settings(settings: &Settings) -> (r: Result<DecayConfig, DecayError>)
        ensures
            r == decay_of(settings.deep_view().entries),
    {
        let block = match settings.get("decay") {
            None => {
                return Ok(DecayConfig::default());
            },
            Some(b) => b,
        };
        let table = match block {
            Value::One(_) => {
                return Err(DecayError::NotAMapping);
            },
            Value::Table(t) => t,
        };
        let mut out = DecayConfig::default();
        out.enabled = true;
        match find_field(table, "enabled") {
            None => {},
            Some(Scalar::Bool(b)) => {
                out.enabled = *b;
            },
            Some(_) => {
                return Err(DecayError::EnabledNotABoolean);
            },
        }
        match find_field(table, "half_life_days") {
            None => {},
            Some(Scalar::Number(n)) => {
                let zero = Real { bits: 0 };
                if !zero.below(n.value) {
                    return Err(DecayError::HalfLifeNotPositive);
                }
                out.half_life_days = n.value;
            },
            Some(_) => {
                return Err(DecayError::HalfLifeNotANumber);
            },
        }
        match find_field(table, "floor") {
            None => {},
            Some(Scalar::Number(n)) => {
                let zero = Real { bits: 0 };
                if !(zero.at_most(n.value) && n.value.at_most(Real { bits: ONE })) {
                    return Err(DecayError::FloorOutOfRange);
                }
                out.floor = n.value;
            },
            Some(_) => {
                return Err(DecayError::FloorNotANumber);
            },
        }
        Ok(out)
    }

    /// The age in seconds by which a document's score is to be decayed: none
    /// where decay is off, the document's last use is unknown, or the present is
    /// not known (`now` is 0). A last use after the present counts as one just now.
    pub fn age(&self, last_used_at: Option<i64>, now: i64) -> (r: Option<i64>)
        requires
            last_used_at matches Some(ts) ==> (self.enabled && now != 0 ==> i64::MIN <= now - ts
                <= i64::MAX),
        ensures
            r == decay_age(*self, last_used_at, now),
    {
        match last_used_at {
            Some(ts) => if self.enabled && now != 0 {
                let age: i64 = now - ts;
                Some(
                    if age < 0 {
                        0
                    } else {
                        age
                    },
                )
            } else {
                None
            },
            None => None,
        }
    }
}

/// The age by which a score is to be decayed, if it is.
pub open spec fn decay_age(d: DecayConfig, last_used_at: Option<i64>, now: i64) -> Option<i64> {
    match last_used_at {
        Some(ts) => if d.enabled && now != 0 {
            Some(
                if now - ts < 0 {
                    0i64
                } else {
                    (now - ts) as i64
                },
            )
        } else {
            None
        },
        None => None,
    }
}

impl TapConfig {
    /// Reads this tap's `decay` block.
    pub fn decay(&self) -> (r: Result<DecayConfig, DecayError>)
        ensures
            r == decay_of(self.deep_view().settings.entries),
    {
        DecayConfig::from_settings(&self.settings)
    }
}

/// Where the list of taps came from.
#[derive(Debug)]
pub struct TapsSources {
    pub source: Source,
}

/// What a [`TapsSources`] holds.
#[verifier::ext_equal]
pub struct TapsSourcesView {
    pub source: SourceView,
}

impl DeepView for TapsSources {
    type V = TapsSourcesView;

    open spec fn deep_view(&self) -> TapsSourcesView {
        TapsSourcesView {
            source: self.source.deep_view(),
        }
    }
}

impl Clone for TapsSources {
    fn clone(&self) -> (r: Self)
        ensures
            r.deep_view() == self.deep_view(),
    {
        TapsSources {
            source: self.source.clone(),
        }
    }
}

/// A declared tap as configured: missing parts are empty.
pub open spec fn tap_of(t: FileTapConfigView) -> TapConfigView {
    TapConfigView {
        name: t.name,
        command: t.command,
        args: match t.args {
            Some(a) => a,
            None => Seq::<Seq<char>>::empty(),
        },
        settings: match t.settings {
            Some(s) => s,
            None => SettingsView { entries: Seq::<SettingView>::empty() },
        },
    }
}

/// The taps a file declares, where it declares any.
pub open spec fn file_taps(file: Option<FileConfigView>) -> Option<Seq<FileTapConfigView>> {
    match file {
        Some(f) => match f.taps {
            Some(t) => if t.len() == 0 {
                None
            } else {
                Some(t)
            },
            None => None,
        },
        None => None,
    }
}

/// The tap that reads the repository's files.
pub open spec fn files_tap() -> TapConfigView {
    TapConfigView {
        name: "files"@,
        command: None,
        args: Seq::<Seq<char>>::empty(),
        settings: SettingsView { entries: Seq::<SettingView>::empty() },
    }
}

/// The configured taps: those of the file, or the files tap alone.
pub open spec fn taps_of(file: Option<FileConfigView>) -> Seq<TapConfigView> {
    match file_taps(file) {
        Some(t) => t.map_values(|x: FileTapConfigView| tap_of(x)),
        None => seq![files_tap()],
    }
}

/// Where the taps come from.
pub open spec fn taps_source_of(file: Option<FileConfigView>) -> SourceView {
    if file_taps(file) is Some {
        SourceView::File
    } else {
        SourceView::Default
    }
}

/// The texts of a list without the whitespace around them, empty ones left out.
pub open spec fn stated(parts: Seq<Seq<char>>) -> Seq<Seq<char>>
    decreases parts.len(),
{
    if parts.len() == 0 {
        Seq::<Seq<char>>::empty()
    } else {
        let head = stated(parts.drop_last());
        let t = trimmed(parts.last());
        if t.len() == 0 {
            head
        } else {
            head.push(t)
        }
    }
}

/// The tap names that a text lists, separated by commas.
pub open spec fn names_in(value: Seq<char>) -> Seq<Seq<char>> {
    stated(pieces(value, ','))
}

/// The tap of that name among those declared, or a new one with nothing but
/// its name.
pub open spec fn tap_named(declared: Seq<FileTapConfigView>, name: Seq<char>) -> FileTapConfigView
    decreases declared.len(),
{
    if declared.len() == 0 {
        FileTapConfigView { name, command: None, args: None, settings: None }
    } else if declared[0].name == name {
        declared[0]
    } else {
        tap_named(declared.drop_first(), name)
    }
}

/// The taps that a text lists. One that is declared already keeps its command,
/// arguments and settings.
pub open spec fn listed_taps(
    declared: Option<Seq<FileTapConfigView>>,
    value: Seq<char>,
) -> Seq<FileTapConfigView> {
    let before = match declared {
        Some(t) => t,
        None => Seq::<FileTapConfigView>::empty(),
    };
    names_in(value).map_values(|name: Seq<char>| tap_named(before, name))
}

fn read_names(value: &str) -> (r: Vec<String>)
    ensures
        r.deep_view() == names_in(value@),
{
    let parts = split(value, ',');
    let ghost pv = parts.deep_view();
    let mut out: Vec<String> = Vec::new();
    let mut i: usize = 0;
    assert(out.deep_view() =~= stated(pv.take(0)));
    while i < parts.len()
        invariant
            i <= parts@.len(),
            pv == parts.deep_view(),
            out.deep_view() == stated(pv.take(i as int)),
        decreases parts@.len() - i,
    {
        let ghost before = out.deep_view();
        proof {
            assert(pv.take(i + 1).drop_last() =~= pv.take(i as int));
            assert(pv.take(i + 1).last() == parts@[i as int]@);
        }
        let name = trim(parts[i].as_str());
        if name.as_str().unicode_len() > 0 {
            let ghost nv = name@;
            out.push(name);
            assert(out.deep_view() =~= before.push(nv));
        }
        i += 1;
    }
    assert(pv.take(i as int) =~= pv);
    out
}

fn find_tap(declared: &Vec<FileTapConfig>, name: &str) -> (r: FileTapConfig)
    ensures
        r.deep_view() == tap_named(declared.deep_view(), name@),
{
    let ghost dv = declared.deep_view();
    let mut i: usize = 0;
    assert(dv.skip(0) =~= dv);
    while i < declared.len()
        invariant
            i <= declared@.len(),
            dv == declared.deep_view(),
            tap_named(dv, name@) == tap_named(dv.skip(i as int), name@),
        decreases declared@.len() - i,
    {
        proof {
            assert(dv.skip(i as int)[0] == declared@[i as int].deep_view());
            assert(dv.skip(i as int).drop_first() =~= dv.skip(i + 1));
        }
        if same(declared[i].name.as_str(), name) {
            return declared[i].clone();
        }
        i += 1;
    }
    let r = FileTapConfig { name: name.to_string(), command: None, args: None, settings: None };
    assert(dv.skip(i as int) =~= Seq::<FileTapConfigView>::empty());
    r
}

/// The taps that a text lists, given those declared so far.
pub(crate) fn list_taps(declared: &Option<Vec<FileTapConfig>>, value: &str) -> (r: Vec<
    FileTapConfig,
>)
    ensures
        r.deep_view() == listed_taps(declared.deep_view(), value@),
{
    let none: Vec<FileTapConfig> = Vec::new();
    let before = match declared {
        Some(t) => t,
        None => &none,
    };
    assert(none.deep_view() =~= Seq::<FileTapConfigView>::empty());
    let names = read_names(value);
    let ghost nv = names.deep_view();
    let ghost want = listed_taps(declared.deep_view(), value@);
    let mut out: Vec<FileTapConfig> = Vec::new();
    let mut i: usize = 0;
    assert(out.deep_view() =~= want.take(0));
    while i < names.len()
        invariant
            i <= names@.len(),
            nv == names.deep_view(),
            want == nv.map_values(|name: Seq<char>| tap_named(before.deep_view(), name)),
            out.deep_view() == want.take(i as int),
        decreases names@.len() - i,
    {
        let ghost so_far = out.deep_view();
        let t = find_tap(before, names[i].as_str());
        let ghost tv = t.deep_view();
        out.push(t);
        proof {
            assert(nv[i as int] == names@[i as int]@);
            assert(out.deep_view() =~= so_far.push(tv));
            assert(want.take(i + 1) =~= want.take(i as int).push(want[i as int]));
        }
        i += 1;
    }
    assert(want.take(i as int) =~= want);
    out
}

proof fn lemma_tap_named(declared: Seq<FileTapConfigView>, name: Seq<char>)
    ensures
        tap_named(declared, name).name == name,
    decreases declared.len(),
{
    if declared.len() > 0 && declared[0].name != name {
        lemma_tap_named(declared.drop_first(), name);
    }
}

/// Listed taps bear the names that were listed, in order.
pub proof fn lemma_listed_names(declared: Option<Seq<FileTapConfigView>>, value: Seq<char>)
    ensures
        listed_taps(declared, value).map_values(|t: FileTapConfigView| t.name) == names_in(value),
{
    let before = match declared {
        Some(t) => t,
        None => Seq::<FileTapConfigView>::empty(),
    };
    assert forall|i: int| 0 <= i < names_in(value).len() implies (#[trigger] listed_taps(
        declared,
        value,
    )[i]).name == names_in(value)[i] by {
        lemma_tap_named(before, names_in(value)[i]);
    }
    assert(listed_taps(declared, value).map_values(|t: FileTapConfigView| t.name)
        =~= names_in(value));
}

fn tap_config(t: &FileTapConfig) -> (r: TapConfig)
    ensures
        r.deep_view() == tap_of(t.deep_view()),
{
    let args: Vec<String> = match &t.args {
        Some(a) => a.clone(),
        None => Vec::new(),
    };
    let settings = match &t.settings {
        Some(s) => s.clone(),
        None => Settings::default(),
    };
    let r = TapConfig { name: t.name.clone(), command: t.command.clone(), args, settings };
    assert(r.deep_view() =~= tap_of(t.deep_view()));
    r
}

/// Resolves the list of taps.
pub fn resolve(file: &Option<FileConfig>) -> (r: (Vec<TapConfig>, TapsSources))
    ensures
        r.0.deep_view() == taps_of(file.deep_view()),
        r.1.deep_view() == (TapsSourcesView { source: taps_source_of(file.deep_view()) }),
{
    if let Some(f) = file {
        if let Some(list) = &f.taps {
            assert(list.deep_view().len() == list@.len());
            if list.len() > 0 {
                let ghost want = taps_of(file.deep_view());
                let mut out: Vec<TapConfig> = Vec::new();
                let mut i: usize = 0;
                assert(out.deep_view() =~= want.take(0));
                while i < list.len()
                    invariant
                        i <= list@.len(),
                        want == list.deep_view().map_values(|x: FileTapConfigView| tap_of(x)),
                        out.deep_view() == want.take(i as int),
                    decreases list@.len() - i,
                {
                    let ghost before = out.deep_view();
                    let t = tap_config(&list[i]);
                    let ghost tv = t.deep_view();
                    out.push(t);
                    proof {
                        assert(want[i as int] == tv);
                        assert(out.deep_view() =~= before.push(tv));
                        assert(want.take(i + 1) =~= want.take(i as int).push(want[i as int]));
                    }
                    i += 1;
                }
                assert(want.take(i as int) =~= want);
                return (out, TapsSources { source: Source::File });
            }
        }
    }
    let files = TapConfig {
        name: "files".to_string(),
        command: None,
        args: Vec::new(),
        settings: Settings::default(),
    };
    assert(files.deep_view() =~= files_tap());
    let mut out: Vec<TapConfig> = Vec::new();
    out.push(files);
    assert(out.deep_view() =~= seq![files_tap()]);
    (out, TapsSources { source: Source::Default })
}

/// Decay that was accepted has a floor from 0 to 1 and a half-life above 0; it is
/// on exactly when there is a `decay` block that does not switch it off.
pub proof fn law_accepted_decay_is_in_range(s: Seq<SettingView>)
    requires
        decay_of(s) is Ok,
    ensures
        ({
            let d = decay_of(s)->Ok_0;
            &&& (Real { bits: 0 }).at_most_spec(d.floor)
            &&& d.floor.at_most_spec(Real { bits: ONE })
            &&& (Real { bits: 0 }).below_spec(d.half_life_days)
            &&& d.enabled <==> match setting_value(s, "decay"@) {
                Some(ValueView::Table(t)) => field_value(t, "enabled"@) != Some(
                    ScalarView::Bool(false),
                ),
                _ => false,
            }
        }),
{
}

/// Decay that was accepted has the half-life and the floor that the block states,
/// and where it states none, ninety days and two fifths; without a block decay is
/// off.
pub proof fn law_accepted_decay_is_what_was_stated(s: Seq<SettingView>)
    requires
        decay_of(s) is Ok,
    ensures
        ({
            let d = decay_of(s)->Ok_0;
            match setting_value(s, "decay"@) {
                Some(ValueView::Table(t)) => {
                    &&& match field_value(t, "half_life_days"@) {
                        Some(ScalarView::Number(n)) => d.half_life_days == n.value,
                        Some(_) => false,
                        None => d.half_life_days.bits == NINETY,
                    }
                    &&& match field_value(t, "floor"@) {
                        Some(ScalarView::Number(n)) => d.floor == n.value,
                        Some(_) => false,
                        None => d.floor.bits == TWO_FIFTHS,
                    }
                    &&& field_value(t, "enabled"@) matches Some(e) ==> e == ScalarView::Bool(
                        d.enabled,
                    )
                },
                Some(_) => false,
                None => !d.enabled && d.half_life_days.bits == NINETY && d.floor.bits == TWO_FIFTHS,
            }
        }),
{
}

/// The age of a document is the time since its last use, and nothing where decay is
/// off or one of the two is not known; it is never below zero.
pub proof fn law_age(d: DecayConfig, last_used_at: Option<i64>, now: i64)
    requires
        last_used_at matches Some(ts) ==> i64::MIN <= now - ts <= i64::MAX,
    ensures
        decay_age(d, last_used_at, now) is Some <==> d.enabled && now != 0 && last_used_at is Some,
        decay_age(d, last_used_at, now) matches Some(age) ==> {
            let ts = last_used_at->0;
            &&& age >= 0
            &&& ts <= now ==> age == now - ts
            &&& ts > now ==> age == 0
        },
{
}

/// A tap is configured with what the file says of it; what the file leaves out is
/// empty.
pub proof fn law_taps_keep_their_parts(t: FileTapConfigView)
    ensures
        ({
            let c = tap_of(t);
            &&& c.name == t.name
            &&& c.command == t.command
            &&& t.args matches Some(a) ==> c.args == a
            &&& t.args is None ==> c.args.len() == 0
            &&& t.settings matches Some(s) ==> c.settings == s
            &&& t.settings is None ==> c.settings.entries.len() == 0
        }),
{
}

/// The taps are those of the file, in its order; where it lists none, there is the
/// files tap alone.
pub proof fn law_taps_are_those_of_the_file(file: Option<FileConfigView>)
    ensures
        match file {
            Some(f) => f.taps matches Some(list) ==> (list.len() > 0 ==> taps_of(file).len()
                == list.len() && taps_source_of(file) is File && forall|k: int|
                0 <= k < list.len() ==> #[trigger] taps_of(file)[k] == tap_of(list[k])),
            None => true,
        },
        file is None || file->0.taps is None || file->0.taps->0.len() == 0 ==> taps_of(file).len()
            == 1 && taps_of(file)[0].name == "files"@ && taps_of(file)[0].command is None
            && taps_source_of(file) is Default,
{
}

/// A list of taps names them between commas: each name is a piece without the
/// whitespace around it, none is empty, and no piece that holds a name is left out.
pub proof fn law_names_in_a_list(value: Seq<char>, x: Seq<char>)
    ensures
        names_in(value).contains(x) <==> x.len() > 0 && exists|k: int|
            0 <= k < pieces(value, ',').len() && trimmed(#[trigger] pieces(value, ',')[k]) == x,
{
    lemma_stated(pieces(value, ','), x);
}

proof fn lemma_stated(parts: Seq<Seq<char>>, x: Seq<char>)
    ensures
        stated(parts).contains(x) <==> x.len() > 0 && exists|k: int|
            0 <= k < parts.len() && trimmed(#[trigger] parts[k]) == x,
    decreases parts.len(),
{
    if parts.len() > 0 {
        let before = parts.drop_last();
        let n = before.len() as int;
        lemma_stated(before, x);
        assert(forall|k: int| 0 <= k < n ==> #[trigger] parts[k] == before[k]);
        let head = stated(before);
        let all = stated(parts);
        if head.contains(x) {
            let m = choose|m: int| 0 <= m < head.len() && head[m] == x;
            assert(all[m] == x);
            let k = choose|k: int| 0 <= k < before.len() && trimmed(#[trigger] before[k]) == x;
            assert(trimmed(parts[k]) == x);
        }
        if all.contains(x) && !head.contains(x) {
            let m = choose|m: int| 0 <= m < all.len() && all[m] == x;
            if m < head.len() {
                assert(head[m] == x);
            }
            assert(trimmed(parts[n]) == x);
        }
        if x.len() > 0 && exists|k: int| 0 <= k < parts.len() && trimmed(#[trigger] parts[k]) == x {
            let k = choose|k: int| 0 <= k < parts.len() && trimmed(#[trigger] parts[k]) == x;
            if k < n {
                assert(trimmed(before[k]) == x);
            } else {
                assert(all[head.len() as int] == x);
            }
        }
    }
}

/// Listing a tap that the file already declares keeps its command, its arguments
/// and its settings; one that it does not declare has none.
pub proof fn law_listing_keeps_what_was_declared(
    declared: Seq<FileTapConfigView>,
    name: Seq<char>,
)
    ensures
        ({
            let t = tap_named(declared, name);
            &&& t.name == name
            &&& (exists|k: int| 0 <= k < declared.len() && (#[trigger] declared[k]).name == name)
                ==> declared.contains(t)
            &&& (forall|k: int| 0 <= k < declared.len() ==> (#[trigger] declared[k]).name != name)
                ==> t.command is None && t.args is None && t.settings is None
        }),
    decreases declared.len(),
{
    if declared.len() > 0 {
        if declared[0].name == name {
            assert(declared.contains(declared[0]));
        } else {
            let rest = declared.drop_first();
            law_listing_keeps_what_was_declared(rest, name);
            assert(forall|k: int| 0 <= k < rest.len() ==> #[trigger] rest[k] == declared[k + 1]);
            let t = tap_named(rest, name);
            if exists|k: int| 0 <= k < declared.len() && (#[trigger] declared[k]).name == name {
                let k = choose|k: int| 0 <= k < declared.len() && (#[trigger] declared[k]).name == name;
                assert(rest[k - 1].name == name);
                let m = choose|m: int| 0 <= m < rest.len() && rest[m] == t;
                assert(declared[m + 1] == t);
            }
        }
    }
}

} // verus!
