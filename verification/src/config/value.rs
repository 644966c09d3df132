//! Untyped settings: what a configuration file may hold under a key.
use vstd::prelude::*;

use crate::number::Real;
use crate::text::same;

verus! {

/// A number of a configuration file.
#[derive(Clone, Copy, PartialEq, Eq, Structural, Debug)]
pub struct Number {
    /// Its value, where it was written as an integer from zero up.
    pub unsigned: Option<u64>,
    /// Its value, where it was written as an integer below zero.
    pub negative: Option<i64>,
    /// Its value as a double.
    pub value: Real,
}

/// A single value of a configuration file.
#[derive(Debug)]
pub enum Scalar {
    Null,
    Bool(bool),
    Number(Number),
    Text(String),
    /// A list, a table, or a value of another kind, written out.
    Other(String),
}

/// What a [`Scalar`] holds.
#[verifier::ext_equal]
pub enum ScalarView {
    Null,
    Bool(bool),
    Number(Number),
    Text(Seq<char>),
    Other(Seq<char>),
}

impl DeepView for Scalar {
    type V = ScalarView;

    open spec fn deep_view(&self) -> ScalarView {
        match self {
            Scalar::Null => ScalarView::Null,
            Scalar::Bool(b) => ScalarView::Bool(*b),
            Scalar::Number(n) => ScalarView::Number(*n),
            Scalar::Text(s) => ScalarView::Text(s@),
            Scalar::Other(s) => ScalarView::Other(s@),
        }
    }
}

impl Clone for Scalar {
    fn clone(&self) -> (r: Self)
        ensures
            r.deep_view() == self.deep_view(),
    {
        match self {
            Scalar::Null => Scalar::Null,
            Scalar::Bool(b) => Scalar::Bool(*b),
            Scalar::Number(n) => Scalar::Number(*n),
            Scalar::Text(s) => Scalar::Text(s.clone()),
            Scalar::Other(s) => Scalar::Other(s.clone()),
        }
    }
}

/// A named value of a table.
#[derive(Debug)]
pub struct Field {
    pub key: String,
    pub value: Scalar,
}

/// What a [`Field`] holds.
#[verifier::ext_equal]
pub struct FieldView {
    pub key: Seq<char>,
    pub value: ScalarView,
}

impl DeepView for Field {
    type V = FieldView;

    open spec fn deep_view(&self) -> FieldView {
        FieldView {
            key: self.key@,
            value: self.value.deep_view(),
        }
    }
}

impl Clone for Field {
    fn clone(&self) -> (r: Self)
        ensures
            r.deep_view() == self.deep_view(),
    {
        Field {
            key: self.key.clone(),
            value: self.value.clone(),
        }
    }
}

/// A value under a settings key: a single value, or a table of them.
#[derive(Debug)]
pub enum Value {
    One(Scalar),
    Table(Vec<Field>),
}

/// What a [`Value`] holds.
#[verifier::ext_equal]
pub enum ValueView {
    One(ScalarView),
    Table(Seq<FieldView>),
}

impl DeepView for Value {
    type V = ValueView;

    open spec fn deep_view(&self) -> ValueView {
        match self {
            Value::One(s) => ValueView::One(s.deep_view()),
            Value::Table(t) => ValueView::Table(t.deep_view()),
        }
    }
}

impl Clone for Value {
    fn clone(&self) -> (r: Self)
        ensures
            r.deep_view() == self.deep_view(),
    {
        match self {
            Value::One(s) => Value::One(s.clone()),
            Value::Table(t) => Value::Table(t.clone()),
        }
    }
}

/// One named setting.
#[derive(Debug)]
pub struct Setting {
    pub key: String,
    pub value: Value,
}

/// What a [`Setting`] holds.
#[verifier::ext_equal]
pub struct SettingView {
    pub key: Seq<char>,
    pub value: ValueView,
}

impl DeepView for Setting {
    type V = SettingView;

    open spec fn deep_view(&self) -> SettingView {
        SettingView {
            key: self.key@,
            value: self.value.deep_view(),
        }
    }
}

impl Clone for Setting {
    fn clone(&self) -> (r: Self)
        ensures
            r.deep_view() == self.deep_view(),
    {
        Setting {
            key: self.key.clone(),
            value: self.value.clone(),
        }
    }
}

/// The settings of a tap.
#[derive(Debug)]
pub struct Settings {
    pub entries: Vec<Setting>,
}

/// What a [`Settings`] holds.
#[verifier::ext_equal]
pub struct SettingsView {
    pub entries: Seq<SettingView>,
}

impl DeepView for Settings {
    type V = SettingsView;

    open spec fn deep_view(&self) -> SettingsView {
        SettingsView {
            entries: self.entries.deep_view(),
        }
    }
}

impl Clone for Settings {
    fn clone(&self) -> (r: Self)
        ensures
            r.deep_view() == self.deep_view(),
    {
        Settings {
            entries: self.entries.clone(),
        }
    }
}

impl Default for Settings {
    /// No settings.
    fn default() -> (r: Settings)
        ensures
            r.entries@.len() == 0,
    {
        Settings { entries: Vec::new() }
    }
}

/// The value of the first field of that name.
pub open spec fn field_value(t: Seq<FieldView>, key: Seq<char>) -> Option<ScalarView>
    decreases t.len(),
{
    if t.len() == 0 {
        None
    } else if t[0].key == key {
        Some(t[0].value)
    } else {
        field_value(t.drop_first(), key)
    }
}

/// The field of that name.
pub fn find_field<'a>(t: &'a Vec<Field>, key: &str) -> (r: Option<&'a Scalar>)
    ensures
        r.deep_view() == field_value(t.deep_view(), key@),
{
    let ghost e = t.deep_view();
    let mut i: usize = 0;
    assert(e.skip(0) =~= e);
    while i < t.len()
        invariant
            i <= t@.len(),
            e == t.deep_view(),
            field_value(e, key@) == field_value(e.skip(i as int), key@),
        decreases t@.len() - i,
    {
        assert(e.skip(i as int)[0] == t@[i as int].deep_view());
        if same(t[i].key.as_str(), key) {
            return Some(&t[i].value);
        }
        assert(e.skip(i as int).drop_first() =~= e.skip(i + 1));
        i += 1;
    }
    None
}

/// The value of the first setting of that name.
pub open spec fn setting_value(s: Seq<SettingView>, key: Seq<char>) -> Option<ValueView>
    decreases s.len(),
{
    if s.len() == 0 {
        None
    } else if s[0].key == key {
        Some(s[0].value)
    } else {
        setting_value(s.drop_first(), key)
    }
}

impl Settings {
    /// The setting of that name.
    pub fn get(&self, key: &str) -> (r: Option<&Value>)
        ensures
            r.deep_view() == setting_value(self.deep_view().entries, key@),
    {
        let ghost e = self.entries.deep_view();
        let mut i: usize = 0;
        assert(e.skip(0) =~= e);
        while i < self.entries.len()
            invariant
                i <= self.entries@.len(),
                e == self.entries.deep_view(),
                setting_value(e, key@) == setting_value(e.skip(i as int), key@),
            decreases self.entries@.len() - i,
        {
            assert(e.skip(i as int)[0] == self.entries@[i as int].deep_view());
            if same(self.entries[i].key.as_str(), key) {
                return Some(&self.entries[i].value);
            }
            assert(e.skip(i as int).drop_first() =~= e.skip(i + 1));
            i += 1;
        }
        None
    }
}

/// The text a value is.
pub open spec fn text_value(v: ValueView) -> Option<Seq<char>> {
    match v {
        ValueView::One(ScalarView::Text(s)) => Some(s),
        _ => None,
    }
}

/// The boolean a value is.
pub open spec fn bool_value(v: ValueView) -> Option<bool> {
    match v {
        ValueView::One(ScalarView::Bool(b)) => Some(b),
        _ => None,
    }
}

/// The integer from zero up that a value is.
pub open spec fn unsigned_value(v: ValueView) -> Option<u64> {
    match v {
        ValueView::One(ScalarView::Number(n)) => n.unsigned,
        _ => None,
    }
}

impl Value {
    /// The text this value is.
    pub fn as_text(&self) -> (r: Option<&str>)
        ensures
            r.deep_view() == text_value(self.deep_view()),
    {
        match self {
            Value::One(Scalar::Text(s)) => Some(s.as_str()),
            _ => None,
        }
    }

    /// The boolean this value is.
    pub fn as_bool(&self) -> (r: Option<bool>)
        ensures
            r == bool_value(self.deep_view()),
    {
        match self {
            Value::One(Scalar::Bool(b)) => Some(*b),
            _ => None,
        }
    }

    /// The integer from zero up that this value is.
    pub fn as_unsigned(&self) -> (r: Option<u64>)
        ensures
            r == unsigned_value(self.deep_view()),
    {
        match self {
            Value::One(Scalar::Number(n)) => n.unsigned,
            _ => None,
        }
    }
}

// ---------------------------------------------------------------------------
// Laws
// ---------------------------------------------------------------------------

/// A setting is the value of the first entry under its key.
pub proof fn law_settings_are_found_by_key(s: Seq<SettingView>, key: Seq<char>, k: int)
    requires
        0 <= k < s.len(),
        s[k].key == key,
        forall|j: int| 0 <= j < k ==> (#[trigger] s[j]).key != key,
    ensures
        setting_value(s, key) == Some(s[k].value),
    decreases k,
{
    if k > 0 {
        let rest = s.drop_first();
        assert(s[0].key != key);
        assert forall|j: int| 0 <= j < k - 1 implies (#[trigger] rest[j]).key != key by {
            assert(rest[j] == s[j + 1]);
        }
        law_settings_are_found_by_key(rest, key, k - 1);
    }
}

/// Without an entry under its key there is none.
pub proof fn law_settings_without_an_entry(s: Seq<SettingView>, key: Seq<char>)
    requires
        forall|j: int| 0 <= j < s.len() ==> (#[trigger] s[j]).key != key,
    ensures
        setting_value(s, key) is None,
    decreases s.len(),
{
    if s.len() > 0 {
        let rest = s.drop_first();
        assert forall|j: int| 0 <= j < rest.len() implies (#[trigger] rest[j]).key != key by {
            assert(rest[j] == s[j + 1]);
        }
        law_settings_without_an_entry(rest, key);
    }
}

/// A field of a table is the value of the first entry under its key.
pub proof fn law_fields_are_found_by_key(t: Seq<FieldView>, key: Seq<char>, k: int)
    requires
        0 <= k < t.len(),
        t[k].key == key,
        forall|j: int| 0 <= j < k ==> (#[trigger] t[j]).key != key,
    ensures
        field_value(t, key) == Some(t[k].value),
    decreases k,
{
    if k > 0 {
        let rest = t.drop_first();
        assert(t[0].key != key);
        assert forall|j: int| 0 <= j < k - 1 implies (#[trigger] rest[j]).key != key by {
            assert(rest[j] == t[j + 1]);
        }
        law_fields_are_found_by_key(rest, key, k - 1);
    }
}

/// Without an entry under its key there is none.
pub proof fn law_fields_without_an_entry(t: Seq<FieldView>, key: Seq<char>)
    requires
        forall|j: int| 0 <= j < t.len() ==> (#[trigger] t[j]).key != key,
    ensures
        field_value(t, key) is None,
    decreases t.len(),
{
    if t.len() > 0 {
        let rest = t.drop_first();
        assert forall|j: int| 0 <= j < rest.len() implies (#[trigger] rest[j]).key != key by {
            assert(rest[j] == t[j + 1]);
        }
        law_fields_without_an_entry(rest, key);
    }
}

} // verus!
