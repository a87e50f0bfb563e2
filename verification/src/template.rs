//! Profile templates and their resolution into installable profiles.
//!
//! A template names a set of configuration settings, may extend one parent
//! template, and may be disabled. Resolving a template walks its `extends`
//! chain from the template itself to the root ancestor, converting each
//! scalar setting to text and keeping the value set by the nearest template
//! whenever two templates set the same key. A parent that does not exist is
//! a hard error naming both templates, and so is a chain that revisits a
//! template it has already passed through.
//!
//! Collections are keyed vectors with distinct keys; their mathematical
//! model is the finite map the entries spell out.

use vstd::prelude::*;

verus! {

use crate::error::Error;
use crate::error::ErrorModel;
use crate::text::contains_name;
use crate::text::str_eq;

/// Holds when no two entries share a key.
pub open spec fn distinct_keys<V>(s: Seq<(Seq<char>, V)>) -> bool {
    forall|i: int, j: int| 0 <= i < j < s.len() ==> (#[trigger] s[i]).0 != (#[trigger] s[j]).0
}

/// The finite map spelled out by a sequence of keyed entries; a later entry
/// wins over an earlier one with the same key.
pub open spec fn map_of<V>(s: Seq<(Seq<char>, V)>) -> Map<Seq<char>, V>
    decreases s.len(),
{
    if s.len() == 0 {
        Map::empty()
    } else {
        map_of(s.drop_last()).insert(s.last().0, s.last().1)
    }
}

/// A key is in the map exactly when some entry carries it.
pub proof fn lemma_map_of_contains<V>(s: Seq<(Seq<char>, V)>, k: Seq<char>)
    ensures
        map_of(s).contains_key(k) <==> exists|i: int| 0 <= i < s.len() && (#[trigger] s[i]).0 == k,
    decreases s.len(),
{
    if s.len() > 0 {
        lemma_map_of_contains(s.drop_last(), k);
        if s.last().0 == k {
            assert((s[s.len() - 1]).0 == k);
        } else if map_of(s).contains_key(k) {
            let i = choose|i: int| 0 <= i < s.drop_last().len() && (#[trigger] s.drop_last()[i]).0
                == k;
            assert((s[i]).0 == k);
        } else {
            assert forall|i: int| 0 <= i < s.len() implies (#[trigger] s[i]).0 != k by {
                if i < s.len() - 1 {
                    assert(s.drop_last()[i] == s[i]);
                }
            }
        }
    }
}

/// With distinct keys, each entry's value is the map's value at its key.
pub proof fn lemma_map_of_index<V>(s: Seq<(Seq<char>, V)>, i: int)
    requires
        distinct_keys(s),
        0 <= i < s.len(),
    ensures
        map_of(s).contains_key(s[i].0),
        map_of(s)[s[i].0] == s[i].1,
    decreases s.len(),
{
    if i == s.len() - 1 {
        assert(s.last() == s[i]);
    } else {
        assert(forall|a: int, b: int|
            0 <= a < b < s.drop_last().len() ==> (#[trigger] s.drop_last()[a]).0 != (
            #[trigger] s.drop_last()[b]).0);
        lemma_map_of_index(s.drop_last(), i);
        assert(s.drop_last()[i] == s[i]);
        assert(s.last().0 != s[i].0);
    }
}

/// With distinct keys, the map has exactly one key per entry.
pub proof fn lemma_map_of_len<V>(s: Seq<(Seq<char>, V)>)
    requires
        distinct_keys(s),
    ensures
        map_of(s).dom().finite(),
        map_of(s).dom().len() == s.len(),
    decreases s.len(),
{
    broadcast use vstd::set::group_set_axioms;

    if s.len() > 0 {
        assert(forall|a: int, b: int|
            0 <= a < b < s.drop_last().len() ==> (#[trigger] s.drop_last()[a]).0 != (
            #[trigger] s.drop_last()[b]).0);
        lemma_map_of_len(s.drop_last());
        lemma_map_of_contains(s.drop_last(), s.last().0);
        assert(forall|i: int|
            0 <= i < s.drop_last().len() ==> (#[trigger] s.drop_last()[i]) == s[i]);
        assert(!map_of(s.drop_last()).contains_key(s.last().0));
    }
}

/// One scalar-or-composite setting value from a configuration document.
#[derive(Debug, Clone)]
pub enum SettingValue {
    /// The null value.
    Null,
    /// A boolean value.
    Flag(bool),
    /// A number, carried as the decimal text it was written with.
    Number(String),
    /// A string value.
    Text(String),
    /// An array; not representable as a profile setting.
    Array,
    /// An object; not representable as a profile setting.
    Object,
}

/// The mathematical model of a [`SettingValue`].
pub enum SettingModel {
    /// The null value.
    Null,
    /// A boolean value.
    Flag(bool),
    /// A number, as decimal text.
    Number(Seq<char>),
    /// A string value.
    Text(Seq<char>),
    /// An array.
    Array,
    /// An object.
    Object,
}

impl View for SettingValue {
    type V = SettingModel;

    open spec fn view(&self) -> SettingModel {
        match self {
            SettingValue::Null => SettingModel::Null,
            SettingValue::Flag(b) => SettingModel::Flag(*b),
            SettingValue::Number(t) => SettingModel::Number(t@),
            SettingValue::Text(t) => SettingModel::Text(t@),
            SettingValue::Array => SettingModel::Array,
            SettingValue::Object => SettingModel::Object,
        }
    }
}

/// The text a scalar setting value converts to, and nothing for an array or
/// an object: booleans spell `true` or `false`, null becomes empty text,
/// numbers and strings keep their own text.
pub open spec fn converted_value(v: SettingModel) -> Option<Seq<char>> {
    match v {
        SettingModel::Null => Some(Seq::<char>::empty()),
        SettingModel::Flag(b) => Some(
            if b {
                "true"@
            } else {
                "false"@
            },
        ),
        SettingModel::Number(t) => Some(t),
        SettingModel::Text(t) => Some(t),
        SettingModel::Array => None,
        SettingModel::Object => None,
    }
}

/// Converts one setting value into the text installed into a profile; an
/// array or object is a hard error.
pub fn convert_value(value: &SettingValue) -> (r: Result<String, Error>)
    ensures
        match r {
            Ok(s) => converted_value(value@) == Some(s@),
            Err(e) => converted_value(value@) is None && e@.status == 1 && e@.message == Some(
                "The array and object values are not supported."@,
            ) && e@.context == Seq::<Seq<char>>::empty(),
        },
{
    match value {
        SettingValue::Null => Ok(String::new()),
        SettingValue::Flag(b) => Ok(
            if *b {
                String::from_str("true")
            } else {
                String::from_str("false")
            },
        ),
        SettingValue::Number(t) => Ok(t.clone()),
        SettingValue::Text(t) => Ok(t.clone()),
        SettingValue::Array => Err(
            Error::new(1).with_message(
                String::from_str("The array and object values are not supported."),
            ),
        ),
        SettingValue::Object => Err(
            Error::new(1).with_message(
                String::from_str("The array and object values are not supported."),
            ),
        ),
    }
}

/// The view of a vector of keyed setting values.
pub open spec fn settings_view(s: Seq<(String, SettingValue)>) -> Seq<(Seq<char>, SettingModel)> {
    s.map_values(|p: (String, SettingValue)| (p.0@, p.1@))
}

/// The view of a vector of keyed text values.
pub open spec fn text_entries_view(s: Seq<(String, String)>) -> Seq<(Seq<char>, Seq<char>)> {
    s.map_values(|p: (String, String)| (p.0@, p.1@))
}

/// A profile template: settings, an optional parent, and an enabled flag.
#[derive(Debug, Clone)]
pub struct Template {
    /// Whether the template itself is offered as a profile.
    enabled: bool,
    /// The name of the template this one extends, if any.
    extends: Option<String>,
    /// The template's own settings.
    settings: Vec<(String, SettingValue)>,
}

/// The mathematical model of a [`Template`].
pub struct TemplateModel {
    /// Whether the template itself is offered as a profile.
    pub enabled: bool,
    /// The name of the template this one extends, if any.
    pub extends: Option<Seq<char>>,
    /// The template's own settings, in entry order.
    pub settings: Seq<(Seq<char>, SettingModel)>,
}

/// Holds when a template's settings carry no repeated key.
pub open spec fn template_wf(t: TemplateModel) -> bool {
    distinct_keys(t.settings)
}

impl View for Template {
    type V = TemplateModel;

    closed spec fn view(&self) -> TemplateModel {
        TemplateModel {
            enabled: self.enabled,
            extends: match self.extends {
                Some(e) => Some(e@),
                None => None,
            },
            settings: settings_view(self.settings@),
        }
    }
}

impl Template {
    /// Builds a template from its parts; the settings must be a mapping, so
    /// no key may repeat.
    pub fn new(enabled: bool, extends: Option<String>, settings: Vec<(String, SettingValue)>) -> (r:
        Template)
        requires
            distinct_keys(settings_view(settings@)),
        ensures
            r@.enabled == enabled,
            r@.extends == match extends {
                Some(e) => Some(e@),
                None => None::<Seq<char>>,
            },
            r@.settings == settings_view(settings@),
            template_wf(r@),
    {
        Template { enabled, extends, settings }
    }

    /// Returns whether the template is offered as a profile of its own.
    pub fn enabled(&self) -> (r: bool)
        ensures
            r == self@.enabled,
    {
        self.enabled
    }

    /// Returns the name of the template this one extends, if any.
    pub fn extends(&self) -> (r: &Option<String>)
        ensures
            self@.extends == match r {
                Some(e) => Some(e@),
                None => None::<Seq<char>>,
            },
    {
        &self.extends
    }

    /// Returns the template's own settings, in entry order.
    pub fn settings(&self) -> (r: &Vec<(String, SettingValue)>)
        ensures
            self@.settings == settings_view(r@),
    {
        &self.settings
    }
}

/// A named collection of templates with distinct names.
#[derive(Debug)]
pub struct Templates {
    /// The named templates, in entry order.
    entries: Vec<(String, Template)>,
}

/// The view of a vector of named templates.
pub open spec fn template_entries_view(s: Seq<(String, Template)>) -> Seq<
    (Seq<char>, TemplateModel),
> {
    s.map_values(|p: (String, Template)| (p.0@, p.1@))
}

impl View for Templates {
    type V = Seq<(Seq<char>, TemplateModel)>;

    closed spec fn view(&self) -> Seq<(Seq<char>, TemplateModel)> {
        template_entries_view(self.entries@)
    }
}

impl Templates {
    /// The collection as the map from names to templates.
    pub open spec fn tmap(&self) -> Map<Seq<char>, TemplateModel> {
        map_of(self@)
    }

    /// Holds when names are distinct and every template is well formed.
    pub open spec fn wf(&self) -> bool {
        distinct_keys(self@) && forall|i: int|
            0 <= i < self@.len() ==> template_wf((#[trigger] self@[i]).1)
    }

    /// Creates an empty collection.
    pub fn new() -> (r: Templates)
        ensures
            r@ == Seq::<(Seq<char>, TemplateModel)>::empty(),
            r.wf(),
    {
        let r = Templates { entries: Vec::new() };
        proof {
            assert(r@ =~= Seq::<(Seq<char>, TemplateModel)>::empty());
        }
        r
    }

    /// Builds a collection from named templates with distinct names,
    /// keeping their order.
    pub fn from_entries(entries: Vec<(String, Template)>) -> (r: Templates)
        requires
            distinct_keys(template_entries_view(entries@)),
            forall|i: int|
                0 <= i < entries@.len() ==> template_wf(
                    (#[trigger] template_entries_view(entries@)[i]).1,
                ),
        ensures
            r@ == template_entries_view(entries@),
            r.wf(),
    {
        Templates { entries }
    }

    /// Returns how many templates the collection holds.
    pub fn len(&self) -> (r: usize)
        ensures
            r == self@.len(),
    {
        self.entries.len()
    }

    /// Returns whether the collection holds no template.
    pub fn is_empty(&self) -> (r: bool)
        ensures
            r == (self@.len() == 0),
    {
        self.entries.len() == 0
    }

    /// Returns the name of the entry at an index.
    pub fn name_at(&self, i: usize) -> (r: &String)
        requires
            i < self@.len(),
        ensures
            r@ == self@[i as int].0,
    {
        &self.entries[i].0
    }

    /// Returns the template of the entry at an index.
    pub fn template_at(&self, i: usize) -> (r: &Template)
        requires
            i < self@.len(),
        ensures
            r@ == self@[i as int].1,
    {
        &self.entries[i].1
    }

    /// Looks a template up by name.
    pub fn get(&self, name: &str) -> (r: Option<&Template>)
        requires
            self.wf(),
        ensures
            match r {
                Some(t) => self.tmap().contains_key(name@) && self.tmap()[name@] == t@,
                None => !self.tmap().contains_key(name@),
            },
    {
        let n = self.entries.len();
        let mut i: usize = 0;
        while i < n
            invariant
                i <= n,
                n == self.entries.len(),
                self.wf(),
                self@ == template_entries_view(self.entries@),
                forall|k: int| 0 <= k < i ==> (#[trigger] self@[k]).0 != name@,
            decreases n - i,
        {
            if str_eq(self.entries[i].0.as_str(), name) {
                proof {
                    lemma_map_of_index(self@, i as int);
                }
                return Some(&self.entries[i].1);
            }
            i = i + 1;
        }
        proof {
            lemma_map_of_contains(self@, name@);
        }
        None
    }
}

/// A resolved profile: a name and text-valued settings, ready to install.
#[derive(Debug)]
pub struct Profile {
    /// The name of the profile.
    name: String,
    /// The profile configuration settings, in entry order.
    settings: Vec<(String, String)>,
}

/// The mathematical model of a [`Profile`].
pub struct ProfileModel {
    /// The name of the profile.
    pub name: Seq<char>,
    /// The settings, in entry order.
    pub settings: Seq<(Seq<char>, Seq<char>)>,
}

impl View for Profile {
    type V = ProfileModel;

    closed spec fn view(&self) -> ProfileModel {
        ProfileModel { name: self.name@, settings: text_entries_view(self.settings@) }
    }
}

impl Profile {
    /// The settings as the map from keys to values.
    pub open spec fn smap(&self) -> Map<Seq<char>, Seq<char>> {
        map_of(self@.settings)
    }

    /// Returns the name of the profile.
    pub fn name(&self) -> (r: &str)
        ensures
            r@ == self@.name,
    {
        self.name.as_str()
    }

    /// Returns the profile configuration settings.
    pub fn settings(&self) -> (r: &Vec<(String, String)>)
        ensures
            text_entries_view(r@) == self@.settings,
    {
        &self.settings
    }
}

/// What resolving one template comes to: the merged settings, or the first
/// failure met on the walk up the `extends` chain.
pub enum Resolution {
    /// The merged settings of the template and all its ancestors.
    Resolved(Map<Seq<char>, Seq<char>>),
    /// The chain named a parent that does not exist: the resolved template's
    /// own name, then the missing name.
    MissingParent(Seq<char>, Seq<char>),
    /// A setting held an array or an object: the offending key, and the
    /// ancestor it sits in (nothing for the resolved template itself).
    BadValue(Seq<char>, Option<Seq<char>>),
    /// The chain revisited a template: the name seen twice.
    Cycle(Seq<char>),
}

/// Merges one template's settings into the accumulated map, in entry order:
/// a key already present keeps its value, a fresh key is converted and
/// inserted, and an array or object under a fresh key stops the merge with
/// that key.
pub open spec fn merge_settings(
    acc: Map<Seq<char>, Seq<char>>,
    s: Seq<(Seq<char>, SettingModel)>,
) -> Result<Map<Seq<char>, Seq<char>>, Seq<char>>
    decreases s.len(),
{
    if s.len() == 0 {
        Ok(acc)
    } else if acc.contains_key(s[0].0) {
        merge_settings(acc, s.drop_first())
    } else {
        match converted_value(s[0].1) {
            Some(text) => merge_settings(acc.insert(s[0].0, text), s.drop_first()),
            None => Err(s[0].0),
        }
    }
}

/// Walks the `extends` chain upward from a template whose own settings have
/// already been merged into `acc`. A parent already visited is a cycle; one
/// absent from the collection is a missing parent; otherwise its settings
/// are merged and the walk continues from it.
pub open spec fn resolve_chain(
    tm: Map<Seq<char>, TemplateModel>,
    acc: Map<Seq<char>, Seq<char>>,
    root: Seq<char>,
    ext: Option<Seq<char>>,
    visited: Set<Seq<char>>,
) -> Resolution
    decreases tm.dom().insert(root).len() - visited.len()
        when visited.finite() && tm.dom().finite() && visited.subset_of(tm.dom().insert(root))
        via resolve_chain_decreases
{
    match ext {
        None => Resolution::Resolved(acc),
        Some(p) => if visited.contains(p) {
            Resolution::Cycle(p)
        } else if !tm.dom().contains(p) {
            Resolution::MissingParent(root, p)
        } else {
            match merge_settings(acc, tm[p].settings) {
                Ok(acc2) => resolve_chain(tm, acc2, root, tm[p].extends, visited.insert(p)),
                Err(k) => Resolution::BadValue(k, Some(p)),
            }
        },
    }
}

#[via_fn]
proof fn resolve_chain_decreases(
    tm: Map<Seq<char>, TemplateModel>,
    acc: Map<Seq<char>, Seq<char>>,
    root: Seq<char>,
    ext: Option<Seq<char>>,
    visited: Set<Seq<char>>,
) {
    broadcast use vstd::set::group_set_axioms;

    match ext {
        Some(p) => {
            if !visited.contains(p) && tm.dom().contains(p) {
                assert(visited.insert(p).len() == visited.len() + 1);
                assert(visited.insert(p).subset_of(tm.dom().insert(root)));
                vstd::set_lib::lemma_len_subset(visited.insert(p), tm.dom().insert(root));
            }
        },
        None => {},
    }
}

/// Resolves the template `t` named `root` against the collection `tm`: its
/// own settings first, then the walk up the chain.
pub open spec fn resolve_template(
    tm: Map<Seq<char>, TemplateModel>,
    root: Seq<char>,
    t: TemplateModel,
) -> Resolution {
    match merge_settings(Map::empty(), t.settings) {
        Ok(acc) => resolve_chain(tm, acc, root, t.extends, Set::empty().insert(root)),
        Err(k) => Resolution::BadValue(k, None),
    }
}

/// The message of the error for a chain that names a parent not in the
/// collection.
pub open spec fn missing_parent_message(root: Seq<char>, parent: Seq<char>) -> Seq<char> {
    root + ": The profile template, "@ + parent + ", does not exist."@
}

/// The message of the error for a chain that revisits a template.
pub open spec fn cycle_message(root: Seq<char>) -> Seq<char> {
    "The profile template, "@ + root + ", has a cycle in its extends chain."@
}

/// The message of the error for a setting that is an array or an object.
pub open spec fn conversion_message() -> Seq<char> {
    "The array and object values are not supported."@
}

/// The context frame naming a key of the resolved template itself that
/// could not be converted.
pub open spec fn convert_context_root(key: Seq<char>) -> Seq<char> {
    "Could not convert the value of, "@ + key + "."@
}

/// The context frame naming a key of an ancestor template that could not be
/// converted.
pub open spec fn convert_context_parent(key: Seq<char>, parent: Seq<char>) -> Seq<char> {
    "Could not convert the value of, "@ + key + ", in the profile template, "@ + parent + "."@
}

/// Holds when `e` is exactly the error owed for the failed resolution `res`
/// of the template named `root`.
pub open spec fn resolution_failure_error(e: ErrorModel, root: Seq<char>, res: Resolution) -> bool {
    match res {
        Resolution::Resolved(_) => false,
        Resolution::MissingParent(n, p) => e.status == 1 && e.message == Some(
            missing_parent_message(n, p),
        ) && e.context == Seq::<Seq<char>>::empty(),
        Resolution::BadValue(k, parent) => e.status == 1 && e.message == Some(conversion_message())
            && e.context == seq![
            match parent {
                None => convert_context_root(k),
                Some(p) => convert_context_parent(k, p),
            },
        ],
        Resolution::Cycle(_) => e.status == 1 && e.message == Some(cycle_message(root))
            && e.context == Seq::<Seq<char>>::empty(),
    }
}

/// Searches text-valued entries for a key.
fn has_text_key(entries: &Vec<(String, String)>, key: &str) -> (r: bool)
    ensures
        r == map_of(text_entries_view(entries@)).contains_key(key@),
{
    let n = entries.len();
    let mut i: usize = 0;
    while i < n
        invariant
            i <= n,
            n == entries.len(),
            forall|k: int| 0 <= k < i ==> (#[trigger] text_entries_view(entries@)[k]).0 != key@,
        decreases n - i,
    {
        if str_eq(entries[i].0.as_str(), key) {
            proof {
                assert((text_entries_view(entries@)[i as int]).0 == key@);
                lemma_map_of_contains(text_entries_view(entries@), key@);
            }
            return true;
        }
        i = i + 1;
    }
    proof {
        lemma_map_of_contains(text_entries_view(entries@), key@);
    }
    false
}

/// Merges one template's settings into the accumulated entries, exactly as
/// [`merge_settings`] says; on a conversion failure the error carries the
/// context frame naming the key and, for an ancestor, the ancestor's name.
fn merge_level(
    acc: &mut Vec<(String, String)>,
    settings: &Vec<(String, SettingValue)>,
    parent: Option<&String>,
) -> (r: Result<(), Error>)
    requires
        distinct_keys(text_entries_view(old(acc)@)),
    ensures
        distinct_keys(text_entries_view(final(acc)@)),
        match r {
            Ok(_) => merge_settings(
                map_of(text_entries_view(old(acc)@)),
                settings_view(settings@),
            ) == Ok::<Map<Seq<char>, Seq<char>>, Seq<char>>(map_of(text_entries_view(final(acc)@))),
            Err(e) => match merge_settings(
                map_of(text_entries_view(old(acc)@)),
                settings_view(settings@),
            ) {
                Ok(_) => false,
                Err(k) => e@.status == 1 && e@.message == Some(conversion_message()) && e@.context
                    == seq![
                    match parent {
                        None => convert_context_root(k),
                        Some(p) => convert_context_parent(k, p@),
                    },
                ],
            },
        },
{
    let n = settings.len();
    let mut i: usize = 0;
    proof {
        assert(settings_view(settings@).skip(0) =~= settings_view(settings@));
    }
    while i < n
        invariant
            i <= n,
            n == settings.len(),
            distinct_keys(text_entries_view(acc@)),
            merge_settings(map_of(text_entries_view(old(acc)@)), settings_view(settings@))
                == merge_settings(
                map_of(text_entries_view(acc@)),
                settings_view(settings@).skip(i as int),
            ),
        decreases n - i,
    {
        let ghost pre = settings_view(settings@).skip(i as int);
        proof {
            assert(pre[0] == settings_view(settings@)[i as int]);
            assert(pre.drop_first() =~= settings_view(settings@).skip(i + 1));
        }
        let key = &settings[i].0;
        if !has_text_key(acc, key.as_str()) {
            match convert_value(&settings[i].1) {
                Ok(text) => {
                    let ghost acc_pre = text_entries_view(acc@);
                    acc.push((key.clone(), text));
                    proof {
                        let acc_post = text_entries_view(acc@);
                        assert(acc_post =~= acc_pre.push((key@, text@)));
                        assert(acc_post.drop_last() =~= acc_pre);
                        assert(map_of(acc_post) == map_of(acc_pre).insert(key@, text@));
                        lemma_map_of_contains(acc_pre, key@);
                        assert forall|a: int, b: int|
                            0 <= a < b < acc_post.len() implies (#[trigger] acc_post[a]).0 != (
                        #[trigger] acc_post[b]).0 by {
                            if b == acc_post.len() - 1 {
                                assert(acc_post[a] == acc_pre[a]);
                            }
                        }
                    }
                },
                Err(e) => {
                    let mut frame = String::from_str("Could not convert the value of, ");
                    frame.append(key.as_str());
                    match parent {
                        None => {
                            frame.append(".");
                            proof {
                                assert(frame@ =~= convert_context_root(key@));
                            }
                        },
                        Some(p) => {
                            frame.append(", in the profile template, ");
                            frame.append(p.as_str());
                            frame.append(".");
                            proof {
                                assert(frame@ =~= convert_context_parent(key@, p@));
                            }
                        },
                    }
                    let wrapped = e.with_context(frame);
                    proof {
                        assert(wrapped@.context =~= seq![
                            match parent {
                                None => convert_context_root(key@),
                                Some(p) => convert_context_parent(key@, p@),
                            },
                        ]);
                    }
                    return Err(wrapped);
                },
            }
        }
        i = i + 1;
    }
    proof {
        assert(settings_view(settings@).skip(n as int).len() == 0);
    }
    Ok(())
}

impl Template {
    /// Resolves this template, named `name`, against the collection: every
    /// setting of the template and its ancestors is converted to text, the
    /// nearest template winning a contested key; a missing parent, a
    /// revisited template, or an array or object value is an error, exactly
    /// as [`resolve_template`] lays out.
    pub fn to_profile(&self, name: &str, templates: &Templates) -> (r: Result<Profile, Error>)
        requires
            templates.wf(),
            template_wf(self@),
        ensures
            match r {
                Ok(p) => resolve_template(templates.tmap(), name@, self@) matches
                    Resolution::Resolved(m) && p@.name == name@ && distinct_keys(p@.settings)
                    && map_of(p@.settings) == m,
                Err(e) => resolution_failure_error(
                    e@,
                    name@,
                    resolve_template(templates.tmap(), name@, self@),
                ),
            },
    {
        broadcast use vstd::set::group_set_axioms;
        broadcast use vstd::seq_lib::group_seq_properties;

        let ghost tm = templates.tmap();
        let mut settings: Vec<(String, String)> = Vec::new();
        proof {
            assert(text_entries_view(settings@) =~= Seq::<(Seq<char>, Seq<char>)>::empty());
            assert(map_of(text_entries_view(settings@)) =~= Map::<Seq<char>, Seq<char>>::empty());
        }
        match merge_level(&mut settings, &self.settings, None) {
            Ok(_) => {},
            Err(e) => {
                return Err(e);
            },
        }
        let mut extends: Option<String> = match &self.extends {
            Some(s) => Some(s.clone()),
            None => None,
        };
        let mut visited: Vec<String> = Vec::new();
        visited.push(String::from_str(name));
        proof {
            let vseq = visited@.map_values(|s: String| s@);
            assert(vseq =~= seq![name@]);
            assert(vseq.to_set() =~= Set::empty().insert(name@));
            lemma_map_of_len(templates@);
        }
        loop
            invariant
                templates.wf(),
                tm == templates.tmap(),
                tm.dom().finite(),
                distinct_keys(text_entries_view(settings@)),
                visited@.map_values(|s: String| s@).no_duplicates(),
                visited@.map_values(|s: String| s@).to_set().subset_of(
                    tm.dom().insert(name@),
                ),
                visited.len() >= 1,
                resolve_chain(
                    tm,
                    map_of(text_entries_view(settings@)),
                    name@,
                    match extends {
                        Some(ref e) => Some(e@),
                        None => None,
                    },
                    visited@.map_values(|s: String| s@).to_set(),
                ) == resolve_template(tm, name@, self@),
            decreases tm.dom().len() + 1 - visited.len(),
        {
            proof {
                let vseq = visited@.map_values(|s: String| s@);
                vseq.unique_seq_to_set();
                vstd::set_lib::lemma_len_subset(vseq.to_set(), tm.dom().insert(name@));
            }
            let p: String = match extends {
                Some(p) => p,
                None => {
                    let profile = Profile { name: String::from_str(name), settings };
                    return Ok(profile);
                },
            };
            if contains_name(&visited, p.as_str()) {
                proof {
                    assert(visited@.map_values(|s: String| s@).to_set().contains(p@));
                }
                let mut m = String::from_str("The profile template, ");
                m.append(name);
                m.append(", has a cycle in its extends chain.");
                proof {
                    assert(m@ =~= cycle_message(name@));
                }
                return Err(Error::new(1).with_message(m));
            }
            proof {
                assert(!visited@.map_values(|s: String| s@).to_set().contains(p@));
            }
            match templates.get(p.as_str()) {
                None => {
                    let mut m = String::from_str(name);
                    m.append(": The profile template, ");
                    m.append(p.as_str());
                    m.append(", does not exist.");
                    proof {
                        assert(m@ =~= missing_parent_message(name@, p@));
                    }
                    return Err(Error::new(1).with_message(m));
                },
                Some(t) => {
                    match merge_level(&mut settings, &t.settings, Some(&p)) {
                        Ok(_) => {},
                        Err(e) => {
                            return Err(e);
                        },
                    }
                    let ghost vseq = visited@.map_values(|s: String| s@);
                    let ghost p_view = p@;
                    let next: Option<String> = match &t.extends {
                        Some(s) => Some(s.clone()),
                        None => None,
                    };
                    visited.push(p);
                    extends = next;
                    proof {
                        let vseq2 = visited@.map_values(|s: String| s@);
                        assert(vseq2 =~= vseq.push(p_view));
                        vseq.lemma_push_to_set_commute(p_view);
                        assert(vseq2.to_set() =~= vseq.to_set().insert(p_view));
                        assert forall|a: int, b: int|
                            0 <= a < b < vseq2.len() implies vseq2[a] != vseq2[b] by {
                            if b == vseq2.len() - 1 {
                                assert(vseq2[a] == vseq[a]);
                                if vseq[a] == p_view {
                                    assert(vseq.contains(p_view));
                                }
                            } else {
                                assert(vseq2[a] == vseq[a]);
                                assert(vseq2[b] == vseq[b]);
                            }
                        }
                        assert(vseq2.no_duplicates());
                        vseq2.unique_seq_to_set();
                        vstd::set_lib::lemma_len_subset(vseq2.to_set(), tm.dom().insert(name@));
                    }
                },
            }
        }
    }
}

/// A named collection of resolved profiles with distinct names.
#[derive(Debug)]
pub struct Profiles {
    /// The named profiles, in entry order.
    entries: Vec<(String, Profile)>,
}

/// The view of a vector of named profiles.
pub open spec fn profile_entries_view(s: Seq<(String, Profile)>) -> Seq<(Seq<char>, ProfileModel)> {
    s.map_values(|p: (String, Profile)| (p.0@, p.1@))
}

impl View for Profiles {
    type V = Seq<(Seq<char>, ProfileModel)>;

    closed spec fn view(&self) -> Seq<(Seq<char>, ProfileModel)> {
        profile_entries_view(self.entries@)
    }
}

impl Profiles {
    /// The collection as the map from names to profiles.
    pub open spec fn pmap(&self) -> Map<Seq<char>, ProfileModel> {
        map_of(self@)
    }

    /// Holds when names are distinct and each profile carries its own name.
    pub open spec fn wf(&self) -> bool {
        distinct_keys(self@) && forall|i: int|
            0 <= i < self@.len() ==> (#[trigger] self@[i]).1.name == self@[i].0
    }

    /// Returns how many profiles the collection holds.
    pub fn len(&self) -> (r: usize)
        ensures
            r == self@.len(),
    {
        self.entries.len()
    }

    /// Looks a profile up by name.
    pub fn get(&self, name: &str) -> (r: Option<&Profile>)
        requires
            self.wf(),
        ensures
            match r {
                Some(p) => self.pmap().contains_key(name@) && self.pmap()[name@] == p@,
                None => !self.pmap().contains_key(name@),
            },
    {
        let n = self.entries.len();
        let mut i: usize = 0;
        while i < n
            invariant
                i <= n,
                n == self.entries.len(),
                self.wf(),
                self@ == profile_entries_view(self.entries@),
                forall|k: int| 0 <= k < i ==> (#[trigger] self@[k]).0 != name@,
            decreases n - i,
        {
            if str_eq(self.entries[i].0.as_str(), name) {
                proof {
                    lemma_map_of_index(self@, i as int);
                }
                return Some(&self.entries[i].1);
            }
            i = i + 1;
        }
        proof {
            lemma_map_of_contains(self@, name@);
        }
        None
    }

    /// Returns the profile names, in entry order.
    pub fn names(&self) -> (r: Vec<String>)
        ensures
            r@.map_values(|s: String| s@) == self@.map_values(
                |p: (Seq<char>, ProfileModel)| p.0,
            ),
    {
        let n = self.entries.len();
        let mut out: Vec<String> = Vec::new();
        let mut i: usize = 0;
        while i < n
            invariant
                i <= n,
                n == self.entries.len(),
                self@ == profile_entries_view(self.entries@),
                out@.map_values(|s: String| s@) =~= self@.map_values(
                    |p: (Seq<char>, ProfileModel)| p.0,
                ).take(i as int),
            decreases n - i,
        {
            let ghost prev = out@.map_values(|s: String| s@);
            out.push(self.entries[i].0.clone());
            proof {
                assert(out@.map_values(|s: String| s@) =~= prev.push(self@[i as int].0));
                assert(out@.map_values(|s: String| s@) =~= self@.map_values(
                    |p: (Seq<char>, ProfileModel)| p.0,
                ).take(i + 1));
            }
            i = i + 1;
        }
        proof {
            assert(self@.map_values(|p: (Seq<char>, ProfileModel)| p.0).take(n as int)
                =~= self@.map_values(|p: (Seq<char>, ProfileModel)| p.0));
        }
        out
    }
}

/// The outcome of turning a collection's enabled templates into profiles,
/// entry by entry: the map from each enabled name to its merged settings,
/// or the first failure together with the name it struck.
pub open spec fn profiles_outcome(
    tm: Map<Seq<char>, TemplateModel>,
    entries: Seq<(Seq<char>, TemplateModel)>,
) -> Result<Map<Seq<char>, Map<Seq<char>, Seq<char>>>, (Seq<char>, Resolution)>
    decreases entries.len(),
{
    if entries.len() == 0 {
        Ok(Map::empty())
    } else if !entries[0].1.enabled {
        profiles_outcome(tm, entries.drop_first())
    } else {
        match resolve_template(tm, entries[0].0, entries[0].1) {
            Resolution::Resolved(m) => match profiles_outcome(tm, entries.drop_first()) {
                Ok(mm) => Ok(mm.insert(entries[0].0, m)),
                Err(err) => Err(err),
            },
            res => Err((entries[0].0, res)),
        }
    }
}

/// The settings maps of a profile collection, by name.
pub open spec fn profiles_settings(ps: Seq<(Seq<char>, ProfileModel)>) -> Map<
    Seq<char>,
    Map<Seq<char>, Seq<char>>,
> {
    map_of(ps).map_values(|pm: ProfileModel| map_of(pm.settings))
}

/// Resolves every enabled template of the collection into a profile keyed
/// by its name; a disabled template is skipped but stays available as an
/// ancestor. The first failing resolution is the call's error.
pub fn get_profiles(templates: &Templates) -> (r: Result<Profiles, Error>)
    requires
        templates.wf(),
    ensures
        match r {
            Ok(ps) => profiles_outcome(templates.tmap(), templates@) == Ok::<
                Map<Seq<char>, Map<Seq<char>, Seq<char>>>,
                (Seq<char>, Resolution),
            >(profiles_settings(ps@)) && ps.wf() && distinct_keys(ps@) && forall|i: int|
                0 <= i < ps@.len() ==> distinct_keys((#[trigger] ps@[i]).1.settings),
            Err(e) => match profiles_outcome(templates.tmap(), templates@) {
                Ok(_) => false,
                Err((n, res)) => resolution_failure_error(e@, n, res),
            },
        },
{
    let ghost tm = templates.tmap();
    let n = templates.entries.len();
    let mut out: Vec<(String, Profile)> = Vec::new();
    let mut i: usize = 0;
    proof {
        assert(templates@.skip(0) =~= templates@);
        assert(profile_entries_view(out@) =~= Seq::<(Seq<char>, ProfileModel)>::empty());
        assert(map_of(profile_entries_view(out@)) =~= Map::<Seq<char>, ProfileModel>::empty());
        assert(profiles_settings(profile_entries_view(out@)) =~= Map::<
            Seq<char>,
            Map<Seq<char>, Seq<char>>,
        >::empty());
        match profiles_outcome(tm, templates@) {
            Ok(mm) => {
                assert(mm.union_prefer_right(profiles_settings(profile_entries_view(out@)))
                    =~= mm);
            },
            Err(_) => {},
        }
    }
    while i < n
        invariant
            i <= n,
            n == templates.entries.len(),
            templates.wf(),
            tm == templates.tmap(),
            templates@ == template_entries_view(templates.entries@),
            distinct_keys(profile_entries_view(out@)),
            forall|j: int|
                0 <= j < out@.len() ==> (#[trigger] profile_entries_view(out@)[j]).1.name
                    == profile_entries_view(out@)[j].0,
            forall|j: int|
                0 <= j < out@.len() ==> distinct_keys(
                    (#[trigger] profile_entries_view(out@)[j]).1.settings,
                ),
            forall|j: int|
                0 <= j < out@.len() ==> exists|k: int|
                    0 <= k < i && (#[trigger] profile_entries_view(out@)[j]).0 == (
                    #[trigger] templates@[k]).0,
            match profiles_outcome(tm, templates@.skip(i as int)) {
                Ok(mm) => profiles_outcome(tm, templates@) == Ok::<
                    Map<Seq<char>, Map<Seq<char>, Seq<char>>>,
                    (Seq<char>, Resolution),
                >(mm.union_prefer_right(profiles_settings(profile_entries_view(out@)))),
                Err(err) => profiles_outcome(tm, templates@) == Err::<
                    Map<Seq<char>, Map<Seq<char>, Seq<char>>>,
                    (Seq<char>, Resolution),
                >(err),
            },
        decreases n - i,
    {
        let ghost pre = templates@.skip(i as int);
        proof {
            assert(pre[0] == templates@[i as int]);
            assert(pre.drop_first() =~= templates@.skip(i + 1));
        }
        let name = &templates.entries[i].0;
        let template = &templates.entries[i].1;
        proof {
            assert(templates@[i as int] == (name@, template@));
            assert(template_wf(template@));
        }
        if template.enabled {
            match template.to_profile(name.as_str(), templates) {
                Ok(profile) => {
                    let ghost out_pre = profile_entries_view(out@);
                    let ghost m = match resolve_template(tm, name@, template@) {
                        Resolution::Resolved(m) => m,
                        _ => Map::empty(),
                    };
                    out.push((name.clone(), profile));
                    proof {
                        let out_post = profile_entries_view(out@);
                        assert(out_post =~= out_pre.push((name@, out_post.last().1)));
                        assert(out_post.last().1.name == name@);
                        assert(map_of(out_post.last().1.settings) == m);
                        lemma_map_of_contains(out_pre, name@);
                        assert forall|jj: int|
                            0 <= jj < out_pre.len() implies (#[trigger] out_pre[jj]).0
                            != name@ by {
                            let kk = choose|kk: int|
                                0 <= kk < i && out_pre[jj].0 == (#[trigger] templates@[kk]).0;
                            assert(templates@[kk].0 != templates@[i as int].0);
                        }
                        assert forall|a: int, b: int|
                            0 <= a < b < out_post.len() implies (#[trigger] out_post[a]).0 != (
                        #[trigger] out_post[b]).0 by {
                            if b == out_post.len() - 1 {
                                assert(out_post[a] == out_pre[a]);
                            }
                        }
                        assert(out_post.drop_last() =~= out_pre);
                        assert(map_of(out_post) == map_of(out_pre).insert(
                            name@,
                            out_post.last().1,
                        ));
                        assert(profiles_settings(out_post) =~= profiles_settings(
                            out_pre,
                        ).insert(name@, m));
                        match profiles_outcome(tm, templates@.skip(i + 1)) {
                            Ok(mm2) => {
                                assert(profiles_outcome(tm, pre) == Ok::<
                                    Map<Seq<char>, Map<Seq<char>, Seq<char>>>,
                                    (Seq<char>, Resolution),
                                >(mm2.insert(name@, m)));
                                assert(mm2.insert(name@, m).union_prefer_right(
                                    profiles_settings(out_pre),
                                ) =~= mm2.union_prefer_right(profiles_settings(out_post)));
                            },
                            Err(_) => {},
                        }
                    }
                },
                Err(e) => {
                    return Err(e);
                },
            }
        }
        i = i + 1;
    }
    proof {
        assert(templates@.skip(n as int).len() == 0);
        assert(Map::<Seq<char>, Map<Seq<char>, Seq<char>>>::empty().union_prefer_right(
            profiles_settings(profile_entries_view(out@)),
        ) =~= profiles_settings(profile_entries_view(out@)));
    }
    Ok(Profiles { entries: out })
}

/// Replacing the value of one entry in place updates the map at its key.
proof fn lemma_map_of_update<V>(s: Seq<(Seq<char>, V)>, j: int, v: V)
    requires
        distinct_keys(s),
        0 <= j < s.len(),
    ensures
        map_of(s.update(j, (s[j].0, v))) == map_of(s).insert(s[j].0, v),
    decreases s.len(),
{
    let s2 = s.update(j, (s[j].0, v));
    if j == s.len() - 1 {
        assert(s2.drop_last() =~= s.drop_last());
        assert(s2.last() == (s[j].0, v));
        assert(map_of(s).insert(s[j].0, v) =~= map_of(s.drop_last()).insert(s[j].0, v));
    } else {
        assert(forall|a: int, b: int|
            0 <= a < b < s.drop_last().len() ==> (#[trigger] s.drop_last()[a]).0 != (
            #[trigger] s.drop_last()[b]).0);
        assert(s.drop_last()[j] == s[j]);
        lemma_map_of_update(s.drop_last(), j, v);
        assert(s2.drop_last() =~= s.drop_last().update(j, (s[j].0, v)));
        assert(s2.last() == s.last());
        assert(s[j].0 != s.last().0);
        assert(map_of(s.drop_last()).insert(s[j].0, v).insert(s.last().0, s.last().1)
            =~= map_of(s.drop_last()).insert(s.last().0, s.last().1).insert(s[j].0, v));
    }
}

impl Templates {
    /// Inserts a template under a name, replacing any template already
    /// under it.
    pub fn insert(&mut self, name: String, template: Template)
        requires
            old(self).wf(),
            template_wf(template@),
        ensures
            final(self).wf(),
            final(self).tmap() == old(self).tmap().insert(name@, template@),
    {
        let n = self.entries.len();
        let mut i: usize = 0;
        while i < n
            invariant
                i <= n,
                n == self.entries.len(),
                self@ == old(self)@,
                template_wf(template@),
                distinct_keys(self@),
                forall|j: int| 0 <= j < self@.len() ==> template_wf((#[trigger] self@[j]).1),
                forall|k: int| 0 <= k < i ==> (#[trigger] self@[k]).0 != name@,
            decreases n - i,
        {
            if str_eq(self.entries[i].0.as_str(), name.as_str()) {
                let ghost pre = self@;
                let ghost t_view = template@;
                self.entries.remove(i);
                self.entries.insert(i, (name, template));
                proof {
                    assert(self@ =~= pre.update(i as int, (pre[i as int].0, t_view)));
                    lemma_map_of_update(pre, i as int, t_view);
                    assert(forall|a: int, b: int|
                        0 <= a < b < self@.len() ==> (#[trigger] self@[a]).0 != (
                        #[trigger] self@[b]).0);
                    assert forall|j: int|
                        0 <= j < self@.len() implies template_wf((#[trigger] self@[j]).1) by {
                        if j == i as int {
                            assert(self@[j].1 == t_view);
                        } else {
                            assert(self@[j] == pre[j]);
                        }
                    }
                }
                return ;
            }
            i = i + 1;
        }
        let ghost pre = self@;
        let ghost n_view = name@;
        let ghost t_view = template@;
        self.entries.push((name, template));
        proof {
            assert(self@ =~= pre.push((n_view, t_view)));
            assert(self@.drop_last() =~= pre);
            lemma_map_of_contains(pre, name@);
            assert forall|a: int, b: int|
                0 <= a < b < self@.len() implies (#[trigger] self@[a]).0 != (
            #[trigger] self@[b]).0 by {
                if b == self@.len() - 1 {
                    assert(self@[a] == pre[a]);
                }
            }
        }
    }

    /// Folds another collection into this one; a template of the other
    /// collection replaces a template here of the same name.
    pub fn merge(&mut self, other: Templates)
        requires
            old(self).wf(),
            other.wf(),
        ensures
            final(self).wf(),
            final(self).tmap() == old(self).tmap().union_prefer_right(other.tmap()),
    {
        let ghost other_full = other@;
        let mut rest = other;
        let ghost mut k: int = 0;
        proof {
            assert(other_full.take(0) =~= Seq::<(Seq<char>, TemplateModel)>::empty());
            assert(self.tmap() =~= old(self).tmap().union_prefer_right(
                map_of(other_full.take(0)),
            ));
            assert(rest@ =~= other_full.skip(0));
        }
        while rest.entries.len() > 0
            invariant
                0 <= k <= other_full.len(),
                rest@ == other_full.skip(k),
                distinct_keys(other_full),
                forall|i: int|
                    0 <= i < other_full.len() ==> template_wf((#[trigger] other_full[i]).1),
                self.wf(),
                self.tmap() == old(self).tmap().union_prefer_right(map_of(other_full.take(k))),
            decreases rest@.len(),
        {
            let ghost rest_pre = rest@;
            let (name, template) = rest.entries.remove(0);
            proof {
                assert(rest@ =~= rest_pre.drop_first());
                assert(rest_pre.drop_first() =~= other_full.skip(k + 1));
                assert(rest_pre[0] == other_full[k]);
                assert((name@, template@) == other_full[k]);
            }
            let ghost before = self.tmap();
            self.insert(name, template);
            proof {
                assert(other_full.take(k + 1).drop_last() =~= other_full.take(k));
                assert(other_full.take(k + 1).last() == other_full[k]);
                assert(map_of(other_full.take(k + 1)) == map_of(other_full.take(k)).insert(
                    other_full[k].0,
                    other_full[k].1,
                ));
                assert(old(self).tmap().union_prefer_right(map_of(other_full.take(k))).insert(
                    other_full[k].0,
                    other_full[k].1,
                ) =~= old(self).tmap().union_prefer_right(map_of(other_full.take(k + 1))));
                k = k + 1;
            }
        }
        proof {
            assert(other_full.take(k) =~= other_full);
        }
    }
}

/// Compares two setting values.
pub fn setting_values_equal(a: &SettingValue, b: &SettingValue) -> (r: bool)
    ensures
        r == (a@ == b@),
{
    match (a, b) {
        (SettingValue::Null, SettingValue::Null) => true,
        (SettingValue::Flag(x), SettingValue::Flag(y)) => *x == *y,
        (SettingValue::Number(x), SettingValue::Number(y)) => str_eq(x.as_str(), y.as_str()),
        (SettingValue::Text(x), SettingValue::Text(y)) => str_eq(x.as_str(), y.as_str()),
        (SettingValue::Array, SettingValue::Array) => true,
        (SettingValue::Object, SettingValue::Object) => true,
        _ => false,
    }
}

/// Searches keyed setting values for a key.
fn find_setting<'a>(entries: &'a Vec<(String, SettingValue)>, key: &str) -> (r: Option<
    &'a SettingValue,
>)
    requires
        distinct_keys(settings_view(entries@)),
    ensures
        match r {
            Some(v) => map_of(settings_view(entries@)).contains_key(key@) && map_of(
                settings_view(entries@),
            )[key@] == v@,
            None => !map_of(settings_view(entries@)).contains_key(key@),
        },
{
    let n = entries.len();
    let mut i: usize = 0;
    while i < n
        invariant
            i <= n,
            n == entries.len(),
            distinct_keys(settings_view(entries@)),
            forall|k: int| 0 <= k < i ==> (#[trigger] settings_view(entries@)[k]).0 != key@,
        decreases n - i,
    {
        if str_eq(entries[i].0.as_str(), key) {
            proof {
                lemma_map_of_index(settings_view(entries@), i as int);
            }
            return Some(&entries[i].1);
        }
        i = i + 1;
    }
    proof {
        lemma_map_of_contains(settings_view(entries@), key@);
    }
    None
}

/// Two finite maps with a shared dome size and pointwise agreement from the
/// first into the second are the same map.
proof fn lemma_map_agreement<V>(a: Map<Seq<char>, V>, b: Map<Seq<char>, V>)
    requires
        a.dom().finite(),
        b.dom().finite(),
        a.dom().len() == b.dom().len(),
        forall|k: Seq<char>| #[trigger]
            a.contains_key(k) ==> b.contains_key(k) && a[k] == b[k],
    ensures
        a == b,
{
    vstd::set_lib::lemma_subset_equality(a.dom(), b.dom());
    assert(a.dom() =~= b.dom());
    assert(a =~= b);
}

/// Compares two settings vectors as the maps they spell out.
pub fn settings_equal(a: &Vec<(String, SettingValue)>, b: &Vec<(String, SettingValue)>) -> (r:
    bool)
    requires
        distinct_keys(settings_view(a@)),
        distinct_keys(settings_view(b@)),
    ensures
        r == (map_of(settings_view(a@)) == map_of(settings_view(b@))),
{
    proof {
        lemma_map_of_len(settings_view(a@));
        lemma_map_of_len(settings_view(b@));
    }
    if a.len() != b.len() {
        proof {
            assert(map_of(settings_view(a@)).dom().len() != map_of(settings_view(b@)).dom().len());
        }
        return false;
    }
    let n = a.len();
    let mut i: usize = 0;
    while i < n
        invariant
            i <= n,
            n == a.len(),
            n == b.len(),
            distinct_keys(settings_view(a@)),
            distinct_keys(settings_view(b@)),
            forall|k: int|
                0 <= k < i ==> map_of(settings_view(b@)).contains_key(
                    (#[trigger] settings_view(a@)[k]).0,
                ) && map_of(settings_view(b@))[settings_view(a@)[k].0] == settings_view(a@)[k].1,
        decreases n - i,
    {
        proof {
            lemma_map_of_index(settings_view(a@), i as int);
        }
        match find_setting(b, a[i].0.as_str()) {
            None => {
                proof {
                    assert(map_of(settings_view(a@)).contains_key(settings_view(a@)[i as int].0));
                }
                return false;
            },
            Some(v) => {
                if !setting_values_equal(&a[i].1, v) {
                    proof {
                        assert(map_of(settings_view(a@))[settings_view(a@)[i as int].0]
                            != map_of(settings_view(b@))[settings_view(a@)[i as int].0]);
                    }
                    return false;
                }
            },
        }
        i = i + 1;
    }
    proof {
        let ma = map_of(settings_view(a@));
        let mb = map_of(settings_view(b@));
        lemma_map_of_len(settings_view(a@));
        lemma_map_of_len(settings_view(b@));
        assert forall|k: Seq<char>| #[trigger]
            ma.contains_key(k) implies mb.contains_key(k) && ma[k] == mb[k] by {
            lemma_map_of_contains(settings_view(a@), k);
            let idx = choose|idx: int|
                0 <= idx < settings_view(a@).len() && (#[trigger] settings_view(a@)[idx]).0 == k;
            lemma_map_of_index(settings_view(a@), idx);
        }
        lemma_map_agreement(ma, mb);
    }
    true
}

/// Holds when two templates agree: same flag, same parent, and the same
/// settings map.
pub open spec fn template_equiv(a: TemplateModel, b: TemplateModel) -> bool {
    a.enabled == b.enabled && a.extends == b.extends && map_of(a.settings) == map_of(b.settings)
}

impl Template {
    /// Compares two templates: same flag, same parent, and the same
    /// settings map.
    pub fn matches_template(&self, other: &Template) -> (r: bool)
        requires
            template_wf(self@),
            template_wf(other@),
        ensures
            r == template_equiv(self@, other@),
    {
        if self.enabled != other.enabled {
            return false;
        }
        match (&self.extends, &other.extends) {
            (None, None) => {},
            (Some(x), Some(y)) => {
                if !str_eq(x.as_str(), y.as_str()) {
                    return false;
                }
            },
            _ => {
                return false;
            },
        }
        settings_equal(&self.settings, &other.settings)
    }
}

/// Holds when two collections agree: the same names, and under each name
/// templates that agree.
pub open spec fn collections_equiv(
    a: Map<Seq<char>, TemplateModel>,
    b: Map<Seq<char>, TemplateModel>,
) -> bool {
    a.dom() == b.dom() && forall|n: Seq<char>| #[trigger]
        a.contains_key(n) ==> template_equiv(a[n], b[n])
}

impl Templates {
    /// Compares two collections name by name, as [`collections_equiv`]
    /// says.
    pub fn same_collection(&self, other: &Templates) -> (r: bool)
        requires
            self.wf(),
            other.wf(),
        ensures
            r == collections_equiv(self.tmap(), other.tmap()),
    {
        proof {
            lemma_map_of_len(self@);
            lemma_map_of_len(other@);
        }
        if self.entries.len() != other.entries.len() {
            proof {
                assert(self.tmap().dom().len() != other.tmap().dom().len());
            }
            return false;
        }
        let n = self.entries.len();
        let mut i: usize = 0;
        while i < n
            invariant
                i <= n,
                n == self.entries.len(),
                n == other.entries.len(),
                self.wf(),
                other.wf(),
                self@ == template_entries_view(self.entries@),
                forall|k: int|
                    0 <= k < i ==> other.tmap().contains_key((#[trigger] self@[k]).0)
                        && template_equiv(self@[k].1, other.tmap()[self@[k].0]),
            decreases n - i,
        {
            proof {
                lemma_map_of_index(self@, i as int);
            }
            let name = &self.entries[i].0;
            let template = &self.entries[i].1;
            proof {
                assert(self@[i as int] == (name@, template@));
            }
            match other.get(name.as_str()) {
                None => {
                    proof {
                        assert(self.tmap().contains_key(self@[i as int].0));
                    }
                    return false;
                },
                Some(t) => {
                    proof {
                        lemma_map_of_contains(other@, name@);
                        let idx = choose|idx: int|
                            0 <= idx < other@.len() && (#[trigger] other@[idx]).0 == name@;
                        lemma_map_of_index(other@, idx);
                        assert(template_wf(t@));
                    }
                    if !template.matches_template(t) {
                        proof {
                            assert(!template_equiv(
                                self.tmap()[self@[i as int].0],
                                other.tmap()[self@[i as int].0],
                            ));
                        }
                        return false;
                    }
                },
            }
            i = i + 1;
        }
        proof {
            assert forall|k: Seq<char>| #[trigger]
                self.tmap().contains_key(k) implies other.tmap().contains_key(k)
                && template_equiv(self.tmap()[k], other.tmap()[k]) by {
                lemma_map_of_contains(self@, k);
                let idx = choose|idx: int|
                    0 <= idx < self@.len() && (#[trigger] self@[idx]).0 == k;
                lemma_map_of_index(self@, idx);
            }
            vstd::set_lib::lemma_subset_equality(self.tmap().dom(), other.tmap().dom());
            assert(self.tmap().dom() =~= other.tmap().dom());
        }
        true
    }
}

/// Law: a key already merged is never overwritten by a level merged later.
/// Whatever one level's merge adds, every key the accumulator already held
/// keeps exactly its old value.
pub proof fn lemma_merge_settings_preserves(
    acc: Map<Seq<char>, Seq<char>>,
    s: Seq<(Seq<char>, SettingModel)>,
)
    ensures
        match merge_settings(acc, s) {
            Ok(m) => forall|k: Seq<char>| #[trigger]
                acc.contains_key(k) ==> m.contains_key(k) && m[k] == acc[k],
            Err(_) => true,
        },
    decreases s.len(),
{
    if s.len() == 0 {
    } else if acc.contains_key(s[0].0) {
        lemma_merge_settings_preserves(acc, s.drop_first());
    } else {
        match converted_value(s[0].1) {
            Some(text) => {
                let acc2 = acc.insert(s[0].0, text);
                lemma_merge_settings_preserves(acc2, s.drop_first());
                match merge_settings(acc, s) {
                    Ok(m) => {
                        assert forall|k: Seq<char>| #[trigger]
                            acc.contains_key(k) implies m.contains_key(k) && m[k] == acc[k] by {
                            assert(acc2.contains_key(k));
                            assert(acc2[k] == acc[k]);
                        }
                    },
                    Err(_) => {},
                }
            },
            None => {},
        }
    }
}

/// Law: merging one level loses nothing of that level: every key of the
/// merged settings is present in the result.
pub proof fn lemma_merge_settings_complete(
    acc: Map<Seq<char>, Seq<char>>,
    s: Seq<(Seq<char>, SettingModel)>,
)
    ensures
        match merge_settings(acc, s) {
            Ok(m) => forall|i: int| 0 <= i < s.len() ==> m.contains_key((#[trigger] s[i]).0),
            Err(_) => true,
        },
    decreases s.len(),
{
    if s.len() == 0 {
    } else {
        let k0 = s[0].0;
        if acc.contains_key(k0) {
            lemma_merge_settings_complete(acc, s.drop_first());
            lemma_merge_settings_preserves(acc, s.drop_first());
            match merge_settings(acc, s) {
                Ok(m) => {
                    assert forall|i: int|
                        0 <= i < s.len() implies m.contains_key((#[trigger] s[i]).0) by {
                        if i > 0 {
                            assert(s.drop_first()[i - 1] == s[i]);
                        }
                    }
                },
                Err(_) => {},
            }
        } else {
            match converted_value(s[0].1) {
                Some(text) => {
                    let acc2 = acc.insert(k0, text);
                    lemma_merge_settings_complete(acc2, s.drop_first());
                    lemma_merge_settings_preserves(acc2, s.drop_first());
                    match merge_settings(acc, s) {
                        Ok(m) => {
                            assert forall|i: int|
                                0 <= i < s.len() implies m.contains_key((#[trigger] s[i]).0) by {
                                if i > 0 {
                                    assert(s.drop_first()[i - 1] == s[i]);
                                } else {
                                    assert(acc2.contains_key(k0));
                                }
                            }
                        },
                        Err(_) => {},
                    }
                },
                None => {},
            }
        }
    }
}

/// Law: with distinct keys, a key fresh to the accumulator comes out of the
/// merge carrying the converted value of its own entry.
pub proof fn lemma_merge_settings_values(
    acc: Map<Seq<char>, Seq<char>>,
    s: Seq<(Seq<char>, SettingModel)>,
)
    requires
        distinct_keys(s),
    ensures
        match merge_settings(acc, s) {
            Ok(m) => forall|i: int|
                0 <= i < s.len() && !acc.contains_key((#[trigger] s[i]).0) ==> m.contains_key(
                    s[i].0,
                ) && Some(m[s[i].0]) == converted_value(s[i].1),
            Err(_) => true,
        },
    decreases s.len(),
{
    if s.len() == 0 {
    } else {
        let k0 = s[0].0;
        let rest = s.drop_first();
        assert(forall|a: int, b: int|
            0 <= a < b < rest.len() ==> (#[trigger] rest[a]).0 != (#[trigger] rest[b]).0);
        if acc.contains_key(k0) {
            lemma_merge_settings_values(acc, rest);
            match merge_settings(acc, s) {
                Ok(m) => {
                    assert forall|i: int|
                        0 <= i < s.len() && !acc.contains_key((#[trigger] s[i]).0) implies m
                        .contains_key(s[i].0) && Some(m[s[i].0]) == converted_value(s[i].1) by {
                        assert(s.drop_first()[i - 1] == s[i]);
                    }
                },
                Err(_) => {},
            }
        } else {
            match converted_value(s[0].1) {
                Some(text) => {
                    let acc2 = acc.insert(k0, text);
                    lemma_merge_settings_values(acc2, rest);
                    lemma_merge_settings_preserves(acc2, rest);
                    match merge_settings(acc, s) {
                        Ok(m) => {
                            assert forall|i: int|
                                0 <= i < s.len() && !acc.contains_key((#[trigger] s[i]).0) implies
                                m.contains_key(s[i].0) && Some(m[s[i].0]) == converted_value(
                                s[i].1,
                            ) by {
                                if i == 0 {
                                    assert(acc2.contains_key(k0) && acc2[k0] == text);
                                } else {
                                    assert(rest[i - 1] == s[i]);
                                    assert(rest[i - 1].0 != k0);
                                }
                            }
                        },
                        Err(_) => {},
                    }
                },
                None => {},
            }
        }
    }
}

/// Law: merging one level adds no key of its own invention: every key of
/// the result was in the accumulator or among the level's settings.
pub proof fn lemma_merge_settings_dom(
    acc: Map<Seq<char>, Seq<char>>,
    s: Seq<(Seq<char>, SettingModel)>,
)
    ensures
        match merge_settings(acc, s) {
            Ok(m) => forall|k: Seq<char>| #[trigger]
                m.contains_key(k) ==> acc.contains_key(k) || map_of(s).contains_key(k),
            Err(_) => true,
        },
    decreases s.len(),
{
    if s.len() == 0 {
    } else {
        let rest = s.drop_first();
        if acc.contains_key(s[0].0) {
            lemma_merge_settings_dom(acc, rest);
        } else {
            match converted_value(s[0].1) {
                Some(text) => {
                    lemma_merge_settings_dom(acc.insert(s[0].0, text), rest);
                },
                None => {},
            }
        }
        match merge_settings(acc, s) {
            Ok(m) => {
                assert forall|k: Seq<char>| #[trigger]
                    m.contains_key(k) implies acc.contains_key(k) || map_of(s).contains_key(
                    k,
                ) by {
                    lemma_map_of_contains(rest, k);
                    lemma_map_of_contains(s, k);
                    if map_of(rest).contains_key(k) {
                        let i = choose|i: int|
                            0 <= i < rest.len() && (#[trigger] rest[i]).0 == k;
                        assert(s[i + 1].0 == k);
                    }
                    if !acc.contains_key(k) && k == s[0].0 {
                        assert((s[0]).0 == k);
                    }
                }
            },
            Err(_) => {},
        }
    }
}

/// Law: with distinct keys, a key fresh to the accumulator but among the
/// level's settings comes out of the merge carrying the converted value
/// the level's map gives it.
pub proof fn lemma_merge_settings_value_at(
    acc: Map<Seq<char>, Seq<char>>,
    s: Seq<(Seq<char>, SettingModel)>,
    k: Seq<char>,
)
    requires
        distinct_keys(s),
        !acc.contains_key(k),
        map_of(s).contains_key(k),
    ensures
        match merge_settings(acc, s) {
            Ok(m) => m.contains_key(k) && Some(m[k]) == converted_value(map_of(s)[k]),
            Err(_) => true,
        },
{
    lemma_merge_settings_values(acc, s);
    lemma_map_of_contains(s, k);
    let i = choose|i: int| 0 <= i < s.len() && (#[trigger] s[i]).0 == k;
    lemma_map_of_index(s, i);
}

/// Law: whatever the walk up the chain merges later, every key the
/// accumulator holds when the walk starts keeps exactly its value: a
/// setting of a nearer template is never overwritten by an ancestor.
pub proof fn lemma_resolve_chain_preserves(
    tm: Map<Seq<char>, TemplateModel>,
    acc: Map<Seq<char>, Seq<char>>,
    root: Seq<char>,
    ext: Option<Seq<char>>,
    visited: Set<Seq<char>>,
)
    requires
        visited.finite(),
        tm.dom().finite(),
        visited.subset_of(tm.dom().insert(root)),
    ensures
        match resolve_chain(tm, acc, root, ext, visited) {
            Resolution::Resolved(m) => forall|k: Seq<char>| #[trigger]
                acc.contains_key(k) ==> m.contains_key(k) && m[k] == acc[k],
            _ => true,
        },
    decreases tm.dom().insert(root).len() - visited.len(),
{
    broadcast use vstd::set::group_set_axioms;

    match ext {
        None => {},
        Some(p) => {
            if !visited.contains(p) && tm.dom().contains(p) {
                match merge_settings(acc, tm[p].settings) {
                    Ok(acc2) => {
                        lemma_merge_settings_preserves(acc, tm[p].settings);
                        assert(visited.insert(p).len() == visited.len() + 1);
                        vstd::set_lib::lemma_len_subset(
                            visited.insert(p),
                            tm.dom().insert(root),
                        );
                        lemma_resolve_chain_preserves(
                            tm,
                            acc2,
                            root,
                            tm[p].extends,
                            visited.insert(p),
                        );
                    },
                    Err(_) => {},
                }
            }
        },
    }
}

/// Law: when the walk passes through a parent, every key of that parent's
/// settings is present in the final resolved map: no ancestor's setting is
/// dropped.
pub proof fn lemma_resolve_chain_parent_complete(
    tm: Map<Seq<char>, TemplateModel>,
    acc: Map<Seq<char>, Seq<char>>,
    root: Seq<char>,
    p: Seq<char>,
    visited: Set<Seq<char>>,
)
    requires
        visited.finite(),
        tm.dom().finite(),
        visited.subset_of(tm.dom().insert(root)),
    ensures
        match resolve_chain(tm, acc, root, Some(p), visited) {
            Resolution::Resolved(m) => forall|i: int|
                0 <= i < tm[p].settings.len() ==> m.contains_key(
                    (#[trigger] tm[p].settings[i]).0,
                ),
            _ => true,
        },
{
    broadcast use vstd::set::group_set_axioms;

    if !visited.contains(p) && tm.dom().contains(p) {
        match merge_settings(acc, tm[p].settings) {
            Ok(acc2) => {
                lemma_merge_settings_complete(acc, tm[p].settings);
                assert(visited.insert(p).len() == visited.len() + 1);
                vstd::set_lib::lemma_len_subset(visited.insert(p), tm.dom().insert(root));
                lemma_resolve_chain_preserves(tm, acc2, root, tm[p].extends, visited.insert(p));
            },
            Err(_) => {},
        }
    }
}

/// Holds when the walk upward from `ext`, avoiding the names already
/// visited, passes through the template named `p`.
pub open spec fn on_chain(
    tm: Map<Seq<char>, TemplateModel>,
    ext: Option<Seq<char>>,
    visited: Set<Seq<char>>,
    p: Seq<char>,
) -> bool
    decreases tm.dom().difference(visited).len()
        when visited.finite() && tm.dom().finite()
        via on_chain_decreases
{
    match ext {
        None => false,
        Some(q) => if visited.contains(q) || !tm.dom().contains(q) {
            false
        } else if q == p {
            true
        } else {
            on_chain(tm, tm[q].extends, visited.insert(q), p)
        },
    }
}

#[via_fn]
proof fn on_chain_decreases(
    tm: Map<Seq<char>, TemplateModel>,
    ext: Option<Seq<char>>,
    visited: Set<Seq<char>>,
    p: Seq<char>,
) {
    broadcast use vstd::set::group_set_axioms;

    match ext {
        Some(q) => {
            if !visited.contains(q) && tm.dom().contains(q) && q != p {
                assert(tm.dom().difference(visited.insert(q)) =~= tm.dom().difference(
                    visited,
                ).remove(q));
                assert(tm.dom().difference(visited).contains(q));
                assert(tm.dom().difference(visited).remove(q).len() == tm.dom().difference(
                    visited,
                ).len() - 1);
            }
        },
        None => {},
    }
}

/// Law: a resolved template includes every setting of every ancestor on
/// its chain: when the walk passes through the template named `p` and the
/// resolution succeeds, each key of `p`'s settings is present in the
/// merged result.
pub proof fn lemma_resolve_chain_ancestor_complete(
    tm: Map<Seq<char>, TemplateModel>,
    acc: Map<Seq<char>, Seq<char>>,
    root: Seq<char>,
    ext: Option<Seq<char>>,
    visited: Set<Seq<char>>,
    p: Seq<char>,
)
    requires
        visited.finite(),
        tm.dom().finite(),
        visited.subset_of(tm.dom().insert(root)),
        on_chain(tm, ext, visited, p),
    ensures
        match resolve_chain(tm, acc, root, ext, visited) {
            Resolution::Resolved(m) => forall|i: int|
                0 <= i < tm[p].settings.len() ==> m.contains_key(
                    (#[trigger] tm[p].settings[i]).0,
                ),
            _ => true,
        },
    decreases tm.dom().insert(root).len() - visited.len(),
{
    broadcast use vstd::set::group_set_axioms;

    match ext {
        None => {},
        Some(q) => {
            if !visited.contains(q) && tm.dom().contains(q) {
                match merge_settings(acc, tm[q].settings) {
                    Ok(acc2) => {
                        assert(visited.insert(q).len() == visited.len() + 1);
                        vstd::set_lib::lemma_len_subset(
                            visited.insert(q),
                            tm.dom().insert(root),
                        );
                        if q == p {
                            lemma_merge_settings_complete(acc, tm[p].settings);
                            lemma_resolve_chain_preserves(
                                tm,
                                acc2,
                                root,
                                tm[p].extends,
                                visited.insert(p),
                            );
                        } else {
                            lemma_resolve_chain_ancestor_complete(
                                tm,
                                acc2,
                                root,
                                tm[q].extends,
                                visited.insert(q),
                                p,
                            );
                        }
                    },
                    Err(_) => {},
                }
            }
        },
    }
}

/// Law: the resolution of a template includes every setting of every
/// ancestor on its chain, alongside all of its own.
pub proof fn lemma_resolution_includes_ancestors(
    tm: Map<Seq<char>, TemplateModel>,
    root: Seq<char>,
    t: TemplateModel,
    p: Seq<char>,
)
    requires
        tm.dom().finite(),
        on_chain(tm, t.extends, Set::empty().insert(root), p),
    ensures
        match resolve_template(tm, root, t) {
            Resolution::Resolved(m) => forall|i: int|
                0 <= i < tm[p].settings.len() ==> m.contains_key(
                    (#[trigger] tm[p].settings[i]).0,
                ),
            _ => true,
        },
{
    broadcast use vstd::set::group_set_axioms;

    match merge_settings(Map::empty(), t.settings) {
        Ok(acc) => {
            assert(Set::empty().insert(root).subset_of(tm.dom().insert(root)));
            lemma_resolve_chain_ancestor_complete(
                tm,
                acc,
                root,
                t.extends,
                Set::empty().insert(root),
                p,
            );
        },
        Err(_) => {},
    }
}

/// The first template on the walk upward from `ext` whose settings carry
/// the key `k`: the nearest definer, walking child to root.
pub open spec fn nearest_definer(
    tm: Map<Seq<char>, TemplateModel>,
    ext: Option<Seq<char>>,
    visited: Set<Seq<char>>,
    k: Seq<char>,
) -> Option<Seq<char>>
    decreases tm.dom().difference(visited).len()
        when visited.finite() && tm.dom().finite()
        via nearest_definer_decreases
{
    match ext {
        None => None,
        Some(q) => if visited.contains(q) || !tm.dom().contains(q) {
            None
        } else if map_of(tm[q].settings).contains_key(k) {
            Some(q)
        } else {
            nearest_definer(tm, tm[q].extends, visited.insert(q), k)
        },
    }
}

#[via_fn]
proof fn nearest_definer_decreases(
    tm: Map<Seq<char>, TemplateModel>,
    ext: Option<Seq<char>>,
    visited: Set<Seq<char>>,
    k: Seq<char>,
) {
    broadcast use vstd::set::group_set_axioms;

    match ext {
        Some(q) => {
            if !visited.contains(q) && tm.dom().contains(q) && !map_of(
                tm[q].settings,
            ).contains_key(k) {
                assert(tm.dom().difference(visited.insert(q)) =~= tm.dom().difference(
                    visited,
                ).remove(q));
                assert(tm.dom().difference(visited).contains(q));
                assert(tm.dom().difference(visited).remove(q).len() == tm.dom().difference(
                    visited,
                ).len() - 1);
            }
        },
        None => {},
    }
}

/// Law: for a key the accumulator does not hold yet, the walk settles it
/// by the nearest template on the chain that defines it — that template's
/// converted value, never an outer one — and leaves it absent when no
/// template on the chain defines it.
pub proof fn lemma_resolve_chain_nearest(
    tm: Map<Seq<char>, TemplateModel>,
    acc: Map<Seq<char>, Seq<char>>,
    root: Seq<char>,
    ext: Option<Seq<char>>,
    visited: Set<Seq<char>>,
    k: Seq<char>,
)
    requires
        visited.finite(),
        tm.dom().finite(),
        visited.subset_of(tm.dom().insert(root)),
        !acc.contains_key(k),
        forall|q: Seq<char>| tm.dom().contains(q) ==> template_wf(#[trigger] tm[q]),
    ensures
        match resolve_chain(tm, acc, root, ext, visited) {
            Resolution::Resolved(m) => match nearest_definer(tm, ext, visited, k) {
                Some(p) => m.contains_key(k) && Some(m[k]) == converted_value(
                    map_of(tm[p].settings)[k],
                ),
                None => !m.contains_key(k),
            },
            _ => true,
        },
    decreases tm.dom().insert(root).len() - visited.len(),
{
    broadcast use vstd::set::group_set_axioms;

    match ext {
        None => {},
        Some(q) => {
            if !visited.contains(q) && tm.dom().contains(q) {
                match merge_settings(acc, tm[q].settings) {
                    Ok(acc2) => {
                        assert(visited.insert(q).len() == visited.len() + 1);
                        vstd::set_lib::lemma_len_subset(
                            visited.insert(q),
                            tm.dom().insert(root),
                        );
                        if map_of(tm[q].settings).contains_key(k) {
                            assert(template_wf(tm[q]));
                            lemma_merge_settings_value_at(acc, tm[q].settings, k);
                            lemma_resolve_chain_preserves(
                                tm,
                                acc2,
                                root,
                                tm[q].extends,
                                visited.insert(q),
                            );
                        } else {
                            lemma_merge_settings_dom(acc, tm[q].settings);
                            assert(!acc2.contains_key(k));
                            lemma_resolve_chain_nearest(
                                tm,
                                acc2,
                                root,
                                tm[q].extends,
                                visited.insert(q),
                                k,
                            );
                        }
                    },
                    Err(_) => {},
                }
            }
        },
    }
}

/// Law: a resolved template settles every key it does not set itself by
/// the nearest ancestor that defines it, child to root: that ancestor's
/// converted value, and absence when no ancestor defines it. Together
/// with the template's own settings always winning, this fixes every key
/// of the resolution.
pub proof fn lemma_resolution_nearest_ancestor(
    tm: Map<Seq<char>, TemplateModel>,
    root: Seq<char>,
    t: TemplateModel,
    k: Seq<char>,
)
    requires
        tm.dom().finite(),
        !map_of(t.settings).contains_key(k),
        forall|q: Seq<char>| tm.dom().contains(q) ==> template_wf(#[trigger] tm[q]),
    ensures
        match resolve_template(tm, root, t) {
            Resolution::Resolved(m) => match nearest_definer(
                tm,
                t.extends,
                Set::empty().insert(root),
                k,
            ) {
                Some(p) => m.contains_key(k) && Some(m[k]) == converted_value(
                    map_of(tm[p].settings)[k],
                ),
                None => !m.contains_key(k),
            },
            _ => true,
        },
{
    broadcast use vstd::set::group_set_axioms;

    match merge_settings(Map::empty(), t.settings) {
        Ok(acc) => {
            lemma_merge_settings_dom(Map::empty(), t.settings);
            assert(!acc.contains_key(k));
            assert(Set::empty().insert(root).subset_of(tm.dom().insert(root)));
            lemma_resolve_chain_nearest(
                tm,
                acc,
                root,
                t.extends,
                Set::empty().insert(root),
                k,
            );
        },
        Err(_) => {},
    }
}

/// Law: a resolved template carries every one of its own settings, under
/// its own converted value; nothing an ancestor sets can overwrite it, and
/// nothing of the template's own is dropped.
pub proof fn lemma_resolution_nearest_wins(
    tm: Map<Seq<char>, TemplateModel>,
    root: Seq<char>,
    t: TemplateModel,
)
    requires
        tm.dom().finite(),
        distinct_keys(t.settings),
    ensures
        match resolve_template(tm, root, t) {
            Resolution::Resolved(m) => forall|i: int|
                0 <= i < t.settings.len() ==> m.contains_key((#[trigger] t.settings[i]).0) && Some(
                    m[t.settings[i].0],
                ) == converted_value(t.settings[i].1),
            _ => true,
        },
{
    broadcast use vstd::set::group_set_axioms;

    match merge_settings(Map::empty(), t.settings) {
        Ok(acc) => {
            lemma_merge_settings_values(Map::empty(), t.settings);
            lemma_merge_settings_complete(Map::empty(), t.settings);
            assert(Set::empty().insert(root).subset_of(tm.dom().insert(root)));
            lemma_resolve_chain_preserves(tm, acc, root, t.extends, Set::empty().insert(root));
        },
        Err(_) => {},
    }
}

} // verus!
