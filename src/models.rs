//! The model registry and the resolution of a user's model choice.

use vstd::prelude::*;
use vstd::string::*;
use crate::table::{find_key, lemma_models_absent, lemma_models_push, lemma_models_set, models};
use crate::text::{eq_ignore_ascii_case, same_ignoring_ascii_case, trim_white_space, trimmed};

verus! {

/// One model of the registry.
#[derive(Clone, Debug)]
pub struct ModelInfoEntry {
    pub description: Option<String>,
    pub disabled: bool,
    pub display_name: Option<String>,
    pub short_name: Option<String>,
    pub is_default: bool,
    pub is_new: bool,
    pub is_legacy_model: bool,
    pub disabled_reason: Option<String>,
}

/// Models keyed by id, in the order they were added.
pub struct ModelInfoRegistry {
    entries: Vec<(String, ModelInfoEntry)>,
    by_id: Ghost<Map<Seq<char>, ModelInfoEntry>>,
}

/// How a model was matched.
#[derive(Clone, Copy, Debug, PartialEq, Eq, Structural)]
pub enum MatchedBy {
    ShortName,
    Id,
}

/// What a model choice resolves to.
#[derive(Clone, Debug)]
pub enum ModelResolution {
    Resolved { id: String, display_name: Option<String>, matched_by: MatchedBy },
    /// The choice named a model by its display name, which is not accepted.
    DisplayNameNotSupported { id: String, display_name: Option<String>, short_name: Option<String> },
    NotFound,
    /// The choice was `default`.
    UseDefault,
}

pub open spec fn opt_is(o: Option<String>, s: Seq<char>) -> bool {
    match o {
        Some(x) => x@ == s,
        None => false,
    }
}

/// First position from `i` whose display name is `s`.
pub open spec fn first_display(items: Seq<(String, ModelInfoEntry)>, s: Seq<char>, i: int) -> Option<int>
    decreases items.len() - i,
{
    if i < 0 || i >= items.len() {
        None
    } else if opt_is(items[i].1.display_name, s) {
        Some(i)
    } else {
        first_display(items, s, i + 1)
    }
}

/// First position from `i` whose short name is `s`.
pub open spec fn first_short(items: Seq<(String, ModelInfoEntry)>, s: Seq<char>, i: int) -> Option<int>
    decreases items.len() - i,
{
    if i < 0 || i >= items.len() {
        None
    } else if opt_is(items[i].1.short_name, s) {
        Some(i)
    } else {
        first_short(items, s, i + 1)
    }
}

/// First position from `i` of a default model that is not disabled.
pub open spec fn first_default(items: Seq<(String, ModelInfoEntry)>, i: int) -> Option<int>
    decreases items.len() - i,
{
    if i < 0 || i >= items.len() {
        None
    } else if items[i].1.is_default && !items[i].1.disabled {
        Some(i)
    } else {
        first_default(items, i + 1)
    }
}

impl ModelInfoRegistry {
    /// The models, in order, each id once.
    pub closed spec fn items(&self) -> Seq<(String, ModelInfoEntry)> {
        self.entries@
    }

    /// Model by id.
    pub closed spec fn by_id(&self) -> Map<Seq<char>, ModelInfoEntry> {
        self.by_id@
    }

    pub closed spec fn wf(&self) -> bool {
        models(self.entries@, self.by_id@)
    }

    pub fn new() -> (r: ModelInfoRegistry)
        ensures
            r.wf(),
            r.items().len() == 0,
            r.by_id() == Map::<Seq<char>, ModelInfoEntry>::empty(),
    {
        ModelInfoRegistry { entries: Vec::new(), by_id: Ghost(Map::empty()) }
    }

    /// Adds the model `id`, or replaces it where it already stands.
    pub fn insert(&mut self, id: String, info: ModelInfoEntry)
        requires
            old(self).wf(),
        ensures
            final(self).wf(),
            final(self).by_id() == old(self).by_id().insert(id@, info),
            final(self).items().len() == old(self).items().len() + if old(self).by_id().contains_key(
                id@,
            ) {
                0int
            } else {
                1int
            },
    {
        match find_key(&self.entries, &id) {
            Some(i) => {
                proof {
                    lemma_models_set(self.entries@, self.by_id@, i as int, id, info);
                }
                self.entries.set(i, (id, info));
                proof {
                    assert(self.by_id@.contains_key(id@));
                }
            },
            None => {
                proof {
                    lemma_models_absent(self.entries@, self.by_id@, id@);
                    lemma_models_push(self.entries@, self.by_id@, id, info);
                }
                self.entries.push((id, info));
            },
        }
        self.by_id = Ghost(self.by_id@.insert(id@, info));
    }

    /// The model with this id.
    pub fn get(&self, id: &str) -> (r: Option<&ModelInfoEntry>)
        requires
            self.wf(),
        ensures
            match r {
                Some(e) => self.by_id().contains_key(id@) && *e == self.by_id()[id@],
                None => !self.by_id().contains_key(id@),
            },
    {
        let key = String::from_str(id);
        match find_key(&self.entries, &key) {
            Some(i) => Some(&self.entries[i].1),
            None => {
                proof {
                    lemma_models_absent(self.entries@, self.by_id@, id@);
                }
                None
            },
        }
    }

    pub fn len(&self) -> (r: usize)
        requires
            self.wf(),
        ensures
            r == self.items().len(),
    {
        self.entries.len()
    }
}

fn opt_equals(o: &Option<String>, s: &String) -> (r: bool)
    ensures
        r == opt_is(*o, s@),
{
    match o {
        Some(x) => *x == *s,
        None => false,
    }
}

fn copy_opt(o: &Option<String>) -> (r: Option<String>)
    ensures
        r == *o,
{
    match o {
        Some(x) => Some(x.clone()),
        None => None,
    }
}

/// What a model choice resolves to, on the trimmed input `s`: `default` in
/// any ASCII case; else the first model whose display name is `s` (not
/// accepted, with the short name to use instead); else the first model whose
/// short name is `s`; else the model whose id is `s`; else not found.
pub open spec fn resolution_of(reg: ModelInfoRegistry, input: Seq<char>, r: ModelResolution) -> bool {
    let s = trimmed(input);
    let items = reg.items();
    if eq_ignore_ascii_case(s, "default"@) {
        r is UseDefault
    } else if let Some(i) = first_display(items, s, 0) {
        r matches ModelResolution::DisplayNameNotSupported { id, display_name, short_name }
            && id == items[i].0 && display_name == items[i].1.display_name && short_name
            == items[i].1.short_name
    } else if let Some(i) = first_short(items, s, 0) {
        r matches ModelResolution::Resolved { id, display_name, matched_by } && id == items[i].0
            && display_name == items[i].1.display_name && matched_by == MatchedBy::ShortName
    } else if reg.by_id().contains_key(s) {
        r matches ModelResolution::Resolved { id, display_name, matched_by } && id@ == s
            && display_name == reg.by_id()[s].display_name && matched_by == MatchedBy::Id
    } else {
        r is NotFound
    }
}

/// Resolves a model choice against the registry.
pub fn resolve_model(input: &str, registry: &ModelInfoRegistry) -> (r: ModelResolution)
    requires
        registry.wf(),
    ensures
        resolution_of(*registry, input@, r),
{
    let s = trim_white_space(input);
    if same_ignoring_ascii_case(s.as_str(), "default") {
        return ModelResolution::UseDefault;
    }
    let items = &registry.entries;
    let mut i: usize = 0;
    while i < items.len()
        invariant
            i <= items@.len(),
            items@ == registry.items(),
            s@ == trimmed(input@),
            !eq_ignore_ascii_case(s@, "default"@),
            first_display(items@, s@, 0) == first_display(items@, s@, i as int),
        decreases items@.len() - i,
    {
        if opt_equals(&items[i].1.display_name, &s) {
            return ModelResolution::DisplayNameNotSupported {
                id: items[i].0.clone(),
                display_name: copy_opt(&items[i].1.display_name),
                short_name: copy_opt(&items[i].1.short_name),
            };
        }
        i = i + 1;
    }
    let mut j: usize = 0;
    while j < items.len()
        invariant
            j <= items@.len(),
            items@ == registry.items(),
            s@ == trimmed(input@),
            !eq_ignore_ascii_case(s@, "default"@),
            first_display(items@, s@, 0) is None,
            first_short(items@, s@, 0) == first_short(items@, s@, j as int),
        decreases items@.len() - j,
    {
        if opt_equals(&items[j].1.short_name, &s) {
            return ModelResolution::Resolved {
                id: items[j].0.clone(),
                display_name: copy_opt(&items[j].1.display_name),
                matched_by: MatchedBy::ShortName,
            };
        }
        j = j + 1;
    }
    match registry.get(s.as_str()) {
        Some(info) => ModelResolution::Resolved {
            id: s.clone(),
            display_name: copy_opt(&info.display_name),
            matched_by: MatchedBy::Id,
        },
        None => ModelResolution::NotFound,
    }
}

/// The model used for a choice, falling back to `default_model`: no choice
/// (or a blank one) gives none; a choice that resolves to a model that is
/// not disabled gives that model's id; anything else, including `default`,
/// a display name, an unknown model or a disabled one, gives the default.
pub open spec fn fallback_of(
    reg: ModelInfoRegistry,
    input: Option<Seq<char>>,
    default_model: Option<Seq<char>>,
    r: Option<Seq<char>>,
) -> bool {
    match input {
        None => r is None,
        Some(x) => if trimmed(x).len() == 0 {
            r is None
        } else {
            forall|res: ModelResolution| #[trigger] resolution_of(reg, x, res) ==> match res {
                ModelResolution::Resolved { id, .. } => if reg.by_id().contains_key(id@)
                    && reg.by_id()[id@].disabled {
                    r == default_model
                } else {
                    r == Some(id@)
                },
                _ => r == default_model,
            }
        },
    }
}

fn owned(o: Option<&str>) -> (r: Option<String>)
    ensures
        match o {
            Some(x) => r matches Some(y) && y@ == x@,
            None => r is None,
        },
{
    match o {
        Some(x) => Some(String::from_str(x)),
        None => None,
    }
}

pub open spec fn text_of(o: Option<&str>) -> Option<Seq<char>> {
    match o {
        Some(x) => Some(x@),
        None => None,
    }
}

pub open spec fn text_of_string(o: Option<String>) -> Option<Seq<char>> {
    match o {
        Some(x) => Some(x@),
        None => None,
    }
}

proof fn lemma_resolution_unique(reg: ModelInfoRegistry, x: Seq<char>, a: ModelResolution, b: ModelResolution)
    requires
        resolution_of(reg, x, a),
        resolution_of(reg, x, b),
    ensures
        match (a, b) {
            (ModelResolution::Resolved { id: i1, .. }, ModelResolution::Resolved { id: i2, .. }) => i1@ == i2@,
            (ModelResolution::Resolved { .. }, _) => false,
            (_, ModelResolution::Resolved { .. }) => false,
            _ => true,
        },
{
}

/// Resolves a model choice, falling back to the default model.
pub fn resolve_model_with_fallback(
    user_input: Option<&str>,
    registry: &ModelInfoRegistry,
    default_model: Option<&str>,
) -> (r: Option<String>)
    requires
        registry.wf(),
    ensures
        fallback_of(*registry, text_of(user_input), text_of(default_model), text_of_string(r)),
{
    let input = match user_input {
        Some(s) => s,
        None => return None,
    };
    let t = trim_white_space(input);
    if t.as_str().is_empty() {
        return None;
    }
    let res = resolve_model(input, registry);
    let ghost chosen = res;
    let out = match res {
        ModelResolution::Resolved { id, .. } => {
            match registry.get(id.as_str()) {
                Some(info) => {
                    if info.disabled {
                        owned(default_model)
                    } else {
                        Some(id)
                    }
                },
                None => Some(id),
            }
        },
        _ => owned(default_model),
    };
    proof {
        assert forall|other: ModelResolution| #[trigger] resolution_of(*registry, input@, other) implies match other {
            ModelResolution::Resolved { id, .. } => if registry.by_id().contains_key(id@)
                && registry.by_id()[id@].disabled {
                text_of_string(out) == text_of(default_model)
            } else {
                text_of_string(out) == Some(id@)
            },
            _ => text_of_string(out) == text_of(default_model),
        } by {
            lemma_resolution_unique(*registry, input@, chosen, other);
        }
    }
    out
}

/// The first model marked default that is not disabled.
pub fn find_default_model(registry: &ModelInfoRegistry) -> (r: Option<String>)
    requires
        registry.wf(),
    ensures
        match first_default(registry.items(), 0) {
            Some(i) => r == Some(registry.items()[i].0),
            None => r is None,
        },
{
    let items = &registry.entries;
    let mut i: usize = 0;
    while i < items.len()
        invariant
            i <= items@.len(),
            items@ == registry.items(),
            first_default(items@, 0) == first_default(items@, i as int),
        decreases items@.len() - i,
    {
        if items[i].1.is_default && !items[i].1.disabled {
            return Some(items[i].0.clone());
        }
        i = i + 1;
    }
    None
}

/// The model for a choice when the catalog may lack a registry: without
/// one, none (the service picks its default); with one, as
/// `resolve_model_with_fallback`.
pub fn resolve_with_registry(
    registry: Option<&ModelInfoRegistry>,
    user_input: Option<&str>,
    default_model: Option<&str>,
) -> (r: Option<String>)
    requires
        match registry {
            Some(reg) => reg.wf(),
            None => true,
        },
    ensures
        match registry {
            Some(reg) => fallback_of(*reg, text_of(user_input), text_of(default_model), text_of_string(r)),
            None => r is None,
        },
{
    match registry {
        Some(reg) => resolve_model_with_fallback(user_input, reg, default_model),
        None => None,
    }
}

} // verus!
