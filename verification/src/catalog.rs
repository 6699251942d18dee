//! Theme catalogs: which theme each target uses for a logical theme.
use vstd::prelude::*;

use crate::error::Error;
use crate::target::Target;
use crate::text::{
    chars_equal, chars_less, chars_of, lemma_str_lt_asymmetric, lemma_str_lt_irreflexive,
    lemma_str_lt_total, lemma_str_lt_transitive, str_lt,
};

verus! {

broadcast use vstd::string::group_string_axioms;

/// What a mapping names, per target: Ghostty, Helix, Zed.
pub type MappingModel = (Option<Seq<char>>, Option<Seq<char>>, Option<Seq<char>>);

/// The theme a mapping model names for `target`.
pub open spec fn model_theme(m: MappingModel, target: Target) -> Option<Seq<char>> {
    match target {
        Target::Ghostty => m.0,
        Target::Helix => m.1,
        Target::Zed => m.2,
    }
}

/// The mapping model with `target`'s theme set.
pub open spec fn model_with(m: MappingModel, target: Target, theme: Seq<char>) -> MappingModel {
    match target {
        Target::Ghostty => (Some(theme), m.1, m.2),
        Target::Helix => (m.0, Some(theme), m.2),
        Target::Zed => (m.0, m.1, Some(theme)),
    }
}

/// The theme that each target uses for one logical theme.
#[derive(Clone, Debug, PartialEq, Eq)]
pub struct ThemeMapping {
    pub ghostty: Option<String>,
    pub helix: Option<String>,
    pub zed: Option<String>,
}

pub open spec fn opt_view(o: Option<String>) -> Option<Seq<char>> {
    match o {
        Some(s) => Some(s@),
        None => None,
    }
}

impl View for ThemeMapping {
    type V = MappingModel;

    open spec fn view(&self) -> MappingModel {
        (opt_view(self.ghostty), opt_view(self.helix), opt_view(self.zed))
    }
}

impl ThemeMapping {
    /// The theme this mapping names for `target`.
    pub open spec fn theme_for(&self, target: Target) -> Option<Seq<char>> {
        model_theme(self@, target)
    }
}

impl Default for ThemeMapping {
    fn default() -> (m: Self)
        ensures
            m@ == (None::<Seq<char>>, None::<Seq<char>>, None::<Seq<char>>),
    {
        ThemeMapping { ghostty: None, helix: None, zed: None }
    }
}


/// The mapping that names no theme for any target.
pub open spec fn empty_model() -> MappingModel {
    (None, None, None)
}

/// A copy of `m` with `target`'s theme set to `theme`.
pub fn mapping_with(m: &ThemeMapping, target: Target, theme: String) -> (r: ThemeMapping)
    ensures
        r@ == model_with(m@, target, theme@),
{
    let mut r = ThemeMapping { ghostty: clone_opt(&m.ghostty), helix: clone_opt(&m.helix), zed: clone_opt(&m.zed) };
    match target {
        Target::Ghostty => r.ghostty = Some(theme),
        Target::Helix => r.helix = Some(theme),
        Target::Zed => r.zed = Some(theme),
    }
    r
}

fn clone_opt(o: &Option<String>) -> (r: Option<String>)
    ensures
        opt_view(r) == opt_view(*o),
{
    match o {
        Some(s) => Some(s.clone()),
        None => None,
    }
}

/// A catalog entry as the contracts see it: the logical name and its mapping.
pub type EntryModel = (Seq<char>, MappingModel);

/// Names strictly increasing, so each logical theme appears once.
pub open spec fn sorted_entries(v: Seq<EntryModel>) -> bool {
    forall|i: int, j: int| 0 <= i < j < v.len() ==> str_lt(#[trigger] v[i].0, #[trigger] v[j].0)
}

/// The mapping of the first entry named `name`.
pub open spec fn lookup(v: Seq<EntryModel>, name: Seq<char>) -> Option<MappingModel>
    decreases v.len(),
{
    if v.len() == 0 {
        None
    } else if v[0].0 == name {
        Some(v[0].1)
    } else {
        lookup(v.drop_first(), name)
    }
}

/// How many leading entries have names before `name`: where `name` goes.
pub open spec fn lower_bound(v: Seq<EntryModel>, name: Seq<char>) -> int
    decreases v.len(),
{
    if v.len() > 0 && str_lt(v[0].0, name) {
        1 + lower_bound(v.drop_first(), name)
    } else {
        0
    }
}

/// The entries after `target`'s theme for `name` is set to `theme`: the
/// entry named `name` is updated, or a new one is put in its place in the
/// order, naming only that theme.
pub open spec fn entries_with(v: Seq<EntryModel>, name: Seq<char>, target: Target, theme: Seq<char>) -> Seq<EntryModel> {
    let i = lower_bound(v, name);
    if i < v.len() && v[i].0 == name {
        v.update(i, (name, model_with(v[i].1, target, theme)))
    } else {
        v.insert(i, (name, model_with(empty_model(), target, theme)))
    }
}

proof fn lemma_lookup_at(v: Seq<EntryModel>, name: Seq<char>, k: int)
    requires
        0 <= k <= v.len(),
        forall|j: int| 0 <= j < k ==> (#[trigger] v[j]).0 != name,
        k == v.len() || v[k].0 == name,
    ensures
        lookup(v, name) == (if k == v.len() { None } else { Some(v[k].1) }),
    decreases k,
{
    if k > 0 {
        let t = v.drop_first();
        assert forall|j: int| 0 <= j < k - 1 implies (#[trigger] t[j]).0 != name by {
            assert(t[j] == v[j + 1]);
        }
        lemma_lookup_at(t, name, k - 1);
    }
}

proof fn lemma_lower_bound_at(v: Seq<EntryModel>, name: Seq<char>, k: int)
    requires
        0 <= k <= v.len(),
        forall|j: int| 0 <= j < k ==> str_lt((#[trigger] v[j]).0, name),
        k == v.len() || !str_lt(v[k].0, name),
    ensures
        lower_bound(v, name) == k,
    decreases k,
{
    if k > 0 {
        let t = v.drop_first();
        assert forall|j: int| 0 <= j < k - 1 implies str_lt((#[trigger] t[j]).0, name) by {
            assert(t[j] == v[j + 1]);
        }
        lemma_lower_bound_at(t, name, k - 1);
    }
}

/// In sorted entries, the place of `name` splits the names before it from
/// those after it.
proof fn lemma_lower_bound_split(v: Seq<EntryModel>, name: Seq<char>)
    requires
        sorted_entries(v),
    ensures
        0 <= lower_bound(v, name) <= v.len(),
        forall|j: int| 0 <= j < lower_bound(v, name) ==> str_lt((#[trigger] v[j]).0, name),
        forall|j: int|
            lower_bound(v, name) <= j < v.len() && (j > lower_bound(v, name) || v[j].0 != name)
                ==> str_lt(name, (#[trigger] v[j]).0),
    decreases v.len(),
{
    if v.len() > 0 {
        let t = v.drop_first();
        assert(sorted_entries(t)) by {
            assert forall|i: int, j: int| 0 <= i < j < t.len() implies str_lt(
                #[trigger] t[i].0,
                #[trigger] t[j].0,
            ) by {
                assert(t[i] == v[i + 1] && t[j] == v[j + 1]);
            }
        }
        lemma_lower_bound_split(t, name);
        let k = lower_bound(v, name);
        if str_lt(v[0].0, name) {
            assert forall|j: int| 0 <= j < k implies str_lt((#[trigger] v[j]).0, name) by {
                if j > 0 {
                    assert(v[j] == t[j - 1]);
                }
            }
            assert forall|j: int| k <= j < v.len() && (j > k || v[j].0 != name) implies str_lt(
                name,
                (#[trigger] v[j]).0,
            ) by {
                assert(v[j] == t[j - 1]);
            }
        } else {
            lemma_str_lt_total(v[0].0, name);
            assert forall|j: int| 0 <= j < v.len() && (j > 0 || v[j].0 != name) implies str_lt(
                name,
                (#[trigger] v[j]).0,
            ) by {
                if j > 0 {
                    assert(str_lt(v[0].0, v[j].0));
                    if v[0].0 == name {
                    } else {
                        lemma_str_lt_transitive(name, v[0].0, v[j].0);
                    }
                }
            }
        }
    }
}

/// Setting a theme keeps the entries sorted.
proof fn lemma_entries_with_sorted(v: Seq<EntryModel>, name: Seq<char>, target: Target, theme: Seq<char>)
    requires
        sorted_entries(v),
    ensures
        sorted_entries(entries_with(v, name, target, theme)),
{
    lemma_lower_bound_split(v, name);
    let i = lower_bound(v, name);
    let w = entries_with(v, name, target, theme);
    if i < v.len() && v[i].0 == name {
        assert forall|a: int, b: int| 0 <= a < b < w.len() implies str_lt(#[trigger] w[a].0, #[trigger] w[b].0) by {
            assert(w[a].0 == v[a].0 && w[b].0 == v[b].0);
        }
    } else {
        assert forall|a: int, b: int| 0 <= a < b < w.len() implies str_lt(#[trigger] w[a].0, #[trigger] w[b].0) by {
            if b < i {
                assert(w[a] == v[a] && w[b] == v[b]);
            } else if b == i {
                assert(w[a] == v[a]);
            } else if a < i {
                assert(w[a] == v[a] && w[b] == v[b - 1]);
                lemma_str_lt_transitive(v[a].0, name, v[b - 1].0);
            } else if a == i {
                assert(w[b] == v[b - 1]);
            } else {
                assert(w[a] == v[a - 1] && w[b] == v[b - 1]);
            }
        }
    }
}

/// Law: after `target`'s theme for `name` is set, looking `name` up gives
/// its old mapping (or the empty one) with that theme set, and every other
/// name looks up as before.
pub proof fn law_lookup_after_set(v: Seq<EntryModel>, name: Seq<char>, target: Target, theme: Seq<char>, other: Seq<char>)
    requires
        sorted_entries(v),
    ensures
        lookup(entries_with(v, name, target, theme), name) == Some(model_with(
            match lookup(v, name) {
                Some(m) => m,
                None => empty_model(),
            },
            target,
            theme,
        )),
        other != name ==> lookup(entries_with(v, name, target, theme), other) == lookup(v, other),
{
    lemma_lower_bound_split(v, name);
    lemma_entries_with_sorted(v, name, target, theme);
    let w = entries_with(v, name, target, theme);
    let i = lower_bound(v, name);
    lemma_lookup_split(v, name);
    lemma_lookup_split(w, name);
    lemma_lookup_split(v, other);
    lemma_lookup_split(w, other);
    lemma_str_lt_irreflexive(name);
    let updated = i < v.len() && v[i].0 == name;
    if !updated {
        assert forall|j: int| 0 <= j < v.len() implies (#[trigger] v[j]).0 != name by {
            if j < i {
                assert(str_lt(v[j].0, name));
            } else {
                assert(str_lt(name, v[j].0));
            }
        }
    }
    assert(w[i].0 == name);
    if other != name {
        if exists|k: int| 0 <= k < v.len() && (#[trigger] v[k]).0 == other {
            let k = choose|k: int| 0 <= k < v.len() && (#[trigger] v[k]).0 == other;
            if updated || k < i {
                assert(w[k] == v[k]);
            } else {
                assert(w[k + 1] == v[k]);
            }
        } else {
            assert forall|j: int| 0 <= j < w.len() implies (#[trigger] w[j]).0 != other by {
                if j != i {
                    if updated || j < i {
                        assert(w[j] == v[j]);
                    } else {
                        assert(w[j] == v[j - 1]);
                    }
                }
            }
        }
    }
}

/// In sorted entries a name occurs at most once, so `lookup` finds the one
/// entry with that name, if there is one.
proof fn lemma_lookup_split(v: Seq<EntryModel>, name: Seq<char>)
    requires
        sorted_entries(v),
    ensures
        forall|j: int| 0 <= j < v.len() && (#[trigger] v[j]).0 == name ==> lookup(v, name) == Some(v[j].1),
        (forall|j: int| 0 <= j < v.len() ==> (#[trigger] v[j]).0 != name) ==> lookup(v, name) is None,
{
    assert forall|j: int| 0 <= j < v.len() && (#[trigger] v[j]).0 == name implies lookup(v, name) == Some(v[j].1) by {
        assert forall|k: int| 0 <= k < j implies (#[trigger] v[k]).0 != name by {
            lemma_str_lt_irreflexive(name);
        }
        lemma_lookup_at(v, name, j);
    }
    if forall|j: int| 0 <= j < v.len() ==> (#[trigger] v[j]).0 != name {
        lemma_lookup_at(v, name, v.len() as int);
    }
}


/// Logical theme names and their mappings, ordered by name, each name once.
pub struct ThemeCatalog {
    entries: Vec<(String, ThemeMapping)>,
}

impl View for ThemeCatalog {
    type V = Seq<EntryModel>;

    closed spec fn view(&self) -> Seq<EntryModel> {
        self.entries@.map_values(|e: (String, ThemeMapping)| (e.0@, e.1@))
    }
}

impl ThemeCatalog {
    #[verifier::type_invariant]
    closed spec fn inv(self) -> bool {
        sorted_entries(self@)
    }

    /// The empty catalog.
    pub fn new() -> (c: Self)
        ensures
            c@ == Seq::<EntryModel>::empty(),
            sorted_entries(c@),
    {
        let c = ThemeCatalog { entries: Vec::new() };
        assert(c@ =~= Seq::<EntryModel>::empty());
        c
    }

    /// The number of logical themes.
    pub fn len(&self) -> (n: usize)
        ensures
            n == self@.len(),
            sorted_entries(self@),
    {
        proof {
            use_type_invariant(self);
        }
        self.entries.len()
    }

    /// The `i`th logical theme, in name order.
    pub fn entry(&self, i: usize) -> (e: (&str, &ThemeMapping))
        requires
            i < self@.len(),
        ensures
            (e.0@, e.1@) == self@[i as int],
    {
        let e = &self.entries[i];
        (e.0.as_str(), &e.1)
    }

    /// The mapping of the logical theme `name`, if the catalog has it.
    pub fn get(&self, name: &str) -> (m: Option<&ThemeMapping>)
        ensures
            match m {
                Some(m) => lookup(self@, name@) == Some(m@),
                None => lookup(self@, name@) is None,
            },
    {
        let ncs = chars_of(name);
        let n = self.entries.len();
        let mut i: usize = 0;
        while i < n
            invariant
                n == self.entries@.len(),
                n == self@.len(),
                i <= n,
                ncs@ == name@,
                forall|j: int| 0 <= j < i ==> (#[trigger] self@[j]).0 != name@,
            decreases n - i,
        {
            let ecs = chars_of(self.entries[i].0.as_str());
            if chars_equal(&ecs, &ncs) {
                proof {
                    lemma_lookup_at(self@, name@, i as int);
                }
                return Some(&self.entries[i].1);
            }
            i = i + 1;
        }
        proof {
            lemma_lookup_at(self@, name@, n as int);
        }
        None
    }

    /// Sets `target`'s theme for the logical theme `name` to `theme`, adding
    /// the logical theme, with no other target's theme, if it is new.
    pub fn set_target_theme(&mut self, name: String, target: Target, theme: String)
        ensures
            final(self)@ == entries_with(old(self)@, name@, target, theme@),
            sorted_entries(old(self)@),
            sorted_entries(final(self)@),
    {
        proof {
            use_type_invariant(&*self);
        }
        let ghost v = self@;
        let ncs = chars_of(name.as_str());
        let n = self.entries.len();
        let mut i: usize = 0;
        while i < n && chars_less(&chars_of(self.entries[i].0.as_str()), &ncs)
            invariant
                n == self.entries@.len(),
                v == self@,
                i <= n,
                ncs@ == name@,
                forall|j: int| 0 <= j < i ==> str_lt((#[trigger] v[j]).0, name@),
            decreases n - i,
        {
            i = i + 1;
        }
        proof {
            lemma_lower_bound_at(v, name@, i as int);
            lemma_entries_with_sorted(v, name@, target, theme@);
        }
        let found = i < n && chars_equal(&chars_of(self.entries[i].0.as_str()), &ncs);
        if found {
            let m = mapping_with(&self.entries[i].1, target, theme);
            let mut entries: Vec<(String, ThemeMapping)> = Vec::new();
            std::mem::swap(&mut entries, &mut self.entries);
            entries.set(i, (name, m));
            assert(entries@.map_values(|e: (String, ThemeMapping)| (e.0@, e.1@)) =~= entries_with(v, name@, target, theme@));
            self.entries = entries;
        } else {
            let m = mapping_with(&ThemeMapping::default(), target, theme);
            let mut entries: Vec<(String, ThemeMapping)> = Vec::new();
            std::mem::swap(&mut entries, &mut self.entries);
            entries.insert(i, (name, m));
            assert(entries@.map_values(|e: (String, ThemeMapping)| (e.0@, e.1@)) =~= entries_with(v, name@, target, theme@));
            self.entries = entries;
        }
    }
}


/// One target's catalog as the contracts see it: (logical name, theme)
/// pairs in the order the target's catalog lists them.
pub type DefinitionsModel = Seq<(Seq<char>, Seq<char>)>;

/// The entries after each definition, in order, is set for `target`.
pub open spec fn add_definitions(v: Seq<EntryModel>, target: Target, defs: DefinitionsModel) -> Seq<EntryModel>
    decreases defs.len(),
{
    if defs.len() == 0 {
        v
    } else {
        entries_with(add_definitions(v, target, defs.drop_last()), defs.last().0, target, defs.last().1)
    }
}

/// The catalog merged from the per-target catalogs, in order, starting
/// from the empty catalog.
pub open spec fn merged(sources: Seq<(Target, DefinitionsModel)>) -> Seq<EntryModel>
    decreases sources.len(),
{
    if sources.len() == 0 {
        Seq::empty()
    } else {
        add_definitions(merged(sources.drop_last()), sources.last().0, sources.last().1)
    }
}

/// The per-target catalogs as the contracts see them.
pub open spec fn sources_view(sources: Seq<(Target, Vec<(String, String)>)>) -> Seq<(Target, DefinitionsModel)> {
    sources.map_values(|src: (Target, Vec<(String, String)>)| (src.0, src.1@.map_values(|d: (String, String)| (d.0@, d.1@))))
}

/// Merges the per-target catalogs into one: each (logical name, theme)
/// pair of each target's catalog sets that target's theme for that logical
/// name, in order.
pub fn merge_catalogs(sources: &Vec<(Target, Vec<(String, String)>)>) -> (c: ThemeCatalog)
    ensures
        c@ == merged(sources_view(sources@)),
        sorted_entries(c@),
{
    let ghost view = sources_view(sources@);
    let mut catalog = ThemeCatalog::new();
    let mut i: usize = 0;
    assert(view.take(0) =~= Seq::<(Target, DefinitionsModel)>::empty());
    while i < sources.len()
        invariant
            i <= sources.len(),
            view == sources_view(sources@),
            catalog@ == merged(view.take(i as int)),
            sorted_entries(catalog@),
        decreases sources.len() - i,
    {
        let target = sources[i].0;
        let defs = &sources[i].1;
        let ghost before = catalog@;
        let ghost dview = view[i as int].1;
        assert(dview == defs@.map_values(|d: (String, String)| (d.0@, d.1@)));
        let mut k: usize = 0;
        assert(dview.take(0) =~= DefinitionsModel::empty());
        while k < defs.len()
            invariant
                k <= defs.len(),
                dview == defs@.map_values(|d: (String, String)| (d.0@, d.1@)),
                catalog@ == add_definitions(before, target, dview.take(k as int)),
                sorted_entries(catalog@),
            decreases defs.len() - k,
        {
            let name = defs[k].0.clone();
            let theme = defs[k].1.clone();
            catalog.set_target_theme(name, target, theme);
            assert(dview.take(k + 1).drop_last() =~= dview.take(k as int));
            k = k + 1;
        }
        assert(dview.take(defs.len() as int) =~= dview);
        assert(view.take(i + 1).drop_last() =~= view.take(i as int));
        i = i + 1;
    }
    assert(view.take(sources.len() as int) =~= view);
    catalog
}

/// The theme of the last pair for `name` in one target's catalog.
pub open spec fn last_in_definitions(defs: DefinitionsModel, name: Seq<char>) -> Option<Seq<char>>
    decreases defs.len(),
{
    if defs.len() == 0 {
        None
    } else if defs.last().0 == name {
        Some(defs.last().1)
    } else {
        last_in_definitions(defs.drop_last(), name)
    }
}

/// The theme that the last catalog of `target` to mention `name` gives it.
pub open spec fn last_definition(sources: Seq<(Target, DefinitionsModel)>, target: Target, name: Seq<char>) -> Option<Seq<char>>
    decreases sources.len(),
{
    if sources.len() == 0 {
        None
    } else if sources.last().0 == target && last_in_definitions(sources.last().1, name) is Some {
        last_in_definitions(sources.last().1, name)
    } else {
        last_definition(sources.drop_last(), target, name)
    }
}

/// What adding one target's pairs does to a lookup.
proof fn lemma_lookup_add_definitions(v: Seq<EntryModel>, target: Target, defs: DefinitionsModel, name: Seq<char>)
    requires
        sorted_entries(v),
    ensures
        sorted_entries(add_definitions(v, target, defs)),
        lookup(add_definitions(v, target, defs), name) == match last_in_definitions(defs, name) {
            Some(x) => Some(model_with(
                match lookup(v, name) {
                    Some(m) => m,
                    None => empty_model(),
                },
                target,
                x,
            )),
            None => lookup(v, name),
        },
    decreases defs.len(),
{
    if defs.len() > 0 {
        let a = add_definitions(v, target, defs.drop_last());
        lemma_lookup_add_definitions(v, target, defs.drop_last(), name);
        lemma_entries_with_sorted(a, defs.last().0, target, defs.last().1);
        law_lookup_after_set(a, defs.last().0, target, defs.last().1, name);
        if defs.last().0 == name {
            let base = match lookup(v, name) {
                Some(m) => m,
                None => empty_model(),
            };
            match last_in_definitions(defs.drop_last(), name) {
                Some(x0) => {
                    assert(model_with(model_with(base, target, x0), target, defs.last().1)
                        == model_with(base, target, defs.last().1));
                },
                None => {},
            }
        }
    }
}

/// Law: in the merged catalog, a logical name is present exactly when some
/// target's catalog names it, and the theme it gives each target is the one
/// from the last of that target's catalogs to name it; catalogs of other
/// targets do not disturb it.
pub proof fn law_merge_last_definition_wins(sources: Seq<(Target, DefinitionsModel)>, name: Seq<char>)
    ensures
        sorted_entries(merged(sources)),
        (lookup(merged(sources), name) is Some) == (exists|t: Target| #[trigger] last_definition(sources, t, name) is Some),
        match lookup(merged(sources), name) {
            Some(m) => forall|t: Target| #[trigger] model_theme(m, t) == last_definition(sources, t, name),
            None => forall|t: Target| #[trigger] last_definition(sources, t, name) is None,
        },
    decreases sources.len(),
{
    if sources.len() > 0 {
        let prev = sources.drop_last();
        let src = sources.last();
        law_merge_last_definition_wins(prev, name);
        lemma_lookup_add_definitions(merged(prev), src.0, src.1, name);
        match lookup(merged(sources), name) {
            Some(m) => {
                assert forall|t: Target| #[trigger] model_theme(m, t) == last_definition(sources, t, name) by {
                    let base = match lookup(merged(prev), name) {
                        Some(m0) => m0,
                        None => empty_model(),
                    };
                    assert(model_theme(base, t) == last_definition(prev, t, name));
                    match last_in_definitions(src.1, name) {
                        Some(x) => {
                            assert(m == model_with(base, src.0, x));
                            if t == src.0 {
                                assert(model_theme(m, t) == Some(x));
                            } else {
                                assert(model_theme(m, t) == model_theme(base, t));
                            }
                        },
                        None => {
                            assert(last_definition(sources, t, name) == last_definition(prev, t, name));
                        },
                    }
                }
                match last_in_definitions(src.1, name) {
                    Some(x) => {
                        assert(last_definition(sources, src.0, name) is Some);
                    },
                    None => {
                        let t0 = choose|t: Target| #[trigger] last_definition(prev, t, name) is Some;
                        assert(last_definition(sources, t0, name) is Some);
                    },
                }
            },
            None => {
                assert forall|t: Target| #[trigger] last_definition(sources, t, name) is None by {
                    assert(last_definition(prev, t, name) is None);
                }
            },
        }
    } else {
        assert forall|t: Target| #[trigger] last_definition(sources, t, name) is None by {}
    }
}


/// The mapping of the logical theme `name`, or `UnknownTheme` when the
/// catalog does not have it.
pub fn find_theme<'a>(catalog: &'a ThemeCatalog, name: &str) -> (r: Result<&'a ThemeMapping, Error>)
    ensures
        match r {
            Ok(m) => lookup(catalog@, name@) == Some(m@),
            Err(e) => lookup(catalog@, name@) is None && (e matches Error::UnknownTheme(t) && t@ == name@),
        },
{
    match catalog.get(name) {
        Some(m) => Ok(m),
        None => Err(Error::UnknownTheme(String::from_str(name))),
    }
}


/// Two sorted catalogs that look every name up alike are the same.
proof fn lemma_sorted_entries_ext(v: Seq<EntryModel>, w: Seq<EntryModel>)
    requires
        sorted_entries(v),
        sorted_entries(w),
        forall|n: Seq<char>| #[trigger] lookup(v, n) == lookup(w, n),
    ensures
        v == w,
    decreases v.len() + w.len(),
{
    if v.len() == 0 && w.len() == 0 {
        assert(v =~= w);
    } else if v.len() == 0 {
        lemma_lookup_split(w, w[0].0);
        lemma_lookup_split(v, w[0].0);
    } else if w.len() == 0 {
        lemma_lookup_split(v, v[0].0);
        lemma_lookup_split(w, v[0].0);
    } else {
        let a = v[0].0;
        let b = w[0].0;
        lemma_lookup_split(v, a);
        lemma_lookup_split(w, a);
        lemma_lookup_split(v, b);
        lemma_lookup_split(w, b);
        lemma_str_lt_irreflexive(a);
        lemma_str_lt_irreflexive(b);
        if a != b {
            let k = choose|k: int| 0 <= k < w.len() && (#[trigger] w[k]).0 == a;
            let j = choose|j: int| 0 <= j < v.len() && (#[trigger] v[j]).0 == b;
            assert(k > 0 && j > 0);
            assert(str_lt(b, a));
            assert(str_lt(a, b));
            lemma_str_lt_asymmetric(a, b);
        }
        assert(v[0] == w[0]);
        let v1 = v.drop_first();
        let w1 = w.drop_first();
        assert(sorted_entries(v1)) by {
            assert forall|i: int, j: int| 0 <= i < j < v1.len() implies str_lt(#[trigger] v1[i].0, #[trigger] v1[j].0) by {
                assert(v1[i] == v[i + 1] && v1[j] == v[j + 1]);
            }
        }
        assert(sorted_entries(w1)) by {
            assert forall|i: int, j: int| 0 <= i < j < w1.len() implies str_lt(#[trigger] w1[i].0, #[trigger] w1[j].0) by {
                assert(w1[i] == w[i + 1] && w1[j] == w[j + 1]);
            }
        }
        assert forall|n: Seq<char>| #[trigger] lookup(v1, n) == lookup(w1, n) by {
            assert(lookup(v, n) == lookup(w, n));
            lemma_lookup_split(v1, n);
            lemma_lookup_split(w1, n);
            if n == a {
                assert forall|i: int| 0 <= i < v1.len() implies (#[trigger] v1[i]).0 != n by {
                    assert(v1[i] == v[i + 1]);
                    assert(str_lt(a, v[i + 1].0));
                }
                assert forall|i: int| 0 <= i < w1.len() implies (#[trigger] w1[i]).0 != n by {
                    assert(w1[i] == w[i + 1]);
                    assert(str_lt(b, w[i + 1].0));
                }
            }
        }
        lemma_sorted_entries_ext(v1, w1);
        assert(v =~= seq![v[0]] + v1);
        assert(w =~= seq![w[0]] + w1);
    }
}

/// What follows a prefix of the sources sees only the catalog merged so far.
proof fn lemma_merged_suffix(x: Seq<(Target, DefinitionsModel)>, y: Seq<(Target, DefinitionsModel)>, q: Seq<(Target, DefinitionsModel)>)
    requires
        merged(x) == merged(y),
    ensures
        merged(x + q) == merged(y + q),
    decreases q.len(),
{
    if q.len() == 0 {
        assert(x + q =~= x);
        assert(y + q =~= y);
    } else {
        lemma_merged_suffix(x, y, q.drop_last());
        assert((x + q).drop_last() =~= x + q.drop_last());
        assert((y + q).drop_last() =~= y + q.drop_last());
        assert((x + q).last() == q.last());
        assert((y + q).last() == q.last());
    }
}

/// Law: the catalogs of two different targets can be merged in either
/// order: the merged catalog is the same.
pub proof fn law_merge_order_of_targets(
    p: Seq<(Target, DefinitionsModel)>,
    a: (Target, DefinitionsModel),
    b: (Target, DefinitionsModel),
    q: Seq<(Target, DefinitionsModel)>,
)
    requires
        a.0 != b.0,
    ensures
        merged(p + seq![a, b] + q) == merged(p + seq![b, a] + q),
{
    let x = p.push(a).push(b);
    let y = p.push(b).push(a);
    assert forall|n: Seq<char>| #[trigger] lookup(merged(x), n) == lookup(merged(y), n) by {
        law_merge_last_definition_wins(x, n);
        law_merge_last_definition_wins(y, n);
        assert(x.drop_last() =~= p.push(a));
        assert(y.drop_last() =~= p.push(b));
        assert(p.push(a).drop_last() =~= p);
        assert(p.push(b).drop_last() =~= p);
        assert forall|t: Target| #[trigger] last_definition(x, t, n) == last_definition(y, t, n) by {
            assert(x.last() == b && y.last() == a);
            assert(p.push(a).last() == a && p.push(b).last() == b);
            assert(x.len() > 0 && y.len() > 0);
            let lx = last_definition(x, t, n);
            let ly = last_definition(y, t, n);
            assert(lx == if b.0 == t && last_in_definitions(b.1, n) is Some {
                last_in_definitions(b.1, n)
            } else {
                last_definition(p.push(a), t, n)
            });
            assert(ly == if a.0 == t && last_in_definitions(a.1, n) is Some {
                last_in_definitions(a.1, n)
            } else {
                last_definition(p.push(b), t, n)
            });
            assert(last_definition(p.push(a), t, n) == if a.0 == t && last_in_definitions(a.1, n) is Some {
                last_in_definitions(a.1, n)
            } else {
                last_definition(p, t, n)
            });
            assert(last_definition(p.push(b), t, n) == if b.0 == t && last_in_definitions(b.1, n) is Some {
                last_in_definitions(b.1, n)
            } else {
                last_definition(p, t, n)
            });
        }
        if exists|t: Target| #[trigger] last_definition(x, t, n) is Some {
            let t0 = choose|t: Target| #[trigger] last_definition(x, t, n) is Some;
            assert(last_definition(y, t0, n) is Some);
            let m1 = lookup(merged(x), n)->Some_0;
            let m2 = lookup(merged(y), n)->Some_0;
            assert(model_theme(m1, Target::Ghostty) == model_theme(m2, Target::Ghostty));
            assert(model_theme(m1, Target::Helix) == model_theme(m2, Target::Helix));
            assert(model_theme(m1, Target::Zed) == model_theme(m2, Target::Zed));
            assert(m1 == m2);
        } else {
            assert forall|t: Target| !(#[trigger] last_definition(y, t, n) is Some) by {
                assert(last_definition(x, t, n) == last_definition(y, t, n));
            }
        }
    }
    law_merge_last_definition_wins(x, Seq::empty());
    law_merge_last_definition_wins(y, Seq::empty());
    lemma_sorted_entries_ext(merged(x), merged(y));
    lemma_merged_suffix(x, y, q);
    assert(p + seq![a, b] + q =~= x + q);
    assert(p + seq![b, a] + q =~= y + q);
}

/// Whether one of the catalogs is for `target`.
pub open spec fn has_target(sources: Seq<(Target, DefinitionsModel)>, target: Target) -> bool {
    exists|i: int| 0 <= i < sources.len() && (#[trigger] sources[i]).0 == target
}

/// Where every catalog for `target` is `x`, the last one to name a theme
/// is `x` itself.
proof fn lemma_last_definition_of(sources: Seq<(Target, DefinitionsModel)>, target: Target, name: Seq<char>, x: (Target, DefinitionsModel))
    requires
        forall|i: int| 0 <= i < sources.len() && (#[trigger] sources[i]).0 == target ==> sources[i] == x,
    ensures
        last_definition(sources, target, name) == if has_target(sources, target) {
            last_in_definitions(x.1, name)
        } else {
            None
        },
    decreases sources.len(),
{
    if sources.len() > 0 {
        let p = sources.drop_last();
        assert forall|i: int| 0 <= i < p.len() && (#[trigger] p[i]).0 == target implies p[i] == x by {
            assert(p[i] == sources[i]);
        }
        lemma_last_definition_of(p, target, name, x);
        if has_target(p, target) {
            let i = choose|i: int| 0 <= i < p.len() && (#[trigger] p[i]).0 == target;
            assert(sources[i] == p[i]);
        }
        if has_target(sources, target) && sources.last().0 != target {
            let i = choose|i: int| 0 <= i < sources.len() && (#[trigger] sources[i]).0 == target;
            assert(p[i] == sources[i]);
        }
        if sources.last().0 == target {
            assert(sources[sources.len() - 1] == x);
        }
    }
}

/// Law: when no two of the per-target catalogs are for the same target,
/// they can be merged in any order: every permutation of them gives the
/// same merged catalog.
pub proof fn law_merge_any_order(sources: Seq<(Target, DefinitionsModel)>, perm: Seq<(Target, DefinitionsModel)>)
    requires
        forall|i: int, j: int| 0 <= i < j < sources.len() ==> (#[trigger] sources[i]).0 != (#[trigger] sources[j]).0,
        perm.to_multiset() == sources.to_multiset(),
    ensures
        merged(perm) == merged(sources),
{
    perm.to_multiset_ensures();
    sources.to_multiset_ensures();
    assert forall|n: Seq<char>| #[trigger] lookup(merged(perm), n) == lookup(merged(sources), n) by {
        law_merge_last_definition_wins(perm, n);
        law_merge_last_definition_wins(sources, n);
        assert forall|t: Target| #[trigger] last_definition(perm, t, n) == last_definition(sources, t, n) by {
            if has_target(sources, t) {
                let k = choose|k: int| 0 <= k < sources.len() && (#[trigger] sources[k]).0 == t;
                let x = sources[k];
                assert forall|i: int| 0 <= i < sources.len() && (#[trigger] sources[i]).0 == t implies sources[i] == x by {
                    if i < k {
                        assert(sources[i].0 != sources[k].0);
                    } else if k < i {
                        assert(sources[k].0 != sources[i].0);
                    }
                }
                assert forall|i: int| 0 <= i < perm.len() && (#[trigger] perm[i]).0 == t implies perm[i] == x by {
                    assert(perm.contains(perm[i]));
                    assert(perm.to_multiset().count(perm[i]) > 0);
                    assert(sources.contains(perm[i]));
                    let j = choose|j: int| 0 <= j < sources.len() && sources[j] == perm[i];
                    assert(sources[j].0 == t);
                }
                assert(sources.contains(x));
                assert(sources.to_multiset().count(x) > 0);
                assert(perm.contains(x));
                let j = choose|j: int| 0 <= j < perm.len() && perm[j] == x;
                assert(perm[j].0 == t);
                lemma_last_definition_of(sources, t, n, x);
                lemma_last_definition_of(perm, t, n, x);
            } else {
                assert forall|i: int| 0 <= i < perm.len() implies (#[trigger] perm[i]).0 != t by {
                    assert(perm.contains(perm[i]));
                    assert(perm.to_multiset().count(perm[i]) > 0);
                    assert(sources.contains(perm[i]));
                    let j = choose|j: int| 0 <= j < sources.len() && sources[j] == perm[i];
                    assert(sources[j].0 == perm[i].0);
                }
                let x = (t, DefinitionsModel::empty());
                lemma_last_definition_of(sources, t, n, x);
                lemma_last_definition_of(perm, t, n, x);
            }
        }
        if exists|t: Target| #[trigger] last_definition(perm, t, n) is Some {
            let t0 = choose|t: Target| #[trigger] last_definition(perm, t, n) is Some;
            assert(last_definition(sources, t0, n) is Some);
            let m1 = lookup(merged(perm), n)->Some_0;
            let m2 = lookup(merged(sources), n)->Some_0;
            assert(model_theme(m1, Target::Ghostty) == model_theme(m2, Target::Ghostty));
            assert(model_theme(m1, Target::Helix) == model_theme(m2, Target::Helix));
            assert(model_theme(m1, Target::Zed) == model_theme(m2, Target::Zed));
            assert(m1 == m2);
        } else {
            assert forall|t: Target| !(#[trigger] last_definition(sources, t, n) is Some) by {
                assert(last_definition(perm, t, n) == last_definition(sources, t, n));
            }
        }
    }
    law_merge_last_definition_wins(perm, Seq::empty());
    law_merge_last_definition_wins(sources, Seq::empty());
    lemma_sorted_entries_ext(merged(perm), merged(sources));
}

} // verus!
