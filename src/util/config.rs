//! [Config]-related utilities: the scope chains of items and occurrences, and
//! configs resolved along them.
use vstd::prelude::*;
use crate::db::{ConfigId, ConfigIdView, StoredConfig, StoredItem, StoredOcc};
use crate::types::{Config, ConfigView, Item, ItemType, TaskCompletionConfig};

verus! {

/// A config associated with the scope it applies to, with all values resolved
/// by inheriting from parent scopes where applicable.
#[derive(Debug)]
pub struct ResolvedConfig {
    pub id: ConfigId,
    /// The normal config that applies to this scope.
    pub scope_config: Config,
    /// `scope_config` with missing values filled in from parent scopes.
    pub resolved_config: Config,
    /// The most direct parent config that exists.
    pub parent: Box<Option<ResolvedConfig>>,
}

/// `child` where it is present, else `parent`.
pub open spec fn or_else<T>(child: Option<T>, parent: Option<T>) -> Option<T> {
    match child {
        Some(v) => Some(v),
        None => parent,
    }
}

/// `child` with its missing values taken from `parent`.
pub open spec fn merge(parent: ConfigView, child: ConfigView) -> ConfigView {
    ConfigView {
        occ_alert: or_else(child.occ_alert, parent.occ_alert),
        total: or_else(child.total, parent.total),
        unit: or_else(child.unit, parent.unit),
        excess_past: or_else(child.excess_past, parent.excess_past),
        excess_future: or_else(child.excess_future, parent.excess_future),
    }
}

/// The configs of a chain, ordered parent first, merged from the left.
pub open spec fn resolved_of(chain: Seq<ConfigView>) -> ConfigView
    recommends
        chain.len() > 0,
    decreases chain.len(),
{
    if chain.len() <= 1 {
        chain[0]
    } else {
        merge(resolved_of(chain.drop_last()), chain.last())
    }
}

/// `(scope, config)` views of stored configs.
pub open spec fn stored_views(configs: Seq<StoredConfig>) -> Seq<(ConfigIdView, ConfigView)> {
    configs.map_values(|c: StoredConfig| (c.id@, c.config@))
}

pub open spec fn chain_configs(chain: Seq<(ConfigIdView, ConfigView)>) -> Seq<ConfigView> {
    chain.map_values(|p: (ConfigIdView, ConfigView)| p.1)
}

/// Whether `r` is the resolution of the non-empty `chain` of `(scope,
/// config)` pairs: its scope and config are the last one's, its resolved
/// config merges them all, and its parents are the resolutions of the shorter
/// prefixes, one per config.
pub open spec fn resolves(r: ResolvedConfig, chain: Seq<(ConfigIdView, ConfigView)>) -> bool
    decreases chain.len(),
{
    &&& chain.len() > 0
    &&& r.id@ == chain.last().0
    &&& r.scope_config@ == chain.last().1
    &&& r.resolved_config@ == resolved_of(chain_configs(chain))
    &&& if chain.len() == 1 {
        r.parent@ is None
    } else {
        match *r.parent {
            Some(p) => resolves(p, chain.drop_last()),
            None => false,
        }
    }
}

/// Number of configs in the chain ending at `r`.
pub open spec fn chain_len(r: ResolvedConfig) -> nat
    decreases r,
{
    match *r.parent {
        Some(p) => 1 + chain_len(p),
        None => 1,
    }
}

pub open spec fn scope_views(ids: Seq<ConfigId>) -> Seq<ConfigIdView> {
    ids.map_values(|id: ConfigId| id@)
}

proof fn lemma_scope_views_push(s: Seq<ConfigId>, x: ConfigId)
    ensures
        scope_views(s.push(x)) == scope_views(s).push(x@),
{
    assert(scope_views(s.push(x)) =~= scope_views(s).push(x@));
}

/// Get config IDs relevant to [`ConfigId::All`].
pub fn build_config_ids_all() -> (r: Vec<ConfigId>)
    ensures
        scope_views(r@) == seq![ConfigIdView::All],
{
    let r = vec![ConfigId::All];
    assert(scope_views(r@) =~= seq![ConfigIdView::All]);
    r
}

/// Get config IDs relevant to [`ConfigId::Type`].
pub fn build_config_ids_type(type_: ItemType) -> (r: Vec<ConfigId>)
    ensures
        scope_views(r@) == seq![ConfigIdView::All, ConfigIdView::Type(type_)],
{
    let mut result = build_config_ids_all();
    proof {
        lemma_scope_views_push(result@, ConfigId::Type(type_));
    }
    result.push(ConfigId::Type(type_));
    assert(scope_views(result@) =~= seq![ConfigIdView::All, ConfigIdView::Type(type_)]);
    result
}

/// The scopes of an item's category: nothing for an item without one.
pub open spec fn category_scopes(item: Item) -> Seq<ConfigIdView> {
    match item.category {
        Some(c) => seq![ConfigIdView::Category(c@)],
        None => seq![],
    }
}

/// Get config IDs relevant to [`ConfigId::Category`].
pub fn build_config_ids_category(item: &Item) -> (r: Vec<ConfigId>)
    ensures
        scope_views(r@) == seq![ConfigIdView::All, ConfigIdView::Type(item.type_)] + category_scopes(
            *item,
        ),
{
    let mut result = build_config_ids_type(item.type_);
    if let Some(cat) = &item.category {
        result.push(ConfigId::Category(cat.clone()));
    }
    assert(scope_views(result@) =~= seq![ConfigIdView::All, ConfigIdView::Type(item.type_)]
        + category_scopes(*item));
    result
}

/// Get config IDs relevant to [`ConfigId::Item`].
pub fn build_config_ids_item(item: &StoredItem) -> (r: Vec<ConfigId>)
    ensures
        scope_views(r@) == seq![ConfigIdView::All, ConfigIdView::Type(item.item.type_)]
            + category_scopes(item.item) + seq![ConfigIdView::Item(item.id@)],
{
    let mut result = build_config_ids_category(&item.item);
    result.push(ConfigId::Item { id: item.id.clone() });
    assert(scope_views(result@) =~= seq![ConfigIdView::All, ConfigIdView::Type(item.item.type_)]
        + category_scopes(item.item) + seq![ConfigIdView::Item(item.id@)]);
    result
}

/// Get config IDs relevant to [`ConfigId::Occ`].
pub fn build_config_ids_occ(item: &StoredItem, occ: &StoredOcc) -> (r: Vec<ConfigId>)
    ensures
        scope_views(r@) == seq![ConfigIdView::All, ConfigIdView::Type(item.item.type_)]
            + category_scopes(item.item) + seq![
            ConfigIdView::Item(item.id@),
            ConfigIdView::Occ(occ.id@),
        ],
{
    let mut result = build_config_ids_item(item);
    let oid = ConfigId::Occ { id: occ.id.clone() };
    proof {
        lemma_scope_views_push(result@, oid);
    }
    result.push(oid);
    assert(scope_views(result@) =~= seq![ConfigIdView::All, ConfigIdView::Type(item.item.type_)]
        + category_scopes(item.item) + seq![
        ConfigIdView::Item(item.id@),
        ConfigIdView::Occ(occ.id@),
    ]);
    result
}

fn copy_opt_string(s: &Option<String>) -> (r: Option<String>)
    ensures
        r == *s,
{
    match s {
        Some(v) => Some(v.clone()),
        None => None,
    }
}

/// A copy of a config.
pub fn copy_config(c: &Config) -> (r: Config)
    ensures
        r@ == c@,
{
    Config {
        occ_alert: c.occ_alert,
        task_completion_conf: TaskCompletionConfig {
            total: c.task_completion_conf.total,
            unit: copy_opt_string(&c.task_completion_conf.unit),
            excess_past: c.task_completion_conf.excess_past,
            excess_future: c.task_completion_conf.excess_future,
        },
    }
}

/// Fill in missing values in the `child` config where they are present in the
/// `parent` config.
pub fn resolve_config_direct(parent: &Config, child: &Config) -> (r: Config)
    ensures
        r@ == merge(parent@, child@),
{
    let pcompl = &parent.task_completion_conf;
    let ccompl = &child.task_completion_conf;
    Config {
        occ_alert: match child.occ_alert {
            Some(v) => Some(v),
            None => parent.occ_alert,
        },
        task_completion_conf: TaskCompletionConfig {
            total: match ccompl.total {
                Some(v) => Some(v),
                None => pcompl.total,
            },
            unit: match &ccompl.unit {
                Some(v) => Some(v.clone()),
                None => copy_opt_string(&pcompl.unit),
            },
            excess_past: match ccompl.excess_past {
                Some(v) => Some(v),
                None => pcompl.excess_past,
            },
            excess_future: match ccompl.excess_future {
                Some(v) => Some(v),
                None => pcompl.excess_future,
            },
        },
    }
}

/// Resolve configs by filling in defaults from parents, given all the parents.
///
/// `configs` is all the configuration applying to a specific scope and its
/// parents, in order from parent to child.  This is the same order as returned
/// by the `build_config_ids_...` functions in this module.
///
/// Returns `None` when `configs` is empty.
pub fn resolve_config(configs: &Vec<StoredConfig>) -> (r: Option<ResolvedConfig>)
    ensures
        configs@.len() == 0 <==> r is None,
        r matches Some(rc) ==> resolves(rc, stored_views(configs@)) && chain_len(rc)
            == configs@.len(),
{
    if configs.len() == 0 {
        return None;
    }
    let first = &configs[0];
    let mut resolved = ResolvedConfig {
        id: first.id.copy(),
        scope_config: copy_config(&first.config),
        resolved_config: copy_config(&first.config),
        parent: Box::new(None),
    };
    proof {
        let s = stored_views(configs@).take(1);
        assert(chain_configs(s) =~= seq![configs@[0].config@]);
    }
    let mut i: usize = 1;
    while i < configs.len()
        invariant
            1 <= i <= configs@.len(),
            resolves(resolved, stored_views(configs@).take(i as int)),
            chain_len(resolved) == i,
        decreases configs@.len() - i,
    {
        let config = &configs[i];
        let merged = resolve_config_direct(&resolved.resolved_config, &config.config);
        let id = config.id.copy();
        let scope_config = copy_config(&config.config);
        let next = ResolvedConfig {
            id,
            scope_config,
            resolved_config: merged,
            parent: Box::new(Some(resolved)),
        };
        proof {
            let s = stored_views(configs@).take(i as int + 1);
            assert(s.drop_last() =~= stored_views(configs@).take(i as int));
            assert(chain_configs(s).drop_last() =~= chain_configs(
                stored_views(configs@).take(i as int),
            ));
        }
        resolved = next;
        i += 1;
    }
    assert(stored_views(configs@).take(configs@.len() as int) =~= stored_views(configs@));
    Some(resolved)
}

/// Resolving a chain merges its last config into the resolution of the rest:
/// resolution folds `merge` from the left.
pub proof fn lemma_resolve_folds_left(chain: Seq<ConfigView>, last: ConfigView)
    requires
        chain.len() > 0,
    ensures
        resolved_of(chain.push(last)) == merge(resolved_of(chain), last),
{
    assert(chain.push(last).drop_last() =~= chain);
}

/// Resolving three configs `a`, `b`, `c` (parent first) gives
/// `merge(merge(a, b), c)`.
pub proof fn lemma_resolve_three(a: ConfigView, b: ConfigView, c: ConfigView)
    ensures
        resolved_of(seq![a, b, c]) == merge(merge(a, b), c),
{
    assert(seq![a, b, c].drop_last() =~= seq![a, b]);
    assert(seq![a, b].drop_last() =~= seq![a]);
    assert(resolved_of(seq![a]) == a);
    assert(resolved_of(seq![a, b]) == merge(a, b));
}

/// Merging is associative, so the grouping of a chain does not matter.
pub proof fn lemma_merge_associative(a: ConfigView, b: ConfigView, c: ConfigView)
    ensures
        merge(merge(a, b), c) == merge(a, merge(b, c)),
{
}

/// A resolved config has every field that some config of the chain has.
pub proof fn lemma_resolved_keeps_fields(chain: Seq<ConfigView>, i: int)
    requires
        0 <= i < chain.len(),
    ensures
        chain[i].occ_alert is Some ==> resolved_of(chain).occ_alert is Some,
        chain[i].total is Some ==> resolved_of(chain).total is Some,
        chain[i].unit is Some ==> resolved_of(chain).unit is Some,
        chain[i].excess_past is Some ==> resolved_of(chain).excess_past is Some,
        chain[i].excess_future is Some ==> resolved_of(chain).excess_future is Some,
    decreases chain.len(),
{
    if chain.len() > 1 && i < chain.len() - 1 {
        lemma_resolved_keeps_fields(chain.drop_last(), i);
    }
}

/// Index of the first stored config with scope `id`.
pub open spec fn lookup(stored: Seq<StoredConfig>, id: ConfigIdView) -> Option<int>
    decreases stored.len(),
{
    if stored.len() == 0 {
        None
    } else {
        match lookup(stored.drop_last(), id) {
            Some(k) => Some(k),
            None => if stored.last().id@ == id {
                Some(stored.len() - 1)
            } else {
                None
            },
        }
    }
}

/// The `(scope, config)` pairs stored for the scopes `ids`, in their order.
pub open spec fn found_for(ids: Seq<ConfigIdView>, stored: Seq<StoredConfig>) -> Seq<
    (ConfigIdView, ConfigView),
>
    decreases ids.len(),
{
    if ids.len() == 0 {
        seq![]
    } else {
        let rest = found_for(ids.drop_last(), stored);
        match lookup(stored, ids.last()) {
            Some(k) => rest.push((stored[k].id@, stored[k].config@)),
            None => rest,
        }
    }
}

proof fn lemma_lookup_range(stored: Seq<StoredConfig>, id: ConfigIdView)
    ensures
        lookup(stored, id) matches Some(k) ==> 0 <= k < stored.len() && stored[k].id@ == id,
    decreases stored.len(),
{
    if stored.len() > 0 {
        lemma_lookup_range(stored.drop_last(), id);
    }
}

proof fn lemma_lookup_prefix(stored: Seq<StoredConfig>, id: ConfigIdView, k: int)
    requires
        0 <= k <= stored.len(),
        lookup(stored.take(k), id) is Some,
    ensures
        lookup(stored, id) == lookup(stored.take(k), id),
    decreases stored.len() - k,
{
    if k == stored.len() {
        assert(stored.take(k) =~= stored);
    } else {
        assert(stored.take(k + 1).drop_last() =~= stored.take(k));
        lemma_lookup_prefix(stored, id, k + 1);
    }
}

/// Index of the first stored config with scope `id`.
fn find_stored(stored: &Vec<StoredConfig>, id: &ConfigId) -> (r: Option<usize>)
    ensures
        match r {
            Some(k) => lookup(stored@, id@) == Some(k as int),
            None => lookup(stored@, id@) is None,
        },
{
    let mut j: usize = 0;
    while j < stored.len()
        invariant
            j <= stored@.len(),
            lookup(stored@.take(j as int), id@) is None,
        decreases stored@.len() - j,
    {
        assert(stored@.take(j as int + 1).drop_last() =~= stored@.take(j as int));
        if stored[j].id.same(id) {
            proof {
                lemma_lookup_prefix(stored@, id@, j as int + 1);
            }
            return Some(j);
        }
        j += 1;
    }
    assert(stored@.take(j as int) =~= stored@);
    None
}

/// A copy of a stored config.
fn copy_stored(c: &StoredConfig) -> (r: StoredConfig)
    ensures
        r.id@ == c.id@,
        r.config@ == c.config@,
{
    StoredConfig { id: c.id.copy(), config: copy_config(&c.config) }
}

/// The stored configs for the scopes `ids`, in their order.
fn configs_for_scopes(ids: &Vec<ConfigId>, stored: &Vec<StoredConfig>) -> (r: Vec<StoredConfig>)
    ensures
        stored_views(r@) == found_for(scope_views(ids@), stored@),
{
    let mut r: Vec<StoredConfig> = Vec::new();
    let mut i: usize = 0;
    while i < ids.len()
        invariant
            i <= ids@.len(),
            stored_views(r@) == found_for(scope_views(ids@.take(i as int)), stored@),
        decreases ids@.len() - i,
    {
        proof {
            assert(scope_views(ids@.take(i as int + 1)).drop_last() =~= scope_views(
                ids@.take(i as int),
            ));
            assert(scope_views(ids@.take(i as int + 1)).last() == ids@[i as int]@);
        }
        match find_stored(stored, &ids[i]) {
            Some(k) => {
                proof {
                    lemma_lookup_range(stored@, ids@[i as int]@);
                }
                let c = copy_stored(&stored[k]);
                proof {
                    assert(stored_views(r@.push(c)) =~= stored_views(r@).push(
                        (stored@[k as int].id@, stored@[k as int].config@),
                    ));
                }
                r.push(c);
            },
            None => {},
        }
        i += 1;
    }
    assert(ids@.take(ids@.len() as int) =~= ids@);
    r
}

/// Resolve the configs of several objects at once, given for each object its
/// scopes (parent first) and all the configs stored for any of them.
///
/// For each object, the stored configs of its scopes are resolved in the
/// scopes' order; an object with none gets `None`.
pub fn configs_for(ids_by_obj: &Vec<Vec<ConfigId>>, stored: &Vec<StoredConfig>) -> (r: Vec<
    Option<ResolvedConfig>,
>)
    ensures
        r@.len() == ids_by_obj@.len(),
        forall|k: int|
            0 <= k < r@.len() ==> {
                let found = found_for(scope_views(ids_by_obj@[k]@), stored@);
                &&& (#[trigger] r@[k] is None <==> found.len() == 0)
                &&& r@[k] matches Some(rc) ==> resolves(rc, found) && chain_len(rc) == found.len()
            },
{
    let mut r: Vec<Option<ResolvedConfig>> = Vec::new();
    let mut k: usize = 0;
    while k < ids_by_obj.len()
        invariant
            k <= ids_by_obj@.len(),
            r@.len() == k,
            forall|m: int|
                0 <= m < k ==> {
                    let found = found_for(scope_views(ids_by_obj@[m]@), stored@);
                    &&& (#[trigger] r@[m] is None <==> found.len() == 0)
                    &&& r@[m] matches Some(rc) ==> resolves(rc, found) && chain_len(rc)
                        == found.len()
                },
        decreases ids_by_obj@.len() - k,
    {
        let configs = configs_for_scopes(&ids_by_obj[k], stored);
        let resolved = resolve_config(&configs);
        r.push(resolved);
        k += 1;
    }
    r
}

/// Whether some scope of `r` is `x`.
pub open spec fn has_scope(r: Seq<ConfigId>, x: ConfigIdView) -> bool {
    exists|m: int| 0 <= m < r.len() && #[trigger] r[m]@ == x
}

/// Whether `x` is a scope of one of the objects.
pub open spec fn is_scope_of(ids_by_obj: Seq<Vec<ConfigId>>, x: ConfigIdView) -> bool {
    exists|k: int, i: int|
        0 <= k < ids_by_obj.len() && 0 <= i < ids_by_obj[k]@.len() && #[trigger] ids_by_obj[k]@[i]@
            == x
}

/// All scopes of all objects, each once, for a single lookup in the store.
pub fn all_scopes(ids_by_obj: &Vec<Vec<ConfigId>>) -> (r: Vec<ConfigId>)
    ensures
        forall|a: int, b: int| 0 <= a < b < r@.len() ==> r@[a]@ != r@[b]@,
        forall|k: int, i: int|
            0 <= k < ids_by_obj@.len() && 0 <= i < ids_by_obj@[k]@.len() ==> has_scope(
                r@,
                (#[trigger] ids_by_obj@[k]@[i])@,
            ),
        forall|m: int| 0 <= m < r@.len() ==> is_scope_of(ids_by_obj@, (#[trigger] r@[m])@),
{
    let mut r: Vec<ConfigId> = Vec::new();
    let mut k: usize = 0;
    while k < ids_by_obj.len()
        invariant
            k <= ids_by_obj@.len(),
            forall|a: int, b: int| 0 <= a < b < r@.len() ==> r@[a]@ != r@[b]@,
            forall|kk: int, i: int|
                0 <= kk < k && 0 <= i < ids_by_obj@[kk]@.len() ==> has_scope(
                    r@,
                    (#[trigger] ids_by_obj@[kk]@[i])@,
                ),
            forall|m: int| 0 <= m < r@.len() ==> is_scope_of(ids_by_obj@, (#[trigger] r@[m])@),
        decreases ids_by_obj@.len() - k,
    {
        let ids = &ids_by_obj[k];
        let mut i: usize = 0;
        while i < ids.len()
            invariant
                k < ids_by_obj@.len(),
                ids@ == ids_by_obj@[k as int]@,
                i <= ids@.len(),
                forall|a: int, b: int| 0 <= a < b < r@.len() ==> r@[a]@ != r@[b]@,
                forall|kk: int, ii: int|
                    0 <= kk < k && 0 <= ii < ids_by_obj@[kk]@.len() ==> has_scope(
                        r@,
                        (#[trigger] ids_by_obj@[kk]@[ii])@,
                    ),
                forall|ii: int| 0 <= ii < i ==> has_scope(r@, (#[trigger] ids@[ii])@),
                forall|m: int| 0 <= m < r@.len() ==> is_scope_of(ids_by_obj@, (#[trigger] r@[m])@),
            decreases ids@.len() - i,
        {
            let mut found = false;
            let mut m: usize = 0;
            while m < r.len()
                invariant
                    m <= r@.len(),
                    i < ids@.len(),
                    !found ==> forall|x: int| 0 <= x < m ==> r@[x]@ != ids@[i as int]@,
                    found ==> has_scope(r@, ids@[i as int]@),
                decreases r@.len() - m,
            {
                if r[m].same(&ids[i]) {
                    found = true;
                }
                m += 1;
            }
            if !found {
                let c = ids[i].copy();
                let ghost old_r = r@;
                r.push(c);
                proof {
                    assert(r@[r@.len() - 1]@ == ids@[i as int]@);
                    assert(is_scope_of(ids_by_obj@, ids_by_obj@[k as int]@[i as int]@));
                    assert forall|x: ConfigIdView| has_scope(old_r, x) implies has_scope(
                        r@,
                        x,
                    ) by {
                        let mm = choose|mm: int| 0 <= mm < old_r.len() && #[trigger] old_r[mm]@ == x;
                        assert(r@[mm] == old_r[mm]);
                    }
                    assert forall|mm: int| 0 <= mm < r@.len() implies is_scope_of(
                        ids_by_obj@,
                        (#[trigger] r@[mm])@,
                    ) by {
                        if mm < r@.len() - 1 {
                            assert(r@[mm] == old_r[mm]);
                        }
                    }
                }
            }
            assert(has_scope(r@, ids@[i as int]@));
            i += 1;
        }
        proof {
            assert forall|kk: int, ii: int|
                0 <= kk < k + 1 && 0 <= ii < ids_by_obj@[kk]@.len() implies has_scope(
                r@,
                (#[trigger] ids_by_obj@[kk]@[ii])@,
            ) by {
                if kk == k {
                    assert(ids_by_obj@[kk]@[ii] == ids@[ii]);
                }
            }
        }
        k += 1;
    }
    r
}

} // verus!
