//! The provider catalog integration: the state the settings page shows, the
//! edits of targets and providers, and the decisions of syncing and
//! restoring. The caller loads and persists the store and the portable
//! catalog and reads and writes the target files.

use vstd::prelude::*;
use vstd::string::StrSliceExecFns;
use vstd::string::StringExecFns;
use crate::bridge::{opt_str, path_eq, path_parent};
use crate::error::{AppError, ErrView};
use crate::json::{JsonValue, JsonView, items_view, lemma_items_view};
use crate::kv::{pairs_view, last_value, lemma_last_value_found};
use crate::model::{CopilotByokGroup, CopilotByokModel, group_normalized, group_problem, is_managed_group, is_managed_group_spec, strs, contains_str};
use crate::order::sort_by;
use crate::store::{CopilotByokStore, CopilotByokCustomTarget, custom_target_from, customs_upserted, with_selected, customs_without, ids_without, remove_id};
use crate::sync::{SyncPlan, custom_pairs, available_selection, available_selected_target_ids, effective_selected_target_ids, resolve_paths_spec, resolve_target_paths, catalog_model_count, managed_model_count, sync_store};
use crate::targets::{path_pairs, resolve_spec, resolve_from, effective_selection, available_ids, available, Inspection, detected_state_view, custom_state_view, detected_target_state, custom_target_state, contains_id, sort_states, state_order, states_view, TargetStateView};
use crate::text::{str_eq, contains_sub};
use crate::bridge::absolute_shape;
use crate::import::{ImportedModel, CopilotByokImportResult, import_from_target, import_fold, start_state, imported_views, count_importable, remaining_spec};
use crate::vscode::{VsCodeProfileTarget, TargetView, targets_view};
pub use crate::targets::CopilotByokTargetState;

verus! {

/// Provider namespace of the portable catalog in the application database.
pub const CATALOG_APP_TYPE: &'static str = "copilot-byok-catalog";
/// The namespace the catalog used before; it also holds usage statistics.
pub const LEGACY_CATALOG_APP_TYPE: &'static str = "copilot-byok";

/// A catalog row read back as a group: the stored group with the row's id,
/// name, website, notes and icon, normalized and validated.
pub fn provider_to_group(
    group: CopilotByokGroup,
    id: &str,
    name: &str,
    website_url: Option<String>,
    notes: Option<String>,
    icon: Option<String>,
    icon_color: Option<String>,
) -> (r: Result<CopilotByokGroup, AppError>)
    ensures
        match r {
            Ok(g) => exists|s: CopilotByokGroup| {
                &&& s.id@ == id@ && s.name@ == name@ && opt_str(s.website_url) == opt_str(website_url)
                &&& opt_str(s.notes) == opt_str(notes) && opt_str(s.icon) == opt_str(icon) && opt_str(s.icon_color) == opt_str(icon_color)
                &&& s.url == group.url && s.api_key == group.api_key && s.api_type == group.api_type
                &&& s.enabled == group.enabled && s.request_headers == group.request_headers && s.models == group.models && s.extra == group.extra
                &&& #[trigger] group_normalized(s, g)
                &&& group_problem(g) is None
            },
            Err(e) => exists|s: CopilotByokGroup, g: CopilotByokGroup| {
                &&& s.id@ == id@ && s.name@ == name@ && opt_str(s.website_url) == opt_str(website_url)
                &&& opt_str(s.notes) == opt_str(notes) && opt_str(s.icon) == opt_str(icon) && opt_str(s.icon_color) == opt_str(icon_color)
                &&& s.url == group.url && s.api_key == group.api_key && s.api_type == group.api_type
                &&& s.enabled == group.enabled && s.request_headers == group.request_headers && s.models == group.models && s.extra == group.extra
                &&& #[trigger] group_normalized(s, g)
                &&& group_problem(g) == Some(e@.message()) && e is InvalidInput
            },
        },
{
    let mut group = group;
    group.id = id.to_string();
    group.name = name.to_string();
    group.website_url = website_url;
    group.notes = notes;
    group.icon = icon;
    group.icon_color = icon_color;
    let ghost s = group;
    group.normalize();
    match group.validate() {
        Ok(()) => {},
        Err(e) => {
            assert(group_normalized(s, group));
            return Err(e);
        },
    }
    assert(group_normalized(s, group));
    Ok(group)
}

/// The rows to add when moving groups into the catalog: each group whose id
/// the catalog does not hold yet, with the next sort index after the
/// existing rows (in order).
pub open spec fn additions(ids: Seq<Seq<char>>, existing: Seq<Seq<char>>, start: nat) -> Seq<(int, nat)>
    decreases ids.len(),
{
    if ids.len() == 0 {
        Seq::empty()
    } else {
        let p = additions(ids.drop_last(), existing, start);
        if existing.contains(ids.last()) {
            p
        } else {
            p.push(((ids.len() - 1) as int, (start + p.len()) as nat))
        }
    }
}

/// Which legacy groups to copy into the catalog (index and sort index);
/// every legacy group that parsed is then deleted from the legacy namespace.
pub fn migrate_legacy_database_catalog(legacy_ids: &Vec<String>, existing_ids: &Vec<String>, existing_len: usize) -> (r: Vec<(usize, usize)>)
    requires
        existing_len + legacy_ids@.len() <= usize::MAX,
    ensures
        r@.map_values(|p: (usize, usize)| (p.0 as int, p.1 as nat)) == additions(strs(legacy_ids@), strs(existing_ids@), existing_len as nat),
{
    let mut out: Vec<(usize, usize)> = Vec::new();
    let n = legacy_ids.len();
    let mut i: usize = 0;
    while i < n
        invariant
            n == legacy_ids@.len(),
            existing_len + n <= usize::MAX,
            i <= n,
            out@.len() <= i,
            out@.map_values(|p: (usize, usize)| (p.0 as int, p.1 as nat)) == additions(strs(legacy_ids@).take(i as int), strs(existing_ids@), existing_len as nat),
        decreases n - i,
    {
        assert(strs(legacy_ids@).take(i + 1).drop_last() =~= strs(legacy_ids@).take(i as int));
        assert(strs(legacy_ids@).take(i + 1).last() == legacy_ids@[i as int]@);
        if !contains_str(existing_ids, legacy_ids[i].as_str()) {
            let ghost before = out@;
            let sort = existing_len + out.len();
            out.push((i, sort));
            assert(out@.map_values(|p: (usize, usize)| (p.0 as int, p.1 as nat)) =~= before.map_values(|p: (usize, usize)| (p.0 as int, p.1 as nat)).push((i as int, sort as nat)));
        }
        i = i + 1;
    }
    assert(strs(legacy_ids@).take(n as int) =~= strs(legacy_ids@));
    out
}

/// The error of a failed update whose catalog rollback failed too.
pub fn catalog_rollback_error(error: &AppError, rollback: &AppError) -> (r: AppError)
    ensures
        r@ == ErrView::Config(error@.message() + "; failed to roll back VS Code Copilot catalog: "@ + rollback@.message()),
{
    AppError::Config(error.message().concat("; failed to roll back VS Code Copilot catalog: ").concat(rollback.message().as_str()))
}

/// The settings page's view of the catalog integration.
#[derive(Debug)]
pub struct CopilotByokState {
    pub groups: Vec<CopilotByokGroup>,
    pub targets: Vec<CopilotByokTargetState>,
    pub selected_target_ids: Vec<String>,
    pub managed_model_count: usize,
}

/// Number of managed groups.
pub open spec fn count_managed(gs: Seq<JsonView>) -> nat
    decreases gs.len(),
{
    if gs.len() == 0 {
        0
    } else {
        count_managed(gs.drop_last()) + if is_managed_group_spec(gs.last()) { 1nat } else { 0nat }
    }
}

/// What reading a target shows: its managed groups, or none and the error.
pub open spec fn inspected(groups: Result<Seq<JsonView>, Seq<char>>) -> (nat, Option<Seq<char>>) {
    match groups {
        Ok(gs) => (count_managed(gs), None),
        Err(e) => (0, Some(e)),
    }
}

pub open spec fn groups_result_view(r: Result<Vec<JsonValue>, String>) -> Result<Seq<JsonView>, Seq<char>> {
    match r {
        Ok(v) => Ok(items_view(v@)),
        Err(e) => Err(e@),
    }
}

/// The number of managed groups of a read target, or the read error.
pub fn inspect_path(groups: &Result<Vec<JsonValue>, String>) -> (r: (usize, Option<String>))
    ensures
        (r.0 as nat, opt_str(r.1)) == inspected(groups_result_view(*groups)),
{
    match groups {
        Err(e) => (0, Some(e.clone())),
        Ok(gs) => {
            proof {
                lemma_items_view(gs@);
            }
            let mut count: usize = 0;
            let n = gs.len();
            let mut i: usize = 0;
            while i < n
                invariant
                    n == gs@.len(),
                    i <= n,
                    items_view(gs@).len() == n,
                    forall|j: int| 0 <= j < n ==> #[trigger] items_view(gs@)[j] == gs@[j]@,
                    count == count_managed(items_view(gs@).take(i as int)),
                    count <= i,
                decreases n - i,
            {
                assert(items_view(gs@).take(i + 1).drop_last() =~= items_view(gs@).take(i as int));
                assert(items_view(gs@).take(i + 1).last() == gs@[i as int]@);
                if is_managed_group(&gs[i]) {
                    count = count + 1;
                }
                i = i + 1;
            }
            assert(items_view(gs@).take(n as int) =~= items_view(gs@));
            (count, None)
        },
    }
}

/// Target states before sorting: detected targets (with their own
/// existence flags and their read result) then custom targets (with their
/// inspection).
pub open spec fn unsorted_states(
    store: CopilotByokStore,
    detected: Seq<TargetView>,
    reads: Seq<Result<Vec<JsonValue>, String>>,
    ci: Seq<Inspection>,
) -> Seq<TargetStateView> {
    let sel = available_selection(store, detected);
    Seq::new(detected.len(), |i: int| {
        let (c, e) = inspected(groups_result_view(reads[i]));
        detected_state_view(detected[i], detected[i].config_exists, detected[i].backup_exists, sel.contains(detected[i].id), c, e)
    }) + Seq::new(store.custom_targets@.len(), |i: int| {
        let t = store.custom_targets@[i];
        let (c, e) = inspected(groups_result_view(ci[i].groups));
        custom_state_view(t.id@, t.name@, t.language_models_path@, ci[i].config_exists, ci[i].backup_exists, sel.contains(t.id@), c, e)
    })
}

/// The settings page's view: the catalog, every target's state in page
/// order, the available selection and the number of listed models.
pub fn build_state(store: CopilotByokStore, detected: &Vec<VsCodeProfileTarget>, detected_reads: &Vec<Result<Vec<JsonValue>, String>>, custom_inspections: &Vec<Inspection>) -> (r: CopilotByokState)
    requires
        detected_reads@.len() == detected@.len(),
        custom_inspections@.len() == store.custom_targets@.len(),
    ensures
        states_view(r.targets@) == sort_by(unsorted_states(store, targets_view(detected@), detected_reads@, custom_inspections@), state_order()),
        strs(r.selected_target_ids@) == available_selection(store, targets_view(detected@)),
        r.groups == store.groups,
        r.managed_model_count as nat == if catalog_model_count(store.groups@) <= usize::MAX { catalog_model_count(store.groups@) } else { usize::MAX as nat },
{
    let ghost st = store;
    let selected = available_selected_target_ids(&store, detected);
    let ghost sel = available_selection(st, targets_view(detected@));
    let ghost expected = unsorted_states(st, targets_view(detected@), detected_reads@, custom_inspections@);
    let mut targets: Vec<CopilotByokTargetState> = Vec::new();
    let n = detected.len();
    let mut i: usize = 0;
    while i < n
        invariant
            n == detected@.len(),
            n == detected_reads@.len(),
            i <= n,
            strs(selected@) == sel,
            sel == available_selection(st, targets_view(detected@)),
            expected == unsorted_states(st, targets_view(detected@), detected_reads@, custom_inspections@),
            targets@.len() == i,
            forall|j: int| 0 <= j < i ==> #[trigger] targets@[j]@ == expected[j],
        decreases n - i,
    {
        let t = &detected[i];
        let (count, err) = inspect_path(&detected_reads[i]);
        let sel_here = contains_id(&selected, t.id.as_str());
        let state = detected_target_state(t, t.config_exists, t.backup_exists, sel_here, count, err);
        targets.push(state);
        i = i + 1;
    }
    let m = store.custom_targets.len();
    let mut k: usize = 0;
    while k < m
        invariant
            n == detected@.len(),
            m == st.custom_targets@.len(),
            m == custom_inspections@.len(),
            store == st,
            k <= m,
            strs(selected@) == sel,
            sel == available_selection(st, targets_view(detected@)),
            expected == unsorted_states(st, targets_view(detected@), detected_reads@, custom_inspections@),
            targets@.len() == n + k,
            forall|j: int| 0 <= j < n + k ==> #[trigger] targets@[j]@ == expected[j],
        decreases m - k,
    {
        let t = &store.custom_targets[k];
        let insp = &custom_inspections[k];
        let (count, err) = inspect_path(&insp.groups);
        let sel_here = contains_id(&selected, t.id.as_str());
        let state = custom_target_state(&t.id, &t.name, &t.language_models_path, insp.config_exists, insp.backup_exists, sel_here, count, err);
        targets.push(state);
        k = k + 1;
    }
    assert(states_view(targets@) =~= expected);
    let sorted = sort_states(targets);
    let count = managed_model_count(&store.groups);
    CopilotByokState {
        groups: store.groups,
        targets: sorted,
        selected_target_ids: selected,
        managed_model_count: count,
    }
}

/// The sync run at startup and by global synchronization: nothing when no
/// selected target exists on this device; otherwise a sync of exactly the
/// available selected targets.
pub fn sync_selected_on_startup(store: CopilotByokStore, detected: &Vec<VsCodeProfileTarget>) -> (r: Result<Option<SyncPlan>, AppError>)
    ensures
        ({
            let ids = available_selection(store, targets_view(detected@));
            match r {
                Ok(None) => ids.len() == 0,
                Ok(Some(plan)) => ids.len() > 0 && strs(plan.target_ids@) == ids
                    && resolve_paths_spec(store, targets_view(detected@), ids) == Ok::<Seq<(Seq<char>, Seq<char>)>, ErrView>(pairs_view(plan.targets@)),
                Err(e) => ids.len() > 0 && resolve_paths_spec(store, targets_view(detected@), ids) == Err::<Seq<(Seq<char>, Seq<char>)>, ErrView>(e@),
            }
        }),
{
    let ghost st = store;
    let ids = available_selected_target_ids(&store, detected);
    if ids.len() == 0 {
        return Ok(None);
    }
    let mut store = store;
    store.targets_initialized = true;
    store.selected_target_ids = ids;
    assert(custom_pairs(store) == custom_pairs(st));
    let plan = sync_store(&store, detected)?;
    Ok(Some(plan))
}

/// A manual sync of the selection in effect (see [`sync_store`]).
pub fn sync(store: &CopilotByokStore, detected: &Vec<VsCodeProfileTarget>) -> (r: Result<SyncPlan, AppError>)
    ensures
        match r {
            Ok(plan) => {
                let ids = effective_selection(store.targets_initialized, strs(store.selected_target_ids@), targets_view(detected@));
                &&& strs(plan.target_ids@) == ids
                &&& ids.len() > 0
                &&& resolve_paths_spec(*store, targets_view(detected@), ids) == Ok::<Seq<(Seq<char>, Seq<char>)>, ErrView>(pairs_view(plan.targets@))
            },
            Err(e) => {
                let ids = effective_selection(store.targets_initialized, strs(store.selected_target_ids@), targets_view(detected@));
                ||| (ids.len() == 0 && e@ == ErrView::InvalidInput("No VS Code profile is selected for Copilot BYOK sync"@))
                ||| (ids.len() > 0 && resolve_paths_spec(*store, targets_view(detected@), ids) == Err::<Seq<(Seq<char>, Seq<char>)>, ErrView>(e@))
            },
        },
{
    sync_store(store, detected)
}

/// The first id that names no available target.
pub open spec fn first_unknown(ids: Seq<Seq<char>>, valid: Seq<Seq<char>>) -> Option<Seq<char>>
    decreases ids.len(),
{
    if ids.len() == 0 {
        None
    } else if !valid.contains(ids[0]) {
        Some(ids[0])
    } else {
        first_unknown(ids.skip(1), valid)
    }
}

fn first_unknown_exec(ids: &Vec<String>, valid: &Vec<String>) -> (r: Option<usize>)
    ensures
        match r {
            Some(i) => i < ids@.len() && first_unknown(strs(ids@), strs(valid@)) == Some(ids@[i as int]@),
            None => first_unknown(strs(ids@), strs(valid@)) is None,
        },
{
    let n = ids.len();
    let mut i: usize = 0;
    assert(strs(ids@).skip(0) =~= strs(ids@));
    while i < n
        invariant
            n == ids@.len(),
            i <= n,
            first_unknown(strs(ids@), strs(valid@)) == first_unknown(strs(ids@).skip(i as int), strs(valid@)),
        decreases n - i,
    {
        assert(strs(ids@).skip(i as int)[0] == ids@[i as int]@);
        assert(strs(ids@).skip(i as int).skip(1) =~= strs(ids@).skip(i + 1));
        if !contains_id(valid, ids[i].as_str()) {
            return Some(i);
        }
        i = i + 1;
    }
    None
}

/// Choosing the selected targets: every id must name an available target;
/// the store remembers the choice (even an empty one).
pub fn set_targets(store: CopilotByokStore, detected: &Vec<VsCodeProfileTarget>, target_ids: Vec<String>) -> (r: Result<CopilotByokStore, AppError>)
    ensures
        match r {
            Ok(n) => first_unknown(strs(target_ids@), available_ids(targets_view(detected@), custom_pairs(store))) is None
                && n == (CopilotByokStore { targets_initialized: true, selected_target_ids: target_ids, ..store }),
            Err(e) => first_unknown(strs(target_ids@), available_ids(targets_view(detected@), custom_pairs(store))) matches Some(id)
                && e@ == ErrView::InvalidInput("Unknown or unavailable Copilot BYOK target: "@ + id),
        },
{
    let custom = crate::sync::custom_target_pairs(&store);
    let valid = available(detected, &custom);
    match first_unknown_exec(&target_ids, &valid) {
        Some(i) => {
            return Err(AppError::InvalidInput("Unknown or unavailable Copilot BYOK target: ".to_string().concat(target_ids[i].as_str())));
        },
        None => {},
    }
    let mut store = store;
    store.targets_initialized = true;
    store.selected_target_ids = target_ids;
    Ok(store)
}

fn custom_position_exec(ts: &Vec<CopilotByokCustomTarget>, id: &str) -> (r: Option<usize>)
    ensures
        match r {
            Some(i) => crate::store::custom_position(ts@, id@) == Some(i as int) && i < ts@.len(),
            None => crate::store::custom_position(ts@, id@) is None,
        },
{
    let n = ts.len();
    let mut i: usize = 0;
    assert(ts@.skip(0) =~= ts@);
    while i < n
        invariant
            n == ts@.len(),
            i <= n,
            crate::store::custom_position(ts@, id@) == match crate::store::custom_position(ts@.skip(i as int), id@) {
                Some(k) => Some(k + i),
                None => None::<int>,
            },
        decreases n - i,
    {
        assert(ts@.skip(i as int)[0] == ts@[i as int]);
        assert(ts@.skip(i as int).skip(1) =~= ts@.skip(i + 1));
        if str_eq(ts[i].id.as_str(), id) {
            return Some(i);
        }
        i = i + 1;
    }
    None
}

/// Adding a custom target for a `chatLanguageModels.json` path (a path that
/// a detected target already names, by platform path equality, is refused),
/// replacing the custom target with its id, and selecting it.
pub fn add_custom_target(store: CopilotByokStore, detected: &Vec<VsCodeProfileTarget>, path: &str, name: Option<String>) -> (r: Result<CopilotByokStore, AppError>)
    ensures
        r matches Ok(n) ==> exists|t: CopilotByokCustomTarget| {
            &&& t.view_triple() == custom_target_from(path@, opt_str(name))
            &&& #[trigger] customs_upserted(store.custom_targets@, t) == n.custom_targets@
            &&& n.selected_target_ids@ == with_selected(store.selected_target_ids@, t.id)
            &&& n.targets_initialized
            &&& n.groups == store.groups && n.models == store.models && n.cli == store.cli && n.version == store.version
        },
        r matches Err(e) ==> crate::store::path_refusal(e@)
            || e@ == ErrView::InvalidInput("This VS Code profile is already available as a detected sync target"@),
        (exists|q: int| 0 <= q < detected@.len() && (#[trigger] detected@[q]).language_models_path@ == path@) ==> r is Err,
        !contains_sub(path@, "chatLanguageModels.json"@) ==> (r matches Err(e)
            && e@ == ErrView::InvalidInput("Custom Copilot BYOK target must end with chatLanguageModels.json"@)),
        !absolute_shape(path@) ==> r is Err,
{
    let custom = CopilotByokCustomTarget::from_path(path, name)?;
    let n = detected.len();
    let mut i: usize = 0;
    while i < n
        invariant
            n == detected@.len(),
            i <= n,
            custom.language_models_path@ == path@,
            contains_sub(path@, "chatLanguageModels.json"@),
            absolute_shape(path@),
            forall|q: int| 0 <= q < i ==> (#[trigger] detected@[q]).language_models_path@ != path@,
        decreases n - i,
    {
        if path_eq(detected[i].language_models_path.as_str(), custom.language_models_path.as_str()) {
            return Err(AppError::InvalidInput("This VS Code profile is already available as a detected sync target".to_string()));
        }
        i = i + 1;
    }
    let ghost t = custom;
    let mut store = store;
    let ghost o = store;
    store.targets_initialized = true;
    let id = custom.id.clone();
    match custom_position_exec(&store.custom_targets, custom.id.as_str()) {
        Some(k) => {
            store.custom_targets.set(k, custom);
        },
        None => {
            store.custom_targets.push(custom);
        },
    }
    if !contains_str(&store.selected_target_ids, id.as_str()) {
        store.selected_target_ids.push(id);
    }
    assert(store.selected_target_ids@ =~= with_selected(o.selected_target_ids@, t.id));
    assert(customs_upserted(o.custom_targets@, t) == store.custom_targets@);
    Ok(store)
}

fn remove_customs(ts: Vec<CopilotByokCustomTarget>, id: &str) -> (r: Vec<CopilotByokCustomTarget>)
    ensures
        r@ == customs_without(ts@, id@),
{
    let ghost orig = ts@;
    let mut rest = ts;
    let mut out: Vec<CopilotByokCustomTarget> = Vec::new();
    let n = rest.len();
    let mut i: usize = 0;
    while i < n
        invariant
            n == orig.len(),
            i <= n,
            rest@ == orig.skip(i as int),
            out@ == customs_without(orig.take(i as int), id@),
        decreases n - i,
    {
        let t = rest.remove(0);
        assert(t == orig[i as int]);
        assert(rest@ =~= orig.skip(i + 1));
        assert(orig.take(i + 1).drop_last() =~= orig.take(i as int));
        assert(orig.take(i + 1).last() == t);
        if !str_eq(t.id.as_str(), id) {
            out.push(t);
        }
        i = i + 1;
    }
    assert(orig.take(n as int) =~= orig);
    out
}

/// Removing a custom target and its selection.
pub fn remove_custom_target(store: CopilotByokStore, target_id: &str) -> (r: CopilotByokStore)
    ensures
        r.custom_targets@ == customs_without(store.custom_targets@, target_id@),
        r.selected_target_ids@ == ids_without(store.selected_target_ids@, target_id@),
        r == (CopilotByokStore { custom_targets: r.custom_targets, selected_target_ids: r.selected_target_ids, ..store }),
{
    let mut store = store;
    let mut ts: Vec<CopilotByokCustomTarget> = Vec::new();
    std::mem::swap(&mut ts, &mut store.custom_targets);
    store.custom_targets = remove_customs(ts, target_id);
    let mut ids: Vec<String> = Vec::new();
    std::mem::swap(&mut ids, &mut store.selected_target_ids);
    store.selected_target_ids = remove_id(ids, target_id);
    store
}

/// Index of the first group with the id.
pub open spec fn group_position(gs: Seq<CopilotByokGroup>, id: Seq<char>) -> Option<int>
    decreases gs.len(),
{
    if gs.len() == 0 {
        None
    } else if gs[0].id@ == id {
        Some(0)
    } else {
        match group_position(gs.skip(1), id) {
            Some(i) => Some(i + 1),
            None => None,
        }
    }
}

fn group_position_exec(gs: &Vec<CopilotByokGroup>, id: &str) -> (r: Option<usize>)
    ensures
        match r {
            Some(i) => group_position(gs@, id@) == Some(i as int) && i < gs@.len(),
            None => group_position(gs@, id@) is None,
        },
{
    let n = gs.len();
    let mut i: usize = 0;
    assert(gs@.skip(0) =~= gs@);
    while i < n
        invariant
            n == gs@.len(),
            i <= n,
            group_position(gs@, id@) == match group_position(gs@.skip(i as int), id@) {
                Some(k) => Some(k + i),
                None => None::<int>,
            },
        decreases n - i,
    {
        assert(gs@.skip(i as int)[0] == gs@[i as int]);
        assert(gs@.skip(i as int).skip(1) =~= gs@.skip(i + 1));
        if str_eq(gs[i].id.as_str(), id) {
            return Some(i);
        }
        i = i + 1;
    }
    None
}

/// The provider a connection check is for: the first group with the id, or
/// the message that it does not exist.
pub fn find_group(groups: &Vec<CopilotByokGroup>, group_id: &str) -> (r: Result<usize, String>)
    ensures
        match r {
            Ok(i) => group_position(groups@, group_id@) == Some(i as int),
            Err(m) => group_position(groups@, group_id@) is None
                && m@ == "VS Code Copilot provider "@ + group_id@ + " does not exist"@,
        },
{
    match group_position_exec(groups, group_id) {
        Some(i) => Ok(i),
        None => Err("VS Code Copilot provider ".to_string().concat(group_id).concat(" does not exist")),
    }
}

/// The groups with `g` in place of the first with its id, or appended.
pub open spec fn groups_upserted(gs: Seq<CopilotByokGroup>, g: CopilotByokGroup) -> Seq<CopilotByokGroup> {
    match group_position(gs, g.id@) {
        Some(i) => gs.update(i, g),
        None => gs.push(g),
    }
}

/// Saving a provider: it is normalized and validated, then replaces the
/// provider with its id or is appended.
pub fn upsert_group(store: CopilotByokStore, group: CopilotByokGroup) -> (r: Result<CopilotByokStore, AppError>)
    ensures
        match r {
            Ok(n) => exists|g: CopilotByokGroup| {
                &&& #[trigger] group_normalized(group, g)
                &&& group_problem(g) is None
                &&& n.groups@ == groups_upserted(store.groups@, g)
                &&& n == (CopilotByokStore { groups: n.groups, ..store })
            },
            Err(e) => exists|g: CopilotByokGroup| #[trigger] group_normalized(group, g) && group_problem(g) == Some(e@.message()) && e is InvalidInput,
        },
{
    let mut group = group;
    group.normalize();
    let ghost g = group;
    group.validate()?;
    let mut store = store;
    let ghost o = store;
    match group_position_exec(&store.groups, group.id.as_str()) {
        Some(i) => {
            store.groups.set(i, group);
        },
        None => {
            store.groups.push(group);
        },
    }
    assert(store.groups@ == groups_upserted(o.groups@, g));
    Ok(store)
}

/// The groups without the id.
pub open spec fn groups_without(gs: Seq<CopilotByokGroup>, id: Seq<char>) -> Seq<CopilotByokGroup>
    decreases gs.len(),
{
    if gs.len() == 0 {
        Seq::empty()
    } else {
        let p = groups_without(gs.drop_last(), id);
        if gs.last().id@ == id {
            p
        } else {
            p.push(gs.last())
        }
    }
}

/// Deleting a provider.
pub fn delete_group(store: CopilotByokStore, group_id: &str) -> (r: CopilotByokStore)
    ensures
        r.groups@ == groups_without(store.groups@, group_id@),
        r == (CopilotByokStore { groups: r.groups, ..store }),
{
    let mut store = store;
    let mut gs: Vec<CopilotByokGroup> = Vec::new();
    std::mem::swap(&mut gs, &mut store.groups);
    let ghost orig = gs@;
    let mut rest = gs;
    let mut out: Vec<CopilotByokGroup> = Vec::new();
    let n = rest.len();
    let mut i: usize = 0;
    while i < n
        invariant
            n == orig.len(),
            i <= n,
            rest@ == orig.skip(i as int),
            out@ == groups_without(orig.take(i as int), group_id@),
        decreases n - i,
    {
        let g = rest.remove(0);
        assert(g == orig[i as int]);
        assert(rest@ =~= orig.skip(i + 1));
        assert(orig.take(i + 1).drop_last() =~= orig.take(i as int));
        assert(orig.take(i + 1).last() == g);
        if !str_eq(g.id.as_str(), group_id) {
            out.push(g);
        }
        i = i + 1;
    }
    assert(orig.take(n as int) =~= orig);
    store.groups = out;
    store
}

/// What restoring a target's backup does: the target's path, the ids
/// (detected and custom) that name the same path, whether one of them was
/// in the selection in effect, and the store without them selected.
#[derive(Debug)]
pub struct RestorePlan {
    pub store: CopilotByokStore,
    pub path: String,
    pub alias_ids: Vec<String>,
    pub was_selected: bool,
}

proof fn lemma_resolve_one(pairs: Seq<(Seq<char>, Seq<char>)>, k: Seq<char>)
    ensures
        resolve_spec(pairs, seq![k]) matches Ok(v) ==> last_value(pairs, k) == Some(v[0].1) && v.len() == 1,
{
    let req = seq![k];
    assert(req[0] == k);
    assert(req.skip(1) =~= Seq::<Seq<char>>::empty());
    assert(!Set::<Seq<char>>::empty().contains(k));
    assert(resolve_from(pairs, req.skip(1), Set::<Seq<char>>::empty().insert(k)) == Ok::<Seq<(Seq<char>, Seq<char>)>, Seq<char>>(Seq::empty()));
    if let Some(p) = last_value(pairs, k) {
        assert(seq![(k, p)] + Seq::<(Seq<char>, Seq<char>)>::empty() =~= seq![(k, p)]);
    }
}

/// Whether some id of `a` is in `b`.
pub open spec fn any_in(a: Seq<Seq<char>>, b: Seq<Seq<char>>) -> bool {
    exists|i: int| 0 <= i < a.len() && b.contains(#[trigger] a[i])
}

/// Restoring a target: it leaves the selection with every alias of its
/// path, so the restored file is not overwritten by the next sync. The
/// caller restores the backup (or removes the managed groups when there is
/// none) and reports a change when a target was selected or the file
/// changed. Which targets are aliases follows the platform's path equality.
pub fn restore_backup(store: CopilotByokStore, detected: &Vec<VsCodeProfileTarget>, target_id: &str) -> (r: Result<RestorePlan, AppError>)
    ensures
        match r {
            Ok(plan) => {
                &&& resolve_paths_spec(store, targets_view(detected@), seq![target_id@]) matches Ok(v) && v.len() > 0 && v[0].1 == plan.path@
                &&& plan.was_selected == any_in(effective_selection(store.targets_initialized, strs(store.selected_target_ids@), targets_view(detected@)), strs(plan.alias_ids@))
                &&& plan.store.targets_initialized
                &&& strs(plan.store.selected_target_ids@) == crate::proxy::omit_ids(strs(store.selected_target_ids@), strs(plan.alias_ids@))
                &&& plan.store == (CopilotByokStore { targets_initialized: true, selected_target_ids: plan.store.selected_target_ids, ..store })
                &&& strs(plan.alias_ids@).contains(target_id@)
                &&& forall|q: int| 0 <= q < detected@.len() && (#[trigger] detected@[q]).language_models_path@ == plan.path@
                    ==> strs(plan.alias_ids@).contains(detected@[q].id@)
                &&& forall|q: int| 0 <= q < store.custom_targets@.len() && (#[trigger] store.custom_targets@[q]).language_models_path@ == plan.path@
                    ==> strs(plan.alias_ids@).contains(store.custom_targets@[q].id@)
                &&& forall|a: Seq<char>| #[trigger] strs(plan.alias_ids@).contains(a) ==> available_ids(targets_view(detected@), custom_pairs(store)).contains(a)
                &&& !strs(plan.store.selected_target_ids@).contains(target_id@)
            },
            Err(e) => resolve_paths_spec(store, targets_view(detected@), seq![target_id@]) == Err::<Seq<(Seq<char>, Seq<char>)>, ErrView>(e@),
        },
{
    let path = crate::sync::restore_backup(&store, detected, target_id)?;
    let ghost pairs = path_pairs(targets_view(detected@), custom_pairs(store));
    proof {
        lemma_resolve_one(pairs, target_id@);
        lemma_last_value_found(pairs, target_id@);
    }
    let mut aliases: Vec<String> = Vec::new();
    let n = detected.len();
    let mut i: usize = 0;
    while i < n
        invariant
            n == detected@.len(),
            i <= n,
            forall|q: int| 0 <= q < i && (#[trigger] detected@[q]).language_models_path@ == path@ ==> strs(aliases@).contains(detected@[q].id@),
            forall|a: Seq<char>| #[trigger] strs(aliases@).contains(a) ==> available_ids(targets_view(detected@), custom_pairs(store)).contains(a),
        decreases n - i,
    {
        if path_eq(detected[i].language_models_path.as_str(), path.as_str()) {
            let ghost before = strs(aliases@);
            aliases.push(detected[i].id.clone());
            proof {
                assert(strs(aliases@) =~= before.push(detected@[i as int].id@));
                assert forall|x: Seq<char>| before.contains(x) implies strs(aliases@).contains(x) by {
                    let w = choose|w: int| 0 <= w < before.len() && before[w] == x;
                    assert(strs(aliases@)[w] == x);
                }
                assert(strs(aliases@)[before.len() as int] == detected@[i as int].id@);
                let av = available_ids(targets_view(detected@), custom_pairs(store));
                assert(av[i as int] == detected@[i as int].id@);
                assert forall|a: Seq<char>| #[trigger] strs(aliases@).contains(a) implies av.contains(a) by {
                    let w = choose|w: int| 0 <= w < strs(aliases@).len() && strs(aliases@)[w] == a;
                    if w < before.len() {
                        assert(before[w] == a);
                        assert(before.contains(a));
                    }
                }
            }
        }
        i = i + 1;
    }
    let m = store.custom_targets.len();
    let mut k: usize = 0;
    while k < m
        invariant
            n == detected@.len(),
            m == store.custom_targets@.len(),
            k <= m,
            forall|q: int| 0 <= q < n && (#[trigger] detected@[q]).language_models_path@ == path@ ==> strs(aliases@).contains(detected@[q].id@),
            forall|q: int| 0 <= q < k && (#[trigger] store.custom_targets@[q]).language_models_path@ == path@ ==> strs(aliases@).contains(store.custom_targets@[q].id@),
            forall|a: Seq<char>| #[trigger] strs(aliases@).contains(a) ==> available_ids(targets_view(detected@), custom_pairs(store)).contains(a),
        decreases m - k,
    {
        if path_eq(store.custom_targets[k].language_models_path.as_str(), path.as_str()) {
            let ghost before = strs(aliases@);
            aliases.push(store.custom_targets[k].id.clone());
            proof {
                assert(strs(aliases@) =~= before.push(store.custom_targets@[k as int].id@));
                assert forall|x: Seq<char>| before.contains(x) implies strs(aliases@).contains(x) by {
                    let w = choose|w: int| 0 <= w < before.len() && before[w] == x;
                    assert(strs(aliases@)[w] == x);
                }
                assert(strs(aliases@)[before.len() as int] == store.custom_targets@[k as int].id@);
                let av = available_ids(targets_view(detected@), custom_pairs(store));
                assert(av[n + k] == custom_pairs(store)[k as int].0);
                assert(av[n + k] == store.custom_targets@[k as int].id@);
                assert forall|a: Seq<char>| #[trigger] strs(aliases@).contains(a) implies av.contains(a) by {
                    let w = choose|w: int| 0 <= w < strs(aliases@).len() && strs(aliases@)[w] == a;
                    if w < before.len() {
                        assert(before[w] == a);
                        assert(before.contains(a));
                    }
                }
            }
        }
        k = k + 1;
    }
    proof {
        let j = choose|j: int| 0 <= j < pairs.len() && #[trigger] pairs[j] == (target_id@, path@);
        let dl = targets_view(detected@).len();
        if j < dl {
            assert(pairs[j] == (detected@[j]@.id, detected@[j]@.language_models_path));
        } else {
            assert(pairs[j] == custom_pairs(store)[j - dl]);
            assert(custom_pairs(store)[j - dl] == (store.custom_targets@[j - dl].id@, store.custom_targets@[j - dl].language_models_path@));
        }
        assert(strs(aliases@).contains(target_id@));
    }
    let selected = effective_selected_target_ids(&store, detected);
    let mut was_selected = false;
    let s = selected.len();
    let mut j: usize = 0;
    while j < s
        invariant
            s == selected@.len(),
            j <= s,
            was_selected == exists|q: int| 0 <= q < j && strs(aliases@).contains(#[trigger] strs(selected@)[q]),
        decreases s - j,
    {
        if contains_id(&aliases, selected[j].as_str()) {
            assert(strs(selected@)[j as int] == selected@[j as int]@);
            was_selected = true;
        }
        j = j + 1;
    }
    let ghost old_selected = store.selected_target_ids@;
    let mut store = store;
    store.targets_initialized = true;
    store.selected_target_ids = crate::proxy::omit_public(&store.selected_target_ids, &aliases);
    proof {
        crate::proxy::lemma_omit_excludes(strs(old_selected), strs(aliases@), target_id@);
    }
    Ok(RestorePlan { store, path, alias_ids: aliases, was_selected })
}

/// The directory of the first selected language-model file: the profile
/// directory other resources are written beside.
pub fn primary_profile_config_dir(paths: &Vec<String>) -> (r: Result<String, AppError>)
    ensures
        paths@.len() == 0 ==> r is Err,
        r matches Err(e) ==> e@ == ErrView::Config("No VS Code Copilot sync target is selected on this device"@),
{
    let n = paths.len();
    let mut i: usize = 0;
    while i < n
        invariant
            n == paths@.len(),
            i <= n,
        decreases n - i,
    {
        match path_parent(paths[i].as_str()) {
            Some(p) => {
                return Ok(p);
            },
            None => {},
        }
        i = i + 1;
    }
    Err(AppError::Config("No VS Code Copilot sync target is selected on this device".to_string()))
}

/// Paths of the language-model files of the selection in effect.
pub fn selected_language_model_paths(store: &CopilotByokStore, detected: &Vec<VsCodeProfileTarget>) -> (r: Result<Vec<String>, AppError>)
    ensures
        ({
            let ids = effective_selection(store.targets_initialized, strs(store.selected_target_ids@), targets_view(detected@));
            match r {
                Ok(v) => resolve_paths_spec(*store, targets_view(detected@), ids) matches Ok(ps) && strs(v@) == ps.map_values(|p: (Seq<char>, Seq<char>)| p.1),
                Err(e) => resolve_paths_spec(*store, targets_view(detected@), ids) == Err::<Seq<(Seq<char>, Seq<char>)>, ErrView>(e@),
            }
        }),
{
    let ids = effective_selected_target_ids(store, detected);
    let targets = resolve_target_paths(store, detected, &ids)?;
    let mut out: Vec<String> = Vec::new();
    let n = targets.len();
    let mut i: usize = 0;
    while i < n
        invariant
            n == targets@.len(),
            i <= n,
            out@.len() == i,
            forall|j: int| 0 <= j < i ==> #[trigger] out@[j]@ == targets@[j].1@,
        decreases n - i,
    {
        out.push(targets[i].1.clone());
        i = i + 1;
    }
    assert(strs(out@) =~= pairs_view(targets@).map_values(|p: (Seq<char>, Seq<char>)| p.1));
    Ok(out)
}

/// An import's effect: the store with the imported models (and, when some
/// group was accepted, the target selected), the report, the indexes of the
/// accepted groups, and the groups the target keeps, to which the caller
/// adds the managed groups.
#[derive(Debug)]
pub struct ImportPlan {
    pub store: CopilotByokStore,
    pub result: CopilotByokImportResult,
    pub accepted: Vec<usize>,
    pub remaining: Vec<JsonValue>,
}

/// Imports the groups read from a target (see [`import_from_target`]).
pub fn import_models(store: CopilotByokStore, target_id: &str, groups: &Vec<JsonValue>) -> (r: ImportPlan)
    ensures
        ({
            let st = import_fold(target_id@, items_view(groups@), start_state(imported_views(store.models@)));
            &&& imported_views(r.store.models@) == st.models
            &&& r.accepted@.map_values(|i: usize| i as int) == st.accepted
            &&& r.result.imported_group_count as nat == st.groups
            &&& r.result.imported_model_count as nat == st.imported
            &&& r.result.skipped_group_count as nat == st.skipped
            &&& strs(r.result.warnings@) == st.warnings
            &&& r.result.target_id@ == target_id@
            &&& r.result.imported_group_count + r.result.skipped_group_count == count_importable(items_view(groups@))
            &&& r.result.warnings@.len() == r.result.skipped_group_count
            &&& items_view(r.remaining@) == remaining_spec(items_view(groups@), st.accepted)
            &&& (st.accepted.len() > 0 ==> r.store.targets_initialized && strs(r.store.selected_target_ids@) == if strs(store.selected_target_ids@).contains(target_id@) {
                strs(store.selected_target_ids@)
            } else {
                strs(store.selected_target_ids@).push(target_id@)
            })
            &&& (st.accepted.len() == 0 ==> r.store.targets_initialized == store.targets_initialized && r.store.selected_target_ids == store.selected_target_ids
                && imported_views(r.store.models@) == imported_views(store.models@))
            &&& r.store.groups == store.groups && r.store.cli == store.cli && r.store.custom_targets == store.custom_targets
        }),
{
    let outcome = import_from_target(store, target_id, groups);
    ImportPlan { store: outcome.store, result: outcome.result, accepted: outcome.accepted, remaining: outcome.remaining }
}

} // verus!
