//! Writing the provider catalog into VS Code targets: which targets are
//! synced, what each target's `chatLanguageModels.json` becomes, removing the
//! managed groups and restoring backups. The caller reads and writes files.

use vstd::prelude::*;
use vstd::string::StrSliceExecFns;
use vstd::string::StringExecFns;
use crate::bridge::{opt_str, parse_json5, json5_parse, json_result_view, path_with_extension, json_file_evident};
use crate::error::{AppError, ErrView};
use crate::json::{JsonValue, JsonView, items_view, lemma_items_view, json_clone, items_equal};
use crate::kv::pairs_view;
use crate::model::{CopilotByokGroup, is_managed_group, is_managed_group_spec, language_model_group_json, count_enabled, strs, enabled_models_json, effective_headers};
use crate::json::{entries_view, get_str, get_bool};
use crate::kv::{entries_insert, insert_all, lemma_get_after_insert};
use crate::store::CopilotByokStore;
use crate::targets::{effective_selection, effective_ids, path_pairs, resolve_spec, target_paths, resolve, available_ids, keep_ids, available, retain_ids};
use crate::text::{trim, trim_spec, decimal, u64_to_string};
use crate::vscode::{VsCodeProfileTarget, TargetView, targets_view};

verus! {

/// Largest `chatLanguageModels.json` the library edits (8 MiB).
pub const MAX_CONFIG_BYTES: u64 = 8388608;

/// What a sync or removal did.
#[derive(Debug)]
pub struct CopilotByokSyncResult {
    pub target_ids: Vec<String>,
    pub managed_model_count: usize,
    pub changed_target_count: usize,
}

/// The backup written before a target is first modified:
/// `chatLanguageModels.json.cc-switch.bak` beside it (the extension
/// replaced by `json.cc-switch.bak`).
pub fn backup_path(path: &str) -> (r: String)
    ensures
        json_file_evident(path@) ==> r@ == path@ + ".cc-switch.bak"@,
{
    proof {
        reveal_strlit("json.cc-switch.bak");
        reveal_strlit(".cc-switch.bak");
        reveal_strlit(".json");
    }
    let r = path_with_extension(path, "json.cc-switch.bak");
    proof {
        if json_file_evident(path@) {
            let n = path@.len();
            assert(path@.subrange(n - 4, n as int) =~= ".json"@.subrange(1, 5));
            assert(path@ =~= path@.subrange(0, n - 4) + path@.subrange(n - 4, n as int));
            assert("json.cc-switch.bak"@ =~= ".json"@.subrange(1, 5) + ".cc-switch.bak"@);
            assert(r@ =~= path@ + ".cc-switch.bak"@);
        }
    }
    r
}

/// Refusal of a target that is a symbolic link or not a regular file.
pub open spec fn target_kind_problem(is_symlink: bool, is_file: bool, path: Seq<char>) -> Option<Seq<char>> {
    if is_symlink {
        Some("Refusing to modify symlinked Copilot BYOK config: "@ + path)
    } else if !is_file {
        Some("Copilot BYOK target is not a regular file: "@ + path)
    } else {
        None
    }
}

/// Checks an existing target's kind (missing targets pass).
pub fn ensure_regular_target(present: bool, is_symlink: bool, is_file: bool, path: &str) -> (r: Result<(), AppError>)
    ensures
        r is Ok <==> (!present || target_kind_problem(is_symlink, is_file, path@) is None),
        r matches Err(e) ==> e@ == ErrView::InvalidInput(target_kind_problem(is_symlink, is_file, path@)->0),
{
    if !present {
        return Ok(());
    }
    if is_symlink {
        return Err(AppError::InvalidInput("Refusing to modify symlinked Copilot BYOK config: ".to_string().concat(path)));
    }
    if !is_file {
        return Err(AppError::InvalidInput("Copilot BYOK target is not a regular file: ".to_string().concat(path)));
    }
    Ok(())
}

/// Refuses files over [`MAX_CONFIG_BYTES`].
pub fn ensure_file_size(len: u64, path: &str) -> (r: Result<(), AppError>)
    ensures
        r is Ok <==> len <= MAX_CONFIG_BYTES,
        r matches Err(e) ==> e@ == ErrView::InvalidInput("Copilot BYOK config exceeds 8 MiB: "@ + path@),
{
    if len > MAX_CONFIG_BYTES {
        return Err(AppError::InvalidInput("Copilot BYOK config exceeds 8 MiB: ".to_string().concat(path)));
    }
    Ok(())
}

/// The groups of a target's text: none for a blank file; otherwise the text
/// must parse (as JSON5) to an array.
pub open spec fn groups_of_text(path: Seq<char>, text: Seq<char>) -> Result<Seq<JsonView>, ErrView> {
    if trim_spec(text).len() == 0 {
        Ok(Seq::empty())
    } else {
        match json5_parse(text) {
            Err(e) => Err(ErrView::Config("Failed to parse VS Code language model config "@ + path + ": "@ + e)),
            Ok(JsonView::Array(items)) => Ok(items),
            Ok(_) => Err(ErrView::Config("VS Code language model config must be a JSON array: "@ + path)),
        }
    }
}

/// Parses a target's text, see [`groups_of_text`].
pub fn read_language_model_groups(path: &str, text: &str) -> (r: Result<Vec<JsonValue>, AppError>)
    ensures
        match r {
            Ok(v) => groups_of_text(path@, text@) == Ok::<Seq<JsonView>, ErrView>(items_view(v@)),
            Err(e) => groups_of_text(path@, text@) == Err::<Seq<JsonView>, ErrView>(e@),
        },
{
    if trim(text).unicode_len() == 0 {
        return Ok(Vec::new());
    }
    match parse_json5(text) {
        Err(e) => Err(AppError::Config("Failed to parse VS Code language model config ".to_string().concat(path).concat(": ").concat(e.as_str()))),
        Ok(JsonValue::Array(items)) => Ok(items),
        Ok(_) => Err(AppError::Config("VS Code language model config must be a JSON array: ".to_string().concat(path))),
    }
}

/// The groups that are not managed, in order.
pub open spec fn user_groups(gs: Seq<JsonView>) -> Seq<JsonView>
    decreases gs.len(),
{
    if gs.len() == 0 {
        Seq::empty()
    } else {
        let p = user_groups(gs.drop_last());
        if is_managed_group_spec(gs.last()) {
            p
        } else {
            p.push(gs.last())
        }
    }
}

/// The managed groups of the enabled providers, in catalog order.
pub open spec fn catalog_groups(gs: Seq<CopilotByokGroup>) -> Seq<JsonView>
    decreases gs.len(),
{
    if gs.len() == 0 {
        Seq::empty()
    } else {
        let p = catalog_groups(gs.drop_last());
        if gs.last().enabled {
            p.push(language_model_group_json(gs.last()))
        } else {
            p
        }
    }
}

/// A target's groups after a sync: the user's own groups, in order,
/// followed by one managed group per enabled provider.
pub open spec fn merged_spec(existing: Seq<JsonView>, gs: Seq<CopilotByokGroup>) -> Seq<JsonView> {
    user_groups(existing) + catalog_groups(gs)
}

/// The groups of a file without the managed ones.
pub fn unmanaged_groups(existing: &Vec<JsonValue>) -> (r: Vec<JsonValue>)
    ensures
        items_view(r@) == user_groups(items_view(existing@)),
{
    proof {
        lemma_items_view(existing@);
    }
    let mut out: Vec<JsonValue> = Vec::new();
    let n = existing.len();
    let mut i: usize = 0;
    assert(items_view(out@) =~= user_groups(items_view(existing@).take(0)));
    while i < n
        invariant
            n == existing@.len(),
            i <= n,
            items_view(existing@).len() == n,
            forall|j: int| 0 <= j < n ==> #[trigger] items_view(existing@)[j] == existing@[j]@,
            items_view(out@) == user_groups(items_view(existing@).take(i as int)),
        decreases n - i,
    {
        assert(items_view(existing@).take(i + 1).drop_last() =~= items_view(existing@).take(i as int));
        assert(items_view(existing@).take(i + 1).last() == existing@[i as int]@);
        if !is_managed_group(&existing[i]) {
            let ghost before = out@;
            out.push(json_clone(&existing[i]));
            proof {
                lemma_items_view(out@);
                lemma_items_view(before);
                assert(items_view(out@) =~= items_view(before).push(existing@[i as int]@));
            }
        }
        i = i + 1;
    }
    assert(items_view(existing@).take(n as int) =~= items_view(existing@));
    out
}

/// A target's groups after a sync, see [`merged_spec`].
pub fn merge_managed_groups(existing: &Vec<JsonValue>, groups: &Vec<CopilotByokGroup>) -> (r: Vec<JsonValue>)
    ensures
        items_view(r@) == merged_spec(items_view(existing@), groups@),
{
    let mut out = unmanaged_groups(existing);
    let ghost base = items_view(out@);
    let n = groups.len();
    let mut i: usize = 0;
    assert(base + catalog_groups(groups@.take(0)) =~= base);
    while i < n
        invariant
            n == groups@.len(),
            i <= n,
            base == user_groups(items_view(existing@)),
            items_view(out@) == base + catalog_groups(groups@.take(i as int)),
        decreases n - i,
    {
        assert(groups@.take(i + 1).drop_last() =~= groups@.take(i as int));
        assert(groups@.take(i + 1).last() == groups@[i as int]);
        if groups[i].enabled {
            let g = groups[i].to_language_model_group();
            let ghost before = out@;
            out.push(g);
            proof {
                lemma_items_view(out@);
                lemma_items_view(before);
                assert(items_view(out@) =~= items_view(before).push(g@));
                assert(base + catalog_groups(groups@.take(i + 1)) =~= (base + catalog_groups(groups@.take(i as int))).push(g@));
            }
        }
        i = i + 1;
    }
    assert(groups@.take(n as int) =~= groups@);
    out
}

/// What a sync writes into a target whose groups are `existing`: the merged
/// groups when they differ, nothing otherwise.
pub open spec fn sync_write(existing: Seq<JsonView>, gs: Seq<CopilotByokGroup>) -> Option<Seq<JsonView>> {
    if merged_spec(existing, gs) == existing {
        None
    } else {
        Some(merged_spec(existing, gs))
    }
}

/// A target's new content after a sync: `Some` when it changes.
pub fn merge_update(existing: &Vec<JsonValue>, groups: &Vec<CopilotByokGroup>) -> (r: Option<Vec<JsonValue>>)
    ensures
        match r {
            Some(m) => items_view(m@) == merged_spec(items_view(existing@), groups@) && items_view(m@) != items_view(existing@),
            None => merged_spec(items_view(existing@), groups@) == items_view(existing@),
        },
        sync_write(items_view(existing@), groups@) == match r {
            Some(m) => Some(items_view(m@)),
            None => None::<Seq<JsonView>>,
        },
{
    let merged = merge_managed_groups(existing, groups);
    if items_equal(&merged, existing) {
        None
    } else {
        Some(merged)
    }
}

/// What removing the managed groups does to one existing target file.
pub enum RemovalAction {
    /// The file holds no managed group.
    Unchanged,
    /// Nothing else is left and no backup exists: delete the file.
    RemoveFile,
    /// Write the remaining groups.
    Write(Vec<JsonValue>),
}

/// Removing the managed groups from an existing file.
pub fn removal_action(existing: &Vec<JsonValue>, backup_exists: bool) -> (r: RemovalAction)
    ensures
        match r {
            RemovalAction::Unchanged => user_groups(items_view(existing@)) == items_view(existing@),
            RemovalAction::RemoveFile => user_groups(items_view(existing@)) != items_view(existing@)
                && user_groups(items_view(existing@)).len() == 0 && !backup_exists,
            RemovalAction::Write(v) => user_groups(items_view(existing@)) != items_view(existing@)
                && items_view(v@) == user_groups(items_view(existing@))
                && (user_groups(items_view(existing@)).len() > 0 || backup_exists),
        },
{
    let unmanaged = unmanaged_groups(existing);
    if items_equal(&unmanaged, existing) {
        return RemovalAction::Unchanged;
    }
    proof {
        lemma_items_view(unmanaged@);
    }
    if unmanaged.len() == 0 && !backup_exists {
        return RemovalAction::RemoveFile;
    }
    RemovalAction::Write(unmanaged)
}

/// `(id, path)` of the store's custom targets.
pub open spec fn custom_pairs(store: CopilotByokStore) -> Seq<(Seq<char>, Seq<char>)> {
    store.custom_targets@.map_values(|t: crate::store::CopilotByokCustomTarget| (t.id@, t.language_models_path@))
}

pub fn custom_target_pairs(store: &CopilotByokStore) -> (r: Vec<(String, String)>)
    ensures
        pairs_view(r@) == custom_pairs(*store),
{
    let mut out: Vec<(String, String)> = Vec::new();
    let n = store.custom_targets.len();
    let mut i: usize = 0;
    while i < n
        invariant
            n == store.custom_targets@.len(),
            i <= n,
            out@.len() == i,
            forall|j: int| 0 <= j < i ==> (#[trigger] out@[j].0@, out@[j].1@) == (store.custom_targets@[j].id@, store.custom_targets@[j].language_models_path@),
        decreases n - i,
    {
        out.push((store.custom_targets[i].id.clone(), store.custom_targets[i].language_models_path.clone()));
        i = i + 1;
    }
    assert(pairs_view(out@) =~= custom_pairs(*store));
    out
}

/// The selection in effect (see [`effective_selection`]).
pub fn effective_selected_target_ids(store: &CopilotByokStore, detected: &Vec<VsCodeProfileTarget>) -> (r: Vec<String>)
    ensures
        strs(r@) == effective_selection(store.targets_initialized, strs(store.selected_target_ids@), targets_view(detected@)),
{
    effective_ids(store.targets_initialized, &store.selected_target_ids, detected)
}

/// The selection in effect, restricted to targets that exist here.
pub open spec fn available_selection(store: CopilotByokStore, detected: Seq<TargetView>) -> Seq<Seq<char>> {
    keep_ids(
        effective_selection(store.targets_initialized, strs(store.selected_target_ids@), detected),
        available_ids(detected, custom_pairs(store)),
    )
}

/// The selection in effect, restricted to targets that exist here.
pub fn available_selected_target_ids(store: &CopilotByokStore, detected: &Vec<VsCodeProfileTarget>) -> (r: Vec<String>)
    ensures
        strs(r@) == available_selection(*store, targets_view(detected@)),
{
    let custom = custom_target_pairs(store);
    let avail = available(detected, &custom);
    let eff = effective_selected_target_ids(store, detected);
    retain_ids(&eff, &avail)
}

/// Resolving ids to paths; an unknown id is refused.
pub open spec fn resolve_paths_spec(store: CopilotByokStore, detected: Seq<TargetView>, ids: Seq<Seq<char>>) -> Result<Seq<(Seq<char>, Seq<char>)>, ErrView> {
    match resolve_spec(path_pairs(detected, custom_pairs(store)), ids) {
        Ok(v) => Ok(v),
        Err(id) => Err(ErrView::InvalidInput("Unknown or unavailable Copilot BYOK target: "@ + id)),
    }
}

/// Paths of the requested targets, each id once.
pub fn resolve_target_paths(store: &CopilotByokStore, detected: &Vec<VsCodeProfileTarget>, ids: &Vec<String>) -> (r: Result<Vec<(String, String)>, AppError>)
    ensures
        match r {
            Ok(v) => resolve_paths_spec(*store, targets_view(detected@), strs(ids@)) == Ok::<Seq<(Seq<char>, Seq<char>)>, ErrView>(pairs_view(v@)),
            Err(e) => resolve_paths_spec(*store, targets_view(detected@), strs(ids@)) == Err::<Seq<(Seq<char>, Seq<char>)>, ErrView>(e@),
        },
{
    let custom = custom_target_pairs(store);
    let pairs = target_paths(detected, &custom);
    match resolve(&pairs, ids) {
        Ok(v) => Ok(v),
        Err(id) => Err(AppError::InvalidInput("Unknown or unavailable Copilot BYOK target: ".to_string().concat(id.as_str()))),
    }
}

/// Models VS Code lists across the catalog.
pub open spec fn catalog_model_count(gs: Seq<CopilotByokGroup>) -> nat
    decreases gs.len(),
{
    if gs.len() == 0 {
        0
    } else {
        catalog_model_count(gs.drop_last()) + if gs.last().enabled { count_enabled(gs.last().models@) } else { 0 }
    }
}

/// The number of models across the catalog (saturating at the largest
/// `usize`).
pub fn managed_model_count(groups: &Vec<CopilotByokGroup>) -> (r: usize)
    ensures
        r as nat == if catalog_model_count(groups@) <= usize::MAX { catalog_model_count(groups@) } else { usize::MAX as nat },
{
    let mut total: usize = 0;
    let mut saturated = false;
    let n = groups.len();
    let mut i: usize = 0;
    while i < n
        invariant
            n == groups@.len(),
            i <= n,
            !saturated ==> total as nat == catalog_model_count(groups@.take(i as int)),
            saturated ==> total == usize::MAX && catalog_model_count(groups@.take(i as int)) >= usize::MAX,
        decreases n - i,
    {
        assert(groups@.take(i + 1).drop_last() =~= groups@.take(i as int));
        assert(groups@.take(i + 1).last() == groups@[i as int]);
        let c = groups[i].enabled_model_count();
        if !saturated {
            if total > usize::MAX - c {
                total = usize::MAX;
                saturated = true;
            } else {
                total = total + c;
            }
        }
        i = i + 1;
    }
    assert(groups@.take(n as int) =~= groups@);
    total
}

/// What syncing writes: the targets and the number of listed models.
#[derive(Debug)]
pub struct SyncPlan {
    pub target_ids: Vec<String>,
    pub targets: Vec<(String, String)>,
    pub managed_model_count: usize,
}

/// Plans writing the catalog into the selection in effect: refused when
/// nothing is selected or a selected id names no target. For each target
/// the caller reads the file and writes [`merge_update`]'s result.
pub fn sync_store(store: &CopilotByokStore, detected: &Vec<VsCodeProfileTarget>) -> (r: Result<SyncPlan, AppError>)
    ensures
        match r {
            Ok(plan) => {
                let ids = effective_selection(store.targets_initialized, strs(store.selected_target_ids@), targets_view(detected@));
                &&& strs(plan.target_ids@) == ids
                &&& ids.len() > 0
                &&& resolve_paths_spec(*store, targets_view(detected@), ids) == Ok::<Seq<(Seq<char>, Seq<char>)>, ErrView>(pairs_view(plan.targets@))
                &&& plan.managed_model_count as nat == if catalog_model_count(store.groups@) <= usize::MAX { catalog_model_count(store.groups@) } else { usize::MAX as nat }
            },
            Err(e) => {
                let ids = effective_selection(store.targets_initialized, strs(store.selected_target_ids@), targets_view(detected@));
                ||| (ids.len() == 0 && e@ == ErrView::InvalidInput("No VS Code profile is selected for Copilot BYOK sync"@))
                ||| (ids.len() > 0 && resolve_paths_spec(*store, targets_view(detected@), ids) == Err::<Seq<(Seq<char>, Seq<char>)>, ErrView>(e@))
            },
        },
{
    let target_ids = effective_selected_target_ids(store, detected);
    if target_ids.len() == 0 {
        return Err(AppError::InvalidInput("No VS Code profile is selected for Copilot BYOK sync".to_string()));
    }
    let targets = resolve_target_paths(store, detected, &target_ids)?;
    let count = managed_model_count(&store.groups);
    Ok(SyncPlan { target_ids, targets, managed_model_count: count })
}

/// The targets a removal touches: the requested ones, or the selection in
/// effect when none are requested; resolved to paths.
pub fn remove_managed_groups(store: &CopilotByokStore, detected: &Vec<VsCodeProfileTarget>, requested_ids: Option<Vec<String>>) -> (r: Result<(Vec<String>, Vec<(String, String)>), AppError>)
    ensures
        ({
            let ids = match requested_ids {
                Some(v) => if v@.len() > 0 { strs(v@) } else { effective_selection(store.targets_initialized, strs(store.selected_target_ids@), targets_view(detected@)) },
                None => effective_selection(store.targets_initialized, strs(store.selected_target_ids@), targets_view(detected@)),
            };
            match r {
                Ok((tids, paths)) => strs(tids@) == ids && resolve_paths_spec(*store, targets_view(detected@), ids) == Ok::<Seq<(Seq<char>, Seq<char>)>, ErrView>(pairs_view(paths@)),
                Err(e) => resolve_paths_spec(*store, targets_view(detected@), ids) == Err::<Seq<(Seq<char>, Seq<char>)>, ErrView>(e@),
            }
        }),
{
    let target_ids = match requested_ids {
        Some(v) => {
            if v.len() > 0 {
                v
            } else {
                effective_selected_target_ids(store, detected)
            }
        },
        None => effective_selected_target_ids(store, detected),
    };
    let targets = resolve_target_paths(store, detected, &target_ids)?;
    Ok((target_ids, targets))
}

/// Restoring a target's backup: the target's path, where the caller copies
/// the backup back (or, when there is none, removes the managed groups).
pub fn restore_backup(store: &CopilotByokStore, detected: &Vec<VsCodeProfileTarget>, target_id: &str) -> (r: Result<String, AppError>)
    ensures
        match r {
            Ok(path) => resolve_paths_spec(*store, targets_view(detected@), seq![target_id@]) matches Ok(v) && v.len() > 0 && v[0].1 == path@,
            Err(e) => resolve_paths_spec(*store, targets_view(detected@), seq![target_id@]) == Err::<Seq<(Seq<char>, Seq<char>)>, ErrView>(e@),
        },
{
    let mut requested: Vec<String> = Vec::new();
    requested.push(target_id.to_string());
    assert(strs(requested@) =~= seq![target_id@]);
    let targets = resolve_target_paths(store, detected, &requested)?;
    if targets.len() == 0 {
        proof {
            let ids = seq![target_id@];
            assert(ids[0] == target_id@);
            assert(!Set::<Seq<char>>::empty().contains(ids[0]));
            assert(pairs_view(targets@).len() == 0);
        }
        return Err(AppError::InvalidInput("Copilot BYOK target is required".to_string()));
    }
    assert(pairs_view(targets@)[0] == (targets@[0].0@, targets@[0].1@));
    Ok(targets[0].1.clone())
}

/// Every group a sync writes is recognized as managed, so the next sync or
/// removal finds it again.
pub proof fn lemma_catalog_group_is_managed(g: CopilotByokGroup)
    ensures
        is_managed_group_spec(language_model_group_json(g)),
{
    let models = enabled_models_json(g.models@, g.url@, effective_headers(g));
    let e0 = insert_all(Seq::empty(), entries_view(g.extra@));
    let e1 = entries_insert(e0, "name"@, JsonView::Str(g.name@));
    let e2 = entries_insert(e1, "vendor"@, JsonView::Str("customendpoint"@));
    let e3 = entries_insert(e2, "apiKey"@, JsonView::Str(g.api_key@));
    let e4 = entries_insert(e3, "apiType"@, JsonView::Str(g.api_type@));
    let e5 = entries_insert(e4, "ccSwitchManaged"@, JsonView::Bool(true));
    let e6 = entries_insert(e5, "ccSwitchGroupId"@, JsonView::Str(g.id@));
    reveal_strlit("vendor");
    reveal_strlit("apiKey");
    reveal_strlit("apiType");
    reveal_strlit("ccSwitchManaged");
    reveal_strlit("ccSwitchGroupId");
    reveal_strlit("models");
    assert("vendor"@ != "apiKey"@) by { assert("vendor"@[0] != "apiKey"@[0]); }
    assert("vendor"@ != "apiType"@) by { assert("vendor"@[0] != "apiType"@[0]); }
    assert("vendor"@ != "ccSwitchManaged"@) by { assert("vendor"@[0] != "ccSwitchManaged"@[0]); }
    assert("vendor"@ != "ccSwitchGroupId"@) by { assert("vendor"@[0] != "ccSwitchGroupId"@[0]); }
    assert("vendor"@ != "models"@) by { assert("vendor"@[0] != "models"@[0]); }
    assert("ccSwitchManaged"@ != "ccSwitchGroupId"@) by { assert("ccSwitchManaged"@[8] != "ccSwitchGroupId"@[8]); }
    assert("ccSwitchManaged"@ != "models"@) by { assert("ccSwitchManaged"@[0] != "models"@[0]); }
    lemma_get_after_insert(e1, "vendor"@, JsonView::Str("customendpoint"@), "vendor"@);
    lemma_get_after_insert(e2, "apiKey"@, JsonView::Str(g.api_key@), "vendor"@);
    lemma_get_after_insert(e3, "apiType"@, JsonView::Str(g.api_type@), "vendor"@);
    lemma_get_after_insert(e4, "ccSwitchManaged"@, JsonView::Bool(true), "vendor"@);
    lemma_get_after_insert(e5, "ccSwitchGroupId"@, JsonView::Str(g.id@), "vendor"@);
    lemma_get_after_insert(e6, "models"@, JsonView::Array(models), "vendor"@);
    lemma_get_after_insert(e4, "ccSwitchManaged"@, JsonView::Bool(true), "ccSwitchManaged"@);
    lemma_get_after_insert(e5, "ccSwitchGroupId"@, JsonView::Str(g.id@), "ccSwitchManaged"@);
    lemma_get_after_insert(e6, "models"@, JsonView::Array(models), "ccSwitchManaged"@);
    let v = language_model_group_json(g);
    assert(v == JsonView::Object(entries_insert(e6, "models"@, JsonView::Array(models))));
}

proof fn lemma_user_groups_concat(a: Seq<JsonView>, b: Seq<JsonView>)
    ensures
        user_groups(a + b) == user_groups(a) + user_groups(b),
    decreases b.len(),
{
    if b.len() == 0 {
        assert(a + b =~= a);
        assert(user_groups(a) + user_groups(b) =~= user_groups(a));
    } else {
        lemma_user_groups_concat(a, b.drop_last());
        assert((a + b).drop_last() =~= a + b.drop_last());
        assert((a + b).last() == b.last());
        if !is_managed_group_spec(b.last()) {
            assert(user_groups(a) + user_groups(b) =~= (user_groups(a) + user_groups(b.drop_last())).push(b.last()));
        }
    }
}

proof fn lemma_no_user_group_in_catalog(gs: Seq<CopilotByokGroup>)
    ensures
        user_groups(catalog_groups(gs)) == Seq::<JsonView>::empty(),
    decreases gs.len(),
{
    if gs.len() > 0 {
        lemma_no_user_group_in_catalog(gs.drop_last());
        if gs.last().enabled {
            let p = catalog_groups(gs.drop_last());
            let x = language_model_group_json(gs.last());
            lemma_catalog_group_is_managed(gs.last());
            assert(p.push(x).drop_last() =~= p);
        }
    }
}

proof fn lemma_user_groups_stable(gs: Seq<JsonView>)
    ensures
        user_groups(user_groups(gs)) == user_groups(gs),
    decreases gs.len(),
{
    if gs.len() > 0 {
        lemma_user_groups_stable(gs.drop_last());
        let p = user_groups(gs.drop_last());
        if !is_managed_group_spec(gs.last()) {
            assert(p.push(gs.last()).drop_last() =~= p);
        }
    }
}

/// A sync keeps the user's own groups: the groups of a synced file that
/// this library does not manage are those of the file before, in order.
pub proof fn lemma_sync_keeps_user_groups(existing: Seq<JsonView>, gs: Seq<CopilotByokGroup>)
    ensures
        user_groups(merged_spec(existing, gs)) == user_groups(existing),
{
    lemma_user_groups_concat(user_groups(existing), catalog_groups(gs));
    lemma_no_user_group_in_catalog(gs);
    lemma_user_groups_stable(existing);
    assert(user_groups(user_groups(existing)) + Seq::<JsonView>::empty() =~= user_groups(existing));
}

/// Syncing is idempotent: syncing a synced file with the same catalog
/// writes the same groups again (so a second sync changes nothing).
pub proof fn lemma_sync_idempotent(existing: Seq<JsonView>, gs: Seq<CopilotByokGroup>)
    ensures
        merged_spec(merged_spec(existing, gs), gs) == merged_spec(existing, gs),
{
    lemma_sync_keeps_user_groups(existing, gs);
}

/// A second sync writes nothing: whatever a target held, once a sync has
/// written (or left) its groups, syncing again with the same catalog leaves
/// the file unchanged. With the store and the detected targets unchanged,
/// [`sync_store`] plans the same targets again (its result is a function of
/// them), so the second sync changes no target.
pub proof fn lemma_second_sync_writes_nothing(existing: Seq<JsonView>, gs: Seq<CopilotByokGroup>)
    ensures
        sync_write(match sync_write(existing, gs) {
            Some(m) => m,
            None => existing,
        }, gs) is None,
{
    lemma_sync_idempotent(existing, gs);
}

/// Removing the managed groups undoes a sync: for a file that held no
/// managed group, removing them after a sync gives the file back as it was.
pub proof fn lemma_removal_undoes_sync(existing: Seq<JsonView>, gs: Seq<CopilotByokGroup>)
    requires
        user_groups(existing) == existing,
    ensures
        user_groups(merged_spec(existing, gs)) == existing,
{
    lemma_sync_keeps_user_groups(existing, gs);
}

} // verus!
