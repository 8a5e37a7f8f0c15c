//! The device-local store: selected VS Code targets, custom targets, the
//! legacy model list, the provider catalog and the Copilot CLI state.

use vstd::prelude::*;
use vstd::string::StrSliceExecFns;
use vstd::string::StringExecFns;
use crate::bridge::{opt_str, sha256_hex, sha256_hex_of, path_file_name, path_is_absolute, path_join, absolute_shape, plain_name, two_sep_start, joined, slash_only, final_name_evident, last_segment};
use crate::cli::{CopilotCliConfig, CliConfigView, disabled_config};
use crate::error::{AppError, ErrView};
use crate::model::{CopilotByokGroup, strs, keep_first_nonempty, trimmed_all, clean_list, contains_str};
use crate::import::{ImportedModel, imported_normalized, imported_problem};
use crate::text::{str_eq, trim, trim_spec, contains_sub};
use crate::json::{JsonValue, JsonView};

verus! {

/// File name of the store in the application's configuration directory.
pub const STORE_FILE: &'static str = "copilot-byok.json";

/// Current store format version.
pub const STORE_VERSION: u32 = 1;

/// Most selected or custom targets a store may hold.
pub const MAX_TARGETS: usize = 64;

/// Serde default of the store version.
pub fn default_store_version() -> (r: u32)
    ensures
        r == STORE_VERSION,
{
    STORE_VERSION
}

/// A `chatLanguageModels.json` path the user added by hand.
#[derive(Debug, Clone, PartialEq, Eq)]
pub struct CopilotByokCustomTarget {
    pub id: String,
    pub name: String,
    pub language_models_path: String,
}

/// `"custom:"` followed by the first 12 hexadecimal digits of the SHA-256 of
/// the path.
pub open spec fn custom_target_id_spec(path: Seq<char>) -> Seq<char> {
    "custom:"@ + sha256_hex_of(path).take(12)
}

/// Stable id of a custom target path.
pub fn custom_target_id(path: &str) -> (r: String)
    ensures
        r@ == custom_target_id_spec(path@),
{
    let digest = sha256_hex(path);
    let prefix = digest.as_str().substring_char(0, 12);
    "custom:".to_string().concat(prefix)
}

/// Why a path is not acceptable as a custom target, given its final
/// component and whether it is absolute.
pub open spec fn language_models_path_problem(file_name: Option<Seq<char>>, absolute: bool) -> Option<Seq<char>> {
    if file_name != Some("chatLanguageModels.json"@) {
        Some("Custom Copilot BYOK target must end with chatLanguageModels.json"@)
    } else if !absolute {
        Some("Custom Copilot BYOK target must be an absolute path"@)
    } else {
        None
    }
}

/// Decides a custom target path from its final component and absoluteness.
pub fn check_language_models_path(file_name: &Option<String>, absolute: bool) -> (r: Result<(), AppError>)
    ensures
        r is Ok <==> language_models_path_problem(opt_str(*file_name), absolute) is None,
        r matches Err(e) ==> e@ == ErrView::InvalidInput(language_models_path_problem(opt_str(*file_name), absolute)->0),
{
    let named = match file_name {
        Some(n) => str_eq(n.as_str(), "chatLanguageModels.json"),
        None => false,
    };
    if !named {
        return Err(AppError::InvalidInput("Custom Copilot BYOK target must end with chatLanguageModels.json".to_string()));
    }
    if !absolute {
        return Err(AppError::InvalidInput("Custom Copilot BYOK target must be an absolute path".to_string()));
    }
    Ok(())
}

/// The two refusals of a custom target path.
pub open spec fn path_refusal(e: ErrView) -> bool {
    ||| e == ErrView::InvalidInput("Custom Copilot BYOK target must end with chatLanguageModels.json"@)
    ||| e == ErrView::InvalidInput("Custom Copilot BYOK target must be an absolute path"@)
}

/// A custom target must be an absolute path to a `chatLanguageModels.json`.
/// The final component and absoluteness come from `std::path::Path`, which
/// decides them by the platform's rules.
pub fn validate_language_models_path(path: &str) -> (r: Result<(), AppError>)
    ensures
        r matches Err(e) ==> path_refusal(e@),
        !contains_sub(path@, "chatLanguageModels.json"@) ==> (r matches Err(e)
            && e@ == ErrView::InvalidInput("Custom Copilot BYOK target must end with chatLanguageModels.json"@)),
        !absolute_shape(path@) ==> r is Err,
        slash_only(path@) && final_name_evident(path@) && last_segment(path@) != "chatLanguageModels.json"@ ==> (r matches Err(e)
            && e@ == ErrView::InvalidInput("Custom Copilot BYOK target must end with chatLanguageModels.json"@)),
        slash_only(path@) && final_name_evident(path@) && last_segment(path@) == "chatLanguageModels.json"@ && !absolute_shape(path@)
            ==> (r matches Err(e) && e@ == ErrView::InvalidInput("Custom Copilot BYOK target must be an absolute path"@)),
{
    let file_name = path_file_name(path);
    let absolute = path_is_absolute(path);
    check_language_models_path(&file_name, absolute)
}

/// Custom target for `path` when the path is valid: its hashed id, the
/// trimmed name or `Custom VS Code profile`, and the path.
pub open spec fn custom_target_from(path: Seq<char>, name: Option<Seq<char>>) -> (Seq<char>, Seq<char>, Seq<char>) {
    (custom_target_id_spec(path), match name {
        Some(n) => if trim_spec(n).len() > 0 {
            trim_spec(n)
        } else {
            "Custom VS Code profile"@
        },
        None => "Custom VS Code profile"@,
    }, path)
}

impl CopilotByokCustomTarget {
    pub open spec fn view_triple(self) -> (Seq<char>, Seq<char>, Seq<char>) {
        (self.id@, self.name@, self.language_models_path@)
    }

    /// A custom target for a `chatLanguageModels.json` path, named by `name`
    /// (trimmed) or `Custom VS Code profile`.
    pub fn from_path(path: &str, name: Option<String>) -> (r: Result<Self, AppError>)
        ensures
            r matches Ok(t) ==> t.view_triple() == custom_target_from(path@, opt_str(name)),
            r matches Err(e) ==> path_refusal(e@),
            !contains_sub(path@, "chatLanguageModels.json"@) ==> (r matches Err(e)
                && e@ == ErrView::InvalidInput("Custom Copilot BYOK target must end with chatLanguageModels.json"@)),
            !absolute_shape(path@) ==> r is Err,
            slash_only(path@) && final_name_evident(path@) && last_segment(path@) != "chatLanguageModels.json"@ ==> (r matches Err(e)
                && e@ == ErrView::InvalidInput("Custom Copilot BYOK target must end with chatLanguageModels.json"@)),
            slash_only(path@) && final_name_evident(path@) && last_segment(path@) == "chatLanguageModels.json"@ && !absolute_shape(path@)
                ==> (r matches Err(e) && e@ == ErrView::InvalidInput("Custom Copilot BYOK target must be an absolute path"@)),
    {
        validate_language_models_path(path)?;
        let id = custom_target_id(path);
        let label = match &name {
            Some(n) => {
                let t = trim(n.as_str());
                if t.unicode_len() > 0 {
                    t
                } else {
                    "Custom VS Code profile".to_string()
                }
            },
            None => "Custom VS Code profile".to_string(),
        };
        Ok(CopilotByokCustomTarget { id, name: label, language_models_path: path.to_string() })
    }
}

/// Path of the store in the application's configuration directory:
/// [`STORE_FILE`] joined to the directory.
pub fn store_path(config_dir: &str) -> (r: String)
    ensures
        !two_sep_start(config_dir@) ==> joined(config_dir@, STORE_FILE@, r@),
{
    proof {
        reveal_strlit("copilot-byok.json");
        assert(plain_name(STORE_FILE@));
    }
    path_join(config_dir, STORE_FILE)
}

/// The device-local store.
#[derive(Debug)]
pub struct CopilotByokStore {
    pub version: u32,
    pub selected_target_ids: Vec<String>,
    /// Whether the user has chosen targets (an empty choice stays empty).
    pub targets_initialized: bool,
    pub custom_targets: Vec<CopilotByokCustomTarget>,
    /// Models of the single-list format, kept for migration.
    pub models: Vec<ImportedModel>,
    /// The provider catalog, loaded from the portable database at run time.
    pub groups: Vec<CopilotByokGroup>,
    pub cli: CopilotCliConfig,
}

impl CopilotByokStore {
    /// The empty store of the current version.
    pub fn default() -> (r: CopilotByokStore)
        ensures
            r.version == STORE_VERSION,
            r.selected_target_ids@.len() == 0,
            !r.targets_initialized,
            r.custom_targets@.len() == 0,
            r.models@.len() == 0,
            r.groups@.len() == 0,
            r.cli@ == disabled_config(),
    {
        CopilotByokStore {
            version: STORE_VERSION,
            selected_target_ids: Vec::new(),
            targets_initialized: false,
            custom_targets: Vec::new(),
            models: Vec::new(),
            groups: Vec::new(),
            cli: CopilotCliConfig::default(),
        }
    }
}

pub open spec fn customs_view(ts: Seq<CopilotByokCustomTarget>) -> Seq<(Seq<char>, Seq<char>, Seq<char>)> {
    ts.map_values(|t: CopilotByokCustomTarget| t.view_triple())
}

/// Custom targets whose trimmed id is not blank and not taken by an earlier
/// one, with id, name and path trimmed.
pub open spec fn clean_customs(ts: Seq<CopilotByokCustomTarget>) -> Seq<(Seq<char>, Seq<char>, Seq<char>)>
    decreases ts.len(),
{
    if ts.len() == 0 {
        Seq::empty()
    } else {
        let p = clean_customs(ts.drop_last());
        let id = trim_spec(ts.last().id@);
        if id.len() == 0 || p.map_values(|t: (Seq<char>, Seq<char>, Seq<char>)| t.0).contains(id) {
            p
        } else {
            p.push((id, trim_spec(ts.last().name@), trim_spec(ts.last().language_models_path@)))
        }
    }
}

/// The first model that is invalid or repeats an earlier id.
pub open spec fn store_models_problem(ms: Seq<ImportedModel>, seen: Set<Seq<char>>) -> Option<Seq<char>>
    decreases ms.len(),
{
    if ms.len() == 0 {
        None
    } else if imported_problem(ms[0]@) is Some {
        imported_problem(ms[0]@)
    } else if seen.contains(ms[0].id@) {
        Some("Duplicate Copilot BYOK model id: "@ + ms[0].id@)
    } else {
        store_models_problem(ms.skip(1), seen.insert(ms[0].id@))
    }
}

pub const TARGET_LIMIT_MESSAGE: &'static str = "Copilot BYOK supports at most 64 selected or custom targets";

fn customs_ids_contain(ts: &Vec<CopilotByokCustomTarget>, id: &str) -> (r: bool)
    ensures
        r == customs_view(ts@).map_values(|t: (Seq<char>, Seq<char>, Seq<char>)| t.0).contains(id@),
{
    let ghost ids = customs_view(ts@).map_values(|t: (Seq<char>, Seq<char>, Seq<char>)| t.0);
    let n = ts.len();
    let mut i: usize = 0;
    while i < n
        invariant
            n == ts@.len(),
            ids == customs_view(ts@).map_values(|t: (Seq<char>, Seq<char>, Seq<char>)| t.0),
            i <= n,
            forall|k: int| 0 <= k < i ==> ids[k] != id@,
        decreases n - i,
    {
        assert(ids[i as int] == ts@[i as int].id@);
        if str_eq(ts[i].id.as_str(), id) {
            return true;
        }
        i = i + 1;
    }
    false
}

fn clean_custom_targets(ts: &Vec<CopilotByokCustomTarget>) -> (r: Vec<CopilotByokCustomTarget>)
    ensures
        customs_view(r@) == clean_customs(ts@),
{
    let mut out: Vec<CopilotByokCustomTarget> = Vec::new();
    let n = ts.len();
    let mut i: usize = 0;
    assert(customs_view(out@) =~= clean_customs(ts@.take(0)));
    while i < n
        invariant
            n == ts@.len(),
            i <= n,
            customs_view(out@) == clean_customs(ts@.take(i as int)),
        decreases n - i,
    {
        assert(ts@.take(i + 1).drop_last() =~= ts@.take(i as int));
        assert(ts@.take(i + 1).last() == ts@[i as int]);
        let id = trim(ts[i].id.as_str());
        if id.unicode_len() > 0 && !customs_ids_contain(&out, id.as_str()) {
            let t = CopilotByokCustomTarget {
                id,
                name: trim(ts[i].name.as_str()),
                language_models_path: trim(ts[i].language_models_path.as_str()),
            };
            let ghost before = customs_view(out@);
            out.push(t);
            assert(customs_view(out@) =~= before.push(t.view_triple()));
        }
        i = i + 1;
    }
    assert(ts@.take(n as int) =~= ts@);
    out
}

fn store_models_check(ms: &Vec<ImportedModel>) -> (r: Result<(), AppError>)
    ensures
        match r {
            Ok(()) => store_models_problem(ms@, Set::empty()) is None,
            Err(e) => store_models_problem(ms@, Set::empty()) matches Some(m) && e@ == ErrView::InvalidInput(m),
        },
{
    let mut seen: Vec<String> = Vec::new();
    let n = ms.len();
    let mut i: usize = 0;
    assert(ms@.skip(0) =~= ms@);
    assert(strs(seen@).to_set() =~= Set::<Seq<char>>::empty());
    while i < n
        invariant
            n == ms@.len(),
            i <= n,
            store_models_problem(ms@, Set::empty()) == store_models_problem(ms@.skip(i as int), strs(seen@).to_set()),
        decreases n - i,
    {
        let ghost rest = ms@.skip(i as int);
        assert(rest[0] == ms@[i as int]);
        ms[i].validate()?;
        if contains_str(&seen, ms[i].id.as_str()) {
            let m = "Duplicate Copilot BYOK model id: ".to_string().concat(ms[i].id.as_str());
            return Err(AppError::InvalidInput(m));
        }
        let ghost before = strs(seen@);
        seen.push(ms[i].id.clone());
        proof {
            assert(strs(seen@) =~= before.push(ms@[i as int].id@));
            before.lemma_push_to_set_commute(ms@[i as int].id@);
            assert(rest.skip(1) =~= ms@.skip(i + 1));
        }
        i = i + 1;
    }
    Ok(())
}

/// `n` is what normalizing `o` gives when it succeeds: the version set, the
/// selected ids trimmed without blanks and repeats, the custom targets
/// cleaned (see [`clean_customs`]), at most 64 of each, every model
/// normalized and valid with unique ids; targets flag, catalog and CLI state
/// untouched.
pub open spec fn store_normalized(o: CopilotByokStore, n: CopilotByokStore) -> bool {
    normalized_parts(o, o.selected_target_ids@, o.custom_targets@, o.models@, n)
}

/// [`store_normalized`] of `o` with its selection, custom targets and models
/// replaced by the given ones.
pub open spec fn normalized_parts(
    o: CopilotByokStore,
    selected: Seq<String>,
    customs: Seq<CopilotByokCustomTarget>,
    models: Seq<ImportedModel>,
    n: CopilotByokStore,
) -> bool {
    &&& normalized_core(selected, customs, models, n)
    &&& n.targets_initialized == o.targets_initialized
    &&& n.groups == o.groups
    &&& n.cli == o.cli
}

/// The normalized selection, custom targets and models.
pub open spec fn normalized_core(
    selected: Seq<String>,
    customs: Seq<CopilotByokCustomTarget>,
    models: Seq<ImportedModel>,
    n: CopilotByokStore,
) -> bool {
    &&& n.version == STORE_VERSION
    &&& strs(n.selected_target_ids@) == keep_first_nonempty(trimmed_all(selected))
    &&& customs_view(n.custom_targets@) == clean_customs(customs)
    &&& n.selected_target_ids@.len() <= MAX_TARGETS
    &&& n.custom_targets@.len() <= MAX_TARGETS
    &&& n.models@.len() == models.len()
    &&& forall|i: int| 0 <= i < models.len() ==> imported_normalized(#[trigger] models[i]@, n.models@[i]@)
    &&& store_models_problem(n.models@, Set::empty()) is None
}

/// `ms` is the models `models` normalized one by one.
pub open spec fn models_normalized(models: Seq<ImportedModel>, ms: Seq<ImportedModel>) -> bool {
    &&& ms.len() == models.len()
    &&& forall|i: int| 0 <= i < models.len() ==> imported_normalized(#[trigger] models[i]@, ms[i]@)
}

/// More than [`MAX_TARGETS`] selected or custom targets after cleaning.
pub open spec fn over_limit(selected: Seq<String>, customs: Seq<CopilotByokCustomTarget>) -> bool {
    keep_first_nonempty(trimmed_all(selected)).len() > MAX_TARGETS || clean_customs(customs).len() > MAX_TARGETS
}

/// The ways normalizing a store with this selection, these custom targets
/// and these models fails: a custom target whose path the platform refuses,
/// too many targets, or (within the limits) the first problem of the
/// normalized models.
pub open spec fn normalize_failure(selected: Seq<String>, customs: Seq<CopilotByokCustomTarget>, models: Seq<ImportedModel>, e: ErrView) -> bool {
    ||| clean_customs(customs).len() > 0 && path_refusal(e)
    ||| over_limit(selected, customs) && e == ErrView::InvalidInput(TARGET_LIMIT_MESSAGE@)
    ||| !over_limit(selected, customs) && e is InvalidInput && exists|ms: Seq<ImportedModel>| #[trigger] models_normalized(models, ms)
        && store_models_problem(ms, Set::empty()) == Some(e.message())
}

/// Inputs on which normalizing succeeds whatever fresh ids it draws: no
/// custom target (whose path the platform would check), the limits, and
/// models that are valid once normalized.
pub open spec fn normalize_owed(selected: Seq<String>, customs: Seq<CopilotByokCustomTarget>, models: Seq<ImportedModel>) -> bool {
    &&& clean_customs(customs).len() == 0
    &&& !over_limit(selected, customs)
    &&& forall|ms: Seq<ImportedModel>| #[trigger] models_normalized(models, ms) ==> store_models_problem(ms, Set::empty()) is None
}

/// Normalizes and checks the store: ids, custom targets (each path must be
/// an absolute `chatLanguageModels.json`), the target limits and the models.
pub fn normalize_store(store: &mut CopilotByokStore) -> (r: Result<(), AppError>)
    ensures
        r is Ok ==> store_normalized(*old(store), *final(store)),
        r matches Err(e) ==> normalize_failure(old(store).selected_target_ids@, old(store).custom_targets@, old(store).models@, e@),
        over_limit(old(store).selected_target_ids@, old(store).custom_targets@) ==> r is Err,
        normalize_owed(old(store).selected_target_ids@, old(store).custom_targets@, old(store).models@) ==> r is Ok,
{
    let ghost o = *store;
    store.version = STORE_VERSION;
    store.selected_target_ids = clean_list(&store.selected_target_ids);
    store.custom_targets = clean_custom_targets(&store.custom_targets);
    let n = store.custom_targets.len();
    let mut i: usize = 0;
    assert(customs_view(store.custom_targets@).len() == store.custom_targets@.len());
    while i < n
        invariant
            n == store.custom_targets@.len(),
            i <= n,
            customs_view(store.custom_targets@) == clean_customs(o.custom_targets@),
            customs_view(store.custom_targets@).len() == n,
            o == *old(store),
        decreases n - i,
    {
        match validate_language_models_path(store.custom_targets[i].language_models_path.as_str()) {
            Ok(()) => {},
            Err(e) => {
                assert(customs_view(store.custom_targets@).len() > 0);
                return Err(e);
            },
        }
        i = i + 1;
    }
    if store.selected_target_ids.len() > MAX_TARGETS || store.custom_targets.len() > MAX_TARGETS {
        assert(customs_view(store.custom_targets@).len() == store.custom_targets@.len());
        return Err(AppError::InvalidInput(TARGET_LIMIT_MESSAGE.to_string()));
    }
    assert(customs_view(store.custom_targets@).len() == store.custom_targets@.len());
    let mut old_models: Vec<ImportedModel> = Vec::new();
    std::mem::swap(&mut old_models, &mut store.models);
    let ghost orig = old_models@;
    let mut out: Vec<ImportedModel> = Vec::new();
    let m = old_models.len();
    let mut k: usize = 0;
    while k < m
        invariant
            m == orig.len(),
            k <= m,
            old_models@ == orig.skip(k as int),
            out@.len() == k,
            forall|j: int| 0 <= j < k ==> imported_normalized(#[trigger] orig[j]@, out@[j]@),
        decreases m - k,
    {
        let mut x = old_models.remove(0);
        assert(x == orig[k as int]);
        x.normalize();
        out.push(x);
        assert(old_models@ =~= orig.skip(k + 1));
        k = k + 1;
    }
    store.models = out;
    assert(models_normalized(o.models@, store.models@));
    match store_models_check(&store.models) {
        Ok(()) => {},
        Err(e) => {
            return Err(e);
        },
    }
    Ok(())
}

/// Choosing the selected targets; the store is then normalized.
pub fn set_selected_targets(store: CopilotByokStore, target_ids: Vec<String>) -> (r: Result<CopilotByokStore, AppError>)
    ensures
        r matches Ok(n) ==> normalized_parts(store, target_ids@, store.custom_targets@, store.models@, n),
        r matches Err(e) ==> normalize_failure(target_ids@, store.custom_targets@, store.models@, e@),
        normalize_owed(target_ids@, store.custom_targets@, store.models@) ==> r is Ok,
{
    let mut store = store;
    store.selected_target_ids = target_ids;
    normalize_store(&mut store)?;
    Ok(store)
}

/// Index of the first custom target with the id.
pub open spec fn custom_position(ts: Seq<CopilotByokCustomTarget>, id: Seq<char>) -> Option<int>
    decreases ts.len(),
{
    if ts.len() == 0 {
        None
    } else if ts[0].id@ == id {
        Some(0)
    } else {
        match custom_position(ts.skip(1), id) {
            Some(i) => Some(i + 1),
            None => None,
        }
    }
}

fn custom_position_exec(ts: &Vec<CopilotByokCustomTarget>, id: &str) -> (r: Option<usize>)
    ensures
        match r {
            Some(i) => custom_position(ts@, id@) == Some(i as int) && i < ts@.len(),
            None => custom_position(ts@, id@) is None,
        },
{
    let n = ts.len();
    let mut i: usize = 0;
    assert(ts@.skip(0) =~= ts@);
    while i < n
        invariant
            n == ts@.len(),
            i <= n,
            custom_position(ts@, id@) == match custom_position(ts@.skip(i as int), id@) {
                Some(k) => Some(k + i),
                None => None::<int>,
            },
        decreases n - i,
    {
        assert(ts@.skip(i as int)[0] == ts@[i as int]);
        assert(ts@.skip(i as int).skip(1) =~= ts@.skip(i + 1));
        if str_eq(ts[i].id.as_str(), id) {
            return Some(i);
        }
        i = i + 1;
    }
    None
}

/// The custom targets with `t` in place of the first with its id, or
/// appended.
pub open spec fn customs_upserted(ts: Seq<CopilotByokCustomTarget>, t: CopilotByokCustomTarget) -> Seq<CopilotByokCustomTarget> {
    match custom_position(ts, t.id@) {
        Some(i) => ts.update(i, t),
        None => ts.push(t),
    }
}

/// The selection with the id appended unless present.
pub open spec fn with_selected(sel: Seq<String>, id: String) -> Seq<String> {
    if strs(sel).contains(id@) {
        sel
    } else {
        sel.push(id)
    }
}

/// Adding (or replacing) a custom target for a `chatLanguageModels.json`
/// path and selecting it; the store is then normalized.
pub fn add_custom_target(store: CopilotByokStore, path: &str, name: Option<String>) -> (r: Result<CopilotByokStore, AppError>)
    ensures
        r matches Ok(n) ==> exists|t: CopilotByokCustomTarget| {
            &&& t.view_triple() == custom_target_from(path@, opt_str(name))
            &&& #[trigger] normalized_parts(store, with_selected(store.selected_target_ids@, t.id), customs_upserted(store.custom_targets@, t), store.models@, n)
        },
        r matches Err(e) ==> path_refusal(e@) || exists|t: CopilotByokCustomTarget| {
            &&& t.view_triple() == custom_target_from(path@, opt_str(name))
            &&& #[trigger] normalize_failure(with_selected(store.selected_target_ids@, t.id), customs_upserted(store.custom_targets@, t), store.models@, e@)
        },
        !contains_sub(path@, "chatLanguageModels.json"@) ==> (r matches Err(e)
            && e@ == ErrView::InvalidInput("Custom Copilot BYOK target must end with chatLanguageModels.json"@)),
        !absolute_shape(path@) ==> r is Err,
{
    let custom = CopilotByokCustomTarget::from_path(path, name)?;
    let ghost t = custom;
    let mut store = store;
    let ghost o = store;
    let id = custom.id.clone();
    match custom_position_exec(&store.custom_targets, custom.id.as_str()) {
        Some(i) => {
            store.custom_targets.set(i, custom);
        },
        None => {
            store.custom_targets.push(custom);
        },
    }
    if !contains_str(&store.selected_target_ids, id.as_str()) {
        store.selected_target_ids.push(id);
    }
    assert(store.selected_target_ids@ =~= with_selected(o.selected_target_ids@, t.id));
    assert(store.custom_targets@ == customs_upserted(o.custom_targets@, t));
    normalize_store(&mut store)?;
    assert(normalized_parts(o, with_selected(o.selected_target_ids@, t.id), customs_upserted(o.custom_targets@, t), o.models@, store));
    Ok(store)
}

/// The custom targets without the id.
pub open spec fn customs_without(ts: Seq<CopilotByokCustomTarget>, id: Seq<char>) -> Seq<CopilotByokCustomTarget>
    decreases ts.len(),
{
    if ts.len() == 0 {
        Seq::empty()
    } else {
        let p = customs_without(ts.drop_last(), id);
        if ts.last().id@ == id {
            p
        } else {
            p.push(ts.last())
        }
    }
}

/// The ids without the given one.
pub open spec fn ids_without(ids: Seq<String>, id: Seq<char>) -> Seq<String>
    decreases ids.len(),
{
    if ids.len() == 0 {
        Seq::empty()
    } else {
        let p = ids_without(ids.drop_last(), id);
        if ids.last()@ == id {
            p
        } else {
            p.push(ids.last())
        }
    }
}

fn remove_customs(ts: Vec<CopilotByokCustomTarget>, id: &str) -> (r: Vec<CopilotByokCustomTarget>)
    ensures
        r@ == customs_without(ts@, id@),
{
    let ghost orig = ts@;
    let mut rest = ts;
    let mut out: Vec<CopilotByokCustomTarget> = Vec::new();
    let n = rest.len();
    let mut i: usize = 0;
    while i < n
        invariant
            n == orig.len(),
            i <= n,
            rest@ == orig.skip(i as int),
            out@ == customs_without(orig.take(i as int), id@),
        decreases n - i,
    {
        let t = rest.remove(0);
        assert(t == orig[i as int]);
        assert(rest@ =~= orig.skip(i + 1));
        assert(orig.take(i + 1).drop_last() =~= orig.take(i as int));
        assert(orig.take(i + 1).last() == t);
        if !str_eq(t.id.as_str(), id) {
            out.push(t);
        }
        i = i + 1;
    }
    assert(orig.take(n as int) =~= orig);
    out
}

/// The ids without the given one.
pub fn remove_id(ids: Vec<String>, id: &str) -> (r: Vec<String>)
    ensures
        r@ == ids_without(ids@, id@),
{
    let ghost orig = ids@;
    let mut rest = ids;
    let mut out: Vec<String> = Vec::new();
    let n = rest.len();
    let mut i: usize = 0;
    while i < n
        invariant
            n == orig.len(),
            i <= n,
            rest@ == orig.skip(i as int),
            out@ == ids_without(orig.take(i as int), id@),
        decreases n - i,
    {
        let t = rest.remove(0);
        assert(t == orig[i as int]);
        assert(rest@ =~= orig.skip(i + 1));
        assert(orig.take(i + 1).drop_last() =~= orig.take(i as int));
        assert(orig.take(i + 1).last() == t);
        if !str_eq(t.as_str(), id) {
            out.push(t);
        }
        i = i + 1;
    }
    assert(orig.take(n as int) =~= orig);
    out
}

/// Removing a custom target and its selection; the store is then
/// normalized.
pub fn remove_custom_target(store: CopilotByokStore, target_id: &str) -> (r: Result<CopilotByokStore, AppError>)
    ensures
        r matches Ok(n) ==> normalized_parts(store, ids_without(store.selected_target_ids@, target_id@), customs_without(store.custom_targets@, target_id@), store.models@, n),
        r matches Err(e) ==> normalize_failure(ids_without(store.selected_target_ids@, target_id@), customs_without(store.custom_targets@, target_id@), store.models@, e@),
        normalize_owed(ids_without(store.selected_target_ids@, target_id@), customs_without(store.custom_targets@, target_id@), store.models@) ==> r is Ok,
{
    let mut store = store;
    let mut ts: Vec<CopilotByokCustomTarget> = Vec::new();
    std::mem::swap(&mut ts, &mut store.custom_targets);
    store.custom_targets = remove_customs(ts, target_id);
    let mut ids: Vec<String> = Vec::new();
    std::mem::swap(&mut ids, &mut store.selected_target_ids);
    store.selected_target_ids = remove_id(ids, target_id);
    normalize_store(&mut store)?;
    Ok(store)
}

/// Index of the first model with the id.
pub open spec fn model_position(ms: Seq<ImportedModel>, id: Seq<char>) -> Option<int>
    decreases ms.len(),
{
    if ms.len() == 0 {
        None
    } else if ms[0].id@ == id {
        Some(0)
    } else {
        match model_position(ms.skip(1), id) {
            Some(i) => Some(i + 1),
            None => None,
        }
    }
}

fn model_position_exec(ms: &Vec<ImportedModel>, id: &str) -> (r: Option<usize>)
    ensures
        match r {
            Some(i) => model_position(ms@, id@) == Some(i as int) && i < ms@.len(),
            None => model_position(ms@, id@) is None,
        },
{
    let n = ms.len();
    let mut i: usize = 0;
    assert(ms@.skip(0) =~= ms@);
    while i < n
        invariant
            n == ms@.len(),
            i <= n,
            model_position(ms@, id@) == match model_position(ms@.skip(i as int), id@) {
                Some(k) => Some(k + i),
                None => None::<int>,
            },
        decreases n - i,
    {
        assert(ms@.skip(i as int)[0] == ms@[i as int]);
        assert(ms@.skip(i as int).skip(1) =~= ms@.skip(i + 1));
        if str_eq(ms[i].id.as_str(), id) {
            return Some(i);
        }
        i = i + 1;
    }
    None
}

/// The models with `m` in place of the first with its id, or appended.
pub open spec fn models_upserted(ms: Seq<ImportedModel>, m: ImportedModel) -> Seq<ImportedModel> {
    match model_position(ms, m.id@) {
        Some(i) => ms.update(i, m),
        None => ms.push(m),
    }
}

/// Saving a model: it is normalized and checked, replaces the model with its
/// id (or is added), and the store is normalized.
pub fn upsert_model(store: CopilotByokStore, model: ImportedModel) -> (r: Result<CopilotByokStore, AppError>)
    ensures
        r matches Ok(n) ==> exists|m: ImportedModel| {
            &&& imported_normalized(model@, m@)
            &&& imported_problem(m@) is None
            &&& #[trigger] normalized_parts(store, store.selected_target_ids@, store.custom_targets@, models_upserted(store.models@, m), n)
        },
        r matches Err(e) ==> exists|m: ImportedModel| {
            &&& #[trigger] imported_normalized(model@, m@)
            &&& match imported_problem(m@) {
                Some(msg) => e@ == ErrView::InvalidInput(msg),
                None => normalize_failure(store.selected_target_ids@, store.custom_targets@, models_upserted(store.models@, m), e@),
            }
        },
{
    let mut model = model;
    model.normalize();
    let ghost m = model;
    match model.validate() {
        Ok(()) => {},
        Err(e) => {
            return Err(e);
        },
    }
    let mut store = store;
    let ghost o = store;
    match model_position_exec(&store.models, model.id.as_str()) {
        Some(i) => {
            store.models.set(i, model);
        },
        None => {
            store.models.push(model);
        },
    }
    assert(store.models@ == models_upserted(o.models@, m));
    normalize_store(&mut store)?;
    assert(normalized_parts(o, o.selected_target_ids@, o.custom_targets@, models_upserted(o.models@, m), store));
    Ok(store)
}

/// The models without the id.
pub open spec fn models_without(ms: Seq<ImportedModel>, id: Seq<char>) -> Seq<ImportedModel>
    decreases ms.len(),
{
    if ms.len() == 0 {
        Seq::empty()
    } else {
        let p = models_without(ms.drop_last(), id);
        if ms.last().id@ == id {
            p
        } else {
            p.push(ms.last())
        }
    }
}

fn remove_models(ms: Vec<ImportedModel>, id: &str) -> (r: Vec<ImportedModel>)
    ensures
        r@ == models_without(ms@, id@),
{
    let ghost orig = ms@;
    let mut rest = ms;
    let mut out: Vec<ImportedModel> = Vec::new();
    let n = rest.len();
    let mut i: usize = 0;
    while i < n
        invariant
            n == orig.len(),
            i <= n,
            rest@ == orig.skip(i as int),
            out@ == models_without(orig.take(i as int), id@),
        decreases n - i,
    {
        let t = rest.remove(0);
        assert(t == orig[i as int]);
        assert(rest@ =~= orig.skip(i + 1));
        assert(orig.take(i + 1).drop_last() =~= orig.take(i as int));
        assert(orig.take(i + 1).last() == t);
        if !str_eq(t.id.as_str(), id) {
            out.push(t);
        }
        i = i + 1;
    }
    assert(orig.take(n as int) =~= orig);
    out
}

/// Deleting a model; the store is then normalized.
pub fn delete_model(store: CopilotByokStore, model_id: &str) -> (r: Result<CopilotByokStore, AppError>)
    ensures
        r matches Ok(n) ==> normalized_parts(store, store.selected_target_ids@, store.custom_targets@, models_without(store.models@, model_id@), n),
        r matches Err(e) ==> normalize_failure(store.selected_target_ids@, store.custom_targets@, models_without(store.models@, model_id@), e@),
        normalize_owed(store.selected_target_ids@, store.custom_targets@, models_without(store.models@, model_id@)) ==> r is Ok,
{
    let mut store = store;
    let mut ms: Vec<ImportedModel> = Vec::new();
    std::mem::swap(&mut ms, &mut store.models);
    store.models = remove_models(ms, model_id);
    normalize_store(&mut store)?;
    Ok(store)
}

/// A stored value in the versioned format: it names a version, a selection
/// or custom targets (otherwise it is the single-path legacy format).
pub open spec fn is_versioned_spec(v: JsonView) -> bool {
    v.get("version"@) is Some || v.get("selectedTargetIds"@) is Some || v.get("customTargets"@) is Some
}

/// Whether a stored value uses the versioned format.
pub fn is_versioned_store(value: &JsonValue) -> (r: bool)
    ensures
        r == is_versioned_spec(value@),
{
    value.get("version").is_some() || value.get("selectedTargetIds").is_some() || value.get("customTargets").is_some()
}

/// The store migrated from the legacy format: its models, and its single
/// path (trimmed, when not blank) as a selected custom target named
/// `Migrated target`; then normalized.
pub fn migrate_legacy_store(config_path: Option<String>, models: Vec<ImportedModel>) -> (r: Result<CopilotByokStore, AppError>)
    ensures
        r matches Ok(n) ==> !n.targets_initialized && n.groups@.len() == 0 && n.cli@ == disabled_config(),
        r matches Ok(n) ==> match config_path {
            Some(p) if trim_spec(p@).len() > 0 => exists|t: CopilotByokCustomTarget| {
                &&& t.view_triple() == custom_target_from(trim_spec(p@), Some("Migrated target"@))
                &&& #[trigger] normalized_core(seq![t.id], seq![t], models@, n)
            },
            _ => normalized_core(Seq::empty(), Seq::empty(), models@, n),
        },
        r matches Err(e) ==> match config_path {
            Some(p) if trim_spec(p@).len() > 0 => path_refusal(e@) || exists|t: CopilotByokCustomTarget| {
                &&& t.view_triple() == custom_target_from(trim_spec(p@), Some("Migrated target"@))
                &&& #[trigger] normalize_failure(seq![t.id], seq![t], models@, e@)
            },
            _ => normalize_failure(Seq::empty(), Seq::empty(), models@, e@),
        },
        (config_path is None || trim_spec(config_path->0@).len() == 0) && normalize_owed(Seq::empty(), Seq::empty(), models@) ==> r is Ok,
{
    let mut migrated = CopilotByokStore::default();
    migrated.models = models;
    let path = match &config_path {
        Some(p) => {
            let t = trim(p.as_str());
            if t.unicode_len() > 0 {
                Some(t)
            } else {
                None
            }
        },
        None => None,
    };
    let ghost pre_models = migrated.models@;
    match path {
        Some(p) => {
            proof {
                reveal_strlit("Migrated target");
            }
            let custom = CopilotByokCustomTarget::from_path(p.as_str(), Some("Migrated target".to_string()))?;
            let ghost t = custom;
            migrated.selected_target_ids.push(custom.id.clone());
            migrated.custom_targets.push(custom);
            assert(migrated.selected_target_ids@ =~= seq![t.id]);
            assert(migrated.custom_targets@ =~= seq![t]);
            normalize_store(&mut migrated)?;
            assert(normalized_core(seq![t.id], seq![t], pre_models, migrated));
        },
        None => {
            assert(migrated.selected_target_ids@ =~= Seq::<String>::empty());
            assert(migrated.custom_targets@ =~= Seq::<CopilotByokCustomTarget>::empty());
            normalize_store(&mut migrated)?;
        },
    }
    Ok(migrated)
}

} // verus!
