//! VS Code targets as both integrations see them: which targets are
//! selected, the path each target id names, and the per-target state shown
//! in the settings page.

use vstd::prelude::*;
use crate::bridge::opt_str;
use crate::kv::last_value;
use crate::model::strs;
use crate::order::{sort_by, lemma_insert_by_at};
use crate::text::{seq_lt, str_eq, str_lt, lemma_seq_lt_irreflexive};
use crate::vscode::{VsCodeEdition, VsCodeProfileTarget, TargetView, targets_view};

verus! {

/// Index of the first detected target with the id.
pub open spec fn target_index(ts: Seq<TargetView>, id: Seq<char>) -> Option<int>
    decreases ts.len(),
{
    if ts.len() == 0 {
        None
    } else if ts[0].id == id {
        Some(0)
    } else {
        match target_index(ts.skip(1), id) {
            Some(i) => Some(i + 1),
            None => None,
        }
    }
}

/// The selection in effect: the stored one once the user has chosen;
/// before that, the Stable default profile when it was detected, else the
/// first detected target, else nothing.
pub open spec fn effective_selection(initialized: bool, selected: Seq<Seq<char>>, detected: Seq<TargetView>) -> Seq<Seq<char>> {
    if initialized {
        selected
    } else {
        match target_index(detected, "stable:default"@) {
            Some(i) => seq![detected[i].id],
            None => if detected.len() > 0 {
                seq![detected[0].id]
            } else {
                Seq::empty()
            },
        }
    }
}

/// Ids of the detected targets followed by the custom ones.
pub open spec fn available_ids(detected: Seq<TargetView>, custom: Seq<(Seq<char>, Seq<char>)>) -> Seq<Seq<char>> {
    detected.map_values(|t: TargetView| t.id) + custom.map_values(|p: (Seq<char>, Seq<char>)| p.0)
}

/// The ids of `ids` that are also in `keep`, in order.
pub open spec fn keep_ids(ids: Seq<Seq<char>>, keep: Seq<Seq<char>>) -> Seq<Seq<char>>
    decreases ids.len(),
{
    if ids.len() == 0 {
        Seq::empty()
    } else {
        let p = keep_ids(ids.drop_last(), keep);
        if keep.contains(ids.last()) {
            p.push(ids.last())
        } else {
            p
        }
    }
}

/// `(id, path)` of every target, detected ones first; a later pair for the
/// same id wins, as inserting them into a map does.
pub open spec fn path_pairs(detected: Seq<TargetView>, custom: Seq<(Seq<char>, Seq<char>)>) -> Seq<(Seq<char>, Seq<char>)> {
    detected.map_values(|t: TargetView| (t.id, t.language_models_path)) + custom
}

/// Resolving requested ids to paths: repeats are skipped, and the first id
/// that names no target is the error.
pub open spec fn resolve_from(pairs: Seq<(Seq<char>, Seq<char>)>, req: Seq<Seq<char>>, seen: Set<Seq<char>>) -> Result<Seq<(Seq<char>, Seq<char>)>, Seq<char>>
    decreases req.len(),
{
    if req.len() == 0 {
        Ok(Seq::empty())
    } else if seen.contains(req[0]) {
        resolve_from(pairs, req.skip(1), seen)
    } else {
        match last_value(pairs, req[0]) {
            None => Err(req[0]),
            Some(p) => match resolve_from(pairs, req.skip(1), seen.insert(req[0])) {
                Ok(rest) => Ok(seq![(req[0], p)] + rest),
                Err(e) => Err(e),
            },
        }
    }
}

pub open spec fn resolve_spec(pairs: Seq<(Seq<char>, Seq<char>)>, req: Seq<Seq<char>>) -> Result<Seq<(Seq<char>, Seq<char>)>, Seq<char>> {
    resolve_from(pairs, req, Set::empty())
}

fn target_index_exec(ts: &Vec<VsCodeProfileTarget>, id: &str) -> (r: Option<usize>)
    ensures
        match r {
            Some(i) => target_index(targets_view(ts@), id@) == Some(i as int) && i < ts@.len(),
            None => target_index(targets_view(ts@), id@) is None,
        },
{
    let ghost tv = targets_view(ts@);
    let n = ts.len();
    let mut i: usize = 0;
    assert(tv.skip(0) =~= tv);
    while i < n
        invariant
            n == ts@.len(),
            tv == targets_view(ts@),
            i <= n,
            target_index(tv, id@) == match target_index(tv.skip(i as int), id@) {
                Some(k) => Some(k + i),
                None => None::<int>,
            },
        decreases n - i,
    {
        assert(tv.skip(i as int)[0] == ts@[i as int]@);
        assert(tv.skip(i as int).skip(1) =~= tv.skip(i + 1));
        if str_eq(ts[i].id.as_str(), id) {
            return Some(i);
        }
        i = i + 1;
    }
    None
}

/// Copy of a list of strings.
pub fn clone_strings(v: &Vec<String>) -> (r: Vec<String>)
    ensures
        strs(r@) == strs(v@),
{
    let mut out: Vec<String> = Vec::new();
    let n = v.len();
    let mut i: usize = 0;
    while i < n
        invariant
            n == v@.len(),
            i <= n,
            out@.len() == i,
            forall|j: int| 0 <= j < i ==> #[trigger] out@[j]@ == v@[j]@,
        decreases n - i,
    {
        out.push(v[i].clone());
        i = i + 1;
    }
    assert(strs(out@) =~= strs(v@));
    out
}

/// The selection in effect, see [`effective_selection`].
pub fn effective_ids(initialized: bool, selected: &Vec<String>, detected: &Vec<VsCodeProfileTarget>) -> (r: Vec<String>)
    ensures
        strs(r@) == effective_selection(initialized, strs(selected@), targets_view(detected@)),
{
    if initialized {
        return clone_strings(selected);
    }
    let mut out: Vec<String> = Vec::new();
    match target_index_exec(detected, "stable:default") {
        Some(i) => {
            out.push(detected[i].id.clone());
        },
        None => {
            if detected.len() > 0 {
                out.push(detected[0].id.clone());
            }
        },
    }
    assert(strs(out@) =~= effective_selection(initialized, strs(selected@), targets_view(detected@)));
    out
}

/// Ids of the detected and custom targets.
pub fn available(detected: &Vec<VsCodeProfileTarget>, custom: &Vec<(String, String)>) -> (r: Vec<String>)
    ensures
        strs(r@) == available_ids(targets_view(detected@), crate::kv::pairs_view(custom@)),
{
    let mut out: Vec<String> = Vec::new();
    let n = detected.len();
    let mut i: usize = 0;
    while i < n
        invariant
            n == detected@.len(),
            i <= n,
            out@.len() == i,
            forall|j: int| 0 <= j < i ==> #[trigger] out@[j]@ == detected@[j].id@,
        decreases n - i,
    {
        out.push(detected[i].id.clone());
        i = i + 1;
    }
    let m = custom.len();
    let mut k: usize = 0;
    while k < m
        invariant
            n == detected@.len(),
            m == custom@.len(),
            k <= m,
            out@.len() == n + k,
            forall|j: int| 0 <= j < n ==> #[trigger] out@[j]@ == detected@[j].id@,
            forall|j: int| n <= j < n + k ==> #[trigger] out@[j]@ == custom@[j - n].0@,
        decreases m - k,
    {
        out.push(custom[k].0.clone());
        k = k + 1;
    }
    assert(strs(out@) =~= available_ids(targets_view(detected@), crate::kv::pairs_view(custom@)));
    out
}

fn contains_string(v: &Vec<String>, s: &str) -> (r: bool)
    ensures
        r == strs(v@).contains(s@),
{
    let n = v.len();
    let mut i: usize = 0;
    while i < n
        invariant
            n == v@.len(),
            i <= n,
            forall|j: int| 0 <= j < i ==> strs(v@)[j] != s@,
        decreases n - i,
    {
        if str_eq(v[i].as_str(), s) {
            assert(strs(v@)[i as int] == s@);
            return true;
        }
        i = i + 1;
    }
    false
}

/// The ids of `ids` that are also in `keep`.
pub fn retain_ids(ids: &Vec<String>, keep: &Vec<String>) -> (r: Vec<String>)
    ensures
        strs(r@) == keep_ids(strs(ids@), strs(keep@)),
{
    let mut out: Vec<String> = Vec::new();
    let n = ids.len();
    let mut i: usize = 0;
    while i < n
        invariant
            n == ids@.len(),
            i <= n,
            strs(out@) == keep_ids(strs(ids@).take(i as int), strs(keep@)),
        decreases n - i,
    {
        assert(strs(ids@).take(i + 1).drop_last() =~= strs(ids@).take(i as int));
        assert(strs(ids@).take(i + 1).last() == ids@[i as int]@);
        if contains_string(keep, ids[i].as_str()) {
            let ghost before = strs(out@);
            out.push(ids[i].clone());
            assert(strs(out@) =~= before.push(ids@[i as int]@));
        }
        i = i + 1;
    }
    assert(strs(ids@).take(n as int) =~= strs(ids@));
    out
}

/// `(id, path)` of every target, detected first.
pub fn target_paths(detected: &Vec<VsCodeProfileTarget>, custom: &Vec<(String, String)>) -> (r: Vec<(String, String)>)
    ensures
        crate::kv::pairs_view(r@) == path_pairs(targets_view(detected@), crate::kv::pairs_view(custom@)),
{
    let mut out: Vec<(String, String)> = Vec::new();
    let n = detected.len();
    let mut i: usize = 0;
    while i < n
        invariant
            n == detected@.len(),
            i <= n,
            out@.len() == i,
            forall|j: int| 0 <= j < i ==> (#[trigger] out@[j].0@, out@[j].1@) == (detected@[j].id@, detected@[j].language_models_path@),
        decreases n - i,
    {
        out.push((detected[i].id.clone(), detected[i].path()));
        i = i + 1;
    }
    let m = custom.len();
    let mut k: usize = 0;
    while k < m
        invariant
            n == detected@.len(),
            m == custom@.len(),
            k <= m,
            out@.len() == n + k,
            forall|j: int| 0 <= j < n ==> (#[trigger] out@[j].0@, out@[j].1@) == (detected@[j].id@, detected@[j].language_models_path@),
            forall|j: int| n <= j < n + k ==> (#[trigger] out@[j].0@, out@[j].1@) == (custom@[j - n].0@, custom@[j - n].1@),
        decreases m - k,
    {
        out.push((custom[k].0.clone(), custom[k].1.clone()));
        k = k + 1;
    }
    assert(crate::kv::pairs_view(out@) =~= path_pairs(targets_view(detected@), crate::kv::pairs_view(custom@)));
    out
}

/// The value of the last pair with the key.
pub fn last_lookup(pairs: &Vec<(String, String)>, key: &str) -> (r: Option<String>)
    ensures
        opt_str(r) == last_value(crate::kv::pairs_view(pairs@), key@),
{
    let ghost pv = crate::kv::pairs_view(pairs@);
    let mut i: usize = pairs.len();
    assert(pv.take(i as int) =~= pv);
    while i > 0
        invariant
            i <= pairs@.len(),
            pv == crate::kv::pairs_view(pairs@),
            last_value(pv, key@) == last_value(pv.take(i as int), key@),
        decreases i,
    {
        assert(pv.take(i as int).last() == pv[i - 1]);
        assert(pv.take(i as int).drop_last() =~= pv.take(i - 1));
        if str_eq(pairs[i - 1].0.as_str(), key) {
            return Some(pairs[i - 1].1.clone());
        }
        i = i - 1;
    }
    None
}

/// Resolves requested ids to paths, see [`resolve_spec`]; the error is the
/// first unknown id.
pub fn resolve(pairs: &Vec<(String, String)>, requested: &Vec<String>) -> (r: Result<Vec<(String, String)>, String>)
    ensures
        match r {
            Ok(v) => resolve_spec(crate::kv::pairs_view(pairs@), strs(requested@)) == Ok::<Seq<(Seq<char>, Seq<char>)>, Seq<char>>(crate::kv::pairs_view(v@)),
            Err(id) => resolve_spec(crate::kv::pairs_view(pairs@), strs(requested@)) == Err::<Seq<(Seq<char>, Seq<char>)>, Seq<char>>(id@),
        },
{
    let ghost pv = crate::kv::pairs_view(pairs@);
    let ghost req = strs(requested@);
    let mut seen: Vec<String> = Vec::new();
    let mut out: Vec<(String, String)> = Vec::new();
    let n = requested.len();
    let mut i: usize = 0;
    assert(req.skip(0) =~= req);
    assert(strs(seen@).to_set() =~= Set::<Seq<char>>::empty());
    assert(crate::kv::pairs_view(out@) + Seq::<(Seq<char>, Seq<char>)>::empty() =~= crate::kv::pairs_view(out@));
    while i < n
        invariant
            n == requested@.len(),
            pv == crate::kv::pairs_view(pairs@),
            req == strs(requested@),
            i <= n,
            resolve_from(pv, req, Set::empty()) == match resolve_from(pv, req.skip(i as int), strs(seen@).to_set()) {
                Ok(rest) => Ok(crate::kv::pairs_view(out@) + rest),
                Err(e) => Err::<Seq<(Seq<char>, Seq<char>)>, Seq<char>>(e),
            },
        decreases n - i,
    {
        let ghost rest = req.skip(i as int);
        assert(rest[0] == requested@[i as int]@);
        assert(rest.skip(1) =~= req.skip(i + 1));
        let id = requested[i].as_str();
        if contains_string(&seen, id) {
            assert(strs(seen@).to_set().contains(id@));
            i = i + 1;
            continue;
        }
        proof {
            if strs(seen@).to_set().contains(id@) {
                assert(strs(seen@).contains(id@));
            }
        }
        match last_lookup(pairs, id) {
            None => {
                return Err(requested[i].clone());
            },
            Some(p) => {
                let ghost before_seen = strs(seen@);
                let ghost before_out = crate::kv::pairs_view(out@);
                seen.push(requested[i].clone());
                out.push((requested[i].clone(), p));
                proof {
                    assert(strs(seen@) =~= before_seen.push(id@));
                    before_seen.lemma_push_to_set_commute(id@);
                    assert(crate::kv::pairs_view(out@) =~= before_out.push((id@, opt_str(Some(p))->0)));
                    match resolve_from(pv, req.skip(i + 1), strs(seen@).to_set()) {
                        Ok(r2) => {
                            assert(before_out + (seq![(id@, p@)] + r2) =~= crate::kv::pairs_view(out@) + r2);
                        },
                        Err(_) => {},
                    }
                }
            },
        }
        i = i + 1;
    }
    proof {
        assert(req.skip(n as int) =~= Seq::<Seq<char>>::empty());
        assert(crate::kv::pairs_view(out@) + Seq::<(Seq<char>, Seq<char>)>::empty() =~= crate::kv::pairs_view(out@));
    }
    Ok(out)
}

/// A VS Code target as the settings page shows it.
#[derive(Debug)]
pub struct CopilotByokTargetState {
    pub id: String,
    /// `detected` or `custom`.
    pub source: String,
    pub edition: Option<VsCodeEdition>,
    pub edition_name: Option<String>,
    pub profile_id: Option<String>,
    pub profile_name: String,
    pub is_default: bool,
    pub language_models_path: String,
    pub config_exists: bool,
    pub backup_exists: bool,
    pub selected: bool,
    pub managed_group_count: usize,
    pub read_error: Option<String>,
}

/// Model of [`CopilotByokTargetState`].
pub struct TargetStateView {
    pub id: Seq<char>,
    pub source: Seq<char>,
    pub edition: Option<VsCodeEdition>,
    pub edition_name: Option<Seq<char>>,
    pub profile_id: Option<Seq<char>>,
    pub profile_name: Seq<char>,
    pub is_default: bool,
    pub language_models_path: Seq<char>,
    pub config_exists: bool,
    pub backup_exists: bool,
    pub selected: bool,
    pub managed_group_count: nat,
    pub read_error: Option<Seq<char>>,
}

impl View for CopilotByokTargetState {
    type V = TargetStateView;

    open spec fn view(&self) -> TargetStateView {
        TargetStateView {
            id: self.id@,
            source: self.source@,
            edition: self.edition,
            edition_name: opt_str(self.edition_name),
            profile_id: opt_str(self.profile_id),
            profile_name: self.profile_name@,
            is_default: self.is_default,
            language_models_path: self.language_models_path@,
            config_exists: self.config_exists,
            backup_exists: self.backup_exists,
            selected: self.selected,
            managed_group_count: self.managed_group_count as nat,
            read_error: opt_str(self.read_error),
        }
    }
}

pub open spec fn states_view(s: Seq<CopilotByokTargetState>) -> Seq<TargetStateView> {
    s.map_values(|t: CopilotByokTargetState| t@)
}

/// What the caller found on disk for one target: whether the file and its
/// backup exist, and the file's groups or the text of the read error.
pub struct Inspection {
    pub config_exists: bool,
    pub backup_exists: bool,
    pub groups: Result<Vec<crate::json::JsonValue>, String>,
}

/// The state of a detected target.
pub open spec fn detected_state_view(
    t: TargetView,
    config_exists: bool,
    backup_exists: bool,
    selected: bool,
    count: nat,
    read_error: Option<Seq<char>>,
) -> TargetStateView {
    TargetStateView {
        id: t.id,
        source: "detected"@,
        edition: Some(t.edition),
        edition_name: Some(t.edition_name),
        profile_id: t.profile_id,
        profile_name: t.profile_name,
        is_default: t.is_default,
        language_models_path: t.language_models_path,
        config_exists,
        backup_exists,
        selected,
        managed_group_count: count,
        read_error,
    }
}

/// The state of a custom target.
pub open spec fn custom_state_view(
    id: Seq<char>,
    name: Seq<char>,
    path: Seq<char>,
    config_exists: bool,
    backup_exists: bool,
    selected: bool,
    count: nat,
    read_error: Option<Seq<char>>,
) -> TargetStateView {
    TargetStateView {
        id,
        source: "custom"@,
        edition: None,
        edition_name: None,
        profile_id: None,
        profile_name: name,
        is_default: false,
        language_models_path: path,
        config_exists,
        backup_exists,
        selected,
        managed_group_count: count,
        read_error,
    }
}

fn clone_opt_string(o: &Option<String>) -> (r: Option<String>)
    ensures
        opt_str(r) == opt_str(*o),
{
    match o {
        Some(s) => Some(s.clone()),
        None => None,
    }
}

/// The state of a detected target.
pub fn detected_target_state(
    t: &VsCodeProfileTarget,
    config_exists: bool,
    backup_exists: bool,
    selected: bool,
    count: usize,
    read_error: Option<String>,
) -> (r: CopilotByokTargetState)
    ensures
        r@ == detected_state_view(t@, config_exists, backup_exists, selected, count as nat, opt_str(read_error)),
{
    CopilotByokTargetState {
        id: t.id.clone(),
        source: "detected".to_string(),
        edition: Some(t.edition),
        edition_name: Some(t.edition_name.clone()),
        profile_id: clone_opt_string(&t.profile_id),
        profile_name: t.profile_name.clone(),
        is_default: t.is_default,
        language_models_path: t.language_models_path.clone(),
        config_exists,
        backup_exists,
        selected,
        managed_group_count: count,
        read_error,
    }
}

/// The state of a custom target.
pub fn custom_target_state(
    id: &String,
    name: &String,
    path: &String,
    config_exists: bool,
    backup_exists: bool,
    selected: bool,
    count: usize,
    read_error: Option<String>,
) -> (r: CopilotByokTargetState)
    ensures
        r@ == custom_state_view(id@, name@, path@, config_exists, backup_exists, selected, count as nat, opt_str(read_error)),
{
    CopilotByokTargetState {
        id: id.clone(),
        source: "custom".to_string(),
        edition: None,
        edition_name: None,
        profile_id: None,
        profile_name: name.clone(),
        is_default: false,
        language_models_path: path.clone(),
        config_exists,
        backup_exists,
        selected,
        managed_group_count: count,
        read_error,
    }
}

/// Whether a list of ids holds an id.
pub fn contains_id(v: &Vec<String>, s: &str) -> (r: bool)
    ensures
        r == strs(v@).contains(s@),
{
    contains_string(v, s)
}

/// Order of the settings page: selected targets first, then by source, then
/// by profile name.
pub open spec fn state_lt(a: TargetStateView, b: TargetStateView) -> bool {
    ||| a.selected && !b.selected
    ||| (a.selected == b.selected && seq_lt(a.source, b.source))
    ||| (a.selected == b.selected && a.source == b.source && seq_lt(a.profile_name, b.profile_name))
}

pub open spec fn state_order() -> spec_fn(TargetStateView, TargetStateView) -> bool {
    |a: TargetStateView, b: TargetStateView| state_lt(a, b)
}

fn state_lt_exec(a: &CopilotByokTargetState, b: &CopilotByokTargetState) -> (r: bool)
    ensures
        r == state_lt(a@, b@),
{
    if a.selected != b.selected {
        return a.selected;
    }
    if str_eq(a.source.as_str(), b.source.as_str()) {
        proof {
            lemma_seq_lt_irreflexive(a.source@);
        }
        str_lt(a.profile_name.as_str(), b.profile_name.as_str())
    } else {
        str_lt(a.source.as_str(), b.source.as_str())
    }
}

/// Stable sort of target states by [`state_lt`].
pub fn sort_states(ts: Vec<CopilotByokTargetState>) -> (r: Vec<CopilotByokTargetState>)
    ensures
        states_view(r@) == sort_by(states_view(ts@), state_order()),
{
    let ghost orig = states_view(ts@);
    let ghost orig_exec = ts@;
    let mut rest = ts;
    let mut out: Vec<CopilotByokTargetState> = Vec::new();
    let n = rest.len();
    let mut i: usize = 0;
    assert(orig.take(0) =~= Seq::<TargetStateView>::empty());
    assert(states_view(out@) =~= Seq::<TargetStateView>::empty());
    while i < n
        invariant
            n == orig.len(),
            orig == states_view(orig_exec),
            i <= n,
            rest@ == orig_exec.skip(i as int),
            states_view(out@) == sort_by(orig.take(i as int), state_order()),
        decreases n - i,
    {
        let x = rest.remove(0);
        assert(x == orig_exec[i as int]);
        assert(rest@ =~= orig_exec.skip(i + 1));
        let m = out.len();
        let mut p: usize = 0;
        while p < m && !state_lt_exec(&x, &out[p])
            invariant
                m == out@.len(),
                p <= m,
                forall|k: int| 0 <= k < p ==> !state_lt(x@, #[trigger] out@[k]@),
            decreases m - p,
        {
            p = p + 1;
        }
        let ghost before = states_view(out@);
        proof {
            assert forall|k: int| 0 <= k < p implies !(state_order())(x@, #[trigger] before[k]) by {
                assert(before[k] == out@[k]@);
            }
            if p < m {
                assert(before[p as int] == out@[p as int]@);
            }
            lemma_insert_by_at(before, x@, state_order(), p as int);
            assert(orig.take(i + 1).drop_last() =~= orig.take(i as int));
            assert(orig.take(i + 1).last() == x@);
        }
        out.insert(p, x);
        assert(states_view(out@) =~= before.insert(p as int, orig[i as int]));
        i = i + 1;
    }
    assert(orig.take(n as int) =~= orig);
    out
}

} // verus!
