//! VS Code profile targets: the default profile and named profiles of the
//! Stable and Insiders editions, each with its `chatLanguageModels.json`.

use vstd::prelude::*;
use vstd::string::StringExecFns;
use crate::bridge::opt_str;
use crate::order::{sort_by, insert_by, lemma_insert_by_at};
use crate::text::{seq_lt, str_lt, trim, trim_spec, lemma_seq_lt_irreflexive, lemma_seq_lt_transitive, lemma_seq_lt_total, lemma_seq_lt_asymmetric};

verus! {

/// Most targets discovery yields (it may yield one more when a new edition's
/// default profile arrives after the limit was reached inside profiles).
pub const MAX_DISCOVERED_TARGETS: usize = 64;

/// A VS Code edition.
#[derive(Debug, Clone, Copy, PartialEq, Eq, Structural)]
pub enum VsCodeEdition {
    Stable,
    Insiders,
}

impl VsCodeEdition {
    pub open spec fn slug_spec(self) -> Seq<char> {
        match self {
            VsCodeEdition::Stable => "stable"@,
            VsCodeEdition::Insiders => "insiders"@,
        }
    }

    pub open spec fn display_name_spec(self) -> Seq<char> {
        match self {
            VsCodeEdition::Stable => "Visual Studio Code"@,
            VsCodeEdition::Insiders => "Visual Studio Code Insiders"@,
        }
    }

    /// Position in the serde-derived order (Stable first).
    pub open spec fn rank(self) -> int {
        match self {
            VsCodeEdition::Stable => 0,
            VsCodeEdition::Insiders => 1,
        }
    }

    /// Identifier prefix of the edition's targets.
    pub fn slug(self) -> (r: &'static str)
        ensures
            r@ == self.slug_spec(),
    {
        match self {
            VsCodeEdition::Stable => "stable",
            VsCodeEdition::Insiders => "insiders",
        }
    }

    /// Product name shown to the user.
    pub fn display_name(self) -> (r: &'static str)
        ensures
            r@ == self.display_name_spec(),
    {
        match self {
            VsCodeEdition::Stable => "Visual Studio Code",
            VsCodeEdition::Insiders => "Visual Studio Code Insiders",
        }
    }
}

/// One VS Code profile whose language-model file can be managed.
#[derive(Debug, Clone)]
pub struct VsCodeProfileTarget {
    /// `<edition>:default` or `<edition>:profile:<profile id>`.
    pub id: String,
    pub edition: VsCodeEdition,
    pub edition_name: String,
    pub profile_id: Option<String>,
    pub profile_name: String,
    pub is_default: bool,
    pub user_dir: String,
    pub language_models_path: String,
    pub config_exists: bool,
    pub backup_exists: bool,
}

/// Model of [`VsCodeProfileTarget`].
pub struct TargetView {
    pub id: Seq<char>,
    pub edition: VsCodeEdition,
    pub edition_name: Seq<char>,
    pub profile_id: Option<Seq<char>>,
    pub profile_name: Seq<char>,
    pub is_default: bool,
    pub user_dir: Seq<char>,
    pub language_models_path: Seq<char>,
    pub config_exists: bool,
    pub backup_exists: bool,
}

impl View for VsCodeProfileTarget {
    type V = TargetView;

    open spec fn view(&self) -> TargetView {
        TargetView {
            id: self.id@,
            edition: self.edition,
            edition_name: self.edition_name@,
            profile_id: opt_str(self.profile_id),
            profile_name: self.profile_name@,
            is_default: self.is_default,
            user_dir: self.user_dir@,
            language_models_path: self.language_models_path@,
            config_exists: self.config_exists,
            backup_exists: self.backup_exists,
        }
    }
}

pub open spec fn targets_view(s: Seq<VsCodeProfileTarget>) -> Seq<TargetView> {
    s.map_values(|t: VsCodeProfileTarget| t@)
}

impl VsCodeProfileTarget {
    /// Path of the target's `chatLanguageModels.json`.
    pub fn path(&self) -> (r: String)
        ensures
            r@ == self.language_models_path@,
    {
        self.language_models_path.clone()
    }
}

/// One entry of a `profiles` directory, as the file system reported it.
#[derive(Debug, Clone)]
pub struct ProfileEntry {
    /// The entry's file name (lossily decoded).
    pub name: String,
    pub is_dir: bool,
    pub is_symlink: bool,
    /// `<entry>/chatLanguageModels.json`.
    pub language_models_path: String,
    pub config_exists: bool,
    pub backup_exists: bool,
}

/// One edition's user directory, as the file system reported it.
#[derive(Debug, Clone)]
pub struct RootListing {
    pub edition: VsCodeEdition,
    pub user_dir: String,
    pub is_dir: bool,
    /// `<user dir>/chatLanguageModels.json`.
    pub language_models_path: String,
    pub config_exists: bool,
    pub backup_exists: bool,
    /// Entries of `<user dir>/profiles`, or `None` when that is no directory.
    pub profiles: Option<Vec<ProfileEntry>>,
}

/// The default profile's target of a root.
pub open spec fn default_target(r: RootListing) -> TargetView {
    TargetView {
        id: r.edition.slug_spec() + ":default"@,
        edition: r.edition,
        edition_name: r.edition.display_name_spec(),
        profile_id: None,
        profile_name: "Default"@,
        is_default: true,
        user_dir: r.user_dir@,
        language_models_path: r.language_models_path@,
        config_exists: r.config_exists,
        backup_exists: r.backup_exists,
    }
}

/// A named profile's target.
pub open spec fn profile_target(r: RootListing, e: ProfileEntry) -> TargetView {
    let pid = trim_spec(e.name@);
    TargetView {
        id: r.edition.slug_spec() + ":profile:"@ + pid,
        edition: r.edition,
        edition_name: r.edition.display_name_spec(),
        profile_id: Some(pid),
        profile_name: "Profile "@ + pid,
        is_default: false,
        user_dir: r.user_dir@,
        language_models_path: e.language_models_path@,
        config_exists: e.config_exists,
        backup_exists: e.backup_exists,
    }
}

/// Profiles are added, in the given order, while fewer than the limit are
/// collected; entries that are not real directories or have a blank name are
/// skipped.
pub open spec fn collect_profiles(r: RootListing, ps: Seq<ProfileEntry>, acc: Seq<TargetView>) -> Seq<TargetView>
    decreases ps.len(),
{
    if ps.len() == 0 || acc.len() >= 64 {
        acc
    } else {
        let e = ps[0];
        if !e.is_dir || e.is_symlink || trim_spec(e.name@).len() == 0 {
            collect_profiles(r, ps.skip(1), acc)
        } else {
            collect_profiles(r, ps.skip(1), acc.push(profile_target(r, e)))
        }
    }
}

/// Entry names in ascending order, with the entries as a permutation.
pub open spec fn entries_sorted(ps: Seq<ProfileEntry>) -> bool {
    forall|i: int, j: int| 0 <= i < j < ps.len() ==> !seq_lt(#[trigger] ps[j].name@, #[trigger] ps[i].name@)
}

/// Targets in the order discovery walks: for each existing user directory,
/// its default profile, then (unless the limit is reached) its profiles in
/// name order.
pub open spec fn collect_roots(roots: Seq<RootListing>, acc: Seq<TargetView>) -> Seq<TargetView>
    decreases roots.len(),
{
    if roots.len() == 0 {
        acc
    } else {
        let r = roots[0];
        if !r.is_dir {
            collect_roots(roots.skip(1), acc)
        } else {
            let acc1 = acc.push(default_target(r));
            if acc1.len() >= 64 {
                acc1
            } else {
                match r.profiles {
                    None => collect_roots(roots.skip(1), acc1),
                    Some(ps) => collect_roots(roots.skip(1), collect_profiles(r, sorted_entries(ps@), acc1)),
                }
            }
        }
    }
}

/// Profile entries ordered by name.
pub open spec fn entry_lt(a: ProfileEntry, b: ProfileEntry) -> bool {
    seq_lt(a.name@, b.name@)
}

pub open spec fn entry_order() -> spec_fn(ProfileEntry, ProfileEntry) -> bool {
    |a: ProfileEntry, b: ProfileEntry| entry_lt(a, b)
}

/// The profile entries in name order (a stable sort).
pub open spec fn sorted_entries(ps: Seq<ProfileEntry>) -> Seq<ProfileEntry> {
    sort_by(ps, entry_order())
}

/// Target order: Stable before Insiders, default profile first, then by
/// profile name.
pub open spec fn target_lt(a: TargetView, b: TargetView) -> bool {
    ||| a.edition.rank() < b.edition.rank()
    ||| (a.edition.rank() == b.edition.rank() && a.is_default && !b.is_default)
    ||| (a.edition.rank() == b.edition.rank() && a.is_default == b.is_default && seq_lt(
        a.profile_name,
        b.profile_name,
    ))
}

pub open spec fn target_order() -> spec_fn(TargetView, TargetView) -> bool {
    |a: TargetView, b: TargetView| target_lt(a, b)
}

/// What discovery returns for the given listing: the walk of
/// [`collect_roots`], sorted by [`target_lt`].
pub open spec fn discovered(roots: Seq<RootListing>) -> Seq<TargetView> {
    sort_by(collect_roots(roots, Seq::empty()), target_order())
}

fn sort_entries(ps: Vec<ProfileEntry>) -> (r: Vec<ProfileEntry>)
    ensures
        r@ == sorted_entries(ps@),
{
    let ghost orig = ps@;
    let mut rest = ps;
    let mut out: Vec<ProfileEntry> = Vec::new();
    let n = rest.len();
    let mut i: usize = 0;
    assert(orig.take(0) =~= Seq::<ProfileEntry>::empty());
    while i < n
        invariant
            n == orig.len(),
            i <= n,
            rest@ == orig.skip(i as int),
            out@ == sort_by(orig.take(i as int), entry_order()),
        decreases n - i,
    {
        let x = rest.remove(0);
        assert(x == orig[i as int]);
        assert(rest@ =~= orig.skip(i + 1));
        let m = out.len();
        let mut p: usize = 0;
        while p < m && !str_lt(x.name.as_str(), out[p].name.as_str())
            invariant
                m == out@.len(),
                p <= m,
                forall|k: int| 0 <= k < p ==> !entry_lt(x, #[trigger] out@[k]),
            decreases m - p,
        {
            p = p + 1;
        }
        proof {
            assert forall|k: int| 0 <= k < p implies !(entry_order())(x, #[trigger] out@[k]) by {
                assert(!entry_lt(x, out@[k]));
            }
            lemma_insert_by_at(out@, x, entry_order(), p as int);
            assert(orig.take(i + 1).drop_last() =~= orig.take(i as int));
            assert(orig.take(i + 1).last() == x);
        }
        out.insert(p, x);
        i = i + 1;
    }
    assert(orig.take(n as int) =~= orig);
    out
}

fn sort_targets(ts: Vec<VsCodeProfileTarget>) -> (r: Vec<VsCodeProfileTarget>)
    ensures
        targets_view(r@) == sort_by(targets_view(ts@), target_order()),
{
    let ghost orig = targets_view(ts@);
    let ghost orig_exec = ts@;
    let mut rest = ts;
    let mut out: Vec<VsCodeProfileTarget> = Vec::new();
    let n = rest.len();
    let mut i: usize = 0;
    assert(orig.take(0) =~= Seq::<TargetView>::empty());
    assert(targets_view(out@) =~= Seq::<TargetView>::empty());
    while i < n
        invariant
            n == orig.len(),
            orig == targets_view(orig_exec),
            i <= n,
            rest@ == orig_exec.skip(i as int),
            targets_view(out@) == sort_by(orig.take(i as int), target_order()),
        decreases n - i,
    {
        let x = rest.remove(0);
        assert(x == orig_exec[i as int]);
        assert(rest@ =~= orig_exec.skip(i + 1));
        let m = out.len();
        let mut p: usize = 0;
        while p < m && !target_lt_exec(&x, &out[p])
            invariant
                m == out@.len(),
                p <= m,
                forall|k: int| 0 <= k < p ==> !target_lt(x@, #[trigger] out@[k]@),
            decreases m - p,
        {
            p = p + 1;
        }
        let ghost before = targets_view(out@);
        proof {
            assert forall|k: int| 0 <= k < p implies !(target_order())(x@, #[trigger] before[k]) by {
                assert(before[k] == out@[k]@);
            }
            if p < m {
                assert(before[p as int] == out@[p as int]@);
            }
            lemma_insert_by_at(before, x@, target_order(), p as int);
            assert(orig.take(i + 1).drop_last() =~= orig.take(i as int));
            assert(orig.take(i + 1).last() == x@);
        }
        out.insert(p, x);
        assert(targets_view(out@) =~= before.insert(p as int, orig[i as int]));
        i = i + 1;
    }
    assert(orig.take(n as int) =~= orig);
    out
}

fn target_lt_exec(a: &VsCodeProfileTarget, b: &VsCodeProfileTarget) -> (r: bool)
    ensures
        r == target_lt(a@, b@),
{
    let ra: u8 = match a.edition {
        VsCodeEdition::Stable => 0,
        VsCodeEdition::Insiders => 1,
    };
    let rb: u8 = match b.edition {
        VsCodeEdition::Stable => 0,
        VsCodeEdition::Insiders => 1,
    };
    if ra != rb {
        return ra < rb;
    }
    if a.is_default != b.is_default {
        return a.is_default;
    }
    str_lt(a.profile_name.as_str(), b.profile_name.as_str())
}

/// The target of a default profile.
fn make_default_target(r: &RootListing) -> (t: VsCodeProfileTarget)
    ensures
        t@ == default_target(*r),
{
    VsCodeProfileTarget {
        id: r.edition.slug().to_string().concat(":default"),
        edition: r.edition,
        edition_name: r.edition.display_name().to_string(),
        profile_id: None,
        profile_name: "Default".to_string(),
        is_default: true,
        user_dir: r.user_dir.clone(),
        language_models_path: r.language_models_path.clone(),
        config_exists: r.config_exists,
        backup_exists: r.backup_exists,
    }
}

/// The target of a named profile with (trimmed) id `pid`.
fn make_profile_target(r: &RootListing, e: &ProfileEntry, pid: String) -> (t: VsCodeProfileTarget)
    requires
        pid@ == trim_spec(e.name@),
    ensures
        t@ == profile_target(*r, *e),
{
    VsCodeProfileTarget {
        id: r.edition.slug().to_string().concat(":profile:").concat(pid.as_str()),
        edition: r.edition,
        edition_name: r.edition.display_name().to_string(),
        profile_name: "Profile ".to_string().concat(pid.as_str()),
        profile_id: Some(pid),
        is_default: false,
        user_dir: r.user_dir.clone(),
        language_models_path: e.language_models_path.clone(),
        config_exists: e.config_exists,
        backup_exists: e.backup_exists,
    }
}

/// Targets for the given listing of the Stable and Insiders user
/// directories: each existing directory's default profile and its named
/// profiles (real directories with a non-blank name, in name order), at
/// most [`MAX_DISCOVERED_TARGETS`] by the walk's rules, sorted by edition,
/// default first, then profile name.
pub fn discover_vscode_targets(roots: Vec<RootListing>) -> (r: Vec<VsCodeProfileTarget>)
    ensures
        targets_view(r@) == discovered(roots@),
{
    let ghost orig = roots@;
    let mut rest = roots;
    let mut out: Vec<VsCodeProfileTarget> = Vec::new();
    let n = rest.len();
    let mut i: usize = 0;
    assert(orig.skip(0) =~= orig);
    assert(targets_view(out@) =~= Seq::<TargetView>::empty());
    while i < n
        invariant_except_break
            n == orig.len(),
            i <= n,
            rest@ == orig.skip(i as int),
            collect_roots(orig, Seq::empty()) == collect_roots(orig.skip(i as int), targets_view(out@)),
        ensures
            targets_view(out@) == collect_roots(orig, Seq::empty()),
        decreases n - i,
    {
        let r = rest.remove(0);
        let ghost rv = r;
        assert(r == orig[i as int]);
        assert(orig.skip(i as int)[0] == r);
        assert(orig.skip(i as int).skip(1) =~= orig.skip(i + 1));
        assert(rest@ =~= orig.skip(i + 1));
        i = i + 1;
        if !r.is_dir {
            continue;
        }
        let d = make_default_target(&r);
        let ghost before = targets_view(out@);
        out.push(d);
        assert(targets_view(out@) =~= before.push(default_target(rv)));
        if out.len() >= MAX_DISCOVERED_TARGETS {
            break;
        }
        let RootListing { edition, user_dir, is_dir, language_models_path, config_exists, backup_exists, profiles } = r;
        let r2 = RootListing { edition, user_dir, is_dir, language_models_path, config_exists, backup_exists, profiles: None };
        match profiles {
            None => {},
            Some(ps) => {
                let ghost acc1 = targets_view(out@);
                let sorted = sort_entries(ps);
                let ghost sv = sorted@;
                let mut prest = sorted;
                let m = prest.len();
                let mut j: usize = 0;
                assert(sv.skip(0) =~= sv);
                while j < m
                    invariant_except_break
                        m == sv.len(),
                        j <= m,
                        prest@ == sv.skip(j as int),
                        r2.edition == rv.edition,
                        r2.user_dir == rv.user_dir,
                        collect_profiles(rv, sv, acc1) == collect_profiles(rv, sv.skip(j as int), targets_view(out@)),
                    ensures
                        targets_view(out@) == collect_profiles(rv, sv, acc1),
                    decreases m - j,
                {
                    if out.len() >= MAX_DISCOVERED_TARGETS {
                        break;
                    }
                    let e = prest.remove(0);
                    assert(e == sv[j as int]);
                    assert(sv.skip(j as int)[0] == e);
                    assert(sv.skip(j as int).skip(1) =~= sv.skip(j + 1));
                    assert(prest@ =~= sv.skip(j + 1));
                    j = j + 1;
                    if !e.is_dir || e.is_symlink {
                        continue;
                    }
                    let pid = trim(e.name.as_str());
                    if pid.unicode_len() == 0 {
                        continue;
                    }
                    let t = make_profile_target(&r2, &e, pid);
                    let ghost b2 = targets_view(out@);
                    out.push(t);
                    assert(targets_view(out@) =~= b2.push(profile_target(rv, e)));
                }
            },
        }
    }
    sort_targets(out)
}

} // verus!
