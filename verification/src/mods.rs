//! Which mods may be loaded together: every mod must be built for this engine
//! version, no two mods may share an id, and every mod's own condition must
//! hold once all of them are applied.

use vstd::prelude::*;

verus! {

/// A mod as reported in an error: the name it was asked for by, and its id.
pub struct ModInfo {
    name: String,
    id: String,
}

impl View for ModInfo {
    type V = (Seq<char>, Seq<char>);

    closed spec fn view(&self) -> (Seq<char>, Seq<char>) {
        (self.name@, self.id@)
    }
}

impl ModInfo {
    pub fn new(name: String, id: String) -> (r: Self)
        ensures
            r@ == (name@, id@),
    {
        ModInfo { name, id }
    }

    pub fn name(&self) -> (r: &String)
        ensures
            r@ == self@.0,
    {
        &self.name
    }

    pub fn id(&self) -> (r: &String)
        ensures
            r@ == self@.1,
    {
        &self.id
    }
}

/// Why a set of mods could not be loaded.
pub enum ModsConstructionError {
    /// Mods built for another engine version.
    VersionIncompatible(Vec<ModInfo>),
    /// Mods whose id another mod has too.
    DuplicateIds(Vec<ModInfo>),
    /// The mod that failed while being applied.
    FailedToLoad(ModInfo),
    /// Mods whose condition does not hold once all mods are applied.
    ConditionNotMet(Vec<ModInfo>),
    UnresolvedDependencies { unresolved_dependencies: Vec<String>, modules_failed_to_load: Vec<String> },
}

/// What a mod declares about itself.
pub struct ModHeader {
    pub id: String,
    pub compatible_engine_major_version: u16,
    pub compatible_engine_minor_version: u16,
}

/// A mod runs on an engine of the same major version and at least its minor
/// version.
pub open spec fn compatible(h: ModHeader, engine_major: u16, engine_minor: u16) -> bool {
    h.compatible_engine_major_version == engine_major && h.compatible_engine_minor_version
        <= engine_minor
}

/// The reports of a list of mods.
pub open spec fn infos_view(v: Seq<ModInfo>) -> Seq<(Seq<char>, Seq<char>)> {
    v.map_values(|m: ModInfo| m@)
}

/// The report of mod `i`.
pub open spec fn info_at(names: Seq<String>, headers: Seq<ModHeader>, i: int) -> (Seq<char>, Seq<char>) {
    (names[i]@, headers[i].id@)
}

/// Among the first `n` mods, in order, those that `bad` picks.
pub open spec fn reports_upto(
    names: Seq<String>,
    headers: Seq<ModHeader>,
    bad: spec_fn(int) -> bool,
    n: int,
) -> Seq<(Seq<char>, Seq<char>)>
    decreases n,
{
    if n <= 0 {
        Seq::empty()
    } else if bad(n - 1) {
        reports_upto(names, headers, bad, n - 1).push(info_at(names, headers, n - 1))
    } else {
        reports_upto(names, headers, bad, n - 1)
    }
}

/// Mod `k` is built for another engine version.
pub open spec fn incompatible_at(headers: Seq<ModHeader>, engine_major: u16, engine_minor: u16) -> spec_fn(
    int,
) -> bool {
    |k: int| !compatible(headers[k], engine_major, engine_minor)
}

/// Another mod has the id of mod `k`.
pub open spec fn duplicated_at(headers: Seq<ModHeader>) -> spec_fn(int) -> bool {
    |k: int| exists|j: int| 0 <= j < headers.len() && j != k && #[trigger] headers[j].id@ == headers[k].id@
}

/// Mod `k` failed its condition.
pub open spec fn failed_at(failed: Seq<bool>) -> spec_fn(int) -> bool {
    |k: int| failed[k]
}

proof fn lemma_reports_step(
    names: Seq<String>,
    headers: Seq<ModHeader>,
    bad: spec_fn(int) -> bool,
    v: Seq<ModInfo>,
    n: int,
)
    requires
        0 <= n,
        infos_view(v) == reports_upto(names, headers, bad, n),
    ensures
        reports_upto(names, headers, bad, n + 1) == if bad(n) {
            infos_view(v).push(info_at(names, headers, n))
        } else {
            infos_view(v)
        },
{
}

/// The reports of the mods that `flags` marks, in order.
fn collect_reports(
    names: &Vec<String>,
    headers: &Vec<ModHeader>,
    Ghost(bad): Ghost<spec_fn(int) -> bool>,
    flags: &Vec<bool>,
) -> (r: Vec<ModInfo>)
    requires
        names@.len() == headers@.len(),
        flags@.len() == names@.len(),
        forall|k: int| 0 <= k < flags@.len() ==> flags@[k] == bad(k),
    ensures
        infos_view(r@) == reports_upto(names@, headers@, bad, names@.len() as int),
{
    let mut r: Vec<ModInfo> = Vec::new();
    let n = names.len();
    let mut i: usize = 0;
    proof {
        assert(infos_view(r@) =~= reports_upto(names@, headers@, bad, 0));
    }
    while i < n
        invariant
            n == names@.len(),
            names@.len() == headers@.len(),
            flags@.len() == n,
            forall|k: int| 0 <= k < flags@.len() ==> flags@[k] == bad(k),
            i <= n,
            infos_view(r@) == reports_upto(names@, headers@, bad, i as int),
        decreases n - i,
    {
        let ghost r0 = r@;
        proof {
            lemma_reports_step(names@, headers@, bad, r0, i as int);
        }
        if flags[i] {
            let info = ModInfo::new(names[i].clone(), headers[i].id.clone());
            r.push(info);
            proof {
                assert(infos_view(r@) =~= infos_view(r0).push(info_at(names@, headers@, i as int)));
            }
        }
        i = i + 1;
    }
    r
}

/// For each mod, whether it is built for another engine version.
fn incompatible_flags(headers: &Vec<ModHeader>, engine_major: u16, engine_minor: u16) -> (r: Vec<bool>)
    ensures
        r@.len() == headers@.len(),
        forall|k: int| 0 <= k < r@.len() ==> r@[k] == incompatible_at(headers@, engine_major, engine_minor)(k),
{
    let mut r: Vec<bool> = Vec::new();
    let mut i: usize = 0;
    while i < headers.len()
        invariant
            i <= headers@.len(),
            r@.len() == i,
            forall|k: int| 0 <= k < i ==> r@[k] == incompatible_at(headers@, engine_major, engine_minor)(k),
        decreases headers@.len() - i,
    {
        let h = &headers[i];
        r.push(
            h.compatible_engine_major_version != engine_major || h.compatible_engine_minor_version
                > engine_minor,
        );
        i = i + 1;
    }
    r
}

/// For each mod, whether another mod has its id.
fn duplicated_flags(headers: &Vec<ModHeader>) -> (r: Vec<bool>)
    ensures
        r@.len() == headers@.len(),
        forall|k: int| 0 <= k < r@.len() ==> r@[k] == duplicated_at(headers@)(k),
{
    let n = headers.len();
    let mut r: Vec<bool> = Vec::new();
    let mut k: usize = 0;
    while k < n
        invariant
            n == headers@.len(),
            k <= n,
            r@.len() == k,
            forall|m: int| 0 <= m < k ==> r@[m] == duplicated_at(headers@)(m),
        decreases n - k,
    {
        let mut found = false;
        let mut j: usize = 0;
        while j < n
            invariant
                n == headers@.len(),
                k < n,
                j <= n,
                found == exists|m: int| 0 <= m < j && m != k && #[trigger] headers@[m].id@ == headers@[k as int].id@,
            decreases n - j,
        {
            if j != k && headers[j].id == headers[k].id {
                found = true;
            }
            j = j + 1;
        }
        r.push(found);
        k = k + 1;
    }
    r
}

/// The mods built for another engine version, in order.
pub fn version_incompatible(
    names: &Vec<String>,
    headers: &Vec<ModHeader>,
    engine_major_version: u16,
    engine_minor_version: u16,
) -> (r: Vec<ModInfo>)
    requires
        names@.len() == headers@.len(),
    ensures
        infos_view(r@) == reports_upto(
            names@,
            headers@,
            incompatible_at(headers@, engine_major_version, engine_minor_version),
            names@.len() as int,
        ),
{
    let flags = incompatible_flags(headers, engine_major_version, engine_minor_version);
    collect_reports(
        names,
        headers,
        Ghost(incompatible_at(headers@, engine_major_version, engine_minor_version)),
        &flags,
    )
}

/// The mods whose id another mod has too, in order.
pub fn duplicate_ids(names: &Vec<String>, headers: &Vec<ModHeader>) -> (r: Vec<ModInfo>)
    requires
        names@.len() == headers@.len(),
    ensures
        infos_view(r@) == reports_upto(names@, headers@, duplicated_at(headers@), names@.len() as int),
{
    let flags = duplicated_flags(headers);
    collect_reports(names, headers, Ghost(duplicated_at(headers@)), &flags)
}

/// The checks made before any mod is applied: first that every mod is built
/// for this engine version, then that no two mods share an id. Each error
/// lists every mod at fault, in the order the mods were given.
pub fn check_mods(
    names: &Vec<String>,
    headers: &Vec<ModHeader>,
    engine_major_version: u16,
    engine_minor_version: u16,
) -> (r: Result<(), ModsConstructionError>)
    requires
        names@.len() == headers@.len(),
    ensures
        ({
            let n = names@.len() as int;
            let inc = reports_upto(
                names@,
                headers@,
                incompatible_at(headers@, engine_major_version, engine_minor_version),
                n,
            );
            let dup = reports_upto(names@, headers@, duplicated_at(headers@), n);
            if inc.len() > 0 {
                r matches Err(ModsConstructionError::VersionIncompatible(v)) && infos_view(v@) == inc
            } else if dup.len() > 0 {
                r matches Err(ModsConstructionError::DuplicateIds(v)) && infos_view(v@) == dup
            } else {
                r is Ok
            }
        }),
{
    let inc = version_incompatible(names, headers, engine_major_version, engine_minor_version);
    if inc.len() > 0 {
        return Err(ModsConstructionError::VersionIncompatible(inc));
    }
    let dup = duplicate_ids(names, headers);
    if dup.len() > 0 {
        return Err(ModsConstructionError::DuplicateIds(dup));
    }
    Ok(())
}

/// What to do next while the mods are applied one after another, in the
/// order given.
pub enum ApplyStep {
    /// Apply the mod at this position.
    Apply(usize),
    /// Stop: the last mod applied failed.
    Stop(ModsConstructionError),
    /// Every mod was applied; check their conditions next.
    Done,
}

/// The next step after `applied` mods were applied, the last of which
/// reported `last_failed`: a failure stops the loading and names that mod,
/// so no later mod is applied; otherwise the next mod is applied, until all
/// are.
pub fn apply_step(names: &Vec<String>, headers: &Vec<ModHeader>, applied: usize, last_failed: bool) -> (r:
    ApplyStep)
    requires
        names@.len() == headers@.len(),
        applied <= names@.len(),
    ensures
        applied > 0 && last_failed ==> (r matches ApplyStep::Stop(ModsConstructionError::FailedToLoad(m))
            && m@ == info_at(names@, headers@, applied - 1)),
        !(applied > 0 && last_failed) && applied < names@.len() ==> (r matches ApplyStep::Apply(i) && i
            == applied),
        !(applied > 0 && last_failed) && applied == names@.len() ==> r is Done,
{
    if applied > 0 && last_failed {
        let i = applied - 1;
        let info = ModInfo::new(names[i].clone(), headers[i].id.clone());
        ApplyStep::Stop(ModsConstructionError::FailedToLoad(info))
    } else if applied < names.len() {
        ApplyStep::Apply(applied)
    } else {
        ApplyStep::Done
    }
}

/// After every mod was applied and each checked its condition: the mods
/// whose condition failed, in order, or success when none did.
pub fn check_conditions(names: &Vec<String>, headers: &Vec<ModHeader>, failed: &Vec<bool>) -> (r:
    Result<(), ModsConstructionError>)
    requires
        names@.len() == headers@.len(),
        failed@.len() == names@.len(),
    ensures
        ({
            let bad = reports_upto(names@, headers@, failed_at(failed@), names@.len() as int);
            if bad.len() > 0 {
                r matches Err(ModsConstructionError::ConditionNotMet(v)) && infos_view(v@) == bad
            } else {
                r is Ok
            }
        }),
{
    let bad = collect_reports(names, headers, Ghost(failed_at(failed@)), failed);
    if bad.len() > 0 {
        Err(ModsConstructionError::ConditionNotMet(bad))
    } else {
        Ok(())
    }
}

/// Every mod the predicate picks among the first `n` is reported.
pub proof fn lemma_reported_contains(
    names: Seq<String>,
    headers: Seq<ModHeader>,
    bad: spec_fn(int) -> bool,
    n: int,
    k: int,
)
    requires
        0 <= k < n,
        bad(k),
    ensures
        reports_upto(names, headers, bad, n).contains(info_at(names, headers, k)),
    decreases n,
{
    let r = reports_upto(names, headers, bad, n);
    if k == n - 1 {
        assert(r[r.len() - 1] == info_at(names, headers, k));
    } else {
        lemma_reported_contains(names, headers, bad, n - 1, k);
        let prev = reports_upto(names, headers, bad, n - 1);
        let j = choose|j: int| 0 <= j < prev.len() && prev[j] == info_at(names, headers, k);
        if bad(n - 1) {
            assert(r[j] == prev[j]);
        }
    }
}

/// Version compatibility: a mod is refused exactly when its major version
/// differs from the engine's, lower or higher, or its minor version is newer
/// than the engine's.
pub proof fn lemma_incompatible_iff(headers: Seq<ModHeader>, engine_major: u16, engine_minor: u16, k: int)
    ensures
        incompatible_at(headers, engine_major, engine_minor)(k) <==> (headers[k].compatible_engine_major_version
            != engine_major || headers[k].compatible_engine_minor_version > engine_minor),
{
}

/// A mod built for another major version, older or newer, is listed among
/// the version-incompatible mods, so the checks before applying fail with
/// `VersionIncompatible`.
pub proof fn lemma_other_major_rejected(
    names: Seq<String>,
    headers: Seq<ModHeader>,
    engine_major: u16,
    engine_minor: u16,
    k: int,
)
    requires
        names.len() == headers.len(),
        0 <= k < names.len(),
        headers[k].compatible_engine_major_version != engine_major,
    ensures
        ({
            let inc = reports_upto(
                names,
                headers,
                incompatible_at(headers, engine_major, engine_minor),
                names.len() as int,
            );
            &&& inc.len() > 0
            &&& inc.contains(info_at(names, headers, k))
        }),
{
    lemma_reported_contains(names, headers, incompatible_at(headers, engine_major, engine_minor), names.len() as int, k);
}

/// A mod is reported exactly when the predicate picks it.
pub proof fn lemma_reported_iff(
    names: Seq<String>,
    headers: Seq<ModHeader>,
    bad: spec_fn(int) -> bool,
    n: int,
)
    requires
        0 <= n <= names.len(),
        names.len() == headers.len(),
    ensures
        reports_upto(names, headers, bad, n).len() > 0 <==> exists|k: int| 0 <= k < n && #[trigger] bad(k),
    decreases n,
{
    if n > 0 {
        lemma_reported_iff(names, headers, bad, n - 1);
        if bad(n - 1) {
            assert(bad(n - 1));
        }
    }
}

} // verus!
