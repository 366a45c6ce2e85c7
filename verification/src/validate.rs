//! The capability-graph validator.
//!
//! A kbuild-enabled crate reads its activation state from the
//! configuration file directly, so a parent crate must not steer it
//! through a `pkg/sub_feature` dependency spec.  The validator walks every
//! `CONFIG_`-prefixed feature of every kbuild-enabled crate and rejects
//! the first dependency spec whose target is itself a kbuild-enabled
//! workspace crate.  Sub-features on non-enabled workspace crates and on
//! third-party packages are allowed.

use vstd::prelude::*;

use crate::strops;
use crate::workspace::{SpecCrate, Workspace, spec_is_kbuild_enabled};

verus! {

/// The dependency spec `d` carries a `/sub_feature` part.
pub open spec fn dep_has_slash(d: Seq<char>) -> bool {
    strops::first_at(d, '/') < d.len()
}

/// The package part of a dependency spec: everything before the first
/// `/`.
pub open spec fn dep_pkg(d: Seq<char>) -> Seq<char> {
    d.subrange(0, strops::first_at(d, '/'))
}

/// The sub-feature part of a dependency spec: everything after the first
/// `/`.
pub open spec fn dep_sub(d: Seq<char>) -> Seq<char> {
    d.subrange(strops::first_at(d, '/') + 1, d.len() as int)
}

/// Some crate of the workspace is named `name` and is kbuild-enabled.
pub open spec fn some_enabled_crate_named(ws: Seq<SpecCrate>, name: Seq<char>) -> bool {
    exists|i: int| 0 <= i < ws.len() && #[trigger] ws[i].name == name && spec_is_kbuild_enabled(ws[i])
}

/// Some crate of the workspace is named `name`.
pub open spec fn some_crate_named(ws: Seq<SpecCrate>, name: Seq<char>) -> bool {
    exists|i: int| 0 <= i < ws.len() && #[trigger] ws[i].name == name
}

/// The dependency spec at `ws[i].features[j].deps[k]` breaks the rule:
/// it stands in a `CONFIG_`-prefixed feature of a kbuild-enabled crate,
/// carries a sub-feature, and its target is a kbuild-enabled workspace
/// crate.
pub open spec fn is_violation_at(ws: Seq<SpecCrate>, i: int, j: int, k: int) -> bool {
    &&& 0 <= i < ws.len()
    &&& 0 <= j < ws[i].features.len()
    &&& 0 <= k < ws[i].features[j].deps.len()
    &&& spec_is_kbuild_enabled(ws[i])
    &&& strops::spec_starts_with(ws[i].features[j].name, "CONFIG_"@)
    &&& dep_has_slash(ws[i].features[j].deps[k])
    &&& some_enabled_crate_named(ws, dep_pkg(ws[i].features[j].deps[k]))
}

/// Some dependency spec of the workspace breaks the rule.
pub open spec fn has_violation(ws: Seq<SpecCrate>) -> bool {
    exists|i: int, j: int, k: int| is_violation_at(ws, i, j, k)
}

/// Mathematical image of a reported conflict.
pub ghost struct SpecConflict {
    pub package: Seq<char>,
    pub feature: Seq<char>,
    pub dep: Seq<char>,
    pub target: Seq<char>,
    pub sub_feature: Seq<char>,
}

/// The reported conflict describes an actual violation in `ws`.
pub open spec fn conflict_matches(ws: Seq<SpecCrate>, e: SpecConflict) -> bool {
    exists|i: int, j: int, k: int|
        {
            &&& #[trigger] is_violation_at(ws, i, j, k)
            &&& ws[i].name == e.package
            &&& ws[i].features[j].name == e.feature
            &&& ws[i].features[j].deps[k] == e.dep
            &&& dep_pkg(e.dep) == e.target
            &&& dep_sub(e.dep) == e.sub_feature
        }
}

/// A dependency conflict: a kbuild-enabled crate's configuration feature
/// tries to steer another kbuild-enabled crate through a sub-feature.
pub struct ConfigAwareDependencyConflict {
    /// The crate whose feature holds the offending dependency spec.
    pub package: String,
    /// The `CONFIG_`-prefixed feature holding the spec.
    pub feature: String,
    /// The full offending dependency spec, `target/sub_feature`.
    pub dep: String,
    /// The kbuild-enabled crate the spec points at.
    pub target: String,
    /// The sub-feature the spec tries to force on the target.
    pub sub_feature: String,
}

impl View for ConfigAwareDependencyConflict {
    type V = SpecConflict;

    open spec fn view(&self) -> SpecConflict {
        SpecConflict {
            package: self.package@,
            feature: self.feature@,
            dep: self.dep@,
            target: self.target@,
            sub_feature: self.sub_feature@,
        }
    }
}

impl ConfigAwareDependencyConflict {
    /// The full diagnostic text of the conflict: it names the package,
    /// the feature, the dependency spec and the target, and states the
    /// remedy.
    pub fn message(&self) -> (r: String)
        ensures
            r@ == "Error in crate '"@ + self.package@ + "': feature '"@ + self.feature@
                + "' specifies sub-feature '"@ + self.dep@ + "'. Dependency '"@ + self.target@
                + "' is kbuild-enabled: it reads CONFIG_* from .config directly and cannot be controlled by a parent crate. Solution: change the feature to '"@
                + self.feature@ + " = [\""@ + self.target@ + "\"]' and enable '"@
                + self.sub_feature@
                + "' in the .config file instead. Note: third-party crates are allowed sub-features."@,
    {
        let mut out = String::new();
        out.append("Error in crate '");
        out.append(self.package.as_str());
        out.append("': feature '");
        out.append(self.feature.as_str());
        out.append("' specifies sub-feature '");
        out.append(self.dep.as_str());
        out.append("'. Dependency '");
        out.append(self.target.as_str());
        out.append(
            "' is kbuild-enabled: it reads CONFIG_* from .config directly and cannot be controlled by a parent crate. Solution: change the feature to '",
        );
        out.append(self.feature.as_str());
        out.append(" = [\"");
        out.append(self.target.as_str());
        out.append("\"]' and enable '");
        out.append(self.sub_feature.as_str());
        out.append("' in the .config file instead. Note: third-party crates are allowed sub-features.");
        out
    }
}

/// Whether some crate named `name` is kbuild-enabled.
fn any_enabled_crate_named(workspace: &Workspace, name: &str) -> (r: bool)
    ensures
        r == some_enabled_crate_named(workspace@, name@),
{
    let ghost ws = workspace@;
    let mut i: usize = 0;
    while i < workspace.crates.len()
        invariant
            0 <= i <= workspace.crates.len(),
            ws == workspace@,
            ws.len() == workspace.crates@.len(),
            forall|j: int|
                0 <= j < i ==> !(#[trigger] ws[j].name == name@ && spec_is_kbuild_enabled(ws[j])),
        decreases workspace.crates.len() - i,
    {
        if strops::str_eq(workspace.crates[i].name.as_str(), name) {
            if workspace.crates[i].is_kbuild_enabled() {
                assert(ws[i as int].name == name@ && spec_is_kbuild_enabled(ws[i as int]));
                return true;
            }
        }
        i += 1;
    }
    false
}

/// Checks every dependency spec of every `CONFIG_`-prefixed feature of
/// every kbuild-enabled crate, and rejects the first one whose target is
/// itself a kbuild-enabled workspace crate.
///
/// Returns `Ok` exactly when no such spec exists; the error identifies
/// an offending spec.  Which of several simultaneous violations is
/// reported is left open, as iteration order over manifests is an
/// artefact of discovery order.
pub fn validate_features(workspace: &Workspace) -> (r: Result<(), ConfigAwareDependencyConflict>)
    ensures
        r is Ok <==> !has_violation(workspace@),
        r matches Err(e) ==> conflict_matches(workspace@, e@),
{
    let ghost ws = workspace@;
    let mut i: usize = 0;
    while i < workspace.crates.len()
        invariant
            0 <= i <= workspace.crates.len(),
            ws == workspace@,
            ws.len() == workspace.crates@.len(),
            forall|a: int, b: int, c: int| 0 <= a < i ==> !is_violation_at(ws, a, b, c),
        decreases workspace.crates.len() - i,
    {
        let krate = &workspace.crates[i];
        if krate.is_kbuild_enabled() {
            let mut j: usize = 0;
            while j < krate.features.len()
                invariant
                    0 <= j <= krate.features.len(),
                    ws == workspace@,
                    ws.len() == workspace.crates@.len(),
                    0 <= i < workspace.crates@.len(),
                    krate == workspace.crates[i as int],
                    krate@ == ws[i as int],
                    spec_is_kbuild_enabled(ws[i as int]),
                    krate@.features.len() == krate.features@.len(),
                    forall|a: int, b: int, c: int| 0 <= a < i ==> !is_violation_at(ws, a, b, c),
                    forall|b: int, c: int| 0 <= b < j ==> !is_violation_at(ws, i as int, b, c),
                decreases krate.features.len() - j,
            {
                let feature = &krate.features[j];
                if strops::str_starts_with(feature.name.as_str(), "CONFIG_") {
                    let mut k: usize = 0;
                    while k < feature.deps.len()
                        invariant
                            0 <= k <= feature.deps.len(),
                            ws == workspace@,
                            ws.len() == workspace.crates@.len(),
                            0 <= i < workspace.crates@.len(),
                            0 <= j < krate.features@.len(),
                            krate == workspace.crates[i as int],
                            krate@ == ws[i as int],
                            spec_is_kbuild_enabled(ws[i as int]),
                            krate@.features.len() == krate.features@.len(),
                            feature == krate.features[j as int],
                            feature@ == krate@.features[j as int],
                            strops::spec_starts_with(feature@.name, "CONFIG_"@),
                            feature@.deps.len() == feature.deps@.len(),
                            forall|a: int, b: int, c: int|
                                0 <= a < i ==> !is_violation_at(ws, a, b, c),
                            forall|b: int, c: int|
                                0 <= b < j ==> !is_violation_at(ws, i as int, b, c),
                            forall|c: int| 0 <= c < k ==> !is_violation_at(ws, i as int, j as int, c),
                        decreases feature.deps.len() - k,
                    {
                        let dep = &feature.deps[k];
                        let ghost dv = feature@.deps[k as int];
                        proof {
                            assert(dv == dep@);
                            strops::lemma_first_at_props(dv, '/');
                        }
                        match strops::find_char(dep.as_str(), '/') {
                            Option::Some(sl) => {
                                let dep_len = dep.as_str().unicode_len();
                                let pkg_name = dep.as_str().substring_char(0, sl);
                                let sub_feature = dep.as_str().substring_char(sl + 1, dep_len);
                                if any_enabled_crate_named(workspace, pkg_name) {
                                    let e = ConfigAwareDependencyConflict {
                                        package: strops::str_to_string(krate.name.as_str()),
                                        feature: strops::str_to_string(feature.name.as_str()),
                                        dep: strops::str_to_string(dep.as_str()),
                                        target: strops::str_to_string(pkg_name),
                                        sub_feature: strops::str_to_string(sub_feature),
                                    };
                                    proof {
                                        assert(is_violation_at(ws, i as int, j as int, k as int));
                                    }
                                    return Result::Err(e);
                                }
                            },
                            Option::None => {},
                        }
                        k += 1;
                    }
                }
                j += 1;
            }
        }
        i += 1;
    }
    proof {
        assert(!has_violation(ws)) by {
            if has_violation(ws) {
                let (a, b, c): (int, int, int) = choose|a: int, b: int, c: int|
                    is_violation_at(ws, a, b, c);
                assert(!is_violation_at(ws, a, b, c));
            }
        }
    }
    Result::Ok(())
}

/// Mathematical image of one informational note.
pub ghost struct SpecNote {
    pub package: Seq<char>,
    pub feature: Seq<char>,
    pub dep: Seq<char>,
    pub target: Seq<char>,
    pub in_workspace: bool,
}

/// One informational note: a sub-feature dependency spec that the rule
/// allows, because its target is not a kbuild-enabled workspace crate.
pub struct DepNote {
    /// The crate whose feature holds the spec.
    pub package: String,
    /// The `CONFIG_`-prefixed feature holding the spec.
    pub feature: String,
    /// The full dependency spec.
    pub dep: String,
    /// The package the spec points at.
    pub target: String,
    /// The target is a workspace crate (necessarily not kbuild-enabled);
    /// otherwise it is a third-party package.
    pub in_workspace: bool,
}

impl View for DepNote {
    type V = SpecNote;

    open spec fn view(&self) -> SpecNote {
        SpecNote {
            package: self.package@,
            feature: self.feature@,
            dep: self.dep@,
            target: self.target@,
            in_workspace: self.in_workspace,
        }
    }
}

impl DeepView for DepNote {
    type V = SpecNote;

    open spec fn deep_view(&self) -> SpecNote {
        self.view()
    }
}

/// The spec at `ws[i].features[j].deps[k]` earns a note: it stands in a
/// `CONFIG_`-prefixed feature of a kbuild-enabled crate, carries a
/// sub-feature, and its target is allowed.
pub open spec fn is_note_at(ws: Seq<SpecCrate>, i: int, j: int, k: int) -> bool {
    &&& 0 <= i < ws.len()
    &&& 0 <= j < ws[i].features.len()
    &&& 0 <= k < ws[i].features[j].deps.len()
    &&& spec_is_kbuild_enabled(ws[i])
    &&& strops::spec_starts_with(ws[i].features[j].name, "CONFIG_"@)
    &&& dep_has_slash(ws[i].features[j].deps[k])
    &&& !some_enabled_crate_named(ws, dep_pkg(ws[i].features[j].deps[k]))
}

/// The note recorded for the spec at `ws[i].features[j].deps[k]`.
pub open spec fn spec_note_of(ws: Seq<SpecCrate>, i: int, j: int, k: int) -> SpecNote {
    let d = ws[i].features[j].deps[k];
    SpecNote {
        package: ws[i].name,
        feature: ws[i].features[j].name,
        dep: d,
        target: dep_pkg(d),
        in_workspace: some_crate_named(ws, dep_pkg(d)),
    }
}

/// The notes of one feature's dependency list from index `k` on.
pub open spec fn notes_of_deps(ws: Seq<SpecCrate>, i: int, j: int, k: int) -> Seq<SpecNote>
    decreases ws[i].features[j].deps.len() - k,
{
    if 0 <= i < ws.len() && 0 <= j < ws[i].features.len() && 0 <= k
        < ws[i].features[j].deps.len() {
        let here = if is_note_at(ws, i, j, k) {
            seq![spec_note_of(ws, i, j, k)]
        } else {
            Seq::empty()
        };
        here + notes_of_deps(ws, i, j, k + 1)
    } else {
        Seq::empty()
    }
}

/// The notes of one crate's features from index `j` on.
pub open spec fn notes_of_feats(ws: Seq<SpecCrate>, i: int, j: int) -> Seq<SpecNote>
    decreases ws[i].features.len() - j,
{
    if 0 <= i < ws.len() && 0 <= j < ws[i].features.len() {
        let here = if strops::spec_starts_with(ws[i].features[j].name, "CONFIG_"@) {
            notes_of_deps(ws, i, j, 0)
        } else {
            Seq::empty()
        };
        here + notes_of_feats(ws, i, j + 1)
    } else {
        Seq::empty()
    }
}

/// The notes of the workspace's crates from index `i` on.
pub open spec fn notes_of_crates(ws: Seq<SpecCrate>, i: int) -> Seq<SpecNote>
    decreases ws.len() - i,
{
    if 0 <= i < ws.len() {
        let here = if spec_is_kbuild_enabled(ws[i]) {
            notes_of_feats(ws, i, 0)
        } else {
            Seq::empty()
        };
        here + notes_of_crates(ws, i + 1)
    } else {
        Seq::empty()
    }
}

/// Every informational note of the workspace, in iteration order.
pub open spec fn spec_dep_notes(ws: Seq<SpecCrate>) -> Seq<SpecNote> {
    notes_of_crates(ws, 0)
}

/// Whether some crate of the workspace is named `name`, kbuild-enabled
/// or not.
fn any_crate_named(workspace: &Workspace, name: &str) -> (r: bool)
    ensures
        r == some_crate_named(workspace@, name@),
{
    let ghost ws = workspace@;
    let mut i: usize = 0;
    while i < workspace.crates.len()
        invariant
            0 <= i <= workspace.crates.len(),
            ws == workspace@,
            ws.len() == workspace.crates@.len(),
            forall|j: int| 0 <= j < i ==> #[trigger] ws[j].name != name@,
        decreases workspace.crates.len() - i,
    {
        if strops::str_eq(workspace.crates[i].name.as_str(), name) {
            assert(ws[i as int].name == name@);
            return true;
        }
        i += 1;
    }
    false
}

/// Collects the informational notes: every sub-feature dependency spec
/// that the rule allows, each tagged with whether its target is a
/// non-enabled workspace sibling or a third-party package.
pub fn dep_notes(workspace: &Workspace) -> (r: Vec<DepNote>)
    ensures
        r.deep_view() == spec_dep_notes(workspace@),
{
    let ghost ws = workspace@;
    let mut out: Vec<DepNote> = Vec::new();
    proof {
        assert(out.deep_view() =~= Seq::<SpecNote>::empty());
    }
    let mut i: usize = 0;
    while i < workspace.crates.len()
        invariant
            0 <= i <= workspace.crates.len(),
            ws == workspace@,
            ws.len() == workspace.crates@.len(),
            out.deep_view() + notes_of_crates(ws, i as int) == spec_dep_notes(ws),
        decreases workspace.crates.len() - i,
    {
        let krate = &workspace.crates[i];
        if krate.is_kbuild_enabled() {
            let mut j: usize = 0;
            while j < krate.features.len()
                invariant
                    0 <= j <= krate.features.len(),
                    ws == workspace@,
                    ws.len() == workspace.crates@.len(),
                    0 <= i < workspace.crates@.len(),
                    krate == workspace.crates[i as int],
                    krate@ == ws[i as int],
                    spec_is_kbuild_enabled(ws[i as int]),
                    krate@.features.len() == krate.features@.len(),
                    out.deep_view() + notes_of_feats(ws, i as int, j as int) + notes_of_crates(
                        ws,
                        i as int + 1,
                    ) == spec_dep_notes(ws),
                decreases krate.features.len() - j,
            {
                let feature = &krate.features[j];
                if strops::str_starts_with(feature.name.as_str(), "CONFIG_") {
                    let mut k: usize = 0;
                    while k < feature.deps.len()
                        invariant
                            0 <= k <= feature.deps.len(),
                            ws == workspace@,
                            ws.len() == workspace.crates@.len(),
                            0 <= i < workspace.crates@.len(),
                            0 <= j < krate.features@.len(),
                            krate == workspace.crates[i as int],
                            krate@ == ws[i as int],
                            spec_is_kbuild_enabled(ws[i as int]),
                            krate@.features.len() == krate.features@.len(),
                            feature == krate.features[j as int],
                            feature@ == krate@.features[j as int],
                            strops::spec_starts_with(feature@.name, "CONFIG_"@),
                            feature@.deps.len() == feature.deps@.len(),
                            out.deep_view() + notes_of_deps(ws, i as int, j as int, k as int)
                                + notes_of_feats(ws, i as int, j as int + 1) + notes_of_crates(
                                ws,
                                i as int + 1,
                            ) == spec_dep_notes(ws),
                        decreases feature.deps.len() - k,
                    {
                        let dep = &feature.deps[k];
                        let ghost dv = feature@.deps[k as int];
                        proof {
                            assert(dv == dep@);
                            strops::lemma_first_at_props(dv, '/');
                        }
                        match strops::find_char(dep.as_str(), '/') {
                            Option::Some(sl) => {
                                let pkg_name = dep.as_str().substring_char(0, sl);
                                proof {
                                    assert(pkg_name@ == dep_pkg(dv));
                                }
                                if !any_enabled_crate_named(workspace, pkg_name) {
                                    let in_ws = any_crate_named(workspace, pkg_name);
                                    let ghost before = out.deep_view();
                                    let note = DepNote {
                                        package: strops::str_to_string(krate.name.as_str()),
                                        feature: strops::str_to_string(feature.name.as_str()),
                                        dep: strops::str_to_string(dep.as_str()),
                                        target: strops::str_to_string(pkg_name),
                                        in_workspace: in_ws,
                                    };
                                    let ghost nv = note@;
                                    out.push(note);
                                    proof {
                                        assert(is_note_at(ws, i as int, j as int, k as int));
                                        assert(nv == spec_note_of(ws, i as int, j as int, k as int));
                                        assert(out.deep_view() =~= before.push(nv));
                                        assert(before.push(nv) + notes_of_deps(
                                            ws,
                                            i as int,
                                            j as int,
                                            k as int + 1,
                                        ) =~= before + (seq![nv] + notes_of_deps(
                                            ws,
                                            i as int,
                                            j as int,
                                            k as int + 1,
                                        )));
                                    }
                                } else {
                                    proof {
                                        assert(!is_note_at(ws, i as int, j as int, k as int));
                                    }
                                }
                            },
                            Option::None => {
                                proof {
                                    assert(!dep_has_slash(dv));
                                    assert(!is_note_at(ws, i as int, j as int, k as int));
                                }
                            },
                        }
                        k += 1;
                    }
                }
                j += 1;
            }
        }
        i += 1;
    }
    out
}

/// The conflict-detection law, rejecting half.  A `CONFIG_`-prefixed
/// feature of a kbuild-enabled crate whose dependency spec carries a
/// sub-feature and targets a kbuild-enabled workspace crate is a
/// violation, so `validate_features` returns the conflict error.
pub proof fn lemma_conflict_detected(ws: Seq<SpecCrate>, i: int, j: int, k: int)
    requires
        0 <= i < ws.len(),
        0 <= j < ws[i].features.len(),
        0 <= k < ws[i].features[j].deps.len(),
        spec_is_kbuild_enabled(ws[i]),
        strops::spec_starts_with(ws[i].features[j].name, "CONFIG_"@),
        dep_has_slash(ws[i].features[j].deps[k]),
        some_enabled_crate_named(ws, dep_pkg(ws[i].features[j].deps[k])),
    ensures
        has_violation(ws),
{
    assert(is_violation_at(ws, i, j, k));
}

/// The conflict-detection law, accepting half.  When every sub-feature
/// dependency spec in the workspace targets a package that is not a
/// kbuild-enabled workspace crate, there is no violation, so
/// `validate_features` returns `Ok`.
pub proof fn lemma_no_conflict(ws: Seq<SpecCrate>)
    requires
        forall|i: int, j: int, k: int|
            (0 <= i < ws.len() && 0 <= j < ws[i].features.len() && 0 <= k
                < ws[i].features[j].deps.len() && dep_has_slash(
                #[trigger] ws[i].features[j].deps[k],
            )) ==> !some_enabled_crate_named(ws, dep_pkg(ws[i].features[j].deps[k])),
    ensures
        !has_violation(ws),
{
    if has_violation(ws) {
        let (i, j, k): (int, int, int) = choose|i: int, j: int, k: int|
            is_violation_at(ws, i, j, k);
        assert(dep_has_slash(ws[i].features[j].deps[k]));
        assert(!some_enabled_crate_named(ws, dep_pkg(ws[i].features[j].deps[k])));
    }
}

} // verus!
