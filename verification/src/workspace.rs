//! The workspace model: member crates, their declared features, and which
//! of them take part in configuration-driven builds.
//!
//! A crate is kbuild-enabled when its manifest marks it so, or when any of
//! its feature names carries the `CONFIG_` prefix.  Such a crate reads its
//! activation state from the configuration file directly.

use vstd::prelude::*;

use crate::strops;

verus! {

/// Mathematical image of one declared feature.
pub ghost struct SpecFeature {
    pub name: Seq<char>,
    pub deps: Seq<Seq<char>>,
}

/// Mathematical image of one workspace member.
pub ghost struct SpecCrate {
    pub name: Seq<char>,
    pub has_kbuild: bool,
    pub features: Seq<SpecFeature>,
}

/// One feature as a manifest declares it: a name and an ordered list of
/// dependency specs (`pkg` or `pkg/sub_feature`).
pub struct Feature {
    pub name: String,
    pub deps: Vec<String>,
}

impl View for Feature {
    type V = SpecFeature;

    open spec fn view(&self) -> SpecFeature {
        SpecFeature { name: self.name@, deps: self.deps.deep_view() }
    }
}

/// One workspace member: its package name, whether its manifest metadata
/// marks it kbuild-enabled, and its declared features in manifest order.
pub struct CrateInfo {
    pub name: String,
    pub has_kbuild: bool,
    pub features: Vec<Feature>,
}

impl View for CrateInfo {
    type V = SpecCrate;

    open spec fn view(&self) -> SpecCrate {
        SpecCrate {
            name: self.name@,
            has_kbuild: self.has_kbuild,
            features: self.features@.map_values(|f: Feature| f@),
        }
    }
}

/// The workspace: its member crates in declaration order.
pub struct Workspace {
    pub crates: Vec<CrateInfo>,
}

impl View for Workspace {
    type V = Seq<SpecCrate>;

    open spec fn view(&self) -> Seq<SpecCrate> {
        self.crates@.map_values(|c: CrateInfo| c@)
    }
}

/// The crate takes part in configuration-driven builds: marked in its
/// manifest metadata, or declaring a `CONFIG_`-prefixed feature.
pub open spec fn spec_is_kbuild_enabled(c: SpecCrate) -> bool {
    c.has_kbuild || exists|i: int|
        0 <= i < c.features.len() && strops::spec_starts_with(#[trigger] c.features[i].name, "CONFIG_"@)
}

/// Index of the first crate named `name`, or `ws.len()` when there is
/// none.
pub open spec fn crate_index_of(ws: Seq<SpecCrate>, name: Seq<char>) -> int
    decreases ws.len(),
{
    if ws.len() == 0 {
        0
    } else if ws[0].name == name {
        0
    } else {
        1 + crate_index_of(ws.drop_first(), name)
    }
}

/// `crate_index_of` is in bounds, earlier crates have other names, and it
/// points at `name` whenever it is in range.
proof fn lemma_crate_index_of_props(ws: Seq<SpecCrate>, name: Seq<char>)
    ensures
        0 <= crate_index_of(ws, name) <= ws.len(),
        forall|j: int| 0 <= j < crate_index_of(ws, name) ==> ws[j].name != name,
        crate_index_of(ws, name) < ws.len() ==> ws[crate_index_of(ws, name)].name == name,
    decreases ws.len(),
{
    if ws.len() > 0 && ws[0].name != name {
        let rest = ws.drop_first();
        lemma_crate_index_of_props(rest, name);
        assert forall|j: int| 0 <= j < crate_index_of(ws, name) implies ws[j].name != name by {
            if j > 0 {
                assert(ws[j] == rest[j - 1]);
            }
        }
    }
}

/// `crate_index_of` finds exactly the least index named `name`.
proof fn lemma_crate_index_of_is(ws: Seq<SpecCrate>, name: Seq<char>, i: int)
    requires
        0 <= i < ws.len(),
        ws[i].name == name,
        forall|j: int| 0 <= j < i ==> ws[j].name != name,
    ensures
        crate_index_of(ws, name) == i,
    decreases ws.len(),
{
    if ws[0].name != name {
        let rest = ws.drop_first();
        assert forall|j: int| 0 <= j < i - 1 implies rest[j].name != name by {
            assert(rest[j] == ws[j + 1]);
        }
        assert(rest[i - 1] == ws[i]);
        lemma_crate_index_of_is(rest, name, i - 1);
    }
}

/// With no crate named `name`, `crate_index_of` is `ws.len()`.
proof fn lemma_crate_index_of_is_len(ws: Seq<SpecCrate>, name: Seq<char>)
    requires
        forall|j: int| 0 <= j < ws.len() ==> ws[j].name != name,
    ensures
        crate_index_of(ws, name) == ws.len(),
    decreases ws.len(),
{
    if ws.len() > 0 {
        let rest = ws.drop_first();
        assert forall|j: int| 0 <= j < rest.len() implies rest[j].name != name by {
            assert(rest[j] == ws[j + 1]);
        }
        lemma_crate_index_of_is_len(rest, name);
    }
}

/// Some crate of the workspace is named `name`.
pub open spec fn spec_has_crate(ws: Seq<SpecCrate>, name: Seq<char>) -> bool {
    crate_index_of(ws, name) < ws.len()
}

/// The first crate named `name` is kbuild-enabled.
pub open spec fn spec_dep_kbuild_enabled(ws: Seq<SpecCrate>, name: Seq<char>) -> bool {
    spec_has_crate(ws, name) && spec_is_kbuild_enabled(ws[crate_index_of(ws, name)])
}

impl CrateInfo {
    /// Whether this crate takes part in configuration-driven builds.
    pub fn is_kbuild_enabled(&self) -> (r: bool)
        ensures
            r == spec_is_kbuild_enabled(self@),
    {
        if self.has_kbuild {
            return true;
        }
        let mut i: usize = 0;
        while i < self.features.len()
            invariant
                0 <= i <= self.features.len(),
                forall|j: int|
                    0 <= j < i ==> !strops::spec_starts_with(
                        #[trigger] self@.features[j].name,
                        "CONFIG_"@,
                    ),
            decreases self.features.len() - i,
        {
            if strops::str_starts_with(self.features[i].name.as_str(), "CONFIG_") {
                assert(strops::spec_starts_with(self@.features[i as int].name, "CONFIG_"@));
                return true;
            }
            i += 1;
        }
        false
    }
}

impl Workspace {
    /// The first crate named `name`, when there is one.
    pub fn find_crate(&self, name: &str) -> (r: Option<&CrateInfo>)
        ensures
            match r {
                Option::Some(c) => spec_has_crate(self@, name@) && c@ == self@[crate_index_of(
                    self@,
                    name@,
                )],
                Option::None => !spec_has_crate(self@, name@),
            },
    {
        let ghost ws = self@;
        let mut i: usize = 0;
        while i < self.crates.len()
            invariant
                0 <= i <= self.crates.len(),
                ws == self@,
                forall|j: int| 0 <= j < i ==> ws[j].name != name@,
            decreases self.crates.len() - i,
        {
            if strops::str_eq(self.crates[i].name.as_str(), name) {
                proof {
                    lemma_crate_index_of_is(ws, name@, i as int);
                }
                return Option::Some(&self.crates[i]);
            }
            i += 1;
        }
        proof {
            lemma_crate_index_of_is_len(ws, name@);
        }
        Option::None
    }
}

/// Folds one crate's feature names into the accumulated configuration
/// list: a `CONFIG_`-prefixed name not yet present is appended.
pub open spec fn add_feature_names(acc: Seq<Seq<char>>, fs: Seq<SpecFeature>) -> Seq<Seq<char>>
    decreases fs.len(),
{
    if fs.len() == 0 {
        acc
    } else {
        let n = fs[0].name;
        let acc2 = if strops::spec_starts_with(n, "CONFIG_"@) && !acc.contains(n) {
            acc.push(n)
        } else {
            acc
        };
        add_feature_names(acc2, fs.drop_first())
    }
}

/// Folds the kbuild-enabled crates of the workspace, in order, into the
/// accumulated configuration list.
pub open spec fn add_crate_configs(acc: Seq<Seq<char>>, ws: Seq<SpecCrate>) -> Seq<Seq<char>>
    decreases ws.len(),
{
    if ws.len() == 0 {
        acc
    } else {
        let acc2 = if spec_is_kbuild_enabled(ws[0]) {
            add_feature_names(acc, ws[0].features)
        } else {
            acc
        };
        add_crate_configs(acc2, ws.drop_first())
    }
}

/// Every `CONFIG_`-prefixed feature name of a kbuild-enabled crate, in
/// first-occurrence order, without repetition.
pub open spec fn spec_all_configs(ws: Seq<SpecCrate>) -> Seq<Seq<char>> {
    add_crate_configs(Seq::empty(), ws)
}

/// Some kbuild-enabled crate declares the `CONFIG_`-prefixed feature `x`.
pub open spec fn declares_config(ws: Seq<SpecCrate>, x: Seq<char>) -> bool {
    strops::spec_starts_with(x, "CONFIG_"@) && exists|i: int, j: int|
        0 <= i < ws.len() && 0 <= j < ws[i].features.len() && spec_is_kbuild_enabled(ws[i])
            && #[trigger] ws[i].features[j].name == x
}

/// A feature of a kbuild-enabled crate, as `declares_config` asks for one.
pub open spec fn is_declaration(ws: Seq<SpecCrate>, i: int, j: int, x: Seq<char>) -> bool {
    0 <= i < ws.len() && 0 <= j < ws[i].features.len() && spec_is_kbuild_enabled(ws[i])
        && ws[i].features[j].name == x && strops::spec_starts_with(x, "CONFIG_"@)
}

proof fn lemma_add_feature_names_membership(acc: Seq<Seq<char>>, fs: Seq<SpecFeature>)
    ensures
        forall|x: Seq<char>|
            add_feature_names(acc, fs).contains(x) <==> acc.contains(x) || (
            strops::spec_starts_with(x, "CONFIG_"@) && exists|j: int|
                0 <= j < fs.len() && #[trigger] fs[j].name == x),
    decreases fs.len(),
{
    if fs.len() > 0 {
        let n = fs[0].name;
        let acc2 = if strops::spec_starts_with(n, "CONFIG_"@) && !acc.contains(n) {
            acc.push(n)
        } else {
            acc
        };
        lemma_add_feature_names_membership(acc2, fs.drop_first());
        assert forall|x: Seq<char>|
            add_feature_names(acc, fs).contains(x) <==> acc.contains(x) || (
            strops::spec_starts_with(x, "CONFIG_"@) && exists|j: int|
                0 <= j < fs.len() && #[trigger] fs[j].name == x) by {
            if acc2.contains(x) && !acc.contains(x) {
                assert(x == n);
                assert(fs[0].name == x);
            }
            if acc.contains(x) {
                let k = choose|k: int| 0 <= k < acc.len() && acc[k] == x;
                assert(acc2[k] == x);
                assert(acc2.contains(x));
            }
            if strops::spec_starts_with(x, "CONFIG_"@) && exists|j: int|
                0 <= j < fs.len() && #[trigger] fs[j].name == x {
                let j = choose|j: int| 0 <= j < fs.len() && #[trigger] fs[j].name == x;
                if j == 0 {
                    if !acc.contains(x) {
                        assert(acc2 == acc.push(x));
                        assert(acc2[acc.len() as int] == x);
                        assert(acc2.contains(x));
                    } else {
                        let k = choose|k: int| 0 <= k < acc.len() && acc[k] == x;
                        assert(acc2[k] == x);
                        assert(acc2.contains(x));
                    }
                } else {
                    assert(fs.drop_first()[j - 1].name == x);
                }
            }
        }
    }
}

proof fn lemma_add_crate_configs_membership(acc: Seq<Seq<char>>, ws: Seq<SpecCrate>)
    ensures
        forall|x: Seq<char>|
            add_crate_configs(acc, ws).contains(x) <==> acc.contains(x) || declares_config(ws, x),
    decreases ws.len(),
{
    if ws.len() > 0 {
        let acc2 = if spec_is_kbuild_enabled(ws[0]) {
            add_feature_names(acc, ws[0].features)
        } else {
            acc
        };
        if spec_is_kbuild_enabled(ws[0]) {
            lemma_add_feature_names_membership(acc, ws[0].features);
        }
        lemma_add_crate_configs_membership(acc2, ws.drop_first());
        let rest = ws.drop_first();
        assert forall|x: Seq<char>|
            add_crate_configs(acc, ws).contains(x) <==> acc.contains(x) || declares_config(
            ws,
            x,
        ) by {
            if declares_config(rest, x) {
                let (i, j): (int, int) = choose|i: int, j: int|
                    0 <= i < rest.len() && 0 <= j < rest[i].features.len()
                        && spec_is_kbuild_enabled(rest[i]) && #[trigger] rest[i].features[j].name
                        == x;
                assert(rest[i] == ws[i + 1]);
                assert(is_declaration(ws, i + 1, j, x));
                assert(ws[i + 1].features[j].name == x);
            }
            if acc2.contains(x) && !acc.contains(x) {
                assert(spec_is_kbuild_enabled(ws[0]));
                assert(strops::spec_starts_with(x, "CONFIG_"@));
                let j = choose|j: int|
                    0 <= j < ws[0].features.len() && #[trigger] ws[0].features[j].name == x;
                assert(is_declaration(ws, 0, j, x));
            }
            if declares_config(ws, x) && !acc.contains(x) {
                let (i, j): (int, int) = choose|i: int, j: int|
                    0 <= i < ws.len() && 0 <= j < ws[i].features.len() && spec_is_kbuild_enabled(
                        ws[i],
                    ) && #[trigger] ws[i].features[j].name == x;
                if i == 0 {
                    assert(acc2.contains(x));
                } else {
                    assert(rest[i - 1] == ws[i]);
                    assert(rest[i - 1].features[j].name == x);
                    assert(declares_config(rest, x));
                }
            }
        }
    }
}

/// What the collected configuration list holds: exactly the
/// `CONFIG_`-prefixed feature names that some kbuild-enabled crate
/// declares.
pub proof fn lemma_all_configs_membership(ws: Seq<SpecCrate>)
    ensures
        forall|x: Seq<char>| spec_all_configs(ws).contains(x) <==> declares_config(ws, x),
{
    lemma_add_crate_configs_membership(Seq::empty(), ws);
}

/// No element of `s` repeats.
pub open spec fn nodup(s: Seq<Seq<char>>) -> bool {
    forall|i: int, j: int| 0 <= i < j < s.len() ==> s[i] != s[j]
}

proof fn lemma_add_feature_names_nodup(acc: Seq<Seq<char>>, fs: Seq<SpecFeature>)
    requires
        nodup(acc),
    ensures
        nodup(add_feature_names(acc, fs)),
    decreases fs.len(),
{
    if fs.len() > 0 {
        let n = fs[0].name;
        let acc2 = if strops::spec_starts_with(n, "CONFIG_"@) && !acc.contains(n) {
            acc.push(n)
        } else {
            acc
        };
        assert(nodup(acc2)) by {
            if acc2 != acc {
                assert forall|i: int, j: int| 0 <= i < j < acc2.len() implies acc2[i]
                    != acc2[j] by {
                    if j == acc.len() as int {
                        assert(acc2[j] == n);
                        assert(acc2[i] == acc[i]);
                        if acc[i] == n {
                            assert(acc.contains(n));
                        }
                    }
                }
            }
        }
        lemma_add_feature_names_nodup(acc2, fs.drop_first());
    }
}

proof fn lemma_add_crate_configs_nodup(acc: Seq<Seq<char>>, ws: Seq<SpecCrate>)
    requires
        nodup(acc),
    ensures
        nodup(add_crate_configs(acc, ws)),
    decreases ws.len(),
{
    if ws.len() > 0 {
        let acc2 = if spec_is_kbuild_enabled(ws[0]) {
            add_feature_names(acc, ws[0].features)
        } else {
            acc
        };
        if spec_is_kbuild_enabled(ws[0]) {
            lemma_add_feature_names_nodup(acc, ws[0].features);
        }
        lemma_add_crate_configs_nodup(acc2, ws.drop_first());
    }
}

/// The collected configuration list never repeats a name.
pub proof fn lemma_all_configs_nodup(ws: Seq<SpecCrate>)
    ensures
        nodup(spec_all_configs(ws)),
{
    lemma_add_crate_configs_nodup(Seq::empty(), ws);
}

/// Collects every `CONFIG_`-prefixed feature name declared by a
/// kbuild-enabled crate, in first-occurrence order and without
/// repetition.
pub fn collect_all_configs(workspace: &Workspace) -> (r: Vec<String>)
    ensures
        r.deep_view() == spec_all_configs(workspace@),
{
    let ghost ws = workspace@;
    let mut configs: Vec<String> = Vec::new();
    proof {
        assert(configs.deep_view() =~= Seq::<Seq<char>>::empty());
        assert(ws.skip(0) =~= ws);
    }
    let mut i: usize = 0;
    while i < workspace.crates.len()
        invariant
            0 <= i <= workspace.crates.len(),
            ws == workspace@,
            ws.len() == workspace.crates@.len(),
            add_crate_configs(configs.deep_view(), ws.skip(i as int)) == spec_all_configs(ws),
        decreases workspace.crates.len() - i,
    {
        let ghost rem = ws.skip(i as int);
        proof {
            assert(rem[0] == ws[i as int]);
            assert(rem.drop_first() =~= ws.skip(i as int + 1));
        }
        if workspace.crates[i].is_kbuild_enabled() {
            let c = &workspace.crates[i];
            let ghost fs = c@.features;
            proof {
                assert(fs.skip(0) =~= fs);
            }
            let mut j: usize = 0;
            while j < c.features.len()
                invariant
                    0 <= j <= c.features.len(),
                    fs == c@.features,
                    fs.len() == c.features@.len(),
                    add_crate_configs(
                        add_feature_names(configs.deep_view(), fs.skip(j as int)),
                        ws.skip(i as int + 1),
                    ) == spec_all_configs(ws),
                decreases c.features.len() - j,
            {
                let ghost frem = fs.skip(j as int);
                proof {
                    assert(frem[0] == fs[j as int]);
                    assert(frem.drop_first() =~= fs.skip(j as int + 1));
                }
                let name = &c.features[j].name;
                if strops::str_starts_with(name.as_str(), "CONFIG_") && !strops::vec_contains_string(
                    &configs,
                    name.as_str(),
                ) {
                    let ghost before = configs.deep_view();
                    configs.push(name.clone());
                    proof {
                        assert(configs.deep_view() =~= before.push(name@));
                    }
                }
                j += 1;
            }
            proof {
                assert(fs.skip(c.features@.len() as int) =~= Seq::<SpecFeature>::empty());
            }
        }
        i += 1;
    }
    proof {
        assert(ws.skip(workspace.crates@.len() as int) =~= Seq::<SpecCrate>::empty());
    }
    configs
}

/// Whether the workspace package `name` supports kbuild: it exists and is
/// kbuild-enabled, either through its manifest metadata or through a
/// `CONFIG_`-prefixed feature.
pub fn is_dependency_kbuild_enabled(workspace: &Workspace, pkg_name: &str) -> (r: bool)
    ensures
        r == spec_dep_kbuild_enabled(workspace@, pkg_name@),
{
    match workspace.find_crate(pkg_name) {
        Option::Some(dep_crate) => dep_crate.is_kbuild_enabled(),
        Option::None => false,
    }
}

} // verus!
