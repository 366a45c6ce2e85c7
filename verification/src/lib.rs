//! Kconfig-style configuration compiler for a multi-package workspace.
//!
//! The library turns a flat `KEY=value` configuration file into the
//! compile-time directives of a workspace build: the set of declared
//! conditional-compilation symbols, the subset that the configuration
//! activates, typed constant declarations for non-boolean values, and a
//! package-capability activation list.  Everything here is pure logic on
//! plain values; reading manifests and files and spawning the build process
//! is left to the thin driver around the library.

pub mod config;
pub mod digits;
pub mod net;
pub mod render;
pub mod scaffold;
pub mod strops;
pub mod synth;
pub mod validate;
pub mod workspace;

use vstd::prelude::*;

verus! {

/// Everything one build run needs: the directive bundle, the texts of
/// the two persisted artifacts, and the compiler flag string.
pub struct BuildPlan {
    /// The synthesized directives.
    pub bundle: synth::DirectiveBundle,
    /// The build-tool configuration declaring every known symbol.
    pub cargo_config_text: String,
    /// The generated constants file.
    pub config_rs_text: String,
    /// The flag string for the compiler's environment channel.
    pub rustflags: String,
}

/// Runs the whole pure pipeline: parses the configuration text,
/// validates the workspace's capability graph, synthesizes the directive
/// bundle, and renders the artifacts.
///
/// Fails exactly when the workspace holds a configuration-aware
/// dependency conflict; the artifacts are functions of the two inputs
/// alone, so a second run on unchanged inputs yields byte-identical
/// texts.
pub fn build_directives(config_text: &str, ws: &workspace::Workspace) -> (r: Result<
    BuildPlan,
    validate::ConfigAwareDependencyConflict,
>)
    ensures
        r is Ok <==> !validate::has_violation(ws@),
        r matches Err(e) ==> validate::conflict_matches(ws@, e@),
        r matches Ok(p) ==> {
            &&& p.bundle.all_symbol_names.deep_view() == workspace::spec_all_configs(ws@)
            &&& p.bundle.active_symbol_names.deep_view() == synth::spec_active_names(
                config::spec_parse(config_text@),
            )
            &&& p.bundle.typed_constants.deep_view() == synth::spec_consts(
                config::spec_parse(config_text@),
            )
            &&& p.bundle.activation_list.deep_view() == synth::spec_activation(
                synth::spec_active_names(config::spec_parse(config_text@)),
                workspace::spec_all_configs(ws@),
            )
            &&& (p.config_rs_text@, p.cargo_config_text@) == render::spec_artifacts(
                config_text@,
                ws@,
            )
            &&& p.rustflags@ == render::spec_rustflags(
                workspace::spec_all_configs(ws@),
                synth::spec_active_names(config::spec_parse(config_text@)),
            )
        },
{
    match validate::validate_features(ws) {
        Result::Err(e) => Result::Err(e),
        Result::Ok(()) => {
            let table = config::parse_config_text(config_text);
            let bundle = synth::synthesize(&table, ws);
            let cargo_config_text = render::render_cargo_config(&bundle.all_symbol_names);
            let config_rs_text = render::render_config_rs(&bundle.typed_constants);
            let rustflags = render::render_rustflags(
                &bundle.all_symbol_names,
                &bundle.active_symbol_names,
            );
            Result::Ok(BuildPlan { bundle, cargo_config_text, config_rs_text, rustflags })
        },
    }
}

/// The argument selects the configuration file: both the long spelling
/// and the historical one are accepted.
pub open spec fn is_config_flag(a: Seq<char>) -> bool {
    a == "--config"@ || a == "--kconfig"@
}

/// Index of the first configuration flag, or `args.len()` when none is
/// present.
pub open spec fn first_config_flag(args: Seq<Seq<char>>) -> int
    decreases args.len(),
{
    if args.len() == 0 {
        0
    } else if is_config_flag(args[0]) {
        0
    } else {
        1 + first_config_flag(args.drop_first())
    }
}

proof fn lemma_first_config_flag_is(args: Seq<Seq<char>>, i: int)
    requires
        0 <= i < args.len(),
        is_config_flag(args[i]),
        forall|j: int| 0 <= j < i ==> !is_config_flag(args[j]),
    ensures
        first_config_flag(args) == i,
    decreases args.len(),
{
    if !is_config_flag(args[0]) {
        let rest = args.drop_first();
        assert forall|j: int| 0 <= j < i - 1 implies !is_config_flag(rest[j]) by {
            assert(rest[j] == args[j + 1]);
        }
        assert(rest[i - 1] == args[i]);
        lemma_first_config_flag_is(rest, i - 1);
    }
}

proof fn lemma_first_config_flag_none(args: Seq<Seq<char>>)
    requires
        forall|j: int| 0 <= j < args.len() ==> !is_config_flag(args[j]),
    ensures
        first_config_flag(args) == args.len(),
    decreases args.len(),
{
    if args.len() > 0 {
        let rest = args.drop_first();
        assert forall|j: int| 0 <= j < rest.len() implies !is_config_flag(rest[j]) by {
            assert(rest[j] == args[j + 1]);
        }
        lemma_first_config_flag_none(rest);
    }
}

/// Picks the configuration-file path out of a command line: the argument
/// that follows the first `--config` or `--kconfig`, or `.config` when
/// no such flag is present or it is the last argument.
pub open spec fn spec_kconfig_path(args: Seq<Seq<char>>) -> Seq<char> {
    let i = first_config_flag(args);
    if i + 1 < args.len() {
        args[i + 1]
    } else {
        ".config"@
    }
}

/// Scans the argument list for `--config <path>` or `--kconfig <path>`.
pub fn kconfig_path_from_args(args: &Vec<String>) -> (r: String)
    ensures
        r@ == spec_kconfig_path(args.deep_view()),
{
    let ghost view: Seq<Seq<char>> = args.deep_view();
    let mut i: usize = 0;
    while i < args.len()
        invariant
            0 <= i <= args.len(),
            view == args.deep_view(),
            forall|j: int| 0 <= j < i ==> !is_config_flag(view[j]),
        decreases args.len() - i,
    {
        if strops::str_eq(args[i].as_str(), "--config") || strops::str_eq(
            args[i].as_str(),
            "--kconfig",
        ) {
            proof {
                lemma_first_config_flag_is(view, i as int);
            }
            if i + 1 < args.len() {
                return strops::str_to_string(args[i + 1].as_str());
            } else {
                return strops::str_to_string(".config");
            }
        }
        i += 1;
    }
    proof {
        lemma_first_config_flag_none(view);
    }
    strops::str_to_string(".config")
}

} // verus!
