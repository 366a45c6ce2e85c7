use cargo_kbuild::config::parse_config_text;
use cargo_kbuild::net;
use cargo_kbuild::render::{
    render_cargo_config, render_config_rs, render_config_template, render_rustflags, sort_strings,
};
use cargo_kbuild::scaffold::merge_gitignore;
use cargo_kbuild::synth::{
    classify_value, filter_activation, generate_constants, generate_features, synthesize,
    undefined_configs, unused_configs, ConstValue,
};
use cargo_kbuild::validate::{dep_notes, validate_features};
use cargo_kbuild::workspace::{
    collect_all_configs, is_dependency_kbuild_enabled, CrateInfo, Feature, Workspace,
};
use cargo_kbuild::{build_directives, kconfig_path_from_args};

fn feature(name: &str, deps: &[&str]) -> Feature {
    Feature {
        name: name.to_string(),
        deps: deps.iter().map(|d| d.to_string()).collect(),
    }
}

fn crate_info(name: &str, has_kbuild: bool, features: Vec<Feature>) -> CrateInfo {
    CrateInfo {
        name: name.to_string(),
        has_kbuild,
        features,
    }
}

fn demo_workspace() -> Workspace {
    Workspace {
        crates: vec![crate_info(
            "kernel_demo",
            false,
            vec![feature("CONFIG_NET", &[]), feature("CONFIG_DEBUG", &[])],
        )],
    }
}

#[test]
fn scenario_net_cpus_debug() {
    let table = parse_config_text("CONFIG_NET=y\nCONFIG_MAX_CPUS=4\n# CONFIG_DEBUG=y\n");
    let ws = demo_workspace();
    let bundle = synthesize(&table, &ws);

    assert_eq!(bundle.active_symbol_names, vec!["CONFIG_NET".to_string()]);
    assert_eq!(bundle.typed_constants.len(), 1);
    assert_eq!(bundle.typed_constants[0].name, "CONFIG_MAX_CPUS");
    assert!(matches!(bundle.typed_constants[0].value, ConstValue::Int(4)));
    assert_eq!(bundle.activation_list, vec!["CONFIG_NET".to_string()]);
}

#[test]
fn scenario_conflict_names_the_parts() {
    // CONFIG_SCHED = ["kernel_task/fast_path"] where kernel_task is
    // itself configuration-aware: validation must fail and the error
    // text must name all three parts.
    let ws = Workspace {
        crates: vec![
            crate_info(
                "kernel_schedule",
                true,
                vec![feature("CONFIG_SCHED", &["kernel_task/fast_path"])],
            ),
            crate_info("kernel_task", true, vec![]),
        ],
    };
    let err = validate_features(&ws).err().expect("validation must fail");
    assert_eq!(err.package, "kernel_schedule");
    assert_eq!(err.feature, "CONFIG_SCHED");
    assert_eq!(err.dep, "kernel_task/fast_path");
    assert_eq!(err.target, "kernel_task");
    assert_eq!(err.sub_feature, "fast_path");
    let message = err.message();
    assert!(message.contains("kernel_task"));
    assert!(message.contains("fast_path"));
    assert!(message.contains("CONFIG_SCHED"));
}

#[test]
fn conflict_detection_aware_vs_not() {
    // A capability pointing at a kbuild-enabled crate B fails; the same
    // capability pointing at a non-enabled crate C succeeds.
    let make = |target: &str| Workspace {
        crates: vec![
            crate_info(
                "a",
                true,
                vec![feature("CONFIG_X", &[&format!("{}/feat", target)])],
            ),
            crate_info("b", true, vec![]),
            crate_info("c", false, vec![]),
        ],
    };
    assert!(validate_features(&make("b")).is_err());
    assert!(validate_features(&make("c")).is_ok());
    // A third-party name outside the workspace is allowed too.
    assert!(validate_features(&make("log")).is_ok());
}

#[test]
fn conflict_detection_metadata_only_awareness() {
    // Awareness through manifest metadata alone, without any CONFIG_*
    // feature on the target, still forbids the sub-feature.
    let ws = Workspace {
        crates: vec![
            crate_info("parent", false, vec![feature("CONFIG_Y", &["child/extra"])]),
            crate_info("child", true, vec![]),
        ],
    };
    assert!(validate_features(&ws).is_err());
}

#[test]
fn non_config_features_are_not_inspected() {
    // A feature without the CONFIG_ prefix may point sub-features at
    // aware crates freely.
    let ws = Workspace {
        crates: vec![
            crate_info("parent", true, vec![feature("extras", &["child/extra"])]),
            crate_info("child", true, vec![]),
        ],
    };
    assert!(validate_features(&ws).is_ok());
}

#[test]
fn type_projection() {
    // 42 -> integer constant; "hello" -> string constant with the quotes
    // stripped; y/m/n -> no constant, only activation membership.
    let table = parse_config_text(
        "CONFIG_A=42\nCONFIG_B=\"hello\"\nCONFIG_C=y\nCONFIG_D=m\nCONFIG_E=n\n",
    );
    let consts = generate_constants(&table);
    assert_eq!(consts.len(), 2);
    assert_eq!(consts[0].name, "CONFIG_A");
    assert!(matches!(consts[0].value, ConstValue::Int(42)));
    assert_eq!(consts[1].name, "CONFIG_B");
    match &consts[1].value {
        ConstValue::Text(s) => assert_eq!(s, "hello"),
        _ => panic!("CONFIG_B must project to a string constant"),
    }
    let active = generate_features(&table);
    assert_eq!(
        active,
        vec!["CONFIG_C".to_string(), "CONFIG_D".to_string()]
    );
}

#[test]
fn type_projection_unsigned_and_unparsed() {
    // A value too large for i32 falls through to usize; one that fits
    // nothing is silently omitted.
    let table = parse_config_text("CONFIG_BIG=3000000000\nCONFIG_ODD=hello world\n");
    let consts = generate_constants(&table);
    assert_eq!(consts.len(), 1);
    assert_eq!(consts[0].name, "CONFIG_BIG");
    assert!(matches!(consts[0].value, ConstValue::Uint(3000000000)));
}

#[test]
fn classify_value_shapes() {
    assert!(matches!(classify_value("42"), Some(ConstValue::Int(42))));
    assert!(matches!(classify_value("-7"), Some(ConstValue::Int(-7))));
    assert!(matches!(classify_value("+9"), Some(ConstValue::Int(9))));
    assert!(matches!(
        classify_value("2147483647"),
        Some(ConstValue::Int(2147483647))
    ));
    assert!(matches!(
        classify_value("-2147483648"),
        Some(ConstValue::Int(-2147483648))
    ));
    assert!(matches!(
        classify_value("2147483648"),
        Some(ConstValue::Uint(2147483648))
    ));
    match classify_value("\"quoted\"") {
        Some(ConstValue::Text(s)) => assert_eq!(s, "quoted"),
        _ => panic!("quoted value must project to text"),
    }
    assert!(classify_value("not a number").is_none());
    assert!(classify_value("12.5").is_none());
    assert!(classify_value("").is_none());
    // A lone double quote is not a quoted string: both ends must exist.
    assert!(classify_value("\"").is_none());
    match classify_value("\"\"") {
        Some(ConstValue::Text(s)) => assert_eq!(s, ""),
        _ => panic!("empty quoted value must project to empty text"),
    }
}

#[test]
fn filtering_undeclared_symbol() {
    // Active in the file but declared by no manifest: kept among the
    // active names, dropped from the activation list.
    let table = parse_config_text("CONFIG_NET=y\nCONFIG_PRIVATE=y\n");
    let ws = demo_workspace();
    let bundle = synthesize(&table, &ws);
    assert!(bundle
        .active_symbol_names
        .contains(&"CONFIG_PRIVATE".to_string()));
    assert!(!bundle
        .activation_list
        .contains(&"CONFIG_PRIVATE".to_string()));
    assert!(bundle.activation_list.contains(&"CONFIG_NET".to_string()));
}

#[test]
fn round_trip_y_m_n_absent() {
    let ws = demo_workspace();
    for (value, expected) in [("y", true), ("m", true), ("n", false)] {
        let table = parse_config_text(&format!("CONFIG_NET={}\n", value));
        let bundle = synthesize(&table, &ws);
        let name = "CONFIG_NET".to_string();
        assert_eq!(bundle.active_symbol_names.contains(&name), expected);
        assert_eq!(bundle.activation_list.contains(&name), expected);
    }
    let bundle = synthesize(&parse_config_text(""), &ws);
    assert!(bundle.active_symbol_names.is_empty());
    assert!(bundle.activation_list.is_empty());
}

#[test]
fn idempotence_byte_identical_artifacts() {
    let text = "CONFIG_NET=y\nCONFIG_MAX_CPUS=4\nCONFIG_NAME=\"demo\"\n";
    let ws = demo_workspace();
    let first = build_directives(text, &ws).ok().expect("no conflict");
    let second = build_directives(text, &ws).ok().expect("no conflict");
    assert_eq!(first.cargo_config_text, second.cargo_config_text);
    assert_eq!(first.config_rs_text, second.config_rs_text);
    assert_eq!(first.rustflags, second.rustflags);
}

#[test]
fn build_directives_fails_on_conflict() {
    let ws = Workspace {
        crates: vec![
            crate_info("a", true, vec![feature("CONFIG_X", &["b/feat"])]),
            crate_info("b", true, vec![]),
        ],
    };
    assert!(build_directives("CONFIG_X=y\n", &ws).is_err());
}

#[test]
fn collect_all_configs_dedup_and_awareness() {
    // Names come only from kbuild-enabled crates, without repetition;
    // non-CONFIG features do not count.
    let ws = Workspace {
        crates: vec![
            crate_info(
                "a",
                false,
                vec![feature("CONFIG_X", &[]), feature("plain", &[])],
            ),
            crate_info("b", false, vec![feature("CONFIG_X", &[]), feature("CONFIG_Y", &[])]),
            crate_info("c", false, vec![feature("other", &[])]),
        ],
    };
    let configs = collect_all_configs(&ws);
    assert_eq!(
        configs,
        vec!["CONFIG_X".to_string(), "CONFIG_Y".to_string()]
    );
}

#[test]
fn dependency_awareness_lookup() {
    let ws = Workspace {
        crates: vec![
            crate_info("meta", true, vec![]),
            crate_info("by_feature", false, vec![feature("CONFIG_Z", &[])]),
            crate_info("plain", false, vec![feature("std", &[])]),
        ],
    };
    assert!(is_dependency_kbuild_enabled(&ws, "meta"));
    assert!(is_dependency_kbuild_enabled(&ws, "by_feature"));
    assert!(!is_dependency_kbuild_enabled(&ws, "plain"));
    assert!(!is_dependency_kbuild_enabled(&ws, "absent"));
    assert!(ws.find_crate("meta").is_some());
    assert!(ws.find_crate("absent").is_none());
    assert!(ws.crates[0].is_kbuild_enabled());
    assert!(!ws.crates[2].is_kbuild_enabled());
}

#[test]
fn unused_and_undefined_reports() {
    let table = parse_config_text("CONFIG_NET=y\nCONFIG_STRAY=y\nOTHER=1\n");
    let ws = demo_workspace();
    let all = collect_all_configs(&ws);
    assert_eq!(unused_configs(&table, &all), vec!["CONFIG_STRAY".to_string()]);
    assert_eq!(undefined_configs(&all, &table), vec!["CONFIG_DEBUG".to_string()]);
}

#[test]
fn activation_filter_keeps_order() {
    let active = vec![
        "CONFIG_C".to_string(),
        "CONFIG_A".to_string(),
        "CONFIG_B".to_string(),
    ];
    let all = vec!["CONFIG_A".to_string(), "CONFIG_C".to_string()];
    assert_eq!(
        filter_activation(&active, &all),
        vec!["CONFIG_C".to_string(), "CONFIG_A".to_string()]
    );
}

#[test]
fn rendered_cargo_config_is_sorted_and_exact() {
    let configs = vec!["CONFIG_NET".to_string(), "CONFIG_DEBUG".to_string()];
    let text = render_cargo_config(&configs);
    let expected = "# cargo-kbuild check-cfg declarations\n\
                    # This file declares every CONFIG_* conditional-compilation symbol\n\
                    # It is rewritten on every build; do not edit or commit it\n\n\
                    [build]\n\
                    rustflags = [\n    \
                    \"--check-cfg=cfg(CONFIG_DEBUG)\",\n    \
                    \"--check-cfg=cfg(CONFIG_NET)\",\n\
                    ]\n";
    assert_eq!(text, expected);
}

#[test]
fn rendered_constants_are_exact() {
    let table = parse_config_text("CONFIG_N=4\nCONFIG_S=\"hi\"\nCONFIG_U=4294967295\n");
    let consts = generate_constants(&table);
    let text = render_config_rs(&consts);
    let expected = "// Constants derived from .config by cargo-kbuild\n\
                    // This file is rewritten on every build; do not edit\n\n\
                    #[allow(dead_code)]\npub const CONFIG_N: i32 = 4;\n\n\
                    #[allow(dead_code)]\npub const CONFIG_S: &str = \"hi\";\n\n\
                    #[allow(dead_code)]\npub const CONFIG_U: usize = 4294967295;\n\n";
    assert_eq!(text, expected);
}

#[test]
fn rendered_template_lists_sorted_symbols_disabled() {
    let configs = vec!["CONFIG_NET".to_string(), "CONFIG_DEBUG".to_string()];
    let text = render_config_template(&configs);
    let expected = "# Kernel configuration file\n\
                    # Edit this file to enable or disable features\n\n\
                    # CONFIG_DEBUG=y\n\
                    # CONFIG_NET=y\n";
    assert_eq!(text, expected);
}

#[test]
fn rendered_rustflags_join_with_single_spaces() {
    let all = vec!["CONFIG_A".to_string(), "CONFIG_B".to_string()];
    let feats = vec!["CONFIG_A".to_string()];
    assert_eq!(
        render_rustflags(&all, &feats),
        "--check-cfg=cfg(CONFIG_A) --check-cfg=cfg(CONFIG_B) --cfg CONFIG_A"
    );
    assert_eq!(render_rustflags(&vec![], &vec![]), "");
    assert_eq!(
        render_rustflags(&vec![], &vec!["CONFIG_X".to_string()]),
        "--cfg CONFIG_X"
    );
}

#[test]
fn sorting_is_lexicographic() {
    let v = vec![
        "CONFIG_SMP".to_string(),
        "CONFIG_DEBUG".to_string(),
        "CONFIG_NET".to_string(),
    ];
    assert_eq!(
        sort_strings(&v),
        vec![
            "CONFIG_DEBUG".to_string(),
            "CONFIG_NET".to_string(),
            "CONFIG_SMP".to_string()
        ]
    );
}

#[test]
fn gitignore_merge_cases() {
    // Nothing present: both entries and the marker are appended.
    let updated = merge_gitignore("").expect("additions expected");
    assert_eq!(updated, "\n# cargo-kbuild artifacts\n.cargo/config.toml\ntarget/\n");

    // Both present (indented counts): no rewrite.
    assert!(merge_gitignore("  .cargo/config.toml\ntarget/\n").is_none());

    // One present, file without a final newline: newline is restored.
    let updated = merge_gitignore("target/").expect("additions expected");
    assert_eq!(
        updated,
        "target/\n\n# cargo-kbuild artifacts\n.cargo/config.toml\n"
    );
}

#[test]
fn kconfig_argument_scan() {
    let args = |list: &[&str]| list.iter().map(|s| s.to_string()).collect::<Vec<_>>();
    assert_eq!(
        kconfig_path_from_args(&args(&["cargo-kbuild", "build"])),
        ".config"
    );
    assert_eq!(
        kconfig_path_from_args(&args(&["cargo-kbuild", "build", "--kconfig", "custom.config"])),
        "custom.config"
    );
    // The long spelling is accepted too.
    assert_eq!(
        kconfig_path_from_args(&args(&["build", "--config", "alt.config"])),
        "alt.config"
    );
    // A trailing flag without a value falls back to the default.
    assert_eq!(
        kconfig_path_from_args(&args(&["build", "--kconfig"])),
        ".config"
    );
}

#[test]
fn notes_tag_allowed_sub_features() {
    // A sub-feature on a non-enabled workspace sibling and one on a
    // third-party package both pass validation, each with its note; a
    // bare dependency earns none.
    let ws = Workspace {
        crates: vec![
            crate_info(
                "parent",
                true,
                vec![feature("CONFIG_X", &["sibling/extra", "log/std", "plain"])],
            ),
            crate_info("sibling", false, vec![]),
        ],
    };
    assert!(validate_features(&ws).is_ok());
    let notes = dep_notes(&ws);
    assert_eq!(notes.len(), 2);
    assert_eq!(notes[0].target, "sibling");
    assert_eq!(notes[0].dep, "sibling/extra");
    assert!(notes[0].in_workspace);
    assert_eq!(notes[1].target, "log");
    assert!(!notes[1].in_workspace);
    assert_eq!(notes[0].package, "parent");
    assert_eq!(notes[0].feature, "CONFIG_X");
}

#[test]
fn network_stubs_are_inert() {
    net::send_data(b"ping");
    assert!(net::receive_data().is_empty());
}
