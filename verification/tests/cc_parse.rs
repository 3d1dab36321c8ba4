use mbx_cache::cc::environment::environment_inputs;
use mbx_cache::cc::invocation::{Argument, CcInvocation};
use mbx_cache::cc::language::{CcCompilerFamily, CcLanguage};
use mbx_cache::cc::reason::CcBypassReason;
use std::collections::BTreeMap;

fn argv(values: &[&str]) -> Vec<Option<String>> {
    values.iter().map(|value| Some(value.to_string())).collect()
}

fn typical() -> Vec<Option<String>> {
    argv(&[
        "-O2",
        "-ffunction-sections",
        "-fdata-sections",
        "-fPIC",
        "-gdwarf-4",
        "-I",
        "/work/target/debug/build/zstd-sys-1234/out",
        "-Ilib/zstd",
        "-DZSTD_MULTITHREAD=1",
        "-Wall",
        "-Wextra",
        "-std=c11",
        "-o",
        "/work/target/debug/build/zstd-sys-1234/out/entropy.o",
        "-c",
        "lib/zstd/entropy.c",
    ])
}

fn kind(arguments: &[Option<String>]) -> &'static str {
    CcInvocation::parse(arguments).unwrap_err().kind()
}

fn has_plain(invocation: &CcInvocation, text: &str) -> bool {
    invocation
        .arguments
        .iter()
        .any(|argument| matches!(argument, Argument::Plain(value) if value == text))
}

/// Environment snapshot from a lookup rule over every modeled name.
fn snapshot(lookup: impl Fn(&str) -> Option<String>) -> Vec<(String, String)> {
    let names = [
        "CPATH",
        "COMPILER_PATH",
        "CPLUS_INCLUDE_PATH",
        "C_INCLUDE_PATH",
        "DEPENDENCIES_OUTPUT",
        "GCC_EXEC_PREFIX",
        "OBJC_INCLUDE_PATH",
        "SUNPRO_DEPENDENCIES",
        "IPHONEOS_DEPLOYMENT_TARGET",
        "LANG",
        "LC_ALL",
        "LC_MESSAGES",
        "MACOSX_DEPLOYMENT_TARGET",
        "SDKROOT",
        "SOURCE_DATE_EPOCH",
        "TVOS_DEPLOYMENT_TARGET",
        "WATCHOS_DEPLOYMENT_TARGET",
        "XROS_DEPLOYMENT_TARGET",
    ];
    names
        .iter()
        .filter_map(|name| lookup(name).map(|value| (name.to_string(), value)))
        .collect()
}

const BYPASS_ENVIRONMENT: [&str; 8] = [
    "CPATH",
    "COMPILER_PATH",
    "CPLUS_INCLUDE_PATH",
    "C_INCLUDE_PATH",
    "DEPENDENCIES_OUTPUT",
    "GCC_EXEC_PREFIX",
    "OBJC_INCLUDE_PATH",
    "SUNPRO_DEPENDENCIES",
];

#[test]
fn bypass_kinds_are_stable_and_field_independent() {
    let cases: Vec<(CcBypassReason, &str)> = vec![
        (CcBypassReason::NonUtf8Argument { index: 3 }, "non-utf8-argument"),
        (CcBypassReason::ResponseFile("args".into()), "response-file"),
        (CcBypassReason::UnknownFlag("-fmagic".into()), "unknown-flag"),
        (CcBypassReason::MissingValue("-o".into()), "missing-value"),
        (CcBypassReason::CompilerQuery, "compiler-query"),
        (CcBypassReason::NotACompile, "not-a-compile"),
        (CcBypassReason::NonObjectOutput("-E".into()), "non-object-output"),
        (CcBypassReason::StandardInput, "standard-input"),
        (CcBypassReason::MissingInput, "missing-input"),
        (CcBypassReason::MultipleInputs, "multiple-inputs"),
        (CcBypassReason::MissingOutput, "missing-output"),
        (CcBypassReason::UnsupportedLanguage("a.S".into()), "unsupported-language"),
        (CcBypassReason::CallerDependencyFlags("-MMD".into()), "caller-dependency-flags"),
        (CcBypassReason::PrecompiledHeader("-include-pch".into()), "precompiled-header"),
        (CcBypassReason::CoverageInstrumentation("--coverage".into()), "coverage-instrumentation"),
        (CcBypassReason::SplitDebugOutput("-gsplit-dwarf".into()), "split-debug-output"),
        (CcBypassReason::SaveTemps("-save-temps".into()), "save-temps"),
        (CcBypassReason::ToolPassthrough("-Xclang".into()), "tool-passthrough"),
        (CcBypassReason::Plugin("-fplugin=x".into()), "plugin"),
        (CcBypassReason::LocalCpuTarget("-march=native".into()), "local-cpu-target"),
        (CcBypassReason::UnsupportedCompilerDriver("cl.exe".into()), "unsupported-compiler-driver"),
        (CcBypassReason::CompilerIdentityUnavailable("probe failed".into()), "compiler-identity-unavailable"),
        (CcBypassReason::UnsupportedEnvironment("CPATH".into()), "unsupported-environment"),
        (CcBypassReason::RealCompilerUnpinned, "real-compiler-unpinned"),
        (CcBypassReason::EmbeddedTimestampMacro("/w/a.c".into()), "embedded-timestamp-macro"),
        (CcBypassReason::MalformedDepfile("no rule".into()), "malformed-depfile"),
        (
            CcBypassReason::DepfileRead { path: "/w/a.d".into(), message: "gone".into() },
            "depfile-read",
        ),
        (CcBypassReason::TooManyInputs, "too-many-inputs"),
        (CcBypassReason::UnmappedAbsolutePath("/opt/x".into()), "unmapped-absolute-path"),
        (CcBypassReason::NonUtf8Path("/w/a".into()), "non-utf8-path"),
        (CcBypassReason::RelativeWorkingDirectory("w".into()), "relative-working-directory"),
        (CcBypassReason::RelativePathMapping("w".into()), "relative-path-mapping"),
        (CcBypassReason::InvalidPathPlaceholder("bad name".into()), "invalid-path-placeholder"),
        (CcBypassReason::MissingRequiredInput("${workspace}/a.c".into()), "missing-required-input"),
        (CcBypassReason::InvalidInputDigest("/w/a.c".into()), "invalid-input-digest"),
        (CcBypassReason::ConflictingInput("${workspace}/a.c".into()), "conflicting-input"),
        (
            CcBypassReason::InputRead { path: "/w/a.c".into(), message: "gone".into() },
            "input-read",
        ),
        (CcBypassReason::InputChanged("/w/a.c".into()), "input-changed"),
        (
            CcBypassReason::InputModifiedDuringCompilation("/w/a.c".into()),
            "input-modified-during-compilation",
        ),
        (CcBypassReason::DiscoveryWorkingDirectory, "discovery-working-directory"),
        (CcBypassReason::UnsupportedPrediction, "unsupported-prediction"),
        (CcBypassReason::InvalidPredictedInput("../x".into()), "invalid-predicted-input"),
        (CcBypassReason::Serialization("bad json".into()), "serialization"),
    ];
    for (reason, kind) in cases {
        assert_eq!(reason.kind(), kind, "kind changed for {reason:?}");
    }
}

#[test]
fn parses_a_typical_cc_crate_invocation() {
    let invocation = CcInvocation::parse(&typical()).expect("invocation should be admitted");
    assert_eq!(invocation.source(), "lib/zstd/entropy.c");
    assert_eq!(invocation.output(), "/work/target/debug/build/zstd-sys-1234/out/entropy.o");
    assert_eq!(invocation.language(), CcLanguage::C);
    assert_eq!(
        invocation.include_dirs(),
        ["/work/target/debug/build/zstd-sys-1234/out".to_string(), "lib/zstd".to_string()]
    );
    assert_eq!(invocation.required_inputs(), ["lib/zstd/entropy.c".to_string()]);
}

#[test]
fn linking_without_dash_c_is_not_a_compile() {
    assert_eq!(kind(&argv(&["-o", "app", "main.c"])), "not-a-compile");
}

#[test]
fn preprocess_and_assembly_modes_bypass_as_non_object_output() {
    for mode in ["-E", "-S"] {
        assert_eq!(kind(&argv(&[mode, "-o", "out", "main.c"])), "non-object-output");
    }
}

#[test]
fn caller_dependency_flags_bypass_before_injection() {
    for flag in ["-MD", "-MMD", "-MP", "-M", "-MM"] {
        assert_eq!(
            kind(&argv(&[flag, "-c", "-o", "a.o", "a.c"])),
            "caller-dependency-flags",
            "{flag} should bypass"
        );
    }
}

#[test]
fn repeated_output_flags_follow_the_driver_and_the_last_one_wins() {
    let arguments = argv(&["-c", "-o", "first.o", "-o", "second.o", "a.c"]);
    let invocation = CcInvocation::parse(&arguments).expect("invocation should be admitted");
    assert_eq!(invocation.output(), "second.o");
    let keyed = invocation
        .arguments
        .iter()
        .filter(|argument| matches!(argument, Argument::Path { flag, .. } if flag == "-o"))
        .count();
    assert_eq!(keyed, 2, "both outputs must enter the key");
}

#[test]
fn unlisted_f_and_m_flags_bypass_with_the_flag_text() {
    for flag in ["-fmagic", "-mmagic"] {
        let reason = CcInvocation::parse(&argv(&[flag, "-c", "-o", "a.o", "a.c"])).unwrap_err();
        assert_eq!(reason.kind(), "unknown-flag");
        assert!(reason.message().contains(flag), "{}", reason.message());
    }
}

#[test]
fn tool_passthrough_flags_bypass_even_with_admitted_prefixes() {
    for flag in ["-Wl,-z,now", "-Wa,--noexecstack", "-Wp,-D_FORTIFY_SOURCE=2"] {
        assert_eq!(
            kind(&argv(&[flag, "-c", "-o", "a.o", "a.c"])),
            "tool-passthrough",
            "{flag} should bypass"
        );
    }
    assert_eq!(
        kind(&argv(&["-Xclang", "-ffake", "-c", "-o", "a.o", "a.c"])),
        "tool-passthrough"
    );
    assert_eq!(
        kind(&argv(&["-mllvm", "-inline-threshold=0", "-c", "-o", "a.o", "a.c"])),
        "tool-passthrough"
    );
}

#[test]
fn plain_warning_flags_stay_admitted_key_material() {
    let arguments = argv(&["-Wall", "-Werror", "-Wno-unused", "-c", "-o", "a.o", "a.c"]);
    let invocation = CcInvocation::parse(&arguments).expect("warnings should be admitted");
    assert!(has_plain(&invocation, "-Werror"));
}

#[test]
fn assembly_and_objective_c_sources_bypass_as_unsupported_languages() {
    for source in ["a.S", "a.s", "a.m", "a.mm", "a.C", "a.rs"] {
        assert_eq!(
            kind(&argv(&["-c", "-o", "a.o", source])),
            "unsupported-language",
            "{source} should bypass"
        );
    }
}

#[test]
fn dash_x_overrides_source_extension_detection() {
    let arguments = argv(&["-x", "c++", "-c", "-o", "a.o", "a.inl"]);
    let invocation = CcInvocation::parse(&arguments).expect("explicit language should be admitted");
    assert_eq!(invocation.language(), CcLanguage::Cxx);
    assert_eq!(
        kind(&argv(&["-x", "assembler", "-c", "-o", "a.o", "a.s"])),
        "unsupported-language"
    );
}

#[test]
fn response_file_arguments_bypass_with_the_stable_reason_kind() {
    assert_eq!(kind(&argv(&["@args.rsp"])), "response-file");
}

#[test]
fn apple_arch_flags_are_admitted_key_material() {
    let arguments = argv(&["-arch", "arm64", "-arch", "x86_64", "-c", "-o", "a.o", "a.c"]);
    let invocation = CcInvocation::parse(&arguments).expect("arch flags should be admitted");
    assert!(has_plain(&invocation, "-arch=arm64"));
    assert!(has_plain(&invocation, "-arch=x86_64"));
}

#[test]
fn multiple_sources_and_missing_pieces_bypass() {
    assert_eq!(kind(&argv(&["-c", "-o", "a.o", "a.c", "b.c"])), "multiple-inputs");
    assert_eq!(kind(&argv(&["-c", "-o", "a.o"])), "missing-input");
    assert_eq!(kind(&argv(&["-c", "a.c"])), "missing-output");
    assert_eq!(kind(&argv(&["-c", "-o", "a.o", "-"])), "standard-input");
}

#[test]
fn driver_queries_bypass_rather_than_compiling() {
    for flag in ["-v", "--version", "-dumpmachine", "-print-search-dirs"] {
        assert_eq!(kind(&argv(&[flag])), "compiler-query", "{flag} should bypass");
    }
}

#[test]
fn include_path_environment_variables_bypass_when_set() {
    for name in BYPASS_ENVIRONMENT {
        let env = snapshot(|candidate| (candidate == name).then(|| "/opt/include".to_string()));
        let reason = environment_inputs(&env, None).unwrap_err();
        assert_eq!(reason.kind(), "unsupported-environment");
        assert!(reason.message().contains(name), "{}", reason.message());
    }
}

#[test]
fn deployment_target_and_sdkroot_enter_the_key_verbatim() {
    let env = snapshot(|name| match name {
        "MACOSX_DEPLOYMENT_TARGET" => Some("11.0".into()),
        "SDKROOT" => Some("/sdk".into()),
        _ => None,
    });
    let environment: BTreeMap<String, Option<String>> = environment_inputs(&env, None)
        .expect("environment should be admitted")
        .into_iter()
        .collect();
    assert_eq!(environment.get("MACOSX_DEPLOYMENT_TARGET"), Some(&Some("11.0".to_string())));
    assert_eq!(environment.get("SDKROOT"), Some(&Some("/sdk".to_string())));
    // Unset variables are still recorded, so setting one later is a miss
    // rather than an unnoticed change.
    assert_eq!(environment.get("SOURCE_DATE_EPOCH"), Some(&None));
}

#[test]
fn an_explicit_sysroot_argument_replaces_the_sdkroot_variable_in_the_key() {
    let env = snapshot(|name| (name == "SDKROOT").then(|| "/sdk".into()));
    let environment: BTreeMap<String, Option<String>> = environment_inputs(&env, Some("/other"))
        .expect("environment should be admitted")
        .into_iter()
        .collect();
    assert!(!environment.contains_key("SDKROOT"));
}

#[test]
fn compiler_families_classify_from_probe_text() {
    assert_eq!(
        CcCompilerFamily::classify("Apple clang version 15.0.0 (clang-1500.3.9.4)").unwrap(),
        CcCompilerFamily::AppleClang
    );
    assert_eq!(
        CcCompilerFamily::classify("clang version 17.0.6").unwrap(),
        CcCompilerFamily::Clang
    );
    assert_eq!(
        CcCompilerFamily::classify("gcc version 13.2.0 (Debian 13.2.0-1)").unwrap(),
        CcCompilerFamily::Gcc
    );
}

#[test]
fn msvc_style_probe_output_bypasses_as_an_unsupported_driver() {
    let probe = "Microsoft (R) C/C++ Optimizing Compiler Version 19.38\n";
    let reason = CcCompilerFamily::classify(probe).unwrap_err();
    assert_eq!(reason.kind(), "unsupported-compiler-driver");
    assert!(matches!(
        reason,
        CcBypassReason::UnsupportedCompilerDriver(line)
            if line == "Microsoft (R) C/C++ Optimizing Compiler Version 19.38"
    ));
}

#[test]
fn only_gcc_carries_an_external_assembler_in_its_identity() {
    assert!(CcCompilerFamily::Gcc.uses_external_assembler());
    assert!(!CcCompilerFamily::Clang.uses_external_assembler());
    assert!(!CcCompilerFamily::AppleClang.uses_external_assembler());
}

#[test]
fn flags_real_sys_crates_pass_are_admitted() {
    let cases = [
        "--include=/registry/aws-lc-sys-0.44.0/generated-include/prefix.h",
        "-mno-omit-leaf-frame-pointer",
        "-fmerge-all-constants",
        "--param=ssp-buffer-size=4",
    ];
    for flag in cases {
        assert!(
            CcInvocation::parse(&argv(&[flag, "-c", "-o", "a.o", "a.c"])).is_ok(),
            "{flag} should be admitted"
        );
    }
}

#[test]
fn the_msvc_probe_flag_reads_as_a_compiler_query() {
    assert_eq!(kind(&argv(&["-?"])), "compiler-query");
}

#[test]
fn a_separate_param_value_is_not_mistaken_for_a_source() {
    let arguments = argv(&["--param", "ssp-buffer-size=4", "-c", "-o", "a.o", "a.c"]);
    let invocation = CcInvocation::parse(&arguments).expect("admitted");
    assert_eq!(invocation.source(), "a.c");
}

#[test]
fn tuning_for_the_local_cpu_bypasses() {
    for flag in ["-march=native", "-mcpu=native", "-mtune=native", "-march=host"] {
        assert_eq!(
            kind(&argv(&[flag, "-c", "-o", "a.o", "a.c"])),
            "local-cpu-target",
            "{flag} should bypass"
        );
    }
    assert!(CcInvocation::parse(&argv(&["-march=armv8-a", "-mtune=generic", "-c", "-o", "a.o", "a.c"])).is_ok());
}

#[test]
fn lowercase_include_flags_are_not_swallowed_by_the_include_path_prefix() {
    let sysroot = "/work/one/sdk";
    let arguments = argv(&[
        "-isystem", "vendor/include", "-iquote", "quoted", "-idirafter", "after", "-isysroot",
        sysroot, "-include", "forced.h", "-imacros", "macros.h", "-c", "-o", "out.o", "src/a.c",
    ]);
    let invocation = CcInvocation::parse(&arguments).expect("admitted");
    assert_eq!(invocation.source(), "src/a.c");
    assert_eq!(invocation.sysroot(), Some(sysroot));
    assert_eq!(
        invocation.include_dirs(),
        ["vendor/include".to_string(), "quoted".to_string(), "after".to_string()]
    );
    assert!(invocation.required_inputs().contains(&"forced.h".to_string()));
    assert!(invocation.required_inputs().contains(&"macros.h".to_string()));
    for flag in ["-isystem", "-iquote", "-idirafter", "-include", "-imacros"] {
        assert!(invocation
            .arguments
            .iter()
            .any(|argument| matches!(argument, Argument::Path { flag: keyed, .. } if keyed == flag)));
    }
}

#[test]
fn a_non_utf8_argument_is_reported_by_its_index() {
    let mut arguments = argv(&["-c", "-o", "a.o"]);
    arguments.push(None);
    let reason = CcInvocation::parse(&arguments).unwrap_err();
    assert!(matches!(reason, CcBypassReason::NonUtf8Argument { index: 3 }));
    assert_eq!(reason.message(), "compiler argument 3 is not valid UTF-8");
}

#[test]
fn a_flag_at_the_end_is_missing_its_value() {
    let reason = CcInvocation::parse(&argv(&["-c", "a.c", "-o"])).unwrap_err();
    assert_eq!(reason.kind(), "missing-value");
    assert_eq!(reason.message(), "compiler flag -o is missing its value");
}

#[test]
fn split_dwarf_and_unknown_debug_spellings_bypass_differently() {
    assert_eq!(kind(&argv(&["-gsplit-dwarf", "-c", "-o", "a.o", "a.c"])), "split-debug-output");
    assert_eq!(kind(&argv(&["-gmagic", "-c", "-o", "a.o", "a.c"])), "unknown-flag");
}

#[test]
fn prefix_maps_keep_their_replacement_verbatim() {
    let invocation = CcInvocation::parse(&argv(&["-ffile-prefix-map=/work/one=.", "-c", "-o", "a.o", "a.c"])).unwrap();
    assert!(invocation.arguments.iter().any(|argument| matches!(
        argument,
        Argument::PrefixMap { flag, from, to } if flag == "-ffile-prefix-map" && from == "/work/one" && to == "."
    )));
}
