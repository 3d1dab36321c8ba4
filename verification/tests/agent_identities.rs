use mbx_cache::agent::budget::{BudgetError, DownloadBudget};
use mbx_cache::agent::identities::{
    ExecutableIdentities, ExecutableIdentityKey, IdentityError, MAX_EXECUTABLE_IDENTITIES,
    MAX_EXECUTABLE_IDENTITY_BYTES, MAX_EXECUTABLE_IDENTITY_SIZE,
};
use mbx_cache::agent::stats::{action_diagnostic_payload, validate_action_diagnostic, DiagnosticError};

fn key(executable: &str, environment: &[(&str, Option<&str>)]) -> ExecutableIdentityKey {
    ExecutableIdentityKey {
        executable: executable.to_string(),
        environment: environment.iter().map(|(n, v)| (n.to_string(), v.map(str::to_string))).collect(),
    }
}

#[test]
fn memoizes_client_observed_executable_identities() {
    let mut identities = ExecutableIdentities::new();
    let rustc = key("/tmp/session/rustc", &[("RUSTUP_TOOLCHAIN", Some("stable"))]);
    assert_eq!(identities.find(&rustc), None);
    identities.store(&rustc, &b"rustc identity".to_vec()).unwrap();
    assert_eq!(identities.find(&rustc), Some(b"rustc identity".to_vec()));
    // The same executable spelled another way is the same key; another
    // toolchain is not.
    assert_eq!(
        identities.find(&key("/tmp/./session/rustc", &[("RUSTUP_TOOLCHAIN", Some("stable"))])),
        Some(b"rustc identity".to_vec())
    );
    assert_eq!(identities.find(&key("/tmp/session/rustc", &[("RUSTUP_TOOLCHAIN", Some("nightly"))])), None);
}

#[test]
fn identity_keys_admit_only_names_that_select_the_answer() {
    let mut identities = ExecutableIdentities::new();
    for name in [
        "SDKROOT",
        "MACOSX_DEPLOYMENT_TARGET",
        "LIB",
        "UCRTVersion",
        "UniversalCRTSdkDir",
        "VCToolsInstallDir",
        "VCToolsVersion",
        "WindowsSdkDir",
        "WindowsSDKVersion",
    ] {
        assert!(identities.store(&key("/bin/cc", &[(name, Some("value"))]), &b"cc identity".to_vec()).is_ok(), "{name} should key an identity");
    }
    assert_eq!(
        identities.store(&key("/bin/cc", &[("PATH", Some("/usr/bin"))]), &b"cc identity".to_vec()),
        Err(IdentityError::UnsupportedEnvironment)
    );
}

#[test]
fn bounds_executable_identity_entry_count() {
    let mut identities = ExecutableIdentities::new();
    for index in 0..MAX_EXECUTABLE_IDENTITIES {
        identities.store(&key(&format!("/bin/rustc-{index}"), &[]), &vec![b'x']).unwrap();
    }
    assert_eq!(
        identities.store(&key("/bin/one-too-many", &[]), &vec![b'x']),
        Err(IdentityError::TooManyEntries)
    );
    // Replacing a kept identity is no new entry.
    assert!(identities.store(&key("/bin/rustc-0", &[]), &vec![b'y']).is_ok());
}

#[test]
fn bounds_executable_identity_retained_bytes() {
    let mut identities = ExecutableIdentities::new();
    for index in 0..MAX_EXECUTABLE_IDENTITY_BYTES / MAX_EXECUTABLE_IDENTITY_SIZE {
        identities
            .store(&key(&format!("/bin/rustc-{index}"), &[]), &vec![b'x'; MAX_EXECUTABLE_IDENTITY_SIZE])
            .unwrap();
    }
    assert_eq!(
        identities.store(&key("/bin/one-byte-too-many", &[]), &vec![b'x']),
        Err(IdentityError::TooManyBytes)
    );
    // A replacement counts what it replaces.
    assert!(identities.store(&key("/bin/rustc-0", &[]), &vec![b'y'; MAX_EXECUTABLE_IDENTITY_SIZE]).is_ok());
    assert_eq!(
        identities.store(&key("/bin/big", &[]), &vec![b'x'; MAX_EXECUTABLE_IDENTITY_SIZE + 1]),
        Err(IdentityError::TooLarge)
    );
}

#[test]
fn downloads_stay_within_the_session_budget() {
    let mut budget = DownloadBudget::new(100);
    let first = budget.reserve(60).unwrap();
    assert_eq!(budget.used(), 60);
    assert_eq!(
        budget.reserve(41).unwrap_err(),
        BudgetError::Exceeded { requested: 41, used: 60, limit: 100 }
    );
    assert_eq!(budget.reserve(u64::MAX).unwrap_err(), BudgetError::Overflowed);
    let partial = budget.reserve_up_to(70);
    assert_eq!(partial.bytes(), 40);
    assert_eq!(budget.used(), 100);
    // A download that used 25 of its 60 bytes gives back the rest.
    budget.commit(first, 25);
    assert_eq!(budget.used(), 65);
    // An abandoned download gives back everything.
    budget.release(partial);
    assert_eq!(budget.used(), 25);
    assert_eq!(budget.reserve_up_to(0).bytes(), 0);
}

#[test]
fn action_diagnostics_are_told_from_warnings_and_validated() {
    assert_eq!(
        action_diagnostic_payload("@mbx-action-diagnostic\t{\"outcome\":\"hit\"}").as_deref(),
        Some("{\"outcome\":\"hit\"}")
    );
    assert_eq!(action_diagnostic_payload("warning: unused variable"), None);
    assert_eq!(validate_action_diagnostic("hit", Some("serde")), Ok(()));
    assert_eq!(validate_action_diagnostic("miss", None), Ok(()));
    assert_eq!(validate_action_diagnostic("bypass", Some("serde")), Err(DiagnosticError::InvalidOutcome));
    assert_eq!(validate_action_diagnostic("hit", Some("bad\nname")), Err(DiagnosticError::InvalidCrateName));
    assert_eq!(DiagnosticError::InvalidOutcome.message(), "invalid action diagnostic outcome");
}
