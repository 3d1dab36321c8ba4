//! The environment a cc compile is keyed by, or refused for.
use vstd::prelude::*;
use crate::cc::reason::{CcBypassReason, BypassView};
use crate::cc::invocation::opt_view;
use crate::text::{chars_of, eq_chars, eq_lit, lit, string_of};

verus! {

/// Variables whose values enter every cc action key.
///
/// These change the compiler's own behavior without appearing in argv. They
/// are recorded even when unset, so setting one is distinguishable from
/// leaving it unset.
pub open spec fn keyed_environment() -> Seq<Seq<char>> {
    seq![
        "IPHONEOS_DEPLOYMENT_TARGET"@,
        "LANG"@,
        "LC_ALL"@,
        "LC_MESSAGES"@,
        "MACOSX_DEPLOYMENT_TARGET"@,
        "SDKROOT"@,
        "SOURCE_DATE_EPOCH"@,
        "TVOS_DEPLOYMENT_TARGET"@,
        "WATCHOS_DEPLOYMENT_TARGET"@,
        "XROS_DEPLOYMENT_TARGET"@
    ]
}

/// Variables that force a bypass when set.
///
/// Each one either injects search paths the argv model cannot see, redirects
/// sub-tool resolution beneath the identity probe, or makes the driver write
/// an output the adapter does not model.
pub open spec fn bypass_environment() -> Seq<Seq<char>> {
    seq![
        "CPATH"@,
        "COMPILER_PATH"@,
        "CPLUS_INCLUDE_PATH"@,
        "C_INCLUDE_PATH"@,
        "DEPENDENCIES_OUTPUT"@,
        "GCC_EXEC_PREFIX"@,
        "OBJC_INCLUDE_PATH"@,
        "SUNPRO_DEPENDENCIES"@
    ]
}

/// An environment snapshot taken by its characters.
pub open spec fn env_view(env: Seq<(String, String)>) -> Seq<(Seq<char>, Seq<char>)> {
    env.map_values(|e: (String, String)| (e.0@, e.1@))
}

/// The value of `name` in an environment snapshot: its first entry.
pub open spec fn env_value_from(env: Seq<(Seq<char>, Seq<char>)>, name: Seq<char>, k: int) -> Option<Seq<char>>
    decreases env.len() - k,
{
    if k < 0 || k >= env.len() {
        None
    } else if env[k].0 == name {
        Some(env[k].1)
    } else {
        env_value_from(env, name, k + 1)
    }
}

/// The value of `name` in an environment snapshot.
pub open spec fn env_value(env: Seq<(Seq<char>, Seq<char>)>, name: Seq<char>) -> Option<Seq<char>> {
    env_value_from(env, name, 0)
}

/// The first of `names`, from `k` on, that the snapshot sets.
pub open spec fn first_set_from(env: Seq<(Seq<char>, Seq<char>)>, names: Seq<Seq<char>>, k: int) -> Option<Seq<char>>
    decreases names.len() - k,
{
    if k < 0 || k >= names.len() {
        None
    } else if env_value(env, names[k]) is Some {
        Some(names[k])
    } else {
        first_set_from(env, names, k + 1)
    }
}

/// The keyed variables and their values, in name order, leaving out
/// `SDKROOT` when an explicit sysroot already pins the SDK.
pub open spec fn keyed_values(env: Seq<(Seq<char>, Seq<char>)>, has_sysroot: bool) -> Seq<(Seq<char>, Option<Seq<char>>)> {
    keyed_environment()
        .filter(|name: Seq<char>| !(has_sysroot && name == "SDKROOT"@))
        .map_values(|name: Seq<char>| (name, env_value(env, name)))
}

/// What [`environment_inputs`] answers for a snapshot.
pub open spec fn environment_result(env: Seq<(Seq<char>, Seq<char>)>, has_sysroot: bool) -> Result<Seq<(Seq<char>, Option<Seq<char>>)>, BypassView> {
    match first_set_from(env, bypass_environment(), 0) {
        Some(name) => Err(BypassView::UnsupportedEnvironment(name)),
        None => Ok(keyed_values(env, has_sysroot)),
    }
}

/// Keyed values taken by their characters.
pub open spec fn keyed_view(v: Seq<(String, Option<String>)>) -> Seq<(Seq<char>, Option<Seq<char>>)> {
    v.map_values(|e: (String, Option<String>)| (e.0@, opt_view(e.1)))
}

/// The value of `name` in the snapshot.
pub fn lookup_env(env: &[(String, String)], name: &[char]) -> (r: Option<String>)
    ensures
        opt_view(r) == env_value(env_view(env@), name@),
{
    let ghost ev = env_view(env@);
    let mut k: usize = 0;
    while k < env.len()
        invariant
            k <= env.len(),
            ev == env_view(env@),
            ev.len() == env@.len(),
            env_value_from(ev, name@, k as int) == env_value(ev, name@),
        decreases env.len() - k,
    {
        let key = chars_of(env[k].0.as_str());
        assert(ev[k as int] == (env@[k as int].0@, env@[k as int].1@));
        if eq_chars(key.as_slice(), name) {
            return Some(env[k].1.clone());
        }
        k = k + 1;
    }
    None
}

proof fn lemma_keyed_push(names: Seq<Seq<char>>, x: Seq<char>, has_sysroot: bool)
    ensures
        names.push(x).filter(|name: Seq<char>| !(has_sysroot && name == "SDKROOT"@)) == (if !(has_sysroot && x == "SDKROOT"@) {
            names.filter(|name: Seq<char>| !(has_sysroot && name == "SDKROOT"@)).push(x)
        } else {
            names.filter(|name: Seq<char>| !(has_sysroot && name == "SDKROOT"@))
        }),
{
    reveal_with_fuel(Seq::<Seq<char>>::filter, 1);
    assert(names.push(x).drop_last() =~= names);
}

/// Read the modeled environment from a snapshot of the variables that are
/// set, rejecting variables that change the compile in a way the argv model
/// cannot see.
///
/// Every keyed variable is recorded, with no value where the snapshot does
/// not set it, except `SDKROOT` when the command line names a sysroot: an
/// explicit `-isysroot` already pins the SDK, and it is what the driver
/// honors.
pub fn environment_inputs(env: &[(String, String)], sysroot: Option<&str>) -> (r: Result<Vec<(String, Option<String>)>, CcBypassReason>)
    ensures
        match environment_result(env_view(env@), sysroot is Some) {
            Ok(values) => r matches Ok(x) && keyed_view(x@) == values,
            Err(e) => r matches Err(x) && x@ == e,
        },
{
    let ghost ev = env_view(env@);
    let bypass: [&str; 8] = [
        "CPATH",
        "COMPILER_PATH",
        "CPLUS_INCLUDE_PATH",
        "C_INCLUDE_PATH",
        "DEPENDENCIES_OUTPUT",
        "GCC_EXEC_PREFIX",
        "OBJC_INCLUDE_PATH",
        "SUNPRO_DEPENDENCIES",
    ];
    proof {
        assert(bypass@.map_values(|s: &str| s@) =~= bypass_environment());
    }
    let mut k: usize = 0;
    while k < 8
        invariant
            k <= 8,
            ev == env_view(env@),
            bypass@.map_values(|s: &str| s@) == bypass_environment(),
            first_set_from(ev, bypass_environment(), k as int) == first_set_from(ev, bypass_environment(), 0),
        decreases 8 - k,
    {
        let name = lit(bypass[k]);
        assert(name@ == bypass_environment()[k as int]);
        if lookup_env(env, name.as_slice()).is_some() {
            return Err(CcBypassReason::UnsupportedEnvironment(string_of(name.as_slice())));
        }
        k = k + 1;
    }
    let keyed: [&str; 10] = [
        "IPHONEOS_DEPLOYMENT_TARGET",
        "LANG",
        "LC_ALL",
        "LC_MESSAGES",
        "MACOSX_DEPLOYMENT_TARGET",
        "SDKROOT",
        "SOURCE_DATE_EPOCH",
        "TVOS_DEPLOYMENT_TARGET",
        "WATCHOS_DEPLOYMENT_TARGET",
        "XROS_DEPLOYMENT_TARGET",
    ];
    proof {
        assert(keyed@.map_values(|s: &str| s@) =~= keyed_environment());
    }
    let has_sysroot = sysroot.is_some();
    let mut values: Vec<(String, Option<String>)> = Vec::new();
    let mut i: usize = 0;
    while i < 10
        invariant
            i <= 10,
            ev == env_view(env@),
            has_sysroot == (sysroot is Some),
            keyed@.map_values(|s: &str| s@) == keyed_environment(),
            keyed_view(values@) == keyed_environment().take(i as int)
                .filter(|name: Seq<char>| !(has_sysroot && name == "SDKROOT"@))
                .map_values(|name: Seq<char>| (name, env_value(ev, name))),
        decreases 10 - i,
    {
        let name = lit(keyed[i]);
        assert(name@ == keyed_environment()[i as int]);
        proof {
            assert(keyed_environment().take(i + 1) =~= keyed_environment().take(i as int).push(name@));
            lemma_keyed_push(keyed_environment().take(i as int), name@, has_sysroot);
        }
        let skip_it = has_sysroot && eq_lit(name.as_slice(), "SDKROOT");
        if !skip_it {
            let value = lookup_env(env, name.as_slice());
            let ghost before = values@;
            values.push((string_of(name.as_slice()), value));
            assert(keyed_view(values@) =~= keyed_view(before).push((name@, env_value(ev, name@))));
        }
        i = i + 1;
    }
    assert(keyed_environment().take(10) =~= keyed_environment());
    Ok(values)
}

} // verus!
