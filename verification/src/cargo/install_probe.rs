//! The roots probe of `cargo install --path`, which reads configuration from
//! the source directory where a probe normally reads it from the caller's:
//! it runs there, with the caller-relative paths of the command line and the
//! environment rebased onto the caller's directory.
use vstd::prelude::*;
use crate::text::{chars_of, eq_lit, contains_char, lit_then};
use crate::cargo::args::{
    strs, cargo_args, joined_path, directory_option_dir_of, install_source, config_values, forwarded, names,
    absolute, directory_option_dir, config_arguments, forwarded_flags, path_install_dir,
};

verus! {

/// The name for how toml renders a string value: a quoted, escaped TOML
/// string.
pub uninterp spec fn toml_quoted(s: Seq<char>) -> Seq<char>;

/// `toml::Value::String(s)` rendered by its `Display`; the rendering is a
/// function of `s` and is not stated further.
#[verifier::external_body]
fn toml_string(s: &str) -> (r: String)
    ensures
        r@ == toml_quoted(s@),
{
    toml::Value::String(s.to_owned()).to_string()
}

/// The name for the `build.target-dir` string an inline `--config` value
/// sets, read by `toml::from_str`: none where the value does not parse as
/// TOML or sets no such string.
pub uninterp spec fn inline_target_dir(value: Seq<char>) -> Option<Seq<char>>;

/// `toml::from_str::<toml::Value>(value)`, then its `build.target-dir`
/// string; the parse is not stated further.
#[verifier::external_body]
fn inline_target_dir_of(value: &str) -> (r: Option<String>)
    ensures
        match r {
            Some(t) => inline_target_dir(value@) == Some(t@),
            None => inline_target_dir(value@) == None::<Seq<char>>,
        },
{
    let config = toml::from_str::<toml::Value>(value).ok()?;
    config.get("build")?.get("target-dir")?.as_str().map(str::to_owned)
}

/// A `--config` override that sets the target directory to `target` taken
/// against the caller's directory.
pub open spec fn target_override(caller: Seq<char>, target: Seq<char>) -> Seq<Seq<char>> {
    seq!["--config"@, "build.target-dir = "@ + toml_quoted(joined_path(caller, target))]
}

/// One `--config` value carried over to the probe: an inline setting as
/// `rebased` gives it (its includes rebased onto the caller's directory), a
/// file taken against the caller's directory; then, where the setting names
/// a target directory, that directory rebased the same way.
pub open spec fn config_override(value: Seq<char>, rebased: Seq<char>, caller: Seq<char>) -> Seq<Seq<char>> {
    let carried = if value.contains('=') { rebased } else { joined_path(caller, value) };
    seq!["--config"@, carried] + match inline_target_dir(carried) {
        Some(t) => target_override(caller, t),
        None => Seq::empty(),
    }
}

/// Every `--config` value carried over, in order.
pub open spec fn config_overrides(values: Seq<Seq<char>>, rebased: Seq<Seq<char>>, caller: Seq<char>) -> Seq<Seq<char>>
    decreases values.len(),
{
    if values.len() == 0 {
        Seq::empty()
    } else {
        config_overrides(values.drop_last(), rebased.take(values.len() - 1), caller)
            + config_override(values.last(), rebased[values.len() - 1], caller)
    }
}

/// The probe's arguments for `install --path`: the environment's target
/// directory first (the command line's overrides outrank it), then each
/// `--config` carried over, the `-Z` flags, `build`, and the options that
/// pick how the manifest is read.
pub open spec fn install_probe_args(args: Seq<Seq<char>>, working_dir: Seq<char>, build_target_dir_env: Option<Seq<char>>, rebased: Seq<Seq<char>>) -> Seq<Seq<char>> {
    let caller = directory_option_dir_of(args, working_dir);
    (match build_target_dir_env {
        Some(t) => if t.len() > 0 { target_override(caller, t) } else { Seq::empty() },
        None => Seq::empty(),
    })
        + config_overrides(config_values(args), rebased, caller)
        + forwarded(args, seq!["-Z"@])
        + seq!["build"@]
        + args.filter(|a: Seq<char>| a == "--offline"@ || a == "--frozen"@ || a == "--locked"@)
}

fn push_all(out: &mut Vec<String>, more: Vec<String>)
    ensures
        strs(final(out)@) == strs(old(out)@) + strs(more@),
{
    let ghost start = strs(out@);
    let ghost all = strs(more@);
    let mut i: usize = 0;
    while i < more.len()
        invariant
            i <= more.len(),
            all == strs(more@),
            strs(out@) == start + all.take(i as int),
        decreases more.len() - i,
    {
        let ghost before = strs(out@);
        out.push(more[i].clone());
        assert(strs(out@) =~= before.push(all[i as int]));
        assert(all.take(i + 1) =~= all.take(i as int).push(all[i as int]));
        i = i + 1;
    }
    assert(all.take(more.len() as int) == all);
}

fn target_override_args(caller: &str, target: &str) -> (r: Vec<String>)
    ensures
        strs(r@) == target_override(caller@, target@),
{
    let rebased = absolute(caller, target);
    let quoted = toml_string(rebased.as_str());
    let quoted_chars = chars_of(quoted.as_str());
    let setting = lit_then("build.target-dir = ", &quoted_chars);
    let mut out: Vec<String> = Vec::new();
    out.push(String::from_str("--config"));
    out.push(setting);
    assert(strs(out@) =~= target_override(caller@, target@));
    out
}

fn config_override_args(value: &str, rebased: &str, caller: &str) -> (r: Vec<String>)
    ensures
        strs(r@) == config_override(value@, rebased@, caller@),
{
    let text = chars_of(value);
    let carried = if contains_char(&text, '=') { String::from_str(rebased) } else { absolute(caller, value) };
    let mut out: Vec<String> = Vec::new();
    out.push(String::from_str("--config"));
    out.push(carried.clone());
    assert(strs(out@) =~= seq!["--config"@, carried@]);
    match inline_target_dir_of(carried.as_str()) {
        Some(t) => {
            push_all(&mut out, target_override_args(caller, t.as_str()));
        },
        None => {
            assert(strs(out@) =~= strs(out@) + Seq::<Seq<char>>::empty());
        },
    }
    out
}

/// The probe that `cargo install --path` runs in the source directory:
/// its arguments (see [`install_probe_args`]), the source directory, and the
/// target-directory environment rebased onto the caller's directory; none
/// for any other command. `arguments` are those before `--`;
/// `build_target_dir_env` and `target_dir_env` are `CARGO_BUILD_TARGET_DIR`
/// and the target directory the caller's environment names; `rebased` holds,
/// for each `--config` value in order, the value with its inline includes
/// rebased onto the caller's directory (used for values that hold `=`).
pub fn install_probe(
    arguments: &[String],
    working_dir: &str,
    build_target_dir_env: Option<&str>,
    target_dir_env: Option<&str>,
    rebased: &Vec<String>,
) -> (r: Option<(Vec<String>, String, Option<String>)>)
    requires
        rebased.len() == config_values(strs(arguments@)).len(),
    ensures
        match install_source(cargo_args(strs(arguments@)), working_dir@) {
            None => r is None,
            Some(source) => r matches Some((probe, dir, target)) && {
                let caller = directory_option_dir_of(strs(arguments@), working_dir@);
                &&& dir@ == source
                &&& strs(probe@) == install_probe_args(strs(arguments@), working_dir@,
                    match build_target_dir_env { Some(t) => Some(t@), None => None }, strs(rebased@))
                &&& match target_dir_env {
                    Some(t) => if t@.len() > 0 { target matches Some(x) && x@ == joined_path(caller, t@) } else { target is None },
                    None => target is None,
                }
            },
        },
{
    let source = match path_install_dir(arguments, working_dir) {
        Some(s) => s,
        None => return None,
    };
    let caller = directory_option_dir(arguments, working_dir);
    let mut probe: Vec<String> = Vec::new();
    match build_target_dir_env {
        Some(t) => {
            if chars_of(t).len() > 0 {
                push_all(&mut probe, target_override_args(caller.as_str(), t));
            }
        },
        None => {},
    }
    let values = config_arguments(arguments);
    let ghost vs = strs(values@);
    let ghost rs = strs(rebased@);
    let ghost head = strs(probe@);
    let mut i: usize = 0;
    while i < values.len()
        invariant
            i <= values.len(),
            vs == strs(values@),
            vs == config_values(strs(arguments@)),
            rs == strs(rebased@),
            rebased.len() == values.len(),
            caller@ == directory_option_dir_of(strs(arguments@), working_dir@),
            strs(probe@) == head + config_overrides(vs.take(i as int), rs.take(i as int), caller@),
        decreases values.len() - i,
    {
        let more = config_override_args(values[i].as_str(), rebased[i].as_str(), caller.as_str());
        push_all(&mut probe, more);
        assert(vs.take(i + 1).drop_last() == vs.take(i as int));
        assert(vs.take(i + 1).last() == values@[i as int]@);
        assert(rs.take(i + 1).take(i as int) == rs.take(i as int));
        assert(rs.take(i + 1)[i as int] == rebased@[i as int]@);
        assert(strs(probe@) =~= head + config_overrides(vs.take(i + 1), rs.take(i + 1), caller@));
        i = i + 1;
    }
    assert(vs.take(values.len() as int) == vs);
    assert(rs.take(values.len() as int) == rs);
    let flags: [&str; 1] = ["-Z"];
    assert(names(flags@) =~= seq!["-Z"@]);
    push_all(&mut probe, forwarded_flags(arguments, &flags));
    let ghost before_build = strs(probe@);
    probe.push(String::from_str("build"));
    assert(strs(probe@) =~= before_build.push("build"@));
    let ghost all = strs(arguments@);
    let ghost f = |a: Seq<char>| a == "--offline"@ || a == "--frozen"@ || a == "--locked"@;
    let ghost mid = strs(probe@);
    let mut k: usize = 0;
    while k < arguments.len()
        invariant
            k <= arguments.len(),
            all == strs(arguments@),
            f == (|a: Seq<char>| a == "--offline"@ || a == "--frozen"@ || a == "--locked"@),
            strs(probe@) == mid + all.take(k as int).filter(f),
        decreases arguments.len() - k,
    {
        let text = chars_of(arguments[k].as_str());
        let keep = eq_lit(&text, "--offline") || eq_lit(&text, "--frozen") || eq_lit(&text, "--locked");
        let ghost before = strs(probe@);
        assert(all[k as int] == text@);
        if keep {
            probe.push(arguments[k].clone());
            assert(strs(probe@) =~= before.push(all[k as int]));
        }
        assert(all.take(k + 1).drop_last() == all.take(k as int));
        assert(mid + all.take(k + 1).filter(f) == strs(probe@)) by {
            reveal_with_fuel(Seq::<Seq<char>>::filter, 1);
            assert(all.take(k + 1).filter(f) == if f(all[k as int]) {
                all.take(k as int).filter(f).push(all[k as int])
            } else {
                all.take(k as int).filter(f)
            });
        }
        k = k + 1;
    }
    assert(all.take(arguments.len() as int) == all);
    let target = match target_dir_env {
        Some(t) => if chars_of(t).len() > 0 { Some(absolute(caller.as_str(), t)) } else { None },
        None => None,
    };
    Some((probe, source, target))
}

} // verus!
