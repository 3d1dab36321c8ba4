//! How Cargo reads its own command line: global flags, the directory it is
//! pointed at, and where it would look for a manifest.
use vstd::prelude::*;
use crate::text::{chars_of, eq_lit, string_of, is_prefix, split_once, starts_with, strip_prefix, split_once_char, lit};
use crate::path::{is_absolute, components, join};

verus! {

/// Arguments as plain text.
pub open spec fn strs(args: Seq<String>) -> Seq<Seq<char>> {
    args.map_values(|s: String| s@)
}

/// The arguments Cargo reads itself: everything before the first `--`.
pub open spec fn cargo_args(args: Seq<Seq<char>>) -> Seq<Seq<char>>
    decreases args.len(),
{
    if args.len() == 0 {
        args
    } else if args[0] == "--"@ {
        Seq::empty()
    } else {
        seq![args[0]] + cargo_args(args.drop_first())
    }
}

/// The value of `flag`, written as `flag=value` or as `flag value`, at its
/// first occurrence.
pub open spec fn flag_value_of(args: Seq<Seq<char>>, flag: Seq<char>) -> Option<Seq<char>>
    decreases args.len(),
{
    if args.len() == 0 {
        None
    } else if is_prefix(flag + "="@, args[0]) {
        Some(args[0].skip(flag.len() as int + 1))
    } else if args[0] == flag {
        if args.len() > 1 { Some(args[1]) } else { None }
    } else {
        flag_value_of(args.drop_first(), flag)
    }
}

/// `value` taken against `base`, as `PathBuf::join` does: an absolute
/// value stands alone, a relative one follows `base` after one separator.
pub open spec fn joined_path(base: Seq<char>, value: Seq<char>) -> Seq<char> {
    if is_absolute(value) {
        value
    } else if base.len() == 0 || base.last() == '/' {
        base + value
    } else {
        base + "/"@ + value
    }
}

/// The arguments before the first `--`.
pub fn cargo_arguments(arguments: &[String]) -> (r: &[String])
    ensures
        strs(r@) == cargo_args(strs(arguments@)),
{
    let ghost all = strs(arguments@);
    let mut end: usize = 0;
    assert(all.skip(0) == all);
    assert(strs(arguments@.take(0)) =~= Seq::<Seq<char>>::empty());
    while end < arguments.len()
        invariant
            end <= arguments.len(),
            all == strs(arguments@),
            cargo_args(all) == strs(arguments@.take(end as int)) + cargo_args(all.skip(end as int)),
        decreases arguments.len() - end,
    {
        let text = chars_of(arguments[end].as_str());
        assert(all.skip(end as int)[0] == arguments@[end as int]@);
        assert(all.skip(end as int).drop_first() == all.skip(end + 1));
        if eq_lit(&text, "--") {
            assert(cargo_args(all.skip(end as int)) == Seq::<Seq<char>>::empty());
            assert(cargo_args(all) =~= strs(arguments@.take(end as int)));
            let r = &arguments[0..end];
            assert(r@ == arguments@.take(end as int));
            return r;
        }
        assert(strs(arguments@.take(end + 1)) =~= strs(arguments@.take(end as int)).push(arguments@[end as int]@));
        assert(cargo_args(all.skip(end as int)) == seq![all[end as int]] + cargo_args(all.skip(end + 1)));
        assert(strs(arguments@.take(end as int)) + cargo_args(all.skip(end as int))
            =~= strs(arguments@.take(end + 1)) + cargo_args(all.skip(end + 1)));
        end = end + 1;
    }
    assert(all.skip(end as int).len() == 0);
    assert(arguments@.take(end as int) == arguments@);
    assert(cargo_args(all) =~= strs(arguments@));
    let r = &arguments[0..end];
    assert(r@ == arguments@.take(end as int));
    r
}

/// The value of `flag` at its first occurrence, see [`flag_value_of`].
pub fn flag_value(arguments: &[String], flag: &str) -> (r: Option<String>)
    ensures
        match (r, flag_value_of(strs(arguments@), flag@)) {
            (Some(v), Some(w)) => v@ == w,
            (None, None) => true,
            _ => false,
        },
{
    let ghost all = strs(arguments@);
    let name = chars_of(flag);
    let mut joined = chars_of(flag);
    joined.push('=');
    proof {
        reveal_strlit("=");
    }
    assert(joined@ == flag@ + "="@);
    assert(all.skip(0) == all);
    let mut i: usize = 0;
    while i < arguments.len()
        invariant
            i <= arguments.len(),
            all == strs(arguments@),
            name@ == flag@,
            joined@ == flag@ + "="@,
            joined@.len() == flag@.len() + 1,
            flag_value_of(all, flag@) == flag_value_of(all.skip(i as int), flag@),
        decreases arguments.len() - i,
    {
        let text = chars_of(arguments[i].as_str());
        let ghost rest = all.skip(i as int);
        assert(rest[0] == text@);
        assert(rest.drop_first() == all.skip(i + 1));
        if crate::text::starts_with_chars(&text, &joined) {
            let value = crate::text::skip(&text, joined.len());
            return Some(string_of(&value));
        }
        if crate::text::eq_chars(&text, &name) {
            if i + 1 < arguments.len() {
                assert(rest[1] == arguments@[i + 1]@);
                return Some(arguments[i + 1].clone());
            }
            return None;
        }
        i = i + 1;
    }
    None
}

/// `value` taken against the working directory.
pub fn absolute(working_dir: &str, value: &str) -> (r: String)
    ensures
        r@ == joined_path(working_dir@, value@),
{
    let base = chars_of(working_dir);
    let tail = chars_of(value);
    if tail.len() > 0 && tail[0] == '/' {
        return string_of(&tail);
    }
    proof {
        reveal_strlit("/");
    }
    let mut out = base;
    if out.len() > 0 && out[out.len() - 1] != '/' {
        out.push('/');
    }
    let joined = crate::text::concat_chars(&out, &tail);
    string_of(&joined)
}


/// Flag names as plain text.
pub open spec fn names(flags: Seq<&str>) -> Seq<Seq<char>> {
    flags.map_values(|f: &str| f@)
}

/// Whether `a` is one of `flags` written with its value attached, as `-Cdir`
/// is for a two-character flag.
#[verifier::opaque]
pub open spec fn attached_short_flag(a: Seq<char>, flags: Seq<Seq<char>>) -> bool {
    exists|k: int| 0 <= k < flags.len() && flags[k].len() == 2 && a.len() > 2 && is_prefix(#[trigger] flags[k], a)
}

/// The occurrences of `flags` in `args`, each with its value: `flag=value`
/// becomes `flag value`, `flag value` stays, and a two-character flag with
/// its value attached stays one argument.
pub open spec fn forwarded(args: Seq<Seq<char>>, flags: Seq<Seq<char>>) -> Seq<Seq<char>>
    decreases args.len(),
{
    if args.len() == 0 {
        Seq::empty()
    } else {
        let a = args[0];
        let split = split_once(a, '=');
        if split is Some && flags.contains(split.unwrap().0) {
            seq![split.unwrap().0, split.unwrap().1] + forwarded(args.drop_first(), flags)
        } else if flags.contains(a) {
            if args.len() > 1 {
                seq![a, args[1]] + forwarded(args.skip(2), flags)
            } else {
                Seq::empty()
            }
        } else if attached_short_flag(a, flags) {
            seq![a] + forwarded(args.drop_first(), flags)
        } else {
            forwarded(args.drop_first(), flags)
        }
    }
}

fn is_flag_name(flags: &[&str], text: &[char]) -> (r: bool)
    ensures
        r == names(flags@).contains(text@),
{
    let mut k: usize = 0;
    while k < flags.len()
        invariant
            k <= flags.len(),
            forall|j: int| 0 <= j < k ==> names(flags@)[j] != text@,
        decreases flags.len() - k,
    {
        let name = chars_of(flags[k]);
        if crate::text::eq_chars(&name, text) {
            assert(names(flags@)[k as int] == text@);
            return true;
        }
        k = k + 1;
    }
    false
}

fn has_attached_short_flag(flags: &[&str], text: &[char]) -> (r: bool)
    ensures
        r == attached_short_flag(text@, names(flags@)),
{
    reveal(attached_short_flag);
    let mut k: usize = 0;
    while k < flags.len()
        invariant
            k <= flags.len(),
            forall|j: int| 0 <= j < k ==> !(names(flags@)[j].len() == 2 && text@.len() > 2 && is_prefix(#[trigger] names(flags@)[j], text@)),
        decreases flags.len() - k,
    {
        let name = chars_of(flags[k]);
        assert(names(flags@)[k as int] == name@);
        if name.len() == 2 && text.len() > 2 && crate::text::starts_with_chars(text, &name) {
            assert(attached_short_flag(text@, names(flags@))) by {
                reveal(attached_short_flag);
                assert(is_prefix(names(flags@)[k as int], text@));
            }
            return true;
        }
        k = k + 1;
    }
    false
}

/// The occurrences of `flags` in `arguments` with their values, see [`forwarded`].
#[verifier::rlimit(30)]
pub fn forwarded_flags(arguments: &[String], flags: &[&str]) -> (r: Vec<String>)
    ensures
        strs(r@) == forwarded(strs(arguments@), names(flags@)),
{
    let ghost all = strs(arguments@);
    let ghost fs = names(flags@);
    let mut out: Vec<String> = Vec::new();
    let mut i: usize = 0;
    assert(all.skip(0) == all);
    while i < arguments.len()
        invariant
            i <= arguments.len(),
            all == strs(arguments@),
            fs == names(flags@),
            strs(out@) + forwarded(all.skip(i as int), fs) == forwarded(all, fs),
        decreases arguments.len() - i,
    {
        let text = chars_of(arguments[i].as_str());
        let ghost rest = all.skip(i as int);
        assert(rest[0] == text@);
        assert(rest.drop_first() == all.skip(i + 1));
        let ghost before = strs(out@);
        match split_once_char(&text, '=') {
            Some((flag, value)) => {
                if is_flag_name(flags, &flag) {
                    out.push(string_of(&flag));
                    out.push(string_of(&value));
                    assert(strs(out@) =~= before + seq![flag@, value@]);
                    assert(before + seq![flag@, value@] + forwarded(all.skip(i + 1), fs)
                        =~= before + (seq![flag@, value@] + forwarded(all.skip(i + 1), fs)));
                    i = i + 1;
                    continue;
                }
            },
            None => {},
        }
        if is_flag_name(flags, &text) {
            if i + 1 < arguments.len() {
                out.push(arguments[i].clone());
                out.push(arguments[i + 1].clone());
                assert(rest[1] == arguments@[i + 1]@);
                assert(rest.skip(2) == all.skip(i + 2));
                assert(strs(out@) =~= before + seq![text@, rest[1]]);
                assert(before + seq![text@, rest[1]] + forwarded(all.skip(i + 2), fs)
                    =~= before + (seq![text@, rest[1]] + forwarded(all.skip(i + 2), fs)));
                i = i + 2;
                continue;
            } else {
                assert(forwarded(rest, fs) == Seq::<Seq<char>>::empty());
                assert(before + Seq::<Seq<char>>::empty() == before);
                return out;
            }
        }
        if has_attached_short_flag(flags, &text) {
            out.push(arguments[i].clone());
            assert(strs(out@) =~= before + seq![text@]);
            assert(before + seq![text@] + forwarded(all.skip(i + 1), fs)
                =~= before + (seq![text@] + forwarded(all.skip(i + 1), fs)));
        }
        i = i + 1;
    }
    assert(all.skip(i as int).len() == 0);
    assert(strs(out@) + Seq::<Seq<char>>::empty() == strs(out@));
    out
}

/// The directory `-C` points Cargo at, or the working directory.
pub open spec fn invocation_dir_of(args: Seq<Seq<char>>, working_dir: Seq<char>) -> Seq<char> {
    match flag_value_of(args, "-C"@) {
        Some(value) => joined_path(working_dir, value),
        None => working_dir,
    }
}

/// The directory `-C` names.
pub fn invocation_dir(arguments: &[String], working_dir: &str) -> (r: String)
    ensures
        r@ == invocation_dir_of(strs(arguments@), working_dir@),
{
    match flag_value(arguments, "-C") {
        Some(value) => absolute(working_dir, value.as_str()),
        None => String::from_str(working_dir),
    }
}

/// The value of the first `-Cdir` argument, the directory written onto the flag.
pub open spec fn attached_directory(args: Seq<Seq<char>>) -> Option<Seq<char>>
    decreases args.len(),
{
    if args.len() == 0 {
        None
    } else if is_prefix("-C"@, args[0]) && args[0].len() > 2 {
        Some(args[0].skip(2))
    } else {
        attached_directory(args.drop_first())
    }
}

/// The directory Cargo is pointed at, by `-C dir`, `--directory dir` or
/// `-Cdir`, taken against the working directory; else the working directory.
pub open spec fn directory_option_dir_of(args: Seq<Seq<char>>, working_dir: Seq<char>) -> Seq<char> {
    let named = match flag_value_of(args, "-C"@) {
        Some(v) => Some(v),
        None => match flag_value_of(args, "--directory"@) {
            Some(v) => Some(v),
            None => attached_directory(args),
        },
    };
    match named {
        Some(value) => joined_path(working_dir, value),
        None => working_dir,
    }
}

fn attached_directory_of(arguments: &[String]) -> (r: Option<String>)
    ensures
        match (r, attached_directory(strs(arguments@))) {
            (Some(v), Some(w)) => v@ == w,
            (None, None) => true,
            _ => false,
        },
{
    let ghost all = strs(arguments@);
    let mut i: usize = 0;
    assert(all.skip(0) == all);
    while i < arguments.len()
        invariant
            i <= arguments.len(),
            all == strs(arguments@),
            attached_directory(all) == attached_directory(all.skip(i as int)),
        decreases arguments.len() - i,
    {
        let text = chars_of(arguments[i].as_str());
        let ghost rest = all.skip(i as int);
        assert(rest[0] == text@);
        assert(rest.drop_first() == all.skip(i + 1));
        if starts_with(&text, "-C") && text.len() > 2 {
            let value = crate::text::skip(&text, 2);
            proof {
                reveal_strlit("-C");
            }
            return Some(string_of(&value));
        }
        i = i + 1;
    }
    None
}

/// Where Cargo is pointed, see [`directory_option_dir_of`].
pub fn directory_option_dir(arguments: &[String], working_dir: &str) -> (r: String)
    ensures
        r@ == directory_option_dir_of(strs(arguments@), working_dir@),
{
    let named = match flag_value(arguments, "-C") {
        Some(v) => Some(v),
        None => match flag_value(arguments, "--directory") {
            Some(v) => Some(v),
            None => attached_directory_of(arguments),
        },
    };
    match named {
        Some(value) => absolute(working_dir, value.as_str()),
        None => String::from_str(working_dir),
    }
}

/// Whether a Cargo global option takes the next argument as its value.
pub open spec fn takes_value(a: Seq<char>) -> bool {
    a == "--color"@ || a == "--config"@ || a == "-Z"@ || a == "-C"@ || a == "--directory"@
}

/// The subcommand: the first argument that is neither an option nor an
/// option's value.
pub open spec fn first_command(args: Seq<Seq<char>>) -> Option<Seq<char>>
    decreases args.len(),
{
    if args.len() == 0 {
        None
    } else if takes_value(args[0]) {
        if args.len() < 2 { None } else { first_command(args.skip(2)) }
    } else if !(args[0].len() > 0 && (args[0][0] == '-' || args[0][0] == '+')) {
        Some(args[0])
    } else {
        first_command(args.drop_first())
    }
}

/// The source directory of `cargo install --path`, taken against the
/// directory Cargo is pointed at.
pub open spec fn install_source(args: Seq<Seq<char>>, working_dir: Seq<char>) -> Option<Seq<char>> {
    match first_command(args) {
        Some(command) => if command == "install"@ {
            match flag_value_of(args, "--path"@) {
                Some(path) => Some(joined_path(directory_option_dir_of(args, working_dir), path)),
                None => None,
            }
        } else {
            None
        },
        None => None,
    }
}

fn first_command_of(arguments: &[String]) -> (r: Option<String>)
    ensures
        match (r, first_command(strs(arguments@))) {
            (Some(v), Some(w)) => v@ == w,
            (None, None) => true,
            _ => false,
        },
{
    let ghost all = strs(arguments@);
    let mut i: usize = 0;
    assert(all.skip(0) == all);
    while i < arguments.len()
        invariant
            i <= arguments.len(),
            all == strs(arguments@),
            first_command(all) == first_command(all.skip(i as int)),
        decreases arguments.len() - i,
    {
        let text = chars_of(arguments[i].as_str());
        let ghost rest = all.skip(i as int);
        assert(rest[0] == text@);
        assert(rest.drop_first() == all.skip(i + 1));
        if eq_lit(&text, "--color") || eq_lit(&text, "--config") || eq_lit(&text, "-Z") || eq_lit(&text, "-C")
            || eq_lit(&text, "--directory") {
            if i + 1 >= arguments.len() {
                return None;
            }
            assert(rest.skip(2) == all.skip(i + 2));
            i = i + 2;
        } else if !(text.len() > 0 && (text[0] == '-' || text[0] == '+')) {
            return Some(arguments[i].clone());
        } else {
            i = i + 1;
        }
    }
    None
}

pub(crate) fn install_source_of(arguments: &[String], working_dir: &str) -> (r: Option<String>)
    ensures
        match (r, install_source(strs(arguments@), working_dir@)) {
            (Some(v), Some(w)) => v@ == w,
            (None, None) => true,
            _ => false,
        },
{
    match first_command_of(arguments) {
        Some(command) => {
            let text = chars_of(command.as_str());
            if eq_lit(&text, "install") {
                match flag_value(arguments, "--path") {
                    Some(path) => {
                        let base = directory_option_dir(arguments, working_dir);
                        Some(absolute(base.as_str(), path.as_str()))
                    },
                    None => None,
                }
            } else {
                None
            }
        },
        None => None,
    }
}

/// The source directory of a real `cargo install --path`, if this is one;
/// option values and arguments after `--` do not make a command one.
pub fn path_install_dir(arguments: &[String], working_dir: &str) -> (r: Option<String>)
    ensures
        match (r, install_source(cargo_args(strs(arguments@)), working_dir@)) {
            (Some(v), Some(w)) => v@ == w,
            (None, None) => true,
            _ => false,
        },
{
    install_source_of(cargo_arguments(arguments), working_dir)
}

/// The value of `--target-dir`.
pub fn target_dir_argument(arguments: &[String]) -> (r: Option<String>)
    ensures
        match (r, flag_value_of(strs(arguments@), "--target-dir"@)) {
            (Some(v), Some(w)) => v@ == w,
            (None, None) => true,
            _ => false,
        },
{
    flag_value(arguments, "--target-dir")
}

/// The values given to `--config`, as `--config=value` or `--config value`.
pub open spec fn config_values(args: Seq<Seq<char>>) -> Seq<Seq<char>>
    decreases args.len(),
{
    if args.len() == 0 {
        Seq::empty()
    } else if is_prefix("--config="@, args[0]) {
        seq![args[0].skip(9)] + config_values(args.drop_first())
    } else if args[0] == "--config"@ {
        if args.len() > 1 { seq![args[1]] + config_values(args.skip(2)) } else { Seq::empty() }
    } else {
        config_values(args.drop_first())
    }
}

/// The values given to `--config`, see [`config_values`].
pub fn config_arguments(arguments: &[String]) -> (r: Vec<String>)
    ensures
        strs(r@) == config_values(strs(arguments@)),
{
    let ghost all = strs(arguments@);
    let mut out: Vec<String> = Vec::new();
    let mut i: usize = 0;
    assert(all.skip(0) == all);
    while i < arguments.len()
        invariant
            i <= arguments.len(),
            all == strs(arguments@),
            strs(out@) + config_values(all.skip(i as int)) == config_values(all),
        decreases arguments.len() - i,
    {
        let text = chars_of(arguments[i].as_str());
        let ghost rest = all.skip(i as int);
        let ghost before = strs(out@);
        assert(rest[0] == text@);
        assert(rest.drop_first() == all.skip(i + 1));
        match strip_prefix(&text, "--config=") {
            Some(value) => {
                proof {
                    reveal_strlit("--config=");
                }
                out.push(string_of(&value));
                assert(strs(out@) =~= before + seq![value@]);
                assert(before + seq![value@] + config_values(all.skip(i + 1))
                    =~= before + (seq![value@] + config_values(all.skip(i + 1))));
                i = i + 1;
            },
            None => {
                if eq_lit(&text, "--config") {
                    if i + 1 >= arguments.len() {
                        assert(before + Seq::<Seq<char>>::empty() == before);
                        return out;
                    }
                    out.push(arguments[i + 1].clone());
                    assert(rest[1] == arguments@[i + 1]@);
                    assert(rest.skip(2) == all.skip(i + 2));
                    assert(strs(out@) =~= before + seq![rest[1]]);
                    assert(before + seq![rest[1]] + config_values(all.skip(i + 2))
                        =~= before + (seq![rest[1]] + config_values(all.skip(i + 2))));
                    i = i + 2;
                } else {
                    i = i + 1;
                }
            },
        }
    }
    assert(all.skip(i as int).len() == 0);
    assert(strs(out@) + Seq::<Seq<char>>::empty() == strs(out@));
    out
}

} // verus!
