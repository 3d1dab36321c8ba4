//! The fixed vocabularies of the cc argument model.
use vstd::prelude::*;
use crate::text::{is_one_of, one_of};

verus! {

/// `-f` options admitted as key material, by name (the part before any `=`).
pub open spec fn f_flag_names() -> Seq<Seq<char>> {
    seq!["PIC"@, "PIE"@, "asynchronous-unwind-tables"@, "color-diagnostics"@, "data-sections"@, "diagnostics-color"@, "exceptions"@, "function-sections"@, "merge-all-constants"@, "no-asynchronous-unwind-tables"@, "no-builtin"@, "no-common"@, "no-exceptions"@, "no-omit-frame-pointer"@, "no-plt"@, "no-rtti"@, "no-strict-aliasing"@, "omit-frame-pointer"@, "pic"@, "pie"@, "rtti"@, "short-enums"@, "signed-char"@, "stack-protector"@, "stack-protector-all"@, "stack-protector-strong"@, "strict-aliasing"@, "unsigned-char"@, "visibility"@, "visibility-inlines-hidden"@, "wrapv"@]
}

/// Whether `v` is in [`f_flag_names`].
pub fn is_f_flag_name(v: &[char]) -> (r: bool)
    ensures
        r == one_of(v@, f_flag_names()),
{
    let names: [&str; 31] = ["PIC", "PIE", "asynchronous-unwind-tables", "color-diagnostics", "data-sections", "diagnostics-color", "exceptions", "function-sections", "merge-all-constants", "no-asynchronous-unwind-tables", "no-builtin", "no-common", "no-exceptions", "no-omit-frame-pointer", "no-plt", "no-rtti", "no-strict-aliasing", "omit-frame-pointer", "pic", "pie", "rtti", "short-enums", "signed-char", "stack-protector", "stack-protector-all", "stack-protector-strong", "strict-aliasing", "unsigned-char", "visibility", "visibility-inlines-hidden", "wrapv"];
    proof {
        assert(names@.map_values(|s: &str| s@) =~= f_flag_names());
    }
    is_one_of(v, &names)
}

/// `-m` options admitted as key material, by name (the part before any `=`).
pub open spec fn m_flag_names() -> Seq<Seq<char>> {
    seq!["32"@, "64"@, "arch"@, "arm"@, "avx"@, "avx2"@, "cpu"@, "float-abi"@, "fma"@, "fpu"@, "iphoneos-version-min"@, "macosx-version-min"@, "no-omit-leaf-frame-pointer"@, "omit-leaf-frame-pointer"@, "sse"@, "sse2"@, "sse3"@, "sse4.1"@, "sse4.2"@, "thumb"@, "tune"@]
}

/// Whether `v` is in [`m_flag_names`].
pub fn is_m_flag_name(v: &[char]) -> (r: bool)
    ensures
        r == one_of(v@, m_flag_names()),
{
    let names: [&str; 21] = ["32", "64", "arch", "arm", "avx", "avx2", "cpu", "float-abi", "fma", "fpu", "iphoneos-version-min", "macosx-version-min", "no-omit-leaf-frame-pointer", "omit-leaf-frame-pointer", "sse", "sse2", "sse3", "sse4.1", "sse4.2", "thumb", "tune"];
    proof {
        assert(names@.map_values(|s: &str| s@) =~= m_flag_names());
    }
    is_one_of(v, &names)
}

/// Optimization levels admitted verbatim.
pub open spec fn optimization_flags() -> Seq<Seq<char>> {
    seq!["-O"@, "-O0"@, "-O1"@, "-O2"@, "-O3"@, "-Ofast"@, "-Og"@, "-Os"@, "-Oz"@]
}

/// Whether `v` is in [`optimization_flags`].
pub fn is_optimization_flag(v: &[char]) -> (r: bool)
    ensures
        r == one_of(v@, optimization_flags()),
{
    let names: [&str; 9] = ["-O", "-O0", "-O1", "-O2", "-O3", "-Ofast", "-Og", "-Os", "-Oz"];
    proof {
        assert(names@.map_values(|s: &str| s@) =~= optimization_flags());
    }
    is_one_of(v, &names)
}

/// Debug-information flags admitted verbatim.
pub open spec fn debug_flags() -> Seq<Seq<char>> {
    seq!["-g"@, "-g0"@, "-g1"@, "-g2"@, "-g3"@, "-gdwarf-2"@, "-gdwarf-3"@, "-gdwarf-4"@, "-gdwarf-5"@]
}

/// Whether `v` is in [`debug_flags`].
pub fn is_debug_flag(v: &[char]) -> (r: bool)
    ensures
        r == one_of(v@, debug_flags()),
{
    let names: [&str; 9] = ["-g", "-g0", "-g1", "-g2", "-g3", "-gdwarf-2", "-gdwarf-3", "-gdwarf-4", "-gdwarf-5"];
    proof {
        assert(names@.map_values(|s: &str| s@) =~= debug_flags());
    }
    is_one_of(v, &names)
}

/// Other valueless flags admitted verbatim.
pub open spec fn bare_flags() -> Seq<Seq<char>> {
    seq!["-ansi"@, "-nostdinc"@, "-nostdinc++"@, "-pedantic"@, "-pedantic-errors"@, "-pipe"@, "-pthread"@, "-w"@]
}

/// Whether `v` is in [`bare_flags`].
pub fn is_bare_flag(v: &[char]) -> (r: bool)
    ensures
        r == one_of(v@, bare_flags()),
{
    let names: [&str; 8] = ["-ansi", "-nostdinc", "-nostdinc++", "-pedantic", "-pedantic-errors", "-pipe", "-pthread", "-w"];
    proof {
        assert(names@.map_values(|s: &str| s@) =~= bare_flags());
    }
    is_one_of(v, &names)
}

/// Flags whose path value always comes as the next argument.
pub open spec fn separate_path_flags() -> Seq<Seq<char>> {
    seq!["-idirafter"@, "-imacros"@, "-include"@, "-iquote"@, "-isysroot"@, "-isystem"@]
}

/// Whether `v` is in [`separate_path_flags`].
pub fn is_separate_path_flag(v: &[char]) -> (r: bool)
    ensures
        r == one_of(v@, separate_path_flags()),
{
    let names: [&str; 6] = ["-idirafter", "-imacros", "-include", "-iquote", "-isysroot", "-isystem"];
    proof {
        assert(names@.map_values(|s: &str| s@) =~= separate_path_flags());
    }
    is_one_of(v, &names)
}

/// Flags that forward their value to a sub-tool the adapter cannot model.
pub open spec fn tool_passthrough_flags() -> Seq<Seq<char>> {
    seq!["-Xassembler"@, "-Xclang"@, "-Xlinker"@, "-Xpreprocessor"@]
}

/// Whether `v` is in [`tool_passthrough_flags`].
pub fn is_tool_passthrough_flag(v: &[char]) -> (r: bool)
    ensures
        r == one_of(v@, tool_passthrough_flags()),
{
    let names: [&str; 4] = ["-Xassembler", "-Xclang", "-Xlinker", "-Xpreprocessor"];
    proof {
        assert(names@.map_values(|s: &str| s@) =~= tool_passthrough_flags());
    }
    is_one_of(v, &names)
}

/// Flags that ask the driver about itself rather than compiling. `-?` is how the `cc` crate tells an MSVC-style driver from a gcc-style one.
pub open spec fn compiler_query_flags() -> Seq<Seq<char>> {
    seq!["--help"@, "--version"@, "-###"@, "-?"@, "-dumpmachine"@, "-dumpversion"@, "-v"@]
}

/// Whether `v` is in [`compiler_query_flags`].
pub fn is_compiler_query_flag(v: &[char]) -> (r: bool)
    ensures
        r == one_of(v@, compiler_query_flags()),
{
    let names: [&str; 7] = ["--help", "--version", "-###", "-?", "-dumpmachine", "-dumpversion", "-v"];
    proof {
        assert(names@.map_values(|s: &str| s@) =~= compiler_query_flags());
    }
    is_one_of(v, &names)
}

/// Source extensions the adapter models when no `-x` names the language.
pub open spec fn source_extensions() -> Seq<Seq<char>> {
    seq!["c"@, "cc"@, "cpp"@, "cxx"@, "c++"@]
}

/// Whether `v` is in [`source_extensions`].
pub fn is_source_extension(v: &[char]) -> (r: bool)
    ensures
        r == one_of(v@, source_extensions()),
{
    let names: [&str; 5] = ["c", "cc", "cpp", "cxx", "c++"];
    proof {
        assert(names@.map_values(|s: &str| s@) =~= source_extensions());
    }
    is_one_of(v, &names)
}

/// Separate path flags that add an include search directory.
pub open spec fn include_search_flags() -> Seq<Seq<char>> {
    seq!["-isystem"@, "-iquote"@, "-idirafter"@]
}

/// Whether `v` is in [`include_search_flags`].
pub fn is_include_search_flag(v: &[char]) -> (r: bool)
    ensures
        r == one_of(v@, include_search_flags()),
{
    let names: [&str; 3] = ["-isystem", "-iquote", "-idirafter"];
    proof {
        assert(names@.map_values(|s: &str| s@) =~= include_search_flags());
    }
    is_one_of(v, &names)
}

/// Separate path flags that force a file into the translation unit.
pub open spec fn forced_include_flags() -> Seq<Seq<char>> {
    seq!["-include"@, "-imacros"@]
}

/// Whether `v` is in [`forced_include_flags`].
pub fn is_forced_include_flag(v: &[char]) -> (r: bool)
    ensures
        r == one_of(v@, forced_include_flags()),
{
    let names: [&str; 2] = ["-include", "-imacros"];
    proof {
        assert(names@.map_values(|s: &str| s@) =~= forced_include_flags());
    }
    is_one_of(v, &names)
}

/// `-m` options that select a processor.
pub open spec fn local_cpu_options() -> Seq<Seq<char>> {
    seq!["arch"@, "cpu"@, "tune"@]
}

/// Whether `v` is in [`local_cpu_options`].
pub fn is_local_cpu_option(v: &[char]) -> (r: bool)
    ensures
        r == one_of(v@, local_cpu_options()),
{
    let names: [&str; 3] = ["arch", "cpu", "tune"];
    proof {
        assert(names@.map_values(|s: &str| s@) =~= local_cpu_options());
    }
    is_one_of(v, &names)
}

/// Processor selections that mean whatever this machine has.
pub open spec fn local_cpu_selections() -> Seq<Seq<char>> {
    seq!["native"@, "host"@]
}

/// Whether `v` is in [`local_cpu_selections`].
pub fn is_local_cpu_selection(v: &[char]) -> (r: bool)
    ensures
        r == one_of(v@, local_cpu_selections()),
{
    let names: [&str; 2] = ["native", "host"];
    proof {
        assert(names@.map_values(|s: &str| s@) =~= local_cpu_selections());
    }
    is_one_of(v, &names)
}

} // verus!
