//! The admitted shape of a C or C++ compile: one source, one object, `-c`.
use vstd::prelude::*;
use crate::cc::reason::{CcBypassReason, BypassView};
use crate::cc::language::CcLanguage;
use crate::cc::vocabulary::{
    bare_flags, compiler_query_flags, debug_flags, f_flag_names, forced_include_flags,
    include_search_flags, is_bare_flag, is_compiler_query_flag, is_debug_flag, is_f_flag_name,
    is_forced_include_flag, is_include_search_flag, is_local_cpu_option, is_local_cpu_selection,
    is_m_flag_name, is_optimization_flag, is_separate_path_flag, is_source_extension,
    is_tool_passthrough_flag, local_cpu_options, local_cpu_selections, m_flag_names,
    optimization_flags, separate_path_flags, source_extensions, tool_passthrough_flags,
};
use crate::path::{extension_chars, extension_of, file_name, file_name_of};
use crate::text::{
    before_first, before_first_char, chars_of, concat_chars, copy_chars, eq_lit, is_prefix, lit,
    one_of, skip, slice, split_once, split_once_char, starts_with, string_of, strip_prefix,
};

verus! {

/// A string option taken by its characters.
pub open spec fn opt_view(o: Option<String>) -> Option<Seq<char>> {
    match o {
        Some(s) => Some(s@),
        None => None,
    }
}

/// A list of strings taken by their characters.
pub open spec fn strings_view(v: Seq<String>) -> Seq<Seq<char>> {
    v.map_values(|s: String| s@)
}

/// Driver arguments: each one's text, or nothing where it is not UTF-8.
pub open spec fn args_view(a: Seq<Option<String>>) -> Seq<Option<Seq<char>>> {
    a.map_values(|o: Option<String>| opt_view(o))
}

/// One parsed and admitted argument.
#[derive(Debug, Clone)]
pub enum Argument {
    /// Keyed verbatim.
    Plain(String),
    /// Keyed with its path normalized.
    Path { flag: String, path: String },
    /// A prefix rewrite: the source path normalizes, the replacement does not.
    PrefixMap { flag: String, from: String, to: String },
    /// The source file.
    Source(String),
}

/// An [`Argument`] taken by its characters.
pub ghost enum ArgumentView {
    Plain(Seq<char>),
    Path { flag: Seq<char>, path: Seq<char> },
    PrefixMap { flag: Seq<char>, from: Seq<char>, to: Seq<char> },
    Source(Seq<char>),
}

impl View for Argument {
    type V = ArgumentView;

    open spec fn view(&self) -> ArgumentView {
        match self {
            Argument::Plain(v) => ArgumentView::Plain(v@),
            Argument::Path { flag, path } => ArgumentView::Path { flag: flag@, path: path@ },
            Argument::PrefixMap { flag, from, to } => ArgumentView::PrefixMap {
                flag: flag@,
                from: from@,
                to: to@,
            },
            Argument::Source(v) => ArgumentView::Source(v@),
        }
    }
}

/// Arguments taken by their views.
pub open spec fn arguments_view(v: Seq<Argument>) -> Seq<ArgumentView> {
    v.map_values(|a: Argument| a@)
}

/// What the parser has gathered after some prefix of the arguments.
#[verifier::ext_equal]
pub ghost struct ParseState {
    /// Index of the next argument to read.
    pub index: int,
    pub parsed: Seq<ArgumentView>,
    pub source: Option<Seq<char>>,
    pub output: Option<Seq<char>>,
    pub include_dirs: Seq<Seq<char>>,
    pub required_inputs: Seq<Seq<char>>,
    pub sysroot: Option<Seq<char>>,
    pub explicit_language: Option<CcLanguage>,
    pub compiling: bool,
}

/// The state before any argument has been read.
pub open spec fn initial_state() -> ParseState {
    ParseState {
        index: 0,
        parsed: Seq::empty(),
        source: None,
        output: None,
        include_dirs: Seq::empty(),
        required_inputs: Seq::empty(),
        sysroot: None,
        explicit_language: None,
        compiling: false,
    }
}

/// A flag's value: the glued text when there is any, else the next argument.
pub open spec fn take_value(
    args: Seq<Option<Seq<char>>>,
    index: int,
    flag: Seq<char>,
    inline: Seq<char>,
) -> Result<(Seq<char>, int), BypassView> {
    if inline.len() > 0 {
        Ok((inline, index))
    } else if index < 0 || index >= args.len() {
        Err(BypassView::MissingValue(flag))
    } else {
        match args[index] {
            Some(v) => Ok((v, index + 1)),
            None => Err(BypassView::NonUtf8Argument { index: index as usize }),
        }
    }
}

/// Flags refused outright, whatever else the command line says, and why.
pub open spec fn early_rejection(v: Seq<char>) -> Option<BypassView> {
    if one_of(v, compiler_query_flags()) || is_prefix("-print"@, v) {
        Some(BypassView::CompilerQuery)
    } else if v == "-E"@ || v == "-S"@ {
        Some(BypassView::NonObjectOutput(v))
    } else if is_prefix("-M"@, v) {
        Some(BypassView::CallerDependencyFlags(v))
    } else if is_prefix("-save-temps"@, v) {
        Some(BypassView::SaveTemps(v))
    } else if v == "--coverage"@ {
        Some(BypassView::CoverageInstrumentation(v))
    } else if one_of(v, tool_passthrough_flags()) || is_prefix("-Wp,"@, v) || is_prefix("-Wa,"@, v)
        || is_prefix("-Wl,"@, v) {
        Some(BypassView::ToolPassthrough(v))
    } else if is_prefix("-include-pch"@, v) || v == "-emit-pch"@ {
        Some(BypassView::PrecompiledHeader(v))
    } else {
        None
    }
}

/// Valueless flags keyed verbatim.
pub open spec fn is_plain_flag(v: Seq<char>) -> bool {
    one_of(v, bare_flags()) || one_of(v, optimization_flags()) || one_of(v, debug_flags())
        || is_prefix("-std="@, v)
}

/// The flag a prefix rewrite spells, and what follows its `=`.
pub open spec fn prefix_map_flag(v: Seq<char>) -> Option<(Seq<char>, Seq<char>)> {
    if is_prefix("-fdebug-prefix-map="@, v) {
        Some(("-fdebug-prefix-map"@, v.skip("-fdebug-prefix-map="@.len() as int)))
    } else if is_prefix("-ffile-prefix-map="@, v) {
        Some(("-ffile-prefix-map"@, v.skip("-ffile-prefix-map="@.len() as int)))
    } else if is_prefix("-fmacro-prefix-map="@, v) {
        Some(("-fmacro-prefix-map"@, v.skip("-fmacro-prefix-map="@.len() as int)))
    } else {
        None
    }
}

/// `st` with one more plain argument.
pub open spec fn push_plain(st: ParseState, text: Seq<char>) -> ParseState {
    ParseState { parsed: st.parsed.push(ArgumentView::Plain(text)), ..st }
}

/// An `-f` option: plugins and coverage are refused, listed names admitted.
pub open spec fn f_flag_step(st: ParseState, v: Seq<char>, option: Seq<char>) -> Result<ParseState, BypassView> {
    if is_prefix("plugin"@, option) || is_prefix("pass-plugin"@, option) {
        Err(BypassView::Plugin(v))
    } else if is_prefix("profile-"@, option) || option == "test-coverage"@ {
        Err(BypassView::CoverageInstrumentation(v))
    } else if !one_of(before_first(option, '='), f_flag_names()) {
        Err(BypassView::UnknownFlag(v))
    } else {
        Ok(push_plain(st, v))
    }
}

/// Whether an `-m` option selects whatever processor this machine has.
pub open spec fn tunes_for_local_cpu(option: Seq<char>) -> bool {
    match split_once(option, '=') {
        Some((name, selection)) => one_of(name, local_cpu_options()) && one_of(selection, local_cpu_selections()),
        None => false,
    }
}

/// An `-m` option: `-mllvm` and local-CPU tuning are refused, listed names admitted.
pub open spec fn m_flag_step(st: ParseState, v: Seq<char>, option: Seq<char>) -> Result<ParseState, BypassView> {
    if option == "llvm"@ {
        Err(BypassView::ToolPassthrough(v))
    } else if tunes_for_local_cpu(option) {
        Err(BypassView::LocalCpuTarget(v))
    } else if !one_of(before_first(option, '='), m_flag_names()) {
        Err(BypassView::UnknownFlag(v))
    } else {
        Ok(push_plain(st, v))
    }
}

/// A separate path flag and its value.
pub open spec fn separate_path_step(st: ParseState, flag: Seq<char>, path: Seq<char>, index: int) -> ParseState {
    ParseState {
        index,
        include_dirs: if one_of(flag, include_search_flags()) { st.include_dirs.push(path) } else { st.include_dirs },
        sysroot: if flag == "-isysroot"@ { Some(path) } else { st.sysroot },
        required_inputs: if one_of(flag, forced_include_flags()) { st.required_inputs.push(path) } else { st.required_inputs },
        parsed: st.parsed.push(ArgumentView::Path { flag, path }),
        ..st
    }
}

/// The flags that take a value and are keyed whole: `--param`, `-D`, `-U`,
/// `-x`, `--target`, `-target` and `-arch`, and otherwise the `-f`, `-m`,
/// `-g` and `-W` families.
pub open spec fn valued_flag_step(args: Seq<Option<Seq<char>>>, st: ParseState, v: Seq<char>) -> Result<ParseState, BypassView> {
    if v == "--param"@ {
        match take_value(args, st.index, "--param"@, Seq::empty()) {
            Ok((p, i)) => Ok(push_plain(ParseState { index: i, ..st }, "--param="@ + p)),
            Err(e) => Err(e),
        }
    } else if is_prefix("--param="@, v) {
        Ok(push_plain(st, v))
    } else if is_prefix("--sysroot="@, v) {
        let p = v.skip("--sysroot="@.len() as int);
        Ok(ParseState {
            sysroot: Some(p),
            parsed: st.parsed.push(ArgumentView::Path { flag: "--sysroot"@, path: p }),
            ..st
        })
    } else if is_prefix("-D"@, v) || is_prefix("-U"@, v) {
        let flag = if is_prefix("-D"@, v) { "-D"@ } else { "-U"@ };
        match take_value(args, st.index, flag, v.skip(flag.len() as int)) {
            Ok((d, i)) => Ok(push_plain(ParseState { index: i, ..st }, flag + d)),
            Err(e) => Err(e),
        }
    } else if is_prefix("-x"@, v) {
        match take_value(args, st.index, "-x"@, v.skip("-x"@.len() as int)) {
            Ok((language, i)) => {
                if language == "c"@ {
                    Ok(push_plain(ParseState { index: i, explicit_language: Some(CcLanguage::C), ..st }, "-x"@ + language))
                } else if language == "c++"@ {
                    Ok(push_plain(ParseState { index: i, explicit_language: Some(CcLanguage::Cxx), ..st }, "-x"@ + language))
                } else {
                    Err(BypassView::UnsupportedLanguage(language))
                }
            },
            Err(e) => Err(e),
        }
    } else if is_prefix("--target="@, v) {
        Ok(push_plain(st, v))
    } else if v == "-target"@ {
        match take_value(args, st.index, "-target"@, Seq::empty()) {
            Ok((t, i)) => Ok(push_plain(ParseState { index: i, ..st }, "--target="@ + t)),
            Err(e) => Err(e),
        }
    } else if v == "-arch"@ {
        match take_value(args, st.index, "-arch"@, Seq::empty()) {
            Ok((a, i)) => Ok(push_plain(ParseState { index: i, ..st }, "-arch="@ + a)),
            Err(e) => Err(e),
        }
    } else if is_prefix("-f"@, v) {
        f_flag_step(st, v, v.skip("-f"@.len() as int))
    } else if is_prefix("-m"@, v) {
        m_flag_step(st, v, v.skip("-m"@.len() as int))
    } else if is_prefix("-g"@, v) {
        if is_prefix("-gsplit-dwarf"@, v) {
            Err(BypassView::SplitDebugOutput(v))
        } else {
            Err(BypassView::UnknownFlag(v))
        }
    } else if is_prefix("-W"@, v) {
        Ok(push_plain(st, v))
    } else {
        Err(BypassView::UnknownFlag(v))
    }
}

/// One flag argument `v`, read at `st.index - 1`.
pub open spec fn flag_step(args: Seq<Option<Seq<char>>>, st: ParseState, v: Seq<char>) -> Result<ParseState, BypassView> {
    match early_rejection(v) {
        Some(e) => Err(e),
        None => {
            if v == "-c"@ {
                Ok(ParseState { compiling: true, ..push_plain(st, v) })
            } else if is_plain_flag(v) {
                Ok(push_plain(st, v))
            } else if is_prefix("-o"@, v) {
                match take_value(args, st.index, "-o"@, v.skip("-o"@.len() as int)) {
                    Ok((p, i)) => Ok(ParseState {
                        index: i,
                        output: Some(p),
                        parsed: st.parsed.push(ArgumentView::Path { flag: "-o"@, path: p }),
                        ..st
                    }),
                    Err(e) => Err(e),
                }
            } else if is_prefix("-I"@, v) {
                match take_value(args, st.index, "-I"@, v.skip("-I"@.len() as int)) {
                    Ok((p, i)) => Ok(ParseState {
                        index: i,
                        include_dirs: st.include_dirs.push(p),
                        parsed: st.parsed.push(ArgumentView::Path { flag: "-I"@, path: p }),
                        ..st
                    }),
                    Err(e) => Err(e),
                }
            } else if one_of(v, separate_path_flags()) {
                match take_value(args, st.index, v, Seq::empty()) {
                    Ok((p, i)) => Ok(separate_path_step(st, v, p, i)),
                    Err(e) => Err(e),
                }
            } else if is_prefix("--include="@, v) {
                let p = v.skip("--include="@.len() as int);
                Ok(separate_path_step(st, "-include"@, p, st.index))
            } else {
                match prefix_map_flag(v) {
                    Some((flag, rest)) => {
                        let (from, to) = match split_once(rest, '=') {
                            Some((a, b)) => (a, b),
                            None => (rest, Seq::empty()),
                        };
                        Ok(ParseState {
                            parsed: st.parsed.push(ArgumentView::PrefixMap { flag, from, to }),
                            ..st
                        })
                    },
                    None => valued_flag_step(args, st, v),
                }
            }
        },
    }
}

/// A source argument: only one, and in a modeled language.
pub open spec fn input_step(st: ParseState, v: Seq<char>) -> Result<ParseState, BypassView> {
    if st.source is Some {
        Err(BypassView::MultipleInputs)
    } else if st.explicit_language is None && !one_of(extension_of(v), source_extensions()) {
        Err(BypassView::UnsupportedLanguage(v))
    } else {
        Ok(ParseState {
            source: Some(v),
            parsed: st.parsed.push(ArgumentView::Source(v)),
            ..st
        })
    }
}

/// Read the argument at `st.index`.
pub open spec fn parse_step(args: Seq<Option<Seq<char>>>, st: ParseState) -> Result<ParseState, BypassView> {
    if st.index < 0 || st.index >= args.len() {
        Ok(st)
    } else {
        match args[st.index] {
            None => Err(BypassView::NonUtf8Argument { index: st.index as usize }),
            Some(v) => {
                let next = ParseState { index: st.index + 1, ..st };
                if v == "-"@ {
                    Err(BypassView::StandardInput)
                } else if v.len() > 0 && v[0] == '@' {
                    Err(BypassView::ResponseFile(v.skip(1)))
                } else if v.len() > 0 && v[0] == '-' {
                    flag_step(args, next, v)
                } else {
                    input_step(next, v)
                }
            },
        }
    }
}

/// Read every argument from `st.index` on.
pub open spec fn run(args: Seq<Option<Seq<char>>>, st: ParseState) -> Result<ParseState, BypassView>
    decreases args.len() - st.index,
{
    if st.index < 0 || st.index >= args.len() {
        Ok(st)
    } else {
        match parse_step(args, st) {
            Err(e) => Err(e),
            Ok(next) => {
                if next.index <= st.index || next.index > args.len() {
                    Ok(next)
                } else {
                    run(args, next)
                }
            },
        }
    }
}

/// The language a source compiles as: the explicit `-x`, else its extension.
pub open spec fn language_of(explicit: Option<CcLanguage>, source: Seq<char>) -> Result<CcLanguage, BypassView> {
    match explicit {
        Some(l) => Ok(l),
        None => {
            let e = extension_of(source);
            if e == "c"@ {
                Ok(CcLanguage::C)
            } else if e == "cc"@ || e == "cpp"@ || e == "cxx"@ || e == "c++"@ {
                Ok(CcLanguage::Cxx)
            } else {
                Err(BypassView::UnsupportedLanguage(source))
            }
        },
    }
}

/// An admitted invocation, taken by its characters.
#[verifier::ext_equal]
pub ghost struct InvocationView {
    pub arguments: Seq<ArgumentView>,
    pub source: Seq<char>,
    pub output: Seq<char>,
    pub include_dirs: Seq<Seq<char>>,
    pub required_inputs: Seq<Seq<char>>,
    pub language: CcLanguage,
    pub sysroot: Option<Seq<char>>,
}

/// What a completely read command line amounts to.
pub open spec fn finish(st: ParseState) -> Result<InvocationView, BypassView> {
    if !st.compiling {
        Err(BypassView::NotACompile)
    } else {
        match st.source {
            None => Err(BypassView::MissingInput),
            Some(source) => match st.output {
                None => Err(BypassView::MissingOutput),
                Some(output) => match language_of(st.explicit_language, source) {
                    Err(e) => Err(e),
                    Ok(language) => Ok(InvocationView {
                        arguments: st.parsed,
                        source,
                        output,
                        include_dirs: st.include_dirs,
                        required_inputs: st.required_inputs.push(source),
                        language,
                        sysroot: st.sysroot,
                    }),
                },
            },
        }
    }
}

/// The admitted invocation a driver command line describes, or why it is
/// not cacheable.
pub open spec fn parse_arguments(args: Seq<Option<Seq<char>>>) -> Result<InvocationView, BypassView> {
    match run(args, initial_state()) {
        Ok(st) => finish(st),
        Err(e) => Err(e),
    }
}

/// A parsed, admitted C or C++ compile.
#[derive(Debug, Clone)]
pub struct CcInvocation {
    /// Admitted arguments in command-line order, as they enter the key.
    pub arguments: Vec<Argument>,
    /// Source file this invocation compiles.
    pub source: String,
    /// Object file this invocation produces.
    pub output: String,
    /// Include search directories named on the command line, in order.
    pub include_dirs: Vec<String>,
    /// Files that must appear among the discovered inputs.
    pub required_inputs: Vec<String>,
    /// Language the driver compiles.
    pub language: CcLanguage,
    /// Sysroot named on the command line, if any.
    pub sysroot: Option<String>,
}

impl View for CcInvocation {
    type V = InvocationView;

    open spec fn view(&self) -> InvocationView {
        InvocationView {
            arguments: arguments_view(self.arguments@),
            source: self.source@,
            output: self.output@,
            include_dirs: strings_view(self.include_dirs@),
            required_inputs: strings_view(self.required_inputs@),
            language: self.language,
            sysroot: opt_view(self.sysroot),
        }
    }
}

/// Without `-x`, a source compiles as C exactly when its extension is `c`,
/// as C++ when its extension is `cc`, `cpp`, `cxx` or `c++`, and any other
/// extension is refused; an explicit `-x` decides whatever the extension.
pub proof fn lemma_language_by_extension(source: Seq<char>, explicit: CcLanguage)
    ensures
        (language_of(None, source) == Ok::<CcLanguage, BypassView>(CcLanguage::C)) == (extension_of(source) == "c"@),
        (language_of(None, source) == Ok::<CcLanguage, BypassView>(CcLanguage::Cxx)) == (extension_of(source) == "cc"@
            || extension_of(source) == "cpp"@ || extension_of(source) == "cxx"@ || extension_of(source) == "c++"@),
        language_of(None, source) is Err == !(extension_of(source) == "c"@ || extension_of(source) == "cc"@
            || extension_of(source) == "cpp"@ || extension_of(source) == "cxx"@ || extension_of(source) == "c++"@),
        language_of(Some(explicit), source) == Ok::<CcLanguage, BypassView>(explicit),
{
    reveal_strlit("c");
    reveal_strlit("cc");
    reveal_strlit("cpp");
    reveal_strlit("cxx");
    reveal_strlit("c++");
    assert("c"@.len() == 1 && "cc"@.len() == 2 && "cpp"@.len() == 3 && "cxx"@.len() == 3 && "c++"@.len() == 3);
    assert("c"@ != "cc"@ && "c"@ != "cpp"@ && "c"@ != "cxx"@ && "c"@ != "c++"@);
}

/// An admitted command line without `-x` compiles its source in the
/// language its extension names: C for `c`, C++ for `cc`, `cpp`, `cxx` and
/// `c++`.
pub proof fn lemma_admitted_language(st: ParseState)
    requires
        st.explicit_language is None,
        finish(st) is Ok,
    ensures
        ({
            let v = finish(st)->Ok_0;
            &&& (v.language == CcLanguage::C) == (extension_of(v.source) == "c"@)
            &&& (v.language == CcLanguage::Cxx) == (extension_of(v.source) == "cc"@ || extension_of(v.source) == "cpp"@
                || extension_of(v.source) == "cxx"@ || extension_of(v.source) == "c++"@)
        }),
{
    let v = finish(st)->Ok_0;
    lemma_language_by_extension(v.source, CcLanguage::C);
}

} // verus!
