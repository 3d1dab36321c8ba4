//! The executable parser behind [`CcInvocation::parse`].
use vstd::prelude::*;
use crate::cc::reason::{CcBypassReason, BypassView};
use crate::cc::language::CcLanguage;
use crate::cc::invocation::{
    Argument, ArgumentView, CcInvocation, InvocationView, ParseState, args_view, arguments_view,
    early_rejection, f_flag_step, finish, flag_step, initial_state, input_step, is_plain_flag,
    language_of, m_flag_step, opt_view, parse_arguments, parse_step, prefix_map_flag, push_plain,
    run, separate_path_step, strings_view, take_value, tunes_for_local_cpu, valued_flag_step,
};
use crate::cc::vocabulary::{
    is_bare_flag, is_compiler_query_flag, is_debug_flag, is_f_flag_name, is_forced_include_flag,
    is_include_search_flag, is_local_cpu_option, is_local_cpu_selection, is_m_flag_name,
    is_optimization_flag, is_separate_path_flag, is_source_extension, is_tool_passthrough_flag,
};
use crate::path::{extension_chars, extension_of};
use crate::text::{
    before_first, before_first_char, chars_of, concat_chars, eq_lit, is_prefix, lit, skip,
    split_once, split_once_char, starts_with, string_of, strip_prefix,
};

verus! {

proof fn lemma_arguments_push(v: Seq<Argument>, a: Argument)
    ensures
        arguments_view(v.push(a)) == arguments_view(v).push(a@),
{
    assert(arguments_view(v.push(a)) =~= arguments_view(v).push(a@));
}

proof fn lemma_strings_push(v: Seq<String>, s: String)
    ensures
        strings_view(v.push(s)) == strings_view(v).push(s@),
{
    assert(strings_view(v.push(s)) =~= strings_view(v).push(s@));
}

/// The characters of the argument at `index`, or why it has none.
fn argument_at(args: &[Option<String>], index: usize) -> (r: Result<Vec<char>, CcBypassReason>)
    requires
        index < args.len(),
    ensures
        match args_view(args@)[index as int] {
            Some(v) => r matches Ok(x) && x@ == v,
            None => r matches Err(e) && e@ == BypassView::NonUtf8Argument { index },
        },
{
    match &args[index] {
        Some(text) => Ok(chars_of(text.as_str())),
        None => Err(CcBypassReason::NonUtf8Argument { index }),
    }
}

/// A flag's value: the glued text when there is any, else the next argument.
fn take_value_at(args: &[Option<String>], index: usize, flag: &[char], inline: &[char]) -> (r: Result<(Vec<char>, usize), CcBypassReason>)
    requires
        index <= args.len(),
    ensures
        match take_value(args_view(args@), index as int, flag@, inline@) {
            Ok((v, i)) => r matches Ok((x, j)) && x@ == v && j as int == i,
            Err(e) => r matches Err(x) && x@ == e,
        },
        r matches Ok((_, j)) ==> index <= j <= args.len(),
{
    if inline.len() > 0 {
        return Ok((crate::text::copy_chars(inline), index));
    }
    if index >= args.len() {
        return Err(CcBypassReason::MissingValue(string_of(flag)));
    }
    let v = argument_at(args, index)?;
    Ok((v, index + 1))
}

struct Parser {
    index: usize,
    parsed: Vec<Argument>,
    source: Option<String>,
    output: Option<String>,
    include_dirs: Vec<String>,
    required_inputs: Vec<String>,
    sysroot: Option<String>,
    explicit_language: Option<CcLanguage>,
    compiling: bool,
}

impl View for Parser {
    type V = ParseState;

    closed spec fn view(&self) -> ParseState {
        ParseState {
            index: self.index as int,
            parsed: arguments_view(self.parsed@),
            source: opt_view(self.source),
            output: opt_view(self.output),
            include_dirs: strings_view(self.include_dirs@),
            required_inputs: strings_view(self.required_inputs@),
            sysroot: opt_view(self.sysroot),
            explicit_language: self.explicit_language,
            compiling: self.compiling,
        }
    }
}

fn early(v: &[char]) -> (r: Option<CcBypassReason>)
    ensures
        match early_rejection(v@) {
            Some(e) => r matches Some(x) && x@ == e,
            None => r is None,
        },
{
    if is_compiler_query_flag(v) || starts_with(v, "-print") {
        Some(CcBypassReason::CompilerQuery)
    } else if eq_lit(v, "-E") || eq_lit(v, "-S") {
        Some(CcBypassReason::NonObjectOutput(string_of(v)))
    } else if starts_with(v, "-M") {
        Some(CcBypassReason::CallerDependencyFlags(string_of(v)))
    } else if starts_with(v, "-save-temps") {
        Some(CcBypassReason::SaveTemps(string_of(v)))
    } else if eq_lit(v, "--coverage") {
        Some(CcBypassReason::CoverageInstrumentation(string_of(v)))
    } else if is_tool_passthrough_flag(v) || starts_with(v, "-Wp,") || starts_with(v, "-Wa,")
        || starts_with(v, "-Wl,") {
        Some(CcBypassReason::ToolPassthrough(string_of(v)))
    } else if starts_with(v, "-include-pch") || eq_lit(v, "-emit-pch") {
        Some(CcBypassReason::PrecompiledHeader(string_of(v)))
    } else {
        None
    }
}

fn plain_flag(v: &[char]) -> (r: bool)
    ensures
        r == is_plain_flag(v@),
{
    is_bare_flag(v) || is_optimization_flag(v) || is_debug_flag(v) || starts_with(v, "-std=")
}

fn prefix_map(v: &[char]) -> (r: Option<(Vec<char>, Vec<char>)>)
    ensures
        match prefix_map_flag(v@) {
            Some((f, rest)) => r matches Some((x, y)) && x@ == f && y@ == rest,
            None => r is None,
        },
{
    if let Some(rest) = strip_prefix(v, "-fdebug-prefix-map=") {
        Some((lit("-fdebug-prefix-map"), rest))
    } else if let Some(rest) = strip_prefix(v, "-ffile-prefix-map=") {
        Some((lit("-ffile-prefix-map"), rest))
    } else if let Some(rest) = strip_prefix(v, "-fmacro-prefix-map=") {
        Some((lit("-fmacro-prefix-map"), rest))
    } else {
        None
    }
}

impl Parser {
    fn push_plain_text(&mut self, text: &[char])
        ensures
            final(self)@ == push_plain(old(self)@, text@),
    {
        let a = Argument::Plain(string_of(text));
        proof { lemma_arguments_push(self.parsed@, a); }
        self.parsed.push(a);
    }

    fn push_path(&mut self, flag: &[char], path: &[char])
        ensures
            final(self)@ == (ParseState {
                parsed: old(self)@.parsed.push(ArgumentView::Path { flag: flag@, path: path@ }),
                ..old(self)@
            }),
    {
        let a = Argument::Path { flag: string_of(flag), path: string_of(path) };
        proof { lemma_arguments_push(self.parsed@, a); }
        self.parsed.push(a);
    }

    fn parse_f_flag(&mut self, v: &[char], option: &[char]) -> (r: Result<(), CcBypassReason>)
        ensures
            match f_flag_step(old(self)@, v@, option@) {
                Ok(st) => r is Ok && final(self)@ == st,
                Err(e) => r matches Err(x) && x@ == e,
            },
            final(self).index == old(self).index,
    {
        if starts_with(option, "plugin") || starts_with(option, "pass-plugin") {
            return Err(CcBypassReason::Plugin(string_of(v)));
        }
        if starts_with(option, "profile-") || eq_lit(option, "test-coverage") {
            return Err(CcBypassReason::CoverageInstrumentation(string_of(v)));
        }
        let name = before_first_char(option, '=');
        if !is_f_flag_name(name.as_slice()) {
            return Err(CcBypassReason::UnknownFlag(string_of(v)));
        }
        self.push_plain_text(v);
        Ok(())
    }

    fn parse_m_flag(&mut self, v: &[char], option: &[char]) -> (r: Result<(), CcBypassReason>)
        ensures
            match m_flag_step(old(self)@, v@, option@) {
                Ok(st) => r is Ok && final(self)@ == st,
                Err(e) => r matches Err(x) && x@ == e,
            },
            final(self).index == old(self).index,
    {
        if eq_lit(option, "llvm") {
            return Err(CcBypassReason::ToolPassthrough(string_of(v)));
        }
        let local = match split_once_char(option, '=') {
            Some((name, selection)) => is_local_cpu_option(name.as_slice()) && is_local_cpu_selection(selection.as_slice()),
            None => false,
        };
        if local {
            return Err(CcBypassReason::LocalCpuTarget(string_of(v)));
        }
        let name = before_first_char(option, '=');
        if !is_m_flag_name(name.as_slice()) {
            return Err(CcBypassReason::UnknownFlag(string_of(v)));
        }
        self.push_plain_text(v);
        Ok(())
    }

    fn separate_path(&mut self, flag: &[char], path: &[char], index: usize)
        ensures
            final(self)@ == separate_path_step(old(self)@, flag@, path@, index as int),
    {
        if is_include_search_flag(flag) {
            let s = string_of(path);
            proof { lemma_strings_push(self.include_dirs@, s); }
            self.include_dirs.push(s);
        }
        if eq_lit(flag, "-isysroot") {
            self.sysroot = Some(string_of(path));
        }
        if is_forced_include_flag(flag) {
            let s = string_of(path);
            proof { lemma_strings_push(self.required_inputs@, s); }
            self.required_inputs.push(s);
        }
        self.push_path(flag, path);
        self.index = index;
    }

    fn valued_flag(&mut self, args: &[Option<String>], v: &[char]) -> (r: Result<(), CcBypassReason>)
        requires
            old(self).index <= args.len(),
        ensures
            match valued_flag_step(args_view(args@), old(self)@, v@) {
                Ok(st) => r is Ok && final(self)@ == st,
                Err(e) => r matches Err(x) && x@ == e,
            },
            r is Ok ==> old(self).index <= final(self).index <= args.len(),
    {
        if eq_lit(v, "--param") {
            let flag = lit("--param");
            let (p, i) = take_value_at(args, self.index, flag.as_slice(), &[])?;
            self.index = i;
            let text = concat_chars(lit("--param=").as_slice(), p.as_slice());
            self.push_plain_text(text.as_slice());
            return Ok(());
        }
        if starts_with(v, "--param=") {
            self.push_plain_text(v);
            return Ok(());
        }
        if let Some(p) = strip_prefix(v, "--sysroot=") {
            self.sysroot = Some(string_of(p.as_slice()));
            let flag = lit("--sysroot");
            self.push_path(flag.as_slice(), p.as_slice());
            return Ok(());
        }
        if starts_with(v, "-D") || starts_with(v, "-U") {
            let flag = if starts_with(v, "-D") { lit("-D") } else { lit("-U") };
            let inline = skip(v, if flag.len() <= v.len() { flag.len() } else { v.len() });
            let (d, i) = take_value_at(args, self.index, flag.as_slice(), inline.as_slice())?;
            self.index = i;
            let text = concat_chars(flag.as_slice(), d.as_slice());
            self.push_plain_text(text.as_slice());
            return Ok(());
        }
        if let Some(rest) = strip_prefix(v, "-x") {
            let flag = lit("-x");
            let (language, i) = take_value_at(args, self.index, flag.as_slice(), rest.as_slice())?;
            let chosen = if eq_lit(language.as_slice(), "c") {
                CcLanguage::C
            } else if eq_lit(language.as_slice(), "c++") {
                CcLanguage::Cxx
            } else {
                return Err(CcBypassReason::UnsupportedLanguage(string_of(language.as_slice())));
            };
            self.index = i;
            self.explicit_language = Some(chosen);
            let text = concat_chars(flag.as_slice(), language.as_slice());
            self.push_plain_text(text.as_slice());
            return Ok(());
        }
        if starts_with(v, "--target=") {
            self.push_plain_text(v);
            return Ok(());
        }
        if eq_lit(v, "-target") {
            let flag = lit("-target");
            let (t, i) = take_value_at(args, self.index, flag.as_slice(), &[])?;
            self.index = i;
            let text = concat_chars(lit("--target=").as_slice(), t.as_slice());
            self.push_plain_text(text.as_slice());
            return Ok(());
        }
        if eq_lit(v, "-arch") {
            let flag = lit("-arch");
            let (a, i) = take_value_at(args, self.index, flag.as_slice(), &[])?;
            self.index = i;
            let text = concat_chars(lit("-arch=").as_slice(), a.as_slice());
            self.push_plain_text(text.as_slice());
            return Ok(());
        }
        if let Some(option) = strip_prefix(v, "-f") {
            return self.parse_f_flag(v, option.as_slice());
        }
        if let Some(option) = strip_prefix(v, "-m") {
            return self.parse_m_flag(v, option.as_slice());
        }
        if starts_with(v, "-g") {
            if starts_with(v, "-gsplit-dwarf") {
                return Err(CcBypassReason::SplitDebugOutput(string_of(v)));
            }
            return Err(CcBypassReason::UnknownFlag(string_of(v)));
        }
        if starts_with(v, "-W") {
            self.push_plain_text(v);
            return Ok(());
        }
        Err(CcBypassReason::UnknownFlag(string_of(v)))
    }

    fn parse_flag(&mut self, args: &[Option<String>], v: &[char]) -> (r: Result<(), CcBypassReason>)
        requires
            old(self).index <= args.len(),
        ensures
            match flag_step(args_view(args@), old(self)@, v@) {
                Ok(st) => r is Ok && final(self)@ == st,
                Err(e) => r matches Err(x) && x@ == e,
            },
            r is Ok ==> old(self).index <= final(self).index <= args.len(),
    {
        if let Some(e) = early(v) {
            return Err(e);
        }
        if eq_lit(v, "-c") {
            self.push_plain_text(v);
            self.compiling = true;
            return Ok(());
        }
        if plain_flag(v) {
            self.push_plain_text(v);
            return Ok(());
        }
        if let Some(rest) = strip_prefix(v, "-o") {
            let flag = lit("-o");
            let (p, i) = take_value_at(args, self.index, flag.as_slice(), rest.as_slice())?;
            self.index = i;
            self.output = Some(string_of(p.as_slice()));
            self.push_path(flag.as_slice(), p.as_slice());
            return Ok(());
        }
        if let Some(rest) = strip_prefix(v, "-I") {
            let flag = lit("-I");
            let (p, i) = take_value_at(args, self.index, flag.as_slice(), rest.as_slice())?;
            self.index = i;
            let s = string_of(p.as_slice());
            proof { lemma_strings_push(self.include_dirs@, s); }
            self.include_dirs.push(s);
            self.push_path(flag.as_slice(), p.as_slice());
            return Ok(());
        }
        if is_separate_path_flag(v) {
            let (p, i) = take_value_at(args, self.index, v, &[])?;
            self.separate_path(v, p.as_slice(), i);
            return Ok(());
        }
        if let Some(p) = strip_prefix(v, "--include=") {
            let flag = lit("-include");
            let i = self.index;
            self.separate_path(flag.as_slice(), p.as_slice(), i);
            return Ok(());
        }
        if let Some((flag, rest)) = prefix_map(v) {
            let (from, to) = match split_once_char(rest.as_slice(), '=') {
                Some((a, b)) => (a, b),
                None => (rest, Vec::new()),
            };
            let a = Argument::PrefixMap {
                flag: string_of(flag.as_slice()),
                from: string_of(from.as_slice()),
                to: string_of(to.as_slice()),
            };
            proof { lemma_arguments_push(self.parsed@, a); }
            self.parsed.push(a);
            return Ok(());
        }
        self.valued_flag(args, v)
    }

    fn parse_input(&mut self, v: &[char]) -> (r: Result<(), CcBypassReason>)
        ensures
            match input_step(old(self)@, v@) {
                Ok(st) => r is Ok && final(self)@ == st,
                Err(e) => r matches Err(x) && x@ == e,
            },
            final(self).index == old(self).index,
    {
        if self.source.is_some() {
            return Err(CcBypassReason::MultipleInputs);
        }
        if self.explicit_language.is_none() {
            let e = extension_chars(v);
            if !is_source_extension(e.as_slice()) {
                return Err(CcBypassReason::UnsupportedLanguage(string_of(v)));
            }
        }
        self.source = Some(string_of(v));
        let a = Argument::Source(string_of(v));
        proof { lemma_arguments_push(self.parsed@, a); }
        self.parsed.push(a);
        Ok(())
    }

    fn step(&mut self, args: &[Option<String>]) -> (r: Result<(), CcBypassReason>)
        requires
            old(self).index < args.len(),
        ensures
            match parse_step(args_view(args@), old(self)@) {
                Ok(st) => r is Ok && final(self)@ == st,
                Err(e) => r matches Err(x) && x@ == e,
            },
            r is Ok ==> old(self).index < final(self).index <= args.len(),
    {
        let v = argument_at(args, self.index)?;
        self.index = self.index + 1;
        if eq_lit(v.as_slice(), "-") {
            return Err(CcBypassReason::StandardInput);
        }
        if v.len() > 0 && v[0] == '@' {
            return Err(CcBypassReason::ResponseFile(string_of(skip(v.as_slice(), 1).as_slice())));
        }
        if v.len() > 0 && v[0] == '-' {
            return self.parse_flag(args, v.as_slice());
        }
        self.parse_input(v.as_slice())
    }
}

/// The language a source compiles as.
fn language(explicit: Option<CcLanguage>, source: &[char]) -> (r: Result<CcLanguage, CcBypassReason>)
    ensures
        match language_of(explicit, source@) {
            Ok(l) => r == Ok::<CcLanguage, CcBypassReason>(l),
            Err(e) => r matches Err(x) && x@ == e,
        },
{
    match explicit {
        Some(l) => Ok(l),
        None => {
            let e = extension_chars(source);
            if eq_lit(e.as_slice(), "c") {
                Ok(CcLanguage::C)
            } else if eq_lit(e.as_slice(), "cc") || eq_lit(e.as_slice(), "cpp")
                || eq_lit(e.as_slice(), "cxx") || eq_lit(e.as_slice(), "c++") {
                Ok(CcLanguage::Cxx)
            } else {
                Err(CcBypassReason::UnsupportedLanguage(string_of(source)))
            }
        },
    }
}

impl CcInvocation {
    /// Parse a driver command line, admitting only modeled single-object
    /// compiles.
    ///
    /// Each argument is given by its text, or as `None` where it is not valid
    /// UTF-8. The command line is read left to right and the first argument
    /// that cannot be modeled decides the reason.
    pub fn parse(arguments: &[Option<String>]) -> (r: Result<CcInvocation, CcBypassReason>)
        ensures
            match parse_arguments(args_view(arguments@)) {
                Ok(v) => r matches Ok(x) && x@ == v,
                Err(e) => r matches Err(x) && x@ == e,
            },
    {
        let mut parser = Parser {
            index: 0,
            parsed: Vec::new(),
            source: None,
            output: None,
            include_dirs: Vec::new(),
            required_inputs: Vec::new(),
            sysroot: None,
            explicit_language: None,
            compiling: false,
        };
        let ghost args = args_view(arguments@);
        proof {
            assert(arguments_view(parser.parsed@) =~= Seq::empty());
            assert(strings_view(parser.include_dirs@) =~= Seq::empty());
            assert(strings_view(parser.required_inputs@) =~= Seq::empty());
            assert(parser@ == initial_state());
        }
        while parser.index < arguments.len()
            invariant
                parser.index <= arguments.len(),
                args == args_view(arguments@),
                args.len() == arguments@.len(),
                run(args, parser@) == run(args, initial_state()),
            decreases arguments.len() - parser.index,
        {
            let ghost before = parser@;
            match parser.step(arguments) {
                Ok(()) => {},
                Err(e) => {
                    return Err(e);
                },
            }
            assert(run(args, before) == run(args, parser@));
        }
        assert(run(args, parser@) == Ok::<ParseState, BypassView>(parser@));
        if !parser.compiling {
            return Err(CcBypassReason::NotACompile);
        }
        let source = match &parser.source {
            Some(s) => s.clone(),
            None => return Err(CcBypassReason::MissingInput),
        };
        let output = match &parser.output {
            Some(s) => s.clone(),
            None => return Err(CcBypassReason::MissingOutput),
        };
        let source_chars = chars_of(source.as_str());
        let language = language(parser.explicit_language, source_chars.as_slice())?;
        let mut required_inputs = parser.required_inputs;
        proof { lemma_strings_push(required_inputs@, source); }
        required_inputs.push(source.clone());
        Ok(CcInvocation {
            arguments: parser.parsed,
            source,
            output,
            include_dirs: parser.include_dirs,
            required_inputs,
            language,
            sysroot: parser.sysroot,
        })
    }

    /// Source file this invocation compiles.
    pub fn source(&self) -> (r: &str)
        ensures
            r@ == self.source@,
    {
        self.source.as_str()
    }

    /// Object file this invocation produces.
    pub fn output(&self) -> (r: &str)
        ensures
            r@ == self.output@,
    {
        self.output.as_str()
    }

    /// Include search directories named on the command line, in order.
    pub fn include_dirs(&self) -> (r: &[String])
        ensures
            r@ == self.include_dirs@,
    {
        self.include_dirs.as_slice()
    }

    /// Files that must appear among the discovered inputs.
    pub fn required_inputs(&self) -> (r: &[String])
        ensures
            r@ == self.required_inputs@,
    {
        self.required_inputs.as_slice()
    }

    /// Language the driver compiles.
    pub fn language(&self) -> (r: CcLanguage)
        ensures
            r == self.language,
    {
        self.language
    }

    /// Sysroot named on the command line, if any.
    pub fn sysroot(&self) -> (r: Option<&str>)
        ensures
            match r {
                Some(s) => opt_view(self.sysroot) == Some(s@),
                None => self.sysroot is None,
            },
    {
        match &self.sysroot {
            Some(s) => Some(s.as_str()),
            None => None,
        }
    }

    /// Short label used for timing statistics: the source's file name.
    pub fn source_name(&self) -> (r: String)
        ensures
            r@ == (match crate::path::file_name(self.source@) {
                Some(name) => name,
                None => Seq::empty(),
            }),
    {
        let chars = chars_of(self.source.as_str());
        match crate::path::file_name_of(chars.as_slice()) {
            Some(name) => string_of(name.as_slice()),
            None => String::new(),
        }
    }
}

} // verus!
