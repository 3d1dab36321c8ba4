use mbx_cache::cc::depfile::CcDepfile;

#[test]
fn parses_gnu_depfiles_with_continuations_escaped_spaces_and_dollar_signs() {
    let depfile = "entropy.o: lib/entropy.c \\\n  lib/entropy.h \\\n  /usr/include/stdio.h\n";
    let parsed = CcDepfile::parse(depfile).expect("depfile should parse");
    assert_eq!(parsed.files, ["lib/entropy.c", "lib/entropy.h", "/usr/include/stdio.h"]);

    let escaped = "a.o: some\\ dir/a.c price$$.h\n";
    let parsed = CcDepfile::parse(escaped).expect("escapes should parse");
    assert_eq!(parsed.files, ["some dir/a.c", "price$.h"]);
}

#[test]
fn only_the_first_rule_contributes_prerequisites() {
    let parsed = CcDepfile::parse("a.o: a.c a.h\n\na.h:\n").expect("depfile should parse");
    assert_eq!(parsed.files, ["a.c", "a.h"]);
}

#[test]
fn malformed_depfiles_bypass_caching() {
    for contents in ["no rule here\n", "a.o: a.c\\", "a.o: we\\?ird.c\n", "a.o: $(VAR).c\n"] {
        assert_eq!(
            CcDepfile::parse(contents).unwrap_err().kind(),
            "malformed-depfile",
            "{contents:?} should bypass"
        );
    }
}

#[test]
fn malformed_depfile_messages_name_the_spelling() {
    let reason = CcDepfile::parse("a.o: we\\?ird.c\n").unwrap_err();
    assert_eq!(reason.message(), "could not model the compiler depfile: unmodeled escape \\?");
    let reason = CcDepfile::parse("a.o: $(VAR).c\n").unwrap_err();
    assert_eq!(reason.message(), "could not model the compiler depfile: unmodeled variable reference $(");
    let reason = CcDepfile::parse("a.o: a.c\\").unwrap_err();
    assert_eq!(reason.message(), "could not model the compiler depfile: unterminated line continuation");
}

#[test]
fn crlf_line_endings_and_trailing_tabs_are_tolerated() {
    let parsed = CcDepfile::parse("a.o: a.c\t\\\r\n\tb.h\r\n").expect("depfile should parse");
    assert_eq!(parsed.files, ["a.c", "b.h"]);
}
