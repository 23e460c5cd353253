//! End-to-end tests of the three preprocessor passes.

use ersa::imports::{FileEntry, FileMap, ImportError, Resolution};
use ersa::macros::{
    expand_macros, extract_macro_definitions, process_macros, substitute_macro, MacroDefinition,
    MacroError, MacroTable,
};
use ersa::optimize::{constant_fold, optimize};
use ersa::preprocess::{preprocess, PreprocessOutcome};

fn fold(s: &str) -> String {
    constant_fold(s).unwrap()
}

// ---------------------------------------------------------------------------
// Constant folding

#[test]
fn fold_scenario_basic() {
    // folding input `(2 + 3) * 4` yields `20`
    assert_eq!(fold("(2 + 3) * 4"), "20");
    // folding input `10 / 0` leaves `10 / 0` unchanged and does not fail
    assert_eq!(fold("10 / 0"), "10 / 0");
    assert_eq!(fold("10 % 0"), "10 % 0");
}

#[test]
fn fold_precedence_and_operators() {
    assert_eq!(fold("2 + 3 * 4"), "14");
    assert_eq!(fold("1 << 3"), "8");
    assert_eq!(fold("32 >> 2"), "8");
    assert_eq!(fold("12 & 10"), "8");
    assert_eq!(fold("12 | 3"), "15");
    assert_eq!(fold("12 ^ 10"), "6");
    assert_eq!(fold("2 && 0"), "0");
    assert_eq!(fold("2 || 0"), "1");
    assert_eq!(fold("7 % 3"), "1");
    // logical xor is its own doubled-character operator
    assert_eq!(fold("2 ^^ 3"), "0");
    assert_eq!(fold("2 ^^ 0"), "1");
    // shift binds tighter than bitwise and, looser than additive
    assert_eq!(fold("1 << 1 + 1"), "4");
    assert_eq!(fold("3 & 1 << 1"), "2");
}

#[test]
fn fold_negative_and_truncating() {
    assert_eq!(fold("0 - 7"), "-7");
    assert_eq!(fold("-7 / 2"), "-3");
    assert_eq!(fold("7 / -2"), "-3");
    assert_eq!(fold("-7 % 2"), "-1");
    assert_eq!(fold("7 % -2"), "1");
    assert_eq!(fold("1 & -3"), "1");
    // a negative literal follows any operator, bitwise and shift included
    assert_eq!(fold("1 | -2"), "-1");
    assert_eq!(fold("1 | -9223372036854775808"), "-9223372036854775807");
    assert_eq!(fold("-8 >> -63"), "-4");
}

#[test]
fn fold_wrapping_at_the_largest_size() {
    // wrapping (modulo 2^64) semantics for + - *
    assert_eq!(fold("9223372036854775807 + 1"), "-9223372036854775808");
    assert_eq!(fold("0 - 9223372036854775807 - 2"), "9223372036854775807");
    // a literal too large for a signed 64-bit value is not foldable
    assert_eq!(fold("9223372036854775808 + 1"), "9223372036854775808 + 1");
}

#[test]
fn fold_leaves_surrounding_text_alone() {
    assert_eq!(fold("let x = 2 + 3;"), "let x = 5;");
    assert_eq!(fold("a + b"), "a + b");
    assert_eq!(fold(""), "");
    assert_eq!(fold("foo(1 + 2, 3 * 4)"), "foo(1 + 2, 12)");
    assert_eq!(fold("x = 1 + 2\ny = 2 * 3"), "x = 3\ny = 6");
}

#[test]
fn fold_idempotent_on_scenario_outputs() {
    // re-running the optimizer on its own output produces identical text
    for input in [
        "(2 + 3) * 4",
        "10 / 0",
        "let x = 2 + 3; let y = 10 / 0; let z = -1 - 1;",
        "foo(1 + 2, 3 * 4) 1 << 62 - - 5",
        "a + b - 17 * (3 + 4)",
    ] {
        let once = fold(input);
        let twice = fold(&once);
        assert_eq!(once, twice);
    }
}

#[test]
fn fold_wrapping_division_at_the_boundary() {
    // the one dividend/divisor pair where truncating division wraps
    assert_eq!(
        fold("(0 - 9223372036854775807 - 1) / (0 - 1)"),
        "-9223372036854775808"
    );
    assert_eq!(fold("(0 - 9223372036854775807 - 1) % (0 - 1)"), "0");
}

#[test]
fn macro_names_beyond_ascii() {
    // identifier characters are Unicode-alphanumeric, as in the scanners'
    // character classes
    let out = process_macros("define! caf\u{e9} { 42 } caf\u{e9}! {}").unwrap();
    assert_eq!(out.trim(), "42");
}

#[test]
fn macro_body_trimming_beyond_ascii() {
    // body trimming strips Unicode whitespace such as no-break spaces
    let out = process_macros("define! m { \u{a0}kept\u{a0} } m! {}").unwrap();
    assert_eq!(out, " kept");
}

#[test]
fn optimize_is_constant_fold() {
    assert_eq!(optimize("(2 + 3) * 4").unwrap(), "20");
}

// ---------------------------------------------------------------------------
// Macros

#[test]
fn macro_scenario_double() {
    // `define! double(x) { x + x }` followed by `double(5)! {}` expands to
    // `5 + 5`; after folding, output is `10`.
    let expanded = process_macros("define! double(x) { x + x }\ndouble(5)! {}").unwrap();
    assert_eq!(expanded.trim(), "5 + 5");
    let folded = fold(&expanded);
    assert_eq!(folded.trim(), "10");
}

#[test]
fn macro_definition_extraction() {
    let (rest, table) = extract_macro_definitions("before define! m(a, b) { a * b } after")
        .unwrap();
    assert_eq!(rest, "before  after");
    assert_eq!(table.len(), 1);
}

#[test]
fn macro_body_placeholder() {
    let out = process_macros("define! wrap { [%0] } wrap! { inner }").unwrap();
    assert_eq!(out.trim(), "[inner]");
}

#[test]
fn macro_recursive_expansion() {
    // a macro body that itself contains a call to another defined macro is
    // fully expanded: no `name!{...}` remains
    let out = process_macros("define! inner { 1 + 1 } define! outer { inner! {} } outer! {}")
        .unwrap();
    assert_eq!(out.trim(), "1 + 1");
    assert!(!out.contains('!'));
}

#[test]
fn macro_redefinition_last_wins() {
    let out = process_macros("define! m { first } define! m { second } m! {}").unwrap();
    assert_eq!(out.trim(), "second");
}

#[test]
fn macro_arity_errors() {
    // exactly N arguments succeed and substitute positionally
    let ok = process_macros("define! pair(a, b) { (a, b) } pair(1, 2)! {}").unwrap();
    assert_eq!(ok.trim(), "(1, 2)");
    // any count other than N fails with an arity error
    let too_few = process_macros("define! pair(a, b) { (a, b) } pair(1)! {}");
    assert_eq!(
        too_few,
        Err(MacroError::WrongArgumentCount("pair".to_string(), 2, 1))
    );
    let too_many = process_macros("define! pair(a, b) { (a, b) } pair(1, 2, 3)! {}");
    assert_eq!(
        too_many,
        Err(MacroError::WrongArgumentCount("pair".to_string(), 2, 3))
    );
    let none = process_macros("define! pair(a, b) { (a, b) } pair! {}");
    assert_eq!(none, Err(MacroError::MissingArguments("pair".to_string(), 2)));
}

#[test]
fn macro_substitute_directly() {
    let def = MacroDefinition {
        name: "double".to_string(),
        params: vec!["x".to_string()],
        body: "x + x".to_string(),
    };
    assert_eq!(substitute_macro(&def, Some("5"), "").unwrap(), "5 + 5");
    assert_eq!(
        substitute_macro(&def, None, ""),
        Err(MacroError::MissingArguments("double".to_string(), 1))
    );
    assert_eq!(
        substitute_macro(&def, Some("1, 2"), ""),
        Err(MacroError::WrongArgumentCount("double".to_string(), 1, 2))
    );
}

#[test]
fn macro_substitute_zero_parameters() {
    let def = MacroDefinition {
        name: "k".to_string(),
        params: vec![],
        body: "[%0]".to_string(),
    };
    assert_eq!(substitute_macro(&def, None, "x").unwrap(), "[x]");
    assert_eq!(substitute_macro(&def, Some(""), "x").unwrap(), "[x]");
    assert_eq!(
        substitute_macro(&def, Some("y"), "x"),
        Err(MacroError::WrongArgumentCount("k".to_string(), 0, 1))
    );
}

#[test]
fn macro_substitution_is_textual() {
    // parameter names match as plain substrings, with no token awareness
    let def = MacroDefinition {
        name: "m".to_string(),
        params: vec!["x".to_string()],
        body: "extra + x".to_string(),
    };
    assert_eq!(substitute_macro(&def, Some("1"), "").unwrap(), "e1tra + 1");
}

#[test]
fn macro_errors() {
    assert_eq!(process_macros("define! { body }"), Err(MacroError::MissingName));
    assert_eq!(
        process_macros("define! m (a) body"),
        Err(MacroError::ExpectedDefinitionBody("m".to_string()))
    );
    assert_eq!(
        process_macros("define! m(a-) { body }"),
        Err(MacroError::UnexpectedParameterCharacter('-'))
    );
    assert_eq!(
        process_macros("define! m(a"),
        Err(MacroError::UnexpectedEndOfParameters)
    );
    assert_eq!(process_macros("define! m { body"), Err(MacroError::UnmatchedBraces));
    assert_eq!(process_macros("nothing(1"), Err(MacroError::UnmatchedParentheses));
    assert_eq!(
        process_macros("m! x"),
        Err(MacroError::ExpectedCallBody("m".to_string()))
    );
    assert_eq!(
        process_macros("m! { body }"),
        Err(MacroError::UndefinedMacro("m".to_string()))
    );
    assert_eq!(
        process_macros("define! a { a! {} } a! {}"),
        Err(MacroError::ExpansionDepthExceeded)
    );
    // parameter names are unique
    assert_eq!(
        process_macros("define! m(a, a) { a }"),
        Err(MacroError::DuplicateParameter("a".to_string()))
    );
}

#[test]
fn macro_parameters_join_across_whitespace() {
    // whitespace inside a parameter list is skipped, so split name pieces
    // join into one parameter
    let (_, table) = extract_macro_definitions("define! m(a b) { a }").unwrap();
    assert_eq!(table.len(), 1);
    let out = process_macros("define! m(a b) { ab + ab } m(9)! {}").unwrap();
    assert_eq!(out.trim(), "9 + 9");
}

#[test]
fn macro_zero_parameter_arity() {
    // a macro defined without parameters accepts no argument list values
    let out = process_macros("define! k { 7 } k! {}").unwrap();
    assert_eq!(out.trim(), "7");
    // an empty argument list carries zero values and is accepted
    let out = process_macros("define! k { 7 } k()! {}").unwrap();
    assert_eq!(out.trim(), "7");
    // any nonzero count is an arity error
    assert_eq!(
        process_macros("define! k { 7 } k(1, 2)! {}"),
        Err(MacroError::WrongArgumentCount("k".to_string(), 0, 2))
    );
}

#[test]
fn macro_expansion_inside_ordinary_calls() {
    // a call-like identifier without `!` passes through, but its argument
    // list is still expanded
    let out = process_macros("define! two { 2 } print(two! {})").unwrap();
    assert_eq!(out.trim(), "print(2)");
}

#[test]
fn macro_plain_text_passes_through() {
    // identifiers not followed by `!` pass through unchanged, the
    // whitespace the look-ahead scanned included
    assert_eq!(process_macros("hello world").unwrap(), "hello world");
    assert_eq!(process_macros("a  b(c) d").unwrap(), "a  b(c) d");
}

#[test]
fn expand_macros_with_table() {
    let mut table = MacroTable::new();
    table.insert(MacroDefinition {
        name: "id".to_string(),
        params: vec![],
        body: "%0".to_string(),
    });
    assert_eq!(expand_macros("id! { kept }", &table).unwrap(), "kept");
}

// ---------------------------------------------------------------------------
// Imports (directive form)

fn loaded_map(files: &[(&str, &str, &str)]) -> FileMap {
    // (requested, canonical, content)
    let mut fs = FileMap::new();
    for (requested, canonical, content) in files {
        fs.add_alias(requested.to_string(), Some(canonical.to_string()));
        fs.add_file(canonical.to_string(), FileEntry::Text(content.to_string()));
    }
    fs
}

#[test]
fn import_inlines_file_content() {
    let fs = loaded_map(&[("/proj/a.gpc", "/proj/a.gpc", "from a")]);
    let mut visited = Vec::new();
    match ersa::imports::process_imports("import \"a\";\nrest", "/proj", &fs, &mut visited) {
        Resolution::Done(out) => assert_eq!(out, "from a\n\nrest"),
        other => panic!("unexpected outcome: {:?}", other),
    }
    assert_eq!(visited, vec!["/proj/a.gpc".to_string()]);
}

#[test]
fn import_needs_unknown_paths_first() {
    let fs = FileMap::new();
    let mut visited = Vec::new();
    match ersa::imports::process_imports("import a;", "/proj", &fs, &mut visited) {
        Resolution::Needs(p) => assert_eq!(p, "/proj/a.gpc"),
        other => panic!("unexpected outcome: {:?}", other),
    }
}

#[test]
fn import_extension_appended_once() {
    let fs = FileMap::new();
    let mut visited = Vec::new();
    match ersa::imports::process_imports("import lib/a.gpc;", "/p", &fs, &mut visited) {
        Resolution::Needs(p) => assert_eq!(p, "/p/lib/a.gpc"),
        other => panic!("unexpected outcome: {:?}", other),
    }
}

#[test]
fn import_span_without_semicolon_consumes_trailing_whitespace() {
    // the statement's span runs through trailing whitespace even when no
    // semicolon follows
    let fs = loaded_map(&[("/p/a.gpc", "/p/a.gpc", "A")]);
    let mut visited = Vec::new();
    match ersa::imports::process_imports("import a\nrest", "/p", &fs, &mut visited) {
        Resolution::Done(out) => assert_eq!(out, "A\nrest"),
        other => panic!("unexpected outcome: {:?}", other),
    }
}

#[test]
fn import_cycle_detection() {
    // entry imports a; `a.gpc` imports b; `b.gpc` imports a again: the
    // build fails with a circular-import error naming the cycle
    let fs = loaded_map(&[
        ("/p/a.gpc", "/p/a.gpc", "import \"b\";"),
        ("/p/b.gpc", "/p/b.gpc", "import \"a\";"),
    ]);
    let mut visited = Vec::new();
    match ersa::imports::process_imports("import \"a\";", "/p", &fs, &mut visited) {
        Resolution::Fail(ImportError::Circular { path }) => assert_eq!(path, "/p/a.gpc"),
        other => panic!("unexpected outcome: {:?}", other),
    }
}

#[test]
fn import_self_cycle_detection() {
    let fs = loaded_map(&[("/p/a.gpc", "/p/a.gpc", "import \"a\";")]);
    let mut visited = Vec::new();
    match ersa::imports::process_imports("import \"a\";", "/p", &fs, &mut visited) {
        Resolution::Fail(ImportError::Circular { path }) => assert_eq!(path, "/p/a.gpc"),
        other => panic!("unexpected outcome: {:?}", other),
    }
}

#[test]
fn import_failures() {
    // canonicalization failure recorded by the caller
    let mut fs = FileMap::new();
    fs.add_alias("/p/a.gpc".to_string(), None);
    let mut visited = Vec::new();
    match ersa::imports::process_imports("import a;", "/p", &fs, &mut visited) {
        Resolution::Fail(ImportError::Unresolved { path, resolved }) => {
            assert_eq!(path, "a");
            assert_eq!(resolved, "/p/a.gpc");
        },
        other => panic!("unexpected outcome: {:?}", other),
    }
    // read failure recorded by the caller
    let mut fs = FileMap::new();
    fs.add_alias("/p/b.gpc".to_string(), Some("/p/b.gpc".to_string()));
    fs.add_file("/p/b.gpc".to_string(), FileEntry::Unreadable);
    let mut visited = Vec::new();
    match ersa::imports::process_imports("import b;", "/p", &fs, &mut visited) {
        Resolution::Fail(ImportError::ReadFailed { path }) => assert_eq!(path, "/p/b.gpc"),
        other => panic!("unexpected outcome: {:?}", other),
    }
    // a canonical path without a directory
    let mut fs = FileMap::new();
    fs.add_alias("/p/c.gpc".to_string(), Some("oddname".to_string()));
    fs.add_file("oddname".to_string(), FileEntry::Text(String::new()));
    let mut visited = Vec::new();
    match ersa::imports::process_imports("import c;", "/p", &fs, &mut visited) {
        Resolution::Fail(ImportError::NoParent { path }) => assert_eq!(path, "oddname"),
        other => panic!("unexpected outcome: {:?}", other),
    }
}

#[test]
fn import_nested_relative_to_importing_file() {
    // the imported file's own directory anchors its imports
    let fs = loaded_map(&[
        ("/p/sub/a.gpc", "/p/sub/a.gpc", "import \"b\";"),
        ("/p/sub/b.gpc", "/p/sub/b.gpc", "deep"),
    ]);
    let mut visited = Vec::new();
    match ersa::imports::process_imports("import \"sub/a\";", "/p", &fs, &mut visited) {
        Resolution::Done(out) => assert_eq!(out, "deep\n\n"),
        other => panic!("unexpected outcome: {:?}", other),
    }
}

// ---------------------------------------------------------------------------
// The pipeline

#[test]
fn preprocess_runs_all_three_passes() {
    let fs = loaded_map(&[(
        "/p/math.gpc",
        "/p/math.gpc",
        "define! double(x) { x + x }",
    )]);
    match preprocess("import \"math\";\ndouble(5)! {}", "/p", &fs) {
        PreprocessOutcome::Done(out) => assert_eq!(out.trim(), "10"),
        other => panic!("unexpected outcome: {:?}", other),
    }
}

#[test]
fn preprocess_surfaces_pass_errors() {
    let fs = FileMap::new();
    match preprocess("undefined! {}", "/p", &fs) {
        PreprocessOutcome::MacroFailed(MacroError::UndefinedMacro(n)) => {
            assert_eq!(n, "undefined")
        },
        other => panic!("unexpected outcome: {:?}", other),
    }
}
