//! Tests of the keyword-form import handling and of the surrounding
//! package, version and argument helpers.

use ersa::args::{AddArgs, BuildArgs, Command, LspArgs, NewArgs};
use ersa::imports::{FileEntry, FileMap};
use ersa::pkg::{
    api_url, decode_github_file_content, extract_github_info, GithubFile, Lib, PackageManager,
    PkgError,
};
use ersa::resolve::{
    convert_import_path_to_file_path, extract_imports, process_imports_recursively,
    resolve_import_file_path, KeywordOutcome,
};
use ersa::project::{ProjectError, ProjectLanguage};
use ersa::version::{Version, VersionError};

// ---------------------------------------------------------------------------
// Keyword-form path resolution

#[test]
fn keyword_path_resolution_scenarios() {
    // `local::utils::math` resolves to `<project_root>/utils/math.gpc`
    assert_eq!(
        resolve_import_file_path("local::utils::math", "/root/proj", None),
        "/root/proj/utils/math.gpc"
    );
    // a non-`local::` import `stdlib::io` with configured library
    // directory `lib` resolves to `<project_root>/lib/stdlib/io/gpc/lib.gpc`
    assert_eq!(
        resolve_import_file_path("stdlib::io", "/root/proj", Some("lib")),
        "/root/proj/lib/stdlib/io/gpc/lib.gpc"
    );
    // an absolute library directory is used as given
    assert_eq!(
        resolve_import_file_path("stdlib::io", "/root/proj", Some("/opt/lib")),
        "/opt/lib/stdlib/io/gpc/lib.gpc"
    );
    // with no library directory, a library path falls back to the root
    assert_eq!(
        resolve_import_file_path("stdlib::io", "/root/proj", None),
        "/root/proj/stdlib/io.gpc"
    );
}

#[test]
fn keyword_path_conversion() {
    assert_eq!(convert_import_path_to_file_path("a::b::c"), "a/b/c");
    assert_eq!(convert_import_path_to_file_path("plain"), "plain");
}

#[test]
fn keyword_extension_replaces_an_existing_one() {
    // `with_extension` semantics: an existing extension is replaced
    assert_eq!(
        resolve_import_file_path("local::a.b", "/p", None),
        "/p/a.gpc"
    );
    // a trailing separator leaves no empty final component behind
    assert_eq!(
        resolve_import_file_path("local::dir::", "/p", None),
        "/p/dir.gpc"
    );
}

#[test]
fn keyword_statement_extraction() {
    assert_eq!(
        extract_imports("use a::b;\ncode\nuse local::c;"),
        vec!["a::b".to_string(), "local::c".to_string()]
    );
    assert_eq!(extract_imports("no imports here"), Vec::<String>::new());
    // the capture runs to the semicolon, whitespace included
    assert_eq!(extract_imports("use  a::b ;"), vec!["a::b ".to_string()]);
    // with only whitespace before the semicolon, the last whitespace
    // character itself is captured, provided another separates it from the
    // keyword
    assert_eq!(extract_imports("use  ;"), vec![" ".to_string()]);
    assert_eq!(extract_imports("use ;"), Vec::<String>::new());
}

#[test]
fn keyword_resolution_inlines_and_flags_errors() {
    let mut fs = FileMap::new();
    fs.add_alias("/p/a.gpc".to_string(), Some("/p/a.gpc".to_string()));
    fs.add_file("/p/a.gpc".to_string(), FileEntry::Text("content of a".to_string()));
    let mut visited = Vec::new();
    let mut has_errors = false;
    match process_imports_recursively(
        "use local::a;\nrest",
        "/p",
        None,
        &fs,
        &mut visited,
        &mut has_errors,
    ) {
        KeywordOutcome::Done(out) => assert_eq!(out, "content of a\nrest"),
        other => panic!("unexpected outcome: {:?}", other),
    }
    assert!(!has_errors);
}

#[test]
fn keyword_cycle_substitutes_placeholder_and_keeps_going() {
    let mut fs = FileMap::new();
    fs.add_alias("/p/a.gpc".to_string(), Some("/p/a.gpc".to_string()));
    fs.add_file("/p/a.gpc".to_string(), FileEntry::Text("use local::a;".to_string()));
    let mut visited = Vec::new();
    let mut has_errors = false;
    match process_imports_recursively(
        "use local::a;",
        "/p",
        None,
        &fs,
        &mut visited,
        &mut has_errors,
    ) {
        KeywordOutcome::Done(out) => {
            assert_eq!(out, "// Circular import skipped: local::a");
        },
        other => panic!("unexpected outcome: {:?}", other),
    }
    // the error flag is set: the build fails after the scan completes
    assert!(has_errors);
}

#[test]
fn keyword_missing_file_flags_error_and_continues() {
    let mut fs = FileMap::new();
    fs.add_alias("/p/gone.gpc".to_string(), None);
    fs.add_alias("/p/b.gpc".to_string(), Some("/p/b.gpc".to_string()));
    fs.add_file("/p/b.gpc".to_string(), FileEntry::Text("bee".to_string()));
    let mut visited = Vec::new();
    let mut has_errors = false;
    match process_imports_recursively(
        "use local::gone;\nuse local::b;",
        "/p",
        None,
        &fs,
        &mut visited,
        &mut has_errors,
    ) {
        KeywordOutcome::Done(out) => {
            // the broken statement stands; the good one is inlined
            assert_eq!(out, "use local::gone;\nbee");
        },
        other => panic!("unexpected outcome: {:?}", other),
    }
    assert!(has_errors);
}

// ---------------------------------------------------------------------------
// Versions

#[test]
fn version_parsing() {
    assert_eq!(
        Version::parse("1.2.3"),
        Ok(Version { major: 1, minor: 2, patch: 3 })
    );
    assert_eq!(
        Version::parse(" v10.0.7 "),
        Ok(Version { major: 10, minor: 0, patch: 7 })
    );
    assert_eq!(
        Version::parse("1.2"),
        Err(VersionError::InvalidFormat("1.2".to_string()))
    );
    assert_eq!(
        Version::parse("1.2.3.4"),
        Err(VersionError::InvalidFormat("1.2.3.4".to_string()))
    );
    assert_eq!(
        Version::parse("x.2.3"),
        Err(VersionError::InvalidMajor("x".to_string()))
    );
    assert_eq!(
        Version::parse("1..3"),
        Err(VersionError::InvalidMinor("".to_string()))
    );
    assert_eq!(
        Version::parse("1.2.c"),
        Err(VersionError::InvalidPatch("c".to_string()))
    );
}

#[test]
fn version_ordering() {
    let a = Version { major: 1, minor: 2, patch: 3 };
    let b = Version { major: 1, minor: 2, patch: 4 };
    let c = Version { major: 2, minor: 0, patch: 0 };
    assert!(b.newer_than(&a));
    assert!(!a.newer_than(&b));
    assert!(c.newer_than(&b));
    assert!(!a.newer_than(&a));
}

// ---------------------------------------------------------------------------
// Package helpers

#[test]
fn package_directories() {
    assert_eq!(PackageManager::get_lib_directory("/app"), "/app/bin/lib");
    assert_eq!(
        PackageManager::get_package_directory("/app", "mathlib"),
        "/app/bin/lib/mathlib"
    );
}

#[test]
fn package_names() {
    assert_eq!(
        PackageManager::get_package_name("/app/bin/lib/mathlib"),
        Ok("mathlib".to_string())
    );
    assert_eq!(
        PackageManager::get_package_name("/app/bin/lib/mathlib/"),
        Ok("mathlib".to_string())
    );
    assert_eq!(
        PackageManager::get_package_name(""),
        Err(PkgError::InvalidPackageDirectory)
    );
    assert_eq!(
        PackageManager::get_package_name("/a/.."),
        Err(PkgError::InvalidPackageDirectory)
    );
    // dot components are normalized away, as path lookups normalize them
    assert_eq!(
        PackageManager::get_package_name("."),
        Err(PkgError::InvalidPackageDirectory)
    );
    assert_eq!(PackageManager::get_package_name("x/."), Ok("x".to_string()));
}

#[test]
fn package_name_validation() {
    assert_eq!(PackageManager::validate_package_name("mathlib"), Ok(()));
    assert_eq!(
        PackageManager::validate_package_name(""),
        Err(PkgError::EmptyPackageName)
    );
    assert_eq!(
        PackageManager::validate_package_name("a/b"),
        Err(PkgError::InvalidPackageNameFormat)
    );
    assert_eq!(
        PackageManager::validate_package_name("a\\b"),
        Err(PkgError::InvalidPackageNameFormat)
    );
    assert_eq!(
        PackageManager::validate_package_name("a..b"),
        Err(PkgError::InvalidPackageNameFormat)
    );
}

#[test]
fn github_urls() {
    assert_eq!(
        extract_github_info("https://github.com/owner/repo"),
        Ok(("owner".to_string(), "repo".to_string()))
    );
    assert_eq!(
        extract_github_info("https://github.com/owner/repo.git"),
        Ok(("owner".to_string(), "repo".to_string()))
    );
    assert_eq!(
        extract_github_info("https://github.com/owner/repo/"),
        Ok(("owner".to_string(), "repo".to_string()))
    );
    assert_eq!(extract_github_info("norepo"), Err(PkgError::InvalidGitUrl));
    assert_eq!(
        api_url("https://github.com/owner/repo"),
        "https://api.github.com/repos/owner/repo/contents/lib.json"
    );
    assert_eq!(api_url("norepo"), "Invalid Git URL");
}

#[test]
fn github_file_decoding() {
    // "hello" in standard base64, wrapped the way the API wraps payloads
    let file = GithubFile {
        content: "aGVs\nbG8=\n".to_string(),
        encoding: "base64".to_string(),
    };
    assert_eq!(decode_github_file_content(&file), Ok("hello".to_string()));

    let wrong_encoding = GithubFile {
        content: "aGVsbG8=".to_string(),
        encoding: "utf-8".to_string(),
    };
    assert_eq!(
        decode_github_file_content(&wrong_encoding),
        Err(PkgError::UnsupportedEncoding)
    );

    let bad_base64 = GithubFile {
        content: "!!!".to_string(),
        encoding: "base64".to_string(),
    };
    assert_eq!(
        decode_github_file_content(&bad_base64),
        Err(PkgError::Base64DecodeFailed)
    );

    // 0xFF is never valid UTF-8; "/w==" decodes to it
    let bad_utf8 = GithubFile {
        content: "/w==".to_string(),
        encoding: "base64".to_string(),
    };
    assert_eq!(
        decode_github_file_content(&bad_utf8),
        Err(PkgError::InvalidUtf8)
    );
}

#[test]
fn library_manifest_fields() {
    let lib = Lib {
        name: "mathlib".to_string(),
        url: "https://github.com/owner/mathlib".to_string(),
        version: "1.0.0".to_string(),
        dependencies: vec!["base".to_string()],
    };
    assert_eq!(lib.name, "mathlib");
    assert_eq!(lib.dependencies.len(), 1);
}

#[test]
fn project_languages() {
    assert_eq!(ProjectLanguage::from_str("gpc"), Ok(ProjectLanguage::Gpc));
    assert_eq!(ProjectLanguage::from_str("GPC"), Ok(ProjectLanguage::Gpc));
    assert_eq!(ProjectLanguage::from_str("gpx"), Ok(ProjectLanguage::Gpx));
    assert_eq!(
        ProjectLanguage::from_str("rust"),
        Err(ProjectError::UnsupportedLanguage("rust".to_string()))
    );
    assert_eq!(ProjectLanguage::Gpc.get_entry_file(), "src/main.gpc");
    assert_eq!(ProjectLanguage::Gpx.get_entry_file(), "src/main.gpx");
}

#[test]
fn argument_types_carry_parsed_values() {
    let cmd = Command::Add(AddArgs { what: "mathlib".to_string(), git: false });
    match cmd {
        Command::Add(args) => {
            assert_eq!(args.what, "mathlib");
            assert!(!args.git);
        },
        Command::New(_) => panic!("wrong variant"),
    }
    let new_args = NewArgs { name: "proj".to_string(), lib: true, bin: false };
    assert!(new_args.lib);
    let build_args = BuildArgs { file: Some("main.gpc".to_string()), output: None };
    assert!(build_args.file.is_some());
    let lsp_args = LspArgs { install: false, update: true, check_update: false };
    assert!(lsp_args.update);
}
