use ctx::harness::compat::{satisfies, SemVersion};
use ctx::harness::compat::{has_operator, pad_bare_version};
use ctx::harness::templates::{author_name, render, standard_vars, CTX_VERSION};

#[test]
fn test_render_replaces_all_tokens() {
    let out = render(
        "v{{CTX_VERSION}} by {{AUTHOR_NAME}} on {{DEFAULT_BRANCH}}",
        &[
            ("CTX_VERSION", "1.0.0"),
            ("AUTHOR_NAME", "Jane"),
            ("DEFAULT_BRANCH", "main"),
        ],
    );
    assert_eq!(out, "v1.0.0 by Jane on main");
}

#[test]
fn render_replaces_every_occurrence_and_leaves_unknown_tokens() {
    let out = render("{{A}}-{{A}} {{B}}", &[("A", "x")]);
    assert_eq!(out, "x-x {{B}}");
    assert_eq!(render("no tokens", &[("A", "x")]), "no tokens");
}

#[test]
fn test_author_name_strips_email() {
    let name = author_name("Jane Doe <jane@example.com>:Bob <bob@example.org>");
    assert!(!name.is_empty());
    assert!(!name.contains('<'), "author: {}", name);
    assert!(!name.contains('@'), "author: {}", name);
    assert_eq!(name, "Jane Doe, Bob");
    assert_eq!(author_name(" solo "), "solo");
    assert_eq!(author_name(":<x@y>:"), "");
}

#[test]
fn standard_vars_carry_version_author_and_branch() {
    let vars = standard_vars("trunk", "Jane");
    assert_eq!(
        vars,
        vec![
            ("CTX_VERSION", CTX_VERSION),
            ("AUTHOR_NAME", "Jane"),
            ("DEFAULT_BRANCH", "trunk")
        ]
    );
}

#[test]
fn operators_and_padding() {
    assert!(has_operator("^0.2"));
    assert!(has_operator(">=0.2, <0.3"));
    assert!(has_operator("0.2.*"));
    assert!(has_operator("0.2 0.3"));
    assert!(!has_operator("0.2.1"));
    assert!(!has_operator("0.3.0-alpha"));
    assert_eq!(pad_bare_version("0"), "0.0.0");
    assert_eq!(pad_bare_version("0.1"), "0.1.0");
    assert_eq!(pad_bare_version("0.1.2"), "0.1.2");
    assert_eq!(pad_bare_version("1-beta.2"), "1.0.0-beta.2");
    assert_eq!(pad_bare_version("1.2+build.5"), "1.2.0+build.5");
}

fn v(s: &str) -> SemVersion {
    SemVersion::parse(s).unwrap()
}

#[test]
fn test_bare_versions_are_floors() {
    let current = v("0.2.1");
    // "0.1" would fail under caret semantics; the floor accepts it.
    assert!(satisfies(&current, "0.1").unwrap());
    assert!(satisfies(&current, "0.2").unwrap());
    assert!(satisfies(&current, "0.2.1").unwrap());
    assert!(!satisfies(&current, "0.2.2").unwrap());
    assert!(!satisfies(&current, "999.0").unwrap());
    assert!(!satisfies(&current, "999").unwrap());
}

#[test]
fn test_operator_expressions_use_semver_req() {
    let current = v("0.2.1");
    assert!(satisfies(&current, "^0.2").unwrap());
    assert!(!satisfies(&current, "^0.1").unwrap()); // caret: 0.1.x only
    assert!(satisfies(&current, ">=0.1").unwrap());
    assert!(!satisfies(&current, ">=999").unwrap());
    assert!(satisfies(&current, ">=0.2, <0.3").unwrap());
    assert!(satisfies(&current, "0.2.*").unwrap());
}

#[test]
fn test_garbage_is_an_error() {
    let current = v("0.2.1");
    assert!(satisfies(&current, "garbage").is_err());
    assert!(satisfies(&current, "").is_err());
    assert!(satisfies(&current, ">>nope").is_err());
}

#[test]
fn test_bare_prerelease_versions_parse() {
    let current = v("0.3.0");
    assert!(satisfies(&current, "0.3.0-alpha").unwrap());
    assert!(!satisfies(&v("0.3.0-alpha"), "0.3.0").unwrap());
}

#[test]
fn compat_error_messages_name_the_input() {
    let current = v("0.2.1");
    assert_eq!(
        satisfies(&current, "   ").unwrap_err().message(),
        "--require needs a version (e.g. \"0.2\") or requirement (e.g. \">=0.2\")"
    );
    assert!(satisfies(&current, " garbage ")
        .unwrap_err()
        .message()
        .starts_with("invalid version 'garbage': "));
    assert!(satisfies(&current, ">>nope")
        .unwrap_err()
        .message()
        .starts_with("invalid version requirement '>>nope': "));
    assert!(SemVersion::parse("1.0").is_err());
    assert_eq!(v("1.2.3-rc.1+b7").as_str(), "1.2.3-rc.1+b7");
    assert!(satisfies(&current, " 0.2.1 ").unwrap());
}
