use ctx::lsp_registry::{fetch_failure, language_fetch_failure};
use ctx::lsp_registry::{
    index_url, install_hint_for_os, language_url, parse_index, parse_language, resolve_base_url,
    validate_schema_version, IndexLanguage, InstallHints, LanguageEntry, RegistryIndex, ServerSpec,
    DEFAULT_REGISTRY_BASE_URL,
};

fn s(x: &str) -> String {
    x.to_string()
}

fn spec(name: &str, recommended: bool, command: &str) -> ServerSpec {
    ServerSpec {
        name: s(name),
        recommended,
        command: s(command),
        args: vec![],
        capabilities: vec![],
        homepage: None,
        notes: None,
        install: None,
    }
}

fn python_entry() -> LanguageEntry {
    LanguageEntry {
        schema_version: 1,
        language: s("python"),
        extensions: vec![s("py"), s("pyi")],
        root_markers: vec![],
        servers: vec![spec("pyright", true, "pyright-langserver"), spec("pylsp", false, "pylsp")],
    }
}

#[test]
fn base_url_resolution() {
    assert_eq!(resolve_base_url(None), DEFAULT_REGISTRY_BASE_URL);
    assert_eq!(resolve_base_url(Some(String::new())), DEFAULT_REGISTRY_BASE_URL);
    assert_eq!(
        resolve_base_url(Some("http://127.0.0.1:9/mirror".to_string())),
        "http://127.0.0.1:9/mirror"
    );
}

#[test]
fn urls_drop_trailing_slashes() {
    assert_eq!(index_url("http://h/r//"), "http://h/r/index.toml");
    assert_eq!(language_url("http://h/r", "go"), "http://h/r/registry/go.toml");
}

#[test]
fn server_selection() {
    let entry = python_entry();
    assert_eq!(entry.server(None).unwrap().name, "pyright");
    assert_eq!(entry.server(Some("pylsp")).unwrap().command, "pylsp");
    let err = entry.server(Some("nope")).unwrap_err().message();
    assert!(err.contains("no server named 'nope'"), "{err}");
    assert!(err.contains("pyright, pylsp"), "{err}");
    let mut none = python_entry();
    none.servers[0].recommended = false;
    assert_eq!(
        none.server(None).unwrap_err().message(),
        "registry entry for 'python' has no recommended server"
    );
}

#[test]
fn entry_validation() {
    assert!(python_entry().validate("e").is_ok());
    let mut v2 = python_entry();
    v2.schema_version = 2;
    assert!(v2.validate("e").unwrap_err().message().contains("upgrade ctx"));
    let mut zero = python_entry();
    zero.servers[0].recommended = false;
    let err = zero.validate("e").unwrap_err().message();
    assert!(err.contains("exactly one server") && err.contains("found 0"), "{err}");
    let mut two = python_entry();
    two.servers[1].recommended = true;
    assert!(two.validate("e").unwrap_err().message().contains("found 2"));
    let mut empty = python_entry();
    empty.servers[1].command = s("  ");
    assert_eq!(
        empty.validate("e").unwrap_err().message(),
        "e: server 'pylsp' has an empty command"
    );
    assert!(validate_schema_version(1, "x").is_ok());
}

#[test]
fn install_hints_prefer_os_and_fall_back() {
    let mut server = spec("pyright", true, "p");
    assert_eq!(install_hint_for_os(&server, "linux"), None);
    server.install = Some(InstallHints {
        default: s("npm i -g pyright"),
        macos: Some(s("brew install pyright")),
        linux: None,
        windows: None,
    });
    assert_eq!(install_hint_for_os(&server, "macos"), Some("brew install pyright"));
    assert_eq!(install_hint_for_os(&server, "linux"), Some("npm i -g pyright"));
    assert_eq!(install_hint_for_os(&server, "plan9"), Some("npm i -g pyright"));
}

/// `GOOD_INDEX` as parsed.
fn good_index(schema_version: u32) -> RegistryIndex {
    RegistryIndex {
        schema_version,
        languages: vec![
            (s("go"), IndexLanguage { recommended: s("gopls"), servers: vec![s("gopls")] }),
            (s("python"), IndexLanguage { recommended: s("pyright"), servers: vec![s("pyright")] }),
        ],
    }
}

/// `GOOD_PYTHON` as parsed.
fn good_python() -> LanguageEntry {
    let mut pyright = spec("pyright", true, "pyright-langserver");
    pyright.args = vec![s("--stdio")];
    pyright.capabilities = vec![s("documentSymbol"), s("references"), s("callHierarchy")];
    pyright.homepage = Some(s("https://github.com/microsoft/pyright"));
    pyright.notes = Some(s("Fast, actively maintained."));
    pyright.install = Some(InstallHints {
        default: s("npm install -g pyright"),
        macos: Some(s("brew install pyright")),
        linux: None,
        windows: None,
    });
    let mut pylsp = spec("pylsp", false, "pylsp");
    pylsp.install = Some(InstallHints {
        default: s("pip install python-lsp-server"),
        macos: None,
        linux: None,
        windows: None,
    });
    LanguageEntry {
        schema_version: 1,
        language: s("python"),
        extensions: vec![s("py"), s("pyi")],
        root_markers: vec![s("pyproject.toml"), s("setup.py"), s("setup.cfg"), s(".git")],
        servers: vec![pyright, pylsp],
    }
}

#[test]
fn parses_good_index() {
    let index = parse_index(Ok(good_index(1))).unwrap();
    assert_eq!(index.schema_version, 1);
    assert_eq!(index.languages.len(), 2);
    let (_, python) = index.languages.iter().find(|(n, _)| n == "python").unwrap();
    assert_eq!(python.recommended, "pyright");
    assert_eq!(python.servers, vec!["pyright"]);
}

#[test]
fn parses_good_language_entry() {
    let entry = parse_language(Ok(good_python()), "python").unwrap();
    assert_eq!(entry.language, "python");
    assert_eq!(entry.extensions, vec!["py", "pyi"]);
    assert_eq!(entry.root_markers.len(), 4);
    assert_eq!(entry.servers.len(), 2);

    let recommended = entry.server(None).unwrap();
    assert_eq!(recommended.name, "pyright");
    assert_eq!(recommended.command, "pyright-langserver");
    assert_eq!(recommended.args, vec!["--stdio"]);
    assert_eq!(recommended.capabilities, vec!["documentSymbol", "references", "callHierarchy"]);

    let named = entry.server(Some("pylsp")).unwrap();
    assert_eq!(named.command, "pylsp");

    let err = entry.server(Some("nope")).unwrap_err().message();
    assert!(err.contains("no server named 'nope'"), "{err}");
    assert!(err.contains("pyright, pylsp"), "{err}");
}

#[test]
fn rejects_wrong_schema_version() {
    let mut entry = good_python();
    entry.schema_version = 2;
    let err = parse_language(Ok(entry), "python").unwrap_err().message();
    assert!(err.contains("upgrade ctx"), "{err}");

    let err = parse_index(Ok(good_index(99))).unwrap_err().message();
    assert!(err.contains("upgrade ctx"), "{err}");
}

#[test]
fn rejects_zero_recommended_servers() {
    let mut entry = good_python();
    entry.servers[0].recommended = false;
    let err = parse_language(Ok(entry), "python").unwrap_err().message();
    assert!(err.contains("exactly one server"), "{err}");
    assert!(err.contains("found 0"), "{err}");
}

#[test]
fn rejects_two_recommended_servers() {
    let mut entry = good_python();
    entry.servers[1].recommended = true;
    let err = parse_language(Ok(entry), "python").unwrap_err().message();
    assert!(err.contains("exactly one server"), "{err}");
    assert!(err.contains("found 2"), "{err}");
}

#[test]
fn rejects_empty_command() {
    let mut entry = good_python();
    entry.servers[1].command = s("");
    let err = parse_language(Ok(entry), "python").unwrap_err().message();
    assert!(err.contains("empty command"), "{err}");
}

#[test]
fn rejects_missing_command() {
    // The manifest parser reports the missing field.
    let err = parse_language(Err(s("missing field `command`")), "python").unwrap_err().message();
    assert!(err.contains("malformed"), "{err}");
    assert!(err.contains("command"), "{err}");
    assert_eq!(err, "malformed registry entry for 'python': missing field `command`");
    let err = parse_index(Err(s("expected `=`"))).unwrap_err().message();
    assert_eq!(err, "malformed registry index.toml: expected `=`");
}

#[test]
fn install_hint_prefers_current_os_and_falls_back_to_default() {
    let entry = parse_language(Ok(good_python()), "python").unwrap();
    let pyright = entry.server(Some("pyright")).unwrap();
    assert_eq!(install_hint_for_os(pyright, "macos"), Some("brew install pyright"));
    assert_eq!(install_hint_for_os(pyright, "linux"), Some("npm install -g pyright"));
    assert_eq!(install_hint_for_os(pyright, "windows"), Some("npm install -g pyright"));
    let no_install = spec("x", true, "x");
    assert_eq!(install_hint_for_os(&no_install, "linux"), None);
}

#[test]
fn fetch_statuses_outside_2xx_fail() {
    assert!(fetch_failure(200, "200 OK", "https://r/index.toml", "registry index").is_none());
    let e = fetch_failure(500, "500 Internal Server Error", "https://r/index.toml", "registry index").unwrap();
    assert_eq!(
        e.message(),
        "registry index fetch failed: https://r/index.toml returned HTTP 500 Internal Server Error"
    );
}

#[test]
fn a_missing_language_entry_is_named_unknown() {
    let url = "https://r/registry/cobol.toml";
    assert!(language_fetch_failure(204, "204 No Content", url, "cobol").is_none());
    assert_eq!(
        language_fetch_failure(404, "404 Not Found", url, "cobol").unwrap().message(),
        "language 'cobol' is unknown to the LSP registry (https://r/registry/cobol.toml returned HTTP 404); \
         run against the registry index to list available languages"
    );
    assert_eq!(
        language_fetch_failure(503, "503 Service Unavailable", url, "cobol").unwrap().message(),
        "LSP registry fetch failed: https://r/registry/cobol.toml returned HTTP 503 Service Unavailable"
    );
}
