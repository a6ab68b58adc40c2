//! Remote servers and their tools.
use asteria_agent::json::{parse, Json};
use asteria_agent::mcp::config::{
    check_address, expand_environment_references, load_from_paths, project_file, ConfigFile,
    LoadedMcpConfig, McpServerConfig, McpServerDefinition, ProjectFile,
};
use asteria_agent::mcp::manager::{
    after_stored_failure, auth_challenge_from_error, connection_error_state, is_auth_required,
    AfterFailure, FailureCause, McpManager, McpServerState, OAuthFlow,
};
use asteria_agent::mcp::names::{namespaced_tool_name, sanitize};
use asteria_agent::mcp::oauth::{
    callback, callback_text, oauth_store_path, redirect_uri, sanitize_server_name, CallbackReply,
    FileCredentialStore,
};
use asteria_agent::mcp::tool::{content_to_text, normalize_result, ContentBlock, McpToolAdapter};
use asteria_agent::retry::Duration;

fn config() -> McpServerConfig {
    McpServerConfig {
        command: None,
        args: Vec::new(),
        env: Vec::new(),
        cwd: None,
        url: None,
        headers: Vec::new(),
        oauth_client_id: None,
        enabled: true,
        startup_timeout_ms: 30_000,
        tool_timeout_ms: 60_000,
        enabled_tools: None,
        disabled_tools: Vec::new(),
    }
}

fn stdio(command: &str) -> McpServerConfig {
    McpServerConfig { command: Some(command.into()), ..config() }
}

fn remote(url: &str) -> McpServerConfig {
    McpServerConfig { url: Some(url.into()), ..config() }
}

fn definition(name: &str, path: &str, config: McpServerConfig) -> McpServerDefinition {
    McpServerDefinition { name: name.into(), config_path: path.into(), config }
}

fn file(path: &str, servers: Vec<McpServerDefinition>) -> Option<ConfigFile> {
    Some(ConfigFile { path: path.into(), present: true, servers })
}

fn global() -> Option<ConfigFile> {
    file(
        "/home/global.json",
        vec![
            definition("global", "/home/global.json", stdio("g")),
            definition("same", "/home/global.json", stdio("global")),
        ],
    )
}

fn project() -> Option<ConfigFile> {
    file(
        "/work/project.json",
        vec![
            definition("local", "/work/project.json", stdio("l")),
            definition("same", "/work/project.json", stdio("project")),
        ],
    )
}

#[test]
fn project_config_requires_explicit_trust_and_overrides_global() {
    let untrusted = load_from_paths(global(), project(), false).unwrap();
    assert_eq!(untrusted.servers.len(), 2);
    assert_eq!(untrusted.skipped_project_file, Some("/work/project.json".to_string()));
    let trusted = load_from_paths(global(), project(), true).unwrap();
    assert_eq!(trusted.servers.len(), 3);
    let same = trusted.servers.iter().find(|server| server.name == "same").unwrap();
    assert_eq!(same.config.command.as_deref(), Some("project"));
    assert_eq!(
        trusted.loaded_files,
        vec!["/home/global.json".to_string(), "/work/project.json".to_string()]
    );
}

#[test]
fn configurations_are_refused_with_a_reason() {
    let blank = file("/a.json", vec![definition(" ", "/a.json", stdio("x"))]);
    assert_eq!(
        load_from_paths(blank, None, true).unwrap_err(),
        "/a.json 包含空 MCP Server 名称"
    );
    let wrong = file("/a.json", vec![definition("s", "/a.json", config())]);
    assert!(load_from_paths(wrong, None, true)
        .unwrap_err()
        .starts_with("/a.json 中的 MCP Server `s` 配置无效: "));
    assert_eq!(project_file(Some("/p"), false, None, true), ProjectFile::Absent);
    assert_eq!(project_file(Some("/p"), true, Some("/p"), true), ProjectFile::Absent);
    assert_eq!(project_file(Some("/p"), true, Some("/g"), true), ProjectFile::Load);
    assert_eq!(project_file(Some("/p"), true, Some("/g"), false), ProjectFile::Skip);
}

#[test]
fn a_single_server_can_be_picked() {
    let loaded = load_from_paths(global(), None, false).unwrap();
    let only = loaded.only("same").unwrap();
    assert_eq!(only.servers.len(), 1);
    assert_eq!(only.servers[0].name, "same");
    let loaded = LoadedMcpConfig {
        servers: Vec::new(),
        loaded_files: Vec::new(),
        skipped_project_file: None,
    };
    assert_eq!(loaded.only("x").unwrap_err(), "MCP 配置中没有 Server `x`");
}

#[test]
fn filters_tools_with_allowlist_and_blocklist() {
    let config = McpServerConfig {
        enabled_tools: Some(vec!["read".into(), "write".into()]),
        disabled_tools: vec!["write".into()],
        ..stdio("x")
    };
    assert!(config.tool_enabled("read"));
    assert!(!config.tool_enabled("write"));
    assert!(!config.tool_enabled("other"));
    assert_eq!(config.startup_timeout_ms, 30_000);
    assert_eq!(config.tool_timeout_ms, 60_000);
}

#[test]
fn validates_remote_transport_and_resolves_safe_headers() {
    let config = McpServerConfig {
        headers: vec![("X-MCP-Readonly".into(), "true".into())],
        ..remote("https://example.com/mcp")
    };
    config.validate_transport().unwrap();
    let resolved = config.resolved_http_headers(&Vec::new()).unwrap();
    assert!(resolved.bearer_token.is_none());
    assert_eq!(resolved.headers, vec![("x-mcp-readonly".to_string(), "true".to_string())]);

    assert!(remote("http://example.com/mcp").validate_transport().is_err());
    remote("http://localhost:8080/mcp").validate_transport().unwrap();
}

#[test]
fn rejects_ambiguous_transport_and_plaintext_authorization() {
    let ambiguous = McpServerConfig {
        command: Some("server".into()),
        ..remote("https://example.com/mcp")
    };
    assert!(ambiguous.validate_transport().is_err());
    let plaintext = McpServerConfig {
        headers: vec![("Authorization".into(), "Bearer secret".into())],
        ..remote("https://example.com/mcp")
    };
    assert!(plaintext.resolved_http_headers(&Vec::new()).is_err());
}

#[test]
fn secrets_come_from_the_environment() {
    let env = vec![("TOKEN".to_string(), "abc".to_string())];
    let config = McpServerConfig {
        headers: vec![("Authorization".into(), "Bearer ${TOKEN}".into())],
        env: vec![("KEY".into(), "${TOKEN}".into()), ("PLAIN".into(), "x-${TOKEN}".into())],
        ..remote("https://example.com/mcp")
    };
    let resolved = config.resolved_http_headers(&env).unwrap();
    assert_eq!(resolved.bearer_token.as_deref(), Some("abc"));
    assert!(resolved.headers.is_empty());
    assert!(config.resolved_http_headers(&Vec::new()).is_err());
    assert_eq!(
        config.resolved_env(&env).unwrap(),
        vec![
            ("KEY".to_string(), "abc".to_string()),
            ("PLAIN".to_string(), "x-${TOKEN}".to_string())
        ]
    );
    assert!(expand_environment_references("${MISSING}", &env).is_err());
    assert_eq!(expand_environment_references("plain", &env).unwrap(), "plain");
}

#[test]
fn header_names_and_values_are_checked() {
    let wrong_name = McpServerConfig {
        headers: vec![("bad name".into(), "x".into())],
        ..remote("https://example.com/mcp")
    };
    assert!(wrong_name.resolved_http_headers(&Vec::new()).is_err());
    let wrong_value = McpServerConfig {
        headers: vec![("X-Note".into(), "line\nbreak".into())],
        ..remote("https://example.com/mcp")
    };
    assert!(wrong_value.resolved_http_headers(&Vec::new()).is_err());
    assert!(remote("not a url").validate_transport().is_err());
    assert!(check_address(Some("ftp".into()), Some("a".into())).is_err());
    assert!(check_address(None, None).is_err());
    assert!(check_address(Some("http".into()), Some("127.0.0.1".into())).is_ok());
}

#[test]
fn expands_workspace_folder_in_args_and_cwd() {
    let config = McpServerConfig {
        args: vec![
            "--root".into(),
            "${workspaceFolder}".into(),
            "${workspaceFolder}/docs".into(),
        ],
        cwd: Some("${workspaceFolder}/tools".into()),
        ..stdio("server")
    };
    let root = "/tmp/asteria-workspace";
    assert_eq!(
        config.resolved_args(root),
        vec!["--root", "/tmp/asteria-workspace", "/tmp/asteria-workspace/docs"]
    );
    assert_eq!(
        config.resolved_cwd("/tmp/config/mcp.json", root),
        Some("/tmp/asteria-workspace/tools".to_string())
    );
    let relative = McpServerConfig { cwd: Some("bin".into()), ..stdio("server") };
    assert_eq!(
        relative.resolved_cwd("/tmp/config/mcp.json", root),
        Some("/tmp/config/bin".to_string())
    );
}

#[test]
fn disabled_servers_do_not_start() {
    let mut manager = McpManager::new(Vec::new(), None);
    manager.add_disabled("off");
    assert_eq!(manager.active_connections(), 0);
    assert_eq!(manager.statuses()[0].state, McpServerState::Disabled);
    assert!(manager.statuses()[0].tools.is_empty());
}

#[test]
fn classifies_http_authentication_errors() {
    let error = vec![FailureCause::AuthRequired(
        "Bearer resource_metadata=https://example.com".into(),
    )];
    assert_eq!(connection_error_state(&error), McpServerState::AuthRequired);
    assert_eq!(
        auth_challenge_from_error(&error).as_deref(),
        Some("Bearer resource_metadata=https://example.com")
    );
    assert!(is_auth_required(&error));
    let other = vec![FailureCause::Other];
    assert_eq!(connection_error_state(&other), McpServerState::Failed);
    assert!(!is_auth_required(&other));
}

#[test]
fn signing_in_is_offered_where_it_helps() {
    let asks = vec![FailureCause::AuthRequired("Bearer".into())];
    assert_eq!(
        after_stored_failure(OAuthFlow::InteractiveIfRequired, "s", &asks),
        AfterFailure::SignIn(Some("Bearer".to_string()))
    );
    match after_stored_failure(OAuthFlow::StoredOnly, "s", &asks) {
        AfterFailure::GiveUp(Some(text)) => assert!(text.contains("s")),
        _ => panic!("no advice"),
    }
    assert_eq!(
        after_stored_failure(OAuthFlow::StoredOnly, "s", &vec![FailureCause::Other]),
        AfterFailure::GiveUp(None)
    );
}

#[test]
fn connects_discovers_and_calls_stdio_tool() {
    let mut manager = McpManager::new(vec!["mcp.json".into()], None);
    let adopted = manager.add_connected("fixture", &stdio("python3"), &vec!["echo".into()]);
    assert_eq!(adopted, vec![0]);
    assert_eq!(manager.active_connections(), 1);
    assert_eq!(manager.statuses()[0].state, McpServerState::Connected);
    let tool = McpToolAdapter::new(
        "fixture",
        "echo".into(),
        None,
        parse(r#"{"type":"object"}"#).unwrap(),
        Duration::from_millis(2_000),
    );
    assert_eq!(tool.name(), "mcp__fixture__echo");
    let arguments = tool.arguments(r#"{"text":"hello"}"#).unwrap();
    assert_eq!(arguments.text_at("text"), Some("hello"));
    let output = normalize_result(&vec![ContentBlock::Text("echo:hello".into())], None, None);
    assert!(!output.is_error);
    assert_eq!(output.content, "echo:hello");

    let removed = manager.disconnect("fixture").unwrap();
    assert_eq!(removed, vec!["mcp__fixture__echo"]);
    assert_eq!(manager.active_connections(), 0);
    assert_eq!(manager.statuses()[0].state, McpServerState::Disconnected);
    assert!(manager.statuses()[0].tools.is_empty());
    assert_eq!(manager.disconnect("other").unwrap_err(), "未知 MCP Server: other");
}

#[test]
fn names_that_are_taken_are_left_out() {
    let mut manager = McpManager::new(Vec::new(), None);
    let first = manager.add_connected("a b", &stdio("x"), &vec!["t".into(), "t".into()]);
    assert_eq!(first, vec![0]);
    let second = manager.add_connected("a_b", &stdio("x"), &vec!["t".into(), "u".into()]);
    assert_eq!(second, vec![1]);
    let last = manager.statuses().iter().find(|status| status.name == "a_b").unwrap();
    assert!(last.detail.as_deref().unwrap().contains("mcp__a_b__t"));
}

#[test]
fn failed_servers_are_summed_up_and_replaced() {
    let mut manager = McpManager::new(Vec::new(), None);
    manager.add_failed("s", &vec![FailureCause::Other], "refused".into());
    assert!(manager.has_blocking_failures());
    assert_eq!(manager.failure_summary(), "s: refused");
    let mut candidate = McpManager::new(vec!["new.json".into()], None);
    candidate.add_connected("s", &stdio("x"), &vec!["t".into()]);
    manager.replace_server("s", candidate).unwrap();
    assert!(!manager.has_blocking_failures());
    assert_eq!(manager.server_tools("s").unwrap(), &vec!["mcp__s__t".to_string()]);
    assert_eq!(manager.loaded_files(), ["new.json".to_string()]);
    let empty = McpManager::new(Vec::new(), None);
    assert!(manager.replace_server("s", empty).is_err());
    let mut broken = McpManager::new(Vec::new(), None);
    broken.add_failed("s", &vec![FailureCause::Other], "again".into());
    assert!(manager.replace_server("s", broken).unwrap_err().contains("again"));
}

#[test]
fn sanitizes_server_names_for_credential_files() {
    assert_eq!(sanitize_server_name("binance-mcp-server"), "binance-mcp-server");
    assert_eq!(sanitize_server_name("weird name/.."), "weird_name___");
    assert_eq!(sanitize_server_name(""), "server");
}

#[test]
fn credentials_have_their_place() {
    assert_eq!(
        oauth_store_path("a b", None, Some("/home/me".into())),
        Some("/home/me/.asteria/oauth/a_b.json".to_string())
    );
    let store = FileCredentialStore::for_server("a", Some("/keys".into()), None).unwrap();
    assert_eq!(store.path(), "/keys/a.json");
    assert_eq!(oauth_store_path("a", None, None), None);
    assert_eq!(redirect_uri(8123), "http://127.0.0.1:8123/callback");
}

#[test]
fn callback_server_reads_code_and_state() {
    let reply = callback(
        b"GET /callback?code=abc&state=xyz HTTP/1.1\r\nHost: 127.0.0.1\r\nConnection: close\r\n\r\n",
    );
    match reply {
        CallbackReply::Accepted(page, url) => {
            assert!(page.contains("200"), "{page}");
            assert!(url.contains("code=abc"));
            assert!(url.contains("state=xyz"));
        }
        _ => panic!("refused"),
    }
    assert!(matches!(
        callback_text("GET /favicon.ico HTTP/1.1\r\n\r\n"),
        CallbackReply::NotFound(_)
    ));
    assert!(matches!(
        callback_text("GET /callback?error=access_denied HTTP/1.1\r\n\r\n"),
        CallbackReply::Denied(_, _)
    ));
}

#[test]
fn namespaces_and_sanitizes_remote_tool_names() {
    assert_eq!(
        namespaced_tool_name("github server", "list/issues"),
        "mcp__github_server__list_issues"
    );
    let long = namespaced_tool_name(&"server".repeat(12), &"tool".repeat(12));
    assert_eq!(long.len(), 64);
    assert!(long.starts_with("mcp__"));
    assert_eq!(sanitize(&sanitize("a b", "x"), "x"), sanitize("a b", "x"));
}

#[test]
fn normalizes_text_without_embedding_binary_payloads() {
    let output = normalize_result(
        &vec![ContentBlock::Text("hello".into()), ContentBlock::Image("image/png".into())],
        None,
        Some(false),
    );
    assert!(output.content.contains("hello"));
    assert!(output.content.contains("image/png"));
    assert!(!output.is_error);
    assert!(normalize_result(&Vec::new(), None, Some(true)).is_error);
    let structured = parse(r#"{"a":1}"#).unwrap();
    assert!(normalize_result(&Vec::new(), Some(&structured), None).content.contains("\"a\""));
    assert!(content_to_text(&ContentBlock::Audio("audio/wav".into())).contains("audio/wav"));
    assert!(content_to_text(&ContentBlock::ResourceLink("n".into(), "u".into())).contains("u"));
}

#[test]
fn remote_tools_describe_themselves() {
    let tool = McpToolAdapter::new(
        "fixture",
        "echo".into(),
        Some("Echo text".into()),
        Json::empty(),
        Duration::from_secs(1),
    );
    let schema = tool.schema();
    let function = schema.get("function").unwrap();
    assert_eq!(
        function.text_at("description"),
        Some("MCP tool from server `fixture`.\n\nEcho text")
    );
    assert!(tool.arguments("[]").is_err());
    assert!(tool.cancelled().is_error);
    assert!(tool.failed("gone").content.contains("gone"));
    assert_eq!(tool.remote_name(), "echo");
    assert_eq!(tool.execution_timeout(), Duration::from_secs(1));
}

#[test]
fn commands_start_next_to_their_file() {
    let config = McpServerConfig { cwd: Some("x".into()), ..remote("https://example.com/mcp") };
    let start = |path: &str| config.resolved_cwd(path, "/w").unwrap();
    assert_eq!(start("/a/mcp.json"), "/a/x");
    assert_eq!(start("/mcp.json"), "/x");
    assert_eq!(start("mcp.json"), "x");
    assert_eq!(start("cfg/"), "x");
    assert_eq!(start("cfg/."), "x");
    assert_eq!(start("a//b/c"), "a//b/x");
    assert_eq!(start("./c"), "./x");
    assert_eq!(start("."), "x");
    assert_eq!(start("a/.."), "a/x");
    assert_eq!(start("/"), "./x");
    assert_eq!(start(""), "./x");
    let rooted = McpServerConfig {
        cwd: Some("${workspaceFolder}/t".into()),
        ..remote("https://example.com/mcp")
    };
    assert_eq!(rooted.resolved_cwd("cfg/mcp.json", "/w"), Some("/w/t".to_string()));
}

#[test]
fn authorization_is_a_scheme_and_a_reference() {
    let env = vec![
        ("SCHEME".to_string(), "Bearer".to_string()),
        ("TOKEN".to_string(), "abc".to_string()),
        ("ALL".to_string(), "Bearer abc".to_string()),
    ];
    let with = |value: &str| {
        McpServerConfig {
            headers: vec![("Authorization".into(), value.into())],
            ..remote("https://example.com/mcp")
        }
        .resolved_http_headers(&env)
    };
    let plain = "Authorization 必须通过环境变量引用，不能明文写入 mcp.json";
    assert_eq!(with("bearer  ${TOKEN} ").unwrap().bearer_token.as_deref(), Some("abc"));
    assert_eq!(with("Bearer token").unwrap_err(), plain);
    assert_eq!(with("${SCHEME} token").unwrap_err(), plain);
    assert_eq!(with("Bearer x${TOKEN}").unwrap_err(), plain);
    assert_eq!(with("Bearer ${TOKEN}x${TOKEN}").unwrap_err(), plain);
    assert_eq!(with("${ALL}").unwrap_err(), "Authorization 必须使用 Bearer Token");
    assert_eq!(with("Basic ${TOKEN}").unwrap_err(), "Authorization 必须使用 Bearer Token");
    assert_eq!(
        with("Bearer ${NONE}").unwrap_err(),
        "无法解析 MCP HTTP Header `Authorization`: MCP 环境变量 NONE 引用不存在: environment variable not found"
    );
}

#[test]
fn refused_headers_name_their_cause() {
    let with = |name: &str, value: &str| {
        McpServerConfig {
            headers: vec![(name.into(), value.into())],
            ..remote("https://example.com/mcp")
        }
        .resolved_http_headers(&Vec::new())
        .unwrap_err()
    };
    assert_eq!(
        with("bad name", "x"),
        "无效的 MCP HTTP Header 名称: bad name: invalid HTTP header name"
    );
    assert_eq!(
        with("X-Note", "line\nbreak"),
        "无效的 MCP HTTP Header 值: X-Note: failed to parse header value"
    );
}
