use claurst::freellmapi::bootstrap::{
    bootstrap_if_needed, finish_bootstrap, BootstrapEnd, BootstrapPlan, ReadyServer,
};
use claurst::freellmapi::config::{Config, ProviderConfig, ProviderTable};
use claurst::freellmapi::origin::{
    api_key_url, freellmapi_origin, health_url, strip_v1_suffix,
};
use claurst::freellmapi::readiness::{
    accept_api_key, ensure_ready, error_chain, is_healthy, next_action, Action, Event, KeyFault,
    ReadyError, Stage, FREELLMAPI_POLL_INTERVAL_MS, FREELLMAPI_STARTUP_TIMEOUT_MS,
};
use claurst::freellmapi::server::{
    find_server_dir, server_candidates, start_server, ServerProbe,
};
use claurst::path::prefix::System;

#[test]
fn strips_v1_suffix_when_present() {
    assert_eq!(
        strip_v1_suffix("http://127.0.0.1:3001/v1"),
        "http://127.0.0.1:3001"
    );
    assert_eq!(
        strip_v1_suffix("http://127.0.0.1:3001/v1/"),
        "http://127.0.0.1:3001"
    );
}

#[test]
fn preserves_origin_without_v1_suffix() {
    assert_eq!(
        strip_v1_suffix("http://127.0.0.1:3001"),
        "http://127.0.0.1:3001"
    );
}

#[test]
fn origin_is_trimmed_once() {
    assert_eq!(strip_v1_suffix("  http://host///v1//  "), "http://host");
    assert_eq!(strip_v1_suffix("http://host/v1/v1"), "http://host/v1");
    assert_eq!(strip_v1_suffix("http://host/v10"), "http://host/v10");
    assert_eq!(strip_v1_suffix("\u{2003}http://host/ \u{a0}"), "http://host");
    assert_eq!(strip_v1_suffix("/v1"), "");
    assert_eq!(strip_v1_suffix(" / "), "");
    assert_eq!(strip_v1_suffix(""), "");
    assert_eq!(strip_v1_suffix("a /"), "a ");
}

#[test]
fn padded_origins_are_kept() {
    assert_eq!(strip_v1_suffix(" \t http://h:1///v1// \n"), "http://h:1");
    assert_eq!(strip_v1_suffix("\n http://h:1// "), "http://h:1");
    assert_eq!(strip_v1_suffix(" /v1 "), "");
    assert_eq!(strip_v1_suffix(" \u{3000}"), "");
}

#[test]
fn origin_defaults_to_the_local_server() {
    assert_eq!(freellmapi_origin(None), "http://127.0.0.1:3001");
    assert_eq!(freellmapi_origin(Some("https://example.org/v1")), "https://example.org");
    assert_eq!(health_url("http://h"), "http://h/api/health");
    assert_eq!(api_key_url("http://h"), "http://h/api/settings/api-key");
}

fn config(provider: Option<&str>, model: Option<&str>) -> Config<u8> {
    Config {
        provider: provider.map(|p| p.to_string()),
        model: model.map(|m| m.to_string()),
        api_key: Some("old key".to_string()),
        provider_configs: ProviderTable::new(),
    }
}

#[test]
fn bootstrap_is_needed_for_its_provider_its_models_and_by_default() {
    let plan = bootstrap_if_needed(&config(Some("freellmapi"), None), true, true);
    assert_eq!(plan, Some(BootstrapPlan { should_default: false, explicit_model: false }));

    let plan = bootstrap_if_needed(&config(Some("openai"), Some("freellmapi/x")), true, true);
    assert_eq!(plan, Some(BootstrapPlan { should_default: false, explicit_model: true }));

    let plan = bootstrap_if_needed(&config(None, None), false, false);
    assert_eq!(plan, Some(BootstrapPlan { should_default: true, explicit_model: false }));

    let plan = bootstrap_if_needed(&config(None, Some("auto")), false, true);
    assert_eq!(plan, Some(BootstrapPlan { should_default: true, explicit_model: false }));

    let plan = bootstrap_if_needed(&config(None, Some("freellmapi/x")), false, false);
    assert_eq!(plan, Some(BootstrapPlan { should_default: true, explicit_model: true }));
}

#[test]
fn explicit_choices_are_kept() {
    assert_eq!(bootstrap_if_needed(&config(Some("openai"), None), true, false), None);
    assert_eq!(bootstrap_if_needed(&config(Some("openai"), Some("auto")), true, true), None);
    assert_eq!(bootstrap_if_needed(&config(None, Some("gpt")), false, true), None);
    assert_eq!(bootstrap_if_needed(&config(None, Some("freellmapi")), false, true), None);
    assert_eq!(bootstrap_if_needed(&config(Some("FreeLLMAPI"), None), true, true), None);
}

fn ready() -> Result<ReadyServer, ReadyError> {
    Ok(ReadyServer { origin: "http://h".to_string(), api_key: "new key".to_string() })
}

#[test]
fn ready_server_is_set_up_as_the_default() {
    let mut config = config(Some("openai"), Some("gpt"));
    config.provider_configs.insert(
        "openai",
        ProviderConfig { api_base: Some("https://o".to_string()), api_key: None, other: 3 },
    );
    let plan = BootstrapPlan { should_default: true, explicit_model: false };
    let end = finish_bootstrap(&mut config, plan, false, ready(), 7);
    assert!(matches!(end, Ok(BootstrapEnd::Configured)));
    assert_eq!(config.provider, Some("freellmapi".to_string()));
    assert_eq!(config.model, Some("gpt".to_string()));
    assert_eq!(config.api_key, None);
    let entry = config.provider_configs.get("freellmapi").unwrap();
    assert_eq!(entry.api_base, Some("http://h".to_string()));
    assert_eq!(entry.api_key, Some("new key".to_string()));
    assert_eq!(entry.other, 7);
    let entry = config.provider_configs.get("openai").unwrap();
    assert_eq!(entry.api_base, Some("https://o".to_string()));
    assert_eq!(entry.other, 3);
    assert!(config.provider_configs.get("anthropic").is_none());
}

#[test]
fn ready_server_keeps_what_the_user_set() {
    let mut config = config(Some("freellmapi"), None);
    config.provider_configs.insert(
        "freellmapi",
        ProviderConfig { api_base: None, api_key: Some("stale".to_string()), other: 5 },
    );
    let plan = BootstrapPlan { should_default: false, explicit_model: false };
    let end = finish_bootstrap(&mut config, plan, true, ready(), 7);
    assert!(matches!(end, Ok(BootstrapEnd::Configured)));
    assert_eq!(config.provider, Some("freellmapi".to_string()));
    assert_eq!(config.api_key, Some("old key".to_string()));
    let entry = config.provider_configs.get("freellmapi").unwrap();
    assert_eq!(entry.api_base, Some("http://h".to_string()));
    assert_eq!(entry.api_key, Some("new key".to_string()));
    assert_eq!(entry.other, 5);
}

#[test]
fn setting_up_twice_changes_nothing() {
    let mut settings = config(None, None);
    for _ in 0..2 {
        let plan = bootstrap_if_needed(&settings, false, false).unwrap();
        let end = finish_bootstrap(&mut settings, plan, false, ready(), 7);
        assert!(matches!(end, Ok(BootstrapEnd::Configured)));
        assert_eq!(settings.provider, Some("freellmapi".to_string()));
        assert_eq!(settings.api_key, None);
        let entry = settings.provider_configs.get("freellmapi").unwrap();
        assert_eq!(entry.api_base, Some("http://h".to_string()));
        assert_eq!(entry.api_key, Some("new key".to_string()));
        assert_eq!(entry.other, 7);
    }
}

#[test]
fn failure_is_an_error_only_if_asked_for() {
    let mut settings = config(Some("openai"), None);
    let plan = BootstrapPlan { should_default: true, explicit_model: false };
    let end = finish_bootstrap(&mut settings, plan, false, Err(ReadyError::NotRunning), 0);
    assert!(matches!(end, Ok(BootstrapEnd::FellBack(ReadyError::NotRunning))));
    assert_eq!(settings.provider, Some("openai".to_string()));
    assert_eq!(settings.api_key, Some("old key".to_string()));
    assert!(settings.provider_configs.get("freellmapi").is_none());

    let plan = BootstrapPlan { should_default: false, explicit_model: true };
    let end = finish_bootstrap(&mut settings, plan, false, Err(ReadyError::NotRunning), 0);
    assert!(matches!(end, Err(ReadyError::NotRunning)));
    assert_eq!(settings.api_key, Some("old key".to_string()));
}

#[test]
fn table_replaces_settings_under_the_same_id() {
    let mut table: ProviderTable<u8> = ProviderTable::new();
    table.insert("a", ProviderConfig { api_base: None, api_key: None, other: 1 });
    table.insert("b", ProviderConfig { api_base: None, api_key: None, other: 2 });
    table.insert("a", ProviderConfig { api_base: None, api_key: None, other: 3 });
    assert_eq!(table.get("a").unwrap().other, 3);
    assert_eq!(table.get("b").unwrap().other, 2);
    table.set_endpoint("b", "base".to_string(), "key".to_string(), 9);
    assert_eq!(table.get("b").unwrap().other, 2);
    assert_eq!(table.get("b").unwrap().api_base, Some("base".to_string()));
}

#[test]
fn health_is_a_successful_status() {
    assert!(is_healthy(Some(200)));
    assert!(is_healthy(Some(204)));
    assert!(is_healthy(Some(299)));
    assert!(!is_healthy(Some(199)));
    assert!(!is_healthy(Some(300)));
    assert!(!is_healthy(Some(503)));
    assert!(!is_healthy(None));
}

#[test]
fn running_server_is_asked_for_its_key_at_once() {
    let stage = Stage::Probing;
    assert_eq!(next_action(&stage), Action::CheckHealth);
    let stage = ensure_ready(stage, Event::Health(Some(200)));
    assert_eq!(next_action(&stage), Action::FetchKey);
    let stage = ensure_ready(stage, Event::Key(Ok(" k ".to_string())));
    assert_eq!(next_action(&stage), Action::Finish);
    match stage {
        Stage::Ready { api_key } => assert_eq!(api_key, " k "),
        _ => panic!("the server is ready"),
    }
}

#[test]
fn missing_server_is_found_started_and_waited_for() {
    let stage = ensure_ready(Stage::Probing, Event::Health(None));
    assert_eq!(next_action(&stage), Action::FindServer);
    let stage = ensure_ready(stage, Event::Located(Some("/x/server".to_string())));
    assert_eq!(next_action(&stage), Action::StartServer);
    let stage = ensure_ready(stage, Event::Started(Ok(())));
    assert_eq!(next_action(&stage), Action::CheckHealth);
    let stage = ensure_ready(stage, Event::Health(Some(503)));
    assert_eq!(next_action(&stage), Action::Pause);
    let elapsed_ms = FREELLMAPI_STARTUP_TIMEOUT_MS - 1;
    let stage = ensure_ready(stage, Event::Paused { elapsed_ms });
    assert_eq!(next_action(&stage), Action::CheckHealth);
    let stage = ensure_ready(stage, Event::Health(Some(200)));
    assert_eq!(next_action(&stage), Action::FetchKey);
}

#[test]
fn wait_ends_at_the_timeout() {
    let mut stage = Stage::Waiting { dir: "/x/server".to_string() };
    let mut elapsed_ms = 0;
    let mut checks = 0;
    while next_action(&stage) == Action::CheckHealth {
        checks += 1;
        stage = ensure_ready(stage, Event::Health(Some(503)));
        elapsed_ms += FREELLMAPI_POLL_INTERVAL_MS;
        stage = ensure_ready(stage, Event::Paused { elapsed_ms });
    }
    assert_eq!(checks, 30);
    match stage {
        Stage::Failed(err) => assert_eq!(
            error_chain(&err, "http://h"),
            vec![
                "FreeLLMAPI did not become ready after starting from /x/server",
                "FreeLLMAPI never reported healthy at http://h",
            ]
        ),
        _ => panic!("the wait is over"),
    }
}

#[test]
fn events_out_of_turn_change_nothing() {
    let stage = ensure_ready(Stage::Probing, Event::Started(Ok(())));
    assert!(matches!(stage, Stage::Probing));
    let stage = ensure_ready(Stage::Failed(ReadyError::NotRunning), Event::Health(Some(200)));
    assert!(matches!(stage, Stage::Failed(ReadyError::NotRunning)));
    let stage = ensure_ready(Stage::Ready { api_key: "k".to_string() }, Event::Health(None));
    assert!(matches!(stage, Stage::Ready { .. }));
}

#[test]
fn blank_key_is_no_key() {
    assert!(matches!(accept_api_key(Ok(" \n\t".to_string())), Err(KeyFault::Empty)));
    assert!(matches!(accept_api_key(Ok(String::new())), Err(KeyFault::Empty)));
    assert!(matches!(accept_api_key(Ok("k".to_string())), Ok(key) if key == "k"));
    let stage = ensure_ready(Stage::Fetching, Event::Key(Ok(String::new())));
    assert!(matches!(stage, Stage::Failed(ReadyError::KeyUnavailable(KeyFault::Empty))));
}

#[test]
fn failures_tell_what_happened() {
    let stage = ensure_ready(Stage::Locating, Event::Located(None));
    match stage {
        Stage::Failed(err) => assert_eq!(
            error_chain(&err, "http://h"),
            vec!["FreeLLMAPI is not running at http://h and no local checkout was found. Set FREELLMAPI_ROOT or start the server manually."]
        ),
        _ => panic!("no server was found"),
    }
    let stage = Stage::Starting { dir: "/d".to_string() };
    let stage = ensure_ready(stage, Event::Started(Err("no such file".to_string())));
    match stage {
        Stage::Failed(err) => assert_eq!(
            error_chain(&err, "http://h"),
            vec!["Failed to start FreeLLMAPI from /d", "no such file"]
        ),
        _ => panic!("the server was not started"),
    }
    let head = "Failed to fetch FreeLLMAPI API key from http://h/api/settings/api-key";
    let faults = vec![
        (KeyFault::Client("c".to_string()), "Failed to build HTTP client for FreeLLMAPI"),
        (KeyFault::Request("c".to_string()), "FreeLLMAPI API key request failed"),
        (KeyFault::Status("c".to_string()), "FreeLLMAPI API key endpoint returned an error"),
        (KeyFault::Body("c".to_string()), "Failed to parse FreeLLMAPI API key response"),
    ];
    for (fault, message) in faults {
        match ensure_ready(Stage::Fetching, Event::Key(Err(fault))) {
            Stage::Failed(err) => {
                assert_eq!(error_chain(&err, "http://h"), vec![head, message, "c"]);
            }
            _ => panic!("there is no key"),
        }
    }
    let err = ReadyError::KeyUnavailable(KeyFault::Empty);
    assert_eq!(
        error_chain(&err, "http://h"),
        vec![head, "FreeLLMAPI returned an empty API key"]
    );
}

#[test]
fn candidates_are_looked_at_in_order() {
    assert_eq!(
        server_candidates(Some("/opt/free"), "/home/me", Some("/usr/bin/x"), System::Unix),
        vec![
            "/opt/free/server",
            "/home/me/freellmapi/server",
            "/home/freellmapi/server",
            "/freellmapi/server",
            "/usr/bin/x/freellmapi/server",
            "/usr/bin/freellmapi/server",
            "/usr/freellmapi/server",
            "/freellmapi/server",
        ]
    );
    assert_eq!(
        server_candidates(Some("/opt/free/server/"), "a", None, System::Unix),
        vec!["/opt/free/server/", "a/freellmapi/server", "freellmapi/server"]
    );
    assert_eq!(server_candidates(None, "/", None, System::Unix), vec!["/freellmapi/server"]);
    assert_eq!(
        server_candidates(Some("/opt/myserver"), "/", None, System::Unix),
        vec!["/opt/myserver/server", "/freellmapi/server"]
    );
}

#[test]
fn candidates_are_those_of_the_system() {
    for cwd in ["/", "/a", "/a/b/c", "a/b", "", ".", "./a", "/a//b/./c/", "../x", "/a/../b"] {
        let expected: Vec<String> = std::path::Path::new(cwd)
            .ancestors()
            .map(|dir| dir.join("freellmapi").join("server").to_string_lossy().to_string())
            .collect();
        assert_eq!(server_candidates(None, cwd, None, System::Unix), expected, "{}", cwd);
    }
    for root in ["/x/server", "/x/server/.", "server", "/x", "x/", "", "/server/..", "/xserver"] {
        let path = std::path::PathBuf::from(root);
        let dir = if path.ends_with("server") { path } else { path.join("server") };
        let found = server_candidates(Some(root), "/", None, System::Unix);
        assert_eq!(found[0], dir.to_string_lossy(), "{}", root);
    }
}

#[test]
fn candidates_on_windows_end_at_the_drive() {
    assert_eq!(
        server_candidates(
            Some("D:\\free\\Server"),
            "C:\\a",
            Some("\\\\host\\share\\x.exe"),
            System::Windows
        ),
        vec![
            "D:\\free\\Server\\server",
            "C:\\a\\freellmapi\\server",
            "C:\\freellmapi\\server",
            "\\\\host\\share\\x.exe\\freellmapi\\server",
            "\\\\host\\share\\freellmapi\\server",
        ]
    );
    assert_eq!(
        server_candidates(Some("D:/free/server/"), "\\\\?\\C:\\a", None, System::Windows),
        vec![
            "D:/free/server/",
            "\\\\?\\C:\\a\\freellmapi\\server",
            "\\\\?\\C:\\freellmapi\\server",
        ]
    );
}

#[test]
fn first_server_directory_is_taken() {
    let none = ServerProbe { manifest: false, built: true, source: true };
    let bare = ServerProbe { manifest: true, built: false, source: false };
    let built = ServerProbe { manifest: true, built: true, source: false };
    let source = ServerProbe { manifest: true, built: false, source: true };
    assert_eq!(find_server_dir(&[none, bare, source, built]), Some(2));
    assert_eq!(find_server_dir(&[built, source]), Some(0));
    assert_eq!(find_server_dir(&[none, bare]), None);
    assert_eq!(find_server_dir(&[]), None);
}

#[test]
fn server_is_started_by_what_is_there() {
    let command = start_server(true, System::Windows);
    assert_eq!((command.program, command.args), ("node", vec!["dist/index.js"]));
    let command = start_server(false, System::Windows);
    assert_eq!((command.program, command.args), ("cmd", vec!["/C", "npm run dev"]));
    let command = start_server(false, System::Unix);
    assert_eq!((command.program, command.args), ("sh", vec!["-lc", "npm run dev"]));
}
