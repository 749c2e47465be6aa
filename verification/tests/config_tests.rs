use pyvoy::config::{
    choose_filter, gil_batch_size, loop_index, new_http_filter_config, parse_io, parse_usize,
    split_app, ConfigError, Interface, Io,
};

#[test]
fn split_app_with_attribute() {
    let (module, attr) = split_app("myapp.server:application");
    assert_eq!(module, "myapp.server");
    assert_eq!(attr, "application");
}

#[test]
fn split_app_defaults_attribute_to_app() {
    let (module, attr) = split_app("myapp.server");
    assert_eq!(module, "myapp.server");
    assert_eq!(attr, "app");
}

#[test]
fn split_app_cuts_at_first_colon() {
    let (module, attr) = split_app("a:b:c");
    assert_eq!(module, "a");
    assert_eq!(attr, "b:c");
}

#[test]
fn parse_io_names() {
    assert_eq!(parse_io(b"asyncio"), Some(Io::Asyncio));
    assert_eq!(parse_io(b"trio"), Some(Io::Trio));
    assert_eq!(parse_io(b"curio"), None);
    assert_eq!(parse_io(b""), None);
}

#[test]
fn config_interface_defaults_to_asgi() {
    match new_http_filter_config("app: myapp:app\n") {
        Ok(choice) => {
            assert_eq!(choice.app, "myapp:app");
            assert_eq!(choice.interface, Interface::Asgi);
        }
        Err(_) => panic!("valid config refused"),
    }
}

#[test]
fn config_wsgi_interface() {
    match new_http_filter_config("app: tests.apps.wsgi\ninterface: wsgi\n") {
        Ok(choice) => {
            assert_eq!(choice.app, "tests.apps.wsgi");
            assert_eq!(choice.interface, Interface::Wsgi);
        }
        Err(_) => panic!("valid config refused"),
    }
}

#[test]
fn config_unsupported_interface() {
    match new_http_filter_config("app: x\ninterface: rsgi\n") {
        Err(ConfigError::UnsupportedInterface(i)) => assert_eq!(i, "rsgi"),
        _ => panic!("expected an unsupported interface"),
    }
}

#[test]
fn config_missing_app() {
    assert!(matches!(
        new_http_filter_config("interface: wsgi\n"),
        Err(ConfigError::MissingApp)
    ));
}

#[test]
fn config_empty_document() {
    assert!(matches!(new_http_filter_config(""), Err(ConfigError::Empty)));
}

#[test]
fn config_invalid_yaml() {
    assert!(matches!(
        new_http_filter_config("app: [unclosed"),
        Err(ConfigError::InvalidYaml(_))
    ));
}

fn entry(k: &str, v: &str) -> (Option<String>, Option<String>) {
    (Some(String::from(k)), Some(String::from(v)))
}

#[test]
fn choose_filter_from_documents() {
    let docs = vec![vec![entry("other", "x"), entry("app", "svc:app")], vec![entry("app", "ignored")]];
    match choose_filter(docs) {
        Ok(choice) => {
            assert_eq!(choice.app, "svc:app");
            assert_eq!(choice.interface, Interface::Asgi);
        }
        Err(_) => panic!("valid fields refused"),
    }
    assert!(matches!(choose_filter(Vec::new()), Err(ConfigError::Empty)));
    assert!(matches!(
        choose_filter(vec![vec![entry("interface", "wsgi")]]),
        Err(ConfigError::MissingApp)
    ));
    assert!(matches!(
        choose_filter(vec![vec![(Some(String::from("app")), None)]]),
        Err(ConfigError::MissingApp)
    ));
}

#[test]
fn config_app_must_be_a_string_in_a_mapping() {
    assert!(matches!(new_http_filter_config("app: 5\n"), Err(ConfigError::MissingApp)));
    assert!(matches!(new_http_filter_config("- app\n"), Err(ConfigError::MissingApp)));
    assert!(matches!(new_http_filter_config("5: app\napp: x\ninterface: wsgi\n"), Ok(_)));
}

#[test]
fn gil_batch_size_default_and_override() {
    assert_eq!(gil_batch_size(None), 40);
    assert_eq!(gil_batch_size(Some(b"100")), 100);
    assert_eq!(gil_batch_size(Some(b"+7")), 7);
    assert_eq!(gil_batch_size(Some(b"abc")), 40);
    assert_eq!(gil_batch_size(Some(b"")), 40);
    assert_eq!(gil_batch_size(Some(b"-1")), 40);
    assert_eq!(gil_batch_size(Some(b"99999999999999999999999999")), 40);
}

#[test]
fn parse_usize_cases() {
    assert_eq!(parse_usize(b"0"), Some(0));
    assert_eq!(parse_usize(b"12345"), Some(12345));
    assert_eq!(parse_usize(b"+"), None);
    assert_eq!(parse_usize(b"1 2"), None);
    assert_eq!(parse_usize(b"18446744073709551616"), None);
}

#[test]
fn loop_index_wraps_round() {
    assert_eq!(loop_index(0, 4), 0);
    assert_eq!(loop_index(5, 4), 1);
    assert_eq!(loop_index(u64::MAX, 1), 0);
}

#[test]
fn consecutive_picks_visit_every_loop_once() {
    let mut seen = vec![0u32; 3];
    for next in 7u64..10 {
        seen[loop_index(next, 3)] += 1;
    }
    assert_eq!(seen, vec![1, 1, 1]);
    for next in [0u64, 1, 99] {
        assert_eq!(loop_index(next, 1), 0);
    }
}
