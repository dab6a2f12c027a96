use llm_relay::security::{
    api_key_from_contents, constant_time_eq, encode_key, generate_api_key, next_key_step,
    ApiKeyError, IoFailure, IoKind, KeyAction, KeyEvent, KeyState,
};

fn failure(kind: IoKind, message: &str) -> IoFailure {
    IoFailure {
        kind,
        message: message.to_string(),
    }
}

/// Runs the key-file steps against a file held in memory.
fn run_key_steps(
    path: &str,
    file: &mut Option<String>,
    replace: bool,
    directory_fails: bool,
) -> Result<String, ApiKeyError> {
    let mut state = KeyState::Begin { replace };
    let mut event = KeyEvent::Started;
    loop {
        let (next, action) = next_key_step(path, state, event);
        state = next;
        event = match action {
            KeyAction::ReadFile => KeyEvent::ReadResult(match file {
                Some(text) => Ok(text.clone()),
                None => Err(failure(IoKind::NotFound, "not found")),
            }),
            KeyAction::MakeDirectory => {
                if directory_fails {
                    KeyEvent::DirectoryResult(Err(failure(IoKind::Other, "denied")))
                } else {
                    KeyEvent::DirectoryResult(Ok(()))
                }
            }
            KeyAction::CreateNewFile => {
                if file.is_some() {
                    KeyEvent::OpenResult(Err(failure(IoKind::AlreadyExists, "exists")))
                } else {
                    *file = Some(String::new());
                    KeyEvent::OpenResult(Ok(()))
                }
            }
            KeyAction::WriteNewFile { contents } | KeyAction::ReplaceFile { contents } => {
                *file = Some(contents);
                KeyEvent::WriteResult(Ok(()))
            }
            KeyAction::Finish(result) => return result,
        };
    }
}

#[test]
fn generates_and_reuses_a_key() {
    let mut file = None;
    let first = run_key_steps("/tmp/reuse", &mut file, false, false).unwrap();
    let second = run_key_steps("/tmp/reuse", &mut file, false, false).unwrap();

    assert_eq!(first, second);
    assert_eq!(first.len(), 64);
    assert!(file.is_some());
    assert_eq!(file.unwrap(), format!("{first}\n"));
}

#[test]
fn forced_generation_replaces_the_key() {
    let mut file = Some("old-key\n".to_string());
    let key = run_key_steps("/tmp/k", &mut file, true, false).unwrap();
    assert_ne!(key, "old-key");
    assert_eq!(file.unwrap(), format!("{key}\n"));
}

#[test]
fn key_file_failures() {
    let mut file = Some("   \n".to_string());
    match run_key_steps("/tmp/k", &mut file, false, false) {
        Err(ApiKeyError::Empty { path }) => assert_eq!(path, "/tmp/k"),
        other => panic!("unexpected {other:?}"),
    }
    let mut file = None;
    match run_key_steps("/tmp/k", &mut file, false, true) {
        Err(ApiKeyError::Create { path, source }) => {
            assert_eq!(path, "/tmp/k");
            assert_eq!(source.message, "denied");
        }
        other => panic!("unexpected {other:?}"),
    }
    let (state, action) = next_key_step(
        "/tmp/k",
        KeyState::Reading,
        KeyEvent::ReadResult(Err(failure(IoKind::Other, "io"))),
    );
    assert!(matches!(state, KeyState::Done));
    assert!(matches!(action, KeyAction::Finish(Err(ApiKeyError::Read { .. }))));
    let (_, action) = next_key_step(
        "/tmp/k",
        KeyState::Writing {
            key: "abc".to_string(),
        },
        KeyEvent::WriteResult(Err(failure(IoKind::Other, "disk full"))),
    );
    match action {
        KeyAction::Finish(Err(e)) => {
            assert_eq!(e.to_string(), "failed to write API key file /tmp/k: disk full")
        }
        _ => panic!("expected a write error"),
    }
    let (_, action) = next_key_step(
        "/tmp/k",
        KeyState::Opening {
            key: "abc".to_string(),
        },
        KeyEvent::OpenResult(Err(failure(IoKind::Other, "denied"))),
    );
    match action {
        KeyAction::Finish(Err(e)) => {
            assert_eq!(e.to_string(), "failed to create API key file /tmp/k: denied")
        }
        _ => panic!("expected a create error"),
    }
}

#[test]
fn key_file_contents_are_trimmed() {
    let key = api_key_from_contents("/k", &Ok("  abc123 \n".to_string())).unwrap();
    assert_eq!(key, "abc123");
    let stored = "0123456789abcdef0123456789abcdef0123456789abcdef0123456789abcdef";
    let read_back = api_key_from_contents("/k", &Ok(format!("{stored}\n"))).unwrap();
    assert_eq!(read_back, stored);
    let e = api_key_from_contents("/k", &Ok("\n".to_string())).unwrap_err();
    assert_eq!(e.to_string(), "API key file /k is empty");
    let e = api_key_from_contents("/k", &Err(failure(IoKind::NotFound, "gone"))).unwrap_err();
    assert_eq!(e.to_string(), "failed to read API key file /k: gone");
}

#[test]
fn constant_time_comparison_checks_length_and_content() {
    assert!(constant_time_eq(b"same", b"same"));
    assert!(!constant_time_eq(b"same", b"different"));
    assert!(!constant_time_eq(b"same", b"sam"));
}

#[test]
fn constant_time_comparison_edges() {
    assert!(constant_time_eq(b"", b""));
    assert!(!constant_time_eq(b"", b"a"));
    assert!(!constant_time_eq(b"abcd", b"abce"));
}

#[test]
fn keys_are_lowercase_hex() {
    assert_eq!(encode_key(&[0x00, 0x0f, 0xa5, 0xff]), "000fa5ff");
    let a = generate_api_key().unwrap();
    let b = generate_api_key().unwrap();
    assert_eq!(a.len(), 64);
    assert!(a.chars().all(|c| c.is_ascii_digit() || ('a'..='f').contains(&c)));
    assert_ne!(a, b);
}

#[test]
fn forced_key_is_the_one_read_back() {
    let mut file = Some("old-key\n".to_string());
    let key = run_key_steps("/tmp/show", &mut file, true, false).unwrap();
    let shown = api_key_from_contents("/tmp/show", &Ok(file.unwrap())).unwrap();
    assert_eq!(shown, key);
}

#[test]
fn random_source_failure_text() {
    let e = ApiKeyError::Random {
        path: "/tmp/k".to_string(),
    };
    assert_eq!(
        e.to_string(),
        "failed to draw random bytes for API key file /tmp/k"
    );
}
