use wunderdrive::cli::arg_value;
use wunderdrive::creds::{
    access_key_entry, account_name, check_mode, env_credentials, lookup_result, octal_padded, pair,
    resolve_step, secret_key_entry, usable, Credentials, Lookup, ResolveStep, Source, SERVICE,
};
use wunderdrive::error::Error;
use wunderdrive::protocol::{
    body_len, frame, frame_header, resolve_args, route, unknown_method, FrameError, Resolution, Route,
    MAX_FRAME, METHOD_RESOLVE_CONFLICT, METHOD_SNAPSHOT,
};

#[test]
fn routes_by_method_name() {
    assert_eq!(route(METHOD_SNAPSHOT), Route::Snapshot);
    assert_eq!(route("status"), Route::Status);
    assert_eq!(route("activity"), Route::Activity);
    assert_eq!(route("sync_now"), Route::SyncNow);
    assert_eq!(route("pause"), Route::Pause);
    assert_eq!(route("resume"), Route::Resume);
    assert_eq!(route(METHOD_RESOLVE_CONFLICT), Route::ResolveConflict);
    assert_eq!(route("search"), Route::Unknown);
    assert_eq!(unknown_method("frobnicate"), "unknown method: frobnicate");
}

#[test]
fn resolution_names_round_trip() {
    for r in [Resolution::KeepLocal, Resolution::KeepRemote, Resolution::KeepBoth] {
        assert_eq!(Resolution::from_name(r.name()), Some(r));
    }
    assert_eq!(Resolution::KeepBoth.name(), "keep_both");
    assert_eq!(Resolution::from_name("KeepBoth"), None);
}

#[test]
fn resolve_conflict_arguments() {
    assert_eq!(resolve_args(None, Some("keep_local".to_string())), Err("missing 'key'".to_string()));
    assert_eq!(
        resolve_args(Some("a.txt".to_string()), Some("nope".to_string())),
        Err("missing/invalid 'resolution'".to_string())
    );
    assert_eq!(resolve_args(Some("a.txt".to_string()), None), Err("missing/invalid 'resolution'".to_string()));
    assert_eq!(
        resolve_args(Some("a.txt".to_string()), Some("keep_remote".to_string())),
        Ok(("a.txt".to_string(), Resolution::KeepRemote))
    );
}

#[test]
fn frames_are_length_prefixed_little_endian() {
    let f = frame(b"{}");
    assert_eq!(f, vec![2, 0, 0, 0, b'{', b'}']);
    assert_eq!(frame_header(0x0102_0304), [4, 3, 2, 1]);
    let h = frame_header(300);
    assert_eq!(body_len(h), Ok(300));
}

#[test]
fn oversized_frames_are_refused() {
    assert_eq!(MAX_FRAME, 64 * 1024 * 1024);
    assert_eq!(body_len(frame_header(64 * 1024 * 1024)), Ok(64 * 1024 * 1024));
    assert_eq!(body_len(frame_header(64 * 1024 * 1024 + 1)), Err(FrameError::TooLarge));
    assert_eq!(body_len([255, 255, 255, 255]), Err(FrameError::TooLarge));
}

#[test]
fn arg_values() {
    let args: Vec<String> = ["daemon", "--config", "/c.toml", "--socket=sock", "--journal"]
        .iter()
        .map(|s| s.to_string())
        .collect();
    assert_eq!(arg_value(&args, "--config"), Some("/c.toml".to_string()));
    assert_eq!(arg_value(&args, "--socket"), Some("sock".to_string()));
    assert_eq!(arg_value(&args, "--journal"), None);
    assert_eq!(arg_value(&args, "--missing"), None);
}

#[test]
fn account_names() {
    assert_eq!(SERVICE, "wunderdrive");
    assert_eq!(account_name("b", Some("https://s3.example.com")), "b@https://s3.example.com");
    assert_eq!(account_name("b", None), "b");
    assert_eq!(access_key_entry("b"), "b/access_key_id");
    assert_eq!(secret_key_entry("b"), "b/secret_access_key");
}

#[test]
fn credential_tiers() {
    let c = pair(Some("id".to_string()), Some("s".to_string()));
    assert_eq!(c, Some(Credentials { access_key_id: "id".to_string(), secret_access_key: "s".to_string() }));
    assert_eq!(pair(Some("id".to_string()), None), None);
    let e = env_credentials(None, Some("aws".to_string()), Some("own".to_string()), Some("aws2".to_string()));
    assert_eq!(e, Some(Credentials { access_key_id: "aws".to_string(), secret_access_key: "own".to_string() }));
    assert_eq!(env_credentials(Some("x".to_string()), None, None, None), None);
    assert_eq!(usable(Err(Error::Keyring("down".to_string()))), None);
    assert_eq!(usable(Ok(None)), None);
    assert_eq!(usable(Ok(c.clone())), c);
}

#[test]
fn keychain_lookups() {
    assert_eq!(lookup_result(Lookup::Found("k".to_string())), Ok(Some("k".to_string())));
    assert_eq!(lookup_result(Lookup::NoEntry), Ok(None));
    assert_eq!(lookup_result(Lookup::Failed("boom".to_string())), Err(Error::Keyring("boom".to_string())));
}

#[test]
fn credentials_file_mode_check() {
    assert_eq!(check_mode("/c", 0o600), Ok(()));
    assert_eq!(check_mode("/c", 0o400), Ok(()));
    match check_mode("/c.toml", 0o644) {
        Err(Error::Config(m)) => {
            assert!(m.contains("too permissive"));
            assert_eq!(
                m,
                "credentials file /c.toml is too permissive (mode 0644); expected 0600 or stricter. Run: chmod 600 /c.toml"
            );
        },
        other => panic!("expected permission error, got: {other:?}"),
    }
    assert_eq!(octal_padded(0o100644), "100644");
    assert_eq!(octal_padded(7), "0007");
}

fn creds(id: &str) -> Credentials {
    Credentials { access_key_id: id.to_string(), secret_access_key: "s".to_string() }
}

/// Runs the resolver over what each source gives.
fn resolve_over(found: [Option<Credentials>; 4]) -> (Option<Credentials>, Vec<Source>) {
    let mut read = Vec::new();
    let mut source = Source::Flags;
    loop {
        read.push(source);
        let i = match source {
            Source::Flags => 0,
            Source::Keychain => 1,
            Source::Environment => 2,
            Source::File => 3,
        };
        match resolve_step(source, found[i].clone()) {
            ResolveStep::Done(c) => return (c, read),
            ResolveStep::Read(n) => source = n,
        }
    }
}

#[test]
fn credentials_priority_order() {
    let (c, read) = resolve_over([Some(creds("cli")), Some(creds("kc")), None, Some(creds("file"))]);
    assert_eq!(c, Some(creds("cli")));
    assert_eq!(read, vec![Source::Flags]);
    let (c, read) = resolve_over([None, None, Some(creds("env")), Some(creds("file"))]);
    assert_eq!(c, Some(creds("env")));
    assert_eq!(read, vec![Source::Flags, Source::Keychain, Source::Environment]);
    let (c, read) = resolve_over([None, None, None, None]);
    assert_eq!(c, None);
    assert_eq!(read, vec![Source::Flags, Source::Keychain, Source::Environment, Source::File]);
    assert_eq!(resolve_step(Source::File, Some(creds("file"))), ResolveStep::Done(Some(creds("file"))));
}
