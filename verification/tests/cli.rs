//! What the command lines mean.
use lnms_invoice::cli::{command, database_flag, force_flag, token_target, typed_token, Command};
use lnms_invoice::store::Store;
use lnms_invoice::{Error, VERSION};

fn words(w: &[&str]) -> Vec<String> {
    w.iter().map(|s| s.to_string()).collect()
}

#[test]
fn commands() {
    assert_eq!(command(""), Command::Status);
    assert_eq!(command("status"), Command::Status);
    assert_eq!(command("serve"), Command::Serve);
    assert_eq!(command("-V"), Command::Version);
    assert_eq!(command("--help"), Command::Help);
    assert_eq!(command("dance"), Command::Unknown);
    assert_eq!(VERSION, "0.6.3");
}

#[test]
fn a_run_can_be_forced() {
    assert_eq!(force_flag(&words(&[])), Ok(false));
    assert_eq!(force_flag(&words(&["--force"])), Ok(true));
    assert_eq!(force_flag(&words(&["--force", "--fast"])), Err("--fast".to_string()));
}

#[test]
fn an_audit_can_be_kept() {
    assert_eq!(database_flag(&words(&["a", "--db", "x.db", "--db", "y.db"])).as_deref(), Some("x.db"));
    assert_eq!(database_flag(&words(&["a", "--db"])), None);
    assert_eq!(database_flag(&words(&["a"])), None);
}

#[test]
fn tokens_are_typed() {
    assert_eq!(typed_token("  abc\n").as_deref(), Some("abc"));
    assert_eq!(typed_token(" \n"), None);
}

#[test]
fn a_token_is_for_a_server_in_use() {
    let mut s = Store::new();
    let id = s.insert_libre_nms_instance("main", "u", b"", "now").unwrap();
    assert_eq!(token_target(&s, "main").unwrap().id, id);
    assert!(token_target(&s, "other").is_none());
    s.set_librenms_instance_active(id, false);
    assert!(token_target(&s, "main").is_none());
}

#[test]
fn errors_say_what_they_are_about() {
    let m = || "m".to_string();
    let said: Vec<String> = [
        Error::Config(m()),
        Error::Io(m()),
        Error::Toml(m()),
        Error::Env(m()),
        Error::Database(m()),
        Error::LibreNms(m()),
        Error::Template(m()),
        Error::NotImplemented(m()),
        Error::NotFound(m()),
        Error::InvalidTransition(m()),
        Error::AlreadyExists(m()),
        Error::Internal(m()),
    ]
    .iter()
    .map(|e| e.message())
    .collect();
    assert_eq!(
        said,
        vec![
            "config error: m",
            "io error: m",
            "toml parse error: m",
            "env var error: m",
            "database error: m",
            "librenms api error: m",
            "template error: m",
            "not implemented yet: m",
            "not found: m",
            "invalid state transition: m",
            "already exists: m",
            "internal: m",
        ]
    );
}
