use rust_overflow::errors::{internal_error, ErrorKind};
use rust_overflow::models::{Login, NewUser, User};
use rust_overflow::store::Store;

#[test]
fn register_returns_fresh_ids_in_order() {
    let mut store = Store::new();
    let a = store.register("alice".to_string(), "wonder".to_string()).unwrap();
    let b = store.register("bob".to_string(), "builder".to_string()).unwrap();
    assert_eq!(a.id, 1);
    assert_eq!(a.username, "alice");
    assert_eq!(b.id, 2);
    assert_eq!(b.username, "bob");
}

#[test]
fn duplicate_username_is_rejected_without_side_effects() {
    let mut store = Store::new();
    let first = store.register("alice".to_string(), "one".to_string()).unwrap();
    assert_eq!(first.id, 1);

    let second = store.register("alice".to_string(), "two".to_string());
    let err = second.unwrap_err();
    assert_eq!(err.kind, ErrorKind::Validation);
    assert_eq!(err.message, "Username already exists");

    // exactly one such user remains, and it is the first one: its
    // password is still the first one, and the next id is still 2
    let login = store.login("alice".to_string(), "one".to_string()).unwrap();
    assert_eq!(login.id, 1);
    assert!(store.login("alice".to_string(), "two".to_string()).is_err());
    let third = store.register("carol".to_string(), "pw".to_string()).unwrap();
    assert_eq!(third.id, 2);
}

#[test]
fn login_with_correct_credentials_returns_registered_id() {
    let mut store = Store::new();
    let registered = store.register("dave".to_string(), "secret".to_string()).unwrap();
    let login = store.login("dave".to_string(), "secret".to_string()).unwrap();
    assert_eq!(login.id, registered.id);
    assert_eq!(login.username, "dave");
}

#[test]
fn login_with_wrong_password_is_unauthorized() {
    let mut store = Store::new();
    store.register("erin".to_string(), "right".to_string()).unwrap();
    let err = store.login("erin".to_string(), "wrong".to_string()).unwrap_err();
    assert_eq!(err.kind, ErrorKind::Unauthorized);
    assert_eq!(err.message, "wrong password");
}

#[test]
fn login_with_unknown_username_is_a_lookup_failure() {
    let store = Store::new();
    let err = store.login("nobody".to_string(), "pw".to_string()).unwrap_err();
    assert_eq!(err.kind, ErrorKind::NotFound);
    assert_eq!(err.message, "Record not found");
}

#[test]
fn new_user_hashes_the_password() {
    let user = NewUser::create("frank".to_string(), "hunter2".to_string()).unwrap();
    assert_eq!(user.username, "frank");
    // the stored credential is a sixty-character bcrypt hash, not the
    // cleartext
    assert_ne!(user.password, "hunter2");
    assert_eq!(user.password.len(), 60);
    assert!(user.password.starts_with("$2b$"));
    assert!(bcrypt::verify("hunter2", &user.password).unwrap());
    assert!(!bcrypt::verify("hunter3", &user.password).unwrap());
}

#[test]
fn login_projection_drops_the_hash() {
    let user = User { id: 7, username: "grace".to_string(), password: "$2b$x".to_string() };
    let login = Login::from(user);
    assert_eq!(login.id, 7);
    assert_eq!(login.username, "grace");
}

#[test]
fn internal_error_hides_the_cause() {
    let err = internal_error("connection reset");
    assert_eq!(err.kind, ErrorKind::Internal);
    assert_eq!(err.message, "Database error");
}
