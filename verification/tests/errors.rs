use cross_core::auth::is_valid;
use cross_core::auth::Bearer;
use cross_core::errors::status_code;
use cross_core::errors::ErrorKind;
use cross_core::errors::ItemError;
use cross_core::errors::SubscriberError;

#[test]
fn error_constructors_carry_their_kind() {
    assert_eq!(SubscriberError::new(ErrorKind::NoIdentity).kind, ErrorKind::NoIdentity);
    assert_eq!(
        SubscriberError::new(ErrorKind::SubscriberNotFound).kind,
        ErrorKind::SubscriberNotFound
    );
    assert_eq!(ItemError::new(ErrorKind::InvalidCategory).kind, ErrorKind::InvalidCategory);
    assert_eq!(ItemError::new(ErrorKind::ItemsNotFound).kind, ErrorKind::ItemsNotFound);
}

#[test]
fn error_kinds_map_to_their_statuses() {
    assert_eq!(status_code(ErrorKind::NoIdentity), 401);
    assert_eq!(status_code(ErrorKind::AuthenticationFailed), 401);
    assert_eq!(status_code(ErrorKind::SubscriberNotFound), 404);
    assert_eq!(status_code(ErrorKind::UnknownFriend), 404);
    assert_eq!(status_code(ErrorKind::FriendNotFound), 404);
    assert_eq!(status_code(ErrorKind::ProfileNotFound), 404);
    assert_eq!(status_code(ErrorKind::ItemsNotFound), 404);
    assert_eq!(status_code(ErrorKind::InvalidCategory), 422);
    assert_eq!(status_code(ErrorKind::StoreUnavailable), 503);
}

#[test]
fn every_api_key_is_accepted() {
    assert!(is_valid("Bearer abc"));
    assert!(is_valid(""));
    let bearer = Bearer("token".to_string());
    assert!(is_valid(&bearer.0));
}
