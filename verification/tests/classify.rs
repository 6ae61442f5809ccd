use io_reactor::classify::{
    classify_auth_class, classify_auth_handshake_error, classify_order_ack_auth,
    order_ack_default_authenticated_is_unrecognized, subscribe_rejection_is_transient,
    OrderAckAuth,
};
use io_reactor::types::AuthErrorKind;

#[test]
fn subscribe_rate_limit_rejection_is_transient() {
    for s in [
        "EGeneral:Too many requests",
        "EAPI:Rate limit exceeded",
        "EService:Throttled: 1700000000",
    ] {
        assert!(
            subscribe_rejection_is_transient(s),
            "rate-limit subscribe rejection should be transient: {s}"
        );
    }
}

#[test]
fn subscribe_non_rate_limit_rejection_is_permanent() {
    for s in [
        "EGeneral:Invalid arguments",
        "EQuery:Unknown asset pair",
        "subscribe rejected",
    ] {
        assert!(
            !subscribe_rejection_is_transient(s),
            "non-rate-limit subscribe rejection should be permanent: {s}"
        );
    }
}

#[test]
fn classify_token_stale_family() {
    assert_eq!(
        classify_auth_handshake_error("EAPI:Invalid token"),
        AuthErrorKind::TokenStale
    );
    assert_eq!(
        classify_auth_handshake_error("token expired"),
        AuthErrorKind::TokenStale
    );
    assert_eq!(
        classify_auth_handshake_error("auth token is stale"),
        AuthErrorKind::TokenStale
    );
}

#[test]
fn classify_invalid_session_is_token_stale() {
    // `ESession:Invalid session` carries no `token` marker and needs its own arm.
    assert_eq!(
        classify_auth_class("ESession:Invalid session"),
        Some(AuthErrorKind::TokenStale),
    );
    assert_eq!(
        classify_auth_handshake_error("ESession:Invalid session"),
        AuthErrorKind::TokenStale,
    );
    assert_eq!(classify_auth_class("some unrelated error"), None);
}

#[test]
fn classify_bad_creds_family() {
    assert_eq!(
        classify_auth_handshake_error("EAPI:Invalid key"),
        AuthErrorKind::BadCreds
    );
    assert_eq!(
        classify_auth_handshake_error("EAPI:Invalid signature"),
        AuthErrorKind::BadCreds
    );
    assert_eq!(
        classify_auth_handshake_error("EAPI:Permission denied"),
        AuthErrorKind::BadCreds
    );
}

#[test]
fn classify_permission_denied_egeneral() {
    assert_eq!(
        classify_auth_handshake_error("EGeneral:Permission denied"),
        AuthErrorKind::PermissionDenied
    );
}

#[test]
fn classify_unknown_defaults_transient() {
    assert_eq!(
        classify_auth_handshake_error("EService:Unavailable"),
        AuthErrorKind::Transient
    );
    assert_eq!(
        classify_auth_handshake_error("something totally unexpected"),
        AuthErrorKind::Transient
    );
}

#[test]
fn classify_broadened_novel_token_variants_are_token_stale() {
    for s in [
        "EAPI:Invalid token: expired",
        "auth token invalid",
        "WS token expiration reached",
    ] {
        assert_eq!(
            classify_auth_class(s),
            Some(AuthErrorKind::TokenStale),
            "novel token string should classify TokenStale: {s}"
        );
    }
}

#[test]
fn classify_broadened_novel_credential_variants_are_auth_class() {
    for s in [
        "EAuth:UnsupportedAuthMethod",
        "EAPI:Bad credentials",
        "Invalid signature for request",
    ] {
        assert_eq!(
            classify_auth_class(s),
            Some(AuthErrorKind::BadCreds),
            "novel credential string should classify BadCreds: {s}"
        );
    }
}

#[test]
fn classify_broadened_novel_permission_variants_are_auth_class() {
    for s in [
        "EAccess:Permission denied",
        "permission denied for this key",
    ] {
        assert_eq!(
            classify_auth_class(s),
            Some(AuthErrorKind::PermissionDenied),
            "novel permission string should classify PermissionDenied: {s}"
        );
    }
}

#[test]
fn classify_order_ack_novel_auth_string_fails_auth_not_authenticated() {
    // A novel auth-class string on success:false must classify AuthFailed: a bad
    // token cannot drive the connection to Open.
    for (s, expect) in [
        ("EAuth:UnsupportedAuthMethod", AuthErrorKind::BadCreds),
        ("EAPI:Invalid token: expired", AuthErrorKind::TokenStale),
        ("EAccess:Permission denied", AuthErrorKind::PermissionDenied),
    ] {
        match classify_order_ack_auth(false, Some(s)) {
            OrderAckAuth::AuthFailed(kind) => assert_eq!(
                kind, expect,
                "novel auth string {s} must be AuthFailed({expect:?})"
            ),
            OrderAckAuth::Authenticated => {
                panic!("novel auth string {s} defaulted to Authenticated")
            }
        }
    }
    assert!(matches!(
        classify_order_ack_auth(false, Some("EOrder:Insufficient funds")),
        OrderAckAuth::Authenticated
    ));
}

#[test]
fn classify_order_ack_novel_string_pins_authenticated() {
    assert!(matches!(
        classify_order_ack_auth(false, Some("some unrecognized text")),
        OrderAckAuth::Authenticated
    ));
}

#[test]
fn a_success_is_authenticated_whatever_it_says() {
    assert_eq!(
        classify_order_ack_auth(true, Some("EAPI:Invalid token")),
        OrderAckAuth::Authenticated
    );
    assert!(!order_ack_default_authenticated_is_unrecognized(true, None));
}

#[test]
fn only_texts_of_no_known_family_are_unrecognized() {
    assert!(order_ack_default_authenticated_is_unrecognized(false, None));
    assert!(order_ack_default_authenticated_is_unrecognized(false, Some("")));
    assert!(order_ack_default_authenticated_is_unrecognized(
        false,
        Some("novel text")
    ));
    assert!(!order_ack_default_authenticated_is_unrecognized(
        false,
        Some("EOrder:Insufficient funds")
    ));
    assert!(!order_ack_default_authenticated_is_unrecognized(
        false,
        Some("token expired")
    ));
}
