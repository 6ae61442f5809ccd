//! What the error texts of the exchange mean for authentication and for retrying.

use crate::host::{said, Link, Log, Reply, Request};
use crate::notes::Note;
use crate::text::{contains, has_substring};
use crate::types::AuthErrorKind;
use vstd::prelude::*;

verus! {

/// Whether an error text says that the token is no longer good.
pub open spec fn says_token_stale(err: Seq<char>) -> bool {
    ||| has_substring(err, "EAPI:Invalid token"@)
    ||| has_substring(err, "ESession:Invalid session"@)
    ||| has_substring(err, "token"@) && (has_substring(err, "stale"@) || has_substring(
        err,
        "expired"@,
    ) || has_substring(err, "expir"@) || has_substring(err, "Invalid"@) || has_substring(
        err,
        "invalid"@,
    ))
}

/// Whether an error text denies a permission.
pub open spec fn says_permission_denied(err: Seq<char>) -> bool {
    ||| has_substring(err, "Permission denied"@)
    ||| has_substring(err, "permission denied"@)
    ||| has_substring(err, "EGeneral:Permission"@)
}

/// Whether an error text rejects the credentials.
pub open spec fn says_bad_creds(err: Seq<char>) -> bool {
    ||| has_substring(err, "EAPI:Invalid"@)
    ||| has_substring(err, "EAuth:"@)
    ||| has_substring(err, "EAPI:Bad"@)
    ||| has_substring(err, "Invalid key"@)
    ||| has_substring(err, "Invalid signature"@)
}

/// The authentication failure that an error text stands for, if it stands for
/// one. A stale token comes before everything else; the permission error of the
/// key API is about the credentials.
pub open spec fn auth_class(err: Seq<char>) -> Option<AuthErrorKind> {
    if says_token_stale(err) {
        Some(AuthErrorKind::TokenStale)
    } else if has_substring(err, "EAPI:Permission denied"@) {
        Some(AuthErrorKind::BadCreds)
    } else if says_permission_denied(err) {
        Some(AuthErrorKind::PermissionDenied)
    } else if says_bad_creds(err) {
        Some(AuthErrorKind::BadCreds)
    } else {
        None
    }
}

/// Classifies an error text as an authentication failure, if it is one.
pub fn classify_auth_class(err: &str) -> (kind: Option<AuthErrorKind>)
    ensures
        kind == auth_class(err@),
{
    if contains(err, "EAPI:Invalid token") || contains(err, "ESession:Invalid session") || (
    contains(err, "token") && (contains(err, "stale") || contains(err, "expired") || contains(
        err,
        "expir",
    ) || contains(err, "Invalid") || contains(err, "invalid"))) {
        return Some(AuthErrorKind::TokenStale);
    }
    if contains(err, "EAPI:Permission denied") {
        return Some(AuthErrorKind::BadCreds);
    }
    if contains(err, "Permission denied") || contains(err, "permission denied") || contains(
        err,
        "EGeneral:Permission",
    ) {
        return Some(AuthErrorKind::PermissionDenied);
    }
    if contains(err, "EAPI:Invalid") || contains(err, "EAuth:") || contains(err, "EAPI:Bad")
        || contains(err, "Invalid key") || contains(err, "Invalid signature") {
        return Some(AuthErrorKind::BadCreds);
    }
    None
}

/// The kind of a failed handshake: a text that is no authentication failure is
/// transient.
pub open spec fn handshake_error(err: Seq<char>) -> AuthErrorKind {
    match auth_class(err) {
        Some(kind) => kind,
        None => AuthErrorKind::Transient,
    }
}

/// Classifies the error text of a failed handshake.
pub fn classify_auth_handshake_error(err: &str) -> (kind: AuthErrorKind)
    ensures
        kind == handshake_error(err@),
{
    match classify_auth_class(err) {
        Some(kind) => kind,
        None => AuthErrorKind::Transient,
    }
}

/// What an order acknowledgement says of the token, whatever became of the order.
#[derive(Clone, Copy, PartialEq, Eq, Structural, Debug)]
pub enum OrderAckAuth {
    /// The token was accepted: the order went through, or was refused for another
    /// reason.
    Authenticated,
    /// The token was refused.
    AuthFailed(AuthErrorKind),
}

/// The characters of an optional text.
pub open spec fn opt_view(text: Option<&str>) -> Option<Seq<char>> {
    match text {
        Some(text) => Some(text@),
        None => None,
    }
}

/// What an order acknowledgement says of the token. An error that is no
/// authentication failure means that the token was accepted.
pub open spec fn order_ack_auth(success: bool, err: Option<Seq<char>>) -> OrderAckAuth {
    if success {
        OrderAckAuth::Authenticated
    } else {
        match err {
            Some(err) => match auth_class(err) {
                Some(kind) => OrderAckAuth::AuthFailed(kind),
                None => OrderAckAuth::Authenticated,
            },
            None => OrderAckAuth::Authenticated,
        }
    }
}

/// Classifies an order acknowledgement.
pub fn classify_order_ack_auth(success: bool, err: Option<&str>) -> (auth: OrderAckAuth)
    ensures
        auth == order_ack_auth(success, opt_view(err)),
{
    if success {
        return OrderAckAuth::Authenticated;
    }
    match err {
        Some(err) => match classify_auth_class(err) {
            Some(kind) => OrderAckAuth::AuthFailed(kind),
            None => OrderAckAuth::Authenticated,
        },
        None => OrderAckAuth::Authenticated,
    }
}

/// Whether a failed acknowledgement counts as authenticated only because its text
/// is unknown: there is none, or it does not begin with an `E` as the texts of the
/// exchange do.
pub open spec fn order_ack_unrecognized(success: bool, err: Option<Seq<char>>) -> bool {
    !success && match err {
        Some(err) => auth_class(err) is None && !(err.len() > 0 && err[0] == 'E'),
        None => true,
    }
}

/// Whether the default of [`classify_order_ack_auth`] fires on an unknown text.
pub fn order_ack_default_authenticated_is_unrecognized(success: bool, err: Option<&str>) -> (
    unrecognized: bool)
    ensures
        unrecognized == order_ack_unrecognized(success, opt_view(err)),
{
    if success {
        return false;
    }
    match err {
        Some(err) => {
            if classify_auth_class(err).is_some() {
                false
            } else {
                err.is_empty() || err.get_char(0) != 'E'
            }
        },
        None => true,
    }
}

/// The characters of an optional string.
pub open spec fn opt_string(text: Option<String>) -> Option<Seq<char>> {
    match text {
        Some(text) => Some(text@),
        None => None,
    }
}

/// The requests of an order acknowledgement with the text `err`; `told` is the text as
/// the warning tells it.
pub open spec fn order_ack_warned_log(
    log: Log,
    success: bool,
    err: Option<Seq<char>>,
    told: Option<String>,
) -> Log {
    if order_ack_unrecognized(success, err) {
        said(log, Note::OrderErrorUnknown { error: told })
    } else {
        log
    }
}

/// Classifies an order acknowledgement, with one warning if its text is unknown.
pub fn classify_order_ack_warned<F: Fn(Request) -> Reply>(
    host: &mut Link<F>,
    success: bool,
    err: Option<&str>,
) -> (auth: OrderAckAuth)
    ensures
        auth == order_ack_auth(success, opt_view(err)),
        exists|told: Option<String>|
            {
                &&& final(host).log() == #[trigger] order_ack_warned_log(
                    old(host).log(),
                    success,
                    opt_view(err),
                    told,
                )
                &&& order_ack_unrecognized(success, opt_view(err)) ==> opt_string(told)
                    == opt_view(err)
            },
{
    let ghost before = host.log();
    if order_ack_default_authenticated_is_unrecognized(success, err) {
        let error: Option<String> = match err {
            Some(err) => Some(err.to_owned()),
            None => None,
        };
        let ghost told = error;
        host.say(Note::OrderErrorUnknown { error });
        proof {
            assert(host.log() == order_ack_warned_log(before, success, opt_view(err), told));
        }
    } else {
        proof {
            assert(host.log() == order_ack_warned_log(before, success, opt_view(err), None));
        }
    }
    classify_order_ack_auth(success, err)
}

/// Whether an error text is a rate limit.
pub open spec fn says_rate_limited(err: Seq<char>) -> bool {
    ||| has_substring(err, "EGeneral:Too many requests"@)
    ||| has_substring(err, "EAPI:Rate limit exceeded"@)
    ||| has_substring(err, "EService:Throttled"@)
}

/// Whether a rejected subscribe may be retried: only a rate limit passes.
pub fn subscribe_rejection_is_transient(err: &str) -> (transient: bool)
    ensures
        transient == says_rate_limited(err@),
{
    contains(err, "EGeneral:Too many requests") || contains(err, "EAPI:Rate limit exceeded")
        || contains(err, "EService:Throttled")
}

/// A successful acknowledgement never counts as a refused token, whatever text
/// it carries.
pub proof fn success_is_authenticated(err: Option<Seq<char>>)
    ensures
        order_ack_auth(true, err) == OrderAckAuth::Authenticated,
        !order_ack_unrecognized(true, err),
{
}

/// A failed acknowledgement with an authentication error never counts as
/// authenticated, so that a bad token cannot open the connection.
pub proof fn auth_error_is_never_authenticated(err: Seq<char>)
    requires
        auth_class(err) is Some,
    ensures
        order_ack_auth(false, Some(err)) == OrderAckAuth::AuthFailed(auth_class(err)->Some_0),
        !order_ack_unrecognized(false, Some(err)),
{
}

/// The two classifiers differ only in what an unknown text means: transient for a
/// handshake, authenticated for an order.
pub proof fn classifiers_agree(err: Seq<char>)
    ensures
        match order_ack_auth(false, Some(err)) {
            OrderAckAuth::AuthFailed(kind) => handshake_error(err) == kind && kind
                != AuthErrorKind::Transient,
            OrderAckAuth::Authenticated => handshake_error(err) == AuthErrorKind::Transient,
        },
{
}

/// A text that names a stale token is a stale token, whatever else it says.
pub proof fn stale_token_comes_first(err: Seq<char>)
    requires
        says_token_stale(err),
    ensures
        handshake_error(err) == AuthErrorKind::TokenStale,
        order_ack_auth(false, Some(err)) == OrderAckAuth::AuthFailed(AuthErrorKind::TokenStale),
{
}

/// What an error text says of authentication is decided in one order: a stale token, by
/// its own codes or by naming a token that is stale, expired or invalid; then the
/// credentials, where the key API denies a permission; then a permission that is denied;
/// then the credentials, by the codes and words that reject them. Any other text says
/// nothing of it.
pub proof fn an_error_text_is_classified_in_order(err: Seq<char>)
    ensures
        ({
            let stale = has_substring(err, "EAPI:Invalid token"@) || has_substring(
                err,
                "ESession:Invalid session"@,
            ) || has_substring(err, "token"@) && (has_substring(err, "stale"@) || has_substring(
                err,
                "expired"@,
            ) || has_substring(err, "expir"@) || has_substring(err, "Invalid"@) || has_substring(
                err,
                "invalid"@,
            ));
            let key_denied = has_substring(err, "EAPI:Permission denied"@);
            let denied = has_substring(err, "Permission denied"@) || has_substring(
                err,
                "permission denied"@,
            ) || has_substring(err, "EGeneral:Permission"@);
            let rejected = has_substring(err, "EAPI:Invalid"@) || has_substring(err, "EAuth:"@)
                || has_substring(err, "EAPI:Bad"@) || has_substring(err, "Invalid key"@)
                || has_substring(err, "Invalid signature"@);
            &&& auth_class(err) == Some(AuthErrorKind::TokenStale) <==> stale
            &&& auth_class(err) == Some(AuthErrorKind::PermissionDenied) <==> !stale && !key_denied
                && denied
            &&& auth_class(err) == Some(AuthErrorKind::BadCreds) <==> !stale && (key_denied
                || !denied && rejected)
            &&& auth_class(err) is None <==> !stale && !key_denied && !denied && !rejected
            &&& auth_class(err) != Some(AuthErrorKind::Transient)
        }),
{
}

/// Only the texts of a rate limit say that a subscribe may be tried again.
pub proof fn a_rate_limit_is_one_of_three(err: Seq<char>)
    ensures
        says_rate_limited(err) <==> (has_substring(err, "EGeneral:Too many requests"@)
            || has_substring(err, "EAPI:Rate limit exceeded"@) || has_substring(
            err,
            "EService:Throttled"@,
        )),
{
}

/// A failed order is warned about, with its own words, exactly when nothing tells what
/// they mean: there are none, or they are no authentication failure and do not begin as
/// the codes of the exchange do.
pub proof fn an_unknown_order_error_is_warned_about(
    log: Log,
    success: bool,
    err: Option<Seq<char>>,
    told: Option<String>,
)
    ensures
        ({
            let after = order_ack_warned_log(log, success, err, told);
            let known = match err {
                Some(err) => auth_class(err) is Some || err.len() > 0 && err[0] == 'E',
                None => false,
            };
            after == if success || known {
                log
            } else {
                log.push((Request::Say(Note::OrderErrorUnknown { error: told }), Reply::Done))
            }
        }),
{
}

} // verus!
