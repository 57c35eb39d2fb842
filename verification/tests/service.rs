use contest_engine::config::{parse_port, AppConfig, GoogleOAuthConfig, DEFAULT_PORT};
use contest_engine::error::{AppError, ErrorKind};
use contest_engine::identity::display_name;
use contest_engine::market::PriceCandle;
use contest_engine::replay::{ReplayAction, ReplayEvent, ReplaySession, ReplayTick};

fn oauth() -> GoogleOAuthConfig {
    GoogleOAuthConfig {
        client_id: "id".to_string(),
        client_secret: "secret".to_string(),
        redirect_url: "http://localhost/cb".to_string(),
    }
}

fn candle(bucket: i64, close: i64) -> PriceCandle {
    PriceCandle { asset: 1, bucket, open: close, high: close, low: close, close, volume: None }
}

#[test]
fn error_responses_follow_the_taxonomy() {
    let cases = [
        (AppError::Unauthorized, 401, "UNAUTHORIZED", "Authentication failed"),
        (AppError::NotFound, 404, "NOT_FOUND", "Resource not found"),
        (AppError::Validation("bad sum".to_string()), 400, "VALIDATION_ERROR", "bad sum"),
        (AppError::Conflict("locked".to_string()), 409, "CONFLICT", "locked"),
        (AppError::PaymentRequired("poor".to_string()), 402, "PAYMENT_REQUIRED", "poor"),
        (AppError::Forbidden("late".to_string()), 403, "FORBIDDEN", "late"),
        (AppError::Internal, 500, "INTERNAL_ERROR", "Internal server error"),
    ];
    for (e, status, code, message) in cases {
        assert_eq!(e.kind().status(), status);
        assert_eq!(e.kind().code(), code);
        assert_eq!(e.message(), message);
        let r = e.into_response();
        assert_eq!((r.status, r.error.as_str(), r.message.as_str()), (status, code, message));
    }
}

#[test]
fn error_kinds_match_variants() {
    assert_eq!(AppError::Unauthorized.kind(), ErrorKind::Unauthorized);
    assert_eq!(AppError::NotFound.kind(), ErrorKind::NotFound);
    assert_eq!(AppError::Validation(String::new()).kind(), ErrorKind::Validation);
    assert_eq!(AppError::Conflict(String::new()).kind(), ErrorKind::Conflict);
    assert_eq!(AppError::PaymentRequired(String::new()).kind(), ErrorKind::PaymentRequired);
    assert_eq!(AppError::Forbidden(String::new()).kind(), ErrorKind::Forbidden);
    assert_eq!(AppError::Internal.kind(), ErrorKind::Internal);
}

#[test]
fn parse_port_reads_decimal_digits() {
    assert_eq!(parse_port("3000"), Some(3000));
    assert_eq!(parse_port("0"), Some(0));
    assert_eq!(parse_port("0080"), Some(80));
    assert_eq!(parse_port("65535"), Some(65535));
    assert_eq!(parse_port("65536"), None);
    assert_eq!(parse_port("99999999999999999999"), None);
    assert_eq!(parse_port(""), None);
    assert_eq!(parse_port("80a"), None);
    assert_eq!(parse_port("-1"), None);
    assert_eq!(parse_port(" 80"), None);
    assert_eq!(parse_port("８０"), None);
}

#[test]
fn config_uses_defaults_where_nothing_is_set() {
    let c = AppConfig::assemble("postgres://db".to_string(), None, oauth(), "s".to_string(), None)
        .unwrap();
    assert_eq!(c.port, 3000);
    assert_eq!(DEFAULT_PORT, 3000);
    assert_eq!(c.frontend_url, "http://localhost:5173");
    assert_eq!(c.database_url, "postgres://db");
    assert_eq!(c.session_secret, "s");
    assert_eq!(c.google_oauth.client_id, "id");
}

#[test]
fn config_takes_what_is_set() {
    let c = AppConfig::assemble(
        "postgres://db".to_string(),
        Some("8080".to_string()),
        oauth(),
        "s".to_string(),
        Some("https://app.example".to_string()),
    )
    .unwrap();
    assert_eq!(c.port, 8080);
    assert_eq!(c.frontend_url, "https://app.example");
}

#[test]
fn config_refuses_a_port_that_is_no_number() {
    let err = AppConfig::assemble(
        "postgres://db".to_string(),
        Some("http".to_string()),
        oauth(),
        "s".to_string(),
        None,
    )
    .unwrap_err();
    assert_eq!(err.kind(), ErrorKind::Validation);
}

#[test]
fn replay_sends_the_window_in_order_then_closes() {
    let mut s = ReplaySession::new(&vec![candle(0, 10), candle(60, 20), candle(120, 30)]);
    let mut sent = Vec::new();
    loop {
        match s.step(ReplayEvent::Ready) {
            ReplayAction::Send(t) => sent.push(t),
            ReplayAction::Close => break,
        }
    }
    assert_eq!(
        sent,
        vec![
            ReplayTick { timestamp: 0, price: 10 },
            ReplayTick { timestamp: 60, price: 20 },
            ReplayTick { timestamp: 120, price: 30 },
        ]
    );
    assert_eq!(s.step(ReplayEvent::Ready), ReplayAction::Close);
}

#[test]
fn replay_stops_after_a_failed_send() {
    let mut s = ReplaySession::new(&vec![candle(0, 10), candle(60, 20)]);
    assert_eq!(
        s.step(ReplayEvent::Ready),
        ReplayAction::Send(ReplayTick { timestamp: 0, price: 10 })
    );
    assert_eq!(s.step(ReplayEvent::SendFailed), ReplayAction::Close);
    assert_eq!(s.step(ReplayEvent::Ready), ReplayAction::Close);
}

#[test]
fn replay_of_an_empty_window_closes_at_once() {
    let mut s = ReplaySession::new(&vec![]);
    assert_eq!(s.step(ReplayEvent::Ready), ReplayAction::Close);
}

#[test]
fn display_name_is_the_given_name_or_the_local_part() {
    assert_eq!(display_name(Some("Ada".to_string()), "ada@example.org"), "Ada");
    assert_eq!(display_name(None, "ada@example.org"), "ada");
    assert_eq!(display_name(None, "a@b@c"), "a");
    assert_eq!(display_name(None, "no-at-sign"), "no-at-sign");
    assert_eq!(display_name(None, "@example.org"), "");
    assert_eq!(display_name(None, ""), "");
    assert_eq!(display_name(None, "zoë@example.org"), "zoë");
    assert_eq!(display_name(Some(String::new()), "ada@example.org"), "");
}
