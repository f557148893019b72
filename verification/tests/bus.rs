use sounding::bus::drain_screenshots;
use sounding::bus::handle_request;
use sounding::bus::json_string;
use sounding::bus::BusTelemetry;
use sounding::bus::Effect;
use sounding::bus::Reply;
use sounding::bus::HISTORY_CAP;

fn ring(items: &[&str]) -> BusTelemetry {
    let mut t = BusTelemetry::new();
    for s in items {
        t.publish(s.to_string());
    }
    t
}

fn route(method: &str, url: &str, refused: Option<&str>, telemetry: &BusTelemetry) -> Reply {
    let refused = refused.map(|s| s.to_string());
    handle_request(method, url, &refused, telemetry, "/tmp/shot.png")
}

#[test]
fn get_telemetry_returns_the_newest_snapshot() {
    let r = route("GET", "/telemetry", None, &ring(&[r#"{"t":1}"#, r#"{"t":2}"#]));
    assert_eq!(r.status, 200);
    assert_eq!(r.body, r#"{"t":2}"#);
}

#[test]
fn get_telemetry_is_empty_object_when_no_snapshots() {
    let r = route("GET", "/telemetry", None, &ring(&[]));
    assert_eq!(r.status, 200);
    assert_eq!(r.body, "{}");
}

#[test]
fn get_telemetry_history_is_a_json_array_oldest_first() {
    let r = route(
        "GET",
        "/telemetry/history",
        None,
        &ring(&[r#"{"t":1}"#, r#"{"t":2}"#, r#"{"t":3}"#]),
    );
    assert_eq!(r.status, 200);
    assert_eq!(r.body, r#"[{"t":1},{"t":2},{"t":3}]"#);
    let parsed: serde_json::Value = serde_json::from_str(&r.body).unwrap();
    assert_eq!(parsed.as_array().unwrap().len(), 3);
}

#[test]
fn get_telemetry_history_empty_is_empty_array() {
    let r = route("GET", "/telemetry/history", None, &ring(&[]));
    assert_eq!(r.status, 200);
    assert_eq!(r.body, "[]");
}

#[test]
fn get_screenshot_signals_capture_and_returns_the_path() {
    let r = route("GET", "/screenshot", None, &ring(&[]));
    assert_eq!(r.status, 200);
    assert_eq!(r.effect, Effect::Capture);
    let parsed: serde_json::Value = serde_json::from_str(&r.body).unwrap();
    assert_eq!(parsed["ok"], true);
    assert_eq!(parsed["path"], "/tmp/shot.png");
}

#[test]
fn post_valid_command_is_accepted_and_forwarded() {
    let r = route("POST", "/command", None, &ring(&[]));
    assert_eq!(r.status, 200);
    assert_eq!(r.effect, Effect::Forward);
}

#[test]
fn post_malformed_command_is_rejected() {
    let r = route("POST", "/command", Some("expected ident"), &ring(&[]));
    assert_eq!(r.status, 400);
    assert_eq!(r.effect, Effect::Nothing);
}

#[test]
fn unknown_route_is_404() {
    let r = route("GET", "/nope", None, &ring(&[]));
    assert_eq!(r.status, 404);
}

#[test]
fn the_history_keeps_the_recent_past() {
    let mut t = BusTelemetry::new();
    for i in 0..HISTORY_CAP + 5 {
        t.publish(format!("{i}"));
    }
    assert_eq!(t.len(), HISTORY_CAP);
    let r = route("GET", "/telemetry", None, &t);
    assert_eq!(r.body, format!("{}", HISTORY_CAP + 4));
    let h = route("GET", "/telemetry/history", None, &t);
    assert!(h.body.starts_with("[5,6,"));
}

#[test]
fn every_third_frame_is_published() {
    let mut t = BusTelemetry::new();
    let due: Vec<bool> = (0..6).map(|_| t.tick()).collect();
    assert_eq!(due.iter().filter(|d| **d).count(), 2);
}

#[test]
fn a_quoted_path_reads_back() {
    let path = r#"C:\shots\"now".png"#;
    let quoted = json_string(path);
    assert_eq!(quoted, r#""C:\\shots\\\"now\".png""#);
    let back: String = serde_json::from_str(&quoted).unwrap();
    assert_eq!(back, path);
}

#[test]
fn many_screenshot_requests_make_one_capture() {
    assert_eq!(drain_screenshots(0), 0);
    assert_eq!(drain_screenshots(1), 1);
    assert_eq!(drain_screenshots(7), 1);
}
