use hera::connectors::{
    file_watch_events, http_poll_event, mqtt_event, serial_event, websocket_event, ConnectorConfig,
    ConnectorStatus, DataEvent, HttpPollConfig, MqttConfig, SerialConfig, WatchConfig, WsConfig,
};

fn check(e: &DataEvent, source: &str, device: &str, raw: &str, label: &str, ts: u64) {
    assert_eq!(e.source, source);
    assert_eq!(e.device_id, device);
    assert_eq!(e.raw, raw);
    assert_eq!(e.label, label);
    assert_eq!(e.timestamp, ts);
}

#[test]
fn serial_lines_are_trimmed() {
    let cfg = SerialConfig { port: "COM3".to_string(), baud: 9600, label: "temp".to_string() };
    match serial_event("  23.5 C\r\n", &cfg, 7) {
        Some(e) => check(&e, "serial", "COM3", "23.5 C", "temp", 7),
        None => panic!("expected an event"),
    }
}

#[test]
fn blank_serial_lines_are_dropped() {
    let cfg = SerialConfig { port: "/dev/ttyUSB0".to_string(), baud: 115200, label: "x".to_string() };
    assert!(serial_event(" \r\n", &cfg, 1).is_none());
    assert!(serial_event("", &cfg, 1).is_none());
}

#[test]
fn http_poll_events_carry_the_body() {
    let cfg = HttpPollConfig {
        url: "http://sensor.local/api".to_string(),
        interval_secs: 5,
        label: "api".to_string(),
        headers: vec![("Accept".to_string(), "application/json".to_string())],
    };
    let e = http_poll_event("{\"t\": 1}".to_string(), &cfg, 99);
    check(&e, "http-poll", "http://sensor.local/api", "{\"t\": 1}", "api", 99);
}

#[test]
fn websocket_events_carry_the_message() {
    let cfg = WsConfig { url: "ws://feed".to_string(), label: "feed".to_string() };
    let e = websocket_event("tick".to_string(), &cfg, 3);
    check(&e, "websocket", "ws://feed", "tick", "feed", 3);
}

#[test]
fn mqtt_events_name_host_port_and_topic() {
    let cfg = MqttConfig {
        host: "broker".to_string(),
        port: 1883,
        client_id: "hera".to_string(),
        topic: "sensors/t".to_string(),
        label: "mqtt".to_string(),
    };
    let e = mqtt_event(b"hi\xff", &cfg, 12);
    check(&e, "mqtt", "broker:1883/sensors/t", "hi\u{FFFD}", "mqtt", 12);
}

#[test]
fn file_watch_events_for_changes_only() {
    let cfg = WatchConfig { path: "/data".to_string(), label: "files".to_string(), recursive: true };
    let paths = vec!["/data/a.txt".to_string(), "/data/b.csv".to_string()];
    let r = file_watch_events(true, &paths, &cfg, 5);
    assert_eq!(r.len(), 2);
    check(&r[0], "file-watch", "/data/a.txt", "/data/a.txt", "files", 5);
    check(&r[1], "file-watch", "/data/b.csv", "/data/b.csv", "files", 5);
    assert!(file_watch_events(false, &paths, &cfg, 5).is_empty());
}

#[test]
fn configurations_and_status_hold_their_fields() {
    let c = ConnectorConfig::FileWatch(WatchConfig {
        path: "/in".to_string(),
        label: "in".to_string(),
        recursive: false,
    });
    match c {
        ConnectorConfig::FileWatch(w) => assert_eq!(w.path, "/in"),
        _ => panic!("wrong variant"),
    }
    let s = ConnectorStatus {
        id: "c1".to_string(),
        kind: "mqtt".to_string(),
        target: "broker:1883".to_string(),
        active: true,
        events: 4,
    };
    assert!(s.active);
    assert_eq!(s.events, 4);
}
