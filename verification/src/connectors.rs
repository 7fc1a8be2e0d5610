//! Device and stream connectors: their configurations, and the events they
//! turn incoming data into. The I/O loops that receive the data run outside
//! the library and hand it to these functions.

use vstd::prelude::*;
use crate::text::{str_chars, trim_chars, trim, string_push, push_decimal, decimal};
use crate::formats::{string_from_utf8_lossy, utf8_lossy};

verus! {

/// One piece of incoming data, labelled for the engine.
pub struct DataEvent {
    /// The kind of connector (`"serial"`, `"http-poll"`, ...).
    pub source: String,
    /// The device or endpoint it came from.
    pub device_id: String,
    /// The raw text or JSON payload.
    pub raw: String,
    /// The label given to documents made from it.
    pub label: String,
    /// Unix time in milliseconds.
    pub timestamp: u64,
}

/// A serial or USB port, e.g. `COM3` or `/dev/ttyUSB0`.
pub struct SerialConfig {
    pub port: String,
    pub baud: u32,
    pub label: String,
}

/// An HTTP endpoint polled every `interval_secs` seconds with the given headers.
pub struct HttpPollConfig {
    pub url: String,
    pub interval_secs: u64,
    pub label: String,
    pub headers: Vec<(String, String)>,
}

/// A WebSocket endpoint.
pub struct WsConfig {
    pub url: String,
    pub label: String,
}

/// An MQTT broker and topic.
pub struct MqttConfig {
    pub host: String,
    pub port: u16,
    pub client_id: String,
    pub topic: String,
    pub label: String,
}

/// A directory watched for new and modified files.
pub struct WatchConfig {
    pub path: String,
    pub label: String,
    pub recursive: bool,
}

/// The configuration of any connector.
pub enum ConnectorConfig {
    Serial(SerialConfig),
    HttpPoll(HttpPollConfig),
    WebSocket(WsConfig),
    Mqtt(MqttConfig),
    FileWatch(WatchConfig),
}

/// The state of a running connector.
pub struct ConnectorStatus {
    pub id: String,
    pub kind: String,
    pub target: String,
    pub active: bool,
    pub events: usize,
}

/// `e` carries exactly the given fields.
pub open spec fn event_fields(
    e: DataEvent,
    source: Seq<char>,
    device_id: Seq<char>,
    raw: Seq<char>,
    label: Seq<char>,
    timestamp: u64,
) -> bool {
    &&& e.source@ == source
    &&& e.device_id@ == device_id
    &&& e.raw@ == raw
    &&& e.label@ == label
    &&& e.timestamp == timestamp
}

/// The event of a line read from a serial port: the line trimmed, or nothing
/// when the trimmed line is empty.
pub fn serial_event(line: &str, cfg: &SerialConfig, timestamp: u64) -> (r: Option<DataEvent>)
    ensures
        trim(line@).len() == 0 <==> r is None,
        r matches Some(e) ==> event_fields(e, "serial"@, cfg.port@, trim(line@), cfg.label@, timestamp),
{
    let trimmed = trim_chars(&str_chars(line));
    if trimmed.as_str().is_empty() {
        None
    } else {
        Some(
            DataEvent {
                source: String::from_str("serial"),
                device_id: cfg.port.clone(),
                raw: trimmed,
                label: cfg.label.clone(),
                timestamp,
            },
        )
    }
}

/// The event of a response body fetched by HTTP polling.
pub fn http_poll_event(body: String, cfg: &HttpPollConfig, timestamp: u64) -> (e: DataEvent)
    ensures
        event_fields(e, "http-poll"@, cfg.url@, body@, cfg.label@, timestamp),
{
    DataEvent {
        source: String::from_str("http-poll"),
        device_id: cfg.url.clone(),
        raw: body,
        label: cfg.label.clone(),
        timestamp,
    }
}

/// The event of a text message received on a WebSocket.
pub fn websocket_event(text: String, cfg: &WsConfig, timestamp: u64) -> (e: DataEvent)
    ensures
        event_fields(e, "websocket"@, cfg.url@, text@, cfg.label@, timestamp),
{
    DataEvent {
        source: String::from_str("websocket"),
        device_id: cfg.url.clone(),
        raw: text,
        label: cfg.label.clone(),
        timestamp,
    }
}

/// The device id of an MQTT subscription: `host:port/topic`.
pub open spec fn mqtt_device(host: Seq<char>, port: u16, topic: Seq<char>) -> Seq<char> {
    host + seq![':'] + decimal(port as nat) + seq!['/'] + topic
}

/// The event of a message published on the subscribed MQTT topic: its payload
/// decoded as UTF-8 (invalid sequences replaced).
pub fn mqtt_event(payload: &[u8], cfg: &MqttConfig, timestamp: u64) -> (e: DataEvent)
    ensures
        event_fields(
            e,
            "mqtt"@,
            mqtt_device(cfg.host@, cfg.port, cfg.topic@),
            utf8_lossy(payload@),
            cfg.label@,
            timestamp,
        ),
{
    let mut device = cfg.host.clone();
    string_push(&mut device, ':');
    push_decimal(&mut device, cfg.port as u64);
    string_push(&mut device, '/');
    device.append(cfg.topic.as_str());
    assert(device@ =~= mqtt_device(cfg.host@, cfg.port, cfg.topic@));
    DataEvent {
        source: String::from_str("mqtt"),
        device_id: device,
        raw: string_from_utf8_lossy(payload),
        label: cfg.label.clone(),
        timestamp,
    }
}

/// The events of a file-system notification: for a creation or modification,
/// one event per path (its device id and payload both the path); none otherwise.
pub fn file_watch_events(created_or_modified: bool, paths: &Vec<String>, cfg: &WatchConfig, timestamp: u64) -> (r: Vec<DataEvent>)
    ensures
        !created_or_modified ==> r@.len() == 0,
        created_or_modified ==> r@.len() == paths@.len(),
        created_or_modified ==> forall|i: int|
            0 <= i < paths@.len() ==> event_fields(
                #[trigger] r@[i],
                "file-watch"@,
                paths@[i]@,
                paths@[i]@,
                cfg.label@,
                timestamp,
            ),
{
    let mut r: Vec<DataEvent> = Vec::new();
    if !created_or_modified {
        return r;
    }
    for i in 0..paths.len()
        invariant
            r@.len() == i,
            forall|j: int|
                0 <= j < i ==> event_fields(
                    #[trigger] r@[j],
                    "file-watch"@,
                    paths@[j]@,
                    paths@[j]@,
                    cfg.label@,
                    timestamp,
                ),
    {
        r.push(
            DataEvent {
                source: String::from_str("file-watch"),
                device_id: paths[i].clone(),
                raw: paths[i].clone(),
                label: cfg.label.clone(),
                timestamp,
            },
        );
    }
    r
}

} // verus!
