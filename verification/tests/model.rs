use radio_client::addr::SockAddr;
use radio_client::events::{EventModel, EventProxy, EventTelnet};
use radio_client::model::{Control, Model, Step};
use radio_client::proxy::{encode_outgoing, IncomingProxyMessage, OutgoingProxyMessage};

const NOW: u64 = 1_000_000;

fn addr_a() -> SockAddr {
    SockAddr::new(10, 0, 0, 1, 4321)
}

fn broadcast() -> SockAddr {
    SockAddr::new(255, 255, 255, 255, 16000)
}

fn telnet_bytes(step: &Step) -> Vec<Vec<u8>> {
    step.telnet_out
        .iter()
        .map(|e| match e {
            EventTelnet::Write(bytes) => bytes.clone(),
        })
        .collect()
}

fn screen_text(blob: &[u8]) -> String {
    // every paint starts with the 7-byte clear-screen sequence
    assert_eq!(&blob[..7], &[27, 91, 72, 27, 91, 50, 74]);
    String::from_utf8(blob[7..].to_vec()).unwrap()
}

fn deliver_iam(model: &mut Model, name: &str) -> Step {
    model.handle_event(
        EventModel::ProxyInput((addr_a(), IncomingProxyMessage::IAM(name.to_string()))),
        NOW,
    )
}

#[test]
fn s1_discover_round_trip() {
    let mut model = Model::new(23456);
    let first = model.handle_event(EventModel::UserInput(vec![13]), NOW);
    assert_eq!(first.proxy_out, vec![]);
    let second = model.handle_event(EventModel::UserInput(vec![0, 13]), NOW);
    assert_eq!(
        second.proxy_out,
        vec![EventProxy::Write(broadcast(), OutgoingProxyMessage::Discover())]
    );
    let EventProxy::Write(_, msg) = &second.proxy_out[0];
    assert_eq!(encode_outgoing(msg), vec![0x01, 0x00, 0x00, 0x00]);
}

#[test]
fn s2_first_contact() {
    let mut model = Model::new(23456);
    let step = deliver_iam(&mut model, "RadioA");
    assert_eq!(model.proxies.len(), 1);
    assert_eq!(model.proxies[0].addr, addr_a());
    assert_eq!(model.proxies[0].info, "RadioA");
    assert_eq!(model.proxies[0].meta, "");
    assert_eq!(model.proxies[0].last_contact, NOW);
    let paints = telnet_bytes(&step);
    assert_eq!(paints.len(), 1);
    assert!(screen_text(&paints[0]).contains("Pośrednik RadioA\r\n"));
}

#[test]
fn s3_metadata_extraction() {
    let mut model = Model::new(23456);
    deliver_iam(&mut model, "RadioA");
    let step = model.handle_event(
        EventModel::ProxyInput((
            addr_a(),
            IncomingProxyMessage::Metadata(b"StreamTitle='Song A';".to_vec()),
        )),
        NOW,
    );
    assert_eq!(model.proxies[0].meta, "Song A");
    assert_eq!(telnet_bytes(&step).len(), 1);
}

#[test]
fn s4_activation_and_audio() {
    let mut model = Model::new(23456);
    deliver_iam(&mut model, "RadioA");
    model.handle_event(EventModel::UserInput(vec![27, 91, 66]), NOW);
    assert_eq!(model.cursor_line, 1);
    model.handle_event(EventModel::UserInput(vec![13, 0]), NOW);
    assert_eq!(model.active_proxy, Some(addr_a()));
    let step = model.handle_event(
        EventModel::ProxyInput((addr_a(), IncomingProxyMessage::Audio(vec![1, 2, 3]))),
        NOW,
    );
    assert_eq!(step.audio_out, vec![0x01, 0x02, 0x03]);
    assert_eq!(step.telnet_out.len(), 0);
}

#[test]
fn s5_expiry() {
    let mut model = Model::new(23456);
    deliver_iam(&mut model, "RadioA");
    model.handle_event(EventModel::UserInput(vec![27, 91, 66]), NOW);
    model.handle_event(EventModel::UserInput(vec![13, 0]), NOW);
    model.proxies[0].last_contact = NOW - 6000;
    let step = model.handle_event(EventModel::Tick(), NOW);
    assert_eq!(model.proxies.len(), 0);
    // the active address is left dangling; later audio from it is ignored
    assert_eq!(model.active_proxy, Some(addr_a()));
    assert_eq!(telnet_bytes(&step).len(), 1);
    let audio = model.handle_event(
        EventModel::ProxyInput((addr_a(), IncomingProxyMessage::Audio(vec![7]))),
        NOW,
    );
    // the sender is readmitted as a fresh entry, but it is no longer the
    // entry that was activated, so nothing else changes
    assert_eq!(audio.audio_out, vec![7]);
}

#[test]
fn s6_quit() {
    let mut model = Model::new(23456);
    model.handle_event(EventModel::UserInput(vec![27, 91, 66]), NOW);
    assert_eq!(model.cursor_line, 1);
    let step = model.handle_event(EventModel::UserInput(vec![13, 0]), NOW);
    assert!(matches!(step.control, Control::Quit()));
    assert_eq!(step.telnet_out.len(), 0);
}

#[test]
fn tick_sends_one_keepalive_per_survivor() {
    let mut model = Model::new(23456);
    let fresh = SockAddr::new(10, 0, 0, 1, 1111);
    let stale = SockAddr::new(10, 0, 0, 2, 2222);
    let skewed = SockAddr::new(10, 0, 0, 3, 3333);
    for addr in [fresh, stale, skewed] {
        model.handle_event(
            EventModel::ProxyInput((addr, IncomingProxyMessage::Audio(vec![]))),
            NOW,
        );
    }
    model.proxies[1].last_contact = NOW - 6000;
    // a timestamp in the future (clock skew) keeps the entry alive
    model.proxies[2].last_contact = NOW + 10_000;
    let step = model.handle_event(EventModel::Tick(), NOW);
    assert_eq!(model.proxies.len(), 2);
    assert_eq!(model.proxies[0].addr, fresh);
    assert_eq!(model.proxies[1].addr, skewed);
    assert_eq!(
        step.proxy_out,
        vec![
            EventProxy::Write(fresh, OutgoingProxyMessage::KeepAlive()),
            EventProxy::Write(skewed, OutgoingProxyMessage::KeepAlive()),
        ]
    );
    // the count changed, so the screen is repainted
    assert_eq!(step.telnet_out.len(), 1);
    // a second tick removes nothing: keepalives again, but no repaint
    let second = model.handle_event(EventModel::Tick(), NOW);
    assert_eq!(second.proxy_out.len(), 2);
    assert_eq!(second.telnet_out.len(), 0);
}

#[test]
fn cursor_stays_on_menu_rows() {
    let mut model = Model::new(23456);
    // moving up from the first row stays on it
    model.handle_event(EventModel::UserInput(vec![27, 91, 65]), NOW);
    assert_eq!(model.cursor_line, 0);
    // with no proxies the last row is 1; extra downs are clamped
    for _ in 0..3 {
        model.handle_event(EventModel::UserInput(vec![27, 91, 66]), NOW);
    }
    assert_eq!(model.cursor_line, 1);
}

#[test]
fn select_toggles_active_proxy_off() {
    let mut model = Model::new(23456);
    deliver_iam(&mut model, "RadioA");
    model.handle_event(EventModel::UserInput(vec![27, 91, 66]), NOW);
    model.handle_event(EventModel::UserInput(vec![13, 0]), NOW);
    assert_eq!(model.active_proxy, Some(addr_a()));
    model.handle_event(EventModel::UserInput(vec![13, 0]), NOW);
    assert_eq!(model.active_proxy, None);
}

#[test]
fn new_connection_negotiates_then_paints() {
    let mut model = Model::new(23456);
    let step = model.handle_event(EventModel::NewTelnetConnection(), NOW);
    let blobs = telnet_bytes(&step);
    assert_eq!(blobs.len(), 2);
    assert_eq!(
        blobs[0],
        vec![255, 253, 34, 255, 250, 34, 1, 0, 255, 240, 255, 251, 1]
    );
    assert!(screen_text(&blobs[1]).starts_with("Szukaj pośrednika <-\r\n"));
}

#[test]
fn audio_from_inactive_proxy_is_dropped_but_entry_created() {
    let mut model = Model::new(23456);
    let step = model.handle_event(
        EventModel::ProxyInput((addr_a(), IncomingProxyMessage::Audio(vec![9, 9]))),
        NOW,
    );
    assert_eq!(step.audio_out, vec![]);
    assert_eq!(step.telnet_out.len(), 0);
    assert_eq!(model.proxies.len(), 1);
    assert_eq!(model.proxies[0].info, "");
}

#[test]
fn metadata_without_title_keeps_full_text() {
    let mut model = Model::new(23456);
    let step = model.handle_event(
        EventModel::ProxyInput((addr_a(), IncomingProxyMessage::Metadata(b"hello world".to_vec()))),
        NOW,
    );
    assert_eq!(model.proxies[0].meta, "hello world");
    assert_eq!(step.logs, Vec::<String>::new());
}

#[test]
fn empty_metadata_is_ignored() {
    let mut model = Model::new(23456);
    deliver_iam(&mut model, "RadioA");
    model.handle_event(
        EventModel::ProxyInput((
            addr_a(),
            IncomingProxyMessage::Metadata(b"StreamTitle='Song A';".to_vec()),
        )),
        NOW,
    );
    let step = model.handle_event(
        EventModel::ProxyInput((addr_a(), IncomingProxyMessage::Metadata(Vec::new()))),
        NOW,
    );
    assert_eq!(model.proxies[0].meta, "Song A");
    assert_eq!(step.logs, Vec::<String>::new());
    assert_eq!(step.telnet_out.len(), 1);
}

#[test]
fn invalid_metadata_is_logged_and_meta_unchanged() {
    let mut model = Model::new(23456);
    deliver_iam(&mut model, "RadioA");
    let step = model.handle_event(
        EventModel::ProxyInput((addr_a(), IncomingProxyMessage::Metadata(vec![0xff, 0xfe]))),
        NOW,
    );
    assert_eq!(model.proxies[0].meta, "");
    assert_eq!(step.logs, vec!["could not parse metadata".to_string()]);
}

#[test]
fn worker_crashes_are_fatal() {
    let mut model = Model::new(23456);
    let step = model.handle_event(
        EventModel::ProxyServerCrashed("bind failed".to_string()),
        NOW,
    );
    match step.control {
        Control::Fatal(message) => assert_eq!(message, "proxy server crashed\nbind failed"),
        _ => panic!("expected a fatal control"),
    }
    let step = model.handle_event(
        EventModel::TelnetServerCrashed("no port".to_string()),
        NOW,
    );
    match step.control {
        Control::Fatal(message) => assert_eq!(message, "telnet server crashed\nno port"),
        _ => panic!("expected a fatal control"),
    }
}

#[test]
fn repeated_datagrams_refresh_last_contact() {
    let mut model = Model::new(23456);
    deliver_iam(&mut model, "RadioA");
    let step = model.handle_event(
        EventModel::ProxyInput((addr_a(), IncomingProxyMessage::IAM("RadioA2".to_string()))),
        NOW + 500,
    );
    assert_eq!(model.proxies.len(), 1);
    assert_eq!(model.proxies[0].info, "RadioA2");
    assert_eq!(model.proxies[0].last_contact, NOW + 500);
    assert_eq!(telnet_bytes(&step).len(), 1);
}
