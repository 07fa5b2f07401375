use radio_client::addr::SockAddr;
use radio_client::model::ProxyInfo;
use radio_client::ui::{generate_ui, interpret_input, prepare_screen, render, UserInput};

fn entry(addr: SockAddr, info: &str, meta: &str) -> ProxyInfo {
    ProxyInfo {
        addr,
        info: info.to_string(),
        last_contact: 0,
        meta: meta.to_string(),
    }
}

#[test]
fn up_sequence_classifies_once() {
    let mut buf: Vec<u8> = Vec::new();
    assert!(matches!(interpret_input(&mut buf, 27), UserInput::Unrecognized()));
    assert!(matches!(interpret_input(&mut buf, 91), UserInput::Unrecognized()));
    assert!(matches!(interpret_input(&mut buf, 65), UserInput::Up()));
    // the window now starts with the completed sequence; the next byte
    // cannot complete anything
    assert!(matches!(interpret_input(&mut buf, 13), UserInput::Unrecognized()));
}

#[test]
fn down_sequence_classifies() {
    let mut buf: Vec<u8> = Vec::new();
    interpret_input(&mut buf, 27);
    interpret_input(&mut buf, 91);
    assert!(matches!(interpret_input(&mut buf, 66), UserInput::Down()));
}

#[test]
fn select_sequences_classify() {
    let mut buf: Vec<u8> = Vec::new();
    interpret_input(&mut buf, 13);
    assert!(matches!(interpret_input(&mut buf, 0), UserInput::Select()));
    let mut buf: Vec<u8> = Vec::new();
    interpret_input(&mut buf, 13);
    assert!(matches!(interpret_input(&mut buf, 10), UserInput::Select()));
}

#[test]
fn window_keeps_three_newest_bytes() {
    let mut buf: Vec<u8> = Vec::new();
    for b in [1u8, 2, 3, 4, 5] {
        interpret_input(&mut buf, b);
    }
    assert_eq!(buf, vec![5, 4, 3]);
}

#[test]
fn prepare_screen_bytes_are_the_negotiation_sequence() {
    assert_eq!(
        prepare_screen(),
        vec![255, 253, 34, 255, 250, 34, 1, 0, 255, 240, 255, 251, 1]
    );
}

#[test]
fn render_prefixes_clear_screen() {
    let bytes = render("abc");
    assert_eq!(bytes, vec![27, 91, 72, 27, 91, 50, 74, 97, 98, 99]);
}

#[test]
fn empty_menu_screen() {
    let proxies: Vec<ProxyInfo> = Vec::new();
    let screen = generate_ui(&proxies, &None, 0);
    assert_eq!(screen, "Szukaj pośrednika <-\r\nKoniec\r\n\r\n");
}

#[test]
fn menu_screen_with_proxies_and_active_star() {
    let a = SockAddr::new(10, 0, 0, 1, 4321);
    let b = SockAddr::new(10, 0, 0, 2, 4321);
    let proxies = vec![entry(a, "RadioA", "Song A"), entry(b, "RadioB", "Song B")];
    let screen = generate_ui(&proxies, &Some(b), 2);
    assert_eq!(
        screen,
        "Szukaj pośrednika\r\nPośrednik RadioA\r\nPośrednik RadioB * <-\r\nKoniec\r\nSong B\r\n"
    );
}

#[test]
fn menu_screen_without_active_has_empty_meta_row() {
    let a = SockAddr::new(192, 168, 0, 9, 1000);
    let proxies = vec![entry(a, "X", "M")];
    let screen = generate_ui(&proxies, &None, 2);
    assert_eq!(screen, "Szukaj pośrednika\r\nPośrednik X\r\nKoniec <-\r\n\r\n");
}
