use omitfs::gui::{
    react, server_arguments, window_url, DesktopEvent, WindowAction, OMITFS_PORT, STARTUP_MILLIS,
};

fn menu(item: &str) -> WindowAction {
    react(&DesktopEvent::Menu { item: item.into() })
}

#[test]
fn the_hotkey_toggles_the_window() {
    assert_eq!(react(&DesktopEvent::Hotkey { visible: true }), WindowAction::Hide);
    assert_eq!(react(&DesktopEvent::Hotkey { visible: false }), WindowAction::Show);
}

#[test]
fn the_left_button_toggles_the_window() {
    let click = |left: bool, visible: bool| react(&DesktopEvent::TrayClick { left, visible });
    assert_eq!(click(true, true), WindowAction::Hide);
    assert_eq!(click(true, false), WindowAction::Show);
    assert_eq!(click(false, true), WindowAction::Nothing);
    assert_eq!(click(false, false), WindowAction::Nothing);
}

#[test]
fn the_menu_shows_the_window_or_ends_the_program() {
    assert_eq!(menu("show"), WindowAction::Show);
    assert_eq!(menu("quit"), WindowAction::Quit);
    assert_eq!(menu("Show"), WindowAction::Nothing);
    assert_eq!(menu(""), WindowAction::Nothing);
}

#[test]
fn closing_hides_the_window() {
    assert_eq!(react(&DesktopEvent::CloseRequested), WindowAction::Hide);
}

#[test]
fn the_window_looks_at_its_server() {
    assert_eq!(OMITFS_PORT, 3031);
    assert_eq!(STARTUP_MILLIS, 800);
    assert_eq!(server_arguments(), ["serve", "--port", "3031"]);
    assert_eq!(window_url(), "http://localhost:3031");
}
