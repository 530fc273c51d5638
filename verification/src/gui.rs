//! The desktop window: when it is shown and hidden, and which server it looks at.
use vstd::prelude::*;

use crate::text::{concat2, decimal, numeral, str_eq, texts};

verus! {

/// The port of the server that the window looks at.
pub const OMITFS_PORT: u16 = 3031;

/// For how many milliseconds the server is given time to start.
pub const STARTUP_MILLIS: u64 = 800;

/// What is done to the window.
#[derive(Clone, Copy, PartialEq, Eq, Structural, Debug)]
pub enum WindowAction {
    Hide,
    /// Shown, and given the focus.
    Show,
    Nothing,
    /// The program ends.
    Quit,
}

/// What happens at the desktop.
#[derive(Debug)]
pub enum DesktopEvent {
    /// The hotkey was pressed while the window was visible or not.
    Hotkey { visible: bool },
    /// The tray icon was clicked, with the left button or another, while the window was visible or
    /// not.
    TrayClick { left: bool, visible: bool },
    /// The menu item of this name was chosen.
    Menu { item: String },
    /// The window was asked to close.
    CloseRequested,
}

/// What is done when the window is toggled.
pub open spec fn toggled(visible: bool) -> WindowAction {
    if visible {
        WindowAction::Hide
    } else {
        WindowAction::Show
    }
}

/// What an event does to the window: the hotkey and the left button toggle it, the menu shows it
/// or ends the program, and closing only hides it.
pub open spec fn reaction(event: DesktopEvent) -> WindowAction {
    match event {
        DesktopEvent::Hotkey { visible } => toggled(visible),
        DesktopEvent::TrayClick { left, visible } => if left {
            toggled(visible)
        } else {
            WindowAction::Nothing
        },
        DesktopEvent::Menu { item } => if item@ == "show"@ {
            WindowAction::Show
        } else if item@ == "quit"@ {
            WindowAction::Quit
        } else {
            WindowAction::Nothing
        },
        DesktopEvent::CloseRequested => WindowAction::Hide,
    }
}

/// Decides what an event does to the window.
pub fn react(event: &DesktopEvent) -> (r: WindowAction)
    ensures
        r == reaction(*event),
{
    match event {
        DesktopEvent::Hotkey { visible } => if *visible {
            WindowAction::Hide
        } else {
            WindowAction::Show
        },
        DesktopEvent::TrayClick { left, visible } => if !*left {
            WindowAction::Nothing
        } else if *visible {
            WindowAction::Hide
        } else {
            WindowAction::Show
        },
        DesktopEvent::Menu { item } => if str_eq(item.as_str(), "show") {
            WindowAction::Show
        } else if str_eq(item.as_str(), "quit") {
            WindowAction::Quit
        } else {
            WindowAction::Nothing
        },
        DesktopEvent::CloseRequested => WindowAction::Hide,
    }
}

/// Whether the window is visible after something was done to it.
pub open spec fn visible_after(visible: bool, action: WindowAction) -> bool {
    match action {
        WindowAction::Hide => false,
        WindowAction::Show => true,
        _ => visible,
    }
}

/// Pressing the hotkey twice leaves the window as it was, and closing it never ends the program.
pub proof fn law_hotkey_toggles(visible: bool)
    ensures
        ({
            let once = visible_after(visible, reaction(DesktopEvent::Hotkey { visible }));
            visible_after(once, reaction(DesktopEvent::Hotkey { visible: once })) == visible
                && once != visible
        }),
        reaction(DesktopEvent::CloseRequested) == WindowAction::Hide,
{
}

/// What the server is started with.
pub fn server_arguments() -> (r: Vec<String>)
    ensures
        texts(r@) == seq!["serve"@, "--port"@, numeral(OMITFS_PORT as nat)],
        texts(r@) == seq!["serve"@, "--port"@, numeral(3031)],
{
    let mut out: Vec<String> = Vec::new();
    out.push("serve".to_owned());
    out.push("--port".to_owned());
    out.push(decimal(OMITFS_PORT as u64));
    assert(texts(out@) =~= seq!["serve"@, "--port"@, numeral(OMITFS_PORT as nat)]);
    out
}

/// The address that the window looks at.
pub fn window_url() -> (r: String)
    ensures
        r@ == "http://localhost:"@ + numeral(OMITFS_PORT as nat),
        r@ == "http://localhost:"@ + numeral(3031),
{
    concat2("http://localhost:", decimal(OMITFS_PORT as u64).as_str())
}

/// The hotkey and the left button show a hidden window and hide a visible one, and another button
/// does nothing. Of the menu, one item shows the window and one ends the program, and nothing else
/// does either.
pub proof fn law_events_do_one_thing(visible: bool, item: String)
    ensures
        reaction(DesktopEvent::Hotkey { visible: true }) == WindowAction::Hide,
        reaction(DesktopEvent::Hotkey { visible: false }) == WindowAction::Show,
        reaction(DesktopEvent::TrayClick { left: true, visible: true }) == WindowAction::Hide,
        reaction(DesktopEvent::TrayClick { left: true, visible: false }) == WindowAction::Show,
        reaction(DesktopEvent::TrayClick { left: false, visible }) == WindowAction::Nothing,
        reaction(DesktopEvent::Menu { item }) == WindowAction::Show <==> item@ == "show"@,
        reaction(DesktopEvent::Menu { item }) == WindowAction::Quit <==> item@ == "quit"@,
        item@ != "show"@ && item@ != "quit"@ ==> reaction(DesktopEvent::Menu { item })
            == WindowAction::Nothing,
        reaction(DesktopEvent::CloseRequested) == WindowAction::Hide,
{
    reveal_strlit("show");
    reveal_strlit("quit");
    assert("show"@[0] == 's' && "quit"@[0] == 'q');
}

} // verus!
