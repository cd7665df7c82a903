//! What the messages mean that the system sends to the window.
use vstd::prelude::*;

use crate::app::UiOutcome;
use crate::plugin::ShellCommand;
use crate::window::{self, is_outside, point_of, wheel, Area};

verus! {

pub const WM_DESTROY: u32 = 0x0002;

pub const WM_ACTIVATE: u32 = 0x0006;

pub const WM_PAINT: u32 = 0x000F;

pub const WM_ERASEBKGND: u32 = 0x0014;

pub const WM_KEYDOWN: u32 = 0x0100;

pub const WM_CHAR: u32 = 0x0102;

pub const WM_COMMAND: u32 = 0x0111;

pub const WM_TIMER: u32 = 0x0113;

pub const WM_MOUSEMOVE: u32 = 0x0200;

pub const WM_LBUTTONDOWN: u32 = 0x0201;

pub const WM_LBUTTONUP: u32 = 0x0202;

pub const WM_RBUTTONDOWN: u32 = 0x0204;

pub const WM_RBUTTONUP: u32 = 0x0205;

pub const WM_MBUTTONDOWN: u32 = 0x0207;

pub const WM_MOUSEWHEEL: u32 = 0x020A;

pub const WM_XBUTTONDOWN: u32 = 0x020B;

pub const WM_HOTKEY: u32 = 0x0312;

/// Sent by the keyboard hook when the chord is pressed.
pub const WM_APP_TOGGLE: u32 = 0x8001;

/// Sent by either hook when something happens outside the window.
pub const WM_APP_DISMISS: u32 = 0x8002;

/// Sent by the tray icon, with what the mouse did to it.
pub const WM_APP_TRAY: u32 = 0x8003;

pub const CARET_TIMER_ID: u64 = 1;

/// Drives the summon animation.
pub const ANIM_TIMER_ID: u64 = 2;

pub const HOTKEY_ID: u64 = 1;

// Commands of the tray icon's menu.
pub const IDM_OPEN: u64 = 1;

pub const IDM_RELOAD: u64 = 2;

pub const IDM_CONFIG: u64 = 3;

pub const IDM_QUIT: u64 = 4;

/// What a message asks for.
#[derive(Clone, Copy, PartialEq, Eq, Structural)]
pub enum Message {
    Toggle,
    TrayMenu,
    Show,
    Reload,
    OpenConfig,
    Quit,
    /// To go away, unless something speaks against it.
    Dismiss,
    /// A key was pressed.
    Key(u32),
    /// A UTF-16 unit was typed.
    Typed(u16),
    BlinkCaret,
    Animate,
    Paint,
    /// The mouse is at a point, both its coordinates in one word.
    MouseAt(u32),
    /// The mouse was clicked at a point.
    Click(u32),
    /// The wheel was turned; tenths to scroll back by.
    Scroll(i64),
    EraseBackground,
    Destroy,
    /// It is meant for the window, and there is nothing to do.
    Nothing,
    /// The system deals with it.
    Other,
}

/// The low sixteen bits.
pub open spec fn low16(n: u64) -> int {
    (n % 0x1_0000) as int
}

/// The low thirty-two bits.
pub open spec fn low32(n: u64) -> int {
    (n % 0x1_0000_0000) as int
}

/// A click on the tray icon, or what was picked from its menu.
pub open spec fn tray_message(mouse: int) -> Message {
    if mouse == WM_LBUTTONUP {
        Message::Toggle
    } else if mouse == WM_RBUTTONUP {
        Message::TrayMenu
    } else {
        Message::Nothing
    }
}

pub open spec fn menu_message(id: int) -> Message {
    if id == IDM_OPEN {
        Message::Show
    } else if id == IDM_RELOAD {
        Message::Reload
    } else if id == IDM_CONFIG {
        Message::OpenConfig
    } else if id == IDM_QUIT {
        Message::Quit
    } else {
        Message::Nothing
    }
}

/// What a turn of the wheel asks for: the turn is the upper half of a word.
pub open spec fn wheel_message(word: int, m: Message) -> bool {
    m matches Message::Scroll(by) && by * 120 == window::signed(word / 0x1_0000)
        * (crate::render::ROW_H * 10 * 3)
}

/// `m` is what a message with its two parameters asks for.
pub open spec fn asks(msg: u32, wparam: u64, lparam: u64, m: Message) -> bool {
    if msg == WM_APP_TOGGLE {
        m == Message::Toggle
    } else if msg == WM_HOTKEY && low32(wparam) == HOTKEY_ID {
        m == Message::Toggle
    } else if msg == WM_APP_TRAY {
        m == tray_message(low32(lparam))
    } else if msg == WM_COMMAND {
        m == menu_message(low16(wparam))
    } else if msg == WM_APP_DISMISS {
        m == Message::Dismiss
    } else if msg == WM_KEYDOWN {
        m == Message::Key(low16(wparam) as u32)
    } else if msg == WM_CHAR {
        m == Message::Typed(low16(wparam) as u16)
    } else if msg == WM_TIMER && wparam == CARET_TIMER_ID {
        m == Message::BlinkCaret
    } else if msg == WM_TIMER && wparam == ANIM_TIMER_ID {
        m == Message::Animate
    } else if msg == WM_PAINT {
        m == Message::Paint
    } else if msg == WM_MOUSEMOVE {
        m == Message::MouseAt(low32(lparam) as u32)
    } else if msg == WM_LBUTTONUP {
        m == Message::Click(low32(lparam) as u32)
    } else if msg == WM_MOUSEWHEEL {
        wheel_message(low32(wparam), m)
    } else if msg == WM_ERASEBKGND {
        m == Message::EraseBackground
    } else if msg == WM_ACTIVATE {
        // Deactivated: the user turned elsewhere.
        m == if low16(wparam) == 0 {
            Message::Dismiss
        } else {
            Message::Nothing
        }
    } else if msg == WM_DESTROY {
        m == Message::Destroy
    } else {
        m == Message::Other
    }
}

fn from_tray(mouse: u32) -> (r: Message)
    ensures
        r == tray_message(mouse as int),
{
    match mouse {
        WM_LBUTTONUP => Message::Toggle,
        WM_RBUTTONUP => Message::TrayMenu,
        _ => Message::Nothing,
    }
}

fn from_menu(id: u64) -> (r: Message)
    ensures
        r == menu_message(id as int),
{
    match id {
        IDM_OPEN => Message::Show,
        IDM_RELOAD => Message::Reload,
        IDM_CONFIG => Message::OpenConfig,
        IDM_QUIT => Message::Quit,
        _ => Message::Nothing,
    }
}

/// What a message asks for.
pub fn on_message(msg: u32, wparam: u64, lparam: u64) -> (r: Message)
    ensures
        asks(msg, wparam, lparam, r),
{
    let w16: u64 = wparam % 0x1_0000;
    let w32: u64 = wparam % 0x1_0000_0000;
    let l32: u64 = lparam % 0x1_0000_0000;
    match msg {
        WM_APP_TOGGLE => Message::Toggle,
        WM_HOTKEY => if w32 == HOTKEY_ID {
            Message::Toggle
        } else {
            Message::Other
        },
        WM_APP_TRAY => from_tray(l32 as u32),
        WM_COMMAND => from_menu(w16),
        WM_APP_DISMISS => Message::Dismiss,
        WM_KEYDOWN => Message::Key(w16 as u32),
        WM_CHAR => Message::Typed(w16 as u16),
        WM_TIMER => if wparam == CARET_TIMER_ID {
            Message::BlinkCaret
        } else if wparam == ANIM_TIMER_ID {
            Message::Animate
        } else {
            Message::Other
        },
        WM_PAINT => Message::Paint,
        WM_MOUSEMOVE => Message::MouseAt(l32 as u32),
        WM_LBUTTONUP => Message::Click(l32 as u32),
        WM_MOUSEWHEEL => Message::Scroll(wheel(point_of(w32 as u32).1)),
        WM_ERASEBKGND => Message::EraseBackground,
        WM_ACTIVATE => if w16 == 0 {
            Message::Dismiss
        } else {
            Message::Nothing
        },
        WM_DESTROY => Message::Destroy,
        _ => Message::Other,
    }
}

/// A mouse button was pressed.
pub open spec fn is_press(msg: u32) -> bool {
    msg == WM_LBUTTONDOWN || msg == WM_RBUTTONDOWN || msg == WM_MBUTTONDOWN || msg
        == WM_XBUTTONDOWN
}

/// Whether something the mouse did anywhere on the screen sends the window
/// away: a button pressed outside of it, whichever window is active.
pub fn mouse_hook(msg: u32, area: Area, x: i32, y: i32) -> (r: bool)
    ensures
        r == (is_press(msg) && !(area.left <= x < area.right && area.top <= y < area.bottom)),
{
    match msg {
        WM_LBUTTONDOWN | WM_RBUTTONDOWN | WM_MBUTTONDOWN | WM_XBUTTONDOWN => is_outside(area, x, y),
        _ => false,
    }
}

/// What the window does next.
#[derive(Clone, Copy, PartialEq, Eq, Structural)]
pub enum Step {
    Repaint,
    Hide,
    Quit,
    Restart,
    /// Show or hide the tray icon, and go away.
    ToggleTray,
}

/// What the window does after an action. Some commands are done by then, and
/// only show.
pub open spec fn step_after(outcome: UiOutcome) -> Step {
    match outcome {
        UiOutcome::Hide => Step::Hide,
        UiOutcome::Stay => Step::Repaint,
        UiOutcome::Shell(c) => match c {
            ShellCommand::Quit => Step::Quit,
            ShellCommand::Restart => Step::Restart,
            ShellCommand::ToggleTray => Step::ToggleTray,
            _ => Step::Repaint,
        },
    }
}

pub fn settle(outcome: UiOutcome) -> (r: Step)
    ensures
        r == step_after(outcome),
{
    match outcome {
        UiOutcome::Hide => Step::Hide,
        UiOutcome::Stay => Step::Repaint,
        UiOutcome::Shell(ShellCommand::Quit) => Step::Quit,
        UiOutcome::Shell(ShellCommand::Restart) => Step::Restart,
        UiOutcome::Shell(ShellCommand::ToggleTray) => Step::ToggleTray,
        UiOutcome::Shell(_) => Step::Repaint,
    }
}

/// There is one answer to what a message asks for.
pub proof fn law_a_message_asks_for_one_thing(
    msg: u32,
    wparam: u64,
    lparam: u64,
    a: Message,
    b: Message,
)
    requires
        asks(msg, wparam, lparam, a),
        asks(msg, wparam, lparam, b),
    ensures
        a == b,
{
}

/// Of all messages only the menu of the tray icon asks to quit; only the chord,
/// the hotkey and the tray icon toggle; and only the hooks and the loss of the
/// focus dismiss.
pub proof fn law_few_messages_end_anything(msg: u32, wparam: u64, lparam: u64, m: Message)
    requires
        asks(msg, wparam, lparam, m),
    ensures
        m is Quit ==> msg == WM_COMMAND,
        m is Toggle ==> msg == WM_APP_TOGGLE || msg == WM_HOTKEY || msg == WM_APP_TRAY,
        m is Dismiss ==> msg == WM_APP_DISMISS || msg == WM_ACTIVATE,
{
}

} // verus!
