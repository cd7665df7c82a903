//! What holds of keys, the hotkey, the mouse and the messages of the system.
use vstd::prelude::*;

use crate::app::UiOutcome;
use crate::editor::{Edit, Motion};
use crate::messages::{self, Message, Step};
use crate::plugin::ShellCommand;
use crate::text;
use crate::window::{self, Area, Command, Held, HookStep, KeyEvent, ModeKind, Toggle};

verus! {

// ---- keys --------------------------------------------------------------------------------------

/// The move through what is listed: the list, the panel, or the lines of a
/// form.
pub open spec fn step_of(c: Command, kind: ModeKind) -> Option<i32> {
    match (c, kind) {
        (Command::MoveSelection(d), ModeKind::Search) => Some(d),
        (Command::MovePanel(d), ModeKind::Actions) => Some(d),
        (Command::MoveFocus(d), ModeKind::Form) => Some(d),
        _ => None,
    }
}

/// Down moves one on and Up one back in everything that lists lines, whatever
/// else is held down. In a line of text they do nothing. In a form Tab moves on
/// and Shift+Tab back. No other key moves through what is listed.
pub proof fn law_arrows_move_through_what_is_listed(
    kind: ModeKind,
    key: u32,
    ctrl: bool,
    shift: bool,
)
    ensures
        !(kind is TextInput) ==> step_of(
            window::command_for(kind, window::VK_DOWN, ctrl, shift),
            kind,
        ) == Some(1i32),
        !(kind is TextInput) ==> step_of(
            window::command_for(kind, window::VK_UP, ctrl, shift),
            kind,
        ) == Some(-1i32),
        kind is TextInput ==> window::command_for(kind, window::VK_DOWN, ctrl, shift)
            == Command::Nothing && window::command_for(kind, window::VK_UP, ctrl, shift)
            == Command::Nothing,
        kind is Form ==> step_of(window::command_for(kind, window::VK_TAB, ctrl, shift), kind)
            == Some(
            if shift {
                -1i32
            } else {
                1i32
            },
        ),
        step_of(window::command_for(kind, key, ctrl, shift), kind) is Some ==> key == 0x28 || key
            == 0x26 || (kind is Form && key == 0x09),
        window::VK_DOWN == 0x28 && window::VK_UP == 0x26 && window::VK_TAB == 0x09,
{
}

/// The caret follows the arrows, Home and End in every mode: Control goes by
/// words, Shift selects. No other key moves it.
pub proof fn law_the_caret_follows_its_keys(kind: ModeKind, key: u32, ctrl: bool, shift: bool)
    ensures
        key == 0x25 ==> window::command_for(kind, key, ctrl, shift) == (Command::MoveCaret {
            motion: Motion::Left,
            word: ctrl,
            select: shift,
        }),
        key == 0x27 ==> window::command_for(kind, key, ctrl, shift) == (Command::MoveCaret {
            motion: Motion::Right,
            word: ctrl,
            select: shift,
        }),
        key == 0x24 ==> window::command_for(kind, key, ctrl, shift) == (Command::MoveCaret {
            motion: Motion::Home,
            word: ctrl,
            select: shift,
        }),
        key == 0x23 ==> window::command_for(kind, key, ctrl, shift) == (Command::MoveCaret {
            motion: Motion::End,
            word: ctrl,
            select: shift,
        }),
        window::command_for(kind, key, ctrl, shift) is MoveCaret ==> 0x23 <= key <= 0x25 || key
            == 0x27,
{
}

/// The keys that mean one thing wherever they are pressed: Control+Q quits,
/// Control+V and Shift+Insert paste, Control+C and Control+Insert copy,
/// Control+X and Shift+Delete cut, Delete deletes, by words with Control, and
/// Control+A selects everything. Nothing else does any of it.
pub proof fn law_keys_of_every_mode(kind: ModeKind, key: u32, ctrl: bool, shift: bool)
    ensures
        ({
            let c = window::command_for(kind, key, ctrl, shift);
            &&& c == Command::Quit <==> key == 0x51 && ctrl
            &&& c == Command::Paste <==> key == 0x56 && ctrl || key == 0x2D && shift
            &&& c == Command::Copy <==> key == 0x43 && ctrl || key == 0x2D && ctrl && !shift
            &&& c == Command::Cut <==> key == 0x58 && ctrl || key == 0x2E && shift
            &&& c is Delete <==> key == 0x2E && !shift
            &&& c == (Command::Delete { word: true }) <==> key == 0x2E && !shift && ctrl
            &&& c == Command::SelectAll <==> key == 0x41 && ctrl
        }),
{
}

/// Control+K opens the actions panel of the list and closes it again; Escape
/// hides the list and closes everything else; Enter confirms. Each of these is
/// to be had by these keys alone.
pub proof fn law_keys_of_one_mode(kind: ModeKind, key: u32, ctrl: bool, shift: bool)
    ensures
        ({
            let c = window::command_for(kind, key, ctrl, shift);
            &&& c == Command::OpenActions <==> kind is Search && key == 0x4B && ctrl
            &&& c == Command::Hide <==> kind is Search && key == 0x1B
            &&& c == Command::ClosePanel <==> !(kind is Search) && key == 0x1B || kind is Actions
                && key == 0x4B && ctrl
            &&& c == Command::Activate <==> kind is Search && key == 0x0D
            &&& c == Command::RunAction <==> kind is Actions && key == 0x0D
            &&& c == Command::SubmitText <==> kind is TextInput && key == 0x0D
            &&& c == Command::SubmitForm <==> kind is Form && key == 0x0D
        }),
{
}

/// Everything from the space up is typed as it is, but for the code of
/// Control+Backspace; Backspace deletes one character, with Control a word; and
/// no other control code edits anything.
pub proof fn law_what_is_typed(unit: u16)
    ensures
        unit >= 0x20 && unit != 0x7F ==> window::typed(unit) == Some(Edit::Char(unit)),
        window::typed(unit) == Some(Edit::Backspace { word: false }) <==> unit == 8,
        window::typed(unit) == Some(Edit::Backspace { word: true }) <==> unit == 127,
        window::typed(unit) is None <==> unit < 0x20 && unit != 8,
{
}

// ---- the hotkey --------------------------------------------------------------------------------

/// The modifiers of a hotkey as a number: Alt counts one, Control two, Shift
/// four and the Windows key eight.
pub open spec fn counted(held: Held) -> u32 {
    let alt: int = if held.alt {
        1
    } else {
        0
    };
    let ctrl: int = if held.ctrl {
        2
    } else {
        0
    };
    let shift: int = if held.shift {
        4
    } else {
        0
    };
    let win: int = if held.win {
        8
    } else {
        0
    };
    (alt + ctrl + shift + win) as u32
}

/// A chord is pressed with its own modifiers and no others.
pub proof fn law_a_chord_takes_its_own_modifiers(wanted: Held, held: Held)
    ensures
        window::held_exactly(counted(wanted), held) <==> wanted == held,
{
    let m = counted(wanted);
    assert(m & 1 == m % 2) by (bit_vector);
    assert((m & 2) / 2 == m / 2 % 2) by (bit_vector);
    assert((m & 4) / 4 == m / 4 % 2) by (bit_vector);
    assert((m & 8) / 8 == m / 8 % 2) by (bit_vector);
    assert(m & 2 == 0 || m & 2 == 2) by (bit_vector);
    assert(m & 4 == 0 || m & 4 == 4) by (bit_vector);
    assert(m & 8 == 0 || m & 8 == 8) by (bit_vector);
}

/// Only a key that goes elsewhere while the window is shown dismisses it, and
/// every such key does, the modifiers aside: Shift, Control, Alt and the
/// Windows key, left or right, by the low half of their numbers. The chord
/// itself never does.
pub proof fn law_keys_that_go_elsewhere_dismiss(
    e: KeyEvent,
    hotkey: u32,
    mods: u32,
    latched: bool,
)
    ensures
        ({
            let r = window::hook_step(e, hotkey, mods, latched);
            let code = e.key % 0x1_0000;
            let modifier = code == 0x10 || code == 0x11 || code == 0x12 || code == 0x5B || code
                == 0x5C || 0xA0 <= code <= 0xA5;
            let chord = e.key == hotkey && e.down && window::held_exactly(mods, e.held);
            &&& r.dismiss <==> e.down && e.visible && !e.front && !modifier && !chord
            &&& r.swallow <==> chord
            &&& r.toggle <==> chord && !latched
            &&& r.latched <==> chord || (latched && e.key != hotkey)
        }),
{
}

/// The hotkey shows a window that is hidden, hides one that is being typed
/// into, and else brings it to the front.
pub proof fn law_the_hotkey_shows_and_hides(visible: bool, front: bool)
    ensures
        window::toggled(visible, front) is Show <==> !visible,
        window::toggled(visible, front) is Hide <==> visible && front,
        window::toggled(visible, front) is Focus <==> visible && !front,
{
}

/// A window stays for a quarter of a second after it was summoned, and never
/// goes away by itself while it is hidden, coming up or going away.
pub proof fn law_a_window_goes_away_by_itself(
    visible: bool,
    busy: bool,
    summoned: u64,
    now: u64,
)
    requires
        summoned <= now,
        now < u64::MAX,
    ensures
        window::dismissible(visible, busy, now, window::guard(summoned)) <==> visible && !busy
            && now - summoned >= 250,
{
}

// ---- the mouse ---------------------------------------------------------------------------------

/// A point is inside exactly if it is neither left nor right of the area, nor
/// above or below it.
pub proof fn law_points_inside_and_outside(area: Area, x: int, y: int)
    ensures
        window::outside(area, x, y) <==> x < area.left || x >= area.right || y < area.top || y
            >= area.bottom,
{
}

/// A press of a mouse button, left, right, middle or beside, is one; a release
/// or a move is none.
pub proof fn law_presses(msg: u32)
    ensures
        messages::is_press(msg) <==> msg == 0x201 || msg == 0x204 || msg == 0x207 || msg == 0x20B,
{
}

/// Two signed 16-bit numbers put into one word come out of it.
pub proof fn law_points_read_back(x: int, y: int)
    requires
        -0x8000 <= x < 0x8000,
        -0x8000 <= y < 0x8000,
    ensures
        ({
            let low = if x < 0 {
                x + 0x1_0000
            } else {
                x
            };
            let high = if y < 0 {
                y + 0x1_0000
            } else {
                y
            };
            let word = high * 0x1_0000 + low;
            &&& window::signed(word % 0x1_0000) == x
            &&& window::signed(word / 0x1_0000) == y
        }),
{
}

/// A notch of the wheel, a hundred and twenty, scrolls three rows of
/// forty-four, counted in tenths; back one way and on the other.
pub proof fn law_a_notch_scrolls_three_rows(turn: int, low: int, by: i64)
    requires
        0 <= low < 0x1_0000,
        -0x8000 <= turn < 0x8000,
        messages::wheel_message(
            (if turn < 0 {
                turn + 0x1_0000
            } else {
                turn
            }) * 0x1_0000 + low,
            Message::Scroll(by),
        ),
    ensures
        by * 120 == turn * 1320,
        turn == 120 ==> by == 3 * 440,
{
}

// ---- messages ----------------------------------------------------------------------------------

/// A key, a typed character and a place on the screen are handed on as they
/// came.
pub proof fn law_input_is_handed_on(wparam: u64, lparam: u64, m: Message)
    ensures
        messages::asks(0x100, wparam, lparam, m) <==> m == Message::Key(
            (wparam % 0x1_0000) as u32,
        ),
        messages::asks(0x102, wparam, lparam, m) <==> m == Message::Typed(
            (wparam % 0x1_0000) as u16,
        ),
        messages::asks(0x200, wparam, lparam, m) <==> m == Message::MouseAt(
            (lparam % 0x1_0000_0000) as u32,
        ),
        messages::asks(0x202, wparam, lparam, m) <==> m == Message::Click(
            (lparam % 0x1_0000_0000) as u32,
        ),
        messages::asks(0x20A, wparam, lparam, m) ==> m is Scroll,
        messages::asks(0x0F, wparam, lparam, m) <==> m == Message::Paint,
        messages::asks(0x14, wparam, lparam, m) <==> m == Message::EraseBackground,
        messages::asks(0x02, wparam, lparam, m) <==> m == Message::Destroy,
{
}

/// The chord and the hotkey toggle the window, and so does a click on the tray
/// icon; a right click brings up its menu, which shows the window, reloads,
/// opens the configuration or quits. Nothing else does any of it.
pub proof fn law_the_tray_icon_and_its_menu(msg: u32, wparam: u64, lparam: u64, m: Message)
    requires
        messages::asks(msg, wparam, lparam, m),
    ensures
        m == Message::Toggle <==> msg == 0x8001 || msg == 0x312 && wparam % 0x1_0000_0000 == 1
            || msg == 0x8003 && lparam % 0x1_0000_0000 == 0x202,
        m == Message::TrayMenu <==> msg == 0x8003 && lparam % 0x1_0000_0000 == 0x205,
        m == Message::Show <==> msg == 0x111 && wparam % 0x1_0000 == 1,
        m == Message::Reload <==> msg == 0x111 && wparam % 0x1_0000 == 2,
        m == Message::OpenConfig <==> msg == 0x111 && wparam % 0x1_0000 == 3,
        m == Message::Quit <==> msg == 0x111 && wparam % 0x1_0000 == 4,
{
}

/// The hooks send the window away, and so does the loss of the focus; the
/// caret and the animation have a timer each.
pub proof fn law_timers_and_the_focus(msg: u32, wparam: u64, lparam: u64, m: Message)
    requires
        messages::asks(msg, wparam, lparam, m),
    ensures
        m == Message::Dismiss <==> msg == 0x8002 || msg == 0x06 && wparam % 0x1_0000 == 0,
        m == Message::BlinkCaret <==> msg == 0x113 && wparam == 1,
        m == Message::Animate <==> msg == 0x113 && wparam == 2,
{
}

/// The window goes away when it was told to hide, and only then; it quits,
/// restarts and flips its tray icon only for the command that says so; and
/// whatever else was done, it shows what there is now.
pub proof fn law_what_the_window_does_next(outcome: UiOutcome)
    ensures
        messages::step_after(outcome) == Step::Hide <==> outcome is Hide,
        messages::step_after(outcome) == Step::Quit <==> outcome == UiOutcome::Shell(
            ShellCommand::Quit,
        ),
        messages::step_after(outcome) == Step::Restart <==> outcome == UiOutcome::Shell(
            ShellCommand::Restart,
        ),
        messages::step_after(outcome) == Step::ToggleTray <==> outcome == UiOutcome::Shell(
            ShellCommand::ToggleTray,
        ),
        outcome is Stay ==> messages::step_after(outcome) == Step::Repaint,
{
}

// ---- where the window comes up ----------------------------------------------------------------

/// The window is 680 wide at 96 dots to the inch and grows with them; so does
/// its height. It stands a fifth of the way down, and as far from the left edge
/// as from the right, to a pixel.
pub proof fn law_where_the_window_comes_up(work: Area, dpi: int, height: int)
    requires
        0 <= dpi <= 0xFFFF_FFFF,
        0 <= height <= 0x1_0000_0000,
    ensures
        ({
            let p = window::placed(work, dpi, height);
            let tall = work.bottom - work.top;
            let wide = work.right - work.left;
            &&& p.width * 96 <= 680 * dpi < p.width * 96 + 96
            &&& p.height * 96 <= height * dpi < p.height * 96 + 96
            &&& tall >= 0 ==> 5 * (p.y - work.top) <= tall < 5 * (p.y - work.top) + 5
            &&& wide >= p.width ==> 2 * (p.x - work.left) <= wide - p.width < 2 * (p.x - work.left)
                + 2
            &&& dpi == 96 ==> p.width == 680 && p.height == height
        }),
{
    assert(0 <= height * dpi <= 0x1_0000_0000 * 0xFFFF_FFFF) by (nonlinear_arith)
        requires
            0 <= height <= 0x1_0000_0000,
            0 <= dpi <= 0xFFFF_FFFF,
    ;
    let w = 680 * dpi / 96;
    assert(0 <= w <= 680 * 0xFFFF_FFFF);
    if dpi == 96 {
        assert(height * dpi == height * 96);
    }
}

// ---- the clipboard -----------------------------------------------------------------------------

/// Pasting drops the control characters and nothing else, in order; at most
/// 4096 units are taken.
pub proof fn law_pasting_drops_control_characters(s: Seq<char>)
    ensures
        window::printable(s) == s.filter(|c: char| !text::is_control(c)),
        window::MAX_PASTE == 4096,
    decreases s.len(),
{
    reveal(Seq::filter);
    if s.len() > 0 {
        law_pasting_drops_control_characters(s.drop_last());
    }
}

/// A click is in the input exactly if it is less than fifty-eight units down,
/// at any number of dots to the inch.
pub proof fn law_clicks_in_the_input(y: int, dpi: int)
    ensures
        window::in_input(y, dpi) <==> y * 96 < 58 * dpi,
        dpi == 96 ==> (window::in_input(y, dpi) <==> y < 58),
{
}

/// A message that is none of the launcher's own is left to the system, and no
/// other; and a few ask for nothing: a mouse over the tray icon that is not
/// let go, an unknown choice of its menu, and the focus coming back.
pub proof fn law_other_messages_are_left_to_the_system(
    msg: u32,
    wparam: u64,
    lparam: u64,
    m: Message,
)
    requires
        messages::asks(msg, wparam, lparam, m),
    ensures
        m == Message::Other <==> {
            &&& msg != 0x8001 && msg != 0x8002 && msg != 0x8003
            &&& !(msg == 0x312 && wparam % 0x1_0000_0000 == 1)
            &&& msg != 0x111 && msg != 0x100 && msg != 0x102
            &&& !(msg == 0x113 && (wparam == 1 || wparam == 2))
            &&& msg != 0x0F && msg != 0x200 && msg != 0x202 && msg != 0x20A && msg != 0x14 && msg
                != 0x06 && msg != 0x02
        },
        m == Message::Nothing <==> {
            ||| msg == 0x8003 && lparam % 0x1_0000_0000 != 0x202 && lparam % 0x1_0000_0000 != 0x205
            ||| msg == 0x111 && (wparam % 0x1_0000 == 0 || wparam % 0x1_0000 > 4)
            ||| msg == 0x06 && wparam % 0x1_0000 != 0
        },
{
}

/// A window that is wider than the screen reaches over it on either side alike.
pub proof fn law_a_wide_window_is_centred_too(work: Area, dpi: int, height: int)
    requires
        0 <= dpi <= 0xFFFF_FFFF,
        0 <= height <= 0x1_0000_0000,
    ensures
        ({
            let p = window::placed(work, dpi, height);
            let wide = work.right - work.left;
            wide < p.width ==> 2 * (work.left - p.x) <= p.width - wide < 2 * (work.left - p.x) + 2
        }),
{
    let w = 680 * dpi / 96;
    assert(0 <= w <= 680 * 0xFFFF_FFFF);
}

} // verus!
