//! What keys, clicks and the hotkey mean, when the window goes away by itself,
//! and where it comes up.
use vstd::prelude::*;
use vstd::string::*;

use crate::app::{App, Mode, Screen, State};
use crate::editor::{Edit, Motion};
use crate::render;
use crate::text::{self, chars_of, control, string_of};

verus! {

// ---- keys --------------------------------------------------------------------------------

pub const VK_TAB: u32 = 0x09;

pub const VK_RETURN: u32 = 0x0D;

pub const VK_SHIFT: u32 = 0x10;

pub const VK_CONTROL: u32 = 0x11;

pub const VK_MENU: u32 = 0x12;

pub const VK_ESCAPE: u32 = 0x1B;

pub const VK_END: u32 = 0x23;

pub const VK_HOME: u32 = 0x24;

pub const VK_LEFT: u32 = 0x25;

pub const VK_UP: u32 = 0x26;

pub const VK_RIGHT: u32 = 0x27;

pub const VK_DOWN: u32 = 0x28;

pub const VK_INSERT: u32 = 0x2D;

pub const VK_DELETE: u32 = 0x2E;

pub const VK_A: u32 = 0x41;

pub const VK_C: u32 = 0x43;

pub const VK_K: u32 = 0x4B;

pub const VK_Q: u32 = 0x51;

pub const VK_V: u32 = 0x56;

pub const VK_X: u32 = 0x58;

pub const VK_LWIN: u32 = 0x5B;

pub const VK_RWIN: u32 = 0x5C;

/// The left and right Shift, Control and Alt keys: six codes in a row.
pub const VK_LSHIFT: u32 = 0xA0;

pub const VK_RMENU: u32 = 0xA5;

/// What the keyboard speaks to.
#[derive(Clone, Copy, PartialEq, Eq, Structural)]
pub enum ModeKind {
    Search,
    Actions,
    TextInput,
    Form,
}

/// What a key means.
#[derive(Clone, Copy, PartialEq, Eq, Structural)]
pub enum Command {
    Nothing,
    Quit,
    Paste,
    Copy,
    Cut,
    MoveCaret { motion: Motion, word: bool, select: bool },
    Delete { word: bool },
    SelectAll,
    Hide,
    OpenActions,
    ClosePanel,
    /// Moves through the list.
    MoveSelection(i32),
    /// Moves through the actions panel.
    MovePanel(i32),
    /// Moves through the lines of a form.
    MoveFocus(i32),
    Activate,
    RunAction,
    SubmitText,
    SubmitForm,
}

/// What the keyboard speaks to.
pub open spec fn kind_of(mode: Screen) -> ModeKind {
    match mode {
        Screen::Search => ModeKind::Search,
        Screen::Actions { .. } => ModeKind::Actions,
        Screen::TextInput { .. } => ModeKind::TextInput,
        Screen::Form { .. } => ModeKind::Form,
    }
}

/// What a key means in any text: the clipboard, the caret, and leaving.
pub open spec fn text_command(key: u32, ctrl: bool, shift: bool) -> Option<Command> {
    if key == VK_Q && ctrl {
        Some(Command::Quit)
    } else if (key == VK_V && ctrl) || (key == VK_INSERT && shift) {
        Some(Command::Paste)
    } else if (key == VK_C || key == VK_INSERT) && ctrl {
        Some(Command::Copy)
    } else if (key == VK_X && ctrl) || (key == VK_DELETE && shift) {
        Some(Command::Cut)
    } else if key == VK_LEFT {
        Some(Command::MoveCaret { motion: Motion::Left, word: ctrl, select: shift })
    } else if key == VK_RIGHT {
        Some(Command::MoveCaret { motion: Motion::Right, word: ctrl, select: shift })
    } else if key == VK_HOME {
        Some(Command::MoveCaret { motion: Motion::Home, word: ctrl, select: shift })
    } else if key == VK_END {
        Some(Command::MoveCaret { motion: Motion::End, word: ctrl, select: shift })
    } else if key == VK_DELETE {
        Some(Command::Delete { word: ctrl })
    } else if key == VK_A && ctrl {
        Some(Command::SelectAll)
    } else {
        None
    }
}

/// What any other key means.
pub open spec fn mode_command(kind: ModeKind, key: u32, ctrl: bool, shift: bool) -> Command {
    match kind {
        ModeKind::Search => if key == VK_ESCAPE {
            Command::Hide
        } else if key == VK_K && ctrl {
            Command::OpenActions
        } else if key == VK_DOWN {
            Command::MoveSelection(1)
        } else if key == VK_UP {
            Command::MoveSelection((-1) as i32)
        } else if key == VK_RETURN {
            Command::Activate
        } else {
            Command::Nothing
        },
        ModeKind::Actions => if key == VK_ESCAPE || (key == VK_K && ctrl) {
            Command::ClosePanel
        } else if key == VK_DOWN {
            Command::MovePanel(1)
        } else if key == VK_UP {
            Command::MovePanel((-1) as i32)
        } else if key == VK_RETURN {
            Command::RunAction
        } else {
            Command::Nothing
        },
        ModeKind::TextInput => if key == VK_ESCAPE {
            Command::ClosePanel
        } else if key == VK_RETURN {
            Command::SubmitText
        } else {
            Command::Nothing
        },
        ModeKind::Form => if key == VK_ESCAPE {
            Command::ClosePanel
        } else if (key == VK_TAB && !shift) || key == VK_DOWN {
            Command::MoveFocus(1)
        } else if key == VK_TAB || key == VK_UP {
            Command::MoveFocus((-1) as i32)
        } else if key == VK_RETURN {
            Command::SubmitForm
        } else {
            Command::Nothing
        },
    }
}

/// What a key means.
pub open spec fn command_for(kind: ModeKind, key: u32, ctrl: bool, shift: bool) -> Command {
    match text_command(key, ctrl, shift) {
        Some(c) => c,
        None => mode_command(kind, key, ctrl, shift),
    }
}

fn in_text(key: u32, ctrl: bool, shift: bool) -> (r: Option<Command>)
    ensures
        r == text_command(key, ctrl, shift),
{
    if key == VK_Q && ctrl {
        return Some(Command::Quit);
    }
    if (key == VK_V && ctrl) || (key == VK_INSERT && shift) {
        return Some(Command::Paste);
    }
    if (key == VK_C && ctrl) || (key == VK_INSERT && ctrl) {
        return Some(Command::Copy);
    }
    if (key == VK_X && ctrl) || (key == VK_DELETE && shift) {
        return Some(Command::Cut);
    }
    let motion = match key {
        VK_LEFT => Motion::Left,
        VK_RIGHT => Motion::Right,
        VK_HOME => Motion::Home,
        VK_END => Motion::End,
        VK_DELETE => {
            return Some(Command::Delete { word: ctrl });
        },
        _ => {
            return if key == VK_A && ctrl {
                Some(Command::SelectAll)
            } else {
                None
            };
        },
    };
    Some(Command::MoveCaret { motion, word: ctrl, select: shift })
}

/// What a key means, the launcher being as `kind` says and Control and Shift
/// being held down or not.
pub fn on_keydown(kind: ModeKind, key: u32, ctrl: bool, shift: bool) -> (r: Command)
    ensures
        r == command_for(kind, key, ctrl, shift),
{
    match in_text(key, ctrl, shift) {
        Some(c) => {
            return c;
        },
        None => {},
    }
    match kind {
        ModeKind::Search => {
            if key == VK_ESCAPE {
                Command::Hide
            } else if key == VK_K && ctrl {
                Command::OpenActions
            } else if key == VK_DOWN {
                Command::MoveSelection(1)
            } else if key == VK_UP {
                Command::MoveSelection(-1)
            } else if key == VK_RETURN {
                Command::Activate
            } else {
                Command::Nothing
            }
        },
        ModeKind::Actions => {
            if key == VK_ESCAPE || (key == VK_K && ctrl) {
                Command::ClosePanel
            } else if key == VK_DOWN {
                Command::MovePanel(1)
            } else if key == VK_UP {
                Command::MovePanel(-1)
            } else if key == VK_RETURN {
                Command::RunAction
            } else {
                Command::Nothing
            }
        },
        ModeKind::TextInput => {
            if key == VK_ESCAPE {
                Command::ClosePanel
            } else if key == VK_RETURN {
                Command::SubmitText
            } else {
                Command::Nothing
            }
        },
        ModeKind::Form => {
            if key == VK_ESCAPE {
                Command::ClosePanel
            } else if key == VK_TAB {
                Command::MoveFocus(
                    if shift {
                        -1
                    } else {
                        1
                    },
                )
            } else if key == VK_DOWN {
                Command::MoveFocus(1)
            } else if key == VK_UP {
                Command::MoveFocus(-1)
            } else if key == VK_RETURN {
                Command::SubmitForm
            } else {
                Command::Nothing
            }
        },
    }
}

/// The edit a typed UTF-16 unit stands for.
pub open spec fn typed(unit: u16) -> Option<Edit<'static>> {
    if unit == 0x08 {
        Some(Edit::Backspace { word: false })
    } else if unit == 0x7F {
        Some(Edit::Backspace { word: true })
    } else if unit >= 0x20 {
        Some(Edit::Char(unit))
    } else {
        None
    }
}

/// The edit a typed UTF-16 unit stands for. Backspace and Control+Backspace
/// arrive as control codes; every other one is a command and edits nothing.
pub fn on_char(unit: u16) -> (r: Option<Edit<'static>>)
    ensures
        r == typed(unit),
{
    if unit == 0x08 {
        Some(Edit::Backspace { word: false })
    } else if unit == 0x7F {
        Some(Edit::Backspace { word: true })
    } else if unit >= 0x20 {
        Some(Edit::Char(unit))
    } else {
        None
    }
}

impl App {
    /// What the keyboard speaks to.
    pub fn mode_kind(&self) -> (r: ModeKind)
        ensures
            r == kind_of(self.state().mode),
    {
        match &self.mode {
            Mode::Search => ModeKind::Search,
            Mode::Actions { .. } => ModeKind::Actions,
            Mode::TextInput { .. } => ModeKind::TextInput,
            Mode::Form { .. } => ModeKind::Form,
        }
    }
}

/// Escape leads out of everything: out of a panel to the list, and out of the
/// list altogether.
pub proof fn law_escape_leads_out(kind: ModeKind, ctrl: bool, shift: bool)
    ensures
        command_for(kind, VK_ESCAPE, ctrl, shift) == if kind is Search {
            Command::Hide
        } else {
            Command::ClosePanel
        },
{
}

/// Enter confirms everywhere.
pub proof fn law_enter_confirms(kind: ModeKind, ctrl: bool, shift: bool)
    ensures
        command_for(kind, VK_RETURN, ctrl, shift) == match kind {
            ModeKind::Search => Command::Activate,
            ModeKind::Actions => Command::RunAction,
            ModeKind::TextInput => Command::SubmitText,
            ModeKind::Form => Command::SubmitForm,
        },
{
}

// ---- the hotkey ---------------------------------------------------------------------------

/// The key is a modifier. The code of a key is the low half of the number.
pub open spec fn is_modifier(number: u32) -> bool {
    let key = number % 0x1_0000;
    key == VK_SHIFT || key == VK_CONTROL || key == VK_MENU || key == VK_LWIN || key == VK_RWIN
        || VK_LSHIFT <= key <= VK_RMENU
}

pub fn is_modifier_vk(number: u32) -> (r: bool)
    ensures
        r == is_modifier(number),
{
    let key: u32 = number % 0x1_0000;
    key == VK_SHIFT || key == VK_CONTROL || key == VK_MENU || key == VK_LWIN || key == VK_RWIN || (
    VK_LSHIFT <= key && key <= VK_RMENU)
}

/// The modifiers that are held down.
#[derive(Clone, Copy, PartialEq, Eq, Structural)]
pub struct Held {
    pub alt: bool,
    pub ctrl: bool,
    pub shift: bool,
    pub win: bool,
}

/// Exactly the modifiers of `mods` are held down. With Ctrl+Esc for a hotkey,
/// Ctrl+Shift+Esc is something else.
pub open spec fn held_exactly(mods: u32, held: Held) -> bool {
    &&& held.alt == (mods & 1 != 0)
    &&& held.ctrl == (mods & 2 != 0)
    &&& held.shift == (mods & 4 != 0)
    &&& held.win == (mods & 8 != 0)
}

pub fn chord_matches(mods: u32, held: Held) -> (r: bool)
    ensures
        r == held_exactly(mods, held),
{
    held.alt == (mods & 1 != 0) && held.ctrl == (mods & 2 != 0) && held.shift == (mods & 4 != 0)
        && held.win == (mods & 8 != 0)
}

/// A key event, as the hook sees it.
#[derive(Clone, Copy, PartialEq, Eq, Structural)]
pub struct KeyEvent {
    pub key: u32,
    pub down: bool,
    pub held: Held,
    /// Whether the launcher's window is shown.
    pub visible: bool,
    /// Whether it is the one that gets the keys.
    pub front: bool,
}

/// What the hook does with a key event.
#[derive(Clone, Copy, PartialEq, Eq, Structural)]
pub struct HookStep {
    /// Whether the chord is now being held down.
    pub latched: bool,
    pub toggle: bool,
    /// Whether nobody else gets to see the event.
    pub swallow: bool,
    pub dismiss: bool,
}

/// The hotkey was pressed, with its modifiers.
pub open spec fn is_chord(e: KeyEvent, hotkey: u32, mods: u32) -> bool {
    e.key == hotkey && e.down && held_exactly(mods, e.held)
}

/// What the hook does. The chord toggles the window once, however long it is
/// held down, and nobody else gets to see it. Any other key that goes
/// elsewhere while the window is shown dismisses it, modifiers aside.
pub open spec fn hook_step(e: KeyEvent, hotkey: u32, mods: u32, latched: bool) -> HookStep {
    if is_chord(e, hotkey, mods) {
        HookStep { latched: true, toggle: !latched, swallow: true, dismiss: false }
    } else {
        HookStep {
            latched: latched && e.key != hotkey,
            toggle: false,
            swallow: false,
            dismiss: e.down && e.visible && !is_modifier(e.key) && !e.front,
        }
    }
}

pub fn keyboard_hook(e: KeyEvent, hotkey: u32, mods: u32, latched: bool) -> (r: HookStep)
    ensures
        r == hook_step(e, hotkey, mods, latched),
{
    let mut latched = latched;
    if e.key == hotkey {
        if e.down && chord_matches(mods, e.held) {
            return HookStep { latched: true, toggle: !latched, swallow: true, dismiss: false };
        }
        // Pressed without its modifiers, or let go: either way the chord is
        // no longer held, even if its own key-up was missed.
        latched = false;
    }
    HookStep {
        latched,
        toggle: false,
        swallow: false,
        dismiss: e.down && e.visible && !is_modifier_vk(e.key) && !e.front,
    }
}

/// Holding the chord down toggles once; letting go of the key makes it work
/// again.
pub proof fn law_the_chord_toggles_once(
    e: KeyEvent,
    hotkey: u32,
    mods: u32,
    latched: bool,
    up: KeyEvent,
)
    requires
        is_chord(e, hotkey, mods),
        up.key == hotkey,
        !up.down,
    ensures
        !hook_step(e, hotkey, mods, hook_step(e, hotkey, mods, latched).latched).toggle,
        hook_step(e, hotkey, mods, hook_step(up, hotkey, mods, latched).latched).toggle,
        hook_step(e, hotkey, mods, latched).swallow,
{
}

/// Keys that are not the chord are never kept from anyone.
pub proof fn law_other_keys_pass(e: KeyEvent, hotkey: u32, mods: u32, latched: bool)
    requires
        !is_chord(e, hotkey, mods),
    ensures
        !hook_step(e, hotkey, mods, latched).swallow,
        !hook_step(e, hotkey, mods, latched).toggle,
{
}

/// What the hotkey does to the window.
#[derive(Clone, Copy, PartialEq, Eq, Structural)]
pub enum Toggle {
    Show,
    Hide,
    /// Bring it to the front: it is shown, but something else gets the keys.
    Focus,
}

/// What the hotkey does to a window that is shown or not, and gets the keys or
/// not.
pub open spec fn toggled(visible: bool, front: bool) -> Toggle {
    if !visible {
        Toggle::Show
    } else if front {
        Toggle::Hide
    } else {
        Toggle::Focus
    }
}

/// What the hotkey does: it always leaves the launcher ready to be typed into,
/// unless it was.
pub fn toggle(visible: bool, front: bool) -> (r: Toggle)
    ensures
        r == toggled(visible, front),
{
    if !visible {
        Toggle::Show
    } else if front {
        Toggle::Hide
    } else {
        Toggle::Focus
    }
}

// ---- going away by itself -------------------------------------------------------------------

/// How long the window stays up whatever happens, once it was summoned, in
/// milliseconds: longer than it takes to come to the front.
pub const GUARD_MS: u64 = 250;

/// Until when the window stays up that was summoned at `now`.
pub open spec fn guard(now: u64) -> u64 {
    if now <= u64::MAX - GUARD_MS {
        (now + GUARD_MS) as u64
    } else {
        u64::MAX
    }
}

pub fn guard_until(now: u64) -> (r: u64)
    ensures
        r == guard(now),
{
    if now <= u64::MAX - GUARD_MS {
        now + GUARD_MS
    } else {
        u64::MAX
    }
}

/// The window goes away when the user turns elsewhere: not while it is hidden,
/// coming up or going away, nor before `guarded`.
pub open spec fn dismissible(visible: bool, busy: bool, now: u64, guarded: u64) -> bool {
    visible && !busy && now >= guarded
}

pub fn dismiss(visible: bool, busy: bool, now: u64, guarded: u64) -> (r: bool)
    ensures
        r == dismissible(visible, busy, now, guarded),
{
    visible && !busy && now >= guarded
}

/// A window that was just summoned does not go away by itself, and one that
/// was summoned a while ago does.
pub proof fn law_a_summoned_window_stays(summoned: u64, now: u64, busy: bool)
    requires
        summoned <= u64::MAX - GUARD_MS,
    ensures
        now < summoned + GUARD_MS ==> !dismissible(true, busy, now, guard(summoned)),
        now >= summoned + GUARD_MS ==> dismissible(true, false, now, guard(summoned)),
{
}

/// A box on the screen, in pixels.
#[derive(Clone, Copy, PartialEq, Eq, Structural)]
pub struct Area {
    pub left: i32,
    pub top: i32,
    pub right: i32,
    pub bottom: i32,
}

/// A point falls outside an area. Its left and top edges belong to it, its
/// right and bottom edges do not.
pub open spec fn outside(area: Area, x: int, y: int) -> bool {
    !(area.left <= x < area.right && area.top <= y < area.bottom)
}

/// Whether a click falls outside the window.
pub fn is_outside(area: Area, x: i32, y: i32) -> (r: bool)
    ensures
        r == outside(area, x as int, y as int),
{
    x < area.left || x >= area.right || y < area.top || y >= area.bottom
}

// ---- where the window comes up -----------------------------------------------------------------

/// Where the window comes up, and its size, in pixels.
#[derive(Clone, Copy, PartialEq, Eq, Structural)]
pub struct Placement {
    pub x: i128,
    pub y: i128,
    pub width: i128,
    pub height: i128,
}

/// A DIP length in pixels, at `dpi` pixels to the inch.
pub open spec fn in_pixels(dips: int, dpi: int) -> int {
    dips * dpi / 96
}

/// Half of `d`, rounded towards zero.
pub open spec fn half(d: int) -> int {
    if d >= 0 {
        d / 2
    } else {
        -((-d) / 2)
    }
}

/// A fifth of `d`, rounded towards zero.
pub open spec fn fifth(d: int) -> int {
    if d >= 0 {
        d / 5
    } else {
        -((-d) / 5)
    }
}

/// In the middle of the screen sideways, and a fifth of the way down.
pub open spec fn placed(work: Area, dpi: int, height: int) -> Placement {
    let w = in_pixels(render::WINDOW_WIDTH as int, dpi);
    Placement {
        x: (work.left + half(work.right - work.left - w)) as i128,
        y: (work.top + fifth(work.bottom - work.top)) as i128,
        width: w as i128,
        height: in_pixels(height, dpi) as i128,
    }
}

/// Where the window comes up on a screen whose free part is `work`, with
/// `height` DIPs to show.
pub fn place(work: Area, dpi: u32, height: i128) -> (r: Placement)
    requires
        0 <= height <= 0x1_0000_0000_0000_0000_0000,
    ensures
        r == placed(work, dpi as int, height as int),
{
    assert(0 <= height * dpi <= 0x1_0000_0000_0000_0000_0000 * 0xFFFF_FFFF) by (nonlinear_arith)
        requires
            0 <= height <= 0x1_0000_0000_0000_0000_0000,
            0 <= dpi <= 0xFFFF_FFFF,
    ;
    let width: i128 = render::WINDOW_WIDTH * dpi as i128 / 96;
    let free: i128 = work.right as i128 - work.left as i128 - width;
    let tall: i128 = work.bottom as i128 - work.top as i128;
    let dx: i128 = if free >= 0 {
        free / 2
    } else {
        -((-free) / 2)
    };
    let dy: i128 = if tall >= 0 {
        tall / 5
    } else {
        -((-tall) / 5)
    };
    Placement {
        x: work.left as i128 + dx,
        y: work.top as i128 + dy,
        width,
        height: height * dpi as i128 / 96,
    }
}

/// Where there is room for the window, it comes up all within the screen
/// sideways, the same distance from either side.
pub proof fn law_the_window_is_centred(work: Area, dpi: int, height: int)
    requires
        0 <= dpi <= 0xFFFF_FFFF,
        work.left <= work.right,
        work.top <= work.bottom,
        in_pixels(render::WINDOW_WIDTH as int, dpi) <= work.right - work.left,
    ensures
        ({
            let p = placed(work, dpi, height);
            let (left, right) = (p.x - work.left, work.right - p.x - p.width);
            &&& work.left <= p.x && p.x + p.width <= work.right
            &&& left <= right <= left + 1
            &&& work.top <= p.y <= work.bottom
        }),
{
}

// ---- the mouse ------------------------------------------------------------------------------------

/// A 16-bit number, the upper half of them negative.
pub open spec fn signed(n: int) -> int {
    if n >= 0x8000 {
        n - 0x1_0000
    } else {
        n
    }
}

fn sign(n: u32) -> (r: i32)
    requires
        n < 0x1_0000,
    ensures
        r == signed(n as int),
{
    if n >= 0x8000 {
        n as i32 - 0x1_0000
    } else {
        n as i32
    }
}

/// The point a mouse message names: two 16-bit numbers in one word.
pub fn point_of(word: u32) -> (r: (i32, i32))
    ensures
        r.0 == signed((word % 0x1_0000) as int),
        r.1 == signed((word / 0x1_0000) as int),
{
    (sign(word % 0x1_0000), sign(word / 0x1_0000))
}

/// How far a turn of the wheel scrolls, in tenths: three rows to a notch of
/// 120.
pub fn wheel(delta: i32) -> (r: i64)
    ensures
        r * 120 == delta * (render::ROW_H * 10 * 3),
{
    assert(render::ROW_H * 10 * 3 == 1320);
    assert(delta * 11 * 120 == delta * (render::ROW_H * 10 * 3)) by (nonlinear_arith)
        requires
            render::ROW_H * 10 * 3 == 1320,
    ;
    delta as i64 * 11
}

/// What a click in the window is meant for.
#[derive(Clone, Copy, PartialEq, Eq, Structural)]
pub enum Target {
    Nothing,
    /// The caret of the query.
    Input,
    /// A row of the list.
    Row(usize),
}

/// A point `y` pixels down the window lies in the input.
pub open spec fn in_input(y: int, dpi: int) -> bool {
    y * 96 < render::INPUT_H * dpi
}

/// Whether the pointer moved since it was last heard of. Windows reports a
/// pointer that rests where the window comes up, which is no hover.
pub fn pointer_moved(last: Option<u32>, now: u32) -> (r: bool)
    ensures
        r == (last != Some(now)),
{
    match last {
        Some(before) => before != now,
        None => true,
    }
}

impl App {
    /// What a click `y` pixels down the window is meant for. A panel takes no
    /// clicks.
    pub fn click_target(&self, y: i32, dpi: u32) -> (r: Target)
        ensures
            match r {
                Target::Input => self.state().mode is Search && in_input(y as int, dpi as int),
                Target::Row(i) => self.state().mode is Search && !in_input(y as int, dpi as int)
                    && self.state().lies_under(i as int, y as int, dpi as int),
                Target::Nothing => !(self.state().mode is Search) || (!in_input(
                    y as int,
                    dpi as int,
                ) && forall|i: int| !self.state().lies_under(i, y as int, dpi as int)),
            },
    {
        match &self.mode {
            Mode::Search => {},
            _ => {
                return Target::Nothing;
            },
        }
        if (y as i128) * 96 < render::INPUT_H * dpi as i128 {
            return Target::Input;
        }
        match self.row_at(y, dpi) {
            Some(i) => Target::Row(i),
            None => Target::Nothing,
        }
    }

    /// Selects the row under the pointer, `y` pixels down the window. Returns
    /// whether the selection moved.
    pub fn hover(&mut self, y: i32, dpi: u32) -> (moved: bool)
        ensures
            moved ==> old(self).state().mode is Search && old(self).state().lies_under(
                final(self).state().selected,
                y as int,
                dpi as int,
            ),
            !moved ==> !(old(self).state().mode is Search) || forall|i: int|
                old(self).state().lies_under(i, y as int, dpi as int) ==> i
                    == old(self).state().selected,
            final(self).state() == (State {
                selected: final(self).state().selected,
                ..old(self).state()
            }),
            moved == (final(self).state().selected != old(self).state().selected),
            final(self).plugins == old(self).plugins,
            final(self).looks_like(*old(self)),
    {
        match &self.mode {
            Mode::Search => {},
            _ => {
                return false;
            },
        }
        match self.row_at(y, dpi) {
            Some(i) => {
                proof {
                    assert forall|j: int| self.state().lies_under(j, y as int, dpi as int) implies j
                        == i by {
                        crate::app_laws::law_one_row_under_a_point(
                            self.state(),
                            i as int,
                            j,
                            y as int,
                            dpi as int,
                        );
                    }
                }
                self.select(i)
            },
            None => false,
        }
    }
}

// ---- the clipboard ----------------------------------------------------------------------------------

/// Most UTF-16 units that are taken from the clipboard.
pub const MAX_PASTE: usize = 4096;

/// A text without its control characters.
pub open spec fn printable(s: Seq<char>) -> Seq<char>
    decreases s.len(),
{
    if s.len() == 0 {
        s
    } else if text::is_control(s.last()) {
        printable(s.drop_last())
    } else {
        printable(s.drop_last()).push(s.last())
    }
}

/// Pasted text on one line. Control characters are dropped, not made spaces:
/// most often it is a link with a newline behind it.
pub fn clipboard_text(s: &str) -> (r: String)
    ensures
        r@ == printable(s@),
{
    let chars = chars_of(s);
    let mut out: Vec<char> = Vec::new();
    let mut i: usize = 0;
    assert(out@ =~= printable(s@.take(0)));
    while i < chars.len()
        invariant
            i <= chars@.len(),
            chars@ == s@,
            out@ == printable(s@.take(i as int)),
        decreases chars@.len() - i,
    {
        proof {
            assert(s@.take(i + 1).drop_last() =~= s@.take(i as int));
            assert(s@.take(i + 1).last() == chars@[i as int]);
        }
        if !control(chars[i]) {
            out.push(chars[i]);
        }
        i += 1;
    }
    assert(s@.take(i as int) =~= s@);
    string_of(out.as_slice())
}

/// What is pasted holds no control character, and one that held none is pasted
/// as it is.
pub proof fn law_pasted_text_is_printable(s: Seq<char>)
    ensures
        forall|i: int|
            0 <= i < printable(s).len() ==> !text::is_control(#[trigger] printable(s)[i]),
        (forall|i: int| 0 <= i < s.len() ==> !text::is_control(#[trigger] s[i])) ==> printable(s)
            == s,
    decreases s.len(),
{
    if s.len() > 0 {
        let t = s.drop_last();
        law_pasted_text_is_printable(t);
        let (p, q) = (printable(s), printable(t));
        assert forall|i: int| 0 <= i < p.len() implies !text::is_control(#[trigger] p[i]) by {
            if i < q.len() {
                assert(p[i] == q[i]);
            }
        }
        if forall|i: int| 0 <= i < s.len() ==> !text::is_control(#[trigger] s[i]) {
            assert forall|i: int| 0 <= i < t.len() implies !text::is_control(#[trigger] t[i]) by {
                assert(t[i] == s[i]);
            }
            assert(!text::is_control(s[s.len() - 1]));
            assert(t.push(s.last()) =~= s);
        }
    }
}

} // verus!
