use apex::app::UiOutcome;
use apex::editor::{Edit, Motion};
use apex::messages::{mouse_hook, on_message, settle, Message, Step};
use apex::plugin::ShellCommand;
use apex::window::{
    chord_matches, clipboard_text, dismiss, guard_until, is_modifier_vk, is_outside, keyboard_hook,
    on_char, on_keydown, place, point_of, pointer_moved, toggle, wheel, Area, Command, Held, KeyEvent, ModeKind,
    Toggle, GUARD_MS, VK_A, VK_C, VK_DELETE, VK_DOWN, VK_END, VK_ESCAPE, VK_HOME, VK_INSERT, VK_K,
    VK_LEFT, VK_LSHIFT, VK_LWIN, VK_Q, VK_RETURN, VK_RIGHT, VK_RMENU, VK_TAB, VK_UP, VK_V, VK_X,
};

const KINDS: [ModeKind; 4] =
    [ModeKind::Search, ModeKind::Actions, ModeKind::TextInput, ModeKind::Form];

#[test]
fn escape_leads_out_one_step_at_a_time() {
    for kind in KINDS {
        let out = if kind == ModeKind::Search { Command::Hide } else { Command::ClosePanel };
        assert!(on_keydown(kind, VK_ESCAPE, false, false) == out);
        assert!(on_keydown(kind, VK_ESCAPE, true, true) == out);
    }
}

#[test]
fn enter_confirms_what_is_open() {
    let wanted =
        [Command::Activate, Command::RunAction, Command::SubmitText, Command::SubmitForm];
    for (kind, command) in KINDS.into_iter().zip(wanted) {
        assert!(on_keydown(kind, VK_RETURN, false, false) == command);
    }
}

#[test]
fn text_keys_work_everywhere() {
    for kind in KINDS {
        assert!(on_keydown(kind, VK_V, true, false) == Command::Paste);
        assert!(on_keydown(kind, VK_INSERT, false, true) == Command::Paste);
        assert!(on_keydown(kind, VK_C, true, false) == Command::Copy);
        assert!(on_keydown(kind, VK_INSERT, true, false) == Command::Copy);
        assert!(on_keydown(kind, VK_X, true, false) == Command::Cut);
        assert!(on_keydown(kind, VK_DELETE, false, true) == Command::Cut);
        assert!(on_keydown(kind, VK_DELETE, true, false) == Command::Delete { word: true });
        assert!(on_keydown(kind, VK_A, true, false) == Command::SelectAll);
        assert!(on_keydown(kind, VK_Q, true, false) == Command::Quit);
        for (key, motion) in [
            (VK_LEFT, Motion::Left),
            (VK_RIGHT, Motion::Right),
            (VK_HOME, Motion::Home),
            (VK_END, Motion::End),
        ] {
            assert!(
                on_keydown(kind, key, true, false)
                    == Command::MoveCaret { motion, word: true, select: false }
            );
            assert!(
                on_keydown(kind, key, false, true)
                    == Command::MoveCaret { motion, word: false, select: true }
            );
        }
    }
}

#[test]
fn arrows_move_through_what_is_open() {
    assert!(on_keydown(ModeKind::Search, VK_UP, false, false) == Command::MoveSelection(-1));
    assert!(on_keydown(ModeKind::Actions, VK_DOWN, false, false) == Command::MovePanel(1));
    assert!(on_keydown(ModeKind::Form, VK_TAB, false, false) == Command::MoveFocus(1));
    assert!(on_keydown(ModeKind::Form, VK_TAB, false, true) == Command::MoveFocus(-1));
    assert!(on_keydown(ModeKind::Form, VK_UP, false, false) == Command::MoveFocus(-1));
    assert!(on_keydown(ModeKind::TextInput, VK_DOWN, false, false) == Command::Nothing);
    assert!(on_keydown(ModeKind::Search, VK_K, true, false) == Command::OpenActions);
    assert!(on_keydown(ModeKind::Actions, VK_K, true, false) == Command::ClosePanel);
    assert!(on_keydown(ModeKind::Actions, VK_K, false, false) == Command::Nothing);
    assert!(on_keydown(ModeKind::Search, VK_TAB, false, false) == Command::Nothing);
}

#[test]
fn typed_units_are_edits_and_control_codes_are_not() {
    assert!(matches!(on_char(0x08), Some(Edit::Backspace { word: false })));
    assert!(matches!(on_char(0x7F), Some(Edit::Backspace { word: true })));
    assert!(matches!(on_char(0x20), Some(Edit::Char(0x20))));
    assert!(matches!(on_char(0xD83D), Some(Edit::Char(0xD83D))));
    for unit in [0x01, 0x09, 0x0D, 0x1B, 0x1F] {
        assert!(on_char(unit).is_none());
    }
}

const CTRL: Held = Held { alt: false, ctrl: true, shift: false, win: false };
const NONE: Held = Held { alt: false, ctrl: false, shift: false, win: false };

fn press(key: u32, down: bool, held: Held) -> KeyEvent {
    KeyEvent { key, down, held, visible: false, front: false }
}

#[test]
fn the_chord_has_exactly_its_modifiers() {
    assert!(chord_matches(0x2, CTRL));
    assert!(!chord_matches(0x2, Held { shift: true, ..CTRL }));
    assert!(!chord_matches(0x2, NONE));
    assert!(chord_matches(0, NONE));
    assert!(chord_matches(0xF, Held { alt: true, ctrl: true, shift: true, win: true }));
    assert!(chord_matches(0x9, Held { alt: true, ctrl: false, shift: false, win: true }));
}

#[test]
fn holding_the_chord_toggles_once() {
    let first = keyboard_hook(press(VK_ESCAPE, true, CTRL), VK_ESCAPE, 0x2, false);
    assert!(first.toggle && first.swallow && first.latched && !first.dismiss);
    let again = keyboard_hook(press(VK_ESCAPE, true, CTRL), VK_ESCAPE, 0x2, first.latched);
    assert!(!again.toggle && again.swallow);
    let up = keyboard_hook(press(VK_ESCAPE, false, CTRL), VK_ESCAPE, 0x2, again.latched);
    assert!(!up.latched && !up.swallow);
    let next = keyboard_hook(press(VK_ESCAPE, true, CTRL), VK_ESCAPE, 0x2, up.latched);
    assert!(next.toggle);
    // A missed key-up is made good by the key without its modifiers.
    let bare = keyboard_hook(press(VK_ESCAPE, true, NONE), VK_ESCAPE, 0x2, true);
    assert!(!bare.latched && !bare.swallow);
}

#[test]
fn keys_that_go_elsewhere_pass_and_dismiss() {
    let elsewhere = KeyEvent { visible: true, ..press(VK_A, true, NONE) };
    let step = keyboard_hook(elsewhere, VK_ESCAPE, 0x2, true);
    assert!(step.dismiss && !step.swallow && !step.toggle && step.latched);
    let ours = KeyEvent { front: true, ..elsewhere };
    assert!(!keyboard_hook(ours, VK_ESCAPE, 0x2, false).dismiss);
    let modifier = KeyEvent { key: VK_LSHIFT, ..elsewhere };
    assert!(!keyboard_hook(modifier, VK_ESCAPE, 0x2, false).dismiss);
    let released = KeyEvent { down: false, ..elsewhere };
    assert!(!keyboard_hook(released, VK_ESCAPE, 0x2, false).dismiss);
}

#[test]
fn modifiers_are_known_by_their_codes() {
    for key in [0x10, 0x11, 0x12, VK_LSHIFT, 0xA3, VK_RMENU, VK_LWIN, 0x5C] {
        assert!(is_modifier_vk(key), "{key:#x}");
    }
    // The code is the low half of the number.
    assert!(is_modifier_vk(0x10011) && !is_modifier_vk(0x0011_0000));
    for key in [VK_A, VK_TAB, 0x5D, 0x9F, 0xA6] {
        assert!(!is_modifier_vk(key), "{key:#x}");
    }
}

#[test]
fn the_hotkey_leaves_the_launcher_ready() {
    assert!(toggle(false, false) == Toggle::Show);
    assert!(toggle(true, true) == Toggle::Hide);
    assert!(toggle(true, false) == Toggle::Focus);
}

#[test]
fn a_window_just_summoned_stays() {
    let until = guard_until(1000);
    assert_eq!(until, 1000 + GUARD_MS);
    assert_eq!(guard_until(u64::MAX), u64::MAX);
    assert!(!dismiss(true, false, until - 1, until));
    assert!(dismiss(true, false, until, until));
    assert!(!dismiss(true, true, until, until));
    assert!(!dismiss(false, false, until, until));
}

#[test]
fn a_click_on_the_far_edges_is_outside() {
    let area = Area { left: -10, top: 0, right: 10, bottom: 5 };
    assert!(!is_outside(area, -10, 0));
    assert!(!is_outside(area, 9, 4));
    assert!(is_outside(area, 10, 0));
    assert!(is_outside(area, 0, 5));
    assert!(is_outside(area, -11, 0));
}

#[test]
fn the_window_comes_up_centred_a_fifth_down() {
    let p = place(Area { left: 0, top: 0, right: 1920, bottom: 1040 }, 96, 457);
    assert!((p.x, p.y, p.width, p.height) == (620, 208, 680, 457));
    let p = place(Area { left: -2560, top: 100, right: 0, bottom: 1501 }, 144, 457);
    assert!((p.x, p.y, p.width, p.height) == (-2560 + 770, 380, 1020, 685));
    // Too wide for the screen: it sticks out on both sides.
    let p = place(Area { left: 0, top: 0, right: 601, bottom: 500 }, 96, 457);
    assert!(p.x == -39);
}

#[test]
fn positions_and_wheel_turns_are_signed() {
    assert_eq!(point_of(0x0002_0001), (1, 2));
    assert_eq!(point_of(0xFFFF_8000), (-32768, -1));
    assert_eq!(wheel(120), 1320);
    assert_eq!(wheel(-240), -2640);
    assert_eq!(wheel(1), 11);
}

#[test]
fn pasted_text_loses_its_control_characters() {
    assert_eq!(clipboard_text("https://x.dev/a b\r\n"), "https://x.dev/a b");
    assert_eq!(clipboard_text("\t\u{85}é\u{7f}☕"), "é☕");
    assert_eq!(clipboard_text(""), "");
}

#[test]
fn messages_are_told_apart() {
    let ask = |msg, w, l| on_message(msg, w, l);
    assert!(ask(0x8001, 0, 0) == Message::Toggle);
    assert!(ask(0x0312, 1, 0) == Message::Toggle);
    assert!(ask(0x0312, 2, 0) == Message::Other);
    assert!(ask(0x8003, 0, 0x202) == Message::Toggle);
    assert!(ask(0x8003, 0, 0x205) == Message::TrayMenu);
    assert!(ask(0x8003, 0, 0x200) == Message::Nothing);
    assert!(ask(0x0111, 1, 0) == Message::Show);
    assert!(ask(0x0111, 0xABCD_0002, 0) == Message::Reload);
    assert!(ask(0x0111, 3, 0) == Message::OpenConfig);
    assert!(ask(0x0111, 4, 0) == Message::Quit);
    assert!(ask(0x0111, 5, 0) == Message::Nothing);
    assert!(ask(0x8002, 1, 0) == Message::Dismiss);
    assert!(ask(0x0100, 0x1B, 0) == Message::Key(VK_ESCAPE));
    assert!(ask(0x0102, 0x61, 0) == Message::Typed(0x61));
    assert!(ask(0x0113, 1, 0) == Message::BlinkCaret);
    assert!(ask(0x0113, 2, 0) == Message::Animate);
    assert!(ask(0x0113, 3, 0) == Message::Other);
    assert!(ask(0x000F, 0, 0) == Message::Paint);
    assert!(ask(0x0200, 0, u64::MAX) == Message::MouseAt(u32::MAX));
    assert!(ask(0x0202, 0, 0x0005_0004) == Message::Click(0x0005_0004));
    // Two notches towards the user.
    assert!(ask(0x020A, 0xFF10_0000, 0) == Message::Scroll(-2640));
    assert!(ask(0x0014, 0, 0) == Message::EraseBackground);
    assert!(ask(0x0006, 0, 0) == Message::Dismiss);
    assert!(ask(0x0006, 0x0001_0002, 0) == Message::Nothing);
    assert!(ask(0x0002, 0, 0) == Message::Destroy);
    assert!(ask(0x0001, 0, 0) == Message::Other);
}

#[test]
fn a_button_pressed_elsewhere_sends_the_window_away() {
    let area = Area { left: 0, top: 0, right: 10, bottom: 10 };
    for press in [0x201, 0x204, 0x207, 0x20B] {
        assert!(mouse_hook(press, area, 10, 5));
        assert!(!mouse_hook(press, area, 5, 5));
    }
    assert!(!mouse_hook(0x202, area, 50, 50));
}

#[test]
fn the_window_follows_what_an_action_came_to() {
    assert!(settle(UiOutcome::Hide) == Step::Hide);
    assert!(settle(UiOutcome::Stay) == Step::Repaint);
    assert!(settle(UiOutcome::Shell(ShellCommand::Quit)) == Step::Quit);
    assert!(settle(UiOutcome::Shell(ShellCommand::Restart)) == Step::Restart);
    assert!(settle(UiOutcome::Shell(ShellCommand::ToggleTray)) == Step::ToggleTray);
    assert!(settle(UiOutcome::Shell(ShellCommand::ClearHistory)) == Step::Repaint);
}

#[test]
fn a_pointer_that_rests_does_not_hover() {
    assert!(pointer_moved(None, 7));
    assert!(!pointer_moved(Some(7), 7));
    assert!(pointer_moved(Some(6), 7));
}
