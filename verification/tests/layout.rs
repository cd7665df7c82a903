use std::sync::Arc;

use apex::app::{App, Mode};
use apex::config::Config;
use apex::editor::{FormEntry, TextField};
use apex::plugin::{Action, Icon, ResultItem};
use apex::render::{
    byte_at_unit, content_height, form_panel_height, form_window_height, hint,
    list_content_height, list_viewport_height, panel_box, place_heading, place_row, row_offset,
    thumb, PanelKind,
};
use apex::scene::{frame, prompt_text, Brush, Edge, Editable, Rect, Shape, Words};

const SECTIONS: [(usize, &str); 2] = [(0, "Suggestions"), (2, "Commands")];

fn sections() -> Vec<(usize, &'static str)> {
    SECTIONS.to_vec()
}

#[test]
fn rows_make_room_for_the_headings_above_them() {
    let s = sections();
    assert_eq!(row_offset(&s, 0), 6 + 26);
    assert_eq!(row_offset(&s, 1), 6 + 26 + 44);
    assert_eq!(row_offset(&s, 2), 6 + 52 + 88);
    assert_eq!(row_offset(&Vec::new(), 3), 6 + 132);
    // A heading stands right above the first row of its section.
    assert!(row_offset(&s, 2) - 26 >= row_offset(&s, 1) + 44);
    assert!(row_offset(&s, 9) + 44 + 6 <= list_content_height(10, 2));
}

#[test]
fn heights_add_up() {
    assert_eq!(list_content_height(10, 2), 12 + 52 + 440);
    assert_eq!(list_viewport_height(10, 2), 12 + 8 * 44);
    assert_eq!(content_height(0, 0), content_height(300, 2));
    assert_eq!(content_height(0, 0), 59 + 364 + 34);
    assert_eq!(form_panel_height(3), 28 + 150 + 12);
    assert_eq!(form_window_height(3), 59 + 16 + 190 + 34);
}

#[test]
fn only_what_is_in_sight_is_placed() {
    let s = sections();
    assert_eq!(place_row(&s, 0, 0), Some((59 + 32) * 10));
    assert_eq!(place_row(&s, 0, 760), Some((59 + 32) * 10 - 760));
    assert_eq!(place_row(&s, 0, 761), None);
    assert_eq!(place_row(&s, 8, 0), None);
    assert_eq!(place_heading(&s, 0, 0), Some((59 + 6) * 10));
    assert_eq!(place_heading(&s, 2, 0), Some((59 + 120) * 10));
    assert_eq!(place_heading(&s, 0, 321), None);
}

#[test]
fn panels_sit_in_the_corner_over_the_bar() {
    assert!(panel_box(PanelKind::Nothing).is_none());
    let actions = panel_box(PanelKind::Actions { count: 4 }).unwrap();
    assert!((actions.width, actions.height) == (300, 4 * 32 + 12));
    assert!((actions.right, actions.bottom) == (8, 42));
    let empty = panel_box(PanelKind::Actions { count: 0 }).unwrap();
    assert!(empty.height == 44);
    assert!(panel_box(PanelKind::TextInput).unwrap().height == 44);
    let form = panel_box(PanelKind::Form { fields: 3 }).unwrap();
    assert!((form.width, form.height) == (460, 190));
    // A window made for the form shows all of it, under the input.
    assert_eq!(form_window_height(3) - form.bottom - form.height, 59 + 8);
}

#[test]
fn the_bar_names_the_keys_that_work() {
    assert_eq!(hint(PanelKind::Nothing), "Open ↵      Actions Ctrl+K");
    assert_eq!(hint(PanelKind::Actions { count: 1 }), "Run ↵");
    assert_eq!(hint(PanelKind::TextInput), "Confirm ↵");
    assert_eq!(hint(PanelKind::Form { fields: 1 }), "Save ↵      Field Tab");
}

#[test]
fn the_thumb_goes_from_end_to_end_and_stays_large_enough() {
    assert!(thumb(8, 0, 0).is_none());
    // 12 + 9 * 44 = 408 of list, 364 of it in sight.
    let t = thumb(9, 0, 0).unwrap();
    assert!((t.height, t.height_per, t.at, t.limit) == (364 * 356, 408, 0, 440));
    assert!(thumb(9, 0, 9999).unwrap().at == 440);
    assert!(thumb(9, 0, -5).unwrap().at == 0);
    let long = thumb(400, 1, 0).unwrap();
    assert!((long.height, long.height_per) == (36, 1));
}

#[test]
fn positions_in_a_text_are_counted_in_units() {
    let s = "a😀é";
    assert_eq!(byte_at_unit(s, 0), 0);
    assert_eq!(byte_at_unit(s, 1), 1);
    // Inside the pair: its start.
    assert_eq!(byte_at_unit(s, 2), 1);
    assert_eq!(byte_at_unit(s, 3), 5);
    assert_eq!(byte_at_unit(s, 4), 7);
    assert_eq!(byte_at_unit(s, 99), 7);
}

fn item(title: &str, badge: Option<&str>, category: &str, icon: bool) -> ResultItem {
    ResultItem {
        plugin: "search",
        title: title.into(),
        badge: badge.map(String::from),
        category: category.into(),
        subtitle: "Application".into(),
        payload: title.into(),
        score: 0,
        icon: icon.then_some(Arc::new(Icon { width: 1, height: 1, bgra: vec![0; 4] })),
    }
}

fn near(at: i128) -> Edge {
    Edge { far: false, at }
}

fn far(at: i128) -> Edge {
    Edge { far: true, at }
}

fn showing(items: Vec<ResultItem>) -> App {
    let mut a = App::new(Vec::new(), &Config::from_text(""));
    a.sections = vec![(0, "Commands")];
    a.results = items;
    a
}

#[test]
fn a_frame_draws_what_a_row_has() {
    let mut a = showing(vec![
        item("Code", Some("vs"), "", true),
        item("Quit", None, "Apex", false),
    ]);
    a.selected = 1;
    let shapes = frame(&a);
    assert!(
        shapes[0]
            == Shape::Fill {
                rect: Rect { left: near(0), top: near(0), right: far(0), bottom: far(0) },
                brush: if a.translucent { Brush::Tint } else { Brush::Solid },
            }
    );
    let has = |f: &dyn Fn(&Shape) -> bool| shapes.iter().any(|s| f(s));
    assert!(has(&|s| matches!(s, Shape::Write { words: Words::Placeholder, .. })));
    assert!(has(&|s| matches!(s, Shape::Write { words: Words::Heading(0), .. })));
    assert!(has(&|s| matches!(s, Shape::Icon { row: 0, .. })));
    assert!(!has(&|s| matches!(s, Shape::Icon { row: 1, .. })));
    assert!(has(&|s| matches!(s, Shape::Pill { words: Words::Badge(0), .. })));
    assert!(!has(&|s| matches!(s, Shape::Pill { words: Words::Badge(1), .. })));
    assert!(has(&|s| matches!(s, Shape::Behind { words: Words::Category(1), .. })));
    assert!(!has(&|s| matches!(s, Shape::Thumb { .. })));
    // The highlight lies where the selected row does.
    let y = (59 + 6 + 26 + 44) * 10;
    assert!(has(&|s| *s
        == Shape::Rounded {
            rect: Rect { left: near(80), top: near(y), right: far(80), bottom: near(y + 440) },
            radius: 80,
            brush: Brush::Select,
        }));
    assert!(matches!(shapes.last(), Some(Shape::Rim { inset: 5, radius: 80 })));
}

#[test]
fn a_long_list_has_a_scrollbar_and_leaves_out_what_is_not_in_sight() {
    let mut a = showing((0..40).map(|i| item(&format!("t{i}"), None, "", false)).collect());
    a.move_selection(-1);
    let shapes = frame(&a);
    let titles: Vec<usize> = shapes
        .iter()
        .filter_map(|s| match s {
            Shape::Write { words: Words::Title(i), .. } => Some(*i),
            _ => None,
        })
        .collect();
    assert_eq!(titles, (31..40).collect::<Vec<usize>>());
    assert_eq!(shapes.iter().filter(|s| matches!(s, Shape::Thumb { .. })).count(), 2);
    // The highlight of the selected row ends where the list does.
    assert!(shapes.iter().any(|s| matches!(
        s,
        Shape::Rounded { rect, brush: Brush::Select, .. } if rect.bottom == near((59 + 364) * 10)
    )));
}

#[test]
fn panels_are_drawn_over_the_list() {
    let mut a = showing(vec![item("Code", None, "", false)]);
    assert!(a.panel_kind() == PanelKind::Nothing);
    a.mode = Mode::Actions {
        actions: vec![
            Action { id: "open", label: "Open".into() },
            Action { id: "reveal", label: "Open in Explorer".into() },
        ],
        selected: 1,
    };
    assert!(a.panel_kind() == PanelKind::Actions { count: 2 });
    let shapes = frame(&a);
    // 42 from the bottom, two actions of 32, 6 of padding on either side.
    assert!(shapes.contains(&Shape::Rounded {
        rect: Rect { left: far(3080), top: far(1180), right: far(80), bottom: far(420) },
        radius: 100,
        brush: Brush::Panel,
    }));
    assert!(shapes.contains(&Shape::Rounded {
        rect: Rect { left: far(3020), top: far(800), right: far(140), bottom: far(480) },
        radius: 60,
        brush: Brush::Select,
    }));

    a.mode = Mode::TextInput {
        prompt: "query".into(),
        action_id: "fill",
        buffer: TextField::default(),
    };
    assert!(a.panel_kind() == PanelKind::TextInput);
    let shapes = frame(&a);
    assert!(shapes
        .iter()
        .any(|s| matches!(s, Shape::Edit { which: Editable::Prompt, caret: Some(90), .. })));
    // The caret of the query is gone meanwhile.
    assert!(shapes
        .iter()
        .any(|s| matches!(s, Shape::Edit { which: Editable::Query, caret: None, .. })));
    assert_eq!(prompt_text("query"), "query: ");

    let line = |l: &str| FormEntry { label: l.into(), value: TextField::default() };
    a.mode = Mode::Form {
        title: "New".into(),
        action_id: "create",
        fields: vec![line("Name"), line("Link")],
        focused: 1,
    };
    assert!(a.panel_kind() == PanelKind::Form { fields: 2 });
    let shapes = frame(&a);
    assert!(shapes
        .iter()
        .any(|s| matches!(s, Shape::Edit { which: Editable::Line(0), caret: None, .. })));
    assert!(shapes
        .iter()
        .any(|s| matches!(s, Shape::Edit { which: Editable::Line(1), caret: Some(80), .. })));
    assert!(shapes.iter().any(|s| matches!(s, Shape::Write { words: Words::FormTitle, .. })));
}
