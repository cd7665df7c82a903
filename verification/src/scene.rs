//! What a frame of the window shows: a list of shapes, in the order they are
//! drawn.
//!
//! Lengths are in tenths of a DIP. Every edge is measured from one side of the
//! window, so that the frame is the same whatever the window's exact size in
//! pixels. How wide a text is only the one who draws it knows; what stands
//! behind a text says how far behind.
use vstd::prelude::*;
use vstd::string::*;

use crate::app::{self, App, Mode, Screen, State};
use crate::pieces;
use crate::plugin::{self, ResultItem, Row};
use crate::render::{self, PanelKind, Thumb};
use crate::text::same;

verus! {

/// How far text keeps from the sides of the window.
pub const PAD: i128 = 200;

/// How far the highlight of a row keeps from the sides of the window.
pub const SEL_MARGIN: i128 = 80;

/// Height of a row of the list.
pub const ROW: i128 = 440;

/// Width and height of an icon.
pub const ICON: i128 = 260;

/// Where titles start, right of the icons.
pub const TITLE_LEFT: i128 = 580;

/// Height of the bar at the bottom.
pub const BAR: i128 = 340;

/// Height of an action of the panel.
pub const ACTION: i128 = 320;

/// Height of a line of a form.
pub const LINE: i128 = 500;

/// Height of the title of a form.
pub const FORM_TITLE: i128 = 280;

/// What a shape is filled with.
#[derive(Clone, Copy, PartialEq, Eq, Structural)]
pub enum Brush {
    /// The tint over what is behind the window.
    Tint,
    /// The background when nothing is to be seen through it.
    Solid,
    Text,
    Dim,
    Faint,
    Select,
    Panel,
    BadgeText,
    Track,
    Halo,
    Thumb,
}

/// A text format.
#[derive(Clone, Copy, PartialEq, Eq, Structural)]
pub enum Face {
    Input,
    Title,
    /// Small, and set against the right.
    Subtitle,
    SubtitleLeft,
    Panel,
    Badge,
    Header,
}

/// A text of the frame.
#[derive(Clone, Copy, PartialEq, Eq, Structural)]
pub enum Words {
    Placeholder,
    /// The program's name.
    Name,
    Hint,
    /// The heading of a section.
    Heading(usize),
    Title(usize),
    Category(usize),
    Badge(usize),
    Subtitle(usize),
    /// An action of the panel.
    Action(usize),
    /// What is asked for.
    Prompt,
    FormTitle,
    /// The label of a line of the form.
    Label(usize),
}

/// An editable text of the frame.
#[derive(Clone, Copy, PartialEq, Eq, Structural)]
pub enum Editable {
    Query,
    Prompt,
    /// A line of the form.
    Line(usize),
}

/// A place along one side: so far from the left or top, or, if `far`, from the
/// right or bottom.
#[derive(Clone, Copy, PartialEq, Eq, Structural)]
pub struct Edge {
    pub far: bool,
    pub at: i128,
}

#[derive(Clone, Copy, PartialEq, Eq, Structural)]
pub struct Rect {
    pub left: Edge,
    pub top: Edge,
    pub right: Edge,
    pub bottom: Edge,
}

/// One step of drawing.
#[derive(Clone, Copy, PartialEq, Eq, Structural)]
pub enum Shape {
    Fill { rect: Rect, brush: Brush },
    /// A box with rounded corners.
    Rounded { rect: Rect, radius: i128, brush: Brush },
    Write { words: Words, rect: Rect, face: Face, brush: Brush },
    /// A text that starts `gap` behind the last one.
    Behind { words: Words, gap: i128, top: Edge, right: Edge, bottom: Edge, face: Face, brush: Brush },
    /// A text in a pill that starts `gap` behind the last one, with `pad` on
    /// either side of the text, and the text `dy` lower.
    Pill { words: Words, gap: i128, pad: i128, dy: i128, top: Edge, bottom: Edge, radius: i128 },
    /// The icon of a row.
    Icon { row: usize, rect: Rect },
    /// An editable text. It starts `behind` the last text, where that is
    /// given; `caret` is half the height of its caret, where it has one.
    Edit { which: Editable, rect: Rect, behind: Option<i128>, caret: Option<i128>, face: Face },
    /// Nothing more is drawn outside the box.
    Clip { rect: Rect },
    /// Everything is drawn again.
    Unclip,
    /// The thumb of the scrollbar, made larger by `grown` on every side.
    Thumb { thumb: Thumb, grown: i128, brush: Brush },
    /// The edge of the window.
    Rim { inset: i128, radius: i128 },
}

// ---- what a frame holds ------------------------------------------------------------------

/// So far from the left or top.
pub open spec fn near(at: int) -> Edge {
    Edge { far: false, at: at as i128 }
}

/// So far from the right or bottom.
pub open spec fn far(at: int) -> Edge {
    Edge { far: true, at: at as i128 }
}

pub open spec fn within(left: Edge, top: Edge, right: Edge, bottom: Edge) -> Rect {
    Rect { left, top, right, bottom }
}

/// Everything the input shows. It has the caret while nothing lies over the
/// list.
pub open spec fn input_shapes(s: State) -> Seq<Shape> {
    let rect = within(near(PAD as int), near(0), far(PAD as int), near(render::INPUT_H * 10));
    let field = Shape::Edit {
        which: Editable::Query,
        rect,
        behind: None,
        caret: if s.mode is Search {
            Some(120i128)
        } else {
            None
        },
        face: Face::Input,
    };
    if s.query.text.len() == 0 {
        seq![
            Shape::Write { words: Words::Placeholder, rect, face: Face::Input, brush: Brush::Dim },
            field,
        ]
    } else {
        seq![field]
    }
}

/// The heading of a section, if it is in sight.
pub open spec fn heading_shapes(s: State, k: int) -> Seq<Shape> {
    let top = render::row_top(s.sections, s.sections[k].0, s.scroll) - render::HEADER_H * 10;
    if render::reaches_list(top, render::HEADER_H * 10) {
        seq![
            Shape::Write {
                words: Words::Heading(k as usize),
                rect: within(near(PAD as int), near(top), far(PAD as int), near(top + render::HEADER_H * 10)),
                face: Face::Header,
                brush: Brush::Dim,
            },
        ]
    } else {
        Seq::empty()
    }
}

/// The headings of the first `k` sections.
pub open spec fn headings_shapes(s: State, k: int) -> Seq<Shape>
    decreases k,
{
    if k <= 0 {
        Seq::empty()
    } else {
        headings_shapes(s, k - 1) + heading_shapes(s, k - 1)
    }
}

/// The shape, or nothing.
pub open spec fn only_if(c: bool, x: Shape) -> Seq<Shape> {
    if c {
        seq![x]
    } else {
        Seq::empty()
    }
}

/// The highlight of a row that starts at `y`.
pub open spec fn mark_at(y: int) -> Shape {
    Shape::Rounded {
        rect: within(near(SEL_MARGIN as int), near(y), far(SEL_MARGIN as int), near(y + ROW)),
        radius: 80,
        brush: Brush::Select,
    }
}

pub open spec fn icon_at(i: usize, y: int) -> Shape {
    Shape::Icon {
        row: i,
        rect: within(near(PAD as int), near(y + 90), near(PAD + ICON), near(y + 90 + ICON)),
    }
}

pub open spec fn title_at(i: usize, y: int) -> Shape {
    Shape::Write {
        words: Words::Title(i),
        rect: within(near(TITLE_LEFT as int), near(y), far(PAD as int), near(y + ROW)),
        face: Face::Title,
        brush: Brush::Text,
    }
}

pub open spec fn category_at(i: usize, y: int) -> Shape {
    Shape::Behind {
        words: Words::Category(i),
        gap: 80,
        top: near(y),
        right: far(PAD as int),
        bottom: near(y + ROW),
        face: Face::Title,
        brush: Brush::Dim,
    }
}

pub open spec fn badge_at(i: usize, y: int) -> Shape {
    Shape::Pill {
        words: Words::Badge(i),
        gap: 90,
        pad: 80,
        dy: 15,
        top: near(y + 120),
        bottom: near(y + 320),
        radius: 60,
    }
}

pub open spec fn subtitle_at(i: usize, y: int) -> Shape {
    Shape::Write {
        words: Words::Subtitle(i),
        rect: within(near(PAD as int), near(y), far(PAD as int), near(y + ROW)),
        face: Face::Subtitle,
        brush: Brush::Dim,
    }
}

/// A row of the list that starts at `y`: its highlight, icon and title, then
/// category and badge behind the title, and the subtitle at the right.
pub open spec fn row_at(row: Row, i: usize, chosen: bool, y: int) -> Seq<Shape> {
    only_if(chosen, mark_at(y)) + only_if(row.icon is Some, icon_at(i, y)) + only_if(
        true,
        title_at(i, y),
    ) + only_if(row.category.len() > 0, category_at(i, y)) + only_if(
        row.badge is Some,
        badge_at(i, y),
    ) + only_if(row.subtitle.len() > 0, subtitle_at(i, y))
}

/// A row of the list, if it is in sight.
pub open spec fn row_shapes(s: State, i: int) -> Seq<Shape> {
    let y = render::row_top(s.sections, i, s.scroll);
    if render::reaches_list(y, render::ROW_H * 10) {
        row_at(s.results[i], i as usize, i == s.selected, y)
    } else {
        Seq::empty()
    }
}

/// The first `k` rows.
pub open spec fn rows_shapes(s: State, k: int) -> Seq<Shape>
    decreases k,
{
    if k <= 0 {
        Seq::empty()
    } else {
        rows_shapes(s, k - 1) + row_shapes(s, k - 1)
    }
}

/// The list, cut off where the input and the bar are.
pub open spec fn list_shapes(s: State) -> Seq<Shape> {
    seq![
        Shape::Fill {
            rect: within(near(0), near(render::INPUT_H * 10), far(0), near(render::LIST_TOP * 10)),
            brush: Brush::Faint,
        },
        Shape::Clip { rect: within(
                near(0),
                near(render::LIST_TOP * 10),
                far(0),
                near((render::LIST_TOP + render::LIST_VIEWPORT_H) * 10),
            ) },
    ] + headings_shapes(s, s.sections.len() as int) + rows_shapes(s, s.results.len() as int)
        + seq![Shape::Unclip]
}

/// The scrollbar, when the list is longer than what is in sight: a track, and
/// the thumb with a halo.
pub open spec fn scrollbar_shapes(s: State) -> Seq<Shape> {
    match render::thumb_of(s.results.len() as int, s.sections.len() as int, s.scroll) {
        Some(thumb) => seq![
            Shape::Rounded {
                rect: within(far(100), near(630), far(40), near(4190)),
                radius: 30,
                brush: Brush::Track,
            },
            Shape::Thumb { thumb, grown: 10, brush: Brush::Halo },
            Shape::Thumb { thumb, grown: 0, brush: Brush::Thumb },
        ],
        None => Seq::empty(),
    }
}

/// The bar at the bottom: the program's name, and what the keys do.
pub open spec fn bar_shapes() -> Seq<Shape> {
    let rect = within(near(PAD as int), far(BAR as int), far(PAD as int), far(0));
    seq![
        Shape::Fill {
            rect: within(near(0), far(BAR as int), far(0), far(BAR - 10)),
            brush: Brush::Faint,
        },
        Shape::Write { words: Words::Name, rect, face: Face::SubtitleLeft, brush: Brush::Dim },
        Shape::Write { words: Words::Hint, rect, face: Face::Subtitle, brush: Brush::Dim },
    ]
}

/// What lies over the list.
pub open spec fn kind_of(mode: Screen) -> PanelKind {
    match mode {
        Screen::Search => PanelKind::Nothing,
        Screen::Actions { actions, .. } => PanelKind::Actions { count: actions.len() as usize },
        Screen::TextInput { .. } => PanelKind::TextInput,
        Screen::Form { fields, .. } => PanelKind::Form { fields: fields.len() as usize },
    }
}

/// An action of a panel whose content starts `t` from the bottom.
pub open spec fn action_shapes(i: int, chosen: bool, t: int) -> Seq<Shape> {
    let top = t - i * ACTION;
    only_if(
        chosen,
        Shape::Rounded {
            rect: within(far(3020), far(top), far(140), far(top - ACTION)),
            radius: 60,
            brush: Brush::Select,
        },
    ).push(
        Shape::Write {
            words: Words::Action(i as usize),
            rect: within(far(2920), far(top), far(240), far(top - ACTION)),
            face: Face::Panel,
            brush: Brush::Text,
        },
    )
}

/// The first `k` actions.
pub open spec fn actions_shapes(k: int, selected: int, t: int) -> Seq<Shape>
    decreases k,
{
    if k <= 0 {
        Seq::empty()
    } else {
        actions_shapes(k - 1, selected, t) + action_shapes(k - 1, k - 1 == selected, t)
    }
}

/// A line of a form whose lines start `t` from the bottom: its label, and its
/// value under it.
pub open spec fn line_shapes(i: int, focused: bool, t: int) -> Seq<Shape> {
    let top = t - i * LINE;
    only_if(
        focused,
        Shape::Rounded {
            rect: within(far(4620), far(top), far(140), far(top - LINE)),
            radius: 60,
            brush: Brush::Select,
        },
    ) + seq![
        Shape::Write {
            words: Words::Label(i as usize),
            rect: within(far(4520), far(top - 30), far(240), far(top - 210)),
            face: Face::SubtitleLeft,
            brush: Brush::Dim,
        },
        Shape::Edit {
            which: Editable::Line(i as usize),
            rect: within(far(4520), far(top - 180), far(240), far(top - LINE)),
            behind: None,
            caret: if focused {
                Some(80i128)
            } else {
                None
            },
            face: Face::Panel,
        },
    ]
}

/// The first `k` lines.
pub open spec fn lines_shapes(k: int, focused: int, t: int) -> Seq<Shape>
    decreases k,
{
    if k <= 0 {
        Seq::empty()
    } else {
        lines_shapes(k - 1, focused, t) + line_shapes(k - 1, k - 1 == focused, t)
    }
}

/// What stands in the panel, whose content starts `t` from the bottom.
pub open spec fn content_shapes(mode: Screen, t: int) -> Seq<Shape> {
    match mode {
        Screen::Search => Seq::empty(),
        Screen::Actions { actions, selected } => actions_shapes(actions.len() as int, selected, t),
        Screen::TextInput { .. } => {
            let rect = within(far(2920), far(t), far(240), far(480));
            seq![
                Shape::Write { words: Words::Prompt, rect, face: Face::Panel, brush: Brush::Dim },
                Shape::Edit {
                    which: Editable::Prompt,
                    rect,
                    behind: Some(80i128),
                    caret: Some(90i128),
                    face: Face::Panel,
                },
            ]
        },
        Screen::Form { fields, focused, .. } => seq![
            Shape::Write {
                words: Words::FormTitle,
                rect: within(far(4520), far(t), far(240), far(t - FORM_TITLE)),
                face: Face::Panel,
                brush: Brush::Dim,
            },
        ] + lines_shapes(fields.len() as int, focused, t - FORM_TITLE),
    }
}

/// The panel in the corner, if there is one.
pub open spec fn panel_shapes(mode: Screen) -> Seq<Shape> {
    match render::panel_corner(kind_of(mode)) {
        Some(c) => {
            let top = (c.bottom + c.height) * 10;
            seq![
                Shape::Rounded {
                    rect: within(
                        far((c.right + c.width) * 10),
                        far(top),
                        far(c.right * 10),
                        far(c.bottom * 10),
                    ),
                    radius: 100,
                    brush: Brush::Panel,
                },
            ] + content_shapes(mode, top - 60)
        },
        None => Seq::empty(),
    }
}

/// The whole frame, from the background up to the window's edge.
pub open spec fn frame_of(s: State, translucent: bool) -> Seq<Shape> {
    seq![
        Shape::Fill {
            rect: within(near(0), near(0), far(0), far(0)),
            brush: if translucent {
                Brush::Tint
            } else {
                Brush::Solid
            },
        },
    ] + input_shapes(s) + list_shapes(s) + scrollbar_shapes(s) + bar_shapes() + panel_shapes(
        s.mode,
    ) + seq![Shape::Rim { inset: 5, radius: 80 }]
}

/// The tenths used here are those of the layout.
pub proof fn law_the_frame_follows_the_layout()
    ensures
        PAD == render::PAD_X * 10,
        ROW == render::ROW_H * 10,
        ICON == render::ICON_SIZE * 10,
        TITLE_LEFT == (render::PAD_X + render::ICON_SIZE + render::ICON_GAP) * 10,
        BAR == render::BAR_H * 10,
        ACTION == render::PANEL_ROW * 10,
        LINE == render::FORM_ROW * 10,
        FORM_TITLE == render::FORM_TITLE_H * 10,
        render::TRACK_H == render::LIST_VIEWPORT_H - render::SCROLLBAR_PAD * 2,
{
}

// ---- making a frame --------------------------------------------------------------------------

fn near_edge(at: i128) -> (r: Edge)
    ensures
        r == near(at as int),
{
    Edge { far: false, at }
}

fn far_edge(at: i128) -> (r: Edge)
    ensures
        r == far(at as int),
{
    Edge { far: true, at }
}

fn rect(left: Edge, top: Edge, right: Edge, bottom: Edge) -> (r: Rect)
    ensures
        r == within(left, top, right, bottom),
{
    Rect { left, top, right, bottom }
}

/// Adds a shape, or nothing.
fn push_if(out: &mut Vec<Shape>, c: bool, shape: Shape)
    ensures
        final(out)@ == old(out)@ + only_if(c, shape),
{
    let ghost before = out@;
    if c {
        out.push(shape);
    }
    assert(out@ =~= before + only_if(c, shape));
}

proof fn lemma_six(
    s: Seq<Shape>,
    a: Seq<Shape>,
    b: Seq<Shape>,
    c: Seq<Shape>,
    d: Seq<Shape>,
    e: Seq<Shape>,
    f: Seq<Shape>,
)
    ensures
        s + a + b + c + d + e + f == s + (a + b + c + d + e + f),
{
    assert(s + a + b + c + d + e + f =~= s + (a + b + c + d + e + f));
}

/// Adds a row of the list that starts at `y`.
fn push_row(out: &mut Vec<Shape>, item: &ResultItem, i: usize, chosen: bool, y: i128)
    requires
        -0x1_0000_0000_0000_0000_0000 <= y <= 0x1_0000_0000_0000_0000_0000_0000,
    ensures
        final(out)@ == old(out)@ + row_at(item@, i, chosen, y as int),
{
    let ghost before = out@;
    let (top, bottom) = (near_edge(y), near_edge(y + ROW));
    let has_category = !same(item.category.as_str(), "");
    let has_subtitle = !same(item.subtitle.as_str(), "");
    proof {
        reveal_strlit("");
        assert(item.category@.len() == 0 ==> item.category@ =~= ""@);
        assert(item.subtitle@.len() == 0 ==> item.subtitle@ =~= ""@);
    }
    let mark = Shape::Rounded {
        rect: rect(near_edge(SEL_MARGIN), top, far_edge(SEL_MARGIN), bottom),
        radius: 80,
        brush: Brush::Select,
    };
    let icon = Shape::Icon {
        row: i,
        rect: rect(
            near_edge(PAD),
            near_edge(y + 90),
            near_edge(PAD + ICON),
            near_edge(y + 90 + ICON),
        ),
    };
    let title = Shape::Write {
        words: Words::Title(i),
        rect: rect(near_edge(TITLE_LEFT), top, far_edge(PAD), bottom),
        face: Face::Title,
        brush: Brush::Text,
    };
    let category = Shape::Behind {
        words: Words::Category(i),
        gap: 80,
        top,
        right: far_edge(PAD),
        bottom,
        face: Face::Title,
        brush: Brush::Dim,
    };
    let badge = Shape::Pill {
        words: Words::Badge(i),
        gap: 90,
        pad: 80,
        dy: 15,
        top: near_edge(y + 120),
        bottom: near_edge(y + 320),
        radius: 60,
    };
    let subtitle = Shape::Write {
        words: Words::Subtitle(i),
        rect: rect(near_edge(PAD), top, far_edge(PAD), bottom),
        face: Face::Subtitle,
        brush: Brush::Dim,
    };
    assert(mark == mark_at(y as int) && icon == icon_at(i, y as int));
    assert(title == title_at(i, y as int) && category == category_at(i, y as int));
    assert(badge == badge_at(i, y as int) && subtitle == subtitle_at(i, y as int));
    push_if(out, chosen, mark);
    push_if(out, item.icon.is_some(), icon);
    push_if(out, true, title);
    push_if(out, has_category, category);
    push_if(out, item.badge.is_some(), badge);
    push_if(out, has_subtitle, subtitle);
    proof {
        lemma_six(
            before,
            only_if(chosen, mark),
            only_if(item@.icon is Some, icon),
            only_if(true, title),
            only_if(has_category, category),
            only_if(item@.badge is Some, badge),
            only_if(has_subtitle, subtitle),
        );
    }
}

impl App {
    /// What lies over the list.
    pub fn panel_kind(&self) -> (r: PanelKind)
        ensures
            r == kind_of(self.state().mode),
    {
        match &self.mode {
            Mode::Search => PanelKind::Nothing,
            Mode::Actions { actions, .. } => PanelKind::Actions {
                count: actions.len(),
            },
            Mode::TextInput { .. } => PanelKind::TextInput,
            Mode::Form { fields, .. } => PanelKind::Form { fields: fields.len() },
        }
    }
}

fn push_input(out: &mut Vec<Shape>, app: &App)
    ensures
        final(out)@ == old(out)@ + input_shapes(app.state()),
{
    let ghost before = out@;
    let r = rect(
        near_edge(PAD),
        near_edge(0),
        far_edge(PAD),
        near_edge(render::INPUT_H * 10),
    );
    if app.query.is_empty() {
        out.push(
            Shape::Write {
                words: Words::Placeholder,
                rect: r,
                face: Face::Input,
                brush: Brush::Dim,
            },
        );
    }
    let caret: Option<i128> = match &app.mode {
        Mode::Search => Some(120),
        _ => None,
    };
    out.push(
        Shape::Edit { which: Editable::Query, rect: r, behind: None, caret, face: Face::Input },
    );
    assert(out@ =~= before + input_shapes(app.state()));
}

fn push_headings(out: &mut Vec<Shape>, app: &App)
    ensures
        final(out)@ == old(out)@ + headings_shapes(
            app.state(),
            app.state().sections.len() as int,
        ),
{
    let ghost before = out@;
    let ghost s = app.state();
    let mut k: usize = 0;
    assert(out@ =~= before + headings_shapes(s, 0));
    while k < app.sections.len()
        invariant
            k <= app.sections@.len() == s.sections.len(),
            s == app.state(),
            out@ == before + headings_shapes(s, k as int),
        decreases app.sections@.len() - k,
    {
        assert(s.sections[k as int].0 == app.sections@[k as int].0);
        match render::place_heading(&app.sections, app.sections[k].0, app.scroll) {
            Some(top) => {
                let shape = Shape::Write {
                    words: Words::Heading(k),
                    rect: rect(
                        near_edge(PAD),
                        near_edge(top),
                        far_edge(PAD),
                        near_edge(top + render::HEADER_H * 10),
                    ),
                    face: Face::Header,
                    brush: Brush::Dim,
                };
                out.push(shape);
                assert(heading_shapes(s, k as int) =~= seq![shape]);
            },
            None => {},
        }
        assert(out@ =~= before + headings_shapes(s, k + 1));
        k += 1;
    }
}

fn push_rows(out: &mut Vec<Shape>, app: &App)
    ensures
        final(out)@ == old(out)@ + rows_shapes(app.state(), app.state().results.len() as int),
{
    let ghost before = out@;
    let ghost s = app.state();
    let mut i: usize = 0;
    assert(out@ =~= before + rows_shapes(s, 0));
    while i < app.results.len()
        invariant
            i <= app.results@.len() == s.results.len(),
            s == app.state(),
            out@ == before + rows_shapes(s, i as int),
        decreases app.results@.len() - i,
    {
        assert(s.results[i as int] == app.results@[i as int]@);
        let ghost so_far = out@;
        match render::place_row(&app.sections, i, app.scroll) {
            Some(y) => {
                push_row(out, &app.results[i], i, i == app.selected, y);
            },
            None => {},
        }
        assert(out@ =~= so_far + row_shapes(s, i as int));
        assert(out@ =~= before + rows_shapes(s, i + 1));
        i += 1;
    }
}

fn push_list(out: &mut Vec<Shape>, app: &App)
    ensures
        final(out)@ == old(out)@ + list_shapes(app.state()),
{
    let ghost before = out@;
    out.push(
        Shape::Fill {
            rect: rect(
                near_edge(0),
                near_edge(render::INPUT_H * 10),
                far_edge(0),
                near_edge(render::LIST_TOP * 10),
            ),
            brush: Brush::Faint,
        },
    );
    out.push(
        Shape::Clip {
            rect: rect(
                near_edge(0),
                near_edge(render::LIST_TOP * 10),
                far_edge(0),
                near_edge((render::LIST_TOP + render::LIST_VIEWPORT_H) * 10),
            ),
        },
    );
    push_headings(out, app);
    push_rows(out, app);
    out.push(Shape::Unclip);
    assert(out@ =~= before + list_shapes(app.state()));
}

fn push_scrollbar(out: &mut Vec<Shape>, app: &App)
    ensures
        final(out)@ == old(out)@ + scrollbar_shapes(app.state()),
{
    let ghost before = out@;
    assert(app.state().results.len() == app.results@.len());
    assert(app.state().sections.len() == app.sections@.len());
    match render::thumb(app.results.len(), app.sections.len(), app.scroll) {
        Some(thumb) => {
            out.push(
                Shape::Rounded {
                    rect: rect(far_edge(100), near_edge(630), far_edge(40), near_edge(4190)),
                    radius: 30,
                    brush: Brush::Track,
                },
            );
            out.push(Shape::Thumb { thumb, grown: 10, brush: Brush::Halo });
            out.push(Shape::Thumb { thumb, grown: 0, brush: Brush::Thumb });
        },
        None => {},
    }
    assert(out@ =~= before + scrollbar_shapes(app.state()));
}

fn push_bar(out: &mut Vec<Shape>)
    ensures
        final(out)@ == old(out)@ + bar_shapes(),
{
    let ghost before = out@;
    let r = rect(near_edge(PAD), far_edge(BAR), far_edge(PAD), far_edge(0));
    out.push(
        Shape::Fill {
            rect: rect(near_edge(0), far_edge(BAR), far_edge(0), far_edge(BAR - 10)),
            brush: Brush::Faint,
        },
    );
    out.push(
        Shape::Write {
            words: Words::Name,
            rect: r,
            face: Face::SubtitleLeft,
            brush: Brush::Dim,
        },
    );
    out.push(
        Shape::Write { words: Words::Hint, rect: r, face: Face::Subtitle, brush: Brush::Dim },
    );
    assert(out@ =~= before + bar_shapes());
}

fn push_actions(out: &mut Vec<Shape>, count: usize, selected: usize, t: i128)
    requires
        -0x1_0000_0000_0000_0000_0000_0000 <= t <= 0x1_0000_0000_0000_0000_0000_0000,
    ensures
        final(out)@ == old(out)@ + actions_shapes(count as int, selected as int, t as int),
{
    let ghost before = out@;
    let mut i: usize = 0;
    assert(count <= 0xFFFF_FFFF_FFFF_FFFF);
    assert(out@ =~= before + actions_shapes(0, selected as int, t as int));
    while i < count
        invariant
            i <= count <= 0xFFFF_FFFF_FFFF_FFFF,
            -0x1_0000_0000_0000_0000_0000_0000 <= t <= 0x1_0000_0000_0000_0000_0000_0000,
            out@ == before + actions_shapes(i as int, selected as int, t as int),
        decreases count - i,
    {
        let ghost so_far = out@;
        let top: i128 = t - i as i128 * ACTION;
        if i == selected {
            out.push(
                Shape::Rounded {
                    rect: rect(
                        far_edge(3020),
                        far_edge(top),
                        far_edge(140),
                        far_edge(top - ACTION),
                    ),
                    radius: 60,
                    brush: Brush::Select,
                },
            );
        }
        out.push(
            Shape::Write {
                words: Words::Action(i),
                rect: rect(far_edge(2920), far_edge(top), far_edge(240), far_edge(top - ACTION)),
                face: Face::Panel,
                brush: Brush::Text,
            },
        );
        assert(out@ =~= so_far + action_shapes(i as int, i == selected, t as int));
        assert(out@ =~= before + actions_shapes(i + 1, selected as int, t as int));
        i += 1;
    }
}

fn push_lines(out: &mut Vec<Shape>, count: usize, focused: usize, t: i128)
    requires
        -0x1_0000_0000_0000_0000_0000_0000 <= t <= 0x1_0000_0000_0000_0000_0000_0000,
    ensures
        final(out)@ == old(out)@ + lines_shapes(count as int, focused as int, t as int),
{
    let ghost before = out@;
    let mut i: usize = 0;
    assert(count <= 0xFFFF_FFFF_FFFF_FFFF);
    assert(out@ =~= before + lines_shapes(0, focused as int, t as int));
    while i < count
        invariant
            i <= count <= 0xFFFF_FFFF_FFFF_FFFF,
            -0x1_0000_0000_0000_0000_0000_0000 <= t <= 0x1_0000_0000_0000_0000_0000_0000,
            out@ == before + lines_shapes(i as int, focused as int, t as int),
        decreases count - i,
    {
        let ghost so_far = out@;
        let top: i128 = t - i as i128 * LINE;
        let caret: Option<i128> = if i == focused {
            Some(80)
        } else {
            None
        };
        if i == focused {
            out.push(
                Shape::Rounded {
                    rect: rect(
                        far_edge(4620),
                        far_edge(top),
                        far_edge(140),
                        far_edge(top - LINE),
                    ),
                    radius: 60,
                    brush: Brush::Select,
                },
            );
        }
        out.push(
            Shape::Write {
                words: Words::Label(i),
                rect: rect(
                    far_edge(4520),
                    far_edge(top - 30),
                    far_edge(240),
                    far_edge(top - 210),
                ),
                face: Face::SubtitleLeft,
                brush: Brush::Dim,
            },
        );
        out.push(
            Shape::Edit {
                which: Editable::Line(i),
                rect: rect(
                    far_edge(4520),
                    far_edge(top - 180),
                    far_edge(240),
                    far_edge(top - LINE),
                ),
                behind: None,
                caret,
                face: Face::Panel,
            },
        );
        assert(out@ =~= so_far + line_shapes(i as int, i == focused, t as int));
        assert(out@ =~= before + lines_shapes(i + 1, focused as int, t as int));
        i += 1;
    }
}

fn push_panel(out: &mut Vec<Shape>, app: &App)
    ensures
        final(out)@ == old(out)@ + panel_shapes(app.state().mode),
{
    let ghost before = out@;
    let ghost mode = app.state().mode;
    let c = match render::panel_box(app.panel_kind()) {
        Some(c) => c,
        None => {
            assert(out@ =~= before + panel_shapes(mode));
            return;
        },
    };
    let top: i128 = (c.bottom + c.height) * 10;
    let t: i128 = top - 60;
    let shape = Shape::Rounded {
        rect: rect(
            far_edge((c.right + c.width) * 10),
            far_edge(top),
            far_edge(c.right * 10),
            far_edge(c.bottom * 10),
        ),
        radius: 100,
        brush: Brush::Panel,
    };
    out.push(shape);
    let ghost boxed = out@;
    match &app.mode {
        Mode::Search => {},
        Mode::Actions { actions, selected } => {
            assert(plugin::offers(actions@).len() == actions@.len());
            push_actions(out, actions.len(), *selected, t);
        },
        Mode::TextInput { .. } => {
            let r = rect(far_edge(2920), far_edge(t), far_edge(240), far_edge(480));
            out.push(
                Shape::Write {
                    words: Words::Prompt,
                    rect: r,
                    face: Face::Panel,
                    brush: Brush::Dim,
                },
            );
            out.push(
                Shape::Edit {
                    which: Editable::Prompt,
                    rect: r,
                    behind: Some(80),
                    caret: Some(90),
                    face: Face::Panel,
                },
            );
        },
        Mode::Form { fields, focused, .. } => {
            assert(app::form_lines(fields@).len() == fields@.len());
            out.push(
                Shape::Write {
                    words: Words::FormTitle,
                    rect: rect(
                        far_edge(4520),
                        far_edge(t),
                        far_edge(240),
                        far_edge(t - FORM_TITLE),
                    ),
                    face: Face::Panel,
                    brush: Brush::Dim,
                },
            );
            push_lines(out, fields.len(), *focused, t - FORM_TITLE);
        },
    }
    assert(out@ =~= boxed + content_shapes(mode, t as int));
    assert(out@ =~= before + panel_shapes(mode));
}

/// The frame of the launcher as it is.
pub fn frame(app: &App) -> (out: Vec<Shape>)
    ensures
        out@ == frame_of(app.state(), app.translucent),
{
    let mut out: Vec<Shape> = Vec::new();
    let brush = if app.translucent {
        Brush::Tint
    } else {
        Brush::Solid
    };
    out.push(
        Shape::Fill {
            rect: rect(near_edge(0), near_edge(0), far_edge(0), far_edge(0)),
            brush,
        },
    );
    push_input(&mut out, app);
    push_list(&mut out, app);
    push_scrollbar(&mut out, app);
    push_bar(&mut out);
    push_panel(&mut out, app);
    out.push(Shape::Rim { inset: 5, radius: 80 });
    assert(out@ =~= frame_of(app.state(), app.translucent));
    out
}

/// What is asked for, as it stands before the answer.
pub fn prompt_text(prompt: &str) -> (r: String)
    ensures
        r@ == prompt@ + ": "@,
{
    pieces::concat(prompt, ": ")
}

} // verus!
