//! What is drawn: where rows, headings and panels stand, and that a frame shows
//! what there is to show.
use vstd::prelude::*;
use vstd::string::*;

use crate::app::{Screen, State};
use crate::plugin::Row;
use crate::render::{self, PanelKind};
use crate::scene::{self, Brush, Edge, Editable, Face, Rect, Shape, Words};

verus! {

// ---- the list ----------------------------------------------------------------------------------

proof fn lemma_headers(sections: Seq<(int, Seq<char>)>, i: int)
    ensures
        (forall|k: int| 0 <= k < sections.len() ==> (#[trigger] sections[k]).0 != i)
            ==> render::headers_above(sections, i) == render::headers_above(sections, i - 1),
        render::headers_above(sections, i - 1) <= render::headers_above(sections, i),
    decreases sections.len(),
{
    if sections.len() > 0 {
        let t = sections.drop_last();
        lemma_headers(t, i);
        if forall|k: int| 0 <= k < sections.len() ==> (#[trigger] sections[k]).0 != i {
            assert(sections[sections.len() - 1].0 != i);
            assert forall|k: int| 0 <= k < t.len() implies (#[trigger] t[k]).0 != i by {
                assert(t[k] == sections[k]);
            }
        }
    }
}

/// The first row stands six units down the list; every row is forty-four tall
/// and follows the one before, with a heading of twenty-six in between where a
/// section starts with it.
pub proof fn law_where_rows_stand(sections: Seq<(int, Seq<char>)>, head: (int, Seq<char>), i: int)
    ensures
        render::offset_of_row(Seq::empty(), i) == 6 + 44 * i,
        render::offset_of_row(sections.push(head), i) == render::offset_of_row(sections, i) + (if head.0
            <= i {
            26int
        } else {
            0
        }),
        (forall|k: int| 0 <= k < sections.len() ==> (#[trigger] sections[k]).0 != i)
            ==> render::offset_of_row(sections, i) == render::offset_of_row(sections, i - 1) + 44,
{
    let more = sections.push(head);
    assert(more.drop_last() =~= sections);
    lemma_headers(sections, i);
}

/// The list is as tall as its rows and headings, with six units at either end;
/// three hundred and sixty-four of it are on screen, and the rest is scrolled
/// to. The window has room for the input, the list and the bar.
pub proof fn law_how_tall_the_list_is(rows: int, headers: int)
    ensures
        render::list_height(rows, headers) == 12 + 44 * rows + 26 * headers,
        render::scroll_limit(rows, headers) == if render::list_height(rows, headers) > 364 {
            (render::list_height(rows, headers) - 364) * 10
        } else {
            0
        },
        render::LIST_TOP + render::LIST_VIEWPORT_H + render::BAR_H == 457,
{
}

/// A row is drawn where it stands in the list, moved up by what is scrolled;
/// what lies outside the list on screen is not drawn.
pub proof fn law_rows_move_with_the_scroll(
    sections: Seq<(int, Seq<char>)>,
    i: int,
    scroll: int,
    by: int,
    top: int,
    height: int,
)
    ensures
        render::row_top(sections, i, 0) == 590 + 10 * render::offset_of_row(sections, i),
        render::row_top(sections, i, scroll + by) == render::row_top(sections, i, scroll) - by,
        render::reaches_list(top, height) <==> top + height >= 590 && top <= 4230,
{
}

// ---- panels ------------------------------------------------------------------------------------

/// A panel lies eight units from the right edge and eight above the bar. That
/// of the actions is three hundred wide and has thirty-two for every action,
/// at least one; that of a line of text is as tall as one action; a form is
/// four hundred and sixty wide and has fifty for every line under its title.
pub proof fn law_where_panels_lie(count: usize, fields: usize)
    ensures
        render::panel_corner(PanelKind::Nothing) is None,
        render::panel_corner(PanelKind::Actions { count }) matches Some(c) && c.width == 300
            && c.height == 12 + 32 * (if count > 1 {
            count as int
        } else {
            1
        }) && c.right == 8 && c.bottom == 42,
        render::panel_corner(PanelKind::TextInput) matches Some(c) && c.width == 300 && c.height
            == 44 && c.right == 8 && c.bottom == 42,
        render::panel_corner(PanelKind::Form { fields }) matches Some(c) && c.width == 460
            && c.height == 40 + 50 * fields && c.right == 8 && c.bottom == 42,
        render::form_window(fields as int) == 149 + 50 * fields,
{
    assert(count <= 0xFFFF_FFFF_FFFF_FFFF && fields <= 0xFFFF_FFFF_FFFF_FFFF);
}

/// The bar names the keys of what has the keyboard.
pub proof fn law_the_bar_names_the_keys(count: usize, fields: usize)
    ensures
        render::hint_for(PanelKind::Nothing) == "Open \u{21b5}      Actions Ctrl+K"@,
        render::hint_for(PanelKind::Actions { count }) == "Run \u{21b5}"@,
        render::hint_for(PanelKind::TextInput) == "Confirm \u{21b5}"@,
        render::hint_for(PanelKind::Form { fields }) == "Save \u{21b5}      Field Tab"@,
{
}

/// There is a scrollbar exactly if the list is longer than what is on screen.
/// Its thumb is to the track what the screen is to the list, but never under
/// thirty-six, and has come as far as the list is scrolled.
pub proof fn law_the_scrollbar(rows: usize, headers: usize, scroll: i64)
    ensures
        ({
            let content = 12 + 44 * rows + 26 * headers;
            let t = render::thumb_of(rows as int, headers as int, scroll as int);
            &&& t is Some <==> content > 364
            &&& t matches Some(t) ==> {
                &&& t.limit == (content - 364) * 10
                &&& t.at == if scroll < 0 {
                    0
                } else if scroll > t.limit {
                    t.limit as int
                } else {
                    scroll as int
                }
                &&& 364 * 356 >= 36 * content ==> t.height * content == 364 * 356 * t.height_per
                &&& 364 * 356 < 36 * content ==> t.height == 36 * t.height_per
            }
        }),
{
    assert(rows <= 0xFFFF_FFFF_FFFF_FFFF && headers <= 0xFFFF_FFFF_FFFF_FFFF);
    let content = 12 + 44 * rows + 26 * headers;
    if let Some(t) = render::thumb_of(rows as int, headers as int, scroll as int) {
        if 364 * 356 >= 36 * content {
            assert(t.height == 364 * 356 && t.height_per == content);
            assert(t.height * content == 364 * 356 * t.height_per) by (nonlinear_arith)
                requires
                    t.height == 364 * 356,
                    t.height_per == content,
            ;
        }
    }
}

// ---- the frame ---------------------------------------------------------------------------------

/// A box that keeps to the left and the right edge.
pub open spec fn band(left: int, top: int, right: int, bottom: int) -> Rect {
    Rect {
        left: Edge { far: false, at: left as i128 },
        top: Edge { far: false, at: top as i128 },
        right: Edge { far: true, at: right as i128 },
        bottom: Edge { far: false, at: bottom as i128 },
    }
}

/// The row is in sight.
pub open spec fn in_sight(s: State, i: int) -> bool {
    &&& 0 <= i < s.results.len()
    &&& render::row_top(s.sections, i, s.scroll) + 440 >= 590
    &&& render::row_top(s.sections, i, s.scroll) <= 4230
}

/// The frame has the shape in its list.
pub open spec fn draws(s: State, translucent: bool, x: Shape) -> bool {
    scene::frame_of(s, translucent).contains(x)
}

proof fn lemma_rows_hold(s: State, k: int, i: int, x: Shape)
    requires
        0 <= i < k,
        scene::row_shapes(s, i).contains(x),
    ensures
        scene::rows_shapes(s, k).contains(x),
    decreases k,
{
    let all = scene::rows_shapes(s, k);
    let before = scene::rows_shapes(s, k - 1);
    let last = scene::row_shapes(s, k - 1);
    if i < k - 1 {
        lemma_rows_hold(s, k - 1, i, x);
        let j = choose|j: int| 0 <= j < before.len() && before[j] == x;
        assert(all[j] == x);
    } else {
        let j = choose|j: int| 0 <= j < last.len() && last[j] == x;
        assert(all[before.len() + j] == x);
    }
}

proof fn lemma_headings_hold(s: State, k: int, i: int, x: Shape)
    requires
        0 <= i < k,
        scene::heading_shapes(s, i).contains(x),
    ensures
        scene::headings_shapes(s, k).contains(x),
    decreases k,
{
    let all = scene::headings_shapes(s, k);
    let before = scene::headings_shapes(s, k - 1);
    let last = scene::heading_shapes(s, k - 1);
    if i < k - 1 {
        lemma_headings_hold(s, k - 1, i, x);
        let j = choose|j: int| 0 <= j < before.len() && before[j] == x;
        assert(all[j] == x);
    } else {
        let j = choose|j: int| 0 <= j < last.len() && last[j] == x;
        assert(all[before.len() + j] == x);
    }
}

proof fn lemma_in_the_middle(a: Seq<Shape>, b: Seq<Shape>, c: Seq<Shape>, x: Shape)
    ensures
        (a + b + c).contains(x) <==> a.contains(x) || b.contains(x) || c.contains(x),
{
    let all = a + b + c;
    if a.contains(x) {
        let j = choose|j: int| 0 <= j < a.len() && a[j] == x;
        assert(all[j] == x);
    }
    if b.contains(x) {
        let j = choose|j: int| 0 <= j < b.len() && b[j] == x;
        assert(all[a.len() + j] == x);
    }
    if c.contains(x) {
        let j = choose|j: int| 0 <= j < c.len() && c[j] == x;
        assert(all[a.len() + b.len() + j] == x);
    }
    if all.contains(x) {
        let j = choose|j: int| 0 <= j < all.len() && all[j] == x;
        if j < a.len() {
            assert(a[j] == x);
        } else if j < a.len() + b.len() {
            assert(b[j - a.len()] == x);
        } else {
            assert(c[j - a.len() - b.len()] == x);
        }
    }
}

proof fn lemma_list_in_frame(s: State, translucent: bool, x: Shape)
    requires
        scene::list_shapes(s).contains(x),
    ensures
        draws(s, translucent, x),
{
    let frame = scene::frame_of(s, translucent);
    let front = seq![frame[0]] + scene::input_shapes(s);
    let list = scene::list_shapes(s);
    let back = scene::scrollbar_shapes(s) + scene::bar_shapes() + scene::panel_shapes(s.mode)
        + seq![Shape::Rim { inset: 5, radius: 80 }];
    assert(frame =~= front + list + back);
    lemma_in_the_middle(front, list, back, x);
}

proof fn lemma_row_in_frame(s: State, translucent: bool, i: int, x: Shape)
    requires
        0 <= i < s.results.len(),
        scene::row_shapes(s, i).contains(x),
    ensures
        draws(s, translucent, x),
{
    let rows = scene::rows_shapes(s, s.results.len() as int);
    lemma_rows_hold(s, s.results.len() as int, i, x);
    let list = scene::list_shapes(s);
    let heads = scene::headings_shapes(s, s.sections.len() as int);
    let first = list.take(2) + heads;
    assert(list =~= first + rows + seq![Shape::Unclip]);
    lemma_in_the_middle(first, rows, seq![Shape::Unclip], x);
    lemma_list_in_frame(s, translucent, x);
}

proof fn lemma_only_if(c: bool, y: Shape, x: Shape)
    ensures
        scene::only_if(c, y).contains(x) <==> c && x == y,
{
    let r = scene::only_if(c, y);
    if c {
        assert(r[0] == y);
    }
}

proof fn lemma_row_has(row: Row, i: usize, chosen: bool, y: int, x: Shape)
    ensures
        scene::row_at(row, i, chosen, y).contains(x) <==> (chosen && x == scene::mark_at(y)) || (
        row.icon is Some && x == scene::icon_at(i, y)) || x == scene::title_at(i, y) || (
        row.category.len() > 0 && x == scene::category_at(i, y)) || (row.badge is Some && x
            == scene::badge_at(i, y)) || (row.subtitle.len() > 0 && x == scene::subtitle_at(i, y)),
{
    let mark = scene::only_if(chosen, scene::mark_at(y));
    let icon = scene::only_if(row.icon is Some, scene::icon_at(i, y));
    let title = scene::only_if(true, scene::title_at(i, y));
    let category = scene::only_if(row.category.len() > 0, scene::category_at(i, y));
    let badge = scene::only_if(row.badge is Some, scene::badge_at(i, y));
    let subtitle = scene::only_if(row.subtitle.len() > 0, scene::subtitle_at(i, y));
    lemma_only_if(chosen, scene::mark_at(y), x);
    lemma_only_if(row.icon is Some, scene::icon_at(i, y), x);
    lemma_only_if(true, scene::title_at(i, y), x);
    lemma_only_if(row.category.len() > 0, scene::category_at(i, y), x);
    lemma_only_if(row.badge is Some, scene::badge_at(i, y), x);
    lemma_only_if(row.subtitle.len() > 0, scene::subtitle_at(i, y), x);
    lemma_in_the_middle(mark, icon, title, x);
    lemma_in_the_middle(mark + icon + title, category, badge, x);
    let five = mark + icon + title + category + badge;
    let none = Seq::<Shape>::empty();
    assert(!none.contains(x));
    assert(five + subtitle =~= five + subtitle + none);
    lemma_in_the_middle(five, subtitle, none, x);
}

/// Every row in sight shows its own title, and its icon, group, alias and kind
/// where it has them, all at the row's own place: the icon at the left, the
/// title behind it, the kind at the right.
pub proof fn law_every_row_in_sight_is_drawn(s: State, translucent: bool, i: int)
    requires
        in_sight(s, i),
        s.results.len() <= usize::MAX,
    ensures
        ({
            let y = render::row_top(s.sections, i, s.scroll);
            let row = s.results[i];
            &&& draws(
                s,
                translucent,
                Shape::Write {
                    words: Words::Title(i as usize),
                    rect: band(580, y, 200, y + 440),
                    face: Face::Title,
                    brush: Brush::Text,
                },
            )
            &&& row.icon is Some ==> draws(
                s,
                translucent,
                Shape::Icon {
                    row: i as usize,
                    rect: Rect {
                        left: Edge { far: false, at: 200 },
                        top: Edge { far: false, at: (y + 90) as i128 },
                        right: Edge { far: false, at: 460 },
                        bottom: Edge { far: false, at: (y + 350) as i128 },
                    },
                },
            )
            &&& row.subtitle.len() > 0 ==> draws(
                s,
                translucent,
                Shape::Write {
                    words: Words::Subtitle(i as usize),
                    rect: band(200, y, 200, y + 440),
                    face: Face::Subtitle,
                    brush: Brush::Dim,
                },
            )
            &&& row.category.len() > 0 ==> draws(
                s,
                translucent,
                Shape::Behind {
                    words: Words::Category(i as usize),
                    gap: 80,
                    top: Edge { far: false, at: y as i128 },
                    right: Edge { far: true, at: 200 },
                    bottom: Edge { far: false, at: (y + 440) as i128 },
                    face: Face::Title,
                    brush: Brush::Dim,
                },
            )
            &&& row.badge is Some ==> draws(
                s,
                translucent,
                Shape::Pill {
                    words: Words::Badge(i as usize),
                    gap: 90,
                    pad: 80,
                    dy: 15,
                    top: Edge { far: false, at: (y + 120) as i128 },
                    bottom: Edge { far: false, at: (y + 320) as i128 },
                    radius: 60,
                },
            )
        }),
{
    let y = render::row_top(s.sections, i, s.scroll);
    let row = s.results[i];
    let n = i as usize;
    let chosen = i == s.selected;
    assert(scene::row_shapes(s, i) == scene::row_at(row, n, chosen, y));
    lemma_row_has(row, n, chosen, y, scene::title_at(n, y));
    lemma_row_in_frame(s, translucent, i, scene::title_at(n, y));
    if row.icon is Some {
        lemma_row_has(row, n, chosen, y, scene::icon_at(n, y));
        lemma_row_in_frame(s, translucent, i, scene::icon_at(n, y));
    }
    if row.subtitle.len() > 0 {
        lemma_row_has(row, n, chosen, y, scene::subtitle_at(n, y));
        lemma_row_in_frame(s, translucent, i, scene::subtitle_at(n, y));
    }
    if row.category.len() > 0 {
        lemma_row_has(row, n, chosen, y, scene::category_at(n, y));
        lemma_row_in_frame(s, translucent, i, scene::category_at(n, y));
    }
    if row.badge is Some {
        lemma_row_has(row, n, chosen, y, scene::badge_at(n, y));
        lemma_row_in_frame(s, translucent, i, scene::badge_at(n, y));
    }
}

/// Among the shapes of a row there is a highlight exactly if the row is the
/// selected one.
pub proof fn law_the_selected_row_alone_is_highlighted(s: State, i: int, rect: Rect, radius: i128)
    requires
        0 <= i < s.results.len(),
    ensures
        scene::row_shapes(s, i).contains(
            Shape::Rounded { rect, radius, brush: Brush::Select },
        ) ==> i == s.selected,
        in_sight(s, i) && i == s.selected ==> {
            let y = render::row_top(s.sections, i, s.scroll);
            scene::row_shapes(s, i).contains(
                Shape::Rounded {
                    rect: band(80, y, 80, y + 440),
                    radius: 80,
                    brush: Brush::Select,
                },
            )
        },
{
    let y = render::row_top(s.sections, i, s.scroll);
    let x = Shape::Rounded { rect, radius, brush: Brush::Select };
    lemma_row_has(s.results[i], i as usize, i == s.selected, y, x);
    lemma_row_has(s.results[i], i as usize, i == s.selected, y, scene::mark_at(y));
    let none = Seq::<Shape>::empty();
    assert(!none.contains(x));
}

/// The heading of a section is drawn right above the row it starts with, when
/// that is in sight.
pub proof fn law_headings_are_drawn_above_their_rows(s: State, translucent: bool, k: int)
    requires
        0 <= k < s.sections.len() <= usize::MAX,
        render::row_top(s.sections, s.sections[k].0, s.scroll) >= 590,
        render::row_top(s.sections, s.sections[k].0, s.scroll) <= 4490,
    ensures
        ({
            let y = render::row_top(s.sections, s.sections[k].0, s.scroll);
            draws(
                s,
                translucent,
                Shape::Write {
                    words: Words::Heading(k as usize),
                    rect: band(200, y - 260, 200, y),
                    face: Face::Header,
                    brush: Brush::Dim,
                },
            )
        }),
{
    let y = render::row_top(s.sections, s.sections[k].0, s.scroll);
    let x = Shape::Write {
        words: Words::Heading(k as usize),
        rect: band(200, y - 260, 200, y),
        face: Face::Header,
        brush: Brush::Dim,
    };
    let own = scene::heading_shapes(s, k);
    assert(own[0] == x);
    lemma_headings_hold(s, s.sections.len() as int, k, x);
    let heads = scene::headings_shapes(s, s.sections.len() as int);
    let list = scene::list_shapes(s);
    let rows = scene::rows_shapes(s, s.results.len() as int);
    assert(list =~= list.take(2) + heads + (rows + seq![Shape::Unclip]));
    lemma_in_the_middle(list.take(2), heads, rows + seq![Shape::Unclip], x);
    lemma_list_in_frame(s, translucent, x);
}

/// The input always shows the query; the caret is in it exactly while nothing
/// lies over the list, and the placeholder exactly while nothing is typed.
pub proof fn law_the_input_is_drawn(s: State)
    ensures
        ({
            let shapes = scene::input_shapes(s);
            let rect = band(200, 0, 200, 580);
            &&& shapes.last() == (Shape::Edit {
                which: Editable::Query,
                rect,
                behind: None,
                caret: if s.mode is Search {
                    Some(120i128)
                } else {
                    None
                },
                face: Face::Input,
            })
            &&& shapes.contains(
                Shape::Write {
                    words: Words::Placeholder,
                    rect,
                    face: Face::Input,
                    brush: Brush::Dim,
                },
            ) <==> s.query.text.len() == 0
        }),
{
    let shapes = scene::input_shapes(s);
    if s.query.text.len() == 0 {
        assert(shapes[0] == (Shape::Write {
            words: Words::Placeholder,
            rect: band(200, 0, 200, 580),
            face: Face::Input,
            brush: Brush::Dim,
        }));
    }
}

/// The background is the tint where the window is translucent and solid where
/// it is not, and the first thing drawn; the edge of the window is the last.
pub proof fn law_the_background_comes_first(s: State, translucent: bool)
    ensures
        scene::frame_of(s, translucent).first() matches Shape::Fill { brush, .. } && (brush
            == Brush::Tint <==> translucent) && (brush == Brush::Solid <==> !translucent),
        scene::frame_of(s, translucent).last() == (Shape::Rim { inset: 5, radius: 80 }),
        scene::scrollbar_shapes(s).len() > 0 <==> 12 + 44 * s.results.len() + 26 * s.sections.len()
            > 364,
{
}

// ---- what a panel shows ------------------------------------------------------------------------

proof fn lemma_action_has(k: int, selected: int, t: int, i: int, x: Shape)
    requires
        0 <= i < k,
        scene::action_shapes(i, i == selected, t).contains(x),
    ensures
        scene::actions_shapes(k, selected, t).contains(x),
    decreases k,
{
    let all = scene::actions_shapes(k, selected, t);
    let before = scene::actions_shapes(k - 1, selected, t);
    let last = scene::action_shapes(k - 1, k - 1 == selected, t);
    if i < k - 1 {
        lemma_action_has(k - 1, selected, t, i, x);
        let j = choose|j: int| 0 <= j < before.len() && before[j] == x;
        assert(all[j] == x);
    } else {
        let j = choose|j: int| 0 <= j < last.len() && last[j] == x;
        assert(all[before.len() + j] == x);
    }
}

proof fn lemma_line_has(k: int, focused: int, t: int, i: int, x: Shape)
    requires
        0 <= i < k,
        scene::line_shapes(i, i == focused, t).contains(x),
    ensures
        scene::lines_shapes(k, focused, t).contains(x),
    decreases k,
{
    let all = scene::lines_shapes(k, focused, t);
    let before = scene::lines_shapes(k - 1, focused, t);
    let last = scene::line_shapes(k - 1, k - 1 == focused, t);
    if i < k - 1 {
        lemma_line_has(k - 1, focused, t, i, x);
        let j = choose|j: int| 0 <= j < before.len() && before[j] == x;
        assert(all[j] == x);
    } else {
        let j = choose|j: int| 0 <= j < last.len() && last[j] == x;
        assert(all[before.len() + j] == x);
    }
}

/// A box measured from the right and the bottom.
pub open spec fn corner(left: int, top: int, right: int, bottom: int) -> Rect {
    Rect {
        left: Edge { far: true, at: left as i128 },
        top: Edge { far: true, at: top as i128 },
        right: Edge { far: true, at: right as i128 },
        bottom: Edge { far: true, at: bottom as i128 },
    }
}

/// The actions panel writes every action, one under the other and thirty-two
/// units apart, and highlights the selected one.
pub proof fn law_the_panel_shows_every_action(k: int, selected: int, t: int, i: int)
    requires
        0 <= i < k <= usize::MAX,
    ensures
        scene::actions_shapes(k, selected, t).contains(
            Shape::Write {
                words: Words::Action(i as usize),
                rect: corner(2920, t - 320 * i, 240, t - 320 * i - 320),
                face: Face::Panel,
                brush: Brush::Text,
            },
        ),
        i == selected ==> scene::actions_shapes(k, selected, t).contains(
            Shape::Rounded {
                rect: corner(3020, t - 320 * i, 140, t - 320 * i - 320),
                radius: 60,
                brush: Brush::Select,
            },
        ),
        forall|rect: Rect, radius: i128| !(#[trigger] scene::action_shapes(i, false, t).contains(
            Shape::Rounded { rect, radius, brush: Brush::Select },
        )),
{
    let own = scene::action_shapes(i, i == selected, t);
    let w = Shape::Write {
        words: Words::Action(i as usize),
        rect: corner(2920, t - 320 * i, 240, t - 320 * i - 320),
        face: Face::Panel,
        brush: Brush::Text,
    };
    assert(own[own.len() - 1] == w);
    lemma_action_has(k, selected, t, i, w);
    if i == selected {
        let m = Shape::Rounded {
            rect: corner(3020, t - 320 * i, 140, t - 320 * i - 320),
            radius: 60,
            brush: Brush::Select,
        };
        assert(own[0] == m);
        lemma_action_has(k, selected, t, i, m);
    }
}

/// A form writes the label of every line with its value under it, fifty units
/// apart; the line in focus has the caret, and no other.
pub proof fn law_the_form_shows_every_line(k: int, focused: int, t: int, i: int)
    requires
        0 <= i < k <= usize::MAX,
    ensures
        scene::lines_shapes(k, focused, t).contains(
            Shape::Write {
                words: Words::Label(i as usize),
                rect: corner(4520, t - 500 * i - 30, 240, t - 500 * i - 210),
                face: Face::SubtitleLeft,
                brush: Brush::Dim,
            },
        ),
        scene::lines_shapes(k, focused, t).contains(
            Shape::Edit {
                which: Editable::Line(i as usize),
                rect: corner(4520, t - 500 * i - 180, 240, t - 500 * i - 500),
                behind: None,
                caret: if i == focused {
                    Some(80i128)
                } else {
                    None
                },
                face: Face::Panel,
            },
        ),
{
    let own = scene::line_shapes(i, i == focused, t);
    let label = Shape::Write {
        words: Words::Label(i as usize),
        rect: corner(4520, t - 500 * i - 30, 240, t - 500 * i - 210),
        face: Face::SubtitleLeft,
        brush: Brush::Dim,
    };
    let value = Shape::Edit {
        which: Editable::Line(i as usize),
        rect: corner(4520, t - 500 * i - 180, 240, t - 500 * i - 500),
        behind: None,
        caret: if i == focused {
            Some(80i128)
        } else {
            None
        },
        face: Face::Panel,
    };
    assert(own[own.len() - 2] == label);
    assert(own[own.len() - 1] == value);
    lemma_line_has(k, focused, t, i, label);
    lemma_line_has(k, focused, t, i, value);
}

/// Nothing lies over the list while it is searched; else a panel does, with all
/// the actions, the prompt, or the title and all the lines of the form in it.
pub proof fn law_the_panel_shows_its_mode(s: State, t: int)
    ensures
        s.mode is Search ==> scene::panel_shapes(s.mode).len() == 0,
        !(s.mode is Search) ==> scene::panel_shapes(s.mode).len() > 0,
        s.mode matches Screen::Actions { actions, selected } ==> scene::content_shapes(s.mode, t)
            == scene::actions_shapes(actions.len() as int, selected, t),
        s.mode matches Screen::Form { fields, focused, .. } ==> scene::content_shapes(
            s.mode,
            t,
        ).drop_first() == scene::lines_shapes(fields.len() as int, focused, t - 280),
        s.mode is TextInput ==> scene::content_shapes(s.mode, t).len() == 2 && (
        scene::content_shapes(s.mode, t)[0] matches Shape::Write { words, .. } && words
            == Words::Prompt) && (scene::content_shapes(s.mode, t)[1] matches Shape::Edit {
            which,
            caret,
            ..
        } && which == Editable::Prompt && caret is Some),
        s.mode is Form ==> (scene::content_shapes(s.mode, t)[0] matches Shape::Write { words, .. }
            && words == Words::FormTitle),
{
    match s.mode {
        Screen::Form { fields, focused, .. } => {
            let lines = scene::lines_shapes(fields.len() as int, focused, t - 280);
            assert(scene::content_shapes(s.mode, t).drop_first() =~= lines);
        },
        _ => {},
    }
}

/// A character takes one UTF-16 unit, or two where its code is past sixteen
/// bits, and a text takes those of its characters.
pub proof fn law_units_of_a_text(s: Seq<char>, c: char)
    ensures
        render::units_in(s.push(c)) == render::units_in(s) + (if (c as u32) > 0xFFFF {
            2int
        } else {
            1
        }),
        render::units_in(Seq::empty()) == 0,
{
    assert(s.push(c).drop_last() =~= s);
}

/// What is drawn of a row is its title, and its icon, its category, its badge
/// and its subtitle where it has them, and the mark under it where it is the
/// selected one: nothing else, and nothing of a row out of sight. The mark lies
/// under the rest.
pub proof fn law_a_row_is_drawn_of_its_parts(s: State, i: int)
    requires
        0 <= i < s.results.len(),
    ensures
        !in_sight(s, i) ==> scene::row_shapes(s, i).len() == 0,
        in_sight(s, i) ==> ({
            let row = s.results[i];
            let shapes = scene::row_shapes(s, i);
            &&& shapes.len() == 1 + one_if(i == s.selected) + one_if(row.icon is Some) + one_if(
                row.category.len() > 0,
            ) + one_if(row.badge is Some) + one_if(row.subtitle.len() > 0)
            &&& shapes[0] is Rounded <==> i == s.selected
            &&& shapes[one_if(i == s.selected)] is Icon <==> row.icon is Some
            &&& row.subtitle.len() > 0 ==> (shapes.last() matches Shape::Write { words, .. }
                && words == Words::Subtitle(i as usize))
        }),
{
}

/// One where something holds, and none where it does not.
pub open spec fn one_if(c: bool) -> int {
    if c {
        1
    } else {
        0
    }
}

/// A line parts the input from the list, what is drawn of the list stays
/// within the list, and what comes later does not have to.
pub proof fn law_the_list_is_clipped(s: State)
    ensures
        ({
            let shapes = scene::list_shapes(s);
            let n = shapes.len() as int;
            &&& n >= 3
            &&& shapes[0] == (Shape::Fill { rect: band(0, 580, 0, 590), brush: Brush::Faint })
            &&& shapes[1] == (Shape::Clip { rect: band(0, 590, 0, 4230) })
            &&& shapes[n - 1] == Shape::Unclip
            &&& shapes.subrange(2, n - 1) == scene::headings_shapes(s, s.sections.len() as int)
                + scene::rows_shapes(s, s.results.len() as int)
        }),
{
    let shapes = scene::list_shapes(s);
    let n = shapes.len() as int;
    assert(shapes.subrange(2, n - 1) =~= scene::headings_shapes(s, s.sections.len() as int)
        + scene::rows_shapes(s, s.results.len() as int));
}

/// The scrollbar is a track with a thumb on it, and the thumb has a halo.
pub proof fn law_what_the_scrollbar_is_made_of(s: State)
    requires
        scene::scrollbar_shapes(s).len() > 0,
    ensures
        ({
            let shapes = scene::scrollbar_shapes(s);
            &&& shapes.len() == 3
            &&& shapes[0] == (Shape::Rounded {
                rect: Rect {
                    left: Edge { far: true, at: 100 },
                    top: Edge { far: false, at: 630 },
                    right: Edge { far: true, at: 40 },
                    bottom: Edge { far: false, at: 4190 },
                },
                radius: 30,
                brush: Brush::Track,
            })
            &&& match (shapes[1], shapes[2]) {
                (
                    Shape::Thumb { thumb: a, grown: g, brush: c },
                    Shape::Thumb { thumb: b, grown: h, brush: d },
                ) => a == b && g == 10 && h == 0 && c == Brush::Halo && d == Brush::Thumb,
                _ => false,
            }
        }),
{
}

/// The bar at the bottom is parted from the list by a line, with the
/// launcher's name to the left and the keys to the right.
pub proof fn law_what_the_bar_is_made_of()
    ensures
        scene::bar_shapes() == seq![
            Shape::Fill { rect: corner_to(0, 340, 0, 330), brush: Brush::Faint },
            Shape::Write {
                words: Words::Name,
                rect: corner_to(200, 340, 200, 0),
                face: Face::SubtitleLeft,
                brush: Brush::Dim,
            },
            Shape::Write {
                words: Words::Hint,
                rect: corner_to(200, 340, 200, 0),
                face: Face::Subtitle,
                brush: Brush::Dim,
            },
        ],
{
}

/// A rectangle from the left edge on to the right one, both ends of it measured
/// from the bottom.
pub open spec fn corner_to(left: int, top: int, right: int, bottom: int) -> Rect {
    Rect {
        left: Edge { far: false, at: left as i128 },
        top: Edge { far: true, at: top as i128 },
        right: Edge { far: true, at: right as i128 },
        bottom: Edge { far: true, at: bottom as i128 },
    }
}

/// A panel lies eight units above the bar and eight from the right, as wide as
/// its kind and as high as what it holds; what it holds starts six units below
/// its top.
pub proof fn law_what_a_panel_is_made_of(mode: Screen)
    requires
        mode matches Screen::Actions { actions, .. } ==> actions.len() <= usize::MAX,
        mode matches Screen::Form { fields, .. } ==> fields.len() <= usize::MAX,
    ensures
        mode matches Screen::Actions { actions, .. } ==> {
            let top = 420 + 120 + 320 * (if actions.len() > 1 {
                actions.len() as int
            } else {
                1
            });
            scene::panel_shapes(mode) == seq![panel(3080, top)] + scene::content_shapes(
                mode,
                top - 60,
            )
        },
        mode is TextInput ==> scene::panel_shapes(mode) == seq![panel(3080, 860)]
            + scene::content_shapes(mode, 800),
        mode matches Screen::Form { fields, .. } ==> {
            let top = 420 + 280 + 120 + 500 * fields.len() as int;
            scene::panel_shapes(mode) == seq![panel(4680, top)] + scene::content_shapes(
                mode,
                top - 60,
            )
        },
{
}

/// The panel itself, from `left` and `top` as measured from the right and the
/// bottom.
pub open spec fn panel(left: int, top: int) -> Shape {
    Shape::Rounded { rect: corner(left, top, 80, 420), radius: 100, brush: Brush::Panel }
}

/// A prompt is written where its text is typed, dimly, and gives way to it; a
/// form is headed by its title.
pub proof fn law_prompts_and_titles(mode: Screen, t: int)
    ensures
        mode is TextInput ==> scene::content_shapes(mode, t) == seq![
            Shape::Write {
                words: Words::Prompt,
                rect: corner(2920, t, 240, 480),
                face: Face::Panel,
                brush: Brush::Dim,
            },
            Shape::Edit {
                which: Editable::Prompt,
                rect: corner(2920, t, 240, 480),
                behind: Some(80i128),
                caret: Some(90i128),
                face: Face::Panel,
            },
        ],
        mode is Form ==> scene::content_shapes(mode, t).len() > 0 && scene::content_shapes(
            mode,
            t,
        )[0] == (Shape::Write {
            words: Words::FormTitle,
            rect: corner(4520, t, 240, t - 280),
            face: Face::Panel,
            brush: Brush::Dim,
        }),
        mode is Search ==> scene::content_shapes(mode, t).len() == 0,
{
}

/// The background is filled all over, and on it come the input, the list, the
/// scrollbar, the bar and the panel, in this order, and last the rim.
pub proof fn law_the_order_of_a_frame(s: State, translucent: bool)
    ensures
        scene::frame_of(s, translucent).drop_first().drop_last() == scene::input_shapes(s)
            + scene::list_shapes(s) + scene::scrollbar_shapes(s) + scene::bar_shapes()
            + scene::panel_shapes(s.mode),
        scene::frame_of(s, translucent)[0] matches Shape::Fill { rect, .. } && rect == (Rect {
            left: Edge { far: false, at: 0 },
            top: Edge { far: false, at: 0 },
            right: Edge { far: true, at: 0 },
            bottom: Edge { far: true, at: 0 },
        }),
{
    assert(scene::frame_of(s, translucent).drop_first().drop_last() =~= scene::input_shapes(s)
        + scene::list_shapes(s) + scene::scrollbar_shapes(s) + scene::bar_shapes()
        + scene::panel_shapes(s.mode));
}

} // verus!
