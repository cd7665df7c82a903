//! Where things go in the window.
//!
//! All layout is in device-independent pixels (DIPs), ninety-six to the inch.
//! Lengths that need not be whole are counted in tenths of a DIP.
use vstd::prelude::*;
use vstd::string::*;
use vstd::utf8::*;

use crate::offsets::{self, width};
use crate::text::chars_of;

verus! {

pub const WINDOW_WIDTH: i128 = 680;

pub const INPUT_H: i128 = 58;

pub const ROW_H: i128 = 44;

pub const LIST_PAD: i128 = 6;

pub const PAD_X: i128 = 20;

pub const ICON_SIZE: i128 = 26;

pub const ICON_GAP: i128 = 12;

pub const BAR_H: i128 = 34;

pub const HEADER_H: i128 = 26;

pub const PANEL_W: i128 = 300;

pub const PANEL_ROW: i128 = 32;

pub const PANEL_PAD: i128 = 6;

pub const PANEL_MARGIN: i128 = 8;

pub const SCROLLBAR_PAD: i128 = 4;

pub const SCROLLBAR_MIN_THUMB: i128 = 36;

/// Forms stack a label over a value, and links are long.
pub const FORM_W: i128 = 460;

pub const FORM_ROW: i128 = 50;

pub const FORM_TITLE_H: i128 = 28;

/// Rows the list is tall enough to show at once. The window has a fixed size,
/// so that it does not jump about as results come and go.
pub const MAX_VISIBLE_ROWS: i128 = 8;

/// Height of the list on screen: its padding and the rows it can show.
pub const LIST_VIEWPORT_H: i128 = 364;

/// Where the list starts: under the input and its separator.
pub const LIST_TOP: i128 = 59;

/// Shown in an empty input.
pub const PLACEHOLDER: &'static str = "Search apps and commands\u{2026}";

// ---- the list ------------------------------------------------------------------------

/// The sections of a list: where each starts, and its heading.
pub open spec fn headings(v: Seq<(usize, &'static str)>) -> Seq<(int, Seq<char>)> {
    v.map_values(|s: (usize, &'static str)| (s.0 as int, s.1@))
}

/// How many sections start at or above a row.
pub open spec fn headers_above(sections: Seq<(int, Seq<char>)>, index: int) -> nat
    decreases sections.len(),
{
    if sections.len() == 0 {
        0
    } else {
        headers_above(sections.drop_last(), index) + if sections.last().0 <= index {
            1nat
        } else {
            0nat
        }
    }
}

/// Where a row starts within the list. A heading stands right above the row
/// its section starts with.
pub open spec fn offset_of_row(sections: Seq<(int, Seq<char>)>, index: int) -> int {
    LIST_PAD + headers_above(sections, index) * HEADER_H + index * ROW_H
}

/// Height of the whole list, headings included. What is more than the list on
/// screen is reached by scrolling.
pub open spec fn list_height(rows: int, headers: int) -> int {
    LIST_PAD * 2 + headers * HEADER_H + rows * ROW_H
}

pub fn list_content_height(rows: usize, headers: usize) -> (r: i128)
    ensures
        r == list_height(rows as int, headers as int),
{
    assert(rows <= 0xFFFF_FFFF_FFFF_FFFF && headers <= 0xFFFF_FFFF_FFFF_FFFF);
    LIST_PAD * 2 + headers as i128 * HEADER_H + rows as i128 * ROW_H
}

/// Height of the list on screen, however many rows there are.
pub fn list_viewport_height(rows: usize, headers: usize) -> (r: i128)
    ensures
        r == LIST_PAD * 2 + MAX_VISIBLE_ROWS * ROW_H,
{
    LIST_VIEWPORT_H
}

proof fn lemma_headers_above(sections: Seq<(int, Seq<char>)>, index: int)
    ensures
        headers_above(sections, index) <= sections.len(),
    decreases sections.len(),
{
    if sections.len() > 0 {
        lemma_headers_above(sections.drop_last(), index);
    }
}

pub fn row_offset(sections: &Vec<(usize, &'static str)>, index: usize) -> (r: i128)
    ensures
        r == offset_of_row(headings(sections@), index as int),
        0 <= r <= 0x2000_0000_0000_0000_0000,
{
    let ghost hs = headings(sections@);
    let mut headers: usize = 0;
    let mut i: usize = 0;
    while i < sections.len()
        invariant
            i <= sections@.len(),
            hs == headings(sections@),
            headers <= i,
            headers == headers_above(hs.take(i as int), index as int),
        decreases sections@.len() - i,
    {
        proof {
            assert(hs.take(i + 1).drop_last() =~= hs.take(i as int));
            assert(hs.take(i + 1).last() == (sections@[i as int].0 as int, sections@[i as int].1@));
        }
        if sections[i].0 <= index {
            headers += 1;
        }
        i += 1;
    }
    assert(hs.take(hs.len() as int) =~= hs);
    assert(headers <= 0xFFFF_FFFF_FFFF_FFFF && index <= 0xFFFF_FFFF_FFFF_FFFF);
    LIST_PAD + headers as i128 * HEADER_H + index as i128 * ROW_H
}

/// Height of the window's content: input, separator, list and bottom bar, the
/// same whatever the list holds.
pub fn content_height(rows: usize, headers: usize) -> (r: i128)
    ensures
        r == LIST_TOP + LIST_VIEWPORT_H + BAR_H,
{
    LIST_TOP + LIST_VIEWPORT_H + BAR_H
}

/// Height of a form.
pub open spec fn form_height(fields: int) -> int {
    FORM_TITLE_H + fields * FORM_ROW + PANEL_PAD * 2
}

pub fn form_panel_height(fields: usize) -> (r: i128)
    ensures
        r == form_height(fields as int),
        0 <= r <= 0x2000_0000_0000_0000_0000,
{
    assert(fields <= 0xFFFF_FFFF_FFFF_FFFF);
    FORM_TITLE_H + fields as i128 * FORM_ROW + PANEL_PAD * 2
}

/// Height of a window in which a form of so many fields is not cut off.
pub open spec fn form_window(fields: int) -> int {
    LIST_TOP + PANEL_MARGIN * 2 + form_height(fields) + BAR_H
}

pub fn form_window_height(fields: usize) -> (r: i128)
    ensures
        r == form_window(fields as int),
{
    LIST_TOP + PANEL_MARGIN * 2 + form_panel_height(fields) + BAR_H
}

/// Where a row starts in the window, in tenths, the list being scrolled.
pub open spec fn row_top(sections: Seq<(int, Seq<char>)>, index: int, scroll: int) -> int {
    (LIST_TOP + offset_of_row(sections, index)) * 10 - scroll
}

/// Something `height` tall that starts at `top`, both in tenths, reaches into
/// the list on screen.
pub open spec fn reaches_list(top: int, height: int) -> bool {
    top + height >= LIST_TOP * 10 && top <= (LIST_TOP + LIST_VIEWPORT_H) * 10
}

/// Where a row is drawn; `None` when it is outside the list on screen.
pub fn place_row(sections: &Vec<(usize, &'static str)>, index: usize, scroll: i64) -> (r: Option<
    i128,
>)
    ensures
        r == ({
            let top = row_top(headings(sections@), index as int, scroll as int);
            if reaches_list(top, ROW_H * 10) {
                Some(top as i128)
            } else {
                None::<i128>
            }
        }),
{
    let top: i128 = (LIST_TOP + row_offset(sections, index)) * 10 - scroll as i128;
    if top + ROW_H * 10 < LIST_TOP * 10 || top > (LIST_TOP + LIST_VIEWPORT_H) * 10 {
        None
    } else {
        Some(top)
    }
}

/// Where the heading of the section that starts with a row is drawn: right
/// above it; `None` when it is outside the list on screen.
pub fn place_heading(sections: &Vec<(usize, &'static str)>, start: usize, scroll: i64) -> (r:
    Option<i128>)
    ensures
        r == ({
            let top = row_top(headings(sections@), start as int, scroll as int) - HEADER_H * 10;
            if reaches_list(top, HEADER_H * 10) {
                Some(top as i128)
            } else {
                None::<i128>
            }
        }),
{
    let top: i128 = (LIST_TOP + row_offset(sections, start) - HEADER_H) * 10 - scroll as i128;
    if top + HEADER_H * 10 < LIST_TOP * 10 || top > (LIST_TOP + LIST_VIEWPORT_H) * 10 {
        None
    } else {
        Some(top)
    }
}

proof fn lemma_headers_monotone(sections: Seq<(int, Seq<char>)>, i: int, j: int)
    requires
        i <= j,
    ensures
        headers_above(sections, i) <= headers_above(sections, j),
    decreases sections.len(),
{
    if sections.len() > 0 {
        lemma_headers_monotone(sections.drop_last(), i, j);
    }
}

/// No row reaches into the next one.
pub proof fn law_rows_do_not_overlap(sections: Seq<(int, Seq<char>)>, i: int, j: int)
    requires
        i < j,
    ensures
        offset_of_row(sections, i) + ROW_H <= offset_of_row(sections, j),
{
    lemma_headers_monotone(sections, i, j);
}

proof fn lemma_headers_start(sections: Seq<(int, Seq<char>)>, k: int)
    requires
        0 <= k < sections.len(),
    ensures
        headers_above(sections, sections[k].0 - 1) + 1 <= headers_above(sections, sections[k].0),
    decreases sections.len(),
{
    let start = sections[k].0;
    let t = sections.drop_last();
    if k == sections.len() - 1 {
        lemma_headers_monotone(t, start - 1, start);
    } else {
        lemma_headers_start(t, k);
        assert(t[k] == sections[k]);
    }
}

/// A heading has its own room: it starts where the row above it ends, or
/// later.
pub proof fn law_headings_have_room(sections: Seq<(int, Seq<char>)>, k: int)
    requires
        0 <= k < sections.len(),
    ensures
        ({
            let start = sections[k].0;
            offset_of_row(sections, start) - HEADER_H >= offset_of_row(sections, start - 1) + ROW_H
        }),
{
    lemma_headers_start(sections, k);
}

/// The last row of a list ends within the list.
pub proof fn law_rows_end_within_the_list(sections: Seq<(int, Seq<char>)>, rows: int, i: int)
    requires
        0 <= i < rows,
    ensures
        0 <= offset_of_row(sections, i),
        offset_of_row(sections, i) + ROW_H + LIST_PAD <= list_height(rows, sections.len() as int),
{
    lemma_headers_above(sections, i);
}

// ---- the panel over the list ---------------------------------------------------------

/// What lies over the list.
#[derive(Clone, Copy, PartialEq, Eq, Structural)]
pub enum PanelKind {
    Nothing,
    Actions { count: usize },
    TextInput,
    Form { fields: usize },
}

/// A box in the bottom right corner of the window: its size, and how far it
/// keeps from the right and bottom edges.
#[derive(Clone, Copy, PartialEq, Eq, Structural)]
pub struct Corner {
    pub width: i128,
    pub height: i128,
    pub right: i128,
    pub bottom: i128,
}

/// The box of a panel.
pub open spec fn panel_corner(kind: PanelKind) -> Option<Corner> {
    let (width, height) = match kind {
        PanelKind::Nothing => (0int, 0int),
        PanelKind::Actions { count } => (
            PANEL_W as int,
            (if count > 1 {
                count as int
            } else {
                1
            }) * PANEL_ROW + PANEL_PAD * 2,
        ),
        PanelKind::TextInput => (PANEL_W as int, PANEL_ROW + PANEL_PAD * 2),
        PanelKind::Form { fields } => (FORM_W as int, form_height(fields as int)),
    };
    if kind is Nothing {
        None
    } else {
        Some(
            Corner {
                width: width as i128,
                height: height as i128,
                right: PANEL_MARGIN,
                bottom: (BAR_H + PANEL_MARGIN) as i128,
            },
        )
    }
}

pub fn panel_box(kind: PanelKind) -> (r: Option<Corner>)
    ensures
        r == panel_corner(kind),
{
    let (width, height): (i128, i128) = match kind {
        PanelKind::Nothing => {
            return None;
        },
        PanelKind::Actions { count } => {
            assert(count <= 0xFFFF_FFFF_FFFF_FFFF);
            let rows: i128 = if count > 1 {
                count as i128
            } else {
                1
            };
            (PANEL_W, rows * PANEL_ROW + PANEL_PAD * 2)
        },
        PanelKind::TextInput => (PANEL_W, PANEL_ROW + PANEL_PAD * 2),
        PanelKind::Form { fields } => (FORM_W, form_panel_height(fields)),
    };
    Some(Corner { width, height, right: PANEL_MARGIN, bottom: BAR_H + PANEL_MARGIN })
}

/// A window sized for a form shows all of it, under the input.
pub proof fn law_forms_fit_their_window(fields: usize)
    ensures
        ({
            let c = panel_corner(PanelKind::Form { fields })->0;
            form_window(fields as int) - c.bottom - c.height == LIST_TOP + PANEL_MARGIN
        }),
{
}

/// The keys the bottom bar names.
pub open spec fn hint_for(kind: PanelKind) -> Seq<char> {
    match kind {
        PanelKind::Form { .. } => "Save \u{21b5}      Field Tab"@,
        PanelKind::TextInput => "Confirm \u{21b5}"@,
        PanelKind::Actions { .. } => "Run \u{21b5}"@,
        PanelKind::Nothing => "Open \u{21b5}      Actions Ctrl+K"@,
    }
}

pub fn hint(kind: PanelKind) -> (r: &'static str)
    ensures
        r@ == hint_for(kind),
{
    match kind {
        PanelKind::Form { .. } => "Save \u{21b5}      Field Tab",
        PanelKind::TextInput => "Confirm \u{21b5}",
        PanelKind::Actions { .. } => "Run \u{21b5}",
        PanelKind::Nothing => "Open \u{21b5}      Actions Ctrl+K",
    }
}

// ---- the scrollbar ---------------------------------------------------------------------

/// The thumb of the scrollbar: it is `height / height_per` DIPs tall, and has
/// come `at / limit` of the way down its track.
#[derive(Clone, Copy, PartialEq, Eq, Structural)]
pub struct Thumb {
    pub height: i128,
    pub height_per: i128,
    pub at: i128,
    pub limit: i128,
}

/// Height of the scrollbar's track.
pub const TRACK_H: i128 = 356;

/// How far the list can be scrolled, in tenths.
pub open spec fn scroll_limit(rows: int, headers: int) -> int {
    let over = list_height(rows, headers) - LIST_VIEWPORT_H;
    if over > 0 {
        over * 10
    } else {
        0
    }
}

/// The thumb is as tall as the part of the list on screen, at least
/// [`SCROLLBAR_MIN_THUMB`], and as far down as the list is scrolled. There is
/// none when the whole list is on screen.
pub open spec fn thumb_of(rows: int, headers: int, scroll: int) -> Option<Thumb> {
    let content = list_height(rows, headers);
    let limit = scroll_limit(rows, headers);
    let at = if scroll < 0 {
        0
    } else if scroll > limit {
        limit
    } else {
        scroll
    };
    let (height, height_per) = if LIST_VIEWPORT_H * TRACK_H < SCROLLBAR_MIN_THUMB * content {
        (SCROLLBAR_MIN_THUMB as int, 1int)
    } else {
        (LIST_VIEWPORT_H * TRACK_H, content)
    };
    if content > LIST_VIEWPORT_H {
        Some(
            Thumb {
                height: height as i128,
                height_per: height_per as i128,
                at: at as i128,
                limit: limit as i128,
            },
        )
    } else {
        None
    }
}

pub fn thumb(rows: usize, headers: usize, scroll: i64) -> (r: Option<Thumb>)
    ensures
        r == thumb_of(rows as int, headers as int, scroll as int),
{
    let content: i128 = list_content_height(rows, headers);
    assert(rows <= 0xFFFF_FFFF_FFFF_FFFF && headers <= 0xFFFF_FFFF_FFFF_FFFF);
    if content <= LIST_VIEWPORT_H {
        return None;
    }
    let limit: i128 = (content - LIST_VIEWPORT_H) * 10;
    let at: i128 = if scroll < 0 {
        0
    } else if scroll as i128 > limit {
        limit
    } else {
        scroll as i128
    };
    let (height, height_per): (i128, i128) = if LIST_VIEWPORT_H * TRACK_H < SCROLLBAR_MIN_THUMB
        * content {
        (SCROLLBAR_MIN_THUMB, 1)
    } else {
        (LIST_VIEWPORT_H * TRACK_H, content)
    };
    Some(Thumb { height, height_per, at, limit })
}

/// The thumb fits its track, is never too small to grab, and goes from one end
/// of the track to the other.
pub proof fn law_the_thumb_fits_its_track(rows: usize, headers: usize, scroll: i64)
    ensures
        thumb_of(rows as int, headers as int, scroll as int) matches Some(t) ==> {
            &&& t.height_per > 0 && t.limit > 0
            &&& SCROLLBAR_MIN_THUMB * t.height_per <= t.height
            &&& t.height <= TRACK_H * t.height_per
            &&& 0 <= t.at <= t.limit
        },
{
    assert(rows <= 0xFFFF_FFFF_FFFF_FFFF && headers <= 0xFFFF_FFFF_FFFF_FFFF);
}

// ---- where a click falls in a text ------------------------------------------------------

/// UTF-16 units a character takes.
pub open spec fn units_of(c: char) -> nat {
    if (c as u32) < 0x10000 {
        1
    } else {
        2
    }
}

/// UTF-16 units a text takes.
pub open spec fn units_in(s: Seq<char>) -> nat
    decreases s.len(),
{
    if s.len() == 0 {
        0
    } else {
        units_in(s.drop_last()) + units_of(s.last())
    }
}

/// Byte offset of a position that is counted in UTF-16 units. A position
/// inside a character is taken for its start, one past the end for the end.
pub fn byte_at_unit(s: &str, unit: usize) -> (r: usize)
    ensures
        exists|k: int|
            0 <= k <= s@.len() && r == #[trigger] offsets::offset(s@, k) && units_in(s@.take(k))
                <= unit && (k < s@.len() ==> units_in(s@.take(k + 1)) > unit),
{
    let chars = chars_of(s);
    let _n: usize = offsets::byte_len(s);
    let mut left: usize = unit;
    let mut bytes: usize = 0;
    let mut k: usize = 0;
    proof {
        offsets::lemma_offset_ends(s@);
    }
    while k < chars.len()
        invariant
            k <= chars@.len(),
            chars@ == s@,
            encode_utf8(s@).len() <= usize::MAX,
            left <= unit,
            bytes == offsets::offset(s@, k as int),
            units_in(s@.take(k as int)) == unit - left,
        decreases chars@.len() - k,
    {
        let c = chars[k];
        let units: usize = if (c as u32) < 0x10000 {
            1
        } else {
            2
        };
        proof {
            assert(s@.take(k + 1).drop_last() =~= s@.take(k as int));
            offsets::lemma_offset_step(s@, k as int);
            offsets::lemma_offset_increases(s@, k + 1, k + 1);
        }
        if units > left {
            return bytes;
        }
        left -= units;
        bytes += width(c);
        k += 1;
    }
    assert(s@.take(s@.len() as int) =~= s@);
    bytes
}

} // verus!
