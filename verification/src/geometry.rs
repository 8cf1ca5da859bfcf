//! Popup geometry: the layout of the cards, hit tests, the overlay scroll bar,
//! wheel scrolling and placement near the mouse.

use vstd::prelude::*;

verus! {

/// A rectangle in pixels; `right` and `bottom` lie just outside it.
#[derive(Clone, Copy, Debug, PartialEq, Eq, Structural)]
pub struct Rect {
    pub left: i32,
    pub top: i32,
    pub right: i32,
    pub bottom: i32,
}

/// A point in pixels.
#[derive(Clone, Copy, Debug, PartialEq, Eq, Structural)]
pub struct Point {
    pub x: i32,
    pub y: i32,
}

/// Height of the title strip.
pub const HEADER_HEIGHT: i32 = 44;

/// The narrowest the popup may be.
pub const MIN_WINDOW_WIDTH: i32 = 360;

/// The lowest the popup may be.
pub const MIN_WINDOW_HEIGHT: i32 = 300;

/// Hit-test code: left border.
pub const HTLEFT: u32 = 10u32;

/// Hit-test code: right border.
pub const HTRIGHT: u32 = 11u32;

/// Hit-test code: top border.
pub const HTTOP: u32 = 12u32;

/// Hit-test code: top-left corner.
pub const HTTOPLEFT: u32 = 13u32;

/// Hit-test code: top-right corner.
pub const HTTOPRIGHT: u32 = 14u32;

/// Hit-test code: bottom border.
pub const HTBOTTOM: u32 = 15u32;

/// Hit-test code: bottom-left corner.
pub const HTBOTTOMLEFT: u32 = 16u32;

/// Hit-test code: bottom-right corner.
pub const HTBOTTOMRIGHT: u32 = 17u32;

/// The text area inside a card: 12 pixels in at the sides, 32 below the
/// card's title and 10 above its bottom.
pub fn inset_card(card: Rect) -> (r: Rect)
    requires
        card.left + 12 <= i32::MAX,
        card.top + 32 <= i32::MAX,
        card.right - 12 >= i32::MIN,
        card.bottom - 10 >= i32::MIN,
    ensures
        r.left == card.left + 12,
        r.top == card.top + 32,
        r.right == card.right - 12,
        r.bottom == card.bottom - 10,
{
    Rect { left: card.left + 12, top: card.top + 32, right: card.right - 12, bottom: card.bottom - 10 }
}

/// `point` lies in `rect`.
pub open spec fn inside(point: Point, rect: Rect) -> bool {
    point.x >= rect.left && point.x < rect.right && point.y >= rect.top && point.y < rect.bottom
}

/// Whether `point` lies in `rect` (the left and top edges belong to it).
pub fn point_in_rect(point: Point, rect: Rect) -> (r: bool)
    ensures
        r == inside(point, rect),
{
    point.x >= rect.left && point.x < rect.right && point.y >= rect.top && point.y < rect.bottom
}

/// A 16-bit field read as a signed number.
pub open spec fn signed16(v: int) -> int {
    if v >= 32768 {
        v - 65536
    } else {
        v
    }
}

/// The point packed into a mouse message: the low 16 bits are x and the next
/// 16 bits are y, each signed.
pub fn client_point(lparam: isize) -> (r: Point)
    ensures
        r.x == signed16(((lparam as u32) % 65536) as int),
        r.y == signed16(((lparam as u32) / 65536) as int),
{
    let bits = lparam as u32;
    let lo = bits % 65536;
    let hi = bits / 65536;
    let x = if lo >= 32768 { lo as i32 - 65536 } else { lo as i32 };
    let y = if hi >= 32768 { hi as i32 - 65536 } else { hi as i32 };
    Point { x, y }
}

/// Which resize border or corner of `window` the screen point `point` is on:
/// corners reach 14 pixels in, borders 7.
pub open spec fn resize_zone(window: Rect, point: Point) -> Option<u32> {
    let left = point.x < window.left + 7;
    let right = point.x >= window.right - 7;
    let top = point.y < window.top + 7;
    let bottom = point.y >= window.bottom - 7;
    let near_left = point.x < window.left + 14;
    let near_right = point.x >= window.right - 14;
    let near_top = point.y < window.top + 14;
    let near_bottom = point.y >= window.bottom - 14;
    if near_top && near_left {
        Some(HTTOPLEFT)
    } else if near_top && near_right {
        Some(HTTOPRIGHT)
    } else if near_bottom && near_left {
        Some(HTBOTTOMLEFT)
    } else if near_bottom && near_right {
        Some(HTBOTTOMRIGHT)
    } else if left {
        Some(HTLEFT)
    } else if right {
        Some(HTRIGHT)
    } else if top {
        Some(HTTOP)
    } else if bottom {
        Some(HTBOTTOM)
    } else {
        None
    }
}

/// The resize border or corner under a screen point, if any.
pub fn resize_hit_test(window: Rect, point: Point) -> (r: Option<u32>)
    requires
        window.left + 14 <= i32::MAX,
        window.top + 14 <= i32::MAX,
        window.right - 14 >= i32::MIN,
        window.bottom - 14 >= i32::MIN,
    ensures
        r == resize_zone(window, point),
{
    let left = point.x < window.left + 7;
    let right = point.x >= window.right - 7;
    let top = point.y < window.top + 7;
    let bottom = point.y >= window.bottom - 7;
    let near_left = point.x < window.left + 14;
    let near_right = point.x >= window.right - 14;
    let near_top = point.y < window.top + 14;
    let near_bottom = point.y >= window.bottom - 14;
    if near_top && near_left {
        Some(HTTOPLEFT)
    } else if near_top && near_right {
        Some(HTTOPRIGHT)
    } else if near_bottom && near_left {
        Some(HTBOTTOMLEFT)
    } else if near_bottom && near_right {
        Some(HTBOTTOMRIGHT)
    } else if left {
        Some(HTLEFT)
    } else if right {
        Some(HTRIGHT)
    } else if top {
        Some(HTTOP)
    } else if bottom {
        Some(HTBOTTOM)
    } else {
        None
    }
}

/// The popup can be resized from its edges only: a point 14 pixels or more
/// inside every edge is no resize zone, and a point within 7 pixels of an
/// edge always is one.
pub proof fn law_resize_only_at_edges(window: Rect, point: Point)
    ensures
        (window.left + 14 <= point.x < window.right - 14 && window.top + 14 <= point.y < window.bottom
            - 14) ==> resize_zone(window, point) is None,
        (point.x < window.left + 7 || point.x >= window.right - 7 || point.y < window.top + 7
            || point.y >= window.bottom - 7) ==> resize_zone(window, point) is Some,
{
}

/// The card layout of the popup.
#[derive(Clone, Copy, Debug, PartialEq, Eq, Structural)]
pub struct PopupLayout {
    pub input_card: Rect,
    pub output_card: Rect,
    pub input_edit: Rect,
    pub output_edit: Rect,
    pub splitter: Rect,
    pub pin_button: Rect,
    pub close_button: Rect,
}

/// `v` raised to at least `lo`.
pub open spec fn at_least(v: int, lo: int) -> int {
    if v < lo {
        lo
    } else {
        v
    }
}

/// `v` held within `lo ..= hi` (for `lo <= hi`).
pub open spec fn clamped(v: int, lo: int, hi: int) -> int {
    if v < lo {
        lo
    } else if v > hi {
        hi
    } else {
        v
    }
}

/// The height shared by the two cards in a client area: what is left below
/// the title strip and around the cards, at least 210.
pub open spec fn content_height_of(client: Rect) -> int {
    at_least(at_least(client.bottom as int, 1) - 66, 210)
}

/// The height shared by the two cards.
pub fn content_height(client: Rect) -> (r: i32)
    ensures
        r == content_height_of(client),
{
    let height = if client.bottom < 1 { 1 } else { client.bottom };
    let h = height - 66;
    if h < 210 { 210 } else { h }
}

/// The popup layout for a client area whose source card would be
/// `input_scaled` pixels high (the share of [`content_height`] that the
/// split ratio gives): the source card is kept between 96 pixels and 110
/// short of the content height.
pub open spec fn layout_of(client: Rect, input_scaled: i32) -> PopupLayout {
    let width = at_least(client.right as int, 1);
    let height = at_least(client.bottom as int, 1);
    let content = content_height_of(client);
    let input_height = clamped(input_scaled as int, 96, content - 110);
    let input_card = Rect { left: 10, top: 44, right: (width - 10) as i32, bottom: (44 + input_height) as i32 };
    let output_card = Rect { left: 10, top: (44 + input_height + 12) as i32, right: (width - 10) as i32, bottom: (height - 10) as i32 };
    PopupLayout {
        input_card,
        output_card,
        input_edit: Rect { left: 22, top: 76, right: (width - 22) as i32, bottom: (44 + input_height - 10) as i32 },
        output_edit: Rect { left: 22, top: (44 + input_height + 44) as i32, right: (width - 22) as i32, bottom: (height - 20) as i32 },
        splitter: Rect { left: (width / 2 - 24) as i32, top: (44 + input_height) as i32, right: (width / 2 + 24) as i32, bottom: (44 + input_height + 12) as i32 },
        pin_button: Rect { left: 10, top: 7, right: 42, bottom: 37 },
        close_button: Rect { left: (width - 42) as i32, top: 7, right: (width - 10) as i32, bottom: 37 },
    }
}

/// The popup layout for a client area and a scaled source-card height.
pub fn popup_layout(client: Rect, input_scaled: i32) -> (r: PopupLayout)
    ensures
        r == layout_of(client, input_scaled),
{
    let width = if client.right < 1 { 1 } else { client.right };
    let height = if client.bottom < 1 { 1 } else { client.bottom };
    let margin: i32 = 10;
    let gap: i32 = 12;
    let content = content_height(client);
    let input_height = if input_scaled < 96 {
        96
    } else if input_scaled > content - 110 {
        content - 110
    } else {
        input_scaled
    };
    let input_card = Rect { left: margin, top: HEADER_HEIGHT, right: width - margin, bottom: HEADER_HEIGHT + input_height };
    let output_card = Rect { left: margin, top: input_card.bottom + gap, right: width - margin, bottom: height - margin };
    PopupLayout {
        input_edit: inset_card(input_card),
        output_edit: inset_card(output_card),
        splitter: Rect { left: width / 2 - 24, top: input_card.bottom, right: width / 2 + 24, bottom: output_card.top },
        input_card,
        output_card,
        pin_button: Rect { left: 10, top: 7, right: 42, bottom: 37 },
        close_button: Rect { left: width - 42, top: 7, right: width - 10, bottom: 37 },
    }
}

/// How many text lines fit in `height` pixels: lines of `line_height` pixels
/// (18 when the font could not be measured; at least 1), and at least one line.
pub open spec fn visible_lines_of(height: i32, line_height: Option<i32>) -> int {
    let lh = match line_height {
        Some(h) => at_least(h as int, 1),
        None => 18int,
    };
    if height <= 0 {
        1
    } else {
        at_least(height as int / lh, 1)
    }
}

/// How many text lines of an edit control fit in `height` pixels.
pub fn visible_lines(height: i32, line_height: Option<i32>) -> (r: i32)
    ensures
        r == visible_lines_of(height, line_height),
{
    let lh: i32 = match line_height {
        Some(h) => if h < 1 { 1 } else { h },
        None => 18,
    };
    if height <= 0 {
        return 1;
    }
    let n = height / lh;
    if n < 1 { 1 } else { n }
}

/// Lines to scroll for a wheel turn of `delta` (120 per notch): three per
/// started notch, down for a turn towards the user.
pub open spec fn wheel_lines_of(delta: i16) -> int {
    let magnitude = if delta < 0 { -delta } else { delta as int };
    let steps = (magnitude + 119) / 120;
    if delta > 0 {
        -(steps * 3)
    } else if delta < 0 {
        steps * 3
    } else {
        0
    }
}

/// Lines to scroll for a wheel turn of `delta`.
pub fn wheel_lines(delta: i16) -> (r: i32)
    ensures
        r == wheel_lines_of(delta),
{
    let d = delta as i32;
    let magnitude: i32 = if d < 0 { -d } else { d };
    let steps = (magnitude + 119) / 120;
    if d > 0 {
        -(steps * 3)
    } else if d < 0 {
        steps * 3
    } else {
        0
    }
}

/// Where the popup goes near the cursor: below and right of it, else above
/// or left when it would pass the work area's right or bottom edge, then
/// held inside the work area as far as the popup fits.
pub open spec fn near_mouse_of(cursor: Point, window: Rect, work: Rect) -> (int, int) {
    let width = window.right - window.left;
    let height = window.bottom - window.top;
    let x0 = cursor.x + 16;
    let y0 = cursor.y + 20;
    let x1 = if x0 + width > work.right { cursor.x - width - 16 } else { x0 };
    let y1 = if y0 + height > work.bottom { cursor.y - height - 16 } else { y0 };
    (
        clamped(x1, work.left as int, at_least(work.right - width, work.left as int)),
        clamped(y1, work.top as int, at_least(work.bottom - height, work.top as int)),
    )
}

/// A value that an `i32` holds.
pub open spec fn fits32(v: int) -> bool {
    i32::MIN <= v <= i32::MAX
}

/// Every intermediate value of the placement fits in an `i32`.
pub open spec fn placement_fits(cursor: Point, window: Rect, work: Rect) -> bool {
    let width = window.right - window.left;
    let height = window.bottom - window.top;
    &&& fits32(width)
    &&& fits32(height)
    &&& fits32(cursor.x + 16)
    &&& fits32(cursor.y + 20)
    &&& fits32(cursor.x + 16 + width)
    &&& fits32(cursor.y + 20 + height)
    &&& (cursor.x + 16 + width > work.right ==> fits32(cursor.x - width) && fits32(cursor.x - width - 16))
    &&& (cursor.y + 20 + height > work.bottom ==> fits32(cursor.y - height) && fits32(cursor.y - height - 16))
    &&& fits32(work.right - width)
    &&& fits32(work.bottom - height)
}

/// The popup's top-left corner near the cursor, inside the work area.
pub fn position_near_mouse(cursor: Point, window: Rect, work: Rect) -> (r: Point)
    requires
        placement_fits(cursor, window, work),
    ensures
        (r.x as int, r.y as int) == near_mouse_of(cursor, window, work),
{
    let width = window.right - window.left;
    let height = window.bottom - window.top;
    let mut x = cursor.x + 16;
    let mut y = cursor.y + 20;
    if x + width > work.right {
        x = cursor.x - width - 16;
    }
    if y + height > work.bottom {
        y = cursor.y - height - 16;
    }
    let max_x = if work.right - width < work.left { work.left } else { work.right - width };
    let max_y = if work.bottom - height < work.top { work.top } else { work.bottom - height };
    let x = if x < work.left { work.left } else if x > max_x { max_x } else { x };
    let y = if y < work.top { work.top } else if y > max_y { max_y } else { y };
    Point { x, y }
}

/// The popup placed near the mouse keeps its top-left corner inside the work
/// area, and the whole popup inside whenever it fits.
pub proof fn law_popup_stays_on_screen(cursor: Point, window: Rect, work: Rect)
    requires
        work.left <= work.right,
        work.top <= work.bottom,
        window.left <= window.right,
        window.top <= window.bottom,
    ensures
        ({
            let (x, y) = near_mouse_of(cursor, window, work);
            let width = window.right - window.left;
            let height = window.bottom - window.top;
            &&& work.left <= x
            &&& work.top <= y
            &&& width <= work.right - work.left ==> x + width <= work.right
            &&& height <= work.bottom - work.top ==> y + height <= work.bottom
        }),
{
}

/// The overlay scroll bar thumb of an edit control with client area
/// `client`, showing `visible` of `lines` lines from line `first`: none when
/// everything fits or the control is under 28 pixels high; otherwise a strip
/// 4 pixels wide, 3 from the right edge, in a track 4 pixels in from top and
/// bottom, as long as its share of the lines (at least 24 pixels).
pub open spec fn thumb_of(client: Rect, lines: i32, visible: i32, first: i32) -> Option<Rect> {
    let height = client.bottom - client.top;
    if lines <= visible || height < 28 {
        None
    } else {
        let track = height - 8;
        let thumb = clamped(track * visible / (lines as int), 24, track);
        let max_first = lines - visible;
        let top = 4 + clamped(first as int, 0, max_first) * (track - thumb) / max_first;
        Some(Rect { left: (client.right - 7) as i32, top: top as i32, right: (client.right - 3) as i32, bottom: (top + thumb) as i32 })
    }
}

/// The arithmetic of the thumb stays within `i32`, and the track is long
/// enough for the shortest thumb.
pub open spec fn thumb_fits(client: Rect, lines: i32, visible: i32, first: i32) -> bool {
    let height = client.bottom - client.top;
    &&& visible >= 1
    &&& fits32(height)
    &&& (lines > visible && height >= 28) ==> {
        let track = height - 8;
        &&& track >= 24
        &&& fits32(track * visible)
        &&& fits32((lines - visible) * track)
        &&& fits32(client.right - 7)
        &&& 4 + track <= i32::MAX
    }
}

/// The overlay scroll bar thumb, if the text does not fit.
pub fn scrollbar_thumb(client: Rect, lines: i32, visible: i32, first: i32) -> (r: Option<Rect>)
    requires
        thumb_fits(client, lines, visible, first),
    ensures
        r == thumb_of(client, lines, visible, first),
{
    let height = client.bottom - client.top;
    if lines <= visible || height < 28 {
        return None;
    }
    let track_height = height - 8;
    let scaled = track_height * visible / lines;
    assert(scaled <= track_height) by (nonlinear_arith)
        requires
            scaled == track_height * visible / (lines as int),
            0 < visible < lines,
            track_height > 0,
    ;
    let thumb_height = if scaled < 24 { 24 } else if scaled > track_height { track_height } else { scaled };
    let max_first = lines - visible;
    let shown = if first < 0 { 0 } else if first > max_first { max_first } else { first };
    let room = track_height - thumb_height;
    assert(0 <= shown * room <= max_first * track_height) by (nonlinear_arith)
        requires
            0 <= shown <= max_first,
            0 <= room <= track_height,
    ;
    let offset = shown * room / max_first;
    assert(offset <= room) by (nonlinear_arith)
        requires
            offset == shown * room / (max_first as int),
            0 <= shown <= max_first,
            0 <= room,
            max_first > 0,
    ;
    let top = 4 + offset;
    Some(Rect { left: client.right - 7, top, right: client.right - 3, bottom: top + thumb_height })
}

/// The first line to show when the thumb is dragged to `y`: the thumb's
/// centre follows the pointer along the track.
pub open spec fn drag_target_of(client: Rect, thumb: Rect, lines: i32, visible: i32, y: i32) -> int {
    let thumb_height = thumb.bottom - thumb.top;
    let max_first = at_least(lines - visible, 1);
    let travel = at_least(client.bottom - 8 - thumb_height, 1);
    clamped(y - 4 - thumb_height / 2, 0, travel) * max_first / travel
}

/// The drag arithmetic stays within `i32`.
pub open spec fn drag_fits(client: Rect, thumb: Rect, lines: i32, visible: i32, y: i32) -> bool {
    let thumb_height = thumb.bottom - thumb.top;
    let max_first = at_least(lines - visible, 1);
    let travel = at_least(client.bottom - 8 - thumb_height, 1);
    &&& 0 <= thumb_height <= i32::MAX
    &&& fits32(lines - visible)
    &&& fits32(client.bottom - 8 - thumb_height)
    &&& fits32(y - 4 - thumb_height / 2)
    &&& fits32(travel * max_first)
}

/// The scroll bar thumb stays inside its track, 4 pixels from the top and
/// bottom of the control, is at least 24 pixels long, and reaches the top of
/// the track at the first line and its bottom at the last scroll position.
pub proof fn law_thumb_stays_in_track(client: Rect, lines: i32, visible: i32, first: i32)
    requires
        client.top == 0,
        thumb_fits(client, lines, visible, first),
        thumb_of(client, lines, visible, first) is Some,
    ensures
        ({
            let t = thumb_of(client, lines, visible, first)->0;
            &&& 4 <= t.top
            &&& t.bottom <= client.bottom - 4
            &&& t.bottom - t.top >= 24
            &&& first <= 0 ==> t.top == 4
            &&& first >= lines - visible ==> t.bottom == client.bottom - 4
        }),
{
    let height = client.bottom - client.top;
    let track = height - 8;
    let thumb = clamped(track * visible / (lines as int), 24, track);
    let max_first = lines - visible;
    let f = clamped(first as int, 0, max_first as int);
    let room = track - thumb;
    assert(0 <= f * room / (max_first as int) <= room) by (nonlinear_arith)
        requires
            0 <= f <= max_first,
            max_first >= 1,
            room >= 0,
    ;
    let top = 4 + f * room / (max_first as int);
    assert(24 <= thumb <= track);
    assert(4 <= top && top + thumb <= 4 + track <= i32::MAX);
    if first <= 0 {
        assert(f * room / (max_first as int) == 0) by (nonlinear_arith)
            requires
                f == 0,
                max_first >= 1,
        ;
    }
    if first >= lines - visible {
        assert(max_first * room / (max_first as int) == room) by (nonlinear_arith)
            requires
                max_first >= 1,
        ;
        assert(top + thumb == 4 + track);
    }
    let t = thumb_of(client, lines, visible, first)->0;
    assert(t.top == top && t.bottom == top + thumb);
}

/// For a client area at least 276 pixels high, both cards stay open
/// whatever the split: the source card is at least 96 pixels high and the
/// output card at least 110, stacked with the splitter's 12-pixel gap
/// between them, each edit control inside its card.
pub proof fn law_layout_keeps_both_cards(client: Rect, input_scaled: i32)
    requires
        client.bottom >= 276,
    ensures
        ({
            let l = layout_of(client, input_scaled);
            &&& l.input_card.bottom - l.input_card.top >= 96
            &&& l.output_card.bottom - l.output_card.top >= 110
            &&& l.splitter.top == l.input_card.bottom
            &&& l.splitter.bottom == l.output_card.top
            &&& l.output_card.top == l.input_card.bottom + 12
            &&& l.input_card.top <= l.input_edit.top && l.input_edit.bottom <= l.input_card.bottom
            &&& l.output_card.top <= l.output_edit.top && l.output_edit.bottom <= l.output_card.bottom
            &&& l.input_card.left <= l.input_edit.left && l.input_edit.right <= l.input_card.right
            &&& l.output_card.left <= l.output_edit.left && l.output_edit.right <= l.output_card.right
        }),
{
}

/// The first line to show for a thumb dragged to `y`.
pub fn drag_target(client: Rect, thumb: Rect, lines: i32, visible: i32, y: i32) -> (r: i32)
    requires
        drag_fits(client, thumb, lines, visible, y),
    ensures
        r == drag_target_of(client, thumb, lines, visible, y),
{
    let thumb_height = thumb.bottom - thumb.top;
    let spread = lines - visible;
    let max_first = if spread < 1 { 1 } else { spread };
    let room = client.bottom - 8 - thumb_height;
    let travel = if room < 1 { 1 } else { room };
    let pos = y - 4 - thumb_height / 2;
    let along = if pos < 0 { 0 } else if pos > travel { travel } else { pos };
    assert(0 <= along * max_first <= travel * max_first) by (nonlinear_arith)
        requires
            0 <= along <= travel,
            max_first >= 1,
    ;
    along * max_first / travel
}

/// Whether `v` fits in an `i32`.
fn within32(v: i128) -> (r: bool)
    ensures
        r == fits32(v as int),
{
    -2147483648i128 <= v && v <= 2147483647i128
}

/// Whether the placement near the mouse can be computed for these values.
pub fn placement_ok(cursor: Point, window: Rect, work: Rect) -> (r: bool)
    ensures
        r == placement_fits(cursor, window, work),
{
    let width = window.right as i128 - window.left as i128;
    let height = window.bottom as i128 - window.top as i128;
    let x0 = cursor.x as i128 + 16;
    let y0 = cursor.y as i128 + 20;
    within32(width) && within32(height) && within32(x0) && within32(y0) && within32(x0 + width)
        && within32(y0 + height) && (!(x0 + width > work.right as i128) || (within32(
        cursor.x as i128 - width,
    ) && within32(cursor.x as i128 - width - 16))) && (!(y0 + height > work.bottom as i128) || (
    within32(cursor.y as i128 - height) && within32(cursor.y as i128 - height - 16))) && within32(
        work.right as i128 - width,
    ) && within32(work.bottom as i128 - height)
}

/// Whether the scroll bar thumb can be computed for these values.
pub fn thumb_ok(client: Rect, lines: i32, visible: i32, first: i32) -> (r: bool)
    ensures
        r == thumb_fits(client, lines, visible, first),
{
    let height = client.bottom as i128 - client.top as i128;
    if visible < 1 || !within32(height) {
        return false;
    }
    if !(lines > visible && height >= 28) {
        return true;
    }
    let track = height - 8;
    let v = visible as i128;
    let spread = lines as i128 - visible as i128;
    assert(-0x8_0000_0000_0000_0000i128 <= track * v <= 0x8_0000_0000_0000_0000i128) by (nonlinear_arith)
        requires
            -0x2_0000_0000i128 <= track <= 0x2_0000_0000i128,
            -0x1_0000_0000i128 <= v <= 0x1_0000_0000i128,
    ;
    assert(-0x8_0000_0000_0000_0000i128 <= spread * track <= 0x8_0000_0000_0000_0000i128) by (nonlinear_arith)
        requires
            -0x2_0000_0000i128 <= track <= 0x2_0000_0000i128,
            -0x2_0000_0000i128 <= spread <= 0x2_0000_0000i128,
    ;
    track >= 24 && within32(track * v) && within32(
        spread * track,
    ) && within32(client.right as i128 - 7) && 4 + track <= 2147483647i128
}

/// Whether the drag target can be computed for these values.
pub fn drag_ok(client: Rect, thumb: Rect, lines: i32, visible: i32, y: i32) -> (r: bool)
    ensures
        r == drag_fits(client, thumb, lines, visible, y),
{
    let thumb_height = thumb.bottom as i128 - thumb.top as i128;
    if !(0 <= thumb_height && thumb_height <= 2147483647i128) {
        return false;
    }
    let spread = lines as i128 - visible as i128;
    let max_first = if spread < 1 { 1 } else { spread };
    let room = client.bottom as i128 - 8 - thumb_height;
    let travel = if room < 1 { 1 } else { room };
    assert(0 <= travel * max_first <= 0x10_0000_0000_0000_0000i128) by (nonlinear_arith)
        requires
            1 <= travel <= 0x4_0000_0000i128,
            1 <= max_first <= 0x4_0000_0000i128,
    ;
    within32(spread) && within32(room) && within32(y as i128 - 4 - thumb_height / 2) && within32(
        travel * max_first,
    )
}

} // verus!
