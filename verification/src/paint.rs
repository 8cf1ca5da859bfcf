//! What the popup paints over its layout: the colour of the pin button, the
//! boxes of the headings, and the strokes of the splitter, the spinner and
//! the pin and close icons.

use vstd::prelude::*;
use crate::geometry::{layout_of, popup_layout, Point, PopupLayout, Rect};
use crate::text::{chars_of, string_of};
use crate::ui::{utf16_seq, wide};

verus! {

/// The colour role of a part that changes with the popup's state.
#[derive(Clone, Copy, Debug, PartialEq, Eq, Structural)]
pub enum Shade {
    /// A button at rest.
    Button,
    /// The accent colour.
    Accent,
    /// Main text.
    Text,
    /// Secondary text.
    Muted,
}

/// A straight stroke.
#[derive(Clone, Copy, Debug, PartialEq, Eq, Structural)]
pub struct Segment {
    pub from: Point,
    pub to: Point,
}

/// The stroke from `(x1, y1)` to `(x2, y2)`.
pub open spec fn segment(x1: int, y1: int, x2: int, y2: int) -> Segment {
    Segment { from: Point { x: x1 as i32, y: y1 as i32 }, to: Point { x: x2 as i32, y: y2 as i32 } }
}

/// The box of the popup's name in the title strip.
pub open spec fn title_box_of(client: Rect) -> Rect {
    Rect { left: 52, top: 7, right: (client.right - 52) as i32, bottom: 37 }
}

/// The heading box of a card: 12 pixels in at the sides, from 4 to 30 below
/// the card's top.
pub open spec fn label_box_of(card: Rect) -> Rect {
    Rect { left: (card.left + 12) as i32, top: (card.top + 4) as i32, right: (card.right - 12) as i32, bottom: (card.top + 30) as i32 }
}

/// The heading of the output card for provider `p`.
pub open spec fn output_title_of(p: Seq<char>) -> Seq<char> {
    "翻译 · "@ + p
}

/// The splitter grip: a level stroke through the middle of the gap, 8 pixels
/// in from its ends.
pub open spec fn splitter_of(s: Rect) -> Segment {
    let y = (s.top + s.bottom) / 2;
    segment(s.left + 8, y, s.right - 8, y)
}

/// Where the spinner points in frame `f`: one of eight points on a circle of
/// radius 6 (rounded), turning clockwise from the top.
pub open spec fn spinner_offset(f: int) -> (int, int) {
    let k = f % 8;
    if k == 0 {
        (0, -6)
    } else if k == 1 {
        (4, -4)
    } else if k == 2 {
        (6, 0)
    } else if k == 3 {
        (4, 4)
    } else if k == 4 {
        (0, 6)
    } else if k == 5 {
        (-4, 4)
    } else if k == 6 {
        (-6, 0)
    } else {
        (-4, -4)
    }
}

/// The spinner in `card` after a heading of `units` UTF-16 units: centred
/// 9 pixels per unit past the heading's start (at most 18 from the card's
/// right edge) and 17 below the top, stroked from half way out to the rim.
pub open spec fn spinner_of(card: Rect, units: int, frame: int) -> Segment {
    let far = card.left + 20 + units * 9;
    let cx = if far <= card.right - 18 { far } else { card.right - 18 };
    let cy = card.top + 17;
    let (dx, dy) = spinner_offset(frame);
    segment(cx + dx / 2, cy + dy / 2, cx + dx, cy + dy)
}

/// The pin icon in button `b`: the head's bar, the sides and bottom of its
/// body, the collar and the needle.
pub open spec fn pin_of(b: Rect) -> Seq<Segment> {
    let c = (b.left + b.right) / 2;
    let t = b.top as int;
    seq![
        segment(c - 6, t + 9, c + 6, t + 9),
        segment(c - 4, t + 10, c - 2, t + 17),
        segment(c - 2, t + 17, c + 2, t + 17),
        segment(c + 2, t + 17, c + 4, t + 10),
        segment(c - 6, t + 18, c + 6, t + 18),
        segment(c, t + 18, c, t + 25),
    ]
}

/// The cross of the close button `b`, 10 pixels in at the sides and 9 at
/// the top and bottom.
pub open spec fn close_of(b: Rect) -> Seq<Segment> {
    seq![
        segment(b.left + 10, b.top + 9, b.right - 10, b.bottom - 9),
        segment(b.right - 10, b.top + 9, b.left + 10, b.bottom - 9),
    ]
}

/// Whether the popup's drawing can be computed: the title box's right edge,
/// the sum of the splitter's top and bottom and the spinner's position fit
/// in an `i32`.
pub open spec fn paint_fits(client: Rect, input_scaled: i32, provider: Seq<char>) -> bool {
    let s = layout_of(client, input_scaled).splitter;
    &&& client.right - 52 >= i32::MIN
    &&& s.top + s.bottom <= i32::MAX
    &&& 30 + 9 * utf16_seq(output_title_of(provider)).len() <= i32::MAX
}

/// Everything the popup draws besides its fixed colours and texts.
pub struct PopupPaint {
    /// The cards, edits, splitter and buttons.
    pub layout: PopupLayout,
    /// The fill of the pin button.
    pub pin_fill: Shade,
    /// The pen of the pin icon.
    pub pin_pen: Shade,
    /// Where the popup's name goes.
    pub title_box: Rect,
    /// Where the source card's heading goes.
    pub source_box: Rect,
    /// Where the output card's heading goes.
    pub output_box: Rect,
    /// The output card's heading.
    pub output_title: String,
    /// The splitter grip.
    pub splitter: Segment,
    /// The spinner, while a translation runs.
    pub spinner: Option<Segment>,
    /// The strokes of the pin icon.
    pub pin: Vec<Segment>,
    /// The strokes of the close icon.
    pub close: Vec<Segment>,
}

/// The stroke from `(x1, y1)` to `(x2, y2)`.
fn stroke(x1: i32, y1: i32, x2: i32, y2: i32) -> (r: Segment)
    ensures
        r == segment(x1 as int, y1 as int, x2 as int, y2 as int),
{
    Segment { from: Point { x: x1, y: y1 }, to: Point { x: x2, y: y2 } }
}

/// The number of UTF-16 units of `text`.
fn utf16_len(text: &str) -> (r: usize)
    ensures
        r == utf16_seq(text@).len(),
{
    let w = wide(text);
    w.len() - 1
}

/// The output card's heading for `provider`.
fn output_title(provider: &str) -> (r: String)
    ensures
        r@ == output_title_of(provider@),
{
    let mut t = chars_of("翻译 · ");
    let mut p = chars_of(provider);
    t.append(&mut p);
    string_of(&t)
}

/// Whether the popup's drawing can be computed for this client area, scaled
/// source-card height and provider.
pub fn paint_ok(client: Rect, input_scaled: i32, provider: &str) -> (r: bool)
    ensures
        r == paint_fits(client, input_scaled, provider@),
{
    let units = utf16_len(output_title(provider).as_str());
    let s = popup_layout(client, input_scaled).splitter;
    client.right as i64 - 52 >= i32::MIN as i64 && s.top as i64 + s.bottom as i64 <= i32::MAX as i64
        && units <= 238609290
}

/// The spinner stroke for frame `frame`.
fn spinner(card: Rect, units: usize, frame: u8) -> (r: Segment)
    requires
        30 + 9 * units <= i32::MAX,
        card.left == 10,
        card.right >= -9,
        card.top <= i32::MAX - 23,
    ensures
        r == spinner_of(card, units as int, frame as int),
{
    let far = card.left + 20 + units as i32 * 9;
    let cx = if far <= card.right - 18 { far } else { card.right - 18 };
    let cy = card.top + 17;
    let k = frame % 8;
    let (hx, hy, dx, dy): (i32, i32, i32, i32) = if k == 0 {
        (0, -3, 0, -6)
    } else if k == 1 {
        (2, -2, 4, -4)
    } else if k == 2 {
        (3, 0, 6, 0)
    } else if k == 3 {
        (2, 2, 4, 4)
    } else if k == 4 {
        (0, 3, 0, 6)
    } else if k == 5 {
        (-2, 2, -4, 4)
    } else if k == 6 {
        (-3, 0, -6, 0)
    } else {
        (-2, -2, -4, -4)
    };
    stroke(cx + hx, cy + hy, cx + dx, cy + dy)
}

/// What the popup draws for client area `client`, a source card that the
/// split ratio makes `input_scaled` pixels high, the pin state, whether a
/// translation runs, the spinner frame and the active provider's name.
pub fn popup_paint(client: Rect, input_scaled: i32, pinned: bool, translating: bool, frame: u8, provider: &str) -> (r: PopupPaint)
    requires
        paint_fits(client, input_scaled, provider@),
    ensures
        r.layout == layout_of(client, input_scaled),
        r.pin_fill == (if pinned { Shade::Accent } else { Shade::Button }),
        r.pin_pen == (if pinned { Shade::Text } else { Shade::Muted }),
        r.title_box == title_box_of(client),
        r.source_box == label_box_of(r.layout.input_card),
        r.output_box == label_box_of(r.layout.output_card),
        r.output_title@ == output_title_of(provider@),
        r.splitter == splitter_of(r.layout.splitter),
        r.spinner == (if translating {
            Some(spinner_of(r.layout.output_card, utf16_seq(output_title_of(provider@)).len() as int, frame as int))
        } else {
            None::<Segment>
        }),
        r.pin@ == pin_of(r.layout.pin_button),
        r.close@ == close_of(r.layout.close_button),
{
    let layout = popup_layout(client, input_scaled);
    let title = output_title(provider);
    let units = utf16_len(title.as_str());
    let input = layout.input_card;
    let output = layout.output_card;
    let s = layout.splitter;
    let mid = (s.top + s.bottom) / 2;
    let b = layout.pin_button;
    let c = (b.left + b.right) / 2;
    let t = b.top;
    let x = layout.close_button;
    let pin = vec![
        stroke(c - 6, t + 9, c + 6, t + 9),
        stroke(c - 4, t + 10, c - 2, t + 17),
        stroke(c - 2, t + 17, c + 2, t + 17),
        stroke(c + 2, t + 17, c + 4, t + 10),
        stroke(c - 6, t + 18, c + 6, t + 18),
        stroke(c, t + 18, c, t + 25),
    ];
    let close = vec![
        stroke(x.left + 10, x.top + 9, x.right - 10, x.bottom - 9),
        stroke(x.right - 10, x.top + 9, x.left + 10, x.bottom - 9),
    ];
    let spinner = if translating { Some(spinner(output, units, frame)) } else { None };
    let r = PopupPaint {
        layout,
        pin_fill: if pinned { Shade::Accent } else { Shade::Button },
        pin_pen: if pinned { Shade::Text } else { Shade::Muted },
        title_box: Rect { left: 52, top: 7, right: client.right - 52, bottom: 37 },
        source_box: Rect { left: input.left + 12, top: input.top + 4, right: input.right - 12, bottom: input.top + 30 },
        output_box: Rect { left: output.left + 12, top: output.top + 4, right: output.right - 12, bottom: output.top + 30 },
        output_title: title,
        splitter: stroke(s.left + 8, mid, s.right - 8, mid),
        spinner,
        pin,
        close,
    };
    assert(r.pin@ =~= pin_of(r.layout.pin_button));
    assert(r.close@ =~= close_of(r.layout.close_button));
    r
}

} // verus!
