use fy::geometry::{Point, Rect};
use fy::paint::{paint_ok, popup_paint, Segment, Shade};

fn rect(left: i32, top: i32, right: i32, bottom: i32) -> Rect {
    Rect { left, top, right, bottom }
}

fn seg(x1: i32, y1: i32, x2: i32, y2: i32) -> Segment {
    Segment { from: Point { x: x1, y: y1 }, to: Point { x: x2, y: y2 } }
}

#[test]
fn pinned_popup_while_translating() {
    let client = rect(0, 0, 480, 520);
    assert!(paint_ok(client, 150, "OpenAI"));
    let plan = popup_paint(client, 150, true, true, 1, "OpenAI");
    assert_eq!(plan.layout.input_card, rect(10, 44, 470, 194));
    assert_eq!(plan.layout.output_card, rect(10, 206, 470, 510));
    assert_eq!(plan.pin_fill, Shade::Accent);
    assert_eq!(plan.pin_pen, Shade::Text);
    assert_eq!(plan.title_box, rect(52, 7, 428, 37));
    assert_eq!(plan.source_box, rect(22, 48, 458, 74));
    assert_eq!(plan.output_box, rect(22, 210, 458, 236));
    assert_eq!(plan.output_title, "翻译 · OpenAI");
    assert_eq!(plan.splitter, seg(224, 200, 256, 200));
    assert_eq!(plan.spinner, Some(seg(131, 221, 133, 219)));
    assert_eq!(
        plan.pin,
        vec![
            seg(20, 16, 32, 16),
            seg(22, 17, 24, 24),
            seg(24, 24, 28, 24),
            seg(28, 24, 30, 17),
            seg(20, 25, 32, 25),
            seg(26, 25, 26, 32),
        ]
    );
    assert_eq!(plan.close, vec![seg(448, 16, 460, 28), seg(460, 16, 448, 28)]);
}

#[test]
fn idle_unpinned_popup_has_no_spinner() {
    let plan = popup_paint(rect(0, 0, 480, 520), 150, false, false, 3, "DeepSeek");
    assert_eq!(plan.pin_fill, Shade::Button);
    assert_eq!(plan.pin_pen, Shade::Muted);
    assert_eq!(plan.spinner, None);
}

#[test]
fn spinner_stays_inside_the_card_after_a_long_heading() {
    let provider = "a".repeat(60);
    let plan = popup_paint(rect(0, 0, 480, 520), 150, false, true, 6, &provider);
    assert_eq!(plan.spinner, Some(seg(449, 223, 446, 223)));
    let plan = popup_paint(rect(0, 0, 480, 520), 150, false, true, 12, "OpenAI");
    assert_eq!(plan.spinner, Some(seg(129, 226, 129, 229)));
}

#[test]
fn drawing_refuses_coordinates_that_overflow() {
    assert!(!paint_ok(rect(0, 0, i32::MIN, 520), 150, "OpenAI"));
    assert!(!paint_ok(rect(0, 0, 480, i32::MAX), i32::MAX, "OpenAI"));
}
