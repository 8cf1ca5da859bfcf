use fy::geometry::{
    client_point, content_height, drag_target, inset_card, point_in_rect, popup_layout,
    position_near_mouse, resize_hit_test, scrollbar_thumb, visible_lines, wheel_lines, Point, Rect, HTBOTTOM,
    HTBOTTOMLEFT, HTBOTTOMRIGHT, HTLEFT, HTRIGHT, HTTOP, HTTOPLEFT, HTTOPRIGHT,
};
use fy::ui::{
    copy_wide, embedded_icon_resource, parse_hotkey, wide, windows_text, HotkeyError, IconError,
    MOD_ALT, MOD_CONTROL, MOD_SHIFT, MOD_WIN,
};

#[test]
fn parses_default_hotkey() {
    let (modifiers, key) = parse_hotkey("Alt+X").unwrap();
    assert_eq!(key, b'X' as u16);
    assert_eq!(modifiers & MOD_CONTROL, 0);
    assert_ne!(modifiers & MOD_ALT, 0);
}

#[test]
fn rejects_unknown_hotkey() {
    assert!(parse_hotkey("Ctrl+F12").is_err());
}

#[test]
fn hotkey_forms() {
    assert_eq!(
        parse_hotkey(" control + shift+WIN+7"),
        Ok((MOD_CONTROL | MOD_SHIFT | MOD_WIN, b'7' as u16))
    );
    assert_eq!(parse_hotkey("Windows+a+b"), Ok((MOD_WIN, b'B' as u16)));
    assert_eq!(parse_hotkey("Ctrl+Alt"), Err(HotkeyError::MissingKey));
    assert_eq!(parse_hotkey("Ctrl++X"), Err(HotkeyError::Unsupported));
    assert_eq!(parse_hotkey("Ctrl+-"), Err(HotkeyError::Unsupported));
    assert_eq!(parse_hotkey("Ctrl+é"), Err(HotkeyError::Unsupported));
}

#[test]
fn modifier_values_are_the_windows_ones() {
    assert_eq!(MOD_ALT, windows_sys::Win32::UI::Input::KeyboardAndMouse::MOD_ALT);
    assert_eq!(MOD_CONTROL, windows_sys::Win32::UI::Input::KeyboardAndMouse::MOD_CONTROL);
    assert_eq!(MOD_SHIFT, windows_sys::Win32::UI::Input::KeyboardAndMouse::MOD_SHIFT);
    assert_eq!(MOD_WIN, windows_sys::Win32::UI::Input::KeyboardAndMouse::MOD_WIN);
    assert_eq!(
        [HTLEFT, HTRIGHT, HTTOP, HTTOPLEFT, HTTOPRIGHT, HTBOTTOM, HTBOTTOMLEFT, HTBOTTOMRIGHT],
        [windows_sys::Win32::UI::WindowsAndMessaging::HTLEFT, windows_sys::Win32::UI::WindowsAndMessaging::HTRIGHT, windows_sys::Win32::UI::WindowsAndMessaging::HTTOP, windows_sys::Win32::UI::WindowsAndMessaging::HTTOPLEFT, windows_sys::Win32::UI::WindowsAndMessaging::HTTOPRIGHT, windows_sys::Win32::UI::WindowsAndMessaging::HTBOTTOM, windows_sys::Win32::UI::WindowsAndMessaging::HTBOTTOMLEFT, windows_sys::Win32::UI::WindowsAndMessaging::HTBOTTOMRIGHT]
    );
}

fn icon_with(entries: &[(u8, u32, u32)], data_len: usize) -> Vec<u8> {
    let mut bytes = vec![0u8, 0, 1, 0];
    bytes.extend_from_slice(&(entries.len() as u16).to_le_bytes());
    for (width, size, offset) in entries {
        let mut entry = [0u8; 16];
        entry[0] = *width;
        entry[1] = *width;
        entry[8..12].copy_from_slice(&size.to_le_bytes());
        entry[12..16].copy_from_slice(&offset.to_le_bytes());
        bytes.extend_from_slice(&entry);
    }
    let start = bytes.len();
    for i in 0..data_len {
        bytes.push((start + i) as u8);
    }
    bytes
}

#[test]
fn loads_the_embedded_tray_icon_resource() {
    let icon = icon_with(&[(16, 4, 54), (32, 8, 58), (0, 2, 66)], 14);
    assert!(!embedded_icon_resource(&icon, 32).unwrap().is_empty());
}

#[test]
fn icon_entry_closest_to_the_desired_size_is_chosen() {
    let icon = icon_with(&[(16, 4, 54), (32, 8, 58), (0, 2, 66)], 14);
    assert_eq!(embedded_icon_resource(&icon, 32).unwrap(), &icon[58..66]);
    assert_eq!(embedded_icon_resource(&icon, 300).unwrap(), &icon[66..68]);
    assert_eq!(embedded_icon_resource(&icon, 24).unwrap(), &icon[54..58]);
    assert_eq!(embedded_icon_resource(&icon[..5], 32), Err(IconError::NotAnIcon));
    let mut not_icon = icon.clone();
    not_icon[2] = 2;
    assert_eq!(embedded_icon_resource(&not_icon, 32), Err(IconError::NotAnIcon));
    assert_eq!(embedded_icon_resource(&icon_with(&[], 0), 32), Err(IconError::BadDirectory));
    assert_eq!(embedded_icon_resource(&icon[..40], 32), Err(IconError::BadDirectory));
    let past = icon_with(&[(32, 100, 22)], 4);
    assert_eq!(embedded_icon_resource(&past, 32), Err(IconError::ImageOutOfRange));
}

#[test]
fn line_breaks_become_crlf() {
    assert_eq!(windows_text("a\nb\r\nc\rd"), "a\r\nb\r\nc\r\nd");
    assert_eq!(windows_text("\r\r\n\n"), "\r\n\r\n\r\n");
}

#[test]
fn wide_strings_match_std() {
    for s in ["", "fy 划词翻译", "emoji 😀 text", "a\u{10FFFF}"] {
        let expected: Vec<u16> = s.encode_utf16().chain(Some(0)).collect();
        assert_eq!(wide(s), expected);
    }
}

#[test]
fn copy_wide_truncates() {
    let mut target = [7u16; 4];
    copy_wide(&mut target, "abcdef");
    assert_eq!(target, [97, 98, 99, 100]);
    let mut target = [7u16; 4];
    copy_wide(&mut target, "a");
    assert_eq!(target, [97, 0, 7, 7]);
}

#[test]
fn cards_and_hits() {
    let card = Rect { left: 10, top: 44, right: 470, bottom: 200 };
    assert_eq!(inset_card(card), Rect { left: 22, top: 76, right: 458, bottom: 190 });
    assert!(point_in_rect(Point { x: 10, y: 44 }, card));
    assert!(!point_in_rect(Point { x: 470, y: 50 }, card));
    assert_eq!(client_point(0x0014_000a), Point { x: 10, y: 20 });
    assert_eq!(client_point(0xffff_fffe_u32 as isize), Point { x: -2, y: -1 });
    let window = Rect { left: 100, top: 100, right: 580, bottom: 620 };
    assert_eq!(resize_hit_test(window, Point { x: 101, y: 101 }), Some(HTTOPLEFT));
    assert_eq!(resize_hit_test(window, Point { x: 579, y: 619 }), Some(HTBOTTOMRIGHT));
    assert_eq!(resize_hit_test(window, Point { x: 101, y: 300 }), Some(HTLEFT));
    assert_eq!(resize_hit_test(window, Point { x: 300, y: 619 }), Some(HTBOTTOM));
    assert_eq!(resize_hit_test(window, Point { x: 300, y: 300 }), None);
}

#[test]
fn layout_of_default_window() {
    let client = Rect { left: 0, top: 0, right: 480, bottom: 520 };
    let content = content_height(client);
    assert_eq!(content, 454);
    let scaled = (content as f32 * 0.4) as i32;
    let layout = popup_layout(client, scaled);
    assert_eq!(layout.input_card, Rect { left: 10, top: 44, right: 470, bottom: 44 + 181 });
    assert_eq!(layout.output_card.top, 44 + 181 + 12);
    assert_eq!(layout.output_card.bottom, 510);
    assert_eq!(layout.close_button, Rect { left: 438, top: 7, right: 470, bottom: 37 });
    let tiny = popup_layout(Rect { left: 0, top: 0, right: 0, bottom: 0 }, 0);
    assert_eq!(tiny.input_card.bottom, 44 + 96);
}

#[test]
fn scrolling() {
    assert_eq!(wheel_lines(120), -3);
    assert_eq!(wheel_lines(-1), 3);
    assert_eq!(wheel_lines(-240), 6);
    assert_eq!(wheel_lines(0), 0);
    let client = Rect { left: 0, top: 0, right: 200, bottom: 108 };
    assert_eq!(scrollbar_thumb(client, 5, 5, 0), None);
    let thumb = scrollbar_thumb(client, 20, 5, 15).unwrap();
    assert_eq!(thumb, Rect { left: 193, top: 4 + 75, right: 197, bottom: 104 });
    assert_eq!(drag_target(client, thumb, 20, 5, 0), 0);
    assert_eq!(drag_target(client, thumb, 20, 5, 1000), 15);
}

#[test]
fn popup_is_placed_near_the_mouse_inside_the_work_area() {
    let window = Rect { left: 0, top: 0, right: 480, bottom: 520 };
    let work = Rect { left: 0, top: 0, right: 1920, bottom: 1040 };
    assert_eq!(position_near_mouse(Point { x: 100, y: 100 }, window, work), Point { x: 116, y: 120 });
    assert_eq!(
        position_near_mouse(Point { x: 1900, y: 1000 }, window, work),
        Point { x: 1900 - 480 - 16, y: 1000 - 520 - 16 }
    );
    assert_eq!(position_near_mouse(Point { x: 10, y: 10 }, window, Rect { left: 0, top: 0, right: 300, bottom: 300 }), Point { x: 0, y: 0 });
}

#[test]
fn visible_line_counts() {
    assert_eq!(visible_lines(180, None), 10);
    assert_eq!(visible_lines(180, Some(20)), 9);
    assert_eq!(visible_lines(10, Some(20)), 1);
    assert_eq!(visible_lines(50, Some(0)), 50);
    assert_eq!(visible_lines(-5, Some(20)), 1);
    assert_eq!(visible_lines(0, None), 1);
}

#[test]
fn thumb_reaches_both_ends_of_its_track() {
    let client = Rect { left: 0, top: 0, right: 300, bottom: 200 };
    let top = scrollbar_thumb(client, 100, 10, 0).unwrap();
    assert_eq!(top, Rect { left: 293, top: 4, right: 297, bottom: 28 });
    let bottom = scrollbar_thumb(client, 100, 10, 90).unwrap();
    assert_eq!(bottom, Rect { left: 293, top: 172, right: 297, bottom: 196 });
    assert_eq!(scrollbar_thumb(client, 100, 10, 500), Some(bottom));
    assert_eq!(scrollbar_thumb(client, 100, 10, -3), Some(top));
}

#[test]
fn both_cards_stay_open_in_the_smallest_client() {
    let client = Rect { left: 0, top: 0, right: 480, bottom: 276 };
    let low = popup_layout(client, 0);
    assert_eq!(low.input_card.bottom - low.input_card.top, 96);
    assert_eq!(low.output_card.bottom - low.output_card.top, 114);
    let high = popup_layout(client, i32::MAX);
    assert_eq!(high.input_card.bottom - high.input_card.top, 100);
    assert_eq!(high.output_card.bottom - high.output_card.top, 110);
    assert_eq!(high.output_card.top, high.input_card.bottom + 12);
}

#[test]
fn windows_text_is_idempotent() {
    let once = windows_text("a\nb\r\nc\rd\r\r\n\n");
    assert_eq!(once, "a\r\nb\r\nc\r\nd\r\n\r\n\r\n");
    assert_eq!(windows_text(&once), once);
}
