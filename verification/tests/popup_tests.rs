use fy::popup::PopupState;

#[test]
fn stream_accumulates_for_the_current_request() {
    let mut popup = PopupState::new(false);
    assert_eq!(popup.begin_translation("  "), None);
    assert_eq!(popup.request_id(), 0);
    let id = popup.begin_translation("hello").unwrap();
    assert_eq!(id, 1);
    assert!(popup.translating());
    assert!(popup.apply_delta(id, "你", false));
    assert!(!popup.apply_delta(id + 5, "stale", false));
    assert!(popup.apply_delta(id, "好", false));
    assert_eq!(popup.streamed_text(), "你好");
    assert_eq!(popup.finish(id, None), None);
    assert!(!popup.translating());
}

#[test]
fn cached_text_replaces_and_failures_are_reported() {
    let mut popup = PopupState::new(true);
    let id = popup.begin_translation("x").unwrap();
    assert!(popup.apply_delta(id, "partial", false));
    assert_eq!(popup.finish(id, Some("timeout")).as_deref(), Some("partial\r\n\r\n翻译中断：timeout"));
    let id = popup.begin_translation("y").unwrap();
    assert_eq!(popup.finish(id, Some("boom")).as_deref(), Some("翻译失败\r\n\r\nboom"));
    let id = popup.begin_translation("z").unwrap();
    assert!(popup.apply_delta(id, "old", false));
    assert!(popup.apply_delta(id, "cached", true));
    assert_eq!(popup.streamed_text(), "cached");
    assert_eq!(popup.finish(id + 1, Some("late")), None);
    assert!(popup.translating());
}

#[test]
fn nothing_captured_pins_and_abandons() {
    let mut popup = PopupState::new(false);
    let id = popup.begin_translation("x").unwrap();
    popup.nothing_captured();
    assert!(popup.pinned());
    assert!(!popup.translating());
    assert!(!popup.apply_delta(id, "late", false));
    assert_eq!(popup.streamed_text(), "");
}

#[test]
fn spinner_cycles_through_eight_frames_while_translating() {
    let mut popup = PopupState::new(false);
    assert!(!popup.tick());
    popup.begin_translation("x").unwrap();
    for _ in 0..9 {
        assert!(popup.tick());
    }
    assert_eq!(popup.spinner_frame(), 1);
    popup.set_pinned(true);
    assert!(popup.pinned());
}

#[test]
fn unpinned_popup_hides_when_it_loses_focus() {
    let mut popup = PopupState::new(false);
    let inactive = windows_sys::Win32::UI::WindowsAndMessaging::WA_INACTIVE;
    let active = windows_sys::Win32::UI::WindowsAndMessaging::WA_ACTIVE;
    assert!(popup.hides_on_activation(inactive));
    assert!(!popup.hides_on_activation(active));
    popup.set_pinned(true);
    assert!(!popup.hides_on_activation(inactive));
}
