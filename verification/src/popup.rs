//! The popup's translation state as the window's messages change it: which
//! request is current, the text streamed for it so far, pinning and the
//! spinner.

use vstd::prelude::*;
use crate::text::{blank, chars_of, is_blank, string_of};
use crate::translator::concat;

verus! {

/// The popup state as values.
pub struct PopupView {
    pub request_id: u64,
    pub translating: bool,
    pub streamed: Seq<char>,
    pub pinned: bool,
    pub spinner_frame: u8,
}

/// The popup's translation state.
pub struct PopupState {
    request_id: u64,
    translating: bool,
    streamed: Vec<char>,
    pinned: bool,
    spinner_frame: u8,
}

impl View for PopupState {
    type V = PopupView;

    closed spec fn view(&self) -> PopupView {
        PopupView {
            request_id: self.request_id,
            translating: self.translating,
            streamed: self.streamed@,
            pinned: self.pinned,
            spinner_frame: self.spinner_frame,
        }
    }
}

/// The next request number, wrapping at `u64::MAX`.
pub open spec fn next_id(id: u64) -> u64 {
    if id == u64::MAX {
        0
    } else {
        (id + 1) as u64
    }
}

/// A new translation starts: a new request number, nothing streamed yet.
pub open spec fn after_begin(v: PopupView) -> PopupView {
    PopupView { request_id: next_id(v.request_id), translating: true, streamed: Seq::empty(), spinner_frame: 0, ..v }
}

/// The hotkey found no selected text: any running request is abandoned and
/// the popup is pinned, waiting for typed text.
pub open spec fn after_nothing_captured(v: PopupView) -> PopupView {
    PopupView { request_id: next_id(v.request_id), translating: false, streamed: Seq::empty(), pinned: true, ..v }
}

/// Text arrives for request `id`: a cached translation replaces what was
/// shown, streamed text is appended; text for any other request is dropped.
pub open spec fn after_delta(v: PopupView, id: u64, text: Seq<char>, from_cache: bool) -> PopupView {
    if id != v.request_id {
        v
    } else if from_cache {
        PopupView { streamed: text, ..v }
    } else {
        PopupView { streamed: v.streamed + text, ..v }
    }
}

/// The message shown when request `id` fails with `error`.
pub open spec fn failure_text(streamed: Seq<char>, error: Seq<char>) -> Seq<char> {
    if streamed.len() == 0 {
        "翻译失败\r\n\r\n"@ + error
    } else {
        streamed + "\r\n\r\n翻译中断："@ + error
    }
}

/// Request `id` ends, with `error` when it failed; the end of any other
/// request changes nothing.
pub open spec fn after_finish(v: PopupView, id: u64, error: Option<Seq<char>>) -> PopupView {
    if id != v.request_id {
        v
    } else {
        match error {
            Some(e) => PopupView { streamed: failure_text(v.streamed, e), translating: false, ..v },
            None => PopupView { translating: false, ..v },
        }
    }
}

/// One spinner step while translating.
pub open spec fn after_tick(v: PopupView) -> PopupView {
    if v.translating {
        PopupView { spinner_frame: ((v.spinner_frame + 1) % 8) as u8, ..v }
    } else {
        v
    }
}

/// The spinner shows one of eight frames.
pub open spec fn well_formed(v: PopupView) -> bool {
    v.spinner_frame < 8
}

impl PopupState {
    /// A popup with no request yet.
    pub fn new(pinned: bool) -> (r: PopupState)
        ensures
            r@ == (PopupView { request_id: 0, translating: false, streamed: Seq::empty(), pinned, spinner_frame: 0 }),
    {
        PopupState { request_id: 0, translating: false, streamed: Vec::new(), pinned, spinner_frame: 0 }
    }

    /// The current request number.
    pub fn request_id(&self) -> (r: u64)
        ensures
            r == self@.request_id,
    {
        self.request_id
    }

    /// Whether the current request is still running.
    pub fn translating(&self) -> (r: bool)
        ensures
            r == self@.translating,
    {
        self.translating
    }

    /// Whether the popup stays on top and open when it loses focus.
    pub fn pinned(&self) -> (r: bool)
        ensures
            r == self@.pinned,
    {
        self.pinned
    }

    /// The spinner frame.
    pub fn spinner_frame(&self) -> (r: u8)
        ensures
            r == self@.spinner_frame,
    {
        self.spinner_frame
    }

    /// The text shown for the current request.
    pub fn streamed_text(&self) -> (r: String)
        ensures
            r@ == self@.streamed,
    {
        string_of(&self.streamed)
    }

    /// Whether the popup hides on an activation change whose state (the low
    /// word of the message's `wparam`) is `state`: it hides when it becomes
    /// inactive (state 0) and is not pinned.
    pub fn hides_on_activation(&self, state: u32) -> (r: bool)
        ensures
            r == (state == 0 && !self@.pinned),
    {
        state == 0 && !self.pinned
    }

    /// Sets whether the popup is pinned.
    pub fn set_pinned(&mut self, pinned: bool)
        ensures
            final(self)@ == (PopupView { pinned, ..old(self)@ }),
    {
        self.pinned = pinned;
    }

    /// Starts translating `source`, unless it is blank; returns the number of
    /// the new request.
    pub fn begin_translation(&mut self, source: &str) -> (r: Option<u64>)
        ensures
            is_blank(source@) ==> r is None && final(self)@ == old(self)@,
            !is_blank(source@) ==> r == Some(next_id(old(self)@.request_id)) && final(self)@ == after_begin(old(self)@),
    {
        if blank(&chars_of(source)) {
            return None;
        }
        self.request_id = if self.request_id == u64::MAX { 0 } else { self.request_id + 1 };
        self.translating = true;
        self.spinner_frame = 0;
        self.streamed = Vec::new();
        Some(self.request_id)
    }

    /// The hotkey found no selected text.
    pub fn nothing_captured(&mut self)
        ensures
            final(self)@ == after_nothing_captured(old(self)@),
    {
        self.request_id = if self.request_id == u64::MAX { 0 } else { self.request_id + 1 };
        self.translating = false;
        self.streamed = Vec::new();
        self.pinned = true;
    }

    /// Text arrives for request `id`; returns whether it belongs to the
    /// current request and was taken.
    pub fn apply_delta(&mut self, id: u64, text: &str, from_cache: bool) -> (r: bool)
        ensures
            r == (id == old(self)@.request_id),
            final(self)@ == after_delta(old(self)@, id, text@, from_cache),
    {
        if id != self.request_id {
            return false;
        }
        let mut piece = chars_of(text);
        if from_cache {
            self.streamed = piece;
        } else {
            self.streamed.append(&mut piece);
        }
        true
    }

    /// Request `id` ends, with `error` when it failed; returns the text to
    /// show in place of the output, when there is one.
    pub fn finish(&mut self, id: u64, error: Option<&str>) -> (r: Option<String>)
        ensures
            final(self)@ == after_finish(old(self)@, id, match error {
                Some(e) => Some(e@),
                None => None,
            }),
            r matches Some(t) ==> id == old(self)@.request_id && error is Some && t@ == final(self)@.streamed,
            (id == old(self)@.request_id && error is Some) ==> r is Some,
    {
        if id != self.request_id {
            return None;
        }
        self.translating = false;
        match error {
            Some(e) => {
                let ghost before = self.streamed@;
                let mut message = if self.streamed.len() == 0 {
                    chars_of("翻译失败\r\n\r\n")
                } else {
                    let mut m = Vec::new();
                    m.append(&mut self.streamed);
                    m.append(&mut chars_of("\r\n\r\n翻译中断："));
                    m
                };
                message.append(&mut chars_of(e));
                assert(message@ =~= failure_text(before, e@));
                self.streamed = message;
                Some(string_of(&self.streamed))
            },
            None => None,
        }
    }

    /// One spinner step; returns whether the spinner moved.
    pub fn tick(&mut self) -> (r: bool)
        ensures
            r == old(self)@.translating,
            final(self)@ == after_tick(old(self)@),
            well_formed(old(self)@) ==> well_formed(final(self)@),
    {
        if self.translating {
            let next: u8 = if self.spinner_frame == u8::MAX { 0 } else { self.spinner_frame + 1 };
            self.spinner_frame = next % 8;
            true
        } else {
            false
        }
    }
}

/// Every step keeps the spinner within its eight frames.
pub proof fn law_steps_keep_spinner_frame(v: PopupView, id: u64, text: Seq<char>, from_cache: bool, error: Option<Seq<char>>)
    requires
        well_formed(v),
    ensures
        well_formed(after_begin(v)),
        well_formed(after_nothing_captured(v)),
        well_formed(after_delta(v, id, text, from_cache)),
        well_formed(after_finish(v, id, error)),
        well_formed(after_tick(v)),
{
}

/// When the hotkey finds no selected text, the popup is pinned whatever it
/// was before, and shows no translation.
pub proof fn law_nothing_captured_pins(v: PopupView)
    ensures
        after_nothing_captured(v).pinned,
        !after_nothing_captured(v).translating,
        after_nothing_captured(v).streamed.len() == 0,
{
}

/// Text and endings that belong to another request leave the popup as it is.
pub proof fn law_stale_messages_ignored(v: PopupView, id: u64, text: Seq<char>, from_cache: bool, error: Option<Seq<char>>)
    requires
        id != v.request_id,
    ensures
        after_delta(v, id, text, from_cache) == v,
        after_finish(v, id, error) == v,
{
}

/// The popup after streamed pieces `texts` of request `id` arrive in order.
pub open spec fn after_stream(v: PopupView, id: u64, texts: Seq<Seq<char>>) -> PopupView
    decreases texts.len(),
{
    if texts.len() == 0 {
        v
    } else {
        after_stream(after_delta(v, id, texts[0], false), id, texts.drop_first())
    }
}

/// A new request shows exactly the pieces streamed for it, in order.
pub proof fn law_stream_shows_all_pieces(v: PopupView, texts: Seq<Seq<char>>)
    ensures
        after_stream(after_begin(v), next_id(v.request_id), texts).streamed == concat(texts),
        after_stream(after_begin(v), next_id(v.request_id), texts).request_id == next_id(v.request_id),
{
    lemma_stream_appends(after_begin(v), texts);
}

/// Streaming pieces of the current request appends them.
pub proof fn lemma_stream_appends(v: PopupView, texts: Seq<Seq<char>>)
    ensures
        after_stream(v, v.request_id, texts).streamed == v.streamed + concat(texts),
        after_stream(v, v.request_id, texts).request_id == v.request_id,
    decreases texts.len(),
{
    if texts.len() == 0 {
        assert(v.streamed + concat(texts) =~= v.streamed);
    } else {
        let next = after_delta(v, v.request_id, texts[0], false);
        lemma_stream_appends(next, texts.drop_first());
        assert(v.streamed + texts[0] + concat(texts.drop_first()) =~= v.streamed + concat(texts));
    }
}

} // verus!
