//! The window side's own rules: hotkey syntax, text conversion for the
//! Windows edit controls, and the directory of the embedded icon.

use vstd::prelude::*;
use crate::text::{
    chars_of, has_prefix, is_ws, lower_seq, lowercase, replace_seq, replace_text, seq_eq, split, split_seq,
    trim, trim_seq, views,
};

verus! {

/// The Alt modifier of a hotkey.
pub const MOD_ALT: u32 = 1u32;

/// The Ctrl modifier of a hotkey.
pub const MOD_CONTROL: u32 = 2u32;

/// The Shift modifier of a hotkey.
pub const MOD_SHIFT: u32 = 4u32;

/// The Windows-key modifier of a hotkey.
pub const MOD_WIN: u32 = 8u32;

/// Why a hotkey setting is refused.
#[derive(Clone, Copy, Debug, PartialEq, Eq, Structural)]
pub enum HotkeyError {
    /// A part is neither a modifier nor a single letter or digit.
    Unsupported,
    /// No letter or digit names the main key.
    MissingKey,
}

/// ASCII lower case letters mapped to upper case.
pub open spec fn upper_char(c: char) -> char {
    if 'a' <= c <= 'z' {
        ((c as u32) - 32) as char
    } else {
        c
    }
}

/// An ASCII letter or digit.
pub open spec fn is_alnum(c: char) -> bool {
    ('0' <= c <= '9') || ('A' <= c <= 'Z') || ('a' <= c <= 'z')
}

/// The hotkey state after one `+`-separated part, or nothing for a part that
/// is not accepted.
pub open spec fn hotkey_part(mods: u32, key: Option<u16>, part: Seq<char>) -> Option<(u32, Option<u16>)> {
    let t = lower_seq(trim_seq(part));
    if t == "ctrl"@ || t == "control"@ {
        Some((mods | MOD_CONTROL, key))
    } else if t == "alt"@ {
        Some((mods | MOD_ALT, key))
    } else if t == "shift"@ {
        Some((mods | MOD_SHIFT, key))
    } else if t == "win"@ || t == "windows"@ {
        Some((mods | MOD_WIN, key))
    } else if t.len() == 1 && (t[0] as u32) < 128 && is_alnum(upper_char(t[0])) {
        Some((mods, Some(upper_char(t[0]) as u16)))
    } else {
        None
    }
}

/// The hotkey read from the remaining parts.
pub open spec fn hotkey_from(parts: Seq<Seq<char>>, mods: u32, key: Option<u16>) -> Result<(u32, u16), HotkeyError>
    decreases parts.len(),
{
    if parts.len() == 0 {
        match key {
            Some(k) => Ok((mods, k)),
            None => Err(HotkeyError::MissingKey),
        }
    } else {
        match hotkey_part(mods, key, parts[0]) {
            Some(next) => hotkey_from(parts.drop_first(), next.0, next.1),
            None => Err(HotkeyError::Unsupported),
        }
    }
}

/// The modifiers and virtual key of a hotkey written as `Ctrl+Alt+X`.
pub open spec fn hotkey_of(value: Seq<char>) -> Result<(u32, u16), HotkeyError> {
    hotkey_from(split_seq(value, '+'), 0, None)
}

/// Whether `t` is the text `lit`.
fn is_text(t: &[char], lit: &str) -> (r: bool)
    ensures
        r == (t@ == lit@),
{
    seq_eq(t, &chars_of(lit))
}

/// Reads a hotkey such as `Alt+X`: modifiers `Ctrl`/`Control`, `Alt`,
/// `Shift`, `Win`/`Windows` and one letter or digit, any case, separated by
/// `+`.
pub fn parse_hotkey(value: &str) -> (r: Result<(u32, u16), HotkeyError>)
    ensures
        r == hotkey_of(value@),
{
    let parts = split(&chars_of(value), '+');
    let ghost all = views(parts@);
    let n = parts.len();
    let mut modifiers: u32 = 0;
    let mut key: Option<u16> = None;
    let mut i: usize = 0;
    assert(all.skip(0) =~= all);
    while i < n
        invariant
            i <= n,
            n == parts@.len(),
            all == views(parts@),
            all.len() == n,
            hotkey_of(value@) == hotkey_from(all.skip(i as int), modifiers, key),
        decreases n - i,
    {
        let ghost rest = all.skip(i as int);
        assert(rest[0] == parts@[i as int]@);
        assert(rest.drop_first() =~= all.skip(i + 1));
        let t = lowercase(&trim(parts[i].as_slice()));
        if is_text(&t, "ctrl") || is_text(&t, "control") {
            modifiers = modifiers | MOD_CONTROL;
        } else if is_text(&t, "alt") {
            modifiers = modifiers | MOD_ALT;
        } else if is_text(&t, "shift") {
            modifiers = modifiers | MOD_SHIFT;
        } else if is_text(&t, "win") || is_text(&t, "windows") {
            modifiers = modifiers | MOD_WIN;
        } else if t.len() == 1 && (t[0] as u32) < 128 {
            let c = t[0];
            let up = if 'a' <= c && c <= 'z' {
                ((c as u8) - 32) as char
            } else {
                c
            };
            assert(up == upper_char(c));
            if ('0' <= up && up <= '9') || ('A' <= up && up <= 'Z') || ('a' <= up && up <= 'z') {
                key = Some(up as u16);
            } else {
                return Err(HotkeyError::Unsupported);
            }
        } else {
            return Err(HotkeyError::Unsupported);
        }
        i = i + 1;
    }
    assert(all.skip(n as int) =~= Seq::<Seq<char>>::empty());
    match key {
        Some(k) => Ok((modifiers, k)),
        None => Err(HotkeyError::MissingKey),
    }
}

/// Text with every line break (`\r\n`, `\r` or `\n`) written as `\r\n`.
pub open spec fn windows_text_seq(t: Seq<char>) -> Seq<char> {
    replace_seq(replace_seq(replace_seq(t, "\r\n"@, "\n"@), "\r"@, "\n"@), "\n"@, "\r\n"@)
}

/// Text for a Windows edit control: every line break becomes `\r\n`.
pub fn windows_text(text: &str) -> (r: String)
    ensures
        r@ == windows_text_seq(text@),
{
    proof {
        reveal_strlit("\r\n");
        reveal_strlit("\r");
        reveal_strlit("\n");
    }
    let a = replace_text(text, "\r\n", "\n");
    let b = replace_text(a.as_str(), "\r", "\n");
    replace_text(b.as_str(), "\n", "\r\n")
}

/// Every carriage return is followed by a line feed and every line feed
/// follows a carriage return: the only line breaks are `\r\n`.
pub open spec fn crlf_only(t: Seq<char>) -> bool {
    &&& forall|i: int| 0 <= i < t.len() && #[trigger] t[i] == '\n' ==> i > 0 && t[i - 1] == '\r'
    &&& forall|i: int| 0 <= i < t.len() && #[trigger] t[i] == '\r' ==> i + 1 < t.len() && t[i + 1] == '\n'
}

/// Replacing every `c` by text without `c` leaves no `c`.
proof fn lemma_replace_removes(s: Seq<char>, c: char, r: Seq<char>)
    requires
        !r.contains(c),
    ensures
        !replace_seq(s, seq![c], r).contains(c),
    decreases s.len(),
{
    if s.len() > 0 {
        let p = seq![c];
        if has_prefix(s, p) {
            lemma_replace_removes(s.subrange(1, s.len() as int), c, r);
            let rest = replace_seq(s.subrange(1, s.len() as int), p, r);
            assert forall|i: int| 0 <= i < (r + rest).len() implies (r + rest)[i] != c by {
                if i >= r.len() {
                    assert((r + rest)[i] == rest[i - r.len()]);
                }
            }
        } else {
            assert(s.subrange(0, 1) =~= seq![s[0]]);
            lemma_replace_removes(s.drop_first(), c, r);
            let rest = replace_seq(s.drop_first(), p, r);
            assert forall|i: int| 0 <= i < (seq![s[0]] + rest).len() implies (seq![s[0]] + rest)[i] != c by {
                if i >= 1 {
                    assert((seq![s[0]] + rest)[i] == rest[i - 1]);
                }
            }
        }
    }
}

/// Writing every line feed of a text without carriage returns as `\r\n`
/// leaves only `\r\n` line breaks.
proof fn lemma_lf_to_crlf(s: Seq<char>)
    requires
        !s.contains('\r'),
    ensures
        crlf_only(replace_seq(s, seq!['\n'], seq!['\r', '\n'])),
        replace_seq(s, seq!['\n'], seq!['\r', '\n']).len() > 0 ==> replace_seq(s, seq!['\n'], seq!['\r', '\n'])[0] != '\n',
    decreases s.len(),
{
    let p = seq!['\n'];
    let r = seq!['\r', '\n'];
    if s.len() > 0 {
        if has_prefix(s, p) {
            let tail = s.subrange(1, s.len() as int);
            assert forall|i: int| 0 <= i < tail.len() implies tail[i] != '\r' by {
                assert(tail[i] == s[i + 1]);
            }
            lemma_lf_to_crlf(tail);
            let rest = replace_seq(tail, p, r);
            let out = r + rest;
            assert(out == replace_seq(s, p, r));
            assert forall|i: int| 0 <= i < out.len() && #[trigger] out[i] == '\n' implies i > 0 && out[i - 1] == '\r' by {
                if i >= 2 {
                    assert(out[i] == rest[i - 2]);
                    assert(out[i - 1] == rest[i - 3]);
                }
            }
            assert forall|i: int| 0 <= i < out.len() && #[trigger] out[i] == '\r' implies i + 1 < out.len() && out[i + 1] == '\n' by {
                if i >= 2 {
                    assert(out[i] == rest[i - 2]);
                    assert(out[i + 1] == rest[i - 1]);
                }
            }
        } else {
            assert(s.subrange(0, 1) =~= seq![s[0]]);
            assert(s[0] != '\n');
            let tail = s.drop_first();
            assert forall|i: int| 0 <= i < tail.len() implies tail[i] != '\r' by {
                assert(tail[i] == s[i + 1]);
            }
            lemma_lf_to_crlf(tail);
            let rest = replace_seq(tail, p, r);
            let out = seq![s[0]] + rest;
            assert(out == replace_seq(s, p, r));
            assert(s[0] != '\r');
            assert forall|i: int| 0 <= i < out.len() && #[trigger] out[i] == '\n' implies i > 0 && out[i - 1] == '\r' by {
                if i >= 1 {
                    assert(out[i] == rest[i - 1]);
                    if i >= 2 {
                        assert(out[i - 1] == rest[i - 2]);
                    }
                }
            }
            assert forall|i: int| 0 <= i < out.len() && #[trigger] out[i] == '\r' implies i + 1 < out.len() && out[i + 1] == '\n' by {
                if i >= 1 {
                    assert(out[i] == rest[i - 1]);
                    assert(out[i + 1] == rest[i]);
                }
            }
        }
    }
}

/// Text prepared for an edit control has only `\r\n` line breaks, whatever
/// mix of `\r\n`, `\r` and `\n` it came with.
pub proof fn law_windows_text_uses_crlf(t: Seq<char>)
    ensures
        crlf_only(windows_text_seq(t)),
{
    reveal_strlit("\r\n");
    reveal_strlit("\r");
    reveal_strlit("\n");
    assert("\r"@ =~= seq!['\r']);
    assert("\n"@ =~= seq!['\n']);
    assert("\r\n"@ =~= seq!['\r', '\n']);
    let a = replace_seq(t, "\r\n"@, "\n"@);
    let b = replace_seq(a, "\r"@, "\n"@);
    assert(!seq!['\n'].contains('\r')) by {
        assert(seq!['\n'][0] != '\r');
    }
    lemma_replace_removes(a, '\r', seq!['\n']);
    lemma_lf_to_crlf(b);
}

/// Replacing a character that does not occur changes nothing.
proof fn lemma_replace_absent(s: Seq<char>, c: char, r: Seq<char>)
    requires
        !s.contains(c),
    ensures
        replace_seq(s, seq![c], r) == s,
    decreases s.len(),
{
    if s.len() > 0 {
        assert(s.subrange(0, 1) =~= seq![s[0]]);
        assert(s[0] != c);
        let tail = s.drop_first();
        assert forall|i: int| 0 <= i < tail.len() implies tail[i] != c by {
            assert(tail[i] == s[i + 1]);
        }
        lemma_replace_absent(tail, c, r);
        assert(seq![s[0]] + tail =~= s);
    }
}

/// For text whose only line breaks are `\r\n`: turning them into `\n` leaves
/// no carriage return, and turning the `\n` back into `\r\n` restores the text.
proof fn lemma_crlf_round_trip(u: Seq<char>)
    requires
        crlf_only(u),
    ensures
        !replace_seq(u, seq!['\r', '\n'], seq!['\n']).contains('\r'),
        replace_seq(replace_seq(u, seq!['\r', '\n'], seq!['\n']), seq!['\n'], seq!['\r', '\n']) == u,
    decreases u.len(),
{
    let crlf = seq!['\r', '\n'];
    let lf = seq!['\n'];
    if u.len() > 0 {
        let a = replace_seq(u, crlf, lf);
        if u[0] == '\r' {
            assert(u[1] == '\n');
            assert(u.subrange(0, 2) =~= crlf);
            assert(has_prefix(u, crlf));
            let tail = u.subrange(2, u.len() as int);
            assert forall|i: int| 0 <= i < tail.len() && #[trigger] tail[i] == '\n' implies i > 0 && tail[i - 1] == '\r' by {
                assert(tail[i] == u[i + 2]);
                if i == 0 {
                    assert(u[1] == '\n');
                } else {
                    assert(tail[i - 1] == u[i + 1]);
                }
            }
            assert forall|i: int| 0 <= i < tail.len() && #[trigger] tail[i] == '\r' implies i + 1 < tail.len() && tail[i + 1] == '\n' by {
                assert(tail[i] == u[i + 2]);
                assert(u[i + 3] == '\n');
                assert(tail[i + 1] == u[i + 3]);
            }
            lemma_crlf_round_trip(tail);
            let a2 = replace_seq(tail, crlf, lf);
            assert(a == lf + a2);
            assert forall|i: int| 0 <= i < a.len() implies a[i] != '\r' by {
                if i > 0 {
                    assert(a[i] == a2[i - 1]);
                }
            }
            assert(a.subrange(0, 1) =~= lf);
            assert(a.subrange(1, a.len() as int) =~= a2);
            assert(replace_seq(a, lf, crlf) == crlf + replace_seq(a2, lf, crlf));
            assert(crlf + tail =~= u);
        } else {
            assert(u[0] != '\n');
            assert(!has_prefix(u, crlf)) by {
                if u.len() >= 2 {
                    assert(u.subrange(0, 2)[0] == u[0]);
                }
            }
            let tail = u.drop_first();
            assert forall|i: int| 0 <= i < tail.len() && #[trigger] tail[i] == '\n' implies i > 0 && tail[i - 1] == '\r' by {
                assert(tail[i] == u[i + 1]);
                assert(u[i] == '\r');
                if i > 0 {
                    assert(tail[i - 1] == u[i]);
                }
            }
            assert forall|i: int| 0 <= i < tail.len() && #[trigger] tail[i] == '\r' implies i + 1 < tail.len() && tail[i + 1] == '\n' by {
                assert(tail[i] == u[i + 1]);
                assert(u[i + 2] == '\n');
                assert(tail[i + 1] == u[i + 2]);
            }
            lemma_crlf_round_trip(tail);
            let a2 = replace_seq(tail, crlf, lf);
            assert(a == seq![u[0]] + a2);
            assert forall|i: int| 0 <= i < a.len() implies a[i] != '\r' by {
                if i > 0 {
                    assert(a[i] == a2[i - 1]);
                }
            }
            assert(!has_prefix(a, lf)) by {
                assert(a.subrange(0, 1)[0] == u[0]);
            }
            assert(a.drop_first() =~= a2);
            assert(replace_seq(a, lf, crlf) == seq![u[0]] + replace_seq(a2, lf, crlf));
            assert(seq![u[0]] + tail =~= u);
        }
    }
}

/// Text whose only line breaks are `\r\n` is already in edit-control form:
/// preparing it again gives it back unchanged.
pub proof fn law_windows_text_keeps_crlf_text(u: Seq<char>)
    requires
        crlf_only(u),
    ensures
        windows_text_seq(u) == u,
{
    reveal_strlit("\r\n");
    reveal_strlit("\r");
    reveal_strlit("\n");
    assert("\r"@ =~= seq!['\r']);
    assert("\n"@ =~= seq!['\n']);
    assert("\r\n"@ =~= seq!['\r', '\n']);
    lemma_crlf_round_trip(u);
    let a = replace_seq(u, seq!['\r', '\n'], seq!['\n']);
    lemma_replace_absent(a, '\r', seq!['\n']);
}

/// Preparing text for an edit control twice is the same as once.
pub proof fn law_windows_text_idempotent(t: Seq<char>)
    ensures
        windows_text_seq(windows_text_seq(t)) == windows_text_seq(t),
{
    law_windows_text_uses_crlf(t);
    law_windows_text_keeps_crlf_text(windows_text_seq(t));
}

/// The UTF-16 code units of one character.
pub open spec fn utf16_units(c: char) -> Seq<u16> {
    let u = c as u32;
    if u < 0x10000 {
        seq![u as u16]
    } else {
        let v = u - 0x10000;
        seq![(0xd800 + v / 1024) as u16, (0xdc00 + v % 1024) as u16]
    }
}

/// The UTF-16 encoding of a character sequence.
pub open spec fn utf16_seq(s: Seq<char>) -> Seq<u16>
    decreases s.len(),
{
    if s.len() == 0 {
        Seq::empty()
    } else {
        utf16_seq(s.drop_last()) + utf16_units(s.last())
    }
}

/// The UTF-16 encoding followed by a terminating zero.
pub open spec fn wide_seq(s: Seq<char>) -> Seq<u16> {
    utf16_seq(s).push(0)
}

/// `value` as a zero-terminated UTF-16 string for the Windows API.
pub fn wide(value: &str) -> (r: Vec<u16>)
    ensures
        r@ == wide_seq(value@),
{
    let cs = chars_of(value);
    let mut out: Vec<u16> = Vec::new();
    let mut i: usize = 0;
    while i < cs.len()
        invariant
            i <= cs.len(),
            cs@ == value@,
            out@ == utf16_seq(cs@.take(i as int)),
        decreases cs.len() - i,
    {
        let c = cs[i];
        let u = c as u32;
        let ghost before = out@;
        if u < 0x10000 {
            out.push(u as u16);
        } else {
            let v = u - 0x10000;
            out.push((0xd800 + v / 1024) as u16);
            out.push((0xdc00 + v % 1024) as u16);
        }
        assert(cs@.take(i + 1).drop_last() =~= cs@.take(i as int));
        assert(out@ =~= before + utf16_units(c));
        i = i + 1;
    }
    assert(cs@.take(cs.len() as int) =~= cs@);
    out.push(0);
    out
}

/// Copies as much of `value`, zero-terminated in UTF-16, as fits into `target`.
pub fn copy_wide<const N: usize>(target: &mut [u16; N], value: &str)
    ensures
        ({
            let w = wide_seq(value@);
            let length = if w.len() < N {
                w.len() as int
            } else {
                N as int
            };
            final(target)@ == w.take(length) + old(target)@.skip(length)
        }),
{
    let encoded = wide(value);
    let length = if encoded.len() < N {
        encoded.len()
    } else {
        N
    };
    let mut k: usize = 0;
    while k < length
        invariant
            k <= length,
            length <= N,
            length <= encoded@.len(),
            target@.len() == N,
            target@ == encoded@.take(k as int) + old(target)@.skip(k as int),
        decreases length - k,
    {
        target[k] = encoded[k];
        k = k + 1;
        assert(target@ =~= encoded@.take(k as int) + old(target)@.skip(k as int));
    }
}

/// Why the embedded icon cannot be used.
#[derive(Clone, Copy, Debug, PartialEq, Eq, Structural)]
pub enum IconError {
    /// The bytes do not start with an icon file header.
    NotAnIcon,
    /// The directory is empty or runs past the end.
    BadDirectory,
    /// The chosen image's offset and size overflow.
    BadImage,
    /// The chosen image runs past the end of the file.
    ImageOutOfRange,
}

/// A little-endian 16-bit number at `i`.
pub open spec fn le16(b: Seq<u8>, i: int) -> int {
    b[i] + 256 * b[i + 1]
}

/// A little-endian 32-bit number at `i`.
pub open spec fn le32(b: Seq<u8>, i: int) -> int {
    b[i] + 256 * b[i + 1] + 65536 * b[i + 2] + 16777216 * b[i + 3]
}

/// The width that directory entry `e` gives (0 stands for 256).
pub open spec fn entry_width(b: Seq<u8>, e: int) -> int {
    if b[6 + 16 * e] == 0 {
        256
    } else {
        b[6 + 16 * e] as int
    }
}

/// How far entry `e`'s width is from `desired`.
pub open spec fn width_distance(b: Seq<u8>, e: int, desired: u16) -> int {
    let w = entry_width(b, e);
    if w >= desired {
        w - desired
    } else {
        desired - w
    }
}

/// Entry `e` is the first of `count` entries whose width is closest to `desired`.
pub open spec fn best_entry(b: Seq<u8>, count: int, desired: u16, e: int) -> bool {
    &&& 0 <= e < count
    &&& forall|j: int| 0 <= j < count ==> width_distance(b, e, desired) <= #[trigger] width_distance(b, j, desired)
    &&& forall|j: int| 0 <= j < e ==> width_distance(b, e, desired) < #[trigger] width_distance(b, j, desired)
}

/// A little-endian 16-bit number.
fn read_le16(b: &[u8], i: usize) -> (r: u32)
    requires
        i + 2 <= b@.len(),
    ensures
        r == le16(b@, i as int),
{
    b[i] as u32 + 256 * (b[i + 1] as u32)
}

/// A little-endian 32-bit number.
fn read_le32(b: &[u8], i: usize) -> (r: u64)
    requires
        i + 4 <= b@.len(),
    ensures
        r == le32(b@, i as int),
{
    b[i] as u64 + 256 * (b[i + 1] as u64) + 65536 * (b[i + 2] as u64) + 16777216 * (b[i + 3] as u64)
}

/// The image of an ICO file whose width is closest to `desired_size` (the
/// first such entry), checked against the file's bounds.
pub fn embedded_icon_resource(icon: &[u8], desired_size: u16) -> (r: Result<&[u8], IconError>)
    ensures
        (icon@.len() < 6 || le16(icon@, 0) != 0 || le16(icon@, 2) != 1) ==> r == Err::<&[u8], IconError>(IconError::NotAnIcon),
        !(icon@.len() < 6 || le16(icon@, 0) != 0 || le16(icon@, 2) != 1) ==> {
            let count = le16(icon@, 4);
            &&& (count == 0 || 6 + 16 * count > icon@.len()) ==> r == Err::<&[u8], IconError>(IconError::BadDirectory)
            &&& !(count == 0 || 6 + 16 * count > icon@.len()) ==> exists|e: int| #[trigger] best_entry(icon@, count, desired_size, e) && {
                let size = le32(icon@, 6 + 16 * e + 8);
                let offset = le32(icon@, 6 + 16 * e + 12);
                &&& offset + size > usize::MAX ==> r == Err::<&[u8], IconError>(IconError::BadImage)
                &&& (offset + size <= usize::MAX && offset + size > icon@.len()) ==> r == Err::<&[u8], IconError>(IconError::ImageOutOfRange)
                &&& (offset + size <= icon@.len()) ==> (r matches Ok(img) && img@ == icon@.subrange(offset, offset + size))
            }
        },
{
    if icon.len() < 6 || read_le16(icon, 0) != 0 || read_le16(icon, 2) != 1 {
        return Err(IconError::NotAnIcon);
    }
    let count = read_le16(icon, 4) as usize;
    if count == 0 || 6 + 16 * count > icon.len() {
        return Err(IconError::BadDirectory);
    }
    let mut best: usize = 0;
    let mut best_distance: u32 = {
        let w: u32 = if icon[6] == 0 { 256 } else { icon[6] as u32 };
        if w >= desired_size as u32 { w - desired_size as u32 } else { desired_size as u32 - w }
    };
    let mut e: usize = 1;
    while e < count
        invariant
            1 <= e <= count,
            best < e,
            6 + 16 * count <= icon@.len(),
            icon@.len() == icon.len(),
            best_distance == width_distance(icon@, best as int, desired_size),
            forall|j: int| 0 <= j < e ==> best_distance <= #[trigger] width_distance(icon@, j, desired_size),
            forall|j: int| 0 <= j < best ==> best_distance < #[trigger] width_distance(icon@, j, desired_size),
        decreases count - e,
    {
        let at = 6 + 16 * e;
        let w: u32 = if icon[at] == 0 { 256 } else { icon[at] as u32 };
        let d = if w >= desired_size as u32 { w - desired_size as u32 } else { desired_size as u32 - w };
        assert(d == width_distance(icon@, e as int, desired_size));
        if d < best_distance {
            best = e;
            best_distance = d;
        }
        e = e + 1;
    }
    assert(best_entry(icon@, count as int, desired_size, best as int));
    let entry = 6 + 16 * best;
    let size = read_le32(icon, entry + 8);
    let offset = read_le32(icon, entry + 12);
    if offset + size > usize::MAX as u64 {
        return Err(IconError::BadImage);
    }
    let end = (offset + size) as usize;
    if end > icon.len() {
        return Err(IconError::ImageOutOfRange);
    }
    Ok(&icon[offset as usize..end])
}

} // verus!
