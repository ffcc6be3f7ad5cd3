//! The session state: a line editor with a character-index cursor, the
//! digest history and secret ledger, the navigation/editing mode machine,
//! and the save popup.

use vstd::prelude::*;
use vstd::string::*;
use vstd::utf8::{
    char_is_scalar, encode_scalar, encode_utf8, encode_utf8_valid_utf8, has_width_1_encoding,
    has_width_2_encoding, has_width_3_encoding, is_char_boundary,
    is_char_boundary_iff_not_is_continuation_byte, is_char_boundary_start_end_of_seq,
    is_continuation_byte, leading_byte_width_1, leading_byte_width_2, leading_byte_width_3,
    leading_byte_width_4,
};

use crate::hashing::{
    generate_secure_pepper, hash_input_with_pepper, lemma_record_chars_ok, make_record,
    record_chars_ok, record_of, sha512_of, PEPPER_LEN,
};
use crate::hexcode::hex_of;

verus! {

/// Which of the two mutually exclusive session modes is active.
#[derive(Clone, Copy, PartialEq, Eq, Structural, Debug)]
pub enum InputMode {
    Normal,
    Editing,
}

/// One decoded key event, as the session logic sees it.
#[derive(Clone, Copy, PartialEq, Eq, Structural, Debug)]
pub enum Key {
    Char(char),
    Enter,
    Backspace,
    Left,
    Right,
    Esc,
    Other,
}

/// What the caller of `handle_key` must do next. `Quit` ends the session,
/// `Save` asks for the ledger to be written out, `Fatal` reports that the
/// random source failed and no submission can be made.
#[derive(Clone, Copy, PartialEq, Eq, Structural, Debug)]
pub enum Action {
    Continue,
    Quit,
    Save,
    Fatal,
}

/// The random source could not supply pepper bytes; the submission was
/// aborted and no state changed.
#[derive(Clone, Copy, PartialEq, Eq, Structural, Debug)]
pub struct EntropyFailure;

/// The buffer after inserting `c` at character index `cur`.
pub open spec fn insert_at(s: Seq<char>, cur: int, c: char) -> Seq<char>
    recommends
        0 <= cur <= s.len(),
{
    s.take(cur) + seq![c] + s.skip(cur)
}

/// The buffer after deleting the character just before index `cur`.
pub open spec fn delete_before(s: Seq<char>, cur: int) -> Seq<char>
    recommends
        1 <= cur <= s.len(),
{
    s.take(cur - 1) + s.skip(cur)
}

/// Cursor position after a move left: decrement saturating at zero, then
/// clamped to the character count.
pub open spec fn cursor_after_left(cur: int, len: int) -> int {
    let m = if cur > 0 { cur - 1 } else { 0 };
    if m <= len { m } else { len }
}

/// Cursor position after a move right: increment saturating at the machine
/// limit, then clamped to the character count.
pub open spec fn cursor_after_right(cur: int, len: int) -> int {
    let m = if cur < usize::MAX { cur + 1 } else { cur };
    if m <= len { m } else { len }
}

/// The whole session state, owned exclusively and threaded through the
/// event loop by the caller.
pub struct App {
    /// Current value of the input box.
    pub input: String,
    /// Cursor position, counted in characters, never in bytes.
    pub character_index: usize,
    /// Current input mode.
    pub input_mode: InputMode,
    /// History of recorded digests, one per submission, in order.
    pub hash: Vec<String>,
    /// The secret ledger: one stored record per submission, in order.
    pub secrets: Vec<String>,
    /// Whether the save popup is shown.
    pub show_saved_popup: bool,
    /// Popup detail line.
    pub saved_popup_info: String,
    /// Popup outcome line: success or failure.
    pub saved_popup_result: String,
}

/// Editor state unchanged between two session states.
pub open spec fn same_editor(a: App, b: App) -> bool {
    a.input == b.input && a.character_index == b.character_index
}

/// Digest history and ledger unchanged between two session states.
pub open spec fn same_records(a: App, b: App) -> bool {
    a.hash == b.hash && a.secrets == b.secrets
}

/// Popup state unchanged between two session states.
pub open spec fn same_popup(a: App, b: App) -> bool {
    a.show_saved_popup == b.show_saved_popup && a.saved_popup_info == b.saved_popup_info
        && a.saved_popup_result == b.saved_popup_result
}

impl App {
    /// Well-formedness: the cursor is a valid character index, the digest
    /// history and the ledger are paired one-to-one, and every stored
    /// record consists of hexadecimal digits and commas only.
    pub open spec fn wf(self) -> bool {
        &&& self.character_index <= self.input@.len()
        &&& self.hash@.len() == self.secrets@.len()
        &&& forall|i: int|
            0 <= i < self.secrets.deep_view().len() ==> record_chars_ok(
                #[trigger] self.secrets.deep_view()[i],
            )
    }

    /// A fresh session: empty buffer, cursor at zero, navigation mode,
    /// nothing recorded, popup hidden.
    pub fn new() -> (r: App)
        ensures
            r.input@.len() == 0,
            r.character_index == 0,
            r.input_mode == InputMode::Normal,
            r.hash@.len() == 0,
            r.secrets@.len() == 0,
            !r.show_saved_popup,
            r.saved_popup_info@.len() == 0,
            r.saved_popup_result@.len() == 0,
            r.wf(),
    {
        App {
            input: String::new(),
            input_mode: InputMode::Normal,
            hash: Vec::new(),
            secrets: Vec::new(),
            character_index: 0,
            show_saved_popup: false,
            saved_popup_info: String::new(),
            saved_popup_result: String::new(),
        }
    }

    /// Clamps a candidate cursor position to `[0, character_count]`.
    pub fn clamp_cursor(&self, new_cursor_pos: usize) -> (r: usize)
        ensures
            r as int == (if new_cursor_pos as int <= self.input@.len() {
                new_cursor_pos as int
            } else {
                self.input@.len() as int
            }),
    {
        let n = self.input.as_str().unicode_len();
        if new_cursor_pos < n {
            new_cursor_pos
        } else {
            n
        }
    }

    /// Moves the cursor one character left, saturating at zero.
    pub fn move_cursor_left(&mut self)
        ensures
            final(self).character_index as int == cursor_after_left(
                old(self).character_index as int,
                old(self).input@.len() as int,
            ),
            final(self).input == old(self).input,
            final(self).input_mode == old(self).input_mode,
            same_records(*final(self), *old(self)),
            same_popup(*final(self), *old(self)),
            final(self).character_index <= final(self).input@.len(),
            old(self).wf() ==> final(self).wf(),
    {
        let cursor_moved_left = if self.character_index > 0 {
            self.character_index - 1
        } else {
            0
        };
        let clamped = self.clamp_cursor(cursor_moved_left);
        self.character_index = clamped;
    }

    /// Moves the cursor one character right, clamped to the character count.
    pub fn move_cursor_right(&mut self)
        ensures
            final(self).character_index as int == cursor_after_right(
                old(self).character_index as int,
                old(self).input@.len() as int,
            ),
            final(self).input == old(self).input,
            final(self).input_mode == old(self).input_mode,
            same_records(*final(self), *old(self)),
            same_popup(*final(self), *old(self)),
            final(self).character_index <= final(self).input@.len(),
            old(self).wf() ==> final(self).wf(),
    {
        let cursor_moved_right = if self.character_index < usize::MAX {
            self.character_index + 1
        } else {
            self.character_index
        };
        let clamped = self.clamp_cursor(cursor_moved_right);
        self.character_index = clamped;
    }

    /// Resets the cursor to the start of the line.
    pub fn reset_cursor(&mut self)
        ensures
            final(self).character_index == 0,
            final(self).input == old(self).input,
            final(self).input_mode == old(self).input_mode,
            same_records(*final(self), *old(self)),
            same_popup(*final(self), *old(self)),
            old(self).wf() ==> final(self).wf(),
    {
        self.character_index = 0;
    }

    /// Inserts a character at the cursor and advances the cursor by one
    /// character. The insertion point is derived from the character index,
    /// so a multi-byte character is never split.
    pub fn enter_char(&mut self, new_char: char)
        requires
            old(self).character_index <= old(self).input@.len(),
            old(self).input@.len() < usize::MAX,
        ensures
            final(self).input@ == insert_at(
                old(self).input@,
                old(self).character_index as int,
                new_char,
            ),
            final(self).character_index == old(self).character_index + 1,
            final(self).input_mode == old(self).input_mode,
            same_records(*final(self), *old(self)),
            same_popup(*final(self), *old(self)),
            final(self).character_index <= final(self).input@.len(),
            old(self).wf() ==> final(self).wf(),
    {
        let n = self.input.as_str().unicode_len();
        let cur = self.character_index;
        let mut rebuilt = String::from_str(self.input.as_str().substring_char(0, cur));
        let right = String::from_str(self.input.as_str().substring_char(cur, n));
        push_char(&mut rebuilt, new_char);
        rebuilt.append(right.as_str());
        proof {
            assert(old(self).input@.subrange(0, cur as int).push(new_char)
                + old(self).input@.subrange(cur as int, old(self).input@.len() as int)
                =~= insert_at(old(self).input@, cur as int, new_char));
        }
        self.input = rebuilt;
        self.move_cursor_right();
    }

    /// Byte offset of the cursor: the length of the UTF-8 encoding of the
    /// characters before it, recomputed from the character index on every
    /// call, and therefore always a character boundary.
    pub fn byte_index(&self) -> (r: usize)
        requires
            self.character_index <= self.input@.len(),
            encode_utf8(self.input@).len() <= usize::MAX,
        ensures
            r == encode_utf8(self.input@.take(self.character_index as int)).len(),
            is_char_boundary(encode_utf8(self.input@), r as int),
    {
        let sub = self.input.as_str().substring_char(0, self.character_index);
        proof {
            let pre = self.input@.take(self.character_index as int);
            let post = self.input@.skip(self.character_index as int);
            assert(sub@ =~= pre);
            lemma_encode_utf8_concat(pre, post);
            assert(pre + post =~= self.input@);
            lemma_cursor_offset_is_char_boundary(self.input@, self.character_index as int);
        }
        sub.len()
    }

    /// Deletes the character immediately before the cursor and moves the
    /// cursor back by one; a no-op when the cursor is at the start. The
    /// line is rebuilt from the characters around the deleted one, so a
    /// multi-byte character is never split.
    pub fn delete_char(&mut self)
        requires
            old(self).character_index <= old(self).input@.len(),
        ensures
            old(self).character_index == 0 ==> same_editor(*final(self), *old(self)),
            old(self).character_index > 0 ==> final(self).input@ == delete_before(
                old(self).input@,
                old(self).character_index as int,
            ) && final(self).character_index == old(self).character_index - 1,
            final(self).input_mode == old(self).input_mode,
            same_records(*final(self), *old(self)),
            same_popup(*final(self), *old(self)),
            final(self).character_index <= final(self).input@.len(),
            old(self).wf() ==> final(self).wf(),
    {
        let is_not_cursor_leftmost = self.character_index != 0;
        if is_not_cursor_leftmost {
            let n = self.input.as_str().unicode_len();
            let cur = self.character_index;
            let mut rebuilt = String::from_str(self.input.as_str().substring_char(0, cur - 1));
            let right = String::from_str(self.input.as_str().substring_char(cur, n));
            rebuilt.append(right.as_str());
            proof {
                assert(old(self).input@.subrange(0, cur as int - 1)
                    + old(self).input@.subrange(cur as int, old(self).input@.len() as int)
                    =~= delete_before(old(self).input@, cur as int));
            }
            self.input = rebuilt;
            self.move_cursor_left();
        }
    }

    /// Submits the current buffer: draws a fresh pepper, records the hex
    /// digest of `pepper || utf8(buffer)` in the history and the stored
    /// record in the ledger, then clears the buffer and resets the cursor.
    /// When the random source fails, nothing changes and the submission is
    /// aborted.
    pub fn submit_input(&mut self) -> (r: Result<(), EntropyFailure>)
        requires
            old(self).wf(),
        ensures
            final(self).wf(),
            r matches Err(_) ==> *final(self) == *old(self),
            r matches Ok(_) ==> (exists|p: Seq<u8>|
                #![auto]
                p.len() == PEPPER_LEN && final(self).hash.deep_view() == old(self).hash.deep_view().push(hex_of(sha512_of(p + encode_utf8(old(self).input@))))
                    && final(self).secrets.deep_view() == old(self).secrets.deep_view().push(
                    record_of(p, old(self).input@),
                )),
            r matches Ok(_) ==> final(self).input@.len() == 0 && final(self).character_index == 0,
            final(self).input_mode == old(self).input_mode,
            same_popup(*final(self), *old(self)),
    {
        match generate_secure_pepper() {
            None => Err(EntropyFailure),
            Some(pepper) => {
                let ghost p = pepper@;
                let ghost old_hash_dv = self.hash.deep_view();
                let ghost old_secrets_dv = self.secrets.deep_view();
                let hashed_input = hash_input_with_pepper(self.input.as_str(), &pepper);
                self.hash.push(hashed_input);
                let combined = make_record(&pepper, self.input.as_str());
                self.secrets.push(combined);
                self.input = String::new();
                self.reset_cursor();
                proof {
                    lemma_record_chars_ok(p, old(self).input@);
                    assert(final(self).hash.deep_view() =~= old_hash_dv.push(
                        hex_of(sha512_of(p + encode_utf8(old(self).input@))),
                    ));
                    assert(final(self).secrets.deep_view() =~= old_secrets_dv.push(
                        record_of(p, old(self).input@),
                    ));
                    assert forall|i: int|
                        0 <= i < final(self).secrets.deep_view().len() implies record_chars_ok(
                        #[trigger] final(self).secrets.deep_view()[i],
                    ) by {
                        if i < old_secrets_dv.len() {
                            assert(final(self).secrets.deep_view()[i] == old_secrets_dv[i]);
                        }
                    }
                }
                Ok(())
            },
        }
    }

    /// Records the outcome of a save attempt in the popup: the outcome line
    /// says success or failure, the detail line names the file or carries
    /// the reported reason, and the popup becomes visible. Nothing else
    /// changes; in particular the ledger is untouched and can be re-saved.
    pub fn handle_save(&mut self, error: Option<String>)
        ensures
            final(self).show_saved_popup,
            same_editor(*final(self), *old(self)),
            same_records(*final(self), *old(self)),
            final(self).input_mode == old(self).input_mode,
            error is None ==> final(self).saved_popup_info@
                == "Data successfully saved to \"secrets.json\". Press x to close."@ && final(self).saved_popup_result@ == "Success"@,
            error matches Some(e) ==> final(self).saved_popup_info@ == "Error saving file: "@
                + e@ + ". Press x to close"@ && final(self).saved_popup_result@ == "Failure"@,
            old(self).wf() ==> final(self).wf(),
    {
        match error {
            None => {
                self.saved_popup_info = String::from_str(
                    "Data successfully saved to \"secrets.json\". Press x to close.",
                );
                self.saved_popup_result = String::from_str("Success");
            },
            Some(e) => {
                let mut message = String::from_str("Error saving file: ");
                message.append(e.as_str());
                message.append(". Press x to close");
                self.saved_popup_info = message;
                self.saved_popup_result = String::from_str("Failure");
            },
        }
        self.show_saved_popup = true;
    }

    /// Dispatches one key event according to the current mode. In
    /// navigation mode, `e` starts editing, `q` asks to quit, `s` asks for
    /// a save, `x` hides the popup, and anything else is ignored. In
    /// editing mode, only pressed keys act: enter submits, characters are
    /// inserted, backspace deletes, the arrows move the cursor, escape
    /// returns to navigation, and anything else is ignored.
    pub fn handle_key(&mut self, key: Key, pressed: bool) -> (r: Action)
        requires
            old(self).wf(),
            old(self).input@.len() < usize::MAX,
        ensures
            final(self).wf(),
            (r == Action::Quit) <==> (old(self).input_mode == InputMode::Normal && key
                == Key::Char('q')),
            (r == Action::Save) <==> (old(self).input_mode == InputMode::Normal && key
                == Key::Char('s')),
            old(self).input_mode == InputMode::Normal ==> same_editor(*final(self), *old(self))
                && same_records(*final(self), *old(self)) && final(self).input_mode == (
            if key == Key::Char('e') {
                InputMode::Editing
            } else {
                InputMode::Normal
            }) && (if key == Key::Char('x') {
                !final(self).show_saved_popup && final(self).saved_popup_info == old(self).saved_popup_info && final(self).saved_popup_result == old(self).saved_popup_result
            } else {
                same_popup(*final(self), *old(self))
            }),
            old(self).input_mode == InputMode::Editing ==> final(self).input_mode == (
            if pressed && key == Key::Esc {
                InputMode::Normal
            } else {
                InputMode::Editing
            }) && same_popup(*final(self), *old(self)),
            old(self).input_mode == InputMode::Editing && !pressed ==> *final(self) == *old(self)
                && r == Action::Continue,
            old(self).input_mode == InputMode::Editing && pressed ==> (match key {
                Key::Enter => (r == Action::Continue || r == Action::Fatal) && (r == Action::Fatal
                    ==> *final(self) == *old(self)) && (r == Action::Continue ==> (exists|
                    p: Seq<u8>,
                |
                    #![auto]
                    p.len() == PEPPER_LEN && final(self).hash.deep_view() == old(self).hash.deep_view().push(hex_of(sha512_of(p + encode_utf8(old(self).input@))))
                        && final(self).secrets.deep_view() == old(self).secrets.deep_view().push(
                        record_of(p, old(self).input@),
                    )) && final(self).input@.len() == 0 && final(self).character_index == 0),
                Key::Char(c) => r == Action::Continue && same_records(*final(self), *old(self))
                    && final(self).input@ == insert_at(
                    old(self).input@,
                    old(self).character_index as int,
                    c,
                ) && final(self).character_index == old(self).character_index + 1,
                Key::Backspace => r == Action::Continue && same_records(*final(self), *old(self))
                    && (old(self).character_index == 0 ==> same_editor(*final(self), *old(self)))
                    && (old(self).character_index > 0 ==> final(self).input@ == delete_before(
                    old(self).input@,
                    old(self).character_index as int,
                ) && final(self).character_index == old(self).character_index - 1),
                Key::Left => r == Action::Continue && same_records(*final(self), *old(self))
                    && final(self).input == old(self).input && final(self).character_index as int
                    == cursor_after_left(
                    old(self).character_index as int,
                    old(self).input@.len() as int,
                ),
                Key::Right => r == Action::Continue && same_records(*final(self), *old(self))
                    && final(self).input == old(self).input && final(self).character_index as int
                    == cursor_after_right(
                    old(self).character_index as int,
                    old(self).input@.len() as int,
                ),
                Key::Esc => r == Action::Continue && same_editor(*final(self), *old(self))
                    && same_records(*final(self), *old(self)),
                Key::Other => r == Action::Continue && same_editor(*final(self), *old(self))
                    && same_records(*final(self), *old(self)),
            }),
    {
        match self.input_mode {
            InputMode::Normal => match key {
                Key::Char(c) => {
                    if c == 'e' {
                        self.input_mode = InputMode::Editing;
                        Action::Continue
                    } else if c == 'q' {
                        Action::Quit
                    } else if c == 's' {
                        Action::Save
                    } else if c == 'x' {
                        self.show_saved_popup = false;
                        Action::Continue
                    } else {
                        Action::Continue
                    }
                },
                _ => Action::Continue,
            },
            InputMode::Editing => {
                if pressed {
                    match key {
                        Key::Enter => match self.submit_input() {
                            Ok(_) => Action::Continue,
                            Err(_) => Action::Fatal,
                        },
                        Key::Char(c) => {
                            self.enter_char(c);
                            Action::Continue
                        },
                        Key::Backspace => {
                            self.delete_char();
                            Action::Continue
                        },
                        Key::Left => {
                            self.move_cursor_left();
                            Action::Continue
                        },
                        Key::Right => {
                            self.move_cursor_right();
                            Action::Continue
                        },
                        Key::Esc => {
                            self.input_mode = InputMode::Normal;
                            Action::Continue
                        },
                        Key::Other => Action::Continue,
                    }
                } else {
                    Action::Continue
                }
            },
        }
    }
}

/// Relies on `String::push`: appends exactly one character at the end.
#[verifier::external_body]
fn push_char(s: &mut String, c: char)
    ensures
        final(s)@ == old(s)@.push(c),
{
    s.push(c);
}

/// The UTF-8 encoding of a concatenation is the concatenation of the
/// encodings.
proof fn lemma_encode_utf8_concat(a: Seq<char>, b: Seq<char>)
    ensures
        encode_utf8(a + b) == encode_utf8(a) + encode_utf8(b),
    decreases a.len(),
{
    if a.len() == 0 {
        assert(a + b =~= b);
        assert(encode_utf8(a) + encode_utf8(b) =~= encode_utf8(b));
    } else {
        lemma_encode_utf8_concat(a.drop_first(), b);
        assert((a + b).drop_first() =~= a.drop_first() + b);
        assert(encode_utf8(a + b) =~= encode_utf8(a) + encode_utf8(b));
    }
}

/// A byte offset derived from a character index never falls inside the
/// encoding of a character: the length of the encoding of any character
/// prefix is a character boundary of the encoding of the whole buffer.
pub proof fn lemma_cursor_offset_is_char_boundary(s: Seq<char>, cur: int)
    requires
        0 <= cur <= s.len(),
    ensures
        is_char_boundary(encode_utf8(s), encode_utf8(s.take(cur)).len() as int),
{
    let bytes = encode_utf8(s);
    let pre = s.take(cur);
    let suf = s.skip(cur);
    let idx = encode_utf8(pre).len() as int;
    encode_utf8_valid_utf8(s);
    lemma_encode_utf8_concat(pre, suf);
    assert(pre + suf =~= s);
    if cur == s.len() {
        assert(pre =~= s);
        is_char_boundary_start_end_of_seq(bytes);
    } else if idx == 0 {
        is_char_boundary_start_end_of_seq(bytes);
    } else {
        char_is_scalar(suf[0]);
        let sc = suf[0] as u32;
        let b = encode_scalar(sc)[0];
        assert(encode_scalar(sc).len() >= 1);
        assert(bytes[idx] == b);
        assert(!is_continuation_byte(b)) by {
            if has_width_1_encoding(sc) {
                assert(b == leading_byte_width_1(sc));
                assert(((sc & 0x7F) as u8) < 0x80) by (bit_vector);
            } else if has_width_2_encoding(sc) {
                assert(b == leading_byte_width_2(sc));
                assert((0xC0u8 | ((sc >> 6) & 0x1F) as u8) > 0xBF) by (bit_vector);
            } else if has_width_3_encoding(sc) {
                assert(b == leading_byte_width_3(sc));
                assert((0xE0u8 | ((sc >> 12) & 0x0F) as u8) > 0xBF) by (bit_vector);
            } else {
                assert(b == leading_byte_width_4(sc));
                assert((0xF0u8 | ((sc >> 18) & 0x7) as u8) > 0xBF) by (bit_vector);
            }
        }
        is_char_boundary_iff_not_is_continuation_byte(bytes, idx);
    }
}

/// Deleting immediately after inserting restores the original buffer:
/// `delete_before_cursor` is the exact left inverse of inserting a
/// character at the same position, and the cursor returns to where it was.
pub proof fn lemma_delete_inverts_insert(s: Seq<char>, cur: int, c: char)
    requires
        0 <= cur <= s.len(),
    ensures
        delete_before(insert_at(s, cur, c), cur + 1) == s,
{
    assert(delete_before(insert_at(s, cur, c), cur + 1) =~= s);
}

} // verus!
