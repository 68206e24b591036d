//! The text buffer, the input events and the decision step of the editor
//! loop. Screen I/O is left to a `Frontend`.
use vstd::prelude::*;
use crate::utf8_utils::{glyphs, zero_padded, UTF8IntoIter, UTF8Iter, Utf8ToBytes};
use vstd::utf8::{encode_scalar, encode_utf8, is_char_boundary, valid_utf8};

verus! {

/// Declares `anyhow::Error`, the error type that the front end's hooks
/// report. Nothing here looks inside it: it is handed on as it came.
#[verifier::external_type_specification]
#[verifier::external_body]
pub struct ExAnyhowError(anyhow::Error);

/// The result of handling one input event: whether the loop goes on.
#[derive(Clone, Copy, Debug, PartialEq, Eq, Structural)]
pub enum LoopEvent {
    Exit,
    Continue,
}

/// One logical input event, independent of any terminal library.
#[derive(Clone, Copy, Debug)]
pub enum InputEvent {
    Key(EventKey),
}

/// The closed set of keys the editor reacts to. `Etc` is the escape key;
/// `Char` carries a character's encoded length and its zero-padded UTF-8
/// bytes; `Null` stands for anything unrecognised.
#[derive(Clone, Copy, Debug)]
pub enum EventKey {
    Enter,
    Etc,
    Backspace,
    Left,
    Right,
    Up,
    Down,
    Char { size: u8, buffer: [u8; 4] },
    Null,
}

impl EventKey {
    /// The key event for a typed character: its UTF-8 length and its
    /// encoding, zero-padded to four bytes.
    pub fn from_char(c: char) -> (r: EventKey)
        ensures
            r matches EventKey::Char { size, buffer } && size == encode_scalar(c as u32).len()
                && buffer@ == zero_padded(encode_scalar(c as u32)),
    {
        match c.utf8_to_bytes() {
            Some((size, buffer)) => EventKey::Char { size, buffer },
            None => EventKey::Null,
        }
    }
}

/// The document bytes and the cursor, a byte offset that marks the insertion
/// point, with two presentation fields that editing never reads.
///
/// The cursor is not kept within the document: `Down` moves it without an
/// upper bound, and a character advances it by one whatever its encoded
/// length. Backspace removes one byte, which can cut a multi-byte character.
pub struct Backend {
    pub file_buffer: Vec<u8>,
    pub show_cursor: bool,
    pub cursor_pos: usize,
    pub center_pos: usize,
}

/// The abstract state of a `Backend`.
pub struct BackendView {
    pub document: Seq<u8>,
    pub cursor: usize,
    pub show_cursor: bool,
    pub center_pos: usize,
}

impl View for Backend {
    type V = BackendView;

    open spec fn view(&self) -> BackendView {
        BackendView {
            document: self.file_buffer@,
            cursor: self.cursor_pos,
            show_cursor: self.show_cursor,
            center_pos: self.center_pos,
        }
    }
}

/// `doc` with `bytes` put in at byte offset `cursor`: spliced in before the
/// byte there, or appended when the cursor is at or past the end.
pub open spec fn spliced(doc: Seq<u8>, cursor: int, bytes: Seq<u8>) -> Seq<u8> {
    if cursor < doc.len() {
        doc.subrange(0, cursor) + bytes + doc.subrange(cursor, doc.len() as int)
    } else {
        doc + bytes
    }
}

/// The bytes a character event inserts, or `None` when its length is zero or
/// runs past its buffer.
pub open spec fn char_event_bytes(size: u8, buffer: [u8; 4]) -> Option<Seq<u8>> {
    if 1 <= size <= 4 {
        Some(buffer@.subrange(0, size as int))
    } else {
        None
    }
}

/// The bytes the enter key inserts: a newline and a carriage return.
pub open spec fn newline_bytes() -> Seq<u8> {
    seq![0x0au8, 0x0du8]
}

/// Whether the loop ends on `key`: only the escape key ends it.
pub open spec fn loop_event_of(key: EventKey) -> LoopEvent {
    match key {
        EventKey::Etc => LoopEvent::Exit,
        _ => LoopEvent::Continue,
    }
}

impl BackendView {
    /// A cursor moved back by one, stopping at zero.
    pub open spec fn cursor_back(self) -> usize {
        if self.cursor > 0 {
            (self.cursor - 1) as usize
        } else {
            0
        }
    }

    /// A cursor moved on by one, stopping at the largest offset.
    pub open spec fn cursor_on(self) -> usize {
        if self.cursor < usize::MAX {
            (self.cursor + 1) as usize
        } else {
            self.cursor
        }
    }

    /// The state after `bytes` are put in at the cursor; the cursor stays.
    pub open spec fn with_inserted(self, bytes: Seq<u8>) -> BackendView {
        BackendView { document: spliced(self.document, self.cursor as int, bytes), ..self }
    }

    /// The state after the byte before the cursor is deleted: the last byte
    /// of the document goes, and the cursor moves back by one.
    pub open spec fn with_deleted(self) -> BackendView {
        BackendView {
            document: if self.document.len() > 0 {
                self.document.drop_last()
            } else {
                self.document
            },
            cursor: self.cursor_back(),
            ..self
        }
    }

    /// The state after one key is handled.
    pub open spec fn after_key(self, key: EventKey) -> BackendView {
        match key {
            EventKey::Enter => self.with_inserted(newline_bytes()),
            EventKey::Backspace => self.with_deleted(),
            EventKey::Char { size, buffer } => match char_event_bytes(size, buffer) {
                Some(bytes) => BackendView {
                    cursor: self.cursor_on(),
                    ..self.with_inserted(bytes)
                },
                None => self,
            },
            EventKey::Left | EventKey::Up => BackendView { cursor: self.cursor_back(), ..self },
            EventKey::Right => if self.cursor < self.document.len() {
                BackendView { cursor: self.cursor_on(), ..self }
            } else {
                self
            },
            EventKey::Down => BackendView { cursor: self.cursor_on(), ..self },
            EventKey::Etc | EventKey::Null => self,
        }
    }

    /// The state after one input event is handled.
    pub open spec fn after_event(self, event: InputEvent) -> BackendView {
        match event {
            InputEvent::Key(key) => self.after_key(key),
        }
    }
}

/// Inserting with the cursor at the end of the document appends; inserting
/// with the cursor at zero puts the bytes before the whole document.
pub proof fn lemma_insert_at_ends(v: BackendView, bytes: Seq<u8>)
    ensures
        v.cursor == v.document.len() ==> v.with_inserted(bytes).document == v.document + bytes,
        v.cursor == 0 ==> v.with_inserted(bytes).document == bytes + v.document,
        v.with_inserted(bytes).cursor == v.cursor,
        v.with_inserted(bytes).document.len() == v.document.len() + bytes.len(),
{
    if v.cursor == 0 && v.document.len() > 0 {
        assert(v.with_inserted(bytes).document =~= bytes + v.document);
    }
    if v.cursor == 0 && v.document.len() == 0 {
        assert(v.document + bytes =~= bytes + v.document);
    }
}

/// Inserting valid UTF-8 at a character boundary of a valid UTF-8 document,
/// or with the cursor at or past its end, leaves the document valid UTF-8.
pub proof fn lemma_insert_keeps_utf8(v: BackendView, bytes: Seq<u8>)
    requires
        valid_utf8(v.document),
        valid_utf8(bytes),
        v.cursor >= v.document.len() || is_char_boundary(v.document, v.cursor as int),
    ensures
        valid_utf8(v.with_inserted(bytes).document),
{
    let doc = v.document;
    if v.cursor < doc.len() {
        let c = v.cursor as int;
        vstd::utf8::valid_utf8_split(doc, c);
        vstd::utf8::valid_utf8_concat(doc.subrange(0, c), bytes);
        vstd::utf8::valid_utf8_concat(doc.subrange(0, c) + bytes, doc.subrange(c, doc.len() as int));
    } else {
        vstd::utf8::valid_utf8_concat(doc, bytes);
    }
}

/// The encoding of one character is valid UTF-8.
pub proof fn lemma_char_encoding_is_utf8(c: char)
    ensures
        valid_utf8(encode_scalar(c as u32)),
{
    let one = seq![c];
    vstd::utf8::encode_utf8_valid_utf8(one);
    assert(one.drop_first() =~= Seq::<char>::empty());
    assert(encode_utf8(one) =~= encode_scalar(c as u32) + encode_utf8(one.drop_first()));
    assert(encode_utf8(one) =~= encode_scalar(c as u32));
}

/// Deleting before the cursor in an empty document with the cursor at zero
/// changes nothing.
pub proof fn lemma_delete_on_empty(v: BackendView)
    requires
        v.document.len() == 0,
        v.cursor == 0,
    ensures
        v.with_deleted() == v,
{
}

/// Moving right with the cursor at the end of the document, or left with the
/// cursor at zero, changes nothing.
pub proof fn lemma_moves_at_bounds(v: BackendView)
    ensures
        v.cursor == v.document.len() ==> v.after_key(EventKey::Right) == v,
        v.cursor == 0 ==> v.after_key(EventKey::Left) == v,
{
}

/// Whether the loop ends on `event`.
pub open spec fn loop_event_of_input(event: InputEvent) -> LoopEvent {
    match event {
        InputEvent::Key(key) => loop_event_of(key),
    }
}

/// How one glyph is shown: a lone newline becomes a newline and a carriage
/// return, so that the next line starts at the left edge; any other glyph is
/// shown as it is.
pub open spec fn rendered_glyph(g: Seq<u8>) -> Seq<u8> {
    if g == seq![0x0au8] {
        seq![0x0au8, 0x0du8]
    } else {
        g
    }
}

/// The bytes that show a sequence of glyphs, one after another.
pub open spec fn render_glyphs(gs: Seq<Seq<u8>>) -> Seq<u8>
    decreases gs.len(),
{
    if gs.len() == 0 {
        seq![]
    } else {
        rendered_glyph(gs[0]) + render_glyphs(gs.drop_first())
    }
}

impl Backend {
    /// An empty document with the cursor at zero.
    pub fn new() -> (r: Self)
        ensures
            r@.document.len() == 0,
            r@.cursor == 0,
            !r@.show_cursor,
            r@.center_pos == 0,
    {
        Backend { file_buffer: Vec::new(), show_cursor: false, cursor_pos: 0, center_pos: 0 }
    }

    /// Puts already encoded bytes in at the cursor: spliced in when the
    /// cursor is inside the document, appended otherwise. The cursor stays
    /// where it was.
    pub fn buffer_insert(&mut self, buffer: &[u8])
        ensures
            final(self)@ == old(self)@.with_inserted(buffer@),
    {
        let cursor = self.cursor_pos;
        if cursor < self.file_buffer.len() {
            let mut tail = self.file_buffer.split_off(cursor);
            self.file_buffer.extend_from_slice(buffer);
            self.file_buffer.append(&mut tail);
            assert(self.file_buffer@ =~= spliced(old(self).file_buffer@, cursor as int, buffer@));
        } else {
            self.file_buffer.extend_from_slice(buffer);
            assert(self.file_buffer@ =~= old(self).file_buffer@ + buffer@);
        }
    }

    /// Removes the last byte of the document, if any, and moves the cursor
    /// back by one, stopping at zero.
    pub fn delete_before_cursor(&mut self)
        ensures
            final(self)@ == old(self)@.with_deleted(),
    {
        self.file_buffer.pop();
        self.cursor_pos = self.cursor_pos.saturating_sub(1);
        assert(self@.document =~= old(self)@.with_deleted().document);
    }

    /// The bytes that show the document: its glyphs in order, each newline
    /// followed by a carriage return. Segmentation stops where the document
    /// stops being well-formed, so nothing after that is shown.
    pub fn render(&self) -> (r: Vec<u8>)
        ensures
            r@ == render_glyphs(glyphs(self.file_buffer@)),
    {
        let mut out: Vec<u8> = Vec::new();
        let mut it: UTF8Iter = self.file_buffer.utf8_iter();
        loop
            invariant
                out@ + render_glyphs(it.remaining()) == render_glyphs(glyphs(self.file_buffer@)),
            ensures
                out@ == render_glyphs(glyphs(self.file_buffer@)),
            decreases it.remaining().len(),
        {
            let ghost before = it.remaining();
            let ghost out_before = out@;
            match it.next() {
                Some(glyph) => {
                    if glyph.len() == 1 && glyph[0] == 0x0a {
                        let newline: [u8; 2] = [0x0a, 0x0d];
                        out.extend_from_slice(newline.as_slice());
                        assert(glyph@ =~= seq![0x0au8]);
                    } else {
                        out.extend_from_slice(glyph);
                    }
                    assert(out@ =~= out_before + rendered_glyph(glyph@));
                    assert(out@ + render_glyphs(it.remaining()) =~= out_before + render_glyphs(before));
                },
                None => {
                    assert(out@ + render_glyphs(it.remaining()) =~= out@);
                    break;
                },
            }
        }
        out
    }

    /// Handles one input event: edits the document or moves the cursor as
    /// the key says, and tells whether the loop goes on. Only the escape key
    /// ends it; a character event whose length is zero or exceeds four is
    /// skipped.
    pub fn dispatch(&mut self, event: &InputEvent) -> (r: LoopEvent)
        ensures
            final(self)@ == old(self)@.after_event(*event),
            r == loop_event_of_input(*event),
    {
        let InputEvent::Key(key) = event;
        match key {
            EventKey::Etc => {
                return LoopEvent::Exit;
            },
            EventKey::Enter => {
                let newline: [u8; 2] = [0x0a, 0x0d];
                let bytes = newline.as_slice();
                assert(bytes@ =~= newline_bytes());
                self.buffer_insert(bytes);
            },
            EventKey::Backspace => {
                self.delete_before_cursor();
            },
            EventKey::Char { size, buffer } => {
                if *size == 0 || *size > 4 {
                    return LoopEvent::Continue;
                }
                let bytes = &buffer.as_slice()[0..*size as usize];
                self.buffer_insert(bytes);
                self.cursor_pos = self.cursor_pos.saturating_add(1);
            },
            EventKey::Left | EventKey::Up => {
                self.cursor_pos = self.cursor_pos.saturating_sub(1);
            },
            EventKey::Right => {
                if self.cursor_pos < self.file_buffer.len() {
                    self.cursor_pos = self.cursor_pos.saturating_add(1);
                }
            },
            EventKey::Down => {
                self.cursor_pos = self.cursor_pos.saturating_add(1);
            },
            EventKey::Null => {},
        }
        LoopEvent::Continue
    }
}


/// The screen side of the editor: terminal set-up, drawing, reading one input
/// event (blocking until one comes), and restoring the terminal.
pub trait Frontend: Sized {
    fn new() -> Result<Self, anyhow::Error>;

    fn setup(&mut self) -> Result<(), anyhow::Error>;

    fn draw(&mut self, backend: &Backend) -> Result<(), anyhow::Error>;

    fn event(&mut self) -> Result<InputEvent, anyhow::Error>;

    fn cleanup(&mut self) -> Result<(), anyhow::Error>;
}

/// A text buffer paired with the front end that shows it.
pub struct Editor<FrontendType: Frontend> {
    pub backend: Backend,
    pub frontend: FrontendType,
}

impl<FrontendType: Frontend> Editor<FrontendType> {
    /// An editor over an empty document, with a new front end; an error from
    /// the front end's constructor is passed on.
    pub fn new() -> (r: Result<Self, anyhow::Error>)
        ensures
            r matches Ok(e) ==> {
                &&& e.backend@.document.len() == 0
                &&& e.backend@.cursor == 0
                &&& !e.backend@.show_cursor
                &&& e.backend@.center_pos == 0
            },
    {
        match FrontendType::new() {
            Ok(frontend) => Ok(Editor { frontend, backend: Backend::new() }),
            Err(e) => Err(e),
        }
    }

    /// One pass of the editor loop: draw the buffer, wait for one input
    /// event, and handle it. An error from drawing or reading is passed on
    /// at once, with the buffer untouched.
    pub fn step(&mut self) -> (r: Result<LoopEvent, anyhow::Error>)
        ensures
            r is Err ==> final(self).backend@ == old(self).backend@,
            r matches Ok(outcome) ==> exists|event: InputEvent|
                {
                    &&& final(self).backend@ == old(self).backend@.after_event(event)
                    &&& outcome == loop_event_of_input(event)
                },
    {
        match self.frontend.draw(&self.backend) {
            Ok(()) => {},
            Err(e) => {
                return Err(e);
            },
        }
        let event = match self.frontend.event() {
            Ok(event) => event,
            Err(e) => {
                return Err(e);
            },
        };
        let outcome = self.backend.dispatch(&event);
        Ok(outcome)
    }
}

} // verus!
