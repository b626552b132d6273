//! The session: the one buffer that is resident, and what the editor does
//! with it on each tick and each input event.
//!
//! The session decides; whoever drives it reads the clock, talks to the
//! store and draws. Each function here takes what was read and says what is
//! to be done.

use crate::calendar::{BufferId, Date};
use crate::highlight::{
    first_link, laid_out, link_at, spans_of, tokens, CachedLayoutJobBuilder, Span, Token,
};
use crate::index::{dates, index_of, path_encodings, rebuild_index};
use crate::store::{
    lemma_empty_without_source, lemma_inherits_nearest, resolution, Resolution, Resolved,
    StoreError, FALLBACK_DAYS,
};
use crate::tasks::cycled;
use crate::text::cycle;
use vstd::prelude::*;
use vstd::utf8::encode_utf8;

verus! {

/// How long after the last edit an unsaved buffer is saved, in milliseconds.
pub const AUTOSAVE_MILLIS: i64 = 5000;

/// The keys the session has a use for.
#[derive(Copy, Clone, Debug, PartialEq, Eq, Structural)]
pub enum Key {
    M,
    S,
    T,
    Other,
}

/// An input event, as far as the session tells events apart.
#[derive(Copy, Clone, Debug, PartialEq, Eq, Structural)]
pub enum InputEvent {
    /// Characters were typed.
    Text,
    /// Text was pasted.
    Paste,
    /// A key went down or up.
    Key { key: Key, pressed: bool, command: bool },
    /// The text was double-clicked at a byte offset.
    DoubleClick { offset: usize },
    /// A day was picked from the list of stored days.
    Select { day: BufferId },
    /// Anything else.
    Other,
}

/// What the driver is to do after an event.
#[derive(Copy, Clone, Debug, PartialEq, Eq, Structural)]
pub enum Command {
    /// Nothing.
    Nothing,
    /// Save the resident buffer.
    Save,
    /// Switch to the buffer of the given day: save the resident buffer under
    /// its own day first, then load the buffer of the given day and hand it
    /// to `swap_to_buffer`.
    SwitchTo(BufferId),
    /// Open the hyperlink that the given span of the text holds.
    OpenLink(Span),
}

/// `Command` in ghost code.
pub enum Commanded {
    Nothing,
    Save,
    SwitchTo(Date),
    OpenLink(Token),
}

/// What a command stands for.
pub open spec fn commanded(command: Command) -> Commanded {
    match command {
        Command::Nothing => Commanded::Nothing,
        Command::Save => Commanded::Save,
        Command::SwitchTo(id) => Commanded::SwitchTo(id@),
        Command::OpenLink(span) => Commanded::OpenLink(span@),
    }
}

/// Whether an unsaved buffer is due for saving: it was edited, and the last
/// edit lies more than `AUTOSAVE_MILLIS` back.
pub open spec fn autosave_due(saved: bool, last_changed: Option<i64>, now: i64) -> bool {
    !saved && (last_changed matches Some(at) && now - at > AUTOSAVE_MILLIS)
}

/// Whether an event may have changed the text, so that the spans are to be
/// computed anew.
pub open spec fn may_change_text(event: InputEvent) -> bool {
    event is Text || event is Paste || event is Key || event is Select
}

/// Whether an event is the given key going down with the command modifier.
pub open spec fn is_command(event: InputEvent, which: Key) -> bool {
    event matches InputEvent::Key { key, pressed, command } && key == which && pressed && command
}

/// Decides whether an unsaved buffer is due for saving.
pub fn is_autosave_due(saved: bool, last_changed: Option<i64>, now: i64) -> (due: bool)
    ensures
        due == autosave_due(saved, last_changed, now),
{
    if saved {
        return false;
    }
    match last_changed {
        Some(at) => {
            let now_wide: i128 = now as i128;
            let at_wide: i128 = at as i128;
            now_wide - at_wide > AUTOSAVE_MILLIS as i128
        },
        None => false,
    }
}

/// Decides whether an event may have changed the text.
pub fn changes_text(event: &InputEvent) -> (changed: bool)
    ensures
        changed == may_change_text(*event),
{
    match event {
        InputEvent::Text => true,
        InputEvent::Paste => true,
        InputEvent::Key { .. } => true,
        InputEvent::DoubleClick { .. } => false,
        InputEvent::Select { .. } => true,
        InputEvent::Other => false,
    }
}

/// The label that tells whether the buffer is saved.
pub fn status_label(saved: bool) -> (label: &'static str)
    ensures
        label@ == (if saved {
            "Saved"@
        } else {
            "Not Saved"@
        }),
{
    if saved {
        "Saved"
    } else {
        "Not Saved"
    }
}

/// The text after taking up today's buffer as resolved: what the store gave,
/// where there was something to load and the store gave it; else the text as
/// it was.
pub open spec fn adopted(text: Seq<char>, resolved: Resolved, loaded: Option<Seq<char>>) -> Seq<
    char,
> {
    if resolved !is Empty && loaded is Some {
        loaded->0
    } else {
        text
    }
}

/// First access to today's buffer, with a store that holds `store` and gives
/// what it holds: the text that becomes resident, and what the store holds
/// afterwards. An inherited text is saved as today's at once.
pub open spec fn first_access(store: Map<Date, Seq<char>>, today: Date) -> (
    Seq<char>,
    Map<Date, Seq<char>>,
) {
    let resolved = resolution(today, store.dom());
    let loaded = match resolved {
        Resolved::Existing => Some(store[today]),
        Resolved::Inherit(day) => Some(store[day]),
        Resolved::Empty => None,
    };
    let text = adopted(Seq::empty(), resolved, loaded);
    (
        text,
        if resolved is Inherit {
            store.insert(today, text)
        } else {
            store
        },
    )
}

/// Where the buffer `n` days back is stored and none nearer is, nor today's,
/// first access to today's buffer yields the text of that buffer, and the
/// store then holds it as today's too, with every other day as before.
pub proof fn lemma_first_access_inherits(store: Map<Date, Seq<char>>, today: Date, n: nat)
    requires
        today.valid(),
        1 <= n <= FALLBACK_DAYS,
        today.days_before(n).valid(),
        store.dom().contains(today.days_before(n)),
        forall|k: nat| k < n ==> !store.dom().contains(#[trigger] today.days_before(k)),
    ensures
        first_access(store, today).0 == store[today.days_before(n)],
        first_access(store, today).1 == store.insert(today, store[today.days_before(n)]),
{
    lemma_inherits_nearest(today, store.dom(), n);
}

/// Where today's buffer is stored, first access yields it and leaves the
/// store as it is; where neither it nor one of the fourteen days before is
/// stored, first access yields an empty text and leaves the store as it is.
pub proof fn lemma_first_access_otherwise(store: Map<Date, Seq<char>>, today: Date)
    ensures
        store.dom().contains(today) ==> first_access(store, today) == (store[today], store),
        (forall|k: nat|
            k <= FALLBACK_DAYS ==> !store.dom().contains(#[trigger] today.days_before(k)))
            ==> first_access(store, today) == (Seq::<char>::empty(), store),
{
    if forall|k: nat|
        k <= FALLBACK_DAYS ==> !store.dom().contains(#[trigger] today.days_before(k)) {
        lemma_empty_without_source(today, store.dom());
    }
}

/// The state of the editor.
pub struct Session {
    /// The day of the resident buffer.
    pub buffer_id: BufferId,
    /// The text of the resident buffer.
    pub buffer: String,
    /// The days for which a buffer is stored, as last indexed.
    pub available_buffers: Vec<BufferId>,
    /// Whether the text is as last saved.
    pub saved: bool,
    /// The byte offset of the cursor, if the editor has one.
    pub cursor: Option<usize>,
    /// When the text was last edited, in milliseconds.
    pub last_changed: Option<i64>,
    /// The spans of the text as last computed.
    pub highlight_cache: CachedLayoutJobBuilder,
    /// Whether an event of the frame under way may have changed the text.
    /// While it is so, the spans are computed anew each time they are asked
    /// for.
    pub text_touched: bool,
}

impl Session {
    /// A session on the given day with nothing in it.
    pub fn new(today: BufferId) -> (s: Session)
        ensures
            s.buffer_id == today,
            s.buffer@ == Seq::<char>::empty(),
            s.available_buffers@ == Seq::<BufferId>::empty(),
            !s.saved,
            s.cursor is None,
            s.last_changed is None,
            s.highlight_cache@ is None,
            !s.text_touched,
    {
        Session {
            buffer_id: today,
            buffer: String::new(),
            available_buffers: Vec::new(),
            saved: false,
            cursor: None,
            last_changed: None,
            highlight_cache: CachedLayoutJobBuilder::default(),
            text_touched: false,
        }
    }

    /// Takes up today's buffer as resolved.
    ///
    /// `loaded` is what the store gave for today's buffer, or for the buffer
    /// to inherit; a failure leaves the text as it is. Says whether the text
    /// is to be saved as today's buffer at once, which is so when it was
    /// inherited.
    pub fn adopt(&mut self, resolution: Resolution, loaded: Result<String, StoreError>) -> (persist:
        bool)
        ensures
            persist == (resolution is Inherit),
            final(self).buffer@ == adopted(
                old(self).buffer@,
                resolution@,
                match loaded {
                    Ok(text) => Some(text@),
                    Err(_) => None,
                },
            ),
            final(self).buffer_id == old(self).buffer_id,
            final(self).available_buffers == old(self).available_buffers,
            final(self).saved == old(self).saved,
            final(self).cursor == old(self).cursor,
            final(self).text_touched == old(self).text_touched,
            final(self).last_changed == old(self).last_changed,
            final(self).highlight_cache == old(self).highlight_cache,
    {
        match resolution {
            Resolution::Existing => {
                if let Ok(text) = loaded {
                    self.buffer = text;
                }
                false
            },
            Resolution::Inherit(_) => {
                if let Ok(text) = loaded {
                    self.buffer = text;
                }
                true
            },
            Resolution::Empty => false,
        }
    }

    /// One tick of the clock. Says whether the buffer is to be saved now, and
    /// if so counts it as saved.
    pub fn tick(&mut self, now: i64) -> (save: bool)
        ensures
            save == autosave_due(old(self).saved, old(self).last_changed, now),
            final(self).saved == (old(self).saved || save),
            final(self).buffer == old(self).buffer,
            final(self).buffer_id == old(self).buffer_id,
            final(self).available_buffers == old(self).available_buffers,
            final(self).cursor == old(self).cursor,
            final(self).text_touched == old(self).text_touched,
            final(self).last_changed == old(self).last_changed,
            final(self).highlight_cache == old(self).highlight_cache,
    {
        if is_autosave_due(self.saved, self.last_changed, now) {
            self.saved = true;
            true
        } else {
            false
        }
    }

    /// The text was edited at time `now`: it is no longer as saved.
    pub fn text_changed(&mut self, now: i64)
        ensures
            !final(self).saved,
            final(self).last_changed == Some(now),
            final(self).buffer == old(self).buffer,
            final(self).buffer_id == old(self).buffer_id,
            final(self).available_buffers == old(self).available_buffers,
            final(self).cursor == old(self).cursor,
            final(self).text_touched == old(self).text_touched,
            final(self).highlight_cache == old(self).highlight_cache,
    {
        self.saved = false;
        self.last_changed = Some(now);
    }

    /// Whether the event asks to cycle a task and the session can: the key
    /// `M` with the command modifier, and a cursor inside the text.
    pub open spec fn toggles(self, event: InputEvent) -> bool {
        is_command(event, Key::M) && (self.cursor matches Some(at) && at <= encode_utf8(
            self.buffer@,
        ).len())
    }

    /// Takes an input event.
    ///
    /// `M` with the command modifier cycles the task on the line of the
    /// cursor and counts the text as edited; `S` with it asks for a save and
    /// counts the text as saved; `T` with it asks to switch to today's
    /// buffer, as picking a day asks to switch to that day's, the resident
    /// buffer being saved first. A double click inside a hyperlink asks to
    /// open it. Any event that may
    /// have changed the text empties the cache of spans and marks the text
    /// as touched for the rest of the frame.
    pub fn handle(&mut self, event: &InputEvent, today: BufferId, now: i64) -> (command: Command)
        ensures
            commanded(command) == (if is_command(*event, Key::T) {
                Commanded::SwitchTo(today@)
            } else if is_command(*event, Key::S) {
                Commanded::Save
            } else {
                match *event {
                    InputEvent::DoubleClick { offset } => match first_link(
                        spans_of(encode_utf8(old(self).buffer@)),
                        offset as int,
                    ) {
                        Some(link) => Commanded::OpenLink(link),
                        None => Commanded::Nothing,
                    },
                    InputEvent::Select { day } => Commanded::SwitchTo(day@),
                    _ => Commanded::Nothing,
                }
            }),
            encode_utf8(final(self).buffer@) == (if old(self).toggles(*event) {
                cycled(encode_utf8(old(self).buffer@), old(self).cursor->Some_0 as int)
            } else {
                encode_utf8(old(self).buffer@)
            }),
            final(self).saved == (if old(self).toggles(*event) {
                false
            } else if is_command(*event, Key::S) {
                true
            } else {
                old(self).saved
            }),
            final(self).last_changed == (if old(self).toggles(*event) {
                Some(now)
            } else {
                old(self).last_changed
            }),
            final(self).highlight_cache@ == (if may_change_text(*event) {
                None
            } else {
                old(self).highlight_cache@
            }),
            final(self).buffer_id == old(self).buffer_id,
            final(self).available_buffers == old(self).available_buffers,
            final(self).cursor == old(self).cursor,
            final(self).text_touched == (old(self).text_touched || may_change_text(*event)),
    {
        if changes_text(event) {
            self.highlight_cache.clear();
            self.text_touched = true;
        }
        match event {
            InputEvent::Key { key: Key::M, pressed: true, command: true } => {
                match self.cursor {
                    Some(at) => {
                        if at <= self.buffer.as_str().as_bytes().len() {
                            cycle(&mut self.buffer, at);
                            self.saved = false;
                            self.last_changed = Some(now);
                        }
                    },
                    None => {},
                }
                Command::Nothing
            },
            InputEvent::Key { key: Key::T, pressed: true, command: true } => Command::SwitchTo(
                today,
            ),
            InputEvent::Key { key: Key::S, pressed: true, command: true } => {
                self.saved = true;
                Command::Save
            },
            InputEvent::DoubleClick { offset } => match link_at(self.buffer.as_str(), *offset) {
                Some(link) => Command::OpenLink(link),
                None => Command::Nothing,
            },
            InputEvent::Select { day } => Command::SwitchTo(*day),
            _ => Command::Nothing,
        }
    }

    /// Makes the buffer of another day resident.
    ///
    /// `loaded` is what the store gave for that day; a failure leaves the
    /// text as it is. The cache of spans is emptied, and the text counts as
    /// touched for the rest of the frame.
    pub fn swap_to_buffer(&mut self, id: BufferId, loaded: Result<String, StoreError>)
        ensures
            final(self).buffer_id == id,
            final(self).buffer@ == (if loaded is Ok {
                loaded->Ok_0@
            } else {
                old(self).buffer@
            }),
            final(self).highlight_cache@ is None,
            final(self).available_buffers == old(self).available_buffers,
            final(self).saved == old(self).saved,
            final(self).cursor == old(self).cursor,
            final(self).text_touched,
            final(self).last_changed == old(self).last_changed,
    {
        self.buffer_id = id;
        if let Ok(text) = loaded {
            self.buffer = text;
        }
        self.highlight_cache.clear();
        self.text_touched = true;
    }

    /// Rebuilds the list of stored days from the paths of the files in the
    /// store.
    pub fn update_available_buffers(&mut self, paths: &Vec<Vec<String>>)
        ensures
            dates(final(self).available_buffers@) == index_of(path_encodings(paths@)),
            final(self).buffer_id == old(self).buffer_id,
            final(self).buffer == old(self).buffer,
            final(self).saved == old(self).saved,
            final(self).cursor == old(self).cursor,
            final(self).text_touched == old(self).text_touched,
            final(self).last_changed == old(self).last_changed,
            final(self).highlight_cache == old(self).highlight_cache,
    {
        self.available_buffers = rebuild_index(paths);
    }

    /// A new frame begins: no event of it has touched the text yet.
    pub fn begin_frame(&mut self)
        ensures
            !final(self).text_touched,
            final(self).buffer_id == old(self).buffer_id,
            final(self).buffer == old(self).buffer,
            final(self).available_buffers == old(self).available_buffers,
            final(self).saved == old(self).saved,
            final(self).cursor == old(self).cursor,
            final(self).last_changed == old(self).last_changed,
            final(self).highlight_cache == old(self).highlight_cache,
    {
        self.text_touched = false;
    }

    /// The spans to draw the text with: those of the text as it is now, where
    /// an event of the frame may have changed it or the cache is empty; else
    /// those in the cache.
    pub fn layout(&mut self) -> (spans: Vec<Span>)
        ensures
            tokens(spans@) == laid_out(
                old(self).highlight_cache@,
                encode_utf8(old(self).buffer@),
                old(self).text_touched,
            ),
            final(self).highlight_cache@ == Some(tokens(spans@)),
            final(self).buffer_id == old(self).buffer_id,
            final(self).buffer == old(self).buffer,
            final(self).available_buffers == old(self).available_buffers,
            final(self).saved == old(self).saved,
            final(self).cursor == old(self).cursor,
            final(self).text_touched == old(self).text_touched,
            final(self).last_changed == old(self).last_changed,
    {
        self.highlight_cache.layout(self.buffer.as_str(), self.text_touched)
    }
}

} // verus!
