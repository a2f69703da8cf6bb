//! The state of the transcript window: which screen is shown, the session
//! status line and the transcript rows, driven by transcript events.

use vstd::prelude::*;
use crate::realtime::protocol::{opt_path, TranscriptEvent};
use crate::text::{chars_of, string_of, trim_chars, trim_start_str, trimmed, trimmed_start};
use crate::text_map::TextMap;

verus! {

/// The window's two screens.
#[derive(Debug, Clone, Copy, PartialEq, Eq, Structural)]
pub enum Screen {
    Setup,
    Transcript,
}

/// Where the transcription session stands.
#[derive(Debug, Clone, Copy, PartialEq, Eq, Structural)]
pub enum SessionStatus {
    Ready,
    Connecting,
    Connected,
    Stopping,
    Error,
}

/// One transmission: the original transcript, its digit-normalized form and
/// its recording, once known.
#[derive(Debug, Clone, PartialEq, Eq)]
pub struct TransmissionRow {
    pub original: String,
    pub converted: String,
    pub audio_path: Option<String>,
}

/// A row's text: original, converted, recording.
pub open spec fn row_view(r: TransmissionRow) -> (Seq<char>, Seq<char>, Option<Seq<char>>) {
    (r.original@, r.converted@, opt_path(r.audio_path))
}

/// The screen the window opens on: the transcript when the device, the
/// channel and an API key were all given, the setup screen otherwise.
pub open spec fn first_screen(device_resolved: bool, channel_given: bool, api_key: Seq<char>) -> Screen {
    if device_resolved && channel_given && trimmed(api_key).len() > 0 {
        Screen::Transcript
    } else {
        Screen::Setup
    }
}

pub fn initial_screen(device_resolved: bool, channel_given: bool, api_key: &str) -> (r: Screen)
    ensures
        r == first_screen(device_resolved, channel_given, api_key@),
{
    let key = trim_chars(&chars_of(api_key));
    if device_resolved && channel_given && key.len() > 0 {
        Screen::Transcript
    } else {
        Screen::Setup
    }
}

/// Why a session cannot be started.
pub open spec fn start_refusal(previous_running: bool, device_available: bool, api_key: Seq<char>) -> Option<Seq<char>> {
    if previous_running {
        Some("The previous session is still stopping. Try again."@)
    } else if !device_available {
        Some("No Windows output device is selected."@)
    } else if trimmed(api_key).len() == 0 {
        Some("Enter an OpenAI API key in the setup screen."@)
    } else {
        None
    }
}

/// The transcript window's state.
/// What the transcript window shows: its rows (original text, normalized
/// text, recording), the row of each item still being transcribed, and the
/// status with its line.
pub struct BoardView {
    pub rows: Seq<(Seq<char>, Seq<char>, Option<Seq<char>>)>,
    pub open: Map<Seq<char>, usize>,
    pub status: SessionStatus,
    pub line: Seq<char>,
}

/// The row that an event for `item` writes to: the item's open row, or a
/// new empty row at the end.
pub open spec fn target_rows(b: BoardView, item: Seq<char>) -> (int, Seq<(Seq<char>, Seq<char>, Option<Seq<char>>)>) {
    if b.open.contains_key(item) {
        (b.open[item] as int, b.rows)
    } else {
        (b.rows.len() as int, b.rows.push((Seq::empty(), Seq::empty(), None)))
    }
}

/// The window after one transcript event, and whether the session has
/// stopped.
///
/// A delta fills the item's row (appending a row for a new item) with the
/// streamed text, without leading white space; a completion writes the
/// final text and recording into the row and closes it, so that a later
/// event of the same item starts a new row. A stop keeps a shown error.
pub open spec fn board_after(b: BoardView, event: TranscriptEvent) -> (BoardView, bool) {
    match event {
        TranscriptEvent::Connected => (
            BoardView {
                rows: b.rows,
                open: b.open,
                status: SessionStatus::Connected,
                line: "Connected - waiting for radio audio"@,
            },
            false,
        ),
        TranscriptEvent::Delta { item_id, original, converted } => {
            let (index, base) = target_rows(b, item_id@);
            (
                BoardView {
                    rows: base.update(index, (trimmed_start(original@), trimmed_start(converted@), base[index].2)),
                    open: b.open.insert(item_id@, index as usize),
                    status: b.status,
                    line: b.line,
                },
                false,
            )
        },
        TranscriptEvent::Completed { item_id, original, converted, audio_path } => {
            let (index, base) = target_rows(b, item_id@);
            (
                BoardView {
                    rows: base.update(index, (original@, converted@, opt_path(audio_path))),
                    open: b.open.remove(item_id@),
                    status: b.status,
                    line: b.line,
                },
                false,
            )
        },
        TranscriptEvent::Error(message) => (
            BoardView { rows: b.rows, open: b.open, status: SessionStatus::Error, line: message@ },
            false,
        ),
        TranscriptEvent::Stopped => if b.status == SessionStatus::Error {
            (b, true)
        } else {
            (
                BoardView {
                    rows: b.rows,
                    open: b.open,
                    status: SessionStatus::Ready,
                    line: "Stopped - press Start to reconnect"@,
                },
                true,
            )
        },
    }
}

/// Deltas of one new item fill a single new row, which its completion
/// replaces with the final text and recording and closes; a later delta of
/// the same item then starts another row.
pub proof fn item_rows_follow_completion(
    b: BoardView,
    item: Seq<char>,
    first: TranscriptEvent,
    second: TranscriptEvent,
    done: TranscriptEvent,
    again: TranscriptEvent,
)
    requires
        b.rows.len() + 2 <= usize::MAX,
        !b.open.contains_key(item),
        first matches TranscriptEvent::Delta { item_id, .. } && item_id@ == item,
        second matches TranscriptEvent::Delta { item_id, .. } && item_id@ == item,
        done matches TranscriptEvent::Completed { item_id, .. } && item_id@ == item,
        again matches TranscriptEvent::Delta { item_id, .. } && item_id@ == item,
    ensures
        ({
            let b1 = board_after(b, first).0;
            let b2 = board_after(b1, second).0;
            let b3 = board_after(b2, done).0;
            let b4 = board_after(b3, again).0;
            &&& b2.rows.len() == b.rows.len() + 1
            &&& b2.rows.take(b.rows.len() as int) == b.rows
            &&& (second matches TranscriptEvent::Delta { original, converted, .. } && b2.rows.last() == (
                trimmed_start(original@),
                trimmed_start(converted@),
                None::<Seq<char>>,
            ))
            &&& b3.rows.len() == b.rows.len() + 1
            &&& (done matches TranscriptEvent::Completed { original, converted, audio_path, .. }
                && b3.rows.last() == (original@, converted@, opt_path(audio_path)))
            &&& !b3.open.contains_key(item)
            &&& b4.rows.len() == b.rows.len() + 2
            &&& b4.rows.take(b3.rows.len() as int) == b3.rows
        }),
{
    let b1 = board_after(b, first).0;
    let b2 = board_after(b1, second).0;
    let b3 = board_after(b2, done).0;
    let b4 = board_after(b3, again).0;
    let n = b.rows.len() as int;
    assert(b1.open.contains_key(item) && b1.open[item] == n);
    assert(b1.rows.len() == n + 1);
    assert(b2.open[item] == n);
    assert(b2.rows.take(n) =~= b.rows);
    assert(b4.rows.take(b3.rows.len() as int) =~= b3.rows);
}

#[derive(Debug)]
pub struct TranscriptBoard {
    rows: Vec<TransmissionRow>,
    row_for_item: TextMap<usize>,
    status: SessionStatus,
    status_text: String,
}

impl TranscriptBoard {
    /// The rows, oldest first.
    pub closed spec fn row_views(&self) -> Seq<(Seq<char>, Seq<char>, Option<Seq<char>>)> {
        self.rows@.map_values(|r: TransmissionRow| row_view(r))
    }

    /// The row of each item whose transcript is still streaming.
    pub closed spec fn open_rows(&self) -> Map<Seq<char>, usize> {
        self.row_for_item.map()
    }

    pub closed spec fn status_spec(&self) -> SessionStatus {
        self.status
    }

    pub closed spec fn status_line(&self) -> Seq<char> {
        self.status_text@
    }

    /// The window never holds more rows than a `usize` counts.
    pub proof fn row_count_fits(&self)
        ensures
            self.shown().rows.len() <= usize::MAX,
    {
        assert(self.rows@.len() == self.rows.len());
    }

    /// What the window shows.
    pub open spec fn shown(&self) -> BoardView {
        BoardView {
            rows: self.row_views(),
            open: self.open_rows(),
            status: self.status_spec(),
            line: self.status_line(),
        }
    }

    pub closed spec fn wf(&self) -> bool {
        &&& self.row_for_item.wf()
        &&& forall|k: Seq<char>| #[trigger] self.row_for_item.map().contains_key(k) ==> self.row_for_item.map()[k]
            < self.rows@.len()
    }

    /// An empty transcript, ready to start.
    pub fn new() -> (r: Self)
        ensures
            r.wf(),
            r.row_views() == Seq::<(Seq<char>, Seq<char>, Option<Seq<char>>)>::empty(),
            r.open_rows() == Map::<Seq<char>, usize>::empty(),
            r.status_spec() == SessionStatus::Ready,
            r.status_line() == "Ready - press Start"@,
    {
        let r = TranscriptBoard {
            rows: Vec::new(),
            row_for_item: TextMap::new(),
            status: SessionStatus::Ready,
            status_text: string_of(&chars_of("Ready - press Start")),
        };
        assert(r.row_views() =~= Seq::<(Seq<char>, Seq<char>, Option<Seq<char>>)>::empty());
        r
    }

    pub fn rows(&self) -> (r: &Vec<TransmissionRow>)
        ensures
            r@.map_values(|x: TransmissionRow| row_view(x)) == self.row_views(),
    {
        &self.rows
    }

    pub fn status(&self) -> (r: SessionStatus)
        ensures
            r == self.status_spec(),
    {
        self.status
    }

    pub fn status_text(&self) -> (r: &String)
        ensures
            r@ == self.status_line(),
    {
        &self.status_text
    }

    /// The status colour as red, green and blue.
    pub fn status_color(&self) -> (r: (u8, u8, u8))
        ensures
            self.status_spec() == SessionStatus::Connected ==> r == (34u8, 197u8, 94u8),
            self.status_spec() == SessionStatus::Connecting || self.status_spec() == SessionStatus::Stopping ==> r == (
                251u8,
                191u8,
                36u8,
            ),
            self.status_spec() == SessionStatus::Error ==> r == (239u8, 68u8, 68u8),
            self.status_spec() == SessionStatus::Ready ==> r == (156u8, 163u8, 175u8),
    {
        match self.status {
            SessionStatus::Connected => (34, 197, 94),
            SessionStatus::Connecting | SessionStatus::Stopping => (251, 191, 36),
            SessionStatus::Error => (239, 68, 68),
            SessionStatus::Ready => (156, 163, 175),
        }
    }

    /// Shows an error in the status line.
    pub fn set_error(&mut self, message: String)
        requires
            old(self).wf(),
        ensures
            final(self).wf(),
            final(self).status_spec() == SessionStatus::Error,
            final(self).status_line() == message@,
            final(self).row_views() == old(self).row_views(),
            final(self).open_rows() == old(self).open_rows(),
    {
        self.status = SessionStatus::Error;
        self.status_text = message;
    }

    /// Sets the status and its line.
    pub fn set_status(&mut self, status: SessionStatus, text: &str)
        requires
            old(self).wf(),
        ensures
            final(self).wf(),
            final(self).status_spec() == status,
            final(self).status_line() == text@,
            final(self).row_views() == old(self).row_views(),
            final(self).open_rows() == old(self).open_rows(),
    {
        self.status = status;
        self.status_text = string_of(&chars_of(text));
    }

    /// Removes every row.
    pub fn clear(&mut self)
        requires
            old(self).wf(),
        ensures
            final(self).wf(),
            final(self).row_views() == Seq::<(Seq<char>, Seq<char>, Option<Seq<char>>)>::empty(),
            final(self).open_rows() == Map::<Seq<char>, usize>::empty(),
            final(self).status_spec() == old(self).status_spec(),
            final(self).status_line() == old(self).status_line(),
    {
        self.rows = Vec::new();
        self.row_for_item = TextMap::new();
        assert(self.row_views() =~= Seq::<(Seq<char>, Seq<char>, Option<Seq<char>>)>::empty());
    }

    /// The row of `item_id`, appending an empty one for an item not seen
    /// since its last completion.
    fn ensure_row(&mut self, item_id: &str) -> (r: usize)
        requires
            old(self).wf(),
        ensures
            final(self).wf(),
            r < final(self).row_views().len(),
            final(self).status_spec() == old(self).status_spec(),
            final(self).status_line() == old(self).status_line(),
            old(self).open_rows().contains_key(item_id@) ==> {
                &&& r == old(self).open_rows()[item_id@]
                &&& final(self).row_views() == old(self).row_views()
                &&& final(self).open_rows() == old(self).open_rows()
            },
            !old(self).open_rows().contains_key(item_id@) ==> {
                &&& r == old(self).row_views().len()
                &&& final(self).row_views() == old(self).row_views().push((Seq::empty(), Seq::empty(), None))
                &&& final(self).open_rows() == old(self).open_rows().insert(item_id@, r)
            },
    {
        match self.row_for_item.get(item_id) {
            Some(index) => {
                return *index;
            },
            None => {},
        }
        let index = self.rows.len();
        let ghost before = self.row_views();
        self.rows.push(
            TransmissionRow { original: String::new(), converted: String::new(), audio_path: None },
        );
        assert(self.row_views() =~= before.push((Seq::empty(), Seq::empty(), None)));
        self.row_for_item.insert(string_of(&chars_of(item_id)), index);
        assert forall|k: Seq<char>| #[trigger] self.row_for_item.map().contains_key(k) implies self.row_for_item.map()[k]
            < self.rows@.len() by {
            if k != item_id@ {
                assert(old(self).row_for_item.map().contains_key(k));
            }
        }
        index
    }

    /// Applies one transcript event; `true` when the session has stopped
    /// and its worker should be joined.
    ///
    /// A delta fills the item's row (appending a row for a new item) with
    /// the streamed text, without leading white space; a completion writes
    /// the final text and recording into the row and closes it, so that a
    /// later event of the same item starts a new row.
    pub fn apply(&mut self, event: TranscriptEvent) -> (stopped: bool)
        requires
            old(self).wf(),
        ensures
            final(self).wf(),
            (final(self).shown(), stopped) == board_after(old(self).shown(), event),
    {
        match event {
            TranscriptEvent::Connected => {
                self.set_status(SessionStatus::Connected, "Connected - waiting for radio audio");
                false
            },
            TranscriptEvent::Delta { item_id, original, converted } => {
                let index = self.ensure_row(item_id.as_str());
                let ghost base = self.row_views();
                let audio_path = self.rows[index].audio_path.clone();
                let row = TransmissionRow {
                    original: trim_start_str(original.as_str()),
                    converted: trim_start_str(converted.as_str()),
                    audio_path,
                };
                self.rows.set(index, row);
                assert(self.row_views() =~= base.update(
                    index as int,
                    (trimmed_start(original@), trimmed_start(converted@), base[index as int].2),
                ));
                proof {
                    if old(self).open_rows().contains_key(item_id@) {
                        assert(self.open_rows() =~= old(self).open_rows().insert(item_id@, index));
                    }
                }
                false
            },
            TranscriptEvent::Completed { item_id, original, converted, audio_path } => {
                let index = self.ensure_row(item_id.as_str());
                let ghost base = self.row_views();
                let ghost audio = opt_path(audio_path);
                self.rows.set(index, TransmissionRow { original, converted, audio_path });
                assert(self.row_views() =~= base.update(index as int, (original@, converted@, audio)));
                let ghost mid = self.row_for_item.map();
                self.row_for_item.remove(item_id.as_str());
                assert(self.open_rows() =~= old(self).open_rows().remove(item_id@));
                assert forall|k: Seq<char>| #[trigger] self.row_for_item.map().contains_key(k) implies self.row_for_item.map()[k]
                    < self.rows@.len() by {
                    assert(mid.contains_key(k));
                }
                false
            },
            TranscriptEvent::Error(message) => {
                self.set_error(message);
                false
            },
            TranscriptEvent::Stopped => {
                if self.status != SessionStatus::Error {
                    self.set_status(SessionStatus::Ready, "Stopped - press Start to reconnect");
                }
                true
            },
        }
    }
}

/// Checks whether a new session may start: the previous one must have
/// finished, a device must be selected and an API key entered.
pub fn check_start(previous_running: bool, device_available: bool, api_key: &str) -> (r: Result<(), &'static str>)
    ensures
        match start_refusal(previous_running, device_available, api_key@) {
            Some(m) => r matches Err(e) && e@ == m,
            None => r is Ok,
        },
{
    if previous_running {
        return Err("The previous session is still stopping. Try again.");
    }
    if !device_available {
        return Err("No Windows output device is selected.");
    }
    let key = trim_chars(&chars_of(api_key));
    if key.len() == 0 {
        return Err("Enter an OpenAI API key in the setup screen.");
    }
    Ok(())
}

} // verus!
