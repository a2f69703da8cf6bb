//! Per-transmission recordings and their association with server items.

use vstd::prelude::*;
use std::collections::VecDeque;
use crate::audio::digits_value;
use crate::audio::wav::{wav_error, wav_file_bytes, wav_header, WavError};
use crate::text::{chars_of, decimal, decimal_chars, extend_chars, extend_str, string_of};
use crate::text_map::TextMap;

verus! {

/// Whether `dir` is exactly a Windows drive prefix such as `C:`.
pub open spec fn is_drive_prefix(dir: Seq<char>) -> bool {
    dir.len() == 2 && crate::text::is_ascii_letter(dir[0]) && dir[1] == ':'
}

/// Whether `dir` starts with the Windows verbatim prefix `\\?\`.
pub open spec fn has_verbatim_prefix(dir: Seq<char>) -> bool {
    dir.len() >= 4 && dir[0] == '\\' && dir[1] == '\\' && dir[2] == '?' && dir[3] == '\\'
}

/// Whether `path` is the relative path `name` appended to the directory
/// `dir` as `Path::join` appends it: `name` alone after an empty `dir`; no
/// separator after a `dir` that ends in one or (on Windows) after a bare
/// drive prefix; otherwise the platform's separator, `/` on Unix and `\` on
/// Windows. A trailing `\` is a separator on Windows only, so after it Unix
/// adds `/`.
pub open spec fn joined_path(dir: Seq<char>, name: Seq<char>, path: Seq<char>) -> bool {
    if dir.len() == 0 {
        path == name
    } else if dir.last() == '/' {
        path == dir + name
    } else if dir.last() == '\\' || is_drive_prefix(dir) {
        path == dir + name || path == dir + seq!['/'] + name
    } else {
        path == dir + seq!['/'] + name || path == dir + seq!['\\'] + name
    }
}

/// `Path::join`: the path of the entry `name` inside the directory `dir`.
///
/// Calls `Path::new(dir).join(name)` and renders the result as a string
/// (lossless, since both parts are UTF-8). `name` starts with a letter and
/// its second character is not `:`, so it has neither a root nor a prefix:
/// std then appends it to `dir` as text, putting the platform's separator
/// in between unless `dir` is empty, ends in a separator, or is a bare drive
/// prefix (`PathBuf::push`). Which platform runs is not known here, so the
/// contract allows the Unix and the Windows outcome. It states nothing for a
/// `dir` with the Windows verbatim prefix `\\?\`, whose components std
/// rebuilds on Windows.
#[verifier::external_body]
pub(crate) fn join_path(dir: &str, name: &str) -> (r: String)
    requires
        name@.len() >= 2,
        crate::text::is_ascii_letter(name@[0]),
        name@[1] != ':',
    ensures
        !has_verbatim_prefix(dir@) ==> joined_path(dir@, name@, r@),
{
    std::path::Path::new(dir).join(name).to_string_lossy().into_owned()
}

/// `n` in decimal, padded with zeros to at least four digits (`{:04}`).
pub open spec fn padded4(n: nat) -> Seq<char> {
    let d = decimal(n);
    if d.len() < 4 {
        Seq::new((4 - d.len()) as nat, |i: int| '0') + d
    } else {
        d
    }
}

/// The file name of the `n`-th recording of a session.
pub open spec fn turn_file_name(session_id: Seq<char>, n: nat) -> Seq<char> {
    "turn-"@ + session_id + "-"@ + padded4(n) + ".wav"@
}

proof fn lemma_digit_value(d: nat)
    requires
        d < 10,
    ensures
        (crate::text::digit_char(d) as u32) - ('0' as u32) == d,
{
}

proof fn lemma_decimal_value(n: nat)
    ensures
        digits_value(decimal(n)) == n,
    decreases n,
{
    lemma_digit_value(n % 10);
    if n < 10 {
        let d = seq![crate::text::digit_char(n)];
        assert(n % 10 == n);
        assert(d.drop_last() =~= Seq::<char>::empty());
        assert(digits_value(d.drop_last()) == 0);
        assert(digits_value(d) == digits_value(d.drop_last()) * 10 + ((d.last() as u32) - ('0' as u32)) as nat);
    } else {
        lemma_decimal_value(n / 10);
        let d = decimal(n);
        assert(d.drop_last() == decimal(n / 10));
        assert(d.last() == crate::text::digit_char(n % 10));
        assert(n == (n / 10) * 10 + n % 10);
        assert(digits_value(d) == digits_value(d.drop_last()) * 10 + ((d.last() as u32) - ('0' as u32)) as nat);
    }
}

proof fn lemma_leading_zeros(k: nat, d: Seq<char>)
    ensures
        digits_value(Seq::new(k, |i: int| '0') + d) == digits_value(d),
    decreases d.len(), k,
{
    let z = Seq::new(k, |i: int| '0');
    if d.len() == 0 {
        assert(z + d =~= z);
        if k > 0 {
            lemma_leading_zeros((k - 1) as nat, d);
            assert(z.drop_last() =~= Seq::new((k - 1) as nat, |i: int| '0'));
            assert(Seq::new((k - 1) as nat, |i: int| '0') + d =~= Seq::new((k - 1) as nat, |i: int| '0'));
        }
    } else {
        lemma_leading_zeros(k, d.drop_last());
        assert((z + d).drop_last() =~= z + d.drop_last());
    }
}

proof fn lemma_padded_value(n: nat)
    ensures
        digits_value(padded4(n)) == n,
{
    lemma_decimal_value(n);
    let d = decimal(n);
    if d.len() < 4 {
        lemma_leading_zeros((4 - d.len()) as nat, d);
    }
}

/// Different recording numbers give different file names, so the
/// recordings of one session never overwrite each other.
pub proof fn turn_file_names_are_unique(session_id: Seq<char>, n: nat, m: nat)
    requires
        n != m,
    ensures
        turn_file_name(session_id, n) != turn_file_name(session_id, m),
{
    let a = "turn-"@ + session_id + "-"@;
    let pn = padded4(n);
    let pm = padded4(m);
    let x = turn_file_name(session_id, n);
    let y = turn_file_name(session_id, m);
    assert(x =~= a + pn + ".wav"@);
    assert(y =~= a + pm + ".wav"@);
    lemma_padded_value(n);
    lemma_padded_value(m);
    if x == y {
        assert(pn.len() == pm.len());
        assert(x.subrange(a.len() as int, (a.len() + pn.len()) as int) =~= pn);
        assert(y.subrange(a.len() as int, (a.len() + pm.len()) as int) =~= pm);
    }
}

/// The recording that binding `item` hands out, given the waiting
/// recordings and the existing bindings.
pub open spec fn bind_result(pending: Seq<Seq<char>>, bindings: Map<Seq<char>, Seq<char>>, item: Seq<char>) -> Option<
    Seq<char>,
> {
    if item.len() == 0 {
        None
    } else if bindings.contains_key(item) {
        Some(bindings[item])
    } else if pending.len() == 0 {
        None
    } else {
        Some(pending[0])
    }
}

/// Whether binding `item` takes a waiting recording.
pub open spec fn bind_takes(pending: Seq<Seq<char>>, bindings: Map<Seq<char>, Seq<char>>, item: Seq<char>) -> bool {
    item.len() > 0 && !bindings.contains_key(item) && pending.len() > 0
}

/// The waiting recordings after binding `item`.
pub open spec fn pending_after_bind(pending: Seq<Seq<char>>, bindings: Map<Seq<char>, Seq<char>>, item: Seq<char>) -> Seq<
    Seq<char>,
> {
    if bind_takes(pending, bindings, item) {
        pending.drop_first()
    } else {
        pending
    }
}

/// The bindings after binding `item`.
pub open spec fn bindings_after_bind(
    pending: Seq<Seq<char>>,
    bindings: Map<Seq<char>, Seq<char>>,
    item: Seq<char>,
) -> Map<Seq<char>, Seq<char>> {
    if bind_takes(pending, bindings, item) {
        bindings.insert(item, pending[0])
    } else {
        bindings
    }
}

/// Binding an item again gives the recording it was given the first time,
/// and changes nothing.
pub proof fn binding_is_stable(pending: Seq<Seq<char>>, bindings: Map<Seq<char>, Seq<char>>, item: Seq<char>)
    ensures
        ({
            let pending1 = pending_after_bind(pending, bindings, item);
            let bindings1 = bindings_after_bind(pending, bindings, item);
            &&& bind_result(pending1, bindings1, item) == bind_result(pending, bindings, item)
            &&& pending_after_bind(pending1, bindings1, item) == pending1
            &&& bindings_after_bind(pending1, bindings1, item) == bindings1
        }),
{
}

/// Items bound one after the other are given the waiting recordings oldest
/// first.
pub proof fn recordings_are_bound_in_order(
    pending: Seq<Seq<char>>,
    bindings: Map<Seq<char>, Seq<char>>,
    first: Seq<char>,
    second: Seq<char>,
)
    requires
        first.len() > 0,
        second.len() > 0,
        first != second,
        !bindings.contains_key(first),
        !bindings.contains_key(second),
        pending.len() >= 2,
    ensures
        bind_result(pending, bindings, first) == Some(pending[0]),
        bind_result(
            pending_after_bind(pending, bindings, first),
            bindings_after_bind(pending, bindings, first),
            second,
        ) == Some(pending[1]),
{
}

/// Why a recording could not be saved.
#[derive(Debug, Clone, PartialEq, Eq)]
pub enum RecordingError {
    /// The session already holds the largest number of recordings.
    TooMany,
    /// The audio cannot be framed as a WAV file; the recording's path and why.
    Wav { path: String, error: WavError },
    /// Storing the file failed; the path and the storage's own message.
    Storage { path: String, message: String },
}

impl RecordingError {
    /// The error as a sentence.
    pub fn message(&self) -> (r: String)
        ensures
            match self {
                RecordingError::TooMany => r@ == "too many recordings were created in one session"@,
                RecordingError::Wav { path, error } => r@ == "could not save recording "@ + path@ + ": "@ + match error {
                    WavError::IncompleteSample => "PCM16 data must contain complete two-byte samples"@,
                    WavError::TooLarge => "recording is too large for WAV"@,
                },
                RecordingError::Storage { path, message } => r@ == "could not save recording "@ + path@ + ": "@
                    + message@,
            },
    {
        match self {
            RecordingError::TooMany => string_of(&chars_of("too many recordings were created in one session")),
            RecordingError::Wav { path, error } => {
                let mut m = chars_of("could not save recording ");
                extend_str(&mut m, path.as_str());
                extend_str(&mut m, ": ");
                extend_str(&mut m, error.message());
                string_of(&m)
            },
            RecordingError::Storage { path, message } => {
                let mut m = chars_of("could not save recording ");
                extend_str(&mut m, path.as_str());
                extend_str(&mut m, ": ");
                extend_str(&mut m, message.as_str());
                string_of(&m)
            },
        }
    }
}

/// A recording ready to be written: the file's path and its bytes.
#[derive(Debug, Clone, PartialEq, Eq)]
pub struct TurnFile {
    pub path: String,
    pub bytes: Vec<u8>,
}

/// The recordings of one session: a numbered WAV file per transmission,
/// handed to server items in the order the transmissions were saved.
#[derive(Debug)]
pub struct RecordingTracker {
    directory: String,
    session_id: String,
    next_number: u32,
    pending: VecDeque<String>,
    by_item: TextMap<String>,
}

impl RecordingTracker {
    pub closed spec fn directory(&self) -> Seq<char> {
        self.directory@
    }

    pub closed spec fn session_id(&self) -> Seq<char> {
        self.session_id@
    }

    /// How many recordings have been numbered so far.
    pub closed spec fn count(&self) -> nat {
        self.next_number as nat
    }

    /// Saved recordings not yet handed to a server item, oldest first.
    pub closed spec fn pending(&self) -> Seq<Seq<char>> {
        self.pending@.map_values(|p: String| p@)
    }

    /// The recording handed to each server item.
    pub closed spec fn bindings(&self) -> Map<Seq<char>, Seq<char>> {
        self.by_item.map().map_values(|p: String| p@)
    }

    pub closed spec fn wf(&self) -> bool {
        self.by_item.wf()
    }

    /// A tracker for recordings in `directory` whose file names carry `session_id`.
    pub fn with_session_id(directory: String, session_id: String) -> (r: Self)
        ensures
            r.wf(),
            r.directory() == directory@,
            r.session_id() == session_id@,
            r.count() == 0,
            r.pending() == Seq::<Seq<char>>::empty(),
            r.bindings() == Map::<Seq<char>, Seq<char>>::empty(),
    {
        let r = RecordingTracker {
            directory,
            session_id,
            next_number: 0,
            pending: VecDeque::new(),
            by_item: TextMap::new(),
        };
        assert(r.pending() =~= Seq::<Seq<char>>::empty());
        assert(r.bindings() =~= Map::<Seq<char>, Seq<char>>::empty());
        r
    }

    fn turn_name(&self, n: u32) -> (r: Vec<char>)
        ensures
            r@ == turn_file_name(self.session_id@, n as nat),
    {
        let mut name = chars_of("turn-");
        extend_str(&mut name, self.session_id.as_str());
        extend_str(&mut name, "-");
        let digits = decimal_chars(n as u64);
        let mut zeros: Vec<char> = Vec::new();
        if digits.len() < 4 {
            let count = 4 - digits.len();
            let mut i: usize = 0;
            while i < count
                invariant
                    i <= count,
                    zeros@ == Seq::new(i as nat, |k: int| '0'),
                decreases count - i,
            {
                zeros.push('0');
                assert(zeros@ =~= Seq::new((i + 1) as nat, |k: int| '0'));
                i += 1;
            }
        }
        extend_chars(&mut name, &zeros);
        extend_chars(&mut name, &digits);
        extend_str(&mut name, ".wav");
        proof {
            reveal_strlit("-");
            reveal_strlit("turn-");
            reveal_strlit(".wav");
        }
        assert(name@ =~= turn_file_name(self.session_id@, n as nat));
        name
    }

    /// The path of the `n`-th recording.
    fn turn_path(&self, n: u32) -> (r: String)
        ensures
            !has_verbatim_prefix(self.directory@) ==> joined_path(
                self.directory@,
                turn_file_name(self.session_id@, n as nat),
                r@,
            ),
    {
        let name = string_of(&self.turn_name(n));
        proof {
            reveal_strlit("turn-");
            assert(name@[0] == 't');
            assert(name@[1] == 'u');
        }
        join_path(self.directory.as_str(), name.as_str())
    }

    /// Numbers one transmission's PCM16 audio as the session's next
    /// recording and frames it as a WAV file: the file to write, or nothing
    /// for empty audio. The recording is queued for a server item by
    /// `turn_written` once the file has been written.
    pub fn save_turn(&mut self, pcm: &[u8]) -> (r: Result<Option<TurnFile>, RecordingError>)
        requires
            old(self).wf(),
        ensures
            final(self).wf(),
            final(self).directory() == old(self).directory(),
            final(self).session_id() == old(self).session_id(),
            final(self).pending() == old(self).pending(),
            final(self).bindings() == old(self).bindings(),
            pcm@.len() == 0 ==> r == Ok::<Option<TurnFile>, RecordingError>(None) && final(self).count() == old(
                self,
            ).count(),
            pcm@.len() > 0 && old(self).count() == u32::MAX ==> r == Err::<Option<TurnFile>, RecordingError>(
                RecordingError::TooMany,
            ) && final(self).count() == old(self).count(),
            pcm@.len() > 0 && old(self).count() != u32::MAX ==> {
                &&& final(self).count() == old(self).count() + 1
                &&& match wav_error(pcm@.len()) {
                    Some(e) => r matches Err(RecordingError::Wav { path, error }) && error == e && (
                    !has_verbatim_prefix(old(self).directory()) ==> joined_path(
                        old(self).directory(),
                        turn_file_name(old(self).session_id(), final(self).count()),
                        path@,
                    )),
                    None => r matches Ok(Some(file)) && file.bytes@ == wav_header(pcm@.len()) + pcm@ && (
                    !has_verbatim_prefix(old(self).directory()) ==> joined_path(
                        old(self).directory(),
                        turn_file_name(old(self).session_id(), final(self).count()),
                        file.path@,
                    )),
                }
            },
    {
        if pcm.len() == 0 {
            return Ok(None);
        }
        if self.next_number == u32::MAX {
            return Err(RecordingError::TooMany);
        }
        self.next_number = self.next_number + 1;
        let path = self.turn_path(self.next_number);
        match wav_file_bytes(pcm) {
            Ok(bytes) => Ok(Some(TurnFile { path, bytes })),
            Err(error) => Err(RecordingError::Wav { path, error }),
        }
    }

    /// Takes the outcome of writing `file`: on success the recording is
    /// queued for the next server item and its path returned; a failure
    /// becomes a storage error naming the path, with nothing queued.
    pub fn turn_written(&mut self, file: TurnFile, written: Result<(), String>) -> (r: Result<String, RecordingError>)
        requires
            old(self).wf(),
        ensures
            final(self).wf(),
            final(self).directory() == old(self).directory(),
            final(self).session_id() == old(self).session_id(),
            final(self).count() == old(self).count(),
            final(self).bindings() == old(self).bindings(),
            match written {
                Ok(()) => r matches Ok(p) && p@ == file.path@ && final(self).pending() == old(self).pending().push(
                    file.path@,
                ),
                Err(message) => r == Err::<String, RecordingError>(
                    RecordingError::Storage { path: file.path, message },
                ) && final(self).pending() == old(self).pending(),
            },
    {
        match written {
            Ok(()) => {
                let path = file.path;
                self.pending.push_back(path.clone());
                assert(self.pending() =~= old(self).pending().push(path@));
                Ok(path)
            },
            Err(message) => Err(RecordingError::Storage { path: file.path, message }),
        }
    }

    /// The recording of the server item `item_id`: the one it was already
    /// given, or else the oldest recording not yet given to any item, which
    /// is then the item's. Nothing for an empty item id or when no recording
    /// is waiting.
    pub fn bind(&mut self, item_id: &str) -> (r: Option<String>)
        requires
            old(self).wf(),
        ensures
            final(self).wf(),
            final(self).directory() == old(self).directory(),
            final(self).session_id() == old(self).session_id(),
            final(self).count() == old(self).count(),
            match bind_result(old(self).pending(), old(self).bindings(), item_id@) {
                Some(p) => r matches Some(q) && q@ == p,
                None => r is None,
            },
            final(self).pending() == pending_after_bind(old(self).pending(), old(self).bindings(), item_id@),
            final(self).bindings() == bindings_after_bind(old(self).pending(), old(self).bindings(), item_id@),
    {
        if item_id.is_empty() {
            return None;
        }
        match self.by_item.get(item_id) {
            Some(existing) => {
                return Some(existing.clone());
            },
            None => {},
        }
        if self.pending.len() == 0 {
            return None;
        }
        let path = match self.pending.pop_front() {
            Some(p) => p,
            None => return None,
        };
        assert(self.pending() =~= old(self).pending().drop_first());
        let key = string_of(&chars_of(item_id));
        self.by_item.insert(key, path.clone());
        assert(self.bindings() =~= old(self).bindings().insert(item_id@, old(self).pending()[0]));
        Some(path)
    }

    /// Forgets which recording the server item `item_id` was given.
    pub fn finish(&mut self, item_id: &str)
        requires
            old(self).wf(),
        ensures
            final(self).wf(),
            final(self).directory() == old(self).directory(),
            final(self).session_id() == old(self).session_id(),
            final(self).count() == old(self).count(),
            final(self).pending() == old(self).pending(),
            final(self).bindings() == old(self).bindings().remove(item_id@),
    {
        self.by_item.remove(item_id);
        assert(self.bindings() =~= old(self).bindings().remove(item_id@));
    }
}

} // verus!
