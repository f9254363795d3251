use vstd::prelude::*;

use crate::laws::lemma_nothing_consumed_nothing_matched;
use crate::scan::{consumed_len, decodes_to, matched_lines, scan_lines};
use crate::store::{key_view, FileKey, OffsetStore};

verus! {

/// The key of the file at `path` created at `created_secs` seconds and
/// `created_nanos` nanoseconds after the Unix epoch.
pub fn file_key(path: &str, created_secs: u64, created_nanos: u32) -> (r: FileKey)
    ensures
        key_view(r) == (path@, created_secs, created_nanos),
{
    (path.to_owned(), created_secs, created_nanos)
}

/// Why a read did not deliver the file's bytes.
#[derive(Clone, Copy, Debug, PartialEq, Eq, Structural)]
pub enum ReadFailure {
    /// The file's metadata (its creation time, its length) could not be read.
    Metadata,
    /// The file could not be opened.
    Open,
    /// Seeking or reading the opened file failed.
    Read,
}

/// How the read of a file, started at the offset that `Tailer::start_offset`
/// gave, came to an end.
pub enum ReadEvent {
    /// Every byte from the offset to the end of the file.
    Data(Vec<u8>),
    /// The read failed.
    Failed(ReadFailure),
    /// The time limit ran out before the read was done.
    TimedOut,
}

/// The result of one poll of a file.
#[derive(Debug)]
pub enum TailOutcome {
    /// New complete lines were read; these are the ones that matched, in file
    /// order (none, when no line matched).
    Matched(Vec<String>),
    /// No complete line was added since the last poll.
    NoNewData,
    /// The file could not be read; nothing was recorded.
    ReadFailed(ReadFailure),
    /// The time limit ran out; nothing was recorded.
    DeadlineExceeded,
}

/// Tails files: remembers, for each logical file, how far it has been read,
/// and turns what a read brings into the lines to report.
pub struct Tailer {
    store: OffsetStore,
}

impl View for Tailer {
    type V = Map<(Seq<char>, u64, u32), u64>;

    closed spec fn view(&self) -> Self::V {
        self.store@
    }
}

/// Where a read starts when `stored` was recorded and the file is now
/// `file_len` bytes long: never past the end of the file.
pub open spec fn clamped(stored: u64, file_len: u64) -> u64 {
    if stored <= file_len {
        stored
    } else {
        file_len
    }
}

/// The offset `stored`, brought back to the end of a file of `file_len` bytes
/// when the file has shrunk below it.
pub fn clamp_offset(stored: u64, file_len: u64) -> (r: u64)
    ensures
        r == clamped(stored, file_len),
{
    if stored <= file_len {
        stored
    } else {
        file_len
    }
}

impl Tailer {
    /// How many files' offsets the tailer keeps before it forgets some.
    pub closed spec fn capacity(&self) -> u64 {
        self.store.capacity()
    }

    /// The tailer holds no more offsets than its capacity: none is forgotten.
    pub open spec fn within_capacity(&self) -> bool {
        self@.dom().finite() && self@.dom().len() <= self.capacity()
    }

    /// Recording an offset for `key` forgets nothing: the key is already there,
    /// or there is room for one more.
    pub open spec fn has_room_for(&self, key: (Seq<char>, u64, u32)) -> bool {
        self.within_capacity() && (self@.contains_key(key) || self@.dom().len() < self.capacity())
    }

    /// A tailer that has read nothing yet and keeps up to `max_files` offsets.
    pub fn with_capacity(max_files: u64) -> (r: Tailer)
        ensures
            r@.dom().is_empty(),
            r.within_capacity(),
            r.capacity() == max_files,
    {
        Tailer { store: OffsetStore::with_capacity(max_files) }
    }

    /// A tailer that has read nothing yet, of the default capacity.
    pub fn new() -> (r: Tailer)
        ensures
            r@.dom().is_empty(),
            r.within_capacity(),
            r.capacity() == crate::store::DEFAULT_CAPACITY,
    {
        Tailer { store: OffsetStore::new() }
    }

    /// Where to start reading the file under `key`, now `file_len` bytes long:
    /// where the last poll stopped, or 0 when it is unknown, and never past
    /// the end of the file.
    pub fn start_offset(&self, key: &FileKey, file_len: u64) -> (r: u64)
        ensures
            r <= file_len,
            !self@.contains_key(key_view(*key)) ==> r == 0,
            self@.contains_key(key_view(*key)) ==> r == 0 || r == clamped(
                self@[key_view(*key)],
                file_len,
            ),
            self.within_capacity() && self@.contains_key(key_view(*key)) ==> r == clamped(
                self@[key_view(*key)],
                file_len,
            ),
    {
        let stored = self.store.get(key);
        clamp_offset(stored, file_len)
    }

    /// Ends a poll of the file under `key` whose read began at `start`.
    /// Bytes that arrived are scanned and the end of their last complete line
    /// is recorded, so that the next poll resumes there; a failed or
    /// timed-out read records nothing.
    pub fn finish(
        &mut self,
        key: FileKey,
        start: u64,
        event: ReadEvent,
        patterns: &Vec<&str>,
    ) -> (r: TailOutcome)
        requires
            event matches ReadEvent::Data(d) ==> start + d@.len() <= u64::MAX,
        ensures
            match event {
                ReadEvent::Data(d) => {
                    &&& 0 <= consumed_len(d@) <= d@.len()
                    &&& final(self).capacity() == old(self).capacity()
                    &&& final(self)@.submap_of(
                        old(self)@.insert(key_view(key), (start + consumed_len(d@)) as u64),
                    )
                    &&& old(self)@.insert(
                        key_view(key),
                        (start + consumed_len(d@)) as u64,
                    ).dom().len() <= old(self).capacity() ==> final(self)@ == old(self)@.insert(
                        key_view(key),
                        (start + consumed_len(d@)) as u64,
                    )
                    &&& old(self).within_capacity() ==> final(self)@.dom().finite()
                    &&& old(self).has_room_for(key_view(key)) ==> final(self)@ == old(self)@.insert(
                        key_view(key),
                        (start + consumed_len(d@)) as u64,
                    ) && final(self).within_capacity()
                    &&& consumed_len(d@) == 0 ==> r is NoNewData && matched_lines(
                        d@,
                        patterns@,
                    ).len() == 0
                    &&& consumed_len(d@) > 0 ==> (r matches TailOutcome::Matched(lines) && decodes_to(
                        lines@,
                        matched_lines(d@, patterns@),
                    ))
                },
                ReadEvent::Failed(f) => {
                    &&& final(self)@ == old(self)@
                    &&& final(self).capacity() == old(self).capacity()
                    &&& r == TailOutcome::ReadFailed(f)
                },
                ReadEvent::TimedOut => {
                    &&& final(self)@ == old(self)@
                    &&& final(self).capacity() == old(self).capacity()
                    &&& r is DeadlineExceeded
                },
            },
    {
        match event {
            ReadEvent::Data(d) => {
                let found = scan_lines(&d, patterns);
                proof {
                    if found.consumed == 0 {
                        lemma_nothing_consumed_nothing_matched(d@, patterns@);
                    }
                }
                let end: u64 = start + found.consumed as u64;
                assert(self.has_room_for(key_view(key)) ==> self.store.has_room_for(key_view(key)));
                self.store.set(key, end);
                if found.consumed == 0 {
                    TailOutcome::NoNewData
                } else {
                    TailOutcome::Matched(found.lines)
                }
            },
            ReadEvent::Failed(f) => TailOutcome::ReadFailed(f),
            ReadEvent::TimedOut => TailOutcome::DeadlineExceeded,
        }
    }
}

} // verus!
