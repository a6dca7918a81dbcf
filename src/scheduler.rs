use vstd::prelude::*;

use crate::error::{FrameError, ImportError, S3Error};
use crate::frame::{decode_file, file_frames, frames_view, gunzip_ok};
use crate::key::{FileInfo, Timestamp};
use crate::progress::ProcessedFile;

verus! {

/// Where one file stands in its import: fetch, then persist its rows, then
/// record it as processed.
#[derive(Debug, Clone, Copy, PartialEq, Eq, Structural)]
pub enum FileStage {
    Pending,
    Fetching,
    Persisting,
    Recording,
    Done,
    Failed,
}

/// What the driver is to do next.
#[derive(Debug, Clone, Copy, PartialEq, Eq, Structural)]
pub enum Action {
    /// Fetch the file at this index of the schedule.
    Fetch(usize),
    /// Wait for a file in flight to report.
    Wait,
    /// Every file has been attempted and none is in flight.
    Finished,
}

pub open spec fn is_active(s: FileStage) -> bool {
    s == FileStage::Fetching || s == FileStage::Persisting || s == FileStage::Recording
}

/// How many files are in flight.
pub open spec fn active_count(s: Seq<FileStage>) -> nat
    decreases s.len(),
{
    if s.len() == 0 {
        0
    } else {
        active_count(s.drop_last()) + if is_active(s.last()) {
            1nat
        } else {
            0nat
        }
    }
}

proof fn lemma_active_count_update(s: Seq<FileStage>, i: int, x: FileStage)
    requires
        0 <= i < s.len(),
    ensures
        active_count(s.update(i, x)) + (if is_active(s[i]) {
            1nat
        } else {
            0nat
        }) == active_count(s) + (if is_active(x) {
            1nat
        } else {
            0nat
        }),
    decreases s.len(),
{
    let t = s.update(i, x);
    if i == s.len() - 1 {
        assert(t.drop_last() =~= s.drop_last());
    } else {
        assert(t.drop_last() =~= s.drop_last().update(i, x));
        lemma_active_count_update(s.drop_last(), i, x);
    }
}

proof fn lemma_active_count_pending(s: Seq<FileStage>)
    requires
        forall|i: int| 0 <= i < s.len() ==> !is_active(#[trigger] s[i]),
    ensures
        active_count(s) == 0,
    decreases s.len(),
{
    if s.len() > 0 {
        assert(!is_active(s[s.len() - 1]));
        lemma_active_count_pending(s.drop_last());
    }
}

pub open spec fn failed_as_count(s: FileStage) -> nat {
    if s == FileStage::Failed {
        1
    } else {
        0
    }
}

/// How many files failed.
pub open spec fn failed_count(s: Seq<FileStage>) -> nat
    decreases s.len(),
{
    if s.len() == 0 {
        0
    } else {
        failed_count(s.drop_last()) + failed_as_count(s.last())
    }
}

proof fn lemma_failed_count_update(s: Seq<FileStage>, i: int, x: FileStage)
    requires
        0 <= i < s.len(),
    ensures
        failed_count(s.update(i, x)) + failed_as_count(s[i]) == failed_count(s) + failed_as_count(x),
    decreases s.len(),
{
    let t = s.update(i, x);
    if i == s.len() - 1 {
        assert(t.drop_last() =~= s.drop_last());
    } else {
        assert(t.drop_last() =~= s.drop_last().update(i, x));
        lemma_failed_count_update(s.drop_last(), i, x);
    }
}

/// No file failed exactly when the count of failed files is zero.
proof fn lemma_failed_count_zero(s: Seq<FileStage>)
    ensures
        failed_count(s) == 0 <==> forall|i: int| 0 <= i < s.len() ==> #[trigger] s[i] != FileStage::Failed,
    decreases s.len(),
{
    if s.len() > 0 {
        lemma_failed_count_zero(s.drop_last());
        if failed_count(s) == 0 {
            assert forall|i: int| 0 <= i < s.len() implies #[trigger] s[i] != FileStage::Failed by {
                if i < s.len() - 1 {
                    assert(s.drop_last()[i] == s[i]);
                }
            }
        } else if s.last() != FileStage::Failed {
            let i = choose|i: int|
                0 <= i < s.drop_last().len() && !(#[trigger] s.drop_last()[i] != FileStage::Failed);
            assert(s[i] == s.drop_last()[i]);
        } else {
            assert(s[s.len() - 1] == FileStage::Failed);
        }
    }
}

/// However the files report back, a well-formed schedule never has more than
/// `limit` files in flight, and so never more than `limit` fetches
/// outstanding.
pub proof fn lemma_in_flight_bounded(s: Scheduler)
    requires
        s.wf(),
    ensures
        active_count(s.stages@) <= s.limit,
{
}

/// The import of a list of files with at most `limit` of them in flight at
/// once. Files are admitted in order; each reports back as its steps end,
/// in any order. A file is recorded as processed only after its rows were
/// persisted, and a failed file is never recorded.
#[derive(Debug)]
pub struct Scheduler {
    pub files: Vec<FileInfo>,
    pub stages: Vec<FileStage>,
    pub limit: usize,
    pub next: usize,
    pub in_flight: usize,
    pub errors: Vec<ImportError>,
}

impl Scheduler {
    /// The schedule is consistent: files from `next` on are pending and the
    /// others started, `in_flight` counts the files in flight and stays within
    /// `limit`, and each failed file left one error.
    pub open spec fn wf(&self) -> bool {
        &&& self.wf_flight()
        &&& self.errors@.len() == failed_count(self.stages@)
    }

    pub open spec fn wf_flight(&self) -> bool {
        &&& self.stages@.len() == self.files@.len()
        &&& self.limit > 0
        &&& self.next <= self.files@.len()
        &&& forall|i: int|
            0 <= i < self.stages@.len() ==> (#[trigger] self.stages@[i] == FileStage::Pending
                <==> i >= self.next)
        &&& self.in_flight == active_count(self.stages@)
        &&& self.in_flight <= self.limit
    }

    /// A schedule of `files`, none started, admitting at most `limit` at once.
    pub fn new(files: Vec<FileInfo>, limit: usize) -> (r: Scheduler)
        requires
            limit > 0,
        ensures
            r.wf(),
            r.files@ == files@,
            r.limit == limit,
            r.next == 0,
            r.in_flight == 0,
            r.errors@.len() == 0,
            forall|i: int| 0 <= i < r.stages@.len() ==> #[trigger] r.stages@[i] == FileStage::Pending,
    {
        let n = files.len();
        let mut stages: Vec<FileStage> = Vec::new();
        let mut i: usize = 0;
        while i < n
            invariant
                i <= n,
                stages@.len() == i,
                forall|j: int| 0 <= j < i ==> #[trigger] stages@[j] == FileStage::Pending,
            decreases n - i,
        {
            stages.push(FileStage::Pending);
            i = i + 1;
        }
        proof {
            lemma_active_count_pending(stages@);
            lemma_failed_count_zero(stages@);
        }
        Scheduler { files, stages, limit, next: 0, in_flight: 0, errors: Vec::new() }
    }

    /// The next step: admit the next file while fewer than `limit` are in
    /// flight, else wait while any is in flight, else report the end.
    pub fn poll(&mut self) -> (r: Action)
        requires
            old(self).wf(),
        ensures
            final(self).wf(),
            final(self).files == old(self).files,
            final(self).limit == old(self).limit,
            final(self).errors == old(self).errors,
            final(self).in_flight <= final(self).limit,
            match r {
                Action::Fetch(i) => {
                    &&& old(self).in_flight < old(self).limit
                    &&& i == old(self).next < old(self).files@.len()
                    &&& final(self).next == i + 1
                    &&& final(self).in_flight == old(self).in_flight + 1
                    &&& final(self).stages@ == old(self).stages@.update(i as int, FileStage::Fetching)
                },
                Action::Wait => {
                    &&& old(self).in_flight > 0
                    &&& (old(self).in_flight == old(self).limit || old(self).next == old(
                        self,
                    ).files@.len())
                    &&& *final(self) == *old(self)
                },
                Action::Finished => {
                    &&& old(self).in_flight == 0
                    &&& old(self).next == old(self).files@.len()
                    &&& *final(self) == *old(self)
                    &&& forall|i: int|
                        0 <= i < final(self).stages@.len() ==> (#[trigger] final(self).stages@[i]
                            == FileStage::Done || final(self).stages@[i] == FileStage::Failed)
                },
            },
    {
        if self.in_flight < self.limit && self.next < self.files.len() {
            let i = self.next;
            proof {
                lemma_active_count_update(self.stages@, i as int, FileStage::Fetching);
                lemma_failed_count_update(self.stages@, i as int, FileStage::Fetching);
            }
            self.stages.set(i, FileStage::Fetching);
            self.next = i + 1;
            self.in_flight = self.in_flight + 1;
            assert forall|j: int| 0 <= j < self.stages@.len() implies (#[trigger] self.stages@[j]
                == FileStage::Pending <==> j >= self.next) by {
                if j != i {
                    assert(old(self).stages@[j] == self.stages@[j]);
                }
            }
            Action::Fetch(i)
        } else if self.in_flight > 0 {
            Action::Wait
        } else {
            proof {
                assert forall|i: int| 0 <= i < self.stages@.len() implies (#[trigger] self.stages@[i]
                    == FileStage::Done || self.stages@[i] == FileStage::Failed) by {
                    if !is_active(self.stages@[i]) {
                    } else {
                        lemma_active_count_update(self.stages@, i, FileStage::Done);
                    }
                }
            }
            Action::Finished
        }
    }

    /// Moves file `i` out of flight or on to its next step `to`, keeping the
    /// count of files in flight.
    fn advance(&mut self, i: usize, to: FileStage)
        requires
            old(self).wf(),
            i < old(self).stages@.len(),
            is_active(old(self).stages@[i as int]),
            to != FileStage::Pending,
        ensures
            final(self).wf_flight(),
            failed_count(final(self).stages@) == failed_count(old(self).stages@) + failed_as_count(
                to,
            ),
            final(self).files == old(self).files,
            final(self).limit == old(self).limit,
            final(self).next == old(self).next,
            final(self).errors == old(self).errors,
            final(self).stages@ == old(self).stages@.update(i as int, to),
            final(self).in_flight as int == if is_active(to) {
                old(self).in_flight as int
            } else {
                old(self).in_flight - 1
            },
    {
        proof {
            lemma_active_count_update(self.stages@, i as int, to);
            lemma_failed_count_update(self.stages@, i as int, to);
        }
        self.stages.set(i, to);
        if !(to == FileStage::Fetching || to == FileStage::Persisting || to
            == FileStage::Recording) {
            self.in_flight = self.in_flight - 1;
        }
        assert forall|j: int| 0 <= j < self.stages@.len() implies (#[trigger] self.stages@[j]
            == FileStage::Pending <==> j >= self.next) by {
            if j != i {
                assert(old(self).stages@[j] == self.stages@[j]);
            }
        }
    }

    /// Marks file `i` failed with `e`; it leaves flight and is never recorded.
    fn fail(&mut self, i: usize, e: ImportError)
        requires
            old(self).wf(),
            i < old(self).stages@.len(),
            is_active(old(self).stages@[i as int]),
        ensures
            final(self).wf(),
            final(self).files == old(self).files,
            final(self).limit == old(self).limit,
            final(self).next == old(self).next,
            final(self).errors@ == old(self).errors@.push(e),
            final(self).stages@ == old(self).stages@.update(i as int, FileStage::Failed),
            final(self).in_flight == old(self).in_flight - 1,
    {
        assert(!is_active(FileStage::Failed));
        self.advance(i, FileStage::Failed);
        self.errors.push(e);
    }

    /// File `i` was fetched, or its fetch failed. On success its bytes are
    /// decompressed and split into records, which are handed back for mapping
    /// and persisting; a failed fetch or a truncated or corrupt stream fails
    /// the file.
    pub fn on_fetched(&mut self, i: usize, fetched: Result<Vec<u8>, S3Error>) -> (r: Option<
        Vec<Vec<u8>>,
    >)
        requires
            old(self).wf(),
            i < old(self).stages@.len(),
            old(self).stages@[i as int] == FileStage::Fetching,
        ensures
            final(self).wf(),
            final(self).files == old(self).files,
            final(self).limit == old(self).limit,
            final(self).next == old(self).next,
            match fetched {
                Err(e) => {
                    &&& r is None
                    &&& final(self).errors@ == old(self).errors@.push(ImportError::S3(e))
                    &&& final(self).stages@ == old(self).stages@.update(i as int, FileStage::Failed)
                },
                Ok(bytes) => {
                    &&& r is Some <==> file_frames(bytes@) is Some
                    &&& match r {
                        Some(frames) => {
                            &&& file_frames(bytes@) == Some(frames_view(frames@))
                            &&& final(self).errors == old(self).errors
                            &&& final(self).stages@ == old(self).stages@.update(
                                i as int,
                                FileStage::Persisting,
                            )
                            &&& final(self).in_flight == old(self).in_flight
                        },
                        None => {
                            &&& final(self).stages@ == old(self).stages@.update(
                                i as int,
                                FileStage::Failed,
                            )
                            &&& final(self).errors@.len() == old(self).errors@.len() + 1
                            &&& final(self).errors@.last() is Frame
                            &&& (final(self).errors@.last()->Frame_0 is Compression
                                <==> !gunzip_ok(bytes@))
                            &&& (gunzip_ok(bytes@) ==> final(self).errors@.last()
                                == ImportError::Frame(FrameError::Truncated))
                        },
                    }
                },
            },
    {
        match fetched {
            Err(e) => {
                self.fail(i, ImportError::S3(e));
                None
            },
            Ok(bytes) => match decode_file(&bytes) {
                Ok(frames) => {
                    self.advance(i, FileStage::Persisting);
                    Some(frames)
                },
                Err(e) => {
                    self.fail(i, ImportError::Frame(e));
                    None
                },
            },
        }
    }

    /// The rows of file `i` were persisted, or persisting them failed.
    /// Returns the record that marks the file processed, to be written now:
    /// only when its rows were persisted, and with the file's own key, prefix
    /// and timestamp, completed at `processed_at`.
    pub fn on_persisted(&mut self, i: usize, persisted: Result<(), String>, processed_at: Timestamp) -> (r:
        Option<ProcessedFile>)
        requires
            old(self).wf(),
            i < old(self).stages@.len(),
            old(self).stages@[i as int] == FileStage::Persisting,
        ensures
            final(self).wf(),
            final(self).files == old(self).files,
            final(self).limit == old(self).limit,
            final(self).next == old(self).next,
            r is Some <==> persisted is Ok,
            r matches Some(rec) ==> rec == (ProcessedFile {
                file_name: old(self).files@[i as int].key,
                prefix: old(self).files@[i as int].prefix,
                file_timestamp: old(self).files@[i as int].timestamp,
                processed_at,
            }),
            match persisted {
                Ok(_) => {
                    &&& final(self).stages@ == old(self).stages@.update(i as int, FileStage::Recording)
                    &&& final(self).errors == old(self).errors
                },
                Err(m) => {
                    &&& final(self).stages@ == old(self).stages@.update(i as int, FileStage::Failed)
                    &&& final(self).errors@ == old(self).errors@.push(ImportError::Db(m))
                },
            },
    {
        match persisted {
            Ok(_) => {
                let f = &self.files[i];
                let rec = ProcessedFile {
                    file_name: f.key.clone(),
                    prefix: f.prefix.clone(),
                    file_timestamp: f.timestamp,
                    processed_at,
                };
                self.advance(i, FileStage::Recording);
                Some(rec)
            },
            Err(m) => {
                self.fail(i, ImportError::Db(m));
                None
            },
        }
    }

    /// The processed-file record of file `i` was written, or writing it failed.
    pub fn on_recorded(&mut self, i: usize, recorded: Result<(), String>)
        requires
            old(self).wf(),
            i < old(self).stages@.len(),
            old(self).stages@[i as int] == FileStage::Recording,
        ensures
            final(self).wf(),
            final(self).files == old(self).files,
            final(self).limit == old(self).limit,
            final(self).next == old(self).next,
            final(self).in_flight == old(self).in_flight - 1,
            match recorded {
                Ok(_) => {
                    &&& final(self).stages@ == old(self).stages@.update(i as int, FileStage::Done)
                    &&& final(self).errors == old(self).errors
                },
                Err(m) => {
                    &&& final(self).stages@ == old(self).stages@.update(i as int, FileStage::Failed)
                    &&& final(self).errors@ == old(self).errors@.push(ImportError::Db(m))
                },
            },
    {
        match recorded {
            Ok(_) => {
                assert(!is_active(FileStage::Done));
                self.advance(i, FileStage::Done);
            },
            Err(m) => self.fail(i, ImportError::Db(m)),
        }
    }

    /// The outcome of the run: the first failure reported, if any.
    pub fn outcome(self) -> (r: Result<(), ImportError>)
        requires
            self.wf(),
        ensures
            r is Ok <==> forall|i: int|
                0 <= i < self.stages@.len() ==> #[trigger] self.stages@[i] != FileStage::Failed,
            r matches Err(e) ==> e == self.errors@[0],
    {
        proof {
            lemma_failed_count_zero(self.stages@);
        }
        let mut errors = self.errors;
        if errors.len() == 0 {
            Ok(())
        } else {
            Err(errors.remove(0))
        }
    }
}

} // verus!
