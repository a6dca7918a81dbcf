use vstd::prelude::*;

use crate::key::Timestamp;

verus! {

/// One successfully imported file: its key, prefix and timestamp, and when
/// its import completed.
#[derive(Debug, Clone, PartialEq, Eq)]
pub struct ProcessedFile {
    pub file_name: String,
    pub prefix: String,
    pub file_timestamp: Timestamp,
    pub processed_at: Timestamp,
}

/// The larger of a watermark and a timestamp; a missing watermark yields the
/// timestamp.
pub open spec fn raise(w: Option<Timestamp>, t: Timestamp) -> Option<Timestamp> {
    match w {
        Some(m) => Some(if m >= t { m } else { t }),
        None => Some(t),
    }
}

/// The latest `file_timestamp` among the records of `prefix`, if any.
pub open spec fn latest_of(s: Seq<ProcessedFile>, prefix: Seq<char>) -> Option<Timestamp>
    decreases s.len(),
{
    if s.len() == 0 {
        None
    } else if s.last().prefix@ == prefix {
        raise(latest_of(s.drop_last(), prefix), s.last().file_timestamp)
    } else {
        latest_of(s.drop_last(), prefix)
    }
}

/// The append-only log of processed files, from which the resumption
/// watermark of each prefix is read.
#[derive(Debug)]
pub struct ProcessedLog {
    pub records: Vec<ProcessedFile>,
}

/// The watermark is the maximum timestamp recorded for the prefix: `None`
/// exactly when no file of the prefix was recorded, and otherwise the
/// timestamp of some record of the prefix that no other record of it exceeds.
pub proof fn lemma_latest_is_max(s: Seq<ProcessedFile>, prefix: Seq<char>)
    ensures
        latest_of(s, prefix) is None <==> forall|i: int|
            0 <= i < s.len() ==> #[trigger] s[i].prefix@ != prefix,
        latest_of(s, prefix) matches Some(m) ==> {
            &&& exists|i: int|
                0 <= i < s.len() && #[trigger] s[i].prefix@ == prefix && s[i].file_timestamp == m
            &&& forall|i: int|
                0 <= i < s.len() && #[trigger] s[i].prefix@ == prefix ==> s[i].file_timestamp <= m
        },
    decreases s.len(),
{
    if s.len() > 0 {
        let s0 = s.drop_last();
        lemma_latest_is_max(s0, prefix);
        assert forall|i: int| 0 <= i < s0.len() implies s0[i] == s[i] by {}
        let n = s.len() - 1;
        assert(s[n] == s.last());
        if latest_of(s0, prefix) is Some {
            let i0 = choose|i: int|
                0 <= i < s0.len() && #[trigger] s0[i].prefix@ == prefix && s0[i].file_timestamp
                    == latest_of(s0, prefix)->0;
            assert(s[i0].prefix@ == prefix);
        }
        if latest_of(s0, prefix) is None && s.last().prefix@ != prefix {
            assert forall|i: int| 0 <= i < s.len() implies #[trigger] s[i].prefix@ != prefix by {
                if i < n {
                    assert(s0[i].prefix@ != prefix);
                }
            }
        }
    }
}

/// Recording a file raises its prefix's watermark to the file's timestamp
/// when that is later, and leaves every other prefix's watermark as it was.
pub proof fn lemma_latest_after_record(s: Seq<ProcessedFile>, f: ProcessedFile, prefix: Seq<char>)
    ensures
        latest_of(s.push(f), prefix) == if f.prefix@ == prefix {
            raise(latest_of(s, prefix), f.file_timestamp)
        } else {
            latest_of(s, prefix)
        },
{
    assert(s.push(f).drop_last() =~= s);
}

/// Recording a file that is already recorded again changes no watermark:
/// importing a file twice only duplicates its record.
pub proof fn lemma_record_twice(s: Seq<ProcessedFile>, f: ProcessedFile, prefix: Seq<char>)
    ensures
        latest_of(s.push(f).push(f), prefix) == latest_of(s.push(f), prefix),
{
    lemma_latest_after_record(s, f, prefix);
    lemma_latest_after_record(s.push(f), f, prefix);
}

/// The later of two watermarks; a missing one yields the other.
pub open spec fn later_of(a: Option<Timestamp>, b: Option<Timestamp>) -> Option<Timestamp> {
    match b {
        Some(t) => raise(a, t),
        None => a,
    }
}

/// The watermark of a log made of two parts is the later of theirs.
pub proof fn lemma_latest_of_append(x: Seq<ProcessedFile>, y: Seq<ProcessedFile>, prefix: Seq<char>)
    ensures
        latest_of(x + y, prefix) == later_of(latest_of(x, prefix), latest_of(y, prefix)),
    decreases y.len(),
{
    if y.len() == 0 {
        assert(x + y =~= x);
    } else {
        lemma_latest_of_append(x, y.drop_last(), prefix);
        assert((x + y).drop_last() =~= x + y.drop_last());
        assert((x + y).last() == y.last());
    }
}

/// Records of other prefixes never matter to a prefix's watermark: adding
/// one anywhere in the log, or removing it, leaves the watermark as it was.
pub proof fn lemma_other_prefixes_ignored(
    a: Seq<ProcessedFile>,
    b: Seq<ProcessedFile>,
    other: ProcessedFile,
    prefix: Seq<char>,
)
    requires
        other.prefix@ != prefix,
    ensures
        latest_of(a + seq![other] + b, prefix) == latest_of(a + b, prefix),
{
    lemma_latest_of_append(a + seq![other], b, prefix);
    lemma_latest_of_append(a, b, prefix);
    assert(a + seq![other] =~= a.push(other));
    lemma_latest_after_record(a, other, prefix);
}

impl ProcessedLog {
    /// A log with no record.
    pub fn new() -> (r: ProcessedLog)
        ensures
            r.records@.len() == 0,
    {
        ProcessedLog { records: Vec::new() }
    }

    /// Appends the record of one imported file.
    pub fn record(&mut self, file_name: &str, prefix: &str, file_timestamp: Timestamp, processed_at: Timestamp)
        ensures
            final(self).records@ == old(self).records@.push(
                ProcessedFile {
                    file_name: final(self).records@.last().file_name,
                    prefix: final(self).records@.last().prefix,
                    file_timestamp,
                    processed_at,
                },
            ),
            final(self).records@.last().file_name@ == file_name@,
            final(self).records@.last().prefix@ == prefix@,
    {
        self.records.push(
            ProcessedFile {
                file_name: String::from_str(file_name),
                prefix: String::from_str(prefix),
                file_timestamp,
                processed_at,
            },
        );
    }

    /// The watermark of `prefix`: the latest file timestamp recorded for it,
    /// or `None` when no file of it was recorded.
    pub fn latest(&self, prefix: &str) -> (r: Option<Timestamp>)
        ensures
            r == latest_of(self.records@, prefix@),
    {
        let p = String::from_str(prefix);
        let mut best: Option<Timestamp> = None;
        let mut i: usize = 0;
        while i < self.records.len()
            invariant
                i <= self.records@.len(),
                p@ == prefix@,
                best == latest_of(self.records@.subrange(0, i as int), prefix@),
            decreases self.records@.len() - i,
        {
            let rec = &self.records[i];
            assert(self.records@.subrange(0, i + 1).drop_last() =~= self.records@.subrange(
                0,
                i as int,
            ));
            if rec.prefix == p {
                best = match best {
                    Some(m) => Some(if m >= rec.file_timestamp {
                        m
                    } else {
                        rec.file_timestamp
                    }),
                    None => Some(rec.file_timestamp),
                };
            }
            i = i + 1;
        }
        assert(self.records@.subrange(0, self.records@.len() as int) =~= self.records@);
        best
    }
}

} // verus!
