use vstd::prelude::*;

use crate::error::S3Error;
use crate::progress::{ProcessedFile, latest_of, lemma_latest_is_max};
use crate::key::{
    FileInfo, Timestamp, describes_key, digits_value, is_key_of, is_parse_error, key_parses,
    lemma_parse_error_iff,
};

verus! {

/// `f` lies in the window: strictly after `after`, and at or before `before`.
pub open spec fn in_window(f: FileInfo, after: Option<Timestamp>, before: Option<Timestamp>) -> bool {
    &&& (after is Some ==> f.timestamp > after->0)
    &&& (before is Some ==> f.timestamp <= before->0)
}

/// The files of `s` that lie in the window, in their order.
pub open spec fn window_of(s: Seq<FileInfo>, after: Option<Timestamp>, before: Option<Timestamp>) -> Seq<
    FileInfo,
>
    decreases s.len(),
{
    if s.len() == 0 {
        Seq::empty()
    } else if in_window(s.last(), after, before) {
        window_of(s.drop_last(), after, before).push(s.last())
    } else {
        window_of(s.drop_last(), after, before)
    }
}

/// Every file that `window_of` keeps is one of the input and lies in the window.
pub proof fn lemma_window_of(s: Seq<FileInfo>, after: Option<Timestamp>, before: Option<Timestamp>)
    ensures
        window_of(s, after, before).len() <= s.len(),
        forall|i: int|
            0 <= i < window_of(s, after, before).len() ==> #[trigger] in_window(
                window_of(s, after, before)[i],
                after,
                before,
            ) && s.contains(window_of(s, after, before)[i]),
    decreases s.len(),
{
    if s.len() > 0 {
        lemma_window_of(s.drop_last(), after, before);
        let w = window_of(s, after, before);
        let w0 = window_of(s.drop_last(), after, before);
        assert forall|i: int| 0 <= i < w.len() implies #[trigger] in_window(w[i], after, before)
            && s.contains(w[i]) by {
            if i < w0.len() {
                assert(in_window(w0[i], after, before));
                let j = choose|j: int| 0 <= j < s.drop_last().len() && s.drop_last()[j] == w0[i];
                assert(s[j] == w0[i]);
            } else {
                assert(s[s.len() - 1] == s.last());
            }
        }
    }
}

/// A listing that continues from a prefix's watermark returns no file at or
/// before any file already recorded for that prefix: every file in the window
/// after `latest_of(records, prefix)` is later than each recorded timestamp.
pub proof fn lemma_continue_skips_recorded(
    records: Seq<ProcessedFile>,
    prefix: Seq<char>,
    files: Seq<FileInfo>,
    before: Option<Timestamp>,
)
    requires
        latest_of(records, prefix) is Some,
    ensures
        forall|i: int, j: int|
            0 <= i < window_of(files, latest_of(records, prefix), before).len() && 0 <= j
                < records.len() && records[j].prefix@ == prefix ==> #[trigger] window_of(
                files,
                latest_of(records, prefix),
                before,
            )[i].timestamp > #[trigger] records[j].file_timestamp,
{
    let after = latest_of(records, prefix);
    lemma_latest_is_max(records, prefix);
    lemma_window_of(files, after, before);
    assert forall|i: int, j: int|
        0 <= i < window_of(files, after, before).len() && 0 <= j < records.len()
            && records[j].prefix@ == prefix implies #[trigger] window_of(files, after, before)[i].timestamp
        > #[trigger] records[j].file_timestamp by {
        assert(in_window(window_of(files, after, before)[i], after, before));
    }
}

/// One listing request: the prefix to list and the continuation token of the
/// page to fetch, if any. No start key is sent: keys order by text, not by
/// time (`foo.100.gz` sorts before `foo.99.gz`), so a start key could hide
/// later files. The window is applied to the listed files instead.
#[derive(Debug, Clone, PartialEq, Eq)]
pub struct ListRequest {
    pub prefix: String,
    pub continuation: Option<String>,
}

/// A paginated listing in progress: the files of the pages received so far,
/// and the token of the next page.
#[derive(Debug)]
pub struct Listing {
    pub prefix: String,
    pub after: Option<Timestamp>,
    pub before: Option<Timestamp>,
    pub files: Vec<FileInfo>,
    pub token: Option<String>,
    pub started: bool,
}

impl Listing {
    /// A listing of `prefix` that has received no page yet.
    pub fn new(prefix: &str, after: Option<Timestamp>, before: Option<Timestamp>) -> (r: Listing)
        ensures
            r.prefix@ == prefix@,
            r.after == after,
            r.before == before,
            r.files@.len() == 0,
            r.token is None,
            !r.started,
    {
        Listing {
            prefix: String::from_str(prefix),
            after,
            before,
            files: Vec::new(),
            token: None,
            started: false,
        }
    }

    /// The next page to request: the first page, then each page whose
    /// continuation token the store handed back; `None` once it hands back none.
    pub fn next_request(&self) -> (r: Option<ListRequest>)
        ensures
            r is Some <==> (!self.started || self.token is Some),
            r matches Some(q) ==> {
                &&& q.prefix@ == self.prefix@
                &&& q.continuation is Some <==> self.token is Some
                &&& self.token matches Some(c) ==> q.continuation->0@ == c@
            },
    {
        if self.started && self.token.is_none() {
            return None;
        }
        let continuation = match &self.token {
            Some(c) => Some(c.clone()),
            None => None,
        };
        Some(ListRequest { prefix: self.prefix.clone(), continuation })
    }

    /// Takes in one page of keys and the continuation token that came with it.
    /// Every key is parsed; the first malformed key aborts the listing with its
    /// parse error, since an incomplete listing could skip files.
    pub fn on_page(&mut self, keys: &Vec<String>, next_token: Option<String>) -> (r: Result<
        (),
        S3Error,
    >)
        ensures
            r is Ok <==> forall|i: int| 0 <= i < keys@.len() ==> #[trigger] key_parses(keys@[i]@),
            r matches Err(e) ==> exists|i: int|
                0 <= i < keys@.len() && #[trigger] is_parse_error(keys@[i]@, e) && forall|j: int|
                    0 <= j < i ==> #[trigger] key_parses(keys@[j]@),
            r is Ok ==> {
                &&& final(self).prefix == old(self).prefix
                &&& final(self).after == old(self).after
                &&& final(self).before == old(self).before
                &&& final(self).token == next_token
                &&& final(self).started
                &&& final(self).files@.len() == old(self).files@.len() + keys@.len()
                &&& final(self).files@.subrange(0, old(self).files@.len() as int)
                    == old(self).files@
                &&& forall|i: int|
                    0 <= i < keys@.len() ==> {
                        let f = #[trigger] final(self).files@[old(self).files@.len() + i];
                        f.key@ == keys@[i]@ && describes_key(f)
                    }
            },
    {
        let ghost start = self.files@;
        let mut i: usize = 0;
        while i < keys.len()
            invariant
                i <= keys@.len(),
                self.prefix == old(self).prefix,
                self.after == old(self).after,
                self.before == old(self).before,
                self.token == old(self).token,
                self.started == old(self).started,
                self.files@.len() == start.len() + i,
                self.files@.subrange(0, start.len() as int) == start,
                start == old(self).files@,
                forall|j: int| 0 <= j < i ==> #[trigger] key_parses(keys@[j]@),
                forall|j: int|
                    0 <= j < i ==> {
                        let f = #[trigger] self.files@[start.len() + j];
                        f.key@ == keys@[j]@ && describes_key(f)
                    },
            decreases keys@.len() - i,
        {
            match FileInfo::parse(keys[i].as_str()) {
                Ok(f) => {
                    proof {
                        let d = choose|d: Seq<char>|
                            #[trigger] is_key_of(f.key@, f.prefix@, d) && digits_value(d)
                                == f.timestamp as int;
                        assert(is_key_of(keys@[i as int]@, f.prefix@, d));
                    }
                    let ghost before_push = self.files@;
                    self.files.push(f);
                    assert(self.files@.subrange(0, start.len() as int) =~= before_push.subrange(
                        0,
                        start.len() as int,
                    ));
                    assert forall|j: int| 0 <= j <= i implies {
                        let g = #[trigger] self.files@[start.len() + j];
                        g.key@ == keys@[j]@ && describes_key(g)
                    } by {
                        if j < i {
                            assert(self.files@[start.len() + j] == before_push[start.len() + j]);
                        }
                    }
                },
                Err(e) => {
                    proof {
                        lemma_parse_error_iff(keys@[i as int]@, e);
                    }
                    return Err(e);
                },
            }
            i = i + 1;
        }
        self.token = next_token;
        self.started = true;
        Ok(())
    }

    /// The files received so far that lie in the window, in listing order:
    /// none at or before `after`, none after `before`.
    pub fn finish(&self) -> (r: Vec<FileInfo>)
        ensures
            r@ == window_of(self.files@, self.after, self.before),
            forall|i: int|
                0 <= i < r@.len() ==> (self.before matches Some(b) ==> #[trigger] r@[i].timestamp
                    <= b),
            forall|i: int|
                0 <= i < r@.len() ==> (self.after matches Some(a) ==> #[trigger] r@[i].timestamp
                    > a),
    {
        select_window(&self.files, self.after, self.before)
    }
}

/// The files of `files` strictly after `after` and at or before `before`, in
/// their order.
pub fn select_window(files: &Vec<FileInfo>, after: Option<Timestamp>, before: Option<Timestamp>) -> (r:
    Vec<FileInfo>)
    ensures
        r@ == window_of(files@, after, before),
        forall|i: int|
            0 <= i < r@.len() ==> (before matches Some(b) ==> #[trigger] r@[i].timestamp <= b),
        forall|i: int|
            0 <= i < r@.len() ==> (after matches Some(a) ==> #[trigger] r@[i].timestamp > a),
{
    let mut out: Vec<FileInfo> = Vec::new();
    let mut i: usize = 0;
    while i < files.len()
        invariant
            i <= files@.len(),
            out@ == window_of(files@.subrange(0, i as int), after, before),
        decreases files@.len() - i,
    {
        let f = &files[i];
        let keep = match after {
            Some(a) => f.timestamp > a,
            None => true,
        } && match before {
            Some(b) => f.timestamp <= b,
            None => true,
        };
        let ghost pre = files@.subrange(0, i as int);
        assert(files@.subrange(0, i + 1).drop_last() =~= pre);
        if keep {
            out.push(f.copy());
        }
        i = i + 1;
    }
    assert(files@.subrange(0, files@.len() as int) =~= files@);
    proof {
        lemma_window_of(files@, after, before);
        assert forall|i: int| 0 <= i < out@.len() implies in_window(out@[i], after, before) by {
            assert(in_window(window_of(files@, after, before)[i], after, before));
        }
    }
    out
}

} // verus!
