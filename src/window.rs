use vstd::prelude::*;

use crate::error::ImportError;
use crate::key::{FileInfo, Timestamp, describes_key, is_parse_error};

verus! {

/// The time window of a run, as asked for: files strictly after `after` (or
/// after the prefix's watermark when `resume` holds), and at or before
/// `before`; or the one file named `file`.
#[derive(Debug, Clone, PartialEq, Eq, Default)]
pub struct TimeArgs {
    pub after: Option<Timestamp>,
    pub before: Option<Timestamp>,
    pub resume: bool,
    pub file: Option<String>,
}

/// The options conflict: continuing together with an explicit `after`, or an
/// explicit file together with any window bound or with continuing.
pub open spec fn conflicting(t: TimeArgs) -> bool {
    (t.resume && t.after is Some) || (t.file is Some && (t.after is Some || t.before is Some
        || t.resume))
}

/// What a run imports: the single file named, or the listing of a window.
#[derive(Debug, Clone, PartialEq, Eq)]
pub enum Selection {
    File(FileInfo),
    Window { after: Option<Timestamp>, before: Option<Timestamp> },
}

impl TimeArgs {
    /// Refuses conflicting options with `ImportError::TimeArgs`. Nothing but
    /// the options is consulted.
    pub fn validate(&self) -> (r: Result<(), ImportError>)
        ensures
            r is Err <==> conflicting(*self),
            r is Err ==> r == Err::<(), ImportError>(ImportError::TimeArgs),
    {
        if (self.resume && self.after.is_some()) || (self.file.is_some() && (self.after.is_some()
            || self.before.is_some() || self.resume)) {
            return Err(ImportError::TimeArgs);
        }
        Ok(())
    }

    /// Whether the run needs the prefix's watermark: only to continue.
    pub fn needs_watermark(&self) -> (r: bool)
        ensures
            r == self.resume,
    {
        self.resume
    }

    /// The lower bound of the window: the watermark `latest` when continuing,
    /// which must exist (else `ImportError::NoPriorImport`); otherwise `after`.
    pub fn after_utc(&self, latest: Option<Timestamp>) -> (r: Result<Option<Timestamp>, ImportError>)
        ensures
            self.resume ==> match latest {
                Some(t) => r == Ok::<Option<Timestamp>, ImportError>(Some(t)),
                None => r == Err::<Option<Timestamp>, ImportError>(ImportError::NoPriorImport),
            },
            !self.resume ==> r == Ok::<Option<Timestamp>, ImportError>(self.after),
    {
        if self.resume {
            match latest {
                Some(t) => Ok(Some(t)),
                None => Err(ImportError::NoPriorImport),
            }
        } else {
            Ok(self.after)
        }
    }

    /// The upper bound of the window, unchanged.
    pub fn before_utc(&self) -> (r: Option<Timestamp>)
        ensures
            r == self.before,
    {
        self.before
    }

    /// Decides what the run imports, given the prefix's watermark `latest`
    /// (consulted only when continuing). Conflicting options are refused with
    /// `ImportError::TimeArgs` whatever the watermark; a named file is parsed
    /// and imported alone, bypassing the listing.
    pub fn selection(&self, latest: Option<Timestamp>) -> (r: Result<Selection, ImportError>)
        ensures
            conflicting(*self) ==> r == Err::<Selection, ImportError>(ImportError::TimeArgs),
            !conflicting(*self) ==> match self.file {
                Some(k) => match r {
                    Ok(Selection::File(f)) => f.key@ == k@ && describes_key(f),
                    Ok(Selection::Window { .. }) => false,
                    Err(ImportError::S3(e)) => is_parse_error(k@, e),
                    Err(_) => false,
                },
                None => match (self.resume, latest) {
                    (true, None) => r == Err::<Selection, ImportError>(ImportError::NoPriorImport),
                    (true, Some(t)) => r == Ok::<Selection, ImportError>(
                        Selection::Window { after: Some(t), before: self.before },
                    ),
                    (false, _) => r == Ok::<Selection, ImportError>(
                        Selection::Window { after: self.after, before: self.before },
                    ),
                },
            },
    {
        self.validate()?;
        match &self.file {
            Some(k) => match FileInfo::parse(k.as_str()) {
                Ok(f) => Ok(Selection::File(f)),
                Err(e) => Err(ImportError::S3(e)),
            },
            None => {
                let after = self.after_utc(latest)?;
                Ok(Selection::Window { after, before: self.before_utc() })
            },
        }
    }
}

} // verus!
