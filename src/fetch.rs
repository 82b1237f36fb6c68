//! Decisions of a retrying download: after each attempt, whether to try
//! again, to stop with success, or to give up with an error.
use vstd::prelude::*;

verus! {

/// What one attempt at a download came to.
#[derive(Debug, Clone, PartialEq, Eq)]
pub enum FetchEvent {
    /// The request failed or answered with a status other than success.
    Failed,
    /// The response came, but its body could not be read.
    BodyUnreadable,
    /// The body was written to the destination.
    Saved,
    /// The body came but could not be written to the destination.
    WriteFailed,
}

/// Why a download did not complete.
#[derive(Debug, Clone, PartialEq, Eq)]
pub enum FetchError {
    /// Every allowed attempt failed; carries the URL and the number of attempts.
    ExhaustedRetries { url: String, attempts: u32 },
    /// The body of a successful response could not be read.
    BodyUnreadable { url: String },
    /// The body of `url` could not be written to the destination `path`.
    WriteFailed { url: String, path: String },
}

/// A download of one URL to one local path, with a bounded number of
/// immediate retries.
#[derive(Debug, Clone, PartialEq, Eq)]
pub struct RetryingFetch {
    pub url: String,
    pub path: String,
    pub max_attempts: u32,
    pub failed_attempts: u32,
    /// `None` while another attempt is due.
    pub outcome: Option<Result<(), FetchError>>,
}

/// A fetch that has made no attempt yet; with no attempt allowed it has
/// already given up.
pub open spec fn fresh_fetch(url: String, path: String, max_attempts: u32) -> RetryingFetch {
    RetryingFetch {
        url,
        path,
        max_attempts,
        failed_attempts: 0,
        outcome: if max_attempts == 0 {
            Some(Err(FetchError::ExhaustedRetries { url, attempts: 0 }))
        } else {
            None
        },
    }
}

impl RetryingFetch {
    pub open spec fn wf(self) -> bool {
        &&& self.failed_attempts <= self.max_attempts
        &&& self.outcome is None ==> self.failed_attempts < self.max_attempts
    }

    pub open spec fn is_pending_spec(self) -> bool {
        self.outcome is None
    }

    /// The state after one more attempt that came to `e`.
    pub open spec fn step(self, e: FetchEvent) -> RetryingFetch {
        match e {
            FetchEvent::Failed => {
                let failed = (self.failed_attempts + 1) as u32;
                RetryingFetch {
                    failed_attempts: failed,
                    outcome: if failed >= self.max_attempts {
                        Some(
                            Err(
                                FetchError::ExhaustedRetries {
                                    url: self.url,
                                    attempts: self.max_attempts,
                                },
                            ),
                        )
                    } else {
                        None
                    },
                    ..self
                }
            },
            FetchEvent::BodyUnreadable => RetryingFetch {
                outcome: Some(Err(FetchError::BodyUnreadable { url: self.url })),
                ..self
            },
            FetchEvent::Saved => RetryingFetch { outcome: Some(Ok(())), ..self },
            FetchEvent::WriteFailed => RetryingFetch {
                outcome: Some(Err(FetchError::WriteFailed { url: self.url, path: self.path })),
                ..self
            },
        }
    }

    /// The state after `n` failed attempts in a row.
    pub open spec fn after_failures(self, n: nat) -> RetryingFetch
        decreases n,
    {
        if n == 0 {
            self
        } else {
            self.after_failures((n - 1) as nat).step(FetchEvent::Failed)
        }
    }

    pub fn new(url: String, path: String, max_attempts: u32) -> (r: RetryingFetch)
        ensures
            r == fresh_fetch(url, path, max_attempts),
            r.wf(),
    {
        let outcome = if max_attempts == 0 {
            Some(Err(FetchError::ExhaustedRetries { url: url.clone(), attempts: 0 }))
        } else {
            None
        };
        RetryingFetch { url, path, max_attempts, failed_attempts: 0, outcome }
    }

    /// Whether another attempt is due.
    pub fn is_pending(&self) -> (r: bool)
        ensures
            r == self.is_pending_spec(),
    {
        self.outcome.is_none()
    }

    /// Records what the latest attempt came to. A failed attempt is retried
    /// at once while attempts remain; any other event ends the download.
    pub fn record(&mut self, e: FetchEvent)
        requires
            old(self).wf(),
            old(self).is_pending_spec(),
        ensures
            *final(self) == old(self).step(e),
            final(self).wf(),
    {
        match e {
            FetchEvent::Failed => {
                self.failed_attempts = self.failed_attempts + 1;
                if self.failed_attempts >= self.max_attempts {
                    self.outcome = Some(
                        Err(
                            FetchError::ExhaustedRetries {
                                url: self.url.clone(),
                                attempts: self.max_attempts,
                            },
                        ),
                    );
                }
            },
            FetchEvent::BodyUnreadable => {
                self.outcome = Some(Err(FetchError::BodyUnreadable { url: self.url.clone() }));
            },
            FetchEvent::Saved => {
                self.outcome = Some(Ok(()));
            },
            FetchEvent::WriteFailed => {
                self.outcome = Some(
                    Err(FetchError::WriteFailed { url: self.url.clone(), path: self.path.clone() }),
                );
            },
        }
    }

    /// The outcome of a finished download.
    pub fn into_outcome(self) -> (r: Result<(), FetchError>)
        requires
            !self.is_pending_spec(),
        ensures
            self.outcome == Some(r),
    {
        match self.outcome {
            Some(r) => r,
            None => Ok(()),
        }
    }
}

proof fn lemma_pending_after_failures(f: RetryingFetch, k: nat)
    requires
        f == fresh_fetch(f.url, f.path, f.max_attempts),
        k < f.max_attempts,
    ensures
        f.after_failures(k) == (RetryingFetch { failed_attempts: k as u32, ..f }),
        f.after_failures(k).outcome is None,
    decreases k,
{
    if k > 0 {
        lemma_pending_after_failures(f, (k - 1) as nat);
    }
}

/// With `n` attempts allowed, a download whose first `k < n` attempts fail
/// and whose next attempt is saved ends in success; one whose `n` attempts
/// all fail gives up with `ExhaustedRetries`, carrying its URL and `n`.
pub proof fn lemma_retry_outcomes(url: String, path: String, n: u32, k: nat)
    requires
        k < n,
    ensures
        fresh_fetch(url, path, n).after_failures(k).step(FetchEvent::Saved).outcome == Some(
            Ok::<(), FetchError>(()),
        ),
        fresh_fetch(url, path, n).after_failures(n as nat).outcome == Some(
            Err::<(), FetchError>(FetchError::ExhaustedRetries { url, attempts: n }),
        ),
{
    let f = fresh_fetch(url, path, n);
    lemma_pending_after_failures(f, k);
    lemma_pending_after_failures(f, (n - 1) as nat);
}

} // verus!
