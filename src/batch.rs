//! The batch over many accessions: the distinct accessions of an input list,
//! their windows of bounded width, run one after another, and the failure
//! record of each accession that could not be completed.
use vstd::prelude::*;
use crate::accession::{trim_whitespace, trimmed};
use crate::fetch::FetchError;
use crate::pipeline::PipelineError;
use crate::resolve::ResolutionError;

verus! {

/// How many accessions run at once: the archive allows about three requests
/// per second.
pub const WINDOW_WIDTH: usize = 3;

/// Placeholder for the URL of a failure that has none.
pub const UNKNOWN_URL: &'static str = "Unknown URL";

/// The character sequences of a list of strings.
pub open spec fn views(v: Seq<String>) -> Seq<Seq<char>> {
    v.map_values(|s: String| s@)
}

/// Whether `x` is the accession of some input field: a field that is not
/// blank once trimmed.
pub open spec fn is_input_accession(fields: Seq<String>, x: Seq<char>) -> bool {
    x.len() > 0 && exists|j: int| 0 <= j < fields.len() && trimmed(#[trigger] fields[j]@) == x
}

fn contains_string(v: &Vec<String>, s: &String) -> (r: bool)
    ensures
        r == views(v@).contains(s@),
{
    let mut i: usize = 0;
    while i < v.len()
        invariant
            i <= v@.len(),
            forall|k: int| 0 <= k < i ==> v@[k]@ != s@,
        decreases v.len() - i,
    {
        if v[i] == *s {
            assert(views(v@)[i as int] == s@);
            return true;
        }
        i = i + 1;
    }
    proof {
        if views(v@).contains(s@) {
            let k = choose|k: int| 0 <= k < views(v@).len() && views(v@)[k] == s@;
            assert(v@[k]@ == s@);
        }
    }
    false
}

/// The accessions of an input list: each field trimmed, blank ones dropped,
/// each distinct accession kept once.
pub fn collect_accessions(fields: &Vec<String>) -> (r: Vec<String>)
    ensures
        views(r@).no_duplicates(),
        forall|x: Seq<char>| views(r@).contains(x) <==> is_input_accession(fields@, x),
{
    let mut out: Vec<String> = Vec::new();
    let mut i: usize = 0;
    while i < fields.len()
        invariant
            i <= fields@.len(),
            views(out@).no_duplicates(),
            forall|x: Seq<char>|
                views(out@).contains(x) <==> (x.len() > 0 && exists|j: int|
                    0 <= j < i && trimmed(#[trigger] fields@[j]@) == x),
        decreases fields.len() - i,
    {
        let t = trim_whitespace(fields[i].as_str());
        let s = String::from_str(t);
        let ghost before = out@;
        if s.unicode_len() > 0 && !contains_string(&out, &s) {
            out.push(s);
            assert(views(out@) =~= views(before).push(s@));
            assert(views(out@)[before.len() as int] == s@);
            assert forall|k: int| 0 <= k < before.len() implies views(out@)[k] == views(before)[k] by {}
        }
        assert forall|x: Seq<char>|
            views(out@).contains(x) <==> (x.len() > 0 && exists|j: int|
                0 <= j < i + 1 && trimmed(#[trigger] fields@[j]@) == x) by {
            if x.len() > 0 && trimmed(fields@[i as int]@) == x {
                assert(s@ == x);
                if out@.len() > before.len() {
                    assert(views(out@)[before.len() as int] == s@);
                }
                assert(views(out@).contains(s@));
            }
            if views(out@).contains(x) && !views(before).contains(x) {
                assert(x == s@);
            }
            if x.len() > 0 && (exists|j: int| 0 <= j < i && trimmed(#[trigger] fields@[j]@) == x) {
                assert(views(before).contains(x));
                let k = choose|k: int| 0 <= k < views(before).len() && views(before)[k] == x;
                assert(views(out@)[k] == x);
            }
        }
        i = i + 1;
    }
    proof {
        assert forall|x: Seq<char>|
            views(out@).contains(x) <==> is_input_accession(fields@, x) by {}
    }
    out
}

/// The end of window `k` over `n` items in windows of width `w`.
pub open spec fn window_end(n: int, w: int, k: int) -> int {
    if k * w + w <= n {
        k * w + w
    } else {
        n
    }
}

/// The number of windows of width `w` over `n` items: the least count whose
/// windows reach the end.
pub open spec fn window_count(n: int, w: int, count: int) -> bool {
    &&& count * w >= n
    &&& count > 0 ==> (count - 1) * w < n
}

/// Whether `r` splits `s` into consecutive windows of width `w`, left to
/// right, the last one possibly shorter.
pub open spec fn is_windowing(s: Seq<String>, w: int, r: Seq<Seq<String>>) -> bool {
    &&& window_count(s.len() as int, w, r.len() as int)
    &&& forall|k: int|
        0 <= k < r.len() ==> #[trigger] r[k] == s.subrange(k * w, window_end(s.len() as int, w, k))
}

/// Splits a list into consecutive windows of `width` items; the last window
/// holds what is left.
pub fn windows(items: &Vec<String>, width: usize) -> (r: Vec<Vec<String>>)
    requires
        width > 0,
    ensures
        is_windowing(items@, width as int, r@.map_values(|v: Vec<String>| v@)),
{
    let n = items.len();
    let mut r: Vec<Vec<String>> = Vec::new();
    let mut start: usize = 0;
    assert(r@.len() * width == 0) by (nonlinear_arith)
        requires
            r@.len() == 0,
    ;
    while start < n
        invariant
            n == items@.len(),
            width > 0,
            start <= n,
            start < n ==> start == r@.len() * width,
            window_count(start as int, width as int, r@.len() as int),
            start == n ==> window_count(n as int, width as int, r@.len() as int),
            forall|k: int|
                0 <= k < r@.len() ==> #[trigger] r@[k]@ == items@.subrange(
                    k * width,
                    window_end(n as int, width as int, k),
                ),
        decreases n - start,
    {
        let end = if n - start <= width {
            n
        } else {
            start + width
        };
        let mut w: Vec<String> = Vec::new();
        let mut j: usize = start;
        while j < end
            invariant
                start <= j <= end <= n,
                n == items@.len(),
                w@ == items@.subrange(start as int, j as int),
            decreases end - j,
        {
            w.push(items[j].clone());
            assert(w@ =~= items@.subrange(start as int, j + 1));
            j = j + 1;
        }
        let ghost k = r@.len() as int;
        proof {
            assert(start == k * width);
            assert((k + 1) * width == k * width + width) by (nonlinear_arith);
            assert(end == window_end(n as int, width as int, k));
        }
        r.push(w);
        start = end;
        proof {
            assert((k + 1) * width == k * width + width) by (nonlinear_arith);
            assert(k * width >= 0) by (nonlinear_arith)
                requires
                    k >= 0,
                    width > 0,
            ;
        }
    }
    proof {
        let rv = r@.map_values(|v: Vec<String>| v@);
        assert forall|k: int| 0 <= k < rv.len() implies #[trigger] rv[k] == items@.subrange(
            k * width,
            window_end(items@.len() as int, width as int, k),
        ) by {
            assert(rv[k] == r@[k]@);
        }
    }
    r
}

/// The URL that an accession's failure is attributed to, when it has one:
/// the listing that could not be read, or the download that failed.
pub open spec fn failing_url(e: PipelineError) -> Option<Seq<char>> {
    match e {
        PipelineError::Resolution(ResolutionError::DirectoryUnreachable { url }) => Some(url@),
        PipelineError::Resolution(ResolutionError::DirectoryUnavailable { url, .. }) => Some(url@),
        PipelineError::Fetch(FetchError::ExhaustedRetries { url, .. }) => Some(url@),
        PipelineError::Fetch(FetchError::BodyUnreadable { url }) => Some(url@),
        PipelineError::Fetch(FetchError::WriteFailed { url, .. }) => Some(url@),
        _ => None,
    }
}

/// The URL column of a failure record.
pub open spec fn reported_url(e: PipelineError) -> Seq<char> {
    match failing_url(e) {
        Some(u) => u,
        None => UNKNOWN_URL@,
    }
}

/// One row of the failure report: an accession and the URL that failed.
#[derive(Debug, Clone, PartialEq, Eq)]
pub struct FailureRecord {
    pub accession: String,
    pub url: String,
}

/// The failure record of an accession whose pipeline failed with `e`.
pub fn failure_record(accession: &String, e: &PipelineError) -> (r: FailureRecord)
    ensures
        r.accession == *accession,
        r.url@ == reported_url(*e),
{
    let url = match e {
        PipelineError::Resolution(ResolutionError::DirectoryUnreachable { url }) => url.clone(),
        PipelineError::Resolution(ResolutionError::DirectoryUnavailable { url, .. }) => url.clone(),
        PipelineError::Fetch(FetchError::ExhaustedRetries { url, .. }) => url.clone(),
        PipelineError::Fetch(FetchError::BodyUnreadable { url }) => url.clone(),
        PipelineError::Fetch(FetchError::WriteFailed { url, .. }) => url.clone(),
        _ => String::from_str(UNKNOWN_URL),
    };
    FailureRecord { accession: accession.clone(), url }
}

/// What a pipeline came to: its accession, or its accession and error.
pub type PipelineOutcome = Result<String, (String, PipelineError)>;

/// The accession that an outcome belongs to.
pub open spec fn outcome_accession(o: PipelineOutcome) -> String {
    match o {
        Ok(a) => a,
        Err((a, _)) => a,
    }
}

/// The failure records of a sequence of outcomes, in order: accession and
/// reported URL.
pub open spec fn failure_rows(os: Seq<PipelineOutcome>) -> Seq<(Seq<char>, Seq<char>)>
    decreases os.len(),
{
    if os.len() == 0 {
        Seq::empty()
    } else {
        failure_rows(os.drop_last()) + match os.last() {
            Ok(_) => Seq::empty(),
            Err((a, e)) => seq![(a@, reported_url(e))],
        }
    }
}

/// The accessions that succeeded among a sequence of outcomes, in order.
pub open spec fn successes(os: Seq<PipelineOutcome>) -> Seq<Seq<char>>
    decreases os.len(),
{
    if os.len() == 0 {
        Seq::empty()
    } else {
        successes(os.drop_last()) + match os.last() {
            Ok(a) => seq![a@],
            Err(_) => Seq::empty(),
        }
    }
}

/// The rows of a list of failure records.
pub open spec fn rows(v: Seq<FailureRecord>) -> Seq<(Seq<char>, Seq<char>)> {
    v.map_values(|f: FailureRecord| (f.accession@, f.url@))
}

/// A run over windows of accessions. A window is handed out only once every
/// pipeline of the window before it has reported its outcome.
#[derive(Debug, Clone, PartialEq, Eq)]
pub struct Batch {
    pub windows: Vec<Vec<String>>,
    /// How many windows have completed.
    pub next: usize,
    pub succeeded: Vec<String>,
    pub failures: Vec<FailureRecord>,
}

impl Batch {
    pub open spec fn wf(self) -> bool {
        self.next <= self.windows@.len()
    }

    /// The windows, as sequences of accessions.
    pub open spec fn window_seqs(self) -> Seq<Seq<String>> {
        self.windows@.map_values(|v: Vec<String>| v@)
    }

    /// Starts a run over a list of distinct accessions, in windows of
    /// `WINDOW_WIDTH`.
    pub fn new(accessions: &Vec<String>) -> (r: Batch)
        ensures
            r.wf(),
            r.next == 0,
            r.succeeded@.len() == 0,
            r.failures@.len() == 0,
            is_windowing(accessions@, WINDOW_WIDTH as int, r.window_seqs()),
    {
        Batch {
            windows: windows(accessions, WINDOW_WIDTH),
            next: 0,
            succeeded: Vec::new(),
            failures: Vec::new(),
        }
    }

    /// The window whose pipelines are to run now; `None` once every window
    /// has completed.
    pub fn current_window(&self) -> (r: Option<&Vec<String>>)
        requires
            self.wf(),
        ensures
            self.next < self.windows@.len() ==> r == Some(&self.windows@[self.next as int]),
            self.next >= self.windows@.len() ==> r is None,
    {
        if self.next < self.windows.len() {
            Some(&self.windows[self.next])
        } else {
            None
        }
    }

    /// Completes the current window with the outcome of each of its
    /// pipelines, in window order, and moves to the next window.
    pub fn complete_window(&mut self, outcomes: Vec<PipelineOutcome>)
        requires
            old(self).wf(),
            old(self).next < old(self).windows@.len(),
            outcomes@.len() == old(self).windows@[old(self).next as int]@.len(),
            forall|i: int|
                0 <= i < outcomes@.len() ==> outcome_accession(#[trigger] outcomes@[i])
                    == old(self).windows@[old(self).next as int]@[i],
        ensures
            final(self).wf(),
            final(self).windows == old(self).windows,
            final(self).next == old(self).next + 1,
            views(final(self).succeeded@) == views(old(self).succeeded@) + successes(outcomes@),
            rows(final(self).failures@) == rows(old(self).failures@) + failure_rows(outcomes@),
    {
        let ghost s0 = views(self.succeeded@);
        let ghost f0 = rows(self.failures@);
        let n = outcomes.len();
        let mut i: usize = 0;
        while i < n
            invariant
                n == outcomes@.len(),
                i <= n,
                self.windows == old(self).windows,
                self.next == old(self).next,
                self.next < self.windows@.len(),
                views(self.succeeded@) == s0 + successes(outcomes@.take(i as int)),
                rows(self.failures@) == f0 + failure_rows(outcomes@.take(i as int)),
            decreases n - i,
        {
            let ghost before_s = self.succeeded@;
            let ghost before_f = self.failures@;
            assert(outcomes@.take(i + 1).drop_last() =~= outcomes@.take(i as int));
            match &outcomes[i] {
                Ok(a) => {
                    self.succeeded.push(a.clone());
                    assert(views(self.succeeded@) =~= views(before_s).push(a@));
                    assert(rows(self.failures@) =~= rows(before_f));
                },
                Err((a, e)) => {
                    let rec = failure_record(a, e);
                    self.failures.push(rec);
                    assert(rows(self.failures@) =~= rows(before_f).push((a@, reported_url(*e))));
                    assert(views(self.succeeded@) =~= views(before_s));
                },
            }
            i = i + 1;
        }
        assert(outcomes@.take(n as int) =~= outcomes@);
        let count = self.windows.len();
        assert(self.next < count);
        self.next = self.next + 1;
    }
}

proof fn lemma_window_start_in_range(s: Seq<String>, w: int, r: Seq<Seq<String>>, k: int)
    requires
        w > 0,
        is_windowing(s, w, r),
        0 <= k < r.len(),
    ensures
        0 <= k * w < s.len(),
        k * w + w <= s.len() ==> r[k].len() == w,
        k * w + w > s.len() ==> r[k].len() == s.len() - k * w,
{
    assert(0 <= k * w <= (r.len() - 1) * w) by (nonlinear_arith)
        requires
            0 <= k <= r.len() - 1,
            w > 0,
    ;
    assert(r[k] == s.subrange(k * w, window_end(s.len() as int, w, k)));
}

proof fn lemma_item_in_window(s: Seq<String>, w: int, r: Seq<Seq<String>>, i: int)
    requires
        w > 0,
        is_windowing(s, w, r),
        0 <= i < s.len(),
    ensures
        i / w < r.len(),
        i % w < r[i / w].len(),
        s[i] == r[i / w][i % w],
{
    let k = i / w;
    let m = i % w;
    vstd::arithmetic::div_mod::lemma_fundamental_div_mod(i, w);
    assert(w * k == k * w) by (nonlinear_arith);
    assert(0 <= m < w);
    assert(k >= 0) by (nonlinear_arith)
        requires
            i >= 0,
            w > 0,
            k == i / w,
    ;
    if k >= r.len() {
        assert(k * w >= r.len() * w) by (nonlinear_arith)
            requires
                k >= r.len(),
                w > 0,
        ;
    }
    lemma_window_start_in_range(s, w, r, k);
    assert(r[k] == s.subrange(k * w, window_end(s.len() as int, w, k)));
    assert(r[k][m] == s[k * w + m]);
}

/// Whether the item at position `i` of `s` is item `i % w` of window `i / w`.
pub open spec fn placed(s: Seq<String>, w: int, r: Seq<Seq<String>>, i: int) -> bool {
    i / w < r.len() && i % w < r[i / w].len() && s[i] == r[i / w][i % w]
}

/// Whether item `j` of window `k` is the list's item `k * w + j`.
pub open spec fn drawn(s: Seq<String>, w: int, r: Seq<Seq<String>>, k: int, j: int) -> bool {
    k * w + j < s.len() && r[k][j] == s[k * w + j]
}

/// Each accession of a list runs in exactly one pipeline: in a windowing of
/// width `w`, the item at position `i` is item `i % w` of window `i / w`, and
/// every item of window `k` at position `j` is the list's item `k * w + j`.
pub proof fn lemma_windows_cover(s: Seq<String>, w: int, r: Seq<Seq<String>>)
    requires
        w > 0,
        is_windowing(s, w, r),
    ensures
        forall|i: int| 0 <= i < s.len() ==> #[trigger] placed(s, w, r, i),
        forall|k: int, j: int|
            0 <= k < r.len() && 0 <= j < r[k].len() ==> #[trigger] drawn(s, w, r, k, j),
{
    assert forall|i: int| 0 <= i < s.len() implies #[trigger] placed(s, w, r, i) by {
        lemma_item_in_window(s, w, r, i);
    }
    assert forall|k: int, j: int| 0 <= k < r.len() && 0 <= j < r[k].len() implies #[trigger] drawn(
        s,
        w,
        r,
        k,
        j,
    ) by {
        lemma_window_start_in_range(s, w, r, k);
        assert(r[k] == s.subrange(k * w, window_end(s.len() as int, w, k)));
    }
}

} // verus!
