//! One accession's pipeline: the files it downloads once its directory is
//! resolved, and the all-or-nothing rule over those downloads.
use vstd::prelude::*;
use crate::fetch::FetchError;
use crate::resolve::{ResolutionError, Resolved};

verus! {

/// Suffix of an assembly's genomic sequence file.
pub const GENOMIC_SUFFIX: &'static str = "_genomic.fna.gz";

/// Suffix of an assembly's protein sequence file.
pub const PROTEIN_SUFFIX: &'static str = "_protein.faa.gz";

/// The checksum manifest that each assembly directory holds.
pub const CHECKSUMS_FILE: &'static str = "md5checksums.txt";

/// Whether a file name is one plain part of a path: not empty, not `.` or
/// `..`, and free of separators (`/`, `\\`) and of the `:` of a drive.
pub open spec fn is_plain_name(n: Seq<char>) -> bool {
    &&& n.len() > 0
    &&& n != seq!['.']
    &&& n != seq!['.', '.']
    &&& !n.contains('/')
    &&& !n.contains('\\')
    &&& !n.contains(':')
}

/// Whether a name is a relative path on every platform: it does not start
/// with `/`, and holds no `\\` and no `:` (so no root and no drive).
pub open spec fn is_relative_name(n: Seq<char>) -> bool {
    &&& !(n.len() > 0 && n[0] == '/')
    &&& !n.contains('\\')
    &&& !n.contains(':')
}

/// Whether a directory is written with `/` alone and names no drive.
pub open spec fn is_simple_dir(d: Seq<char>) -> bool {
    !d.contains('\\') && !d.contains(':')
}

/// Whether `r` is `name` pushed onto `dir`: the name itself under an empty
/// directory, appended directly after a trailing `/`, and otherwise after
/// one separator.
pub open spec fn joined_as(dir: Seq<char>, name: Seq<char>, r: Seq<char>) -> bool {
    if dir.len() == 0 {
        r == name
    } else if dir.last() == '/' {
        r == dir + name
    } else {
        r == dir + seq!['/'] + name || r == dir + seq!['\\'] + name
    }
}

/// Relies on `camino::Utf8Path::join`, which adjoins `name` to `dir` as
/// `PathBuf::push` does. A relative name is appended as it is: after the
/// platform's separator unless `dir` is empty or already ends in a
/// separator. Only a Windows verbatim directory (which holds a `\\`) has the
/// result rebuilt from its parts; a plain name still ends it.
#[verifier::external_body]
fn join_path(dir: &str, name: &str) -> (r: String)
    ensures
        is_simple_dir(dir@) && is_relative_name(name@) ==> joined_as(dir@, name@, r@),
        is_plain_name(name@) ==> name@.is_suffix_of(r@),
{
    camino::Utf8Path::new(dir).join(name).into_string()
}

/// One file to download: where from, and where to.
#[derive(Debug, Clone, PartialEq, Eq)]
pub struct DownloadTarget {
    pub url: String,
    pub path: String,
}

/// The URLs of an assembly's files, in download order: the files named after
/// the directory, then the standalone manifest.
pub open spec fn target_urls(base: Seq<char>, name: Seq<char>) -> Seq<Seq<char>> {
    seq![
        base + seq!['/'] + name + GENOMIC_SUFFIX@,
        base + seq!['/'] + name + PROTEIN_SUFFIX@,
        base + seq!['/'] + CHECKSUMS_FILE@,
    ]
}

/// The local file names of an accession's files, in the same order.
pub open spec fn target_files(accession: Seq<char>) -> Seq<Seq<char>> {
    seq![
        accession + GENOMIC_SUFFIX@,
        accession + PROTEIN_SUFFIX@,
        accession + seq!['_'] + CHECKSUMS_FILE@,
    ]
}

fn concat3(a: &str, b: &str, c: &str) -> (r: String)
    ensures
        r@ == a@ + b@ + c@,
{
    let mut s = String::from_str(a);
    s.append(b);
    s.append(c);
    s
}

/// Whether `ts` are the downloads of an accession whose directory is
/// `resolved`: the URLs in order, each saved as its file name pushed onto
/// `dir`.
pub open spec fn planned(
    accession: Seq<char>,
    dir: Seq<char>,
    resolved: Resolved,
    ts: Seq<DownloadTarget>,
) -> bool {
    &&& ts.len() == 3
    &&& forall|i: int|
        0 <= i < 3 ==> {
            &&& #[trigger] ts[i].url@ == target_urls(resolved.url@, resolved.name@)[i]
            &&& is_simple_dir(dir) && is_relative_name(target_files(accession)[i]) ==> joined_as(
                dir,
                target_files(accession)[i],
                ts[i].path@,
            )
            &&& is_plain_name(target_files(accession)[i]) ==> target_files(accession)[i].is_suffix_of(
                ts[i].path@,
            )
        }
}

/// The files to download for an accession whose directory is `resolved`,
/// each saved under `dir`.
pub fn download_targets(accession: &str, dir: &str, resolved: &Resolved) -> (r: Vec<DownloadTarget>)
    ensures
        planned(accession@, dir@, *resolved, r@),
{
    proof {
        reveal_strlit("/");
        reveal_strlit("_");
    }
    let mut base = resolved.url.clone();
    base.append("/");
    let genomic_url = concat3(base.as_str(), resolved.name.as_str(), GENOMIC_SUFFIX);
    let protein_url = concat3(base.as_str(), resolved.name.as_str(), PROTEIN_SUFFIX);
    let checksums_url = concat3(base.as_str(), CHECKSUMS_FILE, "");
    let genomic_file = concat3(accession, GENOMIC_SUFFIX, "");
    let protein_file = concat3(accession, PROTEIN_SUFFIX, "");
    let checksums_file = concat3(accession, "_", CHECKSUMS_FILE);
    proof {
        reveal_strlit("");
        assert(checksums_url@ =~= resolved.url@ + seq!['/'] + CHECKSUMS_FILE@);
        assert(genomic_file@ =~= accession@ + GENOMIC_SUFFIX@);
        assert(protein_file@ =~= accession@ + PROTEIN_SUFFIX@);
        assert(checksums_file@ =~= target_files(accession@)[2]);
    }
    let r = vec![
        DownloadTarget { url: genomic_url, path: join_path(dir, genomic_file.as_str()) },
        DownloadTarget { url: protein_url, path: join_path(dir, protein_file.as_str()) },
        DownloadTarget { url: checksums_url, path: join_path(dir, checksums_file.as_str()) },
    ];
    proof {
        let urls = target_urls(resolved.url@, resolved.name@);
        let files = target_files(accession@);
        assert(files[0] == genomic_file@ && files[1] == protein_file@);
        assert(urls[0] =~= genomic_url@ && urls[1] =~= protein_url@ && urls[2] =~= checksums_url@);
        assert forall|i: int| 0 <= i < 3 implies {
            &&& #[trigger] r@[i].url@ == urls[i]
            &&& is_simple_dir(dir@) && is_relative_name(files[i]) ==> joined_as(dir@, files[i], r@[i].path@)
            &&& is_plain_name(files[i]) ==> files[i].is_suffix_of(r@[i].path@)
        } by {
            if i == 0 {
            } else if i == 1 {
            } else {
            }
        }
    }
    r
}

/// Different names pushed onto one directory give different paths.
pub proof fn lemma_joined_distinct(dir: Seq<char>, n1: Seq<char>, n2: Seq<char>, p1: Seq<char>, p2: Seq<
    char,
>)
    requires
        joined_as(dir, n1, p1),
        joined_as(dir, n2, p2),
        n1 != n2,
    ensures
        p1 != p2,
{
    if p1 == p2 {
        if dir.len() == 0 {
        } else if dir.last() == '/' {
            assert(n1 =~= p1.skip(dir.len() as int));
            assert(n2 =~= p2.skip(dir.len() as int));
        } else {
            assert(p1[dir.len() as int] == p2[dir.len() as int]);
            assert(n1 =~= p1.skip(dir.len() as int + 1));
            assert(n2 =~= p2.skip(dir.len() as int + 1));
        }
    }
}

/// Distinct accessions never write the same file: under one directory
/// written with `/` alone, the file of each kind of two different
/// accessions lands on two different paths, whenever both file names are
/// relative.
pub proof fn lemma_distinct_accession_paths(
    a: Seq<char>,
    b: Seq<char>,
    dir: Seq<char>,
    ra: Resolved,
    rb: Resolved,
    ta: Seq<DownloadTarget>,
    tb: Seq<DownloadTarget>,
    i: int,
)
    requires
        a != b,
        0 <= i < 3,
        planned(a, dir, ra, ta),
        planned(b, dir, rb, tb),
        is_simple_dir(dir),
        is_relative_name(target_files(a)[i]),
        is_relative_name(target_files(b)[i]),
    ensures
        ta[i].path@ != tb[i].path@,
{
    let fa = target_files(a)[i];
    let fb = target_files(b)[i];
    assert(ta[i].url@ == target_urls(ra.url@, ra.name@)[i]);
    assert(tb[i].url@ == target_urls(rb.url@, rb.name@)[i]);
    if fa == fb {
        let k: int = if i == 2 {
            1 + CHECKSUMS_FILE@.len() as int
        } else if i == 0 {
            GENOMIC_SUFFIX@.len() as int
        } else {
            PROTEIN_SUFFIX@.len() as int
        };
        assert(a =~= fa.take(fa.len() - k));
        assert(b =~= fb.take(fb.len() - k));
    }
    lemma_joined_distinct(dir, fa, fb, ta[i].path@, tb[i].path@);
}

/// Why an accession's pipeline failed.
#[derive(Debug, Clone, PartialEq, Eq)]
pub enum PipelineError {
    Resolution(ResolutionError),
    Fetch(FetchError),
}

/// The downloads of one resolved accession, in order, stopping at the first
/// failure.
#[derive(Debug, Clone, PartialEq, Eq)]
pub struct Pipeline {
    pub accession: String,
    pub targets: Vec<DownloadTarget>,
    /// How many downloads have succeeded.
    pub completed: usize,
    pub failure: Option<PipelineError>,
}

impl Pipeline {
    pub open spec fn wf(self) -> bool {
        self.completed <= self.targets@.len()
    }

    /// Whether another download is due: none has failed and some remain.
    pub open spec fn is_pending_spec(self) -> bool {
        self.failure is None && self.completed < self.targets@.len()
    }

    pub fn new(accession: String, targets: Vec<DownloadTarget>) -> (r: Pipeline)
        ensures
            r.accession == accession,
            r.targets == targets,
            r.completed == 0,
            r.failure is None,
            r.wf(),
    {
        Pipeline { accession, targets, completed: 0, failure: None }
    }

    /// The download that is due next, if any.
    pub fn current(&self) -> (r: Option<&DownloadTarget>)
        requires
            self.wf(),
        ensures
            self.is_pending_spec() ==> r == Some(&self.targets@[self.completed as int]),
            !self.is_pending_spec() ==> r is None,
    {
        if self.failure.is_none() && self.completed < self.targets.len() {
            Some(&self.targets[self.completed])
        } else {
            None
        }
    }

    /// Records the result of the download that was due: a success moves on
    /// to the next, a failure ends the pipeline.
    pub fn record(&mut self, result: Result<(), FetchError>)
        requires
            old(self).wf(),
            old(self).is_pending_spec(),
        ensures
            final(self).wf(),
            final(self).accession == old(self).accession,
            final(self).targets == old(self).targets,
            match result {
                Ok(()) => {
                    &&& final(self).completed == old(self).completed + 1
                    &&& final(self).failure is None
                },
                Err(e) => {
                    &&& final(self).completed == old(self).completed
                    &&& final(self).failure == Some(PipelineError::Fetch(e))
                },
            },
    {
        match result {
            Ok(()) => {
                let n = self.targets.len();
                assert(self.completed < n);
                self.completed = self.completed + 1;
            },
            Err(e) => {
                self.failure = Some(PipelineError::Fetch(e));
            },
        }
    }

    /// The accession's outcome once no download is due: success only when
    /// every download succeeded, else the error that stopped it.
    pub fn finish(self) -> (r: Result<String, (String, PipelineError)>)
        requires
            self.wf(),
            !self.is_pending_spec(),
        ensures
            match r {
                Ok(a) => a == self.accession && self.failure is None && self.completed
                    == self.targets@.len(),
                Err((a, e)) => a == self.accession && self.failure == Some(e),
            },
    {
        match self.failure {
            None => Ok(self.accession),
            Some(e) => Err((self.accession, e)),
        }
    }
}

/// Starts an accession's pipeline once its resolution is known: a failed
/// resolution is the accession's failure; otherwise its downloads are
/// planned under `dir`.
pub fn start_pipeline(accession: &str, dir: &str, resolution: Result<Resolved, ResolutionError>) -> (r:
    Result<Pipeline, (String, PipelineError)>)
    ensures
        match resolution {
            Err(e) => match r {
                Err((a, f)) => a@ == accession@ && f == PipelineError::Resolution(e),
                Ok(_) => false,
            },
            Ok(d) => match r {
                Ok(p) => {
                    &&& p.accession@ == accession@
                    &&& p.completed == 0
                    &&& p.failure is None
                    &&& p.wf()
                    &&& planned(accession@, dir@, d, p.targets@)
                },
                Err(_) => false,
            },
        },
{
    match resolution {
        Err(e) => Err((String::from_str(accession), PipelineError::Resolution(e))),
        Ok(d) => {
            let targets = download_targets(accession, dir, &d);
            Ok(Pipeline::new(String::from_str(accession), targets))
        },
    }
}

} // verus!
