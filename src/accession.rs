//! Accession strings (`DB_NUMBER[.VERSION]`) and the archive's sharded
//! directory layout.
use vstd::prelude::*;
use crate::text::{first_index, index_of, slice_string, lemma_find_from_bounds};

verus! {

/// Root of the archive's tree of assembly directories.
pub const ARCHIVE_ROOT: &'static str = "https://ftp.ncbi.nlm.nih.gov/genomes/all";

/// Whether a character has the Unicode property `White_Space`.
pub open spec fn is_white_space(c: char) -> bool {
    let u = c as u32;
    (0x9 <= u <= 0xd) || u == 0x20 || u == 0x85 || u == 0xa0 || u == 0x1680 || (0x2000 <= u
        <= 0x200a) || u == 0x2028 || u == 0x2029 || u == 0x202f || u == 0x205f || u == 0x3000
}

/// A string without its leading and trailing white space.
pub open spec fn trimmed(s: Seq<char>) -> Seq<char>
    decreases s.len(),
{
    if s.len() > 0 && is_white_space(s[0]) {
        trimmed(s.drop_first())
    } else if s.len() > 0 && is_white_space(s.last()) {
        trimmed(s.drop_last())
    } else {
        s
    }
}

/// Whether `r` is a run of consecutive characters of `s`.
pub open spec fn is_slice_of(r: Seq<char>, s: Seq<char>) -> bool {
    exists|i: int, j: int| 0 <= i <= j <= s.len() && r == s.subrange(i, j)
}

/// A run of the characters of `s` holds no character that `s` lacks.
pub proof fn lemma_slice_keeps_absence(r: Seq<char>, s: Seq<char>, c: char)
    requires
        is_slice_of(r, s),
        !s.contains(c),
    ensures
        !r.contains(c),
{
    let (i, j) = choose|i: int, j: int| 0 <= i <= j <= s.len() && r == s.subrange(i, j);
    if r.contains(c) {
        let k = choose|k: int| 0 <= k < r.len() && r[k] == c;
        assert(s[i + k] == c);
    }
}

/// Trimming keeps a run of consecutive characters.
pub proof fn lemma_trimmed_is_slice(s: Seq<char>)
    ensures
        is_slice_of(trimmed(s), s),
    decreases s.len(),
{
    if s.len() > 0 && is_white_space(s[0]) {
        let t = s.drop_first();
        lemma_trimmed_is_slice(t);
        let (i, j) = choose|i: int, j: int| 0 <= i <= j <= t.len() && trimmed(t) == t.subrange(i, j);
        assert(trimmed(s) =~= s.subrange(i + 1, j + 1));
    } else if s.len() > 0 && is_white_space(s.last()) {
        let t = s.drop_last();
        lemma_trimmed_is_slice(t);
        let (i, j) = choose|i: int, j: int| 0 <= i <= j <= t.len() && trimmed(t) == t.subrange(i, j);
        assert(trimmed(s) =~= s.subrange(i, j));
    } else {
        assert(trimmed(s) =~= s.subrange(0, s.len() as int));
    }
}

proof fn lemma_trim_leading(s: Seq<char>, i: int)
    requires
        0 <= i <= s.len(),
        forall|k: int| 0 <= k < i ==> is_white_space(#[trigger] s[k]),
    ensures
        trimmed(s) == trimmed(s.skip(i)),
    decreases i,
{
    if i == 0 {
        assert(s.skip(0) =~= s);
    } else {
        let t = s.drop_first();
        assert forall|k: int| 0 <= k < i - 1 implies is_white_space(#[trigger] t[k]) by {
            assert(t[k] == s[k + 1]);
        }
        lemma_trim_leading(t, i - 1);
        assert(t.skip(i - 1) =~= s.skip(i));
    }
}

proof fn lemma_trim_trailing(t: Seq<char>, j: int)
    requires
        0 < j <= t.len(),
        !is_white_space(t[0]),
        forall|k: int| j <= k < t.len() ==> is_white_space(#[trigger] t[k]),
    ensures
        trimmed(t) == trimmed(t.take(j)),
    decreases t.len() - j,
{
    if j == t.len() {
        assert(t.take(j) =~= t);
    } else {
        let u = t.drop_last();
        assert(is_white_space(t[t.len() - 1]));
        lemma_trim_trailing(u, j);
        assert(u.take(j) =~= t.take(j));
    }
}

/// Whether a character has the Unicode property `White_Space`.
pub fn white_space(c: char) -> (r: bool)
    ensures
        r == is_white_space(c),
{
    let u = c as u32;
    (0x9 <= u && u <= 0xd) || u == 0x20 || u == 0x85 || u == 0xa0 || u == 0x1680 || (0x2000 <= u
        && u <= 0x200a) || u == 0x2028 || u == 0x2029 || u == 0x202f || u == 0x205f || u == 0x3000
}

/// A string without its leading and trailing white space.
pub fn trim_whitespace(s: &str) -> (r: &str)
    ensures
        r@ == trimmed(s@),
{
    let n = s.unicode_len();
    let mut i: usize = 0;
    while i < n && white_space(s.get_char(i))
        invariant
            n == s@.len(),
            i <= n,
            forall|k: int| 0 <= k < i ==> is_white_space(#[trigger] s@[k]),
        decreases n - i,
    {
        i = i + 1;
    }
    let mut j: usize = n;
    while j > i && white_space(s.get_char(j - 1))
        invariant
            n == s@.len(),
            i <= j <= n,
            forall|k: int| j <= k < n ==> is_white_space(#[trigger] s@[k]),
        decreases j,
    {
        j = j - 1;
    }
    proof {
        lemma_trim_leading(s@, i as int);
        let t = s@.skip(i as int);
        if i < n {
            assert(!is_white_space(s@[i as int]));
            assert(j > i);
            assert forall|k: int| j - i <= k < t.len() implies is_white_space(#[trigger] t[k]) by {
                assert(t[k] == s@[k + i]);
            }
            lemma_trim_trailing(t, j - i);
            let u = t.take(j - i);
            assert(u =~= s@.subrange(i as int, j as int));
            assert(!is_white_space(u[0]) && !is_white_space(u.last()));
        } else {
            assert(t =~= Seq::<char>::empty());
            assert(s@.subrange(i as int, j as int) =~= Seq::<char>::empty());
        }
    }
    s.substring_char(i, j)
}

/// The namespace and the number of an accession: what lies before its first
/// `_`, and what lies between that `_` and the next `.` (or the end).
#[derive(Debug, Clone, PartialEq, Eq)]
pub struct AccessionParts {
    pub db: String,
    pub number: String,
}

/// The namespace and number of an (already trimmed) accession, or `None` if
/// it holds no `_`.
pub open spec fn parts_of(t: Seq<char>) -> Option<(Seq<char>, Seq<char>)> {
    match first_index(t, '_') {
        None => None,
        Some(k) => {
            let rest = t.skip(k + 1);
            let number = match first_index(rest, '.') {
                Some(d) => rest.take(d),
                None => rest,
            };
            Some((t.take(k), number))
        },
    }
}

/// Splits a trimmed accession into namespace and number; `None` when it has
/// no `_`.
pub fn parse_accession(accession: &str) -> (r: Option<AccessionParts>)
    ensures
        match r {
            None => parts_of(trimmed(accession@)) is None,
            Some(p) => parts_of(trimmed(accession@)) == Some((p.db@, p.number@)),
        },
        r is None <==> !trimmed(accession@).contains('_'),
        !accession@.contains('_') ==> r is None,
{
    let t = trim_whitespace(accession);
    proof {
        if !accession@.contains('_') {
            lemma_trimmed_is_slice(accession@);
            lemma_slice_keeps_absence(t@, accession@, '_');
        }
        lemma_find_from_bounds(t@, '_', 0);
    }
    match index_of(t, '_') {
        None => None,
        Some(k) => {
            let n = t.unicode_len();
            let db = slice_string(t, 0, k);
            let rest = t.substring_char(k + 1, n);
            assert(rest@ =~= t@.skip(k + 1));
            let number = match index_of(rest, '.') {
                Some(d) => {
                    proof {
                        lemma_find_from_bounds(rest@, '.', 0);
                    }
                    slice_string(rest, 0, d)
                },
                None => String::from_str(rest),
            };
            assert(db@ =~= t@.take(k as int));
            proof {
                match first_index(rest@, '.') {
                    Some(d) => assert(number@ =~= rest@.take(d)),
                    None => assert(number@ =~= rest@),
                }
            }
            Some(AccessionParts { db, number })
        },
    }
}

/// The tail of the sharded form of `s` from position `i`: groups of three
/// characters, left to right, joined by `/`; the last group may be shorter.
pub open spec fn shard_from(s: Seq<char>, i: int) -> Seq<char>
    decreases s.len() - i,
{
    if i < 0 || i + 3 >= s.len() {
        s.subrange(if i < 0 { 0 } else if i > s.len() { s.len() as int } else { i }, s.len() as int)
    } else {
        s.subrange(i, i + 3) + seq!['/'] + shard_from(s, i + 3)
    }
}

/// The archive's sharded path for a number: `"123456"` is stored under
/// `"123/456"`, `"12345"` under `"123/45"`.
pub open spec fn shard(s: Seq<char>) -> Seq<char> {
    shard_from(s, 0)
}

/// Splits a number into groups of three characters joined by `/`.
pub fn number_path(number: &str) -> (r: String)
    ensures
        r@ == shard(number@),
{
    let n = number.unicode_len();
    let mut out = String::new();
    let mut i: usize = 0;
    let ghost s = number@;
    proof {
        reveal_strlit("/");
    }
    while i < n
        invariant
            n == s.len(),
            s == number@,
            i <= n,
            i < n ==> out@ + shard_from(s, i as int) == shard(s),
            i >= n ==> out@ == shard(s),
            i == 0 ==> out@.len() == 0,
        decreases n - i,
    {
        if n - i <= 3 {
            let part = number.substring_char(i, n);
            let ghost before = out@;
            out.append(part);
            assert(out@ =~= before + shard_from(s, i as int));
            i = n;
        } else {
            let part = number.substring_char(i, i + 3);
            let ghost before = out@;
            out.append(part);
            out.append("/");
            proof {
                reveal_strlit("/");
            }
            assert("/"@ =~= seq!['/']);
            assert(out@ =~= before + s.subrange(i as int, i + 3) + seq!['/']);
            assert(shard_from(s, i as int) == s.subrange(i as int, i + 3) + seq!['/'] + shard_from(
                s,
                i + 3,
            ));
            assert(out@ + shard_from(s, i + 3) =~= before + shard_from(s, i as int));
            i = i + 3;
        }
    }
    proof {
        if n == 0 {
            assert(shard(s) =~= Seq::<char>::empty());
        }
    }
    out
}

/// The groups of three characters of `s` from position `i`, left to right;
/// the last group may be shorter.
pub open spec fn groups_from(s: Seq<char>, i: int) -> Seq<Seq<char>>
    decreases s.len() - i,
{
    if i < 0 || i >= s.len() {
        Seq::empty()
    } else if i + 3 >= s.len() {
        seq![s.subrange(i, s.len() as int)]
    } else {
        seq![s.subrange(i, i + 3)] + groups_from(s, i + 3)
    }
}

/// Parts joined by `/`.
pub open spec fn join_slash(g: Seq<Seq<char>>) -> Seq<char>
    decreases g.len(),
{
    if g.len() == 0 {
        Seq::empty()
    } else if g.len() == 1 {
        g[0]
    } else {
        g[0] + seq!['/'] + join_slash(g.drop_first())
    }
}

proof fn lemma_groups_from(s: Seq<char>, i: int)
    requires
        0 <= i <= s.len(),
    ensures
        i < s.len() ==> shard_from(s, i) == join_slash(groups_from(s, i)),
        groups_from(s, i).flatten() == s.subrange(i, s.len() as int),
        forall|k: int| 0 <= k < groups_from(s, i).len() - 1 ==> (#[trigger] groups_from(s, i)[k]).len() == 3,
        groups_from(s, i).len() > 0 ==> 1 <= groups_from(s, i).last().len() <= 3,
        groups_from(s, i).len() == 0 <==> i == s.len(),
    decreases s.len() - i,
{
    let g = groups_from(s, i);
    if i == s.len() {
        assert(s.subrange(i, s.len() as int) =~= Seq::<char>::empty());
    } else if i + 3 >= s.len() {
        assert(g.drop_first() =~= Seq::<Seq<char>>::empty());
        assert(g.drop_first().flatten() =~= Seq::<char>::empty());
        assert(g.flatten() == g.first() + g.drop_first().flatten());
        assert(g.flatten() =~= s.subrange(i, s.len() as int));
    } else {
        lemma_groups_from(s, i + 3);
        let rest = groups_from(s, i + 3);
        assert(g.drop_first() =~= rest);
        assert(g.first() == s.subrange(i, i + 3));
        assert(g.flatten() == g.first() + rest.flatten());
        assert(g.flatten() =~= s.subrange(i, s.len() as int));
        assert forall|k: int| 0 <= k < g.len() - 1 implies (#[trigger] g[k]).len() == 3 by {
            if k > 0 {
                assert(g[k] == rest[k - 1]);
            }
        }
        assert(g.last() == rest.last());
    }
}

/// The sharded path of a number is its groups of three characters, left to
/// right, joined by `/`: every group but the last has three characters, the
/// last has one to three, the groups together give back the number, and
/// only the empty number has no group.
pub proof fn lemma_shard_groups(number: Seq<char>)
    ensures
        shard(number) == join_slash(groups_from(number, 0)),
        groups_from(number, 0).flatten() == number,
        forall|k: int|
            0 <= k < groups_from(number, 0).len() - 1 ==> (#[trigger] groups_from(number, 0)[k]).len()
                == 3,
        groups_from(number, 0).len() > 0 ==> 1 <= groups_from(number, 0).last().len() <= 3,
        groups_from(number, 0).len() == 0 <==> number.len() == 0,
{
    lemma_groups_from(number, 0);
    assert(number.subrange(0, number.len() as int) =~= number);
    if number.len() == 0 {
        assert(shard(number) =~= Seq::<char>::empty());
    }
}

/// The listing URL of the directory that holds every version of an
/// assembly: `<root>/<db>/<sharded number>`.
pub open spec fn directory_url_of(db: Seq<char>, number: Seq<char>) -> Seq<char> {
    ARCHIVE_ROOT@ + seq!['/'] + db + seq!['/'] + shard(number)
}

/// Builds the listing URL for an accession's namespace and number.
pub fn directory_url(parts: &AccessionParts) -> (r: String)
    ensures
        r@ == directory_url_of(parts.db@, parts.number@),
{
    proof {
        reveal_strlit("/");
    }
    let path = number_path(parts.number.as_str());
    let mut url = String::from_str(ARCHIVE_ROOT);
    url.append("/");
    url.append(parts.db.as_str());
    url.append("/");
    url.append(path.as_str());
    url
}

} // verus!
