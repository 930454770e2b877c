//! The tree walker and aggregator: visits an in-memory directory tree
//! depth-first, selects the regular files whose extension matches the given
//! one exactly, classifies each file's lines, reports a per-file tally with
//! the file's path, and accumulates every per-file tally into a running
//! total.

use crate::classify::{count_lines, file_tally};
use crate::count::{
    lemma_wrap_add_chain, lemma_wrap_add_exact, tally_add, tally_nonneg, tally_wrap_add,
    tally_zero, Count, Tally,
};
use vstd::prelude::*;

verus! {

/// Position `d` is the last `.` of `name`, it is not the leading character,
/// and what follows it is exactly `ext`.
pub open spec fn ext_at(name: Seq<char>, ext: Seq<char>, d: int) -> bool {
    &&& 1 <= d < name.len()
    &&& name[d] == '.'
    &&& (forall|k: int| d < k < name.len() ==> name[k] != '.')
    &&& name.subrange(d + 1, name.len() as int) == ext
}

/// The file name's extension — the part after the last `.`, which must not be
/// the name's first character — equals `ext` exactly. A name without a `.`,
/// or whose only `.` leads it, has no extension and matches nothing.
pub open spec fn extension_matches(name: Seq<char>, ext: Seq<char>) -> bool {
    exists|d: int| ext_at(name, ext, d)
}

/// Whether the characters of `name` from position `from` on are exactly `ext`.
fn suffix_matches(name: &str, from: usize, ext: &str) -> (r: bool)
    requires
        from <= name@.len(),
    ensures
        r == (name@.subrange(from as int, name@.len() as int) == ext@),
{
    let n = name.unicode_len();
    let m = ext.unicode_len();
    if n - from != m {
        proof {
            assert(name@.subrange(from as int, n as int).len() != ext@.len());
        }
        return false;
    }
    let mut k: usize = 0;
    while k < m
        invariant
            k <= m,
            m == ext@.len(),
            n == name@.len(),
            from + m == n,
            forall|t: int| 0 <= t < k ==> name@[from + t] == ext@[t],
        decreases m - k,
    {
        if name.get_char(from + k) != ext.get_char(k) {
            proof {
                assert(name@.subrange(from as int, n as int)[k as int] == name@[from + k]);
            }
            return false;
        }
        k = k + 1;
    }
    proof {
        assert(name@.subrange(from as int, n as int) =~= ext@);
    }
    true
}

/// Whether the file named `name` has exactly the extension `extension`:
/// an exact, case-sensitive match of the whole component after the last `.`,
/// never a prefix or substring match.
pub fn has_extension(name: &str, extension: &str) -> (r: bool)
    ensures
        r == extension_matches(name@, extension@),
{
    let n = name.unicode_len();
    let mut j = n;
    while j > 0 && name.get_char(j - 1) != '.'
        invariant
            j <= n,
            n == name@.len(),
            forall|k: int| j <= k < n ==> name@[k] != '.',
        decreases j,
    {
        j = j - 1;
    }
    if j <= 1 {
        proof {
            if extension_matches(name@, extension@) {
                let d = choose|d: int| ext_at(name@, extension@, d);
                assert(name@[d] != '.');
                assert(false);
            }
        }
        false
    } else {
        let d = j - 1;
        let r = suffix_matches(name, d + 1, extension);
        proof {
            if r {
                assert(ext_at(name@, extension@, d as int));
            } else {
                if extension_matches(name@, extension@) {
                    let d2 = choose|d2: int| ext_at(name@, extension@, d2);
                    if d2 > d as int {
                        assert(name@[d2] != '.');
                        assert(false);
                    }
                    if d2 < d as int {
                        assert(name@[d as int] != '.');
                        assert(false);
                    }
                    assert(false);
                }
            }
        }
        r
    }
}

/// A path followed by `/` and an entry's name.
pub open spec fn join_path(dir: Seq<char>, name: Seq<char>) -> Seq<char> {
    dir + seq!['/'] + name
}

/// Joins a directory path and an entry name with a `/` separator.
pub fn join_path_str(dir: &str, name: &str) -> (r: String)
    ensures
        r@ == join_path(dir@, name@),
{
    let mut r = dir.to_owned();
    r.append("/");
    r.append(name);
    proof {
        reveal_strlit("/");
        assert(seq!['/'] =~= "/"@);
        assert(r@ =~= join_path(dir@, name@));
    }
    r
}

/// One entry of a directory tree as the walker sees it: a regular file with
/// its lines, a directory with its entries in listing order, or anything
/// else — a symlink, a device file — which the walk skips.
pub enum FsEntry {
    File { name: String, lines: Vec<String> },
    Dir { name: String, entries: Vec<FsEntry> },
    Other { name: String },
}

/// One matched file's result: its path and its tally.
pub struct FileReport {
    pub path: String,
    pub count: Count,
}

/// Mathematical view of a `FileReport`.
pub ghost struct ReportV {
    pub path: Seq<char>,
    pub tally: Tally,
}

impl View for FileReport {
    type V = ReportV;

    open spec fn view(&self) -> ReportV {
        ReportV { path: self.path@, tally: self.count@ }
    }
}

/// The views of a run of file reports, in order.
pub open spec fn reports_view(rs: Seq<FileReport>) -> Seq<ReportV> {
    rs.map_values(|r: FileReport| r@)
}

/// The reports that visiting one entry under the directory `dir` produces, in
/// traversal order: one for a file with a matching extension, those of the
/// subtree for a directory, none otherwise.
pub open spec fn entry_reports(dir: Seq<char>, e: FsEntry, ext: Seq<char>) -> Seq<ReportV>
    decreases e, 0int,
{
    match e {
        FsEntry::File { name, lines } => {
            if extension_matches(name@, ext) {
                seq![
                    ReportV {
                        path: join_path(dir, name@),
                        tally: file_tally(lines.deep_view()),
                    },
                ]
            } else {
                Seq::empty()
            }
        },
        FsEntry::Dir { name, entries } => {
            entries_reports(join_path(dir, name@), entries@, ext)
        },
        FsEntry::Other { .. } => Seq::empty(),
    }
}

/// The reports of a directory's entries, visited in listing order.
pub open spec fn entries_reports(dir: Seq<char>, s: Seq<FsEntry>, ext: Seq<char>) -> Seq<ReportV>
    decreases s, 1int,
{
    if s.len() == 0 {
        Seq::empty()
    } else {
        entry_reports(dir, s[0], ext) + entries_reports(dir, s.drop_first(), ext)
    }
}

/// The componentwise sum of a run of per-file tallies.
pub open spec fn sum_tallies(rs: Seq<ReportV>) -> Tally
    decreases rs.len(),
{
    if rs.len() == 0 {
        tally_zero()
    } else {
        tally_add(rs[0].tally, sum_tallies(rs.drop_first()))
    }
}

/// Every file under the entry has few enough lines for a fixed-width counter.
pub open spec fn entry_bounded(e: FsEntry) -> bool
    decreases e, 0int,
{
    match e {
        FsEntry::File { lines, .. } => lines@.len() <= u32::MAX,
        FsEntry::Dir { entries, .. } => entries_bounded(entries@),
        FsEntry::Other { .. } => true,
    }
}

/// Every file under every one of the entries is within the counter bound.
pub open spec fn entries_bounded(s: Seq<FsEntry>) -> bool
    decreases s, 1int,
{
    forall|i: int| 0 <= i < s.len() ==> entry_bounded(#[trigger] s[i])
}

/// Summing distributes over concatenation of report runs.
pub proof fn lemma_sum_tallies_concat(a: Seq<ReportV>, b: Seq<ReportV>)
    ensures
        sum_tallies(a + b) == tally_add(sum_tallies(a), sum_tallies(b)),
    decreases a.len(),
{
    if a.len() == 0 {
        assert(a + b =~= b);
    } else {
        assert((a + b).drop_first() =~= a.drop_first() + b);
        lemma_sum_tallies_concat(a.drop_first(), b);
    }
}

/// The summed tallies of one entry's reports are non-negative.
proof fn lemma_entry_sum_nonneg(dir: Seq<char>, e: FsEntry, ext: Seq<char>)
    ensures
        tally_nonneg(sum_tallies(entry_reports(dir, e, ext))),
    decreases e, 0int,
{
    match e {
        FsEntry::File { name, lines } => {
            if extension_matches(name@, ext) {
                crate::classify::lemma_count_from_conservation(
                    crate::classify::LineType::Blank,
                    lines.deep_view(),
                );
                let rs = entry_reports(dir, e, ext);
                assert(rs.len() == 1);
                assert(rs[0].tally == file_tally(lines.deep_view()));
                assert(rs.drop_first() =~= Seq::<ReportV>::empty());
                assert(sum_tallies(rs.drop_first()) == tally_zero());
                assert(sum_tallies(rs) == tally_add(rs[0].tally, tally_zero()));
            }
        },
        FsEntry::Dir { name, entries } => {
            lemma_entries_sum_nonneg(join_path(dir, name@), entries@, ext);
        },
        FsEntry::Other { .. } => {},
    }
}

/// The summed tallies of a directory listing's reports are non-negative.
pub proof fn lemma_entries_sum_nonneg(dir: Seq<char>, s: Seq<FsEntry>, ext: Seq<char>)
    ensures
        tally_nonneg(sum_tallies(entries_reports(dir, s, ext))),
    decreases s, 1int,
{
    if s.len() > 0 {
        lemma_entry_sum_nonneg(dir, s[0], ext);
        lemma_entries_sum_nonneg(dir, s.drop_first(), ext);
        lemma_sum_tallies_concat(
            entry_reports(dir, s[0], ext),
            entries_reports(dir, s.drop_first(), ext),
        );
    }
}

/// Law: aggregation is additive. A scan that starts from a zero total ends,
/// whenever the grand sum still fits the counters, with exactly the
/// componentwise sum of the per-file tallies.
pub proof fn lemma_aggregation_additive(dir: Seq<char>, s: Seq<FsEntry>, ext: Seq<char>)
    requires
        sum_tallies(entries_reports(dir, s, ext)).code <= u32::MAX,
        sum_tallies(entries_reports(dir, s, ext)).comment <= u32::MAX,
        sum_tallies(entries_reports(dir, s, ext)).blank <= u32::MAX,
    ensures
        tally_wrap_add(tally_zero(), sum_tallies(entries_reports(dir, s, ext))) == sum_tallies(
            entries_reports(dir, s, ext),
        ),
{
    lemma_entries_sum_nonneg(dir, s, ext);
    lemma_wrap_add_exact(tally_zero(), sum_tallies(entries_reports(dir, s, ext)));
}

/// Law: the scan is a function of the tree and the extension alone, so
/// scanning an unchanged tree twice yields identical reports and identical
/// totals.
pub proof fn lemma_scan_idempotent(
    dir: Seq<char>,
    s: Seq<FsEntry>,
    ext: Seq<char>,
    r1: Seq<ReportV>,
    r2: Seq<ReportV>,
)
    requires
        r1 == entries_reports(dir, s, ext),
        r2 == entries_reports(dir, s, ext),
    ensures
        r1 == r2,
        sum_tallies(r1) == sum_tallies(r2),
{
}

/// Visits the directory whose path is `path` and whose entries are `entries`,
/// depth-first in listing order. Every regular file whose extension equals
/// `extension` exactly is classified and reported under its path, and its
/// tally is accumulated into `total_count`; directories are visited
/// recursively; anything else is skipped. Returns the per-file reports in
/// traversal order; the running total grows by exactly their sum, wrapped to
/// the counters' width.
pub fn visit_dirs(
    path: &str,
    entries: &Vec<FsEntry>,
    extension: &str,
    total_count: &mut Count,
) -> (reports: Vec<FileReport>)
    requires
        entries_bounded(entries@),
    ensures
        reports_view(reports@) == entries_reports(path@, entries@, extension@),
        final(total_count)@ == tally_wrap_add(
            old(total_count)@,
            sum_tallies(entries_reports(path@, entries@, extension@)),
        ),
    decreases entries@,
{
    let ghost whole = entries_reports(path@, entries@, extension@);
    let ghost t0 = total_count@;
    let mut reports: Vec<FileReport> = Vec::new();
    proof {
        assert(entries@.skip(0) =~= entries@);
        assert(reports_view(reports@) =~= Seq::<ReportV>::empty());
        assert(reports_view(reports@) + whole =~= whole);
        assert(tally_wrap_add(t0, sum_tallies(reports_view(reports@))) == tally_wrap_add(
            t0,
            tally_zero(),
        ));
        assert(tally_wrap_add(t0, tally_zero()) == total_count@) by {
            lemma_wrap_add_exact(t0, tally_zero());
        }
    }
    let n = entries.len();
    let mut i: usize = 0;
    while i < n
        invariant
            i <= n,
            n == entries@.len(),
            entries_bounded(entries@),
            whole == entries_reports(path@, entries@, extension@),
            reports_view(reports@) + entries_reports(path@, entries@.skip(i as int), extension@)
                == whole,
            total_count@ == tally_wrap_add(t0, sum_tallies(reports_view(reports@))),
        decreases n - i,
    {
        proof {
            assert(entries@.skip(i as int)[0] == entries@[i as int]);
            assert(entries@.skip(i as int).drop_first() =~= entries@.skip(i as int + 1));
            assert(entry_bounded(entries@[i as int]));
        }
        let ghost here = entry_reports(path@, entries@[i as int], extension@);
        let ghost rest = entries_reports(path@, entries@.skip(i as int + 1), extension@);
        let ghost seen = reports_view(reports@);
        proof {
            assert(entries_reports(path@, entries@.skip(i as int), extension@) == here + rest);
            assert(seen + (here + rest) =~= (seen + here) + rest);
        }
        let e = &entries[i];
        match e {
            FsEntry::File { name, lines } => {
                if has_extension(name.as_str(), extension) {
                    let fpath = join_path_str(path, name.as_str());
                    let local = count_lines(lines);
                    total_count.add(&local);
                    let report = FileReport { path: fpath, count: local };
                    let ghost rv = report@;
                    reports.push(report);
                    proof {
                        assert(here =~= seq![rv]);
                        assert(reports_view(reports@) =~= seen.push(rv));
                        assert(seen.push(rv) =~= seen + here);
                        lemma_sum_tallies_concat(seen, here);
                        assert(here.len() == 1);
                        assert(here[0] == rv);
                        assert(here.drop_first() =~= Seq::<ReportV>::empty());
                        assert(sum_tallies(here.drop_first()) == tally_zero());
                        assert(sum_tallies(here) == tally_add(rv.tally, tally_zero()));
                        lemma_wrap_add_chain(t0, sum_tallies(seen), rv.tally);
                    }
                } else {
                    proof {
                        assert(here =~= Seq::<ReportV>::empty());
                        assert(seen + here =~= seen);
                    }
                }
            },
            FsEntry::Dir { name, entries: children } => {
                let dpath = join_path_str(path, name.as_str());
                proof {
                    assert(decreases_to!(entries@ => entries@[i as int]));
                }
                let mut sub = visit_dirs(dpath.as_str(), children, extension, total_count);
                proof {
                    assert(reports_view(sub@) == here);
                    assert(reports_view(reports@ + sub@) =~= seen + reports_view(sub@));
                    lemma_sum_tallies_concat(seen, here);
                    lemma_wrap_add_chain(t0, sum_tallies(seen), sum_tallies(here));
                }
                reports.append(&mut sub);
            },
            FsEntry::Other { .. } => {
                proof {
                    assert(here =~= Seq::<ReportV>::empty());
                    assert(seen + here =~= seen);
                }
            },
        }
        i = i + 1;
    }
    proof {
        assert(entries@.skip(n as int) =~= Seq::<FsEntry>::empty());
        assert(entries_reports(path@, entries@.skip(n as int), extension@) =~= Seq::<
            ReportV,
        >::empty());
        assert(reports_view(reports@) + Seq::<ReportV>::empty() =~= reports_view(reports@));
    }
    reports
}

} // verus!
