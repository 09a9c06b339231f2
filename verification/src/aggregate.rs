use vstd::prelude::*;

use crate::chars::lex_le;
use crate::chars::lex_le_exec;
use crate::chars::lemma_lex_le_total;
use crate::chars::lemma_lex_le_transitive;

verus! {

/// One scanned regular file, as a worker reports it: its path, the directory
/// that directly contains it, its byte size, and its line count (0 when line
/// counting was skipped or failed).
#[derive(Debug, Clone)]
pub struct FileRecord {
    pub path: String,
    pub parent: String,
    pub size: u64,
    pub lines: u64,
}

/// The mathematical image of a `FileRecord`.
pub ghost struct RecordModel {
    pub path: Seq<char>,
    pub parent: Seq<char>,
    pub size: u64,
    pub lines: u64,
}

impl View for FileRecord {
    type V = RecordModel;

    open spec fn view(&self) -> RecordModel {
        RecordModel { path: self.path@, parent: self.parent@, size: self.size, lines: self.lines }
    }
}

/// The file with the most lines seen so far.
#[derive(Debug, Clone)]
pub struct FileStat {
    pub path: String,
    pub size: u64,
    pub lines: u64,
}

/// The mathematical image of a `FileStat`.
pub ghost struct StatModel {
    pub path: Seq<char>,
    pub size: u64,
    pub lines: u64,
}

impl View for FileStat {
    type V = StatModel;

    open spec fn view(&self) -> StatModel {
        StatModel { path: self.path@, size: self.size, lines: self.lines }
    }
}

/// The finished aggregate of one scan.
#[derive(Debug)]
pub struct Summary {
    pub total_files: u64,
    pub total_size: u64,
    pub total_lines: u64,
    pub max_lines_file: Option<FileStat>,
    pub largest_dir: Option<(String, u64)>,
}

/// The sum of the records' sizes.
pub open spec fn sum_sizes(s: Seq<RecordModel>) -> int
    decreases s.len(),
{
    if s.len() == 0 {
        0
    } else {
        sum_sizes(s.drop_last()) + s.last().size
    }
}

/// The sum of the records' line counts.
pub open spec fn sum_lines(s: Seq<RecordModel>) -> int
    decreases s.len(),
{
    if s.len() == 0 {
        0
    } else {
        sum_lines(s.drop_last()) + s.last().lines
    }
}

/// The greatest line count among the records, 0 when there are none.
pub open spec fn max_lines(s: Seq<RecordModel>) -> int
    decreases s.len(),
{
    if s.len() == 0 {
        0
    } else if s.last().lines > max_lines(s.drop_last()) {
        s.last().lines as int
    } else {
        max_lines(s.drop_last())
    }
}

/// The cumulative size of the records whose parent is `d` (non-recursive:
/// files in subdirectories of `d` do not count towards `d`).
pub open spec fn dir_total(s: Seq<RecordModel>, d: Seq<char>) -> int
    decreases s.len(),
{
    if s.len() == 0 {
        0
    } else {
        dir_total(s.drop_last(), d) + if s.last().parent == d {
            s.last().size as int
        } else {
            0int
        }
    }
}

/// Whether some record's parent is `d`.
pub open spec fn has_parent(s: Seq<RecordModel>, d: Seq<char>) -> bool {
    exists|i: int| 0 <= i < s.len() && s[i].parent == d
}

/// The record at `i` backs the stat `f`, and it was the first record to reach
/// that line count: every earlier record has strictly fewer lines.
pub open spec fn is_first_max_at(s: Seq<RecordModel>, f: StatModel, i: int) -> bool {
    &&& 0 <= i < s.len()
    &&& s[i].path == f.path
    &&& s[i].size == f.size
    &&& s[i].lines == f.lines
    &&& forall|j: int| 0 <= j < i ==> s[j].lines < f.lines
}

pub open spec fn is_first_max(s: Seq<RecordModel>, f: StatModel) -> bool {
    exists|i: int| is_first_max_at(s, f, i)
}

/// What a finished `Summary` says about the records it was folded from:
/// exact totals; the maximum-lines file is the first record to reach the
/// strictly greatest positive line count, absent when every record has 0
/// lines; the largest directory is the one with the greatest cumulative size,
/// ties going to the lexicographically least path, absent only for an empty
/// scan.
pub open spec fn summarizes(r: Summary, s: Seq<RecordModel>) -> bool {
    &&& r.total_files == s.len()
    &&& r.total_size == sum_sizes(s)
    &&& r.total_lines == sum_lines(s)
    &&& match r.max_lines_file {
        Some(f) => max_lines(s) > 0 && f@.lines == max_lines(s) && is_first_max(s, f@),
        None => max_lines(s) == 0,
    }
    &&& match r.largest_dir {
        Some((d, t)) => {
            &&& has_parent(s, d@)
            &&& t == dir_total(s, d@)
            &&& forall|d2: Seq<char>| has_parent(s, d2) ==> dir_total(s, d2) <= t
            &&& forall|d2: Seq<char>|
                has_parent(s, d2) && dir_total(s, d2) == t ==> lex_le(d@, d2)
        },
        None => s.len() == 0,
    }
}

pub proof fn lemma_sums_nonnegative(s: Seq<RecordModel>)
    ensures
        sum_sizes(s) >= 0,
        sum_lines(s) >= 0,
        max_lines(s) >= 0,
    decreases s.len(),
{
    if s.len() > 0 {
        lemma_sums_nonnegative(s.drop_last());
    }
}

pub proof fn lemma_dir_total_le_sum(s: Seq<RecordModel>, d: Seq<char>)
    ensures
        0 <= dir_total(s, d) <= sum_sizes(s),
    decreases s.len(),
{
    if s.len() > 0 {
        lemma_dir_total_le_sum(s.drop_last(), d);
    }
}

/// Every record's line count is bounded by the running maximum.
pub proof fn lemma_max_lines_ge_all(s: Seq<RecordModel>)
    ensures
        forall|j: int| 0 <= j < s.len() ==> s[j].lines <= max_lines(s),
    decreases s.len(),
{
    if s.len() > 0 {
        lemma_max_lines_ge_all(s.drop_last());
        assert forall|j: int| 0 <= j < s.len() implies s[j].lines <= max_lines(s) by {
            if j < s.len() - 1 {
                assert(s.drop_last()[j].lines <= max_lines(s.drop_last()));
            }
        }
    }
}

/// How each aggregate moves when one more record arrives.
pub proof fn lemma_aggregates_push(s: Seq<RecordModel>, r: RecordModel)
    ensures
        sum_sizes(s.push(r)) == sum_sizes(s) + r.size,
        sum_lines(s.push(r)) == sum_lines(s) + r.lines,
        max_lines(s.push(r)) == if r.lines > max_lines(s) {
            r.lines as int
        } else {
            max_lines(s)
        },
        forall|d: Seq<char>| #[trigger]
            dir_total(s.push(r), d) == dir_total(s, d) + if r.parent == d {
                r.size as int
            } else {
                0int
            },
        forall|d: Seq<char>| #[trigger]
            has_parent(s.push(r), d) <==> (has_parent(s, d) || r.parent == d),
{
    assert(s.push(r).drop_last() =~= s);
    assert(s.push(r).last() == r);
    assert forall|d: Seq<char>| #[trigger]
        has_parent(s.push(r), d) <==> (has_parent(s, d) || r.parent == d) by {
        let p = s.push(r);
        if has_parent(p, d) {
            let i = choose|i: int| 0 <= i < p.len() && p[i].parent == d;
            if i < s.len() {
                assert(s[i].parent == d);
            }
        }
        if has_parent(s, d) {
            let i = choose|i: int| 0 <= i < s.len() && s[i].parent == d;
            assert(p[i].parent == d);
        }
        if r.parent == d {
            assert(p[s.len() as int].parent == d);
        }
    }
}

/// The single consumer that folds worker records into a running summary.
/// All mutation of the totals happens here, on one logical thread of control.
pub struct Aggregator {
    total_files: u64,
    total_size: u64,
    total_lines: u64,
    max_lines_file: Option<FileStat>,
    dirs: Vec<(String, u64)>,
    history: Ghost<Seq<RecordModel>>,
}

impl Aggregator {
    /// All records folded so far, in arrival order.
    pub closed spec fn records(self) -> Seq<RecordModel> {
        self.history@
    }

    pub closed spec fn wf(self) -> bool {
        &&& self.total_files == self.history@.len()
        &&& self.total_size == sum_sizes(self.history@)
        &&& self.total_lines == sum_lines(self.history@)
        &&& match self.max_lines_file {
            Some(f) => max_lines(self.history@) > 0 && f@.lines == max_lines(self.history@)
                && is_first_max(self.history@, f@),
            None => max_lines(self.history@) == 0,
        }
        &&& forall|i: int, j: int|
            0 <= i < j < self.dirs@.len() ==> self.dirs@[i].0@ != self.dirs@[j].0@
        &&& forall|i: int|
            0 <= i < self.dirs@.len() ==> #[trigger] self.dirs@[i].1 == dir_total(
                self.history@,
                self.dirs@[i].0@,
            ) && has_parent(self.history@, self.dirs@[i].0@)
        &&& forall|d: Seq<char>|
            #[trigger] has_parent(self.history@, d) ==> exists|i: int|
                0 <= i < self.dirs@.len() && self.dirs@[i].0@ == d
    }

    pub fn new() -> (r: Aggregator)
        ensures
            r.wf(),
            r.records() == Seq::<RecordModel>::empty(),
    {
        Aggregator {
            total_files: 0,
            total_size: 0,
            total_lines: 0,
            max_lines_file: None,
            dirs: Vec::new(),
            history: Ghost(Seq::empty()),
        }
    }

    /// The number of records folded so far.
    pub fn files_so_far(&self) -> (r: u64)
        requires
            self.wf(),
        ensures
            r == self.records().len(),
    {
        self.total_files
    }

    /// The byte total folded so far.
    pub fn size_so_far(&self) -> (r: u64)
        requires
            self.wf(),
        ensures
            r == sum_sizes(self.records()),
    {
        self.total_size
    }

    /// The line total folded so far.
    pub fn lines_so_far(&self) -> (r: u64)
        requires
            self.wf(),
        ensures
            r == sum_lines(self.records()),
    {
        self.total_lines
    }

    /// Fold one record into the running totals.
    pub fn fold(&mut self, r: FileRecord)
        requires
            old(self).wf(),
            old(self).records().len() < u64::MAX,
            sum_sizes(old(self).records()) + r.size <= u64::MAX,
            sum_lines(old(self).records()) + r.lines <= u64::MAX,
        ensures
            final(self).wf(),
            final(self).records() == old(self).records().push(r@),
    {
        proof {
            lemma_sums_nonnegative(self.history@);
            lemma_aggregates_push(self.history@, r@);
            lemma_max_lines_ge_all(self.history@);
        }
        let ghost h0 = self.history@;
        let ghost h1 = self.history@.push(r@);
        let ghost rp = r.parent@;

        self.total_files = self.total_files + 1;
        self.total_size = self.total_size + r.size;
        self.total_lines = self.total_lines + r.lines;

        let current_max = match &self.max_lines_file {
            Some(f) => f.lines,
            None => 0,
        };
        if r.lines > current_max {
            self.max_lines_file = Some(
                FileStat { path: r.path.clone(), size: r.size, lines: r.lines },
            );
            proof {
                let f = self.max_lines_file->Some_0;
                assert(is_first_max_at(h1, f@, h0.len() as int));
            }
        } else {
            proof {
                if self.max_lines_file is Some {
                    let f = self.max_lines_file->Some_0;
                    let i = choose|i: int| is_first_max_at(h0, f@, i);
                    assert(is_first_max_at(h1, f@, i));
                }
            }
        }

        // Add the record's size to its parent directory's total.
        let mut i: usize = 0;
        let n = self.dirs.len();
        let mut found = false;
        while i < n && !found
            invariant
                i <= n,
                n == self.dirs@.len(),
                !found ==> forall|k: int| 0 <= k < i ==> self.dirs@[k].0@ != r.parent@,
                found ==> i > 0 && self.dirs@[i - 1].0@ == r.parent@,
            decreases n - i,
        {
            if self.dirs[i].0 == r.parent {
                found = true;
            }
            i += 1;
        }
        proof {
            lemma_dir_total_le_sum(h0, r.parent@);
        }
        if found {
            let idx = i - 1;
            let prev = self.dirs[idx].1;
            self.dirs[idx].1 = prev + r.size;
        } else {
            proof {
                if has_parent(h0, r.parent@) {
                    let k = choose|k: int|
                        0 <= k < self.dirs@.len() && self.dirs@[k].0@ == r.parent@;
                    assert(false);
                }
                lemma_dir_total_zero_when_absent(h0, r.parent@);
            }
            self.dirs.push((r.parent, r.size));
        }

        proof {
            self.history@ = h1;
        }
        proof {
            assert forall|d: Seq<char>| #[trigger] has_parent(h1, d) implies exists|k: int|
                0 <= k < self.dirs@.len() && self.dirs@[k].0@ == d by {
                if has_parent(h0, d) {
                    let k = choose|k: int|
                        0 <= k < old(self).dirs@.len() && old(self).dirs@[k].0@ == d;
                    assert(self.dirs@[k].0@ == d);
                } else {
                    assert(d == rp);
                    if found {
                        assert(self.dirs@[i - 1].0@ == d);
                    } else {
                        assert(self.dirs@[self.dirs@.len() - 1].0@ == d);
                    }
                }
            }
        }
    }
}

impl Aggregator {
    /// Close the stream: scan the per-directory totals once for the directory
    /// with the greatest cumulative size (ties go to the lexicographically
    /// least path) and return the finished summary.
    pub fn finish(self) -> (r: Summary)
        requires
            self.wf(),
        ensures
            summarizes(r, self.records()),
    {
        let ghost h = self.history@;
        let mut best: Option<(String, u64)> = None;
        let mut i: usize = 0;
        let n = self.dirs.len();
        while i < n
            invariant
                i <= n,
                n == self.dirs@.len(),
                self.wf(),
                h == self.history@,
                match best {
                    None => i == 0,
                    Some((d, t)) => {
                        &&& exists|k: int| 0 <= k < i && self.dirs@[k].0@ == d@
                        &&& t == dir_total(h, d@)
                        &&& forall|k: int| 0 <= k < i ==> self.dirs@[k].1 <= t
                        &&& forall|k: int|
                            0 <= k < i && self.dirs@[k].1 == t ==> lex_le(d@, self.dirs@[k].0@)
                    },
                },
            decreases n - i,
        {
            let e_size = self.dirs[i].1;
            let replace = match &best {
                None => true,
                Some((bd, bt)) => e_size > *bt || (e_size == *bt && lex_le_exec(
                    self.dirs[i].0.as_str(),
                    bd.as_str(),
                )),
            };
            if replace {
                proof {
                    let nd = self.dirs@[i as int].0@;
                    lemma_lex_le_total(nd, nd);
                    if best is Some {
                        let (bd, bt) = best->Some_0;
                        if e_size == bt {
                            assert forall|k: int|
                                0 <= k < i + 1 && self.dirs@[k].1 == e_size implies lex_le(
                                nd,
                                self.dirs@[k].0@,
                            ) by {
                                if k < i {
                                    lemma_lex_le_transitive(nd, bd@, self.dirs@[k].0@);
                                }
                            }
                        }
                    }
                }
                best = Some((self.dirs[i].0.clone(), e_size));
            } else {
                proof {
                    let nd = self.dirs@[i as int].0@;
                    let (bd, bt) = best->Some_0;
                    lemma_lex_le_total(nd, bd@);
                }
            }
            i += 1;
        }
        proof {
            match &best {
                None => {
                    if h.len() > 0 {
                        assert(has_parent(h, h[0].parent));
                    }
                },
                Some((d, t)) => {
                    assert forall|d2: Seq<char>| has_parent(h, d2) implies dir_total(h, d2)
                        <= *t && (dir_total(h, d2) == *t ==> lex_le(d@, d2)) by {
                        let k = choose|k: int|
                            0 <= k < self.dirs@.len() && self.dirs@[k].0@ == d2;
                        assert(self.dirs@[k].1 == dir_total(h, d2));
                    }
                },
            }
        }
        Summary {
            total_files: self.total_files,
            total_size: self.total_size,
            total_lines: self.total_lines,
            max_lines_file: self.max_lines_file,
            largest_dir: best,
        }
    }
}

/// The line count of the summary's maximum-lines file, if any.
pub open spec fn max_lines_value(r: Summary) -> Option<u64> {
    match r.max_lines_file {
        Some(f) => Some(f.lines),
        None => None,
    }
}

/// The summary's largest directory, as a mathematical value.
pub open spec fn largest_dir_view(r: Summary) -> Option<(Seq<char>, u64)> {
    match r.largest_dir {
        Some((d, t)) => Some((d@, t)),
        None => None,
    }
}

/// A scan of an empty tree reports zero files, bytes and lines, and neither a
/// maximum-lines file nor a largest directory.
pub proof fn lemma_empty_scan(r: Summary)
    requires
        summarizes(r, Seq::<RecordModel>::empty()),
    ensures
        r.total_files == 0,
        r.total_size == 0,
        r.total_lines == 0,
        r.max_lines_file is None,
        r.largest_dir is None,
{
}

/// The per-directory totals summed over any listing of the distinct parent
/// directories.
pub open spec fn sum_dir_totals(s: Seq<RecordModel>, parents: Seq<Seq<char>>) -> int
    decreases parents.len(),
{
    if parents.len() == 0 {
        0
    } else {
        sum_dir_totals(s, parents.drop_last()) + dir_total(s, parents.last())
    }
}

proof fn lemma_sum_dir_totals_no_records(parents: Seq<Seq<char>>)
    ensures
        sum_dir_totals(Seq::<RecordModel>::empty(), parents) == 0,
    decreases parents.len(),
{
    if parents.len() > 0 {
        lemma_sum_dir_totals_no_records(parents.drop_last());
    }
}

proof fn lemma_sum_dir_totals_push(s: Seq<RecordModel>, r: RecordModel, parents: Seq<Seq<char>>)
    requires
        forall|a: int, b: int| 0 <= a < b < parents.len() ==> parents[a] != parents[b],
    ensures
        sum_dir_totals(s.push(r), parents) == sum_dir_totals(s, parents) + if parents.contains(
            r.parent,
        ) {
            r.size as int
        } else {
            0int
        },
    decreases parents.len(),
{
    lemma_aggregates_push(s, r);
    if parents.len() == 0 {
        assert(!parents.contains(r.parent));
    } else {
        let p0 = parents.drop_last();
        lemma_sum_dir_totals_push(s, r, p0);
        if parents.last() == r.parent {
            assert(parents.contains(r.parent)) by {
                assert(parents[parents.len() - 1] == r.parent);
            }
            assert(!p0.contains(r.parent)) by {
                if p0.contains(r.parent) {
                    let a = choose|a: int| 0 <= a < p0.len() && p0[a] == r.parent;
                    assert(parents[a] == parents[parents.len() - 1]);
                }
            }
        } else {
            assert(p0.contains(r.parent) == parents.contains(r.parent)) by {
                if p0.contains(r.parent) {
                    let a = choose|a: int| 0 <= a < p0.len() && p0[a] == r.parent;
                    assert(parents[a] == r.parent);
                }
                if parents.contains(r.parent) {
                    let a = choose|a: int| 0 <= a < parents.len() && parents[a] == r.parent;
                    assert(a < parents.len() - 1);
                    assert(p0[a] == r.parent);
                }
            }
        }
    }
}

/// Summary additivity: over any listing of the distinct parent directories
/// that covers every record's parent, the per-directory totals add up to the
/// byte total of all records (and `summarizes` already ties `total_files` to
/// the number of records emitted).
pub proof fn lemma_summary_additivity(s: Seq<RecordModel>, parents: Seq<Seq<char>>)
    requires
        forall|a: int, b: int| 0 <= a < b < parents.len() ==> parents[a] != parents[b],
        forall|d: Seq<char>| #[trigger] has_parent(s, d) ==> parents.contains(d),
    ensures
        sum_dir_totals(s, parents) == sum_sizes(s),
    decreases s.len(),
{
    if s.len() == 0 {
        assert(s =~= Seq::<RecordModel>::empty());
        lemma_sum_dir_totals_no_records(parents);
    } else {
        let s0 = s.drop_last();
        let r = s.last();
        assert forall|d: Seq<char>| #[trigger] has_parent(s0, d) implies parents.contains(d) by {
            let i = choose|i: int| 0 <= i < s0.len() && s0[i].parent == d;
            assert(s[i].parent == d);
            assert(has_parent(s, d));
        }
        lemma_summary_additivity(s0, parents);
        assert(s0.push(r) =~= s);
        lemma_sum_dir_totals_push(s0, r, parents);
        assert(has_parent(s, r.parent)) by {
            assert(s[s.len() - 1].parent == r.parent);
        }
        assert(parents.contains(r.parent));
        lemma_aggregates_push(s0, r);
        assert(sum_dir_totals(s0, parents) == sum_sizes(s0));
        assert(sum_sizes(s) == sum_sizes(s0) + r.size);
        assert(sum_dir_totals(s, parents) == sum_dir_totals(s0, parents) + r.size);
        assert(sum_dir_totals(s, parents) == sum_sizes(s));
    }
}

/// How each aggregate decomposes when one record is taken out of the middle.
proof fn lemma_aggregates_remove(s: Seq<RecordModel>, i: int)
    requires
        0 <= i < s.len(),
    ensures
        sum_sizes(s) == sum_sizes(s.remove(i)) + s[i].size,
        sum_lines(s) == sum_lines(s.remove(i)) + s[i].lines,
        max_lines(s) == if s[i].lines > max_lines(s.remove(i)) {
            s[i].lines as int
        } else {
            max_lines(s.remove(i))
        },
        forall|d: Seq<char>| #[trigger]
            dir_total(s, d) == dir_total(s.remove(i), d) + if s[i].parent == d {
                s[i].size as int
            } else {
                0int
            },
        forall|d: Seq<char>| #[trigger]
            has_parent(s, d) <==> (has_parent(s.remove(i), d) || s[i].parent == d),
    decreases s.len(),
{
    if i == s.len() - 1 {
        assert(s.remove(i) =~= s.drop_last());
        assert(s =~= s.drop_last().push(s.last()));
        lemma_aggregates_push(s.drop_last(), s.last());
    } else {
        let s0 = s.drop_last();
        lemma_aggregates_remove(s0, i);
        assert(s.remove(i) =~= s0.remove(i).push(s.last()));
        lemma_aggregates_push(s0.remove(i), s.last());
        assert(s =~= s0.push(s.last()));
        lemma_aggregates_push(s0, s.last());
    }
}

/// Folding is independent of arrival order: two streams carrying the same
/// records, however interleaved, have the same length, sums, maximum line
/// count, and per-directory totals.
pub proof fn lemma_fold_order_independent(s: Seq<RecordModel>, t: Seq<RecordModel>)
    requires
        s.to_multiset() == t.to_multiset(),
    ensures
        s.len() == t.len(),
        sum_sizes(s) == sum_sizes(t),
        sum_lines(s) == sum_lines(t),
        max_lines(s) == max_lines(t),
        forall|d: Seq<char>| #[trigger] dir_total(s, d) == dir_total(t, d),
        forall|d: Seq<char>| #[trigger] has_parent(s, d) <==> has_parent(t, d),
    decreases s.len(),
{
    s.to_multiset_ensures();
    t.to_multiset_ensures();
    if s.len() == 0 {
        assert(t.len() == 0);
    } else {
        let r = s.last();
        let s0 = s.drop_last();
        assert(s.contains(r)) by {
            assert(s[s.len() - 1] == r);
        }
        assert(s.to_multiset().count(r) > 0);
        assert(t.to_multiset().count(r) > 0);
        assert(t.contains(r));
        let i = choose|i: int| 0 <= i < t.len() && t[i] == r;
        let t0 = t.remove(i);
        t0.to_multiset_ensures();
        assert(s.remove(s.len() - 1) =~= s0);
        assert(s0.to_multiset() =~= t0.to_multiset());
        lemma_fold_order_independent(s0, t0);
        lemma_aggregates_remove(t, i);
        assert(s =~= s0.push(r));
        lemma_aggregates_push(s0, r);
    }
}

/// At most one record reaches the maximum line count.
pub open spec fn unique_max(s: Seq<RecordModel>) -> bool {
    forall|i: int, j: int|
        0 <= i < s.len() && 0 <= j < s.len() && #[trigger] s[i].lines == max_lines(s)
            && #[trigger] s[j].lines == max_lines(s) ==> i == j
}

/// Two summaries folded from the same records, in whatever arrival order,
/// agree on every total and on the largest directory; their maximum-lines
/// files carry the same line count, and when a single record attains the
/// maximum they name the same file (the backing record may differ only when
/// several files tie for the maximum).
pub proof fn lemma_scan_deterministic(
    a: Summary,
    b: Summary,
    s: Seq<RecordModel>,
    t: Seq<RecordModel>,
)
    requires
        s.to_multiset() == t.to_multiset(),
        summarizes(a, s),
        summarizes(b, t),
    ensures
        a.total_files == b.total_files,
        a.total_size == b.total_size,
        a.total_lines == b.total_lines,
        max_lines_value(a) == max_lines_value(b),
        largest_dir_view(a) == largest_dir_view(b),
        unique_max(s) && a.max_lines_file is Some ==> a.max_lines_file->Some_0@
            == b.max_lines_file->Some_0@,
{
    lemma_fold_order_independent(s, t);
    match (&a.largest_dir, &b.largest_dir) {
        (Some((d1, t1)), Some((d2, t2))) => {
            assert(dir_total(t, d1@) == *t1);
            assert(dir_total(s, d2@) == *t2);
            assert(has_parent(t, d1@));
            assert(has_parent(s, d2@));
            assert(*t1 <= *t2);
            assert(*t2 <= *t1);
            assert(lex_le(d2@, d1@));
            assert(lex_le(d1@, d2@));
            crate::chars::lemma_lex_le_antisymmetric(d1@, d2@);
        },
        _ => {},
    }
    if unique_max(s) && a.max_lines_file is Some {
        let f = a.max_lines_file->Some_0;
        assert(b.max_lines_file is Some);
        let g = b.max_lines_file->Some_0;
        let i = choose|i: int| is_first_max_at(s, f@, i);
        let j = choose|j: int| is_first_max_at(t, g@, j);
        s.to_multiset_ensures();
        t.to_multiset_ensures();
        assert(t.contains(t[j]));
        assert(t.to_multiset().count(t[j]) > 0);
        assert(s.to_multiset().count(t[j]) > 0);
        assert(s.contains(t[j]));
        let k = choose|k: int| 0 <= k < s.len() && s[k] == t[j];
        assert(s[k].lines == max_lines(s));
        assert(s[i].lines == max_lines(s));
        assert(k == i);
        assert(f@.path == g@.path && f@.size == g@.size && f@.lines == g@.lines);
    }
}

proof fn lemma_sums_concat(a: Seq<RecordModel>, b: Seq<RecordModel>)
    ensures
        sum_sizes(a + b) == sum_sizes(a) + sum_sizes(b),
        sum_lines(a + b) == sum_lines(a) + sum_lines(b),
    decreases b.len(),
{
    if b.len() == 0 {
        assert(a + b =~= a);
    } else {
        lemma_sums_concat(a, b.drop_last());
        assert((a + b).drop_last() =~= a + b.drop_last());
        assert((a + b).last() == b.last());
    }
}

/// The records' mathematical images, in order.
pub open spec fn record_views(records: Seq<FileRecord>) -> Seq<RecordModel> {
    records.map_values(|x: FileRecord| x@)
}

/// Drain a whole batch of records in order and close the stream: the
/// returned summary describes exactly these records.
pub fn summarize_records(records: Vec<FileRecord>) -> (r: Summary)
    requires
        sum_sizes(record_views(records@)) <= u64::MAX,
        sum_lines(record_views(records@)) <= u64::MAX,
    ensures
        summarizes(r, record_views(records@)),
{
    let ghost all = record_views(records@);
    let mut rest = records;
    let mut agg = Aggregator::new();
    let total_records = rest.len();
    proof {
        assert(all.len() == total_records);
    }
    while rest.len() > 0
        invariant
            agg.wf(),
            agg.records() + record_views(rest@) == all,
            sum_sizes(all) <= u64::MAX,
            sum_lines(all) <= u64::MAX,
            agg.records().len() + rest@.len() == all.len(),
            all.len() == total_records,
        decreases rest@.len(),
    {
        let ghost h = agg.records();
        let ghost front = record_views(rest@);
        proof {
            lemma_sums_concat(h, front);
            lemma_aggregates_remove(front, 0);
            lemma_sums_nonnegative(front.remove(0));
            lemma_sums_nonnegative(h);
        }
        let r = rest.remove(0);
        agg.fold(r);
        proof {
            assert(record_views(rest@) =~= front.remove(0));
            assert(agg.records() + record_views(rest@) =~= all);
        }
    }
    proof {
        assert(record_views(rest@) =~= Seq::<RecordModel>::empty());
        assert(agg.records() =~= all);
    }
    agg.finish()
}

/// A directory no record points at has a zero total.
pub proof fn lemma_dir_total_zero_when_absent(s: Seq<RecordModel>, d: Seq<char>)
    requires
        !has_parent(s, d),
    ensures
        dir_total(s, d) == 0,
    decreases s.len(),
{
    if s.len() > 0 {
        assert(!has_parent(s.drop_last(), d)) by {
            if has_parent(s.drop_last(), d) {
                let i = choose|i: int|
                    0 <= i < s.drop_last().len() && s.drop_last()[i].parent == d;
                assert(s[i].parent == d);
            }
        }
        assert(s.last().parent != d) by {
            if s.last().parent == d {
                assert(s[s.len() - 1].parent == d);
            }
        }
        lemma_dir_total_zero_when_absent(s.drop_last(), d);
    }
}

} // verus!
