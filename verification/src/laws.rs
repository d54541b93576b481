use crate::coverage::{FileCoverageView, LineCoverage};
use crate::fix::{
    active, clear_before, fixed_branches, fixed_count, fixed_file, fixed_lines, fixed_taken, gated,
    line_attached, Fixer,
};
use crate::order::{is_sorted, lemma_sort_fixed, lemma_sort_permutes, lemma_sort_sorted, sort_by_key, Keyed};
use vstd::prelude::*;

verus! {

/// The records of a file with both lists sorted and nothing else changed.
pub open spec fn sorted_file(f: FileCoverageView) -> FileCoverageView {
    FileCoverageView {
        path: f.path,
        lines: sort_by_key(f.lines),
        branches: sort_by_key(f.branches),
    }
}

/// Some record of the sorted `lines` is attached to line `n`.
pub open spec fn attached_at(lines: Seq<LineCoverage>, n: int, n_src: int) -> bool {
    exists|i: int| #[trigger] line_attached(lines, i, n_src) && lines[i].line_number == n
}

/// Fixing touches `count` and `taken` only: record by record, the fixed
/// file has the line numbers of the sorted file.
pub proof fn lemma_fix_keeps_line_numbers(fixer: &Fixer, src: Seq<Seq<char>>, f: FileCoverageView)
    ensures
        fixed_file(fixer, src, f).path == f.path,
        fixed_file(fixer, src, f).lines.len() == sorted_file(f).lines.len(),
        fixed_file(fixer, src, f).branches.len() == sorted_file(f).branches.len(),
        forall|i: int|
            0 <= i < sorted_file(f).lines.len() ==> (#[trigger] fixed_file(fixer, src, f).lines[i]).line_number == sorted_file(f).lines[i].line_number,
        forall|i: int|
            0 <= i < sorted_file(f).branches.len() ==> (#[trigger] fixed_file(fixer, src, f).branches[i]).line_number == sorted_file(f).branches[i].line_number,
{
}

/// After fixing, the line records are in ascending order of their line
/// numbers, and so are the branch records, those without a line first.
pub proof fn lemma_fixed_is_sorted(fixer: &Fixer, src: Seq<Seq<char>>, f: FileCoverageView)
    ensures
        is_sorted(fixed_file(fixer, src, f).lines),
        is_sorted(fixed_file(fixer, src, f).branches),
{
    lemma_sort_sorted(f.lines);
    lemma_sort_sorted(f.branches);
    lemma_fix_keeps_line_numbers(fixer, src, f);
    let ls = sort_by_key(f.lines);
    let bs = sort_by_key(f.branches);
    let fl = fixed_file(fixer, src, f).lines;
    let fb = fixed_file(fixer, src, f).branches;
    assert forall|a: int, b: int| 0 <= a < b < fl.len() implies fl[a].key() <= fl[b].key() by {
        assert(ls[a].key() <= ls[b].key());
    }
    assert forall|a: int, b: int| 0 <= a < b < fb.len() implies fb[a].key() <= fb[b].key() by {
        assert(bs[a].key() <= bs[b].key());
    }
}

/// Fixing neither adds nor removes a record: both lists keep their length,
/// and the sorted lists that are rewritten hold exactly the records given.
pub proof fn lemma_fix_keeps_records(fixer: &Fixer, src: Seq<Seq<char>>, f: FileCoverageView)
    ensures
        fixed_file(fixer, src, f).lines.len() == f.lines.len(),
        fixed_file(fixer, src, f).branches.len() == f.branches.len(),
        sorted_file(f).lines.to_multiset() == f.lines.to_multiset(),
        sorted_file(f).branches.to_multiset() == f.branches.to_multiset(),
{
    lemma_sort_sorted(f.lines);
    lemma_sort_sorted(f.branches);
    lemma_sort_permutes(f.lines);
    lemma_sort_permutes(f.branches);
}

/// Fixing a fixed file against the same source changes nothing.
pub proof fn lemma_fix_idempotent(fixer: &Fixer, src: Seq<Seq<char>>, f: FileCoverageView)
    ensures
        fixed_file(fixer, src, fixed_file(fixer, src, f)) == fixed_file(fixer, src, f),
{
    let ls = sort_by_key(f.lines);
    let bs = sort_by_key(f.branches);
    let once = fixed_file(fixer, src, f);
    let fl = once.lines;
    let fb = once.branches;
    lemma_fixed_is_sorted(fixer, src, f);
    lemma_sort_fixed(fl);
    lemma_sort_fixed(fb);
    let n_src = src.len() as int;
    assert forall|i: int| line_attached(fl, i, n_src) == line_attached(ls, i, n_src) by {
        if 0 <= i < ls.len() {
            if line_attached(ls, i, n_src) {
                assert forall|a: int, b: int| 0 <= a < b <= i implies fl[a].line_number
                    < fl[b].line_number by {
                    assert(ls[a].line_number < ls[b].line_number);
                }
            }
            if line_attached(fl, i, n_src) {
                assert forall|a: int, b: int| 0 <= a < b <= i implies ls[a].line_number
                    < ls[b].line_number by {
                    assert(fl[a].line_number < fl[b].line_number);
                }
            }
        }
    }
    assert forall|i: int| 0 <= i < fl.len() implies fixed_count(fixer, src, fl, i) == fixed_count(
        fixer,
        src,
        ls,
        i,
    ) by {
        assert(line_attached(fl, i, n_src) == line_attached(ls, i, n_src));
    }
    assert(fixed_lines(fixer, src, fl) =~= fl);
    assert forall|n: int| gated(fixer, src, fl, n) == gated(fixer, src, ls, n) by {
        if gated(fixer, src, ls, n as int) {
            let i = choose|i: int|
                #[trigger] line_attached(ls, i, n_src) && ls[i].line_number == n && fixed_count(
                    fixer,
                    src,
                    ls,
                    i,
                ) is None;
            assert(line_attached(fl, i, n_src));
        }
        if gated(fixer, src, fl, n) {
            let i = choose|i: int|
                #[trigger] line_attached(fl, i, n_src) && fl[i].line_number == n && fixed_count(
                    fixer,
                    src,
                    fl,
                    i,
                ) is None;
            assert(line_attached(ls, i, n_src));
        }
    }
    assert forall|j: int| 0 <= j < fb.len() implies fixed_taken(fixer, src, fl, fb[j])
        == fb[j].taken by {
        match bs[j].line_number {
            None => {},
            Some(n) => {
                assert(gated(fixer, src, fl, n as int) == gated(fixer, src, ls, n as int));
            },
        }
    }
    assert(fixed_branches(fixer, src, fl, fb) =~= fb);
}

/// Where no line of the source is a non-executable line, a loop header or a
/// test module header, fixing only sorts.
pub proof fn lemma_fix_isolated(fixer: &Fixer, src: Seq<Seq<char>>, f: FileCoverageView)
    requires
        forall|k: int|
            0 <= k < src.len() ==> !fixer.is_non_executable(#[trigger] src[k])
                && !fixer.is_loop_header(src[k]) && !fixer.is_test_header(src[k]),
    ensures
        fixed_file(fixer, src, f) == sorted_file(f),
{
    let ls = sort_by_key(f.lines);
    let bs = sort_by_key(f.branches);
    assert(fixed_lines(fixer, src, ls) =~= ls);
    assert(fixed_branches(fixer, src, ls, bs) =~= bs);
}

/// From the first test module header on, the records of a line are left
/// as they were: line `n` is that header or comes after it.
pub proof fn lemma_fix_suppressed(
    fixer: &Fixer,
    src: Seq<Seq<char>>,
    f: FileCoverageView,
    header: int,
    n: usize,
)
    requires
        0 <= header <= n,
        header < src.len(),
        fixer.is_test_header(src[header]),
    ensures
        forall|i: int|
            0 <= i < sorted_file(f).lines.len() && sorted_file(f).lines[i].line_number == n
                ==> #[trigger] fixed_file(fixer, src, f).lines[i] == sorted_file(f).lines[i],
        forall|j: int|
            0 <= j < sorted_file(f).branches.len() && sorted_file(f).branches[j].line_number
                == Some(n) ==> #[trigger] fixed_file(fixer, src, f).branches[j]
                == sorted_file(f).branches[j],
{
    assert(!clear_before(fixer, src, n + 1));
    assert(!active(fixer, src, n as int));
}

/// Before any test module header, a line that is not executable has every
/// attached line record marked as not executable and every branch not
/// taken. A branch is left out only where the line is a loop header as well
/// and has no line record.
pub proof fn lemma_non_executable_line(
    fixer: &Fixer,
    src: Seq<Seq<char>>,
    f: FileCoverageView,
    n: usize,
)
    requires
        active(fixer, src, n as int),
        fixer.is_non_executable(src[n as int]),
    ensures
        forall|i: int|
            #[trigger] line_attached(sorted_file(f).lines, i, src.len() as int) && sorted_file(f).lines[i].line_number == n ==> fixed_file(fixer, src, f).lines[i].count is None,
        !fixer.is_loop_header(src[n as int]) || attached_at(
            sorted_file(f).lines,
            n as int,
            src.len() as int,
        )
            ==> forall|j: int|
            0 <= j < sorted_file(f).branches.len() && sorted_file(f).branches[j].line_number
                == Some(n) ==> !(#[trigger] fixed_file(fixer, src, f).branches[j]).taken,
{
    let ls = sort_by_key(f.lines);
    let n_src = src.len() as int;
    if attached_at(ls, n as int, n_src) {
        let i = choose|i: int| #[trigger] line_attached(ls, i, n_src) && ls[i].line_number == n;
        assert(fixed_count(fixer, src, ls, i) is None);
        assert(gated(fixer, src, ls, n as int));
    }
}

/// Before any test module header, every branch of a loop header is taken,
/// unless a line record attached to the line reads as not executable.
pub proof fn lemma_loop_header_line(
    fixer: &Fixer,
    src: Seq<Seq<char>>,
    f: FileCoverageView,
    n: usize,
)
    requires
        active(fixer, src, n as int),
        fixer.is_loop_header(src[n as int]),
        forall|i: int|
            #[trigger] line_attached(sorted_file(f).lines, i, src.len() as int) && sorted_file(f).lines[i].line_number == n ==> fixed_file(fixer, src, f).lines[i].count is Some,
    ensures
        forall|j: int|
            0 <= j < sorted_file(f).branches.len() && sorted_file(f).branches[j].line_number
                == Some(n) ==> (#[trigger] fixed_file(fixer, src, f).branches[j]).taken,
{
    let ls = sort_by_key(f.lines);
    let n_src = src.len() as int;
    if gated(fixer, src, ls, n as int) {
        let i = choose|i: int|
            #[trigger] line_attached(ls, i, n_src) && ls[i].line_number == n && fixed_count(
                fixer,
                src,
                ls,
                i,
            ) is None;
        assert(line_attached(sorted_file(f).lines, i, n_src));
        assert(fixed_file(fixer, src, f).lines[i].count == fixed_count(fixer, src, ls, i));
        assert(false);
    }
}

/// Before any test module header, a loop header that is not itself a line
/// that is not executable keeps its line records as they were, and every
/// branch of it is taken unless an attached line record already read as not
/// executable.
pub proof fn lemma_loop_header_only_line(
    fixer: &Fixer,
    src: Seq<Seq<char>>,
    f: FileCoverageView,
    n: usize,
)
    requires
        active(fixer, src, n as int),
        fixer.is_loop_header(src[n as int]),
        !fixer.is_non_executable(src[n as int]),
    ensures
        forall|i: int|
            0 <= i < sorted_file(f).lines.len() && sorted_file(f).lines[i].line_number == n
                ==> #[trigger] fixed_file(fixer, src, f).lines[i] == sorted_file(f).lines[i],
        (forall|i: int|
            #[trigger] line_attached(sorted_file(f).lines, i, src.len() as int) && sorted_file(f).lines[i].line_number == n ==> sorted_file(f).lines[i].count is Some)
            ==> forall|j: int|
            0 <= j < sorted_file(f).branches.len() && sorted_file(f).branches[j].line_number
                == Some(n) ==> (#[trigger] fixed_file(fixer, src, f).branches[j]).taken,
{
    let ls = sort_by_key(f.lines);
    let n_src = src.len() as int;
    if gated(fixer, src, ls, n as int) {
        let i = choose|i: int|
            #[trigger] line_attached(ls, i, n_src) && ls[i].line_number == n && fixed_count(
                fixer,
                src,
                ls,
                i,
            ) is None;
        assert(line_attached(sorted_file(f).lines, i, n_src));
        assert(ls[i].count is None);
    }
}

/// A branch record without a line is left as it was.
pub proof fn lemma_unplaced_branch_kept(fixer: &Fixer, src: Seq<Seq<char>>, f: FileCoverageView)
    ensures
        forall|j: int|
            0 <= j < sorted_file(f).branches.len() && sorted_file(f).branches[j].line_number is None
                ==> #[trigger] fixed_file(fixer, src, f).branches[j] == sorted_file(f).branches[j],
{
}

/// Where no two line records share a line, a record is attached to its line
/// as soon as the source has that line.
pub proof fn lemma_distinct_lines_attached(lines: Seq<LineCoverage>, n_src: int)
    requires
        forall|a: int, b: int|
            0 <= a < b < lines.len() ==> lines[a].line_number < lines[b].line_number,
    ensures
        forall|i: int|
            0 <= i < lines.len() && lines[i].line_number < n_src ==> #[trigger] line_attached(
                lines,
                i,
                n_src,
            ),
{
}

} // verus!
