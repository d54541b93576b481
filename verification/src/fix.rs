use crate::coverage::{
    BranchCoverage, FileCoverage, FileCoverageView, LineCoverage, PackageCoverage, SourceCode,
    text_lines,
};
use crate::error::FixError;
use crate::order::{is_sorted, lemma_sort_sorted, sort_by_key, sort_records, Keyed};
use crate::pattern::{
    any_match, compile, matches_any, pattern_accepted, pattern_language, regex_language,
};
use regex::Regex;
use vstd::prelude::*;

verus! {

/// A closing brace with what may follow it, a lone `else`, or a line that is
/// blank but for a comment.
pub const BLOCK_END: &'static str =
    r"^(?:\s*\}(?:\s*\))*(?:\s*;)?|\s*(?:\}\s*)?else(?:\s*\{)?)?\s*(?://.*)?$";

/// The header of a public struct declaration.
pub const STRUCT_HEADER: &'static str = r"^\s*pub\s*struct\s*.*?\{\s*(?://.*)?$";

/// The header of a public enum declaration.
pub const ENUM_HEADER: &'static str = r"^\s*pub\s*enum\s*.*?\{\s*(?://.*)?$";

/// The header of a `for` loop.
pub const FOR_HEADER: &'static str = r"^\s*for\s*.*\{\s*(?://.*)?$";

/// The header of a `while` loop.
pub const WHILE_HEADER: &'static str = r"^\s*while\s*.*\{\s*(?://.*)?$";

/// The header of an embedded test module.
pub const TEST_HEADER: &'static str = r"^\s*mod\s*test\s*\{\s*(?://.*)?$";

/// The patterns of lines that are not executable.
pub open spec fn non_executable_patterns() -> Seq<Seq<char>> {
    seq![BLOCK_END@, STRUCT_HEADER@, ENUM_HEADER@]
}

/// The patterns of loop headers.
pub open spec fn loop_header_patterns() -> Seq<Seq<char>> {
    seq![FOR_HEADER@, WHILE_HEADER@]
}

/// The patterns of test module headers.
pub open spec fn test_header_patterns() -> Seq<Seq<char>> {
    seq![TEST_HEADER@]
}

/// The pattern compiler accepts every pattern of the list.
pub open spec fn all_accepted(patterns: Seq<Seq<char>>) -> bool {
    forall|i: int| 0 <= i < patterns.len() ==> pattern_accepted(#[trigger] patterns[i])
}

/// Some pattern of the list, once compiled, finds a match in `line`.
pub open spec fn listed(patterns: Seq<Seq<char>>, line: Seq<char>) -> bool {
    exists|i: int| 0 <= i < patterns.len() && #[trigger] pattern_language(patterns[i]).contains(line)
}

/// What the walk over one file carries from line to line.
#[derive(Clone, Copy, Debug)]
pub struct State {
    pub is_test: bool,
}

impl State {
    pub fn new() -> (s: State)
        ensures
            !s.is_test,
    {
        State { is_test: false }
    }
}

/// The rule set: three groups of compiled line patterns.
pub struct Fixer {
    ne_reg: Vec<Regex>,
    p_reg: Vec<Regex>,
    ts_reg: Vec<Regex>,
}

/// No line before line `k` is a test module header.
pub open spec fn clear_before(fixer: &Fixer, src: Seq<Seq<char>>, k: int) -> bool {
    forall|j: int| 0 <= j < k ==> !fixer.is_test_header(#[trigger] src[j])
}

/// Line `n` exists and neither it nor any line before it is a test module
/// header: the rules apply to the records of line `n`.
pub open spec fn active(fixer: &Fixer, src: Seq<Seq<char>>, n: int) -> bool {
    0 <= n < src.len() && clear_before(fixer, src, n + 1)
}

/// The walk over a source of `n_src` lines hands record `i` of the sorted
/// `lines` to the rules: its line exists, and the line numbers up to it
/// strictly increase.
pub open spec fn line_attached(lines: Seq<LineCoverage>, i: int, n_src: int) -> bool {
    &&& 0 <= i < lines.len()
    &&& lines[i].line_number < n_src
    &&& forall|a: int, b: int| 0 <= a < b <= i ==> lines[a].line_number < lines[b].line_number
}

/// The count of record `i` after the rules were applied.
pub open spec fn fixed_count(
    fixer: &Fixer,
    src: Seq<Seq<char>>,
    lines: Seq<LineCoverage>,
    i: int,
) -> Option<u32> {
    if line_attached(lines, i, src.len() as int) && active(fixer, src, lines[i].line_number as int)
        && fixer.is_non_executable(src[lines[i].line_number as int]) {
        None
    } else {
        lines[i].count
    }
}

/// The sorted line records after the rules were applied.
pub open spec fn fixed_lines(fixer: &Fixer, src: Seq<Seq<char>>, lines: Seq<LineCoverage>) -> Seq<
    LineCoverage,
> {
    Seq::new(
        lines.len(),
        |i: int|
            LineCoverage {
                line_number: lines[i].line_number,
                count: fixed_count(fixer, src, lines, i),
            },
    )
}

/// A line record is attached to line `n` and reads as not executable once
/// the rules for such lines were applied.
pub open spec fn gated(fixer: &Fixer, src: Seq<Seq<char>>, lines: Seq<LineCoverage>, n: int) -> bool {
    exists|i: int|
        #[trigger] line_attached(lines, i, src.len() as int) && lines[i].line_number == n
            && fixed_count(fixer, src, lines, i) is None
}

/// Whether branch `b` counts as taken after the rules were applied.
pub open spec fn fixed_taken(
    fixer: &Fixer,
    src: Seq<Seq<char>>,
    lines: Seq<LineCoverage>,
    b: BranchCoverage,
) -> bool {
    match b.line_number {
        None => b.taken,
        Some(n) => {
            if !active(fixer, src, n as int) {
                b.taken
            } else if fixer.is_loop_header(src[n as int]) && !gated(fixer, src, lines, n as int) {
                true
            } else if fixer.is_non_executable(src[n as int]) {
                false
            } else {
                b.taken
            }
        },
    }
}

/// The sorted branch records after the rules were applied; `lines` are the
/// sorted line records of the same file.
pub open spec fn fixed_branches(
    fixer: &Fixer,
    src: Seq<Seq<char>>,
    lines: Seq<LineCoverage>,
    branches: Seq<BranchCoverage>,
) -> Seq<BranchCoverage> {
    Seq::new(
        branches.len(),
        |i: int|
            BranchCoverage {
                line_number: branches[i].line_number,
                taken: fixed_taken(fixer, src, lines, branches[i]),
            },
    )
}

/// The coverage of one file after fixing: both record lists sorted, then
/// rewritten line by line.
pub open spec fn fixed_file(fixer: &Fixer, src: Seq<Seq<char>>, f: FileCoverageView) -> FileCoverageView {
    FileCoverageView {
        path: f.path,
        lines: fixed_lines(fixer, src, sort_by_key(f.lines)),
        branches: fixed_branches(fixer, src, sort_by_key(f.lines), sort_by_key(f.branches)),
    }
}

/// The line records after the rules met one source line: `idx` is the record
/// attached to the line, `ne` says whether the line is not executable.
pub open spec fn step_lines(ne: bool, lines: Seq<LineCoverage>, idx: Option<usize>) -> Seq<
    LineCoverage,
> {
    match idx {
        Some(i) => if ne {
            lines.update(
                i as int,
                LineCoverage { line_number: lines[i as int].line_number, count: None },
            )
        } else {
            lines
        },
        None => lines,
    }
}

/// What a branch of the line reads after the rules met the line: `pp` says
/// whether the line is a loop header.
pub open spec fn step_taken(
    ne: bool,
    pp: bool,
    lines: Seq<LineCoverage>,
    idx: Option<usize>,
    taken: bool,
) -> bool {
    let dead = match idx {
        Some(i) => ne || lines[i as int].count is None,
        None => false,
    };
    if pp && !dead {
        true
    } else if ne {
        false
    } else {
        taken
    }
}

/// The branch records after the rules met one source line whose branches
/// are those from `lo` up to `hi`.
pub open spec fn step_branches(
    ne: bool,
    pp: bool,
    lines: Seq<LineCoverage>,
    idx: Option<usize>,
    branches: Seq<BranchCoverage>,
    lo: int,
    hi: int,
) -> Seq<BranchCoverage> {
    Seq::new(
        branches.len(),
        |j: int|
            if lo <= j < hi {
                BranchCoverage {
                    line_number: branches[j].line_number,
                    taken: step_taken(ne, pp, lines, idx, branches[j].taken),
                }
            } else {
                branches[j]
            },
    )
}

/// Applies the rules for one source line, given what the patterns said of
/// it, to the line record `line_idx` and to the branch records from `lo` up
/// to `hi`.
pub fn apply_rules(
    ne: bool,
    pp: bool,
    lines: &mut Vec<LineCoverage>,
    line_idx: Option<usize>,
    branches: &mut Vec<BranchCoverage>,
    lo: usize,
    hi: usize,
)
    requires
        line_idx matches Some(i) ==> i < old(lines)@.len(),
        lo <= hi <= old(branches)@.len(),
    ensures
        final(lines)@ == step_lines(ne, old(lines)@, line_idx),
        final(branches)@ == step_branches(
            ne,
            pp,
            old(lines)@,
            line_idx,
            old(branches)@,
            lo as int,
            hi as int,
        ),
{
    let mut dead = false;
    if let Some(i) = line_idx {
        let rec = lines[i];
        if ne {
            lines.set(i, LineCoverage { line_number: rec.line_number, count: None });
        }
        dead = ne || rec.count.is_none();
    }
    let ghost before = branches@;
    if pp && !dead {
        set_taken(branches, lo, hi, true);
    } else if ne {
        set_taken(branches, lo, hi, false);
    }
    assert(branches@ =~= step_branches(ne, pp, old(lines)@, line_idx, before, lo as int, hi as int));
}

/// Sets `taken` of the branch records from `lo` up to `hi`.
fn set_taken(branches: &mut Vec<BranchCoverage>, lo: usize, hi: usize, taken: bool)
    requires
        lo <= hi <= old(branches)@.len(),
    ensures
        final(branches)@.len() == old(branches)@.len(),
        forall|j: int|
            0 <= j < old(branches)@.len() ==> #[trigger] final(branches)@[j] == (if lo <= j < hi {
                BranchCoverage { line_number: old(branches)@[j].line_number, taken }
            } else {
                old(branches)@[j]
            }),
{
    let mut j: usize = lo;
    while j < hi
        invariant
            lo <= j <= hi <= branches@.len(),
            branches@.len() == old(branches)@.len(),
            forall|t: int|
                0 <= t < branches@.len() ==> #[trigger] branches@[t] == (if lo <= t < j {
                    BranchCoverage { line_number: old(branches)@[t].line_number, taken }
                } else {
                    old(branches)@[t]
                }),
        decreases hi - j,
    {
        let rec = branches[j];
        branches.set(j, BranchCoverage { line_number: rec.line_number, taken });
        j += 1;
    }
}

/// Takes what the pattern compiler made of one pattern into a rule group:
/// a compiled expression joins the group, a refusal is an error and leaves
/// the group as it was.
pub fn add_rule(group: &mut Vec<Regex>, compiled: Result<Regex, regex::Error>) -> (r: Result<
    (),
    FixError,
>)
    ensures
        match compiled {
            Ok(re) => r is Ok && final(group)@ == old(group)@.push(re),
            Err(_) => r == Err::<(), FixError>(FixError::InitializationFailed) && final(group)@
                == old(group)@,
        },
{
    match compiled {
        Ok(re) => {
            group.push(re);
            Ok(())
        },
        Err(_) => Err(FixError::InitializationFailed),
    }
}

/// Compiles each pattern of a rule group, up to the first that the pattern
/// compiler refuses.
fn compile_all(patterns: Vec<&'static str>) -> (r: Result<Vec<Regex>, FixError>)
    ensures
        r is Ok <==> (forall|i: int|
            0 <= i < patterns@.len() ==> pattern_accepted(#[trigger] patterns@[i]@)),
        match r {
            Ok(regs) => {
                &&& regs@.len() == patterns@.len()
                &&& forall|i: int|
                    0 <= i < regs@.len() ==> #[trigger] regex_language(regs@[i])
                        == pattern_language(patterns@[i]@)
            },
            Err(e) => e is InitializationFailed,
        },
{
    let mut regs: Vec<Regex> = Vec::new();
    let mut i: usize = 0;
    while i < patterns.len()
        invariant
            i <= patterns@.len(),
            regs@.len() == i,
            forall|j: int| 0 <= j < i ==> pattern_accepted(#[trigger] patterns@[j]@),
            forall|j: int|
                0 <= j < i ==> #[trigger] regex_language(regs@[j]) == pattern_language(
                    patterns@[j]@,
                ),
        decreases patterns.len() - i,
    {
        match add_rule(&mut regs, compile(patterns[i])) {
            Ok(()) => {},
            Err(e) => {
                assert(!pattern_accepted(patterns@[i as int]@));
                return Err(e);
            },
        }
        i += 1;
    }
    Ok(regs)
}

/// The compiler accepts all of a list of pattern texts exactly where it
/// accepts all of the same patterns given as a sequence of their views.
proof fn lemma_same_patterns(texts: Seq<&'static str>, patterns: Seq<Seq<char>>)
    requires
        texts.len() == patterns.len(),
        forall|i: int| 0 <= i < texts.len() ==> (#[trigger] texts[i])@ == patterns[i],
    ensures
        all_accepted(patterns) <==> (forall|i: int|
            0 <= i < texts.len() ==> pattern_accepted(#[trigger] texts[i]@)),
{
    if all_accepted(patterns) {
        assert forall|i: int| 0 <= i < texts.len() implies pattern_accepted(
            #[trigger] texts[i]@,
        ) by {
            assert(pattern_accepted(patterns[i]));
        }
    }
    if forall|i: int| 0 <= i < texts.len() ==> pattern_accepted(#[trigger] texts[i]@) {
        assert forall|i: int| 0 <= i < patterns.len() implies pattern_accepted(
            #[trigger] patterns[i],
        ) by {
            assert(pattern_accepted(texts[i]@));
        }
    }
}

/// A compiled rule group says of every line what its patterns say.
proof fn lemma_group(regs: Seq<Regex>, patterns: Seq<Seq<char>>)
    requires
        regs.len() == patterns.len(),
        forall|i: int|
            0 <= i < regs.len() ==> #[trigger] regex_language(regs[i]) == pattern_language(
                patterns[i],
            ),
    ensures
        forall|line: Seq<char>| matches_any(regs, line) == listed(patterns, line),
{
    assert forall|line: Seq<char>| matches_any(regs, line) == listed(patterns, line) by {
        if matches_any(regs, line) {
            let i = choose|i: int|
                0 <= i < regs.len() && #[trigger] regex_language(regs[i]).contains(line);
            assert(pattern_language(patterns[i]).contains(line));
        }
        if listed(patterns, line) {
            let i = choose|i: int|
                0 <= i < patterns.len() && #[trigger] pattern_language(patterns[i]).contains(line);
            assert(regex_language(regs[i]).contains(line));
        }
    }
}

/// Source `i` was handed over and could be read.
pub open spec fn readable(sources: Seq<Option<String>>, i: int) -> bool {
    0 <= i < sources.len() && sources[i] is Some
}

/// Each of the first `n` sources was handed over and could be read.
pub open spec fn all_readable(sources: Seq<Option<String>>, n: int) -> bool {
    forall|i: int| 0 <= i < n ==> readable(sources, i)
}

/// Whether the branch record belongs to line `k`.
fn on_line(b: &BranchCoverage, k: usize) -> (r: bool)
    ensures
        r == (b.line_number == Some(k)),
{
    match b.line_number {
        Some(n) => n == k,
        None => false,
    }
}

/// Where the line cursor stands at source line `k`: the records before `li`
/// were handed to the rules at earlier lines; the record at `li` is still to
/// come, or repeats the line number before it and is never reached.
spec fn line_cursor(l0: Seq<LineCoverage>, li: int, k: int) -> bool {
    &&& 0 <= li <= l0.len()
    &&& forall|i: int| 0 <= i < li ==> (#[trigger] l0[i]).line_number < k
    &&& forall|a: int, b: int|
        0 <= a < b < li ==> (#[trigger] l0[a]).line_number < (#[trigger] l0[b]).line_number
    &&& li < l0.len() ==> (l0[li].line_number >= k || (li > 0 && l0[li].line_number == l0[li
        - 1].line_number))
}

/// At source line `k` the record under the cursor is the only one that can
/// be attached to the line.
proof fn lemma_cursor(src: Seq<Seq<char>>, l0: Seq<LineCoverage>, li: int, k: int)
    requires
        is_sorted(l0),
        line_cursor(l0, li, k),
        0 <= k < src.len(),
    ensures
        (li < l0.len() && l0[li].line_number == k) ==> line_attached(l0, li, src.len() as int)
            && line_cursor(l0, li + 1, k + 1),
        !(li < l0.len() && l0[li].line_number == k) ==> line_cursor(l0, li, k + 1),
        forall|i: int|
            #[trigger] line_attached(l0, i, src.len() as int) && l0[i].line_number == k ==> i
                == li,
{
    assert forall|i: int|
        #[trigger] line_attached(l0, i, src.len() as int) && l0[i].line_number == k implies i
        == li by {
        if i < li {
            assert(l0[i].line_number < k);
        } else if i > li {
            assert(l0[li].key() <= l0[i].key());
            if li > 0 {
                assert(l0[li - 1].line_number < l0[li].line_number);
            }
        }
    }
    if li < l0.len() && l0[li].line_number == k {
        if li + 1 < l0.len() {
            assert(l0[li].key() <= l0[li + 1].key());
        }
    }
}

/// Behind the end of the source no record is attached to a line.
proof fn lemma_cursor_end(l0: Seq<LineCoverage>, li: int, n_src: int)
    requires
        is_sorted(l0),
        line_cursor(l0, li, n_src),
    ensures
        forall|i: int| li <= i < l0.len() ==> !line_attached(l0, i, n_src),
{
    assert forall|i: int| li <= i < l0.len() implies !line_attached(l0, i, n_src) by {
        assert(l0[li].key() <= l0[i].key() || i == li);
        if li > 0 && line_attached(l0, i, n_src) {
            assert(l0[li - 1].line_number < l0[li].line_number);
        }
    }
}

impl Fixer {
    /// The line matches a pattern of lines that are not executable.
    pub closed spec fn is_non_executable(&self, line: Seq<char>) -> bool {
        matches_any(self.ne_reg@, line)
    }

    /// The line matches a pattern of loop headers.
    pub closed spec fn is_loop_header(&self, line: Seq<char>) -> bool {
        matches_any(self.p_reg@, line)
    }

    /// The line matches a pattern of test module headers.
    pub closed spec fn is_test_header(&self, line: Seq<char>) -> bool {
        matches_any(self.ts_reg@, line)
    }

    /// The fixer judges every line by the built-in patterns.
    pub open spec fn built_in(&self) -> bool {
        forall|line: Seq<char>|
            {
                &&& #[trigger] self.is_non_executable(line) == listed(non_executable_patterns(), line)
                &&& #[trigger] self.is_loop_header(line) == listed(loop_header_patterns(), line)
                &&& #[trigger] self.is_test_header(line) == listed(test_header_patterns(), line)
            }
    }

    /// Builds the rule set from the built-in patterns. Succeeds exactly
    /// where the pattern compiler accepts each of them.
    pub fn new() -> (r: Result<Fixer, FixError>)
        ensures
            r is Ok <==> all_accepted(non_executable_patterns()) && all_accepted(
                loop_header_patterns(),
            ) && all_accepted(test_header_patterns()),
            r matches Ok(f) ==> f.built_in(),
            r matches Err(e) ==> e is InitializationFailed,
    {
        let ne_pat: Vec<&'static str> = vec![BLOCK_END, STRUCT_HEADER, ENUM_HEADER];
        let p_pat: Vec<&'static str> = vec![FOR_HEADER, WHILE_HEADER];
        let ts_pat: Vec<&'static str> = vec![TEST_HEADER];
        proof {
            lemma_same_patterns(ne_pat@, non_executable_patterns());
            lemma_same_patterns(p_pat@, loop_header_patterns());
            lemma_same_patterns(ts_pat@, test_header_patterns());
        }
        let ne_reg = match compile_all(ne_pat) {
            Ok(regs) => regs,
            Err(e) => {
                return Err(e);
            },
        };
        let p_reg = match compile_all(p_pat) {
            Ok(regs) => regs,
            Err(e) => {
                return Err(e);
            },
        };
        let ts_reg = match compile_all(ts_pat) {
            Ok(regs) => regs,
            Err(e) => {
                return Err(e);
            },
        };
        proof {
            lemma_group(ne_reg@, non_executable_patterns());
            lemma_group(p_reg@, loop_header_patterns());
            lemma_group(ts_reg@, test_header_patterns());
        }
        Ok(Fixer { ne_reg, p_reg, ts_reg })
    }

    /// Applies the rules to the records of one source line: `line_idx` is
    /// the line record attached to it, the branch records from `lo` up to
    /// `hi` are its branches. Inside a test module nothing is rewritten, and
    /// the header of a test module only sets the state.
    pub fn process_line(
        &self,
        line: &str,
        lines: &mut Vec<LineCoverage>,
        line_idx: Option<usize>,
        branches: &mut Vec<BranchCoverage>,
        lo: usize,
        hi: usize,
        state: &mut State,
    )
        requires
            line_idx matches Some(i) ==> i < old(lines)@.len(),
            lo <= hi <= old(branches)@.len(),
        ensures
            final(state).is_test == (old(state).is_test || self.is_test_header(line@)),
            final(lines)@ == step_lines(
                !final(state).is_test && self.is_non_executable(line@),
                old(lines)@,
                line_idx,
            ),
            final(branches)@ == step_branches(
                !final(state).is_test && self.is_non_executable(line@),
                !final(state).is_test && self.is_loop_header(line@),
                old(lines)@,
                line_idx,
                old(branches)@,
                lo as int,
                hi as int,
            ),
    {
        if state.is_test || any_match(&self.ts_reg, line) {
            state.is_test = true;
            assert(branches@ =~= step_branches(
                false,
                false,
                lines@,
                line_idx,
                branches@,
                lo as int,
                hi as int,
            ));
            return ;
        }
        if line_idx.is_none() && lo == hi {
            assert(branches@ =~= step_branches(
                self.is_non_executable(line@),
                self.is_loop_header(line@),
                lines@,
                line_idx,
                branches@,
                lo as int,
                hi as int,
            ));
            return ;
        }
        let ne = any_match(&self.ne_reg, line);
        let pp = any_match(&self.p_reg, line);
        apply_rules(ne, pp, lines, line_idx, branches, lo, hi);
    }

    /// Walks the source line by line and applies the rules to the records
    /// of each line. Both record lists are sorted; branch records without a
    /// line come first and are passed over.
    pub fn rewrite_sorted(
        &self,
        source: &SourceCode,
        lines: &mut Vec<LineCoverage>,
        branches: &mut Vec<BranchCoverage>,
    )
        requires
            is_sorted(old(lines)@),
            is_sorted(old(branches)@),
        ensures
            final(lines)@ == fixed_lines(self, source@, old(lines)@),
            final(branches)@ == fixed_branches(self, source@, old(lines)@, old(branches)@),
    {
        let ghost l0 = lines@;
        let ghost b0 = branches@;
        let ghost src = source@;
        let n_lines: usize = lines.len();
        let n_br: usize = branches.len();
        let n_src: usize = source.len();
        let mut state = State::new();
        let mut li: usize = 0;
        let mut bi: usize = 0;
        while bi < n_br && branches[bi].line_number.is_none()
            invariant
                bi <= n_br,
                n_br == b0.len(),
                branches@ == b0,
                forall|i: int| 0 <= i < bi ==> (#[trigger] b0[i]).line_number is None,
            decreases n_br - bi,
        {
            bi += 1;
        }
        assert(bi < n_br ==> b0[bi as int].key() >= 0);
        let mut k: usize = 0;
        while k < n_src
            invariant
                k <= n_src,
                n_src == src.len(),
                src == source@,
                lines@.len() == l0.len(),
                n_lines == l0.len(),
                branches@.len() == b0.len(),
                n_br == b0.len(),
                is_sorted(l0),
                is_sorted(b0),
                bi <= n_br,
                state.is_test == !clear_before(self, src, k as int),
                line_cursor(l0, li as int, k as int),
                forall|i: int| 0 <= i < li ==> #[trigger] lines@[i] == fixed_lines(self, src, l0)[i],
                forall|i: int| li <= i < n_lines ==> #[trigger] lines@[i] == l0[i],
                forall|i: int| 0 <= i < bi ==> (#[trigger] b0[i]).key() < k,
                bi < n_br ==> b0[bi as int].key() >= k,
                forall|i: int|
                    0 <= i < bi ==> #[trigger] branches@[i] == fixed_branches(self, src, l0, b0)[i],
                forall|i: int| bi <= i < n_br ==> #[trigger] branches@[i] == b0[i],
            decreases n_src - k,
        {
            let line_idx: Option<usize> = if li < n_lines && lines[li].line_number == k {
                Some(li)
            } else {
                None
            };
            let lo: usize = bi;
            while bi < n_br && on_line(&branches[bi], k)
                invariant
                    lo <= bi <= n_br,
                    n_br == b0.len(),
                    branches@.len() == b0.len(),
                    forall|i: int| lo <= i < n_br ==> #[trigger] branches@[i] == b0[i],
                    forall|i: int| lo <= i < bi ==> (#[trigger] b0[i]).line_number == Some(k),
                decreases n_br - bi,
            {
                bi += 1;
            }
            let ghost lines_before = lines@;
            let ghost branches_before = branches@;
            let ghost was_test = state.is_test;
            self.process_line(source.line(k), lines, line_idx, branches, lo, bi, &mut state);
            proof {
                let text = src[k as int];
                let live = !state.is_test;
                assert(clear_before(self, src, k + 1) == (clear_before(self, src, k as int)
                    && !self.is_test_header(text)));
                assert(live == active(self, src, k as int));
                lemma_cursor(src, l0, li as int, k as int);
                if bi < n_br {
                    assert(b0[lo as int].key() <= b0[bi as int].key());
                }
                let has = line_idx is Some;
                let dead = has && (self.is_non_executable(text) || l0[li as int].count is None);
                if live {
                    if has {
                        assert(line_attached(l0, li as int, src.len() as int));
                        assert(fixed_count(self, src, l0, li as int) is None == dead);
                    }
                    assert(gated(self, src, l0, k as int) == dead);
                }
                assert forall|i: int| lo <= i < bi implies #[trigger] branches@[i]
                    == fixed_branches(self, src, l0, b0)[i] by {
                    assert(b0[i].line_number == Some(k));
                    assert(branches_before[i] == b0[i]);
                }
                assert forall|i: int| bi <= i < n_br implies #[trigger] branches@[i] == b0[i] by {
                    assert(branches_before[i] == b0[i]);
                }
                assert forall|i: int| 0 <= i < lo implies #[trigger] branches@[i]
                    == fixed_branches(self, src, l0, b0)[i] by {
                    assert(branches@[i] == branches_before[i]);
                }
            }
            if line_idx.is_some() {
                li += 1;
            }
            k += 1;
        }
        proof {
            lemma_cursor_end(l0, li as int, n_src as int);
            assert(lines@ =~= fixed_lines(self, src, l0));
            assert forall|i: int| bi <= i < n_br implies #[trigger] branches@[i] == fixed_branches(
                self,
                src,
                l0,
                b0,
            )[i] by {
                assert(b0[bi as int].key() <= b0[i].key() || i == bi);
            }
            assert(branches@ =~= fixed_branches(self, src, l0, b0));
        }
    }

    /// Fixes the records of one file against its source: sorts both record
    /// lists by line number, then rewrites them line by line.
    pub fn process_file(&self, source: &SourceCode, cov: &mut FileCoverage)
        ensures
            final(cov)@ == fixed_file(self, source@, old(cov)@),
    {
        proof {
            lemma_sort_sorted(cov.line_coverages@);
            lemma_sort_sorted(cov.branch_coverages@);
        }
        sort_records(&mut cov.line_coverages);
        sort_records(&mut cov.branch_coverages);
        self.rewrite_sorted(source, &mut cov.line_coverages, &mut cov.branch_coverages);
    }

    /// Fixes every file of the report, in order. `sources[i]` is the text of
    /// the source file of file `i`, or `None` where it could not be read.
    /// Stops at the first file whose source is missing: the files before it
    /// are fixed, that file and those after it are left as they were.
    pub fn fix(&self, data: &mut PackageCoverage, sources: &Vec<Option<String>>) -> (r: Result<
        (),
        FixError,
    >)
        ensures
            final(data).file_coverages@.len() == old(data).file_coverages@.len(),
            r is Ok <==> all_readable(sources@, old(data).file_coverages@.len() as int),
            forall|i: int|
                0 <= i < old(data).file_coverages@.len() ==> (#[trigger] final(data).file_coverages@[i])@ == (if all_readable(sources@, i + 1) {
                    fixed_file(
                        self,
                        text_lines(sources@[i]->0@),
                        old(data).file_coverages@[i]@,
                    )
                } else {
                    old(data).file_coverages@[i]@
                }),
            r matches Err(e) ==> exists|j: int|
                0 <= j < old(data).file_coverages@.len() && all_readable(sources@, j) && !readable(
                    sources@,
                    j,
                ) && e.unreadable_path() == Some((#[trigger] old(data).file_coverages@[j])@.path),
    {
        let n: usize = data.file_coverages.len();
        let mut i: usize = 0;
        while i < n
            invariant
                i <= n,
                n == old(data).file_coverages@.len(),
                data.file_coverages@.len() == n,
                all_readable(sources@, i as int),
                forall|t: int|
                    0 <= t < i ==> (#[trigger] data.file_coverages@[t])@ == fixed_file(
                        self,
                        text_lines(sources@[t]->0@),
                        old(data).file_coverages@[t]@,
                    ),
                forall|t: int|
                    i <= t < n ==> (#[trigger] data.file_coverages@[t]) == old(data).file_coverages@[t],
            decreases n - i,
        {
            if i >= sources.len() {
                assert(!readable(sources@, i as int));
                return Err(FixError::SourceReadFailed(data.file_coverages[i].path.clone()));
            }
            match &sources[i] {
                None => {
                    assert(!readable(sources@, i as int));
                    return Err(FixError::SourceReadFailed(data.file_coverages[i].path.clone()));
                },
                Some(content) => {
                    let source = SourceCode::new(content.as_str());
                    self.process_file(&source, &mut data.file_coverages[i]);
                },
            }
            i += 1;
        }
        Ok(())
    }
}

} // verus!
