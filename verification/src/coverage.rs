use crate::order::Keyed;
use vstd::prelude::*;

verus! {

/// How often one source line ran. `count` is `None` for a line that is not
/// executable.
#[derive(Clone, Copy, Debug, PartialEq, Eq)]
pub struct LineCoverage {
    pub line_number: usize,
    pub count: Option<u32>,
}

/// Whether one branch was taken. `line_number` is `None` for a branch that
/// belongs to no line.
#[derive(Clone, Copy, Debug, PartialEq, Eq)]
pub struct BranchCoverage {
    pub line_number: Option<usize>,
    pub taken: bool,
}

impl Keyed for LineCoverage {
    open spec fn key(&self) -> int {
        self.line_number as int
    }

    fn key_le(&self, other: &Self) -> (b: bool) {
        self.line_number <= other.line_number
    }
}

impl Keyed for BranchCoverage {
    /// A branch without a line comes before every branch with one.
    open spec fn key(&self) -> int {
        match self.line_number {
            None => -1,
            Some(n) => n as int,
        }
    }

    fn key_le(&self, other: &Self) -> (b: bool) {
        match self.line_number {
            None => true,
            Some(a) => match other.line_number {
                None => false,
                Some(b) => a <= b,
            },
        }
    }
}

/// The coverage records of one source file.
#[derive(Clone, Debug, PartialEq, Eq)]
pub struct FileCoverage {
    pub path: String,
    pub line_coverages: Vec<LineCoverage>,
    pub branch_coverages: Vec<BranchCoverage>,
}

/// A file's coverage as plain sequences.
pub ghost struct FileCoverageView {
    pub path: Seq<char>,
    pub lines: Seq<LineCoverage>,
    pub branches: Seq<BranchCoverage>,
}

impl View for FileCoverage {
    type V = FileCoverageView;

    open spec fn view(&self) -> FileCoverageView {
        FileCoverageView {
            path: self.path@,
            lines: self.line_coverages@,
            branches: self.branch_coverages@,
        }
    }
}

impl FileCoverage {
    pub fn new(
        path: String,
        line_coverages: Vec<LineCoverage>,
        branch_coverages: Vec<BranchCoverage>,
    ) -> (f: FileCoverage)
        ensures
            f@ == (FileCoverageView {
                path: path@,
                lines: line_coverages@,
                branches: branch_coverages@,
            }),
    {
        FileCoverage { path, line_coverages, branch_coverages }
    }

    /// The path of the source file that the records speak of.
    pub fn path(&self) -> (p: &str)
        ensures
            p@ == self@.path,
    {
        self.path.as_str()
    }
}

/// The coverage of a whole report, file by file.
#[derive(Clone, Debug, PartialEq, Eq)]
pub struct PackageCoverage {
    pub file_coverages: Vec<FileCoverage>,
}

impl PackageCoverage {
    pub fn new(file_coverages: Vec<FileCoverage>) -> (p: PackageCoverage)
        ensures
            p.file_coverages == file_coverages,
    {
        PackageCoverage { file_coverages }
    }
}

/// How many characters stand before the first line feed of `s`; the length
/// of `s` where it has none.
pub open spec fn first_line_feed(s: Seq<char>) -> nat
    decreases s.len(),
{
    if s.len() == 0 || s[0] == '\n' {
        0
    } else {
        1 + first_line_feed(s.drop_first())
    }
}

/// A line without the carriage return that ends it, if one does.
pub open spec fn without_carriage_return(line: Seq<char>) -> Seq<char> {
    if line.len() > 0 && line.last() == '\r' {
        line.drop_last()
    } else {
        line
    }
}

/// The lines of a text. A line ends with a line feed, or with a carriage
/// return and a line feed; neither belongs to the line. The last line needs
/// no line ending, and an empty rest after the last line ending is no line.
pub open spec fn text_lines(content: Seq<char>) -> Seq<Seq<char>>
    decreases content.len(),
{
    let i = first_line_feed(content) as int;
    if content.len() == 0 {
        Seq::empty()
    } else if i >= content.len() {
        seq![content]
    } else {
        seq![without_carriage_return(content.take(i))] + text_lines(content.skip(i + 1))
    }
}

/// Calls `str::lines` and collects what it yields. Trusted: the lines are
/// those that `text_lines` describes, as the documentation of `str::lines`
/// says.
#[verifier::external_body]
fn split_lines(content: &str) -> (lines: Vec<String>)
    ensures
        lines@.len() == text_lines(content@).len(),
        forall|i: int| 0 <= i < lines@.len() ==> (#[trigger] lines@[i])@ == text_lines(content@)[i],
{
    content.lines().map(String::from).collect()
}

/// The text of one source file, line by line.
#[derive(Debug, PartialEq, Eq)]
pub struct SourceCode {
    lines: Vec<String>,
}

impl View for SourceCode {
    type V = Seq<Seq<char>>;

    closed spec fn view(&self) -> Seq<Seq<char>> {
        Seq::new(self.lines@.len(), |i: int| self.lines@[i]@)
    }
}

impl SourceCode {
    pub fn new(content: &str) -> (s: SourceCode)
        ensures
            s@ == text_lines(content@),
    {
        let lines = split_lines(content);
        let s = SourceCode { lines };
        assert(s@ =~= text_lines(content@));
        s
    }

    /// How many lines the text has.
    pub fn len(&self) -> (n: usize)
        ensures
            n == self@.len(),
    {
        self.lines.len()
    }

    /// The line with zero-based index `k`.
    pub fn line(&self, k: usize) -> (l: &str)
        requires
            k < self@.len(),
        ensures
            l@ == self@[k as int],
    {
        self.lines[k].as_str()
    }
}

} // verus!
