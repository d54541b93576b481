use rust_covfix::{
    BranchCoverage, FileCoverage, FixError, Fixer, LineCoverage, PackageCoverage, SourceCode,
};

fn line(line_number: usize, count: Option<u32>) -> LineCoverage {
    LineCoverage { line_number, count }
}

fn branch(line_number: Option<usize>, taken: bool) -> BranchCoverage {
    BranchCoverage { line_number, taken }
}

fn fix_one(source: &str, lines: Vec<LineCoverage>, branches: Vec<BranchCoverage>) -> FileCoverage {
    let fixer = Fixer::new().unwrap();
    let mut data = PackageCoverage::new(vec![FileCoverage::new(
        "src/lib.rs".to_string(),
        lines,
        branches,
    )]);
    let sources = vec![Some(source.to_string())];
    assert_eq!(fixer.fix(&mut data, &sources), Ok(()));
    data.file_coverages.remove(0)
}

#[test]
fn closing_brace_on_its_own() {
    let source = "fn f() {\n    if a {\n        b();\n    }\n}\n";
    let fixed = fix_one(source, vec![line(3, Some(0))], vec![]);
    assert_eq!(fixed.line_coverages, vec![line(3, None)]);
}

#[test]
fn else_branch() {
    let source = "fn f() {\n    if a {\n        b();\n        c();\n        d();\n    } else {\n        e();\n    }\n}\n";
    let fixed = fix_one(
        source,
        vec![line(5, Some(0))],
        vec![branch(Some(5), false), branch(Some(5), false)],
    );
    assert_eq!(fixed.line_coverages, vec![line(5, None)]);
    assert_eq!(
        fixed.branch_coverages,
        vec![branch(Some(5), false), branch(Some(5), false)]
    );
}

#[test]
fn else_branch_that_was_taken_is_cleared() {
    let source = "a\nb\nc\nd\ne\n    } else {\n";
    let fixed = fix_one(source, vec![], vec![branch(Some(5), true), branch(Some(5), false)]);
    assert_eq!(
        fixed.branch_coverages,
        vec![branch(Some(5), false), branch(Some(5), false)]
    );
}

#[test]
fn for_loop_header() {
    let source = "fn f(n: usize) {\n    let mut s = 0;\n    for i in 0..n {\n        s += i;\n    }\n}\n";
    let fixed = fix_one(
        source,
        vec![line(2, Some(7))],
        vec![branch(Some(2), true), branch(Some(2), false)],
    );
    assert_eq!(fixed.line_coverages, vec![line(2, Some(7))]);
    assert_eq!(
        fixed.branch_coverages,
        vec![branch(Some(2), true), branch(Some(2), true)]
    );
}

#[test]
fn for_loop_inside_test_section() {
    let source = "mod test {\n    fn t(n: usize) {\n    for i in 0..n {\n    }\n    }\n}\n";
    let fixed = fix_one(
        source,
        vec![],
        vec![branch(Some(2), false), branch(Some(2), false)],
    );
    assert_eq!(
        fixed.branch_coverages,
        vec![branch(Some(2), false), branch(Some(2), false)]
    );
}

#[test]
fn struct_header() {
    let source = "// a type\npub struct Foo {\n    a: u8,\n}\n";
    let fixed = fix_one(source, vec![line(1, Some(0))], vec![]);
    assert_eq!(fixed.line_coverages, vec![line(1, None)]);
}

#[test]
fn enum_header() {
    let source = "pub enum Kind { // what it is\n    A,\n}\n";
    let fixed = fix_one(source, vec![line(0, Some(0)), line(1, Some(0))], vec![]);
    assert_eq!(fixed.line_coverages, vec![line(0, None), line(1, Some(0))]);
}

#[test]
fn mixed_no_op() {
    let source = "fn f() {\n\n\n\n    let x = compute(a, b);\n}\n";
    let fixed = fix_one(source, vec![line(4, Some(0))], vec![]);
    assert_eq!(fixed.line_coverages, vec![line(4, Some(0))]);
}

#[test]
fn comment_only_line_is_not_executable() {
    let source = "    // nothing here\n\n}));\n";
    let fixed = fix_one(
        source,
        vec![line(0, Some(0)), line(1, Some(3)), line(2, Some(0))],
        vec![],
    );
    assert_eq!(
        fixed.line_coverages,
        vec![line(0, None), line(1, None), line(2, None)]
    );
}

#[test]
fn while_loop_header() {
    let source = "    while i < n { // count\n";
    let fixed = fix_one(
        source,
        vec![line(0, Some(1))],
        vec![branch(Some(0), false), branch(Some(0), true)],
    );
    assert_eq!(fixed.line_coverages, vec![line(0, Some(1))]);
    assert_eq!(
        fixed.branch_coverages,
        vec![branch(Some(0), true), branch(Some(0), true)]
    );
}

#[test]
fn loop_header_without_line_record() {
    let source = "for x in xs {\n";
    let fixed = fix_one(source, vec![], vec![branch(Some(0), false)]);
    assert_eq!(fixed.branch_coverages, vec![branch(Some(0), true)]);
}

#[test]
fn loop_header_of_a_line_that_is_not_executable_is_left() {
    let source = "for x in xs {\n";
    let fixed = fix_one(
        source,
        vec![line(0, None)],
        vec![branch(Some(0), false), branch(Some(0), true)],
    );
    assert_eq!(fixed.line_coverages, vec![line(0, None)]);
    assert_eq!(
        fixed.branch_coverages,
        vec![branch(Some(0), false), branch(Some(0), true)]
    );
}

#[test]
fn records_are_sorted_after_fix() {
    let source = "a();\nb();\nc();\nd();\n";
    let fixed = fix_one(
        source,
        vec![line(3, Some(1)), line(0, Some(2)), line(2, None), line(1, Some(0))],
        vec![
            branch(Some(2), true),
            branch(None, false),
            branch(Some(0), false),
            branch(None, true),
            branch(Some(2), false),
        ],
    );
    assert_eq!(
        fixed.line_coverages,
        vec![line(0, Some(2)), line(1, Some(0)), line(2, None), line(3, Some(1))]
    );
    assert_eq!(
        fixed.branch_coverages,
        vec![
            branch(None, false),
            branch(None, true),
            branch(Some(0), false),
            branch(Some(2), true),
            branch(Some(2), false),
        ]
    );
}

#[test]
fn record_count_is_preserved() {
    let source = "}\nfor a in b {\nmod test {\n}\n";
    let lines = vec![line(9, Some(1)), line(1, Some(1)), line(0, Some(0)), line(3, Some(0))];
    let branches = vec![
        branch(Some(1), false),
        branch(None, true),
        branch(Some(7), false),
        branch(Some(0), true),
    ];
    let fixed = fix_one(source, lines.clone(), branches.clone());
    assert_eq!(fixed.line_coverages.len(), lines.len());
    assert_eq!(fixed.branch_coverages.len(), branches.len());
    let mut numbers: Vec<usize> = fixed.line_coverages.iter().map(|l| l.line_number).collect();
    numbers.sort();
    assert_eq!(numbers, vec![0, 1, 3, 9]);
    assert_eq!(
        fixed.line_coverages,
        vec![line(0, None), line(1, Some(1)), line(3, Some(0)), line(9, Some(1))]
    );
    assert_eq!(
        fixed.branch_coverages,
        vec![
            branch(None, true),
            branch(Some(0), false),
            branch(Some(1), true),
            branch(Some(7), false),
        ]
    );
}

#[test]
fn fix_is_idempotent() {
    let source = "pub struct S {\n}\nfn f() {\n    for i in 0..3 {\n    } else {\n    while x {\n}\nmod test {\n}\n";
    let fixer = Fixer::new().unwrap();
    let mut data = PackageCoverage::new(vec![FileCoverage::new(
        "a.rs".to_string(),
        vec![line(8, Some(0)), line(5, None), line(3, Some(2)), line(0, Some(0)), line(4, Some(1))],
        vec![
            branch(Some(5), false),
            branch(Some(3), false),
            branch(None, false),
            branch(Some(4), true),
            branch(Some(3), true),
            branch(Some(8), true),
        ],
    )]);
    let sources = vec![Some(source.to_string())];
    assert_eq!(fixer.fix(&mut data, &sources), Ok(()));
    let once = data.clone();
    assert_eq!(fixer.fix(&mut data, &sources), Ok(()));
    assert_eq!(data, once);
    assert_eq!(
        once.file_coverages[0].line_coverages,
        vec![line(0, None), line(3, Some(2)), line(4, None), line(5, None), line(8, Some(0))]
    );
    assert_eq!(
        once.file_coverages[0].branch_coverages,
        vec![
            branch(None, false),
            branch(Some(3), true),
            branch(Some(3), true),
            branch(Some(4), false),
            branch(Some(5), false),
            branch(Some(8), true),
        ]
    );
}

#[test]
fn plain_source_only_sorts() {
    let source = "let a = 1;\nlet b = 2;\nfoo(a, b);\n";
    let fixed = fix_one(
        source,
        vec![line(2, Some(0)), line(0, Some(4))],
        vec![branch(Some(1), false), branch(Some(0), true)],
    );
    assert_eq!(fixed.line_coverages, vec![line(0, Some(4)), line(2, Some(0))]);
    assert_eq!(
        fixed.branch_coverages,
        vec![branch(Some(0), true), branch(Some(1), false)]
    );
}

#[test]
fn test_section_suppresses_every_later_line() {
    let source = "}\nmod test { // tests\n}\npub struct T {\nwhile a {\n";
    let fixed = fix_one(
        source,
        vec![line(0, Some(0)), line(1, Some(0)), line(2, Some(0)), line(3, Some(0)), line(4, Some(5))],
        vec![branch(Some(2), true), branch(Some(4), false)],
    );
    assert_eq!(
        fixed.line_coverages,
        vec![line(0, None), line(1, Some(0)), line(2, Some(0)), line(3, Some(0)), line(4, Some(5))]
    );
    assert_eq!(
        fixed.branch_coverages,
        vec![branch(Some(2), true), branch(Some(4), false)]
    );
}

#[test]
fn branches_without_a_line_are_kept() {
    let source = "}\nfor a in b {\n";
    let fixed = fix_one(
        source,
        vec![],
        vec![
            branch(Some(1), false),
            branch(None, true),
            branch(Some(0), true),
            branch(None, false),
        ],
    );
    assert_eq!(
        fixed.branch_coverages,
        vec![
            branch(None, true),
            branch(None, false),
            branch(Some(0), false),
            branch(Some(1), true),
        ]
    );
}

#[test]
fn records_behind_the_end_of_the_source_are_kept() {
    let source = "}\n";
    let fixed = fix_one(
        source,
        vec![line(1, Some(0)), line(0, Some(0))],
        vec![branch(Some(4), true)],
    );
    assert_eq!(fixed.line_coverages, vec![line(0, None), line(1, Some(0))]);
    assert_eq!(fixed.branch_coverages, vec![branch(Some(4), true)]);
}

#[test]
fn repeated_line_number_stops_the_line_records() {
    let source = "}\n}\n";
    let fixed = fix_one(
        source,
        vec![line(0, Some(0)), line(1, Some(0)), line(0, Some(3))],
        vec![branch(Some(1), true)],
    );
    assert_eq!(
        fixed.line_coverages,
        vec![line(0, None), line(0, Some(3)), line(1, Some(0))]
    );
    assert_eq!(fixed.branch_coverages, vec![branch(Some(1), false)]);
}

#[test]
fn missing_source_stops_at_that_file() {
    let fixer = Fixer::new().unwrap();
    let file = |path: &str| FileCoverage::new(path.to_string(), vec![line(0, Some(0))], vec![]);
    let mut data = PackageCoverage::new(vec![file("a.rs"), file("b.rs"), file("c.rs")]);
    let sources = vec![Some("}\n".to_string()), None, Some("}\n".to_string())];
    let result = fixer.fix(&mut data, &sources);
    assert_eq!(result, Err(FixError::SourceReadFailed("b.rs".to_string())));
    assert_eq!(data.file_coverages[0].line_coverages, vec![line(0, None)]);
    assert_eq!(data.file_coverages[1].line_coverages, vec![line(0, Some(0))]);
    assert_eq!(data.file_coverages[2].line_coverages, vec![line(0, Some(0))]);
}

#[test]
fn source_that_was_not_handed_over_counts_as_missing() {
    let fixer = Fixer::new().unwrap();
    let mut data = PackageCoverage::new(vec![FileCoverage::new(
        "only.rs".to_string(),
        vec![line(0, Some(0))],
        vec![],
    )]);
    let sources: Vec<Option<String>> = vec![];
    let result = fixer.fix(&mut data, &sources);
    assert_eq!(result, Err(FixError::SourceReadFailed("only.rs".to_string())));
    assert_eq!(data.file_coverages[0].line_coverages, vec![line(0, Some(0))]);
}

#[test]
fn empty_report_is_fixed() {
    let fixer = Fixer::new().unwrap();
    let mut data = PackageCoverage::new(vec![]);
    assert_eq!(fixer.fix(&mut data, &vec![]), Ok(()));
    assert!(data.file_coverages.is_empty());
}

#[test]
fn each_file_is_fixed_against_its_own_source() {
    let fixer = Fixer::new().unwrap();
    let mut data = PackageCoverage::new(vec![
        FileCoverage::new("a.rs".to_string(), vec![line(1, Some(0))], vec![]),
        FileCoverage::new("b.rs".to_string(), vec![line(1, Some(0))], vec![]),
    ]);
    let sources = vec![
        Some("mod test {\n}\n".to_string()),
        Some("fn f() {\n}\n".to_string()),
    ];
    assert_eq!(fixer.fix(&mut data, &sources), Ok(()));
    assert_eq!(data.file_coverages[0].line_coverages, vec![line(1, Some(0))]);
    assert_eq!(data.file_coverages[1].line_coverages, vec![line(1, None)]);
    assert_eq!(data.file_coverages[0].path(), "a.rs");
}

#[test]
fn process_file_sorts_and_rewrites() {
    let fixer = Fixer::new().unwrap();
    let source = SourceCode::new("loop {\n    }\n");
    let mut cov = FileCoverage::new(
        "x.rs".to_string(),
        vec![line(1, Some(0)), line(0, Some(1))],
        vec![],
    );
    fixer.process_file(&source, &mut cov);
    assert_eq!(cov.line_coverages, vec![line(0, Some(1)), line(1, None)]);
}

#[test]
fn error_messages() {
    assert_eq!(
        FixError::SourceReadFailed("a.rs".to_string()).message(),
        "Source file not found"
    );
    assert_eq!(
        FixError::InitializationFailed.message(),
        "Failed to initialize fixer"
    );
}
