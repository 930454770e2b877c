use linecount::classify::{classify_line, count_lines, LineType};
use linecount::count::Count;
use linecount::scan::{has_extension, join_path_str, visit_dirs, FsEntry};

fn strings(lines: &[&str]) -> Vec<String> {
    lines.iter().map(|l| String::from(*l)).collect()
}

#[test]
fn empty_line_is_blank() {
    assert_eq!(classify_line(LineType::Blank, ""), LineType::Blank);
    assert_eq!(classify_line(LineType::Code, ""), LineType::Blank);
}

#[test]
fn hash_line_is_comment() {
    assert_eq!(classify_line(LineType::Blank, "# hello"), LineType::Comment);
    assert_eq!(classify_line(LineType::Blank, "   # hello"), LineType::Comment);
    assert_eq!(classify_line(LineType::Blank, "\t# hello"), LineType::Comment);
    assert_eq!(classify_line(LineType::Blank, "#"), LineType::Comment);
}

#[test]
fn unicode_blanks_count_as_leading_whitespace() {
    assert_eq!(classify_line(LineType::Blank, "\u{a0}# hello"), LineType::Comment);
    assert_eq!(classify_line(LineType::Blank, "\u{2003}\"\"\""), LineType::CommentMulti);
}

#[test]
fn whitespace_only_line_is_code() {
    assert_eq!(classify_line(LineType::Blank, "   "), LineType::Code);
    assert_eq!(classify_line(LineType::Blank, "\t"), LineType::Code);
}

#[test]
fn ordinary_line_is_code() {
    assert_eq!(classify_line(LineType::Blank, "x = 1"), LineType::Code);
    assert_eq!(classify_line(LineType::Blank, "print(x)  # trailing"), LineType::Code);
}

#[test]
fn self_closing_triple_quote_is_comment() {
    let t = classify_line(LineType::Blank, "\"\"\"docstring\"\"\"");
    assert_eq!(t, LineType::Comment);
    assert_eq!(classify_line(t, "x = 1"), LineType::Code);
    assert_eq!(classify_line(LineType::Blank, "   \"\"\"indented\"\"\""), LineType::Comment);
}

#[test]
fn six_quotes_close_on_one_line() {
    assert_eq!(classify_line(LineType::Blank, "\"\"\"\"\"\""), LineType::Comment);
}

#[test]
fn five_quotes_open_a_block() {
    assert_eq!(classify_line(LineType::Blank, "\"\"\"\"\""), LineType::CommentMulti);
}

#[test]
fn multi_line_block_classification() {
    let opened = classify_line(LineType::Blank, "\"\"\"");
    assert_eq!(opened, LineType::CommentMulti);
    let inside = classify_line(opened, "some words");
    assert_eq!(inside, LineType::CommentMulti);
    let hash_inside = classify_line(inside, "# still inside");
    assert_eq!(hash_inside, LineType::CommentMulti);
    let closed = classify_line(hash_inside, "the end\"\"\"");
    assert_eq!(closed, LineType::Comment);
    let after = classify_line(closed, "x = 1");
    assert_eq!(after, LineType::Code);
}

#[test]
fn count_lines_of_one_file() {
    let lines = strings(&["x = 1", "y = 2", "", "# note", "z = 3"]);
    let c = count_lines(&lines);
    assert_eq!(c.code, 3);
    assert_eq!(c.comment, 1);
    assert_eq!(c.blank, 1);
    assert_eq!(c.code + c.comment + c.blank, lines.len() as u32);
}

#[test]
fn count_lines_with_block_comment() {
    let lines = strings(&["\"\"\"", "a docstring", "\"\"\"", "x = 1", ""]);
    let c = count_lines(&lines);
    assert_eq!(c.comment, 3);
    assert_eq!(c.code, 1);
    assert_eq!(c.blank, 1);
}

#[test]
fn unterminated_block_consumes_rest_of_file() {
    let lines = strings(&["x = 1", "\"\"\"", "left open", "", "still open"]);
    let c = count_lines(&lines);
    assert_eq!(c.code, 1);
    assert_eq!(c.comment, 4);
    assert_eq!(c.blank, 0);
}

#[test]
fn count_lines_of_empty_file() {
    let lines: Vec<String> = Vec::new();
    let c = count_lines(&lines);
    assert_eq!(c.code, 0);
    assert_eq!(c.comment, 0);
    assert_eq!(c.blank, 0);
}

#[test]
fn extension_match_is_exact() {
    assert!(has_extension("a.py", "py"));
    assert!(!has_extension("a.py2", "py"));
    assert!(!has_extension("apy", "py"));
    assert!(!has_extension("a.pyx", "py"));
    assert!(!has_extension("a.Py", "py"));
}

#[test]
fn extension_is_the_part_after_the_last_dot() {
    assert!(has_extension("a.tar.gz", "gz"));
    assert!(!has_extension("a.tar.gz", "tar.gz"));
    assert!(has_extension("a.", ""));
}

#[test]
fn leading_dot_is_no_extension() {
    assert!(!has_extension(".py", "py"));
    assert!(!has_extension(".gitignore", "gitignore"));
    assert!(has_extension(".config.py", "py"));
}

#[test]
fn count_starts_at_zero() {
    let c = Count::new();
    assert_eq!(c.code, 0);
    assert_eq!(c.comment, 0);
    assert_eq!(c.blank, 0);
}

#[test]
fn count_add_accumulates() {
    let mut total = Count::new();
    total.add(&Count { code: 3, comment: 1, blank: 1 });
    total.add(&Count { code: 2, comment: 0, blank: 0 });
    assert_eq!(total.code, 5);
    assert_eq!(total.comment, 1);
    assert_eq!(total.blank, 1);
}

#[test]
fn count_add_wraps_on_overflow() {
    let mut total = Count { code: u32::MAX, comment: 0, blank: 0 };
    total.add(&Count { code: 2, comment: 1, blank: 0 });
    assert_eq!(total.code, 1);
    assert_eq!(total.comment, 1);
    assert_eq!(total.blank, 0);
}

#[test]
fn join_builds_the_entry_path() {
    assert_eq!(join_path_str("root", "a.py"), "root/a.py");
    assert_eq!(join_path_str("root/sub", "b.py"), "root/sub/b.py");
}

fn sample_tree() -> Vec<FsEntry> {
    let a_lines = strings(&["x = 1", "y = 2", "", "# note", "z = 3"]);
    let b_lines = strings(&["a = 1", "b = 2"]);
    vec![
        FsEntry::File { name: String::from("a.py"), lines: a_lines },
        FsEntry::Dir {
            name: String::from("sub"),
            entries: vec![FsEntry::File { name: String::from("b.py"), lines: b_lines }],
        },
    ]
}

#[test]
fn directory_scenario() {
    let entries = sample_tree();
    let mut total = Count::new();
    let reports = visit_dirs("root", &entries, "py", &mut total);
    assert_eq!(reports.len(), 2);
    assert_eq!(reports[0].path, "root/a.py");
    assert_eq!(reports[0].count.code, 3);
    assert_eq!(reports[0].count.comment, 1);
    assert_eq!(reports[0].count.blank, 1);
    assert_eq!(reports[1].path, "root/sub/b.py");
    assert_eq!(reports[1].count.code, 2);
    assert_eq!(reports[1].count.comment, 0);
    assert_eq!(reports[1].count.blank, 0);
    assert_eq!(total.code, 5);
    assert_eq!(total.comment, 1);
    assert_eq!(total.blank, 1);
}

#[test]
fn total_is_sum_of_per_file_counts() {
    let entries = sample_tree();
    let mut total = Count::new();
    let reports = visit_dirs("root", &entries, "py", &mut total);
    let mut code: u32 = 0;
    let mut comment: u32 = 0;
    let mut blank: u32 = 0;
    for r in &reports {
        code += r.count.code;
        comment += r.count.comment;
        blank += r.count.blank;
    }
    assert_eq!(total.code, code);
    assert_eq!(total.comment, comment);
    assert_eq!(total.blank, blank);
}

#[test]
fn scanning_twice_gives_identical_counts() {
    let entries = sample_tree();
    let mut total1 = Count::new();
    let reports1 = visit_dirs("root", &entries, "py", &mut total1);
    let mut total2 = Count::new();
    let reports2 = visit_dirs("root", &entries, "py", &mut total2);
    assert_eq!(total1.code, total2.code);
    assert_eq!(total1.comment, total2.comment);
    assert_eq!(total1.blank, total2.blank);
    assert_eq!(reports1.len(), reports2.len());
    for (r1, r2) in reports1.iter().zip(reports2.iter()) {
        assert_eq!(r1.path, r2.path);
        assert_eq!(r1.count.code, r2.count.code);
        assert_eq!(r1.count.comment, r2.count.comment);
        assert_eq!(r1.count.blank, r2.count.blank);
    }
}

#[test]
fn unmatched_files_and_other_entries_are_skipped() {
    let entries = vec![
        FsEntry::File { name: String::from("a.py"), lines: strings(&["x = 1"]) },
        FsEntry::File { name: String::from("notes.txt"), lines: strings(&["words", "words"]) },
        FsEntry::Other { name: String::from("link.py") },
        FsEntry::Dir { name: String::from("empty"), entries: Vec::new() },
    ];
    let mut total = Count::new();
    let reports = visit_dirs("root", &entries, "py", &mut total);
    assert_eq!(reports.len(), 1);
    assert_eq!(reports[0].path, "root/a.py");
    assert_eq!(total.code, 1);
    assert_eq!(total.comment, 0);
    assert_eq!(total.blank, 0);
}
