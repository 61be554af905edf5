use seedling_md::document::{is_md_extension, update_document};
use seedling_md::render::{format_header_line, make_progress_bar};
use seedling_md::stats::{ends_with_stats_header, is_stats_line, starts_with_stats_header};
use seedling_md::tasks::count_tasks;
use seedling_md::upsert::{
    detect_line_ending, replace_first_line, upsert_header, upsert_last_line, LineEnding,
};

#[test]
fn test_count_tasks() {
    let s = "- [x] 国际化i18n\n- [ ] 前端写一个数据库MCP聊天页面，用之前那个mysql-mcp\n- [ ] 增加生成小程序码的功能";
    let (done, todo, total) = count_tasks(s);
    assert_eq!((done, todo, total), (1, 2, 3));
    let header = format_header_line(done, todo, total);
    assert!(header.starts_with("**"));
    assert!(header.ends_with("**"));
    assert!(header.contains("_By Seedling_"));
    assert!(header.contains("⏳ 未完成 <u>2</u>"));
    let pos_unfinished = header.find("⏳ 未完成").unwrap();
    let pos_done = header.find("✅ 已完成 1").unwrap();
    assert!(pos_unfinished < pos_done);
}

#[test]
fn test_replace_or_insert() {
    let original = "今日未完成目标 0 ，已完成目标 0（总目标 0/0）\n- [x] a\n- [ ] b";
    let header = format_header_line(1, 1, 2);
    let res = replace_first_line(original, &header, "\n");
    assert!(res.starts_with(&header));
    assert!(res.contains("- [x] a"));
}

#[test]
fn test_upsert_last_line() {
    let body = "- [x] a\n- [ ] b";
    let header = format_header_line(1, 1, 2);
    let content = format!("{}\n{}", header, body);
    let appended = upsert_last_line(&content, &header, "\n");
    assert!(appended.ends_with(&header));

    let with_tail = format!("{}\n{}\n{}", header, body, header);
    let replaced = upsert_last_line(&with_tail, &format_header_line(1, 0, 1), "\n");
    assert!(ends_with_stats_header(&replaced));
}

#[test]
fn header_line_exact_text() {
    let header = format_header_line(1, 2, 3);
    assert_eq!(
        header,
        "**[███░░░░░░░] ⚡ 今日进度 1/3 | ⏳ 未完成 <u>2</u> | ✅ 已完成 1 · _By Seedling_ 🌱**"
    );
}

#[test]
fn header_line_multi_digit_counts() {
    let header = format_header_line(120, 7, 127);
    assert!(header.contains("今日进度 120/127"));
    assert!(header.contains("<u>7</u>"));
    assert!(header.contains("✅ 已完成 120"));
}

#[test]
fn progress_bar_extremes() {
    assert_eq!(make_progress_bar(5, 5), "[██████████]");
    assert_eq!(make_progress_bar(0, 5), "[░░░░░░░░░░]");
    assert_eq!(make_progress_bar(0, 0), "[░░░░░░░░░░]");
    assert_eq!(make_progress_bar(9, 5), "[██████████]");
}

#[test]
fn progress_bar_rounds_half_up() {
    assert_eq!(make_progress_bar(1, 20), "[█░░░░░░░░░]");
    assert_eq!(make_progress_bar(1, 3), "[███░░░░░░░]");
    assert_eq!(make_progress_bar(2, 3), "[███████░░░]");
    assert_eq!(make_progress_bar(1, 21), "[░░░░░░░░░░]");
}

#[test]
fn count_tasks_scenario_a() {
    let s = "- [x] a\n- [ ] b\n- [ ] c";
    assert_eq!(count_tasks(s), (1, 2, 3));
    let header = format_header_line(1, 2, 3);
    assert!(header.contains("今日进度 1/3"));
    assert!(header.contains("未完成 <u>2</u>"));
    assert!(header.contains("已完成 1"));
}

#[test]
fn count_tasks_markers_and_indentation() {
    let s = "  * [X] upper\n\t- [x] tab\n- [-] other\n- [] short\n- [\ntext [x] inline\n+ [ ] plus\n* [ ] star\r\n";
    assert_eq!(count_tasks(s), (2, 1, 3));
    assert_eq!(count_tasks(""), (0, 0, 0));
    assert_eq!(count_tasks("no tasks here\n"), (0, 0, 0));
}

#[test]
fn stats_line_predicate() {
    assert!(is_stats_line("今日未完成目标 3 ，已完成目标 1"));
    assert!(is_stats_line("  **今日**进度 1/2**  "));
    assert!(is_stats_line("_By_ _Seedling_"));
    assert!(!is_stats_line("今日未完成目标3"));
    assert!(!is_stats_line("- [x] a"));
    assert!(!is_stats_line(""));
    assert!(is_stats_line(&format_header_line(0, 4, 4)));
}

#[test]
fn first_and_last_line_checks() {
    let header = format_header_line(1, 1, 2);
    let doc = format!("{}\n- [x] a\n\n  \n", header);
    assert!(starts_with_stats_header(&doc));
    assert!(!ends_with_stats_header(&doc));
    let doc2 = format!("- [x] a\n{}\n\n   \n", header);
    assert!(!starts_with_stats_header(&doc2));
    assert!(ends_with_stats_header(&doc2));
    assert!(!starts_with_stats_header(""));
    assert!(!ends_with_stats_header(""));
}

#[test]
fn line_ending_detection() {
    assert_eq!(detect_line_ending("a\r\nb"), LineEnding::CRLF);
    assert_eq!(detect_line_ending("a\nb\r"), LineEnding::LF);
    assert_eq!(detect_line_ending(""), LineEnding::LF);
    assert_eq!(LineEnding::CRLF.as_str(), "\r\n");
    assert_eq!(LineEnding::LF.as_str(), "\n");
}

#[test]
fn replace_first_line_edges() {
    assert_eq!(replace_first_line("old", "H", "\n"), "H");
    assert_eq!(replace_first_line("old\r\nrest\r\n", "H", "\r\n"), "H\r\nrest\r\n");
    assert_eq!(replace_first_line("\nrest", "H", "\n"), "H\nrest");
}

#[test]
fn upsert_last_line_edges() {
    let h = format_header_line(1, 0, 1);
    let old = format_header_line(0, 1, 1);
    assert_eq!(upsert_last_line(&format!("{}\n\n\r\n", old), &h, "\n"), h);
    assert_eq!(upsert_last_line("body\n\n", &h, "\n"), format!("body\n{}", h));
    assert_eq!(upsert_last_line(&format!("a\n{}", old), &h, "\n"), format!("a\n{}", h));
    assert_eq!(
        upsert_last_line(&format!("a\n{}\n  \n", old), &h, "\n"),
        format!("a\n{}\n{}", old, h)
    );
}

#[test]
fn no_tasks_leaves_document_alone() {
    assert_eq!(update_document("# title\nplain text\n"), None);
    assert_eq!(update_document(""), None);
    assert_eq!(update_document("\u{feff}text [x] inline"), None);
}

#[test]
fn scenario_b_top_line_replaced() {
    let doc = "今日未完成目标 0 ，已完成目标 0（总目标 0/0）\n- [x] a\n- [ ] b";
    let h = format_header_line(1, 1, 2);
    let out = update_document(doc).unwrap();
    assert_eq!(out, format!("{}\n- [x] a\n- [ ] b\n{}", h, h));
}

#[test]
fn scenario_c_both_headers_replaced() {
    let old = format_header_line(0, 2, 2);
    let doc = format!("{}\n- [x] a\n- [ ] b\n{}\n", old, old);
    let h = format_header_line(1, 1, 2);
    let out = update_document(&doc).unwrap();
    assert_eq!(out, format!("{}\n- [x] a\n- [ ] b\n{}", h, h));
    assert_eq!(out.matches("By Seedling").count(), 2);
}

#[test]
fn scenario_d_bom_kept_in_front() {
    let doc = "\u{feff}- [x] a\n- [ ] b\n";
    let h = format_header_line(1, 1, 2);
    let out = update_document(doc).unwrap();
    assert!(out.starts_with('\u{feff}'));
    assert_eq!(out, format!("\u{feff}{}\n- [x] a\n- [ ] b\n{}", h, h));
}

#[test]
fn scenario_e_crlf_document() {
    let doc = "- [x] a\r\n- [ ] b\r\n";
    let h = format_header_line(1, 1, 2);
    let out = update_document(doc).unwrap();
    assert_eq!(out, format!("{}\r\n- [x] a\r\n- [ ] b\r\n{}", h, h));
    assert!(!out.replace("\r\n", "").contains('\n'));
}

#[test]
fn upsert_twice_is_once() {
    let h = format_header_line(2, 1, 3);
    for doc in ["- [x] a\n- [x] b\n- [ ] c", "intro\n\n- [x] a\n", "", "\n\n"] {
        let once = upsert_header(doc, &h, "\n");
        let twice = upsert_header(&once, &h, "\n");
        assert_eq!(once, twice);
        assert!(starts_with_stats_header(&once));
        assert!(ends_with_stats_header(&once));
    }
}

#[test]
fn markdown_extension_filter() {
    assert!(is_md_extension("md"));
    assert!(is_md_extension("MD"));
    assert!(is_md_extension("mD"));
    assert!(!is_md_extension("markdown"));
    assert!(!is_md_extension("m"));
    assert!(!is_md_extension("txt"));
}

#[test]
fn crlf_upsert_keeps_header_first_and_last() {
    let h = format_header_line(1, 1, 2);
    for doc in ["- [x] a\r\n- [ ] b\r\n", "", "x", "\r\n\r\n"] {
        let once = upsert_header(doc, &h, "\r\n");
        assert!(starts_with_stats_header(&once));
        assert!(ends_with_stats_header(&once));
    }
}

#[test]
fn crlf_second_run_changes_nothing() {
    let h = format_header_line(1, 1, 2);
    let once = upsert_header("- [x] a\r\n- [ ] b\r\n", &h, "\r\n");
    assert_eq!(once, format!("{}\r\n- [x] a\r\n- [ ] b\r\n{}", h, h));
    let twice = upsert_header(&once, &h, "\r\n");
    assert_eq!(twice, once);
    let alone = upsert_header(&h, &h, "\r\n");
    assert_eq!(alone, h);
    assert_eq!(upsert_header(&alone, &h, "\r\n"), alone);
}

#[test]
fn crlf_footer_replaced_with_its_terminator() {
    let old = format_header_line(0, 1, 1);
    let h = format_header_line(1, 0, 1);
    let out = upsert_last_line(&format!("a\r\n{}", old), &h, "\r\n");
    assert_eq!(out, format!("a\r\n{}", h));
    assert!(!out.contains("\r\r"));
}

#[test]
fn crlf_scenario_c_both_headers_replaced() {
    let old = format_header_line(0, 2, 2);
    let doc = format!("{}\r\n- [x] a\r\n- [ ] b\r\n{}\r\n", old, old);
    let h = format_header_line(1, 1, 2);
    let out = update_document(&doc).unwrap();
    assert_eq!(out, format!("{}\r\n- [x] a\r\n- [ ] b\r\n{}", h, h));
    assert_eq!(update_document(&out).unwrap(), out);
}

#[test]
fn only_one_bom_is_stripped() {
    assert_eq!(update_document("\u{feff}\u{feff}- [x] a"), None);
    let doc = "\u{feff}\u{feff}- [x] a\n- [ ] b";
    let h = format_header_line(0, 1, 1);
    let out = update_document(doc).unwrap();
    assert_eq!(out, format!("\u{feff}{}\n\u{feff}- [x] a\n- [ ] b\n{}", h, h));
}
