use netutils::info::banner_lines;
use netutils::table::{display_width, format_header_row, format_row, render_table};

#[test]
fn display_width_counts_wide_characters_twice() {
    assert_eq!(display_width(""), 0);
    assert_eq!(display_width("abc"), 3);
    assert_eq!(display_width("中文"), 4);
    assert_eq!(display_width("名称 eth0"), 9);
    // Control characters take no columns.
    assert_eq!(display_width("a\tb"), 2);
}

#[test]
fn format_row_pads_to_display_width() {
    let cells = vec!["中".to_string(), "ab".to_string()];
    assert_eq!(format_row(&cells, &[4, 3]), "| 中   | ab  |");
    // A cell wider than its column is not cut.
    assert_eq!(format_row(&["toolong".to_string()], &[3]), "| toolong |");
    // Cells beyond the columns are left out.
    assert_eq!(format_row(&["a".to_string(), "b".to_string()], &[1]), "| a |");
    assert_eq!(format_row(&[], &[2]), "||");
}

#[test]
fn format_header_row_matches_data_rows() {
    assert_eq!(format_header_row(&["IP", "类型"], &[4, 4]), "| IP   | 类型 |");
}

#[test]
fn render_table_aligns_mixed_width_text() {
    let headers = ["名称", "IPv4"];
    let rows = vec![
        vec!["以太网".to_string(), "192.168.1.2".to_string()],
        vec!["lo".to_string(), "127.0.0.1".to_string()],
    ];
    let lines = render_table(&headers, &rows);
    assert_eq!(
        lines,
        vec![
            "+--------+-------------+".to_string(),
            "| 名称   | IPv4        |".to_string(),
            "+--------+-------------+".to_string(),
            "| 以太网 | 192.168.1.2 |".to_string(),
            "| lo     | 127.0.0.1   |".to_string(),
            "+--------+-------------+".to_string(),
        ]
    );
    let w = display_width(&lines[0]);
    for l in &lines {
        assert_eq!(display_width(l), w);
    }
}

#[test]
fn render_table_without_rows_prints_nothing() {
    assert!(render_table(&["a", "b"], &[]).is_empty());
}

#[test]
fn render_table_short_rows() {
    let lines = render_table(&["k", "v"], &[vec!["x".to_string()]]);
    assert_eq!(lines[3], "| x |");
    assert_eq!(lines[0], "+---+---+");
}

#[test]
fn banner_box_fits_title() {
    let lines = banner_lines("本地网络检测报告");
    assert_eq!(lines.len(), 3);
    assert_eq!(lines[0], format!("┌{}┐", "─".repeat(20)));
    assert_eq!(lines[1], "│  本地网络检测报告  │");
    assert_eq!(lines[2], format!("└{}┘", "─".repeat(20)));
}
