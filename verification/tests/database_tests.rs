use text_search::config::{Config, WatchPath};
use text_search::database::{
    build_filter_sql, collect_like_hits, config_entries, config_value, content_prefix,
    content_preview, count_like_query, db_config_from_entries, escape_like, file_types,
    format_cell, get_sort_value, incremental_vacuum_sql, make_snippet, needs_incremental_vacuum,
    parse_sort_by, rows_to_result, search_like_query, setting_usize, vacuum_made_progress,
    CellValue, DbConfig, HitRow, LikeSearchHit, SearchCursor, SearchFilters, SqlParam,
};

fn strings(v: &[&str]) -> Vec<String> {
    v.iter().map(|s| s.to_string()).collect()
}

fn text_param(p: &SqlParam) -> String {
    match p {
        SqlParam::Text(s) => s.clone(),
        SqlParam::Integer(n) => format!("#{}", n),
    }
}

#[test]
fn sort_orders() {
    let (o, c, d) = parse_sort_by("mtime_asc");
    assert_eq!((o.as_str(), c, d), ("last_modified_time ASC, abs_path ASC", "last_modified_time", false));
    let (o, c, d) = parse_sort_by("name_desc");
    assert_eq!((o.as_str(), c, d), ("name DESC, abs_path ASC", "name", true));
    let (o, c, d) = parse_sort_by("name_asc");
    assert_eq!((o.as_str(), c, d), ("name ASC, abs_path ASC", "name", false));
    let (o, c, d) = parse_sort_by("size_desc");
    assert_eq!((o.as_str(), c, d), ("file_size DESC, abs_path ASC", "file_size", true));
    let (o, c, d) = parse_sort_by("size_asc");
    assert_eq!((o.as_str(), c, d), ("file_size ASC, abs_path ASC", "file_size", false));
    let (o, c, d) = parse_sort_by("anything else");
    assert_eq!((o.as_str(), c, d), ("last_modified_time DESC, abs_path ASC", "last_modified_time", true));
}

fn hit(path: &str, name: &str, mtime: &str, size: i64) -> LikeSearchHit {
    LikeSearchHit {
        abs_path: path.to_string(),
        name: name.to_string(),
        context: String::new(),
        last_modified_time: mtime.to_string(),
        file_size: size,
    }
}

#[test]
fn sort_values() {
    let h = hit("/a/b.txt", "b.txt", "2024-01-02 10:00:00", -42);
    assert_eq!(get_sort_value(&h, "name"), "b.txt");
    assert_eq!(get_sort_value(&h, "file_size"), "-42");
    assert_eq!(get_sort_value(&h, "last_modified_time"), "2024-01-02 10:00:00");
}

#[test]
fn prefixes() {
    assert_eq!(content_prefix("abcdef", 3), "abc...");
    assert_eq!(content_prefix("abc", 3), "abc");
    assert_eq!(content_prefix("你好世界", 2), "你好...");
    assert_eq!(content_prefix("", 0), "");
}

#[test]
fn snippets() {
    let kw = strings(&["world"]);
    assert_eq!(make_snippet("Hello World, this is a test", &kw, 10), "...ello World...");
    let kw = strings(&["hello"]);
    assert_eq!(make_snippet("你好世界hello", &kw, 4), "...世界he...");
    let kw = strings(&["zzz"]);
    assert_eq!(make_snippet("abcdefghij", &kw, 5), "abcde...");
    assert_eq!(make_snippet("", &kw, 5), "");
    let kw = strings(&["", "J"]);
    assert_eq!(make_snippet("abcdefghij", &kw, 4), "...hij");
    let kw = strings(&["abc"]);
    assert_eq!(make_snippet("abc", &kw, 100), "abc");
}

#[test]
fn escaping() {
    assert_eq!(escape_like("a%b_c\\d"), "a\\%b\\_c\\\\d");
    assert_eq!(escape_like("plain"), "plain");
}

#[test]
fn filters_to_sql() {
    let f = SearchFilters {
        name: Some(" rep_ort ".to_string()),
        types: strings(&["docx", " .PDF", "  "]),
        dirs: strings(&["/home/a_b", " "]),
        time_from: Some("2024-01-01".to_string()),
        time_to: Some("   ".to_string()),
        size_min: Some(10),
        size_max: None,
    };
    let mut params = vec![SqlParam::Text("kw".to_string())];
    let clauses = build_filter_sql(&f, &mut params);
    assert_eq!(
        clauses,
        strings(&[
            "name LIKE ? ESCAPE '\\'",
            "(lower(name) LIKE ? OR lower(name) LIKE ?)",
            "(abs_path LIKE ? ESCAPE '\\')",
            "date(last_modified_time) >= date(?)",
            "file_size >= ?",
        ])
    );
    let ps: Vec<String> = params.iter().map(text_param).collect();
    assert_eq!(ps, strings(&["kw", "%rep\\_ort%", "%.docx", "%.pdf", "/home/a\\_b%", "2024-01-01", "#10"]));
}

#[test]
fn no_filters_no_clauses() {
    let mut params = Vec::new();
    assert!(build_filter_sql(&SearchFilters::default(), &mut params).is_empty());
    assert!(params.is_empty());
}

#[test]
fn search_statement() {
    let kws = strings(&["foo", "", "50%"]);
    let q = search_like_query(&kws, "and", &SearchFilters::default(), None, "name_asc", 20, false).unwrap();
    assert_eq!(
        q.sql,
        "SELECT abs_path, name, content, last_modified_time, file_size FROM file\n             WHERE (content LIKE ? ESCAPE '\\' AND content LIKE ? ESCAPE '\\') ORDER BY name ASC, abs_path ASC LIMIT 21"
    );
    let ps: Vec<String> = q.params.iter().map(text_param).collect();
    assert_eq!(ps, strings(&["%foo%", "%50\\%%"]));
    assert_eq!(q.sort_col, "name");

    let cursor = SearchCursor { sort_value: "2024".to_string(), path: "/x".to_string() };
    let f = SearchFilters { size_max: Some(5), ..SearchFilters::default() };
    let q = search_like_query(&strings(&["a"]), "OR", &f, Some(&cursor), "", 0, true).unwrap();
    assert_eq!(
        q.sql,
        "SELECT abs_path, name, content, last_modified_time, file_size FROM file\n             WHERE (name LIKE ? ESCAPE '\\') AND file_size <= ? AND (last_modified_time < ? OR (last_modified_time = ? AND abs_path > ?)) ORDER BY last_modified_time DESC, abs_path ASC LIMIT 1"
    );
    let ps: Vec<String> = q.params.iter().map(text_param).collect();
    assert_eq!(ps, strings(&["%a%", "#5", "2024", "2024", "/x"]));

    assert!(search_like_query(&strings(&["", ""]), "OR", &SearchFilters::default(), None, "", 20, false).is_none());
}

#[test]
fn count_statement() {
    let f = SearchFilters { time_to: Some("2025-01-01".to_string()), ..SearchFilters::default() };
    let (sql, params) = count_like_query(&strings(&["x", "y"]), "OR", &f, false).unwrap();
    assert_eq!(sql, "SELECT COUNT(*) FROM file WHERE (content LIKE ? ESCAPE '\\' OR content LIKE ? ESCAPE '\\') AND date(last_modified_time) <= date(?)");
    assert_eq!(params.len(), 3);
    assert!(count_like_query(&strings(&[]), "OR", &f, false).is_none());
}

fn row(path: &str, content: Option<&str>, size: i64) -> HitRow {
    HitRow {
        abs_path: path.to_string(),
        name: path.rsplit('/').next().unwrap().to_string(),
        content: content.map(|c| c.to_string()),
        last_modified_time: "2024-05-01 00:00:00".to_string(),
        file_size: size,
    }
}

#[test]
fn page_of_hits() {
    let rows = vec![
        row("/d/one.txt", Some("alpha beta gamma"), 1),
        row("/d/two.txt", None, 2),
        row("/d/three.txt", Some(""), 3),
    ];
    let kws = strings(&["beta"]);
    let (hits, cursor, more) = collect_like_hits(&rows, &kws, 2, 4, false, "file_size");
    assert!(more);
    assert_eq!(hits.len(), 2);
    assert_eq!(hits[0].context, "...a be...");
    assert_eq!(hits[1].context, "");
    let c = cursor.unwrap();
    assert_eq!(c.sort_value, "2");
    assert_eq!(c.path, "/d/two.txt");

    let (hits, cursor, more) = collect_like_hits(&rows, &kws, 5, 3, true, "name");
    assert!(!more);
    assert_eq!(hits.len(), 3);
    assert_eq!(hits[0].context, "alpha ...");
    assert_eq!(cursor.unwrap().sort_value, "three.txt");

    let (hits, cursor, more) = collect_like_hits(&rows, &kws, 0, 3, false, "name");
    assert!(more);
    assert!(hits.is_empty());
    assert!(cursor.is_none());
}

#[test]
fn types_of_files() {
    let names = strings(&["a.DOCX", "b.pdf", "~$tmp.xlsx", "noext", "c.docx", "d.", ".bashrc", "e.tar.GZ"]);
    assert_eq!(file_types(&names), strings(&["bashrc", "docx", "gz", "pdf"]));
    assert!(file_types(&Vec::new()).is_empty());
}

#[test]
fn previews() {
    assert_eq!(content_preview(Some("abcdef".to_string()), 4), ("abcd".to_string(), true));
    assert_eq!(content_preview(Some("abc".to_string()), 4), ("abc".to_string(), false));
    assert_eq!(content_preview(None, 4), (String::new(), false));
}

#[test]
fn settings_round_trip() {
    let cfg = DbConfig {
        watch_paths: vec![WatchPath { path: "/docs".to_string(), recursive: false }],
        file_patterns: strings(&["*.txt"]),
        context_length: 80,
        page_size: 7,
        preview_length: 1234,
    };
    let entries = config_entries(&cfg, "[]".to_string(), "[\"*.txt\"]".to_string());
    let keys: Vec<&str> = entries.iter().map(|e| e.0.as_str()).collect();
    assert_eq!(keys, vec!["watch_paths", "file_patterns", "context_length", "page_size", "preview_length"]);
    assert_eq!(config_value(&entries, "page_size"), Some("7".to_string()));
    assert_eq!(config_value(&entries, "missing"), None);
    let loaded = db_config_from_entries(&entries, Some(cfg.watch_paths.clone()), Some(cfg.file_patterns.clone())).unwrap();
    assert_eq!(loaded.context_length, 80);
    assert_eq!(loaded.page_size, 7);
    assert_eq!(loaded.preview_length, 1234);
    assert_eq!(loaded.watch_paths.len(), 1);
    assert!(!loaded.watch_paths[0].recursive);
}

#[test]
fn settings_defaults() {
    assert!(db_config_from_entries(&Vec::new(), None, None).is_none());
    let entries = vec![
        ("context_length".to_string(), "abc".to_string()),
        ("page_size".to_string(), "+15".to_string()),
        ("page_size".to_string(), "16".to_string()),
    ];
    let c = db_config_from_entries(&entries, None, None).unwrap();
    assert_eq!(c.context_length, 50);
    assert_eq!(c.page_size, 16);
    assert_eq!(c.preview_length, 2000);
    assert!(c.watch_paths.is_empty());
    assert_eq!(c.file_patterns, Config::default().file_patterns);
    assert_eq!(setting_usize(Some("+15".to_string()), 1), 15);
    assert_eq!(setting_usize(Some("-1".to_string()), 1), 1);
    assert_eq!(setting_usize(Some("99999999999999999999999".to_string()), 3), 3);
    assert_eq!(setting_usize(None, 9), 9);
}

#[test]
fn vacuum_decisions() {
    assert!(needs_incremental_vacuum(64));
    assert!(!needs_incremental_vacuum(63));
    assert!(vacuum_made_progress(100, 40));
    assert!(!vacuum_made_progress(40, 40));
    assert_eq!(incremental_vacuum_sql(Some(4096)), "PRAGMA incremental_vacuum(4096);");
    assert_eq!(incremental_vacuum_sql(None), "PRAGMA incremental_vacuum;");
}

#[test]
fn cells_and_rows() {
    assert_eq!(format_cell(&CellValue::Null), "NULL");
    assert_eq!(format_cell(&CellValue::Integer(-7)), "-7");
    assert_eq!(format_cell(&CellValue::Real("1.5".to_string())), "1.5");
    assert_eq!(format_cell(&CellValue::Text(b"caf\xc3\xa9".to_vec())), "café");
    assert_eq!(format_cell(&CellValue::Text(b"a\xffb".to_vec())), "a\u{fffd}b");
    assert_eq!(format_cell(&CellValue::Blob(12)), "[BLOB 12 bytes]");
    let cols = strings(&["id", "name"]);
    let r = rows_to_result(&cols, &vec![vec![CellValue::Integer(1), CellValue::Null]]);
    assert_eq!(r.columns, cols);
    assert_eq!(r.rows.len(), 1);
    assert_eq!(r.rows[0].columns, cols);
    assert_eq!(r.rows[0].values, strings(&["1", "NULL"]));
}
