use std::sync::mpsc;

use text_search::api::{
    clear_response, execute_sql_response, index, options_cors, reindex_response, remove_paths,
    save_settings, search_response, sql_table, RemovePathsRequest,
};
use text_search::database::{CustomResult, LikeSearchHit, SearchResult};
use text_search::gui::{
    open_file_status, result_row, results_status, save_status, search_keyword,
    search_sql_display, searching_status, SearchResultItem,
};
use text_search::http::{
    format_http_response, guess_mime, head_complete, http_cors_preflight, is_websocket_request,
    parse_request_head, route, serve_static_file, Route, StaticFiles,
};
use text_search::indexer::{IndexCommand, IndexQueue};
use text_search::logging::code_page_name;
use text_search::rpc::{
    bookmark_category_name, bookmark_removal, browse_start_dir, config_save_plan,
    dialog_selection, executed_message, explorer_select_arg, found_message, invalid_params,
    method_name, method_not_found, osascript_script, preview_limit, rpc_method,
    search_column_names, search_row, shutdown_allowed, ws_reply, zenity_filename_arg,
    BookmarkRemoval, RpcMethod, SearchParams, WsReply,
};
use text_search::server::{
    bind_failure_exit_code, exit_wait_over, hold_exit, port_arg, port_from_seed, respawn_after_exit, server_step,
    serves_web_interface, PortArg, ServerAction, ServerEvent,
};
use text_search::shutdown::{init, request, requested};

fn strings(v: &[&str]) -> Vec<String> {
    v.iter().map(|s| s.to_string()).collect()
}

#[test]
fn http_responses() {
    let r = format_http_response("text/plain", b"hi", true);
    assert_eq!(
        r,
        b"HTTP/1.1 200 OK\r\nContent-Type: text/plain\r\nContent-Length: 2\r\nCache-Control: no-cache\r\nAccess-Control-Allow-Origin: *\r\n\r\nhi".to_vec()
    );
    let r = format_http_response("application/json; charset=utf-8", b"", false);
    assert_eq!(
        r,
        b"HTTP/1.1 200 OK\r\nContent-Type: application/json; charset=utf-8\r\nContent-Length: 0\r\nCache-Control: no-cache\r\n\r\n".to_vec()
    );
    assert_eq!(
        http_cors_preflight(),
        b"HTTP/1.1 204 No Content\r\nAccess-Control-Allow-Origin: *\r\nAccess-Control-Allow-Methods: POST, GET, OPTIONS\r\nAccess-Control-Allow-Headers: Content-Type\r\nContent-Length: 0\r\n\r\n".to_vec()
    );
}

#[test]
fn mime_types() {
    assert_eq!(guess_mime("index.html"), "text/html; charset=utf-8");
    assert_eq!(guess_mime("app.js"), "application/javascript; charset=utf-8");
    assert_eq!(guess_mime("a.css"), "text/css; charset=utf-8");
    assert_eq!(guess_mime("a.json"), "application/json; charset=utf-8");
    assert_eq!(guess_mime("a.png"), "image/png");
    assert_eq!(guess_mime("a.svg"), "image/svg+xml");
    assert_eq!(guess_mime("favicon.ico"), "image/x-icon");
    assert_eq!(guess_mime("f.woff2"), "font/woff2");
    assert_eq!(guess_mime("f.woff"), "font/woff");
    assert_eq!(guess_mime("f.ttf"), "font/ttf");
    assert_eq!(guess_mime("data.bin"), "application/octet-stream");
    assert_eq!(guess_mime("html"), "application/octet-stream");
}

#[test]
fn static_files() {
    let files = StaticFiles {
        files: vec![
            ("index.html".to_string(), b"<p>x</p>".to_vec()),
            ("assets/app.js".to_string(), b"1;".to_vec()),
        ],
    };
    assert_eq!(
        serve_static_file("/", &files),
        b"HTTP/1.1 200 OK\r\nContent-Type: text/html; charset=utf-8\r\nContent-Length: 8\r\nCache-Control: no-cache\r\n\r\n<p>x</p>".to_vec()
    );
    assert_eq!(
        serve_static_file("//assets/app.js", &files),
        b"HTTP/1.1 200 OK\r\nContent-Type: application/javascript; charset=utf-8\r\nContent-Length: 2\r\nCache-Control: no-cache\r\n\r\n1;".to_vec()
    );
    assert_eq!(
        serve_static_file("/missing.css", &files),
        b"HTTP/1.1 404 Not Found\r\nContent-Length: 0\r\n\r\n".to_vec()
    );
}

#[test]
fn request_heads() {
    let buf = b"POST /rpc HTTP/1.1\r\nHost: x\r\ncontent-length: abc\r\nContent-Length:  12 \r\n\r\n{\"a\":1}";
    assert!(head_complete(buf));
    let h = parse_request_head(buf);
    assert_eq!(h.method, "POST");
    assert_eq!(h.path, "/rpc");
    assert_eq!(h.content_length, 12);
    assert_eq!(h.body_start, Some(74));
    assert_eq!(route(&h.method, &h.path), Route::Rpc);

    let h = parse_request_head(b"GET");
    assert_eq!(h.method, "GET");
    assert_eq!(h.path, "/");
    assert_eq!(h.content_length, 0);
    assert_eq!(h.body_start, None);
    assert!(!head_complete(b"GET / HTTP/1.1\r\n"));

    assert_eq!(route("OPTIONS", "/rpc"), Route::Preflight);
    assert_eq!(route("GET", "/rpc"), Route::Static);
    assert_eq!(route("POST", "/other"), Route::Static);
    assert!(is_websocket_request(b"GET / HTTP/1.1\r\nUpgrade: websocket\r\n\r\n"));
    assert!(is_websocket_request(b"GET / HTTP/1.1\r\nupgrade: websocket\r\n\r\n"));
    assert!(!is_websocket_request(b"GET / HTTP/1.1\r\nUPGRADE: websocket\r\n\r\n"));
}

#[test]
fn rpc_methods() {
    let all = [
        RpcMethod::Search,
        RpcMethod::ExecuteSql,
        RpcMethod::Reindex,
        RpcMethod::RemovePaths,
        RpcMethod::Clear,
        RpcMethod::ConfigLoad,
        RpcMethod::ConfigSave,
        RpcMethod::FileTypes,
        RpcMethod::IndexStatus,
        RpcMethod::Shutdown,
        RpcMethod::BrowseDirectory,
        RpcMethod::OpenFolderAndSelect,
        RpcMethod::BookmarkAdd,
        RpcMethod::BookmarkRemove,
        RpcMethod::BookmarkList,
        RpcMethod::BookmarkCategoryCreate,
        RpcMethod::BookmarkCategoryRename,
        RpcMethod::BookmarkCategoryDelete,
        RpcMethod::FileContent,
    ];
    for m in all {
        assert_eq!(rpc_method(method_name(m)), Some(m));
    }
    assert_eq!(rpc_method("search"), Some(RpcMethod::Search));
    assert_eq!(rpc_method("Search"), None);
    assert_eq!(rpc_method(""), None);
    assert_eq!(method_not_found("nope"), (-32601, "Method not found: nope".to_string()));
    assert_eq!(invalid_params("missing field `x`"), (-32602, "Invalid params: missing field `x`".to_string()));
}

#[test]
fn websocket_replies() {
    assert_eq!(ws_reply(true, true), WsReply::Response);
    assert_eq!(ws_reply(true, false), WsReply::Silent);
    assert_eq!(ws_reply(false, true), WsReply::ParseError);
    assert_eq!(ws_reply(false, false), WsReply::Silent);
}

#[test]
fn search_results_for_rpc() {
    let p = SearchParams::default();
    assert!(p.keywords.is_empty());
    assert_eq!(p.mode, "OR");
    assert_eq!(p.sort_by, "mtime_desc");
    assert_eq!(p.context_length, 100);
    assert_eq!(p.page_size, 20);
    assert!(p.last_cursor.is_none() && p.filters.is_none() && !p.name_only);
    let h = LikeSearchHit {
        abs_path: "/a.txt".to_string(),
        name: "a.txt".to_string(),
        context: "ctx".to_string(),
        last_modified_time: "2024".to_string(),
        file_size: 1024,
    };
    assert_eq!(search_row(&h), strings(&["/a.txt", "1024", "ctx", "2024"]));
    assert_eq!(search_column_names(), strings(&["文件路径", "文件大小", "内容摘要", "修改时间"]));
    assert_eq!(found_message(3), "Found 3 row(s)");
    assert_eq!(executed_message(0), "Executed SQL, returned 0 row(s)");
}

#[test]
fn saving_settings_plans_indexing() {
    let plan = config_save_plan(&strings(&["/a", "/b"]), &strings(&["/b", "/c", "/d"]));
    assert_eq!(plan.added, strings(&["/c", "/d"]));
    assert_eq!(plan.removed, strings(&["/a"]));
    assert!(!plan.full_reindex);
    let plan = config_save_plan(&strings(&["/a", "/b"]), &strings(&["/b", "/a"]));
    assert!(plan.added.is_empty() && plan.removed.is_empty());
    assert!(plan.full_reindex);
}

#[test]
fn small_rpc_decisions() {
    assert!(shutdown_allowed(true, true));
    assert!(shutdown_allowed(false, false));
    assert!(!shutdown_allowed(false, true));
    assert_eq!(preview_limit(20), 100);
    assert_eq!(preview_limit(2000), 2000);
    assert_eq!(bookmark_category_name(None), "默认");
    assert_eq!(bookmark_category_name(Some("work".to_string())), "work");
    assert_eq!(bookmark_removal(Some(3), Some("/x".to_string()), Some(1)), BookmarkRemoval::ById(3));
    assert_eq!(bookmark_removal(None, Some("/x".to_string()), Some(1)), BookmarkRemoval::ByPath(1, "/x".to_string()));
    assert_eq!(bookmark_removal(None, Some("/x".to_string()), None), BookmarkRemoval::Nothing);
}

#[test]
fn folder_dialogs() {
    assert_eq!(browse_start_dir(None), "");
    assert_eq!(browse_start_dir(Some("/home".to_string())), "/home");
    assert_eq!(dialog_selection(true, b"  /home/me/docs\n"), Some("/home/me/docs".to_string()));
    assert_eq!(dialog_selection(true, b"\n"), None);
    assert_eq!(dialog_selection(false, b"/x\n"), None);
    assert_eq!(zenity_filename_arg(""), "");
    assert_eq!(zenity_filename_arg("/home"), "--filename=/home/");
    assert_eq!(osascript_script(""), "POSIX path of (choose folder with prompt \"Select Directory\")");
    assert_eq!(
        osascript_script("/Users/me"),
        "POSIX path of (choose folder with prompt \"Select Directory\" default location \"/Users/me\")"
    );
    assert_eq!(explorer_select_arg("C:\\a.txt"), "/select,\"C:\\a.txt\"");
}

#[test]
fn api_endpoints() {
    assert_eq!(index(), "Text Search API Server");
    let c = options_cors("any/path".to_string());
    assert_eq!(c.status(), 204);
    let h = c.headers();
    assert_eq!(h.len(), 4);
    assert_eq!(h[3], ("Access-Control-Max-Age".to_string(), "86400".to_string()));

    let r = remove_paths(RemovePathsRequest { paths: strings(&["/a"]) }, &mut None);
    assert!(!r.success);
    assert_eq!(r.message, "Index worker not initialized");
    let (tx, rx) = mpsc::channel::<IndexCommand>();
    let mut q = Some(IndexQueue::new(tx));
    let r = remove_paths(RemovePathsRequest { paths: strings(&["/a", "/b"]) }, &mut q);
    assert!(r.success);
    assert_eq!(r.data, Some("Remove paths queued".to_string()));
    match rx.recv().unwrap() {
        IndexCommand::RemovePaths(p) => assert_eq!(p, strings(&["/a", "/b"])),
        IndexCommand::Reindex { .. } => panic!("wrong command"),
    }
    drop(rx);
    let r = remove_paths(RemovePathsRequest { paths: strings(&["/a"]) }, &mut q);
    assert!(!r.success);

    let r = reindex_response(true, "Full reindex");
    assert_eq!(r.message, "Full reindex queued, check server logs for progress");
    assert_eq!(r.data, Some("Reindex queued".to_string()));
    let r = save_settings(Ok(()));
    assert!(r.success);
    assert_eq!(r.message, "Settings saved successfully");
    let r = save_settings(Err("disk full".to_string()));
    assert!(!r.success);
    assert_eq!(r.message, "disk full");
    assert!(clear_response(Ok(())).success);

    let sr = SearchResult {
        name: "a.txt".to_string(),
        path: "/a.txt".to_string(),
        context: "c".to_string(),
        is_start: true,
        is_end: false,
        last_modified_time: 0,
    };
    let r = search_response(Ok(vec![sr.clone(), sr]));
    assert_eq!(r.message, "Found 2 result(s)");

    let rows = vec![
        CustomResult { columns: strings(&["a", "b"]), values: strings(&["1", "2"]) },
        CustomResult { columns: strings(&["a", "b"]), values: strings(&["3", "4"]) },
    ];
    let t = sql_table(&rows);
    assert_eq!(t.columns, strings(&["a", "b"]));
    assert_eq!(t.rows, vec![strings(&["1", "2"]), strings(&["3", "4"])]);
    let r = execute_sql_response(Ok(rows));
    assert_eq!(r.message, "Executed SQL, returned 2 row(s)");
    assert!(sql_table(&Vec::new()).columns.is_empty());
}

#[test]
fn window_text() {
    let sr = SearchResult {
        name: "report.final.docx".to_string(),
        path: "/r.docx".to_string(),
        context: "middle".to_string(),
        is_start: false,
        is_end: false,
        last_modified_time: 0,
    };
    let item = SearchResultItem::from_database_result(sr.clone());
    assert_eq!(item.name, "report.final.docx");
    assert!(!item.is_start);
    assert_eq!(result_row(0, &sr), strings(&["1", "report.final.docx", "DOCX", "...middle"]));
    let sr2 = SearchResult { name: "Makefile".to_string(), is_start: true, ..sr.clone() };
    assert_eq!(result_row(9, &sr2), strings(&["10", "Makefile", "-", "middle..."]));
    let sr3 = SearchResult { is_start: true, is_end: true, ..sr };
    assert_eq!(result_row(1, &sr3)[3], "middle");
    assert_eq!(search_keyword("  hi  "), Some("hi".to_string()));
    assert_eq!(search_keyword("   "), None);
    assert_eq!(results_status(0), "No results found");
    assert_eq!(results_status(2), "Found 2 result(s)");
    assert_eq!(searching_status("x"), "Searching for: x...");
    assert_eq!(search_sql_display("k"), "SELECT name, abs_path, content FROM file WHERE content LIKE '%k%'");
    assert_eq!(save_status(false), "Failed to save config");
    assert_eq!(open_file_status("/a"), "File: /a");
}

#[test]
fn code_pages() {
    assert_eq!(code_page_name(65001), "(UTF-8)");
    assert_eq!(code_page_name(936), "(GBK, Chinese Simplified)");
    assert_eq!(code_page_name(28591), "(ISO-8859-1)");
    assert_eq!(code_page_name(1), "(unknown)");
}

#[test]
fn startup_decisions() {
    assert_eq!(port_from_seed(0), 10000);
    assert_eq!(port_from_seed(50000), 60000);
    assert_eq!(port_from_seed(50001), 10000);
    assert_eq!(port_arg(&strings(&["prog"])), PortArg::Absent);
    assert_eq!(port_arg(&strings(&["prog", "--port", "8080"])), PortArg::Port(8080));
    assert_eq!(port_arg(&strings(&["prog", "--port", "70000"])), PortArg::Invalid);
    assert_eq!(port_arg(&strings(&["prog", "--port"])), PortArg::Invalid);
    assert_eq!(port_arg(&strings(&["prog", "--port", "x", "--port", "1"])), PortArg::Invalid);
    assert!(serves_web_interface(None));
    assert!(serves_web_interface(Some("browser".to_string())));
    assert!(!serves_web_interface(Some("tauri".to_string())));
    assert_eq!(bind_failure_exit_code(true), Some(2));
    assert_eq!(bind_failure_exit_code(false), None);
    assert_eq!(server_step(ServerEvent::ShutdownSignal), ServerAction::Exit { request_shutdown: false });
    assert_eq!(server_step(ServerEvent::Interrupt), ServerAction::Exit { request_shutdown: true });
    assert_eq!(server_step(ServerEvent::Terminate), ServerAction::Exit { request_shutdown: true });
    assert_eq!(server_step(ServerEvent::Accepted), ServerAction::Serve);
    assert_eq!(server_step(ServerEvent::AcceptFailed), ServerAction::Continue);
    assert!(respawn_after_exit(Some(2), 4));
    assert!(!respawn_after_exit(Some(2), 5));
    assert!(!respawn_after_exit(Some(1), 0));
    assert!(!respawn_after_exit(None, 0));
    assert!(hold_exit(false, false));
    assert!(!hold_exit(true, false));
    assert!(!hold_exit(false, true));
    assert!(!exit_wait_over(false, 29999));
    assert!(exit_wait_over(false, 30000));
    assert!(exit_wait_over(true, 0));
}

#[test]
fn exit_requests() {
    let mut none = None;
    assert!(!requested(&none));
    request(&mut none);
    assert!(!requested(&none));
    let (sig, rx) = init();
    let mut sig = Some(sig);
    assert!(!requested(&sig));
    request(&mut sig);
    assert!(requested(&sig));
    assert!(*rx.borrow());
    request(&mut sig);
    assert!(requested(&sig));
}

#[test]
fn exit_request_without_receiver_is_not_taken() {
    let (sig, rx) = init();
    drop(rx);
    let mut sig = Some(sig);
    request(&mut sig);
    assert!(!requested(&sig));
}
