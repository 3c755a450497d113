//! The JSON-RPC methods of the server and what they decide: which method a name calls, the
//! errors of the protocol, the rows and messages of a search, what saving the settings
//! queues for the indexer, when a shutdown is refused, and the answers of the folder
//! dialogs. JSON itself is read and written by the program around the library.

use vstd::prelude::*;
use crate::database::{LikeSearchHit, SearchCursor, SearchFilters, string_list};
use crate::encoding::{spec_utf8_lossy, utf8_lossy};
use crate::numbers::{int_decimal, i64_decimal, nat_decimal, usize_decimal};
use crate::text::{chars_of, string_of, extend_chars, str_equals, trim, trim_chars};

verus! {

/// The methods of the JSON-RPC interface.
#[derive(Debug, Clone, Copy, PartialEq, Eq)]
pub enum RpcMethod {
    Search,
    ExecuteSql,
    Reindex,
    RemovePaths,
    Clear,
    ConfigLoad,
    ConfigSave,
    FileTypes,
    IndexStatus,
    Shutdown,
    BrowseDirectory,
    OpenFolderAndSelect,
    BookmarkAdd,
    BookmarkRemove,
    BookmarkList,
    BookmarkCategoryCreate,
    BookmarkCategoryRename,
    BookmarkCategoryDelete,
    FileContent,
}

/// The name under which a method is called.
pub open spec fn method_name_of(m: RpcMethod) -> Seq<char> {
    match m {
        RpcMethod::Search => "search"@,
        RpcMethod::ExecuteSql => "execute_sql"@,
        RpcMethod::Reindex => "reindex"@,
        RpcMethod::RemovePaths => "remove_paths"@,
        RpcMethod::Clear => "clear"@,
        RpcMethod::ConfigLoad => "config_load"@,
        RpcMethod::ConfigSave => "config_save"@,
        RpcMethod::FileTypes => "file_types"@,
        RpcMethod::IndexStatus => "index_status"@,
        RpcMethod::Shutdown => "shutdown"@,
        RpcMethod::BrowseDirectory => "browse_directory"@,
        RpcMethod::OpenFolderAndSelect => "open_folder_and_select"@,
        RpcMethod::BookmarkAdd => "bookmark_add"@,
        RpcMethod::BookmarkRemove => "bookmark_remove"@,
        RpcMethod::BookmarkList => "bookmark_list"@,
        RpcMethod::BookmarkCategoryCreate => "bookmark_category_create"@,
        RpcMethod::BookmarkCategoryRename => "bookmark_category_rename"@,
        RpcMethod::BookmarkCategoryDelete => "bookmark_category_delete"@,
        RpcMethod::FileContent => "file_content"@,
    }
}

/// The name of a method.
pub fn method_name(m: RpcMethod) -> (r: &'static str)
    ensures
        r@ == method_name_of(m),
{
    match m {
        RpcMethod::Search => "search",
        RpcMethod::ExecuteSql => "execute_sql",
        RpcMethod::Reindex => "reindex",
        RpcMethod::RemovePaths => "remove_paths",
        RpcMethod::Clear => "clear",
        RpcMethod::ConfigLoad => "config_load",
        RpcMethod::ConfigSave => "config_save",
        RpcMethod::FileTypes => "file_types",
        RpcMethod::IndexStatus => "index_status",
        RpcMethod::Shutdown => "shutdown",
        RpcMethod::BrowseDirectory => "browse_directory",
        RpcMethod::OpenFolderAndSelect => "open_folder_and_select",
        RpcMethod::BookmarkAdd => "bookmark_add",
        RpcMethod::BookmarkRemove => "bookmark_remove",
        RpcMethod::BookmarkList => "bookmark_list",
        RpcMethod::BookmarkCategoryCreate => "bookmark_category_create",
        RpcMethod::BookmarkCategoryRename => "bookmark_category_rename",
        RpcMethod::BookmarkCategoryDelete => "bookmark_category_delete",
        RpcMethod::FileContent => "file_content",
    }
}

/// The method called by `name`.
pub fn rpc_method(name: &str) -> (r: Option<RpcMethod>)
    ensures
        match r {
            Some(m) => method_name_of(m) == name@,
            None => forall|m: RpcMethod| method_name_of(m) != name@,
        },
{
    let all = [
        RpcMethod::Search,
        RpcMethod::ExecuteSql,
        RpcMethod::Reindex,
        RpcMethod::RemovePaths,
        RpcMethod::Clear,
        RpcMethod::ConfigLoad,
        RpcMethod::ConfigSave,
        RpcMethod::FileTypes,
        RpcMethod::IndexStatus,
        RpcMethod::Shutdown,
        RpcMethod::BrowseDirectory,
        RpcMethod::OpenFolderAndSelect,
        RpcMethod::BookmarkAdd,
        RpcMethod::BookmarkRemove,
        RpcMethod::BookmarkList,
        RpcMethod::BookmarkCategoryCreate,
        RpcMethod::BookmarkCategoryRename,
        RpcMethod::BookmarkCategoryDelete,
        RpcMethod::FileContent,
    ];
    let mut i: usize = 0;
    while i < 19
        invariant
            i <= 19,
            all@ == seq![
                RpcMethod::Search,
                RpcMethod::ExecuteSql,
                RpcMethod::Reindex,
                RpcMethod::RemovePaths,
                RpcMethod::Clear,
                RpcMethod::ConfigLoad,
                RpcMethod::ConfigSave,
                RpcMethod::FileTypes,
                RpcMethod::IndexStatus,
                RpcMethod::Shutdown,
                RpcMethod::BrowseDirectory,
                RpcMethod::OpenFolderAndSelect,
                RpcMethod::BookmarkAdd,
                RpcMethod::BookmarkRemove,
                RpcMethod::BookmarkList,
                RpcMethod::BookmarkCategoryCreate,
                RpcMethod::BookmarkCategoryRename,
                RpcMethod::BookmarkCategoryDelete,
                RpcMethod::FileContent,
            ],
            forall|k: int| 0 <= k < i ==> method_name_of(#[trigger] all@[k]) != name@,
        decreases 19 - i,
    {
        let m = all[i];
        if str_equals(method_name(m), name) {
            return Some(m);
        }
        i = i + 1;
    }
    assert forall|m: RpcMethod| method_name_of(m) != name@ by {
        let k: int = match m {
            RpcMethod::Search => 0,
            RpcMethod::ExecuteSql => 1,
            RpcMethod::Reindex => 2,
            RpcMethod::RemovePaths => 3,
            RpcMethod::Clear => 4,
            RpcMethod::ConfigLoad => 5,
            RpcMethod::ConfigSave => 6,
            RpcMethod::FileTypes => 7,
            RpcMethod::IndexStatus => 8,
            RpcMethod::Shutdown => 9,
            RpcMethod::BrowseDirectory => 10,
            RpcMethod::OpenFolderAndSelect => 11,
            RpcMethod::BookmarkAdd => 12,
            RpcMethod::BookmarkRemove => 13,
            RpcMethod::BookmarkList => 14,
            RpcMethod::BookmarkCategoryCreate => 15,
            RpcMethod::BookmarkCategoryRename => 16,
            RpcMethod::BookmarkCategoryDelete => 17,
            RpcMethod::FileContent => 18,
        };
        assert(all@[k] == m);
    }
    None
}

// ---------------------------------------------------------------------------
// The registered file watcher, reloaded when the settings change.

/// Registers the file watcher that reindexing and saving the settings reload.
pub fn set_file_watcher<T>(slot: &mut Option<T>, watcher: T)
    ensures
        *final(slot) == Some(watcher),
{
    *slot = Some(watcher);
}

/// Forgets the registered file watcher (at shutdown, before the watcher stops).
pub fn clear_file_watcher<T>(slot: &mut Option<T>)
    ensures
        *final(slot) == None::<T>,
{
    *slot = None;
}

// ---------------------------------------------------------------------------
// Errors of the protocol.

/// The code of a request that is not JSON, or not a request.
pub const PARSE_ERROR: i64 = -32700;

/// The code of a call of an unknown method.
pub const METHOD_NOT_FOUND: i64 = -32601;

/// The code of a call whose parameters do not fit its method.
pub const INVALID_PARAMS: i64 = -32602;

/// The error of a call of an unknown method.
pub fn method_not_found(method: &str) -> (r: (i64, String))
    ensures
        r.0 == METHOD_NOT_FOUND,
        r.1@ == "Method not found: "@ + method@,
{
    let mut m = chars_of("Method not found: ");
    extend_chars(&mut m, &chars_of(method));
    (METHOD_NOT_FOUND, string_of(&m))
}

/// The error of a call whose parameters do not fit, with what reading them said.
pub fn invalid_params(reason: &str) -> (r: (i64, String))
    ensures
        r.0 == INVALID_PARAMS,
        r.1@ == "Invalid params: "@ + reason@,
{
    let mut m = chars_of("Invalid params: ");
    extend_chars(&mut m, &chars_of(reason));
    (INVALID_PARAMS, string_of(&m))
}

/// How a text message on a WebSocket is answered.
#[derive(Debug, Clone, Copy, PartialEq, Eq)]
pub enum WsReply {
    /// With the result (or error) of the call.
    Response,
    /// With a parse error for the id it carries.
    ParseError,
    /// Not at all.
    Silent,
}

/// A request is answered when it has an id (a notification is not); a message that is no
/// request is answered with a parse error when it is JSON with an id.
pub open spec fn ws_reply_of(is_request: bool, has_id: bool) -> WsReply {
    if is_request {
        if has_id {
            WsReply::Response
        } else {
            WsReply::Silent
        }
    } else if has_id {
        WsReply::ParseError
    } else {
        WsReply::Silent
    }
}

pub fn ws_reply(is_request: bool, has_id: bool) -> (r: WsReply)
    ensures
        r == ws_reply_of(is_request, has_id),
{
    if is_request {
        if has_id {
            WsReply::Response
        } else {
            WsReply::Silent
        }
    } else if has_id {
        WsReply::ParseError
    } else {
        WsReply::Silent
    }
}

// ---------------------------------------------------------------------------
// Search.

/// The parameters of a search; every one may be left out.
#[derive(Debug, Clone)]
pub struct SearchParams {
    pub keywords: Vec<String>,
    pub mode: String,
    pub sort_by: String,
    pub context_length: usize,
    pub page_size: usize,
    pub last_cursor: Option<SearchCursor>,
    pub filters: Option<SearchFilters>,
    pub name_only: bool,
}

impl Default for SearchParams {
    /// No keyword, any keyword matches, newest first, 100 characters of context, pages of
    /// 20, from the start, no filter, in the text of the files.
    fn default() -> (r: Self)
        ensures
            r.keywords@.len() == 0,
            r.mode@ == "OR"@,
            r.sort_by@ == "mtime_desc"@,
            r.context_length == 100,
            r.page_size == 20,
            r.last_cursor is None,
            r.filters is None,
            !r.name_only,
    {
        SearchParams {
            keywords: Vec::new(),
            mode: string_of(&chars_of("OR")),
            sort_by: string_of(&chars_of("mtime_desc")),
            context_length: 100,
            page_size: 20,
            last_cursor: None,
            filters: None,
            name_only: false,
        }
    }
}

/// The row of the result table for a hit: path, size, snippet, modification time.
pub open spec fn hit_row_of(hit: LikeSearchHit) -> Seq<Seq<char>> {
    seq![hit.abs_path@, int_decimal(hit.file_size as int), hit.context@, hit.last_modified_time@]
}

pub fn search_row(hit: &LikeSearchHit) -> (r: Vec<String>)
    ensures
        string_list(r@) == hit_row_of(*hit),
{
    let mut v: Vec<String> = Vec::new();
    v.push(hit.abs_path.clone());
    v.push(i64_decimal(hit.file_size));
    v.push(hit.context.clone());
    v.push(hit.last_modified_time.clone());
    assert(string_list(v@) =~= hit_row_of(*hit));
    v
}

/// The titles of the columns of the result table.
pub open spec fn search_columns() -> Seq<Seq<char>> {
    seq!["文件路径"@, "文件大小"@, "内容摘要"@, "修改时间"@]
}

pub fn search_column_names() -> (r: Vec<String>)
    ensures
        string_list(r@) == search_columns(),
{
    let mut v: Vec<String> = Vec::new();
    v.push(string_of(&chars_of("文件路径")));
    v.push(string_of(&chars_of("文件大小")));
    v.push(string_of(&chars_of("内容摘要")));
    v.push(string_of(&chars_of("修改时间")));
    assert(string_list(v@) =~= search_columns());
    v
}

/// `Found <total> row(s)`.
pub fn found_message(total: i64) -> (r: String)
    ensures
        r@ == "Found "@ + int_decimal(total as int) + " row(s)"@,
{
    let mut m = chars_of("Found ");
    extend_chars(&mut m, &chars_of(i64_decimal(total).as_str()));
    extend_chars(&mut m, &chars_of(" row(s)"));
    string_of(&m)
}

/// `Executed SQL, returned <n> row(s)`.
pub fn executed_message(rows: usize) -> (r: String)
    ensures
        r@ == "Executed SQL, returned "@ + nat_decimal(rows as nat) + " row(s)"@,
{
    let mut m = chars_of("Executed SQL, returned ");
    extend_chars(&mut m, &chars_of(usize_decimal(rows).as_str()));
    extend_chars(&mut m, &chars_of(" row(s)"));
    string_of(&m)
}

// ---------------------------------------------------------------------------
// Saving the settings.

/// What saving the settings queues for the indexer.
#[derive(Debug, Clone)]
pub struct SavePlan {
    /// Watched paths that are new: indexed.
    pub added: Vec<String>,
    /// Watched paths no longer watched: taken out of the index.
    pub removed: Vec<String>,
    /// Nothing was added or removed: everything is indexed again.
    pub full_reindex: bool,
}

/// The elements of `a` that are not in `b`, in order.
pub open spec fn missing_from(a: Seq<Seq<char>>, b: Seq<Seq<char>>) -> Seq<Seq<char>>
    decreases a.len(),
{
    if a.len() == 0 {
        seq![]
    } else {
        missing_from(a.drop_last(), b) + if b.contains(a.last()) {
            seq![]
        } else {
            seq![a.last()]
        }
    }
}

fn contains_string(v: &Vec<String>, x: &String) -> (r: bool)
    ensures
        r == string_list(v@).contains(x@),
{
    let mut i: usize = 0;
    while i < v.len()
        invariant
            i <= v.len(),
            forall|k: int| 0 <= k < i ==> string_list(v@)[k] != x@,
        decreases v.len() - i,
    {
        if str_equals(v[i].as_str(), x.as_str()) {
            assert(string_list(v@)[i as int] == x@);
            return true;
        }
        i = i + 1;
    }
    false
}

fn missing_strings(a: &Vec<String>, b: &Vec<String>) -> (r: Vec<String>)
    ensures
        string_list(r@) == missing_from(string_list(a@), string_list(b@)),
{
    let ghost sa = string_list(a@);
    let ghost sb = string_list(b@);
    let mut out: Vec<String> = Vec::new();
    let mut i: usize = 0;
    while i < a.len()
        invariant
            i <= a.len(),
            sa == string_list(a@),
            sb == string_list(b@),
            string_list(out@) == missing_from(sa.take(i as int), sb),
        decreases a.len() - i,
    {
        assert(sa.take(i as int + 1).drop_last() == sa.take(i as int));
        assert(sa.take(i as int + 1).last() == a@[i as int]@);
        if !contains_string(b, &a[i]) {
            let ghost before = out@;
            out.push(a[i].clone());
            assert(string_list(out@) =~= string_list(before).push(a@[i as int]@));
        } else {
            assert(missing_from(sa.take(i as int + 1), sb) =~= missing_from(sa.take(i as int), sb));
        }
        i = i + 1;
    }
    assert(sa.take(a.len() as int) == sa);
    out
}

/// What saving the settings queues, from the watched paths before and after: the new
/// paths are indexed, the dropped ones taken out; when neither exists, everything is
/// indexed again.
pub fn config_save_plan(old_paths: &Vec<String>, new_paths: &Vec<String>) -> (r: SavePlan)
    ensures
        string_list(r.added@) == missing_from(string_list(new_paths@), string_list(old_paths@)),
        string_list(r.removed@) == missing_from(string_list(old_paths@), string_list(new_paths@)),
        r.full_reindex == (r.added@.len() == 0 && r.removed@.len() == 0),
{
    let added = missing_strings(new_paths, old_paths);
    let removed = missing_strings(old_paths, new_paths);
    let full_reindex = added.len() == 0 && removed.len() == 0;
    SavePlan { added, removed, full_reindex }
}

// ---------------------------------------------------------------------------
// Other methods.

/// A shutdown is refused while the index is being built, unless forced.
pub fn shutdown_allowed(force: bool, is_indexing: bool) -> (r: bool)
    ensures
        r == (force || !is_indexing),
{
    force || !is_indexing
}

/// The number of characters of a file preview: the setting, but at least 100.
pub fn preview_limit(preview_length: usize) -> (r: usize)
    ensures
        r == if preview_length >= 100 {
            preview_length
        } else {
            100
        },
{
    if preview_length >= 100 {
        preview_length
    } else {
        100
    }
}

/// The category a bookmark goes to when none is given by id: the named one, or the
/// default category `默认`.
pub fn bookmark_category_name(name: Option<String>) -> (r: String)
    ensures
        r@ == match name {
            Some(n) => n@,
            None => "默认"@,
        },
{
    match name {
        Some(n) => n,
        None => string_of(&chars_of("默认")),
    }
}

/// Which bookmark a removal names.
#[derive(Debug, Clone, PartialEq, Eq)]
pub enum BookmarkRemoval {
    ById(i64),
    ByPath(i64, String),
    Nothing,
}

/// A removal names a bookmark by its id when it gives one, else by category and path when
/// it gives both; otherwise it names none.
pub fn bookmark_removal(id: Option<i64>, abs_path: Option<String>, category_id: Option<i64>) -> (r: BookmarkRemoval)
    ensures
        match id {
            Some(i) => r == BookmarkRemoval::ById(i),
            None => match (category_id, abs_path) {
                (Some(c), Some(p)) => r matches BookmarkRemoval::ByPath(rc, rp) && rc == c && rp@ == p@,
                _ => r == BookmarkRemoval::Nothing,
            },
        },
{
    match id {
        Some(i) => BookmarkRemoval::ById(i),
        None => match (category_id, abs_path) {
            (Some(c), Some(p)) => BookmarkRemoval::ByPath(c, p),
            _ => BookmarkRemoval::Nothing,
        },
    }
}

// ---------------------------------------------------------------------------
// Folder dialogs.

/// The folder a dialog opens in: the given one unless it is empty.
pub fn browse_start_dir(default_path: Option<String>) -> (r: String)
    ensures
        r@ == match default_path {
            Some(p) => p@,
            None => seq![],
        },
{
    match default_path {
        Some(p) => p,
        None => String::new(),
    }
}

/// The folder a dialog chose, from whether it exited successfully and what it printed:
/// the printed text trimmed, `None` (cancelled) when that is empty or the dialog failed.
pub open spec fn dialog_choice(success: bool, stdout: Seq<u8>) -> Option<Seq<char>> {
    if success && trim(spec_utf8_lossy(stdout)).len() > 0 {
        Some(trim(spec_utf8_lossy(stdout)))
    } else {
        None
    }
}

pub fn dialog_selection(success: bool, stdout: &[u8]) -> (r: Option<String>)
    ensures
        match r {
            Some(p) => dialog_choice(success, stdout@) == Some(p@),
            None => dialog_choice(success, stdout@) is None,
        },
{
    if !success {
        return None;
    }
    let t = trim_chars(&chars_of(utf8_lossy(stdout).as_str()));
    if t.len() == 0 {
        None
    } else {
        Some(string_of(&t))
    }
}

/// The argument that opens the `zenity` folder dialog in `start`: `--filename=<start>/`, or
/// an empty argument without one.
pub fn zenity_filename_arg(start: &str) -> (r: String)
    ensures
        r@ == if start@.len() == 0 {
            seq![]
        } else {
            "--filename="@ + start@ + "/"@
        },
{
    let s = chars_of(start);
    if s.len() == 0 {
        return String::new();
    }
    let mut a = chars_of("--filename=");
    extend_chars(&mut a, &s);
    extend_chars(&mut a, &chars_of("/"));
    string_of(&a)
}

/// The AppleScript that asks for a folder, opening in `start` when it is given.
pub fn osascript_script(start: &str) -> (r: String)
    ensures
        r@ == "POSIX path of (choose folder with prompt \"Select Directory\""@ + (if start@.len() == 0 {
            seq![]
        } else {
            " default location \""@ + start@ + "\""@
        }) + ")"@,
{
    let s = chars_of(start);
    let mut a = chars_of("POSIX path of (choose folder with prompt \"Select Directory\"");
    if s.len() > 0 {
        extend_chars(&mut a, &chars_of(" default location \""));
        extend_chars(&mut a, &s);
        extend_chars(&mut a, &chars_of("\""));
    }
    extend_chars(&mut a, &chars_of(")"));
    string_of(&a)
}

/// The argument that makes the Windows explorer show a file selected.
pub fn explorer_select_arg(path: &str) -> (r: String)
    ensures
        r@ == "/select,\""@ + path@ + "\""@,
{
    let mut a = chars_of("/select,\"");
    extend_chars(&mut a, &chars_of(path));
    extend_chars(&mut a, &chars_of("\""));
    string_of(&a)
}


// ---------------------------------------------------------------------------
// Laws.

/// Each method has a name of its own, so the name of a method calls that method.
pub proof fn lemma_method_names_distinct(a: RpcMethod, b: RpcMethod)
    ensures
        method_name_of(a) == method_name_of(b) ==> a == b,
{
    reveal_strlit("search");
    reveal_strlit("execute_sql");
    reveal_strlit("reindex");
    reveal_strlit("remove_paths");
    reveal_strlit("clear");
    reveal_strlit("config_load");
    reveal_strlit("config_save");
    reveal_strlit("file_types");
    reveal_strlit("index_status");
    reveal_strlit("shutdown");
    reveal_strlit("browse_directory");
    reveal_strlit("open_folder_and_select");
    reveal_strlit("bookmark_add");
    reveal_strlit("bookmark_remove");
    reveal_strlit("bookmark_list");
    reveal_strlit("bookmark_category_create");
    reveal_strlit("bookmark_category_rename");
    reveal_strlit("bookmark_category_delete");
    reveal_strlit("file_content");
    if method_name_of(a) == method_name_of(b) && a != b {
        let x = method_name_of(a);
        let y = method_name_of(b);
        assert(x.len() == y.len());
        assert(x[0] == y[0]);
        assert(x[1] == y[1]);
        assert(x[7] == y[7]);
        assert(x[9] == y[9]);
        assert(x[10] == y[10]);
        assert(x[18] == y[18]);
        assert(x[x.len() - 1] == y[y.len() - 1]);
    }
}

/// The paths a save queues for indexing are new, those it queues for removal are no longer
/// watched, and every new or dropped path is queued.
pub proof fn lemma_missing_from(a: Seq<Seq<char>>, b: Seq<Seq<char>>)
    ensures
        forall|i: int|
            0 <= i < missing_from(a, b).len() ==> a.contains(#[trigger] missing_from(a, b)[i])
                && !b.contains(missing_from(a, b)[i]),
        forall|x: Seq<char>| a.contains(x) && !b.contains(x) ==> missing_from(a, b).contains(x),
    decreases a.len(),
{
    if a.len() > 0 {
        lemma_missing_from(a.drop_last(), b);
        let m0 = missing_from(a.drop_last(), b);
        let m = missing_from(a, b);
        assert forall|i: int| 0 <= i < m.len() implies a.contains(#[trigger] m[i]) && !b.contains(m[i]) by {
            if i < m0.len() {
                assert(m[i] == m0[i]);
                let j = choose|j: int| 0 <= j < a.drop_last().len() && a.drop_last()[j] == m0[i];
                assert(a[j] == m0[i]);
            } else {
                assert(m[i] == a.last());
                assert(a[a.len() - 1] == a.last());
            }
        }
        assert forall|x: Seq<char>| a.contains(x) && !b.contains(x) implies m.contains(x) by {
            let j = choose|j: int| 0 <= j < a.len() && a[j] == x;
            if j < a.len() - 1 {
                assert(a.drop_last()[j] == x);
                let k = choose|k: int| 0 <= k < m0.len() && m0[k] == x;
                assert(m[k] == x);
            } else {
                assert(m[m0.len() as int] == x);
            }
        }
    }
}

/// Saving the settings with the watched paths unchanged queues a full reindex.
pub proof fn lemma_unchanged_paths_reindex_all(a: Seq<Seq<char>>)
    ensures
        missing_from(a, a).len() == 0,
{
    lemma_missing_from(a, a);
    if missing_from(a, a).len() > 0 {
        assert(a.contains(missing_from(a, a)[0]));
    }
}

} // verus!
