//! The HTTP API of the earlier server: its requests, its responses and what each endpoint
//! answers. Routing requests to these functions belongs to the program around the
//! library.

use vstd::prelude::*;
use crate::database::{CustomResult, SearchResult, string_list};
use crate::indexer::{IndexCommand, IndexQueue, send_index_command};
use crate::numbers::nat_decimal;
use crate::text::{chars_of, string_of, extend_chars};

verus! {

/// The answer to a CORS preflight: `204 No Content` with the headers that allow any
/// origin.
#[derive(Debug)]
pub struct CorsHeader;

impl CorsHeader {
    /// The status of the answer.
    pub fn status(&self) -> (r: u16)
        ensures
            r == 204,
    {
        204
    }

    /// The headers of the answer, in order.
    pub fn headers(&self) -> (r: Vec<(String, String)>)
        ensures
            r@.len() == 4,
            r@[0].0@ == "Access-Control-Allow-Origin"@ && r@[0].1@ == "*"@,
            r@[1].0@ == "Access-Control-Allow-Methods"@ && r@[1].1@ == "GET, POST, OPTIONS"@,
            r@[2].0@ == "Access-Control-Allow-Headers"@ && r@[2].1@ == "Content-Type"@,
            r@[3].0@ == "Access-Control-Max-Age"@ && r@[3].1@ == "86400"@,
    {
        let mut v: Vec<(String, String)> = Vec::new();
        v.push((text("Access-Control-Allow-Origin"), text("*")));
        v.push((text("Access-Control-Allow-Methods"), text("GET, POST, OPTIONS")));
        v.push((text("Access-Control-Allow-Headers"), text("Content-Type")));
        v.push((text("Access-Control-Max-Age"), text("86400")));
        v
    }
}

fn text(s: &str) -> (r: String)
    ensures
        r@ == s@,
{
    string_of(&chars_of(s))
}

/// A search of one keyword.
#[derive(Debug, Clone)]
pub struct SearchRequest {
    pub keyword: String,
    pub context_length: usize,
}

/// A request to index again, everything or the given paths.
#[derive(Debug, Clone)]
pub struct ReindexRequest {
    pub paths: Option<Vec<String>>,
}

/// A request to take paths out of the index.
#[derive(Debug, Clone)]
pub struct RemovePathsRequest {
    pub paths: Vec<String>,
}

/// The results of a search.
#[derive(Debug, Clone)]
pub struct SearchResponse {
    pub results: Vec<SearchResult>,
    pub message: String,
}

/// The answer of every endpoint: whether it succeeded, what it returns, and a message.
#[derive(Debug, Clone)]
pub struct ApiResponse<T> {
    pub success: bool,
    pub data: Option<T>,
    pub message: String,
}

/// A custom SQL query.
#[derive(Debug, Clone)]
pub struct ExecuteSqlRequest {
    pub sql: String,
}

/// The table a custom SQL query returned.
#[derive(Debug, Clone)]
pub struct SqlResult {
    pub columns: Vec<String>,
    pub rows: Vec<Vec<String>>,
}

/// The text of the root endpoint.
pub fn index() -> (r: &'static str)
    ensures
        r@ == "Text Search API Server"@,
{
    "Text Search API Server"
}

/// The answer to a preflight of any path.
pub fn options_cors(path: String) -> (r: CorsHeader)
    ensures
        r == CorsHeader,
{
    CorsHeader
}

/// A successful answer.
fn ok_response(data: String, message: String) -> (r: ApiResponse<String>)
    ensures
        r.success,
        r.data matches Some(d) && d@ == data@,
        r.message@ == message@,
{
    ApiResponse { success: true, data: Some(data), message }
}

/// A failed answer.
fn error_response<T>(message: String) -> (r: ApiResponse<T>)
    ensures
        !r.success,
        r.data is None,
        r.message@ == message@,
{
    ApiResponse { success: false, data: None, message }
}

/// The answer to a request to remove paths, by whether the index worker took it.
pub fn remove_paths_response(queued: bool) -> (r: ApiResponse<String>)
    ensures
        r.success == queued,
        queued ==> (r.data matches Some(d) && d@ == "Remove paths queued"@
            && r.message@ == "Remove paths queued, check server logs for progress"@),
        !queued ==> r.data is None && r.message@ == "Index worker not initialized"@,
{
    if queued {
        ok_response(text("Remove paths queued"), text("Remove paths queued, check server logs for progress"))
    } else {
        error_response(text("Index worker not initialized"))
    }
}

/// Queues the removal of the requested paths for the index worker; the answer says whether
/// the worker took them.
pub fn remove_paths(req: RemovePathsRequest, q: &mut Option<IndexQueue>) -> (r: ApiResponse<String>)
    ensures
        r.success ==> (r.data matches Some(d) && d@ == "Remove paths queued"@
            && r.message@ == "Remove paths queued, check server logs for progress"@),
        !r.success ==> r.data is None && r.message@ == "Index worker not initialized"@,
        old(q).is_none() ==> !r.success && final(q).is_none(),
        old(q).is_some() ==> final(q).is_some() && final(q).unwrap().handed() == old(
            q,
        ).unwrap().handed().push(IndexCommand::RemovePaths(req.paths)),
        old(q).is_some() ==> final(q).unwrap().outcomes() == old(q).unwrap().outcomes().push(
            r.success,
        ),
{
    let ok = send_index_command(q, IndexCommand::RemovePaths(req.paths));
    remove_paths_response(ok)
}

/// Queues the reindexing of everything or of the requested paths, with the settings just
/// loaded; the answer names the task.
pub fn reindex_response(queued: bool, task_name: &str) -> (r: ApiResponse<String>)
    ensures
        r.success == queued,
        queued ==> (r.data matches Some(d) && d@ == "Reindex queued"@
            && r.message@ == task_name@ + " queued, check server logs for progress"@),
        !queued ==> r.data is None && r.message@ == "Index worker not initialized"@,
{
    if queued {
        let mut m = chars_of(task_name);
        extend_chars(&mut m, &chars_of(" queued, check server logs for progress"));
        ok_response(text("Reindex queued"), string_of(&m))
    } else {
        error_response(text("Index worker not initialized"))
    }
}

/// The answer to saving the settings, from how writing them went.
pub fn save_settings(saved: Result<(), String>) -> (r: ApiResponse<String>)
    ensures
        r.success == saved is Ok,
        saved is Ok ==> (r.data matches Some(d) && d@ == "Settings saved"@
            && r.message@ == "Settings saved successfully"@),
        saved matches Err(e) ==> r.data is None && r.message@ == e@,
{
    match saved {
        Ok(()) => ok_response(text("Settings saved"), text("Settings saved successfully")),
        Err(e) => error_response(e),
    }
}

/// The answer to clearing the index, from how it went.
pub fn clear_response(cleared: Result<(), String>) -> (r: ApiResponse<String>)
    ensures
        r.success == cleared is Ok,
        cleared is Ok ==> (r.data matches Some(d) && d@ == "Database cleared"@
            && r.message@ == "Database cleared successfully"@),
        cleared matches Err(e) ==> r.data is None && r.message@ == e@,
{
    match cleared {
        Ok(()) => ok_response(text("Database cleared"), text("Database cleared successfully")),
        Err(e) => error_response(e),
    }
}

/// The answer to a search, from its results: `Found <n> result(s)`.
pub fn search_response(results: Result<Vec<SearchResult>, String>) -> (r: ApiResponse<Vec<SearchResult>>)
    ensures
        r.success == results is Ok,
        results matches Ok(v) ==> (r.data matches Some(d) && d@ == v@
            && r.message@ == "Found "@ + nat_decimal(v@.len()) + " result(s)"@),
        results matches Err(e) ==> r.data is None && r.message@ == e@,
{
    match results {
        Ok(v) => {
            let mut m = chars_of("Found ");
            extend_chars(&mut m, &chars_of(crate::numbers::usize_decimal(v.len()).as_str()));
            extend_chars(&mut m, &chars_of(" result(s)"));
            ApiResponse { success: true, data: Some(v), message: string_of(&m) }
        },
        Err(e) => error_response(e),
    }
}

/// The table of a custom query's rows: the column names of the first row (none without
/// rows) and the values of each row.
pub fn sql_table(results: &Vec<CustomResult>) -> (r: SqlResult)
    ensures
        string_list(r.columns@) == if results@.len() > 0 {
            string_list(results@[0].columns@)
        } else {
            Seq::<Seq<char>>::empty()
        },
        r.rows@.len() == results@.len(),
        forall|i: int|
            0 <= i < results@.len() ==> string_list(#[trigger] r.rows@[i]@) == string_list(
                results@[i].values@,
            ),
{
    let mut rows: Vec<Vec<String>> = Vec::new();
    let mut i: usize = 0;
    while i < results.len()
        invariant
            i <= results.len(),
            rows@.len() == i,
            forall|k: int|
                0 <= k < i ==> string_list(#[trigger] rows@[k]@) == string_list(results@[k].values@),
        decreases results.len() - i,
    {
        rows.push(copy_strings(&results[i].values));
        i = i + 1;
    }
    let columns = if results.len() > 0 {
        copy_strings(&results[0].columns)
    } else {
        Vec::new()
    };
    assert(results@.len() == 0 ==> string_list(columns@) =~= Seq::<Seq<char>>::empty());
    SqlResult { columns, rows }
}

fn copy_strings(v: &Vec<String>) -> (r: Vec<String>)
    ensures
        string_list(r@) == string_list(v@),
{
    let mut out: Vec<String> = Vec::new();
    let mut i: usize = 0;
    while i < v.len()
        invariant
            i <= v.len(),
            string_list(out@) == string_list(v@).take(i as int),
        decreases v.len() - i,
    {
        let ghost before = out@;
        out.push(v[i].clone());
        assert(string_list(out@) =~= string_list(before).push(v@[i as int]@));
        i = i + 1;
        assert(string_list(out@) =~= string_list(v@).take(i as int));
    }
    assert(string_list(v@).take(v.len() as int) =~= string_list(v@));
    out
}

/// The answer to a custom query, from its rows: the table, and
/// `Executed SQL, returned <n> row(s)`.
pub fn execute_sql_response(results: Result<Vec<CustomResult>, String>) -> (r: ApiResponse<SqlResult>)
    ensures
        r.success == results is Ok,
        results matches Ok(v) ==> (r.data matches Some(t) && t.rows@.len() == v@.len()
            && r.message@ == "Executed SQL, returned "@ + nat_decimal(v@.len()) + " row(s)"@),
        results matches Err(e) ==> r.data is None && r.message@ == e@,
{
    match results {
        Ok(v) => {
            let table = sql_table(&v);
            let mut m = chars_of("Executed SQL, returned ");
            extend_chars(&mut m, &chars_of(crate::numbers::usize_decimal(v.len()).as_str()));
            extend_chars(&mut m, &chars_of(" row(s)"));
            ApiResponse { success: true, data: Some(table), message: string_of(&m) }
        },
        Err(e) => error_response(e),
    }
}

} // verus!
