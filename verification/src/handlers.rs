//! The static responder and the directory listing page.

use crate::config::Server;
use crate::headers::{header_value_ok, valid_header_value};
use crate::listing::{row_views, sort_listing, sort_rows, ListingRow, Row};
use crate::paths::{
    extension_of, has_leading_dot, has_parent_piece, join_path, join_pieces, named_pieces,
    parent_of, parent_path, path_extension, path_join, resolve_outcome, resolve_path_within_root,
};
use crate::text::{
    chars_of, opt_text, push_text, spells, split_chars, split_on, string_of, trim_end,
    trim_end_chars, trim_start, trim_start_chars, lemma_split_after_sep, lemma_split_nonempty,
};
use vstd::prelude::*;
use vstd::string::StrSliceExecFns;
use vstd::utf8::encode_utf8;

verus! {

/// The lower-case form of a text, as `str::to_lowercase` gives it.
pub uninterp spec fn lowercase_text(text: Seq<char>) -> Seq<char>;

/// The media type that goes with a file extension.
pub uninterp spec fn mime_of_extension(ext: Seq<char>) -> Seq<char>;

/// What stands for a character in HTML text.
pub open spec fn escaped_in_text(c: char) -> Seq<char> {
    if c == '&' {
        "&amp;"@
    } else if c == '<' {
        "&lt;"@
    } else if c == '>' {
        "&gt;"@
    } else {
        seq![c]
    }
}

/// What stands for a character in an attribute value between double quotes.
pub open spec fn escaped_in_attribute(c: char) -> Seq<char> {
    if c == '"' {
        "&quot;"@
    } else {
        escaped_in_text(c)
    }
}

/// A text as it is written in HTML text: `&`, `<` and `>` are escaped.
pub open spec fn escape_text(s: Seq<char>) -> Seq<char>
    decreases s.len(),
{
    if s.len() == 0 {
        s
    } else {
        escape_text(s.drop_last()) + escaped_in_text(s.last())
    }
}

/// A text as it is written in an attribute value between double quotes: `&`,
/// `<`, `>` and `"` are escaped.
pub open spec fn escape_attribute(s: Seq<char>) -> Seq<char>
    decreases s.len(),
{
    if s.len() == 0 {
        s
    } else {
        escape_attribute(s.drop_last()) + escaped_in_attribute(s.last())
    }
}

/// `str::to_lowercase`.
#[verifier::external_body]
pub(crate) fn lowercase(text: &str) -> (lower: String)
    ensures
        lower@ == lowercase_text(text@),
{
    text.to_lowercase()
}

/// `html_escape::encode_text`: the text with `&`, `<` and `>` replaced by
/// their entities and every other character kept.
#[verifier::external_body]
pub(crate) fn encode_text(text: &str) -> (escaped: String)
    ensures
        escaped@ == escape_text(text@),
{
    html_escape::encode_text(text).into_owned()
}

/// `html_escape::encode_double_quoted_attribute`: the text with `&`, `<`, `>`
/// and `"` replaced by their entities and every other character kept.
#[verifier::external_body]
pub(crate) fn encode_attribute(text: &str) -> (escaped: String)
    ensures
        escaped@ == escape_attribute(text@),
{
    html_escape::encode_double_quoted_attribute(text).into_owned()
}

/// `mime_guess::from_ext` with `first_or_octet_stream`: the first media type
/// that the crate's table lists for the extension, written out as text. The
/// table goes by the extension alone, whatever its case.
#[verifier::external_body]
pub(crate) fn mime_for_extension(ext: &str) -> (mime: String)
    ensures
        mime@ == mime_of_extension(ext@),
{
    mime_guess::from_ext(ext).first_or_octet_stream().to_string()
}

/// An entry of a directory.
#[derive(Debug, Clone)]
pub struct DirectoryEntry {
    pub name: String,
    pub is_dir: bool,
}

/// The rows of a listing of the given entries: each entry with the lower-case
/// form of its name as its key.
pub open spec fn rows_of(entries: Seq<DirectoryEntry>) -> Seq<Row> {
    Seq::new(
        entries.len(),
        |i: int|
            Row {
                name: entries[i].name@,
                key: lowercase_text(entries[i].name@),
                is_dir: entries[i].is_dir,
            },
    )
}

/// The title of a listing: the request path with a `/` before it.
pub open spec fn listing_title(rel: Seq<char>) -> Seq<char> {
    seq!['/'] + rel
}

/// Where the link to the parent directory leads.
pub open spec fn parent_target(rel: Seq<char>) -> Seq<char> {
    let parent = parent_of(rel);
    if parent == "."@ {
        seq!['/']
    } else {
        seq!['/'] + parent
    }
}

/// The line that links to the parent directory; there is none at the root.
pub open spec fn parent_item(rel: Seq<char>) -> Seq<char> {
    if rel.len() == 0 {
        rel
    } else {
        "<li><a href=\""@ + escape_attribute(parent_target(rel)) + "\">..</a></li>"@
    }
}

/// Where the link of an entry leads: the request path, then the entry's name,
/// with a `/` before each and, for a directory, one at the end.
pub open spec fn entry_target(rel: Seq<char>, name: Seq<char>, is_dir: bool) -> Seq<char> {
    let base = if rel.len() == 0 {
        seq!['/'] + name
    } else {
        (seq!['/'] + trim_end(rel, '/')).push('/') + name
    };
    if is_dir {
        base.push('/')
    } else {
        base
    }
}

/// The line of one entry.
pub open spec fn entry_item(rel: Seq<char>, row: Row) -> Seq<char> {
    "<li><a href=\""@ + escape_attribute(entry_target(rel, row.name, row.is_dir)) + "\">"@
        + escape_text(row.name) + "</a></li>"@
}

/// The lines of the entries, in the order given.
pub open spec fn entry_items(rel: Seq<char>, rows: Seq<Row>) -> Seq<char>
    decreases rows.len(),
{
    if rows.len() == 0 {
        Seq::<char>::empty()
    } else {
        entry_items(rel, rows.drop_last()) + entry_item(rel, rows.last())
    }
}

/// What a listing page starts with, up to its title.
pub open spec fn page_opening() -> Seq<char> {
    "<!doctype html>\n<html><head><meta charset=\"utf-8\"><title>Index of "@
}

/// What stands between the title and the heading of a listing page.
pub open spec fn page_style() -> Seq<char> {
    "</title><style>body { font-family: monospace; margin: 20px; } h1 { color: #333; } ul { list-style: none; padding: 0; } li { padding: 5px 0; } a { color: #0066cc; text-decoration: none; } a:hover { text-decoration: underline; } hr { margin-top: 20px; border: none; border-top: 1px solid #ccc; }</style></head><body><h1>Index of "@
}

/// What a listing page ends with.
pub open spec fn page_closing() -> Seq<char> {
    "</ul><hr><address>statiker</address></body></html>"@
}

/// The page that lists `rows`, in the order given, for the request path `rel`.
pub open spec fn listing_page(rows: Seq<Row>, rel: Seq<char>) -> Seq<char> {
    page_opening() + escape_text(listing_title(rel)) + page_style() + escape_text(
        listing_title(rel),
    ) + "</h1><ul>"@ + parent_item(rel) + entry_items(rel, rows) + page_closing()
}

fn push_entry_item(out: &mut Vec<char>, rel: &[char], rel_trimmed: &[char], row: &ListingRow)
    requires
        rel_trimmed@ == trim_end(rel@, '/'),
    ensures
        final(out)@ == old(out)@ + entry_item(rel@, row@),
{
    let mut url: Vec<char> = Vec::new();
    url.push('/');
    if rel.len() > 0 {
        crate::text::push_all(&mut url, rel_trimmed);
        url.push('/');
    }
    push_text(&mut url, row.name.as_str());
    if row.is_dir {
        url.push('/');
    }
    assert(url@ =~= entry_target(rel@, row@.name, row@.is_dir));
    let url_text = string_of(url.as_slice());
    let escaped_url = encode_attribute(url_text.as_str());
    let escaped_name = encode_text(row.name.as_str());
    push_text(out, "<li><a href=\"");
    push_text(out, escaped_url.as_str());
    push_text(out, "\">");
    push_text(out, escaped_name.as_str());
    push_text(out, "</a></li>");
    assert(out@ =~= old(out)@ + entry_item(rel@, row@));
}

/// Renders the page that lists the given rows for the request path
/// `rel_path`. The rows are put in the order of a listing first: directories
/// before files, each group by key, rows of one key by name.
pub fn render_listing(rows: &Vec<ListingRow>, rel_path: &str) -> (html: String)
    ensures
        html@ == listing_page(sort_rows(row_views(rows@)), rel_path@),
{
    let sorted = sort_listing(rows);
    let rel = chars_of(rel_path);
    let rel_trimmed = trim_end_chars(rel.as_slice(), '/');
    let mut title: Vec<char> = Vec::new();
    title.push('/');
    crate::text::push_all(&mut title, rel.as_slice());
    assert(title@ =~= listing_title(rel_path@));
    let title_text = string_of(title.as_slice());
    let escaped_title = encode_text(title_text.as_str());
    let mut out: Vec<char> = Vec::new();
    push_text(
        &mut out,
        "<!doctype html>\n<html><head><meta charset=\"utf-8\"><title>Index of ",
    );
    push_text(&mut out, escaped_title.as_str());
    push_text(
        &mut out,
        "</title><style>body { font-family: monospace; margin: 20px; } h1 { color: #333; } ul { list-style: none; padding: 0; } li { padding: 5px 0; } a { color: #0066cc; text-decoration: none; } a:hover { text-decoration: underline; } hr { margin-top: 20px; border: none; border-top: 1px solid #ccc; }</style></head><body><h1>Index of ",
    );
    push_text(&mut out, escaped_title.as_str());
    push_text(&mut out, "</h1><ul>");
    if rel.len() > 0 {
        let parent = parent_path(rel_path);
        let mut target: Vec<char> = Vec::new();
        target.push('/');
        if !spells(chars_of(parent.as_str()).as_slice(), ".") {
            push_text(&mut target, parent.as_str());
        }
        assert(target@ =~= parent_target(rel_path@));
        let target_text = string_of(target.as_slice());
        let escaped = encode_attribute(target_text.as_str());
        push_text(&mut out, "<li><a href=\"");
        push_text(&mut out, escaped.as_str());
        push_text(&mut out, "\">..</a></li>");
    }
    let ghost start = page_opening() + escape_text(listing_title(rel_path@)) + page_style()
        + escape_text(listing_title(rel_path@)) + "</h1><ul>"@ + parent_item(rel_path@);
    assert(out@ =~= start);
    let ghost all = row_views(sorted@);
    let mut i: usize = 0;
    assert(all.take(0) =~= Seq::<Row>::empty());
    assert(out@ =~= start + entry_items(rel_path@, all.take(0)));
    while i < sorted.len()
        invariant
            i <= sorted.len(),
            all == row_views(sorted@),
            rel@ == rel_path@,
            rel_trimmed@ == trim_end(rel@, '/'),
            out@ == start + entry_items(rel_path@, all.take(i as int)),
        decreases sorted.len() - i,
    {
        proof {
            assert(all.take(i + 1).drop_last() =~= all.take(i as int));
            assert(all.take(i + 1).last() == sorted@[i as int]@);
        }
        push_entry_item(&mut out, rel.as_slice(), rel_trimmed.as_slice(), &sorted[i]);
        assert(out@ =~= start + entry_items(rel_path@, all.take(i + 1)));
        i += 1;
    }
    assert(all.take(sorted.len() as int) =~= all);
    push_text(&mut out, "</ul><hr><address>statiker</address></body></html>");
    assert(out@ =~= listing_page(all, rel_path@));
    string_of(out.as_slice())
}

/// Renders the page that lists the entries of a directory for the request
/// path `rel_path`: directories before files, each group in the order of the
/// names in lower case, and names that are the same in lower case in the
/// order of their own spelling. The order of `items` does not matter.
pub fn render_directory_listing(items: &Vec<DirectoryEntry>, rel_path: &str) -> (html: String)
    ensures
        html@ == listing_page(sort_rows(rows_of(items@)), rel_path@),
{
    let mut rows: Vec<ListingRow> = Vec::new();
    let mut i: usize = 0;
    assert(row_views(rows@) =~= rows_of(items@).take(0));
    while i < items.len()
        invariant
            i <= items.len(),
            rows@.len() == i,
            row_views(rows@) == rows_of(items@).take(i as int),
        decreases items.len() - i,
    {
        let key = lowercase(items[i].name.as_str());
        let ghost before = row_views(rows@);
        rows.push(
            ListingRow {
                name: items[i].name.clone(),
                key: chars_of(key.as_str()),
                is_dir: items[i].is_dir,
            },
        );
        assert(rows@[i as int]@ == rows_of(items@)[i as int]);
        assert(row_views(rows@) =~= before.push(rows_of(items@)[i as int]));
        assert(row_views(rows@) =~= rows_of(items@).take(i + 1));
        i += 1;
    }
    assert(rows_of(items@).take(items.len() as int) =~= rows_of(items@));
    render_listing(&rows, rel_path)
}

/// The same rows render the same page, in whatever order they are given: a
/// directory has one listing, however its entries are enumerated.
pub proof fn lemma_listing_is_deterministic(a: Seq<Row>, b: Seq<Row>, rel: Seq<char>)
    requires
        a.to_multiset() == b.to_multiset(),
    ensures
        listing_page(sort_rows(a), rel) == listing_page(sort_rows(b), rel),
{
    crate::listing::lemma_sort_rows_is_deterministic(a, b);
}

/// The answer to a request for static content.
#[derive(Debug, Clone)]
pub struct StaticResponse {
    pub status: u16,
    /// The value of the `Content-Type` header, where the answer has one.
    pub content_type: Option<String>,
    /// The value of the `Content-Length` header, where the answer has one.
    pub content_length: Option<u64>,
    pub body: Vec<u8>,
}

/// Whether `r` is an answer of the given status without headers or body.
pub open spec fn is_bare(r: StaticResponse, status: u16) -> bool {
    &&& r.status == status
    &&& r.content_type is None
    &&& r.content_length is None
    &&& r.body@.len() == 0
}

/// Whether `r` answers with content: status 200, the length of the content as
/// `Content-Length`, and the content as body, unless the method is `HEAD`,
/// for which the body is empty.
pub open spec fn has_content(
    r: StaticResponse,
    method: Seq<char>,
    content_type: Option<Seq<char>>,
    content: Seq<u8>,
) -> bool {
    &&& r.status == 200
    &&& opt_text(r.content_type) == content_type
    &&& r.content_length == Some(content.len() as u64)
    &&& r.body@ == if method == "HEAD"@ {
        Seq::<u8>::empty()
    } else {
        content
    }
}

/// The `Content-Type` of a file, given the media type found for it: the media
/// type where it is a valid header value, and none otherwise.
pub open spec fn file_content_type(mime: Seq<char>) -> Option<Seq<char>> {
    if valid_header_value(mime) {
        Some(mime)
    } else {
        None
    }
}

/// The media type of the file at `path`: that of its extension, and
/// `application/octet-stream` where it has none.
pub open spec fn mime_text(path: Seq<char>) -> Seq<char> {
    if extension_of(path).len() == 0 {
        "application/octet-stream"@
    } else {
        mime_of_extension(extension_of(path))
    }
}

fn bare(status: u16) -> (r: StaticResponse)
    ensures
        is_bare(r, status),
{
    StaticResponse { status, content_type: None, content_length: None, body: Vec::new() }
}

/// The media type of the file at `path`.
pub fn file_mime(path: &str) -> (mime: String)
    ensures
        mime@ == mime_text(path@),
{
    let ext = path_extension(path);
    if ext.as_str().unicode_len() == 0 {
        "application/octet-stream".to_owned()
    } else {
        mime_for_extension(ext.as_str())
    }
}

/// The answer that serves the bytes of a file, given the media type found
/// for it.
pub fn file_response(method: &str, mime: String, bytes: Vec<u8>) -> (r: StaticResponse)
    ensures
        has_content(r, method@, file_content_type(mime@), bytes@),
{
    let content_type = if header_value_ok(mime.as_str()) {
        Some(mime)
    } else {
        None
    };
    let len = bytes.len() as u64;
    let body = if spells(chars_of(method).as_slice(), "HEAD") {
        Vec::new()
    } else {
        bytes
    };
    StaticResponse { status: 200, content_type, content_length: Some(len), body }
}

/// The answer that serves a listing page.
pub fn listing_response(method: &str, html: &str) -> (r: StaticResponse)
    ensures
        has_content(r, method@, Some("text/html; charset=utf-8"@), encode_utf8(html@)),
{
    let bytes = html.as_bytes_vec();
    let len = bytes.len() as u64;
    let body = if spells(chars_of(method).as_slice(), "HEAD") {
        Vec::new()
    } else {
        bytes
    };
    StaticResponse {
        status: 200,
        content_type: Some("text/html; charset=utf-8".to_owned()),
        content_length: Some(len),
        body,
    }
}

/// What the filesystem holds at a path.
#[derive(Clone, Copy, Debug, PartialEq, Eq, Structural)]
pub enum PathKind {
    File,
    Directory,
    /// Nothing, or something that is neither a file nor a directory.
    Other,
}

/// What the filesystem reported for the last thing asked of it.
#[derive(Debug, Clone)]
pub enum FsEvent {
    /// Nothing was asked yet.
    Begin,
    /// What the probed path holds.
    Kind(PathKind),
    /// The bytes of the file that was read, or nothing if reading failed.
    Bytes(Option<Vec<u8>>),
    /// The entries of the directory that was listed, or nothing if listing
    /// failed.
    Entries(Option<Vec<DirectoryEntry>>),
}

/// How far the answer to a request for static content has come.
#[derive(Debug, Clone)]
pub enum StaticStage {
    Start,
    /// The target was probed; `rel` is the request path below the route.
    Target { path: String, rel: String },
    /// The file at `path` is being read.
    File { path: String },
    /// The index file of the directory `dir` was probed.
    Index { dir: String, rel: String, index_path: String },
    /// The directory that the request path `rel` names is being listed.
    Listing { rel: String },
    Done,
}

/// What to do next for a request for static content.
#[derive(Debug, Clone)]
pub enum StaticAction {
    /// Find out what the path holds.
    Probe(String),
    /// Read the file at the path.
    Read(String),
    /// List the entries of the directory at the path.
    List(String),
    /// Answer the request.
    Respond(StaticResponse),
}

/// The stage reached and what to do next.
#[derive(Debug, Clone)]
pub struct StaticTurn {
    pub stage: StaticStage,
    pub action: StaticAction,
}

/// Whether a method reads: only `GET` and `HEAD` do.
pub open spec fn is_read_method(method: Seq<char>) -> bool {
    method == "GET"@ || method == "HEAD"@
}

/// The request path below the route, without the `/` at its start.
pub open spec fn static_rel(tail: Seq<char>) -> Seq<char> {
    trim_start(tail, '/')
}

/// Whether a request path is refused: it holds a `..` piece, or starts with
/// a current-directory marker.
pub open spec fn is_forbidden(tail: Seq<char>) -> bool {
    has_parent_piece(tail) || has_leading_dot(static_rel(tail))
}

/// The path in the filesystem that a request path stands for.
pub open spec fn static_target(root: Seq<char>, tail: Seq<char>) -> Seq<char> {
    join_pieces(root, named_pieces(static_rel(tail)))
}

/// How many turns a stage is from the answer, at most.
pub open spec fn turns_left(stage: StaticStage) -> nat {
    match stage {
        StaticStage::Start => 4,
        StaticStage::Target { .. } => 3,
        StaticStage::Index { .. } => 2,
        StaticStage::File { .. } => 1,
        StaticStage::Listing { .. } => 1,
        StaticStage::Done => 0,
    }
}

/// Whether a turn answers the request with a bare status.
pub open spec fn answers(turn: StaticTurn, status: u16) -> bool {
    turn.stage is Done && turn.action is Respond && is_bare(turn.action->Respond_0, status)
}

/// Whether `turn` is the turn to take at `stage` when the filesystem reports
/// `event`.
pub open spec fn is_static_turn(
    server: Server,
    method: Seq<char>,
    tail: Seq<char>,
    stage: StaticStage,
    event: FsEvent,
    turn: StaticTurn,
) -> bool {
    match (stage, event) {
        (StaticStage::Start, FsEvent::Begin) => {
            if !is_read_method(method) {
                answers(turn, 405)
            } else if is_forbidden(tail) {
                answers(turn, 403)
            } else {
                &&& turn.stage matches StaticStage::Target { path, rel }
                &&& path@ == static_target(server.root@, tail)
                &&& rel@ == static_rel(tail)
                &&& turn.action matches StaticAction::Probe(probed)
                &&& probed@ == static_target(server.root@, tail)
            }
        },
        (StaticStage::Target { path, rel }, FsEvent::Kind(PathKind::File)) => {
            &&& turn.stage matches StaticStage::File { path: file }
            &&& file@ == path@
            &&& turn.action matches StaticAction::Read(read)
            &&& read@ == path@
        },
        (StaticStage::Target { path, rel }, FsEvent::Kind(PathKind::Directory)) => {
            &&& turn.stage matches StaticStage::Index { dir, rel: kept, index_path }
            &&& dir@ == path@
            &&& kept@ == rel@
            &&& index_path@ == join_path(path@, server.index@)
            &&& turn.action matches StaticAction::Probe(probed)
            &&& probed@ == join_path(path@, server.index@)
        },
        (StaticStage::Target { path, rel }, FsEvent::Kind(PathKind::Other)) => answers(turn, 404),
        (StaticStage::Index { dir, rel, index_path }, FsEvent::Kind(PathKind::File)) => {
            &&& turn.stage matches StaticStage::File { path: file }
            &&& file@ == index_path@
            &&& turn.action matches StaticAction::Read(read)
            &&& read@ == index_path@
        },
        (StaticStage::Index { dir, rel, index_path }, FsEvent::Kind(_)) => {
            if server.auto_index {
                &&& turn.stage matches StaticStage::Listing { rel: kept }
                &&& kept@ == rel@
                &&& turn.action matches StaticAction::List(listed)
                &&& listed@ == dir@
            } else {
                answers(turn, 404)
            }
        },
        (StaticStage::File { path }, FsEvent::Bytes(Some(bytes))) => {
            &&& turn.stage is Done
            &&& turn.action matches StaticAction::Respond(r)
            &&& has_content(r, method, file_content_type(mime_text(path@)), bytes@)
        },
        (StaticStage::File { path }, FsEvent::Bytes(None)) => answers(turn, 500),
        (StaticStage::Listing { rel }, FsEvent::Entries(Some(items))) => {
            &&& turn.stage is Done
            &&& turn.action matches StaticAction::Respond(r)
            &&& has_content(
                r,
                method,
                Some("text/html; charset=utf-8"@),
                encode_utf8(listing_page(sort_rows(rows_of(items@)), rel@)),
            )
        },
        (StaticStage::Listing { rel }, FsEvent::Entries(None)) => answers(turn, 500),
        _ => answers(turn, 500),
    }
}

fn answer(status: u16) -> (turn: StaticTurn)
    ensures
        answers(turn, status),
{
    StaticTurn { stage: StaticStage::Done, action: StaticAction::Respond(bare(status)) }
}

/// Takes one turn in answering a request for static content on a route:
/// given the stage reached and what the filesystem reported for the last
/// action, says what to do next. A request starts at `Start` with `Begin`,
/// and is over when the action is `Respond`.
///
/// Only `GET` and `HEAD` are served (405 otherwise). A request path with a
/// `..` piece, or one that starts with a current-directory marker, is
/// refused (403). A file is served with its media type and length; a
/// directory with its index file, else with a listing where listings are on,
/// else 404; what is missing gives 404, and what cannot be read 500. An
/// event that does not fit the stage gives 500.
pub fn serve_static(
    server: &Server,
    method: &str,
    tail: &str,
    stage: StaticStage,
    event: FsEvent,
) -> (turn: StaticTurn)
    ensures
        is_static_turn(*server, method@, tail@, stage, event, turn),
        turn.stage is Done <==> turn.action is Respond,
        turns_left(turn.stage) < turns_left(stage) || turn.stage is Done,
        has_parent_piece(tail@) && stage is Start && event is Begin ==> answers(turn, 403)
            || answers(turn, 405),
{
    match (stage, event) {
        (StaticStage::Start, FsEvent::Begin) => {
            let m = chars_of(method);
            if !(spells(m.as_slice(), "GET") || spells(m.as_slice(), "HEAD")) {
                return answer(405);
            }
            let t = chars_of(tail);
            let rel = trim_start_chars(t.as_slice(), '/');
            let rel_text = string_of(rel.as_slice());
            let first_is_dot = {
                let pieces = split_chars(rel.as_slice(), '/');
                proof {
                    lemma_split_nonempty(rel@, '/');
                }
                spells(pieces[0].as_slice(), ".")
            };
            proof {
                lemma_trimmed_has_no_root(tail@);
                lemma_trim_keeps_parent_pieces(tail@);
            }
            let resolved = resolve_path_within_root(server.root.as_str(), rel_text.as_str());
            match resolved {
                Ok(path) => {
                    if first_is_dot {
                        return answer(403);
                    }
                    let probed = path.clone();
                    StaticTurn {
                        stage: StaticStage::Target { path, rel: rel_text },
                        action: StaticAction::Probe(probed),
                    }
                },
                Err(_) => answer(403),
            }
        },
        (StaticStage::Target { path, rel }, FsEvent::Kind(kind)) => {
            match kind {
                PathKind::File => {
                    let read = path.clone();
                    StaticTurn {
                        stage: StaticStage::File { path },
                        action: StaticAction::Read(read),
                    }
                },
                PathKind::Directory => {
                    let index_path = path_join(path.as_str(), server.index.as_str());
                    let probed = index_path.clone();
                    StaticTurn {
                        stage: StaticStage::Index { dir: path, rel, index_path },
                        action: StaticAction::Probe(probed),
                    }
                },
                PathKind::Other => answer(404),
            }
        },
        (StaticStage::Index { dir, rel, index_path }, FsEvent::Kind(kind)) => {
            match kind {
                PathKind::File => {
                    let read = index_path.clone();
                    StaticTurn {
                        stage: StaticStage::File { path: index_path },
                        action: StaticAction::Read(read),
                    }
                },
                _ => {
                    if server.auto_index {
                        StaticTurn {
                            stage: StaticStage::Listing { rel },
                            action: StaticAction::List(dir),
                        }
                    } else {
                        answer(404)
                    }
                },
            }
        },
        (StaticStage::File { path }, FsEvent::Bytes(content)) => {
            match content {
                Some(bytes) => {
                    let mime = file_mime(path.as_str());
                    StaticTurn {
                        stage: StaticStage::Done,
                        action: StaticAction::Respond(file_response(method, mime, bytes)),
                    }
                },
                None => answer(500),
            }
        },
        (StaticStage::Listing { rel }, FsEvent::Entries(listed)) => {
            match listed {
                Some(items) => {
                    let html = render_directory_listing(&items, rel.as_str());
                    StaticTurn {
                        stage: StaticStage::Done,
                        action: StaticAction::Respond(listing_response(method, html.as_str())),
                    }
                },
                None => answer(500),
            }
        },
        _ => answer(500),
    }
}

/// What is left after trimming the `/` at the start does not start at the
/// root.
pub proof fn lemma_trimmed_has_no_root(tail: Seq<char>)
    ensures
        !crate::paths::has_root(trim_start(tail, '/')),
    decreases tail.len(),
{
    if tail.len() > 0 && tail.first() == '/' {
        lemma_trimmed_has_no_root(tail.drop_first());
    }
}

/// Trimming the `/` at the start of a path neither adds nor removes a `..`
/// piece.
pub proof fn lemma_trim_keeps_parent_pieces(tail: Seq<char>)
    ensures
        has_parent_piece(trim_start(tail, '/')) == has_parent_piece(tail),
    decreases tail.len(),
{
    if tail.len() > 0 && tail.first() == '/' {
        let rest = tail.drop_first();
        lemma_trim_keeps_parent_pieces(rest);
        lemma_split_after_sep(rest, '/');
        assert(tail =~= seq!['/'] + rest);
        let whole = split_on(tail, '/');
        let pieces = split_on(rest, '/');
        reveal_strlit("..");
        if whole.contains(".."@) {
            let i = choose|i: int| 0 <= i < whole.len() && whole[i] == ".."@;
            assert(i > 0);
            assert(pieces[i - 1] == ".."@);
        }
        if pieces.contains(".."@) {
            let i = choose|i: int| 0 <= i < pieces.len() && pieces[i] == ".."@;
            assert(whole[i + 1] == ".."@);
        }
    }
}

} // verus!
