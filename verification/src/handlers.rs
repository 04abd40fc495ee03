//! The decisions of the notes server: which handler a request goes to, how
//! a note is shown by its file extension, what a folder shows, and the
//! rendering of Markdown notes to HTML.

use vstd::prelude::*;
use hoedown::Render;

verus! {

// ---------------------------------------------------------------------------
// Dispatch
// ---------------------------------------------------------------------------

/// Whether a request whose URL path has the segments `segments` goes to the
/// administration pages mounted at `admin_path`: its first segment is that.
pub fn goes_to_admin(segments: &Vec<String>, admin_path: &String) -> (r: bool)
    ensures
        r == (segments@.len() > 0 && segments@[0]@ == admin_path@),
{
    if segments.len() > 0 {
        segments[0].eq(admin_path)
    } else {
        false
    }
}

// ---------------------------------------------------------------------------
// Showing a note by its extension
// ---------------------------------------------------------------------------

/// What `std::path::Path::extension` gives for the path `path` (as text):
/// the part of the file name after its last `.`, if any.
pub uninterp spec fn path_extension_of(path: Seq<char>) -> Option<Seq<char>>;

/// Calls `std::path::Path::new(path).extension()` and takes the extension
/// as text. A path given as `&str` has an extension that is text. Claimed:
/// the result is the named extension of `path` (on the Unix targets this
/// server runs on, where `/` is the only separator).
#[verifier::external_body]
fn extension_of(path: &str) -> (r: Option<String>)
    ensures
        r is None <==> path_extension_of(path@) is None,
        r matches Some(e) ==> path_extension_of(path@) == Some(e@),
{
    match std::path::Path::new(path).extension() {
        Some(e) => e.to_str().map(|s| s.to_owned()),
        None => None,
    }
}

/// How a requested path is shown.
#[derive(Debug, PartialEq, Eq, Clone, Copy)]
pub enum Route {
    /// `.md`: rendered from Markdown into the `markdown` page.
    Markdown,
    /// `.txt`: shown as text in the `code` page.
    Code,
    /// No extension: a folder, shown by its index or as a listing.
    Folder,
    /// Any other extension: the file is sent as it is.
    Raw,
}

/// The text of an optional string.
pub open spec fn option_text(o: Option<String>) -> Option<Seq<char>> {
    match o {
        Some(s) => Some(s@),
        None => None,
    }
}

/// The route for a path whose extension is `ext`.
pub open spec fn route_spec(ext: Option<Seq<char>>) -> Route {
    match ext {
        None => Route::Folder,
        Some(e) => if e == "md"@ {
            Route::Markdown
        } else if e == "txt"@ {
            Route::Code
        } else {
            Route::Raw
        },
    }
}

/// Only `md` is shown as Markdown and only `txt` as text; a path without an
/// extension is a folder, and every other extension is sent as it is.
pub proof fn law_route_by_extension(e: Seq<char>)
    ensures
        e == "md"@ <==> route_spec(Some(e)) == Route::Markdown,
        e == "txt"@ <==> route_spec(Some(e)) == Route::Code,
        e != "md"@ && e != "txt"@ <==> route_spec(Some(e)) == Route::Raw,
        route_spec(Some(e)) != Route::Folder,
        route_spec(None) == Route::Folder,
{
    reveal_strlit("md");
    reveal_strlit("txt");
    assert("md"@ != "txt"@) by {
        assert("md"@[0] != "txt"@[0]);
    }
}

/// The route for a path whose extension is `ext`.
pub fn route_for_extension(ext: Option<String>) -> (r: Route)
    ensures
        r == route_spec(option_text(ext)),
        ext is None <==> r is Folder,
        ext matches Some(e) ==> (e@ == "md"@ <==> r is Markdown),
        ext matches Some(e) ==> (e@ == "txt"@ <==> r is Code),
        ext matches Some(e) ==> (e@ != "md"@ && e@ != "txt"@ <==> r is Raw),
{
    proof {
        if ext is Some {
            law_route_by_extension(ext->0@);
        }
    }
    match ext {
        None => Route::Folder,
        Some(e) => {
            let md = "md".to_owned();
            let txt = "txt".to_owned();
            if e.eq(&md) {
                Route::Markdown
            } else if e.eq(&txt) {
                Route::Code
            } else {
                Route::Raw
            }
        },
    }
}

/// The route for the requested path `path` (its URL segments joined by `/`).
pub fn route_for(path: &str) -> (r: Route)
    ensures
        r == route_spec(path_extension_of(path@)),
{
    let ext = extension_of(path);
    proof {
        assert(option_text(ext) == path_extension_of(path@));
    }
    route_for_extension(ext)
}

/// What a folder shows.
#[derive(Debug, PartialEq, Eq, Clone, Copy)]
pub enum FolderView {
    /// Redirect to the folder's `index.md`.
    IndexMarkdown,
    /// Redirect to the folder's `index.html`.
    IndexHtml,
    /// List the folder's accessible notes.
    Listing,
}

/// What a folder shows, given whether it holds the files `index.md` and
/// `index.html`: the Markdown index first, then the HTML index, else a
/// listing.
pub fn folder_view(has_index_md: bool, has_index_html: bool) -> (r: FolderView)
    ensures
        has_index_md ==> r is IndexMarkdown,
        !has_index_md && has_index_html ==> r is IndexHtml,
        !has_index_md && !has_index_html ==> r is Listing,
{
    if has_index_md {
        FolderView::IndexMarkdown
    } else if has_index_html {
        FolderView::IndexHtml
    } else {
        FolderView::Listing
    }
}

// ---------------------------------------------------------------------------
// Markdown
// ---------------------------------------------------------------------------

/// The Hoedown extensions notes are rendered with: tables, fenced code,
/// math, explicit math and headers that need a space after `#`.
pub const MARKDOWN_EXTENSIONS: u32 = 0x3203;

/// The HTML renderer flags notes are rendered with: none.
pub const HTML_FLAGS: u32 = 0;

/// The header nesting level of the HTML renderer: 0.
pub const HTML_NESTING: i32 = 0;

/// The HTML that Hoedown renders from the Markdown `source` with the given
/// extension bits, HTML flags and nesting level.
pub uninterp spec fn hoedown_html(source: Seq<u8>, extensions: u32, flags: u32, nesting: i32) -> Seq<u8>;

/// Renders `source` with `hoedown::Html::render`, the document set up with
/// `hoedown::Markdown::from(source).extensions(..)` and the renderer with
/// `hoedown::Html::new(..)`. The bits are turned into Hoedown's flag types
/// one for one (unknown bits dropped). Claimed: the output is the named
/// rendering of the arguments.
#[verifier::external_body]
fn hoedown_render(source: &[u8], extensions: u32, flags: u32, nesting: i32) -> (r: Vec<u8>)
    ensures
        r@ == hoedown_html(source@, extensions, flags, nesting),
{
    let document = hoedown::Markdown::from(source).extensions(hoedown::Extension::from_bits_truncate(extensions));
    let mut html = hoedown::Html::new(hoedown::renderer::html::Flags::from_bits_truncate(flags), nesting);
    let rendered = html.render(&document);
    let bytes: &[u8] = rendered.as_ref();
    bytes.to_vec()
}

/// Calls `String::from_utf8`. Claimed, as its documentation says: the bytes
/// are accepted exactly when they are valid UTF-8, and then decoded.
#[verifier::external_body]
fn utf8_string(bytes: Vec<u8>) -> (r: Option<String>)
    ensures
        r is Some <==> vstd::utf8::valid_utf8(bytes@),
        r matches Some(s) ==> s@ == vstd::utf8::decode_utf8(bytes@),
{
    String::from_utf8(bytes).ok()
}

/// The HTML of a Markdown note: the note's bytes rendered by Hoedown with
/// the notes' extensions, as text. `None` where the HTML is not UTF-8.
pub fn render_markdown(source: &[u8]) -> (r: Option<String>)
    ensures
        r is Some <==> vstd::utf8::valid_utf8(hoedown_html(source@, MARKDOWN_EXTENSIONS, HTML_FLAGS, HTML_NESTING)),
        r matches Some(html) ==> html@ == vstd::utf8::decode_utf8(
            hoedown_html(source@, MARKDOWN_EXTENSIONS, HTML_FLAGS, HTML_NESTING),
        ),
{
    let html = hoedown_render(source, MARKDOWN_EXTENSIONS, HTML_FLAGS, HTML_NESTING);
    utf8_string(html)
}

} // verus!
