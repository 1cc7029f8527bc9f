//! The pure parts of the local web review host: the script bridge injected
//! into the client page, static content types, request heads, response heads
//! and request routing. Sockets and files stay with the caller.
use vstd::prelude::*;
use rand::RngCore;
use crate::fingerprint::{hex_chars, hex_text};
use crate::file_diff::{ascii_lower, ascii_lowercase, extension_of, last_index, last_index_of};
use crate::text::{chars_of, decimal, push_decimal, split_chars, split_seq, string_from_chars};

verus! {

/// Whether `pat` occurs in `s` starting at `i`.
pub open spec fn occurs_at<T>(s: Seq<T>, pat: Seq<T>, i: int) -> bool {
    0 <= i && i + pat.len() <= s.len() && s.subrange(i, i + pat.len()) == pat
}

/// Whether `pat` occurs nowhere in `s` before `p`.
pub open spec fn none_before<T>(s: Seq<T>, pat: Seq<T>, p: int) -> bool {
    forall|j: int| 0 <= j < p ==> !occurs_at(s, pat, j)
}

/// The first position at which `pat` occurs in `s`, if it occurs at all.
pub open spec fn first_occurrence<T>(s: Seq<T>, pat: Seq<T>) -> Option<int> {
    if exists|i: int| occurs_at(s, pat, i) && none_before(s, pat, i) {
        Some(choose|i: int| occurs_at(s, pat, i) && none_before(s, pat, i))
    } else {
        None
    }
}

/// The first position at which `needle` occurs in `haystack`, comparing
/// windows of the needle's length.
pub fn find_bytes(haystack: &[u8], needle: &[u8]) -> (res: Option<usize>)
    requires
        needle@.len() > 0,
    ensures
        match res {
            Some(p) => occurs_at(haystack@, needle@, p as int) && none_before(
                haystack@,
                needle@,
                p as int,
            ),
            None => forall|j: int| !occurs_at(haystack@, needle@, j),
        },
        res matches Some(p) ==> first_occurrence(haystack@, needle@) == Some(p as int),
        res is None ==> first_occurrence(haystack@, needle@) is None,
{
    let res = find_bytes_from_start(haystack, needle);
    proof {
        if let Some(p) = res {
            assert(occurs_at(haystack@, needle@, p as int) && none_before(haystack@, needle@, p as int));
            let q = choose|i: int| occurs_at(haystack@, needle@, i) && none_before(haystack@, needle@, i);
            if q < p {
                assert(!occurs_at(haystack@, needle@, q));
            } else if q > p {
                assert(!occurs_at(haystack@, needle@, p as int));
            }
        }
    }
    res
}

fn find_bytes_from_start(haystack: &[u8], needle: &[u8]) -> (res: Option<usize>)
    requires
        needle@.len() > 0,
    ensures
        match res {
            Some(p) => occurs_at(haystack@, needle@, p as int) && none_before(
                haystack@,
                needle@,
                p as int,
            ),
            None => forall|j: int| !occurs_at(haystack@, needle@, j),
        },
{
    let n = needle.len();
    if haystack.len() < n {
        return None;
    }
    let hl = haystack.len();
    let last = hl - n;
    let mut i: usize = 0;
    while i <= last
        invariant
            n == needle@.len(),
            n > 0,
            last + n == haystack@.len(),
            hl == haystack@.len(),
            i <= last + 1,
            none_before(haystack@, needle@, i as int),
        decreases last + 1 - i,
    {
        let mut k: usize = 0;
        let mut same = true;
        while k < n && same
            invariant
                n == needle@.len(),
                i + n <= haystack@.len(),
                hl == haystack@.len(),
                k <= n,
                same ==> forall|m: int| 0 <= m < k ==> haystack@[i + m] == needle@[m],
                !same ==> exists|m: int| 0 <= m < n && haystack@[i + m] != needle@[m],
            decreases n - k + (if same { 1int } else { 0int }),
        {
            if haystack[i + k] != needle[k] {
                same = false;
            } else {
                k = k + 1;
            }
        }
        if same {
            proof {
                assert(haystack@.subrange(i as int, i + n) =~= needle@);
            }
            return Some(i);
        }
        proof {
            let m = choose|m: int| 0 <= m < n && haystack@[i + m] != needle@[m];
            assert(haystack@.subrange(i as int, i + n)[m] != needle@[m]);
        }
        i = i + 1;
    }
    None
}

/// The first position at which `needle` occurs in `haystack`.
fn find_chars(haystack: &Vec<char>, needle: &Vec<char>) -> (res: Option<usize>)
    requires
        needle@.len() > 0,
    ensures
        match res {
            Some(p) => occurs_at(haystack@, needle@, p as int) && none_before(
                haystack@,
                needle@,
                p as int,
            ),
            None => forall|j: int| !occurs_at(haystack@, needle@, j),
        },
{
    let n = needle.len();
    if haystack.len() < n {
        return None;
    }
    let hl = haystack.len();
    let last = hl - n;
    let mut i: usize = 0;
    while i <= last
        invariant
            n == needle@.len(),
            n > 0,
            last + n == haystack@.len(),
            hl == haystack@.len(),
            i <= last + 1,
            none_before(haystack@, needle@, i as int),
        decreases last + 1 - i,
    {
        let mut k: usize = 0;
        let mut same = true;
        while k < n && same
            invariant
                n == needle@.len(),
                i + n <= haystack@.len(),
                hl == haystack@.len(),
                k <= n,
                same ==> forall|m: int| 0 <= m < k ==> haystack@[i + m] == needle@[m],
                !same ==> exists|m: int| 0 <= m < n && haystack@[i + m] != needle@[m],
            decreases n - k + (if same { 1int } else { 0int }),
        {
            if haystack[i + k] != needle[k] {
                same = false;
            } else {
                k = k + 1;
            }
        }
        if same {
            proof {
                assert(haystack@.subrange(i as int, i + n) =~= needle@);
            }
            return Some(i);
        }
        proof {
            let m = choose|m: int| 0 <= m < n && haystack@[i + m] != needle@[m];
            assert(haystack@.subrange(i as int, i + n)[m] != needle@[m]);
        }
        i = i + 1;
    }
    None
}

/// The last normal component of a path split at `/`: empty pieces and `.`
/// are skipped from the end, as path components drop them.
pub open spec fn last_named(pieces: Seq<Seq<char>>) -> Seq<char>
    decreases pieces.len(),
{
    if pieces.len() == 0 {
        Seq::empty()
    } else if pieces.last().len() == 0 || pieces.last() == seq!['.'] {
        last_named(pieces.drop_last())
    } else {
        pieces.last()
    }
}

/// The file name of a path; empty where the path has none (it ends in `..`
/// or names no component).
pub open spec fn path_file_name(path: Seq<char>) -> Seq<char> {
    let name = last_named(split_seq(path, '/'));
    if name == seq!['.', '.'] {
        Seq::empty()
    } else {
        name
    }
}

/// The extension of a path's file name, compared without regard to ASCII case.
pub open spec fn has_extension(path: Seq<char>, ext: Seq<char>) -> bool {
    extension_of(path_file_name(path)).map_values(|c: char| ascii_lower(c)) == ext
}

/// The content type served for a static asset path.
pub open spec fn content_type_of(path: Seq<char>) -> Seq<char> {
    if has_extension(path, seq!['j', 's']) {
        JAVASCRIPT_TYPE@
    } else if has_extension(path, seq!['w', 'a', 's', 'm']) {
        WASM_TYPE@
    } else {
        OCTET_STREAM_TYPE@
    }
}

pub const JAVASCRIPT_TYPE: &'static str = "text/javascript; charset=utf-8";

pub const WASM_TYPE: &'static str = "application/wasm";

pub const OCTET_STREAM_TYPE: &'static str = "application/octet-stream";

fn file_name(path: &str) -> (res: Vec<char>)
    ensures
        res@ == path_file_name(path@),
{
    let chars = chars_of(path);
    let pieces = split_chars(&chars, '/');
    let ghost all = split_seq(path@, '/');
    let mut k = pieces.len();
    let mut found: Option<usize> = None;
    proof {
        assert(all.take(k as int) =~= all);
    }
    while k > 0 && found.is_none()
        invariant
            k <= pieces@.len(),
            pieces@.len() == all.len(),
            forall|i: int| 0 <= i < pieces@.len() ==> #[trigger] pieces@[i]@ == all[i],
            found is None ==> last_named(all) == last_named(all.take(k as int)),
            found matches Some(f) ==> f < pieces@.len() && last_named(all) == all[f as int],
        decreases k + (if found is None { 1int } else { 0int }),
    {
        let piece = &pieces[k - 1];
        proof {
            assert(all.take(k as int).drop_last() =~= all.take(k - 1));
            assert(all.take(k as int).last() == pieces@[k - 1]@);
        }
        if piece.len() == 0 || (piece.len() == 1 && piece[0] == '.') {
            proof {
                if piece.len() == 1 {
                    assert(pieces@[k - 1]@ =~= seq!['.']);
                }
            }
            k = k - 1;
        } else {
            proof {
                if pieces@[k - 1]@ == seq!['.'] {
                    assert(pieces@[k - 1]@.len() == 1);
                }
            }
            found = Some(k - 1);
        }
    }
    match found {
        Some(f) => {
            let piece = &pieces[f];
            if piece.len() == 2 && piece[0] == '.' && piece[1] == '.' {
                proof {
                    assert(pieces@[f as int]@ =~= seq!['.', '.']);
                }
                Vec::new()
            } else {
                proof {
                    if pieces@[f as int]@ == seq!['.', '.'] {
                        assert(pieces@[f as int]@.len() == 2);
                    }
                }
                let mut out: Vec<char> = Vec::new();
                let mut i: usize = 0;
                while i < piece.len()
                    invariant
                        i <= piece@.len(),
                        out@ == piece@.take(i as int),
                    decreases piece@.len() - i,
                {
                    out.push(piece[i]);
                    proof {
                        assert(piece@.take(i + 1) =~= piece@.take(i as int).push(piece@[i as int]));
                    }
                    i = i + 1;
                }
                proof {
                    assert(piece@.take(i as int) =~= piece@);
                }
                out
            }
        },
        None => {
            proof {
                assert(all.take(0) =~= Seq::<Seq<char>>::empty());
            }
            Vec::new()
        },
    }
}

/// Whether the extension of `name` equals `ext` (given in lower case),
/// ignoring ASCII case.
fn extension_is(name: &Vec<char>, ext: &[char]) -> (res: bool)
    ensures
        res == (extension_of(name@).map_values(|c: char| ascii_lower(c)) == ext@),
{
    proof {
        crate::file_diff::lemma_last_index_bounds(name@, '.');
    }
    let nl = name.len();
    let dot = last_index(name, 0, '.');
    proof {
        assert(name@.skip(0) =~= name@);
    }
    let start = match dot {
        Some(d) => {
            if d >= 1 {
                d + 1
            } else {
                name.len()
            }
        },
        None => name.len(),
    };
    let ghost e = extension_of(name@);
    proof {
        assert(e =~= name@.skip(start as int));
    }
    if name.len() - start != ext.len() {
        proof {
            assert(e.map_values(|c: char| ascii_lower(c)).len() != ext@.len());
        }
        return false;
    }
    let mut i: usize = 0;
    while i < ext.len()
        invariant
            start + ext@.len() == name@.len(),
            nl == name@.len(),
            e == name@.skip(start as int),
            e == extension_of(name@),
            i <= ext@.len(),
            forall|j: int| 0 <= j < i ==> ascii_lower(e[j]) == ext@[j],
        decreases ext@.len() - i,
    {
        let c = ascii_lowercase(name[start + i]);
        proof {
            assert(e[i as int] == name@[start + i]);
        }
        if c != ext[i] {
            proof {
                assert(e.map_values(|c: char| ascii_lower(c))[i as int] == ascii_lower(e[i as int]));
                assert(e.map_values(|c: char| ascii_lower(c))[i as int] != ext@[i as int]);
            }
            return false;
        }
        i = i + 1;
    }
    proof {
        assert(e.map_values(|c: char| ascii_lower(c)) =~= ext@);
    }
    true
}

/// The content type served for a static asset: JavaScript and WebAssembly
/// by their extension, ignoring ASCII case; anything else as opaque bytes.
pub fn content_type(path: &str) -> (res: &'static str)
    ensures
        res@ == content_type_of(path@),
{
    let name = file_name(path);
    let js = ['j', 's'];
    let wasm = ['w', 'a', 's', 'm'];
    if extension_is(&name, &js) {
        proof {
            assert(js@ =~= seq!['j', 's']);
        }
        JAVASCRIPT_TYPE
    } else if extension_is(&name, &wasm) {
        proof {
            assert(js@ =~= seq!['j', 's']);
            assert(wasm@ =~= seq!['w', 'a', 's', 'm']);
        }
        WASM_TYPE
    } else {
        proof {
            assert(js@ =~= seq!['j', 's']);
            assert(wasm@ =~= seq!['w', 'a', 's', 'm']);
        }
        OCTET_STREAM_TYPE
    }
}

/// The script up to the session token: it opens the script and the API base.
pub const BRIDGE_HEAD: &'static str = r#"<script>
const reviewApi = "/api/"#;

/// The rest of the script: it loads the document into the client, and
/// forwards the client's submit and cancel events to the API.
pub const BRIDGE_TAIL: &'static str = r#"";
const loadReviewDocument = () => fetch(reviewApi + "/document")
  .then(response => { if (!response.ok) throw new Error("failed to load diff"); return response.text(); })
  .then(documentJson => document.dispatchEvent(new CustomEvent("diff-review-set-document", { detail: documentJson })))
  .catch(error => console.error(error));
if (window.wasmBindings) {
  loadReviewDocument();
} else {
  window.addEventListener("TrunkApplicationStarted", loadReviewDocument, { once: true });
}
document.addEventListener("diff-review-submit", async event => {
  const response = await fetch(reviewApi + "/submit", {
    method: "POST",
    headers: { "Content-Type": "application/json" },
    body: event.detail,
  });
  if (!response.ok) { console.error("failed to submit review"); return; }
  document.body.innerHTML = '<main style="display:grid;place-items:center;height:100%;color:#d6d9dc;font:18px sans-serif">Feedback sent. You can close this tab.</main>';
});
document.addEventListener("diff-review-cancel", async () => {
  await fetch(reviewApi + "/cancel", { method: "POST" });
  document.body.innerHTML = '<main style="display:grid;place-items:center;height:100%;color:#d6d9dc;font:18px sans-serif">Review cancelled. You can close this tab.</main>';
});
</script>"#;

/// The tag before which the bridge is placed.
pub const BODY_CLOSE: &'static str = "</body>";

/// The bridge script for a session: the API base of the session's token and
/// the handlers of the client's review events.
pub open spec fn bridge_script(token: Seq<char>) -> Seq<char> {
    BRIDGE_HEAD@ + token + BRIDGE_TAIL@
}

/// `index` with the bridge placed before the first `</body>`; unchanged
/// where it has none.
pub open spec fn injected(index: Seq<char>, token: Seq<char>, p: int) -> Seq<char> {
    index.take(p) + bridge_script(token) + index.skip(p)
}

/// The client page with the session's bridge script placed just before its
/// first `</body>`; a page without `</body>` is returned as it is.
pub fn inject_bridge(index: &str, token: &str) -> (res: String)
    ensures
        (forall|j: int| !occurs_at(index@, BODY_CLOSE@, j)) ==> res@ == index@,
        forall|p: int|
            occurs_at(index@, BODY_CLOSE@, p) && none_before(index@, BODY_CLOSE@, p) ==> res@
                == injected(index@, token@, p),
{
    let page = chars_of(index);
    let close = chars_of(BODY_CLOSE);
    proof {
        reveal_strlit("</body>");
    }
    match find_chars(&page, &close) {
        None => string_from_chars(&page),
        Some(p) => {
            let mut out: Vec<char> = Vec::new();
            let mut i: usize = 0;
            while i < p
                invariant
                    p <= page@.len(),
                    i <= p,
                    out@ == page@.take(i as int),
                decreases p - i,
            {
                out.push(page[i]);
                proof {
                    assert(page@.take(i + 1) =~= page@.take(i as int).push(page@[i as int]));
                }
                i = i + 1;
            }
            let head = chars_of(BRIDGE_HEAD);
            let body = chars_of(token);
            let tail = chars_of(BRIDGE_TAIL);
            crate::text::push_all(&mut out, head.as_slice());
            crate::text::push_all(&mut out, body.as_slice());
            crate::text::push_all(&mut out, tail.as_slice());
            let ghost before = out@;
            let mut j: usize = p;
            while j < page.len()
                invariant
                    p <= j <= page@.len(),
                    out@ == before + page@.subrange(p as int, j as int),
                decreases page@.len() - j,
            {
                out.push(page[j]);
                proof {
                    assert(page@.subrange(p as int, j + 1) =~= page@.subrange(p as int, j as int).push(page@[j as int]));
                }
                j = j + 1;
            }
            proof {
                assert(page@.subrange(p as int, j as int) =~= page@.skip(p as int));
                assert(out@ =~= injected(index@, token@, p as int));
                assert forall|q: int|
                    occurs_at(index@, BODY_CLOSE@, q) && none_before(index@, BODY_CLOSE@, q) implies q == p by {
                    if q < p {
                        assert(!occurs_at(index@, BODY_CLOSE@, q));
                    } else if q > p {
                        assert(!occurs_at(index@, BODY_CLOSE@, p as int));
                    }
                }
            }
            string_from_chars(&out)
        },
    }
}

/// What a request to the web host is answered with.
#[derive(Debug, PartialEq, Eq)]
pub enum Route {
    /// The client page with the session's bridge.
    Index,
    /// The review document.
    Document,
    /// A review submission, read from the request body.
    Submit,
    /// The client's cancellation.
    Cancel,
    /// A file of the asset directory, by its name there; answered with
    /// "not found" where no such file exists.
    Asset(String),
    /// The built-in client script.
    BuiltinScript,
    /// The built-in client module.
    BuiltinWasm,
    /// Nothing here.
    NotFound,
}

pub enum RouteView {
    Index,
    Document,
    Submit,
    Cancel,
    Asset(Seq<char>),
    BuiltinScript,
    BuiltinWasm,
    NotFound,
}

impl View for Route {
    type V = RouteView;

    open spec fn view(&self) -> RouteView {
        match self {
            Route::Index => RouteView::Index,
            Route::Document => RouteView::Document,
            Route::Submit => RouteView::Submit,
            Route::Cancel => RouteView::Cancel,
            Route::Asset(name) => RouteView::Asset(name@),
            Route::BuiltinScript => RouteView::BuiltinScript,
            Route::BuiltinWasm => RouteView::BuiltinWasm,
            Route::NotFound => RouteView::NotFound,
        }
    }
}

/// `s` without its leading slashes.
pub open spec fn trim_leading_slashes(s: Seq<char>) -> Seq<char>
    decreases s.len(),
{
    if s.len() > 0 && s[0] == '/' {
        trim_leading_slashes(s.drop_first())
    } else {
        s
    }
}

/// The API path of a session's endpoint.
pub open spec fn api_path(token: Seq<char>, endpoint: Seq<char>) -> Seq<char> {
    "/api/"@ + token + endpoint
}

/// The path of a session's client page.
pub open spec fn session_root(token: Seq<char>) -> Seq<char> {
    "/session/"@ + token + "/"@
}

/// Whether a request path names a single asset: one non-empty component
/// after the leading slashes, without `..` anywhere in it.
pub open spec fn plain_asset(relative: Seq<char>) -> bool {
    relative.len() > 0 && !relative.contains('/') && forall|j: int| !occurs_at(relative, seq!['.', '.'], j)
}

/// How a request is answered, given whether a client is hosted at all and
/// whether it is served from an asset directory.
pub open spec fn route_of(
    method: Seq<char>,
    path: Seq<char>,
    token: Seq<char>,
    hosted: bool,
    from_assets: bool,
) -> RouteView {
    let get = method == "GET"@;
    let post = method == "POST"@;
    let relative = trim_leading_slashes(path);
    if get && path == session_root(token) && hosted {
        RouteView::Index
    } else if get && path == api_path(token, "/document"@) {
        RouteView::Document
    } else if post && path == api_path(token, "/submit"@) {
        RouteView::Submit
    } else if post && path == api_path(token, "/cancel"@) {
        RouteView::Cancel
    } else if get && plain_asset(relative) && hosted {
        if from_assets {
            RouteView::Asset(relative)
        } else if relative == "app.js"@ {
            RouteView::BuiltinScript
        } else if relative == "app.wasm"@ {
            RouteView::BuiltinWasm
        } else {
            RouteView::NotFound
        }
    } else {
        RouteView::NotFound
    }
}

fn concat3(a: &str, b: &str, c: &str) -> (res: Vec<char>)
    ensures
        res@ == a@ + b@ + c@,
{
    let mut out = chars_of(a);
    let mid = chars_of(b);
    let last = chars_of(c);
    crate::text::push_all(&mut out, mid.as_slice());
    crate::text::push_all(&mut out, last.as_slice());
    out
}

fn same_text(a: &Vec<char>, b: &str) -> (res: bool)
    ensures
        res == (a@ == b@),
{
    let other = chars_of(b);
    crate::text::chars_equal(a.as_slice(), other.as_slice())
}

/// Decides how a request is answered. `hosted` says whether a client page is
/// served at all, `from_assets` whether its files come from a directory.
pub fn route(method: &str, path: &str, token: &str, hosted: bool, from_assets: bool) -> (res: Route)
    ensures
        res@ == route_of(method@, path@, token@, hosted, from_assets),
{
    let m = chars_of(method);
    let p = chars_of(path);
    let get = same_text(&m, "GET");
    let post = same_text(&m, "POST");
    let root = concat3("/session/", token, "/");
    let document = concat3("/api/", token, "/document");
    let submit = concat3("/api/", token, "/submit");
    let cancel = concat3("/api/", token, "/cancel");
    if get && crate::text::chars_equal(p.as_slice(), root.as_slice()) && hosted {
        return Route::Index;
    }
    if get && crate::text::chars_equal(p.as_slice(), document.as_slice()) {
        return Route::Document;
    }
    if post && crate::text::chars_equal(p.as_slice(), submit.as_slice()) {
        return Route::Submit;
    }
    if post && crate::text::chars_equal(p.as_slice(), cancel.as_slice()) {
        return Route::Cancel;
    }
    if !get || !hosted {
        return Route::NotFound;
    }
    let relative = without_leading_slashes(&p);
    let dots = vec!['.', '.'];
    proof {
        assert(dots@ =~= seq!['.', '.']);
    }
    if relative.len() == 0 || crate::text::chars_contain(relative.as_slice(), '/') || find_chars(
        &relative,
        &dots,
    ).is_some() {
        return Route::NotFound;
    }
    if from_assets {
        Route::Asset(string_from_chars(&relative))
    } else if same_text(&relative, "app.js") {
        Route::BuiltinScript
    } else if same_text(&relative, "app.wasm") {
        Route::BuiltinWasm
    } else {
        Route::NotFound
    }
}

fn without_leading_slashes(s: &Vec<char>) -> (res: Vec<char>)
    ensures
        res@ == trim_leading_slashes(s@),
{
    let mut start: usize = 0;
    proof {
        assert(s@.skip(0) =~= s@);
    }
    while start < s.len() && s[start] == '/'
        invariant
            start <= s@.len(),
            trim_leading_slashes(s@) == trim_leading_slashes(s@.skip(start as int)),
        decreases s@.len() - start,
    {
        proof {
            assert(s@.skip(start as int).drop_first() =~= s@.skip(start + 1));
        }
        start = start + 1;
    }
    let mut out: Vec<char> = Vec::new();
    let mut i = start;
    while i < s.len()
        invariant
            start <= i <= s@.len(),
            out@ == s@.subrange(start as int, i as int),
        decreases s@.len() - i,
    {
        out.push(s[i]);
        proof {
            assert(s@.subrange(start as int, i + 1) =~= s@.subrange(start as int, i as int).push(s@[i as int]));
        }
        i = i + 1;
    }
    proof {
        assert(out@ =~= s@.skip(start as int));
    }
    out
}

/// The reason phrase sent with a status code.
pub open spec fn reason_of(status: u16) -> Seq<char> {
    if status == 200 {
        "OK"@
    } else if status == 204 {
        "No Content"@
    } else if status == 400 {
        "Bad Request"@
    } else if status == 404 {
        "Not Found"@
    } else {
        "Error"@
    }
}

/// The reason phrase of a status code.
pub fn status_reason(status: u16) -> (res: &'static str)
    ensures
        res@ == reason_of(status),
{
    if status == 200 {
        "OK"
    } else if status == 204 {
        "No Content"
    } else if status == 400 {
        "Bad Request"
    } else if status == 404 {
        "Not Found"
    } else {
        "Error"
    }
}

/// The head of a response: status line, content type and length, the fixed
/// headers that close the connection and forbid sniffing and caching, the
/// content encoding where there is one, and the blank line.
pub open spec fn response_head_of(
    status: u16,
    content_type: Seq<char>,
    body_len: nat,
    encoding: Option<Seq<char>>,
) -> Seq<char> {
    "HTTP/1.1 "@ + decimal(status as nat) + " "@ + reason_of(status) + "\r\nContent-Type: "@
        + content_type + "\r\nContent-Length: "@ + decimal(body_len)
        + "\r\nConnection: close\r\nX-Content-Type-Options: nosniff\r\nCache-Control: no-store\r\n"@
        + match encoding {
        Some(e) => "Content-Encoding: "@ + e + "\r\n"@,
        None => Seq::empty(),
    } + "\r\n"@
}

fn push_text(out: &mut Vec<char>, s: &str)
    ensures
        final(out)@ == old(out)@ + s@,
{
    let chars = chars_of(s);
    crate::text::push_all(out, chars.as_slice());
}

/// The head of a response with the given status, content type, body length
/// and optional content encoding.
pub fn response_head(
    status: u16,
    content_type: &str,
    body_len: usize,
    encoding: Option<&str>,
) -> (res: String)
    ensures
        res@ == response_head_of(
            status,
            content_type@,
            body_len as nat,
            match encoding {
                Some(e) => Some(e@),
                None => None,
            },
        ),
{
    let mut out: Vec<char> = Vec::new();
    push_text(&mut out, "HTTP/1.1 ");
    push_decimal(&mut out, status as u64);
    push_text(&mut out, " ");
    push_text(&mut out, status_reason(status));
    push_text(&mut out, "\r\nContent-Type: ");
    push_text(&mut out, content_type);
    push_text(&mut out, "\r\nContent-Length: ");
    push_decimal(&mut out, body_len as u64);
    push_text(
        &mut out,
        "\r\nConnection: close\r\nX-Content-Type-Options: nosniff\r\nCache-Control: no-store\r\n",
    );
    let ghost fixed = out@;
    match encoding {
        Some(e) => {
            push_text(&mut out, "Content-Encoding: ");
            push_text(&mut out, e);
            push_text(&mut out, "\r\n");
            proof {
                assert(out@ =~= fixed + ("Content-Encoding: "@ + e@ + "\r\n"@));
            }
        },
        None => {
            proof {
                assert(out@ =~= fixed + Seq::<char>::empty());
            }
        },
    }
    push_text(&mut out, "\r\n");
    proof {
        let enc = match encoding {
            Some(e) => Some(e@),
            None => None,
        };
        assert(out@ =~= response_head_of(status, content_type@, body_len as nat, enc));
    }
    string_from_chars(&out)
}

/// `rand::rng().fill_bytes`: bytes from the thread's random generator.
/// Nothing is stated of their values.
#[verifier::external_body]
fn random_bytes() -> (res: [u8; 24]) {
    let mut bytes = [0u8; 24];
    rand::rng().fill_bytes(&mut bytes);
    bytes
}

/// A fresh session token: 24 random bytes in lowercase hexadecimal.
pub fn session_token() -> (res: String)
    ensures
        res@.len() == 48,
        exists|bytes: Seq<u8>| bytes.len() == 24 && res@ == hex_chars(bytes),
{
    let bytes = random_bytes();
    let token = hex_text(&bytes);
    proof {
        assert(bytes@.len() == 24);
    }
    token
}

/// How the web review host is run.
pub struct Options {
    /// The port to listen on; zero lets the system choose.
    pub port: u16,
    /// Whether to leave the browser closed and only print the address.
    pub no_open: bool,
    /// A directory holding the client's files, served in place of the
    /// built-in client.
    pub assets: Option<String>,
}

} // verus!
