use vstd::prelude::*;
use vstd::string::StringSliceAdditionalSpecFns;
use crate::bytes::{
    COLON,
    DOT,
    SLASH,
    after_last,
    append_bytes,
    copy_range,
    decimal,
    decimal_bytes,
    ends_with,
    eq_ignore_ascii_case,
    find_after_last,
    has_prefix,
    lower_seq,
    starts_with,
};
use crate::path::{
    dot,
    dot_dot,
    escapes,
    is_normal,
    lemma_walk_fails_iff_escapes,
    opt_view,
    resolve,
    resolve_path,
    resolved_path_is_confined,
    split_slash,
};
use crate::request::{
    find_host,
    first_host,
    lines_view,
    parse_request_line,
    request_target,
    scheme_prefix,
};
use crate::response::{
    build_error_response,
    build_http_response,
    html_type,
    length_trailer,
    response_bytes,
    status_line,
    content_length_is_body_length,
    error_page,
};
use crate::status::{Status, reason_of};

verus! {

/// How the server is set up: whether each host gets its own directory under the
/// base, and the port it listens on (used in redirect URLs).
#[derive(Clone, Copy)]
pub struct ServerConfig {
    pub virtual_hosting: bool,
    pub port: u16,
}

/// A request that passed parsing and path confinement: the file path to look at,
/// the resource as requested, and the `http://host:port` base for redirects.
pub struct Target {
    pub path: Vec<u8>,
    pub resource: Vec<u8>,
    pub url_base: Vec<u8>,
}

/// What to do with a request before the file system is consulted.
pub enum Plan {
    /// Send these bytes.
    Reply(Vec<u8>),
    /// Ask the file system about the target.
    Lookup(Target),
}

/// How to read the file of a target, and what to label it with.
pub struct FileRead {
    /// Read as UTF-8 text; a file that is not valid UTF-8 counts as a read failure.
    pub as_text: bool,
    pub content_type: &'static str,
}

/// What to do once it is known whether the target is a directory.
pub enum Next {
    Reply(Vec<u8>),
    Read(FileRead),
}

pub open spec fn url_base(host: Seq<u8>, port: u16) -> Seq<u8> {
    scheme_prefix() + host + seq![COLON] + decimal(port as nat)
}

/// A host name that can stand as a directory name.
pub open spec fn usable_host(h: Seq<u8>) -> bool {
    is_normal(h)
}

/// The outcome of a request before the file system is consulted: an error status,
/// or the path, the resource and the URL base.
pub open spec fn route(
    cfg: ServerConfig,
    base: Option<Seq<u8>>,
    line: Seq<u8>,
    headers: Seq<Seq<u8>>,
) -> Result<(Seq<u8>, Seq<u8>, Seq<u8>), Status> {
    match request_target(line) {
        None => Err(Status::NotImplemented),
        Some(res) => match first_host(headers) {
            None => Err(Status::BadRequest),
            Some(h) => if cfg.virtual_hosting && !usable_host(h) {
                Err(Status::BadRequest)
            } else {
                match base {
                    None => Err(Status::Forbidden),
                    Some(b) => match resolve(
                        b,
                        if cfg.virtual_hosting {
                            Some(h)
                        } else {
                            None
                        },
                        res,
                    ) {
                        None => Err(Status::Forbidden),
                        Some(p) => Ok((p, res, url_base(h, cfg.port))),
                    },
                }
            },
        },
    }
}

/// The HTML response of a status whose body is the page named after its reason phrase.
pub open spec fn error_reply(s: Status) -> Seq<u8> {
    response_bytes(&s, html_type(), error_page(reason_of(&s)))
}

/// Where a directory request is sent: the resource with a `/` ensured at its end,
/// then `index.html`, under the URL base.
pub open spec fn redirect_location(url_base: Seq<u8>, resource: Seq<u8>) -> Seq<u8> {
    url_base + (if ends_with(resource, seq![SLASH]) {
        resource
    } else {
        resource.push(SLASH)
    }) + "index.html".spec_bytes()
}

/// The extension of the last path segment: what follows its last `.`, where that
/// `.` is not the segment's first byte.
pub open spec fn extension(path: Seq<u8>) -> Option<Seq<u8>> {
    let name = after_last(path, SLASH);
    let ext = after_last(name, DOT);
    if ext.len() == name.len() || ext.len() + 1 == name.len() {
        None
    } else {
        Some(ext)
    }
}

pub open spec fn ext_is(ext: Seq<u8>, name: &str) -> bool {
    lower_seq(ext) == lower_seq(name.spec_bytes())
}

/// The content type of an extension other than `html`, without regard to case.
pub open spec fn mime_of(ext: Seq<u8>) -> Seq<u8> {
    if ext_is(ext, "png") {
        "image/png".spec_bytes()
    } else if ext_is(ext, "jpg") || ext_is(ext, "jpeg") {
        "image/jpeg".spec_bytes()
    } else if ext_is(ext, "gif") {
        "image/gif".spec_bytes()
    } else if ext_is(ext, "svg") {
        "image/svg+xml".spec_bytes()
    } else if ext_is(ext, "pdf") {
        "application/pdf".spec_bytes()
    } else if ext_is(ext, "json") {
        "application/json".spec_bytes()
    } else if ext_is(ext, "xml") {
        "application/xml".spec_bytes()
    } else if ext_is(ext, "css") {
        "text/css".spec_bytes()
    } else if ext_is(ext, "js") {
        "application/javascript".spec_bytes()
    } else if ext_is(ext, "txt") {
        "text/plain; charset=utf-8".spec_bytes()
    } else {
        "application/octet-stream".spec_bytes()
    }
}

/// How a file path is served: `None` where it has no extension; else whether it
/// is read as text (exactly the extension `html`) and its content type.
pub open spec fn read_plan(path: Seq<u8>) -> Option<(bool, Seq<u8>)> {
    match extension(path) {
        None => None,
        Some(e) => if e == "html".spec_bytes() {
            Some((true, html_type()))
        } else {
            Some((false, mime_of(e)))
        },
    }
}

/// The response to a file read: the contents with status 200, or a server error.
pub open spec fn file_reply(content_type: Seq<u8>, contents: Option<Seq<u8>>) -> Seq<u8> {
    match contents {
        Some(c) => response_bytes(&Status::Success, content_type, c),
        None => error_reply(Status::InternalServerError),
    }
}

/// Parses a request and confines its path. Errors become the reply here: `501` for
/// a request line other than `GET <resource> HTTP/1.1`, `400` without a `Host`
/// header (or, with virtual hosting, one that names no usable directory), `403`
/// without a base directory or for a resource that climbs out of it.
pub fn plan_request(
    cfg: ServerConfig,
    base: Option<&[u8]>,
    line: &[u8],
    headers: &Vec<Vec<u8>>,
) -> (r: Plan)
    ensures
        route(cfg, opt_view(base), line@, lines_view(headers@)) matches Err(s) ==> (r matches Plan::Reply(
            b,
        ) && b@ == error_reply(s)),
        route(cfg, opt_view(base), line@, lines_view(headers@)) matches Ok(t) ==> (r matches Plan::Lookup(
            g,
        ) && t == (g.path@, g.resource@, g.url_base@)),
{
    let resource = match parse_request_line(line) {
        None => {
            return Plan::Reply(build_error_response(Status::NotImplemented));
        },
        Some(res) => res,
    };
    let host = match find_host(headers) {
        None => {
            return Plan::Reply(build_error_response(Status::BadRequest));
        },
        Some(h) => h,
    };
    if cfg.virtual_hosting {
        let n = host.len();
        let is_dot = n == 1 && host[0] == DOT;
        let is_dot_dot = n == 2 && host[0] == DOT && host[1] == DOT;
        if is_dot {
            assert(host@ =~= dot());
        }
        if is_dot_dot {
            assert(host@ =~= dot_dot());
        }
        if n == 1 && !is_dot {
            assert(host@[0] != dot()[0]);
        }
        if n == 2 && !is_dot_dot {
            assert(host@[0] != dot_dot()[0] || host@[1] != dot_dot()[1]);
        }
        if n == 0 || is_dot || is_dot_dot {
            return Plan::Reply(build_error_response(Status::BadRequest));
        }
    }
    let b = match base {
        None => {
            return Plan::Reply(build_error_response(Status::Forbidden));
        },
        Some(b) => b,
    };
    let dir = if cfg.virtual_hosting {
        Some(host.as_slice())
    } else {
        None
    };
    let path = match resolve_path(b, dir, resource.as_slice()) {
        None => {
            return Plan::Reply(build_error_response(Status::Forbidden));
        },
        Some(p) => p,
    };
    let mut url: Vec<u8> = Vec::new();
    append_bytes(&mut url, "http://".as_bytes());
    append_bytes(&mut url, host.as_slice());
    url.push(COLON);
    let digits = decimal_bytes(cfg.port as usize);
    append_bytes(&mut url, digits.as_slice());
    Plan::Lookup(Target { path, resource, url_base: url })
}

/// The content type of an extension other than `html`.
pub fn mime_type(ext: &[u8]) -> (r: &'static str)
    ensures
        r.spec_bytes() == mime_of(ext@),
{
    if eq_ignore_ascii_case(ext, "png".as_bytes()) {
        "image/png"
    } else if eq_ignore_ascii_case(ext, "jpg".as_bytes()) || eq_ignore_ascii_case(
        ext,
        "jpeg".as_bytes(),
    ) {
        "image/jpeg"
    } else if eq_ignore_ascii_case(ext, "gif".as_bytes()) {
        "image/gif"
    } else if eq_ignore_ascii_case(ext, "svg".as_bytes()) {
        "image/svg+xml"
    } else if eq_ignore_ascii_case(ext, "pdf".as_bytes()) {
        "application/pdf"
    } else if eq_ignore_ascii_case(ext, "json".as_bytes()) {
        "application/json"
    } else if eq_ignore_ascii_case(ext, "xml".as_bytes()) {
        "application/xml"
    } else if eq_ignore_ascii_case(ext, "css".as_bytes()) {
        "text/css"
    } else if eq_ignore_ascii_case(ext, "js".as_bytes()) {
        "application/javascript"
    } else if eq_ignore_ascii_case(ext, "txt".as_bytes()) {
        "text/plain; charset=utf-8"
    } else {
        "application/octet-stream"
    }
}

/// The extension of the last segment of `path`.
pub fn file_extension(path: &[u8]) -> (r: Option<Vec<u8>>)
    ensures
        r is None <==> extension(path@) is None,
        r matches Some(e) ==> extension(path@) == Some(e@),
{
    let start = find_after_last(path, SLASH);
    let name = copy_range(path, start, path.len());
    let dot_at = find_after_last(name.as_slice(), DOT);
    if dot_at <= 1 {
        None
    } else {
        Some(copy_range(name.as_slice(), dot_at, name.len()))
    }
}

/// Decides how to answer a target: a directory is redirected to its `index.html`;
/// a path without extension is not found; any other is read from disk.
pub fn decide(target: &Target, is_dir: bool) -> (r: Next)
    ensures
        is_dir ==> (r matches Next::Reply(b) && exists|u: Vec<u8>|
            u@ == redirect_location(target.url_base@, target.resource@) && b@ == #[trigger] response_bytes(
                &Status::MovedPermanently(u),
                html_type(),
                Seq::empty(),
            )),
        !is_dir && read_plan(target.path@) is None ==> (r matches Next::Reply(b) && b@ == error_reply(
            Status::PageNotFound,
        )),
        !is_dir && read_plan(target.path@) is Some ==> (r matches Next::Read(f) && read_plan(target.path@)->0 == (
            f.as_text,
            f.content_type.spec_bytes(),
        )),
{
    if is_dir {
        let mut loc: Vec<u8> = Vec::new();
        append_bytes(&mut loc, target.url_base.as_slice());
        append_bytes(&mut loc, target.resource.as_slice());
        let n = target.resource.len();
        if n == 0 || target.resource[n - 1] != SLASH {
            loc.push(SLASH);
            assert(!ends_with(target.resource@, seq![SLASH])) by {
                if n > 0 {
                    assert(target.resource@.subrange(n - 1, n as int)[0] != SLASH);
                }
            }
        } else {
            assert(target.resource@.subrange(n - 1, n as int) =~= seq![SLASH]);
        }
        append_bytes(&mut loc, "index.html".as_bytes());
        let ghost u = loc;
        assert(u@ =~= redirect_location(target.url_base@, target.resource@));
        let b = build_http_response(
            Status::MovedPermanently(loc),
            "text/html; charset=utf-8",
            Vec::new(),
        );
        assert(b@ == response_bytes(&Status::MovedPermanently(u), html_type(), Seq::empty()));
        return Next::Reply(b);
    }
    match file_extension(target.path.as_slice()) {
        None => Next::Reply(build_error_response(Status::PageNotFound)),
        Some(e) => {
            let html = "html".as_bytes();
            if e.len() == html.len() && has_prefix(e.as_slice(), html) {
                assert(e@ =~= e@.subrange(0, html@.len() as int));
                Next::Read(FileRead { as_text: true, content_type: "text/html; charset=utf-8" })
            } else {
                assert(e@ != html@) by {
                    if e@ == html@ {
                        assert(e@.subrange(0, html@.len() as int) =~= e@);
                    }
                }
                Next::Read(FileRead { as_text: false, content_type: mime_type(e.as_slice()) })
            }
        },
    }
}

/// The response to reading a file: its contents with status 200 under the given
/// content type, or `500` where the read failed.
pub fn file_response(read: &FileRead, contents: Option<Vec<u8>>) -> (r: Vec<u8>)
    ensures
        r@ == file_reply(
            read.content_type.spec_bytes(),
            match contents {
                Some(c) => Some(c@),
                None => None,
            },
        ),
{
    match contents {
        Some(c) => build_http_response(Status::Success, read.content_type, c),
        None => build_error_response(Status::InternalServerError),
    }
}

/// A GET request whose resource climbs above the base directory (or the host's
/// directory) with its `..` segments is answered `403`, whatever lies on disk: no
/// path is produced to look at.
pub proof fn climbing_out_is_forbidden(
    cfg: ServerConfig,
    base: Option<Seq<u8>>,
    line: Seq<u8>,
    headers: Seq<Seq<u8>>,
)
    requires
        request_target(line) is Some,
        escapes(split_slash(request_target(line)->0)),
        first_host(headers) is Some,
        cfg.virtual_hosting ==> usable_host(first_host(headers)->0),
    ensures
        route(cfg, base, line, headers) == Err::<(Seq<u8>, Seq<u8>, Seq<u8>), Status>(
            Status::Forbidden,
        ),
{
    lemma_walk_fails_iff_escapes(split_slash(request_target(line)->0));
}

/// A GET request whose resource stays inside the base directory is looked up at a
/// path under that directory; where the path has an extension and the file is read,
/// the response has status 200 and ends with exactly the file's bytes, right after
/// a `Content-Length` of their number.
pub proof fn file_inside_is_served_whole(
    cfg: ServerConfig,
    base: Seq<u8>,
    line: Seq<u8>,
    headers: Seq<Seq<u8>>,
    contents: Seq<u8>,
)
    requires
        request_target(line) is Some,
        !escapes(split_slash(request_target(line)->0)),
        first_host(headers) is Some,
        cfg.virtual_hosting ==> usable_host(first_host(headers)->0),
    ensures
        route(cfg, Some(base), line, headers) is Ok,
        ({
            let (p, _, _) = route(cfg, Some(base), line, headers)->Ok_0;
            starts_with(p, base)
        }),
        ({
            let (p, _, _) = route(cfg, Some(base), line, headers)->Ok_0;
            read_plan(p) is Some
        }) ==> ({
            let (p, _, _) = route(cfg, Some(base), line, headers)->Ok_0;
            let (_, ct) = read_plan(p)->0;
            let r = file_reply(ct, Some(contents));
            &&& starts_with(r, status_line(&Status::Success))
            &&& contents.len() <= r.len()
            &&& r.subrange(r.len() - contents.len(), r.len() as int) == contents
            &&& ends_with(r.subrange(0, r.len() - contents.len()), length_trailer(contents.len()))
        }),
{
    let res = request_target(line)->0;
    let h = first_host(headers)->0;
    let dir = if cfg.virtual_hosting {
        Some(h)
    } else {
        None
    };
    lemma_walk_fails_iff_escapes(split_slash(res));
    resolved_path_is_confined(base, dir, res);
    let (p, _, _) = route(cfg, Some(base), line, headers)->Ok_0;
    if let Some(plan) = read_plan(p) {
        let ct = plan.1;
        content_length_is_body_length(&Status::Success, ct, contents);
        let r = file_reply(ct, Some(contents));
        let sl = status_line(&Status::Success);
        assert(r.subrange(0, sl.len() as int) =~= sl);
    }
}

} // verus!
