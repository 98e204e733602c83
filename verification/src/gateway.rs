//! The gateway's decisions: sniffing whether a connection speaks
//! HTTP or the raw ring protocol, and routing HTTP requests. The
//! proxying and the HTTP responses themselves live in the shell.
use vstd::prelude::*;

use crate::strutil::{spec_split_head, spec_split_rest, split_first, str_eq};

verus! {

/// The gateway fronting a ring: the nodes it may proxy to, in the
/// order they are tried.
pub struct Gateway {
    pub node_addrs: Vec<String>,
}

impl Gateway {
    pub fn new(node_addrs: Vec<String>) -> (r: std::sync::Arc<Self>)
        ensures
            r.node_addrs == node_addrs,
    {
        std::sync::Arc::new(Gateway { node_addrs })
    }
}

/// Whether a first line opens an HTTP exchange rather than a raw
/// ring command.
pub open spec fn spec_is_http_first_line(line: Seq<char>) -> bool {
    ||| line.len() >= 5 && line.subrange(0, 5) == "GET /"@
    ||| line.len() >= 6 && line.subrange(0, 6) == "POST /"@
    ||| line.len() >= 9 && line.subrange(0, 9) == "OPTIONS /"@
}

pub fn is_http_first_line(line: &str) -> (r: bool)
    ensures
        r == spec_is_http_first_line(line@),
{
    proof {
        reveal_strlit("GET /");
        reveal_strlit("POST /");
        reveal_strlit("OPTIONS /");
    }
    let n = line.unicode_len();
    if n >= 5 && str_eq(line.substring_char(0, 5), "GET /") {
        return true;
    }
    if n >= 6 && str_eq(line.substring_char(0, 6), "POST /") {
        return true;
    }
    if n >= 9 && str_eq(line.substring_char(0, 9), "OPTIONS /") {
        return true;
    }
    false
}

/// The routes the gateway serves.
pub enum HttpRoute {
    /// `GET /file/pull/<name>`: stream the file back.
    PullFile { name: String },
    /// A CORS preflight.
    Options,
    /// `GET /netmap/get`.
    NetmapGet,
    /// `GET /file/list`.
    FileList,
    /// `POST /file/push`.
    Upload,
    NotFound,
}

/// The method and the path of an HTTP request line.
pub open spec fn spec_http_method(line: Seq<char>) -> Seq<char> {
    spec_split_head(line, ' ')
}

pub open spec fn spec_http_path(line: Seq<char>) -> Seq<char> {
    spec_split_head(spec_split_rest(line, ' '), ' ')
}

/// Which route an HTTP request line names.
pub open spec fn spec_http_route(line: Seq<char>) -> HttpRouteView {
    let method = spec_http_method(line);
    let path = spec_http_path(line);
    if method == "GET"@ && path.len() >= 11 && path.subrange(0, 11) == "/file/pull/"@ {
        HttpRouteView::PullFile { name: path.subrange(11, path.len() as int) }
    } else if method == "OPTIONS"@ {
        HttpRouteView::Options
    } else if method == "GET"@ && path == "/netmap/get"@ {
        HttpRouteView::NetmapGet
    } else if method == "GET"@ && path == "/file/list"@ {
        HttpRouteView::FileList
    } else if method == "POST"@ && path == "/file/push"@ {
        HttpRouteView::Upload
    } else {
        HttpRouteView::NotFound
    }
}

pub enum HttpRouteView {
    PullFile { name: Seq<char> },
    Options,
    NetmapGet,
    FileList,
    Upload,
    NotFound,
}

impl View for HttpRoute {
    type V = HttpRouteView;

    closed spec fn view(&self) -> HttpRouteView {
        match self {
            HttpRoute::PullFile { name } => HttpRouteView::PullFile { name: name@ },
            HttpRoute::Options => HttpRouteView::Options,
            HttpRoute::NetmapGet => HttpRouteView::NetmapGet,
            HttpRoute::FileList => HttpRouteView::FileList,
            HttpRoute::Upload => HttpRouteView::Upload,
            HttpRoute::NotFound => HttpRouteView::NotFound,
        }
    }
}

/// Route one HTTP request line.
pub fn http_route(line: &str) -> (r: HttpRoute)
    ensures
        r@ == spec_http_route(line@),
{
    proof {
        reveal_strlit("/file/pull/");
    }
    let (method, rest) = split_first(line, ' ');
    let (path, _) = split_first(rest, ' ');
    let plen = path.unicode_len();
    if str_eq(method, "GET") && plen >= 11 && str_eq(
        path.substring_char(0, 11),
        "/file/pull/",
    ) {
        return HttpRoute::PullFile { name: path.substring_char(11, plen).to_owned() };
    }
    if str_eq(method, "OPTIONS") {
        return HttpRoute::Options;
    }
    if str_eq(method, "GET") && str_eq(path, "/netmap/get") {
        return HttpRoute::NetmapGet;
    }
    if str_eq(method, "GET") && str_eq(path, "/file/list") {
        return HttpRoute::FileList;
    }
    if str_eq(method, "POST") && str_eq(path, "/file/push") {
        return HttpRoute::Upload;
    }
    HttpRoute::NotFound
}

} // verus!
