//! Pure dispatch: which handler variant serves a request.
use vstd::prelude::*;

use crate::httprequest::{HttpRequest, Method, RequestModel};
use crate::strutil::{split_ch, str_eq, views_of};

verus! {

/// The closed set of handler variants a request can be dispatched to.
#[derive(Debug, PartialEq, Eq, Structural, Clone, Copy)]
pub enum HandlerKind {
    Static,
    WebService,
    NotFound,
}

/// The dispatch rule: a `GET` whose first path segment is `api` goes to the
/// web service and any other `GET` to the static handler; everything else,
/// `POST` included, goes to the missing-page handler.
pub open spec fn spec_route(m: RequestModel) -> HandlerKind {
    match m.method {
        Method::Get => {
            let segs = split_ch(m.path, '/');
            if segs.len() >= 2 && segs[1] == "api"@ {
                HandlerKind::WebService
            } else {
                HandlerKind::Static
            }
        },
        _ => HandlerKind::NotFound,
    }
}

/// A request that is not a `GET` is dispatched to the missing-page handler
/// whatever its path holds.
pub proof fn lemma_non_get_routes_to_not_found(m: RequestModel)
    requires
        m.method is Post || m.method is Uninitialized,
    ensures
        spec_route(m) == HandlerKind::NotFound,
{
}

pub struct Router;

impl Router {
    /// Selects the handler variant for a request. A `GET` path must contain
    /// a separator, which every path with the leading `/` does.
    pub fn route(req: &HttpRequest) -> (h: HandlerKind)
        requires
            req@.method is Get ==> crate::handler::spec_has_seg(req@.path),
        ensures
            h == spec_route(req@),
    {
        match req.method {
            Method::Get => {
                let crate::httprequest::Resource::Path(p) = &req.resource;
                let segs = crate::strutil::split_str(p.as_str(), '/');
                proof {
                    assert(views_of(segs@)[1] == segs@[1]@);
                }
                if str_eq(segs[1].as_str(), "api") {
                    HandlerKind::WebService
                } else {
                    HandlerKind::Static
                }
            },
            _ => HandlerKind::NotFound,
        }
    }
}

} // verus!
