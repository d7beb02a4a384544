//! The fixed handler set: static pages, the order web service, and the
//! missing-page fallback.
//!
//! File contents and the order collection are external collaborators; each
//! handler takes the collaborator's result as a plain value and is verified
//! for every value it may hand over. The order list is serialized as a JSON
//! array; the framing is built here and proved, while the escaping of each
//! string field is delegated to `serde_json`.
use vstd::prelude::*;

use crate::httprequest::HttpRequest;
use crate::httpresponse::{opt_view, spec_new, HttpResponse, ResponseModel};
use crate::strutil::{dec_rep_i, i32_to_string, spec_ends_with, split_ch, str_ends_with, str_eq};

verus! {

/// Serves files by path segment.
pub struct StaticPageHandler;

/// Serves the fallback page for everything unrouted.
pub struct PageNotFoundHandler;

/// Serves the order collection under the shipping path.
pub struct WebServiceHandler;

/// One order record, as the order-data collaborator supplies it and as the
/// web service hands it out again as JSON.
#[derive(Debug)]
pub struct OrderStatus {
    pub order_id: i32,
    pub order_date: String,
    pub order_status: String,
}

/// The abstract value of an order record.
pub ghost struct OrderModel {
    pub order_id: int,
    pub order_date: Seq<char>,
    pub order_status: Seq<char>,
}

impl View for OrderStatus {
    type V = OrderModel;

    open spec fn view(&self) -> OrderModel {
        OrderModel {
            order_id: self.order_id as int,
            order_date: self.order_date@,
            order_status: self.order_status@,
        }
    }
}

/// The JSON string literal (quoted and escaped) that `serde_json` renders for
/// the characters `s`; a function of the characters alone.
pub uninterp spec fn json_string_of(s: Seq<char>) -> Seq<char>;

/// Relies on `serde_json::to_string` for `&str`: it renders the quoted,
/// escaped JSON string literal of the characters, depends on the characters
/// alone, and cannot fail for a string (its serializer writes to a byte
/// vector and a string has no failing case).
#[verifier::external_body]
fn json_quote(s: &str) -> (r: String)
    ensures
        r@ == json_string_of(s@),
{
    match serde_json::to_string(s) {
        Ok(q) => q,
        Err(_) => String::new(),
    }
}

/// The JSON object that `serde_json` renders for one order record, fields in
/// declaration order, compact.
pub open spec fn spec_order_json(o: OrderModel) -> Seq<char> {
    "{\"order_id\":"@ + dec_rep_i(o.order_id) + ",\"order_date\":"@ + json_string_of(o.order_date)
        + ",\"order_status\":"@ + json_string_of(o.order_status) + "}"@
}

/// The comma-separated JSON objects of the records, in order.
pub open spec fn spec_orders_items(os: Seq<OrderModel>) -> Seq<char>
    decreases os.len(),
{
    if os.len() == 0 {
        Seq::empty()
    } else if os.len() == 1 {
        spec_order_json(os[0])
    } else {
        spec_orders_items(os.drop_last()) + ","@ + spec_order_json(os.last())
    }
}

/// The JSON array of the records, in order.
pub open spec fn spec_orders_json(os: Seq<OrderModel>) -> Seq<char> {
    "["@ + spec_orders_items(os) + "]"@
}

/// The abstract values of the records in `v`.
pub open spec fn orders_model(v: Seq<OrderStatus>) -> Seq<OrderModel> {
    v.map_values(|o: OrderStatus| o@)
}

/// Renders one order record as a JSON object.
fn order_json(o: &OrderStatus) -> (r: String)
    ensures
        r@ == spec_order_json(o@),
{
    let mut s = "{\"order_id\":".to_owned();
    s.append(i32_to_string(o.order_id).as_str());
    s.append(",\"order_date\":");
    s.append(json_quote(o.order_date.as_str()).as_str());
    s.append(",\"order_status\":");
    s.append(json_quote(o.order_status.as_str()).as_str());
    s.append("}");
    proof {
        assert(s@ =~= spec_order_json(o@));
    }
    s
}

/// Renders the order collection as a JSON array.
pub fn orders_to_json(orders: &Vec<OrderStatus>) -> (r: String)
    ensures
        r@ == spec_orders_json(orders_model(orders@)),
{
    let ghost os = orders_model(orders@);
    let mut out = "[".to_owned();
    let mut i: usize = 0;
    proof {
        assert(os.take(0) =~= Seq::<OrderModel>::empty());
    }
    while i < orders.len()
        invariant
            os == orders_model(orders@),
            i <= orders.len(),
            os.len() == orders.len(),
            out@ == "["@ + spec_orders_items(os.take(i as int)),
        decreases orders.len() - i,
    {
        if i > 0 {
            out.append(",");
        }
        let item = order_json(&orders[i]);
        out.append(item.as_str());
        proof {
            let t = os.take(i + 1);
            assert(t.drop_last() =~= os.take(i as int));
            assert(t.last() == os[i as int]);
            assert(os[i as int] == orders@[i as int]@);
        }
        i = i + 1;
    }
    out.append("]");
    proof {
        assert(os.take(os.len() as int) =~= os);
        assert(out@ =~= spec_orders_json(os));
    }
    out
}

/// The `Content-Type` for a file name: by its extension, defaulting to HTML.
pub open spec fn spec_content_type(p: Seq<char>) -> Seq<char> {
    if spec_ends_with(p, ".css"@) {
        "text/css"@
    } else if spec_ends_with(p, ".js"@) {
        "text/javascript"@
    } else {
        "text/html"@
    }
}

/// True when the path has a first segment to dispatch on, that is, contains a
/// separator; a request whose path starts with `/` always does.
pub open spec fn spec_has_seg(path: Seq<char>) -> bool {
    split_ch(path, '/').len() >= 2
}

/// The first path segment after the leading separator.
pub open spec fn spec_seg1(path: Seq<char>) -> Seq<char> {
    split_ch(path, '/')[1]
}

/// Whether the request's path has a first segment to dispatch on; callers
/// establish the dispatch precondition with this test.
pub fn has_seg(req: &HttpRequest) -> (b: bool)
    ensures
        b == spec_has_seg(req@.path),
{
    let crate::httprequest::Resource::Path(p) = &req.resource;
    let n = p.as_str().unicode_len();
    let i = crate::strutil::find_char_in(p.as_str(), '/');
    proof {
        crate::strutil::lemma_split_ch_pieces(p@, '/');
    }
    i < n
}

/// What the missing-page handler answers: a `404` whose body is the fallback
/// page, or empty when the collaborator cannot supply one.
pub open spec fn spec_not_found_response(not_found_page: Option<Seq<char>>) -> ResponseModel {
    spec_new("404"@, None, not_found_page)
}

impl PageNotFoundHandler {
    /// Answers `404` with the fallback page as body. The request is accepted
    /// for interface uniformity and ignored.
    pub fn handler(_req: &HttpRequest, not_found_page: Option<String>) -> (r: HttpResponse)
        ensures
            r@ == spec_not_found_response(opt_view(not_found_page)),
    {
        HttpResponse::new("404", None, not_found_page)
    }
}

/// What the static handler answers for a request and the collaborator's
/// results: the root and health segments answer `200` with the loaded page
/// as body (even when absent); any other segment answers `200` with the file
/// content and a `Content-Type` chosen by extension when the file exists,
/// and the missing-page response otherwise.
pub open spec fn spec_static_response(
    m: crate::httprequest::RequestModel,
    content: Option<Seq<char>>,
    not_found_page: Option<Seq<char>>,
) -> ResponseModel {
    let seg = spec_seg1(m.path);
    if seg.len() == 0 || seg == "health"@ {
        spec_new("200"@, None, content)
    } else {
        match content {
            Some(body) => spec_new(
                "200"@,
                Some(seq![("Content-Type"@, spec_content_type(seg))]),
                Some(body),
            ),
            None => spec_not_found_response(not_found_page),
        }
    }
}

/// The logical file name the static handler asks of the file collaborator:
/// the index page for the root path, the health page for the health path,
/// and the first segment itself otherwise.
pub open spec fn spec_file_name(m: crate::httprequest::RequestModel) -> Seq<char> {
    let seg = spec_seg1(m.path);
    if seg.len() == 0 {
        "index.html"@
    } else if seg == "health"@ {
        "health.html"@
    } else {
        seg
    }
}

impl StaticPageHandler {
    /// The file name whose content the handler expects as its `content`
    /// argument.
    pub fn file_name(req: &HttpRequest) -> (r: String)
        requires
            spec_has_seg(req@.path),
        ensures
            r@ == spec_file_name(req@),
    {
        let seg = Self::first_segment(req);
        let n = seg.as_str().unicode_len();
        if n == 0 {
            "index.html".to_owned()
        } else if str_eq(seg.as_str(), "health") {
            "health.html".to_owned()
        } else {
            seg
        }
    }

    /// The first path segment of the request.
    fn first_segment(req: &HttpRequest) -> (r: String)
        requires
            spec_has_seg(req@.path),
        ensures
            r@ == spec_seg1(req@.path),
    {
        let crate::httprequest::Resource::Path(p) = &req.resource;
        let segs = crate::strutil::split_str(p.as_str(), '/');
        proof {
            assert(crate::strutil::views_of(segs@)[1] == segs@[1]@);
        }
        segs[1].clone()
    }

    /// Answers a request from the content the file collaborator supplied for
    /// [`Self::file_name`], falling back to the missing-page response.
    pub fn handler(req: &HttpRequest, content: Option<String>, not_found_page: Option<String>) -> (r:
        HttpResponse)
        requires
            spec_has_seg(req@.path),
        ensures
            r@ == spec_static_response(req@, opt_view(content), opt_view(not_found_page)),
    {
        let seg = Self::first_segment(req);
        let n = seg.as_str().unicode_len();
        if n == 0 || str_eq(seg.as_str(), "health") {
            HttpResponse::new("200", None, content)
        } else {
            match content {
                Some(body) => {
                    let ct = if str_ends_with(seg.as_str(), ".css") {
                        "text/css"
                    } else if str_ends_with(seg.as_str(), ".js") {
                        "text/javascript"
                    } else {
                        "text/html"
                    };
                    let mut hs = crate::headers::Headers::new();
                    hs.insert("Content-Type".to_owned(), ct.to_owned());
                    proof {
                        assert(hs.entries_view() =~= seq![
                            ("Content-Type"@, spec_content_type(seg@)),
                        ]);
                    }
                    HttpResponse::new("200", Some(hs), Some(body))
                },
                None => PageNotFoundHandler::handler(req, not_found_page),
            }
        }
    }
}

/// True when the request path addresses the order collection: at least four
/// segments, the second `shipping` and the third `orders`.
pub open spec fn spec_serves_orders(m: crate::httprequest::RequestModel) -> bool {
    let segs = split_ch(m.path, '/');
    segs.len() > 3 && segs[2] == "shipping"@ && segs[3] == "orders"@
}

/// What the web service answers: the order collection as a JSON array under
/// the shipping path, and the missing-page response everywhere else.
pub open spec fn spec_web_response(
    m: crate::httprequest::RequestModel,
    orders: Seq<OrderModel>,
    not_found_page: Option<Seq<char>>,
) -> ResponseModel {
    if spec_serves_orders(m) {
        spec_new(
            "200"@,
            Some(seq![("Content-Type"@, "application/json"@)]),
            Some(spec_orders_json(orders)),
        )
    } else {
        spec_not_found_response(not_found_page)
    }
}

impl WebServiceHandler {
    /// Whether the request needs the order collaborator's data; the caller
    /// loads the orders only when it does.
    pub fn needs_orders(req: &HttpRequest) -> (b: bool)
        ensures
            b == spec_serves_orders(req@),
    {
        let crate::httprequest::Resource::Path(p) = &req.resource;
        let segs = crate::strutil::split_str(p.as_str(), '/');
        proof {
            if segs@.len() > 3 {
                assert(crate::strutil::views_of(segs@)[2] == segs@[2]@);
                assert(crate::strutil::views_of(segs@)[3] == segs@[3]@);
            }
        }
        segs.len() > 3 && str_eq(segs[2].as_str(), "shipping") && str_eq(
            segs[3].as_str(),
            "orders",
        )
    }

    /// Answers a request from the order collection the data collaborator
    /// supplied, which must be present when [`Self::needs_orders`] holds.
    pub fn handler(
        req: &HttpRequest,
        orders: Option<&Vec<OrderStatus>>,
        not_found_page: Option<String>,
    ) -> (r: HttpResponse)
        requires
            spec_serves_orders(req@) ==> orders is Some,
        ensures
            r@ == spec_web_response(
                req@,
                match orders {
                    Some(v) => orders_model(v@),
                    None => Seq::empty(),
                },
                opt_view(not_found_page),
            ),
    {
        if Self::needs_orders(req) {
            let body = match orders {
                Some(v) => orders_to_json(v),
                None => String::new(),
            };
            let mut hs = crate::headers::Headers::new();
            hs.insert("Content-Type".to_owned(), "application/json".to_owned());
            proof {
                assert(hs.entries_view() =~= seq![("Content-Type"@, "application/json"@)]);
            }
            HttpResponse::new("200", Some(hs), Some(body))
        } else {
            PageNotFoundHandler::handler(req, not_found_page)
        }
    }
}

} // verus!
