use vstd::prelude::*;
use crate::error::Error;
use crate::request::{Request, RequestView};
use crate::extract::{
    Extension, Query, Path, BodyBytes, BodyString, Json, Form, fields_view,
};
use crate::urlenc::pairs_view;
use crate::json::JsonValueView;
use crate::response::{Response, ResponseView, Outcome, OutcomeView, IntoResponse, outcome_response};

verus! {

/// A declared handler parameter: which extractor fills it, with whatever
/// the extractor needs to know at registration time. New parameter kinds
/// extend this protocol; the dispatch below never changes for them.
pub enum Param {
    /// A shared value under this type token.
    Extension(u64),
    /// Query-string fields, by name.
    Query(Vec<String>),
    /// The positional path-parameter slot at this index.
    PathAt(usize),
    /// The raw body.
    BodyBytes,
    /// The body as UTF-8 text.
    BodyString,
    /// The body as a JSON document.
    Json,
    /// Form-body fields, by name.
    Form(Vec<String>),
    /// The whole request itself.
    FullRequest,
}

pub enum ParamView {
    Extension(u64),
    Query(Seq<Seq<char>>),
    PathAt(int),
    BodyBytes,
    BodyString,
    Json,
    Form(Seq<Seq<char>>),
    FullRequest,
}

impl View for Param {
    type V = ParamView;

    open spec fn view(&self) -> ParamView {
        match self {
            Param::Extension(key) => ParamView::Extension(*key),
            Param::Query(fields) => ParamView::Query(fields_view(fields@)),
            Param::PathAt(idx) => ParamView::PathAt(*idx as int),
            Param::BodyBytes => ParamView::BodyBytes,
            Param::BodyString => ParamView::BodyString,
            Param::Json => ParamView::Json,
            Param::Form(fields) => ParamView::Form(fields_view(fields@)),
            Param::FullRequest => ParamView::FullRequest,
        }
    }
}

pub open spec fn params_view(ps: Seq<Param>) -> Seq<ParamView> {
    ps.map_values(|p: Param| p@)
}

/// One extracted parameter value, wrapping the extractor that produced it.
pub enum Extracted {
    Extension(Extension),
    Query(Query),
    Path(Path),
    BodyBytes(BodyBytes),
    BodyString(BodyString),
    Json(Json),
    Form(Form),
    Whole(Request),
}

pub enum ExtractedView {
    Extension(Seq<char>),
    Query(Seq<(Seq<char>, Seq<char>)>),
    Path(u32),
    BodyBytes(Seq<u8>),
    BodyString(Seq<char>),
    Json(Seq<(Seq<char>, JsonValueView)>),
    Form(Seq<(Seq<char>, Seq<char>)>),
    Whole(RequestView),
}

impl View for Extracted {
    type V = ExtractedView;

    open spec fn view(&self) -> ExtractedView {
        match self {
            Extracted::Extension(v) => ExtractedView::Extension(v.0@),
            Extracted::Query(v) => ExtractedView::Query(pairs_view(v.0@)),
            Extracted::Path(v) => ExtractedView::Path(v.0),
            Extracted::BodyBytes(v) => ExtractedView::BodyBytes(v.0@),
            Extracted::BodyString(v) => ExtractedView::BodyString(v.0@),
            Extracted::Json(v) => ExtractedView::Json(v.0@),
            Extracted::Form(v) => ExtractedView::Form(pairs_view(v.0@)),
            Extracted::Whole(req) => ExtractedView::Whole(req@),
        }
    }
}

pub open spec fn extracted_view(es: Seq<Extracted>) -> Seq<ExtractedView> {
    es.map_values(|e: Extracted| e@)
}

/// The request with its body drained.
pub open spec fn drained(req: RequestView) -> RequestView {
    RequestView { body: Seq::<u8>::empty(), ..req }
}

/// What one extraction yields and what it leaves of the request: the
/// body-consuming extractors drain the body, every other field of the
/// request is left as it was.
pub open spec fn extract_one_spec(req: RequestView, p: ParamView) -> (Result<ExtractedView, Error>, RequestView) {
    match p {
        ParamView::Extension(key) => (
            match Extension::spec_from_request(req, key) {
                Ok(v) => Ok(ExtractedView::Extension(v)),
                Err(e) => Err(e),
            },
            req,
        ),
        ParamView::Query(fields) => (
            match Query::spec_from_request(req, fields) {
                Ok(v) => Ok(ExtractedView::Query(v)),
                Err(e) => Err(e),
            },
            req,
        ),
        ParamView::PathAt(idx) => (
            match Path::spec_from_request(req, idx) {
                Ok(v) => Ok(ExtractedView::Path(v)),
                Err(e) => Err(e),
            },
            req,
        ),
        ParamView::BodyBytes => (Ok(ExtractedView::BodyBytes(req.body)), drained(req)),
        ParamView::BodyString => (
            match BodyString::spec_from_request(req) {
                Ok(v) => Ok(ExtractedView::BodyString(v)),
                Err(e) => Err(e),
            },
            drained(req),
        ),
        ParamView::Json => (
            match Json::spec_from_request(req) {
                Ok(v) => Ok(ExtractedView::Json(v)),
                Err(e) => Err(e),
            },
            drained(req),
        ),
        ParamView::Form(fields) => (
            match Form::spec_from_request(req, fields) {
                Ok(v) => Ok(ExtractedView::Form(v)),
                Err(e) => Err(e),
            },
            drained(req),
        ),
        ParamView::FullRequest => (Ok(ExtractedView::Whole(req)), req),
    }
}

/// Runs one extractor against the request.
pub fn extract_one(req: &mut Request, p: &Param) -> (r: Result<Extracted, Error>)
    ensures
        ({
            let (res, rq) = extract_one_spec(old(req)@, p@);
            final(req)@ == rq && match (r, res) {
                (Ok(v), Ok(w)) => v@ == w,
                (Err(e1), Err(e2)) => e1 == e2,
                _ => false,
            }
        }),
{
    match p {
        Param::Extension(key) => match Extension::from_request(req, *key) {
            Ok(v) => Ok(Extracted::Extension(v)),
            Err(e) => Err(e),
        },
        Param::Query(fields) => match Query::from_request(req, fields) {
            Ok(v) => Ok(Extracted::Query(v)),
            Err(e) => Err(e),
        },
        Param::PathAt(idx) => match Path::from_request(req, *idx) {
            Ok(v) => Ok(Extracted::Path(v)),
            Err(e) => Err(e),
        },
        Param::BodyBytes => Ok(Extracted::BodyBytes(BodyBytes::from_request(req))),
        Param::BodyString => match BodyString::from_request(req) {
            Ok(v) => Ok(Extracted::BodyString(v)),
            Err(e) => Err(e),
        },
        Param::Json => match Json::from_request(req) {
            Ok(v) => Ok(Extracted::Json(v)),
            Err(e) => Err(e),
        },
        Param::Form(fields) => match Form::from_request(req, fields) {
            Ok(v) => Ok(Extracted::Form(v)),
            Err(e) => Err(e),
        },
        Param::FullRequest => Ok(Extracted::Whole(req.duplicate())),
    }
}

/// The extraction chain from parameter `i` on: strictly left to right,
/// each extractor seeing the request state its predecessors left, stopping
/// at the first failure with no later extraction run.
pub open spec fn run_from(req: RequestView, ps: Seq<ParamView>, i: int) -> (Result<Seq<ExtractedView>, Error>, RequestView)
    decreases ps.len() - i,
{
    if i < 0 || i >= ps.len() {
        (Ok(Seq::<ExtractedView>::empty()), req)
    } else {
        let (r0, req1) = extract_one_spec(req, ps[i]);
        match r0 {
            Err(e) => (Err(e), req1),
            Ok(v) => {
                let (rr, req2) = run_from(req1, ps, i + 1);
                match rr {
                    Err(e) => (Err(e), req2),
                    Ok(vs) => (Ok(seq![v] + vs), req2),
                }
            },
        }
    }
}

/// The whole extraction phase of a call.
pub open spec fn run_extractors(req: RequestView, ps: Seq<ParamView>) -> (Result<Seq<ExtractedView>, Error>, RequestView) {
    run_from(req, ps, 0)
}

fn extract_from(req: &mut Request, params: &Vec<Param>, i: usize) -> (r: Result<Vec<Extracted>, Error>)
    requires
        i <= params@.len(),
    ensures
        ({
            let (res, rq) = run_from(old(req)@, params_view(params@), i as int);
            final(req)@ == rq && match (r, res) {
                (Ok(v), Ok(s)) => extracted_view(v@) == s,
                (Err(e1), Err(e2)) => e1 == e2,
                _ => false,
            }
        }),
    decreases params@.len() - i,
{
    if i >= params.len() {
        let v: Vec<Extracted> = Vec::new();
        proof {
            assert(extracted_view(v@) =~= Seq::<ExtractedView>::empty());
        }
        Ok(v)
    } else {
        proof {
            assert(params_view(params@)[i as int] == params@[i as int]@);
        }
        match extract_one(req, &params[i]) {
            Err(e) => Err(e),
            Ok(v) => match extract_from(req, params, i + 1) {
                Err(e) => Err(e),
                Ok(rest) => {
                    let ghost rest0 = rest@;
                    let mut out = rest;
                    out.insert(0, v);
                    proof {
                        assert(out@ =~= seq![out@[0]] + rest0);
                        assert(extracted_view(out@) =~= seq![out@[0]@] + extracted_view(rest0));
                    }
                    Ok(out)
                },
            },
        }
    }
}

/// The handler capability: a function of the extracted parameter values.
/// `spec_call` is the mathematical function the handler computes; `invoke`
/// is its executable side, held to it.
pub trait Handler {
    spec fn spec_call(&self, args: Seq<ExtractedView>) -> Result<OutcomeView, Error>;

    fn invoke(&self, args: Vec<Extracted>) -> (r: Result<Outcome, Error>)
        ensures
            match r {
                Ok(o) => self.spec_call(extracted_view(args@)) == Ok::<OutcomeView, Error>(o@),
                Err(e) => self.spec_call(extracted_view(args@)) == Err::<OutcomeView, Error>(e),
            },
    ;
}

/// The whole call, as a function of the handler, its declared parameters
/// and the incoming request: extract each parameter in declaration order,
/// failing fast; invoke the handler on the values; convert its outcome.
/// The first failure anywhere is the result.
pub open spec fn dispatch_spec<H: Handler>(h: H, ps: Seq<ParamView>, req: RequestView) -> Result<ResponseView, Error> {
    match run_extractors(req, ps).0 {
        Err(e) => Err(e),
        Ok(args) => match h.spec_call(args) {
            Err(e) => Err(e),
            Ok(out) => outcome_response(out),
        },
    }
}

/// Wraps a handler and its declared parameter list into the host's
/// single-entry dispatch shape: given a request, produce a response or
/// fail. Pure delegation; holds no state beyond the handler.
pub struct HandlerEndpoint<H: Handler> {
    pub params: Vec<Param>,
    pub handler: H,
}

impl<H: Handler> HandlerEndpoint<H> {
    /// Declared parameter lists run from zero to sixteen entries: a
    /// pragmatic arity ceiling, not a logical limit.
    pub fn new(handler: H, params: Vec<Param>) -> (r: HandlerEndpoint<H>)
        requires
            params@.len() <= 16,
        ensures
            r.handler == handler,
            r.params == params,
    {
        HandlerEndpoint { params, handler }
    }

    pub fn call(&self, req: Request) -> (r: Result<Response, Error>)
        ensures
            match r {
                Ok(resp) => dispatch_spec(self.handler, params_view(self.params@), req@) == Ok::<
                    ResponseView,
                    Error,
                >(resp@),
                Err(e) => dispatch_spec(self.handler, params_view(self.params@), req@) == Err::<
                    ResponseView,
                    Error,
                >(e),
            },
    {
        let mut req = req;
        match extract_from(&mut req, &self.params, 0) {
            Err(e) => Err(e),
            Ok(args) => match self.handler.invoke(args) {
                Err(e) => Err(e),
                Ok(out) => out.into_response(),
            },
        }
    }
}

/// A handler declaring no parameters leaves the request exactly as it
/// came: the extraction phase yields no values and touches nothing, so
/// such a call succeeds whenever the handler itself (and the conversion
/// of its outcome) does.
pub proof fn lemma_zero_params_untouched(req: RequestView)
    ensures
        run_extractors(req, Seq::<ParamView>::empty()) == (
            Ok::<Seq<ExtractedView>, Error>(Seq::<ExtractedView>::empty()),
            req,
        ),
{
}

/// For a parameterless handler the call outcome is the handler's own
/// outcome, converted: nothing of the request takes part.
pub proof fn lemma_zero_params_dispatch<H: Handler>(h: H, req: RequestView)
    ensures
        dispatch_spec(h, Seq::<ParamView>::empty(), req) == (
            match h.spec_call(Seq::<ExtractedView>::empty()) {
                Err(e) => Err::<ResponseView, Error>(e),
                Ok(out) => outcome_response(out),
            }
        ),
{
}

/// The request state after the first `k` extractions, all assumed
/// successful.
pub open spec fn state_after(req: RequestView, ps: Seq<ParamView>, k: int) -> RequestView
    decreases k,
{
    if k <= 0 {
        req
    } else {
        extract_one_spec(state_after(req, ps, k - 1), ps[k - 1]).1
    }
}

/// What the `k`-th extractor (0-indexed) yields, run against the state
/// its predecessors left.
pub open spec fn step_result(req: RequestView, ps: Seq<ParamView>, k: int) -> Result<ExtractedView, Error> {
    extract_one_spec(state_after(req, ps, k), ps[k]).0
}

proof fn lemma_run_from_failure(req: RequestView, ps: Seq<ParamView>, i: int, k: int, e: Error)
    requires
        0 <= i <= k < ps.len(),
        forall|j: int| i <= j < k ==> #[trigger] step_result(req, ps, j) is Ok,
        step_result(req, ps, k) == Err::<ExtractedView, Error>(e),
    ensures
        run_from(state_after(req, ps, i), ps, i).0 == Err::<Seq<ExtractedView>, Error>(e),
    decreases k - i,
{
    if i == k {
    } else {
        assert(step_result(req, ps, i) is Ok);
        lemma_run_from_failure(req, ps, i + 1, k, e);
    }
}

/// If the extractors before the `k`-th (0-indexed) all succeed and the
/// `k`-th fails with `e`, the whole extraction phase fails with exactly
/// `e`: the user function is never reached and no later extractor's
/// failure can displace the first one.
pub proof fn lemma_first_failure_wins(req: RequestView, ps: Seq<ParamView>, k: int, e: Error)
    requires
        0 <= k < ps.len(),
        forall|j: int| 0 <= j < k ==> #[trigger] step_result(req, ps, j) is Ok,
        step_result(req, ps, k) == Err::<ExtractedView, Error>(e),
    ensures
        run_extractors(req, ps).0 == Err::<Seq<ExtractedView>, Error>(e),
{
    lemma_run_from_failure(req, ps, 0, k, e);
}

/// And the whole call then fails with exactly that error, whatever the
/// handler would have answered.
pub proof fn lemma_first_failure_dispatch<H: Handler>(h: H, req: RequestView, ps: Seq<ParamView>, k: int, e: Error)
    requires
        0 <= k < ps.len(),
        forall|j: int| 0 <= j < k ==> #[trigger] step_result(req, ps, j) is Ok,
        step_result(req, ps, k) == Err::<ExtractedView, Error>(e),
    ensures
        dispatch_spec(h, ps, req) == Err::<ResponseView, Error>(e),
{
    lemma_first_failure_wins(req, ps, k, e);
}

proof fn lemma_run_from_order(req: RequestView, ps: Seq<ParamView>, i: int)
    requires
        0 <= i <= ps.len(),
        forall|j: int| i <= j < ps.len() ==> #[trigger] step_result(req, ps, j) is Ok,
    ensures
        ({
            let (res, rq) = run_from(state_after(req, ps, i), ps, i);
            &&& res is Ok
            &&& res->Ok_0.len() == ps.len() - i
            &&& rq == state_after(req, ps, ps.len() as int)
            &&& forall|j: int|
                i <= j < ps.len() ==> res->Ok_0[j - i] == #[trigger] step_result(
                    req,
                    ps,
                    j,
                )->Ok_0
        }),
    decreases ps.len() - i,
{
    if i == ps.len() {
    } else {
        assert(step_result(req, ps, i) is Ok);
        lemma_run_from_order(req, ps, i + 1);
        let (res, rq) = run_from(state_after(req, ps, i), ps, i);
        let (res1, rq1) = run_from(state_after(req, ps, i + 1), ps, i + 1);
        assert(res->Ok_0 == seq![step_result(req, ps, i)->Ok_0] + res1->Ok_0);
        assert forall|j: int| i <= j < ps.len() implies res->Ok_0[j - i] == #[trigger] step_result(
            req,
            ps,
            j,
        )->Ok_0 by {
            if j > i {
                assert(res1->Ok_0[j - i - 1] == step_result(req, ps, j)->Ok_0);
            }
        }
    }
}

/// Extraction order is exactly declaration order: when every extractor
/// succeeds, the phase yields one value per declared parameter, and the
/// `k`-th value is what the `k`-th extractor yields when run against the
/// request state left by parameters `0..k` — the left-to-right threading
/// an instrumented run would record.
pub proof fn lemma_declaration_order(req: RequestView, ps: Seq<ParamView>)
    requires
        forall|j: int| 0 <= j < ps.len() ==> #[trigger] step_result(req, ps, j) is Ok,
    ensures
        ({
            let (res, rq) = run_extractors(req, ps);
            &&& res is Ok
            &&& res->Ok_0.len() == ps.len()
            &&& rq == state_after(req, ps, ps.len() as int)
            &&& forall|k: int|
                0 <= k < ps.len() ==> res->Ok_0[k] == #[trigger] step_result(req, ps, k)->Ok_0
        }),
{
    lemma_run_from_order(req, ps, 0);
}

} // verus!
