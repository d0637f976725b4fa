use vstd::prelude::*;
use vstd::pervasive::VecAdditionalExecFns;
use vstd::string::StrSliceExecFns;
use crate::error::Error;
use crate::request::{Request, RequestView, Method};
use crate::extract::fields_view;
use crate::handler::{Handler, HandlerEndpoint, Param, params_view, dispatch_spec};
use crate::response::{Response, ResponseView, ContentType};

verus! {

/// The first position at or after `i` holding the character `c`, or the
/// end of the text if none does.
pub open spec fn find_ch(s: Seq<char>, i: int, c: char) -> int
    decreases s.len() - i,
{
    if 0 <= i < s.len() {
        if s[i] == c {
            i
        } else {
            find_ch(s, i + 1, c)
        }
    } else {
        s.len() as int
    }
}

pub proof fn lemma_find_ch_bounds(s: Seq<char>, i: int, c: char)
    requires
        0 <= i <= s.len(),
    ensures
        i <= find_ch(s, i, c) <= s.len(),
    decreases s.len() - i,
{
    if i < s.len() && s[i] != c {
        lemma_find_ch_bounds(s, i + 1, c);
    }
}

/// A pattern segment `:k` (one decimal digit) binds the matched path
/// segment into path-parameter slot `k`.
pub open spec fn binder_index(seg: Seq<char>) -> Option<int> {
    if seg.len() == 2 && seg[0] == ':' && 48 <= seg[1] as u32 <= 57 {
        Some(seg[1] as u32 - 48)
    } else {
        None
    }
}

/// Writes `v` into slot `idx`, padding missing slots with empty strings.
pub open spec fn apply_binding(binds: Seq<Seq<char>>, idx: int, v: Seq<char>) -> Seq<Seq<char>> {
    let padded = if idx < binds.len() {
        binds
    } else {
        binds + Seq::new((idx + 1 - binds.len()) as nat, |j: int| Seq::<char>::empty())
    };
    padded.update(idx, v)
}

/// Matches pattern and path segment by segment from the given positions:
/// a binder segment binds, any other segment must match literally, and
/// both must run out of segments together.
pub open spec fn match_at(
    pat: Seq<char>,
    path: Seq<char>,
    pi: int,
    qi: int,
    binds: Seq<Seq<char>>,
) -> Option<Seq<Seq<char>>>
    decreases pat.len() - pi,
    via match_at_decreases
{
    let pe = find_ch(pat, pi, '/');
    let qe = find_ch(path, qi, '/');
    let pseg = pat.subrange(pi, pe);
    let qseg = path.subrange(qi, qe);
    let step = match binder_index(pseg) {
        Some(idx) => Some(apply_binding(binds, idx, qseg)),
        None => if pseg == qseg {
            Some(binds)
        } else {
            None
        },
    };
    match step {
        None => None,
        Some(b2) => {
            if pe >= pat.len() && qe >= path.len() {
                Some(b2)
            } else if pe < pat.len() && qe < path.len() {
                match_at(pat, path, pe + 1, qe + 1, b2)
            } else {
                None
            }
        },
    }
}

#[via_fn]
proof fn match_at_decreases(pat: Seq<char>, path: Seq<char>, pi: int, qi: int, binds: Seq<Seq<char>>) {
    if 0 <= pi <= pat.len() {
        lemma_find_ch_bounds(pat, pi, '/');
    }
}

/// Whether the route pattern matches the path, and with which bindings:
/// both must be absolute (start with `/`).
pub open spec fn match_pattern(pat: Seq<char>, path: Seq<char>) -> Option<Seq<Seq<char>>> {
    if pat.len() >= 1 && path.len() >= 1 && pat[0] == '/' && path[0] == '/' {
        match_at(pat, path, 1, 1, Seq::<Seq<char>>::empty())
    } else {
        None
    }
}

fn find_ch_exec(s: &String, i: usize, c: char) -> (r: usize)
    requires
        i <= s@.len(),
    ensures
        r == find_ch(s@, i as int, c),
        i <= r <= s@.len(),
{
    let n = s.as_str().unicode_len();
    let mut k: usize = i;
    while k < n && s.as_str().get_char(k) != c
        invariant
            i <= k <= n,
            n == s@.len(),
            find_ch(s@, i as int, c) == find_ch(s@, k as int, c),
        decreases n - k,
    {
        k = k + 1;
    }
    k
}

fn apply_binding_exec(binds: Vec<String>, idx: usize, v: String) -> (r: Vec<String>)
    ensures
        fields_view(r@) == apply_binding(fields_view(binds@), idx as int, v@),
{
    let ghost orig = fields_view(binds@);
    let mut b = binds;
    if idx < b.len() {
        b.set(idx, v);
        proof {
            assert(fields_view(b@) =~= orig.update(idx as int, v@));
        }
        b
    } else {
        let mut k: usize = b.len();
        while k < idx
            invariant
                orig.len() <= k <= idx,
                k == b@.len(),
                fields_view(b@) =~= orig + Seq::new((k - orig.len()) as nat, |j: int| Seq::<char>::empty()),
            decreases idx - k,
        {
            let ghost b_old = b@;
            b.push(String::new());
            k = k + 1;
            proof {
                let target = orig + Seq::new((k - orig.len()) as nat, |j: int| Seq::<char>::empty());
                assert(b@.last()@ =~= Seq::<char>::empty());
                assert forall|j: int| 0 <= j < b@.len() implies fields_view(b@)[j] == target[j] by {
                    if j < b@.len() - 1 {
                        assert(b@[j] == b_old[j]);
                        assert(fields_view(b_old)[j] == b_old[j]@);
                    } else {
                        assert(fields_view(b@)[j] == b@.last()@);
                    }
                }
                assert(fields_view(b@) =~= target);
            }
        }
        let ghost b_pad = b@;
        b.push(v);
        proof {
            let padded = orig + Seq::new((idx + 1 - orig.len()) as nat, |j: int| Seq::<char>::empty());
            let target = padded.update(idx as int, v@);
            assert(b@.last()@ == v@);
            assert forall|j: int| 0 <= j < b@.len() implies fields_view(b@)[j] == target[j] by {
                if j < b@.len() - 1 {
                    assert(b@[j] == b_pad[j]);
                    assert(fields_view(b@)[j] == b@[j]@);
                    assert(fields_view(b_pad)[j] == b_pad[j]@);
                } else {
                    assert(fields_view(b@)[j] == b@.last()@);
                }
            }
            assert(fields_view(b@) =~= target);
        }
        b
    }
}

fn match_at_exec(pat: &String, path: &String, pi: usize, qi: usize, binds: Vec<String>) -> (r:
    Option<Vec<String>>)
    requires
        pi <= pat@.len(),
        qi <= path@.len(),
    ensures
        match r {
            Some(v) => match_at(pat@, path@, pi as int, qi as int, fields_view(binds@)) == Some(
                fields_view(v@),
            ),
            None => match_at(pat@, path@, pi as int, qi as int, fields_view(binds@)) is None,
        },
    decreases pat@.len() - pi,
{
    let pe = find_ch_exec(pat, pi, '/');
    let qe = find_ch_exec(path, qi, '/');
    let pat_len = pat.as_str().unicode_len();
    let path_len = path.as_str().unicode_len();
    let ghost pseg = pat@.subrange(pi as int, pe as int);
    let ghost qseg = path@.subrange(qi as int, qe as int);
    let is_binder: bool = pe - pi == 2 && pat.as_str().get_char(pi) == ':' && {
        let d = pat.as_str().get_char(pi + 1) as u32;
        48 <= d && d <= 57
    };
    proof {
        assert(is_binder == (binder_index(pseg) is Some));
    }
    let b2: Vec<String> = if is_binder {
        let d = pat.as_str().get_char(pi + 1) as u32;
        let idx = (d - 48) as usize;
        let v = path.as_str().substring_char(qi, qe).to_owned();
        apply_binding_exec(binds, idx, v)
    } else {
        let ps = pat.as_str().substring_char(pi, pe);
        let qs = path.as_str().substring_char(qi, qe);
        if !ps.to_owned().eq(&qs.to_owned()) {
            proof {
                assert(pseg != qseg);
            }
            return None;
        }
        proof {
            assert(pseg == qseg);
        }
        binds
    };
    if pe >= pat_len && qe >= path_len {
        Some(b2)
    } else if pe < pat_len && qe < path_len {
        match_at_exec(pat, path, pe + 1, qe + 1, b2)
    } else {
        None
    }
}

/// Decides whether `pattern` matches `path` and returns the bound path
/// parameters, slot `k` holding the segment bound by `:k`.
pub fn match_exec(pattern: &String, path: &String) -> (r: Option<Vec<String>>)
    ensures
        match r {
            Some(v) => match_pattern(pattern@, path@) == Some(fields_view(v@)),
            None => match_pattern(pattern@, path@) is None,
        },
{
    let pat_len = pattern.as_str().unicode_len();
    let path_len = path.as_str().unicode_len();
    if pat_len >= 1 && path_len >= 1 && pattern.as_str().get_char(0) == '/' && path.as_str()
        .get_char(0) == '/' {
        let binds: Vec<String> = Vec::new();
        proof {
            assert(fields_view(binds@) =~= Seq::<Seq<char>>::empty());
        }
        match_at_exec(pattern, path, 1, 1, binds)
    } else {
        None
    }
}

/// One registered route: an HTTP method, a path pattern, and the endpoint
/// that serves it.
pub struct RouteEntry<H: Handler> {
    pub method: Method,
    pub pattern: String,
    pub endpoint: HandlerEndpoint<H>,
}

/// A model of the host router: routes tried in registration order, the
/// first whose pattern and method both match winning.
pub struct Router<H: Handler> {
    pub routes: Vec<RouteEntry<H>>,
}

pub open spec fn route_matches<H: Handler>(e: RouteEntry<H>, method: Method, path: Seq<char>) -> bool {
    e.method == method && match_pattern(e.pattern@, path) is Some
}

pub open spec fn first_match<H: Handler>(
    routes: Seq<RouteEntry<H>>,
    method: Method,
    path: Seq<char>,
    i: int,
) -> Option<int>
    decreases routes.len() - i,
{
    if i < 0 || i >= routes.len() {
        None
    } else if route_matches(routes[i], method, path) {
        Some(i)
    } else {
        first_match(routes, method, path, i + 1)
    }
}

pub open spec fn any_path_match<H: Handler>(routes: Seq<RouteEntry<H>>, path: Seq<char>, i: int) -> bool
    decreases routes.len() - i,
{
    if i < 0 || i >= routes.len() {
        false
    } else {
        match_pattern(routes[i].pattern@, path) is Some || any_path_match(routes, path, i + 1)
    }
}

/// What the router answers: the first route whose pattern and method both
/// match serves the request, with the pattern's bindings as its path
/// parameters, and a failing call becomes a bodyless response carrying
/// the failure's status. A path some route matches under another method
/// falls through to `405`; a path no route matches, to `404`.
pub open spec fn respond_spec<H: Handler>(routes: Seq<RouteEntry<H>>, req: RequestView) -> ResponseView {
    match first_match(routes, req.method, req.path, 0) {
        Some(j) => {
            let binds = match_pattern(routes[j].pattern@, req.path)->0;
            let bound = RequestView { path_params: binds, ..req };
            match dispatch_spec(
                routes[j].endpoint.handler,
                params_view(routes[j].endpoint.params@),
                bound,
            ) {
                Ok(resp) => resp,
                Err(e) => ResponseView {
                    status: e.spec_status(),
                    body: Seq::<u8>::empty(),
                    content_type: ContentType::Unset,
                },
            }
        },
        None => if any_path_match(routes, req.path, 0) {
            ResponseView { status: 405, body: Seq::<u8>::empty(), content_type: ContentType::Unset }
        } else {
            ResponseView { status: 404, body: Seq::<u8>::empty(), content_type: ContentType::Unset }
        },
    }
}

impl<H: Handler> Router<H> {
    pub fn new() -> (r: Router<H>)
        ensures
            r.routes@ =~= Seq::<RouteEntry<H>>::empty(),
    {
        Router { routes: Vec::new() }
    }

    /// Registers `handler`, with its declared parameter list, for the
    /// given method at the given path pattern.
    pub fn handle_method(&mut self, pattern: String, method: Method, handler: H, params: Vec<Param>)
        requires
            params@.len() <= 16,
        ensures
            final(self).routes@ == old(self).routes@.push(
                (RouteEntry {
                    method,
                    pattern,
                    endpoint: HandlerEndpoint { params, handler },
                }),
            ),
    {
        let endpoint = HandlerEndpoint::new(handler, params);
        self.routes.push(RouteEntry { method, pattern, endpoint });
    }

    pub fn handle_get(&mut self, pattern: String, handler: H, params: Vec<Param>)
        requires
            params@.len() <= 16,
        ensures
            final(self).routes@ == old(self).routes@.push(
                (RouteEntry {
                    method: Method::Get,
                    pattern,
                    endpoint: HandlerEndpoint { params, handler },
                }),
            ),
    {
        self.handle_method(pattern, Method::Get, handler, params)
    }

    pub fn handle_head(&mut self, pattern: String, handler: H, params: Vec<Param>)
        requires
            params@.len() <= 16,
        ensures
            final(self).routes@ == old(self).routes@.push(
                (RouteEntry {
                    method: Method::Head,
                    pattern,
                    endpoint: HandlerEndpoint { params, handler },
                }),
            ),
    {
        self.handle_method(pattern, Method::Head, handler, params)
    }

    pub fn handle_put(&mut self, pattern: String, handler: H, params: Vec<Param>)
        requires
            params@.len() <= 16,
        ensures
            final(self).routes@ == old(self).routes@.push(
                (RouteEntry {
                    method: Method::Put,
                    pattern,
                    endpoint: HandlerEndpoint { params, handler },
                }),
            ),
    {
        self.handle_method(pattern, Method::Put, handler, params)
    }

    pub fn handle_post(&mut self, pattern: String, handler: H, params: Vec<Param>)
        requires
            params@.len() <= 16,
        ensures
            final(self).routes@ == old(self).routes@.push(
                (RouteEntry {
                    method: Method::Post,
                    pattern,
                    endpoint: HandlerEndpoint { params, handler },
                }),
            ),
    {
        self.handle_method(pattern, Method::Post, handler, params)
    }

    pub fn handle_delete(&mut self, pattern: String, handler: H, params: Vec<Param>)
        requires
            params@.len() <= 16,
        ensures
            final(self).routes@ == old(self).routes@.push(
                (RouteEntry {
                    method: Method::Delete,
                    pattern,
                    endpoint: HandlerEndpoint { params, handler },
                }),
            ),
    {
        self.handle_method(pattern, Method::Delete, handler, params)
    }

    pub fn handle_options(&mut self, pattern: String, handler: H, params: Vec<Param>)
        requires
            params@.len() <= 16,
        ensures
            final(self).routes@ == old(self).routes@.push(
                (RouteEntry {
                    method: Method::Options,
                    pattern,
                    endpoint: HandlerEndpoint { params, handler },
                }),
            ),
    {
        self.handle_method(pattern, Method::Options, handler, params)
    }

    pub fn handle_connect(&mut self, pattern: String, handler: H, params: Vec<Param>)
        requires
            params@.len() <= 16,
        ensures
            final(self).routes@ == old(self).routes@.push(
                (RouteEntry {
                    method: Method::Connect,
                    pattern,
                    endpoint: HandlerEndpoint { params, handler },
                }),
            ),
    {
        self.handle_method(pattern, Method::Connect, handler, params)
    }

    pub fn handle_patch(&mut self, pattern: String, handler: H, params: Vec<Param>)
        requires
            params@.len() <= 16,
        ensures
            final(self).routes@ == old(self).routes@.push(
                (RouteEntry {
                    method: Method::Patch,
                    pattern,
                    endpoint: HandlerEndpoint { params, handler },
                }),
            ),
    {
        self.handle_method(pattern, Method::Patch, handler, params)
    }

    pub fn handle_trace(&mut self, pattern: String, handler: H, params: Vec<Param>)
        requires
            params@.len() <= 16,
        ensures
            final(self).routes@ == old(self).routes@.push(
                (RouteEntry {
                    method: Method::Trace,
                    pattern,
                    endpoint: HandlerEndpoint { params, handler },
                }),
            ),
    {
        self.handle_method(pattern, Method::Trace, handler, params)
    }

    /// Serves one request: the single entry point the host loop calls.
    pub fn respond(&self, req: Request) -> (r: Response)
        ensures
            r@ == respond_spec(self.routes@, req@),
    {
        let ghost req_v = req@;
        let mut any_path: bool = false;
        let mut i: usize = 0;
        while i < self.routes.len()
            invariant
                i <= self.routes@.len(),
                req@ == req_v,
                first_match(self.routes@, req_v.method, req_v.path, 0) == first_match(
                    self.routes@,
                    req_v.method,
                    req_v.path,
                    i as int,
                ),
                any_path_match(self.routes@, req_v.path, 0) == (any_path || any_path_match(
                    self.routes@,
                    req_v.path,
                    i as int,
                )),
            decreases self.routes@.len() - i,
        {
            let e = &self.routes[i];
            match match_exec(&e.pattern, &req.path) {
                Some(binds) => {
                    if e.method == req.method {
                        proof {
                            assert(route_matches(self.routes@[i as int], req_v.method, req_v.path));
                            assert(first_match(self.routes@, req_v.method, req_v.path, i as int)
                                == Some(i as int));
                        }
                        let mut bound = req;
                        bound.path_params = binds;
                        proof {
                            assert(bound@ == (RequestView {
                                path_params: match_pattern(
                                    self.routes@[i as int].pattern@,
                                    req_v.path,
                                )->0,
                                ..req_v
                            }));
                        }
                        match e.endpoint.call(bound) {
                            Ok(resp) => {
                                return resp;
                            },
                            Err(er) => {
                                return Response::of_status(er.status());
                            },
                        }
                    } else {
                        any_path = true;
                    }
                },
                None => {},
            }
            i = i + 1;
        }
        if any_path {
            Response::of_status(405)
        } else {
            Response::of_status(404)
        }
    }
}

} // verus!
