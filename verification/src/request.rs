use vstd::prelude::*;

verus! {

/// The HTTP methods a handler can be registered for.
#[derive(Clone, Copy, Debug, PartialEq, Eq, Structural)]
pub enum Method {
    Get,
    Head,
    Put,
    Post,
    Delete,
    Options,
    Connect,
    Patch,
    Trace,
}

/// The mathematical model of a [`Request`]: the same data over `Seq`.
pub struct RequestView {
    pub method: Method,
    pub path: Seq<char>,
    pub path_params: Seq<Seq<char>>,
    pub query: Seq<char>,
    pub body: Seq<u8>,
    pub extensions: Seq<(u64, Seq<char>)>,
}

/// A single-owner view of an incoming HTTP exchange, as handed over by the
/// host server. Extraction may drain the body; everything else is read-only.
pub struct Request {
    pub method: Method,
    /// The request path, e.g. `/user/1001`.
    pub path: String,
    /// Positional path-parameter bindings, filled in by the router when the
    /// route pattern matches: slot `k` holds the segment bound by `:k`.
    pub path_params: Vec<String>,
    /// The raw query string, without the leading `?`.
    pub query: String,
    /// The request body. Reading it drains it: a later read of the same
    /// request observes an empty body.
    pub body: Vec<u8>,
    /// The typed side-channel of shared contextual values, keyed by a type
    /// token chosen by the host; set once per request before dispatch.
    pub extensions: Vec<(u64, String)>,
}

impl View for Request {
    type V = RequestView;

    open spec fn view(&self) -> RequestView {
        RequestView {
            method: self.method,
            path: self.path@,
            path_params: self.path_params@.map_values(|p: String| p@),
            query: self.query@,
            body: self.body@,
            extensions: self.extensions@.map_values(|e: (u64, String)| (e.0, e.1@)),
        }
    }
}

/// True when `b` differs from `a` at most in its body: extraction never
/// rewrites the method, path, bindings, query or extensions.
pub open spec fn same_except_body(a: RequestView, b: RequestView) -> bool {
    &&& b.method == a.method
    &&& b.path == a.path
    &&& b.path_params == a.path_params
    &&& b.query == a.query
    &&& b.extensions == a.extensions
}

/// The value stored in the extension side-channel under `key`, if any:
/// the first binding with that key wins.
pub open spec fn ext_lookup(exts: Seq<(u64, Seq<char>)>, key: u64) -> Option<Seq<char>>
    decreases exts.len(),
{
    if exts.len() == 0 {
        None
    } else if exts[0].0 == key {
        Some(exts[0].1)
    } else {
        ext_lookup(exts.drop_first(), key)
    }
}

impl Request {
    /// A fresh request with the given method and path and everything else
    /// empty.
    pub fn new(method: Method, path: String) -> (r: Request)
        ensures
            r@.method == method,
            r@.path == path@,
            r@.path_params =~= Seq::<Seq<char>>::empty(),
            r@.query =~= Seq::<char>::empty(),
            r@.body =~= Seq::<u8>::empty(),
            r@.extensions =~= Seq::<(u64, Seq<char>)>::empty(),
    {
        let r = Request {
            method,
            path,
            path_params: Vec::new(),
            query: String::new(),
            body: Vec::new(),
            extensions: Vec::new(),
        };
        r
    }

    /// Drains the body: returns its bytes and leaves an empty body behind,
    /// exactly as the host's single-consumption body transport behaves.
    pub fn take_body(&mut self) -> (b: Vec<u8>)
        ensures
            b@ == old(self)@.body,
            final(self)@.body =~= Seq::<u8>::empty(),
            same_except_body(old(self)@, final(self)@),
    {
        let mut taken: Vec<u8> = Vec::new();
        core::mem::swap(&mut self.body, &mut taken);
        taken
    }

    /// A deep copy, used when a handler asks for the whole request as its
    /// parameter.
    pub fn duplicate(&self) -> (r: Request)
        ensures
            r@ == self@,
    {
        let mut path_params: Vec<String> = Vec::new();
        let mut i: usize = 0;
        while i < self.path_params.len()
            invariant
                i <= self.path_params@.len(),
                path_params@.len() == i as int,
                forall|j: int| 0 <= j < i ==> path_params@[j]@ == self.path_params@[j]@,
            decreases self.path_params@.len() - i,
        {
            path_params.push(self.path_params[i].clone());
            i = i + 1;
        }
        let mut body: Vec<u8> = Vec::new();
        let mut k: usize = 0;
        while k < self.body.len()
            invariant
                k <= self.body@.len(),
                body@ =~= self.body@.subrange(0, k as int),
            decreases self.body@.len() - k,
        {
            body.push(self.body[k]);
            k = k + 1;
        }
        let mut extensions: Vec<(u64, String)> = Vec::new();
        let mut m: usize = 0;
        while m < self.extensions.len()
            invariant
                m <= self.extensions@.len(),
                extensions@.len() == m as int,
                forall|j: int| 0 <= j < m ==> extensions@[j].0 == self.extensions@[j].0
                    && extensions@[j].1@ == self.extensions@[j].1@,
            decreases self.extensions@.len() - m,
        {
            let key: u64 = self.extensions[m].0;
            extensions.push((key, self.extensions[m].1.clone()));
            m = m + 1;
        }
        let r = Request {
            method: self.method,
            path: self.path.clone(),
            path_params,
            query: self.query.clone(),
            body,
            extensions,
        };
        proof {
            assert(r@.path_params =~~= self@.path_params);
            assert(r@.body =~= self@.body);
            assert(r@.extensions =~~= self@.extensions);
        }
        r
    }
}

} // verus!
