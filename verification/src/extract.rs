use vstd::prelude::*;
use vstd::string::StrSliceExecFns;
use vstd::utf8::{valid_utf8, decode_utf8, is_ascii_chars};
use crate::error::Error;
use crate::request::{Request, RequestView, ext_lookup, same_except_body};
use crate::text::{ascii_bytes, bytes_to_string, lemma_ascii_encode, spec_parse_u32, parse_u32_bytes};
use crate::urlenc::{
    text_pairs, parse_pairs, lookup_pair, pairs_view, decode_text_pairs, decode_bytes_pairs,
    lookup_value,
};
use crate::json::{JsonObject, JsonValueView, parse_document, parse_json};

verus! {

/// The view of a list of declared field names.
pub open spec fn fields_view(fs: Seq<String>) -> Seq<Seq<char>> {
    fs.map_values(|s: String| s@)
}

/// A typed value cloned out of the request's extension side-channel,
/// looked up under a type token chosen by the host.
pub struct Extension(pub String);

impl Extension {
    /// The value registered under `key`, or a server-configuration error
    /// when none was ever registered: a wiring defect, not client fault.
    pub open spec fn spec_from_request(req: RequestView, key: u64) -> Result<Seq<char>, Error> {
        match ext_lookup(req.extensions, key) {
            Some(v) => Ok(v),
            None => Err(Error::ServerConfiguration),
        }
    }

    pub fn from_request(req: &Request, key: u64) -> (r: Result<Extension, Error>)
        ensures
            match r {
                Ok(v) => Self::spec_from_request(req@, key) == Ok::<Seq<char>, Error>(v.0@),
                Err(e) => Self::spec_from_request(req@, key) == Err::<Seq<char>, Error>(e),
            },
    {
        proof {
            assert(req@.extensions.skip(0) =~= req@.extensions);
        }
        let mut i: usize = 0;
        while i < req.extensions.len()
            invariant
                i <= req.extensions@.len(),
                ext_lookup(req@.extensions, key) == ext_lookup(req@.extensions.skip(i as int), key),
            decreases req.extensions@.len() - i,
        {
            proof {
                assert(req@.extensions.skip(i as int).len() == req.extensions@.len() - i);
                assert(req@.extensions.skip(i as int)[0] == req@.extensions[i as int]);
                assert(req@.extensions[i as int] == (req.extensions@[i as int].0,
                    req.extensions@[i as int].1@));
            }
            if req.extensions[i].0 == key {
                return Ok(Extension(req.extensions[i].1.clone()));
            }
            proof {
                assert(req@.extensions.skip(i as int).drop_first() =~= req@.extensions.skip(
                    i as int + 1,
                ));
            }
            i = i + 1;
        }
        proof {
            assert(req@.extensions.skip(i as int) =~= Seq::<(u64, Seq<char>)>::empty());
        }
        Err(Error::ServerConfiguration)
    }
}

/// The value each declared field takes, looked up by name among the pairs
/// the selected source decodes to. Shared by query and form extraction.
pub open spec fn project_from(
    pairs: Seq<(Seq<char>, Seq<char>)>,
    fields: Seq<Seq<char>>,
    i: int,
) -> Result<Seq<(Seq<char>, Seq<char>)>, Error>
    decreases fields.len() - i,
{
    if i < 0 || i >= fields.len() {
        Ok(Seq::empty())
    } else {
        match lookup_pair(pairs, fields[i]) {
            None => Err(Error::ClientInput),
            Some(v) => match project_from(pairs, fields, i + 1) {
                Ok(rest) => Ok(seq![(fields[i], v)] + rest),
                Err(e) => Err(e),
            },
        }
    }
}

fn project_exec(pairs: &Vec<(String, String)>, fields: &Vec<String>, i: usize) -> (r: Result<
    Vec<(String, String)>,
    Error,
>)
    requires
        i <= fields@.len(),
    ensures
        match r {
            Ok(v) => project_from(pairs_view(pairs@), fields_view(fields@), i as int) == Ok::<
                Seq<(Seq<char>, Seq<char>)>,
                Error,
            >(pairs_view(v@)),
            Err(e) => project_from(pairs_view(pairs@), fields_view(fields@), i as int) == Err::<
                Seq<(Seq<char>, Seq<char>)>,
                Error,
            >(e),
        },
    decreases fields@.len() - i,
{
    if i >= fields.len() {
        let v: Vec<(String, String)> = Vec::new();
        proof {
            assert(pairs_view(v@) =~= Seq::<(Seq<char>, Seq<char>)>::empty());
        }
        Ok(v)
    } else {
        proof {
            assert(fields_view(fields@)[i as int] == fields@[i as int]@);
        }
        match lookup_value(pairs, &fields[i]) {
            None => Err(Error::ClientInput),
            Some(value) => match project_exec(pairs, fields, i + 1) {
                Err(e) => Err(e),
                Ok(rest) => {
                    let ghost rest0 = rest@;
                    let mut out = rest;
                    out.insert(0, (fields[i].clone(), value));
                    proof {
                        assert(out@ =~= seq![out@[0]] + rest0);
                        assert(pairs_view(out@) =~= seq![(out@[0].0@, out@[0].1@)] + pairs_view(
                            rest0,
                        ));
                        assert(out@[0].0@ == fields_view(fields@)[i as int]);
                    }
                    Ok(out)
                },
            },
        }
    }
}

/// Values deserialized from the query string: one `(field, value)` pair
/// per declared field, in declaration order.
pub struct Query(pub Vec<(String, String)>);

impl Query {
    /// Query extraction: the raw query string decodes to URL-encoded pairs
    /// and every declared field is present among them; a malformed query
    /// or a missing field is a client-input error.
    pub open spec fn spec_from_request(req: RequestView, fields: Seq<Seq<char>>) -> Result<
        Seq<(Seq<char>, Seq<char>)>,
        Error,
    > {
        match text_pairs(req.query) {
            None => Err(Error::ClientInput),
            Some(pairs) => project_from(pairs, fields, 0),
        }
    }

    pub fn from_request(req: &Request, fields: &Vec<String>) -> (r: Result<Query, Error>)
        ensures
            match r {
                Ok(q) => Self::spec_from_request(req@, fields_view(fields@)) == Ok::<
                    Seq<(Seq<char>, Seq<char>)>,
                    Error,
                >(pairs_view(q.0@)),
                Err(e) => Self::spec_from_request(req@, fields_view(fields@)) == Err::<
                    Seq<(Seq<char>, Seq<char>)>,
                    Error,
                >(e),
            },
    {
        match decode_text_pairs(&req.query) {
            None => Err(Error::ClientInput),
            Some(pairs) => match project_exec(&pairs, fields, 0) {
                Ok(v) => Ok(Query(v)),
                Err(e) => Err(e),
            },
        }
    }
}

/// A value parsed from the positional path-parameter slot fixed at
/// registration time: the route pattern's `:k` binder fills slot `k`.
pub struct Path(pub u32);

impl Path {
    /// Path extraction at slot `idx`: the bound segment must exist and
    /// read as a decimal `u32`; anything else is a client-input error.
    pub open spec fn spec_from_request(req: RequestView, idx: int) -> Result<u32, Error> {
        if 0 <= idx < req.path_params.len() && is_ascii_chars(req.path_params[idx]) {
            match spec_parse_u32(ascii_bytes(req.path_params[idx])) {
                Some(n) => Ok(n),
                None => Err(Error::ClientInput),
            }
        } else {
            Err(Error::ClientInput)
        }
    }

    pub fn from_request(req: &Request, idx: usize) -> (r: Result<Path, Error>)
        ensures
            match r {
                Ok(p) => Self::spec_from_request(req@, idx as int) == Ok::<u32, Error>(p.0),
                Err(e) => Self::spec_from_request(req@, idx as int) == Err::<u32, Error>(e),
            },
    {
        if idx >= req.path_params.len() {
            return Err(Error::ClientInput);
        }
        let param = &req.path_params[idx];
        proof {
            assert(req@.path_params[idx as int] == req.path_params@[idx as int]@);
        }
        if !param.as_str().is_ascii() {
            return Err(Error::ClientInput);
        }
        let bytes = param.as_str().as_bytes_vec();
        proof {
            lemma_ascii_encode(param@);
        }
        match parse_u32_bytes(&bytes) {
            Some(n) => Ok(Path(n)),
            None => Err(Error::ClientInput),
        }
    }
}

/// The whole body, drained as raw bytes. Draining leaves an empty body
/// behind: a later body extractor of the same request sees nothing.
pub struct BodyBytes(pub Vec<u8>);

impl BodyBytes {
    pub fn from_request(req: &mut Request) -> (r: BodyBytes)
        ensures
            r.0@ == old(req)@.body,
            final(req)@.body == Seq::<u8>::empty(),
            same_except_body(old(req)@, final(req)@),
    {
        BodyBytes(req.take_body())
    }
}

/// The whole body, drained and decoded as UTF-8 text.
pub struct BodyString(pub String);

impl BodyString {
    /// Body text extraction: the body bytes must be valid UTF-8; a failed
    /// decode surfaces as a transport-level failure, as a failed body read
    /// would.
    pub open spec fn spec_from_request(req: RequestView) -> Result<Seq<char>, Error> {
        if valid_utf8(req.body) {
            Ok(decode_utf8(req.body))
        } else {
            Err(Error::Transport)
        }
    }

    pub fn from_request(req: &mut Request) -> (r: Result<BodyString, Error>)
        ensures
            final(req)@.body == Seq::<u8>::empty(),
            same_except_body(old(req)@, final(req)@),
            match r {
                Ok(s) => Self::spec_from_request(old(req)@) == Ok::<Seq<char>, Error>(s.0@),
                Err(e) => Self::spec_from_request(old(req)@) == Err::<Seq<char>, Error>(e),
            },
    {
        let bytes = req.take_body();
        match bytes_to_string(bytes) {
            Some(s) => Ok(BodyString(s)),
            None => Err(Error::Transport),
        }
    }
}

/// The body drained and read as a JSON document.
pub struct Json(pub JsonObject);

impl Json {
    /// JSON body extraction: the whole body must be one well-formed
    /// document; anything else is a client-input error.
    pub open spec fn spec_from_request(req: RequestView) -> Result<
        Seq<(Seq<char>, JsonValueView)>,
        Error,
    > {
        match parse_document(req.body) {
            Some(o) => Ok(o),
            None => Err(Error::ClientInput),
        }
    }

    pub fn from_request(req: &mut Request) -> (r: Result<Json, Error>)
        ensures
            final(req)@.body == Seq::<u8>::empty(),
            same_except_body(old(req)@, final(req)@),
            match r {
                Ok(o) => Self::spec_from_request(old(req)@) == Ok::<
                    Seq<(Seq<char>, JsonValueView)>,
                    Error,
                >(o.0@),
                Err(e) => Self::spec_from_request(old(req)@) == Err::<
                    Seq<(Seq<char>, JsonValueView)>,
                    Error,
                >(e),
            },
    {
        let bytes = req.take_body();
        match parse_json(&bytes) {
            Ok(o) => Ok(Json(o)),
            Err(e) => Err(e),
        }
    }
}

/// A JSON response and the JSON body extractor are inverse: a request
/// whose body carries the wire form of a well-formed object `o` — exactly
/// what the structured JSON response wrapper emits for `o` — extracts
/// back to `o`.
pub proof fn lemma_json_body_round_trip(o: Seq<(Seq<char>, JsonValueView)>, req: RequestView)
    requires
        crate::json::wf_object(o),
        req.body == crate::json::render_object(o),
    ensures
        Json::spec_from_request(req) == Ok::<Seq<(Seq<char>, JsonValueView)>, Error>(o),
{
    crate::json::lemma_json_round_trip(o);
}

/// The body drained and read as URL-encoded form data: one `(field,
/// value)` pair per declared field, as for the query extractor.
pub struct Form(pub Vec<(String, String)>);

impl Form {
    /// Form extraction: the body bytes decode to URL-encoded pairs and
    /// every declared field is present; anything else is a client-input
    /// error.
    pub open spec fn spec_from_request(req: RequestView, fields: Seq<Seq<char>>) -> Result<
        Seq<(Seq<char>, Seq<char>)>,
        Error,
    > {
        match parse_pairs(req.body, 0) {
            None => Err(Error::ClientInput),
            Some(pairs) => project_from(pairs, fields, 0),
        }
    }

    pub fn from_request(req: &mut Request, fields: &Vec<String>) -> (r: Result<Form, Error>)
        ensures
            final(req)@.body == Seq::<u8>::empty(),
            same_except_body(old(req)@, final(req)@),
            match r {
                Ok(f) => Self::spec_from_request(old(req)@, fields_view(fields@)) == Ok::<
                    Seq<(Seq<char>, Seq<char>)>,
                    Error,
                >(pairs_view(f.0@)),
                Err(e) => Self::spec_from_request(old(req)@, fields_view(fields@)) == Err::<
                    Seq<(Seq<char>, Seq<char>)>,
                    Error,
                >(e),
            },
    {
        let bytes = req.take_body();
        match decode_bytes_pairs(&bytes) {
            None => Err(Error::ClientInput),
            Some(pairs) => match project_exec(&pairs, fields, 0) {
                Ok(v) => Ok(Form(v)),
                Err(e) => Err(e),
            },
        }
    }
}

} // verus!
