use vstd::prelude::*;
use crate::error::Error;
use crate::request::Request;
use crate::extract::{Query, Path};
use crate::json::{JsonObject, JsonValue, JsonValueView};
use crate::response::{Json, Outcome, OutcomeView};
use crate::handler::{Handler, Extracted, ExtractedView, extracted_view};

verus! {

/// The example handlers: one per supported signature family — no
/// parameters, no parameters but fallible, a typed extractor parameter,
/// the whole request, and the whole request but fallible.

/// A parameterless handler returning plain text.
pub fn index() -> (r: String)
    ensures
        r@ == "Hello world!"@,
{
    "Hello world!".to_owned()
}

/// The same, wrapped in a `Result`.
pub fn index_alter() -> (r: Result<String, Error>)
    ensures
        match r {
            Ok(s) => s@ == "Hello world!"@,
            Err(_) => false,
        },
{
    Ok("Hello world!".to_owned())
}

/// A handler answering with a fixed "unauthorized" status.
pub fn error() -> (r: u16)
    ensures
        r == 401,
{
    401
}

/// Echoes the query's `name` field as the JSON object `{"hello": name}`.
pub fn hello(q: Query) -> (r: Json)
    requires
        q.0@.len() >= 1,
    ensures
        r.0@ =~= seq![("hello"@, JsonValueView::Str(q.0@[0].1@))],
{
    let mut pairs = q.0;
    let pair = pairs.remove(0);
    let mut entries: Vec<(String, JsonValue)> = Vec::new();
    entries.push(("hello".to_owned(), JsonValue::Str(pair.1)));
    Json(JsonObject { entries })
}

/// Answers `{"user_id": n}` for the path parameter at slot `0`.
pub fn get_user(p: Path) -> (r: Json)
    ensures
        r.0@ =~= seq![("user_id"@, JsonValueView::Int(p.0 as u64))],
{
    let mut entries: Vec<(String, JsonValue)> = Vec::new();
    entries.push(("user_id".to_owned(), JsonValue::Int(p.0 as u64)));
    Json(JsonObject { entries })
}

/// A handler taking the whole request and answering `200`.
pub fn raw(req: Request) -> (r: u16)
    ensures
        r == 200,
{
    let _ = req;
    200
}

/// The same, wrapped in a `Result`.
pub fn original(req: Request) -> (r: Result<u16, Error>)
    ensures
        match r {
            Ok(c) => c == 200,
            Err(_) => false,
        },
{
    let _ = req;
    Ok(200)
}

/// The example handlers as one dispatchable value, so that a router can
/// hold any of them. A handler invoked with values that do not fit its
/// declared signature answers a server-configuration error: that wiring
/// never arises when it is registered with its own parameter list.
pub enum SampleHandler {
    Index,
    IndexAlter,
    Unauthorized,
    Hello,
    GetUser,
    Raw,
    Original,
}

impl Handler for SampleHandler {
    open spec fn spec_call(&self, args: Seq<ExtractedView>) -> Result<OutcomeView, Error> {
        match self {
            SampleHandler::Index => if args.len() == 0 {
                Ok(OutcomeView::Text("Hello world!"@))
            } else {
                Err(Error::ServerConfiguration)
            },
            SampleHandler::IndexAlter => if args.len() == 0 {
                Ok(OutcomeView::Text("Hello world!"@))
            } else {
                Err(Error::ServerConfiguration)
            },
            SampleHandler::Unauthorized => if args.len() == 0 {
                Ok(OutcomeView::Status(401))
            } else {
                Err(Error::ServerConfiguration)
            },
            SampleHandler::Hello => if args.len() == 1 {
                match args[0] {
                    ExtractedView::Query(pairs) => if pairs.len() >= 1 {
                        Ok(OutcomeView::JsonBody(seq![("hello"@, JsonValueView::Str(pairs[0].1))]))
                    } else {
                        Err(Error::ServerConfiguration)
                    },
                    _ => Err(Error::ServerConfiguration),
                }
            } else {
                Err(Error::ServerConfiguration)
            },
            SampleHandler::GetUser => if args.len() == 1 {
                match args[0] {
                    ExtractedView::Path(n) => Ok(
                        OutcomeView::JsonBody(seq![("user_id"@, JsonValueView::Int(n as u64))]),
                    ),
                    _ => Err(Error::ServerConfiguration),
                }
            } else {
                Err(Error::ServerConfiguration)
            },
            SampleHandler::Raw => if args.len() == 1 {
                match args[0] {
                    ExtractedView::Whole(_) => Ok(OutcomeView::Status(200)),
                    _ => Err(Error::ServerConfiguration),
                }
            } else {
                Err(Error::ServerConfiguration)
            },
            SampleHandler::Original => if args.len() == 1 {
                match args[0] {
                    ExtractedView::Whole(_) => Ok(OutcomeView::Status(200)),
                    _ => Err(Error::ServerConfiguration),
                }
            } else {
                Err(Error::ServerConfiguration)
            },
        }
    }

    fn invoke(&self, args: Vec<Extracted>) -> (r: Result<Outcome, Error>) {
        proof {
            if args@.len() > 0 {
                assert(extracted_view(args@)[0] == args@[0]@);
            }
        }
        match self {
            SampleHandler::Index => {
                if args.len() == 0 {
                    Ok(Outcome::Text(index()))
                } else {
                    Err(Error::ServerConfiguration)
                }
            },
            SampleHandler::IndexAlter => {
                if args.len() == 0 {
                    match index_alter() {
                        Ok(s) => Ok(Outcome::Text(s)),
                        Err(e) => Err(e),
                    }
                } else {
                    Err(Error::ServerConfiguration)
                }
            },
            SampleHandler::Unauthorized => {
                if args.len() == 0 {
                    Ok(Outcome::Status(error()))
                } else {
                    Err(Error::ServerConfiguration)
                }
            },
            SampleHandler::Hello => {
                if args.len() == 1 {
                    let mut args = args;
                    match args.remove(0) {
                        Extracted::Query(q) => {
                            if q.0.len() >= 1 {
                                Ok(Outcome::JsonBody(hello(q)))
                            } else {
                                Err(Error::ServerConfiguration)
                            }
                        },
                        _ => Err(Error::ServerConfiguration),
                    }
                } else {
                    Err(Error::ServerConfiguration)
                }
            },
            SampleHandler::GetUser => {
                if args.len() == 1 {
                    let mut args = args;
                    match args.remove(0) {
                        Extracted::Path(p) => Ok(Outcome::JsonBody(get_user(p))),
                        _ => Err(Error::ServerConfiguration),
                    }
                } else {
                    Err(Error::ServerConfiguration)
                }
            },
            SampleHandler::Raw => {
                if args.len() == 1 {
                    let mut args = args;
                    match args.remove(0) {
                        Extracted::Whole(req) => Ok(Outcome::Status(raw(req))),
                        _ => Err(Error::ServerConfiguration),
                    }
                } else {
                    Err(Error::ServerConfiguration)
                }
            },
            SampleHandler::Original => {
                if args.len() == 1 {
                    let mut args = args;
                    match args.remove(0) {
                        Extracted::Whole(req) => match original(req) {
                            Ok(c) => Ok(Outcome::Status(c)),
                            Err(e) => Err(e),
                        },
                        _ => Err(Error::ServerConfiguration),
                    }
                } else {
                    Err(Error::ServerConfiguration)
                }
            },
        }
    }
}

} // verus!
