use vstd::prelude::*;
use vstd::string::StrSliceExecFns;
use vstd::utf8::encode_utf8;
use crate::error::Error;
use crate::json::{JsonObject, JsonValueView, wf_object, render_object, to_json_bytes};

verus! {

/// The media kind a response declares for its body.
#[derive(Clone, Copy, Debug, PartialEq, Eq, Structural)]
pub enum ContentType {
    Unset,
    PlainText,
    Json,
}

/// The mathematical model of a [`Response`].
pub struct ResponseView {
    pub status: u16,
    pub body: Seq<u8>,
    pub content_type: ContentType,
}

/// The wire response handed back to the host: a status code, body bytes,
/// and the media kind of the body.
#[derive(Debug, PartialEq, Eq)]
pub struct Response {
    pub status: u16,
    pub body: Vec<u8>,
    pub content_type: ContentType,
}

impl View for Response {
    type V = ResponseView;

    open spec fn view(&self) -> ResponseView {
        ResponseView { status: self.status, body: self.body@, content_type: self.content_type }
    }
}

impl Response {
    /// A bodyless response carrying only a status code.
    pub fn of_status(status: u16) -> (r: Response)
        ensures
            r@ == (ResponseView { status, body: Seq::<u8>::empty(), content_type: ContentType::Unset }),
    {
        let r = Response { status, body: Vec::new(), content_type: ContentType::Unset };
        r
    }
}

/// Anything fallibly convertible into the wire response: the return-value
/// protocol every handler's result goes through.
pub trait IntoResponse: Sized {
    /// What the conversion yields, as a function of the value.
    spec fn spec_into_response(self) -> Result<ResponseView, Error>;

    fn into_response(self) -> (r: Result<Response, Error>)
        ensures
            match r {
                Ok(resp) => self.spec_into_response() == Ok::<ResponseView, Error>(resp@),
                Err(e) => self.spec_into_response() == Err::<ResponseView, Error>(e),
            },
    ;
}

/// A plain string becomes a `200` text response.
impl IntoResponse for String {
    open spec fn spec_into_response(self) -> Result<ResponseView, Error> {
        Ok(
            ResponseView {
                status: 200,
                body: encode_utf8(self@),
                content_type: ContentType::PlainText,
            },
        )
    }

    fn into_response(self) -> (r: Result<Response, Error>) {
        let body = self.as_str().as_bytes_vec();
        Ok(Response { status: 200, body, content_type: ContentType::PlainText })
    }
}

/// A bare number is a status marker: a bodyless response with that code.
impl IntoResponse for u16 {
    open spec fn spec_into_response(self) -> Result<ResponseView, Error> {
        Ok(
            ResponseView {
                status: self,
                body: Seq::<u8>::empty(),
                content_type: ContentType::Unset,
            },
        )
    }

    fn into_response(self) -> (r: Result<Response, Error>) {
        Ok(Response::of_status(self))
    }
}

/// The structured JSON wrapper: serializes its object to a JSON body with
/// status `200` and a JSON content type, failing only if serialization
/// itself fails — a programmer error, not a client error.
pub struct Json(pub JsonObject);

impl IntoResponse for Json {
    open spec fn spec_into_response(self) -> Result<ResponseView, Error> {
        if wf_object(self.0@) {
            Ok(
                ResponseView {
                    status: 200,
                    body: render_object(self.0@),
                    content_type: ContentType::Json,
                },
            )
        } else {
            Err(Error::Conversion)
        }
    }

    fn into_response(self) -> (r: Result<Response, Error>) {
        match to_json_bytes(&self.0) {
            Ok(body) => Ok(Response { status: 200, body, content_type: ContentType::Json }),
            Err(e) => Err(e),
        }
    }
}

/// A ready-made response passes through unchanged.
impl IntoResponse for Response {
    open spec fn spec_into_response(self) -> Result<ResponseView, Error> {
        Ok(self@)
    }

    fn into_response(self) -> (r: Result<Response, Error>) {
        Ok(self)
    }
}

/// The view of an [`Outcome`].
pub enum OutcomeView {
    Text(Seq<char>),
    Status(u16),
    JsonBody(Seq<(Seq<char>, JsonValueView)>),
    Raw(ResponseView),
}

/// The return shapes a handler can take without writing its own
/// conversion: plain text, a status marker, the JSON wrapper, or a
/// ready-made response.
pub enum Outcome {
    Text(String),
    Status(u16),
    JsonBody(Json),
    Raw(Response),
}

impl View for Outcome {
    type V = OutcomeView;

    open spec fn view(&self) -> OutcomeView {
        match self {
            Outcome::Text(s) => OutcomeView::Text(s@),
            Outcome::Status(c) => OutcomeView::Status(*c),
            Outcome::JsonBody(j) => OutcomeView::JsonBody(j.0@),
            Outcome::Raw(resp) => OutcomeView::Raw(resp@),
        }
    }
}

/// What converting an outcome yields, stated over its view.
pub open spec fn outcome_response(o: OutcomeView) -> Result<ResponseView, Error> {
    match o {
        OutcomeView::Text(s) => Ok(
            ResponseView { status: 200, body: encode_utf8(s), content_type: ContentType::PlainText },
        ),
        OutcomeView::Status(c) => Ok(
            ResponseView { status: c, body: Seq::<u8>::empty(), content_type: ContentType::Unset },
        ),
        OutcomeView::JsonBody(ob) => if wf_object(ob) {
            Ok(ResponseView { status: 200, body: render_object(ob), content_type: ContentType::Json })
        } else {
            Err(Error::Conversion)
        },
        OutcomeView::Raw(resp) => Ok(resp),
    }
}

impl IntoResponse for Outcome {
    open spec fn spec_into_response(self) -> Result<ResponseView, Error> {
        outcome_response(self@)
    }

    fn into_response(self) -> (r: Result<Response, Error>) {
        match self {
            Outcome::Text(s) => s.into_response(),
            Outcome::Status(c) => c.into_response(),
            Outcome::JsonBody(j) => j.into_response(),
            Outcome::Raw(resp) => resp.into_response(),
        }
    }
}

} // verus!
