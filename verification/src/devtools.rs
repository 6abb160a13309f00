//! Modeling the devtools network-event actor's message data.
//!
//! The actor records one HTTP request and response as plain values and
//! builds the messages the remote console protocol expects.  Reading from
//! and writing to the console's socket stays outside the library; the
//! decisions and the message contents are made here.

use vstd::prelude::*;
use vstd::string::{StrSliceExecFns, StringSliceAdditionalSpecFns};

verus! {

/// One recorded HTTP request.
pub struct HttpRequest {
    pub url: String,
    pub method: String,
    pub body: Option<Vec<u8>>,
}

/// One recorded HTTP response.
pub struct HttpResponse {
    pub status_code: Option<u32>,
    pub status_text: Option<String>,
    pub body: Option<Vec<u8>>,
}

/// The actor state for one network event.
pub struct NetworkEventActor {
    pub name: String,
    pub request: HttpRequest,
    pub response: HttpResponse,
}

/// The console message announcing a network event.
#[allow(non_snake_case)]
pub struct EventActor {
    pub actor: String,
    pub url: String,
    pub method: String,
    pub startedDateTime: String,
    pub isXHR: bool,
    pub private: bool,
}

/// The console message carrying the start of a response.
#[allow(non_snake_case)]
pub struct ResponseStartMsg {
    pub httpVersion: String,
    pub remoteAddress: String,
    pub remotePort: u32,
    pub status: String,
    pub statusText: String,
    pub headersSize: u32,
    pub discardResponseBody: bool,
}

/// The reply to a request-headers query.
#[allow(non_snake_case)]
pub struct GetRequestHeadersReply {
    pub from: String,
    pub headers: Vec<String>,
    pub headerSize: u8,
    pub rawHeaders: String,
}

/// How the actor answered one console message.
pub enum ActorMessageStatus {
    Processed,
    Ignored,
}

impl NetworkEventActor {
    /// A fresh actor with an empty request and response.
    pub fn new(name: String) -> (r: NetworkEventActor)
        ensures
            r.name@ == name@,
            r.request.url@ == ""@,
            r.request.method@ == "GET"@,
            r.request.body is None,
            r.response.status_code is None,
            r.response.status_text is None,
            r.response.body is None,
    {
        NetworkEventActor {
            name,
            request: HttpRequest {
                url: "".to_owned(),
                method: "GET".to_owned(),
                body: None,
            },
            response: HttpResponse { status_code: None, status_text: None, body: None },
        }
    }

    /// The actor's registered name.
    pub fn name(&self) -> (r: String)
        ensures
            r@ == self.name@,
    {
        self.name.as_str().to_owned()
    }

    /// Record the request.
    pub fn add_request(&mut self, url: String, method: String, body: Option<Vec<u8>>)
        ensures
            final(self).request.url == url,
            final(self).request.method == method,
            final(self).request.body == body,
            final(self).name == old(self).name,
            final(self).response == old(self).response,
    {
        self.request.url = url;
        self.request.method = method;
        self.request.body = body;
    }

    /// Record the response.
    pub fn add_response(
        &mut self,
        status_code: Option<u32>,
        status_text: Option<String>,
        body: Option<Vec<u8>>,
    )
        ensures
            final(self).response.status_code == status_code,
            final(self).response.status_text == status_text,
            final(self).response.body == body,
            final(self).name == old(self).name,
            final(self).request == old(self).request,
    {
        self.response.status_code = status_code;
        self.response.status_text = status_text;
        self.response.body = body;
    }

    /// The network-event announcement for this actor.
    pub fn event_actor(&self) -> (r: EventActor)
        ensures
            r.actor@ == self.name@,
            r.url@ == self.request.url@,
            r.method@ == self.request.method@,
            r.startedDateTime@ == "2015-04-22T20:47:08.545Z"@,
            !r.isXHR,
            !r.private,
    {
        EventActor {
            actor: self.name.as_str().to_owned(),
            url: self.request.url.as_str().to_owned(),
            method: self.request.method.as_str().to_owned(),
            startedDateTime: "2015-04-22T20:47:08.545Z".to_owned(),
            isXHR: false,
            private: false,
        }
    }

    /// The placeholder response-start message.
    pub fn response_start(&self) -> (r: ResponseStartMsg)
        ensures
            r.httpVersion@ == "HTTP/1.1"@,
            r.remoteAddress@ == "63.245.217.43"@,
            r.remotePort == 443,
            r.status@ == "200"@,
            r.statusText@ == "OK"@,
            r.headersSize == 337,
            r.discardResponseBody,
    {
        ResponseStartMsg {
            httpVersion: "HTTP/1.1".to_owned(),
            remoteAddress: "63.245.217.43".to_owned(),
            remotePort: 443,
            status: "200".to_owned(),
            statusText: "OK".to_owned(),
            headersSize: 337,
            discardResponseBody: true,
        }
    }

    /// Decide one console message: a request-headers query is answered with
    /// a reply packet, everything else is ignored.
    pub fn handle_message(&self, msg_type: &str) -> (r: (
        ActorMessageStatus,
        Option<GetRequestHeadersReply>,
    ))
        ensures
            msg_type.spec_bytes() == "getRequestHeaders".spec_bytes() ==> (r.0 is Processed && (
            r.1 matches Some(m) && m.from@ == self.name@ && m.headers@.len() == 0 && m.headerSize
                == 10 && m.rawHeaders@ == "Raw headers"@)),
            msg_type.spec_bytes() != "getRequestHeaders".spec_bytes() ==> (r.0 is Ignored
                && r.1 is None),
    {
        let mb = msg_type.as_bytes_vec();
        let kb = "getRequestHeaders".as_bytes_vec();
        if crate::bytes::bytes_eq(&mb, &kb) {
            let reply = GetRequestHeadersReply {
                from: self.name.as_str().to_owned(),
                headers: Vec::new(),
                headerSize: 10,
                rawHeaders: "Raw headers".to_owned(),
            };
            (ActorMessageStatus::Processed, Some(reply))
        } else {
            (ActorMessageStatus::Ignored, None)
        }
    }
}

} // verus!
