use vstd::prelude::*;
use vstd::seq_lib::*;
use vstd::string::StringExecFns;
use crate::limiter::{admitted, times_after, RateLimiter};

verus! {

/// Status the proxy answers when a request cannot be parsed.
pub const STATUS_BAD_REQUEST: u16 = 400;

/// Status the proxy answers when a request body is over the codec's cap.
pub const STATUS_PAYLOAD_TOO_LARGE: u16 = 413;

/// Status the proxy answers when the rate limiter rejects a request.
pub const STATUS_TOO_MANY_REQUESTS: u16 = 429;

/// Status the proxy answers when no upstream can serve the connection.
pub const STATUS_BAD_GATEWAY: u16 = 502;

/// A parsed HTTP request as the proxy core sees it: the wire codec turns the
/// byte stream into this and back.
pub struct Request {
    pub method: String,
    pub target: String,
    pub headers: Vec<(String, String)>,
    pub body: Vec<u8>,
}

/// A parsed HTTP response, relayed to the client unmodified.
pub struct Response {
    pub status: u16,
    pub headers: Vec<(String, String)>,
    pub body: Vec<u8>,
}

/// The distinct ways the wire codec reports a failed request read.
pub enum RequestError {
    /// Fewer bytes than one full request; the count says how many arrived,
    /// so zero means the client closed cleanly between requests.
    Incomplete { bytes: usize },
    /// The bytes do not parse as a request.
    Malformed,
    /// The Content-Length header does not parse as a number.
    InvalidContentLength,
    /// The body's length does not match the Content-Length header.
    ContentLengthMismatch,
    /// The body is over the codec's size cap.
    BodyTooLarge,
    /// The client's stream itself failed.
    Connection,
}

/// What the handler does about a failed request read.
pub enum RequestAction {
    /// Shut the connection down silently.
    Close,
    /// Answer this status and keep the connection open for the next request.
    Respond { status: u16 },
}

/// The header list as pairs of character sequences.
pub open spec fn hview(h: Seq<(String, String)>) -> Seq<(Seq<char>, Seq<char>)> {
    h.map_values(|p: (String, String)| (p.0@, p.1@))
}

/// The names of a header list, in order.
pub open spec fn names_of(h: Seq<(Seq<char>, Seq<char>)>) -> Seq<Seq<char>> {
    h.map_values(|p: (Seq<char>, Seq<char>)| p.0)
}

/// The separator a header append splices in.
pub open spec fn comma_space() -> Seq<char> {
    seq![',', ' ']
}

/// The header recording each hop's client address.
pub open spec fn forwarded_for_name() -> Seq<char> {
    "x-forwarded-for"@
}

/// A header list after appending `v` under `name`: the first header of that
/// name grows by a comma, a space and `v` — prior hops' values are kept, not
/// overwritten — and a missing header is created with `v` alone.
pub open spec fn append_header_value(
    h: Seq<(Seq<char>, Seq<char>)>,
    name: Seq<char>,
    v: Seq<char>,
) -> Seq<(Seq<char>, Seq<char>)> {
    match names_of(h).index_of_first(name) {
        Some(i) => h.update(i, (h[i].0, h[i].1 + comma_space() + v)),
        None => h.push((name, v)),
    }
}

/// Index of the first header named `name`, if any.
fn find_header(h: &Vec<(String, String)>, name: &String) -> (r: Option<usize>)
    ensures
        (r matches Some(i) ==> {
            &&& 0 <= i < h@.len()
            &&& h@[i as int].0@ == name@
            &&& forall|j: int| 0 <= j < i ==> h@[j].0@ != name@
        }),
        r is None ==> forall|j: int| 0 <= j < h@.len() ==> h@[j].0@ != name@,
{
    let mut i: usize = 0;
    while i < h.len()
        invariant
            i <= h.len(),
            forall|j: int| 0 <= j < i ==> h@[j].0@ != name@,
        decreases h.len() - i,
    {
        if h[i].0.eq(name) {
            return Some(i);
        }
        i += 1;
    }
    None
}

impl Request {
    /// Append `value` to the request header `name`, preserving any prior
    /// hop's value; the method, target and body stay as they were.
    pub fn extend_header_value(&mut self, name: &str, value: &str)
        ensures
            final(self).method == old(self).method,
            final(self).target == old(self).target,
            final(self).body == old(self).body,
            hview(final(self).headers@) == append_header_value(
                hview(old(self).headers@),
                name@,
                value@,
            ),
    {
        let ghost h0 = hview(old(self).headers@);
        let name_string: String = name.to_owned();
        let n = self.headers.len();
        let found = find_header(&self.headers, &name_string);
        let i = match found {
            Some(k) => k,
            None => n,
        };
        proof {
            if found is Some {
                assert(hview(self.headers@)[i as int].0 == name@);
            }
            assert forall|j: int| 0 <= j < i implies hview(self.headers@)[j].0 != name@ by {
                assert(hview(self.headers@)[j].0 == self.headers@[j].0@);
            }
        }
        proof {
            names_of(h0).index_of_first_ensures(name@);
        }
        if i < n {
            proof {
                assert(names_of(h0)[i as int] == name@);
                assert forall|j: int| 0 <= j < i implies names_of(h0)[j] != name@ by {}
                assert(names_of(h0).index_of_first(name@) == Some(i as int)) by {
                    match names_of(h0).index_of_first(name@) {
                        Some(k) => {
                            if k < i {
                                assert(names_of(h0)[k] == name@);
                            } else if k > i {
                                assert(names_of(h0)[i as int] != name@);
                            }
                        },
                        None => {
                            assert(names_of(h0).contains(names_of(h0)[i as int]));
                        },
                    }
                }
            }
            let key = self.headers[i].0.clone();
            let mut nv = self.headers[i].1.clone();
            nv.append(", ");
            nv.append(value);
            proof {
                reveal_strlit(", ");
                assert(nv@ == old(self).headers@[i as int].1@ + comma_space() + value@);
            }
            self.headers[i] = (key, nv);
            proof {
                assert(hview(self.headers@) =~= h0.update(
                    i as int,
                    (h0[i as int].0, h0[i as int].1 + comma_space() + value@),
                ));
            }
        } else {
            proof {
                assert(names_of(h0).index_of_first(name@) is None) by {
                    if names_of(h0).contains(name@) {
                        let k = choose|k: int|
                            0 <= k < names_of(h0).len() && names_of(h0)[k] == name@;
                        assert(hview(old(self).headers@)[k].0 == name@);
                    }
                }
            }
            self.headers.push((name.to_owned(), value.to_owned()));
            proof {
                assert(hview(self.headers@) =~= h0.push((name@, value@)));
            }
        }
    }
}

/// How the handler answers each way a request read can fail: a clean close
/// or a broken client stream ends the connection silently; a too-large body
/// is answered 413 and every other parse failure 400, with the connection
/// kept open.
pub open spec fn read_error_action(e: RequestError) -> RequestAction {
    match e {
        RequestError::Incomplete { bytes } => if bytes == 0 {
            RequestAction::Close
        } else {
            RequestAction::Respond { status: STATUS_BAD_REQUEST as u16 }
        },
        RequestError::Malformed => RequestAction::Respond { status: STATUS_BAD_REQUEST as u16 },
        RequestError::InvalidContentLength => RequestAction::Respond {
            status: STATUS_BAD_REQUEST as u16,
        },
        RequestError::ContentLengthMismatch => RequestAction::Respond {
            status: STATUS_BAD_REQUEST as u16,
        },
        RequestError::BodyTooLarge => RequestAction::Respond {
            status: STATUS_PAYLOAD_TOO_LARGE as u16,
        },
        RequestError::Connection => RequestAction::Close,
    }
}

/// Runtime form of `read_error_action`.
pub fn classify_read_error(e: &RequestError) -> (a: RequestAction)
    ensures
        a == read_error_action(*e),
{
    match e {
        RequestError::Incomplete { bytes } => {
            if *bytes == 0 {
                RequestAction::Close
            } else {
                RequestAction::Respond { status: STATUS_BAD_REQUEST }
            }
        },
        RequestError::Malformed => RequestAction::Respond { status: STATUS_BAD_REQUEST },
        RequestError::InvalidContentLength => RequestAction::Respond { status: STATUS_BAD_REQUEST },
        RequestError::ContentLengthMismatch => RequestAction::Respond {
            status: STATUS_BAD_REQUEST,
        },
        RequestError::BodyTooLarge => RequestAction::Respond { status: STATUS_PAYLOAD_TOO_LARGE },
        RequestError::Connection => RequestAction::Close,
    }
}

/// What one iteration of the per-connection loop does with the request it
/// read (or failed to read).
pub enum RequestDecision {
    /// Shut the client connection down silently.
    Close,
    /// Answer this status and continue with the next request.
    Reject { status: u16 },
    /// Send this request — forwarded-for header extended with the client's
    /// IP — over the connection's established upstream.
    Forward { request: Request },
}

/// Drive one request of the Active state: classify a failed read, apply the
/// rate limiter to a parsed request, and stamp the client's IP into the
/// forwarded-for header of whatever is forwarded.
pub fn handle_request_read(
    outcome: Result<Request, RequestError>,
    limiter: &mut RateLimiter,
    client_ip: &String,
    now: u64,
) -> (d: RequestDecision)
    requires
        old(limiter).wf(),
    ensures
        final(limiter).wf(),
        final(limiter).limit == old(limiter).limit,
        (outcome matches Err(e) ==> {
            &&& *final(limiter) == *old(limiter)
            &&& (read_error_action(e) is Close ==> d is Close)
            &&& (read_error_action(e) matches RequestAction::Respond { status } ==> d == (
            RequestDecision::Reject { status }))
        }),
        (outcome matches Ok(req) ==> {
            &&& (old(limiter).limit == 0 ==> *final(limiter) == *old(limiter))
            &&& (old(limiter).limit > 0 ==> {
                &&& final(limiter).times_of(client_ip@) == times_after(
                    old(limiter).times_of(client_ip@),
                    old(limiter).limit as int,
                    now,
                )
                &&& forall|x: Seq<char>|
                    x != client_ip@ ==> final(limiter).times_of(x) == old(limiter).times_of(x)
            })
            &&& (old(limiter).limit > 0 && !admitted(
                old(limiter).times_of(client_ip@),
                old(limiter).limit as int,
                now,
            ) ==> d == (RequestDecision::Reject { status: STATUS_TOO_MANY_REQUESTS as u16 }))
            &&& ((old(limiter).limit == 0 || admitted(
                old(limiter).times_of(client_ip@),
                old(limiter).limit as int,
                now,
            )) ==> {
                &&& d is Forward
                &&& (d matches RequestDecision::Forward { request: fwd } ==> {
                    &&& fwd.method == req.method
                    &&& fwd.target == req.target
                    &&& fwd.body == req.body
                    &&& hview(fwd.headers@) == append_header_value(
                        hview(req.headers@),
                        forwarded_for_name(),
                        client_ip@,
                    )
                })
            })
        }),
{
    match outcome {
        Err(e) => {
            match classify_read_error(&e) {
                RequestAction::Close => RequestDecision::Close,
                RequestAction::Respond { status } => RequestDecision::Reject { status },
            }
        },
        Ok(mut req) => {
            if limiter.limit != 0 {
                let ok = limiter.allow(client_ip, now);
                if !ok {
                    return RequestDecision::Reject { status: STATUS_TOO_MANY_REQUESTS };
                }
            }
            req.extend_header_value("x-forwarded-for", client_ip.as_str());
            proof {
                assert("x-forwarded-for"@ == forwarded_for_name());
            }
            RequestDecision::Forward { request: req }
        },
    }
}

/// What came of the upstream exchange for one forwarded request.
pub enum UpstreamEvent {
    /// The forward could not be written to the upstream.
    WriteFailed,
    /// The upstream's response could not be read or parsed.
    ReadFailed,
    /// The upstream answered.
    Response { response: Response },
}

/// The handler's answer to the upstream exchange.
pub enum RelayDecision {
    /// Answer the client this status and terminate the whole connection: the
    /// handler never re-selects an upstream mid-connection.
    FailClose { status: u16 },
    /// Relay the response to the client unmodified and continue the loop.
    Relay { response: Response },
}

/// After the forward: any failure against the established upstream is
/// answered 502 and ends the client connection; a response is relayed as is.
pub fn handle_upstream_result(ev: UpstreamEvent) -> (d: RelayDecision)
    ensures
        ev is WriteFailed ==> d == (RelayDecision::FailClose { status: STATUS_BAD_GATEWAY as u16 }),
        ev is ReadFailed ==> d == (RelayDecision::FailClose { status: STATUS_BAD_GATEWAY as u16 }),
        (ev matches UpstreamEvent::Response { response } ==> d == (RelayDecision::Relay {
            response,
        })),
{
    match ev {
        UpstreamEvent::WriteFailed => RelayDecision::FailClose { status: STATUS_BAD_GATEWAY },
        UpstreamEvent::ReadFailed => RelayDecision::FailClose { status: STATUS_BAD_GATEWAY },
        UpstreamEvent::Response { response } => RelayDecision::Relay { response },
    }
}

} // verus!
