//! The resolution of one player page, as a state machine.
//!
//! Resolving a page alternates network work with decisions. The decisions
//! stand here: each step takes what the network gave (a page, a player
//! script, the endpoint's answer) and says what to request next. The caller
//! performs the requests and holds the two caches that resolutions share.
use vstd::prelude::*;
use vstd::string::StringExecFns;

use crate::decoder::{decode_links, links_decoded, ShiftCache};
use crate::error::Error;
use crate::parser::{
    extract_player_url, extract_video_info, first_ajax_endpoint, first_player_path, form_of,
    get_api_endpoint, get_domain, identity_of, VideoInfo,
};
use crate::scraper::KodikResponse;

verus! {

/// The endpoint that link requests go to, once discovered; empty until then.
pub struct EndpointCache {
    endpoint: String,
}

impl View for EndpointCache {
    type V = Seq<char>;

    closed spec fn view(&self) -> Seq<char> {
        self.endpoint@
    }
}

impl EndpointCache {
    /// A cache that holds no endpoint.
    pub fn new() -> (r: EndpointCache)
        ensures
            r@.len() == 0,
    {
        EndpointCache { endpoint: String::new() }
    }

    /// The endpoint held, if one is.
    pub fn try_read(&self) -> (r: Option<String>)
        ensures
            match r {
                Some(e) => self@.len() > 0 && e@ == self@,
                None => self@.len() == 0,
            },
    {
        if self.endpoint.as_str().is_empty() {
            None
        } else {
            Some(self.endpoint.clone())
        }
    }

    /// Holds `endpoint` from now on. An endpoint is never empty, so a cache
    /// that holds one is never emptied again.
    pub fn store(&mut self, endpoint: String)
        requires
            endpoint@.len() > 0,
        ensures
            final(self)@ == endpoint@,
    {
        self.endpoint = endpoint;
    }
}

/// A form to post to the link endpoint.
pub struct Submission {
    /// The address of the endpoint: `https://<domain><endpoint>`.
    pub url: String,
    /// The value of the `Origin` and `Referer` headers: `https://<domain>`.
    pub origin: String,
    /// The form fields, in order.
    pub form: Vec<(String, String)>,
}

/// What the caller has to do next.
pub enum Request {
    /// Fetch the text at this address.
    Fetch(String),
    /// Post this form and hand back the decoded answer.
    Submit(Submission),
}

/// How far a resolution has come.
#[derive(Debug, Clone, Copy, PartialEq, Eq, Structural)]
pub enum Phase {
    /// Waiting for the text of the player page.
    AwaitingPage,
    /// Waiting for the text of the player script.
    AwaitingPlayerScript,
    /// Waiting for the link endpoint's answer.
    AwaitingLinks,
    /// Finished, with a result or an error; nothing more is accepted.
    Done,
}

/// What a resolution is handed.
#[derive(Debug, Clone, Copy, PartialEq, Eq, Structural)]
pub enum Event {
    /// The text of the player page.
    Page,
    /// The text of the player script.
    PlayerScript,
    /// The link endpoint's answer.
    Links,
}

/// Whether a resolution in phase `p` accepts event `e`.
pub open spec fn accepts(p: Phase, e: Event) -> bool {
    ||| p == Phase::AwaitingPage && e == Event::Page
    ||| p == Phase::AwaitingPlayerScript && e == Event::PlayerScript
    ||| p == Phase::AwaitingLinks && e == Event::Links
}

/// The phase after event `e`, where `cached` tells whether the endpoint was
/// known and `ok` whether the step succeeded.
pub open spec fn after(e: Event, cached: bool, ok: bool) -> Phase {
    if !ok {
        Phase::Done
    } else {
        match e {
            Event::Page => if cached {
                Phase::AwaitingLinks
            } else {
                Phase::AwaitingPlayerScript
            },
            Event::PlayerScript => Phase::AwaitingLinks,
            Event::Links => Phase::Done,
        }
    }
}

/// The number of times links are decoded in a run of events from phase `p`,
/// each event with whether the endpoint was known and whether the step
/// succeeded. The run stops at the first event that is not accepted.
pub open spec fn decodings(p: Phase, events: Seq<(Event, bool, bool)>) -> nat
    decreases events.len(),
{
    if events.len() == 0 || !accepts(p, events[0].0) {
        0
    } else {
        (if events[0].0 == Event::Links {
            1nat
        } else {
            0nat
        }) + decodings(after(events[0].0, events[0].1, events[0].2), events.drop_first())
    }
}

proof fn lemma_decodings_bound(p: Phase, events: Seq<(Event, bool, bool)>)
    ensures
        decodings(p, events) <= (if p == Phase::Done {
            0nat
        } else {
            1nat
        }),
    decreases events.len(),
{
    if events.len() > 0 && accepts(p, events[0].0) {
        let next = after(events[0].0, events[0].1, events[0].2);
        lemma_decodings_bound(next, events.drop_first());
    }
}

/// A resolution decodes the links at most once, whatever happens: only a
/// resolution waiting for the endpoint's answer decodes, and decoding ends it.
pub proof fn lemma_decodes_once(events: Seq<(Event, bool, bool)>)
    ensures
        decodings(Phase::AwaitingPage, events) <= 1,
{
    lemma_decodings_bound(Phase::AwaitingPage, events);
}

/// The resolution of one player page.
pub struct Resolution {
    phase: Phase,
    domain: String,
    info: Option<VideoInfo>,
}

impl Resolution {
    /// Well-formedness: past the page, the identity of the video is known.
    pub closed spec fn wf(&self) -> bool {
        self.phase == Phase::AwaitingPlayerScript || self.phase == Phase::AwaitingLinks ==> self.info is Some
    }

    /// How far the resolution has come.
    pub closed spec fn spec_phase(&self) -> Phase {
        self.phase
    }

    /// The host name of the page.
    pub closed spec fn spec_domain(&self) -> Seq<char> {
        self.domain@
    }

    /// The identity of the video, once the page was read.
    pub closed spec fn spec_info(&self) -> (Seq<char>, Seq<char>, Seq<char>) {
        self.info->0@
    }

    /// How far the resolution has come.
    pub fn phase(&self) -> (r: Phase)
        ensures
            r == self.spec_phase(),
    {
        self.phase
    }

    /// Starts resolving the page at `url`: its host name is taken from the
    /// address, and the page itself is to be fetched.
    pub fn start(url: &str) -> (r: Result<(Resolution, Request), Error>)
        ensures
            match r {
                Ok((res, req)) => {
                    &&& res.wf()
                    &&& exists|i: int, j: int|
                        crate::parser::first_host(url@, i, j) && res.spec_domain() == url@.subrange(
                            i,
                            j,
                        )
                    &&& res.spec_phase() == Phase::AwaitingPage
                    &&& req is Fetch && req->Fetch_0@ == url@
                },
                Err(e) => e is NoDomainFound && forall|i: int, j: int|
                    !crate::parser::host_at(url@, i, j),
            },
    {
        match get_domain(url) {
            Ok(domain) => Ok(
                (
                    Resolution { phase: Phase::AwaitingPage, domain, info: None },
                    Request::Fetch(url.to_owned()),
                ),
            ),
            Err(e) => Err(e),
        }
    }

    /// The form that asks the endpoint `endpoint` for the links.
    fn submission(&self, endpoint: &str) -> (r: Submission)
        requires
            self.info is Some,
        ensures
            r.url@ == "https://"@ + self.spec_domain() + endpoint@,
            r.origin@ == "https://"@ + self.spec_domain(),
            r.form@.map_values(|p: (String, String)| (p.0@, p.1@)) == form_of(
                self.spec_info().0,
                self.spec_info().1,
                self.spec_info().2,
            ),
    {
        let mut origin = "https://".to_owned();
        origin.append(self.domain.as_str());
        let mut url = origin.clone();
        url.append(endpoint);
        let form = match &self.info {
            Some(info) => info.form_fields(),
            None => Vec::new(),
        };
        Submission { url, origin, form }
    }

    /// Takes the text of the player page. The identity of the video is read
    /// from it; then the links are to be requested if `endpoints` knows the
    /// endpoint, and the player script is to be fetched otherwise.
    pub fn on_page(&mut self, page_text: &str, endpoints: &EndpointCache) -> (r: Result<Request, Error>)
        requires
            old(self).wf(),
            old(self).spec_phase() == Phase::AwaitingPage,
        ensures
            final(self).wf(),
            final(self).spec_domain() == old(self).spec_domain(),
            final(self).spec_phase() == after(Event::Page, endpoints@.len() > 0, r is Ok),
            match identity_of(page_text@) {
                Err(f) => r is Err && r->Err_0 is MissingField && r->Err_0->MissingField_0 == f,
                Ok(v) => {
                    &&& final(self).spec_info() == v
                    &&& if endpoints@.len() > 0 {
                        &&& r is Ok && r->Ok_0 is Submit
                        &&& r->Ok_0->Submit_0.url@ == "https://"@ + old(self).spec_domain() + endpoints@
                        &&& r->Ok_0->Submit_0.origin@ == "https://"@ + old(self).spec_domain()
                        &&& r->Ok_0->Submit_0.form@.map_values(|p: (String, String)| (p.0@, p.1@))
                            == form_of(v.0, v.1, v.2)
                    } else {
                        match first_player_path(page_text@, 0) {
                            Some((c, e)) => r is Ok && r->Ok_0 is Fetch && r->Ok_0->Fetch_0@
                                == "https://"@ + old(self).spec_domain() + "/"@ + page_text@.subrange(
                                c,
                                e,
                            ),
                            None => r is Err && r->Err_0 is NoPlayerScript,
                        }
                    }
                },
            },
    {
        let info = match extract_video_info(page_text) {
            Ok(info) => info,
            Err(e) => {
                self.phase = Phase::Done;
                return Err(e);
            },
        };
        self.info = Some(info);
        match endpoints.try_read() {
            Some(endpoint) => {
                self.phase = Phase::AwaitingLinks;
                Ok(Request::Submit(self.submission(endpoint.as_str())))
            },
            None => match extract_player_url(self.domain.as_str(), page_text) {
                Ok(player_url) => {
                    self.phase = Phase::AwaitingPlayerScript;
                    Ok(Request::Fetch(player_url))
                },
                Err(e) => {
                    self.phase = Phase::Done;
                    Err(e)
                },
            },
        }
    }

    /// Takes the text of the player script. The endpoint is decoded from it
    /// and stored in `endpoints`; then the links are to be requested. A
    /// marker whose text decodes to nothing counts as no marker.
    pub fn on_player_script(&mut self, script_text: &str, endpoints: &mut EndpointCache) -> (r: Result<
        Request,
        Error,
    >)
        requires
            old(self).wf(),
            old(self).spec_phase() == Phase::AwaitingPlayerScript,
        ensures
            final(self).wf(),
            final(self).spec_domain() == old(self).spec_domain(),
            final(self).spec_info() == old(self).spec_info(),
            final(self).spec_phase() == after(Event::PlayerScript, false, r is Ok),
            match first_ajax_endpoint(script_text@, 0) {
                None => r is Err && r->Err_0 is NoEndpointMarker && final(endpoints)@ == old(endpoints)@,
                Some((a, b)) => match crate::decoder::base64_text(script_text@.subrange(a, b)) {
                    Some(endpoint) => if endpoint.len() == 0 {
                        r is Err && r->Err_0 is NoEndpointMarker && final(endpoints)@ == old(endpoints)@
                    } else {
                        &&& final(endpoints)@ == endpoint
                        &&& r is Ok && r->Ok_0 is Submit
                        &&& r->Ok_0->Submit_0.url@ == "https://"@ + old(self).spec_domain() + endpoint
                        &&& r->Ok_0->Submit_0.origin@ == "https://"@ + old(self).spec_domain()
                        &&& r->Ok_0->Submit_0.form@.map_values(|p: (String, String)| (p.0@, p.1@))
                            == form_of(old(self).spec_info().0, old(self).spec_info().1, old(self).spec_info().2)
                    },
                    None => r is Err && (r->Err_0 is Decode || r->Err_0 is FromUtf8)
                        && final(endpoints)@ == old(endpoints)@,
                },
            },
    {
        match get_api_endpoint(script_text) {
            Ok(endpoint) => {
                if endpoint.as_str().is_empty() {
                    self.phase = Phase::Done;
                    return Err(Error::NoEndpointMarker);
                }
                let req = self.submission(endpoint.as_str());
                endpoints.store(endpoint);
                self.phase = Phase::AwaitingLinks;
                Ok(Request::Submit(req))
            },
            Err(e) => {
                self.phase = Phase::Done;
                Err(e)
            },
        }
    }

    /// Takes the endpoint's answer and decodes its links in place, with
    /// `shifts` holding the rotation; the resolution is then done.
    pub fn on_links(&mut self, response: &mut KodikResponse, shifts: &mut ShiftCache) -> (r: Result<(), Error>)
        requires
            old(self).wf(),
            old(self).spec_phase() == Phase::AwaitingLinks,
        ensures
            final(self).wf(),
            final(self).spec_phase() == after(Event::Links, false, r is Ok),
            final(self).spec_phase() == Phase::Done,
            links_decoded(old(shifts)@, *old(response), final(shifts)@, *final(response), r),
    {
        let r = decode_links(response, shifts);
        self.phase = Phase::Done;
        r
    }
}

} // verus!
