//! One command session over the paired HTTP exchanges.
//!
//! A session correlates two HTTP exchanges through one freshly minted
//! session identifier: a download exchange whose response body is the
//! server's frame stream, and an upload exchange whose request body is the
//! encoded command. The server accepts the pair only if the download
//! exchange is open before the upload exchange is sent; the state machine
//! here fixes that order, and a non-success status on either exchange is
//! fatal for the whole invocation.

use vstd::prelude::*;
use crate::auth::{base64_of, basic_auth_value, session_id};
use vstd::string::{StringExecFns, StringSliceAdditionalSpecFns};
use vstd::utf8::encode_utf8;

verus! {

/// The configuration of one server: endpoint, credentials, and an
/// optional outbound proxy.
pub struct Server {
    pub url: String,
    pub username: String,
    pub password: String,
    pub proxy: Option<String>,
}

/// A client bound to one server configuration.
pub struct Cli {
    pub cfg: Server,
}

impl Cli {
    /// A client for the given configuration.
    pub fn new(cfg: Server) -> (r: Cli)
        ensures
            r.cfg == cfg,
    {
        Cli { cfg }
    }
}

/// Which exchange of the pair a request belongs to.
#[derive(Clone, Copy, Debug, PartialEq, Eq, Structural)]
pub enum Side {
    Download,
    Upload,
}

impl Side {
    /// The value this side carries in the request header naming it.
    pub fn header_value(self) -> (r: &'static str)
        ensures
            self is Download ==> r@ == "download"@,
            self is Upload ==> r@ == "upload"@,
    {
        match self {
            Side::Download => "download",
            Side::Upload => "upload",
        }
    }
}

/// Everything one exchange's request is built from: the command endpoint,
/// the credentials, the correlating session identifier, the side, and the
/// body to send.
pub struct RequestPlan {
    pub url: String,
    pub username: String,
    pub password: String,
    pub session: String,
    pub side: Side,
    pub body: Vec<u8>,
    pub proxy: Option<String>,
}

/// The command endpoint of a server: its base URL followed by `/cli`.
pub fn cli_endpoint(cfg: &Server) -> (r: String)
    ensures
        r@ == cfg.url@ + "/cli"@,
{
    let mut r = String::from_str(cfg.url.as_str());
    r.append("/cli");
    r
}

/// The socket endpoint of a server: its base URL followed by `/cli/ws`.
pub fn ws_endpoint(cfg: &Server) -> (r: String)
    ensures
        r@ == cfg.url@ + "/cli/ws"@,
{
    let mut r = String::from_str(cfg.url.as_str());
    r.append("/cli/ws");
    r
}

/// The request of the download exchange: an empty body on the download
/// side of the given session.
pub fn download_request(cfg: &Server, session: &String) -> (r: RequestPlan)
    ensures
        r.url@ == cfg.url@ + "/cli"@,
        r.username@ == cfg.username@,
        r.password@ == cfg.password@,
        r.session@ == session@,
        r.side is Download,
        r.body@ == Seq::<u8>::empty(),
        r.proxy.deep_view() == cfg.proxy.deep_view(),
{
    let r = RequestPlan {
        url: cli_endpoint(cfg),
        username: String::from_str(cfg.username.as_str()),
        password: String::from_str(cfg.password.as_str()),
        session: String::from_str(session.as_str()),
        side: Side::Download,
        body: Vec::new(),
        proxy: clone_proxy(&cfg.proxy),
    };
    assert(r.body@ =~= Seq::<u8>::empty());
    r
}

/// The request of the upload exchange: the encoded command as its body,
/// on the upload side of the same session.
pub fn upload_request(cfg: &Server, session: &String, body: Vec<u8>) -> (r: RequestPlan)
    ensures
        r.url@ == cfg.url@ + "/cli"@,
        r.username@ == cfg.username@,
        r.password@ == cfg.password@,
        r.session@ == session@,
        r.side is Upload,
        r.body@ == body@,
        r.proxy.deep_view() == cfg.proxy.deep_view(),
{
    RequestPlan {
        url: cli_endpoint(cfg),
        username: String::from_str(cfg.username.as_str()),
        password: String::from_str(cfg.password.as_str()),
        session: String::from_str(session.as_str()),
        side: Side::Upload,
        body,
        proxy: clone_proxy(&cfg.proxy),
    }
}

/// A copy of an optional proxy address.
fn clone_proxy(p: &Option<String>) -> (r: Option<String>)
    ensures
        r.deep_view() == p.deep_view(),
{
    match p {
        Some(s) => Some(String::from_str(s.as_str())),
        None => None,
    }
}


/// The correlated pair of requests of one session: a fresh session
/// identifier is minted, and both exchanges carry it; the download side
/// has an empty body, the upload side carries the encoded command.
pub fn plan_exchanges(cfg: &Server, body: Vec<u8>) -> (r: (RequestPlan, RequestPlan))
    ensures
        r.0.side is Download,
        r.1.side is Upload,
        r.0.session@ == r.1.session@,
        r.0.session@.len() == 36,
        r.0.url@ == cfg.url@ + "/cli"@,
        r.1.url@ == cfg.url@ + "/cli"@,
        r.0.username@ == cfg.username@,
        r.1.username@ == cfg.username@,
        r.0.password@ == cfg.password@,
        r.1.password@ == cfg.password@,
        r.0.body@ == Seq::<u8>::empty(),
        r.1.body@ == body@,
        r.0.proxy.deep_view() == cfg.proxy.deep_view(),
        r.1.proxy.deep_view() == cfg.proxy.deep_view(),
{
    let session = session_id();
    let down = download_request(cfg, &session);
    let up = upload_request(cfg, &session, body);
    (down, up)
}

/// Everything the socket handshake request is built from: the socket
/// endpoint and the ready-made authorization header value.
pub struct HandshakePlan {
    pub url: String,
    pub authorization: String,
}

/// The handshake request of the socket transport: the socket endpoint of
/// the server, authorized with the same Basic credentials as the HTTP
/// exchanges.
pub fn handshake_plan(cfg: &Server) -> (r: HandshakePlan)
    requires
        encode_utf8(cfg.username@ + ":"@ + cfg.password@).len() <= usize::MAX / 4,
    ensures
        r.url@ == cfg.url@ + "/cli/ws"@,
        r.authorization@ == "Basic "@ + base64_of(encode_utf8(
            cfg.username@ + ":"@ + cfg.password@)),
{
    HandshakePlan {
        url: ws_endpoint(cfg),
        authorization: basic_auth_value(cfg.username.as_str(), cfg.password.as_str()),
    }
}

/// A successful HTTP status: the 2xx range.
pub open spec fn spec_status_success(s: u16) -> bool {
    200 <= s < 300
}

/// Whether an HTTP status is a success status.
pub fn status_is_success(s: u16) -> (r: bool)
    ensures
        r == spec_status_success(s),
{
    200 <= s && s < 300
}

/// Why a session failed.
#[derive(Clone, Copy, Debug, PartialEq, Eq, Structural)]
pub enum SessionError {
    /// The download exchange answered with a non-success status.
    Download(u16),
    /// The upload exchange answered with a non-success status.
    Upload(u16),
}

/// Where one session stands.
#[derive(Clone, Copy, Debug, PartialEq, Eq, Structural)]
pub enum Phase {
    /// Nothing has been done yet.
    Start,
    /// The download request is out; its status is awaited.
    AwaitingDownload,
    /// The download exchange is open; the upload request is out.
    AwaitingUpload,
    /// Both exchanges are accepted; the frame stream may be read.
    Established,
    /// The session failed; nothing more may be sent or read.
    Failed(SessionError),
}

/// What the driver reports to the state machine.
#[derive(Clone, Copy, Debug, PartialEq, Eq, Structural)]
pub enum SessionEvent {
    /// The session begins.
    Begin,
    /// The download exchange answered with this status.
    DownloadStatus(u16),
    /// The upload exchange answered with this status.
    UploadStatus(u16),
}

/// What the driver must do next.
#[derive(Clone, Copy, Debug, PartialEq, Eq, Structural)]
pub enum SessionAction {
    /// Issue the download request and report its status.
    OpenDownload,
    /// Issue the upload request and report its status.
    SendUpload,
    /// Read the download body; the session is established.
    ReadBody,
    /// Stop: the session failed or the event made no sense in this phase.
    Stop,
}

/// The transition table of one session: the download exchange is opened
/// first, and only its success lets the upload exchange be sent.
pub open spec fn spec_session_step(p: Phase, e: SessionEvent) -> (Phase, SessionAction) {
    match (p, e) {
        (Phase::Start, SessionEvent::Begin) => (Phase::AwaitingDownload, SessionAction::OpenDownload),
        (Phase::AwaitingDownload, SessionEvent::DownloadStatus(s)) => {
            if spec_status_success(s) {
                (Phase::AwaitingUpload, SessionAction::SendUpload)
            } else {
                (Phase::Failed(SessionError::Download(s)), SessionAction::Stop)
            }
        },
        (Phase::AwaitingUpload, SessionEvent::UploadStatus(s)) => {
            if spec_status_success(s) {
                (Phase::Established, SessionAction::ReadBody)
            } else {
                (Phase::Failed(SessionError::Upload(s)), SessionAction::Stop)
            }
        },
        (p, _) => (p, SessionAction::Stop),
    }
}

/// Take one step of the session state machine.
pub fn session_step(p: Phase, e: SessionEvent) -> (r: (Phase, SessionAction))
    ensures
        r == spec_session_step(p, e),
{
    match (p, e) {
        (Phase::Start, SessionEvent::Begin) => (Phase::AwaitingDownload, SessionAction::OpenDownload),
        (Phase::AwaitingDownload, SessionEvent::DownloadStatus(s)) => {
            if status_is_success(s) {
                (Phase::AwaitingUpload, SessionAction::SendUpload)
            } else {
                (Phase::Failed(SessionError::Download(s)), SessionAction::Stop)
            }
        },
        (Phase::AwaitingUpload, SessionEvent::UploadStatus(s)) => {
            if status_is_success(s) {
                (Phase::Established, SessionAction::ReadBody)
            } else {
                (Phase::Failed(SessionError::Upload(s)), SessionAction::Stop)
            }
        },
        (p, _) => (p, SessionAction::Stop),
    }
}

/// The actions a run of the machine takes, one per event, from the given
/// phase.
pub open spec fn spec_session_actions(p: Phase, events: Seq<SessionEvent>) -> Seq<SessionAction>
    decreases events.len(),
{
    if events.len() == 0 {
        Seq::empty()
    } else {
        let step = spec_session_step(p, events[0]);
        seq![step.1] + spec_session_actions(step.0, events.drop_first())
    }
}

/// A run of the machine takes exactly one action per event.
pub proof fn lemma_session_actions_len(p: Phase, events: Seq<SessionEvent>)
    ensures
        spec_session_actions(p, events).len() == events.len(),
    decreases events.len(),
{
    if events.len() > 0 {
        let step = spec_session_step(p, events[0]);
        lemma_session_actions_len(step.0, events.drop_first());
    }
}

/// Ordering of the exchanges: in any run of the machine, the upload
/// request goes out only as the immediate answer to a success status on
/// the download exchange. In particular a failed download exchange stops
/// the session with the upload never sent.
pub proof fn lemma_upload_only_after_download(p: Phase, events: Seq<SessionEvent>)
    ensures
        forall|i: int|
            0 <= i < spec_session_actions(p, events).len() && #[trigger] spec_session_actions(
                p, events)[i] is SendUpload ==> (events[i] matches SessionEvent::DownloadStatus(
                s) && spec_status_success(s)),
    decreases events.len(),
{
    lemma_session_actions_len(p, events);
    if events.len() > 0 {
        let step = spec_session_step(p, events[0]);
        lemma_upload_only_after_download(step.0, events.drop_first());
        lemma_session_actions_len(step.0, events.drop_first());
        assert forall|i: int|
            0 <= i < spec_session_actions(p, events).len() && #[trigger] spec_session_actions(
                p, events)[i] is SendUpload implies (events[i]
            matches SessionEvent::DownloadStatus(s) && spec_status_success(s)) by {
            if i > 0 {
                assert(spec_session_actions(p, events)[i] == spec_session_actions(
                    step.0, events.drop_first())[i - 1]);
                assert(events[i] == events.drop_first()[i - 1]);
            }
        }
    }
}

} // verus!
