//! The broker of D-Bus sessions: which sessions there are, and what follows each request.
//!
//! A session is minted on the control node, without a policy; its first frame waits until the
//! policy was pulled and the mediation runs. The broker decides nothing of who may connect: who
//! reaches the control node is authorized by that alone.

use crate::decimal;
use crate::decimal::dec_text;
use crate::text::concat3;
use std::collections::HashMap;
use vstd::prelude::*;
use vstd::string::*;

verus! {

broadcast use vstd::std_specs::hash::group_hash_axioms;

/// The device of the mesh.
pub const MESH_DEVICE: &'static str = "/dev/binderfs-mesh/binder";

/// The name that the control node is registered under.
pub const SERVICE_NAME: &'static str = "org.projectkennel.dbus-broker";

/// The size of the receive buffer, in bytes.
pub const MAP_SIZE: usize = 1_048_576;

/// How long the broker waits for a request at a time, in milliseconds.
pub const POLL_MS: i32 = 5000;

/// The cookie of the control node.
pub const CONTROL_NODE_COOKIE: u64 = 1;

/// The cookie of the first session.
pub const FIRST_SESSION_COOKIE: u64 = 2;

/// A session.
#[derive(Debug)]
pub struct Session {
    /// The kennel that uses it.
    pub ctx: u16,
    /// What it asked for.
    pub capability: String,
    /// Whether its mediation runs.
    pub mediated: bool,
}

/// What a session is.
#[verifier::ext_equal]
pub struct SessionModel {
    /// The kennel that uses it.
    pub ctx: u16,
    /// What it asked for.
    pub capability: Seq<char>,
    /// Whether its mediation runs.
    pub mediated: bool,
}

impl Session {
    /// What the session is.
    pub open spec fn model(self) -> SessionModel {
        SessionModel { ctx: self.ctx, capability: self.capability@, mediated: self.mediated }
    }
}

/// A request, by its verb.
#[derive(Debug)]
pub enum Request {
    /// A session is to be minted, for a kennel and what it asked for; nothing where the request does
    /// not say so.
    NewSession(Option<(u16, String)>),
    /// A frame is to be sent.
    Send,
    /// A frame is asked for.
    Recv,
    /// The session is to be closed.
    Close,
    /// Anything else.
    Unknown,
}

/// What is answered.
#[derive(Debug)]
pub enum Answer {
    /// It is done.
    Fine,
    /// A frame.
    Frame(Vec<u8>),
    /// There is nothing yet.
    Again,
    /// There is no such session.
    NotFound,
    /// The request is none.
    BadRequest,
}

/// What follows a request.
#[derive(Debug)]
pub enum Action {
    /// It is answered.
    Reply(Answer),
    /// It is answered with a new node of this cookie.
    Mint(u64),
    /// The policy of the session is pulled, by its kennel and what that asked for.
    Pull(u16, String),
    /// The frame is handed to the mediation.
    Forward,
    /// A frame is taken from the mediation.
    Drain,
}

/// What follows a request.
pub enum ActionModel {
    /// It is answered.
    Reply(AnswerModel),
    /// It is answered with a new node of this cookie.
    Mint(u64),
    /// The policy of the session is pulled.
    Pull(u16, Seq<char>),
    /// The frame is handed to the mediation.
    Forward,
    /// A frame is taken from the mediation.
    Drain,
}

/// What is answered.
pub enum AnswerModel {
    /// It is done.
    Fine,
    /// A frame.
    Frame(Seq<u8>),
    /// There is nothing yet.
    Again,
    /// There is no such session.
    NotFound,
    /// The request is none.
    BadRequest,
}

impl Answer {
    /// What is answered.
    pub open spec fn model(self) -> AnswerModel {
        match self {
            Answer::Fine => AnswerModel::Fine,
            Answer::Frame(f) => AnswerModel::Frame(f@),
            Answer::Again => AnswerModel::Again,
            Answer::NotFound => AnswerModel::NotFound,
            Answer::BadRequest => AnswerModel::BadRequest,
        }
    }
}

impl Action {
    /// What follows.
    pub open spec fn model(self) -> ActionModel {
        match self {
            Action::Reply(a) => ActionModel::Reply(a.model()),
            Action::Mint(c) => ActionModel::Mint(c),
            Action::Pull(ctx, cap) => ActionModel::Pull(ctx, cap@),
            Action::Forward => ActionModel::Forward,
            Action::Drain => ActionModel::Drain,
        }
    }
}

/// The sessions of the broker, by their cookies, and the cookie of the next one.
#[verifier::ext_equal]
pub struct State {
    /// The sessions.
    pub live: Map<u64, SessionModel>,
    /// The cookie of the next session.
    pub next: u64,
}

/// What a request leaves, and what follows it. Sessions are minted on the control node alone, and
/// nothing else is served there.
pub open spec fn step(s: State, node: u64, request: Request) -> (State, ActionModel) {
    if node == CONTROL_NODE_COOKIE {
        match request {
            Request::NewSession(Some((ctx, cap))) => (
                State {
                    live: s.live.insert(
                        s.next,
                        SessionModel { ctx, capability: cap@, mediated: false },
                    ),
                    next: if s.next < u64::MAX {
                        (s.next + 1) as u64
                    } else {
                        s.next
                    },
                },
                ActionModel::Mint(s.next),
            ),
            _ => (s, ActionModel::Reply(AnswerModel::BadRequest)),
        }
    } else {
        match request {
            Request::Send => if !s.live.contains_key(node) {
                (s, ActionModel::Reply(AnswerModel::NotFound))
            } else if s.live[node].mediated {
                (s, ActionModel::Forward)
            } else {
                (s, ActionModel::Pull(s.live[node].ctx, s.live[node].capability))
            },
            Request::Recv => if !s.live.contains_key(node) {
                (s, ActionModel::Reply(AnswerModel::NotFound))
            } else if s.live[node].mediated {
                (s, ActionModel::Drain)
            } else {
                (s, ActionModel::Reply(AnswerModel::Again))
            },
            Request::Close => (
                State { live: s.live.remove(node), ..s },
                ActionModel::Reply(AnswerModel::Fine),
            ),
            _ => (s, ActionModel::Reply(AnswerModel::BadRequest)),
        }
    }
}

/// The state without a session.
pub open spec fn without(s: State, cookie: u64) -> State {
    State { live: s.live.remove(cookie), ..s }
}

/// The state in which the mediation of a session runs, where the session is there.
pub open spec fn mediating(s: State, cookie: u64) -> State {
    if s.live.contains_key(cookie) {
        State {
            live: s.live.insert(cookie, SessionModel { mediated: true, ..s.live[cookie] }),
            ..s
        }
    } else {
        s
    }
}

/// The broker.
#[derive(Debug)]
pub struct Broker {
    sessions: HashMap<u64, Session>,
    next_cookie: u64,
    session_bus_addr: String,
    system_bus_addr: String,
}

impl Broker {
    /// The sessions, and the cookie of the next one.
    pub closed spec fn state(self) -> State {
        State {
            live: self.sessions@.map_values(|s: Session| s.model()),
            next: self.next_cookie,
        }
    }

    /// The address of the session bus.
    pub closed spec fn session_bus(self) -> Seq<char> {
        self.session_bus_addr@
    }

    /// The address of the system bus.
    pub closed spec fn system_bus(self) -> Seq<char> {
        self.system_bus_addr@
    }

    /// A broker without sessions; an address that is not given has a default.
    pub fn new(session_bus: Option<&str>, system_bus: Option<&str>) -> (b: Broker)
        ensures
            b.state() == (State { live: Map::empty(), next: FIRST_SESSION_COOKIE }),
            b.session_bus() == match session_bus {
                Some(a) => a@,
                None => "unix:path=/run/user/dbus/bus"@,
            },
            b.system_bus() == match system_bus {
                Some(a) => a@,
                None => "unix:path=/run/dbus/system_bus_socket"@,
            },
    {
        let b = Broker {
            sessions: HashMap::new(),
            next_cookie: FIRST_SESSION_COOKIE,
            session_bus_addr: match session_bus {
                Some(a) => a.to_owned(),
                None => "unix:path=/run/user/dbus/bus".to_owned(),
            },
            system_bus_addr: match system_bus {
                Some(a) => a.to_owned(),
                None => "unix:path=/run/dbus/system_bus_socket".to_owned(),
            },
        };
        assert(b.state().live =~= Map::empty());
        b
    }

    /// The address of the bus that a session's policy names.
    pub fn bus_addr(&self, session_bus: bool) -> (r: &str)
        ensures
            r@ == if session_bus {
                self.session_bus()
            } else {
                self.system_bus()
            },
    {
        if session_bus {
            self.session_bus_addr.as_str()
        } else {
            self.system_bus_addr.as_str()
        }
    }

    /// Takes a request on a node; what follows it.
    pub fn handle(&mut self, node: u64, request: &Request) -> (a: Action)
        ensures
            (final(self).state(), a.model()) == step(old(self).state(), node, *request),
            final(self).session_bus() == old(self).session_bus(),
            final(self).system_bus() == old(self).system_bus(),
    {
        if node == CONTROL_NODE_COOKIE {
            return self.handle_control(request);
        }
        self.handle_session(node, request)
    }

    fn handle_control(&mut self, request: &Request) -> (a: Action)
        ensures
            (final(self).state(), a.model()) == step(
                old(self).state(),
                CONTROL_NODE_COOKIE,
                *request,
            ),
            final(self).session_bus() == old(self).session_bus(),
            final(self).system_bus() == old(self).system_bus(),
    {
        match request {
            Request::NewSession(Some((ctx, cap))) => self.new_session(*ctx, cap.as_str()),
            _ => Action::Reply(Answer::BadRequest),
        }
    }

    fn new_session(&mut self, ctx: u16, capability: &str) -> (a: Action)
        ensures
            a.model() == ActionModel::Mint(old(self).state().next),
            final(self).state() == (State {
                live: old(self).state().live.insert(
                    old(self).state().next,
                    SessionModel { ctx, capability: capability@, mediated: false },
                ),
                next: if old(self).state().next < u64::MAX {
                    (old(self).state().next + 1) as u64
                } else {
                    old(self).state().next
                },
            }),
            final(self).session_bus() == old(self).session_bus(),
            final(self).system_bus() == old(self).system_bus(),
    {
        let cookie: u64 = self.next_cookie;
        if self.next_cookie < u64::MAX {
            self.next_cookie = self.next_cookie + 1;
        }
        let s = Session { ctx, capability: capability.to_owned(), mediated: false };
        let ghost m = s.model();
        let _ = self.sessions.insert(cookie, s);
        assert(self.state().live =~= old(self).state().live.insert(cookie, m));
        Action::Mint(cookie)
    }

    fn handle_session(&mut self, node: u64, request: &Request) -> (a: Action)
        requires
            node != CONTROL_NODE_COOKIE,
        ensures
            (final(self).state(), a.model()) == step(old(self).state(), node, *request),
            final(self).session_bus() == old(self).session_bus(),
            final(self).system_bus() == old(self).system_bus(),
    {
        match request {
            Request::Send => match self.sessions.get(&node) {
                None => Action::Reply(Answer::NotFound),
                Some(s) => if s.mediated {
                    Action::Forward
                } else {
                    Action::Pull(s.ctx, s.capability.clone())
                },
            },
            Request::Recv => match self.sessions.get(&node) {
                None => Action::Reply(Answer::NotFound),
                Some(s) => if s.mediated {
                    Action::Drain
                } else {
                    Action::Reply(Answer::Again)
                },
            },
            Request::Close => {
                let _ = self.remove(node);
                Action::Reply(Answer::Fine)
            },
            _ => Action::Reply(Answer::BadRequest),
        }
    }

    fn remove(&mut self, cookie: u64) -> (r: bool)
        ensures
            final(self).state() == without(old(self).state(), cookie),
            final(self).session_bus() == old(self).session_bus(),
            final(self).system_bus() == old(self).system_bus(),
            r == old(self).state().live.contains_key(cookie),
    {
        let r = self.sessions.remove(&cookie).is_some();
        assert(self.state().live =~= old(self).state().live.remove(cookie));
        r
    }

    /// Takes back a session whose node could not be handed out.
    pub fn mint_failed(&mut self, cookie: u64)
        ensures
            final(self).state() == without(old(self).state(), cookie),
            final(self).session_bus() == old(self).session_bus(),
            final(self).system_bus() == old(self).system_bus(),
    {
        let _ = self.remove(cookie);
    }

    /// Takes what became of a pull: where the policy came and the mediation runs, and the session was
    /// not released meanwhile, its frame is handed over; else the session is answered as gone.
    pub fn pulled(&mut self, cookie: u64, runs: bool) -> (a: Action)
        ensures
            final(self).state() == if runs {
                mediating(old(self).state(), cookie)
            } else {
                old(self).state()
            },
            a.model() == if runs && old(self).state().live.contains_key(cookie) {
                ActionModel::Forward
            } else {
                ActionModel::Reply(AnswerModel::NotFound)
            },
            final(self).session_bus() == old(self).session_bus(),
            final(self).system_bus() == old(self).system_bus(),
    {
        if !runs {
            return Action::Reply(Answer::NotFound);
        }
        match self.sessions.remove(&cookie) {
            None => {
                assert(self.state().live =~= old(self).state().live);
                Action::Reply(Answer::NotFound)
            },
            Some(s) => {
                let s = Session { ctx: s.ctx, capability: s.capability, mediated: true };
                let ghost m = s.model();
                let _ = self.sessions.insert(cookie, s);
                proof {
                    let before = old(self).state().live;
                    assert(m == (SessionModel { mediated: true, ..before[cookie] }));
                    assert(self.state().live =~= before.insert(cookie, m));
                }
                Action::Forward
            },
        }
    }

    /// Takes what became of a frame that was handed over: where the mediation is gone, so is the
    /// session.
    pub fn forwarded(&mut self, cookie: u64, written: bool) -> (a: Answer)
        ensures
            final(self).state() == if written {
                old(self).state()
            } else {
                without(old(self).state(), cookie)
            },
            a.model() == if written {
                AnswerModel::Fine
            } else {
                AnswerModel::NotFound
            },
            final(self).session_bus() == old(self).session_bus(),
            final(self).system_bus() == old(self).system_bus(),
    {
        if written {
            Answer::Fine
        } else {
            let _ = self.remove(cookie);
            Answer::NotFound
        }
    }

    /// Takes back a session that nobody refers to any more; what is said of it, where it was there.
    pub fn release(&mut self, cookie: u64) -> (r: Option<String>)
        ensures
            final(self).state() == without(old(self).state(), cookie),
            final(self).session_bus() == old(self).session_bus(),
            final(self).system_bus() == old(self).system_bus(),
            if old(self).state().live.contains_key(cookie) {
                r matches Some(t) && t@ == "dbus-broker: session "@ + decimal::dec(cookie as nat)
                    + " released"@
            } else {
                r is None
            },
    {
        if self.remove(cookie) {
            let n = dec_text(cookie);
            Some(concat3("dbus-broker: session ", n.as_str(), " released"))
        } else {
            None
        }
    }
}

/// The answer to a request for a frame, by what the mediation held.
pub fn drained(frame: Option<Vec<u8>>) -> (a: Answer)
    ensures
        a.model() == match frame {
            Some(f) => AnswerModel::Frame(f@),
            None => AnswerModel::Again,
        },
{
    match frame {
        Some(f) => Answer::Frame(f),
        None => Answer::Again,
    }
}

/// Whether all sessions have cookies that were given out, and none has the control node's.
pub open spec fn sound(s: State) -> bool {
    &&& FIRST_SESSION_COOKIE <= s.next
    &&& forall|c: u64| #[trigger]
        s.live.contains_key(c) ==> FIRST_SESSION_COOKIE <= c < s.next
}

/// A session is minted under a cookie that no other session and not the control node has, and what
/// holds of the cookies holds after every request, as long as there are cookies.
pub proof fn law_cookies_are_fresh(s: State, node: u64, request: Request)
    requires
        sound(s),
        s.next < u64::MAX,
    ensures
        sound(step(s, node, request).0),
        step(s, node, request).1 matches ActionModel::Mint(c) ==> c != CONTROL_NODE_COOKIE
            && !s.live.contains_key(c) && step(s, node, request).0.live.contains_key(c),
{
}

/// A broker starts, and stays when sessions go or are mediated, with cookies that were given out.
pub proof fn law_cookies_stay_sound(s: State, cookie: u64)
    requires
        sound(s),
    ensures
        sound((State { live: Map::empty(), next: FIRST_SESSION_COOKIE })),
        sound(without(s, cookie)),
        sound(mediating(s, cookie)),
{
}

/// Only the control node mints: a request on any other node leaves no session that was not there,
/// and the control node serves nothing else.
pub proof fn law_only_the_control_node_mints(s: State, node: u64, request: Request, c: u64)
    ensures
        node != CONTROL_NODE_COOKIE && step(s, node, request).0.live.contains_key(c)
            ==> s.live.contains_key(c),
        node != CONTROL_NODE_COOKIE ==> !(step(s, node, request).1 is Mint),
        node == CONTROL_NODE_COOKIE && !(request is NewSession) ==> step(s, node, request).0 == s
            && step(s, node, request).1 == ActionModel::Reply(AnswerModel::BadRequest),
{
}

/// No frame passes without a policy: frames are handed over and taken only for a session whose
/// mediation runs, and no request makes it run; only a pull that brought the policy does.
pub proof fn law_no_frame_without_policy(s: State, node: u64, request: Request, c: u64)
    requires
        sound(s),
        s.next < u64::MAX,
    ensures
        step(s, node, request).1 is Forward || step(s, node, request).1 is Drain
            ==> s.live.contains_key(node) && s.live[node].mediated,
        step(s, node, request).0.live.contains_key(c) && step(
            s,
            node,
            request,
        ).0.live[c].mediated ==> s.live.contains_key(c) && s.live[c].mediated,
{
}

/// A request on one session changes no other.
pub proof fn law_sessions_are_apart(s: State, node: u64, request: Request, c: u64)
    requires
        sound(s),
        s.next < u64::MAX,
        c != node,
        s.live.contains_key(c),
    ensures
        step(s, node, request).0.live.contains_key(c),
        step(s, node, request).0.live[c] == s.live[c],
{
}

// ---- what holds of the whole ----------------------------------------------------

/// A session is what it was asked to be: it is made for the context and the capability of the
/// request, under the number that is answered, and is not mediated yet.
pub proof fn law_session_is_what_was_asked_for(
    b: &mut Broker,
    ctx: u16,
    cap: String,
    a: Action,
)
    requires
        call_ensures(
            Broker::handle,
            (b, CONTROL_NODE_COOKIE, &Request::NewSession(Some((ctx, cap)))),
            a,
        ),
    ensures
        a matches Action::Mint(c) && c == old(b).state().next && final(b).state().live.contains_key(c)
            && final(b).state().live[c].ctx == ctx && final(b).state().live[c].capability == cap@
            && !final(b).state().live[c].mediated,
        old(b).state().next < u64::MAX ==> final(b).state().next == old(b).state().next + 1,
{
}

/// A frame that is sent into a session asks for its policy until it is mediated, and is passed on from
/// then; what is read is passed on then alone; a session that is closed is gone, and no other is.
pub proof fn law_session_is_mediated_before_it_is_used(
    b: &mut Broker,
    node: u64,
    request: &Request,
    a: Action,
)
    requires
        call_ensures(Broker::handle, (b, node, request), a),
        node != CONTROL_NODE_COOKIE,
    ensures
        ({
            let before = old(b).state().live;
            let after = final(b).state().live;
            let there = before.contains_key(node);
            let mediated = there && before[node].mediated;
            &&& request is Send && mediated ==> a is Forward
            &&& request is Send && there && !mediated ==> (a matches Action::Pull(ctx, cap) && ctx
                == before[node].ctx && cap@ == before[node].capability)
            &&& request is Recv && mediated ==> a is Drain
            &&& request is Recv && there && !mediated ==> (a matches Action::Reply(x) && x is Again)
            &&& (request is Send || request is Recv) && !there ==> (a matches Action::Reply(x)
                && x is NotFound)
            &&& request is Close ==> !after.contains_key(node)
            &&& !(request is Close) ==> after == before
            &&& forall|c: u64| c != node ==> (#[trigger] after.contains_key(c) <==> before.contains_key(c))
        }),
{
}

/// A session whose mediation runs passes its frame on and keeps what it is; where mediation does not
/// run, nothing is passed on and nothing changes.
pub proof fn law_mediation_turns_on_for_its_session(b: &mut Broker, cookie: u64, runs: bool, a: Action)
    requires
        call_ensures(Broker::pulled, (b, cookie, runs), a),
    ensures
        ({
            let before = old(b).state().live;
            let after = final(b).state().live;
            &&& a is Forward <==> runs && before.contains_key(cookie)
            &&& !runs ==> after == before
            &&& runs && before.contains_key(cookie) ==> after[cookie].mediated && after[cookie].ctx
                == before[cookie].ctx && after[cookie].capability == before[cookie].capability
            &&& forall|c: u64| #[trigger] after.contains_key(c) <==> before.contains_key(c)
            &&& forall|c: u64| c != cookie && before.contains_key(c) ==> #[trigger] after[c] == before[c]
        }),
{
}

/// A frame that could not be written ends its session, and one that could leaves it.
pub proof fn law_broken_session_ends(b: &mut Broker, cookie: u64, written: bool, a: Answer)
    requires
        call_ensures(Broker::forwarded, (b, cookie, written), a),
    ensures
        written ==> a is Fine && final(b).state() == old(b).state(),
        !written ==> a is NotFound && !final(b).state().live.contains_key(cookie),
        forall|c: u64|
            c != cookie ==> (#[trigger] final(b).state().live.contains_key(c) <==> old(
                b,
            ).state().live.contains_key(c)),
{
}

/// What was drained is handed on as it is, and nothing drained is asked for again.
pub proof fn law_drained_frame_is_handed_on(frame: Option<Vec<u8>>, a: Answer)
    requires
        call_ensures(drained, (frame,), a),
    ensures
        frame matches Some(f) ==> a matches Answer::Frame(g) && g@ == f@,
        frame is None ==> a is Again,
{
}

/// The session bus is the session's and the system bus the system's, each as it was configured.
pub proof fn law_each_bus_has_its_address(
    session: &str,
    system: &str,
    b: Broker,
    r: &str,
    q: &str,
)
    requires
        call_ensures(Broker::new, (Some(session), Some(system)), b),
        call_ensures(Broker::bus_addr, (&b, true), r),
        call_ensures(Broker::bus_addr, (&b, false), q),
    ensures
        r@ == session@,
        q@ == system@,
{
}

/// A session that could not be made, or that is let go, is gone, and no other is.
pub proof fn law_released_sessions_are_gone(
    a: &mut Broker,
    b: &mut Broker,
    cookie: u64,
    done: (),
    r: Option<String>,
)
    requires
        call_ensures(Broker::mint_failed, (a, cookie), done),
        call_ensures(Broker::release, (b, cookie), r),
    ensures
        !final(a).state().live.contains_key(cookie),
        !final(b).state().live.contains_key(cookie),
        forall|c: u64|
            c != cookie ==> (#[trigger] final(a).state().live.contains_key(c) <==> old(
                a,
            ).state().live.contains_key(c)),
        forall|c: u64|
            c != cookie ==> (#[trigger] final(b).state().live.contains_key(c) <==> old(
                b,
            ).state().live.contains_key(c)),
        r is Some <==> old(b).state().live.contains_key(cookie),
{
}

} // verus!
