//! The shared state of the room and the protocol state machine of one
//! connection. Each event (a line read, end of stream, an idle deadline) is a
//! call that updates the shared state and returns the lines to deliver; the
//! caller performs the deliveries.

use vstd::prelude::*;

use crate::command::{
    is_whisper_attempt, nick_cmd, whisper_cmd, is_whisper_like, lemma_nick_nonempty, nick_of, parse_nick, parse_whisper,
    whisper_of,
};
use crate::history::{appended, texts, History, HISTORY_CAP};
use crate::notice::{
    chat, chat_line, history_line, history_replay_line, idle_timeout, idle_timeout_line, joined,
    joined_line, left, left_line, nick_replaced, nick_replaced_line, nick_taken, nick_taken_line,
    renamed, renamed_line, user_not_found, user_not_found_line, whisper_from, whisper_from_line,
    whisper_to, whisper_to_line,
};
use crate::registry::{
    fallback_name, injective, inverse, lemma_fallback_free, name_in_use, Registry, RegistryError,
};
use crate::text::{starts_with, trim, trim_str};

verus! {

/// Seconds of silence after which an active connection is closed.
pub const IDLE_TIMEOUT_SECS: u64 = 300;

/// Seconds between two `PING` lines to a connection.
pub const HEARTBEAT_SECS: u64 = 5;

/// How many broadcast lines the room channel buffers for a slow reader.
pub const ROOM_CAPACITY: usize = 200;

/// The state that all connections share: the registry and the history.
pub struct Hub<H> {
    registry: Registry<H>,
    history: History,
}

/// The mathematical model of a [`Hub`].
pub struct HubView<H> {
    pub names: Map<u64, Seq<char>>,
    pub outbounds: Map<u64, H>,
    pub history: Seq<Seq<char>>,
}

impl<H> HubView<H> {
    /// Names are unique, every user has a handle, and the history is bounded.
    pub open spec fn valid(self) -> bool {
        &&& injective(self.names)
        &&& self.names.dom().finite()
        &&& self.outbounds.dom() == self.names.dom()
        &&& self.history.len() <= HISTORY_CAP
    }
}

impl<H> View for Hub<H> {
    type V = HubView<H>;

    closed spec fn view(&self) -> HubView<H> {
        HubView {
            names: self.registry.by_identity(),
            outbounds: self.registry.outbounds(),
            history: self.history@,
        }
    }
}

/// Where the protocol of one connection stands.
#[derive(Clone, Copy, Debug, PartialEq, Eq, Structural)]
pub enum Phase {
    /// Waiting for the first line.
    Registering,
    /// Joined; reading commands and chat.
    Active,
    /// Leaving; the leave notice is still to be sent.
    Closing,
    /// Done.
    Closed,
}

/// A line to deliver, as the caller sends it.
#[derive(Debug, PartialEq, Eq)]
pub enum Outgoing {
    /// To this connection only.
    ToSelf(String),
    /// To every other connection.
    ToRoom(String),
    /// To the connection with this identity only.
    ToPeer(u64, String),
}

/// The model of an [`Outgoing`] line.
pub enum Delivery {
    ToSelf(Seq<char>),
    ToRoom(Seq<char>),
    ToPeer(u64, Seq<char>),
}

impl View for Outgoing {
    type V = Delivery;

    open spec fn view(&self) -> Delivery {
        match self {
            Outgoing::ToSelf(s) => Delivery::ToSelf(s@),
            Outgoing::ToRoom(s) => Delivery::ToRoom(s@),
            Outgoing::ToPeer(id, s) => Delivery::ToPeer(*id, s@),
        }
    }
}

/// The models of a sequence of lines to deliver.
pub open spec fn deliveries(v: Seq<Outgoing>) -> Seq<Delivery> {
    v.map_values(|o: Outgoing| o@)
}

/// One connection's protocol state.
pub struct Session {
    id: u64,
    label: String,
    name: String,
    phase: Phase,
}

/// The model of a [`Session`]: its identity, the text form of that identity,
/// its display name and its phase.
pub struct SessionView {
    pub id: u64,
    pub label: Seq<char>,
    pub name: Seq<char>,
    pub phase: Phase,
}

impl View for Session {
    type V = SessionView;

    closed spec fn view(&self) -> SessionView {
        SessionView { id: self.id, label: self.label@, name: self.name@, phase: self.phase }
    }
}

/// The effect of one event: the new shared state, the new session state, and
/// the lines to deliver, in order.
pub struct Step<H> {
    pub hub: HubView<H>,
    pub session: SessionView,
    pub out: Seq<Delivery>,
}

/// Whether a room line published by connection `origin` is written to
/// connection `listener`: every line but its own.
pub fn hears(listener: u64, origin: u64) -> (r: bool)
    ensures
        r == (origin != listener),
{
    origin != listener
}

/// The line written to every connection at each heartbeat.
pub const PING_LINE: &'static str = "PING";

/// Nothing changes and nothing is delivered.
pub open spec fn unchanged<H>(h: HubView<H>, s: SessionView) -> Step<H> {
    Step { hub: h, session: s, out: Seq::empty() }
}

/// `s` in phase `p`.
pub open spec fn in_phase(s: SessionView, p: Phase) -> SessionView {
    SessionView { id: s.id, label: s.label, name: s.name, phase: p }
}

/// The history, as replayed to a newcomer.
pub open spec fn replay(history: Seq<Seq<char>>) -> Seq<Delivery> {
    history.map_values(|l: Seq<char>| Delivery::ToSelf(history_line(l)))
}

/// `h` with one more history line.
pub open spec fn with_line<H>(h: HubView<H>, note: Seq<char>) -> HubView<H> {
    HubView { names: h.names, outbounds: h.outbounds, history: appended(h.history, note) }
}

/// A line read from an active connection.
pub open spec fn line_step<H>(h: HubView<H>, s: SessionView, line: Seq<char>) -> Step<H> {
    let t = trim(line);
    if s.phase != Phase::Active || t.len() == 0 {
        unchanged(h, s)
    } else if nick_of(line) is Some {
        let n = nick_of(line)->0;
        if name_in_use(h.names, n) {
            Step { hub: h, session: s, out: seq![Delivery::ToSelf(nick_taken(n))] }
        } else if !h.names.contains_key(s.id) {
            unchanged(h, s)
        } else {
            let note = renamed(s.name, n);
            Step {
                hub: HubView {
                    names: h.names.insert(s.id, n),
                    outbounds: h.outbounds,
                    history: appended(h.history, note),
                },
                session: SessionView { id: s.id, label: s.label, name: n, phase: s.phase },
                out: seq![Delivery::ToRoom(note)],
            }
        }
    } else if whisper_of(line) is Some {
        let to = (whisper_of(line)->0).0;
        let msg = (whisper_of(line)->0).1;
        if name_in_use(h.names, to) {
            Step {
                hub: h,
                session: s,
                out: seq![
                    Delivery::ToPeer(inverse(h.names)[to], whisper_from(s.name, msg)),
                    Delivery::ToSelf(whisper_to(to, msg)),
                ],
            }
        } else {
            Step { hub: h, session: s, out: seq![Delivery::ToSelf(user_not_found(to))] }
        }
    } else if is_whisper_like(line) {
        unchanged(h, s)
    } else {
        let note = chat(s.name, t);
        Step { hub: with_line(h, note), session: s, out: seq![Delivery::ToRoom(note)] }
    }
}

/// The first line read from a connection: it registers, announces itself,
/// receives the history as it stood before it joined, and then has its first
/// line handled as an active connection would, unless that line was `/nick`.
pub open spec fn join_step<H>(h: HubView<H>, s: SessionView, line: Seq<char>, outbound: H) -> Step<
    H,
> {
    if s.phase != Phase::Registering {
        unchanged(h, s)
    } else if h.names.contains_key(s.id) {
        unchanged(h, in_phase(s, Phase::Closed))
    } else if nick_of(line) is Some && !name_in_use(h.names, nick_of(line)->0) {
        let n = nick_of(line)->0;
        Step {
            hub: HubView {
                names: h.names.insert(s.id, n),
                outbounds: h.outbounds.insert(s.id, outbound),
                history: appended(h.history, joined(n)),
            },
            session: SessionView { id: s.id, label: s.label, name: n, phase: Phase::Active },
            out: seq![Delivery::ToRoom(joined(n))] + replay(h.history),
        }
    } else {
        let f = fallback_name(h.names, s.label);
        let h1 = HubView {
            names: h.names.insert(s.id, f),
            outbounds: h.outbounds.insert(s.id, outbound),
            history: appended(h.history, joined(f)),
        };
        let s1 = SessionView { id: s.id, label: s.label, name: f, phase: Phase::Active };
        if nick_of(line) is Some {
            Step {
                hub: h1,
                session: s1,
                out: seq![
                    Delivery::ToSelf(nick_replaced(nick_of(line)->0, f)),
                    Delivery::ToRoom(joined(f)),
                ] + replay(h.history),
            }
        } else {
            let rest = line_step(h1, s1, line);
            Step {
                hub: rest.hub,
                session: rest.session,
                out: seq![Delivery::ToRoom(joined(f))] + replay(h.history) + rest.out,
            }
        }
    }
}

/// No line arrived within the idle timeout.
pub open spec fn idle_step<H>(h: HubView<H>, s: SessionView) -> Step<H> {
    if s.phase == Phase::Active {
        Step {
            hub: h,
            session: in_phase(s, Phase::Closing),
            out: seq![Delivery::ToSelf(idle_timeout(IDLE_TIMEOUT_SECS as nat))],
        }
    } else {
        unchanged(h, s)
    }
}

/// The stream ended or failed. A connection that never joined closes at once.
pub open spec fn end_step<H>(h: HubView<H>, s: SessionView) -> Step<H> {
    if s.phase == Phase::Registering {
        unchanged(h, in_phase(s, Phase::Closed))
    } else if s.phase == Phase::Active {
        unchanged(h, in_phase(s, Phase::Closing))
    } else {
        unchanged(h, s)
    }
}

/// The name a leaving connection is announced under.
pub open spec fn leaving_name<H>(h: HubView<H>, s: SessionView) -> Seq<char> {
    if h.names.contains_key(s.id) {
        h.names[s.id]
    } else {
        s.label
    }
}

/// Leaving: deregister and announce it.
pub open spec fn close_step<H>(h: HubView<H>, s: SessionView) -> Step<H> {
    if s.phase == Phase::Active || s.phase == Phase::Closing {
        let note = left(leaving_name(h, s));
        Step {
            hub: HubView {
                names: h.names.remove(s.id),
                outbounds: h.outbounds.remove(s.id),
                history: appended(h.history, note),
            },
            session: in_phase(s, Phase::Closed),
            out: seq![Delivery::ToRoom(note)],
        }
    } else {
        unchanged(h, s)
    }
}

impl<H> Hub<H> {
    /// The registry and the history are both well formed.
    pub closed spec fn wf(&self) -> bool {
        self.registry.wf() && self.history.wf()
    }

    /// What a well-formed hub guarantees of its model.
    pub proof fn lemma_valid(&self)
        requires
            self.wf(),
        ensures
            self@.valid(),
    {
        self.registry.lemma_wf();
    }

    /// An empty room.
    pub fn new() -> (r: Hub<H>)
        ensures
            r.wf(),
            r@.names == Map::<u64, Seq<char>>::empty(),
            r@.outbounds == Map::<u64, H>::empty(),
            r@.history == Seq::<Seq<char>>::empty(),
    {
        Hub { registry: Registry::new(), history: History::new() }
    }

    /// The registry of connected users.
    pub fn registry(&self) -> (r: &Registry<H>)
        requires
            self.wf(),
        ensures
            r.wf(),
            r.by_identity() == self@.names,
            r.outbounds() == self@.outbounds,
    {
        &self.registry
    }

    /// The replay history.
    pub fn history(&self) -> (r: &History)
        requires
            self.wf(),
        ensures
            r.wf(),
            r@ == self@.history,
    {
        &self.history
    }

    /// The outbound handle of `id`.
    pub fn outbound(&self, id: u64) -> (r: Option<&H>)
        requires
            self.wf(),
        ensures
            r is Some <==> self@.names.contains_key(id),
            r is Some ==> *r->0 == self@.outbounds[id],
    {
        self.registry.outbound(id)
    }
}

fn push_replay(out: &mut Vec<Outgoing>, lines: &Vec<String>)
    ensures
        deliveries(final(out)@) == deliveries(old(out)@) + replay(texts(lines@)),
{
    let mut i: usize = 0;
    while i < lines.len()
        invariant
            i <= lines@.len(),
            deliveries(out@) =~= deliveries(old(out)@) + replay(
                texts(lines@.subrange(0, i as int)),
            ),
        decreases lines@.len() - i,
    {
        let note = history_replay_line(lines[i].as_str());
        let ghost prev = out@;
        out.push(Outgoing::ToSelf(note));
        proof {
            let before = texts(lines@.subrange(0, i as int));
            let after = texts(lines@.subrange(0, i + 1));
            assert(after =~= before.push(lines@[i as int]@));
            assert(replay(after) =~= replay(before).push(
                Delivery::ToSelf(history_line(lines@[i as int]@)),
            ));
            assert(deliveries(out@) =~= deliveries(prev).push(
                Delivery::ToSelf(history_line(lines@[i as int]@)),
            ));
        }
        i = i + 1;
    }
    assert(lines@.subrange(0, lines@.len() as int) =~= lines@);
}

impl Session {
    /// A new connection with identity `id`, whose text form is `label`.
    pub fn new(id: u64, label: String) -> (r: Session)
        ensures
            r@ == (SessionView {
                id: id,
                label: label@,
                name: label@,
                phase: Phase::Registering,
            }),
    {
        let name = label.clone();
        Session { id, label, name, phase: Phase::Registering }
    }

    /// The connection's identity.
    pub fn id(&self) -> (r: u64)
        ensures
            r == self@.id,
    {
        self.id
    }

    /// The connection's display name.
    pub fn name(&self) -> (r: &str)
        ensures
            r@ == self@.name,
    {
        self.name.as_str()
    }

    /// The text form of the connection's identity.
    pub fn label(&self) -> (r: &str)
        ensures
            r@ == self@.label,
    {
        self.label.as_str()
    }

    /// Where the protocol stands.
    pub fn phase(&self) -> (r: Phase)
        ensures
            r == self@.phase,
    {
        self.phase
    }

    /// Handles a line read from the connection once it has joined.
    pub fn on_line<H>(&mut self, hub: &mut Hub<H>, line: &str) -> (r: Vec<Outgoing>)
        requires
            old(hub).wf(),
        ensures
            final(hub).wf(),
            ({
                let st = line_step(old(hub)@, old(self)@, line@);
                final(hub)@ == st.hub && final(self)@ == st.session && deliveries(r@) == st.out
            }),
    {
        let mut out: Vec<Outgoing> = Vec::new();
        proof {
            assert(deliveries(out@) =~= Seq::<Delivery>::empty());
        }
        if self.phase != Phase::Active {
            return out;
        }
        let t = trim_str(line);
        if t.unicode_len() == 0 {
            return out;
        }
        if let Some(n) = parse_nick(line) {
            match hub.registry.rename(self.id, n) {
                Ok(new_name) => {
                    let note = renamed_line(self.name.as_str(), n);
                    hub.history.append(note.clone());
                    out.push(Outgoing::ToRoom(note));
                    self.name = new_name;
                },
                Err(e) => {
                    if e == RegistryError::NameTaken {
                        out.push(Outgoing::ToSelf(nick_taken_line(n)));
                    }
                },
            }
            proof {
                assert(deliveries(out@) =~= line_step(old(hub)@, old(self)@, line@).out);
            }
            return out;
        }
        if let Some((to, msg)) = parse_whisper(line) {
            match hub.registry.identity_of(to) {
                Some(target) => {
                    out.push(Outgoing::ToPeer(target, whisper_from_line(self.name.as_str(), msg)));
                    out.push(Outgoing::ToSelf(whisper_to_line(to, msg)));
                },
                None => {
                    out.push(Outgoing::ToSelf(user_not_found_line(to)));
                },
            }
            proof {
                assert(deliveries(out@) =~= line_step(old(hub)@, old(self)@, line@).out);
            }
            return out;
        }
        if is_whisper_attempt(line) {
            return out;
        }
        let note = chat_line(self.name.as_str(), t);
        hub.history.append(note.clone());
        out.push(Outgoing::ToRoom(note));
        proof {
            assert(deliveries(out@) =~= line_step(old(hub)@, old(self)@, line@).out);
        }
        out
    }

    /// Handles the first line read from the connection: registers it with
    /// `outbound` as its private handle.
    pub fn join<H>(&mut self, hub: &mut Hub<H>, line: &str, outbound: H) -> (r: Vec<Outgoing>)
        requires
            old(hub).wf(),
        ensures
            final(hub).wf(),
            ({
                let st = join_step(old(hub)@, old(self)@, line@, outbound);
                final(hub)@ == st.hub && final(self)@ == st.session && deliveries(r@) == st.out
            }),
    {
        let mut out: Vec<Outgoing> = Vec::new();
        proof {
            assert(deliveries(out@) =~= Seq::<Delivery>::empty());
            lemma_nick_nonempty(line@);
        }
        if self.phase != Phase::Registering {
            return out;
        }
        if hub.registry.contains(self.id) {
            self.phase = Phase::Closed;
            return out;
        }
        let earlier = hub.history.snapshot();
        let nick = parse_nick(line);
        let name = match nick {
            Some(n) => match hub.registry.register(self.id, n, outbound) {
                Ok(s) => s,
                Err(refused) => {
                    let f = match hub.registry.register_fallback(
                        self.id,
                        self.label.as_str(),
                        refused.outbound,
                    ) {
                        Ok(f) => f,
                        Err(_) => {
                            return out;
                        },
                    };
                    out.push(Outgoing::ToSelf(nick_replaced_line(n, f.as_str())));
                    f
                },
            },
            None => match hub.registry.register_fallback(self.id, self.label.as_str(), outbound) {
                Ok(f) => f,
                Err(_) => {
                    return out;
                },
            },
        };
        let note = joined_line(name.as_str());
        hub.history.append(note);
        out.push(Outgoing::ToRoom(joined_line(name.as_str())));
        push_replay(&mut out, &earlier);
        self.name = name;
        self.phase = Phase::Active;
        if nick.is_none() {
            let ghost h1 = hub@;
            let ghost s1 = self@;
            let ghost before = deliveries(out@);
            let mut more = self.on_line(hub, line);
            let ghost tail = deliveries(more@);
            out.append(&mut more);
            proof {
                assert(deliveries(out@) =~= before + tail);
            }
        }
        out
    }

    /// Handles the idle deadline passing with no line read.
    pub fn on_idle<H>(&mut self, hub: &Hub<H>) -> (r: Vec<Outgoing>)
        ensures
            ({
                let st = idle_step(hub@, old(self)@);
                hub@ == st.hub && final(self)@ == st.session && deliveries(r@) == st.out
            }),
    {
        let mut out: Vec<Outgoing> = Vec::new();
        if self.phase == Phase::Active {
            out.push(Outgoing::ToSelf(idle_timeout_line(IDLE_TIMEOUT_SECS)));
            self.phase = Phase::Closing;
        }
        proof {
            assert(deliveries(out@) =~= idle_step(hub@, old(self)@).out);
        }
        out
    }

    /// Handles the end of the stream, or a failure to read it.
    pub fn on_end<H>(&mut self, hub: &Hub<H>)
        ensures
            ({
                let st = end_step(hub@, old(self)@);
                hub@ == st.hub && final(self)@ == st.session && st.out.len() == 0
            }),
    {
        if self.phase == Phase::Registering {
            self.phase = Phase::Closed;
        } else if self.phase == Phase::Active {
            self.phase = Phase::Closing;
        }
    }

    /// Leaves the room: deregisters the connection and announces it under the
    /// name it held, or under its identity's text if it held none.
    pub fn close<H>(&mut self, hub: &mut Hub<H>) -> (r: Vec<Outgoing>)
        requires
            old(hub).wf(),
        ensures
            final(hub).wf(),
            ({
                let st = close_step(old(hub)@, old(self)@);
                final(hub)@ == st.hub && final(self)@ == st.session && deliveries(r@) == st.out
            }),
    {
        let mut out: Vec<Outgoing> = Vec::new();
        if self.phase != Phase::Active && self.phase != Phase::Closing {
            proof {
                assert(deliveries(out@) =~= Seq::<Delivery>::empty());
            }
            return out;
        }
        let note = match hub.registry.deregister(self.id) {
            Some(name) => left_line(name.as_str()),
            None => left_line(self.label.as_str()),
        };
        hub.history.append(note.clone());
        out.push(Outgoing::ToRoom(note));
        self.phase = Phase::Closed;
        proof {
            assert(deliveries(out@) =~= close_step(old(hub)@, old(self)@).out);
        }
        out
    }
}

/// Two connections ask for the same free name with their first lines: the
/// first gets it; the second is told privately that it is taken, and gets a
/// fallback name, which differs from it.
pub proof fn lemma_same_nick_twice<H>(
    h: HubView<H>,
    a: SessionView,
    b: SessionView,
    line_a: Seq<char>,
    line_b: Seq<char>,
    out_a: H,
    out_b: H,
)
    requires
        h.valid(),
        a.phase == Phase::Registering,
        b.phase == Phase::Registering,
        a.id != b.id,
        !h.names.contains_key(a.id),
        !h.names.contains_key(b.id),
        nick_of(line_a) is Some,
        nick_of(line_b) == nick_of(line_a),
        !name_in_use(h.names, nick_of(line_a)->0),
    ensures
        ({
            let n = nick_of(line_a)->0;
            let sa = join_step(h, a, line_a, out_a);
            let sb = join_step(sa.hub, b, line_b, out_b);
            &&& sa.session.name == n
            &&& sb.session.name != n
            &&& sb.out[0] == Delivery::ToSelf(nick_replaced(n, sb.session.name))
            &&& sb.hub.names.contains_key(a.id) && sb.hub.names[a.id] == n
            &&& sb.hub.names.contains_key(b.id) && sb.hub.names[b.id] == sb.session.name
        }),
{
    let n = nick_of(line_a)->0;
    let sa = join_step(h, a, line_a, out_a);
    let m1 = h.names.insert(a.id, n);
    assert(sa.hub.names == m1);
    assert(m1.contains_key(a.id) && m1[a.id] == n);
    assert(name_in_use(m1, n));
    lemma_fallback_free(m1, b.label);
}

/// A newcomer's join notice goes to the room, with the newcomer as its
/// origin, so the newcomer does not hear it (see [`hears`]); right after it the newcomer
/// receives the history as it stood before the join, oldest first, each line
/// tagged. Only the notice that a requested name was taken comes earlier.
pub proof fn lemma_join_replays_history<H>(
    h: HubView<H>,
    s: SessionView,
    line: Seq<char>,
    outbound: H,
)
    requires
        s.phase == Phase::Registering,
        !h.names.contains_key(s.id),
    ensures
        ({
            let st = join_step(h, s, line, outbound);
            let k: int = if nick_of(line) is Some && name_in_use(h.names, nick_of(line)->0) {
                1
            } else {
                0
            };
            &&& st.session.id == s.id
            &&& st.session.phase == Phase::Active
            &&& k + 1 + h.history.len() <= st.out.len()
            &&& st.out[k] == Delivery::ToRoom(joined(st.session.name))
            &&& st.out.subrange(k + 1, k + 1 + h.history.len()) == replay(h.history)
            &&& k == 1 ==> st.out[0] is ToSelf
        }),
{
    let st = join_step(h, s, line, outbound);
    let r = replay(h.history);
    if nick_of(line) is Some && !name_in_use(h.names, nick_of(line)->0) {
        let n = nick_of(line)->0;
        assert((seq![Delivery::ToRoom(joined(n))] + r).subrange(1, 1 + r.len() as int) =~= r);
    } else {
        let f = fallback_name(h.names, s.label);
        if nick_of(line) is Some {
            let pre = seq![
                Delivery::ToSelf(nick_replaced(nick_of(line)->0, f)),
                Delivery::ToRoom(joined(f)),
            ];
            assert((pre + r).subrange(2, 2 + r.len() as int) =~= r);
        } else {
            let h1 = HubView {
                names: h.names.insert(s.id, f),
                outbounds: h.outbounds.insert(s.id, outbound),
                history: appended(h.history, joined(f)),
            };
            let s1 = SessionView { id: s.id, label: s.label, name: f, phase: Phase::Active };
            let rest = line_step(h1, s1, line);
            let pre = seq![Delivery::ToRoom(joined(f))];
            assert((pre + r + rest.out).subrange(1, 1 + r.len() as int) =~= r);
            assert((pre + r + rest.out)[0] == Delivery::ToRoom(joined(f)));
        }
    }
}

/// A whisper to a name that nobody holds only tells the sender so: nothing
/// goes to the room or to anyone else, and the shared state is unchanged.
pub proof fn lemma_whisper_to_unknown<H>(h: HubView<H>, s: SessionView, line: Seq<char>)
    requires
        s.phase == Phase::Active,
        whisper_of(line) is Some,
        !name_in_use(h.names, (whisper_of(line)->0).0),
    ensures
        line_step(h, s, line) == (Step {
            hub: h,
            session: s,
            out: seq![Delivery::ToSelf(user_not_found((whisper_of(line)->0).0))],
        }),
{
    reveal_strlit("/w ");
    reveal_strlit("/nick ");
    let t = trim(line);
    assert(starts_with(t, whisper_cmd()));
    assert(whisper_cmd().len() == 3 && whisper_cmd()[1] == 'w');
    assert(t.subrange(0, 3)[1] == 'w');
    assert(t[1] == 'w');
    assert(!starts_with(t, nick_cmd())) by {
        if starts_with(t, nick_cmd()) {
            assert(t.subrange(0, 6)[1] == 'n');
        }
    }
}

/// A rename to a name that is already held fails with a private notice, and
/// leaves every registration as it was: the old name still leads to the
/// renaming connection.
pub proof fn lemma_rename_to_taken_name<H>(h: HubView<H>, s: SessionView, line: Seq<char>)
    requires
        h.valid(),
        s.phase == Phase::Active,
        nick_of(line) is Some,
        name_in_use(h.names, nick_of(line)->0),
    ensures
        ({
            let st = line_step(h, s, line);
            &&& st.hub == h
            &&& st.session == s
            &&& st.out == seq![Delivery::ToSelf(nick_taken(nick_of(line)->0))]
            &&& h.names.contains_key(s.id) ==> inverse(st.hub.names).contains_key(h.names[s.id])
                && inverse(st.hub.names)[h.names[s.id]] == s.id
        }),
{
    reveal_strlit("/nick ");
    let m = h.names;
    if m.contains_key(s.id) {
        assert(name_in_use(m, m[s.id]));
        let other = choose|x: u64| m.contains_key(x) && m[x] == m[s.id];
        assert(m[other] == m[s.id]);
    }
}

/// An active connection that stays silent past the idle timeout is told why,
/// and its close announces it as leaving in exactly one room line. Once
/// closed, no event makes it deliver anything more or leave that phase.
pub proof fn lemma_idle_leaves_once<H>(
    h: HubView<H>,
    s: SessionView,
    later: HubView<H>,
    line: Seq<char>,
    outbound: H,
)
    requires
        s.phase == Phase::Active,
    ensures
        ({
            let a = idle_step(h, s);
            let b = close_step(a.hub, a.session);
            let c = b.session;
            &&& a.hub == h
            &&& a.out == seq![Delivery::ToSelf(idle_timeout(IDLE_TIMEOUT_SECS as nat))]
            &&& b.out == seq![Delivery::ToRoom(left(leaving_name(h, s)))]
            &&& !b.hub.names.contains_key(s.id)
            &&& c.phase == Phase::Closed
            &&& line_step(later, c, line) == unchanged(later, c)
            &&& join_step(later, c, line, outbound) == unchanged(later, c)
            &&& idle_step(later, c) == unchanged(later, c)
            &&& end_step(later, c) == unchanged(later, c)
            &&& close_step(later, c) == unchanged(later, c)
        }),
{
}

/// Leaving removes exactly the leaving connection: every other registration
/// stays as it was, and the name it held is free to be taken again.
pub proof fn lemma_close_deregisters<H>(h: HubView<H>, s: SessionView)
    requires
        h.valid(),
        s.phase == Phase::Active || s.phase == Phase::Closing,
    ensures
        ({
            let st = close_step(h, s);
            &&& st.hub.names == h.names.remove(s.id)
            &&& st.hub.outbounds == h.outbounds.remove(s.id)
            &&& st.hub.valid()
            &&& h.names.contains_key(s.id) ==> !name_in_use(st.hub.names, h.names[s.id])
        }),
{
    let st = close_step(h, s);
    let m = st.hub.names;
    assert(m.dom() =~= h.names.dom().remove(s.id));
    assert(st.hub.outbounds.dom() =~= m.dom());
    assert(injective(m)) by {
        assert forall|a: u64, b: u64|
            #![trigger m[a], m[b]]
            m.contains_key(a) && m.contains_key(b) && m[a] == m[b] implies a == b by {
            assert(h.names[a] == h.names[b]);
        }
    }
    if h.names.contains_key(s.id) {
        if name_in_use(m, h.names[s.id]) {
            let x = choose|x: u64| m.contains_key(x) && m[x] == h.names[s.id];
            assert(h.names[x] == h.names[s.id]);
        }
    }
}

} // verus!
