//! The server as a state machine: what it knows of every connection, the
//! compositor, and what each event does to both.
//!
//! The machine does no input or output itself. It is handed one event at a
//! time and answers with the effects that the event has on the connection
//! it came from.

use std::collections::HashMap;
use vstd::prelude::*;
use vstd::std_specs::hash::*;
use vstd::std_specs::iter::IteratorSpec;
use vstd::string::StringExecFns;

use crate::buffer::Buffer;
use crate::buffer::lemma_inserted_wf;
use crate::buffer::lemma_removed_wf;
use crate::buffer::lemma_updated_wf;
use crate::buffer::Canvas;
use crate::buffer::UpdateError;
use crate::grid::BUFFER_PIXELS;
use crate::request::decode;
use crate::request::request_of;
use crate::request::Request;
use crate::request::RequestView;
use crate::session::escalation;
use crate::session::final_warning;
use crate::session::warning;
use crate::session::handle_error;
use crate::session::Action;
use crate::session::ActionView;
use crate::session::Message;
use crate::session::MessageView;
use crate::session::Role;
use crate::session::Session;
use crate::session::SessionView;
use crate::text::decimal;
use crate::text::push_decimal;

verus! {

broadcast use vstd::std_specs::hash::group_hash_axioms;

/// What the transport reports.
#[derive(Debug, PartialEq)]
pub enum Event {
    /// A connection was opened.
    Connect(u64),
    /// A connection was closed.
    Disconnect(u64),
    /// A frame came in on a connection.
    Message(u64, Message),
}

/// What the server wants done on the connection of the event that it was
/// handed.
#[derive(Debug, PartialEq)]
pub enum Effect {
    /// Send it this frame.
    Send(Message),
    /// Close it.
    Close,
    /// Nothing on the connection: write this line to the server's log.
    Log(String),
}

/// An effect, as plain values.
pub ghost enum EffectView {
    Send(MessageView),
    Close,
    Log(Seq<char>),
}

impl View for Effect {
    type V = EffectView;

    open spec fn view(&self) -> EffectView {
        match self {
            Effect::Send(message) => EffectView::Send(message@),
            Effect::Close => EffectView::Close,
            Effect::Log(line) => EffectView::Log(line@),
        }
    }
}

/// A list of effects, as plain values.
pub open spec fn effects_view(effects: Seq<Effect>) -> Seq<EffectView> {
    effects.map_values(|effect: Effect| effect@)
}

/// The server.
pub struct Server {
    clients: HashMap<u64, Session>,
    image: Buffer,
}

/// What the server holds.
pub ghost struct ServerView {
    /// The session of every open connection.
    pub sessions: Map<u64, SessionView>,
    /// The compositor.
    pub canvas: Canvas,
}

/// A state of the server and the effects of the event that led to it.
pub ghost struct Step {
    pub state: ServerView,
    pub effects: Seq<EffectView>,
}

/// The effect of sending the text `text`.
pub open spec fn sent_text(text: Seq<char>) -> EffectView {
    EffectView::Send(MessageView::Text(text))
}

/// The session of a connection that has said nothing yet.
pub open spec fn fresh_session() -> SessionView {
    SessionView { data: Role::Unknown, name: Seq::empty(), url: Seq::empty(), naughty: 0 }
}

/// The question that every new connection is asked.
pub open spec fn greeting() -> Seq<char> {
    "{\"msg\": \"?\"}"@
}

/// The words that ask a painter for its tile.
pub open spec fn pixel_request() -> Seq<char> {
    "{\"msg\": \"p\"}"@
}

/// The words that tell a connection the size of a tile.
pub open spec fn size_notice() -> Seq<char> {
    "{\"msg\": \"size\", \"w\": "@ + decimal(40) + ", \"h\": "@ + decimal(40) + "}"@
}

/// The frame that carries the composite: its side in pixels as two bytes,
/// the high one first, and then the image.
pub open spec fn image_frame(side: nat, pixels: Seq<u8>) -> Seq<u8> {
    seq![(side / 256) as u8, (side % 256) as u8] + pixels
}

/// The line that the log gets where a tile came for a painter that the
/// compositor does not know.
pub open spec fn update_fault(id: u64, why: Seq<char>) -> Seq<char> {
    "Error updating pixels for "@ + decimal(id as nat) + ": "@ + why
}

/// The line that the log gets where a frame that is no JSON came from a
/// connection without a session.
pub open spec fn unknown_client(id: u64) -> Seq<char> {
    "Unknown client id "@ + decimal(id as nat)
}

impl ServerView {
    /// Every painter on the canvas has a session, no session has more than
    /// 50 violations against it, and the canvas is well formed.
    pub open spec fn wf(self) -> bool {
        &&& self.canvas.wf()
        &&& forall|id: u64| #[trigger]
            self.sessions.contains_key(id) ==> self.sessions[id].naughty <= 50
        &&& forall|i: int|
            0 <= i < self.canvas.ids.len() ==> self.sessions.contains_key(
                #[trigger] self.canvas.ids[i],
            )
    }

    /// A connection was opened: it gets a fresh session and is asked what it
    /// is.
    pub open spec fn connected(self, id: u64) -> Step {
        Step {
            state: ServerView { sessions: self.sessions.insert(id, fresh_session()), ..self },
            effects: seq![EffectView::Send(MessageView::Text(greeting()))],
        }
    }

    /// A connection was closed: its session and its place on the canvas go.
    pub open spec fn disconnected(self, id: u64) -> Step {
        Step {
            state: ServerView {
                sessions: self.sessions.remove(id),
                canvas: self.canvas.removed(id),
            },
            effects: seq![],
        }
    }

    /// Connection `id` broke the protocol in the way that `why` describes.
    /// One more violation is counted against it. Up to the 50th it is
    /// warned; with the 51st it is closed, and its session and its place on
    /// the canvas go. A connection without a session is left alone.
    pub open spec fn violated(self, id: u64, why: Seq<char>) -> Step {
        if self.sessions.contains_key(id) {
            let count = self.sessions[id].naughty + 1;
            match escalation(why, count) {
                ActionView::RemoveClient => Step {
                    state: ServerView {
                        sessions: self.sessions.remove(id),
                        canvas: self.canvas.removed(id),
                    },
                    effects: seq![EffectView::Close],
                },
                ActionView::SendMessage(warning) => Step {
                    state: ServerView {
                        sessions: self.sessions.insert(
                            id,
                            SessionView { naughty: count, ..self.sessions[id] },
                        ),
                        ..self
                    },
                    effects: seq![EffectView::Send(warning)],
                },
            }
        } else {
            Step { state: self, effects: seq![] }
        }
    }

    /// A binary frame came in on connection `id`: a tile. A frame of the
    /// wrong size is a violation. A tile for a painter that is not on the
    /// canvas is the server's own trouble and goes to the log.
    pub open spec fn tile_received(self, id: u64, data: Seq<u8>) -> Step {
        if data.len() > 6400 {
            self.violated(id, "Warning: data is larger than expected"@)
        } else if data.len() < 6400 {
            self.violated(id, "Warning: data is smaller than expected"@)
        } else if self.canvas.ids.contains(id) {
            Step {
                state: ServerView { canvas: self.canvas.updated(id, data), ..self },
                effects: seq![],
            }
        } else {
            Step {
                state: self,
                effects: seq![
                    EffectView::Log(
                        update_fault(id, "Error: could not find the client to update pixels."@),
                    ),
                ],
            }
        }
    }

    /// The line that the log gets where painter `id` cannot be taken in.
    pub open spec fn insert_fault(self, id: u64) -> Seq<char> {
        if self.canvas.ids.contains(id) {
            "Client already in image buffer"@
        } else {
            "Too many painters"@
        }
    }

    /// Connection `id` asked for `request`.
    ///
    /// A new painter is taken on the canvas and told the size of a tile;
    /// where the canvas cannot take it, the connection is closed and its
    /// session goes, with any place it had on the canvas. A viewer is told
    /// the size of a tile. Whoever asks for the image gets it, unless it is
    /// empty. What is not understood is a violation. A connection without
    /// a session gets no answer.
    pub open spec fn requested(self, id: u64, request: RequestView) -> Step {
        match request {
            RequestView::Malformed(why) => if self.sessions.contains_key(id) {
                self.violated(id, why)
            } else {
                Step { state: self, effects: seq![EffectView::Log(unknown_client(id))] }
            },
            RequestView::Invalid(why) => self.violated(id, why),
            RequestView::Painter { name, url } => if !self.sessions.contains_key(id) {
                Step { state: self, effects: seq![] }
            } else if self.canvas.admits(id) {
                Step {
                    state: ServerView {
                        sessions: self.sessions.insert(
                            id,
                            SessionView { data: Role::Painter, name, url, ..self.sessions[id] },
                        ),
                        canvas: self.canvas.inserted(id),
                    },
                    effects: seq![EffectView::Send(MessageView::Text(size_notice()))],
                }
            } else {
                Step {
                    state: ServerView {
                        sessions: self.sessions.remove(id),
                        canvas: self.canvas.removed(id),
                    },
                    effects: seq![EffectView::Log(self.insert_fault(id)), EffectView::Close],
                }
            },
            RequestView::Canvas => if self.sessions.contains_key(id) {
                Step {
                    state: ServerView {
                        sessions: self.sessions.insert(
                            id,
                            SessionView { data: Role::Canvas, ..self.sessions[id] },
                        ),
                        ..self
                    },
                    effects: seq![EffectView::Send(MessageView::Text(size_notice()))],
                }
            } else {
                Step { state: self, effects: seq![] }
            },
            RequestView::Pixels => if self.sessions.contains_key(id) && self.canvas.pixels.len()
                > 0 {
                Step {
                    state: self,
                    effects: seq![
                        EffectView::Send(
                            MessageView::Binary(
                                image_frame(self.canvas.side(), self.canvas.pixels),
                            ),
                        ),
                    ],
                }
            } else {
                Step { state: self, effects: seq![] }
            },
        }
    }

    /// What `event` does.
    pub open spec fn stepped(self, event: EventView) -> Step {
        match event {
            EventView::Connect(id) => self.connected(id),
            EventView::Disconnect(id) => self.disconnected(id),
            EventView::Message(id, MessageView::Binary(data)) => self.tile_received(id, data),
            EventView::Message(id, MessageView::Text(text)) => self.requested(
                id,
                request_of(text),
            ),
        }
    }
}

/// An event, as plain values.
pub ghost enum EventView {
    Connect(u64),
    Disconnect(u64),
    Message(u64, MessageView),
}

impl View for Event {
    type V = EventView;

    open spec fn view(&self) -> EventView {
        match self {
            Event::Connect(id) => EventView::Connect(*id),
            Event::Disconnect(id) => EventView::Disconnect(*id),
            Event::Message(id, message) => EventView::Message(*id, message@),
        }
    }
}

impl View for Server {
    type V = ServerView;

    closed spec fn view(&self) -> ServerView {
        ServerView {
            sessions: self.clients@.map_values(|session: Session| session@),
            canvas: self.image@,
        }
    }
}

impl Server {
    /// Whether the server is in a state that its own operations lead to.
    pub open spec fn wf(&self) -> bool {
        self@.wf()
    }

    /// A server without connections and without painters.
    pub fn new() -> (server: Server)
        ensures
            server.wf(),
            server@.sessions == Map::<u64, SessionView>::empty(),
            server@.canvas.ids.len() == 0,
            server@.canvas.pixels.len() == 0,
    {
        let server = Server { clients: HashMap::new(), image: Buffer::new() };
        assert(server@.sessions =~= Map::<u64, SessionView>::empty());
        server
    }

    /// A connection was opened.
    pub fn connect(&mut self, id: u64) -> (effects: Vec<Effect>)
        requires
            old(self).wf(),
        ensures
            final(self).wf(),
            (Step { state: final(self)@, effects: effects_view(effects@) }) == old(
                self,
            )@.connected(id),
    {
        let session = Session {
            data: Role::Unknown,
            name: String::new(),
            url: String::new(),
            naughty: 0,
        };
        self.clients.insert(id, session);
        let mut effects = Vec::new();
        effects.push(Effect::Send(Message::Text("{\"msg\": \"?\"}".to_owned())));
        proof {
            assert(self@.sessions =~= old(self)@.sessions.insert(id, fresh_session()));
            assert(effects_view(effects@) =~= old(self)@.connected(id).effects);
        }
        effects
    }

    /// A connection was closed.
    pub fn disconnect(&mut self, id: u64) -> (effects: Vec<Effect>)
        requires
            old(self).wf(),
        ensures
            final(self).wf(),
            (Step { state: final(self)@, effects: effects_view(effects@) }) == old(
                self,
            )@.disconnected(id),
    {
        self.clients.remove(&id);
        self.image.remove(id);
        let effects = Vec::new();
        proof {
            assert(self@.sessions =~= old(self)@.sessions.remove(id));
            assert(effects_view(effects@) =~= old(self)@.disconnected(id).effects);
            lemma_removed_keeps_others(old(self)@.canvas, id);
        }
        effects
    }

    /// Counts a violation against connection `id`.
    fn violation(&mut self, id: u64, why: String) -> (effects: Vec<Effect>)
        requires
            old(self).wf(),
        ensures
            final(self).wf(),
            (Step { state: final(self)@, effects: effects_view(effects@) }) == old(
                self,
            )@.violated(id, why@),
    {
        let mut effects = Vec::new();
        match self.clients.remove(&id) {
            None => {
                assert(self@.sessions =~= old(self)@.sessions);
            },
            Some(client) => {
                let mut client = client;
                assert(old(self)@.sessions.contains_key(id) && old(self)@.sessions[id] == client@);
                match handle_error(why, &mut client) {
                    Action::RemoveClient => {
                        self.image.remove(id);
                        effects.push(Effect::Close);
                        proof {
                            assert(self@.sessions =~= old(self)@.sessions.remove(id));
                            lemma_removed_keeps_others(old(self)@.canvas, id);
                        }
                    },
                    Action::SendMessage(warning) => {
                        self.clients.insert(id, client);
                        effects.push(Effect::Send(warning));
                        proof {
                            assert(self@.sessions =~= old(self)@.sessions.insert(
                                id,
                                SessionView {
                                    naughty: old(self)@.sessions[id].naughty + 1,
                                    ..old(self)@.sessions[id]
                                },
                            ));
                        }
                    },
                }
            },
        }
        assert(effects_view(effects@) =~= old(self)@.violated(id, why@).effects);
        effects
    }
}

/// Whoever is on the canvas after a painter left was on it before.
proof fn lemma_removed_keeps_others(canvas: Canvas, id: u64)
    ensures
        forall|i: int|
            0 <= i < canvas.removed(id).ids.len() ==> canvas.ids.contains(
                #[trigger] canvas.removed(id).ids[i],
            ),
{
    if canvas.ids.contains(id) {
        let at = canvas.ids.index_of(id);
        assert forall|i: int| 0 <= i < canvas.removed(id).ids.len() implies canvas.ids.contains(
            #[trigger] canvas.removed(id).ids[i],
        ) by {
            let from = if i < at { i } else { i + 1 };
            assert(canvas.ids[from] == canvas.removed(id).ids[i]);
        }
    }
}

impl Server {
    /// A binary frame came in on connection `id`.
    pub fn binary(&mut self, id: u64, pixels: Vec<u8>) -> (effects: Vec<Effect>)
        requires
            old(self).wf(),
        ensures
            final(self).wf(),
            (Step { state: final(self)@, effects: effects_view(effects@) }) == old(
                self,
            )@.tile_received(id, pixels@),
    {
        let ghost data = pixels@;
        match self.image.update(id, pixels) {
            Ok(()) => {
                let effects = Vec::new();
                assert(effects_view(effects@) =~= old(self)@.tile_received(id, data).effects);
                effects
            },
            Err(UpdateError::Server(why)) => {
                let mut line = "Error updating pixels for ".to_owned();
                push_decimal(&mut line, id);
                line.append(": ");
                line.append(why.as_str());
                let mut effects = Vec::new();
                effects.push(Effect::Log(line));
                assert(effects_view(effects@) =~= old(self)@.tile_received(id, data).effects);
                effects
            },
            Err(UpdateError::Client(why)) => self.violation(id, why),
        }
    }

    /// The frame that tells a connection the size of a tile.
    fn size_message() -> (message: Message)
        ensures
            message@ == MessageView::Text(size_notice()),
    {
        let mut text = "{\"msg\": \"size\", \"w\": ".to_owned();
        push_decimal(&mut text, BUFFER_PIXELS as u64);
        text.append(", \"h\": ");
        push_decimal(&mut text, BUFFER_PIXELS as u64);
        text.append("}");
        Message::Text(text)
    }

    /// The frame that carries the composite.
    fn image_message(&self) -> (message: Message)
        requires
            self.wf(),
        ensures
            message@ == MessageView::Binary(image_frame(self@.canvas.side(), self@.canvas.pixels)),
    {
        let image = <&Vec<u8>>::from(&self.image);
        let side = self.image.dim();
        let mut frame: Vec<u8> = Vec::new();
        frame.push((side / 256) as u8);
        frame.push((side % 256) as u8);
        frame.extend_from_slice(image.as_slice());
        assert(frame@ =~= image_frame(self@.canvas.side(), self@.canvas.pixels));
        Message::Binary(frame)
    }

    /// Connection `id` asked for `request`.
    pub fn request(&mut self, id: u64, request: Request) -> (effects: Vec<Effect>)
        requires
            old(self).wf(),
        ensures
            final(self).wf(),
            (Step { state: final(self)@, effects: effects_view(effects@) }) == old(
                self,
            )@.requested(id, request@),
    {
        let ghost asked = request@;
        let ghost before = self@;
        let mut effects = Vec::new();
        match request {
            Request::Malformed(why) => {
                if self.clients.contains_key(&id) {
                    return self.violation(id, why);
                }
                let mut line = "Unknown client id ".to_owned();
                push_decimal(&mut line, id);
                effects.push(Effect::Log(line));
            },
            Request::Invalid(why) => {
                return self.violation(id, why);
            },
            Request::Painter { name, url } => {
                match self.clients.remove(&id) {
                    None => {
                        assert(self@.sessions =~= before.sessions);
                    },
                    Some(client) => {
                        assert(before.sessions.contains_key(id) && before.sessions[id] == client@);
                        let client = Session { data: Role::Painter, name, url, naughty: client.naughty };
                        match self.image.insert(id) {
                            Err(error) => {
                                self.image.remove(id);
                                effects.push(Effect::Log(error));
                                effects.push(Effect::Close);
                                proof {
                                    assert(self@.sessions =~= before.sessions.remove(id));
                                    lemma_removed_keeps_others(before.canvas, id);
                                }
                            },
                            Ok(()) => {
                                self.clients.insert(id, client);
                                effects.push(Effect::Send(Self::size_message()));
                                proof {
                                    assert(self@.sessions =~= before.sessions.insert(
                                        id,
                                        SessionView {
                                            data: Role::Painter,
                                            name: name@,
                                            url: url@,
                                            ..before.sessions[id]
                                        },
                                    ));
                                }
                            },
                        }
                    },
                }
            },
            Request::Canvas => {
                match self.clients.remove(&id) {
                    None => {
                        assert(self@.sessions =~= before.sessions);
                    },
                    Some(client) => {
                        assert(before.sessions.contains_key(id) && before.sessions[id] == client@);
                        let client = Session { data: Role::Canvas, ..client };
                        self.clients.insert(id, client);
                        effects.push(Effect::Send(Self::size_message()));
                        assert(self@.sessions =~= before.sessions.insert(
                            id,
                            SessionView { data: Role::Canvas, ..before.sessions[id] },
                        ));
                    },
                }
            },
            Request::Pixels => {
                if self.clients.contains_key(&id) {
                    let image = <&Vec<u8>>::from(&self.image);
                    if !image.is_empty() {
                        effects.push(Effect::Send(self.image_message()));
                    }
                }
            },
        }
        assert(effects_view(effects@) =~= before.requested(id, asked).effects);
        effects
    }

    /// A text frame came in on connection `id`.
    pub fn text(&mut self, id: u64, text: &str) -> (effects: Vec<Effect>)
        requires
            old(self).wf(),
        ensures
            final(self).wf(),
            (Step { state: final(self)@, effects: effects_view(effects@) }) == old(
                self,
            )@.requested(id, request_of(text@)),
    {
        let request = decode(text);
        self.request(id, request)
    }

    /// Takes one event from the transport and says what is to be done on
    /// its connection.
    pub fn handle(&mut self, event: Event) -> (effects: Vec<Effect>)
        requires
            old(self).wf(),
        ensures
            final(self).wf(),
            (Step { state: final(self)@, effects: effects_view(effects@) }) == old(self)@.stepped(
                event@,
            ),
    {
        match event {
            Event::Connect(id) => self.connect(id),
            Event::Disconnect(id) => self.disconnect(id),
            Event::Message(id, Message::Binary(pixels)) => self.binary(id, pixels),
            Event::Message(id, Message::Text(text)) => self.text(id, text.as_str()),
        }
    }
}

impl ServerView {
    /// Whether connection `id` is to be asked for its tile: it has a session
    /// that says it paints.
    pub open spec fn paints(self, id: u64) -> bool {
        self.sessions.contains_key(id) && self.sessions[id].data == Role::Painter
    }
}

impl Server {
    /// The frame that asks a painter for its tile.
    pub fn pixel_request_message() -> (message: Message)
        ensures
            message@ == MessageView::Text(pixel_request()),
    {
        Message::Text("{\"msg\": \"p\"}".to_owned())
    }

    /// The connections that are asked for their tiles when the clock ticks:
    /// every painter, once, in no particular order.
    pub fn poll_painters(&self) -> (painters: Vec<u64>)
        ensures
            painters@.no_duplicates(),
            forall|id: u64| painters@.contains(id) <==> self@.paints(id),
    {
        let mut painters: Vec<u64> = Vec::new();
        let ghost keys = spec_keys_iter(&self.clients).remaining();
        for id in it: self.clients.keys()
            invariant
                it.seq() == keys,
                keys.no_duplicates(),
                keys.unref().to_set() == self.clients@.dom(),
                painters@.no_duplicates(),
                forall|p: u64|
                    painters@.contains(p) <==> (exists|i: int|
                        0 <= i < it.index() && *#[trigger] keys[i] == p) && self@.paints(p),
        {
            let ghost seen = painters@;
            let ghost at = it.index();
            assert(keys.unref().to_set().contains(keys.unref()[at]));
            assert(self.clients@.contains_key(*id));
            match self.clients.get(id) {
                Some(client) => {
                    if client.data == Role::Painter {
                        painters.push(*id);
                        assert(!seen.contains(*id)) by {
                            if seen.contains(*id) {
                                let i = choose|i: int| 0 <= i < at && *#[trigger] keys[i] == *id;
                                assert(keys[i] == keys[at]);
                            }
                        }
                        assert forall|p: u64| painters@.contains(p) <==> (exists|i: int|
                            0 <= i < at + 1 && *#[trigger] keys[i] == p) && self@.paints(p) by {
                            if painters@.contains(p) {
                                let j = choose|j: int| 0 <= j < painters@.len() && painters@[j] == p;
                                if j < seen.len() {
                                    assert(seen.contains(p));
                                    let i = choose|i: int| 0 <= i < at && *#[trigger] keys[i] == p;
                                    assert(0 <= i < at + 1 && *keys[i] == p);
                                } else {
                                    assert(*keys[at] == p);
                                }
                            }
                            if (exists|i: int| 0 <= i < at + 1 && *#[trigger] keys[i] == p)
                                && self@.paints(p) {
                                let i = choose|i: int| 0 <= i < at + 1 && *#[trigger] keys[i] == p;
                                if i < at {
                                    assert(seen.contains(p));
                                    let j = choose|j: int| 0 <= j < seen.len() && seen[j] == p;
                                    assert(painters@[j] == p);
                                } else {
                                    assert(painters@[seen.len() as int] == p);
                                }
                            }
                        }
                    } else {
                        assert forall|p: u64| painters@.contains(p) <==> (exists|i: int|
                            0 <= i < at + 1 && *#[trigger] keys[i] == p) && self@.paints(p) by {
                            if painters@.contains(p) {
                                let i = choose|i: int| 0 <= i < at && *#[trigger] keys[i] == p;
                                assert(0 <= i < at + 1 && *keys[i] == p);
                            }
                        }
                    }
                },
                None => {},
            }
        }
        assert forall|id: u64| painters@.contains(id) <==> self@.paints(id) by {
            if self@.paints(id) {
                assert(keys.unref().to_set().contains(id));
                let i = choose|i: int| 0 <= i < keys.unref().len() && keys.unref()[i] == id;
                assert(*keys[i] == id);
            }
        }
        painters
    }
}

/// A violation keeps the server well formed.
pub proof fn lemma_violated_wf(state: ServerView, id: u64, why: Seq<char>)
    requires
        state.wf(),
    ensures
        state.violated(id, why).state.wf(),
{
    lemma_removed_wf(state.canvas, id);
    lemma_removed_keeps_others(state.canvas, id);
}

/// Every event keeps the server well formed: the canvas stays well formed,
/// no painter on it is without a session, and no session has more than 50
/// violations against it.
pub proof fn lemma_stepped_wf(state: ServerView, event: EventView)
    requires
        state.wf(),
    ensures
        state.stepped(event).state.wf(),
{
    match event {
        EventView::Connect(id) => {},
        EventView::Disconnect(id) => {
            lemma_removed_wf(state.canvas, id);
            lemma_removed_keeps_others(state.canvas, id);
        },
        EventView::Message(id, MessageView::Binary(data)) => {
            lemma_violated_wf(state, id, "Warning: data is larger than expected"@);
            lemma_violated_wf(state, id, "Warning: data is smaller than expected"@);
            lemma_updated_wf(state.canvas, id, data);
        },
        EventView::Message(id, MessageView::Text(text)) => {
            lemma_requested_wf(state, id, request_of(text));
        },
    }
}

/// Every request keeps the server well formed.
pub proof fn lemma_requested_wf(state: ServerView, id: u64, request: RequestView)
    requires
        state.wf(),
    ensures
        state.requested(id, request).state.wf(),
{
    match request {
        RequestView::Malformed(why) => {
            lemma_violated_wf(state, id, why);
        },
        RequestView::Invalid(why) => {
            lemma_violated_wf(state, id, why);
        },
        RequestView::Painter { name, url } => {
            lemma_inserted_wf(state.canvas, id);
            lemma_removed_wf(state.canvas, id);
            lemma_removed_keeps_others(state.canvas, id);
        },
        RequestView::Canvas => {},
        RequestView::Pixels => {},
    }
}

/// The server after connection `id` broke the protocol once for each of
/// `whys`, in a row.
pub open spec fn violated_in_a_row(state: ServerView, id: u64, whys: Seq<Seq<char>>) -> ServerView
    decreases whys.len(),
{
    if whys.len() == 0 {
        state
    } else {
        violated_in_a_row(state, id, whys.drop_last()).violated(id, whys.last()).state
    }
}

/// The ladder of warnings. Of the violations in a row by a connection that
/// had none against it, each of the first 49 is answered by a warning and
/// the 50th by the last warning, and the connection stays; the 51st closes
/// it, and its session and its place on the canvas are gone.
pub proof fn lemma_escalation_ladder(state: ServerView, id: u64, whys: Seq<Seq<char>>)
    requires
        state.wf(),
        state.sessions.contains_key(id),
        state.sessions[id].naughty == 0,
        1 <= whys.len() <= 51,
    ensures
        ({
            let count = whys.len();
            let before = violated_in_a_row(state, id, whys.drop_last());
            let step = before.violated(id, whys.last());
            &&& before.wf()
            &&& before.sessions.contains_key(id)
            &&& before.sessions[id].naughty == count - 1
            &&& count < 50 ==> step.effects == seq![sent_text(warning(whys.last(), count))]
            &&& count == 50 ==> step.effects == seq![
                sent_text(final_warning(whys.last(), count)),
            ]
            &&& count <= 50 ==> step.state.sessions.contains_key(id)
                && step.state.sessions[id].naughty == count && step.state.canvas == before.canvas
            &&& count == 51 ==> step.effects == seq![EffectView::Close]
                && !step.state.sessions.contains_key(id) && !step.state.canvas.ids.contains(id)
        }),
    decreases whys.len(),
{
    let earlier = whys.drop_last();
    if earlier.len() > 0 {
        lemma_escalation_ladder(state, id, earlier);
        let start = violated_in_a_row(state, id, earlier.drop_last());
        lemma_violated_wf(start, id, earlier.last());
    }
    let before = violated_in_a_row(state, id, earlier);
    lemma_removed_wf(before.canvas, id);
}

/// Before the first painter was taken in there is no image, and a
/// connection that asks for it is sent nothing.
pub proof fn lemma_no_image_before_first_painter(state: ServerView, id: u64)
    requires
        state.canvas.count() == 0,
        state.canvas.pixels.len() == 0,
    ensures
        state.requested(id, RequestView::Pixels).effects == Seq::<EffectView>::empty(),
        state.requested(id, RequestView::Pixels).state == state,
{
}

/// A connection that asks for the image is never sent an empty one.
pub proof fn lemma_image_never_empty(state: ServerView, id: u64)
    ensures
        ({
            let effects = state.requested(id, RequestView::Pixels).effects;
            forall|i: int|
                0 <= i < effects.len() ==> (#[trigger] effects[i] matches EffectView::Send(
                    MessageView::Binary(frame),
                ) && frame.len() > 2)
        }),
{
}

} // verus!
