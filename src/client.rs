//! The client's connection state machine.
//!
//! A driver owns the physical channel. It starts an operation (`send`, `recv`,
//! `next`, `subscribe`, `unsubscribe`, `reg`), carries out each returned
//! [`Command`], and reports the outcome back through [`Client::step`] until
//! the command is `Done` or `Fail`. Whenever the command is `Connect` or
//! `Fail`, the driver discards the channel it holds.
use vstd::prelude::*;
use crate::bytes::copy_range;
use crate::protocol::{
    Package, PackageModel, RegistrationPackage, SubscribePackage, encode_spec, decode_spec,
    route_key_of, lemma_round_trip,
};
use crate::session::{Session, SessionModel};

verus! {

/// Adds `step` to `counter`; an error once a nonzero `limit` is reached.
pub fn increment_with_limit(counter: u64, step: u64, limit: u64) -> (r: Result<u64, ()>)
    requires
        counter + step <= u64::MAX,
    ensures
        match r {
            Ok(c) => c == counter + step && (limit == 0 || c < limit),
            Err(_) => limit != 0 && counter + step >= limit,
        },
{
    let counter = counter + step;
    if limit != 0 {
        if counter >= limit {
            return Err(());
        }
    }
    Ok(counter)
}

/// Why an operation failed for good.
#[derive(Debug, Clone, Copy, PartialEq, Eq, Structural)]
pub enum ClientError {
    /// The reconnect budget ran out.
    RetriesExhausted,
    /// The endpoint cannot be reached at all (bad address); never retried.
    BadEndpoint,
}

/// What the driver reports after carrying out a command.
#[derive(Debug, Clone, PartialEq)]
pub enum Event {
    /// The connection was opened.
    Opened,
    /// Opening the connection failed; worth retrying.
    OpenFailed,
    /// The endpoint is unusable; not worth retrying.
    Unreachable,
    /// The frame was sent.
    Sent,
    /// Sending failed; the channel is dead.
    SendFailed,
    /// A binary frame arrived.
    Received(Vec<u8>),
    /// Receiving failed or the stream ended; the channel is dead.
    ReceiveFailed,
}

/// The value a finished operation returns.
#[derive(Debug, Clone, PartialEq)]
pub enum Reply {
    /// The operation is complete.
    Completed,
    /// A package that passed the receive filter.
    Delivered(Package),
}

/// What the driver has to do next.
#[derive(Debug, Clone, PartialEq)]
pub enum Command {
    /// Drop any channel held, wait `delay_ms` milliseconds, then connect.
    Connect { delay_ms: u64 },
    /// Send this frame on the channel.
    Transmit(Vec<u8>),
    /// Wait for the next frame on the channel.
    Receive,
    /// The operation succeeded.
    Done(Reply),
    /// The operation failed; drop any channel held.
    Fail(ClientError),
}

pub enum EventModel {
    Opened,
    OpenFailed,
    Unreachable,
    Sent,
    SendFailed,
    Received(Seq<u8>),
    ReceiveFailed,
}

pub enum ReplyModel {
    Completed,
    Delivered(PackageModel),
}

pub enum CommandModel {
    Connect { delay_ms: u64 },
    Transmit(Seq<u8>),
    Receive,
    Done(ReplyModel),
    Fail(ClientError),
}

impl View for Event {
    type V = EventModel;

    open spec fn view(&self) -> EventModel {
        match self {
            Event::Opened => EventModel::Opened,
            Event::OpenFailed => EventModel::OpenFailed,
            Event::Unreachable => EventModel::Unreachable,
            Event::Sent => EventModel::Sent,
            Event::SendFailed => EventModel::SendFailed,
            Event::Received(b) => EventModel::Received(b@),
            Event::ReceiveFailed => EventModel::ReceiveFailed,
        }
    }
}

impl View for Reply {
    type V = ReplyModel;

    open spec fn view(&self) -> ReplyModel {
        match self {
            Reply::Completed => ReplyModel::Completed,
            Reply::Delivered(p) => ReplyModel::Delivered(p@),
        }
    }
}

impl View for Command {
    type V = CommandModel;

    open spec fn view(&self) -> CommandModel {
        match self {
            Command::Connect { delay_ms } => CommandModel::Connect { delay_ms: *delay_ms },
            Command::Transmit(f) => CommandModel::Transmit(f@),
            Command::Receive => CommandModel::Receive,
            Command::Done(r) => CommandModel::Done(r@),
            Command::Fail(e) => CommandModel::Fail(*e),
        }
    }
}

/// State of the physical connection.
pub enum LinkModel {
    /// No channel.
    Down,
    /// Waiting for a connection attempt.
    Opening,
    /// Channel open; sending resync frame `i`.
    Resyncing(nat),
    /// Channel open and resynchronised.
    Up,
}

/// The operation under way.
pub enum TaskModel {
    Idle,
    /// Sending `frame`; `origin` is the session to restore if that fails.
    Deliver { frame: Seq<u8>, origin: SessionModel },
    /// Receiving; `filtered` drops packages the session does not want.
    Fetch { filtered: bool },
}

/// Mathematical value of a client.
pub struct ClientModel {
    pub max_reconnects: u64,
    pub delay_step: u64,
    pub session: SessionModel,
    pub link: LinkModel,
    pub resync: Seq<Seq<u8>>,
    pub task: TaskModel,
    pub attempts: u64,
}

/// The frames that replay a session on a fresh connection: a registration if
/// it is a router, then one subscribe per topic.
pub open spec fn resync_spec(s: SessionModel) -> Seq<Seq<u8>> {
    (if s.is_router {
        seq![encode_spec(PackageModel::Registration { is_router: true })]
    } else {
        Seq::empty()
    }) + s.topics.map_values(|t: Seq<char>| subscribe_frame(t))
}

/// The frame that announces a subscription to `t`.
pub open spec fn subscribe_frame(t: Seq<char>) -> Seq<u8> {
    encode_spec(PackageModel::Subscribe { is_sub: true, route_key: route_key_of(t), topic: t })
}

/// Whether the receive filter lets `p` through.
pub open spec fn passes(s: SessionModel, p: PackageModel) -> bool {
    match p {
        PackageModel::Subscribe { .. } => s.is_router,
        PackageModel::Registration { .. } => true,
        PackageModel::Message { topic, .. } => s.topics.contains(topic),
    }
}

/// Delay before a connection attempt when `attempts` attempts came before.
pub open spec fn backoff(attempts: u64, delay_step: u64) -> u64 {
    if attempts * delay_step > u64::MAX {
        u64::MAX
    } else {
        (attempts * delay_step) as u64
    }
}

impl ClientModel {
    /// The state invariant.
    pub open spec fn valid(self) -> bool {
        &&& self.session.topics.no_duplicates()
        &&& match self.task {
            TaskModel::Idle => self.link is Down || self.link is Up,
            TaskModel::Deliver { origin, .. } => origin.topics.no_duplicates(),
            TaskModel::Fetch { .. } => true,
        }
        &&& match self.link {
            LinkModel::Resyncing(i) => i < self.resync.len(),
            _ => true,
        }
    }

    /// Whether no operation is under way.
    pub open spec fn idle(self) -> bool {
        self.task is Idle
    }

    /// Whether the driver may report `e` now.
    pub open spec fn accepts(self, e: EventModel) -> bool {
        match e {
            EventModel::Opened | EventModel::OpenFailed | EventModel::Unreachable => self.link is Opening,
            EventModel::Sent | EventModel::SendFailed => self.link is Resyncing || (self.link is Up
                && self.task is Deliver),
            EventModel::Received(_) | EventModel::ReceiveFailed => self.link is Up && self.task is Fetch,
        }
    }

    /// The session that a failed operation leaves behind.
    pub open spec fn restored(self) -> SessionModel {
        match self.task {
            TaskModel::Deliver { origin, .. } => origin,
            _ => self.session,
        }
    }

    /// Ends the operation with error `e`, undoing its session change.
    pub open spec fn fail(self, e: ClientError) -> (ClientModel, CommandModel) {
        (
            ClientModel { session: self.restored(), link: LinkModel::Down, task: TaskModel::Idle, ..self },
            CommandModel::Fail(e),
        )
    }

    /// Ends the operation with `reply`.
    pub open spec fn finish(self, reply: ReplyModel) -> (ClientModel, CommandModel) {
        (ClientModel { task: TaskModel::Idle, ..self }, CommandModel::Done(reply))
    }

    /// Starts another connection attempt, or fails once the budget is spent.
    pub open spec fn reconnect(self) -> (ClientModel, CommandModel) {
        if self.max_reconnects == 0 || self.attempts < self.max_reconnects {
            (
                ClientModel {
                    link: LinkModel::Opening,
                    attempts: if self.attempts < u64::MAX { (self.attempts + 1) as u64 } else { self.attempts },
                    ..self
                },
                CommandModel::Connect { delay_ms: backoff(self.attempts, self.delay_step) },
            )
        } else {
            self.fail(ClientError::RetriesExhausted)
        }
    }

    /// The command that carries out the operation on a live channel.
    pub open spec fn issue(self) -> CommandModel {
        match self.task {
            TaskModel::Deliver { frame, .. } => CommandModel::Transmit(frame),
            TaskModel::Fetch { .. } => CommandModel::Receive,
            TaskModel::Idle => CommandModel::Done(ReplyModel::Completed),
        }
    }

    /// Goes on with resync frame `i`, or with the operation once all are sent.
    pub open spec fn advance(self, i: nat) -> (ClientModel, CommandModel) {
        if i >= self.resync.len() {
            let c = ClientModel { link: LinkModel::Up, ..self };
            (c, c.issue())
        } else {
            (ClientModel { link: LinkModel::Resyncing(i), ..self }, CommandModel::Transmit(self.resync[i as int]))
        }
    }

    /// Starts operation `task`: at once on a live channel, else by connecting.
    pub open spec fn begin(self, task: TaskModel) -> (ClientModel, CommandModel) {
        let c = ClientModel { task, attempts: 0, ..self };
        if self.link is Up {
            (c, c.issue())
        } else {
            c.reconnect()
        }
    }

    /// Sends package `p`.
    pub open spec fn send_spec(self, p: PackageModel) -> (ClientModel, CommandModel) {
        self.begin(TaskModel::Deliver { frame: encode_spec(p), origin: self.session })
    }

    /// Changes the session to `s` and announces it with package `p`; a no-op
    /// when `s` is the current session.
    pub open spec fn announce(self, s: SessionModel, p: PackageModel) -> (ClientModel, CommandModel) {
        if s == self.session {
            (self, CommandModel::Done(ReplyModel::Completed))
        } else {
            ClientModel { session: s, ..self }.begin(
                TaskModel::Deliver { frame: encode_spec(p), origin: self.session },
            )
        }
    }

    /// Subscribes to topic `t`.
    pub open spec fn subscribe_spec(self, t: Seq<char>) -> (ClientModel, CommandModel) {
        self.announce(
            self.session.with_topic(t),
            PackageModel::Subscribe { is_sub: true, route_key: route_key_of(t), topic: t },
        )
    }

    /// Unsubscribes from topic `t`.
    pub open spec fn unsubscribe_spec(self, t: Seq<char>) -> (ClientModel, CommandModel) {
        self.announce(
            self.session.without_topic(t),
            PackageModel::Subscribe { is_sub: false, route_key: route_key_of(t), topic: t },
        )
    }

    /// Sets the role.
    pub open spec fn reg_spec(self, is_router: bool) -> (ClientModel, CommandModel) {
        self.announce(self.session.with_role(is_router), PackageModel::Registration { is_router })
    }

    /// Handles a received frame: undecodable or filtered-out frames are
    /// skipped and the next one is awaited.
    pub open spec fn receive_spec(self, frame: Seq<u8>) -> (ClientModel, CommandModel) {
        match decode_spec(frame) {
            None => (self, CommandModel::Receive),
            Some(p) => {
                if self.task == (TaskModel::Fetch { filtered: true }) && !passes(self.session, p) {
                    (self, CommandModel::Receive)
                } else {
                    self.finish(ReplyModel::Delivered(p))
                }
            },
        }
    }

    /// The transition on event `e`.
    pub open spec fn step_spec(self, e: EventModel) -> (ClientModel, CommandModel) {
        match e {
            EventModel::Opened => ClientModel { resync: resync_spec(self.session), ..self }.advance(0),
            EventModel::Unreachable => self.fail(ClientError::BadEndpoint),
            EventModel::Sent => match self.link {
                LinkModel::Resyncing(i) => self.advance(i + 1),
                _ => self.finish(ReplyModel::Completed),
            },
            EventModel::Received(frame) => self.receive_spec(frame),
            _ => ClientModel { link: LinkModel::Down, ..self }.reconnect(),
        }
    }
}

enum Link {
    Down,
    Opening,
    Resyncing(usize),
    Up,
}

enum Task {
    Idle,
    Deliver { frame: Vec<u8>, origin: Session },
    Fetch { filtered: bool },
}

/// A publish/subscribe client: its session, reconnect policy and connection
/// state. `max_reconnects == 0` allows unlimited attempts.
pub struct Client {
    max_reconnects: u64,
    delay_step: u64,
    session: Session,
    link: Link,
    resync: Vec<Vec<u8>>,
    task: Task,
    attempts: u64,
}

impl View for Client {
    type V = ClientModel;

    closed spec fn view(&self) -> ClientModel {
        ClientModel {
            max_reconnects: self.max_reconnects,
            delay_step: self.delay_step,
            session: self.session@,
            link: match self.link {
                Link::Down => LinkModel::Down,
                Link::Opening => LinkModel::Opening,
                Link::Resyncing(i) => LinkModel::Resyncing(i as nat),
                Link::Up => LinkModel::Up,
            },
            resync: self.resync@.map_values(|f: Vec<u8>| f@),
            task: match self.task {
                Task::Idle => TaskModel::Idle,
                Task::Deliver { frame, origin } => TaskModel::Deliver { frame: frame@, origin: origin@ },
                Task::Fetch { filtered } => TaskModel::Fetch { filtered },
            },
            attempts: self.attempts,
        }
    }
}

/// A copy of a frame.
fn copy_frame(f: &Vec<u8>) -> (r: Vec<u8>)
    ensures
        r@ == f@,
{
    copy_range(f.as_slice(), 0, f.len())
}

/// The frames that replay `session` on a fresh connection.
pub fn resync_frames(session: &Session) -> (r: Vec<Vec<u8>>)
    requires
        session.wf(),
    ensures
        r@.map_values(|f: Vec<u8>| f@) == resync_spec(session@),
{
    let mut r: Vec<Vec<u8>> = Vec::new();
    if session.is_a_router() {
        r.push(RegistrationPackage { is_router: true }.to_bytes());
    }
    let ghost head = r@.map_values(|f: Vec<u8>| f@);
    let subs = session.all_keys();
    let ghost topics = session@.topics;
    let mut i: usize = 0;
    while i < subs.len()
        invariant
            0 <= i <= subs@.len(),
            subs@.len() == topics.len(),
            forall|j: int|
                0 <= j < subs@.len() ==> #[trigger] subs@[j].0@ == topics[j] && subs@[j].1
                    == route_key_of(topics[j]),
            r@.map_values(|f: Vec<u8>| f@) == head + topics.subrange(0, i as int).map_values(|t: Seq<char>| subscribe_frame(t)),
        decreases subs@.len() - i,
    {
        let ghost before = r@.map_values(|f: Vec<u8>| f@);
        let topic = subs[i].0.clone();
        assert(topic@ == topics[i as int]);
        let p = SubscribePackage { is_sub: true, route_key: subs[i].1, msg_key: topic };
        assert(p@ == PackageModel::Subscribe { is_sub: true, route_key: route_key_of(topics[i as int]), topic: topics[i as int] });
        let f = p.to_bytes();
        assert(subs@[i as int].0@ == topics[i as int]);
        assert(f@ == subscribe_frame(topics[i as int]));
        r.push(f);
        assert(head + topics.subrange(0, i + 1).map_values(|t: Seq<char>| subscribe_frame(t)) =~= (head + topics.subrange(0, i as int).map_values(|t: Seq<char>| subscribe_frame(t))).push(f@));
        assert(r@.map_values(|f: Vec<u8>| f@) =~= before.push(f@));
        assert(topics.subrange(0, i + 1).map_values(|t: Seq<char>| subscribe_frame(t)) =~= topics.subrange(0, i as int).map_values(|t: Seq<char>| subscribe_frame(t)).push(subscribe_frame(topics[i as int])));
        i = i + 1;
    }
    assert(topics.subrange(0, i as int) =~= topics);
    assert(head =~= (if session@.is_router {
        seq![encode_spec(PackageModel::Registration { is_router: true })]
    } else {
        Seq::empty()
    }));
    r
}

impl Client {
    /// The state invariant.
    pub closed spec fn wf(&self) -> bool {
        &&& self.session.wf()
        &&& self@.valid()
        &&& match self.task {
            Task::Deliver { origin, .. } => origin.wf(),
            _ => true,
        }
    }

    /// A disconnected, idle client over `session`.
    pub fn new(session: Session, max_reconnects: u64, delay_step: u64) -> (r: Client)
        requires
            session.wf(),
        ensures
            r.wf(),
            r@ == (ClientModel {
                max_reconnects,
                delay_step,
                session: session@,
                link: LinkModel::Down,
                resync: Seq::empty(),
                task: TaskModel::Idle,
                attempts: 0,
            }),
    {
        proof {
            session.lemma_topics_unique();
        }
        let r = Client {
            max_reconnects,
            delay_step,
            session,
            link: Link::Down,
            resync: Vec::new(),
            task: Task::Idle,
            attempts: 0,
        };
        assert(r@.resync =~= Seq::<Seq<u8>>::empty());
        r
    }

    /// A copy of the session.
    pub fn get_session(&self) -> (r: Session)
        requires
            self.wf(),
        ensures
            r.wf(),
            r@ == self@.session,
    {
        self.session.duplicate()
    }

    /// Whether an operation is under way.
    pub fn is_busy(&self) -> (r: bool)
        ensures
            r == !self@.idle(),
    {
        match self.task {
            Task::Idle => false,
            _ => true,
        }
    }

    /// Whether the channel is open and resynchronised.
    pub fn is_connected(&self) -> (r: bool)
        ensures
            r == self@.link is Up,
    {
        match self.link {
            Link::Up => true,
            _ => false,
        }
    }

    /// Whether the driver may report `e` now.
    pub fn accepts(&self, e: &Event) -> (r: bool)
        ensures
            r == self@.accepts(e@),
    {
        match e {
            Event::Opened | Event::OpenFailed | Event::Unreachable => match self.link {
                Link::Opening => true,
                _ => false,
            },
            Event::Sent | Event::SendFailed => match (&self.link, &self.task) {
                (Link::Resyncing(_), _) => true,
                (Link::Up, Task::Deliver { .. }) => true,
                _ => false,
            },
            Event::Received(_) | Event::ReceiveFailed => match (&self.link, &self.task) {
                (Link::Up, Task::Fetch { .. }) => true,
                _ => false,
            },
        }
    }

    /// Marks the channel as closed; the driver drops it.
    pub fn close(&mut self)
        requires
            old(self).wf(),
            old(self)@.idle(),
        ensures
            final(self).wf(),
            final(self)@ == (ClientModel { link: LinkModel::Down, ..old(self)@ }),
    {
        self.link = Link::Down;
    }

    fn fail(&mut self, e: ClientError) -> (r: Command)
        requires
            old(self).wf(),
        ensures
            final(self).wf(),
            (final(self)@, r@) == old(self)@.fail(e),
    {
        let mut task = Task::Idle;
        core::mem::swap(&mut task, &mut self.task);
        if let Task::Deliver { frame: _, origin } = task {
            self.session = origin;
        }
        self.link = Link::Down;
        Command::Fail(e)
    }

    fn finish(&mut self, reply: Reply) -> (r: Command)
        requires
            old(self).wf(),
            old(self)@.link is Down || old(self)@.link is Up,
        ensures
            final(self).wf(),
            (final(self)@, r@) == old(self)@.finish(reply@),
    {
        self.task = Task::Idle;
        Command::Done(reply)
    }

    fn reconnect(&mut self) -> (r: Command)
        requires
            old(self).wf(),
            !old(self)@.idle(),
        ensures
            final(self).wf(),
            (final(self)@, r@) == old(self)@.reconnect(),
    {
        match increment_with_limit(self.attempts, 0, self.max_reconnects) {
            Err(_) => self.fail(ClientError::RetriesExhausted),
            Ok(_) => {
                let delay_ms = match self.attempts.checked_mul(self.delay_step) {
                    Some(d) => d,
                    None => u64::MAX,
                };
                self.attempts = self.attempts.saturating_add(1);
                self.link = Link::Opening;
                Command::Connect { delay_ms }
            },
        }
    }

    fn issue(&self) -> (r: Command)
        ensures
            r@ == self@.issue(),
    {
        match &self.task {
            Task::Deliver { frame, .. } => Command::Transmit(copy_frame(frame)),
            Task::Fetch { .. } => Command::Receive,
            Task::Idle => Command::Done(Reply::Completed),
        }
    }

    fn advance(&mut self, i: usize) -> (r: Command)
        requires
            old(self).wf(),
            !old(self)@.idle(),
        ensures
            final(self).wf(),
            (final(self)@, r@) == old(self)@.advance(i as nat),
    {
        if i >= self.resync.len() {
            self.link = Link::Up;
            self.issue()
        } else {
            self.link = Link::Resyncing(i);
            Command::Transmit(copy_frame(&self.resync[i]))
        }
    }

    fn begin(&mut self, task: Task) -> (r: Command)
        requires
            old(self).wf(),
            old(self)@.idle(),
            !(task is Idle),
            match task {
                Task::Deliver { origin, .. } => origin.wf(),
                _ => true,
            },
        ensures
            final(self).wf(),
            (final(self)@, r@) == old(self)@.begin(
                match task {
                    Task::Idle => TaskModel::Idle,
                    Task::Deliver { frame, origin } => TaskModel::Deliver { frame: frame@, origin: origin@ },
                    Task::Fetch { filtered } => TaskModel::Fetch { filtered },
                },
            ),
    {
        proof {
            if let Task::Deliver { origin, .. } = &task {
                origin.lemma_topics_unique();
            }
        }
        self.task = task;
        self.attempts = 0;
        if self.is_connected() {
            self.issue()
        } else {
            self.reconnect()
        }
    }
}

impl Client {
    /// Whether the receive filter lets `p` through.
    fn passes(&self, p: &Package) -> (r: bool)
        requires
            self.wf(),
        ensures
            r == passes(self@.session, p@),
    {
        match p {
            Package::Sub(_) => self.session.is_a_router(),
            Package::Reg(_) => true,
            Package::Msg(m) => self.session.is_sub(m.msg_key.clone()).is_some(),
        }
    }

    /// Starts sending `package`, connecting first when needed.
    pub fn send(&mut self, package: Package) -> (r: Command)
        requires
            old(self).wf(),
            old(self)@.idle(),
        ensures
            final(self).wf(),
            (final(self)@, r@) == old(self)@.send_spec(package@),
    {
        let frame = package.to_bytes();
        let origin = self.session.duplicate();
        self.begin(Task::Deliver { frame, origin })
    }

    /// Starts receiving the next decodable package, whatever it is.
    pub fn recv(&mut self) -> (r: Command)
        requires
            old(self).wf(),
            old(self)@.idle(),
        ensures
            final(self).wf(),
            (final(self)@, r@) == old(self)@.begin(TaskModel::Fetch { filtered: false }),
    {
        self.begin(Task::Fetch { filtered: false })
    }

    /// Starts receiving the next package that the session wants: subscribe
    /// packages only for a router, messages only on subscribed topics.
    pub fn next(&mut self) -> (r: Command)
        requires
            old(self).wf(),
            old(self)@.idle(),
        ensures
            final(self).wf(),
            (final(self)@, r@) == old(self)@.begin(TaskModel::Fetch { filtered: true }),
    {
        self.begin(Task::Fetch { filtered: true })
    }

    /// Subscribes to `key`: updates the session and announces it; rolled back
    /// if the announcement cannot be sent. Already subscribed: done at once.
    pub fn subscribe(&mut self, key: String) -> (r: Command)
        requires
            old(self).wf(),
            old(self)@.idle(),
        ensures
            final(self).wf(),
            (final(self)@, r@) == old(self)@.subscribe_spec(key@),
    {
        let origin = self.session.duplicate();
        match self.session.sub(key.clone()) {
            None => Command::Done(Reply::Completed),
            Some(route_key) => {
                assert(self.session@.topics.len() != origin@.topics.len());
                let frame = SubscribePackage { is_sub: true, route_key, msg_key: key }.to_bytes();
                self.begin(Task::Deliver { frame, origin })
            },
        }
    }

    /// Unsubscribes from `key`: updates the session and announces it; rolled
    /// back if the announcement cannot be sent. Not subscribed: done at once.
    pub fn unsubscribe(&mut self, key: String) -> (r: Command)
        requires
            old(self).wf(),
            old(self)@.idle(),
        ensures
            final(self).wf(),
            (final(self)@, r@) == old(self)@.unsubscribe_spec(key@),
    {
        let origin = self.session.duplicate();
        match self.session.unsub(key.clone()) {
            None => Command::Done(Reply::Completed),
            Some(route_key) => {
                assert(self.session@.topics.len() != origin@.topics.len());
                let frame = SubscribePackage { is_sub: false, route_key, msg_key: key }.to_bytes();
                self.begin(Task::Deliver { frame, origin })
            },
        }
    }

    /// Sets the role: updates the session and announces it; rolled back if
    /// the announcement cannot be sent. Same role: done at once.
    pub fn reg(&mut self, is_a_router: bool) -> (r: Command)
        requires
            old(self).wf(),
            old(self)@.idle(),
        ensures
            final(self).wf(),
            (final(self)@, r@) == old(self)@.reg_spec(is_a_router),
    {
        let origin = self.session.duplicate();
        match self.session.set_a_router(is_a_router) {
            None => Command::Done(Reply::Completed),
            Some(_) => {
                let frame = RegistrationPackage { is_router: is_a_router }.to_bytes();
                self.begin(Task::Deliver { frame, origin })
            },
        }
    }

    /// Advances the operation under way with the outcome `event` of the last
    /// command.
    pub fn step(&mut self, event: Event) -> (r: Command)
        requires
            old(self).wf(),
            old(self)@.accepts(event@),
        ensures
            final(self).wf(),
            (final(self)@, r@) == old(self)@.step_spec(event@),
    {
        match event {
            Event::Opened => {
                self.resync = resync_frames(&self.session);
                self.advance(0)
            },
            Event::Unreachable => self.fail(ClientError::BadEndpoint),
            Event::Sent => match self.link {
                Link::Resyncing(i) => {
                    assert(self@.link == LinkModel::Resyncing(i as nat));
                    let n = self.resync.len();
                    assert(i < n);
                    self.advance(i + 1)
                },
                _ => self.finish(Reply::Completed),
            },
            Event::Received(frame) => match Package::from_bytes(frame.as_slice()) {
                Err(_) => Command::Receive,
                Ok(p) => {
                    let filtered = match self.task {
                        Task::Fetch { filtered } => filtered,
                        _ => false,
                    };
                    if filtered && !self.passes(&p) {
                        Command::Receive
                    } else {
                        self.finish(Reply::Delivered(p))
                    }
                },
            },
            _ => {
                self.link = Link::Down;
                self.reconnect()
            },
        }
    }
}

/// The state and last command after the driver reports `events` in turn,
/// starting from state `c` and command `k`; it stops once the operation is
/// over or at an event the state does not accept.
pub open spec fn run(c: ClientModel, k: CommandModel, events: Seq<EventModel>) -> (ClientModel, CommandModel)
    decreases events.len(),
{
    if events.len() == 0 || k is Done || k is Fail || !c.accepts(events[0]) {
        (c, k)
    } else {
        let (c2, k2) = c.step_spec(events[0]);
        run(c2, k2, events.drop_first())
    }
}

/// `n` failed connection attempts in a row.
pub open spec fn open_failures(n: nat) -> Seq<EventModel> {
    Seq::new(n, |i: int| EventModel::OpenFailed)
}

/// While a send is under way the session is `s` and the session to restore
/// is `o`; a failure restores `o` and a success keeps `s`.
spec fn deliver_inv(c: ClientModel, k: CommandModel, o: SessionModel, s: SessionModel) -> bool {
    &&& k is Fail ==> c.session == o
    &&& k is Done ==> c.session == s
    &&& !(k is Done || k is Fail) ==> {
        &&& c.valid()
        &&& c.session == s
        &&& c.task is Deliver
        &&& c.task->origin == o
        &&& !(c.link is Down)
    }
}

proof fn lemma_deliver_run(c: ClientModel, k: CommandModel, events: Seq<EventModel>, o: SessionModel, s: SessionModel)
    requires
        deliver_inv(c, k, o, s),
    ensures
        deliver_inv(run(c, k, events).0, run(c, k, events).1, o, s),
    decreases events.len(),
{
    if events.len() == 0 || k is Done || k is Fail || !c.accepts(events[0]) {
    } else {
        let (c2, k2) = c.step_spec(events[0]);
        assert(deliver_inv(c2, k2, o, s));
        lemma_deliver_run(c2, k2, events.drop_first(), o, s);
    }
}

proof fn lemma_announce_run(c: ClientModel, s: SessionModel, p: PackageModel, events: Seq<EventModel>)
    requires
        c.valid(),
        c.idle(),
        s.topics.no_duplicates(),
    ensures
        ({
            let (c1, k1) = c.announce(s, p);
            let (cn, kn) = run(c1, k1, events);
            &&& kn is Fail ==> cn.session == c.session
            &&& kn is Done ==> cn.session == s
        }),
{
    let (c1, k1) = c.announce(s, p);
    if s == c.session {
        assert(run(c1, k1, events) == (c1, k1));
    } else {
        assert(deliver_inv(c1, k1, c.session, s));
        lemma_deliver_run(c1, k1, events, c.session, s);
    }
}

proof fn lemma_with_topic_unique(s: SessionModel, t: Seq<char>)
    requires
        s.topics.no_duplicates(),
    ensures
        s.with_topic(t).topics.no_duplicates(),
{
    if !s.topics.contains(t) {
        let u = s.topics.push(t);
        assert forall|i: int, j: int| 0 <= i < u.len() && 0 <= j < u.len() && i != j implies u[i]
            != u[j] by {
            if i == s.topics.len() as int {
                assert(u[j] == s.topics[j]);
            } else if j == s.topics.len() as int {
                assert(u[i] == s.topics[i]);
            }
        }
    }
}

proof fn lemma_without_topic_unique(s: SessionModel, t: Seq<char>)
    requires
        s.topics.no_duplicates(),
    ensures
        s.without_topic(t).topics.no_duplicates(),
{
    if s.topics.contains(t) {
        let k = choose|i: int| 0 <= i < s.topics.len() && s.topics[i] == t;
        let u = s.topics.remove(k);
        assert forall|i: int, j: int| 0 <= i < u.len() && 0 <= j < u.len() && i != j implies u[i]
            != u[j] by {
            let i2 = if i < k { i } else { i + 1 };
            let j2 = if j < k { j } else { j + 1 };
            assert(u[i] == s.topics[i2] && u[j] == s.topics[j2]);
        }
    }
}

/// A subscribe, unsubscribe or role change whose announcement fails in the
/// end leaves the session as it was before the call.
pub proof fn lemma_rollback(c: ClientModel, t: Seq<char>, is_router: bool, events: Seq<EventModel>)
    requires
        c.valid(),
        c.idle(),
    ensures
        ({
            let (c1, k1) = c.subscribe_spec(t);
            let (cn, kn) = run(c1, k1, events);
            kn is Fail ==> cn.session == c.session && cn.session.key_of(t) == c.session.key_of(t)
        }),
        ({
            let (c1, k1) = c.unsubscribe_spec(t);
            let (cn, kn) = run(c1, k1, events);
            kn is Fail ==> cn.session == c.session && cn.session.key_of(t) == c.session.key_of(t)
        }),
        ({
            let (c1, k1) = c.reg_spec(is_router);
            let (cn, kn) = run(c1, k1, events);
            kn is Fail ==> cn.session == c.session
        }),
{
    lemma_with_topic_unique(c.session, t);
    lemma_without_topic_unique(c.session, t);
    lemma_announce_run(
        c,
        c.session.with_topic(t),
        PackageModel::Subscribe { is_sub: true, route_key: route_key_of(t), topic: t },
        events,
    );
    lemma_announce_run(
        c,
        c.session.without_topic(t),
        PackageModel::Subscribe { is_sub: false, route_key: route_key_of(t), topic: t },
        events,
    );
    lemma_announce_run(c, c.session.with_role(is_router), PackageModel::Registration { is_router }, events);
}

/// Once a subscribe to `t` has completed, subscribing to `t` again changes
/// nothing and sends nothing.
pub proof fn lemma_subscribe_idempotent(c: ClientModel, t: Seq<char>, events: Seq<EventModel>)
    requires
        c.valid(),
        c.idle(),
    ensures
        ({
            let (c1, k1) = c.subscribe_spec(t);
            let (cn, kn) = run(c1, k1, events);
            kn is Done ==> cn.session.topics.contains(t) && cn.subscribe_spec(t) == (cn, CommandModel::Done(ReplyModel::Completed))
        }),
{
    lemma_with_topic_unique(c.session, t);
    lemma_announce_run(
        c,
        c.session.with_topic(t),
        PackageModel::Subscribe { is_sub: true, route_key: route_key_of(t), topic: t },
        events,
    );
    let s = c.session.with_topic(t);
    if !c.session.topics.contains(t) {
        assert(s.topics[s.topics.len() - 1] == t);
    }
    assert(s.topics.contains(t));
}

/// The resync frames are one registration when the session is a router, then
/// exactly one subscribe per subscribed topic.
pub proof fn lemma_resync_complete(s: SessionModel)
    requires
        s.topics.no_duplicates(),
    ensures
        resync_spec(s).len() == (if s.is_router { 1int } else { 0int }) + s.topics.len(),
        s.is_router ==> decode_spec(resync_spec(s)[0]) == Some(PackageModel::Registration { is_router: true }),
        forall|t: Seq<char>| #[trigger] s.topics.contains(t) ==> exists|i: int|
            0 <= i < resync_spec(s).len() && decode_spec(resync_spec(s)[i]) == Some(
                PackageModel::Subscribe { is_sub: true, route_key: route_key_of(t), topic: t },
            ),
        forall|i: int, j: int|
            0 <= i < resync_spec(s).len() && 0 <= j < resync_spec(s).len() && i != j && decode_spec(
                #[trigger] resync_spec(s)[i],
            ) is Some && decode_spec(resync_spec(s)[i]) == decode_spec(#[trigger] resync_spec(s)[j])
                ==> decode_spec(resync_spec(s)[i])->Some_0 is Registration,
{
    let h: int = if s.is_router { 1 } else { 0 };
    let f = resync_spec(s);
    lemma_round_trip(PackageModel::Registration { is_router: true });
    assert forall|i: int| h <= i < f.len() implies decode_spec(#[trigger] f[i]) == Some(
        PackageModel::Subscribe { is_sub: true, route_key: route_key_of(s.topics[i - h]), topic: s.topics[i - h] },
    ) by {
        assert(f[i] == subscribe_frame(s.topics[i - h]));
        lemma_round_trip(
            PackageModel::Subscribe { is_sub: true, route_key: route_key_of(s.topics[i - h]), topic: s.topics[i - h] },
        );
    }
    assert forall|t: Seq<char>| #[trigger] s.topics.contains(t) implies exists|i: int|
        0 <= i < f.len() && decode_spec(f[i]) == Some(
            PackageModel::Subscribe { is_sub: true, route_key: route_key_of(t), topic: t },
        ) by {
        let k = choose|k: int| 0 <= k < s.topics.len() && s.topics[k] == t;
        assert(decode_spec(f[k + h]) == Some(
            PackageModel::Subscribe { is_sub: true, route_key: route_key_of(t), topic: t },
        ));
    }
    assert forall|i: int, j: int|
        0 <= i < f.len() && 0 <= j < f.len() && i != j && decode_spec(#[trigger] f[i]) is Some
            && decode_spec(f[i]) == decode_spec(#[trigger] f[j]) implies decode_spec(f[i])->Some_0 is Registration by {
        if i >= h && j >= h {
            assert(s.topics[i - h] != s.topics[j - h]);
        } else if i >= h {
            assert(decode_spec(f[j]) == Some(PackageModel::Registration { is_router: true }));
        }
    }
}

/// The client reports a live channel only after the last resync frame went
/// out (or right after connecting, when there is nothing to replay).
pub proof fn lemma_connected_after_resync(c: ClientModel, e: EventModel)
    requires
        c.valid(),
        c.accepts(e),
        !(c.link is Up),
        c.step_spec(e).0.link is Up,
    ensures
        (e is Sent && c.link == LinkModel::Resyncing((c.resync.len() - 1) as nat)) || (e is Opened
            && resync_spec(c.session).len() == 0),
{
}

/// A client that only delivers what its session wants: no subscribe package
/// unless it is a router, and no message on a topic it is not subscribed to.
pub proof fn lemma_filter(c: ClientModel, frame: Seq<u8>)
    requires
        c.task == (TaskModel::Fetch { filtered: true }),
    ensures
        ({
            let (c2, k) = c.step_spec(EventModel::Received(frame));
            k is Done ==> match k->Done_0 {
                ReplyModel::Delivered(p) => {
                    &&& p is Subscribe ==> c.session.is_router
                    &&& p is Message ==> c.session.topics.contains(p->Message_topic)
                },
                ReplyModel::Completed => false,
            }
        }),
{
}

proof fn lemma_failures_run(c: ClientModel, k: CommandModel, j: nat)
    requires
        c.valid(),
        !c.idle(),
        c.link is Opening,
        !(k is Done || k is Fail),
        c.max_reconnects == 0 || c.attempts + j <= c.max_reconnects,
        c.attempts + j <= u64::MAX,
    ensures
        forall|b: Seq<EventModel>| #[trigger] run(c, k, open_failures(j) + b) == run(
            run(c, k, open_failures(j)).0,
            run(c, k, open_failures(j)).1,
            b,
        ),
        ({
            let (cn, kn) = run(c, k, open_failures(j));
            &&& j > 0 ==> kn == CommandModel::Connect { delay_ms: backoff((c.attempts + j - 1) as u64, c.delay_step) }
            &&& j == 0 ==> kn == k
            &&& cn.link is Opening
            &&& cn.valid()
            &&& !cn.idle()
            &&& cn.attempts == c.attempts + j
            &&& cn.task == c.task
            &&& cn.session == c.session
            &&& cn.max_reconnects == c.max_reconnects
            &&& cn.delay_step == c.delay_step
        }),
    decreases j,
{
    if j > 0 {
        let (c2, k2) = c.step_spec(EventModel::OpenFailed);
        assert(open_failures(j).drop_first() =~= open_failures((j - 1) as nat));
        lemma_failures_run(c2, k2, (j - 1) as nat);
        if j > 1 {
        } else {
            assert(run(c2, k2, open_failures(0)) == (c2, k2));
        }
        assert forall|b: Seq<EventModel>| #[trigger] run(c, k, open_failures(j) + b) == run(
            run(c, k, open_failures(j)).0,
            run(c, k, open_failures(j)).1,
            b,
        ) by {
            assert((open_failures(j) + b)[0] == EventModel::OpenFailed);
            assert((open_failures(j) + b).drop_first() =~= open_failures((j - 1) as nat) + b);
            assert(open_failures(j)[0] == EventModel::OpenFailed);
            assert(c.accepts(EventModel::OpenFailed));
            assert(run(c, k, open_failures(j) + b) == run(c2, k2, open_failures((j - 1) as nat) + b));
            assert(run(c, k, open_failures(j)) == run(c2, k2, open_failures((j - 1) as nat)));
            assert(run(c2, k2, open_failures((j - 1) as nat) + b) == run(
                run(c2, k2, open_failures((j - 1) as nat)).0,
                run(c2, k2, open_failures((j - 1) as nat)).1,
                b,
            ));
        }
    } else {
        assert forall|b: Seq<EventModel>| #[trigger] run(c, k, open_failures(j) + b) == run(
            run(c, k, open_failures(j)).0,
            run(c, k, open_failures(j)).1,
            b,
        ) by {
            assert(open_failures(j) + b =~= b);
        }
    }
}

/// Starting from no connection, the attempt made after `n` failed ones waits
/// `n * delay_step` milliseconds, as long as the budget allows an attempt
/// `n + 1`.
pub proof fn lemma_backoff(c: ClientModel, p: PackageModel, n: nat)
    requires
        c.valid(),
        c.idle(),
        c.link is Down,
        c.max_reconnects == 0 || n < c.max_reconnects,
        n < u64::MAX - 1,
        n * c.delay_step <= u64::MAX,
    ensures
        ({
            let (c1, k1) = c.send_spec(p);
            run(c1, k1, open_failures(n)).1 == CommandModel::Connect { delay_ms: (n * c.delay_step) as u64 }
        }),
{
    let (c1, k1) = c.send_spec(p);
    assert(0 * c.delay_step == 0) by (nonlinear_arith);
    lemma_failures_run(c1, k1, n);
}

/// With a budget of `m` attempts, `m` failed ones end the operation: no
/// further attempt is made, and the session is left as it was.
pub proof fn lemma_budget(c: ClientModel, p: PackageModel)
    requires
        c.valid(),
        c.idle(),
        c.link is Down,
        c.max_reconnects > 0,
    ensures
        ({
            let (c1, k1) = c.send_spec(p);
            let (cn, kn) = run(c1, k1, open_failures(c.max_reconnects as nat));
            kn == CommandModel::Fail(ClientError::RetriesExhausted) && cn.session == c.session
        }),
{
    let m = c.max_reconnects as nat;
    let (c1, k1) = c.send_spec(p);
    lemma_failures_run(c1, k1, (m - 1) as nat);
    let (cm, km) = run(c1, k1, open_failures((m - 1) as nat));
    assert(open_failures((m - 1) as nat) + open_failures(1) =~= open_failures(m));
    assert(run(c1, k1, open_failures((m - 1) as nat) + open_failures(1)) == run(cm, km, open_failures(1)));
    let (c2, k2) = cm.step_spec(EventModel::OpenFailed);
    assert(km is Connect);
    assert(open_failures(1)[0] == EventModel::OpenFailed);
    assert(open_failures(1).drop_first() =~= open_failures(0));
    assert(run(cm, km, open_failures(1)) == run(c2, k2, open_failures(0)));
}

} // verus!
