//! The client side of the transport: the worker's connect/read/write state
//! machine as a pure transition function from state and input to next state
//! and actions, and the owner-facing session handle that tracks status and
//! collects inbound traffic.
//!
//! The worker owns no socket here: dialing, writing, closing and emitting
//! are returned as actions for the surrounding I/O loop to perform, and the
//! loop hands the outcomes back in. That keeps every decision verified while
//! the loop stays a thin shell. A batch of actions is ordered; when an
//! outcome handed back mid-batch is fatal (a failed write), the machine's
//! reaction replaces what the batch still planned, and the shell discards
//! the remainder — otherwise a stale event could follow the disconnect.

use vstd::prelude::*;
use vstd::string::StringExecFns;
use crate::protocol::{RealtimeStatus, RealtimeCommand, CommandView, RealtimeEvent, EventView,
    Message, RealtimeAttachment, AttachmentView, atts_view, IncomingMessage, IncomingView,
    PresenceUpdate, PresenceUpdateView, RealtimeInbound, InboundView, RealtimePayload,
    opt_str_view};
use crate::codec::{encode_realtime_message, encode_payload, enc_message_payload,
    enc_auth_payload, decode_realtime_inbound, decode_inbound_spec};

verus! {

// ---------- the worker state machine ----------

/// What the worker asks its I/O loop to do, in order.
#[derive(Debug)]
pub enum WorkerAction {
    /// Parse the target address and open the socket connection.
    Dial,
    /// Write one text frame to the socket.
    SendFrame(String),
    /// Close the socket with a best-effort close frame.
    CloseSocket,
    /// Push one event onto the owner's queue.
    Emit(RealtimeEvent),
}

pub enum ActionView {
    Dial,
    SendFrame(Seq<char>),
    CloseSocket,
    Emit(EventView),
}

impl View for WorkerAction {
    type V = ActionView;

    open spec fn view(&self) -> ActionView {
        match self {
            WorkerAction::Dial => ActionView::Dial,
            WorkerAction::SendFrame(t) => ActionView::SendFrame(t@),
            WorkerAction::CloseSocket => ActionView::CloseSocket,
            WorkerAction::Emit(e) => ActionView::Emit(e@),
        }
    }
}

pub open spec fn actions_view(v: Seq<WorkerAction>) -> Seq<ActionView> {
    v.map_values(|a: WorkerAction| a@)
}

pub open spec fn status_event(status: RealtimeStatus, message: Option<Seq<char>>, error: Option<
    Seq<char>,
>) -> EventView {
    EventView { status, message, error, inbound: None, presence: None }
}

/// The worker's state between loop iterations.
pub struct RealtimeWorker {
    pub status: RealtimeStatus,
    pub target_url: String,
    pub auth_token: String,
    pub auth_user: String,
}

pub struct WorkerModel {
    pub status: RealtimeStatus,
    pub target_url: Seq<char>,
    pub auth_token: Seq<char>,
    pub auth_user: Seq<char>,
}

impl View for RealtimeWorker {
    type V = WorkerModel;

    open spec fn view(&self) -> WorkerModel {
        WorkerModel {
            status: self.status,
            target_url: self.target_url@,
            auth_token: self.auth_token@,
            auth_user: self.auth_user@,
        }
    }
}

pub open spec fn with_status(w: WorkerModel, status: RealtimeStatus) -> WorkerModel {
    WorkerModel { status, ..w }
}

/// The reaction to one owner command. `Connect` is idempotent: it dials only
/// from `Disconnected`. `Disconnect` always closes and reports. `Send`
/// encodes and writes only while connected; without a socket the send is
/// dropped.
pub open spec fn step_command(w: WorkerModel, cmd: CommandView) -> (WorkerModel, Seq<ActionView>) {
    match cmd {
        CommandView::Connect => {
            if w.status is Disconnected {
                (
                    with_status(w, RealtimeStatus::Connecting),
                    seq![
                        ActionView::Emit(
                            status_event(
                                RealtimeStatus::Connecting,
                                Some("Dialing "@ + w.target_url),
                                None,
                            ),
                        ),
                        ActionView::Dial,
                    ],
                )
            } else {
                (w, Seq::empty())
            }
        },
        CommandView::Disconnect => (
            with_status(w, RealtimeStatus::Disconnected),
            seq![
                ActionView::CloseSocket,
                ActionView::Emit(
                    status_event(RealtimeStatus::Disconnected, Some("Closed socket"@), None),
                ),
            ],
        ),
        CommandView::SendMessage { author, body, sent_at, channel_id, attachments } => {
            if w.status is Connected {
                (
                    w,
                    seq![
                        ActionView::SendFrame(
                            enc_message_payload(author, body, sent_at, channel_id, attachments),
                        ),
                    ],
                )
            } else {
                (w, Seq::empty())
            }
        },
    }
}

/// The reaction to the dial outcome: success authenticates at once and
/// reports the handshake; failure returns to `Disconnected` with the reason.
/// A stray outcome in any other state is ignored.
pub open spec fn step_dial_result(w: WorkerModel, result: Result<(), Seq<char>>) -> (
    WorkerModel,
    Seq<ActionView>,
) {
    if w.status is Connecting {
        match result {
            Ok(()) => (
                with_status(w, RealtimeStatus::Connected),
                seq![
                    ActionView::SendFrame(enc_auth_payload(w.auth_token, w.auth_user)),
                    ActionView::Emit(
                        status_event(RealtimeStatus::Connected, Some("Handshake complete"@), None),
                    ),
                ],
            ),
            Err(e) => (
                with_status(w, RealtimeStatus::Disconnected),
                seq![ActionView::Emit(status_event(RealtimeStatus::Disconnected, None, Some(e)))],
            ),
        }
    } else {
        (w, Seq::empty())
    }
}

/// The reaction to a write outcome: any write failure while connected is
/// fatal, dropping the connection and reporting the error.
pub open spec fn step_write_result(w: WorkerModel, result: Result<(), Seq<char>>) -> (
    WorkerModel,
    Seq<ActionView>,
) {
    match result {
        Ok(()) => (w, Seq::empty()),
        Err(e) => {
            if w.status is Connected {
                (
                    with_status(w, RealtimeStatus::Disconnected),
                    seq![
                        ActionView::Emit(status_event(RealtimeStatus::Disconnected, None, Some(e))),
                    ],
                )
            } else {
                (w, Seq::empty())
            }
        },
    }
}

/// The reaction to one inbound text frame while connected: decode and emit
/// the matching event; a malformed frame is dropped with an error event and
/// never changes the status.
pub open spec fn step_frame(w: WorkerModel, text: Seq<char>) -> (WorkerModel, Seq<ActionView>) {
    if w.status is Connected {
        let ev = match decode_inbound_spec(text) {
            Ok(InboundView::Message(m)) => EventView {
                status: RealtimeStatus::Connected,
                message: Some("Message received"@),
                error: None,
                inbound: Some(m),
                presence: None,
            },
            Ok(InboundView::Presence { user, status }) => EventView {
                status: RealtimeStatus::Connected,
                message: Some("Presence: "@ + user + " is "@ + status),
                error: None,
                inbound: None,
                presence: Some(PresenceUpdateView { user, status }),
            },
            Ok(InboundView::Signal(signal)) => status_event(
                RealtimeStatus::Connected,
                Some(signal),
                None,
            ),
            Err(e) => status_event(RealtimeStatus::Connected, None, Some(e)),
        };
        (w, seq![ActionView::Emit(ev)])
    } else {
        (w, Seq::empty())
    }
}

/// The reaction to a read outcome that returned no frame: would-block is not
/// an error; anything else while connected is fatal.
pub open spec fn step_read_error(w: WorkerModel, would_block: bool, error: Seq<char>) -> (
    WorkerModel,
    Seq<ActionView>,
) {
    if !would_block && w.status is Connected {
        (
            with_status(w, RealtimeStatus::Disconnected),
            seq![ActionView::Emit(status_event(RealtimeStatus::Disconnected, None, Some(error)))],
        )
    } else {
        (w, Seq::empty())
    }
}

impl RealtimeWorker {
    pub fn new(target_url: String, auth_token: String, auth_user: String) -> (w: RealtimeWorker)
        ensures
            w@.status is Disconnected,
            w@.target_url == target_url@,
            w@.auth_token == auth_token@,
            w@.auth_user == auth_user@,
    {
        RealtimeWorker { status: RealtimeStatus::Disconnected, target_url, auth_token, auth_user }
    }

    pub fn on_command(&mut self, cmd: RealtimeCommand) -> (actions: Vec<WorkerAction>)
        ensures
            (final(self)@, actions_view(actions@)) == step_command(old(self)@, cmd@),
    {
        match cmd {
            RealtimeCommand::Connect => {
                if matches!(self.status, RealtimeStatus::Disconnected) {
                    self.status = RealtimeStatus::Connecting;
                    let mut msg = String::from_str("Dialing ");
                    msg.append(self.target_url.as_str());
                    let mut actions: Vec<WorkerAction> = Vec::new();
                    actions.push(
                        WorkerAction::Emit(
                            RealtimeEvent {
                                status: RealtimeStatus::Connecting,
                                message: Some(msg),
                                error: None,
                                inbound: None,
                                presence: None,
                            },
                        ),
                    );
                    actions.push(WorkerAction::Dial);
                    proof {
                        assert(actions_view(actions@) =~= step_command(old(self)@, cmd@).1);
                    }
                    actions
                } else {
                    let actions: Vec<WorkerAction> = Vec::new();
                    proof {
                        assert(actions_view(actions@) =~= step_command(old(self)@, cmd@).1);
                    }
                    actions
                }
            },
            RealtimeCommand::Disconnect => {
                self.status = RealtimeStatus::Disconnected;
                let mut actions: Vec<WorkerAction> = Vec::new();
                actions.push(WorkerAction::CloseSocket);
                actions.push(
                    WorkerAction::Emit(
                        RealtimeEvent {
                            status: RealtimeStatus::Disconnected,
                            message: Some(String::from_str("Closed socket")),
                            error: None,
                            inbound: None,
                            presence: None,
                        },
                    ),
                );
                proof {
                    assert(actions_view(actions@) =~= step_command(old(self)@, cmd@).1);
                }
                actions
            },
            RealtimeCommand::SendMessage { author, body, sent_at, channel_id, attachments } => {
                if matches!(self.status, RealtimeStatus::Connected) {
                    let ghost gauthor = author@;
                    let ghost gbody = body@;
                    let ghost gsent = sent_at@;
                    let ghost gatts = atts_view(attachments@);
                    let message = Message { id: 0, author, body, sent_at, channel_id };
                    let frame = encode_realtime_message(&message, attachments);
                    let mut actions: Vec<WorkerAction> = Vec::new();
                    actions.push(WorkerAction::SendFrame(frame));
                    proof {
                        assert(actions_view(actions@) =~= step_command(old(self)@, cmd@).1);
                    }
                    actions
                } else {
                    let actions: Vec<WorkerAction> = Vec::new();
                    proof {
                        assert(actions_view(actions@) =~= step_command(old(self)@, cmd@).1);
                    }
                    actions
                }
            },
        }
    }

    pub fn on_dial_result(&mut self, result: Result<(), String>) -> (actions: Vec<WorkerAction>)
        ensures
            (final(self)@, actions_view(actions@)) == step_dial_result(
                old(self)@,
                match result {
                    Ok(()) => Ok(()),
                    Err(e) => Err(e@),
                },
            ),
    {
        if matches!(self.status, RealtimeStatus::Connecting) {
            match result {
                Ok(()) => {
                    self.status = RealtimeStatus::Connected;
                    let auth = RealtimePayload::Auth {
                        token: self.auth_token.clone(),
                        user: self.auth_user.clone(),
                    };
                    let frame = encode_payload(&auth);
                    let mut actions: Vec<WorkerAction> = Vec::new();
                    actions.push(WorkerAction::SendFrame(frame));
                    actions.push(
                        WorkerAction::Emit(
                            RealtimeEvent {
                                status: RealtimeStatus::Connected,
                                message: Some(String::from_str("Handshake complete")),
                                error: None,
                                inbound: None,
                                presence: None,
                            },
                        ),
                    );
                    proof {
                        assert(actions_view(actions@) =~= step_dial_result(old(self)@, Ok(())).1);
                    }
                    actions
                },
                Err(e) => {
                    self.status = RealtimeStatus::Disconnected;
                    let ghost ge = e@;
                    let mut actions: Vec<WorkerAction> = Vec::new();
                    actions.push(
                        WorkerAction::Emit(
                            RealtimeEvent {
                                status: RealtimeStatus::Disconnected,
                                message: None,
                                error: Some(e),
                                inbound: None,
                                presence: None,
                            },
                        ),
                    );
                    proof {
                        assert(actions_view(actions@) =~= step_dial_result(old(self)@, Err(ge)).1);
                    }
                    actions
                },
            }
        } else {
            let actions: Vec<WorkerAction> = Vec::new();
            proof {
                assert(actions_view(actions@) =~= Seq::<ActionView>::empty());
            }
            actions
        }
    }

    pub fn on_write_result(&mut self, result: Result<(), String>) -> (actions: Vec<WorkerAction>)
        ensures
            (final(self)@, actions_view(actions@)) == step_write_result(
                old(self)@,
                match result {
                    Ok(()) => Ok(()),
                    Err(e) => Err(e@),
                },
            ),
    {
        match result {
            Ok(()) => {
                let actions: Vec<WorkerAction> = Vec::new();
                proof {
                    assert(actions_view(actions@) =~= Seq::<ActionView>::empty());
                }
                actions
            },
            Err(e) => {
                if matches!(self.status, RealtimeStatus::Connected) {
                    self.status = RealtimeStatus::Disconnected;
                    let ghost ge = e@;
                    let mut actions: Vec<WorkerAction> = Vec::new();
                    actions.push(
                        WorkerAction::Emit(
                            RealtimeEvent {
                                status: RealtimeStatus::Disconnected,
                                message: None,
                                error: Some(e),
                                inbound: None,
                                presence: None,
                            },
                        ),
                    );
                    proof {
                        assert(actions_view(actions@) =~= step_write_result(old(self)@, Err(ge)).1);
                    }
                    actions
                } else {
                    let actions: Vec<WorkerAction> = Vec::new();
                    proof {
                        assert(actions_view(actions@) =~= Seq::<ActionView>::empty());
                    }
                    actions
                }
            },
        }
    }

    pub fn on_frame(&mut self, text: &str) -> (actions: Vec<WorkerAction>)
        ensures
            (final(self)@, actions_view(actions@)) == step_frame(old(self)@, text@),
    {
        if !matches!(self.status, RealtimeStatus::Connected) {
            let actions: Vec<WorkerAction> = Vec::new();
            proof {
                assert(actions_view(actions@) =~= Seq::<ActionView>::empty());
            }
            return actions;
        }
        let ev = match decode_realtime_inbound(text) {
            Ok(RealtimeInbound::Message(m)) => RealtimeEvent {
                status: RealtimeStatus::Connected,
                message: Some(String::from_str("Message received")),
                error: None,
                inbound: Some(m),
                presence: None,
            },
            Ok(RealtimeInbound::Presence { user, status }) => {
                let mut msg = String::from_str("Presence: ");
                msg.append(user.as_str());
                msg.append(" is ");
                msg.append(status.as_str());
                RealtimeEvent {
                    status: RealtimeStatus::Connected,
                    message: Some(msg),
                    error: None,
                    inbound: None,
                    presence: Some(PresenceUpdate { user, status }),
                }
            },
            Ok(RealtimeInbound::Signal(signal)) => RealtimeEvent {
                status: RealtimeStatus::Connected,
                message: Some(signal),
                error: None,
                inbound: None,
                presence: None,
            },
            Err(e) => RealtimeEvent {
                status: RealtimeStatus::Connected,
                message: None,
                error: Some(e),
                inbound: None,
                presence: None,
            },
        };
        let mut actions: Vec<WorkerAction> = Vec::new();
        actions.push(WorkerAction::Emit(ev));
        proof {
            assert(actions_view(actions@) =~= step_frame(old(self)@, text@).1);
        }
        actions
    }

    pub fn on_read_error(&mut self, would_block: bool, error: String) -> (actions: Vec<
        WorkerAction,
    >)
        ensures
            (final(self)@, actions_view(actions@)) == step_read_error(
                old(self)@,
                would_block,
                error@,
            ),
    {
        if !would_block && matches!(self.status, RealtimeStatus::Connected) {
            self.status = RealtimeStatus::Disconnected;
            let ghost ge = error@;
            let mut actions: Vec<WorkerAction> = Vec::new();
            actions.push(
                WorkerAction::Emit(
                    RealtimeEvent {
                        status: RealtimeStatus::Disconnected,
                        message: None,
                        error: Some(error),
                        inbound: None,
                        presence: None,
                    },
                ),
            );
            proof {
                assert(actions_view(actions@) =~= step_read_error(old(self)@, would_block, ge).1);
            }
            actions
        } else {
            let actions: Vec<WorkerAction> = Vec::new();
            proof {
                assert(actions_view(actions@) =~= Seq::<ActionView>::empty());
            }
            actions
        }
    }
}

// ---------- laws of the worker machine ----------

/// A `Connect` command on a worker that is already `Connecting` (or already
/// `Connected`) does not start a second dial attempt and does not change the
/// status: the command is idempotent.
pub proof fn lemma_connect_is_idempotent(w: WorkerModel)
    requires
        w.status is Connecting || w.status is Connected,
    ensures
        step_command(w, CommandView::Connect).0 == w,
        step_command(w, CommandView::Connect).1 =~= Seq::<ActionView>::empty(),
{
}

pub open spec fn action_event_wf(a: ActionView) -> bool {
    match a {
        ActionView::Emit(e) => e.wf(),
        _ => true,
    }
}

/// Every event the worker machine emits is well formed: a payload (an inbound
/// message or a presence update) rides only on a `Connected` status event, so
/// no event contradicts itself.
pub proof fn lemma_emitted_events_are_wf(w: WorkerModel, cmd: CommandView, dial: Result<
    (),
    Seq<char>,
>, wr: Result<(), Seq<char>>, text: Seq<char>, would_block: bool, error: Seq<char>)
    ensures
        forall|i: int|
            0 <= i < step_command(w, cmd).1.len() ==> #[trigger] action_event_wf(
                step_command(w, cmd).1[i],
            ),
        forall|i: int|
            0 <= i < step_dial_result(w, dial).1.len() ==> #[trigger] action_event_wf(
                step_dial_result(w, dial).1[i],
            ),
        forall|i: int|
            0 <= i < step_write_result(w, wr).1.len() ==> #[trigger] action_event_wf(
                step_write_result(w, wr).1[i],
            ),
        forall|i: int|
            0 <= i < step_frame(w, text).1.len() ==> #[trigger] action_event_wf(
                step_frame(w, text).1[i],
            ),
        forall|i: int|
            0 <= i < step_read_error(w, would_block, error).1.len() ==> #[trigger] action_event_wf(
                step_read_error(w, would_block, error).1[i],
            ),
{
}

} // verus!

verus! {

// ---------- the owner-facing session handle ----------

/// The owner's view of its session: last-known status and messages, plus the
/// inbound traffic collected from polled events.
pub struct RealtimeClient {
    pub status: RealtimeStatus,
    pub last_message: Option<String>,
    pub last_error: Option<String>,
    pub target_url: String,
    pub worker_spawned: bool,
    pub incoming: Vec<IncomingMessage>,
    pub incoming_presence: Vec<PresenceUpdate>,
}

pub struct ClientModel {
    pub status: RealtimeStatus,
    pub last_message: Option<Seq<char>>,
    pub last_error: Option<Seq<char>>,
    pub target_url: Seq<char>,
    pub worker_spawned: bool,
    pub incoming: Seq<IncomingView>,
    pub incoming_presence: Seq<PresenceUpdateView>,
}

pub open spec fn incoming_view(v: Seq<IncomingMessage>) -> Seq<IncomingView> {
    v.map_values(|m: IncomingMessage| m@)
}

pub open spec fn presence_list_view(v: Seq<PresenceUpdate>) -> Seq<PresenceUpdateView> {
    v.map_values(|p: PresenceUpdate| p@)
}

impl View for RealtimeClient {
    type V = ClientModel;

    open spec fn view(&self) -> ClientModel {
        ClientModel {
            status: self.status,
            last_message: opt_str_view(self.last_message),
            last_error: opt_str_view(self.last_error),
            target_url: self.target_url@,
            worker_spawned: self.worker_spawned,
            incoming: incoming_view(self.incoming@),
            incoming_presence: presence_list_view(self.incoming_presence@),
        }
    }
}

/// How one polled event lands in the handle: the status and the last
/// message/error mirror the event, and any payload is appended in order.
pub open spec fn apply_event(c: ClientModel, e: EventView) -> ClientModel {
    ClientModel {
        status: e.status,
        last_message: e.message,
        last_error: e.error,
        incoming: match e.inbound {
            Some(m) => c.incoming.push(m),
            None => c.incoming,
        },
        incoming_presence: match e.presence {
            Some(p) => c.incoming_presence.push(p),
            None => c.incoming_presence,
        },
        ..c
    }
}

pub open spec fn apply_events(c: ClientModel, evs: Seq<EventView>) -> ClientModel
    decreases evs.len(),
{
    if evs.len() == 0 {
        c
    } else {
        apply_events(apply_event(c, evs[0]), evs.drop_first())
    }
}

pub open spec fn events_view(v: Seq<RealtimeEvent>) -> Seq<EventView> {
    v.map_values(|e: RealtimeEvent| e@)
}

pub proof fn lemma_apply_events_snoc(c: ClientModel, evs: Seq<EventView>, e: EventView)
    ensures
        apply_events(c, evs.push(e)) == apply_event(apply_events(c, evs), e),
    decreases evs.len(),
{
    if evs.len() == 0 {
        assert(evs.push(e) =~= seq![e]);
        assert(evs.push(e).drop_first() =~= Seq::<EventView>::empty());
        assert(apply_events(apply_event(c, e), Seq::<EventView>::empty()) == apply_event(c, e));
    } else {
        assert(evs.push(e).drop_first() =~= evs.drop_first().push(e));
        assert(evs.push(e)[0] == evs[0]);
        lemma_apply_events_snoc(apply_event(c, evs[0]), evs.drop_first(), e);
    }
}

impl RealtimeClient {
    pub fn new(target_url: String) -> (c: RealtimeClient)
        ensures
            c@.status is Disconnected,
            c@.last_message is None,
            c@.last_error is None,
            c@.target_url == target_url@,
            !c@.worker_spawned,
            c@.incoming.len() == 0,
            c@.incoming_presence.len() == 0,
    {
        let c = RealtimeClient {
            status: RealtimeStatus::Disconnected,
            last_message: None,
            last_error: None,
            target_url,
            worker_spawned: false,
            incoming: Vec::new(),
            incoming_presence: Vec::new(),
        };
        proof {
            assert(incoming_view(c.incoming@) =~= Seq::<IncomingView>::empty());
            assert(presence_list_view(c.incoming_presence@) =~= Seq::<PresenceUpdateView>::empty());
        }
        c
    }

    /// Marks the worker as running; the caller spawns the worker thread and
    /// its queues exactly when this returns true, so at most one worker ever
    /// serves this handle.
    pub fn ensure_worker(&mut self) -> (spawn: bool)
        ensures
            final(self)@ == (ClientModel { worker_spawned: true, ..old(self)@ }),
            spawn == !old(self)@.worker_spawned,
    {
        if self.worker_spawned {
            false
        } else {
            self.worker_spawned = true;
            true
        }
    }

    /// Requests a connection: the worker is (re)marked as running and the
    /// `Connect` command is for the caller to enqueue.
    pub fn connect(&mut self) -> (spawn: bool)
        ensures
            final(self)@ == (ClientModel { worker_spawned: true, ..old(self)@ }),
            spawn == !old(self)@.worker_spawned,
    {
        self.ensure_worker()
    }

    /// Requests a disconnect. With a worker running the caller enqueues the
    /// `Disconnect` command (the result is true); without one the handle just
    /// records that it is already disconnected.
    pub fn disconnect(&mut self) -> (send: bool)
        ensures
            send == old(self)@.worker_spawned,
            old(self)@.worker_spawned ==> final(self)@ == old(self)@,
            !old(self)@.worker_spawned ==> final(self)@ == (ClientModel {
                status: RealtimeStatus::Disconnected,
                last_message: Some("Already disconnected"@),
                ..old(self)@
            }),
    {
        if self.worker_spawned {
            true
        } else {
            self.status = RealtimeStatus::Disconnected;
            self.last_message = Some(String::from_str("Already disconnected"));
            false
        }
    }

    /// Builds the `Send` command for an outgoing message, or nothing when no
    /// worker is running (the send is then silently dropped).
    pub fn send_message(&self, message: &Message, attachments: Vec<RealtimeAttachment>) -> (cmd:
        Option<RealtimeCommand>)
        ensures
            self@.worker_spawned ==> (cmd matches Some(c) && c@ == (CommandView::SendMessage {
                author: message@.author,
                body: message@.body,
                sent_at: message@.sent_at,
                channel_id: message@.channel_id,
                attachments: atts_view(attachments@),
            })),
            !self@.worker_spawned ==> cmd is None,
    {
        if self.worker_spawned {
            Some(
                RealtimeCommand::SendMessage {
                    author: message.author.clone(),
                    body: message.body.clone(),
                    sent_at: message.sent_at.clone(),
                    channel_id: message.channel_id,
                    attachments,
                },
            )
        } else {
            None
        }
    }

    /// Applies the batch of events drained from the worker's queue, in
    /// emission order.
    pub fn poll(&mut self, events: Vec<RealtimeEvent>) -> (n: usize)
        ensures
            final(self)@ == apply_events(old(self)@, events_view(events@)),
            n == events@.len(),
    {
        let ghost evs = events_view(events@);
        let n = events.len();
        let mut rest = events;
        let mut i: usize = 0;
        proof {
            assert(events_view(rest@) =~= evs.skip(0));
            assert(evs.take(0) =~= Seq::<EventView>::empty());
        }
        while i < n
            invariant
                i <= n,
                n == evs.len(),
                rest@.len() == n - i,
                events_view(rest@) == evs.skip(i as int),
                self@ == apply_events(old(self)@, evs.take(i as int)),
            decreases n - i,
        {
            let ghost pre = self@;
            let ghost prevrest = rest@;
            let ev = rest.remove(0);
            proof {
                assert(ev@ == events_view(prevrest)[0]);
                assert(ev@ == evs.skip(i as int)[0]);
                assert(ev@ == evs[i as int]);
                assert(rest@ =~= prevrest.subrange(1, prevrest.len() as int));
                assert forall|j: int| 0 <= j < rest@.len() implies #[trigger] events_view(rest@)[j]
                    == evs.skip(i as int + 1)[j] by {
                    assert(rest@[j] == prevrest[j + 1]);
                    assert(events_view(prevrest)[j + 1] == prevrest[j + 1]@);
                    assert(evs.skip(i as int)[j + 1] == evs[i as int + 1 + j]);
                }
                assert(events_view(rest@) =~= evs.skip(i as int + 1));
            }
            self.status = ev.status;
            self.last_message = ev.message;
            self.last_error = ev.error;
            match ev.inbound {
                Some(m) => {
                    self.incoming.push(m);
                },
                None => {},
            }
            match ev.presence {
                Some(p) => {
                    self.incoming_presence.push(p);
                },
                None => {},
            }
            i = i + 1;
            proof {
                assert(incoming_view(self.incoming@) =~= (match evs[i - 1].inbound {
                    Some(m) => pre.incoming.push(m),
                    None => pre.incoming,
                }));
                assert(presence_list_view(self.incoming_presence@) =~= (
                match evs[i - 1].presence {
                    Some(p) => pre.incoming_presence.push(p),
                    None => pre.incoming_presence,
                }));
                assert(self@ == apply_event(pre, evs[i - 1]));
                assert(evs.take(i as int) =~= evs.take(i - 1).push(evs[i - 1]));
                lemma_apply_events_snoc(old(self)@, evs.take(i - 1), evs[i - 1]);
            }
        }
        proof {
            assert(evs.take(n as int) =~= evs);
        }
        n
    }

    /// Hands over everything received since the last call, oldest first.
    pub fn take_incoming(&mut self) -> (r: Vec<IncomingMessage>)
        ensures
            incoming_view(r@) == old(self)@.incoming,
            final(self)@ == (ClientModel { incoming: Seq::empty(), ..old(self)@ }),
    {
        let mut out: Vec<IncomingMessage> = Vec::new();
        proof {
            assert(incoming_view(out@) =~= Seq::<IncomingView>::empty());
        }
        core::mem::swap(&mut self.incoming, &mut out);
        out
    }

    /// Hands over every presence update received since the last call, oldest
    /// first.
    pub fn take_presence(&mut self) -> (r: Vec<PresenceUpdate>)
        ensures
            presence_list_view(r@) == old(self)@.incoming_presence,
            final(self)@ == (ClientModel { incoming_presence: Seq::empty(), ..old(self)@ }),
    {
        let mut out: Vec<PresenceUpdate> = Vec::new();
        proof {
            assert(presence_list_view(out@) =~= Seq::<PresenceUpdateView>::empty());
        }
        core::mem::swap(&mut self.incoming_presence, &mut out);
        out
    }
}

} // verus!
