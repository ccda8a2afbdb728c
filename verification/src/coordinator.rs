//! From what a connection asks to what has to be sent: each request is
//! answered by changing the registry, if at all, and by a list of actions for
//! whoever owns the connections to carry out once the change is in place.

use crate::registry::{
    after_join, created, join_result, JoinOutcome, JoinOutcomeView, Registry,
};
use crate::room::{Room, RoomView};
use vstd::prelude::*;
use vstd::string::StringExecFns;

verus! {

/// Why a request to join was turned down, as far as the joiner is told: a
/// full room and a creator joining their own room are not told apart.
#[derive(Clone, Copy, Debug, PartialEq, Eq, Structural)]
pub enum JoinRefusal {
    FullOrCreator,
    NotFound,
}

/// Who an event goes to.
#[derive(Clone, Copy, Debug, PartialEq, Eq, Structural)]
pub enum Audience {
    /// The connection that made the request, and no other.
    Sender,
    /// Every connection in the room's group.
    Group,
}

/// What a connection can ask for.
#[derive(Debug)]
pub enum Inbound {
    /// The connection was opened. Nothing follows from it.
    Connect,
    /// A line of text to be answered.
    Message(String),
    /// Open a room with this display name.
    CreateRoom(String),
    /// Join the room with this identifier.
    JoinRoom(String),
}

/// One thing to do for a request, after the registry has been changed.
#[derive(Debug)]
pub enum Action {
    /// Put the sender's connection into the group of the room.
    JoinGroup { room_id: String },
    /// Answer a line of text.
    Response { text: String },
    /// Tell the creator the identifier of the new room.
    RoomCreated { room_id: String },
    /// Show the room to its group.
    RoomReady { room_id: String, room: Room },
    /// Tell the room's group that the second player sat down.
    PlayerJoined { room_id: String, text: String },
    /// Tell the joiner why they were turned down.
    JoinError { reason: JoinRefusal },
}

/// An action, as plain values.
pub enum ActionView {
    JoinGroup { room_id: Seq<char> },
    Response { text: Seq<char> },
    RoomCreated { room_id: Seq<char> },
    RoomReady { room_id: Seq<char>, room: RoomView },
    PlayerJoined { room_id: Seq<char>, text: Seq<char> },
    JoinError { reason: JoinRefusal },
}

impl View for Action {
    type V = ActionView;

    open spec fn view(&self) -> ActionView {
        match self {
            Action::JoinGroup { room_id } => ActionView::JoinGroup { room_id: room_id@ },
            Action::Response { text } => ActionView::Response { text: text@ },
            Action::RoomCreated { room_id } => ActionView::RoomCreated { room_id: room_id@ },
            Action::RoomReady { room_id, room } => ActionView::RoomReady {
                room_id: room_id@,
                room: room@,
            },
            Action::PlayerJoined { room_id, text } => ActionView::PlayerJoined {
                room_id: room_id@,
                text: text@,
            },
            Action::JoinError { reason } => ActionView::JoinError { reason: *reason },
        }
    }
}

/// The actions of a list, as plain values.
pub open spec fn views(actions: Seq<Action>) -> Seq<ActionView> {
    actions.map_values(|action: Action| action@)
}

/// The answer to a line of text: a greeting that names the sender and
/// repeats the line.
pub open spec fn response_text(sender: Seq<char>, text: Seq<char>) -> Seq<char> {
    "Olá "@ + sender + ", recebi seu "@ + text
}

/// What the room's group is told when `joiner` has sat down.
pub open spec fn joined_text(joiner: Seq<char>) -> Seq<char> {
    "Jogador "@ + joiner + " entrou. O jogo pode começar!"@
}

/// What the joiner is told for each reason.
pub open spec fn refusal_text(reason: JoinRefusal) -> Seq<char> {
    match reason {
        JoinRefusal::FullOrCreator => "A sala está cheia ou você é o criador."@,
        JoinRefusal::NotFound => "Sala não encontrada."@,
    }
}

/// The name under which an action's event is sent; joining a group sends
/// nothing.
pub open spec fn event_of(action: ActionView) -> Option<Seq<char>> {
    match action {
        ActionView::JoinGroup { .. } => None,
        ActionView::Response { .. } => Some("message"@),
        ActionView::RoomCreated { .. } => Some("Room_Created"@),
        ActionView::RoomReady { .. } => Some("Room_Ready"@),
        ActionView::PlayerJoined { .. } => Some("Player_Joined"@),
        ActionView::JoinError { .. } => Some("Join_Error"@),
    }
}

/// Who an action's event goes to: the room's group for what concerns the
/// room, the sender alone for the rest.
pub open spec fn audience_of(action: ActionView) -> Audience {
    match action {
        ActionView::RoomReady { .. } | ActionView::PlayerJoined { .. } => Audience::Group,
        _ => Audience::Sender,
    }
}

/// What follows the creation of `room`: its creator enters the room's group
/// and is told the identifier, then the group is shown the room.
pub open spec fn create_actions(room: RoomView) -> Seq<ActionView> {
    seq![
        ActionView::JoinGroup { room_id: room.id },
        ActionView::RoomCreated { room_id: room.id },
        ActionView::RoomReady { room_id: room.id, room },
    ]
}

/// The reason given to the joiner for each answer that is not `Joined`.
pub open spec fn refusal_of(result: JoinOutcomeView) -> JoinRefusal {
    match result {
        JoinOutcomeView::RoomNotFound => JoinRefusal::NotFound,
        _ => JoinRefusal::FullOrCreator,
    }
}

/// What follows an attempt of `joiner` to join the room `room_id` that ended
/// in `result`: on `Joined` the joiner enters the group, which is then told;
/// otherwise the joiner alone is told why not.
pub open spec fn join_actions(
    result: JoinOutcomeView,
    room_id: Seq<char>,
    joiner: Seq<char>,
) -> Seq<ActionView> {
    match result {
        JoinOutcomeView::Joined(_) => seq![
            ActionView::JoinGroup { room_id },
            ActionView::PlayerJoined { room_id, text: joined_text(joiner) },
        ],
        _ => seq![ActionView::JoinError { reason: refusal_of(result) }],
    }
}

impl JoinRefusal {
    /// The sentence sent to the joiner.
    pub fn text(&self) -> (text: &'static str)
        ensures
            text@ == refusal_text(*self),
    {
        match self {
            JoinRefusal::FullOrCreator => "A sala está cheia ou você é o criador.",
            JoinRefusal::NotFound => "Sala não encontrada.",
        }
    }
}

impl Action {
    /// The name of the event to send, if the action sends one.
    pub fn event_name(&self) -> (name: Option<&'static str>)
        ensures
            match name {
                Some(text) => event_of(self@) == Some(text@),
                None => event_of(self@) is None,
            },
    {
        match self {
            Action::JoinGroup { .. } => None,
            Action::Response { .. } => Some("message"),
            Action::RoomCreated { .. } => Some("Room_Created"),
            Action::RoomReady { .. } => Some("Room_Ready"),
            Action::PlayerJoined { .. } => Some("Player_Joined"),
            Action::JoinError { .. } => Some("Join_Error"),
        }
    }

    /// Who the event goes to.
    pub fn audience(&self) -> (audience: Audience)
        ensures
            audience == audience_of(self@),
    {
        match self {
            Action::RoomReady { .. } => Audience::Group,
            Action::PlayerJoined { .. } => Audience::Group,
            _ => Audience::Sender,
        }
    }
}

/// Answers a line of text from `sender_id`.
pub fn on_message(sender_id: &str, text: &str) -> (actions: Vec<Action>)
    ensures
        views(actions@) == seq![
            ActionView::Response { text: response_text(sender_id@, text@) },
        ],
{
    let answer = String::from_str("Olá ").concat(sender_id).concat(", recebi seu ").concat(text);
    let actions = vec![Action::Response { text: answer }];
    assert(views(actions@) =~= seq![
        ActionView::Response { text: response_text(sender_id@, text@) },
    ]);
    actions
}

/// The actions that follow the creation of `room`.
pub fn actions_for_create(room: Room) -> (actions: Vec<Action>)
    ensures
        views(actions@) == create_actions(room@),
{
    let actions = vec![
        Action::JoinGroup { room_id: room.id().clone() },
        Action::RoomCreated { room_id: room.id().clone() },
        Action::RoomReady { room_id: room.id().clone(), room },
    ];
    assert(views(actions@) =~= create_actions(room@));
    actions
}

/// The actions that follow an attempt to join that ended in `outcome`.
pub fn actions_for_join(outcome: &JoinOutcome, room_id: &str, joiner_id: &str) -> (actions: Vec<
    Action,
>)
    ensures
        views(actions@) == join_actions(outcome@, room_id@, joiner_id@),
{
    let actions = match outcome {
        JoinOutcome::Joined(_) => {
            let text = String::from_str("Jogador ").concat(joiner_id).concat(
                " entrou. O jogo pode começar!",
            );
            vec![
                Action::JoinGroup { room_id: String::from_str(room_id) },
                Action::PlayerJoined { room_id: String::from_str(room_id), text },
            ]
        },
        JoinOutcome::RoomNotFound => vec![Action::JoinError { reason: JoinRefusal::NotFound }],
        JoinOutcome::RoomFull => vec![Action::JoinError { reason: JoinRefusal::FullOrCreator }],
        JoinOutcome::SelfJoinRejected => vec![
            Action::JoinError { reason: JoinRefusal::FullOrCreator },
        ],
    };
    assert(views(actions@) =~= join_actions(outcome@, room_id@, joiner_id@));
    actions
}

/// `creator_id` asks for a room called `name`: the room is created, and the
/// actions that announce it are returned.
pub fn on_create_room(registry: &mut Registry, creator_id: &str, name: &str) -> (actions: Vec<
    Action,
>)
    ensures
        final(registry).wf(),
        created(old(registry)@, final(registry)@, creator_id@, name@),
        views(actions@) == create_actions(final(registry)@.last()),
{
    let room = registry.create_room(creator_id, name);
    actions_for_create(room)
}

/// `joiner_id` asks for the second seat of the room `room_id`: the registry
/// decides, and the actions that report its answer are returned.
pub fn on_join_room(registry: &mut Registry, joiner_id: &str, room_id: &str) -> (actions: Vec<
    Action,
>)
    ensures
        final(registry).wf(),
        final(registry)@ == after_join(old(registry)@, room_id@, joiner_id@),
        views(actions@) == join_actions(
            join_result(old(registry)@, room_id@, joiner_id@),
            room_id@,
            joiner_id@,
        ),
{
    let outcome = registry.try_join(room_id, joiner_id);
    actions_for_join(&outcome, room_id, joiner_id)
}

/// What `handle` leaves and returns for each request of `sender`.
pub open spec fn handled(
    before: Seq<RoomView>,
    sender: Seq<char>,
    event: Inbound,
    after: Seq<RoomView>,
    actions: Seq<ActionView>,
) -> bool {
    match event {
        Inbound::Connect => after == before && actions == Seq::<ActionView>::empty(),
        Inbound::Message(text) => after == before && actions == seq![
            ActionView::Response { text: response_text(sender, text@) },
        ],
        Inbound::CreateRoom(name) => created(before, after, sender, name@) && actions
            == create_actions(after.last()),
        Inbound::JoinRoom(room_id) => after == after_join(before, room_id@, sender) && actions
            == join_actions(join_result(before, room_id@, sender), room_id@, sender),
    }
}

/// Takes one request of `sender_id` through the registry and returns what is
/// to be done about it, in order. The registry is as it will stay before the
/// first action is handed out.
pub fn handle(registry: &mut Registry, sender_id: &str, event: Inbound) -> (actions: Vec<Action>)
    ensures
        final(registry).wf(),
        handled(old(registry)@, sender_id@, event, final(registry)@, views(actions@)),
{
    proof {
        use_type_invariant(&*registry);
    }
    match &event {
        Inbound::Connect => {
            let actions: Vec<Action> = Vec::new();
            assert(views(actions@) =~= Seq::<ActionView>::empty());
            actions
        },
        Inbound::Message(text) => on_message(sender_id, text.as_str()),
        Inbound::CreateRoom(name) => on_create_room(registry, sender_id, name.as_str()),
        Inbound::JoinRoom(room_id) => on_join_room(registry, sender_id, room_id.as_str()),
    }
}

} // verus!
