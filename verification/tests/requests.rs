use blackjack_rooms::coordinator::{
    actions_for_join, handle, on_create_room, on_join_room, on_message, Action, Audience,
    Inbound, JoinRefusal,
};
use blackjack_rooms::registry::{JoinOutcome, Registry};
use blackjack_rooms::room::RoomState;

fn refusal(actions: &[Action]) -> JoinRefusal {
    assert_eq!(actions.len(), 1);
    match &actions[0] {
        Action::JoinError { reason } => *reason,
        other => panic!("expected a refusal, got {:?}", other),
    }
}

#[test]
fn creating_a_room_announces_it() {
    let mut registry = Registry::new();
    let actions = on_create_room(&mut registry, "A", "table1");
    assert_eq!(registry.len(), 1);
    assert_eq!(actions.len(), 3);
    match &actions[0] {
        Action::JoinGroup { room_id } => assert_eq!(room_id, "room_A"),
        other => panic!("unexpected {:?}", other),
    }
    match &actions[1] {
        Action::RoomCreated { room_id } => assert_eq!(room_id, "room_A"),
        other => panic!("unexpected {:?}", other),
    }
    match &actions[2] {
        Action::RoomReady { room_id, room } => {
            assert_eq!(room_id, "room_A");
            assert_eq!(room.id(), "room_A");
            assert_eq!(room.name(), "table1");
            assert_eq!(room.player1_id(), "A");
            assert_eq!(room.state(), RoomState::Open);
            let stored = registry.get(0).unwrap();
            assert_eq!(room.deck(), stored.deck());
            assert_eq!(room.deck_1(), stored.deck_1());
            assert_eq!(room.deck_2(), stored.deck_2());
        },
        other => panic!("unexpected {:?}", other),
    }
    assert_eq!(actions[0].event_name(), None);
    assert_eq!(actions[1].event_name(), Some("Room_Created"));
    assert_eq!(actions[2].event_name(), Some("Room_Ready"));
    assert_eq!(actions[0].audience(), Audience::Sender);
    assert_eq!(actions[1].audience(), Audience::Sender);
    assert_eq!(actions[2].audience(), Audience::Group);
}

#[test]
fn joining_a_room_tells_the_group() {
    let mut registry = Registry::new();
    on_create_room(&mut registry, "A", "table1");
    let actions = on_join_room(&mut registry, "B", "room_A");
    assert_eq!(actions.len(), 2);
    match &actions[0] {
        Action::JoinGroup { room_id } => assert_eq!(room_id, "room_A"),
        other => panic!("unexpected {:?}", other),
    }
    match &actions[1] {
        Action::PlayerJoined { room_id, text } => {
            assert_eq!(room_id, "room_A");
            assert_eq!(text, "Jogador B entrou. O jogo pode começar!");
        },
        other => panic!("unexpected {:?}", other),
    }
    assert_eq!(actions[1].event_name(), Some("Player_Joined"));
    assert_eq!(actions[1].audience(), Audience::Group);
    assert_eq!(registry.get(0).unwrap().state(), RoomState::Full);
    assert_eq!(registry.get(0).unwrap().player2_id().as_deref(), Some("B"));
}

#[test]
fn refused_joins_tell_the_joiner_alone() {
    let mut registry = Registry::new();
    on_create_room(&mut registry, "A", "table1");

    let own = on_join_room(&mut registry, "A", "room_A");
    assert_eq!(refusal(&own), JoinRefusal::FullOrCreator);
    assert_eq!(own[0].event_name(), Some("Join_Error"));
    assert_eq!(own[0].audience(), Audience::Sender);

    let missing = on_join_room(&mut registry, "B", "nope");
    assert_eq!(refusal(&missing), JoinRefusal::NotFound);
    assert_eq!(registry.get(0).unwrap().state(), RoomState::Open);

    on_join_room(&mut registry, "B", "room_A");
    let late = on_join_room(&mut registry, "C", "room_A");
    assert_eq!(refusal(&late), JoinRefusal::FullOrCreator);
    assert_eq!(registry.get(0).unwrap().player2_id().as_deref(), Some("B"));
}

#[test]
fn refusal_texts() {
    assert_eq!(JoinRefusal::FullOrCreator.text(), "A sala está cheia ou você é o criador.");
    assert_eq!(JoinRefusal::NotFound.text(), "Sala não encontrada.");
}

#[test]
fn actions_follow_the_outcome() {
    let full = actions_for_join(&JoinOutcome::RoomFull, "room_A", "C");
    assert_eq!(refusal(&full), JoinRefusal::FullOrCreator);
    let own = actions_for_join(&JoinOutcome::SelfJoinRejected, "room_A", "A");
    assert_eq!(refusal(&own), JoinRefusal::FullOrCreator);
    let missing = actions_for_join(&JoinOutcome::RoomNotFound, "room_A", "C");
    assert_eq!(refusal(&missing), JoinRefusal::NotFound);

    let mut registry = Registry::new();
    registry.create_room("A", "table1");
    let joined = registry.try_join("room_A", "B");
    let actions = actions_for_join(&joined, "room_A", "B");
    assert_eq!(actions.len(), 2);
    assert!(matches!(&actions[0], Action::JoinGroup { room_id } if room_id == "room_A"));
    assert!(matches!(&actions[1], Action::PlayerJoined { room_id, .. } if room_id == "room_A"));
}

#[test]
fn a_line_of_text_is_answered() {
    let actions = on_message("s1", "hi");
    assert_eq!(actions.len(), 1);
    match &actions[0] {
        Action::Response { text } => assert_eq!(text, "Olá s1, recebi seu hi"),
        other => panic!("unexpected {:?}", other),
    }
    assert_eq!(actions[0].event_name(), Some("message"));
    assert_eq!(actions[0].audience(), Audience::Sender);
}

#[test]
fn an_empty_line_is_answered_too() {
    let actions = on_message("", "");
    match &actions[0] {
        Action::Response { text } => assert_eq!(text, "Olá , recebi seu "),
        other => panic!("unexpected {:?}", other),
    }
}

#[test]
fn handle_takes_each_request() {
    let mut registry = Registry::new();
    assert!(handle(&mut registry, "A", Inbound::Connect).is_empty());
    assert_eq!(registry.len(), 0);

    let answer = handle(&mut registry, "A", Inbound::Message("oi".to_string()));
    assert!(matches!(&answer[0], Action::Response { text } if text == "Olá A, recebi seu oi"));
    assert_eq!(registry.len(), 0);

    let made = handle(&mut registry, "A", Inbound::CreateRoom("table1".to_string()));
    assert_eq!(made.len(), 3);
    assert!(matches!(&made[1], Action::RoomCreated { room_id } if room_id == "room_A"));
    assert_eq!(registry.len(), 1);
    assert_eq!(registry.get(0).unwrap().name(), "table1");

    let joined = handle(&mut registry, "B", Inbound::JoinRoom("room_A".to_string()));
    assert_eq!(joined.len(), 2);
    assert!(matches!(&joined[1], Action::PlayerJoined { .. }));
    assert_eq!(registry.get(0).unwrap().state(), RoomState::Full);

    let late = handle(&mut registry, "C", Inbound::JoinRoom("room_A".to_string()));
    assert_eq!(refusal(&late), JoinRefusal::FullOrCreator);
    let missing = handle(&mut registry, "C", Inbound::JoinRoom("nope".to_string()));
    assert_eq!(refusal(&missing), JoinRefusal::NotFound);
}
