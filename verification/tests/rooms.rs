use blackjack_rooms::registry::{JoinOutcome, Registry};
use blackjack_rooms::room::{Room, RoomState};

fn table_cards(room: &Room) -> Vec<u8> {
    let mut cards = room.deck_1().clone();
    cards.extend_from_slice(room.deck_2());
    cards.extend_from_slice(room.deck());
    cards.sort();
    cards
}

fn is_full(outcome: &JoinOutcome) -> bool {
    matches!(outcome, JoinOutcome::RoomFull)
}

#[test]
fn create_then_join_scenario() {
    let mut registry = Registry::new();
    let room = registry.create_room("A", "table1");
    assert!(room.id().contains("A"));
    assert_eq!(room.id(), "room_A");
    assert_eq!(room.name(), "table1");
    assert_eq!(room.player1_id(), "A");
    assert_eq!(room.state(), RoomState::Open);
    assert!(room.player2_id().is_none());
    assert_eq!(room.deck_1().len(), 2);
    assert_eq!(room.deck_2().len(), 2);
    assert_eq!(room.deck().len(), 7);
    assert_eq!(table_cards(&room), vec![1, 2, 3, 4, 5, 6, 7, 8, 9, 10, 11]);

    let own = registry.try_join("room_A", "A");
    assert!(matches!(own, JoinOutcome::SelfJoinRejected));
    assert_eq!(registry.find_room("room_A").unwrap().state(), RoomState::Open);

    let joined = registry.try_join("room_A", "B");
    match joined {
        JoinOutcome::Joined(seated) => {
            assert_eq!(seated.state(), RoomState::Full);
            assert_eq!(seated.player2_id().as_deref(), Some("B"));
            assert_eq!(seated.id(), "room_A");
        },
        other => panic!("expected a join, got {:?}", other),
    }
    assert_eq!(registry.find_room("room_A").unwrap().state(), RoomState::Full);

    let late = registry.try_join("room_A", "C");
    assert!(is_full(&late));

    let missing = registry.try_join("nope", "B");
    assert!(matches!(missing, JoinOutcome::RoomNotFound));
}

#[test]
fn creator_of_a_full_room_is_told_it_is_full() {
    let mut registry = Registry::new();
    registry.create_room("A", "table1");
    assert!(matches!(registry.try_join("room_A", "B"), JoinOutcome::Joined(_)));
    assert!(is_full(&registry.try_join("room_A", "A")));
}

#[test]
fn new_registry_is_empty() {
    let registry = Registry::new();
    assert_eq!(registry.len(), 0);
    assert!(registry.get(0).is_none());
    assert!(!registry.contains("room_A"));
    assert!(registry.find_room("room_A").is_none());
}

#[test]
fn distinct_creators_get_distinct_rooms() {
    let mut registry = Registry::new();
    let creators = ["a", "b", "c", "d", "e", "f", "g", "h"];
    for creator in creators {
        registry.create_room(creator, "t");
    }
    assert_eq!(registry.len(), creators.len());
    for (i, creator) in creators.iter().enumerate() {
        let room = registry.get(i).unwrap();
        assert_eq!(room.id(), &format!("room_{}", creator));
        assert_eq!(room.player1_id(), creator);
        for j in 0..i {
            assert_ne!(registry.get(j).unwrap().id(), room.id());
        }
    }
}

#[test]
fn repeat_creator_gets_marked_identifiers() {
    let mut registry = Registry::new();
    assert_eq!(registry.create_room("A", "one").id(), "room_A");
    assert_eq!(registry.create_room("A", "two").id(), "room_A+");
    assert_eq!(registry.create_room("A", "three").id(), "room_A++");
    assert_eq!(registry.create_room("A+", "four").id(), "room_A+++");
    assert_eq!(registry.create_room("B", "five").id(), "room_B");
    assert_eq!(registry.len(), 5);
    assert_eq!(registry.find_room("room_A+").unwrap().name(), "two");
    assert_eq!(registry.find_room("room_A+++").unwrap().player1_id(), "A+");
}

#[test]
fn created_room_is_stored_last() {
    let mut registry = Registry::new();
    registry.create_room("x", "first");
    let room = registry.create_room("y", "second");
    let stored = registry.get(1).unwrap();
    assert_eq!(stored.id(), room.id());
    assert_eq!(stored.name(), "second");
    assert_eq!(stored.deck_1(), room.deck_1());
    assert_eq!(stored.deck_2(), room.deck_2());
    assert_eq!(stored.deck(), room.deck());
    assert_eq!(registry.get(0).unwrap().name(), "first");
    assert!(registry.get(2).is_none());
}

#[test]
fn every_room_holds_the_whole_deck() {
    let mut registry = Registry::new();
    for creator in ["p", "q", "r"] {
        let room = registry.create_room(creator, "t");
        assert_eq!(table_cards(&room), vec![1, 2, 3, 4, 5, 6, 7, 8, 9, 10, 11]);
    }
    registry.try_join("room_q", "z");
    for i in 0..3 {
        let room = registry.get(i).unwrap();
        assert_eq!(table_cards(room), vec![1, 2, 3, 4, 5, 6, 7, 8, 9, 10, 11]);
    }
}

#[test]
fn find_room_gives_the_room_asked_for() {
    let mut registry = Registry::new();
    registry.create_room("x", "first");
    registry.create_room("y", "second");
    assert!(registry.contains("room_x"));
    assert!(registry.contains("room_y"));
    assert!(!registry.contains("room_z"));
    assert!(!registry.contains("x"));
    assert_eq!(registry.find_room("room_y").unwrap().name(), "second");
    assert_eq!(registry.find_room("room_x").unwrap().name(), "first");
    assert!(registry.find_room("room_").is_none());
}

#[test]
fn self_join_on_open_room_is_rejected() {
    let mut registry = Registry::new();
    registry.create_room("A", "table1");
    registry.create_room("B", "table2");
    assert!(matches!(registry.try_join("room_A", "A"), JoinOutcome::SelfJoinRejected));
    assert!(matches!(registry.try_join("room_B", "B"), JoinOutcome::SelfJoinRejected));
    assert!(registry.get(0).unwrap().player2_id().is_none());
    assert!(registry.get(1).unwrap().player2_id().is_none());
    assert!(matches!(registry.try_join("room_B", "A"), JoinOutcome::Joined(_)));
}

#[test]
fn join_on_unknown_room_is_not_found() {
    let mut registry = Registry::new();
    assert!(matches!(registry.try_join("room_A", "B"), JoinOutcome::RoomNotFound));
    registry.create_room("A", "table1");
    assert!(matches!(registry.try_join("room_B", "B"), JoinOutcome::RoomNotFound));
    assert!(matches!(registry.try_join("", "B"), JoinOutcome::RoomNotFound));
    assert!(matches!(registry.try_join("room_A+", "A"), JoinOutcome::RoomNotFound));
    assert_eq!(registry.len(), 1);
    assert_eq!(registry.get(0).unwrap().state(), RoomState::Open);
}

#[test]
fn first_of_two_joiners_wins() {
    for (first, second) in [("B", "C"), ("C", "B")] {
        let mut registry = Registry::new();
        registry.create_room("A", "table1");
        match registry.try_join("room_A", first) {
            JoinOutcome::Joined(room) => {
                assert_eq!(room.player2_id().as_deref(), Some(first));
            },
            other => panic!("expected a join, got {:?}", other),
        }
        assert!(is_full(&registry.try_join("room_A", second)));
        let room = registry.find_room("room_A").unwrap();
        assert_eq!(room.player2_id().as_deref(), Some(first));
    }
}

#[test]
fn full_room_stays_full() {
    let mut registry = Registry::new();
    registry.create_room("A", "table1");
    registry.create_room("D", "table2");
    assert!(matches!(registry.try_join("room_A", "B"), JoinOutcome::Joined(_)));
    let hand_1 = registry.get(0).unwrap().deck_1().clone();
    let hand_2 = registry.get(0).unwrap().deck_2().clone();
    let pile = registry.get(0).unwrap().deck().clone();
    for joiner in ["C", "B", "D", "E", "A"] {
        assert!(is_full(&registry.try_join("room_A", joiner)));
        registry.try_join("room_D", joiner);
        registry.try_join("nope", joiner);
        let room = registry.get(0).unwrap();
        assert_eq!(room.state(), RoomState::Full);
        assert_eq!(room.player2_id().as_deref(), Some("B"));
        assert_eq!(room.player1_id(), "A");
        assert_eq!(room.deck_1(), &hand_1);
        assert_eq!(room.deck_2(), &hand_2);
        assert_eq!(room.deck(), &pile);
    }
    assert_eq!(registry.get(1).unwrap().player2_id().as_deref(), Some("C"));
}

#[test]
fn join_changes_only_the_room_joined() {
    let mut registry = Registry::new();
    registry.create_room("A", "table1");
    registry.create_room("B", "table2");
    assert!(matches!(registry.try_join("room_B", "A"), JoinOutcome::Joined(_)));
    assert_eq!(registry.len(), 2);
    assert_eq!(registry.get(0).unwrap().state(), RoomState::Open);
    assert_eq!(registry.get(0).unwrap().id(), "room_A");
    assert_eq!(registry.get(1).unwrap().state(), RoomState::Full);
    assert_eq!(registry.get(1).unwrap().id(), "room_B");
}

#[test]
fn snapshot_copies_every_field() {
    let mut registry = Registry::new();
    registry.create_room("A", "table1");
    registry.try_join("room_A", "B");
    let room = registry.find_room("room_A").unwrap();
    let copy = room.snapshot();
    assert_eq!(copy.id(), room.id());
    assert_eq!(copy.name(), room.name());
    assert_eq!(copy.player1_id(), room.player1_id());
    assert_eq!(copy.player2_id(), room.player2_id());
    assert_eq!(copy.deck(), room.deck());
    assert_eq!(copy.deck_1(), room.deck_1());
    assert_eq!(copy.deck_2(), room.deck_2());
    assert_eq!(copy.state(), RoomState::Full);
}
