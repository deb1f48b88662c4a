//! Exercises of the world, scoreboard, team and inventory mirrors through
//! the packet-driven mutation table.

use mcbot::bot::Bot;
use mcbot::entity::EntityKind;
use mcbot::packets::{
    FriendlyFire, Item, MetaEntry, ObjectiveAction, Packet, ScoreboardKind, State, TeamInfo,
    TeamsAction,
};
use mcbot::stream::Stream;

fn fresh_bot() -> Bot {
    let mut s = Stream::new();
    s.state = State::Play;
    Bot::new("n".to_string(), "u".to_string(), 7, 0, s)
}

fn team_info() -> TeamInfo {
    TeamInfo {
        display_name: "Red Team".to_string(),
        prefix: "[R]".to_string(),
        suffix: "".to_string(),
        friendly_fire: FriendlyFire::On,
        nametag_visibility: "always".to_string(),
        color: 4,
    }
}

#[test]
fn team_membership_union_and_difference() {
    let mut bot = fresh_bot();
    bot.apply_packet(&Packet::Teams {
        name: "red".to_string(),
        action: TeamsAction::Create {
            info: team_info(),
            players: vec!["a".to_string(), "b".to_string()],
        },
    })
    .unwrap();
    bot.apply_packet(&Packet::Teams {
        name: "red".to_string(),
        action: TeamsAction::AddPlayers { players: vec!["c".to_string()] },
    })
    .unwrap();
    bot.apply_packet(&Packet::Teams {
        name: "red".to_string(),
        action: TeamsAction::RemovePlayers { players: vec!["a".to_string()] },
    })
    .unwrap();
    let team = bot.scores.get_team(&"red".to_string()).unwrap();
    let mut names: Vec<&str> = team.players.iter().map(|s| s.as_str()).collect();
    names.sort();
    assert_eq!(names, vec!["b", "c"]);
}

#[test]
fn scoreboard_clear_player_everywhere() {
    let mut bot = fresh_bot();
    for name in ["o1", "o2"] {
        bot.apply_packet(&Packet::ScoreboardObjective {
            objective: name.to_string(),
            action: ObjectiveAction::Add {
                display_name: name.to_string(),
                kind: ScoreboardKind::Integer,
            },
        })
        .unwrap();
        bot.apply_packet(&Packet::ScoreboardUpdate {
            player: "p1".to_string(),
            objective: name.to_string(),
            value: Some(5),
        })
        .unwrap();
    }
    bot.apply_packet(&Packet::ScoreboardUpdate {
        player: "p1".to_string(),
        objective: "".to_string(),
        value: None,
    })
    .unwrap();
    for name in ["o1", "o2"] {
        let o = bot.scores.get_objective(&name.to_string()).unwrap();
        assert!(o.scores.iter().all(|(p, _)| p != "p1"), "p1 must be absent from {name}");
    }
}

#[test]
fn scoreboard_upsert_and_remove_one() {
    let mut bot = fresh_bot();
    bot.apply_packet(&Packet::ScoreboardObjective {
        objective: "o1".to_string(),
        action: ObjectiveAction::Add {
            display_name: "First".to_string(),
            kind: ScoreboardKind::Hearts,
        },
    })
    .unwrap();
    bot.apply_packet(&Packet::ScoreboardUpdate {
        player: "p".to_string(),
        objective: "o1".to_string(),
        value: Some(3),
    })
    .unwrap();
    bot.apply_packet(&Packet::ScoreboardUpdate {
        player: "p".to_string(),
        objective: "o1".to_string(),
        value: Some(9),
    })
    .unwrap();
    {
        let o = bot.scores.get_objective(&"o1".to_string()).unwrap();
        assert_eq!(o.scores.len(), 1);
        assert_eq!(o.scores[0].1, 9);
        assert!(matches!(o.kind, ScoreboardKind::Hearts));
    }
    bot.apply_packet(&Packet::ScoreboardUpdate {
        player: "p".to_string(),
        objective: "o1".to_string(),
        value: None,
    })
    .unwrap();
    let o = bot.scores.get_objective(&"o1".to_string()).unwrap();
    assert!(o.scores.is_empty());
}

#[test]
fn scoreboard_display_slots() {
    let mut bot = fresh_bot();
    bot.apply_packet(&Packet::ScoreboardDisplay { position: 1, name: "side".to_string() })
        .unwrap();
    assert_eq!(bot.scores.sidebar.as_deref(), Some("side"));
    bot.apply_packet(&Packet::ScoreboardDisplay { position: 1, name: "".to_string() })
        .unwrap();
    assert!(bot.scores.sidebar.is_none());
    bot.apply_packet(&Packet::ScoreboardDisplay { position: 0, name: "list".to_string() })
        .unwrap();
    assert_eq!(bot.scores.player_list.as_deref(), Some("list"));
}

#[test]
fn spawn_metadata_destroy_lifecycle() {
    let mut bot = fresh_bot();
    bot.apply_packet(&Packet::SpawnMob {
        entity_id: 42,
        mob_type: 90,
        x: 1,
        y: 2,
        z: 3,
        yaw: 0,
        pitch: 0,
    })
    .unwrap();
    {
        let e = bot.world.get_entity(42).unwrap();
        assert!(matches!(e.kind, EntityKind::Pig));
        assert_eq!(e.coords.unwrap().x, 1);
    }
    bot.apply_packet(&Packet::EntityMetadata {
        entity_id: 42,
        metadata: vec![MetaEntry { key: 16, value: 1 }],
    })
    .unwrap();
    {
        let e = bot.world.get_entity(42).unwrap();
        assert_eq!(e.metadata.len(), 1);
        assert_eq!(e.metadata[0].key, 16);
        assert_eq!(e.metadata[0].value, 1);
    }
    // metadata for an unknown entity is dropped
    bot.apply_packet(&Packet::EntityMetadata {
        entity_id: 99,
        metadata: vec![MetaEntry { key: 1, value: 1 }],
    })
    .unwrap();
    assert!(bot.world.get_entity(99).is_none());
    bot.apply_packet(&Packet::EntityDestroy { entity_ids: vec![42] }).unwrap();
    assert!(bot.world.get_entity(42).is_none());
}

#[test]
fn spawn_overwrites_same_id() {
    let mut bot = fresh_bot();
    bot.apply_packet(&Packet::SpawnMob {
        entity_id: 9,
        mob_type: 90,
        x: 0,
        y: 0,
        z: 0,
        yaw: 0,
        pitch: 0,
    })
    .unwrap();
    bot.apply_packet(&Packet::SpawnMob {
        entity_id: 9,
        mob_type: 91,
        x: 5,
        y: 0,
        z: 0,
        yaw: 0,
        pitch: 0,
    })
    .unwrap();
    let e = bot.world.get_entity(9).unwrap();
    assert!(matches!(e.kind, EntityKind::Sheep));
    assert_eq!(e.coords.unwrap().x, 5);
}

#[test]
fn set_slot_and_equipment() {
    let mut bot = fresh_bot();
    let sword = Item { id: 267, count: 1, damage: 0 };
    bot.apply_packet(&Packet::SetSlot { window_id: 0, slot: 36, item: Some(sword) })
        .unwrap();
    assert_eq!(bot.inventory.hotbar()[0], Some(sword));
    assert_eq!(bot.inventory.main_hand(), Some(sword));
    bot.apply_packet(&Packet::SetSlot { window_id: 0, slot: -1, item: Some(sword) })
        .unwrap();
    assert_eq!(bot.inventory.carried, Some(sword));
    // out-of-range slots are dropped without panic
    bot.apply_packet(&Packet::SetSlot { window_id: 0, slot: 99, item: Some(sword) })
        .unwrap();
    bot.apply_packet(&Packet::SetSlot { window_id: 5, slot: 3, item: Some(sword) })
        .unwrap();
    // equipment for this bot lands in the armor slots
    let helm = Item { id: 310, count: 1, damage: 0 };
    bot.apply_packet(&Packet::EntityEquipment { entity_id: 7, slot: 0, item: Some(helm) })
        .unwrap();
    assert_eq!(bot.inventory.armor_slots()[0], Some(helm));
    // equipment for another entity does not touch the inventory
    bot.apply_packet(&Packet::EntityEquipment { entity_id: 8, slot: 1, item: Some(helm) })
        .unwrap();
    assert_eq!(bot.inventory.armor_slots()[1], None);
}

#[test]
fn attack_entity_validations() {
    let mut bot = fresh_bot();
    bot.apply_packet(&Packet::SpawnMob {
        entity_id: 42,
        mob_type: 90,
        x: 0,
        y: 0,
        z: 0,
        yaw: 0,
        pitch: 0,
    })
    .unwrap();
    bot.apply_packet(&Packet::SpawnObject {
        entity_id: 50,
        object_type: 2,
        x: 0,
        y: 0,
        z: 0,
        yaw: 0,
        pitch: 0,
    })
    .unwrap();
    bot.attack_entity(7); // self: refused
    assert!(bot.tcp.take_outbound().is_empty());
    bot.attack_entity(99); // unknown: refused
    assert!(bot.tcp.take_outbound().is_empty());
    bot.attack_entity(50); // item stack: refused
    assert!(bot.tcp.take_outbound().is_empty());
    bot.attack_entity(42); // a pig: attacked
    assert_eq!(bot.tcp.take_outbound().len(), 1);
}

#[test]
fn chat_is_queued() {
    let mut bot = fresh_bot();
    bot.chat("hello");
    let out = bot.tcp.take_outbound();
    assert_eq!(out.len(), 1);
    let expect =
        mcbot::stream::serialize_packet(&Packet::ClientChat { message: "hello".to_string() }, -1)
            .unwrap();
    assert_eq!(out[0], expect);
}

#[test]
fn handle_packets_stops_at_first_kick() {
    let mut bot = fresh_bot();
    let batch = vec![
        Packet::SpawnMob { entity_id: 1, mob_type: 90, x: 0, y: 0, z: 0, yaw: 0, pitch: 0 },
        Packet::KickDisconnect { reason: "ouch".to_string() },
        Packet::SpawnMob { entity_id: 2, mob_type: 90, x: 0, y: 0, z: 0, yaw: 0, pitch: 0 },
        Packet::KickDisconnect { reason: "later".to_string() },
    ];
    let err = bot.handle_packets(batch).unwrap_err();
    match err {
        mcbot::error::Error::Disconnected(t) => assert_eq!(t, "ouch"),
        _ => panic!("expected the first kick's reason"),
    }
    // packets before the kick were applied, those after it were not
    assert!(bot.world.get_entity(1).is_some());
    assert!(bot.world.get_entity(2).is_none());
}
