//! The packet vocabulary of the protocol: typed bodies for the server and
//! client packets the session engine understands, a ghost view for each, and
//! the byte-level body format (spec encoders and positional decoders).
//!
//! A body never includes the frame header: framing (length prefix and the
//! optional compression header) lives in `stream`.

use vstd::prelude::*;

use crate::varint::vi_enc;
use crate::wire::{
    dec_bool, dec_i16, dec_i32, dec_i8, dec_str, dec_svi, dec_u16, dec_u32, dec_u8, dec_vi,
    enc_bool, enc_i16, enc_i32, enc_i8, enc_str, enc_svi, enc_u16, enc_u32, enc_u8, str_fits,
    lemma_dec_bool_enc, lemma_dec_i16_enc, lemma_dec_i32_enc, lemma_dec_i8_enc,
    lemma_dec_str_enc, lemma_dec_svi_enc, lemma_dec_u16_enc, lemma_dec_u32_enc, lemma_dec_u8_enc,
    lemma_dec_vi_enc, rd_bool, rd_i16, rd_i32, rd_i8, rd_str, rd_svi, rd_u16, rd_u32, rd_u8,
    rd_vi, wr_bool, wr_i16, wr_i32, wr_i8, wr_str, wr_svi, wr_u16, wr_u32, wr_u8, wr_vi,
};

verus! {

/// Protocol phase. Transitions are monotone: Handshake, then Login, then
/// Play.
#[derive(Clone, Copy, PartialEq, Eq, Structural, Debug)]
pub enum State {
    Handshake,
    Login,
    Play,
}

pub open spec fn state_index(s: State) -> int {
    match s {
        State::Handshake => 0,
        State::Login => 1,
        State::Play => 2,
    }
}

/// `a` precedes or equals `b` in the protocol's phase order.
pub open spec fn state_le(a: State, b: State) -> bool {
    state_index(a) <= state_index(b)
}

/// Which side of the connection emitted a packet.
#[derive(Clone, Copy, PartialEq, Eq, Structural, Debug)]
pub enum Origin {
    Client,
    Server,
}

/// One inventory item stack: numeric id (non-negative on the wire), stack
/// count and damage value.
#[derive(Clone, Copy, PartialEq, Eq, Structural, Debug)]
pub struct Item {
    pub id: i16,
    pub count: i8,
    pub damage: i16,
}

/// One entry of an entity-metadata delta.
#[derive(Clone, Copy, PartialEq, Eq, Structural, Debug)]
pub struct MetaEntry {
    pub key: u8,
    pub value: i32,
}

/// How an objective renders its scores.
#[derive(Clone, Copy, PartialEq, Eq, Structural, Debug)]
pub enum ScoreboardKind {
    Integer,
    Hearts,
}

/// A team's friendly-fire policy.
#[derive(Clone, Copy, PartialEq, Eq, Structural, Debug)]
pub enum FriendlyFire {
    Off,
    On,
    ShowInvisible,
}

/// Display fields shared by team creation and team update.
#[derive(Clone, Debug)]
pub struct TeamInfo {
    pub display_name: String,
    pub prefix: String,
    pub suffix: String,
    pub friendly_fire: FriendlyFire,
    pub nametag_visibility: String,
    pub color: u8,
}

/// Ghost view of `TeamInfo`.
pub struct TeamInfoV {
    pub display_name: Seq<char>,
    pub prefix: Seq<char>,
    pub suffix: Seq<char>,
    pub friendly_fire: FriendlyFire,
    pub nametag_visibility: Seq<char>,
    pub color: u8,
}

impl View for TeamInfo {
    type V = TeamInfoV;

    open spec fn view(&self) -> TeamInfoV {
        TeamInfoV {
            display_name: self.display_name@,
            prefix: self.prefix@,
            suffix: self.suffix@,
            friendly_fire: self.friendly_fire,
            nametag_visibility: self.nametag_visibility@,
            color: self.color,
        }
    }
}

/// The action carried by a scoreboard-objective packet.
#[derive(Clone, Debug)]
pub enum ObjectiveAction {
    Add { display_name: String, kind: ScoreboardKind },
    Remove,
    UpdateDisplayText { display_name: String, kind: ScoreboardKind },
}

/// Ghost view of `ObjectiveAction`.
pub enum ObjectiveActionV {
    Add { display_name: Seq<char>, kind: ScoreboardKind },
    Remove,
    UpdateDisplayText { display_name: Seq<char>, kind: ScoreboardKind },
}

impl View for ObjectiveAction {
    type V = ObjectiveActionV;

    open spec fn view(&self) -> ObjectiveActionV {
        match self {
            ObjectiveAction::Add { display_name, kind } => ObjectiveActionV::Add {
                display_name: display_name@,
                kind: *kind,
            },
            ObjectiveAction::Remove => ObjectiveActionV::Remove,
            ObjectiveAction::UpdateDisplayText { display_name, kind } => {
                ObjectiveActionV::UpdateDisplayText { display_name: display_name@, kind: *kind }
            },
        }
    }
}

/// The action carried by a teams packet.
#[derive(Clone, Debug)]
pub enum TeamsAction {
    Create { info: TeamInfo, players: Vec<String> },
    Remove,
    Update { info: TeamInfo },
    AddPlayers { players: Vec<String> },
    RemovePlayers { players: Vec<String> },
}

/// Ghost view of `TeamsAction`.
pub enum TeamsActionV {
    Create { info: TeamInfoV, players: Seq<Seq<char>> },
    Remove,
    Update { info: TeamInfoV },
    AddPlayers { players: Seq<Seq<char>> },
    RemovePlayers { players: Seq<Seq<char>> },
}

/// View of a list of strings as a sequence of character sequences.
pub open spec fn strs_view(v: Seq<String>) -> Seq<Seq<char>> {
    v.map_values(|s: String| s@)
}

impl View for TeamsAction {
    type V = TeamsActionV;

    open spec fn view(&self) -> TeamsActionV {
        match self {
            TeamsAction::Create { info, players } => TeamsActionV::Create {
                info: info@,
                players: strs_view(players@),
            },
            TeamsAction::Remove => TeamsActionV::Remove,
            TeamsAction::Update { info } => TeamsActionV::Update { info: info@ },
            TeamsAction::AddPlayers { players } => TeamsActionV::AddPlayers {
                players: strs_view(players@),
            },
            TeamsAction::RemovePlayers { players } => TeamsActionV::RemovePlayers {
                players: strs_view(players@),
            },
        }
    }
}

/// Every packet the engine reads or writes. Server-origin variants come
/// first, client-origin variants last.
#[derive(Clone, Debug)]
pub enum Packet {
    // server, Login state
    Disconnect { reason: String },
    LoginSuccess { uuid: String, username: String },
    SetCompression { threshold: i32 },
    // server, Play state
    KeepAlive { id: i32 },
    JoinGame { entity_id: i32, game_mode: u8, dimension: i8 },
    Chat { message: String, position: i8 },
    UpdateHealth { health_bits: u32, food: i32, saturation_bits: u32 },
    SpawnPlayer { entity_id: i32, x: i32, y: i32, z: i32, yaw: i8, pitch: i8 },
    SpawnObject { entity_id: i32, object_type: i8, x: i32, y: i32, z: i32, yaw: i8, pitch: i8 },
    SpawnMob { entity_id: i32, mob_type: u8, x: i32, y: i32, z: i32, yaw: i8, pitch: i8 },
    EntityEquipment { entity_id: i32, slot: i16, item: Option<Item> },
    EntityDestroy { entity_ids: Vec<i32> },
    EntityMetadata { entity_id: i32, metadata: Vec<MetaEntry> },
    SetSlot { window_id: i8, slot: i16, item: Option<Item> },
    ScoreboardObjective { objective: String, action: ObjectiveAction },
    ScoreboardUpdate { player: String, objective: String, value: Option<i32> },
    ScoreboardDisplay { position: i8, name: String },
    Teams { name: String, action: TeamsAction },
    KickDisconnect { reason: String },
    // client
    SetProtocol { protocol_version: i32, server_host: String, server_port: u16, next_state: i32 },
    LoginStart { username: String },
    ClientKeepAlive { id: i32 },
    ClientChat { message: String },
    UseEntity { target: i32, action: i32 },
    ClientCommand { action: i32 },
    ClientSettings {
        locale: String,
        view_distance: i8,
        chat_mode: i8,
        chat_colors: bool,
        displayed_skin_parts: u8,
    },
}

/// Ghost view of `Packet`: the same shape over mathematical values.
pub enum PacketV {
    Disconnect { reason: Seq<char> },
    LoginSuccess { uuid: Seq<char>, username: Seq<char> },
    SetCompression { threshold: i32 },
    KeepAlive { id: i32 },
    JoinGame { entity_id: i32, game_mode: u8, dimension: i8 },
    Chat { message: Seq<char>, position: i8 },
    UpdateHealth { health_bits: u32, food: i32, saturation_bits: u32 },
    SpawnPlayer { entity_id: i32, x: i32, y: i32, z: i32, yaw: i8, pitch: i8 },
    SpawnObject { entity_id: i32, object_type: i8, x: i32, y: i32, z: i32, yaw: i8, pitch: i8 },
    SpawnMob { entity_id: i32, mob_type: u8, x: i32, y: i32, z: i32, yaw: i8, pitch: i8 },
    EntityEquipment { entity_id: i32, slot: i16, item: Option<Item> },
    EntityDestroy { entity_ids: Seq<i32> },
    EntityMetadata { entity_id: i32, metadata: Seq<MetaEntry> },
    SetSlot { window_id: i8, slot: i16, item: Option<Item> },
    ScoreboardObjective { objective: Seq<char>, action: ObjectiveActionV },
    ScoreboardUpdate { player: Seq<char>, objective: Seq<char>, value: Option<i32> },
    ScoreboardDisplay { position: i8, name: Seq<char> },
    Teams { name: Seq<char>, action: TeamsActionV },
    KickDisconnect { reason: Seq<char> },
    SetProtocol {
        protocol_version: i32,
        server_host: Seq<char>,
        server_port: u16,
        next_state: i32,
    },
    LoginStart { username: Seq<char> },
    ClientKeepAlive { id: i32 },
    ClientChat { message: Seq<char> },
    UseEntity { target: i32, action: i32 },
    ClientCommand { action: i32 },
    ClientSettings {
        locale: Seq<char>,
        view_distance: i8,
        chat_mode: i8,
        chat_colors: bool,
        displayed_skin_parts: u8,
    },
}

impl View for Packet {
    type V = PacketV;

    open spec fn view(&self) -> PacketV {
        match self {
            Packet::Disconnect { reason } => PacketV::Disconnect { reason: reason@ },
            Packet::LoginSuccess { uuid, username } => PacketV::LoginSuccess {
                uuid: uuid@,
                username: username@,
            },
            Packet::SetCompression { threshold } => PacketV::SetCompression {
                threshold: *threshold,
            },
            Packet::KeepAlive { id } => PacketV::KeepAlive { id: *id },
            Packet::JoinGame { entity_id, game_mode, dimension } => PacketV::JoinGame {
                entity_id: *entity_id,
                game_mode: *game_mode,
                dimension: *dimension,
            },
            Packet::Chat { message, position } => PacketV::Chat {
                message: message@,
                position: *position,
            },
            Packet::UpdateHealth { health_bits, food, saturation_bits } => PacketV::UpdateHealth {
                health_bits: *health_bits,
                food: *food,
                saturation_bits: *saturation_bits,
            },
            Packet::SpawnPlayer { entity_id, x, y, z, yaw, pitch } => PacketV::SpawnPlayer {
                entity_id: *entity_id,
                x: *x,
                y: *y,
                z: *z,
                yaw: *yaw,
                pitch: *pitch,
            },
            Packet::SpawnObject { entity_id, object_type, x, y, z, yaw, pitch } => {
                PacketV::SpawnObject {
                    entity_id: *entity_id,
                    object_type: *object_type,
                    x: *x,
                    y: *y,
                    z: *z,
                    yaw: *yaw,
                    pitch: *pitch,
                }
            },
            Packet::SpawnMob { entity_id, mob_type, x, y, z, yaw, pitch } => PacketV::SpawnMob {
                entity_id: *entity_id,
                mob_type: *mob_type,
                x: *x,
                y: *y,
                z: *z,
                yaw: *yaw,
                pitch: *pitch,
            },
            Packet::EntityEquipment { entity_id, slot, item } => PacketV::EntityEquipment {
                entity_id: *entity_id,
                slot: *slot,
                item: *item,
            },
            Packet::EntityDestroy { entity_ids } => PacketV::EntityDestroy {
                entity_ids: entity_ids@,
            },
            Packet::EntityMetadata { entity_id, metadata } => PacketV::EntityMetadata {
                entity_id: *entity_id,
                metadata: metadata@,
            },
            Packet::SetSlot { window_id, slot, item } => PacketV::SetSlot {
                window_id: *window_id,
                slot: *slot,
                item: *item,
            },
            Packet::ScoreboardObjective { objective, action } => PacketV::ScoreboardObjective {
                objective: objective@,
                action: action@,
            },
            Packet::ScoreboardUpdate { player, objective, value } => PacketV::ScoreboardUpdate {
                player: player@,
                objective: objective@,
                value: *value,
            },
            Packet::ScoreboardDisplay { position, name } => PacketV::ScoreboardDisplay {
                position: *position,
                name: name@,
            },
            Packet::Teams { name, action } => PacketV::Teams { name: name@, action: action@ },
            Packet::KickDisconnect { reason } => PacketV::KickDisconnect { reason: reason@ },
            Packet::SetProtocol { protocol_version, server_host, server_port, next_state } => {
                PacketV::SetProtocol {
                    protocol_version: *protocol_version,
                    server_host: server_host@,
                    server_port: *server_port,
                    next_state: *next_state,
                }
            },
            Packet::LoginStart { username } => PacketV::LoginStart { username: username@ },
            Packet::ClientKeepAlive { id } => PacketV::ClientKeepAlive { id: *id },
            Packet::ClientChat { message } => PacketV::ClientChat { message: message@ },
            Packet::UseEntity { target, action } => PacketV::UseEntity {
                target: *target,
                action: *action,
            },
            Packet::ClientCommand { action } => PacketV::ClientCommand { action: *action },
            Packet::ClientSettings {
                locale,
                view_distance,
                chat_mode,
                chat_colors,
                displayed_skin_parts,
            } => PacketV::ClientSettings {
                locale: locale@,
                view_distance: *view_distance,
                chat_mode: *chat_mode,
                chat_colors: *chat_colors,
                displayed_skin_parts: *displayed_skin_parts,
            },
        }
    }
}

// ---------------------------------------------------------------------------
// packet metadata: id, state, origin
// ---------------------------------------------------------------------------
pub open spec fn packet_id(p: PacketV) -> u32 {
    match p {
        PacketV::Disconnect { .. } => 0x00,
        PacketV::LoginSuccess { .. } => 0x02,
        PacketV::SetCompression { .. } => 0x03,
        PacketV::KeepAlive { .. } => 0x00,
        PacketV::JoinGame { .. } => 0x01,
        PacketV::Chat { .. } => 0x02,
        PacketV::UpdateHealth { .. } => 0x06,
        PacketV::SpawnPlayer { .. } => 0x0C,
        PacketV::SpawnObject { .. } => 0x0E,
        PacketV::SpawnMob { .. } => 0x0F,
        PacketV::EntityEquipment { .. } => 0x04,
        PacketV::EntityDestroy { .. } => 0x13,
        PacketV::EntityMetadata { .. } => 0x1C,
        PacketV::SetSlot { .. } => 0x2F,
        PacketV::ScoreboardObjective { .. } => 0x3B,
        PacketV::ScoreboardUpdate { .. } => 0x3C,
        PacketV::ScoreboardDisplay { .. } => 0x3D,
        PacketV::Teams { .. } => 0x3E,
        PacketV::KickDisconnect { .. } => 0x40,
        PacketV::SetProtocol { .. } => 0x00,
        PacketV::LoginStart { .. } => 0x00,
        PacketV::ClientKeepAlive { .. } => 0x00,
        PacketV::ClientChat { .. } => 0x01,
        PacketV::UseEntity { .. } => 0x02,
        PacketV::ClientCommand { .. } => 0x16,
        PacketV::ClientSettings { .. } => 0x15,
    }
}

pub open spec fn packet_state(p: PacketV) -> State {
    match p {
        PacketV::Disconnect { .. } => State::Login,
        PacketV::LoginSuccess { .. } => State::Login,
        PacketV::SetCompression { .. } => State::Login,
        PacketV::SetProtocol { .. } => State::Handshake,
        PacketV::LoginStart { .. } => State::Login,
        _ => State::Play,
    }
}

pub open spec fn packet_origin(p: PacketV) -> Origin {
    match p {
        PacketV::SetProtocol { .. } => Origin::Client,
        PacketV::LoginStart { .. } => Origin::Client,
        PacketV::ClientKeepAlive { .. } => Origin::Client,
        PacketV::ClientChat { .. } => Origin::Client,
        PacketV::UseEntity { .. } => Origin::Client,
        PacketV::ClientCommand { .. } => Origin::Client,
        PacketV::ClientSettings { .. } => Origin::Client,
        _ => Origin::Server,
    }
}

/// Ids this engine can decode for a given state and origin.
pub open spec fn known_id(state: State, origin: Origin, id: u32) -> bool {
    match (state, origin) {
        (State::Login, Origin::Server) => id == 0x00 || id == 0x02 || id == 0x03,
        (State::Play, Origin::Server) => id == 0x00 || id == 0x01 || id == 0x02 || id == 0x04
            || id == 0x06 || id == 0x0C || id == 0x0E || id == 0x0F || id == 0x13 || id == 0x1C
            || id == 0x2F || id == 0x3B || id == 0x3C || id == 0x3D || id == 0x3E || id == 0x40,
        (State::Handshake, Origin::Client) => id == 0x00,
        (State::Login, Origin::Client) => id == 0x00,
        (State::Play, Origin::Client) => id == 0x00 || id == 0x01 || id == 0x02 || id == 0x15
            || id == 0x16,
        _ => false,
    }
}

// ---------------------------------------------------------------------------
// spec encoders for compound fields
// ---------------------------------------------------------------------------
pub open spec fn enc_item(it: Option<Item>) -> Seq<u8> {
    match it {
        None => enc_i16(-1i16),
        Some(i) => enc_i16(i.id) + enc_i8(i.count) + enc_i16(i.damage),
    }
}

pub open spec fn enc_meta(m: MetaEntry) -> Seq<u8> {
    enc_u8(m.key) + enc_svi(m.value)
}

pub open spec fn enc_meta_seq(l: Seq<MetaEntry>) -> Seq<u8>
    decreases l.len(),
{
    if l.len() == 0 {
        Seq::empty()
    } else {
        enc_meta(l[0]) + enc_meta_seq(l.subrange(1, l.len() as int))
    }
}

pub open spec fn enc_meta_list(l: Seq<MetaEntry>) -> Seq<u8> {
    vi_enc(l.len() as u32) + enc_meta_seq(l)
}

pub open spec fn enc_i32_seq(l: Seq<i32>) -> Seq<u8>
    decreases l.len(),
{
    if l.len() == 0 {
        Seq::empty()
    } else {
        enc_svi(l[0]) + enc_i32_seq(l.subrange(1, l.len() as int))
    }
}

pub open spec fn enc_i32_list(l: Seq<i32>) -> Seq<u8> {
    vi_enc(l.len() as u32) + enc_i32_seq(l)
}

pub open spec fn enc_str_seq(l: Seq<Seq<char>>) -> Seq<u8>
    decreases l.len(),
{
    if l.len() == 0 {
        Seq::empty()
    } else {
        enc_str(l[0]) + enc_str_seq(l.subrange(1, l.len() as int))
    }
}

pub open spec fn enc_str_list(l: Seq<Seq<char>>) -> Seq<u8> {
    vi_enc(l.len() as u32) + enc_str_seq(l)
}

pub open spec fn enc_kind(k: ScoreboardKind) -> Seq<u8> {
    match k {
        ScoreboardKind::Integer => enc_u8(0),
        ScoreboardKind::Hearts => enc_u8(1),
    }
}

pub open spec fn enc_ff(f: FriendlyFire) -> Seq<u8> {
    match f {
        FriendlyFire::Off => enc_u8(0),
        FriendlyFire::On => enc_u8(1),
        FriendlyFire::ShowInvisible => enc_u8(3),
    }
}

pub open spec fn enc_team_info(t: TeamInfoV) -> Seq<u8> {
    enc_str(t.display_name) + enc_str(t.prefix) + enc_str(t.suffix) + enc_ff(t.friendly_fire)
        + enc_str(t.nametag_visibility) + enc_u8(t.color)
}

pub open spec fn enc_obj_action(a: ObjectiveActionV) -> Seq<u8> {
    match a {
        ObjectiveActionV::Add { display_name, kind } => enc_u8(0) + enc_str(display_name)
            + enc_kind(kind),
        ObjectiveActionV::Remove => enc_u8(1),
        ObjectiveActionV::UpdateDisplayText { display_name, kind } => enc_u8(2) + enc_str(
            display_name,
        ) + enc_kind(kind),
    }
}

pub open spec fn enc_teams_action(a: TeamsActionV) -> Seq<u8> {
    match a {
        TeamsActionV::Create { info, players } => enc_u8(0) + enc_team_info(info) + enc_str_list(
            players,
        ),
        TeamsActionV::Remove => enc_u8(1),
        TeamsActionV::Update { info } => enc_u8(2) + enc_team_info(info),
        TeamsActionV::AddPlayers { players } => enc_u8(3) + enc_str_list(players),
        TeamsActionV::RemovePlayers { players } => enc_u8(4) + enc_str_list(players),
    }
}

/// The body bytes of a packet, without any frame header.
pub open spec fn enc_body(p: PacketV) -> Seq<u8> {
    match p {
        PacketV::Disconnect { reason } => enc_str(reason),
        PacketV::LoginSuccess { uuid, username } => enc_str(uuid) + enc_str(username),
        PacketV::SetCompression { threshold } => enc_svi(threshold),
        PacketV::KeepAlive { id } => enc_svi(id),
        PacketV::JoinGame { entity_id, game_mode, dimension } => enc_i32(entity_id) + enc_u8(
            game_mode,
        ) + enc_i8(dimension),
        PacketV::Chat { message, position } => enc_str(message) + enc_i8(position),
        PacketV::UpdateHealth { health_bits, food, saturation_bits } => enc_u32(health_bits)
            + enc_svi(food) + enc_u32(saturation_bits),
        PacketV::SpawnPlayer { entity_id, x, y, z, yaw, pitch } => enc_svi(entity_id) + enc_i32(x)
            + enc_i32(y) + enc_i32(z) + enc_i8(yaw) + enc_i8(pitch),
        PacketV::SpawnObject { entity_id, object_type, x, y, z, yaw, pitch } => enc_svi(entity_id)
            + enc_i8(object_type) + enc_i32(x) + enc_i32(y) + enc_i32(z) + enc_i8(yaw) + enc_i8(
            pitch,
        ),
        PacketV::SpawnMob { entity_id, mob_type, x, y, z, yaw, pitch } => enc_svi(entity_id)
            + enc_u8(mob_type) + enc_i32(x) + enc_i32(y) + enc_i32(z) + enc_i8(yaw) + enc_i8(
            pitch,
        ),
        PacketV::EntityEquipment { entity_id, slot, item } => enc_svi(entity_id) + enc_i16(slot)
            + enc_item(item),
        PacketV::EntityDestroy { entity_ids } => enc_i32_list(entity_ids),
        PacketV::EntityMetadata { entity_id, metadata } => enc_svi(entity_id) + enc_meta_list(
            metadata,
        ),
        PacketV::SetSlot { window_id, slot, item } => enc_i8(window_id) + enc_i16(slot) + enc_item(
            item,
        ),
        PacketV::ScoreboardObjective { objective, action } => enc_str(objective) + enc_obj_action(
            action,
        ),
        PacketV::ScoreboardUpdate { player, objective, value } => enc_str(player) + enc_u8(
            if value is Some {
                0
            } else {
                1
            },
        ) + enc_str(objective) + (match value {
            Some(v) => enc_svi(v),
            None => Seq::empty(),
        }),
        PacketV::ScoreboardDisplay { position, name } => enc_i8(position) + enc_str(name),
        PacketV::Teams { name, action } => enc_str(name) + enc_teams_action(action),
        PacketV::KickDisconnect { reason } => enc_str(reason),
        PacketV::SetProtocol { protocol_version, server_host, server_port, next_state } => {
            enc_svi(protocol_version) + enc_str(server_host) + enc_u16(server_port) + enc_svi(
                next_state,
            )
        },
        PacketV::LoginStart { username } => enc_str(username),
        PacketV::ClientKeepAlive { id } => enc_svi(id),
        PacketV::ClientChat { message } => enc_str(message),
        PacketV::UseEntity { target, action } => enc_svi(target) + enc_svi(action),
        PacketV::ClientCommand { action } => enc_svi(action),
        PacketV::ClientSettings {
            locale,
            view_distance,
            chat_mode,
            chat_colors,
            displayed_skin_parts,
        } => enc_str(locale) + enc_i8(view_distance) + enc_i8(chat_mode) + enc_bool(chat_colors)
            + enc_u8(displayed_skin_parts),
    }
}

// ---------------------------------------------------------------------------
// well-formedness: what the encoders can represent
// ---------------------------------------------------------------------------
pub open spec fn item_wf(it: Option<Item>) -> bool {
    match it {
        Some(i) => i.id >= 0,
        None => true,
    }
}

pub open spec fn strs_wf(l: Seq<Seq<char>>) -> bool {
    l.len() <= 0xFFFF_FFFF && forall|i: int| 0 <= i < l.len() ==> str_fits(#[trigger] l[i])
}

pub open spec fn team_info_wf(t: TeamInfoV) -> bool {
    str_fits(t.display_name) && str_fits(t.prefix) && str_fits(t.suffix) && str_fits(
        t.nametag_visibility,
    )
}

pub open spec fn obj_action_wf(a: ObjectiveActionV) -> bool {
    match a {
        ObjectiveActionV::Add { display_name, .. } => str_fits(display_name),
        ObjectiveActionV::Remove => true,
        ObjectiveActionV::UpdateDisplayText { display_name, .. } => str_fits(display_name),
    }
}

pub open spec fn teams_action_wf(a: TeamsActionV) -> bool {
    match a {
        TeamsActionV::Create { info, players } => team_info_wf(info) && strs_wf(players),
        TeamsActionV::Remove => true,
        TeamsActionV::Update { info } => team_info_wf(info),
        TeamsActionV::AddPlayers { players } => strs_wf(players),
        TeamsActionV::RemovePlayers { players } => strs_wf(players),
    }
}

/// The packet's strings fit a VarInt length, its lists fit a VarInt count,
/// and its items carry non-negative ids: exactly the packets the body
/// encoder can emit.
pub open spec fn packet_wf(p: PacketV) -> bool {
    match p {
        PacketV::Disconnect { reason } => str_fits(reason),
        PacketV::LoginSuccess { uuid, username } => str_fits(uuid) && str_fits(username),
        PacketV::SetCompression { .. } => true,
        PacketV::KeepAlive { .. } => true,
        PacketV::JoinGame { .. } => true,
        PacketV::Chat { message, .. } => str_fits(message),
        PacketV::UpdateHealth { .. } => true,
        PacketV::SpawnPlayer { .. } => true,
        PacketV::SpawnObject { .. } => true,
        PacketV::SpawnMob { .. } => true,
        PacketV::EntityEquipment { item, .. } => item_wf(item),
        PacketV::EntityDestroy { entity_ids } => entity_ids.len() <= 0xFFFF_FFFF,
        PacketV::EntityMetadata { metadata, .. } => metadata.len() <= 0xFFFF_FFFF,
        PacketV::SetSlot { item, .. } => item_wf(item),
        PacketV::ScoreboardObjective { objective, action } => str_fits(objective) && obj_action_wf(
            action,
        ),
        PacketV::ScoreboardUpdate { player, objective, .. } => str_fits(player) && str_fits(
            objective,
        ),
        PacketV::ScoreboardDisplay { name, .. } => str_fits(name),
        PacketV::Teams { name, action } => str_fits(name) && teams_action_wf(action),
        PacketV::KickDisconnect { reason } => str_fits(reason),
        PacketV::SetProtocol { server_host, .. } => str_fits(server_host),
        PacketV::LoginStart { username } => str_fits(username),
        PacketV::ClientKeepAlive { .. } => true,
        PacketV::ClientChat { message } => str_fits(message),
        PacketV::UseEntity { .. } => true,
        PacketV::ClientCommand { .. } => true,
        PacketV::ClientSettings { locale, .. } => str_fits(locale),
    }
}

// ---------------------------------------------------------------------------
// spec decoders for compound fields
// ---------------------------------------------------------------------------
pub open spec fn dec_item(s: Seq<u8>, pos: int) -> Option<(Option<Item>, int)> {
    match dec_i16(s, pos) {
        Some((id, p)) => {
            if id < 0 {
                Some((None, p))
            } else {
                match dec_i8(s, p) {
                    Some((count, p2)) => match dec_i16(s, p2) {
                        Some((damage, p3)) => Some((Some(Item { id, count, damage }), p3)),
                        None => None,
                    },
                    None => None,
                }
            }
        },
        None => None,
    }
}

pub open spec fn dec_kind(s: Seq<u8>, pos: int) -> Option<(ScoreboardKind, int)> {
    match dec_u8(s, pos) {
        Some((k, p)) => Some(
            (
                if k == 0 {
                    ScoreboardKind::Integer
                } else {
                    ScoreboardKind::Hearts
                },
                p,
            ),
        ),
        None => None,
    }
}

pub open spec fn dec_ff(s: Seq<u8>, pos: int) -> Option<(FriendlyFire, int)> {
    match dec_u8(s, pos) {
        Some((k, p)) => Some(
            (
                if k == 0 {
                    FriendlyFire::Off
                } else if k == 1 {
                    FriendlyFire::On
                } else {
                    FriendlyFire::ShowInvisible
                },
                p,
            ),
        ),
        None => None,
    }
}

pub open spec fn dec_meta(s: Seq<u8>, pos: int) -> Option<(MetaEntry, int)> {
    match dec_u8(s, pos) {
        Some((key, p)) => match dec_svi(s, p) {
            Some((value, p2)) => Some((MetaEntry { key, value }, p2)),
            None => None,
        },
        None => None,
    }
}

pub open spec fn dec_meta_n(s: Seq<u8>, pos: int, n: nat) -> Option<(Seq<MetaEntry>, int)>
    decreases n,
{
    if n == 0 {
        Some((Seq::empty(), pos))
    } else {
        match dec_meta(s, pos) {
            Some((m, p)) => match dec_meta_n(s, p, (n - 1) as nat) {
                Some((t, q)) => Some((seq![m] + t, q)),
                None => None,
            },
            None => None,
        }
    }
}

pub open spec fn dec_meta_list(s: Seq<u8>, pos: int) -> Option<(Seq<MetaEntry>, int)> {
    match dec_vi(s, pos) {
        Some((n, p)) => dec_meta_n(s, p, n as nat),
        None => None,
    }
}

pub open spec fn dec_i32_n(s: Seq<u8>, pos: int, n: nat) -> Option<(Seq<i32>, int)>
    decreases n,
{
    if n == 0 {
        Some((Seq::empty(), pos))
    } else {
        match dec_svi(s, pos) {
            Some((v, p)) => match dec_i32_n(s, p, (n - 1) as nat) {
                Some((t, q)) => Some((seq![v] + t, q)),
                None => None,
            },
            None => None,
        }
    }
}

pub open spec fn dec_i32_list(s: Seq<u8>, pos: int) -> Option<(Seq<i32>, int)> {
    match dec_vi(s, pos) {
        Some((n, p)) => dec_i32_n(s, p, n as nat),
        None => None,
    }
}

pub open spec fn dec_str_n(s: Seq<u8>, pos: int, n: nat) -> Option<(Seq<Seq<char>>, int)>
    decreases n,
{
    if n == 0 {
        Some((Seq::empty(), pos))
    } else {
        match dec_str(s, pos) {
            Some((v, p)) => match dec_str_n(s, p, (n - 1) as nat) {
                Some((t, q)) => Some((seq![v] + t, q)),
                None => None,
            },
            None => None,
        }
    }
}

pub open spec fn dec_str_list(s: Seq<u8>, pos: int) -> Option<(Seq<Seq<char>>, int)> {
    match dec_vi(s, pos) {
        Some((n, p)) => dec_str_n(s, p, n as nat),
        None => None,
    }
}

pub open spec fn dec_team_info(s: Seq<u8>, pos: int) -> Option<(TeamInfoV, int)> {
    match dec_str(s, pos) {
        Some((display_name, p1)) => match dec_str(s, p1) {
            Some((prefix, p2)) => match dec_str(s, p2) {
                Some((suffix, p3)) => match dec_ff(s, p3) {
                    Some((friendly_fire, p4)) => match dec_str(s, p4) {
                        Some((nametag_visibility, p5)) => match dec_u8(s, p5) {
                            Some((color, p6)) => Some(
                                (
                                    TeamInfoV {
                                        display_name,
                                        prefix,
                                        suffix,
                                        friendly_fire,
                                        nametag_visibility,
                                        color,
                                    },
                                    p6,
                                ),
                            ),
                            None => None,
                        },
                        None => None,
                    },
                    None => None,
                },
                None => None,
            },
            None => None,
        },
        None => None,
    }
}

pub open spec fn dec_obj_action(s: Seq<u8>, pos: int) -> Option<(ObjectiveActionV, int)> {
    match dec_u8(s, pos) {
        Some((mode, p)) => {
            if mode == 1 {
                Some((ObjectiveActionV::Remove, p))
            } else if mode == 0 || mode == 2 {
                match dec_str(s, p) {
                    Some((display_name, p2)) => match dec_kind(s, p2) {
                        Some((kind, p3)) => {
                            if mode == 0 {
                                Some((ObjectiveActionV::Add { display_name, kind }, p3))
                            } else {
                                Some(
                                    (
                                        ObjectiveActionV::UpdateDisplayText { display_name, kind },
                                        p3,
                                    ),
                                )
                            }
                        },
                        None => None,
                    },
                    None => None,
                }
            } else {
                None
            }
        },
        None => None,
    }
}

pub open spec fn dec_teams_action(s: Seq<u8>, pos: int) -> Option<(TeamsActionV, int)> {
    match dec_u8(s, pos) {
        Some((mode, p)) => {
            if mode == 0 {
                match dec_team_info(s, p) {
                    Some((info, p2)) => match dec_str_list(s, p2) {
                        Some((players, p3)) => Some((TeamsActionV::Create { info, players }, p3)),
                        None => None,
                    },
                    None => None,
                }
            } else if mode == 1 {
                Some((TeamsActionV::Remove, p))
            } else if mode == 2 {
                match dec_team_info(s, p) {
                    Some((info, p2)) => Some((TeamsActionV::Update { info }, p2)),
                    None => None,
                }
            } else if mode == 3 {
                match dec_str_list(s, p) {
                    Some((players, p2)) => Some((TeamsActionV::AddPlayers { players }, p2)),
                    None => None,
                }
            } else if mode == 4 {
                match dec_str_list(s, p) {
                    Some((players, p2)) => Some((TeamsActionV::RemovePlayers { players }, p2)),
                    None => None,
                }
            } else {
                None
            }
        },
        None => None,
    }
}

// ---------------------------------------------------------------------------
// spec decoders, one per packet body (strict: the body must be consumed
// exactly)
// ---------------------------------------------------------------------------
pub open spec fn dec_disconnect(b: Seq<u8>) -> Option<PacketV> {
    match dec_str(b, 0) {
        Some((reason, p)) => if p == b.len() {
            Some(PacketV::Disconnect { reason })
        } else {
            None
        },
        None => None,
    }
}

pub open spec fn dec_login_success(b: Seq<u8>) -> Option<PacketV> {
    match dec_str(b, 0) {
        Some((uuid, p)) => match dec_str(b, p) {
            Some((username, p2)) => if p2 == b.len() {
                Some(PacketV::LoginSuccess { uuid, username })
            } else {
                None
            },
            None => None,
        },
        None => None,
    }
}

pub open spec fn dec_set_compression(b: Seq<u8>) -> Option<PacketV> {
    match dec_svi(b, 0) {
        Some((threshold, p)) => if p == b.len() {
            Some(PacketV::SetCompression { threshold })
        } else {
            None
        },
        None => None,
    }
}

pub open spec fn dec_keep_alive(b: Seq<u8>) -> Option<PacketV> {
    match dec_svi(b, 0) {
        Some((id, p)) => if p == b.len() {
            Some(PacketV::KeepAlive { id })
        } else {
            None
        },
        None => None,
    }
}

pub open spec fn dec_join_game(b: Seq<u8>) -> Option<PacketV> {
    match dec_i32(b, 0) {
        Some((entity_id, p)) => match dec_u8(b, p) {
            Some((game_mode, p2)) => match dec_i8(b, p2) {
                Some((dimension, p3)) => if p3 == b.len() {
                    Some(PacketV::JoinGame { entity_id, game_mode, dimension })
                } else {
                    None
                },
                None => None,
            },
            None => None,
        },
        None => None,
    }
}

pub open spec fn dec_chat(b: Seq<u8>) -> Option<PacketV> {
    match dec_str(b, 0) {
        Some((message, p)) => match dec_i8(b, p) {
            Some((position, p2)) => if p2 == b.len() {
                Some(PacketV::Chat { message, position })
            } else {
                None
            },
            None => None,
        },
        None => None,
    }
}

pub open spec fn dec_update_health(b: Seq<u8>) -> Option<PacketV> {
    match dec_u32(b, 0) {
        Some((health_bits, p)) => match dec_svi(b, p) {
            Some((food, p2)) => match dec_u32(b, p2) {
                Some((saturation_bits, p3)) => if p3 == b.len() {
                    Some(PacketV::UpdateHealth { health_bits, food, saturation_bits })
                } else {
                    None
                },
                None => None,
            },
            None => None,
        },
        None => None,
    }
}

pub open spec fn dec_spawn_player(b: Seq<u8>) -> Option<PacketV> {
    match dec_svi(b, 0) {
        Some((entity_id, p)) => match dec_i32(b, p) {
            Some((x, p2)) => match dec_i32(b, p2) {
                Some((y, p3)) => match dec_i32(b, p3) {
                    Some((z, p4)) => match dec_i8(b, p4) {
                        Some((yaw, p5)) => match dec_i8(b, p5) {
                            Some((pitch, p6)) => if p6 == b.len() {
                                Some(PacketV::SpawnPlayer { entity_id, x, y, z, yaw, pitch })
                            } else {
                                None
                            },
                            None => None,
                        },
                        None => None,
                    },
                    None => None,
                },
                None => None,
            },
            None => None,
        },
        None => None,
    }
}

pub open spec fn dec_spawn_object(b: Seq<u8>) -> Option<PacketV> {
    match dec_svi(b, 0) {
        Some((entity_id, p)) => match dec_i8(b, p) {
            Some((object_type, p1)) => match dec_i32(b, p1) {
                Some((x, p2)) => match dec_i32(b, p2) {
                    Some((y, p3)) => match dec_i32(b, p3) {
                        Some((z, p4)) => match dec_i8(b, p4) {
                            Some((yaw, p5)) => match dec_i8(b, p5) {
                                Some((pitch, p6)) => if p6 == b.len() {
                                    Some(
                                        PacketV::SpawnObject {
                                            entity_id,
                                            object_type,
                                            x,
                                            y,
                                            z,
                                            yaw,
                                            pitch,
                                        },
                                    )
                                } else {
                                    None
                                },
                                None => None,
                            },
                            None => None,
                        },
                        None => None,
                    },
                    None => None,
                },
                None => None,
            },
            None => None,
        },
        None => None,
    }
}

pub open spec fn dec_spawn_mob(b: Seq<u8>) -> Option<PacketV> {
    match dec_svi(b, 0) {
        Some((entity_id, p)) => match dec_u8(b, p) {
            Some((mob_type, p1)) => match dec_i32(b, p1) {
                Some((x, p2)) => match dec_i32(b, p2) {
                    Some((y, p3)) => match dec_i32(b, p3) {
                        Some((z, p4)) => match dec_i8(b, p4) {
                            Some((yaw, p5)) => match dec_i8(b, p5) {
                                Some((pitch, p6)) => if p6 == b.len() {
                                    Some(
                                        PacketV::SpawnMob {
                                            entity_id,
                                            mob_type,
                                            x,
                                            y,
                                            z,
                                            yaw,
                                            pitch,
                                        },
                                    )
                                } else {
                                    None
                                },
                                None => None,
                            },
                            None => None,
                        },
                        None => None,
                    },
                    None => None,
                },
                None => None,
            },
            None => None,
        },
        None => None,
    }
}

pub open spec fn dec_entity_equipment(b: Seq<u8>) -> Option<PacketV> {
    match dec_svi(b, 0) {
        Some((entity_id, p)) => match dec_i16(b, p) {
            Some((slot, p2)) => match dec_item(b, p2) {
                Some((item, p3)) => if p3 == b.len() {
                    Some(PacketV::EntityEquipment { entity_id, slot, item })
                } else {
                    None
                },
                None => None,
            },
            None => None,
        },
        None => None,
    }
}

pub open spec fn dec_entity_destroy(b: Seq<u8>) -> Option<PacketV> {
    match dec_i32_list(b, 0) {
        Some((entity_ids, p)) => if p == b.len() {
            Some(PacketV::EntityDestroy { entity_ids })
        } else {
            None
        },
        None => None,
    }
}

pub open spec fn dec_entity_metadata(b: Seq<u8>) -> Option<PacketV> {
    match dec_svi(b, 0) {
        Some((entity_id, p)) => match dec_meta_list(b, p) {
            Some((metadata, p2)) => if p2 == b.len() {
                Some(PacketV::EntityMetadata { entity_id, metadata })
            } else {
                None
            },
            None => None,
        },
        None => None,
    }
}

pub open spec fn dec_set_slot(b: Seq<u8>) -> Option<PacketV> {
    match dec_i8(b, 0) {
        Some((window_id, p)) => match dec_i16(b, p) {
            Some((slot, p2)) => match dec_item(b, p2) {
                Some((item, p3)) => if p3 == b.len() {
                    Some(PacketV::SetSlot { window_id, slot, item })
                } else {
                    None
                },
                None => None,
            },
            None => None,
        },
        None => None,
    }
}

pub open spec fn dec_scoreboard_objective(b: Seq<u8>) -> Option<PacketV> {
    match dec_str(b, 0) {
        Some((objective, p)) => match dec_obj_action(b, p) {
            Some((action, p2)) => if p2 == b.len() {
                Some(PacketV::ScoreboardObjective { objective, action })
            } else {
                None
            },
            None => None,
        },
        None => None,
    }
}

pub open spec fn dec_scoreboard_update(b: Seq<u8>) -> Option<PacketV> {
    match dec_str(b, 0) {
        Some((player, p)) => match dec_u8(b, p) {
            Some((mode, p2)) => match dec_str(b, p2) {
                Some((objective, p3)) => {
                    if mode == 0 {
                        match dec_svi(b, p3) {
                            Some((v, p4)) => if p4 == b.len() {
                                Some(
                                    PacketV::ScoreboardUpdate {
                                        player,
                                        objective,
                                        value: Some(v),
                                    },
                                )
                            } else {
                                None
                            },
                            None => None,
                        }
                    } else if mode == 1 {
                        if p3 == b.len() {
                            Some(PacketV::ScoreboardUpdate { player, objective, value: None })
                        } else {
                            None
                        }
                    } else {
                        None
                    }
                },
                None => None,
            },
            None => None,
        },
        None => None,
    }
}

pub open spec fn dec_scoreboard_display(b: Seq<u8>) -> Option<PacketV> {
    match dec_i8(b, 0) {
        Some((position, p)) => match dec_str(b, p) {
            Some((name, p2)) => if p2 == b.len() {
                Some(PacketV::ScoreboardDisplay { position, name })
            } else {
                None
            },
            None => None,
        },
        None => None,
    }
}

pub open spec fn dec_teams(b: Seq<u8>) -> Option<PacketV> {
    match dec_str(b, 0) {
        Some((name, p)) => match dec_teams_action(b, p) {
            Some((action, p2)) => if p2 == b.len() {
                Some(PacketV::Teams { name, action })
            } else {
                None
            },
            None => None,
        },
        None => None,
    }
}

pub open spec fn dec_kick_disconnect(b: Seq<u8>) -> Option<PacketV> {
    match dec_str(b, 0) {
        Some((reason, p)) => if p == b.len() {
            Some(PacketV::KickDisconnect { reason })
        } else {
            None
        },
        None => None,
    }
}

pub open spec fn dec_set_protocol(b: Seq<u8>) -> Option<PacketV> {
    match dec_svi(b, 0) {
        Some((protocol_version, p)) => match dec_str(b, p) {
            Some((server_host, p2)) => match dec_u16(b, p2) {
                Some((server_port, p3)) => match dec_svi(b, p3) {
                    Some((next_state, p4)) => if p4 == b.len() {
                        Some(
                            PacketV::SetProtocol {
                                protocol_version,
                                server_host,
                                server_port,
                                next_state,
                            },
                        )
                    } else {
                        None
                    },
                    None => None,
                },
                None => None,
            },
            None => None,
        },
        None => None,
    }
}

pub open spec fn dec_login_start(b: Seq<u8>) -> Option<PacketV> {
    match dec_str(b, 0) {
        Some((username, p)) => if p == b.len() {
            Some(PacketV::LoginStart { username })
        } else {
            None
        },
        None => None,
    }
}

pub open spec fn dec_client_keep_alive(b: Seq<u8>) -> Option<PacketV> {
    match dec_svi(b, 0) {
        Some((id, p)) => if p == b.len() {
            Some(PacketV::ClientKeepAlive { id })
        } else {
            None
        },
        None => None,
    }
}

pub open spec fn dec_client_chat(b: Seq<u8>) -> Option<PacketV> {
    match dec_str(b, 0) {
        Some((message, p)) => if p == b.len() {
            Some(PacketV::ClientChat { message })
        } else {
            None
        },
        None => None,
    }
}

pub open spec fn dec_use_entity(b: Seq<u8>) -> Option<PacketV> {
    match dec_svi(b, 0) {
        Some((target, p)) => match dec_svi(b, p) {
            Some((action, p2)) => if p2 == b.len() {
                Some(PacketV::UseEntity { target, action })
            } else {
                None
            },
            None => None,
        },
        None => None,
    }
}

pub open spec fn dec_client_command(b: Seq<u8>) -> Option<PacketV> {
    match dec_svi(b, 0) {
        Some((action, p)) => if p == b.len() {
            Some(PacketV::ClientCommand { action })
        } else {
            None
        },
        None => None,
    }
}

pub open spec fn dec_client_settings(b: Seq<u8>) -> Option<PacketV> {
    match dec_str(b, 0) {
        Some((locale, p)) => match dec_i8(b, p) {
            Some((view_distance, p2)) => match dec_i8(b, p2) {
                Some((chat_mode, p3)) => match dec_bool(b, p3) {
                    Some((chat_colors, p4)) => match dec_u8(b, p4) {
                        Some((displayed_skin_parts, p5)) => if p5 == b.len() {
                            Some(
                                PacketV::ClientSettings {
                                    locale,
                                    view_distance,
                                    chat_mode,
                                    chat_colors,
                                    displayed_skin_parts,
                                },
                            )
                        } else {
                            None
                        },
                        None => None,
                    },
                    None => None,
                },
                None => None,
            },
            None => None,
        },
        None => None,
    }
}

/// Decode a body for a known (state, origin, id) triple; `None` on any
/// malformed body. Unknown triples also give `None`; use `known_id` to tell
/// the two apart.
pub open spec fn dec_body(state: State, origin: Origin, id: u32, b: Seq<u8>) -> Option<PacketV> {
    match (state, origin) {
        (State::Login, Origin::Server) => {
            if id == 0x00 {
                dec_disconnect(b)
            } else if id == 0x02 {
                dec_login_success(b)
            } else if id == 0x03 {
                dec_set_compression(b)
            } else {
                None
            }
        },
        (State::Play, Origin::Server) => {
            if id == 0x00 {
                dec_keep_alive(b)
            } else if id == 0x01 {
                dec_join_game(b)
            } else if id == 0x02 {
                dec_chat(b)
            } else if id == 0x04 {
                dec_entity_equipment(b)
            } else if id == 0x06 {
                dec_update_health(b)
            } else if id == 0x0C {
                dec_spawn_player(b)
            } else if id == 0x0E {
                dec_spawn_object(b)
            } else if id == 0x0F {
                dec_spawn_mob(b)
            } else if id == 0x13 {
                dec_entity_destroy(b)
            } else if id == 0x1C {
                dec_entity_metadata(b)
            } else if id == 0x2F {
                dec_set_slot(b)
            } else if id == 0x3B {
                dec_scoreboard_objective(b)
            } else if id == 0x3C {
                dec_scoreboard_update(b)
            } else if id == 0x3D {
                dec_scoreboard_display(b)
            } else if id == 0x3E {
                dec_teams(b)
            } else if id == 0x40 {
                dec_kick_disconnect(b)
            } else {
                None
            }
        },
        (State::Handshake, Origin::Client) => {
            if id == 0x00 {
                dec_set_protocol(b)
            } else {
                None
            }
        },
        (State::Login, Origin::Client) => {
            if id == 0x00 {
                dec_login_start(b)
            } else {
                None
            }
        },
        (State::Play, Origin::Client) => {
            if id == 0x00 {
                dec_client_keep_alive(b)
            } else if id == 0x01 {
                dec_client_chat(b)
            } else if id == 0x02 {
                dec_use_entity(b)
            } else if id == 0x15 {
                dec_client_settings(b)
            } else if id == 0x16 {
                dec_client_command(b)
            } else {
                None
            }
        },
        _ => None,
    }
}

// ---------------------------------------------------------------------------
// parse-of-encode: every well-formed packet reads back as itself
// ---------------------------------------------------------------------------
/// Splitting a written concatenation: if `a + b` sits at `pos` of `s`, then
/// `a` sits at `pos` and `b` right after it.
pub proof fn lemma_split(s: Seq<u8>, pos: int, a: Seq<u8>, b: Seq<u8>)
    requires
        0 <= pos,
        pos + a.len() + b.len() <= s.len(),
        s.subrange(pos, pos + a.len() + b.len()) == a + b,
    ensures
        s.subrange(pos, pos + a.len()) == a,
        s.subrange(pos + a.len(), pos + a.len() + b.len()) == b,
{
    assert(s.subrange(pos, pos + a.len()) =~= a) by {
        assert(forall|i: int|
            0 <= i < a.len() ==> #[trigger] s.subrange(pos, pos + a.len())[i] == s.subrange(
                pos,
                pos + a.len() + b.len(),
            )[i]);
    }
    assert(s.subrange(pos + a.len(), pos + a.len() + b.len()) =~= b) by {
        assert(forall|i: int|
            0 <= i < b.len() ==> #[trigger] s.subrange(pos + a.len(), pos + a.len() + b.len())[i]
                == s.subrange(pos, pos + a.len() + b.len())[a.len() + i]);
    }
}

/// An item written at `pos` reads back as written.
pub proof fn lemma_dec_item_enc(s: Seq<u8>, pos: int, it: Option<Item>)
    requires
        item_wf(it),
        0 <= pos,
        pos + enc_item(it).len() <= s.len(),
        s.subrange(pos, pos + enc_item(it).len()) == enc_item(it),
    ensures
        dec_item(s, pos) == Some((it, pos + enc_item(it).len())),
{
    match it {
        None => {
            lemma_dec_i16_enc(s, pos, -1i16);
        },
        Some(i) => {
            let e1 = enc_i16(i.id);
            let e2 = enc_i8(i.count);
            let e3 = enc_i16(i.damage);
            assert(enc_item(it) =~= e1 + (e2 + e3));
            lemma_split(s, pos, e1, e2 + e3);
            lemma_split(s, pos + e1.len(), e2, e3);
            lemma_dec_i16_enc(s, pos, i.id);
            lemma_dec_i8_enc(s, pos + 2, i.count);
            lemma_dec_i16_enc(s, pos + 3, i.damage);
        },
    }
}

/// A scoreboard kind written at `pos` reads back as written.
pub proof fn lemma_dec_kind_enc(s: Seq<u8>, pos: int, k: ScoreboardKind)
    requires
        0 <= pos,
        pos + 1 <= s.len(),
        s.subrange(pos, pos + 1) == enc_kind(k),
    ensures
        dec_kind(s, pos) == Some((k, pos + 1)),
{
    match k {
        ScoreboardKind::Integer => lemma_dec_u8_enc(s, pos, 0),
        ScoreboardKind::Hearts => lemma_dec_u8_enc(s, pos, 1),
    }
}

/// A friendly-fire flag written at `pos` reads back as written.
pub proof fn lemma_dec_ff_enc(s: Seq<u8>, pos: int, f: FriendlyFire)
    requires
        0 <= pos,
        pos + 1 <= s.len(),
        s.subrange(pos, pos + 1) == enc_ff(f),
    ensures
        dec_ff(s, pos) == Some((f, pos + 1)),
{
    match f {
        FriendlyFire::Off => lemma_dec_u8_enc(s, pos, 0),
        FriendlyFire::On => lemma_dec_u8_enc(s, pos, 1),
        FriendlyFire::ShowInvisible => lemma_dec_u8_enc(s, pos, 3),
    }
}

/// A metadata entry written at `pos` reads back as written.
pub proof fn lemma_dec_meta_enc(s: Seq<u8>, pos: int, m: MetaEntry)
    requires
        0 <= pos,
        pos + enc_meta(m).len() <= s.len(),
        s.subrange(pos, pos + enc_meta(m).len()) == enc_meta(m),
    ensures
        dec_meta(s, pos) == Some((m, pos + enc_meta(m).len())),
{
    lemma_split(s, pos, enc_u8(m.key), enc_svi(m.value));
    lemma_dec_u8_enc(s, pos, m.key);
    lemma_dec_svi_enc(s, pos + 1, m.value);
}

/// A run of metadata entries written at `pos` reads back as written.
pub proof fn lemma_dec_meta_n_enc(s: Seq<u8>, pos: int, l: Seq<MetaEntry>)
    requires
        0 <= pos,
        pos + enc_meta_seq(l).len() <= s.len(),
        s.subrange(pos, pos + enc_meta_seq(l).len()) == enc_meta_seq(l),
    ensures
        dec_meta_n(s, pos, l.len()) == Some((l, pos + enc_meta_seq(l).len())),
    decreases l.len(),
{
    if l.len() == 0 {
        assert(l =~= Seq::<MetaEntry>::empty());
    } else {
        let tail = l.subrange(1, l.len() as int);
        let e0 = enc_meta(l[0]);
        let er = enc_meta_seq(tail);
        assert(enc_meta_seq(l) == e0 + er);
        lemma_split(s, pos, e0, er);
        lemma_dec_meta_enc(s, pos, l[0]);
        lemma_dec_meta_n_enc(s, pos + e0.len(), tail);
        assert(seq![l[0]] + tail =~= l);
    }
}

/// A run of entity ids written at `pos` reads back as written.
pub proof fn lemma_dec_i32_n_enc(s: Seq<u8>, pos: int, l: Seq<i32>)
    requires
        0 <= pos,
        pos + enc_i32_seq(l).len() <= s.len(),
        s.subrange(pos, pos + enc_i32_seq(l).len()) == enc_i32_seq(l),
    ensures
        dec_i32_n(s, pos, l.len()) == Some((l, pos + enc_i32_seq(l).len())),
    decreases l.len(),
{
    if l.len() == 0 {
        assert(l =~= Seq::<i32>::empty());
    } else {
        let tail = l.subrange(1, l.len() as int);
        let e0 = enc_svi(l[0]);
        let er = enc_i32_seq(tail);
        assert(enc_i32_seq(l) == e0 + er);
        lemma_split(s, pos, e0, er);
        lemma_dec_svi_enc(s, pos, l[0]);
        lemma_dec_i32_n_enc(s, pos + e0.len(), tail);
        assert(seq![l[0]] + tail =~= l);
    }
}

/// A run of strings written at `pos` reads back as written.
pub proof fn lemma_dec_str_n_enc(s: Seq<u8>, pos: int, l: Seq<Seq<char>>)
    requires
        0 <= pos,
        forall|i: int| 0 <= i < l.len() ==> str_fits(#[trigger] l[i]),
        pos + enc_str_seq(l).len() <= s.len(),
        s.subrange(pos, pos + enc_str_seq(l).len()) == enc_str_seq(l),
    ensures
        dec_str_n(s, pos, l.len()) == Some((l, pos + enc_str_seq(l).len())),
    decreases l.len(),
{
    if l.len() == 0 {
        assert(l =~= Seq::<Seq<char>>::empty());
    } else {
        let tail = l.subrange(1, l.len() as int);
        let e0 = enc_str(l[0]);
        let er = enc_str_seq(tail);
        assert(enc_str_seq(l) == e0 + er);
        lemma_split(s, pos, e0, er);
        lemma_dec_str_enc(s, pos, l[0]);
        lemma_dec_str_n_enc(s, pos + e0.len(), tail);
        assert(seq![l[0]] + tail =~= l);
    }
}

/// A metadata list (count plus entries) written at `pos` reads back.
pub proof fn lemma_dec_meta_list_enc(s: Seq<u8>, pos: int, l: Seq<MetaEntry>)
    requires
        l.len() <= 0xFFFF_FFFF,
        0 <= pos,
        pos + enc_meta_list(l).len() <= s.len(),
        s.subrange(pos, pos + enc_meta_list(l).len()) == enc_meta_list(l),
    ensures
        dec_meta_list(s, pos) == Some((l, pos + enc_meta_list(l).len())),
{
    let n = l.len() as u32;
    let ev = vi_enc(n);
    lemma_split(s, pos, ev, enc_meta_seq(l));
    lemma_dec_vi_enc(s, pos, n);
    lemma_dec_meta_n_enc(s, pos + ev.len(), l);
    assert(n as nat == l.len());
}

/// An entity-id list written at `pos` reads back.
pub proof fn lemma_dec_i32_list_enc(s: Seq<u8>, pos: int, l: Seq<i32>)
    requires
        l.len() <= 0xFFFF_FFFF,
        0 <= pos,
        pos + enc_i32_list(l).len() <= s.len(),
        s.subrange(pos, pos + enc_i32_list(l).len()) == enc_i32_list(l),
    ensures
        dec_i32_list(s, pos) == Some((l, pos + enc_i32_list(l).len())),
{
    let n = l.len() as u32;
    let ev = vi_enc(n);
    lemma_split(s, pos, ev, enc_i32_seq(l));
    lemma_dec_vi_enc(s, pos, n);
    lemma_dec_i32_n_enc(s, pos + ev.len(), l);
    assert(n as nat == l.len());
}

/// A string list written at `pos` reads back.
pub proof fn lemma_dec_str_list_enc(s: Seq<u8>, pos: int, l: Seq<Seq<char>>)
    requires
        strs_wf(l),
        0 <= pos,
        pos + enc_str_list(l).len() <= s.len(),
        s.subrange(pos, pos + enc_str_list(l).len()) == enc_str_list(l),
    ensures
        dec_str_list(s, pos) == Some((l, pos + enc_str_list(l).len())),
{
    let n = l.len() as u32;
    let ev = vi_enc(n);
    lemma_split(s, pos, ev, enc_str_seq(l));
    lemma_dec_vi_enc(s, pos, n);
    lemma_dec_str_n_enc(s, pos + ev.len(), l);
    assert(n as nat == l.len());
}

/// Team display fields written at `pos` read back as written.
pub proof fn lemma_dec_team_info_enc(s: Seq<u8>, pos: int, t: TeamInfoV)
    requires
        team_info_wf(t),
        0 <= pos,
        pos + enc_team_info(t).len() <= s.len(),
        s.subrange(pos, pos + enc_team_info(t).len()) == enc_team_info(t),
    ensures
        dec_team_info(s, pos) == Some((t, pos + enc_team_info(t).len())),
{
    let e1 = enc_str(t.display_name);
    let e2 = enc_str(t.prefix);
    let e3 = enc_str(t.suffix);
    let e4 = enc_ff(t.friendly_fire);
    let e5 = enc_str(t.nametag_visibility);
    let e6 = enc_u8(t.color);
    let p1 = pos + e1.len();
    let p2 = p1 + e2.len();
    let p3 = p2 + e3.len();
    let p4 = p3 + e4.len();
    let p5 = p4 + e5.len();
    assert(enc_team_info(t) =~= e1 + (e2 + (e3 + (e4 + (e5 + e6)))));
    lemma_split(s, pos, e1, e2 + (e3 + (e4 + (e5 + e6))));
    lemma_split(s, p1, e2, e3 + (e4 + (e5 + e6)));
    lemma_split(s, p2, e3, e4 + (e5 + e6));
    lemma_split(s, p3, e4, e5 + e6);
    lemma_split(s, p4, e5, e6);
    lemma_dec_str_enc(s, pos, t.display_name);
    lemma_dec_str_enc(s, p1, t.prefix);
    lemma_dec_str_enc(s, p2, t.suffix);
    lemma_dec_ff_enc(s, p3, t.friendly_fire);
    lemma_dec_str_enc(s, p4, t.nametag_visibility);
    lemma_dec_u8_enc(s, p5, t.color);
}

/// An objective action written at `pos` reads back as written.
pub proof fn lemma_dec_obj_action_enc(s: Seq<u8>, pos: int, a: ObjectiveActionV)
    requires
        obj_action_wf(a),
        0 <= pos,
        pos + enc_obj_action(a).len() <= s.len(),
        s.subrange(pos, pos + enc_obj_action(a).len()) == enc_obj_action(a),
    ensures
        dec_obj_action(s, pos) == Some((a, pos + enc_obj_action(a).len())),
{
    match a {
        ObjectiveActionV::Add { display_name, kind } => {
            let e1 = enc_u8(0);
            let e2 = enc_str(display_name);
            let e3 = enc_kind(kind);
            assert(enc_obj_action(a) =~= e1 + (e2 + e3));
            lemma_split(s, pos, e1, e2 + e3);
            lemma_split(s, pos + 1, e2, e3);
            lemma_dec_u8_enc(s, pos, 0);
            lemma_dec_str_enc(s, pos + 1, display_name);
            lemma_dec_kind_enc(s, pos + 1 + e2.len(), kind);
        },
        ObjectiveActionV::Remove => {
            lemma_dec_u8_enc(s, pos, 1);
        },
        ObjectiveActionV::UpdateDisplayText { display_name, kind } => {
            let e1 = enc_u8(2);
            let e2 = enc_str(display_name);
            let e3 = enc_kind(kind);
            assert(enc_obj_action(a) =~= e1 + (e2 + e3));
            lemma_split(s, pos, e1, e2 + e3);
            lemma_split(s, pos + 1, e2, e3);
            lemma_dec_u8_enc(s, pos, 2);
            lemma_dec_str_enc(s, pos + 1, display_name);
            lemma_dec_kind_enc(s, pos + 1 + e2.len(), kind);
        },
    }
}

/// A teams action written at `pos` reads back as written.
pub proof fn lemma_dec_teams_action_enc(s: Seq<u8>, pos: int, a: TeamsActionV)
    requires
        teams_action_wf(a),
        0 <= pos,
        pos + enc_teams_action(a).len() <= s.len(),
        s.subrange(pos, pos + enc_teams_action(a).len()) == enc_teams_action(a),
    ensures
        dec_teams_action(s, pos) == Some((a, pos + enc_teams_action(a).len())),
{
    match a {
        TeamsActionV::Create { info, players } => {
            let e1 = enc_u8(0);
            let e2 = enc_team_info(info);
            let e3 = enc_str_list(players);
            assert(enc_teams_action(a) =~= e1 + (e2 + e3));
            lemma_split(s, pos, e1, e2 + e3);
            lemma_split(s, pos + 1, e2, e3);
            lemma_dec_u8_enc(s, pos, 0);
            lemma_dec_team_info_enc(s, pos + 1, info);
            lemma_dec_str_list_enc(s, pos + 1 + e2.len(), players);
        },
        TeamsActionV::Remove => {
            lemma_dec_u8_enc(s, pos, 1);
        },
        TeamsActionV::Update { info } => {
            let e1 = enc_u8(2);
            let e2 = enc_team_info(info);
            assert(enc_teams_action(a) =~= e1 + e2);
            lemma_split(s, pos, e1, e2);
            lemma_dec_u8_enc(s, pos, 2);
            lemma_dec_team_info_enc(s, pos + 1, info);
        },
        TeamsActionV::AddPlayers { players } => {
            let e1 = enc_u8(3);
            let e2 = enc_str_list(players);
            assert(enc_teams_action(a) =~= e1 + e2);
            lemma_split(s, pos, e1, e2);
            lemma_dec_u8_enc(s, pos, 3);
            lemma_dec_str_list_enc(s, pos + 1, players);
        },
        TeamsActionV::RemovePlayers { players } => {
            let e1 = enc_u8(4);
            let e2 = enc_str_list(players);
            assert(enc_teams_action(a) =~= e1 + e2);
            lemma_split(s, pos, e1, e2);
            lemma_dec_u8_enc(s, pos, 4);
            lemma_dec_str_list_enc(s, pos + 1, players);
        },
    }
}

#[verifier::rlimit(100)]
proof fn lemma_rt_joingame(pv: PacketV)
    requires
        packet_wf(pv),
        pv is JoinGame,
    ensures
        dec_body(packet_state(pv), packet_origin(pv), packet_id(pv), enc_body(pv)) == Some(pv),
{
    let b = enc_body(pv);
    assert(b.subrange(0, b.len() as int) =~= b);
    match pv {
        PacketV::JoinGame { entity_id, game_mode, dimension } => {
            let e1 = enc_i32(entity_id);
            let e2 = enc_u8(game_mode);
            let e3 = enc_i8(dimension);
            assert(b =~= e1 + (e2 + e3));
            lemma_split(b, 0, e1, e2 + e3);
            lemma_split(b, 4, e2, e3);
            lemma_dec_i32_enc(b, 0, entity_id);
            lemma_dec_u8_enc(b, 4, game_mode);
            lemma_dec_i8_enc(b, 5, dimension);
        },
        _ => {
        },
    }
}

#[verifier::rlimit(100)]
proof fn lemma_rt_chat(pv: PacketV)
    requires
        packet_wf(pv),
        pv is Chat,
    ensures
        dec_body(packet_state(pv), packet_origin(pv), packet_id(pv), enc_body(pv)) == Some(pv),
{
    let b = enc_body(pv);
    assert(b.subrange(0, b.len() as int) =~= b);
    match pv {
        PacketV::Chat { message, position } => {
            let e1 = enc_str(message);
            let e2 = enc_i8(position);
            lemma_split(b, 0, e1, e2);
            lemma_dec_str_enc(b, 0, message);
            lemma_dec_i8_enc(b, e1.len() as int, position);
        },
        _ => {
        },
    }
}

#[verifier::rlimit(100)]
proof fn lemma_rt_updatehealth(pv: PacketV)
    requires
        packet_wf(pv),
        pv is UpdateHealth,
    ensures
        dec_body(packet_state(pv), packet_origin(pv), packet_id(pv), enc_body(pv)) == Some(pv),
{
    let b = enc_body(pv);
    assert(b.subrange(0, b.len() as int) =~= b);
    match pv {
        PacketV::UpdateHealth { health_bits, food, saturation_bits } => {
            let e1 = enc_u32(health_bits);
            let e2 = enc_svi(food);
            let e3 = enc_u32(saturation_bits);
            assert(b =~= e1 + (e2 + e3));
            lemma_split(b, 0, e1, e2 + e3);
            lemma_split(b, 4, e2, e3);
            lemma_dec_u32_enc(b, 0, health_bits);
            lemma_dec_svi_enc(b, 4, food);
            lemma_dec_u32_enc(b, 4 + e2.len() as int, saturation_bits);
        },
        _ => {
        },
    }
}

#[verifier::rlimit(100)]
proof fn lemma_rt_scoreboarddisplay(pv: PacketV)
    requires
        packet_wf(pv),
        pv is ScoreboardDisplay,
    ensures
        dec_body(packet_state(pv), packet_origin(pv), packet_id(pv), enc_body(pv)) == Some(pv),
{
    let b = enc_body(pv);
    assert(b.subrange(0, b.len() as int) =~= b);
    match pv {
        PacketV::ScoreboardDisplay { position, name } => {
            let e1 = enc_i8(position);
            let e2 = enc_str(name);
            lemma_split(b, 0, e1, e2);
            lemma_dec_i8_enc(b, 0, position);
            lemma_dec_str_enc(b, 1, name);
        },
        _ => {
        },
    }
}

#[verifier::rlimit(100)]
proof fn lemma_rt_useentity(pv: PacketV)
    requires
        packet_wf(pv),
        pv is UseEntity,
    ensures
        dec_body(packet_state(pv), packet_origin(pv), packet_id(pv), enc_body(pv)) == Some(pv),
{
    let b = enc_body(pv);
    assert(b.subrange(0, b.len() as int) =~= b);
    match pv {
        PacketV::UseEntity { target, action } => {
            let e1 = enc_svi(target);
            let e2 = enc_svi(action);
            lemma_split(b, 0, e1, e2);
            lemma_dec_svi_enc(b, 0, target);
            lemma_dec_svi_enc(b, e1.len() as int, action);
        },
        _ => {
        },
    }
}

#[verifier::rlimit(100)]
proof fn lemma_rt_spawnplayer(pv: PacketV)
    requires
        packet_wf(pv),
        pv is SpawnPlayer,
    ensures
        dec_body(packet_state(pv), packet_origin(pv), packet_id(pv), enc_body(pv)) == Some(pv),
{
    let b = enc_body(pv);
    assert(b.subrange(0, b.len() as int) =~= b);
    match pv {
        PacketV::SpawnPlayer { entity_id, x, y, z, yaw, pitch } => {
            let e1 = enc_svi(entity_id);
            let e2 = enc_i32(x);
            let e3 = enc_i32(y);
            let e4 = enc_i32(z);
            let e5 = enc_i8(yaw);
            let e6 = enc_i8(pitch);
            let p1 = e1.len() as int;
            let a2 = e1 + e2;
            let a3 = a2 + e3;
            let a4 = a3 + e4;
            let a5 = a4 + e5;
            lemma_split(b, 0, a5, e6);
            lemma_split(b, 0, a4, e5);
            lemma_split(b, 0, a3, e4);
            lemma_split(b, 0, a2, e3);
            lemma_split(b, 0, e1, e2);
            lemma_dec_svi_enc(b, 0, entity_id);
            lemma_dec_i32_enc(b, p1, x);
            lemma_dec_i32_enc(b, p1 + 4, y);
            lemma_dec_i32_enc(b, p1 + 8, z);
            lemma_dec_i8_enc(b, p1 + 12, yaw);
            lemma_dec_i8_enc(b, p1 + 13, pitch);
        },
        _ => {
        },
    }
}

#[verifier::rlimit(100)]
proof fn lemma_rt_spawnobject(pv: PacketV)
    requires
        packet_wf(pv),
        pv is SpawnObject,
    ensures
        dec_body(packet_state(pv), packet_origin(pv), packet_id(pv), enc_body(pv)) == Some(pv),
{
    let b = enc_body(pv);
    assert(b.subrange(0, b.len() as int) =~= b);
    match pv {
        PacketV::SpawnObject { entity_id, object_type, x, y, z, yaw, pitch } => {
            let e1 = enc_svi(entity_id);
            let e2 = enc_i8(object_type);
            let e3 = enc_i32(x);
            let e4 = enc_i32(y);
            let e5 = enc_i32(z);
            let e6 = enc_i8(yaw);
            let e7 = enc_i8(pitch);
            let p1 = e1.len() as int;
            let a2 = e1 + e2;
            let a3 = a2 + e3;
            let a4 = a3 + e4;
            let a5 = a4 + e5;
            let a6 = a5 + e6;
            lemma_split(b, 0, a6, e7);
            lemma_split(b, 0, a5, e6);
            lemma_split(b, 0, a4, e5);
            lemma_split(b, 0, a3, e4);
            lemma_split(b, 0, a2, e3);
            lemma_split(b, 0, e1, e2);
            lemma_dec_svi_enc(b, 0, entity_id);
            lemma_dec_i8_enc(b, p1, object_type);
            lemma_dec_i32_enc(b, p1 + 1, x);
            lemma_dec_i32_enc(b, p1 + 5, y);
            lemma_dec_i32_enc(b, p1 + 9, z);
            lemma_dec_i8_enc(b, p1 + 13, yaw);
            lemma_dec_i8_enc(b, p1 + 14, pitch);
        },
        _ => {
        },
    }
}

#[verifier::rlimit(100)]
proof fn lemma_rt_spawnmob(pv: PacketV)
    requires
        packet_wf(pv),
        pv is SpawnMob,
    ensures
        dec_body(packet_state(pv), packet_origin(pv), packet_id(pv), enc_body(pv)) == Some(pv),
{
    let b = enc_body(pv);
    assert(b.subrange(0, b.len() as int) =~= b);
    match pv {
        PacketV::SpawnMob { entity_id, mob_type, x, y, z, yaw, pitch } => {
            let e1 = enc_svi(entity_id);
            let e2 = enc_u8(mob_type);
            let e3 = enc_i32(x);
            let e4 = enc_i32(y);
            let e5 = enc_i32(z);
            let e6 = enc_i8(yaw);
            let e7 = enc_i8(pitch);
            let p1 = e1.len() as int;
            let a2 = e1 + e2;
            let a3 = a2 + e3;
            let a4 = a3 + e4;
            let a5 = a4 + e5;
            let a6 = a5 + e6;
            lemma_split(b, 0, a6, e7);
            lemma_split(b, 0, a5, e6);
            lemma_split(b, 0, a4, e5);
            lemma_split(b, 0, a3, e4);
            lemma_split(b, 0, a2, e3);
            lemma_split(b, 0, e1, e2);
            lemma_dec_svi_enc(b, 0, entity_id);
            lemma_dec_u8_enc(b, p1, mob_type);
            lemma_dec_i32_enc(b, p1 + 1, x);
            lemma_dec_i32_enc(b, p1 + 5, y);
            lemma_dec_i32_enc(b, p1 + 9, z);
            lemma_dec_i8_enc(b, p1 + 13, yaw);
            lemma_dec_i8_enc(b, p1 + 14, pitch);
        },
        _ => {
        },
    }
}

#[verifier::rlimit(100)]
proof fn lemma_rt_entityequipment(pv: PacketV)
    requires
        packet_wf(pv),
        pv is EntityEquipment,
    ensures
        dec_body(packet_state(pv), packet_origin(pv), packet_id(pv), enc_body(pv)) == Some(pv),
{
    let b = enc_body(pv);
    assert(b.subrange(0, b.len() as int) =~= b);
    match pv {
        PacketV::EntityEquipment { entity_id, slot, item } => {
            let e1 = enc_svi(entity_id);
            let e2 = enc_i16(slot);
            let e3 = enc_item(item);
            let p1 = e1.len() as int;
            assert(b =~= e1 + (e2 + e3));
            lemma_split(b, 0, e1, e2 + e3);
            lemma_split(b, p1, e2, e3);
            lemma_dec_svi_enc(b, 0, entity_id);
            lemma_dec_i16_enc(b, p1, slot);
            lemma_dec_item_enc(b, p1 + 2, item);
        },
        _ => {
        },
    }
}

#[verifier::rlimit(100)]
proof fn lemma_rt_entitydestroy(pv: PacketV)
    requires
        packet_wf(pv),
        pv is EntityDestroy,
    ensures
        dec_body(packet_state(pv), packet_origin(pv), packet_id(pv), enc_body(pv)) == Some(pv),
{
    let b = enc_body(pv);
    assert(b.subrange(0, b.len() as int) =~= b);
    match pv {
        PacketV::EntityDestroy { entity_ids } => {
            lemma_dec_i32_list_enc(b, 0, entity_ids);
        },
        _ => {
        },
    }
}

#[verifier::rlimit(100)]
proof fn lemma_rt_entitymetadata(pv: PacketV)
    requires
        packet_wf(pv),
        pv is EntityMetadata,
    ensures
        dec_body(packet_state(pv), packet_origin(pv), packet_id(pv), enc_body(pv)) == Some(pv),
{
    let b = enc_body(pv);
    assert(b.subrange(0, b.len() as int) =~= b);
    match pv {
        PacketV::EntityMetadata { entity_id, metadata } => {
            let e1 = enc_svi(entity_id);
            let e2 = enc_meta_list(metadata);
            lemma_split(b, 0, e1, e2);
            lemma_dec_svi_enc(b, 0, entity_id);
            lemma_dec_meta_list_enc(b, e1.len() as int, metadata);
        },
        _ => {
        },
    }
}

#[verifier::rlimit(100)]
proof fn lemma_rt_setslot(pv: PacketV)
    requires
        packet_wf(pv),
        pv is SetSlot,
    ensures
        dec_body(packet_state(pv), packet_origin(pv), packet_id(pv), enc_body(pv)) == Some(pv),
{
    let b = enc_body(pv);
    assert(b.subrange(0, b.len() as int) =~= b);
    match pv {
        PacketV::SetSlot { window_id, slot, item } => {
            let e1 = enc_i8(window_id);
            let e2 = enc_i16(slot);
            let e3 = enc_item(item);
            assert(b =~= e1 + (e2 + e3));
            lemma_split(b, 0, e1, e2 + e3);
            lemma_split(b, 1, e2, e3);
            lemma_dec_i8_enc(b, 0, window_id);
            lemma_dec_i16_enc(b, 1, slot);
            lemma_dec_item_enc(b, 3, item);
        },
        _ => {
        },
    }
}

#[verifier::rlimit(100)]
proof fn lemma_rt_setprotocol(pv: PacketV)
    requires
        packet_wf(pv),
        pv is SetProtocol,
    ensures
        dec_body(packet_state(pv), packet_origin(pv), packet_id(pv), enc_body(pv)) == Some(pv),
{
    let b = enc_body(pv);
    assert(b.subrange(0, b.len() as int) =~= b);
    match pv {
        PacketV::SetProtocol { protocol_version, server_host, server_port, next_state } => {
            let e1 = enc_svi(protocol_version);
            let e2 = enc_str(server_host);
            let e3 = enc_u16(server_port);
            let e4 = enc_svi(next_state);
            let p1 = e1.len() as int;
            let p2 = p1 + e2.len();
            let a2 = e1 + e2;
            let a3 = a2 + e3;
            lemma_split(b, 0, a3, e4);
            lemma_split(b, 0, a2, e3);
            lemma_split(b, 0, e1, e2);
            lemma_dec_svi_enc(b, 0, protocol_version);
            lemma_dec_str_enc(b, p1, server_host);
            lemma_dec_u16_enc(b, p2, server_port);
            lemma_dec_svi_enc(b, p2 + 2, next_state);
        },
        _ => {
        },
    }
}

#[verifier::rlimit(100)]
proof fn lemma_rt_clientsettings(pv: PacketV)
    requires
        packet_wf(pv),
        pv is ClientSettings,
    ensures
        dec_body(packet_state(pv), packet_origin(pv), packet_id(pv), enc_body(pv)) == Some(pv),
{
    let b = enc_body(pv);
    assert(b.subrange(0, b.len() as int) =~= b);
    match pv {
        PacketV::ClientSettings {
            locale,
            view_distance,
            chat_mode,
            chat_colors,
            displayed_skin_parts,
        } => {
            let e1 = enc_str(locale);
            let e2 = enc_i8(view_distance);
            let e3 = enc_i8(chat_mode);
            let e4 = enc_bool(chat_colors);
            let e5 = enc_u8(displayed_skin_parts);
            let p1 = e1.len() as int;
            assert(b =~= e1 + (e2 + (e3 + (e4 + e5))));
            lemma_split(b, 0, e1, e2 + (e3 + (e4 + e5)));
            lemma_split(b, p1, e2, e3 + (e4 + e5));
            lemma_split(b, p1 + 1, e3, e4 + e5);
            lemma_split(b, p1 + 2, e4, e5);
            lemma_dec_str_enc(b, 0, locale);
            lemma_dec_i8_enc(b, p1, view_distance);
            lemma_dec_i8_enc(b, p1 + 1, chat_mode);
            lemma_dec_bool_enc(b, p1 + 2, chat_colors);
            lemma_dec_u8_enc(b, p1 + 3, displayed_skin_parts);
        },
        _ => {
        },
    }
}

/// Round trip for every well-formed packet: encoding the body and decoding
/// it under the packet's own state, origin and id gives the packet back.
#[verifier::rlimit(100)]
proof fn lemma_rt_disconnect(pv: PacketV)
    requires
        packet_wf(pv),
        pv is Disconnect,
    ensures
        dec_body(packet_state(pv), packet_origin(pv), packet_id(pv), enc_body(pv)) == Some(pv),
{
    let b = enc_body(pv);
    assert(b.subrange(0, b.len() as int) =~= b);
    match pv {
        PacketV::Disconnect { reason } => {
            lemma_dec_str_enc(b, 0, reason);
        },
        _ => {
        },
    }
}

#[verifier::rlimit(100)]
proof fn lemma_rt_loginsuccess(pv: PacketV)
    requires
        packet_wf(pv),
        pv is LoginSuccess,
    ensures
        dec_body(packet_state(pv), packet_origin(pv), packet_id(pv), enc_body(pv)) == Some(pv),
{
    let b = enc_body(pv);
    assert(b.subrange(0, b.len() as int) =~= b);
    match pv {
        PacketV::LoginSuccess { uuid, username } => {
            let e1 = enc_str(uuid);
            let e2 = enc_str(username);
            lemma_split(b, 0, e1, e2);
            lemma_dec_str_enc(b, 0, uuid);
            lemma_dec_str_enc(b, e1.len() as int, username);
        },
        _ => {
        },
    }
}

#[verifier::rlimit(100)]
proof fn lemma_rt_setcompression(pv: PacketV)
    requires
        packet_wf(pv),
        pv is SetCompression,
    ensures
        dec_body(packet_state(pv), packet_origin(pv), packet_id(pv), enc_body(pv)) == Some(pv),
{
    let b = enc_body(pv);
    assert(b.subrange(0, b.len() as int) =~= b);
    match pv {
        PacketV::SetCompression { threshold } => {
            lemma_dec_svi_enc(b, 0, threshold);
        },
        _ => {
        },
    }
}

#[verifier::rlimit(100)]
proof fn lemma_rt_keepalive(pv: PacketV)
    requires
        packet_wf(pv),
        pv is KeepAlive,
    ensures
        dec_body(packet_state(pv), packet_origin(pv), packet_id(pv), enc_body(pv)) == Some(pv),
{
    let b = enc_body(pv);
    assert(b.subrange(0, b.len() as int) =~= b);
    match pv {
        PacketV::KeepAlive { id } => {
            lemma_dec_svi_enc(b, 0, id);
        },
        _ => {
        },
    }
}

#[verifier::rlimit(100)]
proof fn lemma_rt_kickdisconnect(pv: PacketV)
    requires
        packet_wf(pv),
        pv is KickDisconnect,
    ensures
        dec_body(packet_state(pv), packet_origin(pv), packet_id(pv), enc_body(pv)) == Some(pv),
{
    let b = enc_body(pv);
    assert(b.subrange(0, b.len() as int) =~= b);
    match pv {
        PacketV::KickDisconnect { reason } => {
            lemma_dec_str_enc(b, 0, reason);
        },
        _ => {
        },
    }
}

#[verifier::rlimit(100)]
proof fn lemma_rt_loginstart(pv: PacketV)
    requires
        packet_wf(pv),
        pv is LoginStart,
    ensures
        dec_body(packet_state(pv), packet_origin(pv), packet_id(pv), enc_body(pv)) == Some(pv),
{
    let b = enc_body(pv);
    assert(b.subrange(0, b.len() as int) =~= b);
    match pv {
        PacketV::LoginStart { username } => {
            lemma_dec_str_enc(b, 0, username);
        },
        _ => {
        },
    }
}

#[verifier::rlimit(100)]
proof fn lemma_rt_clientkeepalive(pv: PacketV)
    requires
        packet_wf(pv),
        pv is ClientKeepAlive,
    ensures
        dec_body(packet_state(pv), packet_origin(pv), packet_id(pv), enc_body(pv)) == Some(pv),
{
    let b = enc_body(pv);
    assert(b.subrange(0, b.len() as int) =~= b);
    match pv {
        PacketV::ClientKeepAlive { id } => {
            lemma_dec_svi_enc(b, 0, id);
        },
        _ => {
        },
    }
}

#[verifier::rlimit(100)]
proof fn lemma_rt_clientchat(pv: PacketV)
    requires
        packet_wf(pv),
        pv is ClientChat,
    ensures
        dec_body(packet_state(pv), packet_origin(pv), packet_id(pv), enc_body(pv)) == Some(pv),
{
    let b = enc_body(pv);
    assert(b.subrange(0, b.len() as int) =~= b);
    match pv {
        PacketV::ClientChat { message } => {
            lemma_dec_str_enc(b, 0, message);
        },
        _ => {
        },
    }
}

#[verifier::rlimit(100)]
proof fn lemma_rt_clientcommand(pv: PacketV)
    requires
        packet_wf(pv),
        pv is ClientCommand,
    ensures
        dec_body(packet_state(pv), packet_origin(pv), packet_id(pv), enc_body(pv)) == Some(pv),
{
    let b = enc_body(pv);
    assert(b.subrange(0, b.len() as int) =~= b);
    match pv {
        PacketV::ClientCommand { action } => {
            lemma_dec_svi_enc(b, 0, action);
        },
        _ => {
        },
    }
}





#[verifier::rlimit(100)]
proof fn lemma_rt_scoreboardobjective(pv: PacketV)
    requires
        packet_wf(pv),
        pv is ScoreboardObjective,
    ensures
        dec_body(packet_state(pv), packet_origin(pv), packet_id(pv), enc_body(pv)) == Some(pv),
{
    let b = enc_body(pv);
    assert(b.subrange(0, b.len() as int) =~= b);
    match pv {
        PacketV::ScoreboardObjective { objective, action } => {
            let e1 = enc_str(objective);
            let e2 = enc_obj_action(action);
            lemma_split(b, 0, e1, e2);
            lemma_dec_str_enc(b, 0, objective);
            lemma_dec_obj_action_enc(b, e1.len() as int, action);
        },
        _ => {
        },
    }
}

#[verifier::rlimit(100)]
proof fn lemma_rt_scoreboardupdate(pv: PacketV)
    requires
        packet_wf(pv),
        pv is ScoreboardUpdate,
    ensures
        dec_body(packet_state(pv), packet_origin(pv), packet_id(pv), enc_body(pv)) == Some(pv),
{
    let b = enc_body(pv);
    assert(b.subrange(0, b.len() as int) =~= b);
    match pv {
        PacketV::ScoreboardUpdate { player, objective, value } => {
            let e1 = enc_str(player);
            let e2 = enc_u8(
                if value is Some {
                    0
                } else {
                    1
                },
            );
            let e3 = enc_str(objective);
            let e4 = match value {
                Some(v) => enc_svi(v),
                None => Seq::<u8>::empty(),
            };
            let p1 = e1.len() as int;
            let p3 = p1 + 1 + e3.len();
            let a2 = e1 + e2;
            let a3 = a2 + e3;
            assert(b =~= a3 + e4);
            lemma_split(b, 0, a3, e4);
            lemma_split(b, 0, a2, e3);
            lemma_split(b, 0, e1, e2);
            lemma_dec_str_enc(b, 0, player);
            lemma_dec_str_enc(b, p1 + 1, objective);
            match value {
                Some(v) => {
                    lemma_dec_u8_enc(b, p1, 0);
                    lemma_dec_svi_enc(b, p3, v);
                },
                None => {
                    lemma_dec_u8_enc(b, p1, 1);
                },
            }
        },
        _ => {
        },
    }
}

#[verifier::rlimit(100)]
proof fn lemma_rt_teams(pv: PacketV)
    requires
        packet_wf(pv),
        pv is Teams,
    ensures
        dec_body(packet_state(pv), packet_origin(pv), packet_id(pv), enc_body(pv)) == Some(pv),
{
    let b = enc_body(pv);
    assert(b.subrange(0, b.len() as int) =~= b);
    match pv {
        PacketV::Teams { name, action } => {
            let e1 = enc_str(name);
            let e2 = enc_teams_action(action);
            lemma_split(b, 0, e1, e2);
            lemma_dec_str_enc(b, 0, name);
            lemma_dec_teams_action_enc(b, e1.len() as int, action);
        },
        _ => {
        },
    }
}



/// An id outside `known_id` never decodes.
pub proof fn lemma_unknown_dec_none(state: State, origin: Origin, id: u32, b: Seq<u8>)
    requires
        !known_id(state, origin, id),
    ensures
        dec_body(state, origin, id, b) is None,
{
}

/// Round trip for every well-formed packet: encoding the body and decoding
/// it under the packet's own state, origin and id gives the packet back.
pub proof fn lemma_packet_round_trip(pv: PacketV)
    requires
        packet_wf(pv),
    ensures
        dec_body(packet_state(pv), packet_origin(pv), packet_id(pv), enc_body(pv)) == Some(pv),
{
    match pv {
        PacketV::Disconnect { .. } => lemma_rt_disconnect(pv),
        PacketV::LoginSuccess { .. } => lemma_rt_loginsuccess(pv),
        PacketV::SetCompression { .. } => lemma_rt_setcompression(pv),
        PacketV::KeepAlive { .. } => lemma_rt_keepalive(pv),
        PacketV::KickDisconnect { .. } => lemma_rt_kickdisconnect(pv),
        PacketV::LoginStart { .. } => lemma_rt_loginstart(pv),
        PacketV::ClientKeepAlive { .. } => lemma_rt_clientkeepalive(pv),
        PacketV::ClientChat { .. } => lemma_rt_clientchat(pv),
        PacketV::ClientCommand { .. } => lemma_rt_clientcommand(pv),
        PacketV::JoinGame { .. } => lemma_rt_joingame(pv),
        PacketV::Chat { .. } => lemma_rt_chat(pv),
        PacketV::UpdateHealth { .. } => lemma_rt_updatehealth(pv),
        PacketV::ScoreboardDisplay { .. } => lemma_rt_scoreboarddisplay(pv),
        PacketV::UseEntity { .. } => lemma_rt_useentity(pv),
        PacketV::SpawnPlayer { .. } => lemma_rt_spawnplayer(pv),
        PacketV::SpawnObject { .. } => lemma_rt_spawnobject(pv),
        PacketV::SpawnMob { .. } => lemma_rt_spawnmob(pv),
        PacketV::EntityEquipment { .. } => lemma_rt_entityequipment(pv),
        PacketV::EntityDestroy { .. } => lemma_rt_entitydestroy(pv),
        PacketV::EntityMetadata { .. } => lemma_rt_entitymetadata(pv),
        PacketV::SetSlot { .. } => lemma_rt_setslot(pv),
        PacketV::ScoreboardObjective { .. } => lemma_rt_scoreboardobjective(pv),
        PacketV::ScoreboardUpdate { .. } => lemma_rt_scoreboardupdate(pv),
        PacketV::Teams { .. } => lemma_rt_teams(pv),
        PacketV::SetProtocol { .. } => lemma_rt_setprotocol(pv),
        PacketV::ClientSettings { .. } => lemma_rt_clientsettings(pv),
    }
}

// ---------------------------------------------------------------------------
// executable encoding
// ---------------------------------------------------------------------------
proof fn lemma_enc_meta_seq_snoc(l: Seq<MetaEntry>, x: MetaEntry)
    ensures
        enc_meta_seq(l.push(x)) == enc_meta_seq(l) + enc_meta(x),
    decreases l.len(),
{
    if l.len() == 0 {
        assert(l.push(x) =~= seq![x]);
        assert(seq![x].subrange(1, 1) =~= Seq::<MetaEntry>::empty());
        assert(enc_meta_seq(Seq::<MetaEntry>::empty()) =~= Seq::<u8>::empty());
        assert(enc_meta_seq(seq![x]) == enc_meta(x) + enc_meta_seq(seq![x].subrange(1, 1)));
        assert(enc_meta_seq(seq![x]) =~= enc_meta_seq(l) + enc_meta(x));
    } else {
        let t = l.subrange(1, l.len() as int);
        assert(l.push(x).subrange(1, l.push(x).len() as int) =~= t.push(x));
        lemma_enc_meta_seq_snoc(t, x);
        assert(l.push(x)[0] == l[0]);
        assert(enc_meta_seq(l.push(x)) =~= enc_meta_seq(l) + enc_meta(x));
    }
}

proof fn lemma_enc_i32_seq_snoc(l: Seq<i32>, x: i32)
    ensures
        enc_i32_seq(l.push(x)) == enc_i32_seq(l) + enc_svi(x),
    decreases l.len(),
{
    if l.len() == 0 {
        assert(l.push(x) =~= seq![x]);
        assert(seq![x].subrange(1, 1) =~= Seq::<i32>::empty());
        assert(enc_i32_seq(Seq::<i32>::empty()) =~= Seq::<u8>::empty());
        assert(enc_i32_seq(seq![x]) == enc_svi(x) + enc_i32_seq(seq![x].subrange(1, 1)));
        assert(enc_i32_seq(seq![x]) =~= enc_i32_seq(l) + enc_svi(x));
    } else {
        let t = l.subrange(1, l.len() as int);
        assert(l.push(x).subrange(1, l.push(x).len() as int) =~= t.push(x));
        lemma_enc_i32_seq_snoc(t, x);
        assert(l.push(x)[0] == l[0]);
        assert(enc_i32_seq(l.push(x)) =~= enc_i32_seq(l) + enc_svi(x));
    }
}

proof fn lemma_enc_str_seq_snoc(l: Seq<Seq<char>>, x: Seq<char>)
    ensures
        enc_str_seq(l.push(x)) == enc_str_seq(l) + enc_str(x),
    decreases l.len(),
{
    if l.len() == 0 {
        assert(l.push(x) =~= seq![x]);
        assert(seq![x].subrange(1, 1) =~= Seq::<Seq<char>>::empty());
        assert(enc_str_seq(Seq::<Seq<char>>::empty()) =~= Seq::<u8>::empty());
        assert(enc_str_seq(seq![x]) == enc_str(x) + enc_str_seq(seq![x].subrange(1, 1)));
        assert(enc_str_seq(seq![x]) =~= enc_str_seq(l) + enc_str(x));
    } else {
        let t = l.subrange(1, l.len() as int);
        assert(l.push(x).subrange(1, l.push(x).len() as int) =~= t.push(x));
        lemma_enc_str_seq_snoc(t, x);
        assert(l.push(x)[0] == l[0]);
        assert(enc_str_seq(l.push(x)) =~= enc_str_seq(l) + enc_str(x));
    }
}

/// Runtime check for `str_fits`.
fn str_ok(s: &String) -> (ok: bool)
    ensures
        ok <==> str_fits(s@),
{
    let bs: &[u8] = s.as_str().as_bytes();
    bs.len() <= 0x7FFF_FFFF
}

fn try_wr_str(out: &mut Vec<u8>, s: &String) -> (ok: bool)
    ensures
        ok <==> str_fits(s@),
        ok ==> final(out)@ == old(out)@ + enc_str(s@),
        !ok ==> final(out)@ == old(out)@,
{
    if str_ok(s) {
        wr_str(out, s);
        true
    } else {
        false
    }
}

fn wr_item(out: &mut Vec<u8>, it: &Option<Item>) -> (ok: bool)
    ensures
        ok <==> item_wf(*it),
        ok ==> final(out)@ == old(out)@ + enc_item(*it),
        !ok ==> final(out)@ == old(out)@,
{
    match it {
        None => {
            wr_i16(out, -1);
            true
        },
        Some(i) => {
            if i.id >= 0 {
                wr_i16(out, i.id);
                wr_i8(out, i.count);
                wr_i16(out, i.damage);
                proof {
                    assert(out@ =~= old(out)@ + enc_item(*it));
                }
                true
            } else {
                false
            }
        },
    }
}

fn wr_kind(out: &mut Vec<u8>, k: ScoreboardKind)
    ensures
        final(out)@ == old(out)@ + enc_kind(k),
{
    match k {
        ScoreboardKind::Integer => wr_u8(out, 0),
        ScoreboardKind::Hearts => wr_u8(out, 1),
    }
}

fn wr_ff(out: &mut Vec<u8>, f: FriendlyFire)
    ensures
        final(out)@ == old(out)@ + enc_ff(f),
{
    match f {
        FriendlyFire::Off => wr_u8(out, 0),
        FriendlyFire::On => wr_u8(out, 1),
        FriendlyFire::ShowInvisible => wr_u8(out, 3),
    }
}

fn team_info_ok(t: &TeamInfo) -> (ok: bool)
    ensures
        ok <==> team_info_wf(t@),
{
    str_ok(&t.display_name) && str_ok(&t.prefix) && str_ok(&t.suffix) && str_ok(
        &t.nametag_visibility,
    )
}

fn wr_team_info(out: &mut Vec<u8>, t: &TeamInfo) -> (ok: bool)
    ensures
        ok <==> team_info_wf(t@),
        ok ==> final(out)@ == old(out)@ + enc_team_info(t@),
        !ok ==> final(out)@ == old(out)@,
{
    if str_ok(&t.display_name) && str_ok(&t.prefix) && str_ok(&t.suffix) && str_ok(
        &t.nametag_visibility,
    ) {
        wr_str(out, &t.display_name);
        wr_str(out, &t.prefix);
        wr_str(out, &t.suffix);
        wr_ff(out, t.friendly_fire);
        wr_str(out, &t.nametag_visibility);
        wr_u8(out, t.color);
        proof {
            assert(out@ =~= old(out)@ + enc_team_info(t@));
        }
        true
    } else {
        false
    }
}

fn wr_meta_list(out: &mut Vec<u8>, l: &Vec<MetaEntry>) -> (ok: bool)
    ensures
        ok <==> l@.len() <= 0xFFFF_FFFF,
        ok ==> final(out)@ == old(out)@ + enc_meta_list(l@),
        !ok ==> final(out)@ == old(out)@,
{
    if l.len() as u64 > 0xFFFF_FFFFu64 {
        return false;
    }
    wr_vi(out, l.len() as u32);
    let ghost base = out@;
    let mut i: usize = 0;
    while i < l.len()
        invariant
            i <= l@.len(),
            out@ == base + enc_meta_seq(l@.subrange(0, i as int)),
        decreases l@.len() - i,
    {
        let ghost pre = l@.subrange(0, i as int);
        wr_u8(out, l[i].key);
        wr_svi(out, l[i].value);
        proof {
            lemma_enc_meta_seq_snoc(pre, l@[i as int]);
            assert(pre.push(l@[i as int]) =~= l@.subrange(0, i + 1));
            assert(out@ =~= base + enc_meta_seq(l@.subrange(0, i + 1)));
        }
        i = i + 1;
    }
    proof {
        assert(l@.subrange(0, l@.len() as int) =~= l@);
        assert(out@ =~= old(out)@ + enc_meta_list(l@));
    }
    true
}

fn wr_i32_list(out: &mut Vec<u8>, l: &Vec<i32>) -> (ok: bool)
    ensures
        ok <==> l@.len() <= 0xFFFF_FFFF,
        ok ==> final(out)@ == old(out)@ + enc_i32_list(l@),
        !ok ==> final(out)@ == old(out)@,
{
    if l.len() as u64 > 0xFFFF_FFFFu64 {
        return false;
    }
    wr_vi(out, l.len() as u32);
    let ghost base = out@;
    let mut i: usize = 0;
    while i < l.len()
        invariant
            i <= l@.len(),
            out@ == base + enc_i32_seq(l@.subrange(0, i as int)),
        decreases l@.len() - i,
    {
        let ghost pre = l@.subrange(0, i as int);
        wr_svi(out, l[i]);
        proof {
            lemma_enc_i32_seq_snoc(pre, l@[i as int]);
            assert(pre.push(l@[i as int]) =~= l@.subrange(0, i + 1));
            assert(out@ =~= base + enc_i32_seq(l@.subrange(0, i + 1)));
        }
        i = i + 1;
    }
    proof {
        assert(l@.subrange(0, l@.len() as int) =~= l@);
        assert(out@ =~= old(out)@ + enc_i32_list(l@));
    }
    true
}

fn wr_str_list(out: &mut Vec<u8>, l: &Vec<String>) -> (ok: bool)
    ensures
        ok <==> strs_wf(strs_view(l@)),
        ok ==> final(out)@ == old(out)@ + enc_str_list(strs_view(l@)),
        !ok ==> final(out)@ == old(out)@,
{
    let ghost lv = strs_view(l@);
    proof {
        assert(lv.len() == l@.len());
    }
    if l.len() as u64 > 0xFFFF_FFFFu64 {
        return false;
    }
    let mut i: usize = 0;
    while i < l.len()
        invariant
            i <= l@.len(),
            lv == strs_view(l@),
            forall|j: int| 0 <= j < i ==> str_fits(#[trigger] lv[j]),
        decreases l@.len() - i,
    {
        if !str_ok(&l[i]) {
            proof {
                assert(lv[i as int] == l@[i as int]@);
            }
            return false;
        }
        proof {
            assert(lv[i as int] == l@[i as int]@);
        }
        i = i + 1;
    }
    wr_vi(out, l.len() as u32);
    let ghost base = out@;
    let mut k: usize = 0;
    while k < l.len()
        invariant
            k <= l@.len(),
            lv == strs_view(l@),
            forall|j: int| 0 <= j < l@.len() ==> str_fits(#[trigger] lv[j]),
            out@ == base + enc_str_seq(lv.subrange(0, k as int)),
        decreases l@.len() - k,
    {
        let ghost pre = lv.subrange(0, k as int);
        proof {
            assert(lv[k as int] == l@[k as int]@);
        }
        wr_str(out, &l[k]);
        proof {
            lemma_enc_str_seq_snoc(pre, lv[k as int]);
            assert(pre.push(lv[k as int]) =~= lv.subrange(0, k + 1));
            assert(out@ =~= base + enc_str_seq(lv.subrange(0, k + 1)));
        }
        k = k + 1;
    }
    proof {
        assert(lv.subrange(0, lv.len() as int) =~= lv);
        assert(out@ =~= old(out)@ + enc_str_list(lv));
    }
    true
}

fn wr_obj_action(out: &mut Vec<u8>, a: &ObjectiveAction) -> (ok: bool)
    ensures
        ok <==> obj_action_wf(a@),
        ok ==> final(out)@ == old(out)@ + enc_obj_action(a@),
        !ok ==> final(out)@ == old(out)@,
{
    match a {
        ObjectiveAction::Add { display_name, kind } => {
            if str_ok(display_name) {
                wr_u8(out, 0);
                wr_str(out, display_name);
                wr_kind(out, *kind);
                proof {
                    assert(out@ =~= old(out)@ + enc_obj_action(a@));
                }
                true
            } else {
                false
            }
        },
        ObjectiveAction::Remove => {
            wr_u8(out, 1);
            true
        },
        ObjectiveAction::UpdateDisplayText { display_name, kind } => {
            if str_ok(display_name) {
                wr_u8(out, 2);
                wr_str(out, display_name);
                wr_kind(out, *kind);
                proof {
                    assert(out@ =~= old(out)@ + enc_obj_action(a@));
                }
                true
            } else {
                false
            }
        },
    }
}

fn strs_ok(l: &Vec<String>) -> (ok: bool)
    ensures
        ok <==> strs_wf(strs_view(l@)),
{
    let ghost lv = strs_view(l@);
    if l.len() as u64 > 0xFFFF_FFFFu64 {
        return false;
    }
    let mut i: usize = 0;
    while i < l.len()
        invariant
            i <= l@.len(),
            lv == strs_view(l@),
            forall|j: int| 0 <= j < i ==> str_fits(#[trigger] lv[j]),
        decreases l@.len() - i,
    {
        let ok = str_ok(&l[i]);
        proof {
            assert(lv[i as int] == l@[i as int]@);
        }
        if !ok {
            return false;
        }
        i = i + 1;
    }
    true
}

fn teams_action_ok(a: &TeamsAction) -> (ok: bool)
    ensures
        ok <==> teams_action_wf(a@),
{
    match a {
        TeamsAction::Create { info, players } => team_info_ok(info) && strs_ok(players),
        TeamsAction::Remove => true,
        TeamsAction::Update { info } => team_info_ok(info),
        TeamsAction::AddPlayers { players } => strs_ok(players),
        TeamsAction::RemovePlayers { players } => strs_ok(players),
    }
}

fn wr_teams_action(out: &mut Vec<u8>, a: &TeamsAction)
    requires
        teams_action_wf(a@),
    ensures
        final(out)@ == old(out)@ + enc_teams_action(a@),
{
    match a {
        TeamsAction::Create { info, players } => {
            wr_u8(out, 0);
            let ok1 = wr_team_info(out, info);
            let ok2 = wr_str_list(out, players);
            proof {
                assert(out@ =~= old(out)@ + enc_teams_action(a@));
            }
        },
        TeamsAction::Remove => {
            wr_u8(out, 1);
        },
        TeamsAction::Update { info } => {
            wr_u8(out, 2);
            let ok1 = wr_team_info(out, info);
            proof {
                assert(out@ =~= old(out)@ + enc_teams_action(a@));
            }
        },
        TeamsAction::AddPlayers { players } => {
            wr_u8(out, 3);
            let ok = wr_str_list(out, players);
            proof {
                assert(out@ =~= old(out)@ + enc_teams_action(a@));
            }
        },
        TeamsAction::RemovePlayers { players } => {
            wr_u8(out, 4);
            let ok = wr_str_list(out, players);
            proof {
                assert(out@ =~= old(out)@ + enc_teams_action(a@));
            }
        },
    }
}

/// Encode a packet's body. `None` exactly when the packet is not
/// well-formed (a string or list too large for its length prefix, or an
/// item with a negative id).
#[verifier::rlimit(100)]
pub fn encode_body(p: &Packet) -> (r: Option<Vec<u8>>)
    ensures
        r is Some <==> packet_wf(p@),
        r matches Some(v) ==> v@ == enc_body(p@),
{
    let mut out: Vec<u8> = Vec::new();
    match p {
        Packet::Disconnect { reason } => {
            if !try_wr_str(&mut out, reason) {
                return None;
            }
        },
        Packet::LoginSuccess { uuid, username } => {
            if !(str_ok(uuid) && str_ok(username)) {
                return None;
            }
            wr_str(&mut out, uuid);
            wr_str(&mut out, username);
        },
        Packet::SetCompression { threshold } => {
            wr_svi(&mut out, *threshold);
        },
        Packet::KeepAlive { id } => {
            wr_svi(&mut out, *id);
        },
        Packet::JoinGame { entity_id, game_mode, dimension } => {
            wr_i32(&mut out, *entity_id);
            wr_u8(&mut out, *game_mode);
            wr_i8(&mut out, *dimension);
        },
        Packet::Chat { message, position } => {
            if !try_wr_str(&mut out, message) {
                return None;
            }
            wr_i8(&mut out, *position);
        },
        Packet::UpdateHealth { health_bits, food, saturation_bits } => {
            wr_u32(&mut out, *health_bits);
            wr_svi(&mut out, *food);
            wr_u32(&mut out, *saturation_bits);
        },
        Packet::SpawnPlayer { entity_id, x, y, z, yaw, pitch } => {
            wr_svi(&mut out, *entity_id);
            wr_i32(&mut out, *x);
            wr_i32(&mut out, *y);
            wr_i32(&mut out, *z);
            wr_i8(&mut out, *yaw);
            wr_i8(&mut out, *pitch);
        },
        Packet::SpawnObject { entity_id, object_type, x, y, z, yaw, pitch } => {
            wr_svi(&mut out, *entity_id);
            wr_i8(&mut out, *object_type);
            wr_i32(&mut out, *x);
            wr_i32(&mut out, *y);
            wr_i32(&mut out, *z);
            wr_i8(&mut out, *yaw);
            wr_i8(&mut out, *pitch);
        },
        Packet::SpawnMob { entity_id, mob_type, x, y, z, yaw, pitch } => {
            wr_svi(&mut out, *entity_id);
            wr_u8(&mut out, *mob_type);
            wr_i32(&mut out, *x);
            wr_i32(&mut out, *y);
            wr_i32(&mut out, *z);
            wr_i8(&mut out, *yaw);
            wr_i8(&mut out, *pitch);
        },
        Packet::EntityEquipment { entity_id, slot, item } => {
            wr_svi(&mut out, *entity_id);
            wr_i16(&mut out, *slot);
            if !wr_item(&mut out, item) {
                return None;
            }
        },
        Packet::EntityDestroy { entity_ids } => {
            if !wr_i32_list(&mut out, entity_ids) {
                return None;
            }
        },
        Packet::EntityMetadata { entity_id, metadata } => {
            wr_svi(&mut out, *entity_id);
            if !wr_meta_list(&mut out, metadata) {
                return None;
            }
        },
        Packet::SetSlot { window_id, slot, item } => {
            wr_i8(&mut out, *window_id);
            wr_i16(&mut out, *slot);
            if !wr_item(&mut out, item) {
                return None;
            }
        },
        Packet::ScoreboardObjective { objective, action } => {
            if !try_wr_str(&mut out, objective) {
                return None;
            }
            if !wr_obj_action(&mut out, action) {
                return None;
            }
        },
        Packet::ScoreboardUpdate { player, objective, value } => {
            if !(str_ok(player) && str_ok(objective)) {
                return None;
            }
            wr_str(&mut out, player);
            match value {
                Some(_) => wr_u8(&mut out, 0),
                None => wr_u8(&mut out, 1),
            }
            wr_str(&mut out, objective);
            match value {
                Some(v) => wr_svi(&mut out, *v),
                None => (),
            }
        },
        Packet::ScoreboardDisplay { position, name } => {
            wr_i8(&mut out, *position);
            if !try_wr_str(&mut out, name) {
                return None;
            }
        },
        Packet::Teams { name, action } => {
            if !(str_ok(name) && teams_action_ok(action)) {
                return None;
            }
            wr_str(&mut out, name);
            wr_teams_action(&mut out, action);
        },
        Packet::KickDisconnect { reason } => {
            if !try_wr_str(&mut out, reason) {
                return None;
            }
        },
        Packet::SetProtocol { protocol_version, server_host, server_port, next_state } => {
            wr_svi(&mut out, *protocol_version);
            if !try_wr_str(&mut out, server_host) {
                return None;
            }
            wr_u16(&mut out, *server_port);
            wr_svi(&mut out, *next_state);
        },
        Packet::LoginStart { username } => {
            if !try_wr_str(&mut out, username) {
                return None;
            }
        },
        Packet::ClientKeepAlive { id } => {
            wr_svi(&mut out, *id);
        },
        Packet::ClientChat { message } => {
            if !try_wr_str(&mut out, message) {
                return None;
            }
        },
        Packet::UseEntity { target, action } => {
            wr_svi(&mut out, *target);
            wr_svi(&mut out, *action);
        },
        Packet::ClientCommand { action } => {
            wr_svi(&mut out, *action);
        },
        Packet::ClientSettings {
            locale,
            view_distance,
            chat_mode,
            chat_colors,
            displayed_skin_parts,
        } => {
            if !try_wr_str(&mut out, locale) {
                return None;
            }
            wr_i8(&mut out, *view_distance);
            wr_i8(&mut out, *chat_mode);
            wr_bool(&mut out, *chat_colors);
            wr_u8(&mut out, *displayed_skin_parts);
        },
    }
    proof {
        assert(out@ =~= enc_body(p@));
    }
    Some(out)
}

/// The packet's wire id, executable.
pub fn packet_id_of(p: &Packet) -> (r: u32)
    ensures
        r == packet_id(p@),
{
    match p {
        Packet::Disconnect { .. } => 0x00,
        Packet::LoginSuccess { .. } => 0x02,
        Packet::SetCompression { .. } => 0x03,
        Packet::KeepAlive { .. } => 0x00,
        Packet::JoinGame { .. } => 0x01,
        Packet::Chat { .. } => 0x02,
        Packet::UpdateHealth { .. } => 0x06,
        Packet::SpawnPlayer { .. } => 0x0C,
        Packet::SpawnObject { .. } => 0x0E,
        Packet::SpawnMob { .. } => 0x0F,
        Packet::EntityEquipment { .. } => 0x04,
        Packet::EntityDestroy { .. } => 0x13,
        Packet::EntityMetadata { .. } => 0x1C,
        Packet::SetSlot { .. } => 0x2F,
        Packet::ScoreboardObjective { .. } => 0x3B,
        Packet::ScoreboardUpdate { .. } => 0x3C,
        Packet::ScoreboardDisplay { .. } => 0x3D,
        Packet::Teams { .. } => 0x3E,
        Packet::KickDisconnect { .. } => 0x40,
        Packet::SetProtocol { .. } => 0x00,
        Packet::LoginStart { .. } => 0x00,
        Packet::ClientKeepAlive { .. } => 0x00,
        Packet::ClientChat { .. } => 0x01,
        Packet::UseEntity { .. } => 0x02,
        Packet::ClientCommand { .. } => 0x16,
        Packet::ClientSettings { .. } => 0x15,
    }
}

// ---------------------------------------------------------------------------
// executable decoding
// ---------------------------------------------------------------------------
fn rd_item(b: &Vec<u8>, pos: usize) -> (r: Option<(Option<Item>, usize)>)
    ensures
        r is Some <==> dec_item(b@, pos as int) is Some,
        r matches Some(x) ==> dec_item(b@, pos as int) == Some((x.0, x.1 as int)),
{
    match rd_i16(b, pos) {
        Some((id, p)) => {
            if id < 0 {
                Some((None, p))
            } else {
                match rd_i8(b, p) {
                    Some((count, p2)) => match rd_i16(b, p2) {
                        Some((damage, p3)) => Some((Some(Item { id, count, damage }), p3)),
                        None => None,
                    },
                    None => None,
                }
            }
        },
        None => None,
    }
}

fn rd_kind(b: &Vec<u8>, pos: usize) -> (r: Option<(ScoreboardKind, usize)>)
    ensures
        r is Some <==> dec_kind(b@, pos as int) is Some,
        r matches Some(x) ==> dec_kind(b@, pos as int) == Some((x.0, x.1 as int)),
{
    match rd_u8(b, pos) {
        Some((k, p)) => Some(
            (
                if k == 0 {
                    ScoreboardKind::Integer
                } else {
                    ScoreboardKind::Hearts
                },
                p,
            ),
        ),
        None => None,
    }
}

fn rd_ff(b: &Vec<u8>, pos: usize) -> (r: Option<(FriendlyFire, usize)>)
    ensures
        r is Some <==> dec_ff(b@, pos as int) is Some,
        r matches Some(x) ==> dec_ff(b@, pos as int) == Some((x.0, x.1 as int)),
{
    match rd_u8(b, pos) {
        Some((k, p)) => Some(
            (
                if k == 0 {
                    FriendlyFire::Off
                } else if k == 1 {
                    FriendlyFire::On
                } else {
                    FriendlyFire::ShowInvisible
                },
                p,
            ),
        ),
        None => None,
    }
}

fn rd_meta(b: &Vec<u8>, pos: usize) -> (r: Option<(MetaEntry, usize)>)
    ensures
        r is Some <==> dec_meta(b@, pos as int) is Some,
        r matches Some(x) ==> dec_meta(b@, pos as int) == Some((x.0, x.1 as int)),
{
    match rd_u8(b, pos) {
        Some((key, p)) => match rd_svi(b, p) {
            Some((value, p2)) => Some((MetaEntry { key, value }, p2)),
            None => None,
        },
        None => None,
    }
}

fn rd_meta_list(b: &Vec<u8>, pos: usize) -> (r: Option<(Vec<MetaEntry>, usize)>)
    ensures
        r is Some <==> dec_meta_list(b@, pos as int) is Some,
        r matches Some(x) ==> dec_meta_list(b@, pos as int) == Some((x.0@, x.1 as int)),
{
    match rd_vi(b, pos) {
        None => None,
        Some((n, p0)) => {
            let mut acc: Vec<MetaEntry> = Vec::new();
            let mut cur: usize = p0;
            let mut i: u32 = 0;
            loop
                invariant
                    i <= n,
                    dec_vi(b@, pos as int) == Some((n, p0 as int)),
                    dec_meta_n(b@, p0 as int, n as nat) == (match dec_meta_n(
                        b@,
                        cur as int,
                        (n - i) as nat,
                    ) {
                        Some((t, q)) => Some((acc@ + t, q)),
                        None => None,
                    }),
                decreases n - i,
            {
                if i == n {
                    proof {
                        assert(acc@ + Seq::<MetaEntry>::empty() =~= acc@);
                    }
                    return Some((acc, cur));
                }
                match rd_meta(b, cur) {
                    None => {
                        return None;
                    },
                    Some((m, p2)) => {
                        let ghost accv = acc@;
                        acc.push(m);
                        proof {
                            match dec_meta_n(b@, p2 as int, (n - i - 1) as nat) {
                                Some((t, q)) => {
                                    assert(accv.push(m) + t =~= accv + (seq![m] + t));
                                },
                                None => {},
                            }
                        }
                        cur = p2;
                        i = i + 1;
                    },
                }
            }
        },
    }
}

fn rd_i32_list(b: &Vec<u8>, pos: usize) -> (r: Option<(Vec<i32>, usize)>)
    ensures
        r is Some <==> dec_i32_list(b@, pos as int) is Some,
        r matches Some(x) ==> dec_i32_list(b@, pos as int) == Some((x.0@, x.1 as int)),
{
    match rd_vi(b, pos) {
        None => None,
        Some((n, p0)) => {
            let mut acc: Vec<i32> = Vec::new();
            let mut cur: usize = p0;
            let mut i: u32 = 0;
            loop
                invariant
                    i <= n,
                    dec_vi(b@, pos as int) == Some((n, p0 as int)),
                    dec_i32_n(b@, p0 as int, n as nat) == (match dec_i32_n(
                        b@,
                        cur as int,
                        (n - i) as nat,
                    ) {
                        Some((t, q)) => Some((acc@ + t, q)),
                        None => None,
                    }),
                decreases n - i,
            {
                if i == n {
                    proof {
                        assert(acc@ + Seq::<i32>::empty() =~= acc@);
                    }
                    return Some((acc, cur));
                }
                match rd_svi(b, cur) {
                    None => {
                        return None;
                    },
                    Some((m, p2)) => {
                        let ghost accv = acc@;
                        acc.push(m);
                        proof {
                            match dec_i32_n(b@, p2 as int, (n - i - 1) as nat) {
                                Some((t, q)) => {
                                    assert(accv.push(m) + t =~= accv + (seq![m] + t));
                                },
                                None => {},
                            }
                        }
                        cur = p2;
                        i = i + 1;
                    },
                }
            }
        },
    }
}

fn rd_str_list(b: &Vec<u8>, pos: usize) -> (r: Option<(Vec<String>, usize)>)
    ensures
        r is Some <==> dec_str_list(b@, pos as int) is Some,
        r matches Some(x) ==> dec_str_list(b@, pos as int) == Some(
            (strs_view(x.0@), x.1 as int),
        ),
{
    match rd_vi(b, pos) {
        None => None,
        Some((n, p0)) => {
            let mut acc: Vec<String> = Vec::new();
            let mut cur: usize = p0;
            let mut i: u32 = 0;
            proof {
                assert(strs_view(acc@) =~= Seq::<Seq<char>>::empty());
            }
            loop
                invariant
                    i <= n,
                    dec_vi(b@, pos as int) == Some((n, p0 as int)),
                    dec_str_n(b@, p0 as int, n as nat) == (match dec_str_n(
                        b@,
                        cur as int,
                        (n - i) as nat,
                    ) {
                        Some((t, q)) => Some((strs_view(acc@) + t, q)),
                        None => None,
                    }),
                decreases n - i,
            {
                if i == n {
                    proof {
                        assert(strs_view(acc@) + Seq::<Seq<char>>::empty() =~= strs_view(acc@));
                    }
                    return Some((acc, cur));
                }
                match rd_str(b, cur) {
                    None => {
                        return None;
                    },
                    Some((m, p2)) => {
                        let ghost accv = acc@;
                        acc.push(m);
                        proof {
                            assert(strs_view(acc@) =~= strs_view(accv).push(m@));
                            match dec_str_n(b@, p2 as int, (n - i - 1) as nat) {
                                Some((t, q)) => {
                                    assert(strs_view(accv).push(m@) + t =~= strs_view(accv) + (
                                    seq![m@] + t));
                                },
                                None => {},
                            }
                        }
                        cur = p2;
                        i = i + 1;
                    },
                }
            }
        },
    }
}

fn rd_team_info(b: &Vec<u8>, pos: usize) -> (r: Option<(TeamInfo, usize)>)
    ensures
        r is Some <==> dec_team_info(b@, pos as int) is Some,
        r matches Some(x) ==> dec_team_info(b@, pos as int) == Some((x.0@, x.1 as int)),
{
    match rd_str(b, pos) {
        Some((display_name, p1)) => match rd_str(b, p1) {
            Some((prefix, p2)) => match rd_str(b, p2) {
                Some((suffix, p3)) => match rd_ff(b, p3) {
                    Some((friendly_fire, p4)) => match rd_str(b, p4) {
                        Some((nametag_visibility, p5)) => match rd_u8(b, p5) {
                            Some((color, p6)) => Some(
                                (
                                    TeamInfo {
                                        display_name,
                                        prefix,
                                        suffix,
                                        friendly_fire,
                                        nametag_visibility,
                                        color,
                                    },
                                    p6,
                                ),
                            ),
                            None => None,
                        },
                        None => None,
                    },
                    None => None,
                },
                None => None,
            },
            None => None,
        },
        None => None,
    }
}

fn rd_obj_action(b: &Vec<u8>, pos: usize) -> (r: Option<(ObjectiveAction, usize)>)
    ensures
        r is Some <==> dec_obj_action(b@, pos as int) is Some,
        r matches Some(x) ==> dec_obj_action(b@, pos as int) == Some((x.0@, x.1 as int)),
{
    match rd_u8(b, pos) {
        Some((mode, p)) => {
            if mode == 1 {
                Some((ObjectiveAction::Remove, p))
            } else if mode == 0 || mode == 2 {
                match rd_str(b, p) {
                    Some((display_name, p2)) => match rd_kind(b, p2) {
                        Some((kind, p3)) => {
                            if mode == 0 {
                                Some((ObjectiveAction::Add { display_name, kind }, p3))
                            } else {
                                Some(
                                    (
                                        ObjectiveAction::UpdateDisplayText { display_name, kind },
                                        p3,
                                    ),
                                )
                            }
                        },
                        None => None,
                    },
                    None => None,
                }
            } else {
                None
            }
        },
        None => None,
    }
}

fn rd_teams_action(b: &Vec<u8>, pos: usize) -> (r: Option<(TeamsAction, usize)>)
    ensures
        r is Some <==> dec_teams_action(b@, pos as int) is Some,
        r matches Some(x) ==> dec_teams_action(b@, pos as int) == Some((x.0@, x.1 as int)),
{
    match rd_u8(b, pos) {
        Some((mode, p)) => {
            if mode == 0 {
                match rd_team_info(b, p) {
                    Some((info, p2)) => match rd_str_list(b, p2) {
                        Some((players, p3)) => Some((TeamsAction::Create { info, players }, p3)),
                        None => None,
                    },
                    None => None,
                }
            } else if mode == 1 {
                Some((TeamsAction::Remove, p))
            } else if mode == 2 {
                match rd_team_info(b, p) {
                    Some((info, p2)) => Some((TeamsAction::Update { info }, p2)),
                    None => None,
                }
            } else if mode == 3 {
                match rd_str_list(b, p) {
                    Some((players, p2)) => Some((TeamsAction::AddPlayers { players }, p2)),
                    None => None,
                }
            } else if mode == 4 {
                match rd_str_list(b, p) {
                    Some((players, p2)) => Some((TeamsAction::RemovePlayers { players }, p2)),
                    None => None,
                }
            } else {
                None
            }
        },
        None => None,
    }
}

/// Decode one Play-state server body for the given id.
#[verifier::rlimit(100)]
fn decode_play_server(id: u32, b: &Vec<u8>) -> (r: DecodedPacket)
    ensures
        match r {
            DecodedPacket::Known(p) => known_id(State::Play, Origin::Server, id) && dec_body(
                State::Play,
                Origin::Server,
                id,
                b@,
            ) == Some(p@),
            DecodedPacket::Unknown => !known_id(State::Play, Origin::Server, id),
            DecodedPacket::Malformed => known_id(State::Play, Origin::Server, id) && dec_body(
                State::Play,
                Origin::Server,
                id,
                b@,
            ) is None,
        },
{
    if id == 0x00 {
        match rd_svi(b, 0) {
            Some((kid, p)) => {
                if p == b.len() {
                    DecodedPacket::Known(Packet::KeepAlive { id: kid })
                } else {
                    DecodedPacket::Malformed
                }
            },
            None => DecodedPacket::Malformed,
        }
    } else if id == 0x01 {
        match rd_i32(b, 0) {
            Some((entity_id, p)) => match rd_u8(b, p) {
                Some((game_mode, p2)) => match rd_i8(b, p2) {
                    Some((dimension, p3)) => {
                        if p3 == b.len() {
                            DecodedPacket::Known(
                                Packet::JoinGame { entity_id, game_mode, dimension },
                            )
                        } else {
                            DecodedPacket::Malformed
                        }
                    },
                    None => DecodedPacket::Malformed,
                },
                None => DecodedPacket::Malformed,
            },
            None => DecodedPacket::Malformed,
        }
    } else if id == 0x02 {
        match rd_str(b, 0) {
            Some((message, p)) => match rd_i8(b, p) {
                Some((position, p2)) => {
                    if p2 == b.len() {
                        DecodedPacket::Known(Packet::Chat { message, position })
                    } else {
                        DecodedPacket::Malformed
                    }
                },
                None => DecodedPacket::Malformed,
            },
            None => DecodedPacket::Malformed,
        }
    } else if id == 0x04 {
        match rd_svi(b, 0) {
            Some((entity_id, p)) => match rd_i16(b, p) {
                Some((slot, p2)) => match rd_item(b, p2) {
                    Some((item, p3)) => {
                        if p3 == b.len() {
                            DecodedPacket::Known(Packet::EntityEquipment { entity_id, slot, item })
                        } else {
                            DecodedPacket::Malformed
                        }
                    },
                    None => DecodedPacket::Malformed,
                },
                None => DecodedPacket::Malformed,
            },
            None => DecodedPacket::Malformed,
        }
    } else if id == 0x06 {
        match rd_u32(b, 0) {
            Some((health_bits, p)) => match rd_svi(b, p) {
                Some((food, p2)) => match rd_u32(b, p2) {
                    Some((saturation_bits, p3)) => {
                        if p3 == b.len() {
                            DecodedPacket::Known(
                                Packet::UpdateHealth { health_bits, food, saturation_bits },
                            )
                        } else {
                            DecodedPacket::Malformed
                        }
                    },
                    None => DecodedPacket::Malformed,
                },
                None => DecodedPacket::Malformed,
            },
            None => DecodedPacket::Malformed,
        }
    } else if id == 0x0C {
        match rd_svi(b, 0) {
            Some((entity_id, p)) => match rd_i32(b, p) {
                Some((x, p2)) => match rd_i32(b, p2) {
                    Some((y, p3)) => match rd_i32(b, p3) {
                        Some((z, p4)) => match rd_i8(b, p4) {
                            Some((yaw, p5)) => match rd_i8(b, p5) {
                                Some((pitch, p6)) => {
                                    if p6 == b.len() {
                                        DecodedPacket::Known(
                                            Packet::SpawnPlayer { entity_id, x, y, z, yaw, pitch },
                                        )
                                    } else {
                                        DecodedPacket::Malformed
                                    }
                                },
                                None => DecodedPacket::Malformed,
                            },
                            None => DecodedPacket::Malformed,
                        },
                        None => DecodedPacket::Malformed,
                    },
                    None => DecodedPacket::Malformed,
                },
                None => DecodedPacket::Malformed,
            },
            None => DecodedPacket::Malformed,
        }
    } else if id == 0x0E {
        match rd_svi(b, 0) {
            Some((entity_id, p)) => match rd_i8(b, p) {
                Some((object_type, p1)) => match rd_i32(b, p1) {
                    Some((x, p2)) => match rd_i32(b, p2) {
                        Some((y, p3)) => match rd_i32(b, p3) {
                            Some((z, p4)) => match rd_i8(b, p4) {
                                Some((yaw, p5)) => match rd_i8(b, p5) {
                                    Some((pitch, p6)) => {
                                        if p6 == b.len() {
                                            DecodedPacket::Known(
                                                Packet::SpawnObject {
                                                    entity_id,
                                                    object_type,
                                                    x,
                                                    y,
                                                    z,
                                                    yaw,
                                                    pitch,
                                                },
                                            )
                                        } else {
                                            DecodedPacket::Malformed
                                        }
                                    },
                                    None => DecodedPacket::Malformed,
                                },
                                None => DecodedPacket::Malformed,
                            },
                            None => DecodedPacket::Malformed,
                        },
                        None => DecodedPacket::Malformed,
                    },
                    None => DecodedPacket::Malformed,
                },
                None => DecodedPacket::Malformed,
            },
            None => DecodedPacket::Malformed,
        }
    } else if id == 0x0F {
        match rd_svi(b, 0) {
            Some((entity_id, p)) => match rd_u8(b, p) {
                Some((mob_type, p1)) => match rd_i32(b, p1) {
                    Some((x, p2)) => match rd_i32(b, p2) {
                        Some((y, p3)) => match rd_i32(b, p3) {
                            Some((z, p4)) => match rd_i8(b, p4) {
                                Some((yaw, p5)) => match rd_i8(b, p5) {
                                    Some((pitch, p6)) => {
                                        if p6 == b.len() {
                                            DecodedPacket::Known(
                                                Packet::SpawnMob {
                                                    entity_id,
                                                    mob_type,
                                                    x,
                                                    y,
                                                    z,
                                                    yaw,
                                                    pitch,
                                                },
                                            )
                                        } else {
                                            DecodedPacket::Malformed
                                        }
                                    },
                                    None => DecodedPacket::Malformed,
                                },
                                None => DecodedPacket::Malformed,
                            },
                            None => DecodedPacket::Malformed,
                        },
                        None => DecodedPacket::Malformed,
                    },
                    None => DecodedPacket::Malformed,
                },
                None => DecodedPacket::Malformed,
            },
            None => DecodedPacket::Malformed,
        }
    } else if id == 0x13 {
        match rd_i32_list(b, 0) {
            Some((entity_ids, p)) => {
                if p == b.len() {
                    DecodedPacket::Known(Packet::EntityDestroy { entity_ids })
                } else {
                    DecodedPacket::Malformed
                }
            },
            None => DecodedPacket::Malformed,
        }
    } else if id == 0x1C {
        match rd_svi(b, 0) {
            Some((entity_id, p)) => match rd_meta_list(b, p) {
                Some((metadata, p2)) => {
                    if p2 == b.len() {
                        DecodedPacket::Known(Packet::EntityMetadata { entity_id, metadata })
                    } else {
                        DecodedPacket::Malformed
                    }
                },
                None => DecodedPacket::Malformed,
            },
            None => DecodedPacket::Malformed,
        }
    } else if id == 0x2F {
        match rd_i8(b, 0) {
            Some((window_id, p)) => match rd_i16(b, p) {
                Some((slot, p2)) => match rd_item(b, p2) {
                    Some((item, p3)) => {
                        if p3 == b.len() {
                            DecodedPacket::Known(Packet::SetSlot { window_id, slot, item })
                        } else {
                            DecodedPacket::Malformed
                        }
                    },
                    None => DecodedPacket::Malformed,
                },
                None => DecodedPacket::Malformed,
            },
            None => DecodedPacket::Malformed,
        }
    } else if id == 0x3B {
        match rd_str(b, 0) {
            Some((objective, p)) => match rd_obj_action(b, p) {
                Some((action, p2)) => {
                    if p2 == b.len() {
                        DecodedPacket::Known(Packet::ScoreboardObjective { objective, action })
                    } else {
                        DecodedPacket::Malformed
                    }
                },
                None => DecodedPacket::Malformed,
            },
            None => DecodedPacket::Malformed,
        }
    } else if id == 0x3C {
        match rd_str(b, 0) {
            Some((player, p)) => match rd_u8(b, p) {
                Some((mode, p2)) => match rd_str(b, p2) {
                    Some((objective, p3)) => {
                        if mode == 0 {
                            match rd_svi(b, p3) {
                                Some((v, p4)) => {
                                    if p4 == b.len() {
                                        DecodedPacket::Known(
                                            Packet::ScoreboardUpdate {
                                                player,
                                                objective,
                                                value: Some(v),
                                            },
                                        )
                                    } else {
                                        DecodedPacket::Malformed
                                    }
                                },
                                None => DecodedPacket::Malformed,
                            }
                        } else if mode == 1 {
                            if p3 == b.len() {
                                DecodedPacket::Known(
                                    Packet::ScoreboardUpdate { player, objective, value: None },
                                )
                            } else {
                                DecodedPacket::Malformed
                            }
                        } else {
                            DecodedPacket::Malformed
                        }
                    },
                    None => DecodedPacket::Malformed,
                },
                None => DecodedPacket::Malformed,
            },
            None => DecodedPacket::Malformed,
        }
    } else if id == 0x3D {
        match rd_i8(b, 0) {
            Some((position, p)) => match rd_str(b, p) {
                Some((name, p2)) => {
                    if p2 == b.len() {
                        DecodedPacket::Known(Packet::ScoreboardDisplay { position, name })
                    } else {
                        DecodedPacket::Malformed
                    }
                },
                None => DecodedPacket::Malformed,
            },
            None => DecodedPacket::Malformed,
        }
    } else if id == 0x3E {
        match rd_str(b, 0) {
            Some((name, p)) => match rd_teams_action(b, p) {
                Some((action, p2)) => {
                    if p2 == b.len() {
                        DecodedPacket::Known(Packet::Teams { name, action })
                    } else {
                        DecodedPacket::Malformed
                    }
                },
                None => DecodedPacket::Malformed,
            },
            None => DecodedPacket::Malformed,
        }
    } else if id == 0x40 {
        match rd_str(b, 0) {
            Some((reason, p)) => {
                if p == b.len() {
                    DecodedPacket::Known(Packet::KickDisconnect { reason })
                } else {
                    DecodedPacket::Malformed
                }
            },
            None => DecodedPacket::Malformed,
        }
    } else {
        DecodedPacket::Unknown
    }
}

/// What becomes of one frame's body.
pub enum DecodedPacket {
    /// A known id with a well-formed body.
    Known(Packet),
    /// An id this engine has no decoder for: the frame is dropped silently.
    Unknown,
    /// A known id whose body does not parse: the frame is dropped with a
    /// diagnostic.
    Malformed,
}

/// Decode one body against the current state for the given origin and id.
#[verifier::rlimit(100)]
pub fn decode_body(state: State, origin: Origin, id: u32, b: &Vec<u8>) -> (r: DecodedPacket)
    ensures
        match r {
            DecodedPacket::Known(p) => known_id(state, origin, id) && dec_body(
                state,
                origin,
                id,
                b@,
            ) == Some(p@),
            DecodedPacket::Unknown => !known_id(state, origin, id),
            DecodedPacket::Malformed => known_id(state, origin, id) && dec_body(
                state,
                origin,
                id,
                b@,
            ) is None,
        },
{
    match (state, origin) {
        (State::Login, Origin::Server) => {
            if id == 0x00 {
                match rd_str(b, 0) {
                    Some((reason, p)) => {
                        if p == b.len() {
                            DecodedPacket::Known(Packet::Disconnect { reason })
                        } else {
                            DecodedPacket::Malformed
                        }
                    },
                    None => DecodedPacket::Malformed,
                }
            } else if id == 0x02 {
                match rd_str(b, 0) {
                    Some((uuid, p)) => match rd_str(b, p) {
                        Some((username, p2)) => {
                            if p2 == b.len() {
                                DecodedPacket::Known(Packet::LoginSuccess { uuid, username })
                            } else {
                                DecodedPacket::Malformed
                            }
                        },
                        None => DecodedPacket::Malformed,
                    },
                    None => DecodedPacket::Malformed,
                }
            } else if id == 0x03 {
                match rd_svi(b, 0) {
                    Some((threshold, p)) => {
                        if p == b.len() {
                            DecodedPacket::Known(Packet::SetCompression { threshold })
                        } else {
                            DecodedPacket::Malformed
                        }
                    },
                    None => DecodedPacket::Malformed,
                }
            } else {
                DecodedPacket::Unknown
            }
        },
        (State::Play, Origin::Server) => decode_play_server(id, b),
        (State::Handshake, Origin::Client) => {
            if id == 0x00 {
                match rd_svi(b, 0) {
                    Some((protocol_version, p)) => match rd_str(b, p) {
                        Some((server_host, p2)) => match rd_u16(b, p2) {
                            Some((server_port, p3)) => match rd_svi(b, p3) {
                                Some((next_state, p4)) => {
                                    if p4 == b.len() {
                                        DecodedPacket::Known(
                                            Packet::SetProtocol {
                                                protocol_version,
                                                server_host,
                                                server_port,
                                                next_state,
                                            },
                                        )
                                    } else {
                                        DecodedPacket::Malformed
                                    }
                                },
                                None => DecodedPacket::Malformed,
                            },
                            None => DecodedPacket::Malformed,
                        },
                        None => DecodedPacket::Malformed,
                    },
                    None => DecodedPacket::Malformed,
                }
            } else {
                DecodedPacket::Unknown
            }
        },
        (State::Login, Origin::Client) => {
            if id == 0x00 {
                match rd_str(b, 0) {
                    Some((username, p)) => {
                        if p == b.len() {
                            DecodedPacket::Known(Packet::LoginStart { username })
                        } else {
                            DecodedPacket::Malformed
                        }
                    },
                    None => DecodedPacket::Malformed,
                }
            } else {
                DecodedPacket::Unknown
            }
        },
        (State::Play, Origin::Client) => {
            if id == 0x00 {
                match rd_svi(b, 0) {
                    Some((kid, p)) => {
                        if p == b.len() {
                            DecodedPacket::Known(Packet::ClientKeepAlive { id: kid })
                        } else {
                            DecodedPacket::Malformed
                        }
                    },
                    None => DecodedPacket::Malformed,
                }
            } else if id == 0x01 {
                match rd_str(b, 0) {
                    Some((message, p)) => {
                        if p == b.len() {
                            DecodedPacket::Known(Packet::ClientChat { message })
                        } else {
                            DecodedPacket::Malformed
                        }
                    },
                    None => DecodedPacket::Malformed,
                }
            } else if id == 0x02 {
                match rd_svi(b, 0) {
                    Some((target, p)) => match rd_svi(b, p) {
                        Some((action, p2)) => {
                            if p2 == b.len() {
                                DecodedPacket::Known(Packet::UseEntity { target, action })
                            } else {
                                DecodedPacket::Malformed
                            }
                        },
                        None => DecodedPacket::Malformed,
                    },
                    None => DecodedPacket::Malformed,
                }
            } else if id == 0x15 {
                match rd_str(b, 0) {
                    Some((locale, p)) => match rd_i8(b, p) {
                        Some((view_distance, p2)) => match rd_i8(b, p2) {
                            Some((chat_mode, p3)) => match rd_bool(b, p3) {
                                Some((chat_colors, p4)) => match rd_u8(b, p4) {
                                    Some((displayed_skin_parts, p5)) => {
                                        if p5 == b.len() {
                                            DecodedPacket::Known(
                                                Packet::ClientSettings {
                                                    locale,
                                                    view_distance,
                                                    chat_mode,
                                                    chat_colors,
                                                    displayed_skin_parts,
                                                },
                                            )
                                        } else {
                                            DecodedPacket::Malformed
                                        }
                                    },
                                    None => DecodedPacket::Malformed,
                                },
                                None => DecodedPacket::Malformed,
                            },
                            None => DecodedPacket::Malformed,
                        },
                        None => DecodedPacket::Malformed,
                    },
                    None => DecodedPacket::Malformed,
                }
            } else if id == 0x16 {
                match rd_svi(b, 0) {
                    Some((action, p)) => {
                        if p == b.len() {
                            DecodedPacket::Known(Packet::ClientCommand { action })
                        } else {
                            DecodedPacket::Malformed
                        }
                    },
                    None => DecodedPacket::Malformed,
                }
            } else {
                DecodedPacket::Unknown
            }
        },
        _ => DecodedPacket::Unknown,
    }
}

} // verus!
