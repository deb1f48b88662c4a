//! The session engine: a connected bot's identity, its mirrors, and the
//! built-in mutation table that inbound packets drive, plus the bootstrap
//! gate and the session builder.

use vstd::prelude::*;

use crate::entity::{mob_kind, object_kind, spec_mob_kind, spec_object_kind, Coordinates, Entity,
    EntityKind};
use crate::error::Error;
use crate::inventory::Inventory;
use crate::packets::{ObjectiveAction, Packet, PacketV, ScoreboardKind, TeamsAction};
use crate::scores::{Objective, Scores};
use crate::stream::{frame_fits, spec_frame, Stream};
use crate::world::World;
use vstd::pervasive::unreached;

verus! {

/// Session parameters, before a connection exists. The I/O shell reads
/// these to connect, log in, and drive reconnects.
pub struct BotBuilder {
    pub username: String,
    pub host: String,
    pub port: u16,
    /// Reconnect delay in milliseconds; nothing disables reconnecting.
    pub autoreconnect_ms: Option<u64>,
}

impl BotBuilder {
    /// The default parameters: a local server and a five-second reconnect
    /// delay.
    pub fn new() -> (b: BotBuilder)
        ensures
            b.username@ == "minecraft_bot_1"@,
            b.host@ == "127.0.0.1"@,
            b.port == 25565,
            b.autoreconnect_ms == Some(5000u64),
    {
        BotBuilder {
            username: "minecraft_bot_1".to_owned(),
            host: "127.0.0.1".to_owned(),
            port: 25565,
            autoreconnect_ms: Some(5000),
        }
    }

    pub fn with_username(self, username: String) -> (b: BotBuilder)
        ensures
            b.username == username,
            b.host == self.host,
            b.port == self.port,
            b.autoreconnect_ms == self.autoreconnect_ms,
    {
        BotBuilder { username, ..self }
    }

    pub fn with_host(self, host: String) -> (b: BotBuilder)
        ensures
            b.host == host,
            b.username == self.username,
            b.port == self.port,
            b.autoreconnect_ms == self.autoreconnect_ms,
    {
        BotBuilder { host, ..self }
    }

    pub fn with_port(self, port: u16) -> (b: BotBuilder)
        ensures
            b.port == port,
            b.username == self.username,
            b.host == self.host,
            b.autoreconnect_ms == self.autoreconnect_ms,
    {
        BotBuilder { port, ..self }
    }

    pub fn with_autoreconnect(self, delay_ms: Option<u64>) -> (b: BotBuilder)
        ensures
            b.autoreconnect_ms == delay_ms,
            b.username == self.username,
            b.host == self.host,
            b.port == self.port,
    {
        BotBuilder { autoreconnect_ms: delay_ms, ..self }
    }
}

/// What the bootstrap gate says after observing one packet.
#[derive(Clone, Copy, PartialEq, Eq, Structural, Debug)]
pub enum GateStep {
    /// Keep reading: identity is not complete yet.
    Continue,
    /// JoinGame arrived: the session identity is complete.
    Ready,
    /// The server disconnected during login.
    Abort,
}

/// The bootstrap gate: between login and the first JoinGame it records the
/// session identity and stages every packet for replay once the session
/// exists.
pub struct BootstrapGate {
    pub uuid: Option<String>,
    pub entity_id: Option<i32>,
    pub game_mode: Option<u8>,
    pub staged: Vec<Packet>,
}

impl BootstrapGate {
    pub fn new() -> (g: BootstrapGate)
        ensures
            g.uuid is None,
            g.entity_id is None,
            g.game_mode is None,
            g.staged@ == Seq::<Packet>::empty(),
    {
        BootstrapGate { uuid: None, entity_id: None, game_mode: None, staged: Vec::new() }
    }

    /// Observe one packet read during bootstrap: LoginSuccess records the
    /// uuid, JoinGame completes the identity and opens the session, and a
    /// login-stage Disconnect aborts. Every packet is staged for replay.
    pub fn observe(&mut self, p: Packet) -> (r: GateStep)
        ensures
            final(self).staged@ == old(self).staged@.push(p),
            (match p@ {
                PacketV::LoginSuccess { uuid, .. } => final(self).uuid matches Some(u) && u@
                    == uuid && final(self).entity_id == old(self).entity_id && final(self).game_mode == old(self).game_mode && r is Continue,
                PacketV::JoinGame { entity_id, game_mode, .. } => final(self).entity_id == Some(
                    entity_id,
                ) && final(self).game_mode == Some(game_mode) && final(self).uuid == old(self).uuid && r is Ready,
                PacketV::Disconnect { .. } => r is Abort && final(self).uuid == old(self).uuid
                    && final(self).entity_id == old(self).entity_id && final(self).game_mode
                    == old(self).game_mode,
                _ => r is Continue && final(self).uuid == old(self).uuid && final(self).entity_id == old(self).entity_id && final(self).game_mode == old(self).game_mode,
            }),
    {
        let r = match &p {
            Packet::LoginSuccess { uuid, .. } => {
                self.uuid = Some(uuid.clone());
                GateStep::Continue
            },
            Packet::JoinGame { entity_id, game_mode, .. } => {
                self.entity_id = Some(*entity_id);
                self.game_mode = Some(*game_mode);
                GateStep::Ready
            },
            Packet::Disconnect { .. } => GateStep::Abort,
            _ => GateStep::Continue,
        };
        self.staged.push(p);
        r
    }
}

/// Whether a health value (IEEE 754 single-precision bits) is at or below
/// zero: positive zero, negative zero, or any negative non-NaN value.
pub open spec fn health_fatal(bits: u32) -> bool {
    bits == 0 || (0x8000_0000 <= bits && bits <= 0xFF80_0000)
}

pub fn health_is_fatal(bits: u32) -> (r: bool)
    ensures
        r == health_fatal(bits),
{
    bits == 0 || (0x8000_0000 <= bits && bits <= 0xFF80_0000)
}

/// The ClientSettings packet sent right after login succeeds.
pub open spec fn default_settings_v() -> PacketV {
    PacketV::ClientSettings {
        locale: "en_US"@,
        view_distance: 8,
        chat_mode: 0,
        chat_colors: true,
        displayed_skin_parts: 0x7F,
    }
}

fn default_settings() -> (p: Packet)
    ensures
        p@ == default_settings_v(),
{
    Packet::ClientSettings {
        locale: "en_US".to_owned(),
        view_distance: 8,
        chat_mode: 0,
        chat_colors: true,
        displayed_skin_parts: 0x7F,
    }
}

/// Lifecycle signals one packet raised: for the I/O shell to fire
/// `on_connect` (after ClientSettings is already queued) and death
/// callbacks (after the respawn is already queued).
#[derive(Clone, Copy, PartialEq, Eq, Structural, Debug)]
pub struct PacketEffect {
    pub connected: bool,
    pub died: bool,
}

/// The identity and inbound-stream fields one packet never touches.
pub open spec fn bot_core_unchanged(pre: Bot, post: Bot) -> bool {
    &&& post.username == pre.username
    &&& post.uuid == pre.uuid
    &&& post.entity_id == pre.entity_id
    &&& post.game_mode == pre.game_mode
    &&& post.tcp.state == pre.tcp.state
    &&& post.tcp.compression_threshold == pre.tcp.compression_threshold
    &&& post.tcp.inbuf() == pre.tcp.inbuf()
}

/// What one packet does to the world mirror.
pub open spec fn applied_world(pre: Bot, post: Bot, pv: PacketV) -> bool {
    match pv {
                PacketV::SpawnPlayer { entity_id, x, y, z, yaw, pitch } => {
                    &&& post.world.lookup(entity_id) matches Some(e) && e.id == entity_id
                        && e.kind == EntityKind::Player && e.coords == Some(
                        Coordinates { x, y, z, yaw, pitch },
                    ) && e.metadata@ == Seq::<crate::packets::MetaEntry>::empty()
                    &&& forall|q: i32|
                        q != entity_id ==> post.world.lookup(q) == pre.world.lookup(
                            q,
                        )
                    &&& post.scores == pre.scores
                    &&& post.inventory == pre.inventory
                    &&& post.tcp.out_queue() == pre.tcp.out_queue()
                },
                PacketV::SpawnObject { entity_id, object_type, x, y, z, yaw, pitch } => {
                    &&& post.world.lookup(entity_id) matches Some(e) && e.id == entity_id
                        && e.kind == spec_object_kind(object_type) && e.coords == Some(
                        Coordinates { x, y, z, yaw, pitch },
                    )
                    &&& forall|q: i32|
                        q != entity_id ==> post.world.lookup(q) == pre.world.lookup(
                            q,
                        )
                    &&& post.scores == pre.scores
                    &&& post.inventory == pre.inventory
                    &&& post.tcp.out_queue() == pre.tcp.out_queue()
                },
                PacketV::SpawnMob { entity_id, mob_type, x, y, z, yaw, pitch } => {
                    &&& post.world.lookup(entity_id) matches Some(e) && e.id == entity_id
                        && e.kind == spec_mob_kind(mob_type) && e.coords == Some(
                        Coordinates { x, y, z, yaw, pitch },
                    )
                    &&& forall|q: i32|
                        q != entity_id ==> post.world.lookup(q) == pre.world.lookup(
                            q,
                        )
                    &&& post.scores == pre.scores
                    &&& post.inventory == pre.inventory
                    &&& post.tcp.out_queue() == pre.tcp.out_queue()
                },
                PacketV::EntityMetadata { entity_id, metadata } => {
                    &&& (pre.world.lookup(entity_id) is None ==> post.world.lookup(
                        entity_id,
                    ) is None)
                    &&& (pre.world.lookup(entity_id) matches Some(e) ==> post.world.lookup(entity_id) matches Some(e2) && e2.id == e.id && e2.kind
                        == e.kind && e2.coords == e.coords && e2.metadata@
                        == crate::entity::apply_meta(e.metadata@, metadata))
                    &&& forall|q: i32|
                        q != entity_id ==> post.world.lookup(q) == pre.world.lookup(
                            q,
                        )
                    &&& post.scores == pre.scores
                    &&& post.inventory == pre.inventory
                    &&& post.tcp.out_queue() == pre.tcp.out_queue()
                },
                PacketV::EntityDestroy { entity_ids } => {
                    &&& forall|q: i32|
                        entity_ids.contains(q) ==> post.world.lookup(q) is None
                    &&& forall|q: i32|
                        !entity_ids.contains(q) ==> post.world.lookup(q) == pre.world.lookup(q)
                    &&& post.scores == pre.scores
                    &&& post.inventory == pre.inventory
                    &&& post.tcp.out_queue() == pre.tcp.out_queue()
                },
                _ => true,
            }
}

/// What one packet does to the scoreboard mirror.
pub open spec fn applied_scores(pre: Bot, post: Bot, pv: PacketV) -> bool {
    match pv {
                PacketV::ScoreboardObjective { objective, action } => {
                    &&& (match action {
                        crate::packets::ObjectiveActionV::Add { display_name, kind } => post.scores.obj_lookup(objective) matches Some(o) && o.display_name@
                            == display_name && o.kind == kind && o.scores@ == Seq::<(
                            String,
                            i32,
                        )>::empty(),
                        crate::packets::ObjectiveActionV::Remove => post.scores.obj_lookup(
                            objective,
                        ) is None,
                        crate::packets::ObjectiveActionV::UpdateDisplayText {
                            display_name,
                            kind,
                        } => (pre.scores.obj_lookup(objective) is None ==> post.scores.obj_lookup(objective) is None) && (pre.scores.obj_lookup(
                            objective,
                        ) matches Some(o) ==> post.scores.obj_lookup(objective)
                            matches Some(o2) && o2.display_name@ == display_name && o2.kind
                            == kind && o2.scores@ == o.scores@),
                    })
                    &&& forall|n: Seq<char>|
                        n != objective ==> post.scores.obj_lookup(n) == pre.scores.obj_lookup(n)
                    &&& post.scores.teams@ == pre.scores.teams@
                    &&& post.world == pre.world
                    &&& post.inventory == pre.inventory
                    &&& post.tcp.out_queue() == pre.tcp.out_queue()
                },
                PacketV::ScoreboardUpdate { player, objective, value } => {
                    &&& (objective.len() == 0 ==> (forall|n: Seq<char>|
                        #[trigger] pre.scores.obj_lookup(n) matches Some(o) ==> post.scores.obj_lookup(n) matches Some(o2) && crate::scores::obj_cleared(
                            o,
                            o2,
                            player,
                        )))
                    &&& (objective.len() > 0 ==> ((pre.scores.obj_lookup(objective)
                        matches Some(o) ==> post.scores.obj_lookup(objective)
                        matches Some(o2) && o2.score_of(player) == value && (forall|q: Seq<char>|
                        q != player ==> o2.score_of(q) == o.score_of(q))) && (forall|
                        n: Seq<char>,
                    |
                        n != objective ==> post.scores.obj_lookup(n) == pre.scores.obj_lookup(n))))
                    &&& post.scores.teams@ == pre.scores.teams@
                    &&& post.world == pre.world
                    &&& post.inventory == pre.inventory
                    &&& post.tcp.out_queue() == pre.tcp.out_queue()
                },
                PacketV::ScoreboardDisplay { position, name } => {
                    &&& (position == 1 ==> ((name.len() == 0 ==> post.scores.sidebar
                        is None) && (name.len() > 0 ==> (post.scores.sidebar
                        matches Some(v) && v@ == name))))
                    &&& (position == 0 ==> ((name.len() == 0 ==> post.scores.player_list
                        is None) && (name.len() > 0 ==> (post.scores.player_list
                        matches Some(v) && v@ == name))))
                    &&& (position == 2 ==> ((name.len() == 0 ==> post.scores.below_name
                        is None) && (name.len() > 0 ==> (post.scores.below_name
                        matches Some(v) && v@ == name))))
                    &&& post.scores.objectives@ == pre.scores.objectives@
                    &&& post.scores.teams@ == pre.scores.teams@
                    &&& post.world == pre.world
                    &&& post.inventory == pre.inventory
                    &&& post.tcp.out_queue() == pre.tcp.out_queue()
                },
                PacketV::Teams { name, action } => {
                    &&& (match action {
                        crate::packets::TeamsActionV::Create { info, players } => post.scores.team_lookup(name) matches Some(t) && t.display_name@
                            == info.display_name && t.prefix@ == info.prefix && t.suffix@
                            == info.suffix && t.friendly_fire == info.friendly_fire
                            && t.nametag_visibility@ == info.nametag_visibility && t.color
                            == info.color && (forall|q: Seq<char>|
                            t.has_player(q) <==> players.contains(q)),
                        crate::packets::TeamsActionV::Remove => post.scores.team_lookup(
                            name,
                        ) is None,
                        crate::packets::TeamsActionV::Update { info } => (pre.scores.team_lookup(name) is None ==> post.scores.team_lookup(
                            name,
                        ) is None) && (pre.scores.team_lookup(name) matches Some(t)
                            ==> post.scores.team_lookup(name) matches Some(t2)
                            && t2.players@ == t.players@ && t2.display_name@ == info.display_name
                            && t2.prefix@ == info.prefix && t2.suffix@ == info.suffix
                            && t2.friendly_fire == info.friendly_fire && t2.nametag_visibility@
                            == info.nametag_visibility && t2.color == info.color),
                        crate::packets::TeamsActionV::AddPlayers { players } => (pre.scores.team_lookup(name) is None ==> post.scores.team_lookup(
                            name,
                        ) is None) && (pre.scores.team_lookup(name) matches Some(t)
                            ==> post.scores.team_lookup(name) matches Some(t2) && (forall|
                            q: Seq<char>,
                        |
                            t2.has_player(q) <==> t.has_player(q) || players.contains(q))),
                        crate::packets::TeamsActionV::RemovePlayers { players } => (pre.scores.team_lookup(name) is None ==> post.scores.team_lookup(
                            name,
                        ) is None) && (pre.scores.team_lookup(name) matches Some(t)
                            ==> post.scores.team_lookup(name) matches Some(t2) && (forall|
                            q: Seq<char>,
                        |
                            t2.has_player(q) <==> t.has_player(q) && !players.contains(q))),
                    })
                    &&& forall|n: Seq<char>|
                        n != name ==> post.scores.team_lookup(n) == pre.scores.team_lookup(n)
                    &&& post.scores.objectives@ == pre.scores.objectives@
                    &&& post.world == pre.world
                    &&& post.inventory == pre.inventory
                    &&& post.tcp.out_queue() == pre.tcp.out_queue()
                },
                _ => true,
            }
}

/// What one packet does to the inventory and the reflex sends.
pub open spec fn applied_inventory_reflex(pre: Bot, post: Bot, pv: PacketV) -> bool {
    match pv {
                PacketV::SetSlot { window_id, slot, item } => {
                    &&& (window_id == 0 && slot == -1 ==> post.inventory.carried == item
                        && post.inventory.slots@ == pre.inventory.slots@)
                    &&& (window_id == 0 && 0 <= slot < 45 ==> post.inventory.slots@ == pre.inventory.slots@.update(slot as int, item) && post.inventory.carried
                        == pre.inventory.carried)
                    &&& (window_id == 0 && !(slot == -1 || 0 <= slot < 45)
                        ==> post.inventory == pre.inventory)
                    &&& (window_id != 0 ==> post.inventory == pre.inventory)
                    &&& post.world == pre.world
                    &&& post.scores == pre.scores
                    &&& post.tcp.out_queue() == pre.tcp.out_queue()
                },
                PacketV::EntityEquipment { entity_id, slot, item } => {
                    &&& (entity_id == pre.entity_id && 0 <= slot < 4 ==> post.inventory.slots@ == pre.inventory.slots@.update(5 + slot as int, item))
                    &&& (entity_id == pre.entity_id && !(0 <= slot < 4)
                        ==> post.inventory == pre.inventory)
                    &&& (entity_id != pre.entity_id ==> post.inventory == pre.inventory)
                    &&& post.world == pre.world
                    &&& post.scores == pre.scores
                    &&& post.tcp.out_queue() == pre.tcp.out_queue()
                },
                PacketV::UpdateHealth { health_bits, .. } => {
                    &&& (health_fatal(health_bits) && frame_fits(
                        pre.tcp.compression_threshold as int,
                        PacketV::ClientCommand { action: 0 },
                    ) ==> post.tcp.out_queue() == pre.tcp.out_queue().push(
                        spec_frame(
                            pre.tcp.compression_threshold as int,
                            PacketV::ClientCommand { action: 0 },
                        ),
                    ))
                    &&& (health_fatal(health_bits) && !frame_fits(
                        pre.tcp.compression_threshold as int,
                        PacketV::ClientCommand { action: 0 },
                    ) ==> post.tcp.out_queue() == pre.tcp.out_queue())
                    &&& (!health_fatal(health_bits) ==> post.tcp.out_queue() == pre.tcp.out_queue())
                    &&& post.world == pre.world
                    &&& post.scores == pre.scores
                    &&& post.inventory == pre.inventory
                },
                PacketV::LoginSuccess { .. } => {
                    &&& (frame_fits(
                        pre.tcp.compression_threshold as int,
                        default_settings_v(),
                    ) ==> post.tcp.out_queue() == pre.tcp.out_queue().push(
                        spec_frame(
                            pre.tcp.compression_threshold as int,
                            default_settings_v(),
                        ),
                    ))
                    &&& (!frame_fits(
                        pre.tcp.compression_threshold as int,
                        default_settings_v(),
                    ) ==> post.tcp.out_queue() == pre.tcp.out_queue())
                    &&& post.world == pre.world
                    &&& post.scores == pre.scores
                    &&& post.inventory == pre.inventory
                },
                PacketV::KickDisconnect { .. } => post == pre,
                _ => true,
            }
}

/// Packets outside the mutation table change nothing.
pub open spec fn applied_quiet(pre: Bot, post: Bot, pv: PacketV) -> bool {
    match pv {
                PacketV::Disconnect { .. } | PacketV::SetCompression { .. }
                    | PacketV::KeepAlive { .. } | PacketV::JoinGame { .. } | PacketV::Chat {
                    ..
                } | PacketV::SetProtocol { .. } | PacketV::LoginStart { .. }
                    | PacketV::ClientKeepAlive { .. } | PacketV::ClientChat { .. }
                    | PacketV::UseEntity { .. } | PacketV::ClientCommand { .. }
                    | PacketV::ClientSettings { .. } => post == pre,
                _ => true,
            }
}

/// The whole one-packet transition of the session state: the built-in
/// mutation table's effect of `pv`, and nothing else.
#[verifier::opaque]
pub open spec fn packet_applied(pre: Bot, post: Bot, pv: PacketV) -> bool {
    &&& post.wf()
    &&& bot_core_unchanged(pre, post)
    &&& applied_world(pre, post, pv)
    &&& applied_scores(pre, post, pv)
    &&& applied_inventory_reflex(pre, post, pv)
    &&& applied_quiet(pre, post, pv)
}

/// `chain` carries the session state across `ps`, one `packet_applied`
/// step per packet.
pub open spec fn chain_ok(chain: Seq<Bot>, ps: Seq<Packet>) -> bool {
    &&& chain.len() == ps.len() + 1
    &&& forall|i: int| 0 <= i < ps.len() ==> packet_applied(chain[i], chain[i + 1], ps[i]@)
}

/// One connected session: identity, the framed stream engine, and the
/// world, scoreboard and inventory mirrors.
pub struct Bot {
    pub username: String,
    pub uuid: String,
    pub entity_id: i32,
    pub game_mode: u8,
    pub tcp: Stream,
    pub world: World,
    pub scores: Scores,
    pub inventory: Inventory,
}

impl Bot {
    pub open spec fn wf(self) -> bool {
        self.world.wf() && self.scores.wf() && self.inventory.wf()
    }

    /// A fresh session around an active stream, with empty mirrors.
    pub fn new(username: String, uuid: String, entity_id: i32, game_mode: u8, tcp: Stream) -> (b:
        Bot)
        ensures
            b.wf(),
            b.username == username,
            b.uuid == uuid,
            b.entity_id == entity_id,
            b.game_mode == game_mode,
            b.tcp == tcp,
    {
        Bot {
            username,
            uuid,
            entity_id,
            game_mode,
            tcp,
            world: World::new(),
            scores: Scores::new(),
            inventory: Inventory::new(),
        }
    }

    /// The mirrored entity that is this bot.
    pub fn entity(&self) -> (r: &Entity)
        requires
            self.world.has_entity(self.entity_id),
        ensures
            self.world.lookup(self.entity_id) == Some(*r),
            r.id == self.entity_id,
    {
        match self.world.get_entity(self.entity_id) {
            Some(e) => e,
            None => unreached(),
        }
    }

    /// Queue a chat message (fire-and-forget: a failure to frame the
    /// packet drops it).
    pub fn chat(&mut self, message: &str)
        ensures
            final(self).username == old(self).username,
            final(self).uuid == old(self).uuid,
            final(self).entity_id == old(self).entity_id,
            final(self).game_mode == old(self).game_mode,
            final(self).world == old(self).world,
            final(self).scores == old(self).scores,
            final(self).inventory == old(self).inventory,
            final(self).tcp.state == old(self).tcp.state,
            final(self).tcp.compression_threshold == old(self).tcp.compression_threshold,
            final(self).tcp.inbuf() == old(self).tcp.inbuf(),
            frame_fits(
                old(self).tcp.compression_threshold as int,
                PacketV::ClientChat { message: message@ },
            ) ==> final(self).tcp.out_queue() == old(self).tcp.out_queue().push(
                spec_frame(
                    old(self).tcp.compression_threshold as int,
                    PacketV::ClientChat { message: message@ },
                ),
            ),
            !frame_fits(
                old(self).tcp.compression_threshold as int,
                PacketV::ClientChat { message: message@ },
            ) ==> final(self).tcp.out_queue() == old(self).tcp.out_queue(),
    {
        let p = Packet::ClientChat { message: message.to_owned() };
        let _ = self.tcp.send_packet_sync(&p);
    }

    /// Queue an attack on an entity: refused without effect when the
    /// target is this bot, unknown, or an item stack or experience orb.
    pub fn attack_entity(&mut self, id: i32)
        requires
            old(self).wf(),
        ensures
            final(self).wf(),
            final(self).username == old(self).username,
            final(self).uuid == old(self).uuid,
            final(self).entity_id == old(self).entity_id,
            final(self).game_mode == old(self).game_mode,
            final(self).world == old(self).world,
            final(self).scores == old(self).scores,
            final(self).inventory == old(self).inventory,
            final(self).tcp.state == old(self).tcp.state,
            final(self).tcp.compression_threshold == old(self).tcp.compression_threshold,
            final(self).tcp.inbuf() == old(self).tcp.inbuf(),
            ({
                let attackable = id != old(self).entity_id && (match old(self).world.lookup(id) {
                    Some(e) => !(e.kind == EntityKind::ItemStack || e.kind
                        == EntityKind::ExperienceOrb),
                    None => false,
                });
                let pv = PacketV::UseEntity { target: id, action: 1 };
                let thr = old(self).tcp.compression_threshold as int;
                &&& (attackable && frame_fits(thr, pv)) ==> final(self).tcp.out_queue() == old(self).tcp.out_queue().push(spec_frame(thr, pv))
                &&& !(attackable && frame_fits(thr, pv)) ==> final(self).tcp.out_queue() == old(self).tcp.out_queue()
            }),
    {
        if id == self.entity_id {
            return ;
        }
        let attackable = match self.world.get_entity(id) {
            Some(e) => !(matches!(e.kind, EntityKind::ItemStack) || matches!(
                e.kind,
                EntityKind::ExperienceOrb,
            )),
            None => false,
        };
        if !attackable {
            return ;
        }
        let p = Packet::UseEntity { target: id, action: 1 };
        let _ = self.tcp.send_packet_sync(&p);
    }

    /// Queue a respawn request.
    pub fn respawn(&mut self) -> (r: Result<(), Error>)
        ensures
            final(self).username == old(self).username,
            final(self).uuid == old(self).uuid,
            final(self).entity_id == old(self).entity_id,
            final(self).game_mode == old(self).game_mode,
            final(self).world == old(self).world,
            final(self).scores == old(self).scores,
            final(self).inventory == old(self).inventory,
            final(self).tcp.state == old(self).tcp.state,
            final(self).tcp.compression_threshold == old(self).tcp.compression_threshold,
            final(self).tcp.inbuf() == old(self).tcp.inbuf(),
            r is Ok <==> frame_fits(
                old(self).tcp.compression_threshold as int,
                PacketV::ClientCommand { action: 0 },
            ),
            r is Ok ==> final(self).tcp.out_queue() == old(self).tcp.out_queue().push(
                spec_frame(
                    old(self).tcp.compression_threshold as int,
                    PacketV::ClientCommand { action: 0 },
                ),
            ),
            r is Err ==> final(self).tcp.out_queue() == old(self).tcp.out_queue(),
    {
        let p = Packet::ClientCommand { action: 0 };
        self.tcp.send_packet(&p)
    }

    /// Apply one decoded packet's built-in mutation, per the table: spawn
    /// packets insert entities; metadata patches them; destroy removes
    /// them; scoreboard, team, slot and equipment packets update their
    /// mirrors; a fatal UpdateHealth queues a respawn and reports a death;
    /// LoginSuccess queues ClientSettings before reporting the connect (so
    /// `on_connect` callbacks always run after ClientSettings is queued);
    /// KickDisconnect ends the session with the server's reason. The whole
    /// transition is summed up by `packet_applied`.
    #[verifier::rlimit(100)]
    pub fn apply_packet(&mut self, p: &Packet) -> (r: Result<PacketEffect, Error>)
        requires
            old(self).wf(),
        ensures
            final(self).wf(),
            bot_core_unchanged(*old(self), *final(self)),
            (r matches Err(e) ==> e is Disconnected && p@ is KickDisconnect),
            (p@ is KickDisconnect <==> r is Err),
            (r matches Ok(eff) ==> (eff.connected <==> p@ is LoginSuccess) && (eff.died <==> (
            p@ matches PacketV::UpdateHealth { health_bits, .. } && health_fatal(health_bits)))),
            (match p@ {
                PacketV::KickDisconnect { reason } => (r matches Err(e) && e
                    matches Error::Disconnected(t) && t@ == reason),
                _ => true,
            }),
            applied_world(*old(self), *final(self), p@),
            applied_scores(*old(self), *final(self), p@),
            applied_inventory_reflex(*old(self), *final(self), p@),
            applied_quiet(*old(self), *final(self), p@),
            packet_applied(*old(self), *final(self), p@),
    {
        proof {
            reveal(packet_applied);
        }
        match p {
            Packet::SpawnPlayer { entity_id, x, y, z, yaw, pitch } => {
                let e = Entity {
                    id: *entity_id,
                    kind: EntityKind::Player,
                    coords: Some(
                        Coordinates { x: *x, y: *y, z: *z, yaw: *yaw, pitch: *pitch },
                    ),
                    metadata: Vec::new(),
                };
                self.world.insert(e);
                Ok(PacketEffect { connected: false, died: false })
            },
            Packet::SpawnObject { entity_id, object_type, x, y, z, yaw, pitch } => {
                let e = Entity {
                    id: *entity_id,
                    kind: object_kind(*object_type),
                    coords: Some(
                        Coordinates { x: *x, y: *y, z: *z, yaw: *yaw, pitch: *pitch },
                    ),
                    metadata: Vec::new(),
                };
                self.world.insert(e);
                Ok(PacketEffect { connected: false, died: false })
            },
            Packet::SpawnMob { entity_id, mob_type, x, y, z, yaw, pitch } => {
                let e = Entity {
                    id: *entity_id,
                    kind: mob_kind(*mob_type),
                    coords: Some(
                        Coordinates { x: *x, y: *y, z: *z, yaw: *yaw, pitch: *pitch },
                    ),
                    metadata: Vec::new(),
                };
                self.world.insert(e);
                Ok(PacketEffect { connected: false, died: false })
            },
            Packet::EntityMetadata { entity_id, metadata } => {
                self.world.apply_metadata(*entity_id, metadata);
                Ok(PacketEffect { connected: false, died: false })
            },
            Packet::EntityDestroy { entity_ids } => {
                let ghost pre = *self;
                let mut i: usize = 0;
                while i < entity_ids.len()
                    invariant
                        i <= entity_ids@.len(),
                        self.world.wf(),
                        self.username == pre.username,
                        self.uuid == pre.uuid,
                        self.entity_id == pre.entity_id,
                        self.game_mode == pre.game_mode,
                        self.tcp == pre.tcp,
                        self.scores == pre.scores,
                        self.inventory == pre.inventory,
                        forall|q: i32|
                            entity_ids@.subrange(0, i as int).contains(q) ==> self.world.lookup(
                                q,
                            ) is None,
                        forall|q: i32|
                            !entity_ids@.subrange(0, i as int).contains(q)
                                ==> self.world.lookup(q) == pre.world.lookup(q),
                    decreases entity_ids@.len() - i,
                {
                    self.world.remove_entity(entity_ids[i]);
                    proof {
                        let sub1 = entity_ids@.subrange(0, i + 1);
                        assert(sub1.drop_last() =~= entity_ids@.subrange(0, i as int));
                        assert forall|q: i32|
                            sub1.contains(q) implies self.world.lookup(q) is None by {
                            let w = choose|w: int| 0 <= w < sub1.len() && sub1[w] == q;
                            if w < i {
                                assert(entity_ids@.subrange(0, i as int)[w] == q);
                                assert(entity_ids@.subrange(0, i as int).contains(q));
                            }
                        }
                        assert forall|q: i32|
                            !sub1.contains(q) implies self.world.lookup(q) == pre.world.lookup(
                                q,
                            ) by {
                            assert(!entity_ids@.subrange(0, i as int).contains(q)) by {
                                if entity_ids@.subrange(0, i as int).contains(q) {
                                    let w = choose|w: int|
                                        0 <= w < i && entity_ids@.subrange(0, i as int)[w] == q;
                                    assert(sub1[w] == q);
                                }
                            }
                            assert(q != entity_ids@[i as int]) by {
                                if q == entity_ids@[i as int] {
                                    assert(sub1[i as int] == q);
                                }
                            }
                        }
                    }
                    i = i + 1;
                }
                proof {
                    assert(entity_ids@.subrange(0, entity_ids@.len() as int) =~= entity_ids@);
                }
                Ok(PacketEffect { connected: false, died: false })
            },
            Packet::ScoreboardObjective { objective, action } => {
                match action {
                    ObjectiveAction::Add { display_name, kind } => {
                        let mut o = Objective::new(*kind);
                        o.display_name = display_name.clone();
                        self.scores.create_objective(objective.clone(), o);
                    },
                    ObjectiveAction::Remove => {
                        self.scores.remove_objective(objective);
                    },
                    ObjectiveAction::UpdateDisplayText { display_name, kind } => {
                        self.scores.update_objective_display(
                            objective,
                            display_name.clone(),
                            *kind,
                        );
                    },
                }
                Ok(PacketEffect { connected: false, died: false })
            },
            Packet::ScoreboardUpdate { player, objective, value } => {
                if objective.as_str().is_empty() {
                    self.scores.clear_player(player);
                } else {
                    self.scores.update_score(objective, player, *value);
                }
                Ok(PacketEffect { connected: false, died: false })
            },
            Packet::ScoreboardDisplay { position, name } => {
                self.scores.set_display(*position, name.clone());
                Ok(PacketEffect { connected: false, died: false })
            },
            Packet::Teams { name, action } => {
                match action {
                    TeamsAction::Create { info, players } => {
                        self.scores.create_team(name.clone(), info, players);
                        proof {
                            assert forall|q: Seq<char>|
                                crate::scores::strs_contains(players@, q)
                                    <==> crate::packets::strs_view(players@).contains(q) by {
                                crate::scores::lemma_strs_view_contains(players@, q);
                            }
                        }
                    },
                    TeamsAction::Remove => {
                        self.scores.remove_team(name);
                    },
                    TeamsAction::Update { info } => {
                        self.scores.update_team(name, info);
                    },
                    TeamsAction::AddPlayers { players } => {
                        self.scores.team_add_players(name, players);
                        proof {
                            assert forall|q: Seq<char>|
                                crate::scores::strs_contains(players@, q)
                                    <==> crate::packets::strs_view(players@).contains(q) by {
                                crate::scores::lemma_strs_view_contains(players@, q);
                            }
                        }
                    },
                    TeamsAction::RemovePlayers { players } => {
                        self.scores.team_remove_players(name, players);
                        proof {
                            assert forall|q: Seq<char>|
                                crate::scores::strs_contains(players@, q)
                                    <==> crate::packets::strs_view(players@).contains(q) by {
                                crate::scores::lemma_strs_view_contains(players@, q);
                            }
                        }
                    },
                }
                Ok(PacketEffect { connected: false, died: false })
            },
            Packet::SetSlot { window_id, slot, item } => {
                if *window_id == 0 {
                    self.inventory.set_slot(*slot, *item);
                }
                Ok(PacketEffect { connected: false, died: false })
            },
            Packet::EntityEquipment { entity_id, slot, item } => {
                if *entity_id == self.entity_id {
                    self.inventory.set_armor_slot(*slot, *item);
                }
                Ok(PacketEffect { connected: false, died: false })
            },
            Packet::UpdateHealth { health_bits, .. } => {
                let died = health_is_fatal(*health_bits);
                if died {
                    let cmd = Packet::ClientCommand { action: 0 };
                    let _ = self.tcp.send_packet(&cmd);
                }
                Ok(PacketEffect { connected: false, died })
            },
            Packet::LoginSuccess { .. } => {
                let settings = default_settings();
                let _ = self.tcp.send_packet(&settings);
                Ok(PacketEffect { connected: true, died: false })
            },
            Packet::KickDisconnect { reason } => {
                Err(Error::Disconnected(reason.clone()))
            },
            _ => Ok(PacketEffect { connected: false, died: false }),
        }
    }

    /// Apply a batch of packets in order: the final state is the fold of
    /// the one-packet transition (`packet_applied`) over the batch. The
    /// first KickDisconnect ends the session with the server's reason;
    /// the packets before it have been applied and the rest have not.
    pub fn handle_packets(&mut self, packets: Vec<Packet>) -> (r: Result<(), Error>)
        requires
            old(self).wf(),
        ensures
            final(self).wf(),
            bot_core_unchanged(*old(self), *final(self)),
            r is Ok <==> (forall|i: int|
                0 <= i < packets@.len() ==> !(#[trigger] packets@[i]@ is KickDisconnect)),
            r is Ok ==> (exists|chain: Seq<Bot>|
                chain_ok(chain, packets@) && chain.first() == *old(self) && chain.last()
                    == *final(self)),
            r matches Err(e) ==> (exists|i: int, chain: Seq<Bot>|
                {
                    &&& 0 <= i < packets@.len()
                    &&& packets@[i]@ is KickDisconnect
                    &&& forall|j: int| 0 <= j < i ==> !(#[trigger] packets@[j]@
                        is KickDisconnect)
                    &&& chain_ok(chain, packets@.subrange(0, i))
                    &&& chain.first() == *old(self)
                    &&& chain.last() == *final(self)
                    &&& (e matches Error::Disconnected(t) && packets@[i]@
                        matches PacketV::KickDisconnect { reason } && t@ == reason)
                }),
    {
        let ghost mut chain: Seq<Bot> = seq![*old(self)];
        let mut i: usize = 0;
        while i < packets.len()
            invariant
                i <= packets@.len(),
                self.wf(),
                bot_core_unchanged(*old(self), *self),
                chain.len() == i + 1,
                chain.first() == *old(self),
                chain.last() == *self,
                chain_ok(chain, packets@.subrange(0, i as int)),
                forall|j: int| 0 <= j < i ==> !(#[trigger] packets@[j]@ is KickDisconnect),
            decreases packets@.len() - i,
        {
            let ghost pre_b = *self;
            let ghost pv = packets@[i as int]@;
            match self.apply_packet(&packets[i]) {
                Ok(_) => {
                    proof {
                        chain = chain.push(*self);
                        assert(packets@.subrange(0, i + 1).drop_last() =~= packets@.subrange(
                            0,
                            i as int,
                        ));
                        assert(packets@.subrange(0, i + 1).last() == packets@[i as int]);
                        assert(chain_ok(chain, packets@.subrange(0, i + 1)));
                    }
                    i = i + 1;
                },
                Err(e) => {
                    proof {
                        assert(*self == pre_b) by {
                            assert(applied_inventory_reflex(pre_b, *self, pv));
                        }
                        assert(chain_ok(chain, packets@.subrange(0, i as int)));
                    }
                    return Err(e);
                },
            }
        }
        proof {
            assert(packets@.subrange(0, packets@.len() as int) =~= packets@);
            assert(chain_ok(chain, packets@));
        }
        Ok(())
    }
}

} // verus!
