//! Chain and room bookkeeping: which chain plays which role, and the
//! lightweight room records that group players.

use vstd::prelude::*;

verus! {

pub type RoomId = u64;

#[derive(Clone, Copy, Debug, PartialEq, Eq, Structural)]
pub enum ActivityStatus {
    Active,
    Inactive,
    MaintenanceMode,
}

/// Role of a chain in the four-chain layout.
#[derive(Clone, Copy, Debug, PartialEq, Eq, Structural)]
pub enum ChainType {
    Master,
    Lobby,
    Game,
    User,
}

impl ChainType {
    /// Decode the instantiation argument; unknown values fall back to a
    /// user chain.
    pub fn from_instantiate_value(value: u64) -> (r: Self)
        ensures
            value == 0 ==> r == ChainType::Master,
            value == 1 ==> r == ChainType::Lobby,
            value == 2 ==> r == ChainType::Game,
            value >= 3 ==> r == ChainType::User,
    {
        if value == 0 {
            ChainType::Master
        } else if value == 1 {
            ChainType::Lobby
        } else if value == 2 {
            ChainType::Game
        } else {
            ChainType::User
        }
    }
}

/// Information about a lobby chain.
#[derive(Clone, Debug)]
pub struct LobbyChainInfo {
    pub chain_id: Option<u64>,
    pub chain_status: ActivityStatus,
    pub players_in_queue: u32,
    pub games_in_progress: u32,
    pub created_at: Option<u64>,
    pub last_update: Option<u64>,
}

impl LobbyChainInfo {
    pub fn new(chain_id: u64, current_time: u64) -> (r: Self)
        ensures
            r.chain_id == Some(chain_id),
            r.chain_status == ActivityStatus::Active,
            r.players_in_queue == 0,
            r.games_in_progress == 0,
            r.created_at == Some(current_time),
            r.last_update == Some(current_time),
    {
        LobbyChainInfo {
            chain_id: Some(chain_id),
            chain_status: ActivityStatus::Active,
            players_in_queue: 0,
            games_in_progress: 0,
            created_at: Some(current_time),
            last_update: Some(current_time),
        }
    }

    pub fn update_queue_count(&mut self, count: u32, current_time: u64)
        ensures
            *final(self) == (LobbyChainInfo {
                players_in_queue: count,
                last_update: Some(current_time),
                ..*old(self)
            }),
    {
        self.players_in_queue = count;
        self.last_update = Some(current_time);
    }
}

/// Information about a game chain.
#[derive(Clone, Debug)]
pub struct GameChainInfo {
    pub chain_id: Option<u64>,
    pub chain_status: ActivityStatus,
    /// Is this chain currently hosting a game?
    pub in_use: bool,
    /// Current game if in use.
    pub current_game_id: Option<u64>,
    /// Total games hosted on this chain.
    pub games_hosted: u64,
    pub created_at: Option<u64>,
    pub last_update: Option<u64>,
}

impl GameChainInfo {
    pub fn new(chain_id: u64, current_time: u64) -> (r: Self)
        ensures
            r.chain_id == Some(chain_id),
            r.chain_status == ActivityStatus::Active,
            !r.in_use,
            r.current_game_id is None,
            r.games_hosted == 0,
            r.created_at == Some(current_time),
            r.last_update == Some(current_time),
    {
        GameChainInfo {
            chain_id: Some(chain_id),
            chain_status: ActivityStatus::Active,
            in_use: false,
            current_game_id: None,
            games_hosted: 0,
            created_at: Some(current_time),
            last_update: Some(current_time),
        }
    }

    pub fn start_game(&mut self, game_id: u64, current_time: u64)
        requires
            old(self).games_hosted < u64::MAX,
        ensures
            *final(self) == (GameChainInfo {
                in_use: true,
                current_game_id: Some(game_id),
                games_hosted: (old(self).games_hosted + 1) as u64,
                last_update: Some(current_time),
                ..*old(self)
            }),
    {
        self.in_use = true;
        self.current_game_id = Some(game_id);
        self.games_hosted = self.games_hosted + 1;
        self.last_update = Some(current_time);
    }

    pub fn end_game(&mut self, current_time: u64)
        ensures
            *final(self) == (GameChainInfo {
                in_use: false,
                current_game_id: None,
                last_update: Some(current_time),
                ..*old(self)
            }),
    {
        self.in_use = false;
        self.current_game_id = None;
        self.last_update = Some(current_time);
    }

    pub open spec fn spec_is_available(&self) -> bool {
        !self.in_use && self.chain_status == ActivityStatus::Active
    }

    #[verifier::when_used_as_spec(spec_is_available)]
    pub fn is_available(&self) -> (r: bool)
        ensures
            r == self.spec_is_available(),
    {
        !self.in_use && self.chain_status == ActivityStatus::Active
    }
}

/// Kind of room; private rooms carry a password hash.
#[derive(Clone, Debug)]
pub enum RoomType {
    Public,
    Private { password_hash: String },
    Ranked,
}

/// Information about a game room.
#[derive(Clone, Debug)]
pub struct RoomInfo {
    pub room_id: RoomId,
    pub name: String,
    pub room_type: RoomType,
    pub room_status: ActivityStatus,
    /// Game chain assigned to this room.
    pub game_chain: Option<u64>,
    /// Players currently in this room.
    pub player_count: u8,
    /// Maximum players allowed.
    pub max_players: u8,
    /// Host (creator) of the room.
    pub host: Option<u64>,
    /// Total games played in this room.
    pub games_played: u64,
    pub created_at: Option<u64>,
    pub last_update: Option<u64>,
}

impl RoomInfo {
    /// A new room starts with its host as the only player.
    pub fn new(
        room_id: RoomId,
        name: String,
        room_type: RoomType,
        host: u64,
        max_players: u8,
        current_time: u64,
    ) -> (r: Self)
        ensures
            r.room_id == room_id,
            r.name == name,
            r.room_type == room_type,
            r.room_status == ActivityStatus::Active,
            r.game_chain is None,
            r.player_count == 1,
            r.max_players == max_players,
            r.host == Some(host),
            r.games_played == 0,
            r.created_at == Some(current_time),
            r.last_update == Some(current_time),
    {
        RoomInfo {
            room_id,
            name,
            room_type,
            room_status: ActivityStatus::Active,
            game_chain: None,
            player_count: 1,
            max_players,
            host: Some(host),
            games_played: 0,
            created_at: Some(current_time),
            last_update: Some(current_time),
        }
    }

    pub open spec fn spec_is_joinable(&self) -> bool {
        self.room_status == ActivityStatus::Active && self.player_count < self.max_players
    }

    #[verifier::when_used_as_spec(spec_is_joinable)]
    pub fn is_joinable(&self) -> (r: bool)
        ensures
            r == self.spec_is_joinable(),
    {
        self.room_status == ActivityStatus::Active && self.player_count < self.max_players
    }

    /// Admit one more player, only while the room is joinable.
    pub fn add_player(&mut self, current_time: u64) -> (r: bool)
        ensures
            r == old(self).spec_is_joinable(),
            r ==> *final(self) == (RoomInfo {
                player_count: (old(self).player_count + 1) as u8,
                last_update: Some(current_time),
                ..*old(self)
            }),
            !r ==> *final(self) == *old(self),
    {
        if !self.is_joinable() {
            return false;
        }
        self.player_count = self.player_count + 1;
        self.last_update = Some(current_time);
        true
    }

    /// Drop one player; an empty room stays at zero.
    pub fn remove_player(&mut self, current_time: u64)
        ensures
            old(self).player_count > 0 ==> final(self).player_count == old(self).player_count - 1,
            old(self).player_count == 0 ==> final(self).player_count == 0,
            *final(self) == (RoomInfo {
                player_count: final(self).player_count,
                last_update: Some(current_time),
                ..*old(self)
            }),
    {
        if self.player_count > 0 {
            self.player_count = self.player_count - 1;
        }
        self.last_update = Some(current_time);
    }

    pub fn assign_game_chain(&mut self, chain_id: u64, current_time: u64)
        ensures
            *final(self) == (RoomInfo {
                game_chain: Some(chain_id),
                last_update: Some(current_time),
                ..*old(self)
            }),
    {
        self.game_chain = Some(chain_id);
        self.last_update = Some(current_time);
    }

    pub fn game_ended(&mut self, current_time: u64)
        requires
            old(self).games_played < u64::MAX,
        ensures
            *final(self) == (RoomInfo {
                games_played: (old(self).games_played + 1) as u64,
                game_chain: None,
                last_update: Some(current_time),
                ..*old(self)
            }),
    {
        self.games_played = self.games_played + 1;
        self.game_chain = None;
        self.last_update = Some(current_time);
    }
}

} // verus!
