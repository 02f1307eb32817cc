//! Rows of the three tables the game keeps: `Game`, `Participation` and
//! `Win`, together with their mathematical views and the row transformations
//! that the operations perform.
//!
//! Identifiers are plain integers: chat-platform ids (guild, channel, user)
//! are 64-bit, row ids are 64-bit and handed out by the store, reset-group
//! ids are the 128 bits of a UUID. Timestamps are seconds.

use vstd::prelude::*;

verus! {

/// One game per (guild, channel) pair. Never updated after creation.
#[derive(Debug, Clone, Copy)]
pub struct Game {
    pub id: u64,
    pub created_at: i64,
    pub guild_id: u64,
    pub channel_id: u64,
    pub creator_id: u64,
}

impl Game {
    /// The channel the game is bound to.
    pub fn channel(&self) -> (r: u64)
        ensures
            r == self.channel_id,
    {
        self.channel_id
    }
}

/// One turn attempt. At most one row per game is open (neither won nor
/// skipped) at any time.
#[derive(Debug, Clone)]
pub struct Participation {
    pub id: u64,
    pub created_at: i64,
    pub player_id: u64,
    pub is_win: bool,
    pub won_at: Option<i64>,
    pub win_id: Option<u64>,
    pub is_skip: bool,
    pub skipped_at: Option<i64>,
    pub picture_url: Option<String>,
    pub game_id: u64,
    pub warned_at: Option<i64>,
    pub updated_at: i64,
}

impl Participation {
    /// The player whose turn this row records.
    pub fn player(&self) -> (r: u64)
        ensures
            r == self.player_id,
    {
        self.player_id
    }
}

/// Mathematical view of a participation row: the picture reference becomes a
/// sequence of characters.
pub struct PartV {
    pub id: u64,
    pub created_at: i64,
    pub player_id: u64,
    pub is_win: bool,
    pub won_at: Option<i64>,
    pub win_id: Option<u64>,
    pub is_skip: bool,
    pub skipped_at: Option<i64>,
    pub picture_url: Option<Seq<char>>,
    pub game_id: u64,
    pub warned_at: Option<i64>,
    pub updated_at: i64,
}

impl View for Participation {
    type V = PartV;

    open spec fn view(&self) -> PartV {
        PartV {
            id: self.id,
            created_at: self.created_at,
            player_id: self.player_id,
            is_win: self.is_win,
            won_at: self.won_at,
            win_id: self.win_id,
            is_skip: self.is_skip,
            skipped_at: self.skipped_at,
            picture_url: match self.picture_url {
                Option::Some(s) => Option::Some(s@),
                Option::None => Option::None,
            },
            game_id: self.game_id,
            warned_at: self.warned_at,
            updated_at: self.updated_at,
        }
    }
}

/// Append-only ledger entry crediting (or debiting) a player for a resolved
/// turn. `reset` soft-hides the row from the scoreboard; the three reset
/// fields always change together.
#[derive(Debug, Clone, Copy)]
pub struct Win {
    pub id: u64,
    pub created_at: i64,
    pub player_id: u64,
    pub winner_id: u64,
    pub score: i64,
    pub reset: bool,
    pub reset_at: Option<i64>,
    pub reset_id: Option<u128>,
}

/// A turn is open while it is neither won nor skipped.
pub open spec fn part_open(p: PartV) -> bool {
    !p.is_win && !p.is_skip
}

/// A brand-new participation row.
pub open spec fn new_part_v(
    id: u64,
    now: i64,
    player: u64,
    picture: Option<Seq<char>>,
    game_id: u64,
) -> PartV {
    PartV {
        id,
        created_at: now,
        player_id: player,
        is_win: false,
        won_at: None,
        win_id: None,
        is_skip: false,
        skipped_at: None,
        picture_url: picture,
        game_id,
        warned_at: None,
        updated_at: now,
    }
}

/// A participation closed by a voluntary, forced or reset-driven skip.
pub open spec fn mark_skip(p: PartV, now: i64) -> PartV {
    PartV { is_skip: true, skipped_at: Some(now), ..p }
}

/// A participation closed by the sweeper: skipped and linked to the
/// penalty entry of the ledger.
pub open spec fn mark_autoskip(p: PartV, now: i64, win_id: u64) -> PartV {
    PartV { is_skip: true, skipped_at: Some(now), win_id: Some(win_id), ..p }
}

/// A participation closed by a win, linked to the ledger entry.
pub open spec fn mark_won(p: PartV, now: i64, win_id: u64) -> PartV {
    PartV { is_win: true, won_at: Some(now), win_id: Some(win_id), ..p }
}

/// A participation with the picture reference attached.
pub open spec fn attach_picture(p: PartV, url: Seq<char>, now: i64) -> PartV {
    PartV { picture_url: Some(url), updated_at: now, ..p }
}

/// A participation whose picture reference was withdrawn.
pub open spec fn clear_picture(p: PartV, now: i64) -> PartV {
    PartV { picture_url: None, updated_at: now, ..p }
}

/// A participation the sweeper has warned.
pub open spec fn mark_warned(p: PartV, now: i64) -> PartV {
    PartV { warned_at: Some(now), ..p }
}

/// A fresh ledger entry; nothing is reset at birth.
pub open spec fn new_win_v(id: u64, now: i64, player: u64, winner: u64, score: i64) -> Win {
    Win {
        id,
        created_at: now,
        player_id: player,
        winner_id: winner,
        score,
        reset: false,
        reset_at: None,
        reset_id: None,
    }
}

/// A ledger entry hidden from the scoreboard under a reset group.
pub open spec fn mark_reset(w: Win, now: i64, group: u128) -> Win {
    Win { reset: true, reset_at: Some(now), reset_id: Some(group), ..w }
}

/// A ledger entry restored by cancelling its reset group; the three reset
/// fields clear together.
pub open spec fn clear_reset(w: Win) -> Win {
    Win { reset: false, reset_at: None, reset_id: None, ..w }
}

/// A fresh game row.
pub open spec fn new_game_v(id: u64, now: i64, guild: u64, channel: u64, creator: u64) -> Game {
    Game { id, created_at: now, guild_id: guild, channel_id: channel, creator_id: creator }
}

} // verus!
