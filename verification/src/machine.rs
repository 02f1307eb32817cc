//! The turn state machine: starting a game, posting a picture, skipping a
//! turn, crediting a win, changing one's picture, and showing the current
//! picture.
//!
//! Each operation is specified by a transition function on the store's view:
//! the executable method returns exactly the transition's result and leaves
//! the store in exactly the transition's state. The front-end wraps each
//! call in one serializable transaction of the persistent engine; here the
//! transition itself is the atom.

use vstd::prelude::*;

use crate::error::Error;
use crate::models::{
    attach_picture, clear_picture, mark_skip, mark_won, new_game_v, new_part_v, new_win_v,
    part_open, Participation,
};
use crate::store::{
    game_idx, has_game, has_open, lemma_game_idx_unique, lemma_open_idx_unique,
    lemma_push_game_wf, lemma_push_part_wf, lemma_push_win_wf, lemma_update_part_wf, open_idx,
    the_game_idx, the_open_idx, Store, StoreV,
};

verus! {

/// What a picture post did.
#[derive(Debug, Clone, Copy, PartialEq, Eq, Structural)]
pub enum SubmitOutcome {
    /// No game runs in this channel; pictures there are none of our business.
    NoGame,
    /// Someone else holds the turn; an unrelated picture is ignored.
    Ignored,
    /// Nobody held the turn: a new one opens with this picture.
    NewTurn,
    /// The turn holder's picture is now attached.
    PictureAttached,
}

/// What a skip did.
#[derive(Debug, Clone, Copy, PartialEq, Eq, Structural)]
pub enum SkipOutcome {
    /// No game runs in this channel.
    NoGame,
    /// The open turn of this player was closed with no score effect.
    Skipped { player: u64 },
}

/// What a win did.
#[derive(Debug, Clone, Copy, PartialEq, Eq, Structural)]
pub enum WinOutcome {
    /// No game runs in this channel.
    NoGame,
    /// The ledger entry was appended and the winner holds the next turn.
    Won { win_id: u64 },
}

/// What a picture change did.
#[derive(Debug, Clone, Copy, PartialEq, Eq, Structural)]
pub enum ChangeOutcome {
    /// No game runs in this channel.
    NoGame,
    /// The turn holder's picture was withdrawn; a new one may be posted.
    PictureCleared,
}

/// The current picture, for showing it.
#[derive(Debug, Clone, PartialEq)]
pub enum PicOutcome {
    /// No game runs in this channel.
    NoGame,
    /// The turn holder has not posted yet.
    Awaiting { player: u64 },
    /// The turn holder's picture.
    Posted { player: u64, url: String },
}

/// Transition of `start_game`: refuse a second game in a channel, otherwise
/// record the new game. No turn opens until a picture arrives.
pub open spec fn start_spec(s: StoreV, now: i64, guild: u64, channel: u64, creator: u64) -> (
    StoreV,
    Result<u64, Error>,
) {
    if has_game(s, guild, channel) {
        (s, Err(Error::GameAlreadyExists))
    } else {
        (
            StoreV {
                games: s.games.push(new_game_v(s.next_id, now, guild, channel, creator)),
                next_id: (s.next_id + 1) as u64,
                ..s
            },
            Ok(s.next_id),
        )
    }
}

/// Transition of `submit_picture`: in a channel without a game the post is
/// ignored; with no open turn it opens one for the poster, picture attached;
/// someone else's turn ignores the post; the holder's first picture is
/// attached, a second is refused.
pub open spec fn submit_spec(
    s: StoreV,
    now: i64,
    guild: u64,
    channel: u64,
    player: u64,
    url: Seq<char>,
) -> (StoreV, Result<SubmitOutcome, Error>) {
    if !has_game(s, guild, channel) {
        (s, Ok(SubmitOutcome::NoGame))
    } else {
        let gid = s.games[the_game_idx(s, guild, channel)].id;
        if !has_open(s, gid) {
            (
                StoreV {
                    parts: s.parts.push(new_part_v(s.next_id, now, player, Some(url), gid)),
                    next_id: (s.next_id + 1) as u64,
                    ..s
                },
                Ok(SubmitOutcome::NewTurn),
            )
        } else {
            let k = the_open_idx(s, gid);
            let p = s.parts[k];
            if p.player_id != player {
                (s, Ok(SubmitOutcome::Ignored))
            } else if p.picture_url is Some {
                (s, Err(Error::PicAlreadyPosted))
            } else {
                (
                    StoreV { parts: s.parts.update(k, attach_picture(p, url, now)), ..s },
                    Ok(SubmitOutcome::PictureAttached),
                )
            }
        }
    }
}

/// Transition of `skip`: needs an open turn, held by the requester unless
/// forced; the turn closes with no score effect and no hand-off.
pub open spec fn skip_spec(
    s: StoreV,
    now: i64,
    guild: u64,
    channel: u64,
    requester: u64,
    forced: bool,
) -> (StoreV, Result<SkipOutcome, Error>) {
    if !has_game(s, guild, channel) {
        (s, Ok(SkipOutcome::NoGame))
    } else {
        let gid = s.games[the_game_idx(s, guild, channel)].id;
        if !has_open(s, gid) {
            (s, Err(Error::NoParticipant))
        } else {
            let k = the_open_idx(s, gid);
            let p = s.parts[k];
            if !forced && p.player_id != requester {
                (s, Err(Error::NotYourTurn))
            } else {
                (
                    StoreV { parts: s.parts.update(k, mark_skip(p, now)), ..s },
                    Ok(SkipOutcome::Skipped { player: p.player_id }),
                )
            }
        }
    }
}

/// Transition of `win`: needs an open turn with a picture, held by the
/// requester unless forced; the winner must be human and, unless forced,
/// someone else. On success the ledger gains a +1 entry for the winner, the
/// turn closes as won, and a fresh open turn for the winner is created, all
/// in one step.
pub open spec fn win_spec(
    s: StoreV,
    now: i64,
    guild: u64,
    channel: u64,
    requester: u64,
    winner: u64,
    winner_is_bot: bool,
    forced: bool,
) -> (StoreV, Result<WinOutcome, Error>) {
    if !has_game(s, guild, channel) {
        (s, Ok(WinOutcome::NoGame))
    } else {
        let gid = s.games[the_game_idx(s, guild, channel)].id;
        if !has_open(s, gid) {
            (s, Err(Error::NoParticipant))
        } else {
            let k = the_open_idx(s, gid);
            let p = s.parts[k];
            if !forced && p.player_id != requester {
                (s, Err(Error::NotYourTurn))
            } else if p.picture_url is None {
                (s, Err(Error::YouPostedNoPic))
            } else if winner_is_bot {
                (s, Err(Error::StfuBot))
            } else if !forced && winner == requester {
                (s, Err(Error::SelfWin))
            } else {
                (
                    StoreV {
                        games: s.games,
                        parts: s.parts.update(k, mark_won(p, now, s.next_id)).push(
                            new_part_v((s.next_id + 1) as u64, now, winner, None, gid),
                        ),
                        wins: s.wins.push(new_win_v(s.next_id, now, requester, winner, 1)),
                        next_id: (s.next_id + 2) as u64,
                    },
                    Ok(WinOutcome::Won { win_id: s.next_id }),
                )
            }
        }
    }
}

/// Transition of `change_picture`: the turn holder withdraws their picture
/// to post another; no score effect, the turn stays open.
pub open spec fn change_spec(s: StoreV, now: i64, guild: u64, channel: u64, requester: u64) -> (
    StoreV,
    Result<ChangeOutcome, Error>,
) {
    if !has_game(s, guild, channel) {
        (s, Ok(ChangeOutcome::NoGame))
    } else {
        let gid = s.games[the_game_idx(s, guild, channel)].id;
        if !has_open(s, gid) {
            (s, Err(Error::NoParticipant))
        } else {
            let k = the_open_idx(s, gid);
            let p = s.parts[k];
            if p.player_id != requester {
                (s, Err(Error::NotYourTurn))
            } else {
                (
                    StoreV { parts: s.parts.update(k, clear_picture(p, now)), ..s },
                    Ok(ChangeOutcome::PictureCleared),
                )
            }
        }
    }
}

impl Store {
    /// Start a game in this channel. Fails if the channel already hosts one.
    pub fn start_game(&mut self, now: i64, guild: u64, channel: u64, creator: u64) -> (r: Result<
        u64,
        Error,
    >)
        requires
            old(self)@.wf(),
            old(self)@.next_id < u64::MAX,
        ensures
            final(self)@.wf(),
            final(self)@ == start_spec(old(self)@, now, guild, channel, creator).0,
            r == start_spec(old(self)@, now, guild, channel, creator).1,
    {
        match self.find_game(guild, channel) {
            Some(i) => {
                proof {
                    assert(game_idx(self@, guild, channel, i as int));
                }
                Err(Error::GameAlreadyExists)
            },
            None => {
                let id = self.next_id;
                let g = crate::models::Game {
                    id,
                    created_at: now,
                    guild_id: guild,
                    channel_id: channel,
                    creator_id: creator,
                };
                proof {
                    lemma_push_game_wf(old(self)@, g);
                }
                self.games.push(g);
                self.next_id = self.next_id + 1;
                proof {
                    assert(self@ =~= start_spec(old(self)@, now, guild, channel, creator).0);
                }
                Ok(id)
            },
        }
    }

    /// Handle a picture post in this channel.
    pub fn submit_picture(
        &mut self,
        now: i64,
        guild: u64,
        channel: u64,
        player: u64,
        url: String,
    ) -> (r: Result<SubmitOutcome, Error>)
        requires
            old(self)@.wf(),
            old(self)@.next_id < u64::MAX,
        ensures
            final(self)@.wf(),
            final(self)@ == submit_spec(old(self)@, now, guild, channel, player, url@).0,
            r == submit_spec(old(self)@, now, guild, channel, player, url@).1,
    {
        let ghost s0 = self@;
        let gi = match self.find_game(guild, channel) {
            Some(i) => i,
            None => {
                return Ok(SubmitOutcome::NoGame);
            },
        };
        proof {
            assert(game_idx(s0, guild, channel, gi as int));
            lemma_game_idx_unique(s0, guild, channel, gi as int);
        }
        let gid = self.games[gi].id;
        let k = match self.find_open_part(gid) {
            Some(k) => k,
            None => {
                // Nobody holds the turn: open one for the poster, picture attached.
                let p = Participation {
                    id: self.next_id,
                    created_at: now,
                    player_id: player,
                    is_win: false,
                    won_at: None,
                    win_id: None,
                    is_skip: false,
                    skipped_at: None,
                    picture_url: Some(url),
                    game_id: gid,
                    warned_at: None,
                    updated_at: now,
                };
                proof {
                    lemma_push_part_wf(s0, p@);
                }
                self.parts.push(p);
                self.next_id = self.next_id + 1;
                proof {
                    assert(self@.parts =~= s0.parts.push(
                        new_part_v(s0.next_id, now, player, Some(url@), gid),
                    ));
                    assert(self@ =~= submit_spec(s0, now, guild, channel, player, url@).0);
                }
                return Ok(SubmitOutcome::NewTurn);
            },
        };
        proof {
            assert(open_idx(s0, gid, k as int));
            lemma_open_idx_unique(s0, gid, k as int);
        }
        if self.parts[k].player_id != player {
            // Someone else holds the turn; tolerate unrelated picture posts.
            return Ok(SubmitOutcome::Ignored);
        }
        if self.parts[k].picture_url.is_some() {
            return Err(Error::PicAlreadyPosted);
        }
        proof {
            lemma_update_part_wf(s0, k as int, attach_picture(s0.parts[k as int], url@, now));
        }
        self.parts[k].picture_url = Some(url);
        self.parts[k].updated_at = now;
        proof {
            assert(self@.parts =~= s0.parts.update(
                k as int,
                attach_picture(s0.parts[k as int], url@, now),
            ));
            assert(self@ =~= submit_spec(s0, now, guild, channel, player, url@).0);
        }
        Ok(SubmitOutcome::PictureAttached)
    }

    /// Skip the open turn of this channel. Unless forced, only the turn
    /// holder may do so. The next turn opens lazily, at the next picture.
    pub fn skip(&mut self, now: i64, guild: u64, channel: u64, requester: u64, forced: bool) -> (r:
        Result<SkipOutcome, Error>)
        requires
            old(self)@.wf(),
        ensures
            final(self)@.wf(),
            final(self)@ == skip_spec(old(self)@, now, guild, channel, requester, forced).0,
            r == skip_spec(old(self)@, now, guild, channel, requester, forced).1,
    {
        let ghost s0 = self@;
        let gi = match self.find_game(guild, channel) {
            Some(i) => i,
            None => {
                return Ok(SkipOutcome::NoGame);
            },
        };
        proof {
            assert(game_idx(s0, guild, channel, gi as int));
            lemma_game_idx_unique(s0, guild, channel, gi as int);
        }
        let gid = self.games[gi].id;
        let k = match self.find_open_part(gid) {
            Some(k) => k,
            None => {
                return Err(Error::NoParticipant);
            },
        };
        proof {
            assert(open_idx(s0, gid, k as int));
            lemma_open_idx_unique(s0, gid, k as int);
        }
        if !forced && self.parts[k].player_id != requester {
            return Err(Error::NotYourTurn);
        }
        let player = self.parts[k].player_id;
        proof {
            lemma_update_part_wf(s0, k as int, mark_skip(s0.parts[k as int], now));
        }
        self.parts[k].is_skip = true;
        self.parts[k].skipped_at = Some(now);
        proof {
            assert(self@.parts =~= s0.parts.update(k as int, mark_skip(s0.parts[k as int], now)));
            assert(self@ =~= skip_spec(s0, now, guild, channel, requester, forced).0);
        }
        Ok(SkipOutcome::Skipped { player })
    }

    /// Credit a win: append the +1 ledger entry, close the turn as won, and
    /// open the next turn for the winner, in one step.
    pub fn win(
        &mut self,
        now: i64,
        guild: u64,
        channel: u64,
        requester: u64,
        winner: u64,
        winner_is_bot: bool,
        forced: bool,
    ) -> (r: Result<WinOutcome, Error>)
        requires
            old(self)@.wf(),
            old(self)@.next_id < u64::MAX - 1,
        ensures
            final(self)@.wf(),
            final(self)@ == win_spec(
                old(self)@,
                now,
                guild,
                channel,
                requester,
                winner,
                winner_is_bot,
                forced,
            ).0,
            r == win_spec(
                old(self)@,
                now,
                guild,
                channel,
                requester,
                winner,
                winner_is_bot,
                forced,
            ).1,
    {
        let ghost s0 = self@;
        let gi = match self.find_game(guild, channel) {
            Some(i) => i,
            None => {
                return Ok(WinOutcome::NoGame);
            },
        };
        proof {
            assert(game_idx(s0, guild, channel, gi as int));
            lemma_game_idx_unique(s0, guild, channel, gi as int);
        }
        let gid = self.games[gi].id;
        let k = match self.find_open_part(gid) {
            Some(k) => k,
            None => {
                return Err(Error::NoParticipant);
            },
        };
        proof {
            assert(open_idx(s0, gid, k as int));
            lemma_open_idx_unique(s0, gid, k as int);
        }
        if !forced && self.parts[k].player_id != requester {
            return Err(Error::NotYourTurn);
        }
        if self.parts[k].picture_url.is_none() {
            return Err(Error::YouPostedNoPic);
        }
        if winner_is_bot {
            return Err(Error::StfuBot);
        }
        if !forced && winner == requester {
            return Err(Error::SelfWin);
        }
        let win_id = self.next_id;
        let part_id = self.next_id + 1;

        let ghost s1 = StoreV { parts: s0.parts.update(k as int, mark_won(s0.parts[k as int], now, win_id)), ..s0 };
        let ghost w = new_win_v(win_id, now, requester, winner, 1);
        let ghost s2 = StoreV { wins: s1.wins.push(w), next_id: (s1.next_id + 1) as u64, ..s1 };
        let ghost newp = new_part_v(part_id, now, winner, None, gid);

        proof {
            lemma_update_part_wf(s0, k as int, mark_won(s0.parts[k as int], now, win_id));
            lemma_push_win_wf(s1, w);
            assert forall|j: int| !open_idx(s2, gid, j) by {
                if open_idx(s2, gid, j) {
                    assert(j != k);
                    assert(open_idx(s0, gid, j));
                    lemma_open_idx_unique(s0, gid, j);
                }
            }
            lemma_push_part_wf(s2, newp);
        }

        // Close the turn and link it to the ledger entry.
        self.parts[k].is_win = true;
        self.parts[k].won_at = Some(now);
        self.parts[k].win_id = Some(win_id);
        // Credit the winner.
        self.wins.push(
            crate::models::Win {
                id: win_id,
                created_at: now,
                player_id: requester,
                winner_id: winner,
                score: 1,
                reset: false,
                reset_at: None,
                reset_id: None,
            },
        );
        // Hand the turn to the winner, who owes the next picture.
        self.parts.push(
            Participation {
                id: part_id,
                created_at: now,
                player_id: winner,
                is_win: false,
                won_at: None,
                win_id: None,
                is_skip: false,
                skipped_at: None,
                picture_url: None,
                game_id: gid,
                warned_at: None,
                updated_at: now,
            },
        );
        self.next_id = self.next_id + 2;
        proof {
            assert(self@.parts =~= StoreV {
                parts: s2.parts.push(newp),
                next_id: (s2.next_id + 1) as u64,
                ..s2
            }.parts);
            assert(self@ =~= win_spec(
                s0,
                now,
                guild,
                channel,
                requester,
                winner,
                winner_is_bot,
                forced,
            ).0);
        }
        Ok(WinOutcome::Won { win_id })
    }

    /// Withdraw the turn holder's picture so another can be posted.
    pub fn change_picture(&mut self, now: i64, guild: u64, channel: u64, requester: u64) -> (r:
        Result<ChangeOutcome, Error>)
        requires
            old(self)@.wf(),
        ensures
            final(self)@.wf(),
            final(self)@ == change_spec(old(self)@, now, guild, channel, requester).0,
            r == change_spec(old(self)@, now, guild, channel, requester).1,
    {
        let ghost s0 = self@;
        let gi = match self.find_game(guild, channel) {
            Some(i) => i,
            None => {
                return Ok(ChangeOutcome::NoGame);
            },
        };
        proof {
            assert(game_idx(s0, guild, channel, gi as int));
            lemma_game_idx_unique(s0, guild, channel, gi as int);
        }
        let gid = self.games[gi].id;
        let k = match self.find_open_part(gid) {
            Some(k) => k,
            None => {
                return Err(Error::NoParticipant);
            },
        };
        proof {
            assert(open_idx(s0, gid, k as int));
            lemma_open_idx_unique(s0, gid, k as int);
        }
        if self.parts[k].player_id != requester {
            return Err(Error::NotYourTurn);
        }
        proof {
            lemma_update_part_wf(s0, k as int, clear_picture(s0.parts[k as int], now));
        }
        self.parts[k].picture_url = None;
        self.parts[k].updated_at = now;
        proof {
            assert(self@.parts =~= s0.parts.update(
                k as int,
                clear_picture(s0.parts[k as int], now),
            ));
            assert(self@ =~= change_spec(s0, now, guild, channel, requester).0);
        }
        Ok(ChangeOutcome::PictureCleared)
    }

    /// The picture to guess right now, if any. Read-only.
    pub fn current_picture(&self, guild: u64, channel: u64) -> (r: Result<PicOutcome, Error>)
        requires
            self@.wf(),
        ensures
            ({
                let s = self@;
                if !has_game(s, guild, channel) {
                    r == Ok::<PicOutcome, Error>(PicOutcome::NoGame)
                } else {
                    let gid = s.games[the_game_idx(s, guild, channel)].id;
                    if !has_open(s, gid) {
                        r == Err::<PicOutcome, Error>(Error::NoParticipant)
                    } else {
                        let p = s.parts[the_open_idx(s, gid)];
                        match p.picture_url {
                            Some(u) => r matches Ok(PicOutcome::Posted { player, url })
                                && player == p.player_id && url@ == u,
                            None => r == Ok::<PicOutcome, Error>(
                                PicOutcome::Awaiting { player: p.player_id },
                            ),
                        }
                    }
                }
            }),
    {
        let ghost s0 = self@;
        let gi = match self.find_game(guild, channel) {
            Some(i) => i,
            None => {
                return Ok(PicOutcome::NoGame);
            },
        };
        proof {
            assert(game_idx(s0, guild, channel, gi as int));
            lemma_game_idx_unique(s0, guild, channel, gi as int);
        }
        let gid = self.games[gi].id;
        let k = match self.find_open_part(gid) {
            Some(k) => k,
            None => {
                return Err(Error::NoParticipant);
            },
        };
        proof {
            assert(open_idx(s0, gid, k as int));
            lemma_open_idx_unique(s0, gid, k as int);
        }
        let player = self.parts[k].player_id;
        match &self.parts[k].picture_url {
            Some(u) => {
                let url = u.clone();
                Ok(PicOutcome::Posted { player, url })
            },
            None => Ok(PicOutcome::Awaiting { player }),
        }
    }
}

/// Hand-off correctness: a successful win immediately followed by a picture
/// post from the crowned winner, in the same channel, always succeeds, and
/// the game's open turn is then the winner's with that picture attached.
pub proof fn lemma_win_then_submit(
    s: StoreV,
    now: i64,
    now2: i64,
    guild: u64,
    channel: u64,
    requester: u64,
    winner: u64,
    winner_is_bot: bool,
    forced: bool,
    url: Seq<char>,
)
    requires
        s.wf(),
        s.next_id < u64::MAX - 1,
        win_spec(s, now, guild, channel, requester, winner, winner_is_bot, forced).1 matches Ok(
            WinOutcome::Won { .. },
        ),
    ensures
        ({
            let s2 = win_spec(s, now, guild, channel, requester, winner, winner_is_bot, forced).0;
            let u = submit_spec(s2, now2, guild, channel, winner, url);
            let gid = s.games[the_game_idx(s, guild, channel)].id;
            &&& u.1 == Ok::<SubmitOutcome, Error>(SubmitOutcome::PictureAttached)
            &&& has_open(u.0, gid)
            &&& u.0.parts[the_open_idx(u.0, gid)].player_id == winner
            &&& u.0.parts[the_open_idx(u.0, gid)].picture_url == Some(url)
        }),
{
    let gi = the_game_idx(s, guild, channel);
    let gid = s.games[gi].id;
    let k = the_open_idx(s, gid);
    let win_id = s.next_id;
    let part_id = (s.next_id + 1) as u64;
    let s1 = StoreV { parts: s.parts.update(k, mark_won(s.parts[k], now, win_id)), ..s };
    let w = new_win_v(win_id, now, requester, winner, 1);
    let s2 = StoreV { wins: s1.wins.push(w), next_id: (s1.next_id + 1) as u64, ..s1 };
    lemma_update_part_wf(s, k, mark_won(s.parts[k], now, win_id));
    lemma_push_win_wf(s1, w);
    assert forall|j: int| !open_idx(s2, gid, j) by {
        if open_idx(s2, gid, j) {
            assert(j != k);
            assert(open_idx(s, gid, j));
            lemma_open_idx_unique(s, gid, j);
        }
    }
    lemma_push_part_wf(s2, new_part_v(part_id, now, winner, None, gid));

    let sw = win_spec(s, now, guild, channel, requester, winner, winner_is_bot, forced).0;
    assert(sw =~= StoreV {
        parts: s2.parts.push(new_part_v(part_id, now, winner, None, gid)),
        next_id: (s2.next_id + 1) as u64,
        ..s2
    });
    assert(sw.wf());

    // The same channel still hosts the same game.
    let n = s.parts.len() as int;
    assert(game_idx(sw, guild, channel, gi));
    lemma_game_idx_unique(sw, guild, channel, gi);
    // The winner's fresh turn is the game's one open turn.
    assert(open_idx(sw, gid, n));
    lemma_open_idx_unique(sw, gid, n);
    assert(sw.parts[n].player_id == winner);
    assert(sw.parts[n].picture_url is None);

    let u = submit_spec(sw, now2, guild, channel, winner, url);
    assert(u.0.parts == sw.parts.update(n, attach_picture(sw.parts[n], url, now2)));
    assert(open_idx(u.0, gid, n));
    lemma_update_part_wf(sw, n, attach_picture(sw.parts[n], url, now2));
    assert(u.0.at_most_one_open());
    lemma_open_idx_unique(u.0, gid, n);
}

} // verus!
