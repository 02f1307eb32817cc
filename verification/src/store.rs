//! The game's state: the three tables held together, their well-formedness
//! invariant, and the lookups every operation starts from.
//!
//! The persistent engine behind the tables is an external
//! collaborator; the library owns the tables' content and the rules that
//! relate them. Every operation requires and re-establishes `wf`.

use vstd::prelude::*;

use crate::models::{Game, PartV, Participation, Win, part_open};

verus! {

/// The three tables plus the id counter that keeps row ids unique.
#[derive(Debug)]
pub struct Store {
    pub games: Vec<Game>,
    pub parts: Vec<Participation>,
    pub wins: Vec<Win>,
    pub next_id: u64,
}

/// Mathematical view of the store.
#[verifier::ext_equal]
pub struct StoreV {
    pub games: Seq<Game>,
    pub parts: Seq<PartV>,
    pub wins: Seq<Win>,
    pub next_id: u64,
}

impl View for Store {
    type V = StoreV;

    open spec fn view(&self) -> StoreV {
        StoreV {
            games: self.games@,
            parts: self.parts@.map_values(|p: Participation| p@),
            wins: self.wins@,
            next_id: self.next_id,
        }
    }
}

/// Row `i` of `s.games` hosts the game of this (guild, channel).
pub open spec fn game_idx(s: StoreV, guild: u64, channel: u64, i: int) -> bool {
    0 <= i < s.games.len() && s.games[i].guild_id == guild && s.games[i].channel_id == channel
}

/// Some game hosts this (guild, channel).
pub open spec fn has_game(s: StoreV, guild: u64, channel: u64) -> bool {
    exists|i: int| game_idx(s, guild, channel, i)
}

/// Under `wf` there is at most one such row; this is it.
pub open spec fn the_game_idx(s: StoreV, guild: u64, channel: u64) -> int {
    choose|i: int| game_idx(s, guild, channel, i)
}

/// Row `i` of `s.parts` is the open turn of game `game_id`.
pub open spec fn open_idx(s: StoreV, game_id: u64, i: int) -> bool {
    0 <= i < s.parts.len() && s.parts[i].game_id == game_id && part_open(s.parts[i])
}

/// Game `game_id` has an open turn.
pub open spec fn has_open(s: StoreV, game_id: u64) -> bool {
    exists|i: int| open_idx(s, game_id, i)
}

/// Under `wf` there is at most one open turn per game; this is it.
pub open spec fn the_open_idx(s: StoreV, game_id: u64) -> int {
    choose|i: int| open_idx(s, game_id, i)
}

impl StoreV {
    /// Every stored id was handed out by the counter.
    pub open spec fn ids_below_next(self) -> bool {
        &&& forall|i: int| 0 <= i < self.games.len() ==> (#[trigger] self.games[i]).id < self.next_id
        &&& forall|i: int| 0 <= i < self.parts.len() ==> (#[trigger] self.parts[i]).id < self.next_id
        &&& forall|i: int| 0 <= i < self.wins.len() ==> (#[trigger] self.wins[i]).id < self.next_id
    }

    /// Row ids are unique within each table.
    pub open spec fn ids_unique(self) -> bool {
        &&& forall|i: int, j: int|
            0 <= i < j < self.games.len() ==> (#[trigger] self.games[i]).id != (
            #[trigger] self.games[j]).id
        &&& forall|i: int, j: int|
            0 <= i < j < self.parts.len() ==> (#[trigger] self.parts[i]).id != (
            #[trigger] self.parts[j]).id
        &&& forall|i: int, j: int|
            0 <= i < j < self.wins.len() ==> (#[trigger] self.wins[i]).id != (
            #[trigger] self.wins[j]).id
    }

    /// At most one game per (guild, channel) pair.
    pub open spec fn one_game_per_channel(self) -> bool {
        forall|i: int, j: int|
            0 <= i < j < self.games.len() ==> !((#[trigger] self.games[i]).guild_id == (
            #[trigger] self.games[j]).guild_id && self.games[i].channel_id
                == self.games[j].channel_id)
    }

    /// At most one open turn per game, at any observed instant.
    pub open spec fn at_most_one_open(self) -> bool {
        forall|i: int, j: int|
            0 <= i < j < self.parts.len() && (#[trigger] self.parts[i]).game_id == (
            #[trigger] self.parts[j]).game_id ==> !(part_open(self.parts[i]) && part_open(
                self.parts[j],
            ))
    }

    /// A turn is terminal in exactly one way, carries the matching
    /// timestamp, and is linked to a ledger entry exactly when closed by a
    /// win or by the sweeper's penalty.
    pub open spec fn parts_flags_ok(self) -> bool {
        forall|i: int|
            0 <= i < self.parts.len() ==> {
                let p = #[trigger] self.parts[i];
                &&& !(p.is_win && p.is_skip)
                &&& p.is_win ==> p.won_at is Some && p.win_id is Some
                &&& p.is_skip ==> p.skipped_at is Some
                &&& part_open(p) ==> p.win_id is None
            }
    }

    /// The three reset fields of a ledger entry change together, and each
    /// resolved turn contributes exactly one point either way.
    pub open spec fn wins_flags_ok(self) -> bool {
        forall|i: int|
            0 <= i < self.wins.len() ==> {
                let w = #[trigger] self.wins[i];
                &&& w.reset <==> w.reset_at is Some
                &&& w.reset <==> w.reset_id is Some
                &&& (w.score == 1 || w.score == -1)
            }
    }

    /// Well-formedness of the whole store.
    pub open spec fn wf(self) -> bool {
        &&& self.ids_below_next()
        &&& self.ids_unique()
        &&& self.one_game_per_channel()
        &&& self.at_most_one_open()
        &&& self.parts_flags_ok()
        &&& self.wins_flags_ok()
    }
}

impl Store {
    /// An empty store; the id counter may start anywhere.
    pub fn new() -> (r: Store)
        ensures
            r@.wf(),
            r@.games == Seq::<Game>::empty(),
            r@.parts == Seq::<PartV>::empty(),
            r@.wins == Seq::<Win>::empty(),
    {
        let r = Store { games: Vec::new(), parts: Vec::new(), wins: Vec::new(), next_id: 0 };
        proof {
            assert(r@.parts =~= Seq::<PartV>::empty());
        }
        r
    }

    /// Index of the game hosted by this (guild, channel), if any.
    pub fn find_game(&self, guild: u64, channel: u64) -> (r: Option<usize>)
        ensures
            match r {
                Some(i) => game_idx(self@, guild, channel, i as int),
                None => !has_game(self@, guild, channel),
            },
    {
        let n = self.games.len();
        let mut i: usize = 0;
        while i < n
            invariant
                n == self.games.len(),
                i <= n,
                forall|j: int| 0 <= j < i ==> !game_idx(self@, guild, channel, j),
            decreases n - i,
        {
            if self.games[i].guild_id == guild && self.games[i].channel_id == channel {
                return Some(i);
            }
            i = i + 1;
        }
        None
    }

    /// Index of the open turn of game `game_id`, if any.
    pub fn find_open_part(&self, game_id: u64) -> (r: Option<usize>)
        ensures
            match r {
                Some(i) => open_idx(self@, game_id, i as int),
                None => !has_open(self@, game_id),
            },
    {
        let n = self.parts.len();
        let mut i: usize = 0;
        while i < n
            invariant
                n == self.parts.len(),
                i <= n,
                forall|j: int| 0 <= j < i ==> !open_idx(self@, game_id, j),
            decreases n - i,
        {
            if self.parts[i].game_id == game_id && !self.parts[i].is_win && !self.parts[i].is_skip {
                return Some(i);
            }
            i = i + 1;
        }
        None
    }

    /// The game row with this id, if any.
    pub fn find_game_by_id(&self, game_id: u64) -> (r: Option<Game>)
        ensures
            match r {
                Some(g) => exists|i: int|
                    0 <= i < self@.games.len() && #[trigger] self@.games[i] == g && g.id == game_id,
                None => forall|i: int|
                    0 <= i < self@.games.len() ==> (#[trigger] self@.games[i]).id != game_id,
            },
    {
        let n = self.games.len();
        let mut i: usize = 0;
        while i < n
            invariant
                n == self.games.len(),
                i <= n,
                forall|j: int| 0 <= j < i ==> (#[trigger] self@.games[j]).id != game_id,
            decreases n - i,
        {
            if self.games[i].id == game_id {
                let g = self.games[i];
                proof {
                    assert(0 <= i < self@.games.len() && self@.games[i as int] == g && g.id
                        == game_id);
                }
                return Some(g);
            }
            i = i + 1;
        }
        None
    }
}

impl Game {
    /// The game hosted by this (guild, channel), if any.
    pub fn get(s: &Store, guild: u64, channel: u64) -> (r: Option<Game>)
        requires
            s@.wf(),
        ensures
            match r {
                Some(g) => has_game(s@, guild, channel) && g == s@.games[the_game_idx(
                    s@,
                    guild,
                    channel,
                )],
                None => !has_game(s@, guild, channel),
            },
    {
        match s.find_game(guild, channel) {
            Some(i) => {
                proof {
                    assert(game_idx(s@, guild, channel, i as int));
                    lemma_game_idx_unique(s@, guild, channel, i as int);
                }
                Some(s.games[i])
            },
            None => None,
        }
    }

    /// The game hosted by this (guild, channel) together with its open
    /// turn, if they exist.
    pub fn get_with_part(s: &Store, guild: u64, channel: u64) -> (r: Option<
        (Game, Option<Participation>),
    >)
        requires
            s@.wf(),
        ensures
            match r {
                Some((g, p)) => {
                    &&& has_game(s@, guild, channel)
                    &&& g == s@.games[the_game_idx(s@, guild, channel)]
                    &&& match p {
                        Some(part) => has_open(s@, g.id) && part@ == s@.parts[the_open_idx(
                            s@,
                            g.id,
                        )],
                        None => !has_open(s@, g.id),
                    }
                },
                None => !has_game(s@, guild, channel),
            },
    {
        match Game::get(s, guild, channel) {
            Some(g) => {
                let p = Participation::get_current(s, g.id);
                Some((g, p))
            },
            None => None,
        }
    }
}

impl Participation {
    /// The open turn of this game, if any: the one row that is neither won
    /// nor skipped.
    pub fn get_current(s: &Store, game_id: u64) -> (r: Option<Participation>)
        requires
            s@.wf(),
        ensures
            match r {
                Some(p) => has_open(s@, game_id) && p@ == s@.parts[the_open_idx(s@, game_id)],
                None => !has_open(s@, game_id),
            },
    {
        match s.find_open_part(game_id) {
            Some(k) => {
                proof {
                    assert(open_idx(s@, game_id, k as int));
                    lemma_open_idx_unique(s@, game_id, k as int);
                }
                let row = &s.parts[k];
                let picture_url = match &row.picture_url {
                    Some(u) => Some(u.clone()),
                    None => None,
                };
                Some(
                    Participation {
                        id: row.id,
                        created_at: row.created_at,
                        player_id: row.player_id,
                        is_win: row.is_win,
                        won_at: row.won_at,
                        win_id: row.win_id,
                        is_skip: row.is_skip,
                        skipped_at: row.skipped_at,
                        picture_url,
                        game_id: row.game_id,
                        warned_at: row.warned_at,
                        updated_at: row.updated_at,
                    },
                )
            },
            None => None,
        }
    }
}

/// Replacing a turn row in place preserves well-formedness, as long as the
/// row keeps its identity, keeps its flags coherent, and does not become
/// open.
pub proof fn lemma_update_part_wf(s: StoreV, k: int, p2: PartV)
    requires
        s.wf(),
        0 <= k < s.parts.len(),
        p2.id == s.parts[k].id,
        p2.game_id == s.parts[k].game_id,
        !(p2.is_win && p2.is_skip),
        p2.is_win ==> p2.won_at is Some && p2.win_id is Some,
        p2.is_skip ==> p2.skipped_at is Some,
        part_open(p2) ==> p2.win_id is None,
        part_open(p2) ==> part_open(s.parts[k]),
    ensures
        (StoreV { parts: s.parts.update(k, p2), ..s }).wf(),
{
    let s2 = StoreV { parts: s.parts.update(k, p2), ..s };
    assert forall|i: int, j: int|
        0 <= i < j < s2.parts.len() && (#[trigger] s2.parts[i]).game_id == (
        #[trigger] s2.parts[j]).game_id implies !(part_open(s2.parts[i]) && part_open(
        s2.parts[j],
    )) by {
        assert(s.parts[i].game_id == s2.parts[i].game_id || i == k);
        assert(part_open(s2.parts[i]) ==> part_open(s.parts[i]));
        assert(part_open(s2.parts[j]) ==> part_open(s.parts[j]));
    }
}

/// Appending a turn row preserves well-formedness, as long as it takes the
/// next id, keeps its flags coherent, and is open only where its game has no
/// open turn yet.
pub proof fn lemma_push_part_wf(s: StoreV, p: PartV)
    requires
        s.wf(),
        s.next_id < u64::MAX,
        p.id == s.next_id,
        !(p.is_win && p.is_skip),
        p.is_win ==> p.won_at is Some && p.win_id is Some,
        p.is_skip ==> p.skipped_at is Some,
        part_open(p) ==> p.win_id is None,
        part_open(p) ==> !has_open(s, p.game_id),
    ensures
        (StoreV { parts: s.parts.push(p), next_id: (s.next_id + 1) as u64, ..s }).wf(),
{
    let s2 = StoreV { parts: s.parts.push(p), next_id: (s.next_id + 1) as u64, ..s };
    assert forall|i: int, j: int|
        0 <= i < j < s2.parts.len() && (#[trigger] s2.parts[i]).game_id == (
        #[trigger] s2.parts[j]).game_id implies !(part_open(s2.parts[i]) && part_open(
        s2.parts[j],
    )) by {
        if j == s.parts.len() {
            if part_open(s2.parts[i]) && part_open(s2.parts[j]) {
                assert(open_idx(s, p.game_id, i));
            }
        }
    }
}

/// Appending a fresh, non-reset ledger entry preserves well-formedness.
pub proof fn lemma_push_win_wf(s: StoreV, w: Win)
    requires
        s.wf(),
        s.next_id < u64::MAX,
        w.id == s.next_id,
        !w.reset,
        w.reset_at is None,
        w.reset_id is None,
        w.score == 1 || w.score == -1,
    ensures
        (StoreV { wins: s.wins.push(w), next_id: (s.next_id + 1) as u64, ..s }).wf(),
{
}

/// Appending a game row preserves well-formedness, as long as its channel is
/// not yet hosting a game.
pub proof fn lemma_push_game_wf(s: StoreV, g: Game)
    requires
        s.wf(),
        s.next_id < u64::MAX,
        g.id == s.next_id,
        !has_game(s, g.guild_id, g.channel_id),
    ensures
        (StoreV { games: s.games.push(g), next_id: (s.next_id + 1) as u64, ..s }).wf(),
{
    let s2 = StoreV { games: s.games.push(g), next_id: (s.next_id + 1) as u64, ..s };
    assert forall|i: int, j: int|
        0 <= i < j < s2.games.len() implies !((#[trigger] s2.games[i]).guild_id == (
        #[trigger] s2.games[j]).guild_id && s2.games[i].channel_id == s2.games[j].channel_id) by {
        if j == s.games.len() {
            if s2.games[i].guild_id == g.guild_id && s2.games[i].channel_id == g.channel_id {
                assert(game_idx(s, g.guild_id, g.channel_id, i));
            }
        }
    }
}

/// Under `wf`, any row hosting (guild, channel) is `the_game_idx`.
pub proof fn lemma_game_idx_unique(s: StoreV, guild: u64, channel: u64, i: int)
    requires
        s.one_game_per_channel(),
        game_idx(s, guild, channel, i),
    ensures
        i == the_game_idx(s, guild, channel),
{
    let j = the_game_idx(s, guild, channel);
    assert(game_idx(s, guild, channel, j));
    if i != j {
        if i < j {
            assert(!(s.games[i].guild_id == s.games[j].guild_id && s.games[i].channel_id
                == s.games[j].channel_id));
        } else {
            assert(!(s.games[j].guild_id == s.games[i].guild_id && s.games[j].channel_id
                == s.games[i].channel_id));
        }
    }
}

/// At most one turn of a game is open at any observed instant: in a
/// well-formed store, any two open turns of one game are the same row.
/// Every operation of the library requires and re-establishes `wf`, so this
/// holds between any two of them.
pub proof fn lemma_at_most_one_open(s: StoreV, game_id: u64, i: int, j: int)
    requires
        s.wf(),
        open_idx(s, game_id, i),
        open_idx(s, game_id, j),
    ensures
        i == j,
{
    lemma_open_idx_unique(s, game_id, i);
    lemma_open_idx_unique(s, game_id, j);
}

/// Under `wf`, any open turn of a game is `the_open_idx`.
pub proof fn lemma_open_idx_unique(s: StoreV, game_id: u64, i: int)
    requires
        s.at_most_one_open(),
        open_idx(s, game_id, i),
    ensures
        i == the_open_idx(s, game_id),
{
    let j = the_open_idx(s, game_id);
    assert(open_idx(s, game_id, j));
}

} // verus!
