//! The win/reset ledger: bulk-hiding a game's ledger entries under a fresh
//! reset group, listing the groups, and cancelling a group as a unit.
//!
//! Hiding is soft: entries stay in the ledger and only leave the scoreboard
//! until their group is cancelled. The three reset fields of an entry always
//! change together.

use vstd::prelude::*;

use crate::error::Error;
use crate::ids::{format_reset_id, fresh_reset_id, parse_reset_id, uuid_of, uuid_str_of};
use crate::models::{clear_reset, mark_reset, mark_skip, PartV, Win};
use crate::store::{
    game_idx, has_game, has_open, lemma_game_idx_unique, lemma_open_idx_unique,
    lemma_update_part_wf, open_idx, the_game_idx, the_open_idx, Store, StoreV,
};

verus! {

/// One of the game's resolved turns references this ledger entry.
pub open spec fn part_refs_win(parts: Seq<PartV>, gid: u64, wid: u64) -> bool {
    exists|i: int|
        0 <= i < parts.len() && (#[trigger] parts[i]).game_id == gid && parts[i].win_id == Some(
            wid,
        )
}

/// Reset "do" hides this entry: referenced by the game and not hidden yet.
pub open spec fn do_marks(s: StoreV, gid: u64, w: Win) -> bool {
    !w.reset && part_refs_win(s.parts, gid, w.id)
}

/// Some ledger entry already carries this reset-group identifier.
pub open spec fn reset_id_used(s: StoreV, group: u128) -> bool {
    exists|i: int| 0 <= i < s.wins.len() && (#[trigger] s.wins[i]).reset_id == Some(group)
}

/// Cancelling this group restores this entry.
pub open spec fn cancel_hits(w: Win, group: u128) -> bool {
    w.reset && w.reset_id == Some(group)
}

/// Some ledger entry is hidden under this group.
pub open spec fn group_reset(s: StoreV, group: u128) -> bool {
    exists|i: int| 0 <= i < s.wins.len() && cancel_hits(#[trigger] s.wins[i], group)
}

/// Transition of reset "do": hide the game's visible ledger entries under
/// the group, and close the game's open turn, ending the round cleanly.
pub open spec fn apply_reset_do(s: StoreV, gid: u64, now: i64, group: u128) -> StoreV {
    let wins = s.wins.map_values(
        |w: Win|
            if do_marks(s, gid, w) {
                mark_reset(w, now, group)
            } else {
                w
            },
    );
    let parts = if has_open(s, gid) {
        s.parts.update(the_open_idx(s, gid), mark_skip(s.parts[the_open_idx(s, gid)], now))
    } else {
        s.parts
    };
    StoreV { parts, wins, ..s }
}

/// Transition of reset "cancel": restore every entry of the group, the
/// three reset fields clearing together.
pub open spec fn apply_cancel(s: StoreV, group: u128) -> StoreV {
    StoreV {
        wins: s.wins.map_values(
            |w: Win|
                if cancel_hits(w, group) {
                    clear_reset(w)
                } else {
                    w
                },
        ),
        ..s
    }
}

/// Reset "do" preserves well-formedness.
pub proof fn lemma_apply_reset_do_wf(s: StoreV, gid: u64, now: i64, group: u128)
    requires
        s.wf(),
    ensures
        apply_reset_do(s, gid, now, group).wf(),
{
    let s2 = apply_reset_do(s, gid, now, group);
    let sp = StoreV { parts: s2.parts, ..s };
    if has_open(s, gid) {
        let k = the_open_idx(s, gid);
        lemma_update_part_wf(s, k, mark_skip(s.parts[k], now));
    }
    assert(sp.wf());
    assert forall|i: int| 0 <= i < s2.wins.len() implies (#[trigger] s2.wins[i]).id
        == s.wins[i].id by {}
    assert(s2.ids_below_next());
    assert(s2.ids_unique());
    assert(s2.wins_flags_ok());
}

/// Reset "cancel" preserves well-formedness.
pub proof fn lemma_apply_cancel_wf(s: StoreV, group: u128)
    requires
        s.wf(),
    ensures
        apply_cancel(s, group).wf(),
{
    let s2 = apply_cancel(s, group);
    assert forall|i: int| 0 <= i < s2.wins.len() implies (#[trigger] s2.wins[i]).id
        == s.wins[i].id by {}
    assert(s2.ids_below_next());
    assert(s2.ids_unique());
    assert(s2.wins_flags_ok());
}

/// Cancelling the very group a reset "do" just created gives back the
/// ledger exactly: every entry it hid is restored to its old value and no
/// other entry ever moved. The turn the "do" closed stays closed, which no
/// ledger reading sees.
pub proof fn lemma_reset_roundtrip(s: StoreV, gid: u64, now: i64, group: u128)
    requires
        s.wf(),
        !reset_id_used(s, group),
    ensures
        apply_cancel(apply_reset_do(s, gid, now, group), group).wins == s.wins,
        apply_cancel(apply_reset_do(s, gid, now, group), group).games == s.games,
        ({
            let parts3 = apply_cancel(apply_reset_do(s, gid, now, group), group).parts;
            &&& parts3.len() == s.parts.len()
            &&& forall|i: int|
                0 <= i < s.parts.len() ==> (#[trigger] parts3[i]).game_id == s.parts[i].game_id
                    && parts3[i].win_id == s.parts[i].win_id
        }),
{
    let s2 = apply_reset_do(s, gid, now, group);
    let s3 = apply_cancel(s2, group);
    assert forall|i: int| 0 <= i < s.wins.len() implies #[trigger] s3.wins[i] == s.wins[i] by {
        let w = s.wins[i];
        if do_marks(s, gid, w) {
            assert(s2.wins[i] == mark_reset(w, now, group));
            assert(cancel_hits(s2.wins[i], group));
            assert(w.reset_at is None && w.reset_id is None);
        } else {
            assert(s2.wins[i] == w);
            assert(w.reset_id != Some(group));
            assert(!cancel_hits(s2.wins[i], group));
        }
    }
    assert(s3.wins =~= s.wins);
}

/// How a reset command was phrased.
#[derive(Debug, Clone, PartialEq)]
pub enum ResetRequest {
    /// Bare invocation: only a confirmation prompt is owed.
    Prompt,
    /// Confirmed: hide the game's scores under a fresh group.
    Do,
    /// Show the game's reset groups.
    List,
    /// Restore the group this text names.
    Cancel(String),
    /// Anything else.
    Unknown,
}

/// What a reset command did.
#[derive(Debug, Clone, PartialEq)]
pub enum ResetOutcome {
    /// No game runs in this channel.
    NoGame,
    /// Nothing was touched; the caller is asked to confirm.
    Prompt,
    /// The game's scores were hidden under this fresh group.
    Did { group: u128, group_text: String },
    /// The game's reset groups, oldest first.
    Listed(Vec<ResetListEntry>),
    /// The group was restored.
    Cancelled { group: u128 },
}

/// One reset group of a game: its identifier, the identifier's text, and
/// the latest hiding time among its entries.
#[derive(Debug, Clone, PartialEq)]
pub struct ResetListEntry {
    pub group: u128,
    pub group_text: String,
    pub at: i64,
}

/// Entry `w` shows up in the game's reset list.
pub open spec fn listed_in(s: StoreV, gid: u64, w: Win) -> bool {
    w.reset && part_refs_win(s.parts, gid, w.id)
}

/// Group `group` shows up in the game's reset list, looking only at ledger
/// entries before `upto`.
pub open spec fn group_listed_upto(s: StoreV, gid: u64, group: u128, upto: int) -> bool {
    exists|i: int|
        0 <= i < upto <= s.wins.len() && listed_in(s, gid, #[trigger] s.wins[i])
            && s.wins[i].reset_id == Some(group)
}

/// Group `group` shows up in the game's reset list.
pub open spec fn group_listed(s: StoreV, gid: u64, group: u128) -> bool {
    group_listed_upto(s, gid, group, s.wins.len() as int)
}

/// The latest hiding time of the group among the game's ledger entries
/// before `upto`; meaningful only where the group is listed.
pub open spec fn group_max_at_upto(s: StoreV, gid: u64, group: u128, upto: int) -> int
    decreases upto,
{
    if upto <= 0 {
        i64::MIN as int
    } else {
        let rest = group_max_at_upto(s, gid, group, upto - 1);
        let w = s.wins[upto - 1];
        if listed_in(s, gid, w) && w.reset_id == Some(group) {
            let a = match w.reset_at {
                Some(t) => t as int,
                None => i64::MIN as int,
            };
            if rest >= a {
                rest
            } else {
                a
            }
        } else {
            rest
        }
    }
}

/// The latest hiding time of the group among the game's ledger entries.
pub open spec fn group_max_at(s: StoreV, gid: u64, group: u128) -> int {
    group_max_at_upto(s, gid, group, s.wins.len() as int)
}

/// The list is ordered by hiding time, group identifier breaking ties.
pub open spec fn entry_lt(a: ResetListEntry, b: ResetListEntry) -> bool {
    a.at < b.at || (a.at == b.at && a.group < b.group)
}

/// An exact description of the game's reset list: strictly ordered, sound,
/// with the right times and texts, and complete.
pub open spec fn list_post(s: StoreV, gid: u64, es: Seq<ResetListEntry>) -> bool {
    &&& forall|i: int, j: int|
        0 <= i < j < es.len() ==> entry_lt(#[trigger] es[i], #[trigger] es[j])
    &&& forall|i: int|
        0 <= i < es.len() ==> group_listed(s, gid, (#[trigger] es[i]).group) && es[i].at as int
            == group_max_at(s, gid, es[i].group)
    &&& forall|i: int|
        0 <= i < es.len() ==> (#[trigger] es[i]).group_text@ == uuid_str_of(es[i].group) && uuid_of(
            es[i].group_text@,
        ) == Some(es[i].group)
    &&& forall|g: u128|
        #[trigger] group_listed(s, gid, g) ==> exists|i: int|
            0 <= i < es.len() && (#[trigger] es[i]).group == g
}

impl Store {
    /// Whether some ledger entry already carries this group identifier.
    fn group_in_use(&self, group: u128) -> (r: bool)
        ensures
            r == reset_id_used(self@, group),
    {
        let n = self.wins.len();
        let mut i: usize = 0;
        while i < n
            invariant
                n == self.wins.len(),
                i <= n,
                forall|j: int| 0 <= j < i ==> (#[trigger] self@.wins[j]).reset_id != Some(group),
            decreases n - i,
        {
            match self.wins[i].reset_id {
                Some(g) => {
                    if g == group {
                        return true;
                    }
                },
                None => {},
            }
            i = i + 1;
        }
        false
    }

    /// Whether some ledger entry is hidden under this group.
    fn group_is_reset(&self, group: u128) -> (r: bool)
        ensures
            r == group_reset(self@, group),
    {
        let n = self.wins.len();
        let mut i: usize = 0;
        while i < n
            invariant
                n == self.wins.len(),
                i <= n,
                forall|j: int| 0 <= j < i ==> !cancel_hits(#[trigger] self@.wins[j], group),
            decreases n - i,
        {
            let hit = match self.wins[i].reset_id {
                Some(g) => self.wins[i].reset && g == group,
                None => false,
            };
            if hit {
                return true;
            }
            i = i + 1;
        }
        false
    }

    /// Whether one of the game's resolved turns references this entry.
    pub(crate) fn part_refs(&self, gid: u64, wid: u64) -> (r: bool)
        ensures
            r == part_refs_win(self@.parts, gid, wid),
    {
        let n = self.parts.len();
        let mut i: usize = 0;
        while i < n
            invariant
                n == self.parts.len(),
                i <= n,
                forall|j: int|
                    0 <= j < i ==> !((#[trigger] self@.parts[j]).game_id == gid
                        && self@.parts[j].win_id == Some(wid)),
            decreases n - i,
        {
            let refs = match self.parts[i].win_id {
                Some(w) => self.parts[i].game_id == gid && w == wid,
                None => false,
            };
            if refs {
                proof {
                    assert(0 <= i < self@.parts.len() && self@.parts[i as int].game_id == gid
                        && self@.parts[i as int].win_id == Some(wid));
                }
                return true;
            }
            i = i + 1;
        }
        false
    }

    /// Hide the game's visible ledger entries under the group and close the
    /// game's open turn.
    fn do_reset(&mut self, gid: u64, now: i64, group: u128)
        requires
            old(self)@.wf(),
        ensures
            final(self)@.wf(),
            final(self)@ == apply_reset_do(old(self)@, gid, now, group),
    {
        let ghost s0 = self@;
        let n = self.wins.len();
        let mut i: usize = 0;
        while i < n
            invariant
                s0.wf(),
                n == self.wins.len(),
                i <= n,
                self@.games == s0.games,
                self@.parts == s0.parts,
                self@.next_id == s0.next_id,
                forall|j: int|
                    0 <= j < i ==> self@.wins[j] == (if do_marks(s0, gid, s0.wins[j]) {
                        mark_reset(s0.wins[j], now, group)
                    } else {
                        s0.wins[j]
                    }),
                forall|j: int| i <= j < n ==> self@.wins[j] == s0.wins[j],
            decreases n - i,
        {
            let ghost w0 = s0.wins[i as int];
            let wid = self.wins[i].id;
            if !self.wins[i].reset && self.part_refs(gid, wid) {
                self.wins[i].reset = true;
                self.wins[i].reset_at = Some(now);
                self.wins[i].reset_id = Some(group);
                proof {
                    assert(do_marks(s0, gid, w0));
                    assert(self@.wins[i as int] == mark_reset(w0, now, group));
                }
            } else {
                proof {
                    assert(!do_marks(s0, gid, w0));
                }
            }
            i = i + 1;
        }
        proof {
            assert(self@.wins =~= s0.wins.map_values(
                |w: Win|
                    if do_marks(s0, gid, w) {
                        mark_reset(w, now, group)
                    } else {
                        w
                    },
            ));
        }
        // End the round cleanly: the open turn, if any, is skipped.
        match self.find_open_part(gid) {
            Some(k) => {
                proof {
                    assert(open_idx(self@, gid, k as int));
                    assert(open_idx(s0, gid, k as int));
                    lemma_open_idx_unique(s0, gid, k as int);
                }
                self.parts[k].is_skip = true;
                self.parts[k].skipped_at = Some(now);
                proof {
                    assert(self@.parts =~= s0.parts.update(
                        k as int,
                        mark_skip(s0.parts[k as int], now),
                    ));
                }
            },
            None => {
                proof {
                    assert forall|j: int| !open_idx(s0, gid, j) by {
                        if open_idx(s0, gid, j) {
                            assert(open_idx(self@, gid, j));
                            assert(has_open(self@, gid));
                        }
                    }
                    assert(!has_open(s0, gid));
                }
            },
        }
        proof {
            assert(self@ =~= apply_reset_do(s0, gid, now, group));
            lemma_apply_reset_do_wf(s0, gid, now, group);
        }
    }

    /// Restore every ledger entry of the group.
    fn do_cancel(&mut self, group: u128)
        requires
            old(self)@.wf(),
        ensures
            final(self)@.wf(),
            final(self)@ == apply_cancel(old(self)@, group),
    {
        let ghost s0 = self@;
        let n = self.wins.len();
        let mut i: usize = 0;
        while i < n
            invariant
                n == self.wins.len(),
                i <= n,
                self@.games == s0.games,
                self@.parts == s0.parts,
                self@.next_id == s0.next_id,
                forall|j: int|
                    0 <= j < i ==> self@.wins[j] == (if cancel_hits(s0.wins[j], group) {
                        clear_reset(s0.wins[j])
                    } else {
                        s0.wins[j]
                    }),
                forall|j: int| i <= j < n ==> self@.wins[j] == s0.wins[j],
            decreases n - i,
        {
            let ghost w0 = s0.wins[i as int];
            let hit = match self.wins[i].reset_id {
                Some(g) => self.wins[i].reset && g == group,
                None => false,
            };
            if hit {
                self.wins[i].reset = false;
                self.wins[i].reset_at = None;
                self.wins[i].reset_id = None;
                proof {
                    assert(cancel_hits(w0, group));
                    assert(self@.wins[i as int] == clear_reset(w0));
                }
            } else {
                proof {
                    assert(!cancel_hits(w0, group));
                }
            }
            i = i + 1;
        }
        proof {
            assert(self@.wins =~= s0.wins.map_values(
                |w: Win|
                    if cancel_hits(w, group) {
                        clear_reset(w)
                    } else {
                        w
                    },
            ));
            assert(self@ =~= apply_cancel(s0, group));
            lemma_apply_cancel_wf(s0, group);
        }
    }

    /// Handle a reset command in this channel.
    ///
    /// A bare invocation only prompts for confirmation. "do" hides the
    /// game's scores under a fresh group and ends the round; "list" shows
    /// the game's groups, oldest first; "cancel" restores the named group;
    /// anything else is refused. A fresh group identifier is drawn at
    /// random; should a handful of draws all collide, the failure surfaces
    /// as an internal error with nothing touched.
    pub fn reset(&mut self, now: i64, guild: u64, channel: u64, req: ResetRequest) -> (r: Result<
        ResetOutcome,
        Error,
    >)
        requires
            old(self)@.wf(),
        ensures
            final(self)@.wf(),
            ({
                let s = old(self)@;
                if !has_game(s, guild, channel) {
                    r == Ok::<ResetOutcome, Error>(ResetOutcome::NoGame) && final(self)@ == s
                } else {
                    let gid = s.games[the_game_idx(s, guild, channel)].id;
                    match req {
                        ResetRequest::Prompt => r == Ok::<ResetOutcome, Error>(ResetOutcome::Prompt)
                            && final(self)@ == s,
                        ResetRequest::Do => match r {
                            Ok(ResetOutcome::Did { group, group_text }) => {
                                &&& !reset_id_used(s, group)
                                &&& final(self)@ == apply_reset_do(s, gid, now, group)
                                &&& group_text@ == uuid_str_of(group)
                                &&& uuid_of(group_text@) == Some(group)
                            },
                            Err(Error::Internal) => final(self)@ == s,
                            _ => false,
                        },
                        ResetRequest::List => match r {
                            Ok(ResetOutcome::Listed(es)) => final(self)@ == s && list_post(
                                s,
                                gid,
                                es@,
                            ),
                            _ => false,
                        },
                        ResetRequest::Cancel(text) => match uuid_of(text@) {
                            None => r == Err::<ResetOutcome, Error>(Error::InvalidResetId)
                                && final(self)@ == s,
                            Some(group) => if !group_reset(s, group) {
                                r == Err::<ResetOutcome, Error>(Error::InvalidResetId)
                                    && final(self)@ == s
                            } else {
                                r == Ok::<ResetOutcome, Error>(ResetOutcome::Cancelled { group })
                                    && final(self)@ == apply_cancel(s, group)
                            },
                        },
                        ResetRequest::Unknown => r == Err::<ResetOutcome, Error>(
                            Error::UnknownArguments,
                        ) && final(self)@ == s,
                    }
                }
            }),
    {
        let ghost s0 = self@;
        let gi = match self.find_game(guild, channel) {
            Some(i) => i,
            None => {
                return Ok(ResetOutcome::NoGame);
            },
        };
        proof {
            assert(game_idx(s0, guild, channel, gi as int));
            lemma_game_idx_unique(s0, guild, channel, gi as int);
        }
        let gid = self.games[gi].id;
        match req {
            ResetRequest::Prompt => Ok(ResetOutcome::Prompt),
            ResetRequest::Do => {
                // Draw a fresh group identifier; collisions are all but
                // impossible, and a persistent one is an internal fault.
                let mut group = fresh_reset_id();
                if self.group_in_use(group) {
                    group = fresh_reset_id();
                    if self.group_in_use(group) {
                        group = fresh_reset_id();
                        if self.group_in_use(group) {
                            return Err(Error::Internal);
                        }
                    }
                }
                self.do_reset(gid, now, group);
                let group_text = format_reset_id(group);
                Ok(ResetOutcome::Did { group, group_text })
            },
            ResetRequest::List => {
                let es = self.reset_list(gid);
                Ok(ResetOutcome::Listed(es))
            },
            ResetRequest::Cancel(text) => {
                let group = match parse_reset_id(text.as_str()) {
                    Some(g) => g,
                    None => {
                        return Err(Error::InvalidResetId);
                    },
                };
                if !self.group_is_reset(group) {
                    return Err(Error::InvalidResetId);
                }
                self.do_cancel(group);
                Ok(ResetOutcome::Cancelled { group })
            },
            ResetRequest::Unknown => Err(Error::UnknownArguments),
        }
    }

    /// The game's reset groups, oldest first, each with the latest hiding
    /// time among its ledger entries.
    #[verifier::rlimit(50)]
    fn reset_list(&self, gid: u64) -> (r: Vec<ResetListEntry>)
        requires
            self@.wf(),
        ensures
            list_post(self@, gid, r@),
    {
        let ghost s = self@;
        let n = self.wins.len();
        // Gather each group with the latest hiding time seen so far.
        let mut acc: Vec<(u128, i64)> = Vec::new();
        let mut i: usize = 0;
        while i < n
            invariant
                s == self@,
                s.wf(),
                n == self.wins.len(),
                i <= n,
                forall|k: int, l: int|
                    0 <= k < l < acc@.len() ==> (#[trigger] acc@[k]).0 != (#[trigger] acc@[l]).0,
                forall|k: int|
                    0 <= k < acc@.len() ==> group_listed_upto(
                        s,
                        gid,
                        (#[trigger] acc@[k]).0,
                        i as int,
                    ) && acc@[k].1 as int == group_max_at_upto(s, gid, acc@[k].0, i as int),
                forall|g: u128|
                    #[trigger] group_listed_upto(s, gid, g, i as int) ==> exists|k: int|
                        0 <= k < acc@.len() && (#[trigger] acc@[k]).0 == g,
            decreases n - i,
        {
            let ghost acc0 = acc@;
            let ghost wi = i as int;
            let w_reset = self.wins[i].reset;
            let wid = self.wins[i].id;
            if w_reset && self.part_refs(gid, wid) {
                let g = match self.wins[i].reset_id {
                    Some(g) => g,
                    None => {
                        // Well-formedness: a hidden entry always carries its group.
                        proof {
                            assert(false);
                        }
                        0
                    },
                };
                let at = match self.wins[i].reset_at {
                    Some(t) => t,
                    None => {
                        proof {
                            assert(false);
                        }
                        0
                    },
                };
                proof {
                    assert(listed_in(s, gid, s.wins[wi]));
                    assert(group_listed_upto(s, gid, g, wi + 1));
                }
                match find_group(&acc, g) {
                    Some(k) => {
                        let cur = acc[k].1;
                        if at > cur {
                            acc[k] = (g, at);
                        }
                        proof {
                            assert(group_listed_upto(s, gid, g, wi));
                            assert(acc@[k as int].0 == g);
                            assert(exists|k2: int|
                                0 <= k2 < acc@.len() && (#[trigger] acc@[k2]).0 == g);
                        }
                    },
                    None => {
                        proof {
                            if group_listed_upto(s, gid, g, wi) {
                                let k2 = choose|k2: int|
                                    0 <= k2 < acc0.len() && (#[trigger] acc0[k2]).0 == g;
                                assert(false);
                            }
                            lemma_unlisted_min(s, gid, g, wi);
                        }
                        acc.push((g, at));
                        proof {
                            assert(acc@[acc@.len() - 1].0 == g);
                            assert(exists|k2: int|
                                0 <= k2 < acc@.len() && (#[trigger] acc@[k2]).0 == g);
                        }
                    },
                }
                proof {
                    assert forall|k2: int|
                        0 <= k2 < acc@.len() implies group_listed_upto(
                        s,
                        gid,
                        (#[trigger] acc@[k2]).0,
                        wi + 1,
                    ) && acc@[k2].1 as int == group_max_at_upto(s, gid, acc@[k2].0, wi + 1) by {
                        if acc@[k2].0 == g {
                            assert(acc@[k2].1 as int == group_max_at_upto(s, gid, g, wi + 1));
                        } else {
                            assert(acc@[k2] == acc0[k2]);
                            assert(group_max_at_upto(s, gid, acc@[k2].0, wi + 1)
                                == group_max_at_upto(s, gid, acc@[k2].0, wi));
                        }
                    }
                    assert forall|g2: u128|
                        #[trigger] group_listed_upto(s, gid, g2, wi + 1) implies exists|k2: int|
                        0 <= k2 < acc@.len() && (#[trigger] acc@[k2]).0 == g2 by {
                        if g2 != g {
                            let j = choose|j: int|
                                0 <= j < wi + 1 && listed_in(s, gid, #[trigger] s.wins[j])
                                    && s.wins[j].reset_id == Some(g2);
                            assert(j < wi);
                            assert(group_listed_upto(s, gid, g2, wi));
                            let k2 = choose|k2: int|
                                0 <= k2 < acc0.len() && (#[trigger] acc0[k2]).0 == g2;
                            assert(acc@[k2].0 == g2);
                        }
                    }
                }
            } else {
                proof {
                    assert(!(listed_in(s, gid, s.wins[wi]) && s.wins[wi].reset_id is Some));
                    assert forall|g2: u128|
                        #[trigger] group_listed_upto(s, gid, g2, wi + 1) implies group_listed_upto(
                        s,
                        gid,
                        g2,
                        wi,
                    ) by {
                        let j = choose|j: int|
                            0 <= j < wi + 1 && listed_in(s, gid, #[trigger] s.wins[j])
                                && s.wins[j].reset_id == Some(g2);
                        assert(j < wi);
                    }
                    assert forall|k2: int|
                        0 <= k2 < acc@.len() implies group_max_at_upto(
                        s,
                        gid,
                        (#[trigger] acc@[k2]).0,
                        wi + 1,
                    ) == group_max_at_upto(s, gid, acc@[k2].0, wi) by {}
                }
            }
            i = i + 1;
        }
        // Order the groups by hiding time, identifier breaking ties.
        let mut sorted: Vec<(u128, i64)> = Vec::new();
        let m = acc.len();
        let mut i2: usize = 0;
        while i2 < m
            invariant
                m == acc@.len(),
                i2 <= m,
                forall|k: int, l: int|
                    0 <= k < l < acc@.len() ==> (#[trigger] acc@[k]).0 != (#[trigger] acc@[l]).0,
                forall|k: int, l: int|
                    0 <= k < l < sorted@.len() ==> pair_lt(
                        #[trigger] sorted@[k],
                        #[trigger] sorted@[l],
                    ),
                forall|k: int|
                    0 <= k < sorted@.len() ==> exists|j: int|
                        0 <= j < i2 && acc@[j] == (#[trigger] sorted@[k]),
                forall|j: int|
                    0 <= j < i2 ==> exists|k: int|
                        0 <= k < sorted@.len() && (#[trigger] acc@[j]) == sorted@[k],
            decreases m - i2,
        {
            let e = acc[i2];
            let p = insert_pos(&sorted, e);
            let ghost sorted0 = sorted@;
            proof {
                // The element's group differs from everything placed so far.
                assert forall|k: int| 0 <= k < sorted0.len() implies (#[trigger] sorted0[k]).0
                    != e.0 by {
                    let j = choose|j: int| 0 <= j < i2 && acc@[j] == sorted0[k];
                    assert(acc@[i2 as int] == e);
                }
            }
            sorted.insert(p, e);
            proof {
                assert(sorted@ == sorted0.insert(p as int, e));
                lemma_insert_pair_sorted(sorted0, e, p as int);
                assert forall|k: int|
                    0 <= k < sorted@.len() implies exists|j: int|
                    0 <= j < i2 + 1 && acc@[j] == (#[trigger] sorted@[k]) by {
                    let pi = p as int;
                    if k == pi {
                        assert(acc@[i2 as int] == sorted@[k]);
                    } else if k < pi {
                        assert(sorted@[k] == sorted0[k]);
                    } else {
                        assert(sorted@[k] == sorted0[k - 1]);
                    }
                }
                assert forall|j: int|
                    0 <= j < i2 + 1 implies exists|k: int|
                    0 <= k < sorted@.len() && (#[trigger] acc@[j]) == sorted@[k] by {
                    let pi = p as int;
                    if j == i2 as int {
                        assert(acc@[j] == sorted@[pi]);
                    } else {
                        let k0 = choose|k0: int|
                            0 <= k0 < sorted0.len() && (#[trigger] acc@[j]) == sorted0[k0];
                        if k0 < pi {
                            assert(acc@[j] == sorted@[k0]);
                        } else {
                            assert(acc@[j] == sorted@[k0 + 1]);
                        }
                    }
                }
            }
            i2 = i2 + 1;
        }
        // Render the identifiers.
        let sn = sorted.len();
        let mut out: Vec<ResetListEntry> = Vec::new();
        let mut i3: usize = 0;
        while i3 < sn
            invariant
                sn == sorted@.len(),
                i3 <= sn,
                out@.len() == i3,
                forall|k: int|
                    0 <= k < i3 ==> (#[trigger] out@[k]).group == sorted@[k].0 && out@[k].at
                        == sorted@[k].1,
                forall|k: int|
                    0 <= k < i3 ==> (#[trigger] out@[k]).group_text@ == uuid_str_of(out@[k].group)
                        && uuid_of(out@[k].group_text@) == Some(out@[k].group),
            decreases sn - i3,
        {
            let g = sorted[i3].0;
            let at = sorted[i3].1;
            let group_text = format_reset_id(g);
            out.push(ResetListEntry { group: g, group_text, at });
            i3 = i3 + 1;
        }
        proof {
            assert forall|k: int, l: int|
                0 <= k < l < out@.len() implies entry_lt(#[trigger] out@[k], #[trigger] out@[l]) by {
                assert(pair_lt(sorted@[k], sorted@[l]));
            }
            assert forall|k: int|
                0 <= k < out@.len() implies group_listed(s, gid, (#[trigger] out@[k]).group)
                && out@[k].at as int == group_max_at(s, gid, out@[k].group) by {
                let j = choose|j: int| 0 <= j < acc@.len() && acc@[j] == sorted@[k];
            }
            assert forall|g2: u128| #[trigger] group_listed(s, gid, g2) implies exists|k: int|
                0 <= k < out@.len() && (#[trigger] out@[k]).group == g2 by {
                let j = choose|j: int| 0 <= j < acc@.len() && (#[trigger] acc@[j]).0 == g2;
                let k = choose|k: int| 0 <= k < sorted@.len() && (#[trigger] acc@[j]) == sorted@[k];
                assert(out@[k].group == g2);
            }
        }
        out
    }
}

/// Strict order on gathered (group, time) pairs: time ascending, group
/// identifier breaking ties.
pub open spec fn pair_lt(a: (u128, i64), b: (u128, i64)) -> bool {
    a.1 < b.1 || (a.1 == b.1 && a.0 < b.0)
}

/// Where a group is not listed among the first `upto` ledger entries, its
/// running maximum is still the neutral floor.
proof fn lemma_unlisted_min(s: StoreV, gid: u64, group: u128, upto: int)
    requires
        0 <= upto <= s.wins.len(),
        !group_listed_upto(s, gid, group, upto),
    ensures
        group_max_at_upto(s, gid, group, upto) == i64::MIN as int,
    decreases upto,
{
    if upto > 0 {
        if group_listed_upto(s, gid, group, upto - 1) {
            assert(group_listed_upto(s, gid, group, upto));
        }
        lemma_unlisted_min(s, gid, group, upto - 1);
        if listed_in(s, gid, s.wins[upto - 1]) && s.wins[upto - 1].reset_id == Some(group) {
            assert(group_listed_upto(s, gid, group, upto));
        }
    }
}

/// The index of the group in the accumulator, if it is there.
fn find_group(acc: &Vec<(u128, i64)>, g: u128) -> (r: Option<usize>)
    ensures
        match r {
            Some(k) => k < acc@.len() && acc@[k as int].0 == g,
            None => forall|l: int| 0 <= l < acc@.len() ==> (#[trigger] acc@[l]).0 != g,
        },
{
    let m = acc.len();
    let mut k: usize = 0;
    while k < m
        invariant
            m == acc@.len(),
            k <= m,
            forall|l: int| 0 <= l < k ==> (#[trigger] acc@[l]).0 != g,
        decreases m - k,
    {
        if acc[k].0 == g {
            return Some(k);
        }
        k = k + 1;
    }
    None
}

/// Where the pair belongs in the ordered accumulator.
fn insert_pos(sorted: &Vec<(u128, i64)>, e: (u128, i64)) -> (p: usize)
    ensures
        p <= sorted@.len(),
        forall|k: int| 0 <= k < p ==> pair_lt(#[trigger] sorted@[k], e),
        p < sorted@.len() ==> !pair_lt(sorted@[p as int], e),
{
    let sn = sorted.len();
    let mut p: usize = 0;
    while p < sn
        invariant
            sn == sorted@.len(),
            p <= sn,
            forall|k: int| 0 <= k < p ==> pair_lt(#[trigger] sorted@[k], e),
        decreases sn - p,
    {
        let cur = sorted[p];
        if !(cur.1 < e.1 || (cur.1 == e.1 && cur.0 < e.0)) {
            return p;
        }
        p = p + 1;
    }
    p
}

/// Inserting a pair at its place keeps the accumulator strictly ordered, as
/// long as its group is new.
proof fn lemma_insert_pair_sorted(s0: Seq<(u128, i64)>, e: (u128, i64), p: int)
    requires
        0 <= p <= s0.len(),
        forall|k: int, l: int|
            0 <= k < l < s0.len() ==> pair_lt(#[trigger] s0[k], #[trigger] s0[l]),
        forall|k: int| 0 <= k < p ==> pair_lt(#[trigger] s0[k], e),
        p < s0.len() ==> !pair_lt(s0[p], e),
        forall|k: int| 0 <= k < s0.len() ==> (#[trigger] s0[k]).0 != e.0,
    ensures
        forall|k: int, l: int|
            0 <= k < l < s0.insert(p, e).len() ==> pair_lt(
                #[trigger] s0.insert(p, e)[k],
                #[trigger] s0.insert(p, e)[l],
            ),
{
    let s2 = s0.insert(p, e);
    if p < s0.len() {
        assert(!pair_lt(s0[p], e));
        assert(s0[p].0 != e.0);
        assert(pair_lt(e, s0[p]));
    }
    assert forall|k: int, l: int| 0 <= k < l < s2.len() implies pair_lt(
        #[trigger] s2[k],
        #[trigger] s2[l],
    ) by {
        if l == p {
            assert(s2[k] == s0[k]);
        } else if k == p {
            assert(s2[l] == s0[l - 1]);
            if l - 1 > p {
                assert(pair_lt(s0[p], s0[l - 1]));
            }
        } else if k < p && l > p {
            assert(s2[k] == s0[k]);
            assert(s2[l] == s0[l - 1]);
            if l - 1 > k {
                assert(pair_lt(s0[k], s0[l - 1]));
            }
        } else if l < p {
            assert(s2[k] == s0[k]);
            assert(s2[l] == s0[l]);
        } else {
            assert(s2[k] == s0[k - 1]);
            assert(s2[l] == s0[l - 1]);
        }
    }
}

/// Classify the words following the reset command itself: nothing asks for
/// the confirmation prompt, "do" confirms, "list" lists, "cancel" with an
/// identifier restores, and any other shape is unknown.
pub fn parse_reset_request(args: &Vec<String>) -> (r: ResetRequest)
    ensures
        ({
            match r {
                ResetRequest::Prompt => args@.len() == 0,
                ResetRequest::Do => args@.len() == 1 && args@[0]@ == "do"@,
                ResetRequest::List => args@.len() == 1 && args@[0]@ == "list"@,
                ResetRequest::Cancel(t) => args@.len() == 2 && args@[0]@ == "cancel"@ && t@
                    == args@[1]@,
                ResetRequest::Unknown => !(args@.len() == 0) && !(args@.len() == 1 && (args@[0]@
                    == "do"@ || args@[0]@ == "list"@)) && !(args@.len() == 2 && args@[0]@
                    == "cancel"@),
            }
        }),
{
    if args.len() == 0 {
        return ResetRequest::Prompt;
    }
    if args.len() == 1 {
        let word_do: String = "do".to_owned();
        if args[0] == word_do {
            return ResetRequest::Do;
        }
        let word_list: String = "list".to_owned();
        if args[0] == word_list {
            return ResetRequest::List;
        }
        return ResetRequest::Unknown;
    }
    if args.len() == 2 {
        let word_cancel: String = "cancel".to_owned();
        if args[0] == word_cancel {
            return ResetRequest::Cancel(args[1].clone());
        }
    }
    ResetRequest::Unknown
}

} // verus!
