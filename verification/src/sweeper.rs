//! The timeout sweeper: on a fixed interval, warn the holders of idle turns,
//! then force-skip turns idle past the deadline, charging a one-point
//! penalty.
//!
//! Each pass is a function of the store, the wall clock and the configured
//! delays; the front-end's timer only calls them and delivers the returned
//! notices. A turn already closed is never touched again, so a tick that
//! fires twice never warns or penalizes twice.

use vstd::prelude::*;

use crate::models::{
    mark_autoskip, mark_warned, new_win_v, part_open, PartV, Win,
};
use crate::store::{Store, StoreV};

verus! {

/// A warning owed: the turn is open, not yet warned, and idle past the
/// warning threshold but not yet past the skip deadline.
pub open spec fn warn_due(p: PartV, now: i64, autoskip: u32, warn: u32) -> bool {
    &&& part_open(p)
    &&& p.warned_at is None
    &&& p.updated_at + autoskip - warn <= now
    &&& now < p.updated_at + autoskip
}

/// A forced skip owed: the turn is open and idle past the deadline,
/// warned or not.
pub open spec fn skip_due(p: PartV, now: i64, autoskip: u32) -> bool {
    part_open(p) && p.updated_at + autoskip <= now
}

/// Who gets a sweeper message, and for which turn.
#[derive(Debug, Clone, Copy, PartialEq, Eq, Structural)]
pub struct SweepNotice {
    pub part_id: u64,
    pub player: u64,
    pub game_id: u64,
}

/// Transition of the warn pass: every turn owed a warning is stamped, and
/// nothing else moves.
pub open spec fn warn_pass(s: StoreV, now: i64, autoskip: u32, warn: u32) -> StoreV {
    StoreV {
        parts: s.parts.map_values(
            |p: PartV|
                if warn_due(p, now, autoskip, warn) {
                    mark_warned(p, now)
                } else {
                    p
                },
        ),
        ..s
    }
}

/// The warnings the warn pass sends, in table order.
pub open spec fn warn_notices(parts: Seq<PartV>, now: i64, autoskip: u32, warn: u32) -> Seq<
    SweepNotice,
>
    decreases parts.len(),
{
    if parts.len() == 0 {
        Seq::empty()
    } else {
        let r = warn_notices(parts.drop_last(), now, autoskip, warn);
        let p = parts.last();
        if warn_due(p, now, autoskip, warn) {
            r.push(SweepNotice { part_id: p.id, player: p.player_id, game_id: p.game_id })
        } else {
            r
        }
    }
}

/// How many of the first `upto` turns are owed a forced skip.
pub open spec fn due_count(parts: Seq<PartV>, now: i64, autoskip: u32, upto: int) -> int
    decreases upto,
{
    if upto <= 0 {
        0
    } else {
        due_count(parts, now, autoskip, upto - 1) + if skip_due(
            parts[upto - 1],
            now,
            autoskip,
        ) {
            1int
        } else {
            0int
        }
    }
}

/// The penalty charged to an overstayed turn: one point off, the player
/// both debtor and "winner"; no hand-off happens.
pub open spec fn penalty_win(p: PartV, now: i64, id: u64) -> Win {
    new_win_v(id, now, p.player_id, p.player_id, -1i64)
}

/// Transition of the skip pass on the turn table: every overdue turn is
/// closed as skipped and linked to its penalty entry.
pub open spec fn skip_pass_parts(parts: Seq<PartV>, now: i64, autoskip: u32, base: u64) -> Seq<
    PartV,
> {
    Seq::new(
        parts.len(),
        |i: int|
            if skip_due(parts[i], now, autoskip) {
                mark_autoskip(parts[i], now, (base + due_count(parts, now, autoskip, i)) as u64)
            } else {
                parts[i]
            },
    )
}

/// The penalty entries the skip pass appends, in table order.
pub open spec fn skip_pass_wins(
    parts: Seq<PartV>,
    now: i64,
    autoskip: u32,
    base: u64,
    upto: int,
) -> Seq<Win>
    decreases upto,
{
    if upto <= 0 {
        Seq::empty()
    } else {
        let r = skip_pass_wins(parts, now, autoskip, base, upto - 1);
        let p = parts[upto - 1];
        if skip_due(p, now, autoskip) {
            r.push(penalty_win(p, now, (base + due_count(parts, now, autoskip, upto - 1)) as u64))
        } else {
            r
        }
    }
}

/// The penalty messages the skip pass sends, in table order.
pub open spec fn skip_notices(parts: Seq<PartV>, now: i64, autoskip: u32, upto: int) -> Seq<
    SweepNotice,
>
    decreases upto,
{
    if upto <= 0 {
        Seq::empty()
    } else {
        let r = skip_notices(parts, now, autoskip, upto - 1);
        let p = parts[upto - 1];
        if skip_due(p, now, autoskip) {
            r.push(SweepNotice { part_id: p.id, player: p.player_id, game_id: p.game_id })
        } else {
            r
        }
    }
}

/// Transition of the whole skip pass.
pub open spec fn skip_pass(s: StoreV, now: i64, autoskip: u32) -> StoreV {
    StoreV {
        games: s.games,
        parts: skip_pass_parts(s.parts, now, autoskip, s.next_id),
        wins: s.wins + skip_pass_wins(s.parts, now, autoskip, s.next_id, s.parts.len() as int),
        next_id: (s.next_id + due_count(s.parts, now, autoskip, s.parts.len() as int)) as u64,
    }
}

/// The due count never exceeds the number of turns and never shrinks.
proof fn lemma_due_count_bounds(parts: Seq<PartV>, now: i64, autoskip: u32, upto: int)
    requires
        0 <= upto <= parts.len(),
    ensures
        0 <= due_count(parts, now, autoskip, upto) <= upto,
    decreases upto,
{
    if upto > 0 {
        lemma_due_count_bounds(parts, now, autoskip, upto - 1);
    }
}

/// The `k`-th penalty entry takes identifier `base + k`; entries are fresh,
/// visible and worth minus one point.
proof fn lemma_skip_pass_wins_shape(parts: Seq<PartV>, now: i64, autoskip: u32, base: u64, upto: int)
    requires
        0 <= upto <= parts.len(),
    ensures
        skip_pass_wins(parts, now, autoskip, base, upto).len() == due_count(
            parts,
            now,
            autoskip,
            upto,
        ),
        forall|k: int|
            0 <= k < skip_pass_wins(parts, now, autoskip, base, upto).len() ==> {
                let w = #[trigger] skip_pass_wins(parts, now, autoskip, base, upto)[k];
                &&& w.id as int == base + k || base + k > u64::MAX
                &&& !w.reset
                &&& w.reset_at is None
                &&& w.reset_id is None
                &&& w.score == -1
            },
    decreases upto,
{
    if upto > 0 {
        lemma_skip_pass_wins_shape(parts, now, autoskip, base, upto - 1);
        lemma_due_count_bounds(parts, now, autoskip, upto - 1);
    }
}

/// After a skip pass, no turn is owed a skip at the same instant: a closed
/// turn stays closed and an open one is still not overdue.
pub proof fn lemma_skip_pass_settles(s: StoreV, now: i64, autoskip: u32)
    ensures
        forall|i: int|
            0 <= i < skip_pass(s, now, autoskip).parts.len() ==> !skip_due(
                #[trigger] skip_pass(s, now, autoskip).parts[i],
                now,
                autoskip,
            ),
        forall|i: int|
            0 <= i < s.parts.len() && (s.parts[i].is_skip || s.parts[i].is_win) ==> #[trigger] skip_pass(
                s,
                now,
                autoskip,
            ).parts[i] == s.parts[i],
{
}

/// Where nothing is owed a skip, the count is zero.
proof fn lemma_no_due_count_zero(parts: Seq<PartV>, now: i64, autoskip: u32, upto: int)
    requires
        0 <= upto <= parts.len(),
        forall|i: int| 0 <= i < parts.len() ==> !skip_due(#[trigger] parts[i], now, autoskip),
    ensures
        due_count(parts, now, autoskip, upto) == 0,
        skip_pass_wins(parts, now, autoskip, 0, upto) =~= Seq::<Win>::empty(),
        skip_notices(parts, now, autoskip, upto) =~= Seq::<SweepNotice>::empty(),
    decreases upto,
{
    if upto > 0 {
        lemma_no_due_count_zero(parts, now, autoskip, upto - 1);
    }
}

/// Sweeper idempotence: a second skip pass at the same instant changes
/// nothing, appends no penalty, and reports nothing. In particular a turn
/// already skipped is never penalized again.
pub proof fn lemma_sweeper_idempotent(s: StoreV, now: i64, autoskip: u32)
    ensures
        skip_pass(skip_pass(s, now, autoskip), now, autoskip) == skip_pass(s, now, autoskip),
        skip_notices(
            skip_pass(s, now, autoskip).parts,
            now,
            autoskip,
            skip_pass(s, now, autoskip).parts.len() as int,
        ) == Seq::<SweepNotice>::empty(),
{
    let s2 = skip_pass(s, now, autoskip);
    lemma_skip_pass_settles(s, now, autoskip);
    lemma_no_due_count_zero(s2.parts, now, autoskip, s2.parts.len() as int);
    let s3 = skip_pass(s2, now, autoskip);
    assert forall|i: int| 0 <= i < s2.parts.len() implies #[trigger] s3.parts[i]
        == s2.parts[i] by {}
    assert(s3.parts =~= s2.parts);
    assert(skip_pass_wins(s2.parts, now, autoskip, s2.next_id, s2.parts.len() as int)
        =~= Seq::<Win>::empty()) by {
        lemma_no_due_wins_empty(s2.parts, now, autoskip, s2.next_id, s2.parts.len() as int);
    }
    assert(s3.wins =~= s2.wins);
    assert(s3 =~= s2);
}

/// Where nothing is owed a skip, no penalty entry is appended, whatever the
/// identifier base.
proof fn lemma_no_due_wins_empty(parts: Seq<PartV>, now: i64, autoskip: u32, base: u64, upto: int)
    requires
        0 <= upto <= parts.len(),
        forall|i: int| 0 <= i < parts.len() ==> !skip_due(#[trigger] parts[i], now, autoskip),
    ensures
        skip_pass_wins(parts, now, autoskip, base, upto) =~= Seq::<Win>::empty(),
    decreases upto,
{
    if upto > 0 {
        lemma_no_due_wins_empty(parts, now, autoskip, base, upto - 1);
    }
}

/// The skip pass preserves well-formedness.
pub proof fn lemma_skip_pass_wf(s: StoreV, now: i64, autoskip: u32)
    requires
        s.wf(),
        s.next_id + s.parts.len() <= u64::MAX,
    ensures
        skip_pass(s, now, autoskip).wf(),
{
    let s2 = skip_pass(s, now, autoskip);
    let n = s.parts.len() as int;
    let total = due_count(s.parts, now, autoskip, n);
    lemma_due_count_bounds(s.parts, now, autoskip, n);
    lemma_skip_pass_wins_shape(s.parts, now, autoskip, s.next_id, n);
    assert forall|i: int| 0 <= i < n implies (#[trigger] s2.parts[i]).id == s.parts[i].id && (
    s2.parts[i]).game_id == s.parts[i].game_id && (part_open(s2.parts[i]) ==> part_open(
        s.parts[i],
    )) by {
        if skip_due(s.parts[i], now, autoskip) {
            lemma_due_count_bounds(s.parts, now, autoskip, i);
        }
    }
    let fresh = skip_pass_wins(s.parts, now, autoskip, s.next_id, n);
    assert forall|i: int| 0 <= i < s2.wins.len() implies (#[trigger] s2.wins[i]).id
        < s2.next_id by {
        if i < s.wins.len() {
            assert(s2.wins[i] == s.wins[i]);
        } else {
            assert(s2.wins[i] == fresh[i - s.wins.len()]);
        }
    }
    assert forall|i: int, j: int|
        0 <= i < j < s2.wins.len() implies (#[trigger] s2.wins[i]).id != (
    #[trigger] s2.wins[j]).id by {
        if i < s.wins.len() && j >= s.wins.len() {
            assert(s2.wins[j] == fresh[j - s.wins.len()]);
            assert(s2.wins[i].id < s.next_id);
        } else if i >= s.wins.len() {
            assert(s2.wins[i] == fresh[i - s.wins.len()]);
            assert(s2.wins[j] == fresh[j - s.wins.len()]);
        }
    }
    assert forall|i: int|
        0 <= i < s2.parts.len() implies {
        let p = #[trigger] s2.parts[i];
        &&& !(p.is_win && p.is_skip)
        &&& p.is_win ==> p.won_at is Some && p.win_id is Some
        &&& p.is_skip ==> p.skipped_at is Some
        &&& part_open(p) ==> p.win_id is None
    } by {}
    assert forall|i: int|
        0 <= i < s2.wins.len() implies {
        let w = #[trigger] s2.wins[i];
        &&& w.reset <==> w.reset_at is Some
        &&& w.reset <==> w.reset_id is Some
        &&& (w.score == 1 || w.score == -1)
    } by {
        if i >= s.wins.len() {
            assert(s2.wins[i] == fresh[i - s.wins.len()]);
        }
    }
    assert(s2.at_most_one_open());
}

impl Store {
    /// The warn pass: stamp every turn owed a warning and say who to warn.
    pub fn sweep_warn(&mut self, now: i64, autoskip: u32, warn: u32) -> (r: Vec<SweepNotice>)
        requires
            old(self)@.wf(),
        ensures
            final(self)@.wf(),
            final(self)@ == warn_pass(old(self)@, now, autoskip, warn),
            r@ == warn_notices(old(self)@.parts, now, autoskip, warn),
    {
        let ghost s0 = self@;
        let n = self.parts.len();
        let mut notices: Vec<SweepNotice> = Vec::new();
        let mut i: usize = 0;
        proof {
            assert(s0.parts.subrange(0, 0) =~= Seq::<PartV>::empty());
        }
        while i < n
            invariant
                n == self.parts.len(),
                n == s0.parts.len(),
                i <= n,
                self@.games == s0.games,
                self@.wins == s0.wins,
                self@.next_id == s0.next_id,
                forall|j: int|
                    0 <= j < i ==> self@.parts[j] == (if warn_due(s0.parts[j], now, autoskip, warn) {
                        mark_warned(s0.parts[j], now)
                    } else {
                        s0.parts[j]
                    }),
                forall|j: int| i <= j < n ==> self@.parts[j] == s0.parts[j],
                notices@ == warn_notices(s0.parts.subrange(0, i as int), now, autoskip, warn),
            decreases n - i,
        {
            let ghost p0 = s0.parts[i as int];
            let ghost sp = self@.parts;
            let due = !self.parts[i].is_win && !self.parts[i].is_skip
                && self.parts[i].warned_at.is_none() && {
                let u = self.parts[i].updated_at as i128;
                u + (autoskip as i128) - (warn as i128) <= now as i128 && (now as i128) < u + (
                autoskip as i128)
            };
            if due {
                proof {
                    assert(warn_due(p0, now, autoskip, warn));
                }
                let part_id = self.parts[i].id;
                let player = self.parts[i].player_id;
                let game_id = self.parts[i].game_id;
                self.parts[i].warned_at = Some(now);
                notices.push(SweepNotice { part_id, player, game_id });
                proof {
                    assert(self@.parts =~= sp.update(i as int, mark_warned(p0, now)));
                }
            } else {
                proof {
                    assert(!warn_due(p0, now, autoskip, warn));
                }
            }
            proof {
                let pre = s0.parts.subrange(0, i as int);
                let cur = s0.parts.subrange(0, i as int + 1);
                assert(cur.drop_last() =~= pre);
                assert(cur.last() == p0);
                assert(notices@ == warn_notices(cur, now, autoskip, warn));
            }
            i = i + 1;
        }
        proof {
            assert(s0.parts.subrange(0, n as int) =~= s0.parts);
            assert(self@.parts =~= warn_pass(s0, now, autoskip, warn).parts);
            assert(self@ =~= warn_pass(s0, now, autoskip, warn));
            assert forall|j: int|
                0 <= j < self@.parts.len() implies (#[trigger] self@.parts[j]).id
                == s0.parts[j].id && self@.parts[j].game_id == s0.parts[j].game_id && (part_open(
                self@.parts[j],
            ) ==> part_open(s0.parts[j])) && !(self@.parts[j].is_win && self@.parts[j].is_skip) && (
            self@.parts[j].is_win ==> self@.parts[j].won_at is Some && self@.parts[j].win_id
                is Some) && (self@.parts[j].is_skip ==> self@.parts[j].skipped_at is Some) && (
            part_open(self@.parts[j]) ==> self@.parts[j].win_id is None) by {}
            assert(self@.wf());
        }
        notices
    }

    /// The skip pass: close every overdue turn, charge its one-point
    /// penalty, and say who to tell. No new turn opens; the next picture
    /// does that.
    pub fn sweep_skip(&mut self, now: i64, autoskip: u32) -> (r: Vec<SweepNotice>)
        requires
            old(self)@.wf(),
            old(self)@.next_id + old(self)@.parts.len() <= u64::MAX,
        ensures
            final(self)@.wf(),
            final(self)@ == skip_pass(old(self)@, now, autoskip),
            r@ == skip_notices(
                old(self)@.parts,
                now,
                autoskip,
                old(self)@.parts.len() as int,
            ),
    {
        let ghost s0 = self@;
        let base = self.next_id;
        let n = self.parts.len();
        let mut notices: Vec<SweepNotice> = Vec::new();
        let mut c: u64 = 0;
        let mut i: usize = 0;
        while i < n
            invariant
                s0.wf(),
                n == self.parts.len(),
                n == s0.parts.len(),
                base == s0.next_id,
                base + n <= u64::MAX,
                i <= n,
                self@.games == s0.games,
                self@.next_id == s0.next_id,
                c as int == due_count(s0.parts, now, autoskip, i as int),
                c <= i,
                forall|j: int|
                    0 <= j < i ==> self@.parts[j] == (if skip_due(s0.parts[j], now, autoskip) {
                        mark_autoskip(
                            s0.parts[j],
                            now,
                            (base + due_count(s0.parts, now, autoskip, j)) as u64,
                        )
                    } else {
                        s0.parts[j]
                    }),
                forall|j: int| i <= j < n ==> self@.parts[j] == s0.parts[j],
                self@.wins == s0.wins + skip_pass_wins(s0.parts, now, autoskip, base, i as int),
                notices@ == skip_notices(s0.parts, now, autoskip, i as int),
            decreases n - i,
        {
            let ghost p0 = s0.parts[i as int];
            let ghost sp = self@.parts;
            let due = !self.parts[i].is_win && !self.parts[i].is_skip && {
                (self.parts[i].updated_at as i128) + (autoskip as i128) <= now as i128
            };
            if due {
                proof {
                    assert(skip_due(p0, now, autoskip));
                    lemma_due_count_bounds(s0.parts, now, autoskip, i as int);
                }
                let win_id = base + c;
                let player = self.parts[i].player_id;
                let part_id = self.parts[i].id;
                let game_id = self.parts[i].game_id;
                let ghost wins0 = self@.wins;
                // The penalty: one point off, charged to the player's own name.
                self.wins.push(
                    Win {
                        id: win_id,
                        created_at: now,
                        player_id: player,
                        winner_id: player,
                        score: -1,
                        reset: false,
                        reset_at: None,
                        reset_id: None,
                    },
                );
                self.parts[i].is_skip = true;
                self.parts[i].skipped_at = Some(now);
                self.parts[i].win_id = Some(win_id);
                notices.push(SweepNotice { part_id, player, game_id });
                c = c + 1;
                proof {
                    assert(self@.parts =~= sp.update(i as int, mark_autoskip(p0, now, win_id)));
                    assert(self@.wins =~= s0.wins + skip_pass_wins(
                        s0.parts,
                        now,
                        autoskip,
                        base,
                        i as int + 1,
                    ));
                }
            } else {
                proof {
                    assert(!skip_due(p0, now, autoskip));
                    assert(self@.wins =~= s0.wins + skip_pass_wins(
                        s0.parts,
                        now,
                        autoskip,
                        base,
                        i as int + 1,
                    ));
                }
            }
            i = i + 1;
        }
        proof {
            let spp = skip_pass_parts(s0.parts, now, autoskip, base);
            assert forall|j: int| 0 <= j < n implies self@.parts[j] == spp[j] by {
                assert(spp[j] == (if skip_due(s0.parts[j], now, autoskip) {
                    mark_autoskip(
                        s0.parts[j],
                        now,
                        (base + due_count(s0.parts, now, autoskip, j)) as u64,
                    )
                } else {
                    s0.parts[j]
                }));
            }
            assert(self@.parts =~= spp);
        }
        self.next_id = base + c;
        proof {
            assert(self@ =~= skip_pass(s0, now, autoskip));
            lemma_skip_pass_wf(s0, now, autoskip);
        }
        notices
    }
}

/// Where no turn is owed a warning, the warn pass reports nothing.
proof fn lemma_no_warn_notices(parts: Seq<PartV>, now: i64, autoskip: u32, warn: u32)
    requires
        forall|i: int| 0 <= i < parts.len() ==> !warn_due(#[trigger] parts[i], now, autoskip, warn),
    ensures
        warn_notices(parts, now, autoskip, warn) =~= Seq::<SweepNotice>::empty(),
    decreases parts.len(),
{
    if parts.len() > 0 {
        assert forall|i: int|
            0 <= i < parts.drop_last().len() implies !warn_due(
            #[trigger] parts.drop_last()[i],
            now,
            autoskip,
            warn,
        ) by {
            assert(parts.drop_last()[i] == parts[i]);
        }
        lemma_no_warn_notices(parts.drop_last(), now, autoskip, warn);
    }
}

/// A second warn pass at the same instant changes nothing and warns nobody:
/// a warned turn carries its stamp and is never owed a warning again.
pub proof fn lemma_warn_pass_idempotent(s: StoreV, now: i64, autoskip: u32, warn: u32)
    ensures
        warn_pass(warn_pass(s, now, autoskip, warn), now, autoskip, warn) == warn_pass(
            s,
            now,
            autoskip,
            warn,
        ),
        warn_notices(warn_pass(s, now, autoskip, warn).parts, now, autoskip, warn) == Seq::<
            SweepNotice,
        >::empty(),
{
    let s2 = warn_pass(s, now, autoskip, warn);
    assert forall|i: int|
        0 <= i < s2.parts.len() implies !warn_due(#[trigger] s2.parts[i], now, autoskip, warn) by {}
    lemma_no_warn_notices(s2.parts, now, autoskip, warn);
    let s3 = warn_pass(s2, now, autoskip, warn);
    assert forall|i: int| 0 <= i < s2.parts.len() implies #[trigger] s3.parts[i]
        == s2.parts[i] by {}
    assert(s3.parts =~= s2.parts);
    assert(s3 =~= s2);
}

} // verus!
