//! The scoreboard: ranked, paginated aggregation over the ledger.
//!
//! Every visible ledger entry belonging to one of the game's resolved turns
//! contributes its score to its winner's total. Totals are ordered
//! descending; equal totals are ordered by winner identifier, a stable,
//! explicit tie-break. Pages hold ten entries, and even an empty ranking has
//! one page.

use vstd::prelude::*;
use vstd::string::StringExecFns;

use crate::error::Error;
use crate::ledger::part_refs_win;
use crate::models::Win;
use crate::store::{
    game_idx, has_game, lemma_game_idx_unique, the_game_idx, Store, StoreV,
};

verus! {

/// One line of the full ranking.
#[derive(Debug, Clone, Copy, PartialEq, Eq, Structural)]
pub struct ScoreEntry {
    pub winner: u64,
    pub score: i128,
}

/// One line of a scoreboard page, with its display rank.
#[derive(Debug, Clone, Copy, PartialEq, Eq, Structural)]
pub struct RankedEntry {
    pub rank: u64,
    pub winner: u64,
    pub score: i128,
}

/// One page of the scoreboard.
#[derive(Debug, Clone, PartialEq)]
pub struct ScoreboardPage {
    pub page: u64,
    pub page_count: u64,
    pub entries: Vec<RankedEntry>,
}

/// What showing the scoreboard did.
#[derive(Debug, Clone, PartialEq)]
pub enum ShowOutcome {
    /// No game runs in this channel.
    NoGame,
    /// The requested page.
    Page(ScoreboardPage),
}

/// This ledger entry counts for the game's scoreboard: it is not hidden and
/// one of the game's resolved turns references it.
pub open spec fn counted(s: StoreV, gid: u64, w: Win) -> bool {
    !w.reset && part_refs_win(s.parts, gid, w.id)
}

/// The ranking's order: score descending, winner identifier breaking ties.
pub open spec fn score_leq(a: ScoreEntry, b: ScoreEntry) -> bool {
    a.score > b.score || (a.score == b.score && a.winner <= b.winner)
}

/// The order as a value, for sorting.
pub open spec fn score_order() -> spec_fn(ScoreEntry, ScoreEntry) -> bool {
    |a: ScoreEntry, b: ScoreEntry| score_leq(a, b)
}

/// The ranking's order is total.
pub proof fn lemma_score_order_total()
    ensures
        vstd::relations::total_ordering(score_order()),
{
    let leq = score_order();
    assert forall|x: ScoreEntry| #[trigger] leq(x, x) by {}
    assert forall|x: ScoreEntry, y: ScoreEntry| #[trigger] leq(x, y) && #[trigger] leq(y, x)
        implies x == y by {}
    assert forall|x: ScoreEntry, y: ScoreEntry, z: ScoreEntry|
        #[trigger] leq(x, y) && #[trigger] leq(y, z) implies leq(x, z) by {}
    assert forall|x: ScoreEntry, y: ScoreEntry| #[trigger] leq(x, y) || #[trigger] leq(y, x) by {}
}

/// Some tallied entry credits this winner.
pub open spec fn has_winner(t: Seq<ScoreEntry>, winner: u64) -> bool {
    exists|i: int| 0 <= i < t.len() && (#[trigger] t[i]).winner == winner
}

/// Where winners are tallied once, this is the winner's entry.
pub open spec fn winner_idx(t: Seq<ScoreEntry>, winner: u64) -> int {
    choose|i: int| 0 <= i < t.len() && (#[trigger] t[i]).winner == winner
}

/// Fold one counted ledger entry into the tally.
pub open spec fn tally_step(t: Seq<ScoreEntry>, w: Win) -> Seq<ScoreEntry> {
    if has_winner(t, w.winner_id) {
        let i = winner_idx(t, w.winner_id);
        t.update(i, ScoreEntry { winner: w.winner_id, score: (t[i].score + w.score) as i128 })
    } else {
        t.push(ScoreEntry { winner: w.winner_id, score: w.score as i128 })
    }
}

/// Totals per winner over the game's first `upto` ledger entries, in order
/// of first appearance.
pub open spec fn tally_upto(s: StoreV, gid: u64, upto: int) -> Seq<ScoreEntry>
    decreases upto,
{
    if upto <= 0 {
        Seq::empty()
    } else {
        let t = tally_upto(s, gid, upto - 1);
        if counted(s, gid, s.wins[upto - 1]) {
            tally_step(t, s.wins[upto - 1])
        } else {
            t
        }
    }
}

/// Totals per winner over the game's whole ledger.
pub open spec fn tally(s: StoreV, gid: u64) -> Seq<ScoreEntry> {
    tally_upto(s, gid, s.wins.len() as int)
}

/// The game's full ranking: the tally ordered by score descending, winner
/// identifier breaking ties.
pub open spec fn ranking_spec(s: StoreV, gid: u64) -> Seq<ScoreEntry> {
    tally(s, gid).sort_by(score_order())
}

/// No winner is tallied twice.
pub proof fn lemma_tally_distinct(s: StoreV, gid: u64, upto: int)
    ensures
        forall|i: int, j: int|
            0 <= i < j < tally_upto(s, gid, upto).len() ==> (#[trigger] tally_upto(s, gid, upto)[i]).winner
                != (#[trigger] tally_upto(s, gid, upto)[j]).winner,
    decreases upto,
{
    if upto > 0 {
        lemma_tally_distinct(s, gid, upto - 1);
        let t = tally_upto(s, gid, upto - 1);
        let w = s.wins[upto - 1];
        if counted(s, gid, w) {
            if has_winner(t, w.winner_id) {
                let k = winner_idx(t, w.winner_id);
                assert(0 <= k < t.len() && t[k].winner == w.winner_id);
            }
        }
    }
}

/// The tally depends only on the ledger and on which turn references which
/// entry; every other difference between two stores is invisible to it.
pub proof fn lemma_tally_congruence(s1: StoreV, s2: StoreV, gid: u64, upto: int)
    requires
        s1.wins == s2.wins,
        s1.parts.len() == s2.parts.len(),
        forall|i: int|
            0 <= i < s1.parts.len() ==> (#[trigger] s1.parts[i]).game_id == s2.parts[i].game_id
                && s1.parts[i].win_id == s2.parts[i].win_id,
    ensures
        tally_upto(s1, gid, upto) == tally_upto(s2, gid, upto),
    decreases upto,
{
    if upto > 0 {
        lemma_tally_congruence(s1, s2, gid, upto - 1);
        let w = s1.wins[upto - 1];
        assert(part_refs_win(s1.parts, gid, w.id) <==> part_refs_win(s2.parts, gid, w.id)) by {
            if part_refs_win(s1.parts, gid, w.id) {
                let i = choose|i: int|
                    0 <= i < s1.parts.len() && (#[trigger] s1.parts[i]).game_id == gid
                        && s1.parts[i].win_id == Some(w.id);
                assert(s2.parts[i].game_id == gid && s2.parts[i].win_id == Some(w.id));
            }
            if part_refs_win(s2.parts, gid, w.id) {
                let i = choose|i: int|
                    0 <= i < s2.parts.len() && (#[trigger] s2.parts[i]).game_id == gid
                        && s2.parts[i].win_id == Some(w.id);
                assert(s1.parts[i].game_id == gid && s1.parts[i].win_id == Some(w.id));
            }
        }
    }
}

/// Cancelling the very group a reset "do" just created restores every
/// scoreboard exactly: the round-trip law of the ledger, read through the
/// ranking.
pub proof fn lemma_reset_roundtrip_scoreboard(
    s: StoreV,
    gid: u64,
    now: i64,
    group: u128,
    gid2: u64,
)
    requires
        s.wf(),
        !crate::ledger::reset_id_used(s, group),
    ensures
        ranking_spec(
            crate::ledger::apply_cancel(crate::ledger::apply_reset_do(s, gid, now, group), group),
            gid2,
        ) == ranking_spec(s, gid2),
{
    let s3 = crate::ledger::apply_cancel(
        crate::ledger::apply_reset_do(s, gid, now, group),
        group,
    );
    crate::ledger::lemma_reset_roundtrip(s, gid, now, group);
    lemma_tally_congruence(s3, s, gid2, s.wins.len() as int);
    assert(tally(s3, gid2) == tally(s, gid2));
}

/// Pages hold ten entries; an empty ranking still has one page.
pub open spec fn page_count_spec(n: nat) -> nat {
    if n == 0 {
        1
    } else {
        (n + 9) / 10
    }
}

/// The slice of the ranking a 1-based page shows; a page beyond the last
/// shows nothing.
pub open spec fn page_slice(rk: Seq<ScoreEntry>, page: int) -> Seq<ScoreEntry> {
    let start = if 10 * (page - 1) <= rk.len() {
        10 * (page - 1)
    } else {
        rk.len() as int
    };
    let end = if 10 * page <= rk.len() {
        10 * page
    } else {
        rk.len() as int
    };
    rk.subrange(start, end)
}

/// No two lines of a ranking credit the same winner.
pub proof fn lemma_ranking_winners_distinct(s: StoreV, gid: u64)
    ensures
        forall|i: int, j: int|
            0 <= i < j < ranking_spec(s, gid).len() ==> (#[trigger] ranking_spec(s, gid)[i]).winner
                != (#[trigger] ranking_spec(s, gid)[j]).winner,
{
    broadcast use vstd::seq_lib::group_to_multiset_ensures;

    let t = tally(s, gid);
    let rk = ranking_spec(s, gid);
    lemma_tally_distinct(s, gid, s.wins.len() as int);
    assert(t.no_duplicates());
    t.lemma_multiset_has_no_duplicates();
    lemma_score_order_total();
    t.lemma_sort_by_ensures(score_order());
    assert(rk.to_multiset() == t.to_multiset());
    assert forall|x: ScoreEntry| rk.to_multiset().contains(x) implies rk.to_multiset().count(x)
        == 1 by {
        assert(t.to_multiset().count(x) == 1);
    }
    rk.lemma_multiset_has_no_duplicates_conv();
    assert forall|i: int, j: int| 0 <= i < j < rk.len() implies (#[trigger] rk[i]).winner != (
    #[trigger] rk[j]).winner by {
        if rk[i].winner == rk[j].winner {
            assert(rk[i] != rk[j]) by {
                assert(rk.no_duplicates());
            }
            assert(rk.contains(rk[i]) && rk.contains(rk[j]));
            assert(t.to_multiset().count(rk[i]) > 0);
            assert(t.to_multiset().count(rk[j]) > 0);
            assert(t.contains(rk[i]) && t.contains(rk[j]));
            let a = choose|a: int| 0 <= a < t.len() && t[a] == rk[i];
            let b = choose|b: int| 0 <= b < t.len() && t[b] == rk[j];
            assert(a != b);
            assert(t[a].winner != t[b].winner);
        }
    }
}

/// Distinct pages of one ranking never share a winner.
pub proof fn lemma_pages_no_overlap(s: StoreV, gid: u64, p: int, q: int)
    requires
        1 <= p,
        1 <= q,
        p != q,
        p <= page_count_spec(ranking_spec(s, gid).len()),
        q <= page_count_spec(ranking_spec(s, gid).len()),
    ensures
        ({
            let rk = ranking_spec(s, gid);
            forall|i: int, j: int|
                0 <= i < page_slice(rk, p).len() && 0 <= j < page_slice(rk, q).len()
                    ==> (#[trigger] page_slice(rk, p)[i]).winner != (
                #[trigger] page_slice(rk, q)[j]).winner
        }),
{
    let rk = ranking_spec(s, gid);
    lemma_ranking_winners_distinct(s, gid);
    assert forall|i: int, j: int|
        0 <= i < page_slice(rk, p).len() && 0 <= j < page_slice(rk, q).len() implies (
    #[trigger] page_slice(rk, p)[i]).winner != (#[trigger] page_slice(rk, q)[j]).winner by {
        let a = 10 * (p - 1) + i;
        let b = 10 * (q - 1) + j;
        assert(page_slice(rk, p)[i] == rk[a]);
        assert(page_slice(rk, q)[j] == rk[b]);
        assert(a != b);
    }
}

/// The pages concatenated in order, up to page `k`.
pub open spec fn pages_concat(rk: Seq<ScoreEntry>, k: int) -> Seq<ScoreEntry>
    decreases k,
{
    if k <= 0 {
        Seq::empty()
    } else {
        pages_concat(rk, k - 1) + page_slice(rk, k)
    }
}

/// The first `k` pages together are exactly the ranking's first entries.
proof fn lemma_pages_concat_take(rk: Seq<ScoreEntry>, k: int)
    requires
        0 <= k,
    ensures
        pages_concat(rk, k) == if 10 * k <= rk.len() {
            rk.take(10 * k)
        } else {
            rk.take(rk.len() as int)
        },
    decreases k,
{
    if k > 0 {
        lemma_pages_concat_take(rk, k - 1);
        if 10 * k <= rk.len() {
            assert(pages_concat(rk, k - 1) + page_slice(rk, k) =~= rk.take(10 * k));
        } else if 10 * (k - 1) <= rk.len() {
            assert(pages_concat(rk, k - 1) + page_slice(rk, k) =~= rk.take(rk.len() as int));
        } else {
            assert(page_slice(rk, k) =~= Seq::<ScoreEntry>::empty());
            assert(pages_concat(rk, k - 1) + page_slice(rk, k) =~= rk.take(rk.len() as int));
        }
    } else {
        assert(pages_concat(rk, 0) =~= rk.take(0));
    }
}

/// Concatenating all pages in order reproduces the full ranking.
pub proof fn lemma_pages_cover(s: StoreV, gid: u64)
    ensures
        pages_concat(
            ranking_spec(s, gid),
            page_count_spec(ranking_spec(s, gid).len()) as int,
        ) == ranking_spec(s, gid),
{
    let rk = ranking_spec(s, gid);
    let pc = page_count_spec(rk.len()) as int;
    lemma_pages_concat_take(rk, pc);
    assert(rk.take(rk.len() as int) =~= rk);
    if 10 * pc <= rk.len() {
        assert(rk.len() <= 10 * pc);
        assert(rk.take(10 * pc) =~= rk);
    }
}

impl Store {
    /// The game's full ranking: totals per winner over the visible ledger,
    /// score descending, winner identifier breaking ties.
    pub fn ranking(&self, gid: u64) -> (r: Vec<ScoreEntry>)
        requires
            self@.wf(),
        ensures
            r@ == ranking_spec(self@, gid),
    {
        let ghost s = self@;
        let n = self.wins.len();
        let mut t: Vec<ScoreEntry> = Vec::new();
        let mut i: usize = 0;
        while i < n
            invariant
                s == self@,
                s.wf(),
                n == self.wins.len(),
                i <= n,
                t@ == tally_upto(s, gid, i as int),
                forall|k: int|
                    0 <= k < t@.len() ==> -(i as int) <= (#[trigger] t@[k]).score <= i as int,
            decreases n - i,
        {
            let ghost t0 = t@;
            let w = self.wins[i];
            proof {
                lemma_tally_distinct(s, gid, i as int);
            }
            if !w.reset && self.part_refs(gid, w.id) {
                proof {
                    assert(counted(s, gid, s.wins[i as int]));
                }
                match find_winner(&t, w.winner_id) {
                    Some(k) => {
                        let total = t[k].score + (w.score as i128);
                        t[k] = ScoreEntry { winner: w.winner_id, score: total };
                        proof {
                            assert(has_winner(t0, w.winner_id));
                            let ki = winner_idx(t0, w.winner_id);
                            assert(0 <= ki < t0.len() && t0[ki].winner == w.winner_id);
                            assert(ki == k as int);
                            assert(t@ =~= tally_step(t0, s.wins[i as int]));
                        }
                    },
                    None => {
                        t.push(ScoreEntry { winner: w.winner_id, score: w.score as i128 });
                        proof {
                            assert(!has_winner(t0, w.winner_id));
                            assert(t@ =~= tally_step(t0, s.wins[i as int]));
                        }
                    },
                }
            } else {
                proof {
                    assert(!counted(s, gid, s.wins[i as int]));
                }
            }
            i = i + 1;
        }
        // Order by score descending, winner identifier breaking ties.
        let ghost tfull = t@;
        let m = t.len();
        let mut sorted: Vec<ScoreEntry> = Vec::new();
        proof {
            assert(sorted@ =~= tfull.subrange(0, 0));
        }
        let mut j: usize = 0;
        while j < m
            invariant
                m == t@.len(),
                t@ == tfull,
                j <= m,
                forall|k: int, l: int|
                    0 <= k < l < sorted@.len() ==> score_leq(
                        #[trigger] sorted@[k],
                        #[trigger] sorted@[l],
                    ),
                sorted@.to_multiset() == tfull.subrange(0, j as int).to_multiset(),
            decreases m - j,
        {
            broadcast use vstd::seq_lib::group_to_multiset_ensures;

            let e = t[j];
            let p = entry_pos(&sorted, e);
            let ghost sorted0 = sorted@;
            sorted.insert(p, e);
            proof {
                assert(sorted@ == sorted0.insert(p as int, e));
                lemma_insert_entry_sorted(sorted0, e, p as int);
                assert(tfull.subrange(0, j as int + 1) =~= tfull.subrange(0, j as int).push(e));
                assert(sorted@.to_multiset() =~= tfull.subrange(0, j as int + 1).to_multiset());
            }
            j = j + 1;
        }
        proof {
            broadcast use vstd::seq_lib::group_to_multiset_ensures;

            assert(tfull.subrange(0, m as int) =~= tfull);
            lemma_score_order_total();
            tfull.lemma_sort_by_ensures(score_order());
            assert(vstd::relations::sorted_by(sorted@, score_order()));
            assert(vstd::relations::sorted_by(tfull.sort_by(score_order()), score_order()));
            assert(sorted@.to_multiset() == tfull.sort_by(score_order()).to_multiset());
            vstd::seq_lib::lemma_sorted_unique(
                sorted@,
                tfull.sort_by(score_order()),
                score_order(),
            );
            assert(sorted@ == ranking_spec(s, gid));
        }
        sorted
    }

    /// Show one page of the channel's scoreboard: the page's lines with
    /// their display ranks, and how many pages there are. Pages are 1-based;
    /// an out-of-range page is refused.
    pub fn scoreboard(&self, guild: u64, channel: u64, page: u64) -> (r: Result<
        ShowOutcome,
        Error,
    >)
        requires
            self@.wf(),
        ensures
            ({
                let s = self@;
                if !has_game(s, guild, channel) {
                    r == Ok::<ShowOutcome, Error>(ShowOutcome::NoGame)
                } else {
                    let gid = s.games[the_game_idx(s, guild, channel)].id;
                    let rk = ranking_spec(s, gid);
                    let pc = page_count_spec(rk.len());
                    if page < 1 || page as nat > pc {
                        r == Err::<ShowOutcome, Error>(Error::InvalidPage)
                    } else {
                        match r {
                            Ok(ShowOutcome::Page(b)) => {
                                let slice = page_slice(rk, page as int);
                                &&& b.page == page
                                &&& b.page_count as nat == pc
                                &&& b.entries@.len() == slice.len()
                                &&& forall|i: int|
                                    0 <= i < slice.len() ==> {
                                        &&& (#[trigger] b.entries@[i]).winner == slice[i].winner
                                        &&& b.entries@[i].score == slice[i].score
                                        &&& b.entries@[i].rank as int == 10 * (page - 1) + i + 1
                                    }
                            },
                            _ => false,
                        }
                    }
                }
            }),
    {
        let ghost s = self@;
        let gi = match self.find_game(guild, channel) {
            Some(i) => i,
            None => {
                return Ok(ShowOutcome::NoGame);
            },
        };
        proof {
            assert(game_idx(s, guild, channel, gi as int));
            lemma_game_idx_unique(s, guild, channel, gi as int);
        }
        let gid = self.games[gi].id;
        let rk = self.ranking(gid);
        let n = rk.len();
        let page_count: usize = if n == 0 {
            1
        } else {
            (n - 1) / 10 + 1
        };
        proof {
            assert(page_count as nat == page_count_spec(rk@.len()));
        }
        if page < 1 || page > page_count as u64 {
            return Err(Error::InvalidPage);
        }
        proof {
            if n > 0 {
                assert(page as int - 1 <= (n - 1) as int / 10);
                assert(((n - 1) as int / 10) * 10 <= (n - 1) as int) by (nonlinear_arith);
                assert((page as int - 1) * 10 <= ((n - 1) as int / 10) * 10);
            }
        }
        let start: usize = ((page - 1) as usize) * 10;
        let end: usize = if n - start > 10 {
            start + 10
        } else {
            n
        };
        let mut entries: Vec<RankedEntry> = Vec::new();
        let mut i: usize = start;
        while i < end
            invariant
                n == rk@.len(),
                start <= i <= end <= n,
                start == 10 * (page - 1),
                page >= 1,
                entries@.len() == i - start,
                forall|k: int|
                    0 <= k < entries@.len() ==> {
                        &&& (#[trigger] entries@[k]).winner == rk@[start + k].winner
                        &&& entries@[k].score == rk@[start + k].score
                        &&& entries@[k].rank as int == start + k + 1
                    },
            decreases end - i,
        {
            let e = rk[i];
            entries.push(RankedEntry { rank: (i + 1) as u64, winner: e.winner, score: e.score });
            i = i + 1;
        }
        proof {
            let slice = page_slice(ranking_spec(s, gid), page as int);
            assert(slice =~= rk@.subrange(start as int, end as int));
        }
        Ok(ShowOutcome::Page(ScoreboardPage { page, page_count: page_count as u64, entries }))
    }
}

/// The index of the winner's entry in the tally, if it is there.
fn find_winner(t: &Vec<ScoreEntry>, winner: u64) -> (r: Option<usize>)
    ensures
        match r {
            Some(k) => k < t@.len() && t@[k as int].winner == winner,
            None => !has_winner(t@, winner),
        },
{
    let m = t.len();
    let mut k: usize = 0;
    while k < m
        invariant
            m == t@.len(),
            k <= m,
            forall|l: int| 0 <= l < k ==> (#[trigger] t@[l]).winner != winner,
        decreases m - k,
    {
        if t[k].winner == winner {
            return Some(k);
        }
        k = k + 1;
    }
    None
}

/// Where the entry belongs in the ordered ranking.
fn entry_pos(sorted: &Vec<ScoreEntry>, e: ScoreEntry) -> (p: usize)
    ensures
        p <= sorted@.len(),
        forall|k: int| 0 <= k < p ==> score_leq(#[trigger] sorted@[k], e),
        p < sorted@.len() ==> score_leq(e, sorted@[p as int]),
{
    let sn = sorted.len();
    let mut p: usize = 0;
    while p < sn
        invariant
            sn == sorted@.len(),
            p <= sn,
            forall|k: int| 0 <= k < p ==> score_leq(#[trigger] sorted@[k], e),
        decreases sn - p,
    {
        let cur = sorted[p];
        if !(cur.score > e.score || (cur.score == e.score && cur.winner <= e.winner)) {
            return p;
        }
        p = p + 1;
    }
    p
}

/// Inserting an entry at its place keeps the ranking ordered.
proof fn lemma_insert_entry_sorted(s0: Seq<ScoreEntry>, e: ScoreEntry, p: int)
    requires
        0 <= p <= s0.len(),
        forall|k: int, l: int|
            0 <= k < l < s0.len() ==> score_leq(#[trigger] s0[k], #[trigger] s0[l]),
        forall|k: int| 0 <= k < p ==> score_leq(#[trigger] s0[k], e),
        p < s0.len() ==> score_leq(e, s0[p]),
    ensures
        forall|k: int, l: int|
            0 <= k < l < s0.insert(p, e).len() ==> score_leq(
                #[trigger] s0.insert(p, e)[k],
                #[trigger] s0.insert(p, e)[l],
            ),
{
    let s2 = s0.insert(p, e);
    assert forall|k: int, l: int| 0 <= k < l < s2.len() implies score_leq(
        #[trigger] s2[k],
        #[trigger] s2[l],
    ) by {
        if l == p {
            assert(s2[k] == s0[k]);
        } else if k == p {
            assert(s2[l] == s0[l - 1]);
            if l - 1 > p {
                assert(score_leq(s0[p], s0[l - 1]));
                assert(score_leq(e, s0[p]));
            }
        } else if k < p && l > p {
            assert(s2[k] == s0[k]);
            assert(s2[l] == s0[l - 1]);
            assert(score_leq(s0[k], s0[l - 1]));
        } else if l < p {
            assert(s2[k] == s0[k]);
            assert(s2[l] == s0[l]);
        } else {
            assert(s2[k] == s0[k - 1]);
            assert(s2[l] == s0[l - 1]);
        }
    }
}

/// The character of one decimal digit.
pub open spec fn digit_char(d: int) -> char {
    if d == 0 {
        '0'
    } else if d == 1 {
        '1'
    } else if d == 2 {
        '2'
    } else if d == 3 {
        '3'
    } else if d == 4 {
        '4'
    } else if d == 5 {
        '5'
    } else if d == 6 {
        '6'
    } else if d == 7 {
        '7'
    } else if d == 8 {
        '8'
    } else {
        '9'
    }
}

/// The decimal rendering of a number, most significant digit first.
pub open spec fn dec_of(n: nat) -> Seq<char>
    decreases n,
{
    if n < 10 {
        seq![digit_char(n as int)]
    } else {
        dec_of(n / 10) + seq![digit_char((n % 10) as int)]
    }
}

/// One decimal digit as text.
fn digit_str(d: u64) -> (r: &'static str)
    requires
        d < 10,
    ensures
        r@ == seq![digit_char(d as int)],
{
    proof {
        reveal_strlit("0");
        reveal_strlit("1");
        reveal_strlit("2");
        reveal_strlit("3");
        reveal_strlit("4");
        reveal_strlit("5");
        reveal_strlit("6");
        reveal_strlit("7");
        reveal_strlit("8");
        reveal_strlit("9");
    }
    let r: &'static str = match d {
        0 => "0",
        1 => "1",
        2 => "2",
        3 => "3",
        4 => "4",
        5 => "5",
        6 => "6",
        7 => "7",
        8 => "8",
        _ => "9",
    };
    proof {
        assert(r@ =~= seq![digit_char(d as int)]);
    }
    r
}

/// Append the decimal rendering of `n`.
fn push_dec(out: &mut String, n: u64)
    ensures
        final(out)@ == old(out)@ + dec_of(n as nat),
    decreases n,
{
    let ghost pre = out@;
    if n >= 10 {
        push_dec(out, n / 10);
        let d = digit_str(n % 10);
        out.append(d);
        proof {
            assert(out@ =~= pre + dec_of(n as nat));
        }
    } else {
        let d = digit_str(n);
        out.append(d);
        proof {
            assert(out@ =~= pre + dec_of(n as nat));
        }
    }
}

/// The display label of a rank: medals for the podium, the plain ordinal
/// beyond it.
pub open spec fn rank_label_view(rank: u64) -> Seq<char> {
    if rank == 1 {
        "\u{1f947}"@
    } else if rank == 2 {
        "\u{1f948}"@
    } else if rank == 3 {
        "\u{1f949}"@
    } else {
        dec_of(rank as nat)
    }
}

/// Render the display label of a rank.
pub fn rank_label(rank: u64) -> (r: String)
    ensures
        r@ == rank_label_view(rank),
{
    if rank == 1 {
        "\u{1f947}".to_owned()
    } else if rank == 2 {
        "\u{1f948}".to_owned()
    } else if rank == 3 {
        "\u{1f949}".to_owned()
    } else {
        let mut out = String::new();
        push_dec(&mut out, rank);
        proof {
            assert(out@ =~= dec_of(rank as nat));
        }
        out
    }
}

/// The scoreboard's title, carrying the current and total page counts.
pub open spec fn title_view(page: u64, page_count: u64) -> Seq<char> {
    "\u{1f451} \u{1f451} \u{1f451} Scores ("@ + dec_of(page as nat) + "/"@ + dec_of(
        page_count as nat,
    ) + ") \u{1f451} \u{1f451} \u{1f451}"@
}

/// Render the scoreboard's title.
pub fn scoreboard_title(page: u64, page_count: u64) -> (r: String)
    ensures
        r@ == title_view(page, page_count),
{
    let mut out: String = "\u{1f451} \u{1f451} \u{1f451} Scores (".to_owned();
    push_dec(&mut out, page);
    out.append("/");
    push_dec(&mut out, page_count);
    out.append(") \u{1f451} \u{1f451} \u{1f451}");
    proof {
        assert(out@ =~= title_view(page, page_count));
    }
    out
}

/// Which page a browse gesture asks for: forward one page, backward never
/// below the first; nothing where the gesture changes nothing. Whether the
/// new page exists is the scoreboard's own check.
pub fn next_page(page: u64, forward: bool) -> (r: Option<u64>)
    requires
        page >= 1,
    ensures
        r == if forward && page < u64::MAX {
            Some((page + 1) as u64)
        } else if !forward && page > 1 {
            Some((page - 1) as u64)
        } else {
            None::<u64>
        },
{
    if forward {
        if page < u64::MAX {
            Some(page + 1)
        } else {
            None
        }
    } else if page > 1 {
        Some(page - 1)
    } else {
        None
    }
}

} // verus!
