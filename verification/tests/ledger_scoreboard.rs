//! The reset ledger and the ranked, paginated scoreboard.

use bot_ticelli::error::Error;
use bot_ticelli::models::{Game, Participation};
use bot_ticelli::scoreboard::{rank_label, scoreboard_title};
use bot_ticelli::ledger::{parse_reset_request, ResetOutcome, ResetRequest};
use bot_ticelli::scoreboard::{ScoreEntry, ShowOutcome};
use bot_ticelli::store::Store;

const GUILD: u64 = 10;
const CHAN: u64 = 20;

/// A game where `rounds` turns are won in a row, each winner crowning the
/// next player in the list.
fn played_game(players: &[u64], rounds: usize) -> Store {
    let mut s = Store::new();
    s.start_game(0, GUILD, CHAN, players[0]).unwrap();
    let mut t: i64 = 1;
    for i in 0..rounds {
        let holder = players[i % players.len()];
        let winner = players[(i + 1) % players.len()];
        s.submit_picture(t, GUILD, CHAN, holder, format!("http://x/{i}.png")).unwrap();
        s.win(t + 1, GUILD, CHAN, holder, winner, false, false).unwrap();
        t += 2;
    }
    s
}

#[test]
fn ranking_orders_by_score_then_winner() {
    let mut s = Store::new();
    s.start_game(0, GUILD, CHAN, 1).unwrap();
    let gid = s.games[0].id;
    // 2 beats 3 on score; 3 and 4 tie and order by identifier.
    for (holder, winner) in [(1, 2), (2, 3), (3, 2), (2, 4)] {
        s.submit_picture(0, GUILD, CHAN, holder, "u".to_owned()).unwrap();
        s.win(0, GUILD, CHAN, holder, winner, false, true).unwrap();
    }
    let rk = s.ranking(gid);
    assert_eq!(
        rk,
        vec![
            ScoreEntry { winner: 2, score: 2 },
            ScoreEntry { winner: 3, score: 1 },
            ScoreEntry { winner: 4, score: 1 },
        ]
    );
}

#[test]
fn scoreboard_rejects_bad_pages() {
    let s = played_game(&[1, 2, 3], 4);
    assert_eq!(s.scoreboard(GUILD, CHAN, 0), Err(Error::InvalidPage));
    assert_eq!(s.scoreboard(GUILD, CHAN, 2), Err(Error::InvalidPage));
    assert!(matches!(s.scoreboard(GUILD, CHAN, 1), Ok(ShowOutcome::Page(_))));
    assert_eq!(s.scoreboard(GUILD, CHAN + 1, 1), Ok(ShowOutcome::NoGame));
}

#[test]
fn empty_board_still_has_one_page() {
    let mut s = Store::new();
    s.start_game(0, GUILD, CHAN, 1).unwrap();
    match s.scoreboard(GUILD, CHAN, 1).unwrap() {
        ShowOutcome::Page(p) => {
            assert_eq!(p.page, 1);
            assert_eq!(p.page_count, 1);
            assert!(p.entries.is_empty());
        }
        other => panic!("expected a page, got {other:?}"),
    }
}

#[test]
fn pages_partition_the_ranking() {
    // 25 distinct winners: three pages, no overlap, and the pages in order
    // reproduce the full ranking.
    let mut s = Store::new();
    s.start_game(0, GUILD, CHAN, 1).unwrap();
    let gid = s.games[0].id;
    for w in 0..25u64 {
        s.submit_picture(0, GUILD, CHAN, 1, "u".to_owned()).unwrap();
        // Give winner w exactly w + 1 points by crowning them w + 1 times.
        s.win(0, GUILD, CHAN, 1, 1000 + w, false, true).unwrap();
        for _ in 0..w {
            s.submit_picture(0, GUILD, CHAN, 1000 + w, "u".to_owned()).unwrap();
            s.win(0, GUILD, CHAN, 1000 + w, 1000 + w, false, true).unwrap();
        }
        // Close the open turn so the next round starts cleanly.
        s.skip(0, GUILD, CHAN, 0, true).unwrap();
    }
    let rk = s.ranking(gid);
    assert_eq!(rk.len(), 25);
    let mut seen: Vec<u64> = Vec::new();
    let mut concat: Vec<ScoreEntry> = Vec::new();
    let mut page_count = 0;
    for page in 1..=3u64 {
        match s.scoreboard(GUILD, CHAN, page).unwrap() {
            ShowOutcome::Page(p) => {
                page_count = p.page_count;
                for e in &p.entries {
                    assert!(!seen.contains(&e.winner), "winner {} on two pages", e.winner);
                    seen.push(e.winner);
                    concat.push(ScoreEntry { winner: e.winner, score: e.score });
                }
                // Ranks continue across pages.
                for (i, e) in p.entries.iter().enumerate() {
                    assert_eq!(e.rank as usize, (page as usize - 1) * 10 + i + 1);
                }
            }
            other => panic!("expected a page, got {other:?}"),
        }
    }
    assert_eq!(page_count, 3);
    assert_eq!(concat, rk);
    // Highest score first: winner 1024 has 25 points.
    assert_eq!(rk[0], ScoreEntry { winner: 1024, score: 25 });
}

#[test]
fn reset_prompt_touches_nothing() {
    // `reset` with no "do" only prompts; every ledger entry stays visible
    // with its reset time unset.
    let mut s = played_game(&[1, 2, 3], 4);
    let before = s.wins.clone();
    let r = s.reset(100, GUILD, CHAN, ResetRequest::Prompt);
    assert_eq!(r, Ok(ResetOutcome::Prompt));
    assert_eq!(s.wins.len(), before.len());
    for w in &s.wins {
        assert!(!w.reset);
        assert_eq!(w.reset_at, None);
        assert_eq!(w.reset_id, None);
    }
}

#[test]
fn reset_without_game_is_silent() {
    let mut s = Store::new();
    assert_eq!(s.reset(0, GUILD, CHAN, ResetRequest::Do), Ok(ResetOutcome::NoGame));
}

#[test]
fn reset_unknown_arguments_are_refused() {
    let mut s = played_game(&[1, 2], 2);
    let r = s.reset(100, GUILD, CHAN, ResetRequest::Unknown);
    assert_eq!(r, Err(Error::UnknownArguments));
}

#[test]
fn reset_do_hides_scores_and_ends_the_round() {
    let mut s = played_game(&[1, 2, 3], 4);
    let gid = s.games[0].id;
    assert_eq!(s.ranking(gid).len(), 3);
    let r = s.reset(100, GUILD, CHAN, ResetRequest::Do).unwrap();
    let (group, _text) = match r {
        ResetOutcome::Did { group, group_text } => (group, group_text),
        other => panic!("expected a reset, got {other:?}"),
    };
    // All counted entries are hidden together under the fresh group.
    for w in &s.wins {
        assert!(w.reset);
        assert_eq!(w.reset_at, Some(100));
        assert_eq!(w.reset_id, Some(group));
    }
    assert!(s.ranking(gid).is_empty());
    // The round ended cleanly: no open turn remains.
    assert!(s.parts.iter().all(|p| p.is_win || p.is_skip));
}

#[test]
fn reset_cancel_restores_the_board_exactly() {
    // Reset("do") followed by Reset("cancel", <that id>) gives back the
    // pre-reset ranking and totals exactly.
    let mut s = played_game(&[1, 2, 3], 5);
    let gid = s.games[0].id;
    let before = s.ranking(gid);
    let r = s.reset(100, GUILD, CHAN, ResetRequest::Do).unwrap();
    let text = match r {
        ResetOutcome::Did { group_text, .. } => group_text,
        other => panic!("expected a reset, got {other:?}"),
    };
    assert_ne!(s.ranking(gid), before);
    let r2 = s.reset(101, GUILD, CHAN, ResetRequest::Cancel(text)).unwrap();
    assert!(matches!(r2, ResetOutcome::Cancelled { .. }));
    assert_eq!(s.ranking(gid), before);
    for w in &s.wins {
        assert!(!w.reset);
        assert_eq!(w.reset_at, None);
        assert_eq!(w.reset_id, None);
    }
}

#[test]
fn cancel_of_unknown_or_garbled_id_is_refused() {
    let mut s = played_game(&[1, 2], 2);
    let r = s.reset(100, GUILD, CHAN, ResetRequest::Cancel("not-an-id".to_owned()));
    assert_eq!(r, Err(Error::InvalidResetId));
    // A well-formed identifier of a group that never existed.
    let r = s.reset(
        100,
        GUILD,
        CHAN,
        ResetRequest::Cancel("00000000-0000-4000-8000-000000000000".to_owned()),
    );
    assert_eq!(r, Err(Error::InvalidResetId));
}

#[test]
fn reset_list_orders_groups_oldest_first() {
    let mut s = played_game(&[1, 2, 3], 3);
    let r1 = s.reset(100, GUILD, CHAN, ResetRequest::Do).unwrap();
    let g1 = match r1 {
        ResetOutcome::Did { group, .. } => group,
        other => panic!("expected a reset, got {other:?}"),
    };
    // Score another round, then reset again later.
    s.submit_picture(110, GUILD, CHAN, 1, "u".to_owned()).unwrap();
    s.win(111, GUILD, CHAN, 1, 2, false, false).unwrap();
    let r2 = s.reset(200, GUILD, CHAN, ResetRequest::Do).unwrap();
    let g2 = match r2 {
        ResetOutcome::Did { group, .. } => group,
        other => panic!("expected a reset, got {other:?}"),
    };
    let r = s.reset(300, GUILD, CHAN, ResetRequest::List).unwrap();
    match r {
        ResetOutcome::Listed(es) => {
            assert_eq!(es.len(), 2);
            assert_eq!(es[0].group, g1);
            assert_eq!(es[0].at, 100);
            assert_eq!(es[1].group, g2);
            assert_eq!(es[1].at, 200);
            assert_ne!(es[0].group_text, es[1].group_text);
        }
        other => panic!("expected a list, got {other:?}"),
    }
}

#[test]
fn reset_words_parse_to_the_right_request() {
    let none: Vec<String> = vec![];
    assert_eq!(parse_reset_request(&none), ResetRequest::Prompt);
    assert_eq!(parse_reset_request(&vec!["do".to_owned()]), ResetRequest::Do);
    assert_eq!(parse_reset_request(&vec!["list".to_owned()]), ResetRequest::List);
    assert_eq!(
        parse_reset_request(&vec!["cancel".to_owned(), "abc".to_owned()]),
        ResetRequest::Cancel("abc".to_owned())
    );
    assert_eq!(parse_reset_request(&vec!["undo".to_owned()]), ResetRequest::Unknown);
    assert_eq!(
        parse_reset_request(&vec!["do".to_owned(), "it".to_owned()]),
        ResetRequest::Unknown
    );
    assert_eq!(
        parse_reset_request(&vec!["cancel".to_owned(), "a".to_owned(), "b".to_owned()]),
        ResetRequest::Unknown
    );
}

#[test]
fn group_text_is_a_real_identifier_not_the_input() {
    // The rendered group identifier parses back: it is hyphenated UUID text,
    // not some echo of internal state.
    let mut s = played_game(&[1, 2], 2);
    let r = s.reset(100, GUILD, CHAN, ResetRequest::Do).unwrap();
    let text = match r {
        ResetOutcome::Did { group_text, .. } => group_text,
        other => panic!("expected a reset, got {other:?}"),
    };
    assert_eq!(text.len(), 36);
    assert_eq!(text.matches('-').count(), 4);
    // Cancelling through the rendered text reaches the same group.
    let r2 = s.reset(101, GUILD, CHAN, ResetRequest::Cancel(text)).unwrap();
    assert!(matches!(r2, ResetOutcome::Cancelled { .. }));
}

#[test]
fn penalties_count_against_the_total() {
    let mut s = Store::new();
    s.start_game(0, GUILD, CHAN, 1).unwrap();
    let gid = s.games[0].id;
    // One real win for player 2, then a sweeper penalty against them.
    s.submit_picture(0, GUILD, CHAN, 1, "u".to_owned()).unwrap();
    s.win(1, GUILD, CHAN, 1, 2, false, false).unwrap();
    s.submit_picture(2, GUILD, CHAN, 2, "u".to_owned()).unwrap();
    let notices = s.sweep_skip(1000, 60);
    assert_eq!(notices.len(), 1);
    assert_eq!(s.ranking(gid), vec![ScoreEntry { winner: 2, score: 0 }]);
}

#[test]
fn rank_labels_use_medals_then_ordinals() {
    assert_eq!(rank_label(1), "🥇");
    assert_eq!(rank_label(2), "🥈");
    assert_eq!(rank_label(3), "🥉");
    assert_eq!(rank_label(4), "4");
    assert_eq!(rank_label(12), "12");
    assert_eq!(rank_label(105), "105");
    assert_eq!(scoreboard_title(2, 3), "👑 👑 👑 Scores (2/3) 👑 👑 👑");
}

#[test]
fn store_lookups_follow_the_turn() {
    let mut s = Store::new();
    assert!(Game::get(&s, GUILD, CHAN).is_none());
    s.start_game(0, GUILD, CHAN, 1).unwrap();
    let g = Game::get(&s, GUILD, CHAN).unwrap();
    assert_eq!(g.channel(), CHAN);
    assert!(Participation::get_current(&s, g.id).is_none());
    let (g2, none_part) = Game::get_with_part(&s, GUILD, CHAN).unwrap();
    assert_eq!(g2.id, g.id);
    assert!(none_part.is_none());
    s.submit_picture(1, GUILD, CHAN, 7, "http://x/p.png".to_owned()).unwrap();
    let p = Participation::get_current(&s, g.id).unwrap();
    assert_eq!(p.player(), 7);
    assert_eq!(p.picture_url.as_deref(), Some("http://x/p.png"));
    let (_, part) = Game::get_with_part(&s, GUILD, CHAN).unwrap();
    assert_eq!(part.unwrap().player(), 7);
}
