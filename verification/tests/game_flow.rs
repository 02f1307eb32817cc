//! The turn state machine, end to end: starting games, posting pictures,
//! skipping, winning, and the invariants around the current turn.

use bot_ticelli::error::Error;
use bot_ticelli::machine::{ChangeOutcome, PicOutcome, SkipOutcome, SubmitOutcome, WinOutcome};
use bot_ticelli::scoreboard::ShowOutcome;
use bot_ticelli::store::Store;

const GUILD: u64 = 10;
const CHAN: u64 = 20;
const ALICE: u64 = 101;
const BOB: u64 = 102;
const CAROL: u64 = 103;

fn open_turns(s: &Store, gid: u64) -> usize {
    s.parts.iter().filter(|p| p.game_id == gid && !p.is_win && !p.is_skip).count()
}

#[test]
fn start_creates_one_game() {
    let mut s = Store::new();
    let gid = s.start_game(0, GUILD, CHAN, ALICE).unwrap();
    assert_eq!(s.games.len(), 1);
    assert_eq!(s.games[0].id, gid);
    assert_eq!(s.games[0].guild_id, GUILD);
    assert_eq!(s.games[0].channel_id, CHAN);
    assert_eq!(s.games[0].creator_id, ALICE);
    assert!(s.parts.is_empty());
}

#[test]
fn second_start_is_refused() {
    let mut s = Store::new();
    s.start_game(0, GUILD, CHAN, ALICE).unwrap();
    assert_eq!(s.start_game(1, GUILD, CHAN, BOB), Err(Error::GameAlreadyExists));
    assert_eq!(s.games.len(), 1);
}

#[test]
fn games_in_other_channels_are_independent() {
    let mut s = Store::new();
    s.start_game(0, GUILD, CHAN, ALICE).unwrap();
    s.start_game(0, GUILD, CHAN + 1, BOB).unwrap();
    assert_eq!(s.games.len(), 2);
}

#[test]
fn picture_in_channel_without_game_is_no_game() {
    let mut s = Store::new();
    let r = s.submit_picture(0, GUILD, CHAN, ALICE, "http://x/1.png".to_owned());
    assert_eq!(r, Ok(SubmitOutcome::NoGame));
    assert!(s.parts.is_empty());
}

#[test]
fn first_picture_opens_the_turn() {
    let mut s = Store::new();
    let gid = s.start_game(0, GUILD, CHAN, ALICE).unwrap();
    let r = s.submit_picture(5, GUILD, CHAN, ALICE, "http://x/1.png".to_owned());
    assert_eq!(r, Ok(SubmitOutcome::NewTurn));
    assert_eq!(open_turns(&s, gid), 1);
    let p = &s.parts[0];
    assert_eq!(p.player_id, ALICE);
    assert_eq!(p.picture_url.as_deref(), Some("http://x/1.png"));
    assert_eq!(p.updated_at, 5);
}

#[test]
fn someone_elses_picture_is_ignored() {
    let mut s = Store::new();
    s.start_game(0, GUILD, CHAN, ALICE).unwrap();
    s.submit_picture(5, GUILD, CHAN, ALICE, "http://x/1.png".to_owned()).unwrap();
    let r = s.submit_picture(6, GUILD, CHAN, BOB, "http://x/2.png".to_owned());
    assert_eq!(r, Ok(SubmitOutcome::Ignored));
    assert_eq!(s.parts.len(), 1);
    assert_eq!(s.parts[0].picture_url.as_deref(), Some("http://x/1.png"));
}

#[test]
fn second_picture_of_the_holder_is_refused() {
    let mut s = Store::new();
    s.start_game(0, GUILD, CHAN, ALICE).unwrap();
    s.submit_picture(5, GUILD, CHAN, ALICE, "http://x/1.png".to_owned()).unwrap();
    let r = s.submit_picture(6, GUILD, CHAN, ALICE, "http://x/2.png".to_owned());
    assert_eq!(r, Err(Error::PicAlreadyPosted));
}

#[test]
fn change_clears_the_picture_and_reposting_works() {
    let mut s = Store::new();
    s.start_game(0, GUILD, CHAN, ALICE).unwrap();
    s.submit_picture(5, GUILD, CHAN, ALICE, "http://x/1.png".to_owned()).unwrap();
    assert_eq!(s.change_picture(6, GUILD, CHAN, BOB), Err(Error::NotYourTurn));
    assert_eq!(s.change_picture(6, GUILD, CHAN, ALICE), Ok(ChangeOutcome::PictureCleared));
    assert_eq!(s.parts[0].picture_url, None);
    assert_eq!(s.parts[0].updated_at, 6);
    let r = s.submit_picture(7, GUILD, CHAN, ALICE, "http://x/2.png".to_owned());
    assert_eq!(r, Ok(SubmitOutcome::PictureAttached));
    assert_eq!(s.parts[0].picture_url.as_deref(), Some("http://x/2.png"));
}

#[test]
fn current_picture_reports_the_state() {
    let mut s = Store::new();
    assert_eq!(s.current_picture(GUILD, CHAN), Ok(PicOutcome::NoGame));
    s.start_game(0, GUILD, CHAN, ALICE).unwrap();
    assert_eq!(s.current_picture(GUILD, CHAN), Err(Error::NoParticipant));
    s.submit_picture(5, GUILD, CHAN, ALICE, "http://x/1.png".to_owned()).unwrap();
    assert_eq!(
        s.current_picture(GUILD, CHAN),
        Ok(PicOutcome::Posted { player: ALICE, url: "http://x/1.png".to_owned() })
    );
    s.change_picture(6, GUILD, CHAN, ALICE).unwrap();
    assert_eq!(s.current_picture(GUILD, CHAN), Ok(PicOutcome::Awaiting { player: ALICE }));
}

#[test]
fn skip_needs_a_turn_and_its_holder() {
    let mut s = Store::new();
    assert_eq!(s.skip(1, GUILD, CHAN, ALICE, false), Ok(SkipOutcome::NoGame));
    s.start_game(0, GUILD, CHAN, ALICE).unwrap();
    assert_eq!(s.skip(1, GUILD, CHAN, ALICE, false), Err(Error::NoParticipant));
    s.submit_picture(5, GUILD, CHAN, ALICE, "http://x/1.png".to_owned()).unwrap();
    assert_eq!(s.skip(6, GUILD, CHAN, BOB, false), Err(Error::NotYourTurn));
    assert_eq!(s.skip(6, GUILD, CHAN, ALICE, false), Ok(SkipOutcome::Skipped { player: ALICE }));
    assert!(s.parts[0].is_skip);
    assert_eq!(s.parts[0].skipped_at, Some(6));
    // No score effect and no hand-off.
    assert!(s.wins.is_empty());
    assert_eq!(open_turns(&s, s.games[0].id), 0);
}

#[test]
fn forced_skip_bypasses_ownership() {
    let mut s = Store::new();
    s.start_game(0, GUILD, CHAN, ALICE).unwrap();
    s.submit_picture(5, GUILD, CHAN, ALICE, "http://x/1.png".to_owned()).unwrap();
    assert_eq!(s.skip(6, GUILD, CHAN, BOB, true), Ok(SkipOutcome::Skipped { player: ALICE }));
}

#[test]
fn win_checks_turn_picture_bot_and_self() {
    let mut s = Store::new();
    assert_eq!(s.win(1, GUILD, CHAN, ALICE, BOB, false, false), Ok(WinOutcome::NoGame));
    s.start_game(0, GUILD, CHAN, ALICE).unwrap();
    assert_eq!(s.win(1, GUILD, CHAN, ALICE, BOB, false, false), Err(Error::NoParticipant));
    s.submit_picture(5, GUILD, CHAN, ALICE, "http://x/1.png".to_owned()).unwrap();
    assert_eq!(s.win(6, GUILD, CHAN, BOB, CAROL, false, false), Err(Error::NotYourTurn));
    s.change_picture(6, GUILD, CHAN, ALICE).unwrap();
    assert_eq!(s.win(7, GUILD, CHAN, ALICE, BOB, false, false), Err(Error::YouPostedNoPic));
    s.submit_picture(8, GUILD, CHAN, ALICE, "http://x/2.png".to_owned()).unwrap();
    assert_eq!(s.win(9, GUILD, CHAN, ALICE, BOB, true, false), Err(Error::StfuBot));
    assert_eq!(s.win(9, GUILD, CHAN, ALICE, ALICE, false, false), Err(Error::SelfWin));
    assert!(s.wins.is_empty());
}

#[test]
fn win_hands_the_turn_to_the_winner() {
    let mut s = Store::new();
    let gid = s.start_game(0, GUILD, CHAN, ALICE).unwrap();
    s.submit_picture(5, GUILD, CHAN, ALICE, "http://x/1.png".to_owned()).unwrap();
    let r = s.win(6, GUILD, CHAN, ALICE, BOB, false, false).unwrap();
    let win_id = match r {
        WinOutcome::Won { win_id } => win_id,
        other => panic!("expected a win, got {other:?}"),
    };
    // The ledger entry credits the winner with one point.
    assert_eq!(s.wins.len(), 1);
    assert_eq!(s.wins[0].id, win_id);
    assert_eq!(s.wins[0].player_id, ALICE);
    assert_eq!(s.wins[0].winner_id, BOB);
    assert_eq!(s.wins[0].score, 1);
    assert!(!s.wins[0].reset);
    // The old turn is closed and linked; the winner owns the fresh one.
    assert!(s.parts[0].is_win);
    assert_eq!(s.parts[0].won_at, Some(6));
    assert_eq!(s.parts[0].win_id, Some(win_id));
    assert_eq!(open_turns(&s, gid), 1);
    assert_eq!(s.parts[1].player_id, BOB);
    assert_eq!(s.parts[1].picture_url, None);
}

#[test]
fn forced_win_bypasses_ownership_and_self_check() {
    let mut s = Store::new();
    s.start_game(0, GUILD, CHAN, ALICE).unwrap();
    s.submit_picture(5, GUILD, CHAN, ALICE, "http://x/1.png".to_owned()).unwrap();
    let r = s.win(6, GUILD, CHAN, CAROL, ALICE, false, true);
    assert!(matches!(r, Ok(WinOutcome::Won { .. })));
    assert_eq!(s.wins[0].player_id, CAROL);
    assert_eq!(s.wins[0].winner_id, ALICE);
    assert_eq!(s.wins[0].score, 1);
}

#[test]
fn handoff_lets_the_winner_post_at_once() {
    // Win(channel, A, B) followed immediately by SubmitPicture(channel, B, ...)
    // always succeeds and B then holds the turn.
    let mut s = Store::new();
    let gid = s.start_game(0, GUILD, CHAN, ALICE).unwrap();
    s.submit_picture(5, GUILD, CHAN, ALICE, "http://x/1.png".to_owned()).unwrap();
    s.win(6, GUILD, CHAN, ALICE, BOB, false, false).unwrap();
    let r = s.submit_picture(7, GUILD, CHAN, BOB, "http://x/2.png".to_owned());
    assert_eq!(r, Ok(SubmitOutcome::PictureAttached));
    let open: Vec<_> =
        s.parts.iter().filter(|p| p.game_id == gid && !p.is_win && !p.is_skip).collect();
    assert_eq!(open.len(), 1);
    assert_eq!(open[0].player_id, BOB);
    assert_eq!(open[0].picture_url.as_deref(), Some("http://x/2.png"));
}

#[test]
fn at_most_one_open_turn_throughout() {
    let mut s = Store::new();
    let gid = s.start_game(0, GUILD, CHAN, ALICE).unwrap();
    assert!(open_turns(&s, gid) <= 1);
    s.submit_picture(1, GUILD, CHAN, ALICE, "u1".to_owned()).unwrap();
    assert!(open_turns(&s, gid) <= 1);
    s.win(2, GUILD, CHAN, ALICE, BOB, false, false).unwrap();
    assert!(open_turns(&s, gid) <= 1);
    s.submit_picture(3, GUILD, CHAN, BOB, "u2".to_owned()).unwrap();
    assert!(open_turns(&s, gid) <= 1);
    s.win(4, GUILD, CHAN, BOB, CAROL, false, false).unwrap();
    assert!(open_turns(&s, gid) <= 1);
    s.skip(5, GUILD, CHAN, CAROL, false).unwrap();
    assert!(open_turns(&s, gid) == 0);
    s.submit_picture(6, GUILD, CHAN, ALICE, "u3".to_owned()).unwrap();
    assert!(open_turns(&s, gid) == 1);
}

#[test]
fn game_scenario_win_then_skip_keeps_score() {
    // Game in channel C; A posts a picture; A crowns B; the board reads
    // B: 1; B skips without posting; no new ledger entry appears and the
    // board still reads B: 1.
    let mut s = Store::new();
    s.start_game(0, GUILD, CHAN, ALICE).unwrap();
    s.submit_picture(1, GUILD, CHAN, ALICE, "http://x/a.png".to_owned()).unwrap();
    let open: Vec<_> = s.parts.iter().filter(|p| !p.is_win && !p.is_skip).collect();
    assert_eq!(open.len(), 1);
    assert_eq!(open[0].player_id, ALICE);
    assert!(open[0].picture_url.is_some());

    s.win(2, GUILD, CHAN, ALICE, BOB, false, false).unwrap();
    assert_eq!(s.wins.len(), 1);
    assert_eq!((s.wins[0].player_id, s.wins[0].winner_id, s.wins[0].score), (ALICE, BOB, 1));

    let board = s.scoreboard(GUILD, CHAN, 1).unwrap();
    match &board {
        ShowOutcome::Page(p) => {
            assert_eq!(p.entries.len(), 1);
            assert_eq!(p.entries[0].winner, BOB);
            assert_eq!(p.entries[0].score, 1);
            assert_eq!(p.entries[0].rank, 1);
        }
        other => panic!("expected a page, got {other:?}"),
    }

    // Skip has no picture precondition: it succeeds bare-handed.
    assert_eq!(s.skip(3, GUILD, CHAN, BOB, false), Ok(SkipOutcome::Skipped { player: BOB }));
    assert_eq!(s.wins.len(), 1);
    let board2 = s.scoreboard(GUILD, CHAN, 1).unwrap();
    match &board2 {
        ShowOutcome::Page(p) => {
            assert_eq!(p.entries.len(), 1);
            assert_eq!(p.entries[0].winner, BOB);
            assert_eq!(p.entries[0].score, 1);
        }
        other => panic!("expected a page, got {other:?}"),
    }
}
