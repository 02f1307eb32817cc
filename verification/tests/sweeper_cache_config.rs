//! The timeout sweeper, the identity cache, the error messages, and the
//! configuration defaults.

use bot_ticelli::cache::{Cache, MemberInfo};
use bot_ticelli::config::{
    one, zero, AuthConfig, AutoskipConfig, BotConfig, Config, DbConfig, RatelimitConfig,
    TracingConfig,
};
use bot_ticelli::scoreboard::next_page;
use bot_ticelli::error::Error;
use bot_ticelli::store::Store;

const GUILD: u64 = 10;
const CHAN: u64 = 20;
const ALICE: u64 = 101;
const BOB: u64 = 102;

const AUTOSKIP: u32 = 600;
const WARN: u32 = 120;

fn game_with_open_turn(updated_at: i64) -> Store {
    let mut s = Store::new();
    s.start_game(0, GUILD, CHAN, ALICE).unwrap();
    s.submit_picture(updated_at, GUILD, CHAN, ALICE, "http://x/1.png".to_owned()).unwrap();
    s
}

#[test]
fn warn_pass_warns_once_inside_the_window() {
    let mut s = game_with_open_turn(0);
    // Not idle enough yet.
    assert!(s.sweep_warn((AUTOSKIP - WARN - 1) as i64, AUTOSKIP, WARN).is_empty());
    assert_eq!(s.parts[0].warned_at, None);
    // Inside the window: warned and stamped.
    let notices = s.sweep_warn((AUTOSKIP - WARN) as i64, AUTOSKIP, WARN);
    assert_eq!(notices.len(), 1);
    assert_eq!(notices[0].player, ALICE);
    assert_eq!(notices[0].game_id, s.games[0].id);
    assert_eq!(s.parts[0].warned_at, Some((AUTOSKIP - WARN) as i64));
    // Same tick again: nobody is warned twice.
    assert!(s.sweep_warn((AUTOSKIP - WARN) as i64, AUTOSKIP, WARN).is_empty());
}

#[test]
fn warn_pass_skips_turns_past_the_deadline() {
    let mut s = game_with_open_turn(0);
    // Past the skip deadline the warn pass stays silent.
    assert!(s.sweep_warn(AUTOSKIP as i64, AUTOSKIP, WARN).is_empty());
    assert_eq!(s.parts[0].warned_at, None);
}

#[test]
fn skip_pass_charges_one_penalty() {
    let mut s = game_with_open_turn(0);
    // Not overdue yet.
    assert!(s.sweep_skip((AUTOSKIP - 1) as i64, AUTOSKIP).is_empty());
    assert!(s.wins.is_empty());
    // Overdue: skipped, penalized, linked.
    let notices = s.sweep_skip(AUTOSKIP as i64, AUTOSKIP);
    assert_eq!(notices.len(), 1);
    assert_eq!(notices[0].player, ALICE);
    assert!(s.parts[0].is_skip);
    assert_eq!(s.parts[0].skipped_at, Some(AUTOSKIP as i64));
    assert_eq!(s.wins.len(), 1);
    assert_eq!(s.wins[0].player_id, ALICE);
    assert_eq!(s.wins[0].winner_id, ALICE);
    assert_eq!(s.wins[0].score, -1);
    assert_eq!(s.parts[0].win_id, Some(s.wins[0].id));
    // No hand-off: the sweeper opens no new turn.
    assert!(s.parts.iter().all(|p| p.is_win || p.is_skip));
}

#[test]
fn sweeper_never_double_penalizes() {
    // Running the sweeper twice in the same tick window leaves the store
    // as it was and charges nothing twice.
    let mut s = game_with_open_turn(0);
    let first = s.sweep_skip(AUTOSKIP as i64, AUTOSKIP);
    assert_eq!(first.len(), 1);
    let wins_after = s.wins.clone();
    let second = s.sweep_skip(AUTOSKIP as i64, AUTOSKIP);
    assert!(second.is_empty());
    assert_eq!(s.wins.len(), wins_after.len());
    // Even much later the closed turn stays untouched.
    let third = s.sweep_skip(10 * AUTOSKIP as i64, AUTOSKIP);
    assert!(third.is_empty());
    assert_eq!(s.wins.len(), wins_after.len());
}

#[test]
fn sweeper_config_values_carry() {
    let cfg = AutoskipConfig { autoskip_delay: AUTOSKIP, warn_delay: WARN };
    let mut s = game_with_open_turn(0);
    let notices = s.sweep_skip(cfg.autoskip_delay as i64, cfg.autoskip_delay);
    assert_eq!(notices.len(), 1);
}

#[test]
fn cache_lookup_and_update() {
    let mut c = Cache::new();
    assert_eq!(c.lookup_member(GUILD, ALICE), None);
    assert_eq!(c.lookup_user(ALICE), None);
    c.update(MemberInfo {
        guild: GUILD,
        user: ALICE,
        display_name: "Ali".to_owned(),
        user_name: "alice".to_owned(),
    });
    assert_eq!(c.lookup_member(GUILD, ALICE), Some("Ali".to_owned()));
    assert_eq!(c.lookup_user(ALICE), Some("alice".to_owned()));
    // The member entry is scoped by guild.
    assert_eq!(c.lookup_member(GUILD + 1, ALICE), None);
    // A later update wins.
    c.update(MemberInfo {
        guild: GUILD,
        user: ALICE,
        display_name: "Alix".to_owned(),
        user_name: "alice2".to_owned(),
    });
    assert_eq!(c.lookup_member(GUILD, ALICE), Some("Alix".to_owned()));
    assert_eq!(c.lookup_user(ALICE), Some("alice2".to_owned()));
}

#[test]
fn cache_batch_update_pre_warms() {
    let mut c = Cache::new();
    let members = vec![
        MemberInfo {
            guild: GUILD,
            user: ALICE,
            display_name: "Ali".to_owned(),
            user_name: "alice".to_owned(),
        },
        MemberInfo {
            guild: GUILD,
            user: BOB,
            display_name: "Bobby".to_owned(),
            user_name: "bob".to_owned(),
        },
    ];
    c.batch_update(&members);
    assert_eq!(c.lookup_member(GUILD, ALICE), Some("Ali".to_owned()));
    assert_eq!(c.lookup_member(GUILD, BOB), Some("Bobby".to_owned()));
    assert_eq!(c.lookup_user(BOB), Some("bob".to_owned()));
}

#[test]
fn error_messages_are_fixed() {
    assert_eq!(Error::NoParticipant.as_message(), "⁉️ Mais personne n'a la main ...");
    assert_eq!(Error::NotYourTurn.as_message(), "❌ Tut tut tut, c'est pas toi qui a la main...");
    assert_eq!(Error::YouPostedNoPic.as_message(), "🤦 Hrmpf t'as pas mis de photo toi ...");
    assert_eq!(Error::StfuBot.as_message(), "🤖 Tg le bot !");
    assert_eq!(Error::PicAlreadyPosted.as_message(), "🦜 T'as déjà mis une photo coco.");
    assert_eq!(Error::InvalidPage.as_message(), "Page invalide");
    assert_eq!(Error::InvalidResetId.as_message(), "ID de reset invalide");
    assert_eq!(Error::UnknownArguments.as_message(), "Arguments inconnus");
    assert_eq!(Error::Internal.as_message(), "Erreur interne");
}

#[test]
fn ratelimit_defaults() {
    assert_eq!(zero(), 0);
    assert_eq!(one(), 1);
}

#[test]
fn page_browsing_moves_one_page_and_stops_at_one() {
    assert_eq!(next_page(1, true), Some(2));
    assert_eq!(next_page(5, true), Some(6));
    assert_eq!(next_page(5, false), Some(4));
    assert_eq!(next_page(1, false), None);
}

#[test]
fn config_carries_its_fields() {
    let c = Config {
        auth: AuthConfig { token: "not-a-real-token".to_owned() },
        db_config: DbConfig { database_url: "postgres://localhost/game".to_owned() },
        bot_config: BotConfig {
            command_prefix: "!".to_owned(),
            win_sentences: vec!["Bravo {}, à vous la main.".to_owned()],
            ratelimit: Some(RatelimitConfig { delay: 0, time_span: 0, limit: 1 }),
            auto_skip: Some(AutoskipConfig { autoskip_delay: 600, warn_delay: 120 }),
        },
        tracing_config: Some(TracingConfig { otel: None }),
    };
    assert_eq!(c.bot_config.command_prefix, "!");
    assert_eq!(c.bot_config.auto_skip.as_ref().unwrap().warn_delay, 120);
    assert_eq!(c.bot_config.ratelimit.as_ref().unwrap().limit, 1);
    assert!(c.tracing_config.as_ref().unwrap().otel.is_none());
}

#[test]
fn warned_turns_still_get_skipped_at_the_deadline() {
    let mut s = game_with_open_turn(0);
    let warned = s.sweep_warn((AUTOSKIP - WARN) as i64, AUTOSKIP, WARN);
    assert_eq!(warned.len(), 1);
    let notices = s.sweep_skip(AUTOSKIP as i64, AUTOSKIP);
    assert_eq!(notices.len(), 1);
    assert!(s.parts[0].is_skip);
    assert_eq!(s.wins.len(), 1);
}
