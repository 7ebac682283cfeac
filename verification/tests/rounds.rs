use spacetime_trivia::bootstrap::init;
use spacetime_trivia::lobby::join_lobby;
use spacetime_trivia::round::{pick_index, points, score_round, start_game, submit_answer};
use spacetime_trivia::store::Store;
use spacetime_trivia::types::{
    Answer, CrowdMeterStats, GameError, Identity, LobbyStatus, RoundStatus,
};

const BOT_1: Identity = Identity { hi: 0, lo: 1 };
const BOT_2: Identity = Identity { hi: 0, lo: 2 };
const BOT_3: Identity = Identity { hi: 0, lo: 3 };
const NOW: i64 = 1_700_000_000_000_003;

fn fresh() -> Store {
    let mut store = Store::new();
    assert!(init(&mut store));
    store
}

/// A lobby hosted by the first caller with one round in progress.
fn setup_game_for_round_tests(store: &mut Store) -> (u64, u64) {
    let lobby_id = join_lobby(store, BOT_1, Some("Round Test Lobby".to_string())).unwrap();
    let round = start_game(store, BOT_1, NOW, lobby_id).unwrap();
    store.active_round[0].status = RoundStatus::InProgress;
    (lobby_id, round.round_id)
}

fn tally(store: &Store, round_id: u64, index: u32) -> Option<CrowdMeterStats> {
    store
        .crowd_meter_stats
        .iter()
        .find(|s| s.round_id == round_id && s.answer_index == index)
        .copied()
}

#[test]
fn test_start_game_success() {
    let mut store = fresh();
    let lobby_id = join_lobby(&mut store, BOT_1, Some("Game Start Lobby".to_string())).unwrap();
    let result = start_game(&mut store, BOT_1, NOW, lobby_id);
    assert!(result.is_ok());
    let round = result.unwrap();

    assert_eq!(store.lobby[0].status, LobbyStatus::InGame);
    assert_eq!(store.active_round.len(), 1);
    let active_round = store.active_round[0];
    assert_eq!(active_round, round);
    assert_eq!(active_round.round_id, 1);
    assert_eq!(active_round.lobby_id, lobby_id);
    assert_ne!(active_round.question_id, 0);
    assert_eq!(active_round.question_id, 4);
    assert_eq!(active_round.start_time, NOW);
    assert_eq!(active_round.status, RoundStatus::Waiting);
    assert!(!active_round.is_lightning);
    assert_eq!(store.next_round_id, 2);
}

#[test]
fn test_start_game_not_host() {
    let mut store = fresh();
    let lobby_id = join_lobby(&mut store, BOT_1, Some("Not Host Lobby".to_string())).unwrap();
    let result = start_game(&mut store, BOT_2, NOW, lobby_id);
    assert_eq!(result, Err(GameError::Forbidden));
    assert_eq!(store.lobby[0].status, LobbyStatus::Waiting);
    assert!(store.active_round.is_empty());
}

#[test]
fn test_start_game_lobby_not_waiting() {
    let mut store = fresh();
    let lobby_id = join_lobby(&mut store, BOT_1, Some("Not Waiting Lobby".to_string())).unwrap();
    start_game(&mut store, BOT_1, NOW, lobby_id).unwrap();
    assert_eq!(store.lobby[0].status, LobbyStatus::InGame);

    let result = start_game(&mut store, BOT_1, NOW, lobby_id);
    assert_eq!(result, Err(GameError::InvalidState));
    assert_eq!(store.active_round.len(), 1);
}

#[test]
fn test_start_game_no_questions() {
    let mut store = Store::new();
    assert!(store.question_bank.is_empty());
    let lobby_id = join_lobby(&mut store, BOT_1, Some("No Questions Lobby".to_string())).unwrap();
    let result = start_game(&mut store, BOT_1, NOW, lobby_id);
    assert_eq!(result, Err(GameError::NoContent));
    assert_eq!(store.lobby[0].status, LobbyStatus::Waiting);
    assert!(store.active_round.is_empty());
}

#[test]
fn start_game_unknown_lobby() {
    let mut store = fresh();
    join_lobby(&mut store, BOT_1, None).unwrap();
    assert_eq!(start_game(&mut store, BOT_1, NOW, 99), Err(GameError::NotFound));
}

#[test]
fn start_game_fails_when_no_round_id_is_left() {
    let mut store = fresh();
    let lobby_id = join_lobby(&mut store, BOT_1, None).unwrap();
    store.next_round_id = u64::MAX;
    store.lobby[0].next_round_is_lightning = true;
    assert_eq!(start_game(&mut store, BOT_1, NOW, lobby_id), Err(GameError::StoreFailure));
    assert_eq!(store.lobby[0].status, LobbyStatus::Waiting);
    assert!(store.lobby[0].next_round_is_lightning);
}

#[test]
fn the_start_time_picks_the_question() {
    assert_eq!(pick_index(0, 10), 0);
    assert_eq!(pick_index(23, 10), 3);
    assert_eq!(pick_index(i64::MAX, 10), 7);
    assert_eq!(pick_index(-1, 10), 9);
    assert_eq!(pick_index(-10, 10), 0);
    assert_eq!(pick_index(-11, 10), 9);
    assert_eq!(pick_index(i64::MIN, 10), 2);
    assert_eq!(pick_index(-5, 1), 0);

    let mut store = fresh();
    let lobby_id = join_lobby(&mut store, BOT_1, None).unwrap();
    let round = start_game(&mut store, BOT_1, -1, lobby_id).unwrap();
    assert_eq!(round.question_id, 10);
}

#[test]
fn test_start_game_creates_lightning_round() {
    let mut store = fresh();
    let lobby_id = join_lobby(&mut store, BOT_1, Some("Lightning Round Game".to_string())).unwrap();
    store.lobby[0].next_round_is_lightning = true;
    let round = start_game(&mut store, BOT_1, NOW, lobby_id).unwrap();
    assert!(round.is_lightning);
    assert!(store.active_round[0].is_lightning);
    assert!(!store.lobby[0].next_round_is_lightning);
}

#[test]
fn test_submit_answer_success() {
    let mut store = fresh();
    let (_lobby_id, round_id) = setup_game_for_round_tests(&mut store);
    join_lobby(&mut store, BOT_2, None).unwrap();

    let result = submit_answer(&mut store, BOT_2, round_id, 0);
    assert!(result.is_ok());
    assert_eq!(store.answer.len(), 1);
    let submitted = store.answer[0];
    assert_eq!(Ok(submitted), result);
    assert_eq!(submitted.answer_id, 1);
    assert_eq!(submitted.round_id, round_id);
    assert_eq!(submitted.player_id, BOT_2);
    assert_eq!(submitted.chosen_answer_index, 0);
    assert!(submitted.score.is_none());
    assert_eq!(tally(&store, round_id, 0).unwrap().count, 1);
}

#[test]
fn test_submit_answer_round_not_in_progress() {
    let mut store = fresh();
    let lobby_id = join_lobby(&mut store, BOT_1, Some("Round Not Progress Lobby".to_string())).unwrap();
    let round = start_game(&mut store, BOT_1, NOW, lobby_id).unwrap();
    join_lobby(&mut store, BOT_2, None).unwrap();
    let result = submit_answer(&mut store, BOT_2, round.round_id, 0);
    assert_eq!(result, Err(GameError::InvalidState));
    assert!(store.answer.is_empty());
    assert!(store.crowd_meter_stats.is_empty());
}

#[test]
fn test_submit_answer_twice_by_same_player() {
    let mut store = fresh();
    let (_lobby_id, round_id) = setup_game_for_round_tests(&mut store);
    join_lobby(&mut store, BOT_2, None).unwrap();
    submit_answer(&mut store, BOT_2, round_id, 0).unwrap();

    let result = submit_answer(&mut store, BOT_2, round_id, 1);
    assert_eq!(result, Err(GameError::DuplicateSubmission));
    assert_eq!(store.answer.len(), 1);
    assert_eq!(tally(&store, round_id, 0).unwrap().count, 1);
    assert!(tally(&store, round_id, 1).is_none());
}

#[test]
fn test_submit_answer_round_not_found() {
    let mut store = fresh();
    join_lobby(&mut store, BOT_1, None).unwrap();
    let result = submit_answer(&mut store, BOT_1, 99999, 0);
    assert_eq!(result, Err(GameError::NotFound));
}

#[test]
fn submit_answer_fails_when_no_answer_id_is_left() {
    let mut store = fresh();
    let (_lobby_id, round_id) = setup_game_for_round_tests(&mut store);
    store.next_answer_id = u64::MAX;
    assert_eq!(submit_answer(&mut store, BOT_2, round_id, 0), Err(GameError::StoreFailure));
    assert!(store.answer.is_empty());
    assert!(store.crowd_meter_stats.is_empty());
}

#[test]
fn test_submit_answer_updates_crowd_meter_stats_new_entry() {
    let mut store = fresh();
    let (_lobby_id, round_id) = setup_game_for_round_tests(&mut store);
    join_lobby(&mut store, BOT_2, None).unwrap();
    submit_answer(&mut store, BOT_2, round_id, 1).unwrap();
    let stats = tally(&store, round_id, 1);
    assert!(stats.is_some());
    assert_eq!(stats.unwrap().count, 1);
}

#[test]
fn test_submit_answer_updates_crowd_meter_stats_increments_existing() {
    let mut store = fresh();
    let (_lobby_id, round_id) = setup_game_for_round_tests(&mut store);
    join_lobby(&mut store, BOT_2, None).unwrap();
    submit_answer(&mut store, BOT_2, round_id, 2).unwrap();
    join_lobby(&mut store, BOT_3, None).unwrap();
    submit_answer(&mut store, BOT_3, round_id, 2).unwrap();
    let stats = tally(&store, round_id, 2);
    assert!(stats.is_some());
    assert_eq!(stats.unwrap().count, 2);
    assert_eq!(store.crowd_meter_stats.len(), 1);
}

#[test]
fn test_submit_answer_updates_crowd_meter_stats_multiple_indices() {
    let mut store = fresh();
    let (_lobby_id, round_id) = setup_game_for_round_tests(&mut store);
    submit_answer(&mut store, BOT_1, round_id, 0).unwrap();
    join_lobby(&mut store, BOT_2, None).unwrap();
    submit_answer(&mut store, BOT_2, round_id, 1).unwrap();
    join_lobby(&mut store, BOT_3, None).unwrap();
    submit_answer(&mut store, BOT_3, round_id, 0).unwrap();
    assert_eq!(tally(&store, round_id, 0).unwrap().count, 2);
    assert_eq!(tally(&store, round_id, 1).unwrap().count, 1);
}

#[test]
fn a_full_tally_stays_and_the_answer_is_kept() {
    let mut store = fresh();
    let (_lobby_id, round_id) = setup_game_for_round_tests(&mut store);
    store.crowd_meter_stats.push(CrowdMeterStats { round_id, answer_index: 3, count: u32::MAX });
    assert!(submit_answer(&mut store, BOT_2, round_id, 3).is_ok());
    assert_eq!(store.answer.len(), 1);
    assert_eq!(tally(&store, round_id, 3).unwrap().count, u32::MAX);
}

#[test]
fn points_double_in_a_lightning_round() {
    assert_eq!(points(0, false), 10);
    assert_eq!(points(0, true), 20);
    assert_eq!(points(1, false), 0);
    assert_eq!(points(3, true), 0);
}

#[test]
fn test_score_round_success_updates_scores_and_statuses() {
    let mut store = fresh();
    let (_lobby_id, round_id) = setup_game_for_round_tests(&mut store);
    join_lobby(&mut store, BOT_2, None).unwrap();
    submit_answer(&mut store, BOT_2, round_id, 0).unwrap();
    join_lobby(&mut store, BOT_3, None).unwrap();
    submit_answer(&mut store, BOT_3, round_id, 1).unwrap();

    let result = score_round(&mut store, BOT_1, round_id);
    assert_eq!(result, Ok(vec![]));

    let answer_bot2 = store.answer.iter().find(|a| a.player_id == BOT_2).unwrap();
    assert_eq!(answer_bot2.score, Some(10));
    let answer_bot3 = store.answer.iter().find(|a| a.player_id == BOT_3).unwrap();
    assert_eq!(answer_bot3.score, Some(0));

    let score_of = |id: Identity| store.player.iter().find(|p| p.player_id == id).unwrap().score;
    assert_eq!(score_of(BOT_1), 0);
    assert_eq!(score_of(BOT_2), 10);
    assert_eq!(score_of(BOT_3), 0);
    assert_eq!(store.active_round[0].status, RoundStatus::Finished);
}

#[test]
fn test_score_round_not_host() {
    let mut store = fresh();
    let (_lobby_id, round_id) = setup_game_for_round_tests(&mut store);
    join_lobby(&mut store, BOT_2, None).unwrap();
    submit_answer(&mut store, BOT_2, round_id, 0).unwrap();

    let result = score_round(&mut store, BOT_2, round_id);
    assert_eq!(result, Err(GameError::Forbidden));
    assert_eq!(store.active_round[0].status, RoundStatus::InProgress);
    assert_eq!(store.answer[0].score, None);
}

#[test]
fn test_score_round_not_in_progress() {
    let mut store = fresh();
    let lobby_id = join_lobby(&mut store, BOT_1, Some("Score Not Progress Lobby".to_string())).unwrap();
    let round = start_game(&mut store, BOT_1, NOW, lobby_id).unwrap();
    assert_eq!(round.status, RoundStatus::Waiting);
    let result = score_round(&mut store, BOT_1, round.round_id);
    assert_eq!(result, Err(GameError::InvalidState));
}

#[test]
fn a_round_is_scored_only_once() {
    let mut store = fresh();
    let (_lobby_id, round_id) = setup_game_for_round_tests(&mut store);
    join_lobby(&mut store, BOT_2, None).unwrap();
    submit_answer(&mut store, BOT_2, round_id, 0).unwrap();
    score_round(&mut store, BOT_1, round_id).unwrap();
    assert_eq!(score_round(&mut store, BOT_1, round_id), Err(GameError::InvalidState));
    assert_eq!(store.player[1].score, 10);

    store.active_round[0].status = RoundStatus::Scoring;
    assert_eq!(score_round(&mut store, BOT_1, round_id), Err(GameError::InvalidState));
    assert_eq!(store.player[1].score, 10);
    assert_eq!(store.answer[0].score, Some(10));
    assert_eq!(store.active_round[0].status, RoundStatus::Scoring);
}

#[test]
fn score_round_unknown_round_lobby_or_question() {
    let mut store = fresh();
    let (_lobby_id, round_id) = setup_game_for_round_tests(&mut store);
    assert_eq!(score_round(&mut store, BOT_1, round_id + 1), Err(GameError::NotFound));

    store.active_round[0].question_id = 77;
    assert_eq!(score_round(&mut store, BOT_1, round_id), Err(GameError::NotFound));
    assert_eq!(store.active_round[0].status, RoundStatus::InProgress);

    store.active_round[0].lobby_id = 55;
    assert_eq!(score_round(&mut store, BOT_1, round_id), Err(GameError::NotFound));
}

#[test]
fn test_score_round_double_points_for_lightning_round() {
    let mut store = fresh();
    let lobby_id = join_lobby(&mut store, BOT_1, Some("Double Points Lobby".to_string())).unwrap();
    store.lobby[0].next_round_is_lightning = true;
    let round = start_game(&mut store, BOT_1, NOW, lobby_id).unwrap();
    store.active_round[0].status = RoundStatus::InProgress;
    assert!(store.active_round[0].is_lightning);

    join_lobby(&mut store, BOT_2, None).unwrap();
    submit_answer(&mut store, BOT_2, round.round_id, 0).unwrap();
    score_round(&mut store, BOT_1, round.round_id).unwrap();

    let player_bot2 = store.player.iter().find(|p| p.player_id == BOT_2).unwrap();
    assert_eq!(player_bot2.score, 20);
    assert_eq!(player_bot2.elo, 1200);
    assert_eq!(store.answer[0].score, Some(20));
}

#[test]
fn scoring_leaves_other_rounds_and_unknown_players_alone() {
    let mut store = fresh();
    let (_lobby_id, round_id) = setup_game_for_round_tests(&mut store);
    join_lobby(&mut store, BOT_2, None).unwrap();
    submit_answer(&mut store, BOT_2, round_id, 0).unwrap();
    // an answer of another round, and one of a caller without a player record
    store.answer.push(Answer {
        answer_id: 50,
        round_id: round_id + 1,
        player_id: BOT_2,
        chosen_answer_index: 0,
        score: None,
    });
    submit_answer(&mut store, BOT_3, round_id, 0).unwrap();

    let unpaid = score_round(&mut store, BOT_1, round_id).unwrap();
    assert_eq!(unpaid, vec![2]);
    assert_eq!(store.answer[0].score, Some(10));
    assert_eq!(store.answer[1].score, None);
    assert_eq!(store.answer[2].score, Some(10));
    assert_eq!(store.player.len(), 2);
    assert_eq!(store.player[1].score, 10);
}

#[test]
fn a_score_at_its_limit_stays() {
    let mut store = fresh();
    let (_lobby_id, round_id) = setup_game_for_round_tests(&mut store);
    join_lobby(&mut store, BOT_2, None).unwrap();
    store.player[1].score = u32::MAX - 9;
    submit_answer(&mut store, BOT_2, round_id, 0).unwrap();
    assert_eq!(score_round(&mut store, BOT_1, round_id), Ok(vec![1]));
    assert_eq!(store.answer[0].score, Some(10));
    assert_eq!(store.player[1].score, u32::MAX - 9);

    store.active_round[0].status = RoundStatus::InProgress;
    store.player[1].score = u32::MAX - 10;
    assert_eq!(score_round(&mut store, BOT_1, round_id), Ok(vec![]));
    assert_eq!(store.player[1].score, u32::MAX);
}
