use spacetime_trivia::bootstrap::init;
use spacetime_trivia::lobby::{join_lobby, pick_name, resolve_or_create_player};
use spacetime_trivia::store::{next_free_id, Store};
use spacetime_trivia::text::{decimal, is_blank};
use spacetime_trivia::types::{GameError, Identity, LobbyStatus};

const BOT_1: Identity = Identity { hi: 0, lo: 1 };
const BOT_2: Identity = Identity { hi: 0, lo: 2 };
const BOT_3: Identity = Identity { hi: 0, lo: 3 };

fn fresh() -> Store {
    let mut store = Store::new();
    assert!(init(&mut store));
    store
}

#[test]
fn test_join_lobby_new_player_new_lobby() {
    let mut store = fresh();
    let lobby_name = Some("First Lobby".to_string());
    let result = join_lobby(&mut store, BOT_1, lobby_name.clone());
    assert_eq!(result, Ok(1));

    assert_eq!(store.player.len(), 1);
    let player1 = &store.player[0];
    assert_eq!(player1.player_id, BOT_1);
    assert!(player1.name.starts_with("Player_"));
    assert_eq!(player1.score, 0);
    assert_eq!(player1.elo, 1200);

    assert_eq!(store.lobby.len(), 1);
    let lobby1 = &store.lobby[0];
    assert_eq!(lobby1.lobby_id, 1);
    assert_eq!(lobby1.name, lobby_name);
    assert_eq!(lobby1.status, LobbyStatus::Waiting);
    assert_eq!(lobby1.host_id, BOT_1);
    assert!(!lobby1.next_round_is_lightning);
}

#[test]
fn test_join_lobby_multiple_players_join_same_lobby() {
    let mut store = fresh();
    let lobby_name_bot1 = Some("Party Lobby".to_string());
    let first = join_lobby(&mut store, BOT_1, lobby_name_bot1.clone());
    let second = join_lobby(&mut store, BOT_2, None);
    assert_eq!(first, Ok(1));
    assert_eq!(second, Ok(1));

    assert_eq!(store.player.len(), 2);
    assert_eq!(store.lobby.len(), 1);
    assert_eq!(store.lobby[0].host_id, BOT_1);
    assert_eq!(store.lobby[0].name, lobby_name_bot1);
}

#[test]
fn test_join_lobby_existing_player_rejoins() {
    let mut store = fresh();
    let res1 = join_lobby(&mut store, BOT_1, Some("Rejoin Test Lobby".to_string()));
    assert!(res1.is_ok());
    assert_eq!(store.player.len(), 1);
    assert_eq!(store.lobby.len(), 1);

    let res2 = join_lobby(&mut store, BOT_1, None);
    assert_eq!(res2, res1);
    assert_eq!(store.player.len(), 1);
    assert_eq!(store.lobby.len(), 1);
}

#[test]
fn join_opens_a_new_lobby_once_the_first_is_in_game() {
    let mut store = fresh();
    join_lobby(&mut store, BOT_1, None).unwrap();
    store.lobby[0].status = LobbyStatus::InGame;
    assert_eq!(join_lobby(&mut store, BOT_2, Some("Second".to_string())), Ok(2));
    assert_eq!(store.lobby.len(), 2);
    assert_eq!(store.lobby[1].host_id, BOT_2);
    assert_eq!(store.lobby[1].status, LobbyStatus::Waiting);
    assert_eq!(store.next_lobby_id, 3);
}

#[test]
fn player_name_is_the_start_of_the_identity_in_hex() {
    let mut store = Store::new();
    let id = Identity { hi: 0x0123_4567_89ab_cdef_0000_0000_0000_0000, lo: 7 };
    let player = resolve_or_create_player(&mut store, id).unwrap();
    assert_eq!(player.name, "Player_01234567");
    let other = Identity { hi: 0xdead_beef_0000_0000_0000_0000_0000_0000, lo: 0 };
    let player = resolve_or_create_player(&mut store, other).unwrap();
    assert_eq!(player.name, "Player_deadbeef");
}

#[test]
fn players_with_the_same_prefix_get_numbered_names() {
    let mut store = Store::new();
    let first = resolve_or_create_player(&mut store, BOT_1).unwrap();
    let second = resolve_or_create_player(&mut store, BOT_2).unwrap();
    let third = resolve_or_create_player(&mut store, BOT_3).unwrap();
    assert_eq!(first.name, "Player_00000000");
    assert_eq!(second.name, "Player_00000000_1");
    assert_eq!(third.name, "Player_00000000_2");
    assert_eq!(pick_name(&store, Identity { hi: 0, lo: 9 }), Some("Player_00000000_3".to_string()));
}

#[test]
fn a_freed_number_is_taken_again() {
    let mut store = Store::new();
    resolve_or_create_player(&mut store, BOT_1).unwrap();
    resolve_or_create_player(&mut store, BOT_2).unwrap();
    resolve_or_create_player(&mut store, BOT_3).unwrap();
    store.player[1].name = "Renamed".to_string();
    assert_eq!(pick_name(&store, Identity { hi: 0, lo: 9 }), Some("Player_00000000_1".to_string()));
}

#[test]
fn resolving_twice_gives_the_same_record() {
    let mut store = Store::new();
    let first = resolve_or_create_player(&mut store, BOT_1).unwrap();
    store.player[0].score = 30;
    store.player[0].elo = 1250;
    let second = resolve_or_create_player(&mut store, BOT_1).unwrap();
    assert_eq!(store.player.len(), 1);
    assert_eq!(second.player_id, first.player_id);
    assert_eq!(second.name, first.name);
    assert_eq!(second.score, 30);
    assert_eq!(second.elo, 1250);
}

#[test]
fn join_fails_when_no_lobby_id_is_left() {
    let mut store = Store::new();
    store.next_lobby_id = u64::MAX;
    assert_eq!(join_lobby(&mut store, BOT_1, None), Err(GameError::LobbyCreateFailed));
    assert!(store.player.is_empty());
    assert!(store.lobby.is_empty());
    assert_eq!(store.next_lobby_id, u64::MAX);
}

#[test]
fn init_fills_an_empty_bank_once() {
    let mut store = Store::new();
    assert!(init(&mut store));
    assert_eq!(store.question_bank.len(), 10);
    assert_eq!(store.next_question_id, 11);
    let first = &store.question_bank[0];
    assert_eq!(first.question_id, 1);
    assert_eq!(first.text, "What is the capital of France?");
    assert_eq!(first.correct_answer, "Paris");
    assert_eq!(first.wrong_answers, vec!["London".to_string(), "Berlin".to_string(), "Madrid".to_string()]);
    assert_eq!(first.topic, "Geography");
    assert_eq!(first.difficulty, "Easy");
    assert_eq!(first.quality_score, 0);
    assert_eq!(first.origin_agent, None);
    let last = &store.question_bank[9];
    assert_eq!(last.question_id, 10);
    assert_eq!(last.correct_answer, "O(log n)");
    assert_eq!(last.wrong_answers.len(), 3);

    assert!(!init(&mut store));
    assert_eq!(store.question_bank.len(), 10);
    assert_eq!(store.next_question_id, 11);
}

#[test]
fn init_needs_ids_for_the_whole_bank() {
    let mut store = Store::new();
    store.next_question_id = u64::MAX - 9;
    assert!(!init(&mut store));
    assert!(store.question_bank.is_empty());
    store.next_question_id = u64::MAX - 10;
    assert!(init(&mut store));
    assert_eq!(store.question_bank[9].question_id, u64::MAX - 1);
    assert_eq!(store.next_question_id, u64::MAX);
}

#[test]
fn decimal_writes_numbers_without_leading_zeros() {
    assert_eq!(decimal(0), "0");
    assert_eq!(decimal(7), "7");
    assert_eq!(decimal(10), "10");
    assert_eq!(decimal(1203), "1203");
    assert_eq!(decimal(u64::MAX), "18446744073709551615");
}

#[test]
fn blank_texts_hold_white_space_only() {
    assert!(is_blank(""));
    assert!(is_blank(" "));
    assert!(is_blank(" \t\r\n"));
    assert!(!is_blank(" x "));
    assert!(!is_blank("{}"));
}

#[test]
fn a_counter_starts_after_the_highest_id() {
    assert_eq!(next_free_id(&vec![]), 1);
    assert_eq!(next_free_id(&vec![1, 2, 3]), 4);
    assert_eq!(next_free_id(&vec![7, 2, 5]), 8);
    assert_eq!(next_free_id(&vec![0]), 1);
    assert_eq!(next_free_id(&vec![3, u64::MAX - 1]), u64::MAX);
    assert_eq!(next_free_id(&vec![u64::MAX, 3]), u64::MAX);
}
