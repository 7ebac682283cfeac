use spacetime_trivia::agents::{
    check_draft, register_agent, request_agent_work, submit_generated_questions,
    update_agent_job_status,
};
use spacetime_trivia::status::{
    job_status_name, lobby_status_name, parse_job_status, parse_lobby_status, parse_round_status,
    round_status_name,
};
use spacetime_trivia::bootstrap::init;
use spacetime_trivia::store::Store;
use spacetime_trivia::types::{
    GameError, Identity, JobStatus, LobbyStatus, NewQuestionData, RoundStatus,
};

const BOT_1: Identity = Identity { hi: 0, lo: 1 };

fn draft(text: &str, correct: &str, wrong: &[&str], topic: &str, difficulty: &str) -> NewQuestionData {
    NewQuestionData {
        text: text.to_string(),
        correct_answer: correct.to_string(),
        wrong_answers: wrong.iter().map(|w| w.to_string()).collect(),
        topic: topic.to_string(),
        difficulty: difficulty.to_string(),
    }
}

#[test]
fn test_request_agent_work_success() {
    let mut store = Store::new();
    let test_payload = "{\"topic\": \"Rust Programming\", \"count\": 5}".to_string();
    let result = request_agent_work(&mut store, 101, test_payload.clone());
    assert_eq!(result, Ok(1));

    assert_eq!(store.agent_job_queue.len(), 1);
    let job = &store.agent_job_queue[0];
    assert_eq!(job.agent_id, 101);
    assert_eq!(job.payload_json, test_payload);
    assert_eq!(job.status, JobStatus::Pending);
    assert_eq!(job.error_message, None);
    assert_ne!(job.job_id, 0);
    assert_eq!(request_agent_work(&mut store, 101, "more".to_string()), Ok(2));
}

#[test]
fn test_request_agent_work_empty_payload() {
    let mut store = Store::new();
    let result = request_agent_work(&mut store, 102, " ".to_string());
    assert_eq!(result, Err(GameError::InvalidInput));
    assert_eq!(request_agent_work(&mut store, 102, String::new()), Err(GameError::InvalidInput));
    assert_eq!(store.agent_job_queue.len(), 0);
    assert_eq!(store.next_job_id, 1);
}

#[test]
fn request_agent_work_fails_when_no_job_id_is_left() {
    let mut store = Store::new();
    store.next_job_id = u64::MAX;
    assert_eq!(request_agent_work(&mut store, 1, "x".to_string()), Err(GameError::StoreFailure));
    assert!(store.agent_job_queue.is_empty());
}

#[test]
fn test_register_agent_success() {
    let mut store = Store::new();
    let wasm_hash = "abcdef1234567890".to_string();
    let capabilities = vec!["generate_questions".to_string(), "moderate_chat".to_string()];
    let result = register_agent(&mut store, BOT_1, wasm_hash.clone(), capabilities.clone(), 1000);
    assert_eq!(result, Ok(1));

    assert_eq!(store.agent_registry.len(), 1);
    let agent = &store.agent_registry[0];
    assert_ne!(agent.agent_id, 0);
    assert_eq!(agent.owner_id, BOT_1);
    assert_eq!(agent.wasm_hash, wasm_hash);
    assert_eq!(agent.capabilities, capabilities);
    assert_eq!(agent.energy_quota, 1000);
}

#[test]
fn test_register_agent_empty_wasm_hash() {
    let mut store = Store::new();
    let result =
        register_agent(&mut store, BOT_1, " ".to_string(), vec!["generate_questions".to_string()], 100);
    assert_eq!(result, Err(GameError::InvalidInput));
    assert_eq!(store.agent_registry.len(), 0);
}

#[test]
fn test_register_agent_empty_capabilities_list() {
    let mut store = Store::new();
    let result = register_agent(&mut store, BOT_1, "testhash".to_string(), vec![], 100);
    assert_eq!(result, Err(GameError::InvalidInput));
    assert_eq!(store.agent_registry.len(), 0);
}

#[test]
fn register_agent_refuses_a_blank_capability() {
    let mut store = Store::new();
    let capabilities = vec!["generate_questions".to_string(), "\t".to_string()];
    let result = register_agent(&mut store, BOT_1, "testhash".to_string(), capabilities, 100);
    assert_eq!(result, Err(GameError::InvalidInput));
    store.next_agent_id = u64::MAX;
    let result = register_agent(&mut store, BOT_1, "testhash".to_string(), vec!["a".to_string()], 100);
    assert_eq!(result, Err(GameError::StoreFailure));
    assert!(store.agent_registry.is_empty());
}

#[test]
fn test_submit_generated_questions_success() {
    let mut store = Store::new();
    assert!(init(&mut store));
    let questions_to_submit = vec![
        draft("What is 2+2?", "4", &["3", "5"], "Math", "Easy"),
        draft("Capital of Rustland?", "Ferris City", &["Cargo Town"], "Programming Fun", "Medium"),
    ];
    let result = submit_generated_questions(&mut store, 1, 111, questions_to_submit);
    assert_eq!(result, Ok(2));

    let from_init = store.question_bank.iter().filter(|q| q.origin_agent.is_none()).count();
    assert_eq!(from_init, 10);
    assert_eq!(store.question_bank.len(), from_init + 2);

    let submitted_q1 = store.question_bank.iter().find(|q| q.text == "What is 2+2?").unwrap();
    assert_eq!(submitted_q1.question_id, 11);
    assert_eq!(submitted_q1.correct_answer, "4");
    assert_eq!(submitted_q1.wrong_answers, vec!["3".to_string(), "5".to_string()]);
    assert_eq!(submitted_q1.topic, "Math");
    assert_eq!(submitted_q1.difficulty, "Easy");
    assert_eq!(submitted_q1.quality_score, 0);
    assert_eq!(submitted_q1.origin_agent, Some("111".to_string()));
    assert_eq!(store.question_bank[11].text, "Capital of Rustland?");
    assert_eq!(store.question_bank[11].question_id, 12);
    assert_eq!(store.next_question_id, 13);
}

#[test]
fn test_submit_generated_questions_empty_list() {
    let mut store = Store::new();
    let result = submit_generated_questions(&mut store, 1, 112, Vec::new());
    assert_eq!(result, Err(GameError::InvalidInput));
}

#[test]
fn test_submit_generated_questions_skips_invalid() {
    let mut store = Store::new();
    assert!(init(&mut store));
    let agent_id = 113u64;
    let questions_to_submit = vec![
        draft("Valid Q", "A", &["B"], "T", "D"),
        draft("", "B", &["C"], "T", "D"),
    ];
    let tagged = |store: &Store| {
        store.question_bank.iter().filter(|q| q.origin_agent == Some(agent_id.to_string())).count()
    };
    let initial_q_count = tagged(&store);
    let stored = submit_generated_questions(&mut store, 2, agent_id, questions_to_submit);
    assert_eq!(stored, Ok(1));
    assert_eq!(tagged(&store), initial_q_count + 1);
}

#[test]
fn a_draft_needs_every_text_and_a_wrong_answer() {
    assert!(check_draft(&draft("Q", "A", &["B"], "T", "D")));
    assert!(!check_draft(&draft(" ", "A", &["B"], "T", "D")));
    assert!(!check_draft(&draft("Q", "", &["B"], "T", "D")));
    assert!(!check_draft(&draft("Q", "A", &[], "T", "D")));
    assert!(!check_draft(&draft("Q", "A", &["B", " "], "T", "D")));
    assert!(!check_draft(&draft("Q", "A", &["B"], "\n", "D")));
    assert!(!check_draft(&draft("Q", "A", &["B"], "T", "")));
}

#[test]
fn drafts_are_stored_in_order_as_far_as_ids_last() {
    let mut store = Store::new();
    store.next_question_id = u64::MAX - 2;
    let drafts = vec![
        draft("first", "A", &["B"], "T", "D"),
        draft("skipped", "A", &[], "T", "D"),
        draft("second", "A", &["B"], "T", "D"),
        draft("third", "A", &["B"], "T", "D"),
    ];
    assert_eq!(submit_generated_questions(&mut store, 3, 7, drafts), Ok(2));
    assert_eq!(store.question_bank.len(), 2);
    assert_eq!(store.question_bank[0].text, "first");
    assert_eq!(store.question_bank[0].question_id, u64::MAX - 2);
    assert_eq!(store.question_bank[1].text, "second");
    assert_eq!(store.question_bank[1].question_id, u64::MAX - 1);
    assert_eq!(store.question_bank[1].origin_agent, Some("7".to_string()));
    assert_eq!(store.next_question_id, u64::MAX);

    let only_invalid = vec![draft("", "", &[], "", "")];
    assert_eq!(submit_generated_questions(&mut store, 3, 7, only_invalid), Ok(0));
}

#[test]
fn test_update_agent_job_status_success() {
    let mut store = Store::new();
    let job_id =
        request_agent_work(&mut store, 201, "test payload for status update".to_string()).unwrap();
    let job = store.agent_job_queue.iter().find(|j| j.agent_id == 201).unwrap();
    assert_eq!(job.status, JobStatus::Pending);

    let result = update_agent_job_status(&mut store, job_id, "processing".to_string(), None);
    assert_eq!(result, Ok(()));
    assert_eq!(store.agent_job_queue[0].status, JobStatus::Processing);

    let result = update_agent_job_status(
        &mut store,
        job_id,
        "failed".to_string(),
        Some("model unavailable".to_string()),
    );
    assert_eq!(result, Ok(()));
    let job = &store.agent_job_queue[0];
    assert_eq!(job.status, JobStatus::Failed);
    assert_eq!(job.error_message, Some("model unavailable".to_string()));
    assert_eq!(job.payload_json, "test payload for status update");
    assert_eq!(job.agent_id, 201);

    assert_eq!(update_agent_job_status(&mut store, job_id, "completed".to_string(), None), Ok(()));
    assert_eq!(store.agent_job_queue[0].status, JobStatus::Completed);
    assert_eq!(store.agent_job_queue[0].error_message, None);
}

#[test]
fn update_agent_job_status_checks_job_and_status() {
    let mut store = Store::new();
    let job_id = request_agent_work(&mut store, 201, "payload".to_string()).unwrap();
    assert_eq!(
        update_agent_job_status(&mut store, job_id + 1, "completed".to_string(), None),
        Err(GameError::NotFound)
    );
    assert_eq!(
        update_agent_job_status(&mut store, job_id + 1, "done".to_string(), None),
        Err(GameError::NotFound)
    );
    assert_eq!(
        update_agent_job_status(&mut store, job_id, "done".to_string(), Some("e".to_string())),
        Err(GameError::InvalidInput)
    );
    assert_eq!(store.agent_job_queue[0].status, JobStatus::Pending);
    assert_eq!(store.agent_job_queue[0].error_message, None);
}

#[test]
fn status_words() {
    assert_eq!(parse_job_status(&"pending".to_string()), Some(JobStatus::Pending));
    assert_eq!(parse_job_status(&"processing".to_string()), Some(JobStatus::Processing));
    assert_eq!(parse_job_status(&"completed".to_string()), Some(JobStatus::Completed));
    assert_eq!(parse_job_status(&"failed".to_string()), Some(JobStatus::Failed));
    assert_eq!(parse_job_status(&"Pending".to_string()), None);
    assert_eq!(parse_job_status(&"".to_string()), None);
    assert_eq!(job_status_name(JobStatus::Processing), "processing");

    assert_eq!(lobby_status_name(LobbyStatus::Waiting), "waiting");
    assert_eq!(lobby_status_name(LobbyStatus::InGame), "in_game");
    assert_eq!(lobby_status_name(LobbyStatus::Finished), "finished");
    assert_eq!(parse_lobby_status(&"in_game".to_string()), Some(LobbyStatus::InGame));
    assert_eq!(parse_lobby_status(&"in_progress".to_string()), None);

    assert_eq!(round_status_name(RoundStatus::InProgress), "in_progress");
    assert_eq!(round_status_name(RoundStatus::Scoring), "scoring");
    for status in [
        RoundStatus::Waiting,
        RoundStatus::InProgress,
        RoundStatus::Scoring,
        RoundStatus::Finished,
    ] {
        assert_eq!(parse_round_status(&round_status_name(status).to_string()), Some(status));
    }
}
