//! Work for question-writing agents: jobs, registrations, and the
//! questions the agents hand in.

use vstd::prelude::*;
use crate::store::{
    agent_ids, below, distinct, job_ids, key_index, lemma_links_kept, question_filled,
    question_ids, Store, Tables,
};
use crate::status::{parse_job_status, spec_parse_job_status};
use crate::text::{blank, decimal, decimal_text, is_blank};
use crate::types::{
    AgentJobQueue, AgentRegistry, GameError, Identity, JobStatus, NewQuestionData, Question,
};

verus! {

/// Why `request_agent_work` refuses, if it does.
pub open spec fn request_agent_work_refusal(t: Tables, payload: Seq<char>) -> Option<GameError> {
    if blank(payload) {
        Some(GameError::InvalidInput)
    } else if t.next_job_id == u64::MAX {
        Some(GameError::StoreFailure)
    } else {
        None
    }
}

/// Queues a job for an agent. The payload must not be blank. Returns the
/// job's id; the job is pending.
pub fn request_agent_work(store: &mut Store, agent_id: u64, topic_json_payload: String) -> (result:
    Result<u64, GameError>)
    ensures
        match result {
            Ok(job_id) => {
                &&& request_agent_work_refusal(old(store)@, topic_json_payload@) is None
                &&& job_id == old(store)@.next_job_id
                &&& final(store)@ == (Tables {
                    agent_job_queue: old(store)@.agent_job_queue.push(
                        AgentJobQueue {
                            job_id,
                            agent_id,
                            payload_json: topic_json_payload,
                            status: JobStatus::Pending,
                            error_message: None,
                        },
                    ),
                    next_job_id: (job_id + 1) as u64,
                    ..old(store)@
                })
            },
            Err(e) => {
                &&& request_agent_work_refusal(old(store)@, topic_json_payload@) == Some(e)
                &&& final(store)@ == old(store)@
            },
        },
        old(store)@.wf() ==> final(store)@.wf(),
        final(store)@.follows(old(store)@),
{
    if is_blank(topic_json_payload.as_str()) {
        return Err(GameError::InvalidInput);
    }
    if store.next_job_id == u64::MAX {
        return Err(GameError::StoreFailure);
    }
    let job_id = store.next_job_id;
    store.agent_job_queue.push(
        AgentJobQueue {
            job_id,
            agent_id,
            payload_json: topic_json_payload,
            status: JobStatus::Pending,
            error_message: None,
        },
    );
    store.next_job_id = job_id + 1;
    proof {
        assert(job_ids(store@.agent_job_queue) =~= job_ids(old(store)@.agent_job_queue).push(
            job_id,
        ));
    }
    Ok(job_id)
}

/// None of the texts is blank.
pub open spec fn all_filled(texts: Seq<String>) -> bool {
    forall|i: int| 0 <= i < texts.len() ==> !blank((#[trigger] texts[i])@)
}

/// Whether none of the texts is blank.
pub fn check_all_filled(texts: &Vec<String>) -> (b: bool)
    ensures
        b == all_filled(texts@),
        b ==> forall|k: int| 0 <= k < texts@.len() ==> (#[trigger] texts@[k])@.len() > 0,
{
    let mut i: usize = 0;
    while i < texts.len()
        invariant
            i <= texts@.len(),
            forall|k: int| 0 <= k < i ==> !blank((#[trigger] texts@[k])@),
            forall|k: int| 0 <= k < i ==> (#[trigger] texts@[k])@.len() > 0,
        decreases texts.len() - i,
    {
        if is_blank(texts[i].as_str()) {
            assert(blank(texts@[i as int]@));
            return false;
        }
        i += 1;
    }
    true
}

/// Why `register_agent` refuses, if it does.
pub open spec fn register_agent_refusal(
    t: Tables,
    wasm_hash: Seq<char>,
    capabilities: Seq<String>,
) -> Option<GameError> {
    if blank(wasm_hash) || capabilities.len() == 0 || !all_filled(capabilities) {
        Some(GameError::InvalidInput)
    } else if t.next_agent_id == u64::MAX {
        Some(GameError::StoreFailure)
    } else {
        None
    }
}

/// Registers an agent for its owner. The hash and every capability must be
/// filled in, and there must be a capability. Returns the agent's id.
pub fn register_agent(
    store: &mut Store,
    sender: Identity,
    wasm_hash: String,
    capabilities: Vec<String>,
    initial_quota: u64,
) -> (result: Result<u64, GameError>)
    ensures
        match result {
            Ok(agent_id) => {
                &&& register_agent_refusal(old(store)@, wasm_hash@, capabilities@) is None
                &&& agent_id == old(store)@.next_agent_id
                &&& final(store)@ == (Tables {
                    agent_registry: old(store)@.agent_registry.push(
                        AgentRegistry {
                            agent_id,
                            owner_id: sender,
                            wasm_hash,
                            capabilities,
                            energy_quota: initial_quota,
                        },
                    ),
                    next_agent_id: (agent_id + 1) as u64,
                    ..old(store)@
                })
            },
            Err(e) => {
                &&& register_agent_refusal(old(store)@, wasm_hash@, capabilities@) == Some(e)
                &&& final(store)@ == old(store)@
            },
        },
        old(store)@.wf() ==> final(store)@.wf(),
        final(store)@.follows(old(store)@),
{
    if is_blank(wasm_hash.as_str()) || capabilities.len() == 0 || !check_all_filled(
        &capabilities,
    ) {
        return Err(GameError::InvalidInput);
    }
    if store.next_agent_id == u64::MAX {
        return Err(GameError::StoreFailure);
    }
    let agent_id = store.next_agent_id;
    store.agent_registry.push(
        AgentRegistry {
            agent_id,
            owner_id: sender,
            wasm_hash,
            capabilities,
            energy_quota: initial_quota,
        },
    );
    store.next_agent_id = agent_id + 1;
    proof {
        assert(agent_ids(store@.agent_registry) =~= agent_ids(old(store)@.agent_registry).push(
            agent_id,
        ));
    }
    Ok(agent_id)
}

/// A draft that can become a question: every text filled in, and at least
/// one wrong answer.
pub open spec fn draft_ok(d: NewQuestionData) -> bool {
    &&& !blank(d.text@)
    &&& !blank(d.correct_answer@)
    &&& d.wrong_answers@.len() > 0
    &&& all_filled(d.wrong_answers@)
    &&& !blank(d.topic@)
    &&& !blank(d.difficulty@)
}

/// Whether a draft can become a question.
pub fn check_draft(d: &NewQuestionData) -> (b: bool)
    ensures
        b == draft_ok(*d),
        b ==> d.text@.len() > 0 && d.correct_answer@.len() > 0,
{
    !is_blank(d.text.as_str()) && !is_blank(d.correct_answer.as_str()) && d.wrong_answers.len()
        > 0 && check_all_filled(&d.wrong_answers) && !is_blank(d.topic.as_str()) && !is_blank(
        d.difficulty.as_str(),
    )
}

/// The question made of a draft: the draft's texts under a new id, no
/// quality score yet, tagged with the agent's id in decimal.
pub open spec fn is_question_from(q: Question, d: NewQuestionData, id: u64, agent_id: u64) -> bool {
    &&& q.question_id == id
    &&& q.text == d.text
    &&& q.correct_answer == d.correct_answer
    &&& q.wrong_answers == d.wrong_answers
    &&& q.topic == d.topic
    &&& q.difficulty == d.difficulty
    &&& q.quality_score == 0
    &&& q.origin_agent matches Some(tag) && tag@ == decimal_text(agent_id as nat)
}

/// The positions of the usable drafts among the first `n`, in order.
pub open spec fn usable(drafts: Seq<NewQuestionData>, n: int) -> Seq<int>
    decreases n,
{
    if n <= 0 {
        Seq::empty()
    } else if draft_ok(drafts[n - 1]) {
        usable(drafts, n - 1).push(n - 1)
    } else {
        usable(drafts, n - 1)
    }
}

/// How many of the usable drafts among the first `n` are stored: all of
/// them, as far as the question ids last.
pub open spec fn stored_count(t: Tables, drafts: Seq<NewQuestionData>, n: int) -> int {
    let room = u64::MAX - t.next_question_id;
    if usable(drafts, n).len() <= room {
        usable(drafts, n).len() as int
    } else {
        room
    }
}

/// The question bank `after` is the bank `before` followed by the questions
/// made of the first `count` usable drafts, with ids counting up from `next`.
pub open spec fn bank_extended(
    before: Seq<Question>,
    after: Seq<Question>,
    drafts: Seq<NewQuestionData>,
    picked: Seq<int>,
    count: int,
    next: u64,
    agent_id: u64,
) -> bool {
    &&& after.len() == before.len() + count
    &&& forall|j: int| 0 <= j < before.len() ==> after[j] == before[j]
    &&& forall|j: int|
        0 <= j < count ==> is_question_from(
            #[trigger] after[before.len() + j],
            drafts[picked[j]],
            (next + j) as u64,
            agent_id,
        )
}

fn reversed(drafts: Vec<NewQuestionData>) -> (turned: Vec<NewQuestionData>)
    ensures
        turned@.len() == drafts@.len(),
        forall|j: int| 0 <= j < turned@.len() ==> turned@[j] == drafts@[drafts@.len() - 1 - j],
{
    let ghost all = drafts@;
    let mut rest = drafts;
    let mut turned: Vec<NewQuestionData> = Vec::new();
    while rest.len() > 0
        invariant
            rest@.len() + turned@.len() == all.len(),
            rest@ == all.take(rest@.len() as int),
            forall|j: int| 0 <= j < turned@.len() ==> turned@[j] == all[all.len() - 1 - j],
        decreases rest@.len(),
    {
        match rest.pop() {
            Some(d) => {
                turned.push(d);
            },
            None => {},
        }
        assert(rest@ =~= all.take(rest@.len() as int));
    }
    turned
}

/// An agent hands in question drafts. Every usable draft becomes a question
/// tagged with the agent; the others are passed over. Returns how many
/// questions were stored. An empty list is refused.
pub fn submit_generated_questions(
    store: &mut Store,
    job_id: u64,
    agent_id: u64,
    questions_data: Vec<NewQuestionData>,
) -> (result: Result<usize, GameError>)
    ensures
        match result {
            Ok(count) => {
                &&& questions_data@.len() > 0
                &&& count == stored_count(
                    old(store)@,
                    questions_data@,
                    questions_data@.len() as int,
                )
                &&& bank_extended(
                    old(store)@.question_bank,
                    final(store)@.question_bank,
                    questions_data@,
                    usable(questions_data@, questions_data@.len() as int),
                    count as int,
                    old(store)@.next_question_id,
                    agent_id,
                )
                &&& final(store)@ == (Tables {
                    question_bank: final(store)@.question_bank,
                    next_question_id: (old(store)@.next_question_id + count) as u64,
                    ..old(store)@
                })
            },
            Err(e) => {
                &&& e == GameError::InvalidInput
                &&& questions_data@.len() == 0
                &&& final(store)@ == old(store)@
            },
        },
        old(store)@.wf() ==> final(store)@.wf(),
        final(store)@.follows(old(store)@),
{
    let total = questions_data.len();
    if total == 0 {
        return Err(GameError::InvalidInput);
    }
    let ghost t = old(store)@;
    let ghost drafts = questions_data@;
    let mut rest = reversed(questions_data);
    let mut count: usize = 0;
    let mut n: usize = 0;
    while n < total
        invariant
            n <= total,
            total == drafts.len(),
            rest@.len() == total - n,
            forall|j: int| 0 <= j < rest@.len() ==> rest@[j] == drafts[total - 1 - j],
            count == stored_count(t, drafts, n as int),
            count <= usable(drafts, n as int).len() <= n,
            bank_extended(
                t.question_bank,
                store@.question_bank,
                drafts,
                usable(drafts, n as int),
                count as int,
                t.next_question_id,
                agent_id,
            ),
            store@ == (Tables {
                question_bank: store@.question_bank,
                next_question_id: (t.next_question_id + count) as u64,
                ..t
            }),
            t.next_question_id + count <= u64::MAX,
            t.wf() ==> forall|j: int|
                0 <= j < store@.question_bank.len() ==> question_filled(
                    #[trigger] store@.question_bank[j],
                ),
            t.wf() ==> distinct(question_ids(store@.question_bank)),
            t.wf() ==> below(question_ids(store@.question_bank), store@.next_question_id),
        decreases total - n,
    {
        let ghost bank = store@.question_bank;
        let ghost picked = usable(drafts, n as int);
        match rest.pop() {
            Some(d) => {
                assert(d == drafts[n as int]);
                if check_draft(&d) && store.next_question_id < u64::MAX {
                    let id = store.next_question_id;
                    store.question_bank.push(
                        Question {
                            question_id: id,
                            text: d.text,
                            correct_answer: d.correct_answer,
                            wrong_answers: d.wrong_answers,
                            topic: d.topic,
                            difficulty: d.difficulty,
                            quality_score: 0,
                            origin_agent: Some(decimal(agent_id)),
                        },
                    );
                    store.next_question_id = id + 1;
                    count += 1;
                    proof {
                        assert(question_ids(store@.question_bank) =~= question_ids(bank).push(id));
                        assert forall|j: int|
                            0 <= j < store@.question_bank.len() && t.wf() implies question_filled(
                            #[trigger] store@.question_bank[j],
                        ) by {
                            if j < bank.len() {
                                assert(store@.question_bank[j] == bank[j]);
                            }
                        }
                        assert(usable(drafts, n as int + 1) == picked.push(n as int));
                        assert forall|j: int| 0 <= j < count implies is_question_from(
                            #[trigger] store@.question_bank[t.question_bank.len() + j],
                            drafts[usable(drafts, n as int + 1)[j]],
                            (t.next_question_id + j) as u64,
                            agent_id,
                        ) by {
                            if j < count - 1 {
                                assert(store@.question_bank[t.question_bank.len() + j]
                                    == bank[t.question_bank.len() + j]);
                            }
                        }
                    }
                }
            },
            None => {},
        }
        n += 1;
    }
    proof {
        if t.wf() {
            assert(store@.follows(t));
            lemma_links_kept(t, store@);
        }
    }
    Ok(count)
}

/// Why `update_agent_job_status` refuses, if it does.
pub open spec fn update_agent_job_status_refusal(
    t: Tables,
    job_id: u64,
    new_status: Seq<char>,
) -> Option<GameError> {
    if key_index(job_ids(t.agent_job_queue), job_id) is None {
        Some(GameError::NotFound)
    } else if spec_parse_job_status(new_status) is None {
        Some(GameError::InvalidInput)
    } else {
        None
    }
}

/// A worker reports on a job: the job's status and error message are
/// overwritten. The status must be one of the four status words.
pub fn update_agent_job_status(
    store: &mut Store,
    job_id: u64,
    new_status: String,
    error_details: Option<String>,
) -> (result: Result<(), GameError>)
    ensures
        match result {
            Ok(_) => {
                let i = key_index(job_ids(old(store)@.agent_job_queue), job_id)->0;
                &&& update_agent_job_status_refusal(old(store)@, job_id, new_status@) is None
                &&& final(store)@ == (Tables {
                    agent_job_queue: old(store)@.agent_job_queue.update(
                        i,
                        AgentJobQueue {
                            status: spec_parse_job_status(new_status@)->0,
                            error_message: error_details,
                            ..old(store)@.agent_job_queue[i]
                        },
                    ),
                    ..old(store)@
                })
            },
            Err(e) => {
                &&& update_agent_job_status_refusal(old(store)@, job_id, new_status@) == Some(e)
                &&& final(store)@ == old(store)@
            },
        },
        old(store)@.wf() ==> final(store)@.wf(),
        final(store)@.follows(old(store)@),
{
    let i = match store.find_job(job_id) {
        Some(i) => i,
        None => { return Err(GameError::NotFound); },
    };
    let status = match parse_job_status(&new_status) {
        Some(status) => status,
        None => { return Err(GameError::InvalidInput); },
    };
    store.agent_job_queue[i].status = status;
    store.agent_job_queue[i].error_message = error_details;
    proof {
        let jobs = old(store)@.agent_job_queue;
        assert(store@.agent_job_queue =~= jobs.update(
            i as int,
            AgentJobQueue { status, error_message: error_details, ..jobs[i as int] },
        ));
        assert(job_ids(store@.agent_job_queue) =~= job_ids(jobs));
    }
    Ok(())
}

} // verus!
