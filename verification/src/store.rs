//! The tables a game runs on, held in memory, and the key lookups over them.

use vstd::prelude::*;
use crate::types::{
    ActiveRound, AgentJobQueue, AgentRegistry, Answer, CrowdMeterStats, Identity, Lobby,
    LobbyStatus, Player, Question, RoundStatus,
};

verus! {

/// All records of the game. Rows with a generated id take it from the table's
/// counter, which only grows.
#[derive(Debug)]
pub struct Store {
    pub question_bank: Vec<Question>,
    pub player: Vec<Player>,
    pub lobby: Vec<Lobby>,
    pub active_round: Vec<ActiveRound>,
    pub answer: Vec<Answer>,
    pub crowd_meter_stats: Vec<CrowdMeterStats>,
    pub agent_job_queue: Vec<AgentJobQueue>,
    pub agent_registry: Vec<AgentRegistry>,
    pub next_question_id: u64,
    pub next_lobby_id: u64,
    pub next_round_id: u64,
    pub next_answer_id: u64,
    pub next_job_id: u64,
    pub next_agent_id: u64,
}

/// What a store holds, as sequences of rows in the order they were added.
pub struct Tables {
    pub question_bank: Seq<Question>,
    pub player: Seq<Player>,
    pub lobby: Seq<Lobby>,
    pub active_round: Seq<ActiveRound>,
    pub answer: Seq<Answer>,
    pub crowd_meter_stats: Seq<CrowdMeterStats>,
    pub agent_job_queue: Seq<AgentJobQueue>,
    pub agent_registry: Seq<AgentRegistry>,
    pub next_question_id: u64,
    pub next_lobby_id: u64,
    pub next_round_id: u64,
    pub next_answer_id: u64,
    pub next_job_id: u64,
    pub next_agent_id: u64,
}

impl View for Store {
    type V = Tables;

    open spec fn view(&self) -> Tables {
        Tables {
            question_bank: self.question_bank@,
            player: self.player@,
            lobby: self.lobby@,
            active_round: self.active_round@,
            answer: self.answer@,
            crowd_meter_stats: self.crowd_meter_stats@,
            agent_job_queue: self.agent_job_queue@,
            agent_registry: self.agent_registry@,
            next_question_id: self.next_question_id,
            next_lobby_id: self.next_lobby_id,
            next_round_id: self.next_round_id,
            next_answer_id: self.next_answer_id,
            next_job_id: self.next_job_id,
            next_agent_id: self.next_agent_id,
        }
    }
}

/// Row `i` is the first one that holds the key.
pub open spec fn is_first_at<K>(keys: Seq<K>, key: K, i: int) -> bool {
    &&& 0 <= i < keys.len()
    &&& keys[i] == key
    &&& forall|j: int| 0 <= j < i ==> keys[j] != key
}

/// The first row that holds the key, if any does.
pub open spec fn key_index<K>(keys: Seq<K>, key: K) -> Option<int> {
    if exists|i: int| is_first_at(keys, key, i) {
        Some(choose|i: int| is_first_at(keys, key, i))
    } else {
        None
    }
}

/// The first row that holds a key is the one a lookup gives.
pub proof fn lemma_key_index_found<K>(keys: Seq<K>, key: K, i: int)
    requires
        is_first_at(keys, key, i),
    ensures
        key_index(keys, key) == Some(i),
{
    let c = choose|c: int| is_first_at(keys, key, c);
    assert(is_first_at(keys, key, c));
    if c < i {
        assert(keys[c] != key);
    }
    if i < c {
        assert(keys[i] != key);
    }
}

/// A key that stands in no row is not found.
pub proof fn lemma_key_index_absent<K>(keys: Seq<K>, key: K)
    requires
        forall|j: int| 0 <= j < keys.len() ==> keys[j] != key,
    ensures
        key_index(keys, key) is None,
{
}

/// A key that stands in some row is found.
pub proof fn lemma_key_index_present<K>(keys: Seq<K>, key: K, j: int)
    requires
        0 <= j < keys.len(),
        keys[j] == key,
    ensures
        exists|i: int| is_first_at(keys, key, i),
        key_index(keys, key) is Some,
    decreases j,
{
    if exists|k: int| 0 <= k < j && keys[k] == key {
        let k = choose|k: int| 0 <= k < j && keys[k] == key;
        lemma_key_index_present(keys, key, k);
    } else {
        assert(is_first_at(keys, key, j));
    }
}

/// What a lookup says: the row it gives is the first with the key, and when
/// it gives none, no row has the key.
pub proof fn lemma_key_index_is<K>(keys: Seq<K>, key: K)
    ensures
        match key_index(keys, key) {
            Some(i) => is_first_at(keys, key, i),
            None => forall|j: int| 0 <= j < keys.len() ==> keys[j] != key,
        },
{
    if exists|i: int| is_first_at(keys, key, i) {
    } else {
        assert forall|j: int| 0 <= j < keys.len() implies keys[j] != key by {
            if keys[j] == key {
                lemma_key_index_present(keys, key, j);
            }
        }
    }
}

/// A key that is found stays found when rows are added behind the old ones.
pub proof fn lemma_key_stays<K>(before: Seq<K>, after: Seq<K>, key: K)
    requires
        before.len() <= after.len(),
        forall|i: int| 0 <= i < before.len() ==> after[i] == before[i],
        key_index(before, key) is Some,
    ensures
        key_index(after, key) is Some,
{
    lemma_key_index_is(before, key);
    lemma_key_index_present(after, key, key_index(before, key)->0);
}

/// The id of each lobby, row by row.
pub open spec fn lobby_ids(rows: Seq<Lobby>) -> Seq<u64> {
    Seq::new(rows.len(), |i: int| rows[i].lobby_id)
}

/// The id of each round, row by row.
pub open spec fn round_ids(rows: Seq<ActiveRound>) -> Seq<u64> {
    Seq::new(rows.len(), |i: int| rows[i].round_id)
}

/// The id of each question, row by row.
pub open spec fn question_ids(rows: Seq<Question>) -> Seq<u64> {
    Seq::new(rows.len(), |i: int| rows[i].question_id)
}

/// The id of each agent job, row by row.
pub open spec fn job_ids(rows: Seq<AgentJobQueue>) -> Seq<u64> {
    Seq::new(rows.len(), |i: int| rows[i].job_id)
}

/// The id of each answer, row by row.
pub open spec fn answer_ids(rows: Seq<Answer>) -> Seq<u64> {
    Seq::new(rows.len(), |i: int| rows[i].answer_id)
}

/// The id of each registered agent, row by row.
pub open spec fn agent_ids(rows: Seq<AgentRegistry>) -> Seq<u64> {
    Seq::new(rows.len(), |i: int| rows[i].agent_id)
}

/// The identity of each player, row by row.
pub open spec fn player_ids(rows: Seq<Player>) -> Seq<Identity> {
    Seq::new(rows.len(), |i: int| rows[i].player_id)
}

/// The display name of each player, row by row.
pub open spec fn player_names(rows: Seq<Player>) -> Seq<Seq<char>> {
    Seq::new(rows.len(), |i: int| rows[i].name@)
}

/// The key of an answer: its round and its player.
pub open spec fn answer_keys(rows: Seq<Answer>) -> Seq<(u64, Identity)> {
    Seq::new(rows.len(), |i: int| (rows[i].round_id, rows[i].player_id))
}

/// The key of a tally: its round and the option it counts.
pub open spec fn tally_keys(rows: Seq<CrowdMeterStats>) -> Seq<(u64, u32)> {
    Seq::new(rows.len(), |i: int| (rows[i].round_id, rows[i].answer_index))
}

/// The status of each lobby, row by row.
pub open spec fn lobby_statuses(rows: Seq<Lobby>) -> Seq<LobbyStatus> {
    Seq::new(rows.len(), |i: int| rows[i].status)
}

/// No key occurs in two rows.
pub open spec fn distinct<K>(keys: Seq<K>) -> bool {
    forall|i: int, j: int| 0 <= i < j < keys.len() ==> keys[i] != keys[j]
}

/// Every id given out so far lies below the counter.
pub open spec fn below(ids: Seq<u64>, next: u64) -> bool {
    forall|i: int| 0 <= i < ids.len() ==> ids[i] < next
}

/// At most one lobby is waiting for players.
pub open spec fn one_waiting(rows: Seq<Lobby>) -> bool {
    forall|i: int, j: int|
        0 <= i < j < rows.len() && (#[trigger] rows[i]).status == LobbyStatus::Waiting ==> (
        #[trigger] rows[j]).status != LobbyStatus::Waiting
}

/// A question has a text, a correct answer and at least one wrong answer.
pub open spec fn question_filled(q: Question) -> bool {
    &&& q.text@.len() > 0
    &&& q.correct_answer@.len() > 0
    &&& q.wrong_answers@.len() > 0
}

/// An agent has at least one capability, and none of them is empty.
pub open spec fn agent_filled(a: AgentRegistry) -> bool {
    &&& a.capabilities@.len() > 0
    &&& forall|i: int| 0 <= i < a.capabilities@.len() ==> (#[trigger] a.capabilities@[i])@.len() > 0
}

/// Number of answers among `rows` that chose option `index` in a round.
pub open spec fn votes(rows: Seq<Answer>, round_id: u64, index: u32) -> nat
    decreases rows.len(),
{
    if rows.len() == 0 {
        0
    } else {
        votes(rows.drop_last(), round_id, index) + if rows.last().round_id == round_id
            && rows.last().chosen_answer_index == index {
            1nat
        } else {
            0nat
        }
    }
}

/// A count as a tally holds it: a tally that is full stays full.
pub open spec fn capped(n: nat) -> u32 {
    if n <= u32::MAX {
        n as u32
    } else {
        u32::MAX
    }
}

/// The tallies agree with the answers: every tally counts the answers that
/// chose its option in its round, and every answer is counted by a tally.
pub open spec fn tallied(answers: Seq<Answer>, tallies: Seq<CrowdMeterStats>) -> bool {
    &&& forall|s: int|
        0 <= s < tallies.len() ==> (#[trigger] tallies[s]).count == capped(
            votes(answers, tallies[s].round_id, tallies[s].answer_index),
        )
    &&& forall|a: int|
        0 <= a < answers.len() ==> key_index(
            tally_keys(tallies),
            ((#[trigger] answers[a]).round_id, answers[a].chosen_answer_index),
        ) is Some
}

/// How far a lobby has come: waiting, then in game, then finished.
pub open spec fn lobby_stage(status: LobbyStatus) -> int {
    match status {
        LobbyStatus::Waiting => 0,
        LobbyStatus::InGame => 1,
        LobbyStatus::Finished => 2,
    }
}

/// How far a round has come: waiting, in progress, scoring, finished.
pub open spec fn round_stage(status: RoundStatus) -> int {
    match status {
        RoundStatus::Waiting => 0,
        RoundStatus::InProgress => 1,
        RoundStatus::Scoring => 2,
        RoundStatus::Finished => 3,
    }
}

impl Tables {
    /// These tables come after `before`: no row of a game table was removed
    /// or moved, no lobby or round went back to an earlier status, every
    /// answer still says who chose what in which round, every player kept
    /// identity and name, every question is as it was, and no counter fell.
    pub open spec fn follows(self, before: Tables) -> bool {
        &&& before.lobby.len() <= self.lobby.len()
        &&& forall|i: int|
            0 <= i < before.lobby.len() ==> {
                &&& (#[trigger] self.lobby[i]).lobby_id == before.lobby[i].lobby_id
                &&& self.lobby[i].host_id == before.lobby[i].host_id
                &&& self.lobby[i].name == before.lobby[i].name
                &&& lobby_stage(before.lobby[i].status) <= lobby_stage(self.lobby[i].status)
            }
        &&& before.active_round.len() <= self.active_round.len()
        &&& forall|i: int|
            0 <= i < before.active_round.len() ==> {
                &&& (#[trigger] self.active_round[i]).round_id == before.active_round[i].round_id
                &&& self.active_round[i].lobby_id == before.active_round[i].lobby_id
                &&& self.active_round[i].question_id == before.active_round[i].question_id
                &&& self.active_round[i].start_time == before.active_round[i].start_time
                &&& self.active_round[i].is_lightning == before.active_round[i].is_lightning
                &&& round_stage(before.active_round[i].status) <= round_stage(
                    self.active_round[i].status,
                )
            }
        &&& before.answer.len() <= self.answer.len()
        &&& forall|i: int|
            0 <= i < before.answer.len() ==> {
                &&& (#[trigger] self.answer[i]).answer_id == before.answer[i].answer_id
                &&& self.answer[i].round_id == before.answer[i].round_id
                &&& self.answer[i].player_id == before.answer[i].player_id
                &&& self.answer[i].chosen_answer_index == before.answer[i].chosen_answer_index
            }
        &&& before.player.len() <= self.player.len()
        &&& forall|i: int|
            0 <= i < before.player.len() ==> {
                &&& (#[trigger] self.player[i]).player_id == before.player[i].player_id
                &&& self.player[i].name == before.player[i].name
            }
        &&& before.question_bank.len() <= self.question_bank.len()
        &&& forall|i: int|
            0 <= i < before.question_bank.len() ==> (#[trigger] self.question_bank[i])
                == before.question_bank[i]
        &&& before.next_question_id <= self.next_question_id
        &&& before.next_lobby_id <= self.next_lobby_id
        &&& before.next_round_id <= self.next_round_id
        &&& before.next_answer_id <= self.next_answer_id
        &&& before.next_job_id <= self.next_job_id
        &&& before.next_agent_id <= self.next_agent_id
    }

    /// Only its host moves a lobby: every lobby that changed its status
    /// since `before` is hosted by `sender`.
    pub open spec fn moved_by_host(self, before: Tables, sender: Identity) -> bool {
        forall|i: int|
            0 <= i < before.lobby.len() && i < self.lobby.len() && (
            #[trigger] self.lobby[i]).status != before.lobby[i].status
                ==> before.lobby[i].host_id == sender
    }

    /// Every round belongs to a lobby and shows a question of the bank, and
    /// every answer belongs to a round.
    pub open spec fn linked(self) -> bool {
        &&& forall|r: int|
            0 <= r < self.active_round.len() ==> key_index(
                lobby_ids(self.lobby),
                (#[trigger] self.active_round[r]).lobby_id,
            ) is Some
        &&& forall|r: int|
            0 <= r < self.active_round.len() ==> key_index(
                question_ids(self.question_bank),
                (#[trigger] self.active_round[r]).question_id,
            ) is Some
        &&& forall|a: int|
            0 <= a < self.answer.len() ==> key_index(
                round_ids(self.active_round),
                (#[trigger] self.answer[a]).round_id,
            ) is Some
    }

    /// An answer carries a score exactly when its round is finished.
    pub open spec fn scored_when_finished(self) -> bool {
        forall|a: int|
            0 <= a < self.answer.len() ==> {
                let r = key_index(
                    round_ids(self.active_round),
                    (#[trigger] self.answer[a]).round_id,
                );
                r is Some ==> (self.answer[a].score is Some <==> self.active_round[r->0].status
                    == RoundStatus::Finished)
            }
    }

    /// The rules the tables keep: one player per identity and per name, one
    /// answer per round and player, one tally per round and option that
    /// agrees with the answers, generated ids unique and below their counter,
    /// one waiting lobby, no question and no agent with an empty part, no
    /// round without its lobby and question, no answer without its round,
    /// and a score on the answers of finished rounds only.
    pub open spec fn wf(self) -> bool {
        &&& distinct(player_ids(self.player))
        &&& distinct(player_names(self.player))
        &&& distinct(answer_keys(self.answer))
        &&& distinct(tally_keys(self.crowd_meter_stats))
        &&& distinct(lobby_ids(self.lobby))
        &&& distinct(round_ids(self.active_round))
        &&& distinct(question_ids(self.question_bank))
        &&& distinct(answer_ids(self.answer))
        &&& distinct(job_ids(self.agent_job_queue))
        &&& distinct(agent_ids(self.agent_registry))
        &&& below(lobby_ids(self.lobby), self.next_lobby_id)
        &&& below(round_ids(self.active_round), self.next_round_id)
        &&& below(question_ids(self.question_bank), self.next_question_id)
        &&& below(answer_ids(self.answer), self.next_answer_id)
        &&& below(job_ids(self.agent_job_queue), self.next_job_id)
        &&& below(agent_ids(self.agent_registry), self.next_agent_id)
        &&& one_waiting(self.lobby)
        &&& tallied(self.answer, self.crowd_meter_stats)
        &&& self.linked()
        &&& self.scored_when_finished()
        &&& forall|i: int|
            0 <= i < self.question_bank.len() ==> question_filled(#[trigger] self.question_bank[i])
        &&& forall|i: int|
            0 <= i < self.agent_registry.len() ==> agent_filled(#[trigger] self.agent_registry[i])
    }
}

/// Tables that come after linked tables are linked, if the rounds and
/// answers that were added are.
pub proof fn lemma_links_kept(before: Tables, after: Tables)
    requires
        before.linked(),
        after.follows(before),
        forall|r: int|
            before.active_round.len() <= r < after.active_round.len() ==> key_index(
                lobby_ids(after.lobby),
                (#[trigger] after.active_round[r]).lobby_id,
            ) is Some && key_index(
                question_ids(after.question_bank),
                after.active_round[r].question_id,
            ) is Some,
        forall|a: int|
            before.answer.len() <= a < after.answer.len() ==> key_index(
                round_ids(after.active_round),
                (#[trigger] after.answer[a]).round_id,
            ) is Some,
    ensures
        after.linked(),
{
    assert forall|r: int| 0 <= r < after.active_round.len() implies key_index(
        lobby_ids(after.lobby),
        (#[trigger] after.active_round[r]).lobby_id,
    ) is Some && key_index(
        question_ids(after.question_bank),
        after.active_round[r].question_id,
    ) is Some by {
        if r < before.active_round.len() {
            let round = before.active_round[r];
            assert(after.active_round[r].lobby_id == round.lobby_id);
            assert(after.active_round[r].question_id == round.question_id);
            assert forall|i: int| 0 <= i < before.lobby.len() implies lobby_ids(after.lobby)[i]
                == lobby_ids(before.lobby)[i] by {
                assert(after.lobby[i].lobby_id == before.lobby[i].lobby_id);
            }
            lemma_key_stays(lobby_ids(before.lobby), lobby_ids(after.lobby), round.lobby_id);
            assert forall|i: int| 0 <= i < before.question_bank.len() implies question_ids(
                after.question_bank,
            )[i] == question_ids(before.question_bank)[i] by {
                assert(after.question_bank[i] == before.question_bank[i]);
            }
            lemma_key_stays(
                question_ids(before.question_bank),
                question_ids(after.question_bank),
                round.question_id,
            );
        }
    }
    assert forall|a: int| 0 <= a < after.answer.len() implies key_index(
        round_ids(after.active_round),
        (#[trigger] after.answer[a]).round_id,
    ) is Some by {
        if a < before.answer.len() {
            assert(after.answer[a].round_id == before.answer[a].round_id);
            assert forall|i: int| 0 <= i < before.active_round.len() implies round_ids(
                after.active_round,
            )[i] == round_ids(before.active_round)[i] by {
                assert(after.active_round[i].round_id == before.active_round[i].round_id);
            }
            lemma_key_stays(
                round_ids(before.active_round),
                round_ids(after.active_round),
                before.answer[a].round_id,
            );
        }
    }
}

/// A lobby that stops waiting leaves at most one waiting lobby behind.
pub proof fn lemma_leave_waiting(before: Seq<Lobby>, after: Seq<Lobby>, l: int)
    requires
        one_waiting(before),
        after.len() == before.len(),
        0 <= l < after.len(),
        after[l].status != LobbyStatus::Waiting,
        forall|j: int| 0 <= j < after.len() && j != l ==> after[j].status == before[j].status,
    ensures
        one_waiting(after),
{
    assert forall|i: int, j: int|
        0 <= i < j < after.len() && (#[trigger] after[i]).status
            == LobbyStatus::Waiting implies (#[trigger] after[j]).status
        != LobbyStatus::Waiting by {
        if j != l {
            assert(before[i].status == LobbyStatus::Waiting);
            assert(before[j].status == after[j].status);
        }
    }
}

/// The counter for a table that holds rows with these ids: 1 for an empty
/// table, else the id after the highest one, as far as ids reach.
pub open spec fn counter_for(ids: Seq<u64>) -> u64
    decreases ids.len(),
{
    if ids.len() == 0 {
        1
    } else {
        let rest = counter_for(ids.drop_last());
        if ids.last() < rest {
            rest
        } else if ids.last() < u64::MAX {
            (ids.last() + 1) as u64
        } else {
            u64::MAX
        }
    }
}

/// The counter lies above every id that is not the last one there is.
pub proof fn lemma_counter_for(ids: Seq<u64>, i: int)
    requires
        0 <= i < ids.len(),
    ensures
        ids[i] < counter_for(ids) || counter_for(ids) == u64::MAX,
        counter_for(ids) >= 1,
    decreases ids.len(),
{
    if i < ids.len() - 1 {
        lemma_counter_for(ids.drop_last(), i);
    } else if ids.len() > 1 {
        lemma_counter_for(ids.drop_last(), 0);
    }
}

/// Sets up the counter of a table from the ids in use.
pub fn next_free_id(ids: &Vec<u64>) -> (next: u64)
    ensures
        next == counter_for(ids@),
{
    let mut next: u64 = 1;
    let mut i: usize = 0;
    while i < ids.len()
        invariant
            i <= ids@.len(),
            next == counter_for(ids@.take(i as int)),
        decreases ids.len() - i,
    {
        proof {
            assert(ids@.take(i as int + 1).drop_last() =~= ids@.take(i as int));
        }
        if ids[i] >= next {
            next = if ids[i] < u64::MAX { ids[i] + 1 } else { u64::MAX };
        }
        i += 1;
    }
    proof {
        assert(ids@.take(ids@.len() as int) =~= ids@);
    }
    next
}

impl Store {
    /// An empty store whose counters start at 1.
    pub fn new() -> (store: Store)
        ensures
            store.question_bank@.len() == 0,
            store.player@.len() == 0,
            store.lobby@.len() == 0,
            store.active_round@.len() == 0,
            store.answer@.len() == 0,
            store.crowd_meter_stats@.len() == 0,
            store.agent_job_queue@.len() == 0,
            store.agent_registry@.len() == 0,
            store.next_question_id == 1,
            store.next_lobby_id == 1,
            store.next_round_id == 1,
            store.next_answer_id == 1,
            store.next_job_id == 1,
            store.next_agent_id == 1,
            store@.wf(),
    {
        Store {
            question_bank: Vec::new(),
            player: Vec::new(),
            lobby: Vec::new(),
            active_round: Vec::new(),
            answer: Vec::new(),
            crowd_meter_stats: Vec::new(),
            agent_job_queue: Vec::new(),
            agent_registry: Vec::new(),
            next_question_id: 1,
            next_lobby_id: 1,
            next_round_id: 1,
            next_answer_id: 1,
            next_job_id: 1,
            next_agent_id: 1,
        }
    }

    /// Row of the lobby with this id.
    pub fn find_lobby(&self, lobby_id: u64) -> (found: Option<usize>)
        ensures
            match found {
                Some(i) => key_index(lobby_ids(self.lobby@), lobby_id) == Some(i as int),
                None => key_index(lobby_ids(self.lobby@), lobby_id) is None,
            },
    {
        let mut i: usize = 0;
        while i < self.lobby.len()
            invariant
                i <= self.lobby.len(),
                forall|j: int| 0 <= j < i ==> lobby_ids(self.lobby@)[j] != lobby_id,
            decreases self.lobby.len() - i,
        {
            if self.lobby[i].lobby_id == lobby_id {
                proof {
                    lemma_key_index_found(lobby_ids(self.lobby@), lobby_id, i as int);
                }
                return Some(i);
            }
            i += 1;
        }
        proof {
            lemma_key_index_absent(lobby_ids(self.lobby@), lobby_id);
        }
        None
    }

    /// Row of the round with this id.
    pub fn find_round(&self, round_id: u64) -> (found: Option<usize>)
        ensures
            match found {
                Some(i) => key_index(round_ids(self.active_round@), round_id) == Some(i as int),
                None => key_index(round_ids(self.active_round@), round_id) is None,
            },
    {
        let mut i: usize = 0;
        while i < self.active_round.len()
            invariant
                i <= self.active_round.len(),
                forall|j: int| 0 <= j < i ==> round_ids(self.active_round@)[j] != round_id,
            decreases self.active_round.len() - i,
        {
            if self.active_round[i].round_id == round_id {
                proof {
                    lemma_key_index_found(round_ids(self.active_round@), round_id, i as int);
                }
                return Some(i);
            }
            i += 1;
        }
        proof {
            lemma_key_index_absent(round_ids(self.active_round@), round_id);
        }
        None
    }

    /// Row of the question with this id.
    pub fn find_question(&self, question_id: u64) -> (found: Option<usize>)
        ensures
            match found {
                Some(i) => key_index(question_ids(self.question_bank@), question_id) == Some(i as int),
                None => key_index(question_ids(self.question_bank@), question_id) is None,
            },
    {
        let mut i: usize = 0;
        while i < self.question_bank.len()
            invariant
                i <= self.question_bank.len(),
                forall|j: int| 0 <= j < i ==> question_ids(self.question_bank@)[j] != question_id,
            decreases self.question_bank.len() - i,
        {
            if self.question_bank[i].question_id == question_id {
                proof {
                    lemma_key_index_found(question_ids(self.question_bank@), question_id, i as int);
                }
                return Some(i);
            }
            i += 1;
        }
        proof {
            lemma_key_index_absent(question_ids(self.question_bank@), question_id);
        }
        None
    }

    /// Row of the agent job with this id.
    pub fn find_job(&self, job_id: u64) -> (found: Option<usize>)
        ensures
            match found {
                Some(i) => key_index(job_ids(self.agent_job_queue@), job_id) == Some(i as int),
                None => key_index(job_ids(self.agent_job_queue@), job_id) is None,
            },
    {
        let mut i: usize = 0;
        while i < self.agent_job_queue.len()
            invariant
                i <= self.agent_job_queue.len(),
                forall|j: int| 0 <= j < i ==> job_ids(self.agent_job_queue@)[j] != job_id,
            decreases self.agent_job_queue.len() - i,
        {
            if self.agent_job_queue[i].job_id == job_id {
                proof {
                    lemma_key_index_found(job_ids(self.agent_job_queue@), job_id, i as int);
                }
                return Some(i);
            }
            i += 1;
        }
        proof {
            lemma_key_index_absent(job_ids(self.agent_job_queue@), job_id);
        }
        None
    }

    /// Row of the player with this identity.
    pub fn find_player(&self, player_id: Identity) -> (found: Option<usize>)
        ensures
            match found {
                Some(i) => key_index(player_ids(self.player@), player_id) == Some(i as int),
                None => key_index(player_ids(self.player@), player_id) is None,
            },
    {
        let mut i: usize = 0;
        while i < self.player.len()
            invariant
                i <= self.player.len(),
                forall|j: int| 0 <= j < i ==> player_ids(self.player@)[j] != player_id,
            decreases self.player.len() - i,
        {
            if self.player[i].player_id == player_id {
                proof {
                    lemma_key_index_found(player_ids(self.player@), player_id, i as int);
                }
                return Some(i);
            }
            i += 1;
        }
        proof {
            lemma_key_index_absent(player_ids(self.player@), player_id);
        }
        None
    }

    /// Row of the answer this player gave in this round.
    pub fn find_answer(&self, round_id: u64, player_id: Identity) -> (found: Option<usize>)
        ensures
            match found {
                Some(i) => key_index(answer_keys(self.answer@), (round_id, player_id)) == Some(
                    i as int,
                ),
                None => key_index(answer_keys(self.answer@), (round_id, player_id)) is None,
            },
    {
        let ghost key = (round_id, player_id);
        let mut i: usize = 0;
        while i < self.answer.len()
            invariant
                i <= self.answer.len(),
                key == (round_id, player_id),
                forall|j: int| 0 <= j < i ==> answer_keys(self.answer@)[j] != key,
            decreases self.answer.len() - i,
        {
            if self.answer[i].round_id == round_id && self.answer[i].player_id == player_id {
                proof {
                    lemma_key_index_found(answer_keys(self.answer@), key, i as int);
                }
                return Some(i);
            }
            i += 1;
        }
        proof {
            lemma_key_index_absent(answer_keys(self.answer@), key);
        }
        None
    }

    /// Row of the tally of this option in this round.
    pub fn find_tally(&self, round_id: u64, answer_index: u32) -> (found: Option<usize>)
        ensures
            match found {
                Some(i) => key_index(
                    tally_keys(self.crowd_meter_stats@),
                    (round_id, answer_index),
                ) == Some(i as int),
                None => key_index(tally_keys(self.crowd_meter_stats@), (round_id, answer_index))
                    is None,
            },
    {
        let ghost key = (round_id, answer_index);
        let mut i: usize = 0;
        while i < self.crowd_meter_stats.len()
            invariant
                i <= self.crowd_meter_stats.len(),
                key == (round_id, answer_index),
                forall|j: int| 0 <= j < i ==> tally_keys(self.crowd_meter_stats@)[j] != key,
            decreases self.crowd_meter_stats.len() - i,
        {
            let row = &self.crowd_meter_stats[i];
            if row.round_id == round_id && row.answer_index == answer_index {
                proof {
                    lemma_key_index_found(tally_keys(self.crowd_meter_stats@), key, i as int);
                }
                return Some(i);
            }
            i += 1;
        }
        proof {
            lemma_key_index_absent(tally_keys(self.crowd_meter_stats@), key);
        }
        None
    }

    /// Row of the first lobby that waits for players.
    pub fn find_waiting_lobby(&self) -> (found: Option<usize>)
        ensures
            match found {
                Some(i) => key_index(lobby_statuses(self.lobby@), LobbyStatus::Waiting) == Some(
                    i as int,
                ),
                None => key_index(lobby_statuses(self.lobby@), LobbyStatus::Waiting) is None,
            },
    {
        let mut i: usize = 0;
        while i < self.lobby.len()
            invariant
                i <= self.lobby.len(),
                forall|j: int| 0 <= j < i ==> lobby_statuses(self.lobby@)[j] != LobbyStatus::Waiting,
            decreases self.lobby.len() - i,
        {
            if self.lobby[i].status == LobbyStatus::Waiting {
                proof {
                    lemma_key_index_found(
                        lobby_statuses(self.lobby@),
                        LobbyStatus::Waiting,
                        i as int,
                    );
                }
                return Some(i);
            }
            i += 1;
        }
        proof {
            lemma_key_index_absent(lobby_statuses(self.lobby@), LobbyStatus::Waiting);
        }
        None
    }

    /// Row of the player with this display name.
    pub fn find_name(&self, name: &String) -> (found: Option<usize>)
        ensures
            match found {
                Some(i) => key_index(player_names(self.player@), name@) == Some(i as int),
                None => key_index(player_names(self.player@), name@) is None,
            },
    {
        let mut i: usize = 0;
        while i < self.player.len()
            invariant
                i <= self.player.len(),
                forall|j: int| 0 <= j < i ==> player_names(self.player@)[j] != name@,
            decreases self.player.len() - i,
        {
            if self.player[i].name == *name {
                proof {
                    lemma_key_index_found(player_names(self.player@), name@, i as int);
                }
                return Some(i);
            }
            i += 1;
        }
        proof {
            lemma_key_index_absent(player_names(self.player@), name@);
        }
        None
    }
}

} // verus!
