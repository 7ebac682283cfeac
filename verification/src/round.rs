//! Rounds: starting a game, taking answers, and scoring.

use vstd::prelude::*;
use vstd::arithmetic::div_mod::{lemma_fundamental_div_mod, lemma_fundamental_div_mod_converse};
use crate::store::{
    answer_ids, answer_keys, capped, distinct, key_index, lemma_key_index_absent,
    lemma_key_index_found, lemma_key_index_is, lemma_key_index_present, lemma_leave_waiting,
    lemma_links_kept, lobby_ids, player_ids, player_names, question_ids, round_ids, tallied,
    tally_keys, votes, Store, Tables,
};
use crate::types::{
    ActiveRound, Answer, CrowdMeterStats, GameError, Identity, Lobby, LobbyStatus, Player,
    RoundStatus, BASE_POINTS, CORRECT_INDEX,
};

verus! {

/// The position in a bank of `count` questions that a start time selects:
/// the time in microseconds, reduced modulo `count`.
pub open spec fn spec_pick_index(timestamp: i64, count: int) -> int {
    (timestamp as int) % count
}

/// Picks a position in a bank of `count` questions from a start time.
pub fn pick_index(timestamp: i64, count: usize) -> (index: usize)
    requires
        count > 0,
    ensures
        index as int == spec_pick_index(timestamp, count as int),
        index < count,
{
    let n: u64 = count as u64;
    if timestamp >= 0 {
        ((timestamp as u64) % n) as usize
    } else {
        let k: u64 = (-(timestamp + 1)) as u64;
        let m: u64 = k % n;
        proof {
            let q = (k / n) as int;
            assert(k as int == q * (n as int) + (m as int)) by {
                lemma_fundamental_div_mod(k as int, n as int);
            }
            assert(timestamp as int == (-(q + 1)) * (n as int) + (n - 1 - m) as int)
                by (nonlinear_arith)
                requires
                    k as int == q * (n as int) + (m as int),
                    timestamp as int == -(k as int) - 1,
            ;
            lemma_fundamental_div_mod_converse(
                timestamp as int,
                n as int,
                -(q + 1),
                (n - 1 - m) as int,
            );
        }
        (n - 1 - m) as usize
    }
}

/// Why `start_game` refuses, if it does.
pub open spec fn start_game_refusal(t: Tables, sender: Identity, lobby_id: u64) -> Option<
    GameError,
> {
    match key_index(lobby_ids(t.lobby), lobby_id) {
        None => Some(GameError::NotFound),
        Some(i) => if t.lobby[i].host_id != sender {
            Some(GameError::Forbidden)
        } else if t.lobby[i].status != LobbyStatus::Waiting {
            Some(GameError::InvalidState)
        } else if t.question_bank.len() == 0 {
            Some(GameError::NoContent)
        } else if t.next_round_id == u64::MAX {
            Some(GameError::StoreFailure)
        } else {
            None
        },
    }
}

/// The round that `start_game` opens in a lobby it accepts.
pub open spec fn started_round(t: Tables, timestamp: i64, lobby_id: u64) -> ActiveRound {
    let i = key_index(lobby_ids(t.lobby), lobby_id)->0;
    ActiveRound {
        round_id: t.next_round_id,
        lobby_id,
        question_id: t.question_bank[spec_pick_index(
            timestamp,
            t.question_bank.len() as int,
        )].question_id,
        start_time: timestamp,
        status: RoundStatus::Waiting,
        is_lightning: t.lobby[i].next_round_is_lightning,
    }
}

/// The tables after `start_game` accepted: the lobby is in game with its
/// lightning flag used up, and the new round is the last one.
pub open spec fn after_start_game(t: Tables, timestamp: i64, lobby_id: u64) -> Tables {
    let i = key_index(lobby_ids(t.lobby), lobby_id)->0;
    Tables {
        lobby: t.lobby.update(
            i,
            Lobby { status: LobbyStatus::InGame, next_round_is_lightning: false, ..t.lobby[i] },
        ),
        active_round: t.active_round.push(started_round(t, timestamp, lobby_id)),
        next_round_id: (t.next_round_id + 1) as u64,
        ..t
    }
}

/// The host moves a waiting lobby into its game and opens the first round on
/// a question picked by the start time.
pub fn start_game(store: &mut Store, sender: Identity, timestamp: i64, lobby_id: u64) -> (result:
    Result<ActiveRound, GameError>)
    ensures
        match result {
            Ok(round) => {
                &&& start_game_refusal(old(store)@, sender, lobby_id) is None
                &&& round == started_round(old(store)@, timestamp, lobby_id)
                &&& final(store)@ == after_start_game(old(store)@, timestamp, lobby_id)
            },
            Err(e) => {
                &&& start_game_refusal(old(store)@, sender, lobby_id) == Some(e)
                &&& final(store)@ == old(store)@
            },
        },
        old(store)@.wf() ==> final(store)@.wf(),
        final(store)@.follows(old(store)@),
        final(store)@.moved_by_host(old(store)@, sender),
{
    let i = match store.find_lobby(lobby_id) {
        Some(i) => i,
        None => { return Err(GameError::NotFound); },
    };
    if store.lobby[i].host_id != sender {
        return Err(GameError::Forbidden);
    }
    if store.lobby[i].status != LobbyStatus::Waiting {
        return Err(GameError::InvalidState);
    }
    let count = store.question_bank.len();
    if count == 0 {
        return Err(GameError::NoContent);
    }
    if store.next_round_id == u64::MAX {
        return Err(GameError::StoreFailure);
    }
    let round = ActiveRound {
        round_id: store.next_round_id,
        lobby_id,
        question_id: store.question_bank[pick_index(timestamp, count)].question_id,
        start_time: timestamp,
        status: RoundStatus::Waiting,
        is_lightning: store.lobby[i].next_round_is_lightning,
    };
    store.lobby[i].status = LobbyStatus::InGame;
    store.lobby[i].next_round_is_lightning = false;
    store.active_round.push(round);
    store.next_round_id = store.next_round_id + 1;
    proof {
        assert(store@.lobby =~= after_start_game(old(store)@, timestamp, lobby_id).lobby);
        assert(lobby_ids(store@.lobby) =~= lobby_ids(old(store)@.lobby));
        assert(round_ids(store@.active_round) =~= round_ids(old(store)@.active_round).push(
            round.round_id,
        ));
        if old(store)@.wf() {
            let t = old(store)@;
            lemma_leave_waiting(t.lobby, store@.lobby, i as int);
            lemma_key_index_present(
                question_ids(t.question_bank),
                round.question_id,
                spec_pick_index(timestamp, t.question_bank.len() as int),
            );
            assert(store@.follows(t));
            lemma_links_kept(t, store@);
        }
    }
    Ok(round)
}

/// Why `submit_answer` refuses, if it does.
pub open spec fn submit_answer_refusal(t: Tables, sender: Identity, round_id: u64) -> Option<
    GameError,
> {
    match key_index(round_ids(t.active_round), round_id) {
        None => Some(GameError::NotFound),
        Some(i) => if t.active_round[i].status != RoundStatus::InProgress {
            Some(GameError::InvalidState)
        } else if key_index(answer_keys(t.answer), (round_id, sender)) is Some {
            Some(GameError::DuplicateSubmission)
        } else if t.next_answer_id == u64::MAX {
            Some(GameError::StoreFailure)
        } else {
            None
        },
    }
}

/// The answer that `submit_answer` records: not yet scored.
pub open spec fn submitted_answer(t: Tables, sender: Identity, round_id: u64, chosen: u32) -> Answer {
    Answer {
        answer_id: t.next_answer_id,
        round_id,
        player_id: sender,
        chosen_answer_index: chosen,
        score: None,
    }
}

/// The tallies after one more vote for an option of a round: its row counts
/// one more, or is new with count 1. A tally that is full stays as it is.
pub open spec fn tally_after(rows: Seq<CrowdMeterStats>, round_id: u64, chosen: u32) -> Seq<
    CrowdMeterStats,
> {
    match key_index(tally_keys(rows), (round_id, chosen)) {
        Some(i) => if rows[i].count < u32::MAX {
            rows.update(i, CrowdMeterStats { count: (rows[i].count + 1) as u32, ..rows[i] })
        } else {
            rows
        },
        None => rows.push(CrowdMeterStats { round_id, answer_index: chosen, count: 1 }),
    }
}

/// The tables after `submit_answer` accepted: the answer is the last one,
/// and its option has one more vote.
pub open spec fn after_submit_answer(
    t: Tables,
    sender: Identity,
    round_id: u64,
    chosen: u32,
) -> Tables {
    Tables {
        answer: t.answer.push(submitted_answer(t, sender, round_id, chosen)),
        crowd_meter_stats: tally_after(t.crowd_meter_stats, round_id, chosen),
        next_answer_id: (t.next_answer_id + 1) as u64,
        ..t
    }
}

/// One more answer is one more vote for its option and none for any other.
pub proof fn lemma_votes_push(rows: Seq<Answer>, a: Answer, round_id: u64, index: u32)
    ensures
        votes(rows.push(a), round_id, index) == votes(rows, round_id, index) + if a.round_id
            == round_id && a.chosen_answer_index == index {
            1nat
        } else {
            0nat
        },
{
    assert(rows.push(a).drop_last() =~= rows);
}

/// An option that no answer chose has no votes.
pub proof fn lemma_votes_none(rows: Seq<Answer>, round_id: u64, index: u32)
    requires
        forall|k: int|
            0 <= k < rows.len() ==> !((#[trigger] rows[k]).round_id == round_id
                && rows[k].chosen_answer_index == index),
    ensures
        votes(rows, round_id, index) == 0,
    decreases rows.len(),
{
    if rows.len() > 0 {
        lemma_votes_none(rows.drop_last(), round_id, index);
    }
}

/// Votes depend only on which option each answer chose in which round.
pub proof fn lemma_votes_same(a: Seq<Answer>, b: Seq<Answer>, round_id: u64, index: u32)
    requires
        a.len() == b.len(),
        forall|k: int|
            0 <= k < a.len() ==> (#[trigger] a[k]).round_id == b[k].round_id
                && a[k].chosen_answer_index == b[k].chosen_answer_index,
    ensures
        votes(a, round_id, index) == votes(b, round_id, index),
    decreases a.len(),
{
    if a.len() > 0 {
        lemma_votes_same(a.drop_last(), b.drop_last(), round_id, index);
    }
}

/// Taking an answer keeps the tallies in agreement with the answers.
pub proof fn lemma_submit_keeps_tally(t: Tables, sender: Identity, round_id: u64, chosen: u32)
    requires
        tallied(t.answer, t.crowd_meter_stats),
        distinct(tally_keys(t.crowd_meter_stats)),
    ensures
        tallied(
            t.answer.push(submitted_answer(t, sender, round_id, chosen)),
            tally_after(t.crowd_meter_stats, round_id, chosen),
        ),
{
    let a = submitted_answer(t, sender, round_id, chosen);
    let answers = t.answer.push(a);
    let before = t.crowd_meter_stats;
    let after = tally_after(before, round_id, chosen);
    let key = (round_id, chosen);
    lemma_key_index_is(tally_keys(before), key);
    assert forall|s: int| 0 <= s < after.len() implies (#[trigger] after[s]).count == capped(
        votes(answers, after[s].round_id, after[s].answer_index),
    ) by {
        lemma_votes_push(t.answer, a, after[s].round_id, after[s].answer_index);
        match key_index(tally_keys(before), key) {
            Some(i0) => {
                if s != i0 {
                    assert(tally_keys(before)[s] != tally_keys(before)[i0]);
                    assert(after[s] == before[s]);
                } else {
                    assert(tally_keys(before)[i0] == key);
                    assert(before[s].count == capped(votes(t.answer, round_id, chosen)));
                }
            },
            None => {
                if s < before.len() {
                    assert(tally_keys(before)[s] != key);
                    assert(after[s] == before[s]);
                } else {
                    assert forall|k: int| 0 <= k < t.answer.len() implies !((
                    #[trigger] t.answer[k]).round_id == round_id
                        && t.answer[k].chosen_answer_index == chosen) by {
                        assert(key_index(
                            tally_keys(before),
                            (t.answer[k].round_id, t.answer[k].chosen_answer_index),
                        ) is Some);
                    }
                    lemma_votes_none(t.answer, round_id, chosen);
                }
            },
        }
    }
    assert forall|k: int| 0 <= k < answers.len() implies key_index(
        tally_keys(after),
        ((#[trigger] answers[k]).round_id, answers[k].chosen_answer_index),
    ) is Some by {
        let kk = (answers[k].round_id, answers[k].chosen_answer_index);
        if k < t.answer.len() {
            assert(answers[k] == t.answer[k]);
            lemma_key_index_is(tally_keys(before), kk);
            let j = key_index(tally_keys(before), kk)->0;
            assert(tally_keys(before)[j] == kk);
            assert(tally_keys(after)[j] == kk);
            lemma_key_index_present(tally_keys(after), kk, j);
        } else {
            match key_index(tally_keys(before), key) {
                Some(i0) => {
                    assert(tally_keys(after)[i0] == key);
                    lemma_key_index_present(tally_keys(after), key, i0);
                },
                None => {
                    assert(tally_keys(after)[before.len() as int] == key);
                    lemma_key_index_present(tally_keys(after), key, before.len() as int);
                },
            }
        }
    }
}

/// Scoring a round keeps the tallies in agreement with the answers.
pub proof fn lemma_scoring_keeps_tally(
    answers: Seq<Answer>,
    tallies: Seq<CrowdMeterStats>,
    round_id: u64,
    is_lightning: bool,
)
    requires
        tallied(answers, tallies),
    ensures
        tallied(scored(answers, round_id, is_lightning), tallies),
{
    let after = scored(answers, round_id, is_lightning);
    assert forall|s: int| 0 <= s < tallies.len() implies (#[trigger] tallies[s]).count == capped(
        votes(after, tallies[s].round_id, tallies[s].answer_index),
    ) by {
        lemma_votes_same(after, answers, tallies[s].round_id, tallies[s].answer_index);
    }
    assert forall|a: int| 0 <= a < after.len() implies key_index(
        tally_keys(tallies),
        ((#[trigger] after[a]).round_id, after[a].chosen_answer_index),
    ) is Some by {
        assert(answers[a].round_id == after[a].round_id);
    }
}

/// A player answers a round in progress, once. The answer is stored unscored
/// and the tally of the chosen option is raised.
pub fn submit_answer(
    store: &mut Store,
    sender: Identity,
    round_id: u64,
    chosen_answer_index: u32,
) -> (result: Result<Answer, GameError>)
    ensures
        match result {
            Ok(answer) => {
                &&& submit_answer_refusal(old(store)@, sender, round_id) is None
                &&& answer == submitted_answer(old(store)@, sender, round_id, chosen_answer_index)
                &&& final(store)@ == after_submit_answer(
                    old(store)@,
                    sender,
                    round_id,
                    chosen_answer_index,
                )
            },
            Err(e) => {
                &&& submit_answer_refusal(old(store)@, sender, round_id) == Some(e)
                &&& final(store)@ == old(store)@
            },
        },
        old(store)@.wf() ==> final(store)@.wf(),
        final(store)@.follows(old(store)@),
        final(store)@.moved_by_host(old(store)@, sender),
{
    let r = match store.find_round(round_id) {
        Some(r) => r,
        None => { return Err(GameError::NotFound); },
    };
    if store.active_round[r].status != RoundStatus::InProgress {
        return Err(GameError::InvalidState);
    }
    if store.find_answer(round_id, sender).is_some() {
        return Err(GameError::DuplicateSubmission);
    }
    if store.next_answer_id == u64::MAX {
        return Err(GameError::StoreFailure);
    }
    let answer = Answer {
        answer_id: store.next_answer_id,
        round_id,
        player_id: sender,
        chosen_answer_index,
        score: None,
    };
    store.answer.push(answer);
    store.next_answer_id = store.next_answer_id + 1;
    match store.find_tally(round_id, chosen_answer_index) {
        Some(i) => {
            if store.crowd_meter_stats[i].count < u32::MAX {
                store.crowd_meter_stats[i].count = store.crowd_meter_stats[i].count + 1;
            }
        },
        None => {
            store.crowd_meter_stats.push(
                CrowdMeterStats { round_id, answer_index: chosen_answer_index, count: 1 },
            );
        },
    }
    proof {
        let t = old(store)@;
        assert(store@.crowd_meter_stats =~= tally_after(
            t.crowd_meter_stats,
            round_id,
            chosen_answer_index,
        ));
        lemma_key_index_is(answer_keys(t.answer), (round_id, sender));
        lemma_key_index_is(tally_keys(t.crowd_meter_stats), (round_id, chosen_answer_index));
        assert(answer_keys(store@.answer) =~= answer_keys(t.answer).push((round_id, sender)));
        assert(answer_ids(store@.answer) =~= answer_ids(t.answer).push(t.next_answer_id));
        if t.wf() {
            lemma_submit_keeps_tally(t, sender, round_id, chosen_answer_index);
        }
        if key_index(tally_keys(t.crowd_meter_stats), (round_id, chosen_answer_index)) is Some {
            assert(tally_keys(store@.crowd_meter_stats) =~= tally_keys(t.crowd_meter_stats));
        } else {
            assert(tally_keys(store@.crowd_meter_stats) =~= tally_keys(t.crowd_meter_stats).push(
                (round_id, chosen_answer_index),
            ));
        }
    }
    Ok(answer)
}

/// One answer per round and player: once a player's answer to a round is
/// stored, another answer of that player to that round is refused as a
/// duplicate, whichever option it names.
pub proof fn lemma_second_submission_refused(
    t: Tables,
    sender: Identity,
    round_id: u64,
    first_choice: u32,
)
    requires
        submit_answer_refusal(t, sender, round_id) is None,
    ensures
        submit_answer_refusal(
            after_submit_answer(t, sender, round_id, first_choice),
            sender,
            round_id,
        ) == Some(GameError::DuplicateSubmission),
{
    let after = after_submit_answer(t, sender, round_id, first_choice);
    lemma_key_index_present(
        answer_keys(after.answer),
        (round_id, sender),
        t.answer.len() as int,
    );
}

/// Points an answer earns: the base award for the correct option, doubled in
/// a lightning round, and nothing for any other option.
pub open spec fn spec_points(chosen: u32, is_lightning: bool) -> u32 {
    if chosen != CORRECT_INDEX {
        0
    } else if is_lightning {
        (2 * BASE_POINTS) as u32
    } else {
        BASE_POINTS
    }
}

/// The points an answer earns.
pub fn points(chosen: u32, is_lightning: bool) -> (awarded: u32)
    ensures
        awarded == spec_points(chosen, is_lightning),
{
    if chosen != CORRECT_INDEX {
        0
    } else if is_lightning {
        2 * BASE_POINTS
    } else {
        BASE_POINTS
    }
}

/// The answers of a table after a round was scored: those of the round carry
/// their points, the others are untouched.
pub open spec fn scored(rows: Seq<Answer>, round_id: u64, is_lightning: bool) -> Seq<Answer> {
    Seq::new(
        rows.len(),
        |k: int|
            if rows[k].round_id == round_id {
                Answer {
                    score: Some(spec_points(rows[k].chosen_answer_index, is_lightning)),
                    ..rows[k]
                }
            } else {
                rows[k]
            },
    )
}

/// The players after `awarded` points went to one of them. A player that is
/// not in the table, or whose score would leave its range, gets nothing.
pub open spec fn credit(rows: Seq<Player>, player_id: Identity, awarded: u32) -> Seq<Player> {
    match key_index(player_ids(rows), player_id) {
        Some(i) => if rows[i].score + awarded <= u32::MAX {
            rows.update(i, Player { score: (rows[i].score + awarded) as u32, ..rows[i] })
        } else {
            rows
        },
        None => rows,
    }
}

/// The points cannot be paid: the player is not in the table, or the score
/// would leave its range.
pub open spec fn credit_fails(rows: Seq<Player>, player_id: Identity, awarded: u32) -> bool {
    match key_index(player_ids(rows), player_id) {
        Some(i) => rows[i].score + awarded > u32::MAX,
        None => true,
    }
}

/// The players after every answer of the round among `answers` was paid
/// out, in table order.
pub open spec fn credit_all(
    rows: Seq<Player>,
    answers: Seq<Answer>,
    round_id: u64,
    is_lightning: bool,
) -> Seq<Player>
    decreases answers.len(),
{
    if answers.len() == 0 {
        rows
    } else {
        let before = credit_all(rows, answers.drop_last(), round_id, is_lightning);
        let a = answers.last();
        if a.round_id == round_id {
            credit(before, a.player_id, spec_points(a.chosen_answer_index, is_lightning))
        } else {
            before
        }
    }
}

/// The ids of the answers of the round among `answers` whose points could
/// not be paid, in table order.
pub open spec fn unpaid(
    rows: Seq<Player>,
    answers: Seq<Answer>,
    round_id: u64,
    is_lightning: bool,
) -> Seq<u64>
    decreases answers.len(),
{
    if answers.len() == 0 {
        Seq::empty()
    } else {
        let earlier = answers.drop_last();
        let a = answers.last();
        let rest = unpaid(rows, earlier, round_id, is_lightning);
        if a.round_id == round_id && credit_fails(
            credit_all(rows, earlier, round_id, is_lightning),
            a.player_id,
            spec_points(a.chosen_answer_index, is_lightning),
        ) {
            rest.push(a.answer_id)
        } else {
            rest
        }
    }
}

/// What a payout leaves alone: the number of players, and of each player
/// everything but the score.
pub proof fn lemma_credit_all_keeps_rows(
    rows: Seq<Player>,
    answers: Seq<Answer>,
    round_id: u64,
    is_lightning: bool,
)
    ensures
        credit_all(rows, answers, round_id, is_lightning).len() == rows.len(),
        forall|p: int|
            0 <= p < rows.len() ==> {
                let after = #[trigger] credit_all(rows, answers, round_id, is_lightning)[p];
                &&& after.player_id == rows[p].player_id
                &&& after.name == rows[p].name
                &&& after.elo == rows[p].elo
            },
        player_ids(credit_all(rows, answers, round_id, is_lightning)) == player_ids(rows),
    decreases answers.len(),
{
    if answers.len() > 0 {
        lemma_credit_all_keeps_rows(rows, answers.drop_last(), round_id, is_lightning);
    }
    assert(player_ids(credit_all(rows, answers, round_id, is_lightning)) =~= player_ids(rows));
}

/// What scoring pays a player, where every player and every answer is
/// recorded once: the points of the player's answer to the round, if the
/// player gave one and the score can take them, and nothing otherwise.
pub proof fn lemma_credit_all_pays_own_answer(
    rows: Seq<Player>,
    answers: Seq<Answer>,
    round_id: u64,
    is_lightning: bool,
    p: int,
)
    requires
        distinct(player_ids(rows)),
        distinct(answer_keys(answers)),
        0 <= p < rows.len(),
    ensures
        credit_all(rows, answers, round_id, is_lightning).len() == rows.len(),
        credit_all(rows, answers, round_id, is_lightning)[p] == (match key_index(
            answer_keys(answers),
            (round_id, rows[p].player_id),
        ) {
            Some(a) => {
                let earned = spec_points(answers[a].chosen_answer_index, is_lightning);
                if rows[p].score + earned <= u32::MAX {
                    Player { score: (rows[p].score + earned) as u32, ..rows[p] }
                } else {
                    rows[p]
                }
            },
            None => rows[p],
        }),
    decreases answers.len(),
{
    let key = (round_id, rows[p].player_id);
    lemma_credit_all_keeps_rows(rows, answers, round_id, is_lightning);
    if answers.len() == 0 {
        lemma_key_index_is(answer_keys(answers), key);
    } else {
        let earlier = answers.drop_last();
        let last = answers.last();
        let n = earlier.len() as int;
        assert(answer_keys(earlier) =~= answer_keys(answers).drop_last());
        lemma_credit_all_keeps_rows(rows, earlier, round_id, is_lightning);
        lemma_credit_all_pays_own_answer(rows, earlier, round_id, is_lightning, p);
        let before = credit_all(rows, earlier, round_id, is_lightning);
        lemma_key_index_is(answer_keys(earlier), key);
        lemma_key_index_is(player_ids(rows), last.player_id);
        if answer_keys(answers)[n] == key {
            assert forall|j: int| 0 <= j < n implies answer_keys(answers)[j] != key by {
                assert(answer_keys(answers)[j] != answer_keys(answers)[n]);
            }
            lemma_key_index_found(answer_keys(answers), key, n);
            assert(key_index(answer_keys(earlier), key) is None) by {
                assert forall|j: int| 0 <= j < n implies answer_keys(earlier)[j] != key by {
                    assert(answer_keys(earlier)[j] == answer_keys(answers)[j]);
                }
                lemma_key_index_absent(answer_keys(earlier), key);
            }
            assert forall|j: int| 0 <= j < p implies player_ids(rows)[j] != rows[p].player_id by {
                assert(player_ids(rows)[j] != player_ids(rows)[p]);
            }
            lemma_key_index_found(player_ids(rows), rows[p].player_id, p);
        } else {
            match key_index(answer_keys(earlier), key) {
                Some(a) => {
                    assert(answer_keys(answers)[a] == key);
                    assert forall|j: int| 0 <= j < a implies answer_keys(answers)[j] != key by {
                        assert(answer_keys(earlier)[j] == answer_keys(answers)[j]);
                    }
                    lemma_key_index_found(answer_keys(answers), key, a);
                },
                None => {
                    assert forall|j: int| 0 <= j < answers.len() implies answer_keys(
                        answers,
                    )[j] != key by {
                        if j < n {
                            assert(answer_keys(earlier)[j] == answer_keys(answers)[j]);
                        }
                    }
                    lemma_key_index_absent(answer_keys(answers), key);
                },
            }
            if last.round_id == round_id {
                // the last answer is another player's: row `p` is not the one paid
                assert(last.player_id != rows[p].player_id);
                match key_index(player_ids(rows), last.player_id) {
                    Some(q) => {
                        assert(player_ids(rows)[q] == last.player_id);
                        assert(q != p);
                    },
                    None => {},
                }
            }
        }
    }
}

/// Why `score_round` refuses, if it does.
pub open spec fn score_round_refusal(t: Tables, sender: Identity, round_id: u64) -> Option<
    GameError,
> {
    match key_index(round_ids(t.active_round), round_id) {
        None => Some(GameError::NotFound),
        Some(r) => match key_index(lobby_ids(t.lobby), t.active_round[r].lobby_id) {
            None => Some(GameError::NotFound),
            Some(l) => if t.lobby[l].host_id != sender {
                Some(GameError::Forbidden)
            } else if t.active_round[r].status != RoundStatus::InProgress {
                Some(GameError::InvalidState)
            } else if key_index(question_ids(t.question_bank), t.active_round[r].question_id)
                is None {
                Some(GameError::NotFound)
            } else {
                None
            },
        },
    }
}

/// The tables after `score_round` accepted: the round finished, its answers
/// scored, the points paid out.
pub open spec fn after_score_round(t: Tables, round_id: u64) -> Tables {
    let r = key_index(round_ids(t.active_round), round_id)->0;
    let round = t.active_round[r];
    Tables {
        active_round: t.active_round.update(
            r,
            ActiveRound { status: RoundStatus::Finished, ..round },
        ),
        answer: scored(t.answer, round_id, round.is_lightning),
        player: credit_all(t.player, t.answer, round_id, round.is_lightning),
        ..t
    }
}

/// The host closes a round in progress: every answer of the round gets its
/// points, the points go to the players' scores, and the round is finished.
/// Points that cannot be paid do not stop the scoring: the call returns the
/// ids of the answers they belong to.
pub fn score_round(store: &mut Store, sender: Identity, round_id: u64) -> (result: Result<
    Vec<u64>,
    GameError,
>)
    ensures
        match result {
            Ok(warnings) => {
                let t = old(store)@;
                let r = key_index(round_ids(t.active_round), round_id)->0;
                &&& score_round_refusal(t, sender, round_id) is None
                &&& final(store)@ == after_score_round(t, round_id)
                &&& warnings@ == unpaid(
                    t.player,
                    t.answer,
                    round_id,
                    t.active_round[r].is_lightning,
                )
            },
            Err(e) => {
                &&& score_round_refusal(old(store)@, sender, round_id) == Some(e)
                &&& final(store)@ == old(store)@
            },
        },
        old(store)@.wf() ==> final(store)@.wf(),
        final(store)@.follows(old(store)@),
        final(store)@.moved_by_host(old(store)@, sender),
{
    let r = match store.find_round(round_id) {
        Some(r) => r,
        None => { return Err(GameError::NotFound); },
    };
    let round = store.active_round[r];
    let l = match store.find_lobby(round.lobby_id) {
        Some(l) => l,
        None => { return Err(GameError::NotFound); },
    };
    if store.lobby[l].host_id != sender {
        return Err(GameError::Forbidden);
    }
    if round.status != RoundStatus::InProgress {
        return Err(GameError::InvalidState);
    }
    if store.find_question(round.question_id).is_none() {
        return Err(GameError::NotFound);
    }
    // the round is in scoring until every answer is through
    store.active_round[r].status = RoundStatus::Scoring;
    let ghost t = old(store)@;
    let total = store.answer.len();
    let mut warnings: Vec<u64> = Vec::new();
    let mut k: usize = 0;
    while k < total
        invariant
            k <= total,
            warnings@ == unpaid(t.player, t.answer.take(k as int), round_id, round.is_lightning),
            total == t.answer.len(),
            store.answer@.len() == total,
            r < t.active_round.len(),
            round == t.active_round[r as int],
            store@ == (Tables {
                active_round: t.active_round.update(
                    r as int,
                    ActiveRound { status: RoundStatus::Scoring, ..round },
                ),
                answer: store.answer@,
                player: store.player@,
                ..t
            }),
            forall|j: int|
                0 <= j < k ==> store.answer@[j] == scored(t.answer, round_id, round.is_lightning)[j],
            forall|j: int| k <= j < total ==> store.answer@[j] == t.answer[j],
            store.player@ == credit_all(
                t.player,
                t.answer.take(k as int),
                round_id,
                round.is_lightning,
            ),
            store.player@.len() == t.player.len(),
            forall|j: int|
                0 <= j < t.player.len() ==> (#[trigger] store.player@[j]).player_id
                    == t.player[j].player_id && store.player@[j].name == t.player[j].name,
        decreases total - k,
    {
        let answer = store.answer[k];
        proof {
            assert(t.answer.take(k as int + 1).drop_last() =~= t.answer.take(k as int));
            assert(t.answer.take(k as int + 1).last() == t.answer[k as int]);
        }
        if answer.round_id == round_id {
            let awarded = points(answer.chosen_answer_index, round.is_lightning);
            store.answer[k].score = Some(awarded);
            match store.find_player(answer.player_id) {
                Some(p) => {
                    if store.player[p].score <= u32::MAX - awarded {
                        store.player[p].score = store.player[p].score + awarded;
                    } else {
                        warnings.push(answer.answer_id);
                    }
                },
                None => {
                    warnings.push(answer.answer_id);
                },
            }
        }
        k += 1;
    }
    store.active_round[r].status = RoundStatus::Finished;
    proof {
        assert(t.answer.take(total as int) =~= t.answer);
        assert(store@.answer =~= scored(t.answer, round_id, round.is_lightning));
        assert(store@.active_round =~= after_score_round(t, round_id).active_round);
        assert(round_ids(store@.active_round) =~= round_ids(t.active_round));
        assert(player_ids(store@.player) =~= player_ids(t.player));
        assert(player_names(store@.player) =~= player_names(t.player));
        assert(answer_keys(store@.answer) =~= answer_keys(t.answer));
        assert(answer_ids(store@.answer) =~= answer_ids(t.answer));
        if t.wf() {
            lemma_scoring_keeps_tally(
                t.answer,
                t.crowd_meter_stats,
                round_id,
                round.is_lightning,
            );
        }
    }
    Ok(warnings)
}

/// Where the tables keep their rules, the host of a round in progress can
/// always score it: the round's lobby and question are there.
pub proof fn lemma_score_round_is_owed(t: Tables, sender: Identity, round_id: u64)
    requires
        t.wf(),
        key_index(round_ids(t.active_round), round_id) matches Some(r) && {
            &&& t.active_round[r].status == RoundStatus::InProgress
            &&& key_index(lobby_ids(t.lobby), t.active_round[r].lobby_id) matches Some(l)
                ==> t.lobby[l].host_id == sender
        },
    ensures
        score_round_refusal(t, sender, round_id) is None,
{
    lemma_key_index_is(round_ids(t.active_round), round_id);
    let r = key_index(round_ids(t.active_round), round_id)->0;
    assert(key_index(lobby_ids(t.lobby), t.active_round[r].lobby_id) is Some);
    assert(key_index(question_ids(t.question_bank), t.active_round[r].question_id) is Some);
}

/// A score is set once: where the tables keep their rules, scoring a round
/// changes no answer that has its score already.
pub proof fn lemma_scores_are_set_once(t: Tables, sender: Identity, round_id: u64, a: int)
    requires
        t.wf(),
        score_round_refusal(t, sender, round_id) is None,
        0 <= a < t.answer.len(),
        t.answer[a].score is Some,
    ensures
        after_score_round(t, round_id).answer[a] == t.answer[a],
{
    lemma_key_index_is(round_ids(t.active_round), round_id);
    if t.answer[a].round_id == round_id {
        assert(t.scored_when_finished());
    }
}

/// A round that is not in progress is never scored: the call is refused, and
/// with `InvalidState` when the caller is the host of the round's lobby. A
/// refused call changes no answer and no player.
pub proof fn lemma_score_round_needs_in_progress(t: Tables, sender: Identity, round_id: u64)
    requires
        key_index(round_ids(t.active_round), round_id) matches Some(r)
            && t.active_round[r].status != RoundStatus::InProgress,
    ensures
        score_round_refusal(t, sender, round_id) is Some,
        ({
            let r = key_index(round_ids(t.active_round), round_id)->0;
            key_index(lobby_ids(t.lobby), t.active_round[r].lobby_id) matches Some(l)
                && t.lobby[l].host_id == sender
        }) ==> score_round_refusal(t, sender, round_id) == Some(GameError::InvalidState),
{
}

} // verus!
