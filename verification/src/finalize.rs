//! The end of a game: who took part, how each participant placed, and the
//! rating update.

use vstd::prelude::*;
use crate::store::{
    key_index, lemma_leave_waiting, lobby_ids, player_ids, player_names, Store, Tables,
};
use crate::types::{ActiveRound, GameError, Identity, Lobby, LobbyStatus, Player};

verus! {

/// How a participant did against the field: first place wins, second place
/// of three or more draws, everyone else loses.
#[derive(Clone, Copy, Debug, PartialEq, Eq, Structural)]
pub enum Outcome {
    Win,
    Draw,
    Loss,
}

/// What the rating formula needs to know about one participant.
#[derive(Clone, Copy, Debug, PartialEq, Eq, Structural)]
pub struct Matchup {
    pub player_id: Identity,
    pub rating: i32,
    /// Mean rating of the other participants.
    pub opponent_rating: i32,
    pub outcome: Outcome,
}

/// Some round with this id belongs to the lobby.
pub open spec fn round_in_lobby(rounds: Seq<ActiveRound>, round_id: u64, lobby_id: u64) -> bool {
    exists|r: int|
        0 <= r < rounds.len() && (#[trigger] rounds[r]).round_id == round_id && rounds[r].lobby_id
            == lobby_id
}

/// The caller answered at least once in a round of the lobby.
pub open spec fn participates(t: Tables, lobby_id: u64, who: Identity) -> bool {
    exists|a: int|
        0 <= a < t.answer.len() && (#[trigger] t.answer[a]).player_id == who && round_in_lobby(
            t.active_round,
            t.answer[a].round_id,
            lobby_id,
        )
}

/// Row `i` of the player table holds a participant of the lobby's game.
pub open spec fn participant_row(t: Tables, lobby_id: u64, i: int) -> bool {
    0 <= i < t.player.len() && participates(t, lobby_id, t.player[i].player_id)
}

/// Number of participants among the first `n` player rows.
pub open spec fn participant_count(t: Tables, lobby_id: u64, n: int) -> nat
    decreases n,
{
    if n <= 0 {
        0
    } else {
        participant_count(t, lobby_id, n - 1) + if participant_row(t, lobby_id, n - 1) {
            1nat
        } else {
            0nat
        }
    }
}

/// Row `i` places ahead of row `j`: by the higher score, and among equal
/// scores by the earlier row.
pub open spec fn ranks_before(rows: Seq<Player>, i: int, j: int) -> bool {
    rows[i].score > rows[j].score || (rows[i].score == rows[j].score && i < j)
}

/// Number of participants among the first `n` rows that place ahead of row
/// `i`. Over all rows this is the place of row `i`, counted from 0.
pub open spec fn rank(t: Tables, lobby_id: u64, i: int, n: int) -> nat
    decreases n,
{
    if n <= 0 {
        0
    } else {
        rank(t, lobby_id, i, n - 1) + if participant_row(t, lobby_id, n - 1) && ranks_before(
            t.player,
            n - 1,
            i,
        ) {
            1nat
        } else {
            0nat
        }
    }
}

/// Sum of the ratings of the participants among the first `n` rows, row `i`
/// left out.
pub open spec fn others_sum(t: Tables, lobby_id: u64, i: int, n: int) -> int
    decreases n,
{
    if n <= 0 {
        0
    } else {
        others_sum(t, lobby_id, i, n - 1) + if n - 1 != i && participant_row(t, lobby_id, n - 1) {
            t.player[n - 1].elo as int
        } else {
            0
        }
    }
}

/// The outcome of a place, counted from 0, among `count` participants.
pub open spec fn outcome_at(place: nat, count: nat) -> Outcome {
    if place == 0 {
        Outcome::Win
    } else if place == 1 && count > 2 {
        Outcome::Draw
    } else {
        Outcome::Loss
    }
}

/// Integer division that rounds toward zero.
pub open spec fn trunc_div(a: int, b: int) -> int {
    if a >= 0 {
        a / b
    } else {
        -((-a) / b)
    }
}

/// The matchup of the participant in row `i`.
pub open spec fn matchup_of(t: Tables, lobby_id: u64, i: int) -> Matchup {
    let n = t.player.len() as int;
    let count = participant_count(t, lobby_id, n);
    Matchup {
        player_id: t.player[i].player_id,
        rating: t.player[i].elo,
        opponent_rating: trunc_div(others_sum(t, lobby_id, i, n), count - 1) as i32,
        outcome: outcome_at(rank(t, lobby_id, i, n), count),
    }
}

/// The matchups of the participants among the first `n` rows, in row order.
pub open spec fn matchups_upto(t: Tables, lobby_id: u64, n: int) -> Seq<Matchup>
    decreases n,
{
    if n <= 0 {
        Seq::empty()
    } else if participant_row(t, lobby_id, n - 1) {
        matchups_upto(t, lobby_id, n - 1).push(matchup_of(t, lobby_id, n - 1))
    } else {
        matchups_upto(t, lobby_id, n - 1)
    }
}

/// The matchups to rate when a lobby's game ends: one per participant, or
/// none at all when fewer than two took part.
pub open spec fn spec_matchups(t: Tables, lobby_id: u64) -> Seq<Matchup> {
    if participant_count(t, lobby_id, t.player.len() as int) < 2 {
        Seq::empty()
    } else {
        matchups_upto(t, lobby_id, t.player.len() as int)
    }
}

/// There is one matchup per participant, and no more participants than rows.
pub proof fn lemma_matchups_len(t: Tables, lobby_id: u64, n: int)
    ensures
        matchups_upto(t, lobby_id, n).len() == participant_count(t, lobby_id, n),
        participant_count(t, lobby_id, n) <= if n < 0 { 0 } else { n },
    decreases n,
{
    if n > 0 {
        lemma_matchups_len(t, lobby_id, n - 1);
    }
}

/// A participant among the first `n` rows that places ahead of row `i`
/// keeps row `i` off the first place.
pub proof fn lemma_rank_counts(t: Tables, lobby_id: u64, i: int, j: int, n: int)
    requires
        0 <= j < n,
        participant_row(t, lobby_id, j),
        ranks_before(t.player, j, i),
    ensures
        rank(t, lobby_id, i, n) >= 1,
    decreases n,
{
    if j < n - 1 {
        lemma_rank_counts(t, lobby_id, i, j, n - 1);
    }
}

/// A row in first place has no participant among the first `n` rows ahead
/// of it.
pub proof fn lemma_first_place(t: Tables, lobby_id: u64, i: int, j: int, n: int)
    requires
        rank(t, lobby_id, i, n) == 0,
        0 <= j < n,
        participant_row(t, lobby_id, j),
    ensures
        !ranks_before(t.player, j, i),
{
    if ranks_before(t.player, j, i) {
        lemma_rank_counts(t, lobby_id, i, j, n);
    }
}

/// The winner is the participant with the highest score, and there is one
/// winner only: whoever is in first place has at least the score of every
/// participant, and no other participant is in first place.
pub proof fn lemma_one_winner(t: Tables, lobby_id: u64, i: int, j: int)
    requires
        participant_row(t, lobby_id, i),
        participant_row(t, lobby_id, j),
        rank(t, lobby_id, i, t.player.len() as int) == 0,
    ensures
        t.player[j].score <= t.player[i].score,
        i != j ==> rank(t, lobby_id, j, t.player.len() as int) >= 1,
{
    let n = t.player.len() as int;
    lemma_first_place(t, lobby_id, i, j, n);
    if i != j {
        assert(ranks_before(t.player, i, j));
        lemma_rank_counts(t, lobby_id, j, i, n);
    }
}

proof fn lemma_places_upto(t: Tables, lobby_id: u64, i: int, j: int, n: int)
    requires
        participant_row(t, lobby_id, i),
        ranks_before(t.player, i, j),
    ensures
        rank(t, lobby_id, i, n) + (if i < n { 1nat } else { 0nat }) <= rank(t, lobby_id, j, n),
    decreases n,
{
    if n > 0 {
        lemma_places_upto(t, lobby_id, i, j, n - 1);
    }
}

/// Places follow scores: a participant with the higher score, or with the
/// same score and the earlier row, has the lower place. So no two
/// participants share a place.
pub proof fn lemma_places_follow_scores(t: Tables, lobby_id: u64, i: int, j: int)
    requires
        participant_row(t, lobby_id, i),
        participant_row(t, lobby_id, j),
        ranks_before(t.player, i, j),
    ensures
        rank(t, lobby_id, i, t.player.len() as int) < rank(t, lobby_id, j, t.player.len() as int),
{
    lemma_places_upto(t, lobby_id, i, j, t.player.len() as int);
}

proof fn lemma_place_upto_below_count(t: Tables, lobby_id: u64, i: int, n: int)
    requires
        participant_row(t, lobby_id, i),
    ensures
        rank(t, lobby_id, i, n) + (if i < n { 1nat } else { 0nat }) <= participant_count(
            t,
            lobby_id,
            n,
        ),
    decreases n,
{
    if n > 0 {
        lemma_place_upto_below_count(t, lobby_id, i, n - 1);
    }
}

/// The places of `count` participants are the numbers below `count`.
pub proof fn lemma_place_is_below_count(t: Tables, lobby_id: u64, i: int)
    requires
        participant_row(t, lobby_id, i),
    ensures
        rank(t, lobby_id, i, t.player.len() as int) < participant_count(
            t,
            lobby_id,
            t.player.len() as int,
        ),
{
    lemma_place_upto_below_count(t, lobby_id, i, t.player.len() as int);
}

/// Number of participants among the first `n` rows, row `i` left out.
pub open spec fn others_count(t: Tables, lobby_id: u64, i: int, n: int) -> nat
    decreases n,
{
    if n <= 0 {
        0
    } else {
        others_count(t, lobby_id, i, n - 1) + if n - 1 != i && participant_row(
            t,
            lobby_id,
            n - 1,
        ) {
            1nat
        } else {
            0nat
        }
    }
}

proof fn lemma_others_count(t: Tables, lobby_id: u64, i: int, n: int)
    requires
        participant_row(t, lobby_id, i),
    ensures
        others_count(t, lobby_id, i, n) + (if i < n { 1nat } else { 0nat }) == participant_count(
            t,
            lobby_id,
            n,
        ),
    decreases n,
{
    if n > 0 {
        lemma_others_count(t, lobby_id, i, n - 1);
    }
}

proof fn lemma_equal_sum(t: Tables, lobby_id: u64, i: int, n: int, rating: i32)
    requires
        n <= t.player.len(),
        forall|j: int| participant_row(t, lobby_id, j) ==> t.player[j].elo == rating,
    ensures
        others_sum(t, lobby_id, i, n) == rating * others_count(t, lobby_id, i, n),
    decreases n,
{
    if n > 0 {
        lemma_equal_sum(t, lobby_id, i, n - 1, rating);
        let before = others_count(t, lobby_id, i, n - 1);
        assert(rating * (before + 1) == rating * before + rating) by (nonlinear_arith);
    } else {
        assert(rating * 0 == 0) by (nonlinear_arith);
    }
}

/// Among participants who all have the same rating, everyone meets that
/// rating as the mean of the others.
pub proof fn lemma_equal_ratings_meet(t: Tables, lobby_id: u64, i: int, rating: i32)
    requires
        participant_row(t, lobby_id, i),
        participant_count(t, lobby_id, t.player.len() as int) >= 2,
        forall|j: int| participant_row(t, lobby_id, j) ==> t.player[j].elo == rating,
    ensures
        matchup_of(t, lobby_id, i).rating == rating,
        matchup_of(t, lobby_id, i).opponent_rating == rating,
{
    let n = t.player.len() as int;
    let others = participant_count(t, lobby_id, n) - 1;
    lemma_others_count(t, lobby_id, i, n);
    lemma_equal_sum(t, lobby_id, i, n, rating);
    assert(others_sum(t, lobby_id, i, n) == rating * others);
    if rating >= 0 {
        assert(rating * others >= 0 && (rating * others) / others == rating)
            by (nonlinear_arith)
            requires
                rating >= 0,
                others >= 1,
        ;
    } else {
        assert(rating * others < 0 && (-(rating * others)) / others == -rating)
            by (nonlinear_arith)
            requires
                rating < 0,
                others >= 1,
        ;
    }
}

fn round_belongs(store: &Store, round_id: u64, lobby_id: u64) -> (b: bool)
    ensures
        b == round_in_lobby(store@.active_round, round_id, lobby_id),
{
    let mut r: usize = 0;
    while r < store.active_round.len()
        invariant
            r <= store.active_round.len(),
            forall|k: int|
                0 <= k < r ==> !((#[trigger] store@.active_round[k]).round_id == round_id
                    && store@.active_round[k].lobby_id == lobby_id),
        decreases store.active_round.len() - r,
    {
        if store.active_round[r].round_id == round_id && store.active_round[r].lobby_id
            == lobby_id {
            assert(store@.active_round[r as int].round_id == round_id);
            return true;
        }
        r += 1;
    }
    false
}

fn takes_part(store: &Store, lobby_id: u64, who: Identity) -> (b: bool)
    ensures
        b == participates(store@, lobby_id, who),
{
    let mut a: usize = 0;
    while a < store.answer.len()
        invariant
            a <= store.answer.len(),
            forall|k: int|
                0 <= k < a ==> !((#[trigger] store@.answer[k]).player_id == who && round_in_lobby(
                    store@.active_round,
                    store@.answer[k].round_id,
                    lobby_id,
                )),
        decreases store.answer.len() - a,
    {
        if store.answer[a].player_id == who && round_belongs(
            store,
            store.answer[a].round_id,
            lobby_id,
        ) {
            assert(store@.answer[a as int].player_id == who);
            return true;
        }
        a += 1;
    }
    false
}

/// For every player row, whether it holds a participant of the lobby's game.
pub fn participant_flags(store: &Store, lobby_id: u64) -> (flags: Vec<bool>)
    ensures
        flags@.len() == store@.player.len(),
        forall|i: int| 0 <= i < flags@.len() ==> flags@[i] == participant_row(store@, lobby_id, i),
{
    let mut flags: Vec<bool> = Vec::new();
    let mut i: usize = 0;
    while i < store.player.len()
        invariant
            i <= store.player.len(),
            flags@.len() == i,
            forall|k: int| 0 <= k < i ==> flags@[k] == participant_row(store@, lobby_id, k),
        decreases store.player.len() - i,
    {
        flags.push(takes_part(store, lobby_id, store.player[i].player_id));
        i += 1;
    }
    flags
}

fn count_participants(store: &Store, lobby_id: u64, flags: &Vec<bool>) -> (count: usize)
    requires
        flags@.len() == store@.player.len(),
        forall|i: int| 0 <= i < flags@.len() ==> flags@[i] == participant_row(store@, lobby_id, i),
    ensures
        count == participant_count(store@, lobby_id, store@.player.len() as int),
{
    let mut count: usize = 0;
    let mut i: usize = 0;
    while i < flags.len()
        invariant
            i <= flags@.len(),
            flags@.len() == store@.player.len(),
            forall|k: int|
                0 <= k < flags@.len() ==> flags@[k] == participant_row(store@, lobby_id, k),
            count == participant_count(store@, lobby_id, i as int),
            count <= i,
        decreases flags.len() - i,
    {
        if flags[i] {
            count += 1;
        }
        i += 1;
    }
    count
}

fn place_of(store: &Store, lobby_id: u64, flags: &Vec<bool>, i: usize) -> (place: usize)
    requires
        flags@.len() == store@.player.len(),
        forall|k: int| 0 <= k < flags@.len() ==> flags@[k] == participant_row(store@, lobby_id, k),
        i < store@.player.len(),
    ensures
        place == rank(store@, lobby_id, i as int, store@.player.len() as int),
{
    let mine = store.player[i].score;
    let mut place: usize = 0;
    let mut j: usize = 0;
    while j < flags.len()
        invariant
            j <= flags@.len(),
            flags@.len() == store@.player.len(),
            i < store@.player.len(),
            mine == store@.player[i as int].score,
            forall|k: int|
                0 <= k < flags@.len() ==> flags@[k] == participant_row(store@, lobby_id, k),
            place == rank(store@, lobby_id, i as int, j as int),
            place <= j,
        decreases flags.len() - j,
    {
        let theirs = store.player[j].score;
        if flags[j] && (theirs > mine || (theirs == mine && j < i)) {
            place += 1;
        }
        j += 1;
    }
    place
}

fn opponent_mean(store: &Store, lobby_id: u64, flags: &Vec<bool>, i: usize, count: usize) -> (mean:
    i32)
    requires
        flags@.len() == store@.player.len(),
        forall|k: int| 0 <= k < flags@.len() ==> flags@[k] == participant_row(store@, lobby_id, k),
        i < store@.player.len(),
        flags@[i as int],
        count == participant_count(store@, lobby_id, store@.player.len() as int),
        count >= 2,
    ensures
        mean as int == trunc_div(
            others_sum(store@, lobby_id, i as int, store@.player.len() as int),
            count - 1,
        ),
{
    let mut sum: i128 = 0;
    let mut others: usize = 0;
    let mut j: usize = 0;
    while j < flags.len()
        invariant
            j <= flags@.len(),
            flags@.len() == store@.player.len(),
            i < store@.player.len(),
            flags@[i as int],
            forall|k: int|
                0 <= k < flags@.len() ==> flags@[k] == participant_row(store@, lobby_id, k),
            sum == others_sum(store@, lobby_id, i as int, j as int),
            others + (if i < j { 1nat } else { 0nat }) == participant_count(
                store@,
                lobby_id,
                j as int,
            ),
            others <= j,
            -2147483648 * others <= sum <= 2147483647 * others,
        decreases flags.len() - j,
    {
        if j != i && flags[j] {
            sum = sum + store.player[j].elo as i128;
            others += 1;
        }
        j += 1;
    }
    let d: i128 = others as i128;
    if sum >= 0 {
        assert(sum / d <= 2147483647) by (nonlinear_arith)
            requires
                0 <= sum <= 2147483647 * d,
                d > 0,
        ;
        assert(sum / d >= 0) by (nonlinear_arith)
            requires
                0 <= sum,
                d > 0,
        ;
        (sum / d) as i32
    } else {
        let m: i128 = -sum;
        assert(m / d <= 2147483648) by (nonlinear_arith)
            requires
                0 <= m <= 2147483648 * d,
                d > 0,
        ;
        assert(m / d >= 0) by (nonlinear_arith)
            requires
                0 <= m,
                d > 0,
        ;
        (-(m / d)) as i32
    }
}

/// Why the end of a lobby's game is refused, before any rating is looked at.
pub open spec fn finalize_refusal(t: Tables, sender: Identity, lobby_id: u64) -> Option<GameError> {
    match key_index(lobby_ids(t.lobby), lobby_id) {
        None => Some(GameError::NotFound),
        Some(l) => if t.lobby[l].host_id != sender {
            Some(GameError::Forbidden)
        } else if t.lobby[l].status != LobbyStatus::InGame {
            Some(GameError::InvalidState)
        } else {
            None
        },
    }
}

fn check_finalize(store: &Store, sender: Identity, lobby_id: u64) -> (result: Result<
    usize,
    GameError,
>)
    ensures
        match result {
            Ok(l) => finalize_refusal(store@, sender, lobby_id) is None && key_index(
                lobby_ids(store@.lobby),
                lobby_id,
            ) == Some(l as int),
            Err(e) => finalize_refusal(store@, sender, lobby_id) == Some(e),
        },
{
    let l = match store.find_lobby(lobby_id) {
        Some(l) => l,
        None => { return Err(GameError::NotFound); },
    };
    if store.lobby[l].host_id != sender {
        return Err(GameError::Forbidden);
    }
    if store.lobby[l].status != LobbyStatus::InGame {
        return Err(GameError::InvalidState);
    }
    Ok(l)
}

/// The matchups that the host has to rate to end the lobby's game: for each
/// participant the own rating, the mean rating of the others, and the
/// outcome by place. Nothing is changed.
pub fn elo_matchups(store: &Store, sender: Identity, lobby_id: u64) -> (result: Result<
    Vec<Matchup>,
    GameError,
>)
    ensures
        match result {
            Ok(matchups) => {
                &&& finalize_refusal(store@, sender, lobby_id) is None
                &&& matchups@ == spec_matchups(store@, lobby_id)
            },
            Err(e) => finalize_refusal(store@, sender, lobby_id) == Some(e),
        },
{
    match check_finalize(store, sender, lobby_id) {
        Err(e) => { return Err(e); },
        Ok(_) => {},
    }
    let flags = participant_flags(store, lobby_id);
    let count = count_participants(store, lobby_id, &flags);
    let mut matchups: Vec<Matchup> = Vec::new();
    if count < 2 {
        return Ok(matchups);
    }
    let mut i: usize = 0;
    while i < flags.len()
        invariant
            i <= flags@.len(),
            flags@.len() == store@.player.len(),
            forall|k: int|
                0 <= k < flags@.len() ==> flags@[k] == participant_row(store@, lobby_id, k),
            count == participant_count(store@, lobby_id, store@.player.len() as int),
            count >= 2,
            matchups@ == matchups_upto(store@, lobby_id, i as int),
        decreases flags.len() - i,
    {
        if flags[i] {
            let place = place_of(store, lobby_id, &flags, i);
            let outcome = if place == 0 {
                Outcome::Win
            } else if place == 1 && count > 2 {
                Outcome::Draw
            } else {
                Outcome::Loss
            };
            matchups.push(
                Matchup {
                    player_id: store.player[i].player_id,
                    rating: store.player[i].elo,
                    opponent_rating: opponent_mean(store, lobby_id, &flags, i, count),
                    outcome,
                },
            );
        }
        i += 1;
    }
    Ok(matchups)
}

/// A rating moved by a delta. A rating that would leave its range stays.
pub open spec fn bumped(rating: i32, delta: i32) -> i32 {
    if i32::MIN <= rating + delta <= i32::MAX {
        (rating + delta) as i32
    } else {
        rating
    }
}

/// Moves a rating by a delta, as far as the rating's range allows.
pub fn bump(rating: i32, delta: i32) -> (moved: i32)
    ensures
        moved == bumped(rating, delta),
{
    let wide: i64 = rating as i64 + delta as i64;
    if wide < i32::MIN as i64 || wide > i32::MAX as i64 {
        rating
    } else {
        wide as i32
    }
}

/// Why `finalize_game_and_update_elo` refuses, if it does, given how many
/// deltas it was handed.
pub open spec fn finalize_game_refusal(
    t: Tables,
    sender: Identity,
    lobby_id: u64,
    deltas: int,
) -> Option<GameError> {
    match finalize_refusal(t, sender, lobby_id) {
        Some(e) => Some(e),
        None => if deltas != spec_matchups(t, lobby_id).len() {
            Some(GameError::InvalidInput)
        } else {
            None
        },
    }
}

/// The players after the game was rated: each participant's rating moved by
/// the delta of its matchup and its score back at 0. With fewer than two
/// participants nobody is touched.
pub open spec fn rated_players(t: Tables, lobby_id: u64, deltas: Seq<i32>) -> Seq<Player> {
    Seq::new(
        t.player.len(),
        |i: int|
            if participant_count(t, lobby_id, t.player.len() as int) >= 2 && participant_row(
                t,
                lobby_id,
                i,
            ) {
                Player {
                    elo: bumped(t.player[i].elo, deltas[participant_count(t, lobby_id, i) as int]),
                    score: 0,
                    ..t.player[i]
                }
            } else {
                t.player[i]
            },
    )
}

/// The tables after the game was ended: the players rated, the lobby
/// finished and its lightning flag cleared.
pub open spec fn after_finalize(t: Tables, lobby_id: u64, deltas: Seq<i32>) -> Tables {
    let l = key_index(lobby_ids(t.lobby), lobby_id)->0;
    Tables {
        player: rated_players(t, lobby_id, deltas),
        lobby: t.lobby.update(
            l,
            Lobby { status: LobbyStatus::Finished, next_round_is_lightning: false, ..t.lobby[l] },
        ),
        ..t
    }
}

/// More rows hold at least as many participants.
pub proof fn lemma_count_monotone(t: Tables, lobby_id: u64, a: int, b: int)
    requires
        a <= b,
    ensures
        participant_count(t, lobby_id, a) <= participant_count(t, lobby_id, b),
    decreases b - a,
{
    if a < b {
        lemma_count_monotone(t, lobby_id, a, b - 1);
    }
}

/// The host ends the lobby's game. `deltas` holds the rating change of each
/// matchup that `elo_matchups` lists, in the same order. Every participant's
/// rating moves by its delta and its score returns to 0; the lobby is
/// finished and its lightning flag cleared.
pub fn finalize_game_and_update_elo(
    store: &mut Store,
    sender: Identity,
    lobby_id: u64,
    deltas: &Vec<i32>,
) -> (result: Result<(), GameError>)
    ensures
        match result {
            Ok(_) => {
                &&& finalize_game_refusal(old(store)@, sender, lobby_id, deltas@.len() as int)
                    is None
                &&& final(store)@ == after_finalize(old(store)@, lobby_id, deltas@)
            },
            Err(e) => {
                &&& finalize_game_refusal(old(store)@, sender, lobby_id, deltas@.len() as int)
                    == Some(e)
                &&& final(store)@ == old(store)@
            },
        },
        old(store)@.wf() ==> final(store)@.wf(),
        final(store)@.follows(old(store)@),
        final(store)@.moved_by_host(old(store)@, sender),
{
    let l = match check_finalize(store, sender, lobby_id) {
        Err(e) => { return Err(e); },
        Ok(l) => l,
    };
    let ghost t = old(store)@;
    let flags = participant_flags(store, lobby_id);
    let count = count_participants(store, lobby_id, &flags);
    let expected = if count < 2 { 0 } else { count };
    proof {
        lemma_matchups_len(t, lobby_id, t.player.len() as int);
    }
    if deltas.len() != expected {
        return Err(GameError::InvalidInput);
    }
    if count >= 2 {
        let mut i: usize = 0;
        let mut pos: usize = 0;
        while i < flags.len()
            invariant
                i <= flags@.len(),
                flags@.len() == t.player.len(),
                forall|k: int| 0 <= k < flags@.len() ==> flags@[k] == participant_row(t, lobby_id, k),
                count == participant_count(t, lobby_id, t.player.len() as int),
                count >= 2,
                deltas@.len() == count,
                pos == participant_count(t, lobby_id, i as int),
                store@ == (Tables { player: store.player@, ..t }),
                store.player@.len() == t.player.len(),
                forall|k: int|
                    0 <= k < i ==> store.player@[k] == rated_players(t, lobby_id, deltas@)[k],
                forall|k: int| i <= k < t.player.len() ==> store.player@[k] == t.player[k],
            decreases flags.len() - i,
        {
            if flags[i] {
                proof {
                    lemma_count_monotone(t, lobby_id, i as int + 1, t.player.len() as int);
                }
                let moved = bump(store.player[i].elo, deltas[pos]);
                store.player[i].elo = moved;
                store.player[i].score = 0;
                pos += 1;
            }
            i += 1;
        }
    }
    store.lobby[l].status = LobbyStatus::Finished;
    store.lobby[l].next_round_is_lightning = false;
    proof {
        assert(store@.player =~= rated_players(t, lobby_id, deltas@));
        assert(store@.lobby =~= after_finalize(t, lobby_id, deltas@).lobby);
        assert(player_ids(store@.player) =~= player_ids(t.player));
        assert(player_names(store@.player) =~= player_names(t.player));
        assert(lobby_ids(store@.lobby) =~= lobby_ids(t.lobby));
        if t.wf() {
            lemma_leave_waiting(t.lobby, store@.lobby, l as int);
        }
    }
    Ok(())
}

/// A game with fewer than two participants ends without touching any
/// player: ratings and scores stay as they are.
pub proof fn lemma_lone_game_keeps_players(t: Tables, lobby_id: u64, deltas: Seq<i32>)
    requires
        participant_count(t, lobby_id, t.player.len() as int) < 2,
    ensures
        after_finalize(t, lobby_id, deltas).player == t.player,
        spec_matchups(t, lobby_id).len() == 0,
{
    assert(rated_players(t, lobby_id, deltas) =~= t.player);
}

} // verus!
