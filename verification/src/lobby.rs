//! Players and lobbies: who a caller is, and which lobby a caller joins.

use vstd::prelude::*;
use crate::store::{
    distinct, key_index, lemma_key_index_found, lemma_key_index_is, lemma_links_kept, lobby_ids,
    lobby_statuses, player_ids, player_names, Store, Tables,
};
use crate::text::{decimal, decimal_text, identity_hex, identity_to_hex, lemma_decimal_round_trip};
use crate::types::{GameError, Identity, Lobby, LobbyStatus, Player, DEFAULT_ELO};

verus! {

/// The name a new player gets when nobody has it yet: `Player_` and the
/// first eight hexadecimal digits of the identity.
pub open spec fn base_name(id: Identity) -> Seq<char> {
    "Player_"@ + identity_hex(id).subrange(0, 8)
}

/// The `counter`-th name tried for a new player: the base name, then the
/// base name with `_1`, `_2` and so on.
pub open spec fn candidate_name(id: Identity, counter: nat) -> Seq<char> {
    if counter == 0 {
        base_name(id)
    } else {
        base_name(id) + "_"@ + decimal_text(counter)
    }
}

/// Some player has this display name.
pub open spec fn name_taken(rows: Seq<Player>, name: Seq<char>) -> bool {
    key_index(player_names(rows), name) is Some
}

/// `counter` is the first candidate that is free, among as many candidates
/// as there are players and one more.
pub open spec fn is_first_free(rows: Seq<Player>, id: Identity, counter: nat) -> bool {
    &&& counter <= rows.len()
    &&& !name_taken(rows, candidate_name(id, counter))
    &&& forall|c: nat| c < counter ==> name_taken(rows, #[trigger] candidate_name(id, c))
}

/// The name a new player with this identity gets, if one of the candidates
/// is free.
pub open spec fn free_name(rows: Seq<Player>, id: Identity) -> Option<Seq<char>> {
    if exists|c: nat| is_first_free(rows, id, c) {
        Some(candidate_name(id, choose|c: nat| is_first_free(rows, id, c)))
    } else {
        None
    }
}

proof fn lemma_free_name_is(rows: Seq<Player>, id: Identity, counter: nat)
    requires
        is_first_free(rows, id, counter),
    ensures
        free_name(rows, id) == Some(candidate_name(id, counter)),
{
    let c = choose|c: nat| is_first_free(rows, id, c);
    if c < counter {
        assert(name_taken(rows, candidate_name(id, c)));
    }
    if counter < c {
        assert(name_taken(rows, candidate_name(id, counter)));
    }
}

proof fn lemma_free_name_none(rows: Seq<Player>, id: Identity)
    requires
        forall|c: nat| c <= rows.len() ==> name_taken(rows, #[trigger] candidate_name(id, c)),
    ensures
        free_name(rows, id) is None,
{
}

/// Different counters give different names.
pub proof fn lemma_candidates_differ(id: Identity, a: nat, b: nat)
    requires
        a != b,
    ensures
        candidate_name(id, a) != candidate_name(id, b),
{
    lemma_decimal_round_trip(a);
    lemma_decimal_round_trip(b);
    reveal_strlit("_");
    let lead = base_name(id) + "_"@;
    if a != 0 && b != 0 {
        let left = candidate_name(id, a);
        let right = candidate_name(id, b);
        assert(left.subrange(lead.len() as int, left.len() as int) =~= decimal_text(a));
        assert(right.subrange(lead.len() as int, right.len() as int) =~= decimal_text(b));
    } else if a == 0 {
        assert(candidate_name(id, b).len() > base_name(id).len());
    } else {
        assert(candidate_name(id, a).len() > base_name(id).len());
    }
}

proof fn lemma_least_free(rows: Seq<Player>, id: Identity, c: nat)
    requires
        c <= rows.len(),
        !name_taken(rows, candidate_name(id, c)),
    ensures
        exists|f: nat| is_first_free(rows, id, f),
    decreases c,
{
    if exists|d: nat| d < c && !name_taken(rows, candidate_name(id, d)) {
        let d = choose|d: nat| d < c && !name_taken(rows, candidate_name(id, d));
        lemma_least_free(rows, id, d);
    } else {
        assert(is_first_free(rows, id, c));
    }
}

/// A new player always finds a free name: among one more candidate than
/// there are players, the players cannot have taken them all. So resolving
/// a caller is never refused.
pub proof fn lemma_a_name_is_free(rows: Seq<Player>, id: Identity)
    ensures
        free_name(rows, id) is Some,
        !resolve_refused(rows, id),
{
    let n = rows.len();
    let names = player_names(rows);
    if forall|c: nat| c <= n ==> name_taken(rows, #[trigger] candidate_name(id, c)) {
        let tried = Seq::new(n + 1, |c: int| candidate_name(id, c as nat));
        assert(tried.no_duplicates()) by {
            assert forall|i: int, j: int|
                0 <= i < tried.len() && 0 <= j < tried.len() && i != j implies tried[i]
                != tried[j] by {
                lemma_candidates_differ(id, i as nat, j as nat);
            }
        }
        tried.unique_seq_to_set();
        names.lemma_cardinality_of_set();
        assert(tried.to_set().subset_of(names.to_set())) by {
            assert forall|name: Seq<char>|
                tried.to_set().contains(name) implies names.to_set().contains(name) by {
                let c = choose|c: int| 0 <= c < tried.len() && tried[c] == name;
                assert(name_taken(rows, candidate_name(id, c as nat)));
                lemma_key_index_is(names, name);
                let at = key_index(names, name)->0;
                assert(names[at] == name);
            }
        }
        vstd::seq_lib::seq_to_set_is_finite(names);
        vstd::set_lib::lemma_len_subset(tried.to_set(), names.to_set());
        assert(false);
    }
    let c = choose|c: nat| c <= n && !name_taken(rows, candidate_name(id, c));
    lemma_least_free(rows, id, c);
}

fn make_candidate(base: &String, counter: u64) -> (name: String)
    requires
        counter > 0,
    ensures
        name@ == base@ + "_"@ + decimal_text(counter as nat),
{
    let name = base.clone().concat("_").concat(decimal(counter).as_str());
    name
}

/// Picks the display name for a new player.
pub fn pick_name(store: &Store, id: Identity) -> (picked: Option<String>)
    ensures
        match picked {
            Some(name) => free_name(store.player@, id) == Some(name@),
            None => free_name(store.player@, id) is None,
        },
{
    let hex = identity_to_hex(id);
    let base = String::from_str("Player_").concat(hex.as_str().substring_char(0, 8));
    assert(base@ == base_name(id));
    if store.find_name(&base).is_none() {
        proof {
            assert(candidate_name(id, 0) == base@);
            lemma_free_name_is(store.player@, id, 0);
        }
        return Some(base);
    }
    let bound = store.player.len();
    let mut counter: usize = 0;
    while counter < bound
        invariant
            counter <= bound,
            bound == store.player@.len(),
            base@ == base_name(id),
            forall|c: nat|
                c <= counter ==> name_taken(store.player@, #[trigger] candidate_name(id, c)),
        decreases bound - counter,
    {
        counter += 1;
        let name = make_candidate(&base, counter as u64);
        assert(name@ == candidate_name(id, counter as nat));
        if store.find_name(&name).is_none() {
            proof {
                lemma_free_name_is(store.player@, id, counter as nat);
            }
            return Some(name);
        }
    }
    proof {
        lemma_free_name_none(store.player@, id);
    }
    None
}

/// A copy of a player record.
pub fn copy_player(p: &Player) -> (copy: Player)
    ensures
        copy == *p,
{
    Player { player_id: p.player_id, name: p.name.clone(), score: p.score, elo: p.elo }
}

/// A player as first recorded: no score yet, the starting rating.
pub open spec fn is_new_player(p: Player, id: Identity, name: Seq<char>) -> bool {
    &&& p.player_id == id
    &&& p.name@ == name
    &&& p.score == 0
    &&& p.elo == DEFAULT_ELO
}

/// How the player table stands after a caller was resolved: unchanged if the
/// caller was known, else longer by the caller's new record.
pub open spec fn players_after_resolve(before: Seq<Player>, after: Seq<Player>, id: Identity) -> bool {
    match key_index(player_ids(before), id) {
        Some(_) => after == before,
        None => {
            &&& free_name(before, id) is Some
            &&& after.len() == before.len() + 1
            &&& after.drop_last() == before
            &&& is_new_player(after.last(), id, free_name(before, id)->0)
        },
    }
}

/// Whether resolving this caller fails: the caller is unknown and every
/// candidate name is taken.
pub open spec fn resolve_refused(rows: Seq<Player>, id: Identity) -> bool {
    key_index(player_ids(rows), id) is None && free_name(rows, id) is None
}

/// The caller's player record. A caller seen for the first time gets a
/// record with a fresh name, no score and the starting rating. The call is
/// refused only when every candidate name is taken, which
/// `lemma_a_name_is_free` rules out.
pub fn resolve_or_create_player(store: &mut Store, sender: Identity) -> (result: Result<
    Player,
    GameError,
>)
    ensures
        match result {
            Ok(p) => {
                &&& !resolve_refused(old(store)@.player, sender)
                &&& players_after_resolve(old(store)@.player, final(store)@.player, sender)
                &&& key_index(player_ids(final(store)@.player), sender) matches Some(i)
                    && final(store)@.player[i] == p
                &&& final(store)@ == (Tables { player: final(store)@.player, ..old(store)@ })
            },
            Err(e) => {
                &&& e == GameError::NameConflict
                &&& resolve_refused(old(store)@.player, sender)
                &&& final(store)@ == old(store)@
            },
        },
        old(store)@.wf() ==> final(store)@.wf(),
        final(store)@.follows(old(store)@),
        final(store)@.moved_by_host(old(store)@, sender),
{
    match store.find_player(sender) {
        Some(i) => Ok(copy_player(&store.player[i])),
        None => match pick_name(store, sender) {
            None => Err(GameError::NameConflict),
            Some(name) => {
                let copy = name.clone();
                store.player.push(
                    Player { player_id: sender, name, score: 0, elo: DEFAULT_ELO },
                );
                proof {
                    assert(store@.player.drop_last() =~= old(store)@.player);
                    lemma_player_added(old(store)@.player, store@.player, sender);
                }
                Ok(Player { player_id: sender, name: copy, score: 0, elo: DEFAULT_ELO })
            },
        },
    }
}

/// Adding the record of an unknown caller under a free name keeps identities
/// and names unique, and the caller is then found at the new row.
pub proof fn lemma_player_added(before: Seq<Player>, after: Seq<Player>, id: Identity)
    requires
        key_index(player_ids(before), id) is None,
        players_after_resolve(before, after, id),
    ensures
        key_index(player_ids(after), id) == Some(before.len() as int),
        distinct(player_ids(before)) ==> distinct(player_ids(after)),
        distinct(player_names(before)) ==> distinct(player_names(after)),
{
    let name = free_name(before, id)->0;
    let c = choose|c: nat| is_first_free(before, id, c);
    assert(is_first_free(before, id, c));
    lemma_key_index_is(player_ids(before), id);
    lemma_key_index_is(player_names(before), name);
    assert(player_ids(after) =~= player_ids(before).push(id)) by {
        assert forall|j: int| 0 <= j < before.len() implies after[j] == before[j] by {
            assert(after.drop_last()[j] == after[j]);
        }
    }
    assert(player_names(after) =~= player_names(before).push(name)) by {
        assert forall|j: int| 0 <= j < before.len() implies after[j] == before[j] by {
            assert(after.drop_last()[j] == after[j]);
        }
    }
    lemma_key_index_found(player_ids(after), id, before.len() as int);
}

/// Resolving the same caller a second time returns the record of the first
/// time and adds nothing.
pub proof fn lemma_resolve_is_idempotent(
    first: Seq<Player>,
    second: Seq<Player>,
    third: Seq<Player>,
    id: Identity,
)
    requires
        !resolve_refused(first, id),
        players_after_resolve(first, second, id),
        players_after_resolve(second, third, id),
    ensures
        !resolve_refused(second, id),
        third == second,
        key_index(player_ids(second), id) is Some,
{
    if key_index(player_ids(first), id) is None {
        lemma_player_added(first, second, id);
    }
}

/// Why `join_lobby` refuses, if it does.
pub open spec fn join_lobby_refusal(t: Tables, sender: Identity) -> Option<GameError> {
    if resolve_refused(t.player, sender) {
        Some(GameError::NameConflict)
    } else if key_index(lobby_statuses(t.lobby), LobbyStatus::Waiting) is None && t.next_lobby_id
        == u64::MAX {
        Some(GameError::LobbyCreateFailed)
    } else {
        None
    }
}

/// The lobby a caller ends up in: the first waiting one, or a new one.
pub open spec fn joined_lobby_id(t: Tables) -> u64 {
    match key_index(lobby_statuses(t.lobby), LobbyStatus::Waiting) {
        Some(i) => t.lobby[i].lobby_id,
        None => t.next_lobby_id,
    }
}

/// The lobbies after a join: as before when one was waiting, else with a new
/// waiting lobby hosted by the caller.
pub open spec fn lobbies_after_join(t: Tables, sender: Identity, lobby_name: Option<String>) -> Seq<
    Lobby,
> {
    match key_index(lobby_statuses(t.lobby), LobbyStatus::Waiting) {
        Some(_) => t.lobby,
        None => t.lobby.push(
            Lobby {
                lobby_id: t.next_lobby_id,
                name: lobby_name,
                status: LobbyStatus::Waiting,
                host_id: sender,
                next_round_is_lightning: false,
            },
        ),
    }
}

/// The lobby counter after a join: one further when a lobby was opened.
pub open spec fn lobby_counter_after_join(t: Tables) -> u64 {
    match key_index(lobby_statuses(t.lobby), LobbyStatus::Waiting) {
        Some(_) => t.next_lobby_id,
        None => (t.next_lobby_id + 1) as u64,
    }
}

/// A caller enters the waiting lobby, or opens one when none is waiting, and
/// is recorded as a player on first contact. Returns the lobby's id.
pub fn join_lobby(store: &mut Store, sender: Identity, lobby_name: Option<String>) -> (result:
    Result<u64, GameError>)
    ensures
        match result {
            Ok(lobby_id) => {
                &&& join_lobby_refusal(old(store)@, sender) is None
                &&& lobby_id == joined_lobby_id(old(store)@)
                &&& players_after_resolve(old(store)@.player, final(store)@.player, sender)
                &&& final(store)@ == (Tables {
                    player: final(store)@.player,
                    lobby: lobbies_after_join(old(store)@, sender, lobby_name),
                    next_lobby_id: lobby_counter_after_join(old(store)@),
                    ..old(store)@
                })
            },
            Err(e) => {
                &&& join_lobby_refusal(old(store)@, sender) == Some(e)
                &&& final(store)@ == old(store)@
            },
        },
        old(store)@.wf() ==> final(store)@.wf(),
        final(store)@.follows(old(store)@),
        final(store)@.moved_by_host(old(store)@, sender),
{
    let known = store.find_player(sender);
    let name = if known.is_none() {
        match pick_name(store, sender) {
            None => { return Err(GameError::NameConflict); },
            Some(name) => Some(name),
        }
    } else {
        None
    };
    let waiting = store.find_waiting_lobby();
    if waiting.is_none() && store.next_lobby_id == u64::MAX {
        return Err(GameError::LobbyCreateFailed);
    }
    match name {
        Some(name) => {
            store.player.push(Player { player_id: sender, name, score: 0, elo: DEFAULT_ELO });
            proof {
                assert(store@.player.drop_last() =~= old(store)@.player);
                lemma_player_added(old(store)@.player, store@.player, sender);
            }
        },
        None => {},
    }
    match waiting {
        Some(i) => Ok(store.lobby[i].lobby_id),
        None => {
            let lobby_id = store.next_lobby_id;
            store.lobby.push(
                Lobby {
                    lobby_id,
                    name: lobby_name,
                    status: LobbyStatus::Waiting,
                    host_id: sender,
                    next_round_is_lightning: false,
                },
            );
            store.next_lobby_id = lobby_id + 1;
            proof {
                let t = old(store)@;
                lemma_key_index_is(lobby_statuses(t.lobby), LobbyStatus::Waiting);
                assert(lobby_ids(store@.lobby) =~= lobby_ids(t.lobby).push(lobby_id));
                assert forall|a: int, b: int|
                    0 <= a < b < store@.lobby.len() && (#[trigger] store@.lobby[a]).status
                        == LobbyStatus::Waiting implies (#[trigger] store@.lobby[b]).status
                    != LobbyStatus::Waiting by {
                    assert(lobby_statuses(t.lobby)[a] != LobbyStatus::Waiting);
                }
                if t.wf() {
                    assert(store@.follows(t));
                    lemma_links_kept(t, store@);
                }
            }
            Ok(lobby_id)
        },
    }
}

} // verus!
