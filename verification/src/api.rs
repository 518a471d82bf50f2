//! The registry: it owns the games and one data store, gives each new game
//! its identity, and finds a game by identity for every change.
//!
//! A game is found by scanning the games from the first on; the first one
//! with the identity asked for is taken. An identity that no game has is
//! answered with [`ApiError::NotFound`], and nothing is changed.

use crate::game_logic::{Game, GameState, GameView, Player, PlayerView};
use crate::security::{key_fits, retrieved, same_value, stored, DataView, SecureDataStore};
use vstd::prelude::*;

verus! {

/// Why a call on the registry failed.
#[derive(Clone, Copy, Debug, PartialEq, Eq, Structural)]
pub enum ApiError {
    /// No game has the identity that was asked for.
    NotFound,
}

/// Whether some game of `games` has the identity `id`.
pub open spec fn has_game(games: Seq<GameView>, id: nat) -> bool {
    exists|i: int| 0 <= i < games.len() && (#[trigger] games[i]).id == id
}

/// Whether `i` is the place of the first game of `games` with identity `id`.
pub open spec fn is_first_with_id(games: Seq<GameView>, id: nat, i: int) -> bool {
    &&& 0 <= i < games.len()
    &&& games[i].id == id
    &&& forall|j: int| 0 <= j < i ==> (#[trigger] games[j]).id != id
}

/// The place of the first game of `games` with identity `id`, if there is
/// one.
pub open spec fn position_of(games: Seq<GameView>, id: nat) -> Option<int> {
    if has_game(games, id) {
        Some(choose|i: int| is_first_with_id(games, id, i))
    } else {
        None
    }
}

/// Whether each game's identity is its place: the identities are dense and
/// start at 0.
pub open spec fn ids_are_places(games: Seq<GameView>) -> bool {
    forall|i: int| 0 <= i < games.len() ==> (#[trigger] games[i]).id == i
}

/// What a [`SecureGameAPIService`] stands for in contracts.
pub struct ServiceView {
    pub games: Seq<GameView>,
    pub data: DataView,
}

impl ServiceView {
    /// A registry without games and with nothing stored.
    pub open spec fn empty() -> ServiceView {
        ServiceView { games: Seq::empty(), data: Map::empty() }
    }

    /// The identity that the next game gets: the number of games.
    pub open spec fn next_id(self) -> nat {
        self.games.len()
    }

    /// The registry after a game was created.
    pub open spec fn create_game(self) -> ServiceView {
        ServiceView { games: self.games.push(GameView::fresh(self.next_id())), ..self }
    }

    /// The registry after `n` games were created.
    pub open spec fn create_games(self, n: nat) -> ServiceView
        decreases n,
    {
        if n == 0 {
            self
        } else {
            self.create_games((n - 1) as nat).create_game()
        }
    }

    /// The registry with the game at place `i` replaced by `game`.
    pub open spec fn with_game(self, i: int, game: GameView) -> ServiceView {
        ServiceView { games: self.games.update(i, game), ..self }
    }

    /// The registry after `player` was added to the game `id`; unchanged
    /// where no game has that identity.
    pub open spec fn add_player_to_game(self, id: nat, player: PlayerView) -> ServiceView {
        match position_of(self.games, id) {
            Some(i) => self.with_game(i, self.games[i].add_player(player)),
            None => self,
        }
    }

    /// The registry after the game `id` was started; unchanged where no game
    /// has that identity.
    pub open spec fn start_game(self, id: nat) -> ServiceView {
        match position_of(self.games, id) {
            Some(i) => self.with_game(i, self.games[i].start_game()),
            None => self,
        }
    }

    /// The registry after the game `id` was finished; unchanged where no
    /// game has that identity.
    pub open spec fn finish_game(self, id: nat) -> ServiceView {
        match position_of(self.games, id) {
            Some(i) => self.with_game(i, self.games[i].finish_game()),
            None => self,
        }
    }

    /// The registry after `value` was stored for `key`.
    pub open spec fn store_secure_data(self, key: Seq<char>, value: Seq<char>) -> ServiceView {
        ServiceView { data: stored(self.data, key, value), ..self }
    }
}

/// Whether a call that looks for the game `id` in `games` answered as it
/// must: `Ok` where a game has that identity, `NotFound` where none has.
/// Where each game's identity is its place, that is `Ok` for the identities
/// below the number of games and `NotFound` for all others.
pub open spec fn answers_lookup(
    result: Result<(), ApiError>,
    games: Seq<GameView>,
    id: nat,
) -> bool {
    &&& match result {
        Ok(_) => has_game(games, id),
        Err(e) => e == ApiError::NotFound && !has_game(games, id),
    }
    &&& ids_are_places(games) ==> (result is Ok <==> id < games.len())
}

/// Where a game has the identity, there is a first one, and `position_of`
/// names it; no other place is the first.
pub proof fn lemma_position_of(games: Seq<GameView>, id: nat)
    ensures
        has_game(games, id) ==> position_of(games, id) is Some && is_first_with_id(
            games,
            id,
            position_of(games, id).unwrap(),
        ),
        !has_game(games, id) ==> position_of(games, id) is None,
        forall|i: int| is_first_with_id(games, id, i) ==> position_of(games, id) == Some(i),
{
    if has_game(games, id) {
        let w = choose|i: int| 0 <= i < games.len() && (#[trigger] games[i]).id == id;
        lemma_first_exists(games, id, w);
        let p = choose|i: int| is_first_with_id(games, id, i);
        assert forall|i: int| is_first_with_id(games, id, i) implies i == p by {
            if i < p {
                assert(games[i].id != id);
            } else if p < i {
                assert(games[p].id != id);
            }
        }
    } else {
        assert forall|i: int| is_first_with_id(games, id, i) implies false by {
            assert(games[i].id == id);
        }
    }
}

/// Below or at any place whose game has the identity lies the first place
/// whose game has it.
proof fn lemma_first_exists(games: Seq<GameView>, id: nat, w: int)
    requires
        0 <= w < games.len(),
        games[w].id == id,
    ensures
        exists|i: int| is_first_with_id(games, id, i),
    decreases w,
{
    if exists|j: int| 0 <= j < w && (#[trigger] games[j]).id == id {
        let j = choose|j: int| 0 <= j < w && (#[trigger] games[j]).id == id;
        lemma_first_exists(games, id, j);
    } else {
        assert(is_first_with_id(games, id, w));
    }
}

/// The games of a session service and the data stored beside them.
pub struct SecureGameAPIService {
    pub games: Vec<Game>,
    pub secure_data_store: SecureDataStore,
}

impl View for SecureGameAPIService {
    type V = ServiceView;

    open spec fn view(&self) -> ServiceView {
        ServiceView {
            games: self.games@.map_values(|g: Game| g@),
            data: self.secure_data_store@,
        }
    }
}

impl SecureGameAPIService {
    /// Whether each game's identity is its place among the games, and every
    /// index of the store is the digest of some key. A new registry is so
    /// and every method keeps it so.
    pub open spec fn wf(&self) -> bool {
        ids_are_places(self@.games) && self.secure_data_store.wf()
    }

    /// A registry without games, with a store of its own that holds nothing.
    pub fn new() -> (service: SecureGameAPIService)
        ensures
            service@ == ServiceView::empty(),
            service.wf(),
    {
        let service = SecureGameAPIService {
            games: Vec::new(),
            secure_data_store: SecureDataStore::new(),
        };
        assert(service@.games =~= Seq::empty());
        service
    }

    /// The place of the first game with identity `game_id`, or `None` where
    /// no game has it.
    pub fn find_game(&self, game_id: usize) -> (place: Option<usize>)
        ensures
            match place {
                Some(i) => position_of(self@.games, game_id as nat) == Some(i as int),
                None => position_of(self@.games, game_id as nat) is None,
            },
    {
        let mut i: usize = 0;
        while i < self.games.len()
            invariant
                i <= self.games.len(),
                forall|j: int| 0 <= j < i ==> (#[trigger] self@.games[j]).id != game_id,
            decreases self.games.len() - i,
        {
            if self.games[i].id == game_id {
                proof {
                    assert(self@.games[i as int].id == game_id);
                    assert(is_first_with_id(self@.games, game_id as nat, i as int));
                    lemma_position_of(self@.games, game_id as nat);
                }
                return Some(i);
            }
            i += 1;
        }
        proof {
            assert(!has_game(self@.games, game_id as nat));
        }
        None
    }

    /// Creates a game in state `NotStarted` with an empty roster, appends it
    /// to the games, and returns its identity: the number of games that
    /// there were before.
    pub fn create_game(&mut self) -> (id: usize)
        ensures
            id == old(self)@.next_id(),
            final(self)@ == old(self)@.create_game(),
            old(self).wf() ==> final(self).wf(),
    {
        let id = self.games.len();
        let new_game = Game::new(id);
        self.games.push(new_game);
        assert(self@.games =~= old(self)@.games.push(GameView::fresh(id as nat)));
        id
    }

    /// Adds `player` to the roster of the game `game_id`, as its last
    /// member. Where no game has that identity the answer is `NotFound` and
    /// nothing changes.
    pub fn add_player_to_game(&mut self, game_id: usize, player: Player) -> (result: Result<
        (),
        ApiError,
    >)
        ensures
            answers_lookup(result, old(self)@.games, game_id as nat),
            final(self)@ == old(self)@.add_player_to_game(game_id as nat, player@),
            old(self).wf() ==> final(self).wf(),
    {
        proof {
            lemma_position_of(self@.games, game_id as nat);
            if ids_are_places(self@.games) {
                lemma_found_iff_created(self@.games, game_id as nat);
            }
        }
        match self.find_game(game_id) {
            Some(i) => {
                self.games[i].add_player(player);
                assert(self@.games =~= old(self)@.games.update(
                    i as int,
                    old(self)@.games[i as int].add_player(player@),
                ));
                Ok(())
            },
            None => Err(ApiError::NotFound),
        }
    }

    /// Starts the game `game_id`. Where no game has that identity the answer
    /// is `NotFound` and nothing changes.
    pub fn start_game(&mut self, game_id: usize) -> (result: Result<(), ApiError>)
        ensures
            answers_lookup(result, old(self)@.games, game_id as nat),
            final(self)@ == old(self)@.start_game(game_id as nat),
            old(self).wf() ==> final(self).wf(),
    {
        proof {
            lemma_position_of(self@.games, game_id as nat);
            if ids_are_places(self@.games) {
                lemma_found_iff_created(self@.games, game_id as nat);
            }
        }
        match self.find_game(game_id) {
            Some(i) => {
                self.games[i].start_game();
                assert(self@.games =~= old(self)@.games.update(
                    i as int,
                    old(self)@.games[i as int].start_game(),
                ));
                Ok(())
            },
            None => Err(ApiError::NotFound),
        }
    }

    /// Finishes the game `game_id`. Where no game has that identity the
    /// answer is `NotFound` and nothing changes.
    pub fn finish_game(&mut self, game_id: usize) -> (result: Result<(), ApiError>)
        ensures
            answers_lookup(result, old(self)@.games, game_id as nat),
            final(self)@ == old(self)@.finish_game(game_id as nat),
            old(self).wf() ==> final(self).wf(),
    {
        proof {
            lemma_position_of(self@.games, game_id as nat);
            if ids_are_places(self@.games) {
                lemma_found_iff_created(self@.games, game_id as nat);
            }
        }
        match self.find_game(game_id) {
            Some(i) => {
                self.games[i].finish_game();
                assert(self@.games =~= old(self)@.games.update(
                    i as int,
                    old(self)@.games[i as int].finish_game(),
                ));
                Ok(())
            },
            None => Err(ApiError::NotFound),
        }
    }

    /// Stores `value` for `key` in the registry's store. The games are not
    /// touched.
    pub fn store_secure_data(&mut self, key: &str, value: &str)
        requires
            key_fits(key),
        ensures
            final(self)@ == old(self)@.store_secure_data(key@, value@),
            old(self).wf() ==> final(self).wf(),
    {
        self.secure_data_store.store_data(key, value);
    }

    /// The value last stored for `key` in the registry's store, or `None`.
    pub fn retrieve_secure_data(&self, key: &str) -> (found: Option<String>)
        requires
            key_fits(key),
        ensures
            same_value(found, retrieved(self@.data, key@)),
    {
        self.secure_data_store.retrieve_data(key)
    }
}

/// Replacing a game by one with the same identity moves no identity: every
/// lookup finds the place it found before.
pub proof fn lemma_lookup_ignores_changes(games: Seq<GameView>, i: int, game: GameView, id: nat)
    requires
        0 <= i < games.len(),
        game.id == games[i].id,
    ensures
        has_game(games.update(i, game), id) == has_game(games, id),
        position_of(games.update(i, game), id) == position_of(games, id),
        ids_are_places(games) ==> ids_are_places(games.update(i, game)),
{
    let changed = games.update(i, game);
    assert forall|j: int| 0 <= j < games.len() implies (#[trigger] changed[j]).id == games[j].id by {}
    if has_game(games, id) {
        let w = choose|j: int| 0 <= j < games.len() && (#[trigger] games[j]).id == id;
        assert(changed[w].id == id);
    }
    if has_game(changed, id) {
        let w = choose|j: int| 0 <= j < changed.len() && (#[trigger] changed[j]).id == id;
        assert(games[w].id == id);
    }
    lemma_position_of(games, id);
    lemma_position_of(changed, id);
    if has_game(games, id) {
        let p = position_of(games, id).unwrap();
        assert forall|j: int| 0 <= j < p implies (#[trigger] changed[j]).id != id by {
            assert(games[j].id != id);
        }
        assert(is_first_with_id(changed, id, p));
    }
}

/// Where each game's identity is its place, the game `id` is found at the
/// place `id`, and an identity is found exactly if it is below the number of
/// games: that is, exactly if a creation has returned it.
pub proof fn lemma_found_iff_created(games: Seq<GameView>, id: nat)
    requires
        ids_are_places(games),
    ensures
        has_game(games, id) <==> id < games.len(),
        position_of(games, id) == (if id < games.len() {
            Some(id as int)
        } else {
            None
        }),
{
    if id < games.len() {
        assert(games[id as int].id == id);
        assert(is_first_with_id(games, id, id as int));
    } else if has_game(games, id) {
        let w = choose|j: int| 0 <= j < games.len() && (#[trigger] games[j]).id == id;
        assert(games[w].id == w);
    }
    lemma_position_of(games, id);
}

/// Creating `n` games appends `n` new games whose identities count on from
/// the number of games that there were: the creation number `k` (from 0)
/// returns the identity `service.games.len() + k`. What was there stays, and
/// identities that were places remain places.
pub proof fn lemma_create_games(service: ServiceView, n: nat)
    ensures
        service.create_games(n).games.len() == service.games.len() + n,
        service.create_games(n).next_id() == service.games.len() + n,
        service.create_games(n).data == service.data,
        forall|i: int|
            0 <= i < service.games.len() ==> #[trigger] service.create_games(n).games[i]
                == service.games[i],
        forall|k: int|
            0 <= k < n ==> #[trigger] service.create_games(n).games[service.games.len() + k]
                == GameView::fresh((service.games.len() + k) as nat),
        ids_are_places(service.games) ==> ids_are_places(service.create_games(n).games),
    decreases n,
{
    if n > 0 {
        lemma_create_games(service, (n - 1) as nat);
    }
}

/// From a registry without games, `n` creations return the identities
/// `0, 1, .., n - 1` in this order: the creation number `k` returns `k`, so
/// no two of them return the same. Afterwards the game at place `k` is the
/// game with identity `k`, and it is the one that a lookup of `k` finds.
pub proof fn lemma_created_identities(n: nat)
    ensures
        ServiceView::empty().create_games(n).games.len() == n,
        forall|k: nat| k < n ==> #[trigger] ServiceView::empty().create_games(k).next_id() == k,
        forall|k: int|
            0 <= k < n ==> #[trigger] ServiceView::empty().create_games(n).games[k]
                == GameView::fresh(k as nat),
        forall|k: nat|
            k < n ==> #[trigger] position_of(ServiceView::empty().create_games(n).games, k)
                == Some(k as int),
{
    let empty = ServiceView::empty();
    lemma_create_games(empty, n);
    assert forall|k: nat| k < n implies #[trigger] empty.create_games(k).next_id() == k by {
        lemma_create_games(empty, k);
    }
    assert forall|k: int| 0 <= k < n implies #[trigger] empty.create_games(n).games[k]
        == GameView::fresh(k as nat) by {
        assert(empty.create_games(n).games[empty.games.len() + k] == GameView::fresh(
            (empty.games.len() + k) as nat,
        ));
    }
    assert forall|k: nat| k < n implies #[trigger] position_of(empty.create_games(n).games, k)
        == Some(k as int) by {
        lemma_found_iff_created(empty.create_games(n).games, k);
    }
}

/// A lookup of an identity that no game has changes nothing, whichever call
/// makes it.
pub proof fn lemma_not_found_changes_nothing(service: ServiceView, id: nat, player: PlayerView)
    requires
        !has_game(service.games, id),
    ensures
        service.add_player_to_game(id, player) == service,
        service.start_game(id) == service,
        service.finish_game(id) == service,
{
}

/// An identity that no creation has returned finds no game: where each
/// game's identity is its place, every identity from the number of games on
/// is unknown, and a call with it changes nothing.
pub proof fn lemma_uncreated_is_not_found(service: ServiceView, id: nat, player: PlayerView)
    requires
        ids_are_places(service.games),
        id >= service.games.len(),
    ensures
        !has_game(service.games, id),
        service.add_player_to_game(id, player) == service,
        service.start_game(id) == service,
        service.finish_game(id) == service,
{
    lemma_found_iff_created(service.games, id);
}

/// After a player was added to the game `id`, that game has the player as
/// the last of its roster, behind those who were there; every other game,
/// the number of games and the stored data are as before.
pub proof fn lemma_added_player_is_last(service: ServiceView, id: nat, player: PlayerView)
    requires
        has_game(service.games, id),
    ensures
        ({
            let i = position_of(service.games, id).unwrap();
            let after = service.add_player_to_game(id, player);
            &&& 0 <= i < service.games.len()
            &&& after.games.len() == service.games.len()
            &&& after.games[i] == service.games[i].add_player(player)
            &&& after.games[i].id == id
            &&& after.games[i].players.last() == player
            &&& after.games[i].players.drop_last() == service.games[i].players
            &&& position_of(after.games, id) == Some(i)
            &&& forall|j: int|
                0 <= j < service.games.len() && j != i ==> #[trigger] after.games[j]
                    == service.games[j]
            &&& after.data == service.data
        }),
{
    lemma_position_of(service.games, id);
    let i = position_of(service.games, id).unwrap();
    crate::game_logic::lemma_joined_player_is_last(service.games[i], player);
    lemma_lookup_ignores_changes(service.games, i, service.games[i].add_player(player), id);
}

/// The registry after the players of `joined` were added to the game `id`
/// one by one, first to last.
pub open spec fn add_players_to_game(service: ServiceView, id: nat, joined: Seq<PlayerView>)
    -> ServiceView
    decreases joined.len(),
{
    if joined.len() == 0 {
        service
    } else {
        add_players_to_game(service, id, joined.drop_last()).add_player_to_game(
            id,
            joined.last(),
        )
    }
}

/// The roster keeps the order of the calls: after the players of `joined`
/// were added to the game `id` one by one, its roster is the old roster
/// followed by `joined`, and nothing else about the game has changed.
pub proof fn lemma_roster_order_is_call_order(
    service: ServiceView,
    id: nat,
    joined: Seq<PlayerView>,
)
    requires
        has_game(service.games, id),
    ensures
        ({
            let i = position_of(service.games, id).unwrap();
            let after = add_players_to_game(service, id, joined);
            &&& 0 <= i < service.games.len()
            &&& after.games == service.games.update(i, service.games[i].add_players(joined))
            &&& after.games[i].players == service.games[i].players + joined
            &&& position_of(after.games, id) == Some(i)
            &&& after.data == service.data
        }),
    decreases joined.len(),
{
    lemma_position_of(service.games, id);
    let i = position_of(service.games, id).unwrap();
    crate::game_logic::lemma_roster_keeps_call_order(service.games[i], joined);
    if joined.len() == 0 {
        assert(service.games.update(i, service.games[i]) =~= service.games);
    } else {
        let before = joined.drop_last();
        lemma_roster_order_is_call_order(service, id, before);
        crate::game_logic::lemma_roster_keeps_call_order(service.games[i], before);
        let mid = add_players_to_game(service, id, before);
        lemma_lookup_ignores_changes(service.games, i, service.games[i].add_players(before), id);
        let after = mid.add_player_to_game(id, joined.last());
        assert(after.games =~= service.games.update(i, service.games[i].add_players(joined)));
        lemma_lookup_ignores_changes(service.games, i, service.games[i].add_players(joined), id);
    }
}

/// Starting the game `id` and then finishing it leaves it `Finished`, from
/// whatever state it was in; a start after that puts it to `InProgress`
/// again. Identity and roster of the game, the other games and the stored
/// data are as before.
pub proof fn lemma_start_then_finish_game(service: ServiceView, id: nat)
    requires
        has_game(service.games, id),
    ensures
        ({
            let i = position_of(service.games, id).unwrap();
            let started = service.start_game(id);
            let finished = started.finish_game(id);
            let restarted = finished.start_game(id);
            &&& 0 <= i < service.games.len()
            &&& started.games[i].state == GameState::InProgress
            &&& finished.games[i].state == GameState::Finished
            &&& restarted.games[i].state == GameState::InProgress
            &&& finished.games == service.games.update(
                i,
                service.games[i].start_game().finish_game(),
            )
            &&& finished.games[i].id == id
            &&& finished.games[i].players == service.games[i].players
            &&& finished.data == service.data
        }),
{
    lemma_position_of(service.games, id);
    let i = position_of(service.games, id).unwrap();
    let g1 = service.games[i].start_game();
    lemma_lookup_ignores_changes(service.games, i, g1, id);
    let started = service.start_game(id);
    assert(started.games == service.games.update(i, g1));
    let g2 = g1.finish_game();
    lemma_lookup_ignores_changes(started.games, i, g2, id);
    let finished = started.finish_game(id);
    assert(finished.games =~= service.games.update(i, g2));
    lemma_lookup_ignores_changes(finished.games, i, g2.start_game(), id);
}

} // verus!
