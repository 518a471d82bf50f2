//! Players, games and the lifecycle of a game.
//!
//! The lifecycle policy is deliberately permissive and is written down once,
//! in [`GameState::after_start`] and [`GameState::after_finish`]: starting
//! leads to `InProgress` from every state (a finished game may be started
//! again), finishing leads to `Finished` from every state, and players may
//! join in every state.

use vstd::prelude::*;

verus! {

/// Where a game stands in its lifecycle.
#[derive(Clone, Copy, Debug, PartialEq, Eq, Structural)]
pub enum GameState {
    NotStarted,
    InProgress,
    Finished,
}

impl GameState {
    /// The state that follows a start: `InProgress`, whatever came before.
    pub open spec fn after_start(self) -> GameState {
        match self {
            GameState::NotStarted => GameState::InProgress,
            GameState::InProgress => GameState::InProgress,
            GameState::Finished => GameState::InProgress,
        }
    }

    /// The state that follows a finish: `Finished`, whatever came before.
    pub open spec fn after_finish(self) -> GameState {
        match self {
            GameState::NotStarted => GameState::Finished,
            GameState::InProgress => GameState::Finished,
            GameState::Finished => GameState::Finished,
        }
    }
}

/// One participant. The password is an opaque string that the caller has
/// already hashed; nothing here derives or verifies it.
pub struct Player {
    pub id: usize,
    pub username: String,
    pub password: String,
}

/// What a [`Player`] stands for in contracts.
pub struct PlayerView {
    pub id: nat,
    pub username: Seq<char>,
    pub password: Seq<char>,
}

impl View for Player {
    type V = PlayerView;

    open spec fn view(&self) -> PlayerView {
        PlayerView { id: self.id as nat, username: self.username@, password: self.password@ }
    }
}

/// One session: its identity, its roster in join order, and its state.
pub struct Game {
    pub id: usize,
    pub players: Vec<Player>,
    pub game_state: GameState,
}

/// What a [`Game`] stands for in contracts.
pub struct GameView {
    pub id: nat,
    pub players: Seq<PlayerView>,
    pub state: GameState,
}

impl GameView {
    /// A game that nobody has joined and that has not started.
    pub open spec fn fresh(id: nat) -> GameView {
        GameView { id, players: Seq::empty(), state: GameState::NotStarted }
    }

    /// The game with `player` appended to the roster.
    pub open spec fn add_player(self, player: PlayerView) -> GameView {
        GameView { players: self.players.push(player), ..self }
    }

    /// The game after a start.
    pub open spec fn start_game(self) -> GameView {
        GameView { state: self.state.after_start(), ..self }
    }

    /// The game after a finish.
    pub open spec fn finish_game(self) -> GameView {
        GameView { state: self.state.after_finish(), ..self }
    }

    /// The game after the players of `joined` were added one by one, first
    /// to last.
    pub open spec fn add_players(self, joined: Seq<PlayerView>) -> GameView
        decreases joined.len(),
    {
        if joined.len() == 0 {
            self
        } else {
            self.add_players(joined.drop_last()).add_player(joined.last())
        }
    }
}

impl View for Game {
    type V = GameView;

    open spec fn view(&self) -> GameView {
        GameView {
            id: self.id as nat,
            players: self.players@.map_values(|p: Player| p@),
            state: self.game_state,
        }
    }
}

impl Game {
    /// A game with the given identity, an empty roster and state
    /// `NotStarted`.
    pub fn new(id: usize) -> (game: Game)
        ensures
            game@ == GameView::fresh(id as nat),
    {
        let game = Game { id, players: Vec::new(), game_state: GameState::NotStarted };
        assert(game@.players =~= Seq::empty());
        game
    }

    /// Appends `player` to the roster. Allowed in every state.
    pub fn add_player(&mut self, player: Player)
        ensures
            final(self)@ == old(self)@.add_player(player@),
    {
        self.players.push(player);
        assert(self@.players =~= old(self)@.players.push(player@));
    }

    /// Moves the game to `InProgress`, from whatever state it is in.
    pub fn start_game(&mut self)
        ensures
            final(self)@ == old(self)@.start_game(),
    {
        self.game_state = GameState::InProgress;
    }

    /// Moves the game to `Finished`, from whatever state it is in.
    pub fn finish_game(&mut self)
        ensures
            final(self)@ == old(self)@.finish_game(),
    {
        self.game_state = GameState::Finished;
    }
}

/// A player who joins becomes the last of the roster, and those who were
/// there keep their places.
pub proof fn lemma_joined_player_is_last(game: GameView, player: PlayerView)
    ensures
        game.add_player(player).players.last() == player,
        game.add_player(player).players.len() == game.players.len() + 1,
        game.add_player(player).players.drop_last() == game.players,
        game.add_player(player).id == game.id,
        game.add_player(player).state == game.state,
{
    assert(game.add_player(player).players.drop_last() =~= game.players);
}

/// The roster keeps the order of the calls: after the players of `joined`
/// were added one by one, the roster is the old roster followed by `joined`.
pub proof fn lemma_roster_keeps_call_order(game: GameView, joined: Seq<PlayerView>)
    ensures
        game.add_players(joined).players == game.players + joined,
        game.add_players(joined).id == game.id,
        game.add_players(joined).state == game.state,
    decreases joined.len(),
{
    if joined.len() == 0 {
        assert(game.players + joined =~= game.players);
    } else {
        lemma_roster_keeps_call_order(game, joined.drop_last());
        assert(game.players + joined =~= (game.players + joined.drop_last()).push(
            joined.last(),
        ));
    }
}

/// A start followed by a finish leaves the game `Finished`, from every
/// state; a start after that puts it back to `InProgress`. Neither touches
/// the identity or the roster.
pub proof fn lemma_start_then_finish(game: GameView)
    ensures
        game.start_game().state == GameState::InProgress,
        game.start_game().finish_game().state == GameState::Finished,
        game.start_game().finish_game().start_game().state == GameState::InProgress,
        game.start_game().finish_game().id == game.id,
        game.start_game().finish_game().players == game.players,
{
}

} // verus!
