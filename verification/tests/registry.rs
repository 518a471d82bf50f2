use secure_game::api::{ApiError, SecureGameAPIService};
use secure_game::game_logic::{Game, GameState, Player};

fn player(id: usize, username: &str, password: &str) -> Player {
    Player { id, username: username.to_string(), password: password.to_string() }
}

fn roster(service: &SecureGameAPIService, place: usize) -> Vec<String> {
    let mut names = Vec::new();
    for p in service.games[place].players.iter() {
        names.push(p.username.clone());
    }
    names
}

#[test]
fn new_registry_is_empty() {
    let service = SecureGameAPIService::new();
    assert_eq!(service.games.len(), 0);
    assert_eq!(service.retrieve_secure_data("anything"), None);
    assert_eq!(service.find_game(0), None);
}

#[test]
fn create_game_returns_the_count_of_games() {
    let mut service = SecureGameAPIService::new();
    let mut ids = Vec::new();
    for _ in 0..5 {
        ids.push(service.create_game());
    }
    assert_eq!(ids, vec![0, 1, 2, 3, 4]);
    assert_eq!(service.games.len(), 5);
    for place in 0..5 {
        assert_eq!(service.games[place].id, place);
        assert_eq!(service.games[place].game_state, GameState::NotStarted);
        assert_eq!(service.games[place].players.len(), 0);
        assert_eq!(service.find_game(place), Some(place));
    }
}

#[test]
fn created_game_is_found_by_its_identity() {
    let mut service = SecureGameAPIService::new();
    let first = service.create_game();
    let second = service.create_game();
    assert_eq!(service.add_player_to_game(second, player(9, "zoe", "hz")), Ok(()));
    assert_eq!(roster(&service, first), Vec::<String>::new());
    assert_eq!(roster(&service, second), vec!["zoe".to_string()]);
}

#[test]
fn added_player_is_last_of_the_roster() {
    let mut service = SecureGameAPIService::new();
    service.create_game();
    service.create_game();
    assert_eq!(service.add_player_to_game(1, player(1, "alice", "h1")), Ok(()));
    assert_eq!(service.games[1].players.last().unwrap().username, "alice");
    assert_eq!(service.add_player_to_game(1, player(2, "bob", "h2")), Ok(()));
    assert_eq!(service.games[1].players.last().unwrap().username, "bob");
    assert_eq!(service.games[1].players.last().unwrap().id, 2);
    assert_eq!(service.games[1].players.last().unwrap().password, "h2");
    assert_eq!(service.add_player_to_game(1, player(3, "carol", "h3")), Ok(()));
    assert_eq!(
        roster(&service, 1),
        vec!["alice".to_string(), "bob".to_string(), "carol".to_string()]
    );
    assert_eq!(service.games[0].players.len(), 0);
    assert_eq!(service.games.len(), 2);
}

#[test]
fn start_game_changes_only_that_game() {
    let mut service = SecureGameAPIService::new();
    service.create_game();
    service.create_game();
    service.create_game();
    assert_eq!(service.start_game(1), Ok(()));
    assert_eq!(service.games[0].game_state, GameState::NotStarted);
    assert_eq!(service.games[1].game_state, GameState::InProgress);
    assert_eq!(service.games[2].game_state, GameState::NotStarted);
}

#[test]
fn start_then_finish_leaves_the_game_finished() {
    let mut service = SecureGameAPIService::new();
    let id = service.create_game();
    assert_eq!(service.start_game(id), Ok(()));
    assert_eq!(service.games[id].game_state, GameState::InProgress);
    assert_eq!(service.finish_game(id), Ok(()));
    assert_eq!(service.games[id].game_state, GameState::Finished);
}

#[test]
fn start_after_finish_is_accepted_and_restarts_the_game() {
    let mut service = SecureGameAPIService::new();
    let id = service.create_game();
    assert_eq!(service.start_game(id), Ok(()));
    assert_eq!(service.finish_game(id), Ok(()));
    assert_eq!(service.start_game(id), Ok(()));
    assert_eq!(service.games[id].game_state, GameState::InProgress);
}

#[test]
fn finish_is_accepted_before_any_start() {
    let mut service = SecureGameAPIService::new();
    let id = service.create_game();
    assert_eq!(service.finish_game(id), Ok(()));
    assert_eq!(service.games[id].game_state, GameState::Finished);
}

#[test]
fn players_may_join_a_started_or_finished_game() {
    let mut service = SecureGameAPIService::new();
    let id = service.create_game();
    assert_eq!(service.start_game(id), Ok(()));
    assert_eq!(service.add_player_to_game(id, player(1, "alice", "h1")), Ok(()));
    assert_eq!(service.finish_game(id), Ok(()));
    assert_eq!(service.add_player_to_game(id, player(2, "bob", "h2")), Ok(()));
    assert_eq!(roster(&service, id), vec!["alice".to_string(), "bob".to_string()]);
    assert_eq!(service.games[id].game_state, GameState::Finished);
}

#[test]
fn unknown_identity_is_not_found() {
    let mut service = SecureGameAPIService::new();
    assert_eq!(service.start_game(0), Err(ApiError::NotFound));
    service.create_game();
    service.create_game();
    assert_eq!(service.add_player_to_game(2, player(1, "alice", "h1")), Err(ApiError::NotFound));
    assert_eq!(service.start_game(2), Err(ApiError::NotFound));
    assert_eq!(service.finish_game(2), Err(ApiError::NotFound));
    assert_eq!(service.finish_game(usize::MAX), Err(ApiError::NotFound));
    assert_eq!(service.find_game(2), None);
}

#[test]
fn not_found_changes_nothing_and_blocks_nothing() {
    let mut service = SecureGameAPIService::new();
    let id = service.create_game();
    assert_eq!(service.add_player_to_game(id, player(1, "alice", "h1")), Ok(()));
    service.store_secure_data("k", "v");
    assert_eq!(service.add_player_to_game(17, player(2, "bob", "h2")), Err(ApiError::NotFound));
    assert_eq!(service.start_game(17), Err(ApiError::NotFound));
    assert_eq!(service.finish_game(17), Err(ApiError::NotFound));
    assert_eq!(service.games.len(), 1);
    assert_eq!(roster(&service, id), vec!["alice".to_string()]);
    assert_eq!(service.games[id].game_state, GameState::NotStarted);
    assert_eq!(service.retrieve_secure_data("k"), Some("v".to_string()));
    assert_eq!(service.start_game(id), Ok(()));
    assert_eq!(service.games[id].game_state, GameState::InProgress);
    assert_eq!(service.create_game(), 1);
}

#[test]
fn lookup_takes_the_first_game_with_the_identity() {
    let mut service = SecureGameAPIService::new();
    service.games.push(Game::new(5));
    service.games.push(Game::new(3));
    service.games.push(Game::new(5));
    assert_eq!(service.find_game(5), Some(0));
    assert_eq!(service.find_game(3), Some(1));
    assert_eq!(service.find_game(0), None);
    assert_eq!(service.finish_game(5), Ok(()));
    assert_eq!(service.games[0].game_state, GameState::Finished);
    assert_eq!(service.games[2].game_state, GameState::NotStarted);
    assert_eq!(service.start_game(1), Err(ApiError::NotFound));
    assert_eq!(service.create_game(), 3);
    assert_eq!(service.find_game(3), Some(1));
}

#[test]
fn store_and_retrieve_secure_data() {
    let mut service = SecureGameAPIService::new();
    assert_eq!(service.retrieve_secure_data("alice_token"), None);
    service.store_secure_data("alice_token", "first");
    service.store_secure_data("alice_token", "second");
    assert_eq!(service.retrieve_secure_data("alice_token"), Some("second".to_string()));
    assert_eq!(service.retrieve_secure_data("bob_token"), None);
    assert_eq!(service.games.len(), 0);
}

#[test]
fn stored_data_goes_to_the_registrys_own_store() {
    let mut service = SecureGameAPIService::new();
    let other = SecureGameAPIService::new();
    service.store_secure_data("abc", "value");
    assert_eq!(
        service.secure_data_store.retrieve_hashed(
            "ba7816bf8f01cfea414140de5dae2223b00361a396177a9cb410ff61f20015ad"
        ),
        Some("value".to_string())
    );
    assert_eq!(service.secure_data_store.retrieve_data("abc"), Some("value".to_string()));
    assert_eq!(other.retrieve_secure_data("abc"), None);
}

#[test]
fn games_and_stored_data_do_not_touch_each_other() {
    let mut service = SecureGameAPIService::new();
    service.store_secure_data("0", "zero");
    let id = service.create_game();
    assert_eq!(id, 0);
    assert_eq!(service.finish_game(id), Ok(()));
    assert_eq!(service.retrieve_secure_data("0"), Some("zero".to_string()));
    service.store_secure_data("1", "one");
    assert_eq!(service.games.len(), 1);
    assert_eq!(service.games[0].game_state, GameState::Finished);
}

#[test]
fn session_with_one_player_and_a_token() {
    let mut service = SecureGameAPIService::new();
    assert_eq!(service.create_game(), 0);
    assert_eq!(service.add_player_to_game(0, player(1, "alice", "h1")), Ok(()));
    assert_eq!(service.start_game(0), Ok(()));
    assert_eq!(service.games[0].game_state, GameState::InProgress);
    assert_eq!(service.games[0].players.len(), 1);
    assert_eq!(service.games[0].players[0].id, 1);
    assert_eq!(service.games[0].players[0].username, "alice");
    assert_eq!(service.games[0].players[0].password, "h1");
    service.store_secure_data("alice_token", "secretvalue");
    assert_eq!(service.retrieve_secure_data("alice_token"), Some("secretvalue".to_string()));
    assert_eq!(service.retrieve_secure_data("bob_token"), None);
}
