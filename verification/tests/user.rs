use quaver_stats::user::{
    first_user_id, found_id_or_zero, search_url, select_mode_stats, user_detail_url, user_url,
    Mode, ParseIdError, RawUser, UserSearchResponse,
};

fn search_answer(ids: &[u64]) -> UserSearchResponse {
    UserSearchResponse { users: ids.iter().map(|&id| RawUser { id }).collect() }
}

#[test]
fn test_parse_id_picks_first_user() {
    assert_eq!(first_user_id(&search_answer(&[48618, 99999])), Ok(48618));
}

#[test]
fn test_parse_id_empty_returns_not_found() {
    assert_eq!(first_user_id(&search_answer(&[])), Err(ParseIdError::NotFound));
}

#[test]
fn test_parse_id_empty_users_signals_not_found() {
    let result = first_user_id(&search_answer(&[]));
    assert!(result.map_or(true, |id| id != 0));
}

#[test]
fn test_found_id_or_zero() {
    assert_eq!(found_id_or_zero(Ok(48618)), 48618);
    assert_eq!(found_id_or_zero(Err(ParseIdError::NotFound)), 0);
    assert_eq!(found_id_or_zero(Err(ParseIdError::Json)), 0);
}

#[test]
fn test_mode_as_str() {
    assert_eq!(Mode::Keys4.as_str(), "4k");
    assert_eq!(Mode::Keys7.as_str(), "7k");
}

#[test]
fn test_select_mode_stats_picks_requested_mode() {
    // (global rank, country rank) of the 4K and 7K statistics of one player.
    let keys4 = (10u64, 3u64);
    let keys7 = (1u64, 2u64);
    assert_eq!(select_mode_stats(Mode::Keys7, keys4, keys7), (1, 2));
    assert_eq!(select_mode_stats(Mode::Keys4, keys4, keys7), (10, 3));
}

#[test]
fn test_api_addresses() {
    assert_eq!(search_url("tyrcs"), "https://api.quavergame.com/v2/user/search/tyrcs");
    assert_eq!(user_url(48618), "https://api.quavergame.com/v2/user/48618");
    assert_eq!(user_url(0), "https://api.quavergame.com/v2/user/0");
    assert_eq!(user_detail_url("48618"), "https://api.quavergame.com/v2/user/48618");
}

