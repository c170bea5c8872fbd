use quaver_stats::cache::Cache;
use std::time::Duration;
use quaver_stats::card::{
    country_rank_line, global_rank_line, identity_line, resolve_card,
    stats_outcome, text_line_origin, user_id_outcome, CardError, CardResponse, CARD_HEIGHT,
    CARD_WIDTH,
};

const MINUTE: Duration = Duration::from_secs(60);

#[test]
fn test_missing_user_returns_404_and_not_cached() {
    let mut cache = Cache::new(MINUTE);
    let response = resolve_card("ghost", Err(CardError::UserNotFound), &mut cache);
    assert_eq!(response.status_code(), 404);
    assert!(cache.get("ghost").is_none(), "failed lookup must not be cached");
}

#[test]
fn test_upstream_failure_returns_502_and_not_cached() {
    let mut cache = Cache::new(MINUTE);
    let response = resolve_card("young", Err(CardError::UpstreamError), &mut cache);
    assert!(matches!(response, CardResponse::BadGateway));
    assert_eq!(response.status_code(), 502);
    assert_eq!(cache.store_len(), 0);
}

#[test]
fn test_rendered_card_is_sent_and_cached() {
    let mut cache = Cache::new(MINUTE);
    let response = resolve_card("young", Ok(vec![0x89, b'P']), &mut cache);
    assert_eq!(response.status_code(), 200);
    assert!(matches!(response, CardResponse::Png(ref b) if b == &vec![0x89, b'P']));
    assert_eq!(cache.get("young"), Some(vec![0x89, b'P']));
}

#[test]
fn test_user_id_outcome() {
    assert_eq!(user_id_outcome::<()>(Ok(48618)), Ok(48618));
    assert_eq!(user_id_outcome::<()>(Ok(0)), Err(CardError::UserNotFound));
    assert_eq!(user_id_outcome::<&str>(Err("timeout")), Err(CardError::UpstreamError));
}

#[test]
fn test_stats_outcome() {
    assert_eq!(stats_outcome::<u8, ()>(Ok(3)), Ok(3));
    assert_eq!(stats_outcome::<u8, &str>(Err("bad json")), Err(CardError::UpstreamError));
}

#[test]
fn test_card_text_lines_with_names_and_ranks() {
    assert_eq!(identity_line("young", "TW"), "young (TW)");
    assert_eq!(global_rank_line(1234), "Global Rank: #1234");
    assert_eq!(country_rank_line(56), "Country Rank: #56");
    assert_eq!(global_rank_line(0), "Global Rank: #0");
    assert_eq!(country_rank_line(u64::MAX), "Country Rank: #18446744073709551615");
}

#[test]
fn test_text_line_positions() {
    assert_eq!(text_line_origin(0), (10, 80));
    assert_eq!(text_line_origin(4), (10, 160));
    assert_eq!((CARD_WIDTH, CARD_HEIGHT), (256, 192));
}
