//! The player stats card: its layout, the text lines that hold integers and
//! names, and how a card request is answered from lookups and the cache.

use crate::cache::{is_clock_reading, written, Cache, MAX_DURATION_NANOS};
use crate::text::{decimal, push_decimal};
use vstd::prelude::*;

verus! {

/// Width of a rendered card, in pixels.
pub const CARD_WIDTH: u32 = 256;

/// Height of a rendered card, in pixels.
pub const CARD_HEIGHT: u32 = 192;

/// Side of the square avatar drawn on a card, in pixels.
pub const AVATAR_SIDE: u32 = 64;

/// Distance of the avatar from the card's left and top edges, in pixels.
pub const AVATAR_OFFSET: i64 = 10;

/// Left edge of the text lines, in pixels.
pub const TEXT_LEFT: i32 = 10;

/// Top edge of the first text line, in pixels.
pub const TEXT_TOP: i32 = 80;

/// Vertical distance between text lines, in pixels.
pub const LINE_HEIGHT: i32 = 20;

/// Where the text line numbered `index` (from zero) starts on the card.
pub fn text_line_origin(index: u32) -> (origin: (i32, i32))
    requires
        TEXT_TOP + LINE_HEIGHT * index <= i32::MAX,
    ensures
        origin.0 == TEXT_LEFT,
        origin.1 == TEXT_TOP + LINE_HEIGHT * index,
{
    let i: i32 = index as i32;
    (TEXT_LEFT, TEXT_TOP + LINE_HEIGHT * i)
}

/// The first card line: `"<name> (<country>)"`.
pub fn identity_line(name: &str, country: &str) -> (line: String)
    ensures
        line@ == name@ + " ("@ + country@ + ")"@,
{
    let mut line = name.to_owned();
    line.append(" (");
    line.append(country);
    line.append(")");
    line
}

/// The card line of the global rank: `"Global Rank: #<rank>"`.
pub fn global_rank_line(rank: u64) -> (line: String)
    ensures
        line@ == "Global Rank: #"@ + decimal(rank as nat),
{
    let mut line = "Global Rank: #".to_owned();
    push_decimal(&mut line, rank);
    line
}

/// The card line of the country rank: `"Country Rank: #<rank>"`.
pub fn country_rank_line(rank: u64) -> (line: String)
    ensures
        line@ == "Country Rank: #"@ + decimal(rank as nat),
{
    let mut line = "Country Rank: #".to_owned();
    push_decimal(&mut line, rank);
    line
}

/// Why no card could be produced.
#[derive(Debug, Clone, Copy, PartialEq, Eq, Structural)]
pub enum CardError {
    /// No Quaver player has the requested name.
    UserNotFound,
    /// The Quaver API could not be reached or gave an unusable answer.
    UpstreamError,
}

/// The answer to a card request.
pub enum CardResponse {
    /// `200 OK` with the PNG image of the card (`Content-Type: image/png`).
    Png(Vec<u8>),
    /// `404 Not Found`: there is no such player.
    NotFound,
    /// `502 Bad Gateway`: the Quaver API failed.
    BadGateway,
}

impl CardResponse {
    /// The HTTP status code of the answer.
    pub fn status_code(&self) -> (code: u16)
        ensures
            code == match self {
                CardResponse::Png(_) => 200u16,
                CardResponse::NotFound => 404u16,
                CardResponse::BadGateway => 502u16,
            },
    {
        match self {
            CardResponse::Png(_) => 200,
            CardResponse::NotFound => 404,
            CardResponse::BadGateway => 502,
        }
    }
}

/// What a player lookup means for the card: identifier `0` means no player
/// matched, a failed request is an upstream error.
pub fn user_id_outcome<E>(lookup: Result<u64, E>) -> (r: Result<u64, CardError>)
    ensures
        r == match lookup {
            Ok(id) => if id == 0 {
                Err(CardError::UserNotFound)
            } else {
                Ok(id)
            },
            Err(_) => Err(CardError::UpstreamError),
        },
{
    match lookup {
        Ok(id) => if id == 0 {
            Err(CardError::UserNotFound)
        } else {
            Ok(id)
        },
        Err(_) => Err(CardError::UpstreamError),
    }
}

/// What a statistics request means for the card: a failed request is an
/// upstream error.
pub fn stats_outcome<S, E>(fetched: Result<S, E>) -> (r: Result<S, CardError>)
    ensures
        r == match fetched {
            Ok(stats) => Ok(stats),
            Err(_) => Err::<S, CardError>(CardError::UpstreamError),
        },
{
    match fetched {
        Ok(stats) => Ok(stats),
        Err(_) => Err(CardError::UpstreamError),
    }
}

/// Answers a card request from the outcome of generating the card: a card
/// is stored in the cache under the player's name and sent as PNG; a
/// failure is answered with its status and nothing is cached.
pub fn resolve_card(username: &str, result: Result<Vec<u8>, CardError>, cache: &mut Cache) -> (r:
    CardResponse)
    ensures
        final(cache).ttl_nanos() == old(cache).ttl_nanos(),
        match result {
            Ok(bytes) => (r matches CardResponse::Png(sent) && sent@ == bytes@)
                && old(cache).ttl_nanos() <= MAX_DURATION_NANOS && exists|now: u128|
                #![trigger written(old(cache)@, username@, bytes@, now, old(cache).ttl_nanos())]
                old(cache).last_reading() <= now <= MAX_DURATION_NANOS && is_clock_reading(
                    now,
                    old(cache).last_reading(),
                ) && final(cache).last_reading() == now && final(cache)@ == written(
                    old(cache)@,
                    username@,
                    bytes@,
                    now,
                    old(cache).ttl_nanos(),
                ),
            Err(CardError::UserNotFound) => r is NotFound && final(cache)@ == old(cache)@
                && final(cache).last_reading() == old(cache).last_reading(),
            Err(CardError::UpstreamError) => r is BadGateway && final(cache)@ == old(cache)@
                && final(cache).last_reading() == old(cache).last_reading(),
        },
{
    match result {
        Ok(bytes) => {
            let copy = bytes.clone();
            assert(copy@ =~= bytes@);
            cache.set(username.to_owned(), copy);
            CardResponse::Png(bytes)
        },
        Err(CardError::UserNotFound) => CardResponse::NotFound,
        Err(CardError::UpstreamError) => CardResponse::BadGateway,
    }
}

} // verus!
