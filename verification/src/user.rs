//! Quaver players: the key mode a card shows, the API addresses a player is
//! looked up at, and what a user-search answer yields.

use crate::text::{decimal, push_decimal};
use vstd::prelude::*;

verus! {

/// Selects which key mode's statistics to display on the card.
#[derive(Debug, Clone, Copy, PartialEq, Eq, Structural)]
pub enum Mode {
    Keys4,
    Keys7,
}

/// The short name of a mode.
pub open spec fn mode_name(mode: Mode) -> Seq<char> {
    match mode {
        Mode::Keys4 => seq!['4', 'k'],
        Mode::Keys7 => seq!['7', 'k'],
    }
}

impl Mode {
    /// The mode's short name: `"4k"` or `"7k"`.
    pub fn as_str(self) -> (s: &'static str)
        ensures
            s@ == mode_name(self),
    {
        proof {
            reveal_strlit("4k");
            reveal_strlit("7k");
        }
        match self {
            Mode::Keys4 => "4k",
            Mode::Keys7 => "7k",
        }
    }
}

/// Picks, of a player's per-mode statistics, those of `mode`.
pub fn select_mode_stats<S>(mode: Mode, keys4: S, keys7: S) -> (stats: S)
    ensures
        stats == match mode {
            Mode::Keys4 => keys4,
            Mode::Keys7 => keys7,
        },
{
    match mode {
        Mode::Keys4 => keys4,
        Mode::Keys7 => keys7,
    }
}

/// The address of the user endpoints of the Quaver API.
pub open spec fn user_api_base() -> Seq<char> {
    "https://api.quavergame.com/v2/user/"@
}

/// The address of the Quaver user search for `name`.
pub fn search_url(name: &str) -> (url: String)
    ensures
        url@ == user_api_base() + "search/"@ + name@,
{
    let mut url = "https://api.quavergame.com/v2/user/".to_owned();
    url.append("search/");
    url.append(name);
    url
}

/// The address of the Quaver user record with the identifier written `id`.
pub fn user_detail_url(id: &str) -> (url: String)
    ensures
        url@ == user_api_base() + id@,
{
    let mut url = "https://api.quavergame.com/v2/user/".to_owned();
    url.append(id);
    url
}

/// The address of the Quaver user record of the player numbered `id`.
pub fn user_url(id: u64) -> (url: String)
    ensures
        url@ == user_api_base() + decimal(id as nat),
{
    let mut url = "https://api.quavergame.com/v2/user/".to_owned();
    push_decimal(&mut url, id);
    url
}

/// One player of a user-search answer.
pub struct RawUser {
    pub id: u64,
}

/// The answer of the Quaver user search: the matching players, best first.
pub struct UserSearchResponse {
    pub users: Vec<RawUser>,
}

/// Why a user-search answer yields no player identifier.
#[derive(Debug, Clone, Copy, PartialEq, Eq, Structural)]
pub enum ParseIdError {
    /// The answer lists no player.
    NotFound,
    /// The answer is not the JSON document the search returns.
    Json,
}

/// The identifier of the first player a search answer lists, or `NotFound`
/// when it lists none.
pub fn first_user_id(response: &UserSearchResponse) -> (r: Result<u64, ParseIdError>)
    ensures
        response.users@.len() == 0 <==> r == Err::<u64, ParseIdError>(ParseIdError::NotFound),
        response.users@.len() > 0 ==> r == Ok::<u64, ParseIdError>(response.users@[0].id),
{
    if response.users.len() == 0 {
        Err(ParseIdError::NotFound)
    } else {
        Ok(response.users[0].id)
    }
}

/// The identifier a user lookup reports: the parsed identifier, or `0` when
/// no player matched or the answer could not be parsed.
pub fn found_id_or_zero(parsed: Result<u64, ParseIdError>) -> (id: u64)
    ensures
        id == match parsed {
            Ok(id) => id,
            Err(_) => 0,
        },
{
    match parsed {
        Ok(id) => id,
        Err(_) => 0,
    }
}

} // verus!
