//! Building blocks of the Quaver player-stats card service: the TTL response
//! cache, the rules that turn Quaver API answers into card outcomes, the
//! avatar cache key and image preparation, and the text shown on a card.

pub mod avatar;
pub mod cache;
pub mod card;
pub mod health;
pub mod text;
pub mod user;
