//! Process configuration, passed in explicitly at construction time.

use vstd::prelude::*;

verus! {

/// What the process needs from its environment: the notifier's token, the
/// ledger API key, and the store's location.
pub struct AppConfig {
    pub bot_token: String,
    pub ether_api: String,
    pub db_path: String,
}

impl AppConfig {
    pub fn new(bot_token: String, ether_api: String, db_path: String) -> (r: Self)
        ensures
            r.bot_token@ == bot_token@,
            r.ether_api@ == ether_api@,
            r.db_path@ == db_path@,
    {
        AppConfig { bot_token, ether_api, db_path }
    }
}

} // verus!
