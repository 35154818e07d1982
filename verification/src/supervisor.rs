//! Startup recovery: re-spawn one poller per persisted wallet with a
//! resolvable owner, and pick the conversations a broadcast reaches.

use vstd::prelude::*;
use crate::digits::{i64_of_seq, parse_i64, parses_as_i64};
use crate::models::{User, Wallet, WalletModel};
use crate::poller::{PollerModel, PollerState, WalletPoller};
use crate::repository::{joined_wallets, DataRepository};

verus! {

/// The pollers that a list of owner-joined wallets gives rise to: one per
/// wallet whose ids are present and whose owner's conversation id parses;
/// the rest are skipped silently.
pub open spec fn recovery_spawns(ws: Seq<WalletModel>) -> Seq<PollerModel>
    decreases ws.len(),
{
    if ws.len() == 0 {
        Seq::empty()
    } else {
        recovery_spawns(ws.drop_last()) + spawn_of(ws.last())
    }
}

/// The poller one joined wallet yields: none when an id is missing or the
/// owner's conversation id does not parse.
pub open spec fn spawn_of(w: WalletModel) -> Seq<PollerModel> {
    match (w.id, w.user) {
        (Some(wid), Some(u)) => match u.id {
            Some(uid) => if parses_as_i64(u.chat_id) {
                seq![
                    PollerModel {
                        state: PollerState::Active,
                        wallet_id: wid,
                        address: w.address,
                        user_id: uid,
                        chat_id: i64_of_seq(u.chat_id),
                    },
                ]
            } else {
                Seq::empty()
            },
            None => Seq::empty(),
        },
        _ => Seq::empty(),
    }
}

/// Load every wallet that still has an owner and build one fresh `Active`
/// poller for each; wallets whose owner cannot be resolved are skipped.
pub fn recover_pollers<R: DataRepository>(repo: &R) -> (pollers: Vec<WalletPoller>)
    requires
        repo.inv(),
    ensures
        pollers@.map_values(|pp: WalletPoller| pp@) == recovery_spawns(
            joined_wallets(repo.model().wallets, repo.model().users),
        ),
{
    let ghost joined = joined_wallets(repo.model().wallets, repo.model().users);
    let ws = repo.get_all_wallets_with_user();
    let n = ws.len();
    let mut pollers: Vec<WalletPoller> = Vec::new();
    let mut i: usize = 0;
    while i < n
        invariant
            0 <= i <= n,
            n == ws@.len(),
            ws@.map_values(|ww: Wallet| ww@) == joined,
            pollers@.map_values(|pp: WalletPoller| pp@) =~= recovery_spawns(
                joined.take(i as int),
            ),
        decreases n - i,
    {
        let w = &ws[i];
        proof {
            assert(joined[i as int] == ws@.map_values(|ww: Wallet| ww@)[i as int]);
        }
        match (w.id, &w.user) {
            (Some(wid), Some(u)) => {
                match u.id {
                    Some(uid) => {
                        match parse_i64(u.chat_id.as_str()) {
                            Some(chat) => {
                                pollers.push(
                                    WalletPoller::new(wid, w.address.clone(), uid, chat),
                                );
                            },
                            None => {},
                        }
                    },
                    None => {},
                }
            },
            _ => {},
        }
        proof {
            assert(joined.take(i + 1).drop_last() =~= joined.take(i as int));
            assert(pollers@.map_values(|pp: WalletPoller| pp@) =~= recovery_spawns(
                joined.take(i + 1),
            ));
        }
        i += 1;
    }
    proof {
        assert(joined.take(n as int) =~= joined);
    }
    pollers
}

/// The conversation ids a broadcast reaches: every stored user whose id
/// parses, in store order.
pub open spec fn parsed_chat_ids(users: Seq<User>) -> Seq<int>
    decreases users.len(),
{
    if users.len() == 0 {
        Seq::empty()
    } else {
        parsed_chat_ids(users.drop_last()) + if parses_as_i64(users.last().chat_id@) {
            seq![i64_of_seq(users.last().chat_id@)]
        } else {
            Seq::empty()
        }
    }
}

/// The conversations a broadcast to every user reaches; users whose stored
/// conversation id does not parse are skipped.
pub fn notice_recipients(users: &Vec<User>) -> (r: Vec<i64>)
    ensures
        r@.map_values(|x: i64| x as int) == parsed_chat_ids(users@),
{
    let n = users.len();
    let mut r: Vec<i64> = Vec::new();
    let mut i: usize = 0;
    while i < n
        invariant
            0 <= i <= n,
            n == users@.len(),
            r@.map_values(|x: i64| x as int) =~= parsed_chat_ids(users@.take(i as int)),
        decreases n - i,
    {
        match parse_i64(users[i].chat_id.as_str()) {
            Some(chat) => {
                r.push(chat);
            },
            None => {},
        }
        proof {
            assert(users@.take(i + 1).drop_last() =~= users@.take(i as int));
            assert(r@.map_values(|x: i64| x as int) =~= parsed_chat_ids(users@.take(i + 1)));
        }
        i += 1;
    }
    proof {
        assert(users@.take(n as int) =~= users@);
    }
    r
}

} // verus!
