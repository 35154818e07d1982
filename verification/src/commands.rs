//! The engine operations behind the chat commands: ensuring a user exists,
//! registering and removing a tracked wallet, and listing wallets or
//! transactions.

use vstd::prelude::*;
use crate::address::{valid_address, valid_eth_address};
use crate::digits::i64_repr;
use crate::models::{Transaction, Wallet};
use crate::poller::WalletPoller;
use crate::repository::{
    find_user_by_chat, find_wallet, find_wallet_folded, lemma_find_wallet_push,
    lemma_no_folded_no_exact, txs_of_wallet, user_wallet_models, wallets_without, txs_without,
    DataRepository, RepoModel, UserRow, WalletRow,
};

verus! {

/// The `start` command: make sure the sender exists as a user.
pub struct StartCommand {}

impl StartCommand {
    pub fn new() -> (r: Self) {
        StartCommand {  }
    }

    /// Insert the sender when unknown; returns whether the user already
    /// existed.
    pub fn handle<R: DataRepository>(&self, repo: &mut R, chat_id: i64) -> (existed: bool)
        requires
            old(repo).inv(),
            old(repo).model().next_user_id < i64::MAX,
        ensures
            final(repo).inv(),
            ({
                let m0 = old(repo).model();
                match find_user_by_chat(m0.users, i64_repr(chat_id as int)) {
                    Some(_) => existed && final(repo).model() == m0,
                    None => !existed && final(repo).model() == (RepoModel {
                        users: m0.users.push(
                            UserRow { id: m0.next_user_id, chat_id: i64_repr(chat_id as int) },
                        ),
                        next_user_id: m0.next_user_id + 1,
                        ..m0
                    }),
                }
            }),
    {
        let user = repo.get_user(chat_id);
        if user.is_none() {
            repo.add_user(chat_id);
            false
        } else {
            true
        }
    }
}

/// How a registration attempt ends.
pub enum RegisterOutcome {
    /// The address fails the checksum validation; nothing changes.
    InvalidAddress,
    /// The sender never issued `start`; nothing changes.
    UserNotFound,
    /// The sender already tracks this address; nothing changes.
    AlreadyTracked,
    /// The wallet is stored and a poller is handed back to spawn.
    Registered,
}

/// Register a wallet address for the sender: validate the checksum, resolve
/// the sender, reject a duplicate (compared on the normalized address,
/// without regard to letter case), then store the wallet and hand back the
/// poller for it.
pub fn register_wallet<R: DataRepository>(repo: &mut R, chat_id: i64, address: &str) -> (r: (
    RegisterOutcome,
    Option<WalletPoller>,
))
    requires
        old(repo).inv(),
        old(repo).model().next_wallet_id < i64::MAX,
    ensures
        final(repo).inv(),
        ({
            let m0 = old(repo).model();
            if !valid_address(address@) {
                r.0 is InvalidAddress && r.1 is None && final(repo).model() == m0
            } else {
                match find_user_by_chat(m0.users, i64_repr(chat_id as int)) {
                    None => r.0 is UserNotFound && r.1 is None && final(repo).model() == m0,
                    Some(u) => {
                        if find_wallet_folded(m0.wallets, u.id, address@) is Some {
                            r.0 is AlreadyTracked && r.1 is None && final(repo).model() == m0
                        } else {
                            &&& r.0 is Registered
                            &&& final(repo).model() == (RepoModel {
                                wallets: m0.wallets.push(
                                    WalletRow {
                                        id: m0.next_wallet_id,
                                        user_id: u.id,
                                        address: address@,
                                    },
                                ),
                                next_wallet_id: m0.next_wallet_id + 1,
                                ..m0
                            })
                            &&& (r.1 matches Some(p) && p.state is Active && p.wallet_id as int
                                == m0.next_wallet_id && p.address@ == address@ && p.user_id as int
                                == u.id && p.chat_id == chat_id)
                        }
                    },
                }
            }
        }),
{
    if !valid_eth_address(address) {
        return (RegisterOutcome::InvalidAddress, None);
    }
    let user = match repo.get_user(chat_id) {
        Some(u) => u,
        None => {
            return (RegisterOutcome::UserNotFound, None);
        },
    };
    let uid: i64 = match user.id {
        Some(x) => x,
        None => {
            proof {
                assert(false);
            }
            0
        },
    };
    let existing = repo.get_wallet_folded(uid, address.to_owned());
    if existing.is_some() {
        return (RegisterOutcome::AlreadyTracked, None);
    }
    let ghost m0 = repo.model();
    repo.add_wallet(uid, address.to_owned());
    proof {
        lemma_no_folded_no_exact(m0.wallets, uid as int, address@);
        lemma_find_wallet_push(
            m0.wallets,
            WalletRow { id: m0.next_wallet_id, user_id: uid as int, address: address@ },
            Some(uid as int),
            address@,
        );
    }
    let fresh = repo.get_wallet(Some(uid), address.to_owned());
    match fresh {
        Some(w) => {
            let wid: i64 = match w.id {
                Some(x) => x,
                None => {
                    proof {
                        assert(false);
                    }
                    0
                },
            };
            let p = WalletPoller::new(wid, address.to_owned(), uid, chat_id);
            (RegisterOutcome::Registered, Some(p))
        },
        None => {
            proof {
                assert(false);
            }
            (RegisterOutcome::Registered, None)
        },
    }
}

/// How a removal attempt ends.
pub enum RemoveOutcome {
    /// The address fails the checksum validation; nothing changes.
    InvalidAddress,
    /// The sender never issued `start`; nothing changes.
    UserNotFound,
    /// The sender does not track this address; nothing changes.
    NotTracked,
    /// The sender's wallet row at this address is gone, its transactions
    /// with it; the wallet's poller stops at its next liveness check.
    /// Another user's wallet at the same address is untouched.
    Removed,
}

/// Remove a tracked wallet for the sender. The store deletes the sender's
/// wallet rows at the address, cascading to their transactions; wallets of
/// other users are untouched, whatever their address.
pub fn remove_tracked_wallet<R: DataRepository>(repo: &mut R, chat_id: i64, address: &str) -> (r:
    RemoveOutcome)
    requires
        old(repo).inv(),
    ensures
        final(repo).inv(),
        ({
            let m0 = old(repo).model();
            if !valid_address(address@) {
                r is InvalidAddress && final(repo).model() == m0
            } else {
                match find_user_by_chat(m0.users, i64_repr(chat_id as int)) {
                    None => r is UserNotFound && final(repo).model() == m0,
                    Some(u) => {
                        if find_wallet(m0.wallets, Some(u.id), address@) is None {
                            r is NotTracked && final(repo).model() == m0
                        } else {
                            &&& r is Removed
                            &&& final(repo).model() == (RepoModel {
                                wallets: wallets_without(m0.wallets, u.id, address@),
                                transactions: txs_without(
                                    m0.transactions,
                                    m0.wallets,
                                    u.id,
                                    address@,
                                ),
                                ..m0
                            })
                        }
                    },
                }
            }
        }),
{
    if !valid_eth_address(address) {
        return RemoveOutcome::InvalidAddress;
    }
    let user = match repo.get_user(chat_id) {
        Some(u) => u,
        None => {
            return RemoveOutcome::UserNotFound;
        },
    };
    let uid: i64 = match user.id {
        Some(x) => x,
        None => {
            proof {
                assert(false);
            }
            0
        },
    };
    let existing = repo.get_wallet(Some(uid), address.to_owned());
    if existing.is_none() {
        return RemoveOutcome::NotTracked;
    }
    repo.remove_wallet(uid, address.to_owned());
    RemoveOutcome::Removed
}

/// List the sender's tracked wallets, or nothing when the sender is
/// unknown.
pub fn list_wallets<R: DataRepository>(repo: &R, chat_id: i64) -> (r: Option<Vec<Wallet>>)
    requires
        repo.inv(),
    ensures
        ({
            let m = repo.model();
            match find_user_by_chat(m.users, i64_repr(chat_id as int)) {
                None => r is None,
                Some(u) => r matches Some(ws) && ws@.map_values(|ww: Wallet| ww@)
                    == user_wallet_models(m.wallets, u.id),
            }
        }),
{
    let user = match repo.get_user(chat_id) {
        Some(u) => u,
        None => {
            return None;
        },
    };
    let uid: i64 = match user.id {
        Some(x) => x,
        None => {
            proof {
                assert(false);
            }
            0
        },
    };
    Some(repo.get_user_wallets(uid))
}

/// How a transaction listing ends.
pub enum TxListOutcome {
    /// The address fails the checksum validation.
    InvalidAddress,
    /// The sender never issued `start`.
    UserNotFound,
    /// The sender does not track this address.
    NotTracked,
    /// The stored transactions of the tracked wallet, in store order.
    Transactions(Vec<Transaction>),
}

/// List the stored transactions of one of the sender's tracked wallets.
pub fn list_transactions<R: DataRepository>(repo: &R, chat_id: i64, address: &str) -> (r:
    TxListOutcome)
    requires
        repo.inv(),
    ensures
        ({
            let m = repo.model();
            if !valid_address(address@) {
                r is InvalidAddress
            } else {
                match find_user_by_chat(m.users, i64_repr(chat_id as int)) {
                    None => r is UserNotFound,
                    Some(u) => {
                        match find_wallet(m.wallets, Some(u.id), address@) {
                            None => r is NotTracked,
                            Some(w) => r matches TxListOutcome::Transactions(ts)
                                && ts@.map_values(|tt: Transaction| tt@) == txs_of_wallet(
                                m.transactions,
                                w.id,
                            ),
                        }
                    },
                }
            }
        }),
{
    if !valid_eth_address(address) {
        return TxListOutcome::InvalidAddress;
    }
    let user = match repo.get_user(chat_id) {
        Some(u) => u,
        None => {
            return TxListOutcome::UserNotFound;
        },
    };
    let uid: i64 = match user.id {
        Some(x) => x,
        None => {
            proof {
                assert(false);
            }
            0
        },
    };
    let wallet = match repo.get_wallet(Some(uid), address.to_owned()) {
        Some(w) => w,
        None => {
            return TxListOutcome::NotTracked;
        },
    };
    let wid: i64 = match wallet.id {
        Some(x) => x,
        None => {
            proof {
                assert(false);
            }
            0
        },
    };
    TxListOutcome::Transactions(repo.get_all_transactions(wid))
}

} // verus!
