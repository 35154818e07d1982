//! The per-wallet poll cycle: liveness check, then for each fetched transfer
//! a dedup check against the store, a persist when the key is new, and one
//! notification per persisted row.

use vstd::prelude::*;
use crate::digits::{is_digit_seq, is_digit_string, has_nonzero_char, rendered_amount};
use crate::models::{
    erc_decimals, transfer_message, EtherScanErc, EtherScanErcDetails, EtherScanTrx,
    EtherScanTrxDetail, Transaction, TransactionModel,
};
use crate::repository::{
    find_tx, find_wallet, lemma_find_tx_push, tx_matches, tx_wf, DataRepository, RepoModel,
};

verus! {

/// The two states of a wallet's poller. `Stopped` is terminal: a wallet
/// removed and added again gets a fresh poller.
pub enum PollerState {
    Active,
    Stopped,
}

/// The recurring poll task for exactly one wallet.
pub struct WalletPoller {
    pub state: PollerState,
    pub wallet_id: i64,
    pub address: String,
    pub user_id: i64,
    pub chat_id: i64,
}

/// Mathematical form of a [`WalletPoller`].
pub ghost struct PollerModel {
    pub state: PollerState,
    pub wallet_id: int,
    pub address: Seq<char>,
    pub user_id: int,
    pub chat_id: int,
}

impl View for WalletPoller {
    type V = PollerModel;

    open spec fn view(&self) -> PollerModel {
        PollerModel {
            state: self.state,
            wallet_id: self.wallet_id as int,
            address: self.address@,
            user_id: self.user_id as int,
            chat_id: self.chat_id as int,
        }
    }
}

impl WalletPoller {
    /// A poller starts `Active` the moment it is spawned.
    pub fn new(wallet_id: i64, address: String, user_id: i64, chat_id: i64) -> (r: Self)
        ensures
            r.state is Active,
            r.wallet_id == wallet_id,
            r.address@ == address@,
            r.user_id == user_id,
            r.chat_id == chat_id,
    {
        WalletPoller { state: PollerState::Active, wallet_id, address, user_id, chat_id }
    }

    /// Whether the poller still runs cycles.
    pub fn is_active(&self) -> (r: bool)
        ensures
            r == (self.state is Active),
    {
        match self.state {
            PollerState::Active => true,
            PollerState::Stopped => false,
        }
    }
}

/// A message owed to a conversation.
pub struct Notification {
    pub chat_id: i64,
    pub text: String,
}

/// Mathematical form of a [`Notification`].
pub ghost struct NotificationModel {
    pub chat_id: int,
    pub text: Seq<char>,
}

impl View for Notification {
    type V = NotificationModel;

    open spec fn view(&self) -> NotificationModel {
        NotificationModel { chat_id: self.chat_id as int, text: self.text@ }
    }
}

/// A native transfer worth persisting: its value is a digit string that is
/// not zero.
pub open spec fn native_transfer_ok(d: EtherScanTrxDetail) -> bool {
    &&& is_digit_seq(d.value@)
    &&& d.value@.len() >= 1
    &&& exists|i: int| 0 <= i < d.value@.len() && d.value@[i] != '0'
}

/// The candidate row a native transfer builds: the `ETH` token at eighteen
/// decimal places, successful exactly when the ledger reports no error.
pub open spec fn native_candidate(d: EtherScanTrxDetail, wallet_id: int) -> TransactionModel {
    TransactionModel {
        id: None,
        from: d.from@,
        to: d.to@,
        amount: d.value@,
        tx_hash: d.hash@,
        token: "ETH"@,
        decimal: 18,
        status: d.isError@ == "0"@,
        wallet_id,
    }
}

/// A token transfer worth persisting: its value is a digit string.
pub open spec fn erc_transfer_ok(d: EtherScanErcDetails) -> bool {
    is_digit_seq(d.value@) && d.value@.len() >= 1
}

/// The candidate row a token transfer builds: the reported token name and
/// decimal count, always marked successful.
pub open spec fn erc_candidate(d: EtherScanErcDetails, wallet_id: int) -> TransactionModel {
    TransactionModel {
        id: None,
        from: d.from@,
        to: d.to@,
        amount: d.value@,
        tx_hash: d.hash@,
        token: d.tokenName@,
        decimal: erc_decimals(d.tokenDecimal@),
        status: true,
        wallet_id,
    }
}

/// What one cycle's native fetch contributes: nothing on a failed fetch, an
/// empty answer, or an unusable value.
pub open spec fn cycle_native_candidate(
    native: Option<EtherScanTrx>,
    wallet_id: int,
) -> Option<TransactionModel> {
    match native {
        Some(v) => if v.result@.len() > 0 && native_transfer_ok(v.result@[0]) {
            Some(native_candidate(v.result@[0], wallet_id))
        } else {
            None
        },
        None => None,
    }
}

/// What one cycle's token fetch contributes.
pub open spec fn cycle_erc_candidate(
    erc: Option<EtherScanErc>,
    wallet_id: int,
) -> Option<TransactionModel> {
    match erc {
        Some(v) => if v.result@.len() > 0 && erc_transfer_ok(v.result@[0]) {
            Some(erc_candidate(v.result@[0], wallet_id))
        } else {
            None
        },
        None => None,
    }
}

/// The notification text of a native transfer.
pub open spec fn native_note_text(d: EtherScanTrxDetail) -> Seq<char> {
    transfer_message(rendered_amount(d.value@, 18), "ETH"@, d.from@, d.to@, d.hash@)
}

/// The notification text of a token transfer.
pub open spec fn erc_note_text(d: EtherScanErcDetails) -> Seq<char> {
    transfer_message(
        rendered_amount(d.value@, erc_decimals(d.tokenDecimal@)),
        d.tokenName@,
        d.from@,
        d.to@,
        d.hash@,
    )
}

/// One candidate's effect on the store: a row is inserted exactly when its
/// `(tx_hash, wallet_id, token)` key is absent.
pub open spec fn step_transactions(m: RepoModel, cand: Option<TransactionModel>) -> RepoModel {
    match cand {
        None => m,
        Some(c) => if find_tx(m.transactions, c.tx_hash, Some(c.wallet_id), Some(c.token)) is Some {
            m
        } else {
            RepoModel {
                transactions: m.transactions.push(TransactionModel { id: Some(m.next_tx_id), ..c }),
                next_tx_id: m.next_tx_id + 1,
                ..m
            }
        },
    }
}

/// The notifications one candidate produces: one message exactly when its
/// key is absent and the row is inserted.
pub open spec fn step_notes(
    m: RepoModel,
    cand: Option<TransactionModel>,
    chat_id: int,
    text: Seq<char>,
) -> Seq<NotificationModel> {
    match cand {
        None => Seq::empty(),
        Some(c) => if find_tx(m.transactions, c.tx_hash, Some(c.wallet_id), Some(c.token)) is Some {
            Seq::empty()
        } else {
            seq![NotificationModel { chat_id, text }]
        },
    }
}

/// The store after one full cycle: the native candidate first, then the
/// token candidate against the store the native step left.
pub open spec fn cycle_repo(
    m: RepoModel,
    wallet_id: int,
    native: Option<EtherScanTrx>,
    erc: Option<EtherScanErc>,
) -> RepoModel {
    step_transactions(
        step_transactions(m, cycle_native_candidate(native, wallet_id)),
        cycle_erc_candidate(erc, wallet_id),
    )
}

/// The notifications one full cycle sends, in order.
pub open spec fn cycle_notes(
    m: RepoModel,
    wallet_id: int,
    chat_id: int,
    native: Option<EtherScanTrx>,
    erc: Option<EtherScanErc>,
) -> Seq<NotificationModel> {
    let nc = cycle_native_candidate(native, wallet_id);
    let ntext = match native {
        Some(v) => if v.result@.len() > 0 {
            native_note_text(v.result@[0])
        } else {
            Seq::empty()
        },
        None => Seq::empty(),
    };
    let etext = match erc {
        Some(v) => if v.result@.len() > 0 {
            erc_note_text(v.result@[0])
        } else {
            Seq::empty()
        },
        None => Seq::empty(),
    };
    step_notes(m, nc, chat_id, ntext) + step_notes(
        step_transactions(m, nc),
        cycle_erc_candidate(erc, wallet_id),
        chat_id,
        etext,
    )
}

/// After a candidate's step its key is present in the store.
pub proof fn lemma_step_inserts_key(m: RepoModel, c: TransactionModel)
    ensures
        find_tx(
            step_transactions(m, Some(c)).transactions,
            c.tx_hash,
            Some(c.wallet_id),
            Some(c.token),
        ) is Some,
{
    if find_tx(m.transactions, c.tx_hash, Some(c.wallet_id), Some(c.token)) is Some {
    } else {
        let stored = TransactionModel { id: Some(m.next_tx_id), ..c };
        lemma_find_tx_push(m.transactions, stored, c.tx_hash, Some(c.wallet_id), Some(c.token));
        assert(tx_matches(stored, c.tx_hash, Some(c.wallet_id), Some(c.token)));
    }
}

/// Dedup idempotence: once a candidate's key is stored, processing the same
/// candidate again changes nothing and notifies nobody — so two identical
/// candidates yield exactly one row and at most one notification.
pub proof fn lemma_dedup_idempotent(
    m: RepoModel,
    c: TransactionModel,
    chat_id: int,
    text: Seq<char>,
)
    ensures
        step_transactions(step_transactions(m, Some(c)), Some(c)) == step_transactions(
            m,
            Some(c),
        ),
        step_notes(step_transactions(m, Some(c)), Some(c), chat_id, text)
            == Seq::<NotificationModel>::empty(),
{
    lemma_step_inserts_key(m, c);
}

/// Run one poll cycle for one wallet.
///
/// The fetch results arrive as arguments: `None` stands for a failed fetch,
/// whose step is skipped for this cycle. When the wallet is gone from the
/// store the poller stops, the store is untouched and nothing is sent;
/// otherwise the store and the returned notifications are exactly what the
/// two dedup/persist steps prescribe.
pub fn run_cycle<R: DataRepository>(
    poller: &mut WalletPoller,
    repo: &mut R,
    native: &Option<EtherScanTrx>,
    erc: &Option<EtherScanErc>,
) -> (notes: Vec<Notification>)
    requires
        old(poller).state is Active,
        old(repo).inv(),
        old(repo).model().next_tx_id + 2 <= i64::MAX,
    ensures
        final(repo).inv(),
        final(poller).wallet_id == old(poller).wallet_id,
        final(poller).address@ == old(poller).address@,
        final(poller).user_id == old(poller).user_id,
        final(poller).chat_id == old(poller).chat_id,
        ({
            let m0 = old(repo).model();
            let wid = old(poller).wallet_id as int;
            if find_wallet(m0.wallets, Some(old(poller).user_id as int), old(poller).address@)
                is None {
                &&& final(poller).state is Stopped
                &&& final(repo).model() == m0
                &&& notes@.len() == 0
            } else {
                &&& final(poller).state is Active
                &&& final(repo).model() == cycle_repo(m0, wid, *native, *erc)
                &&& notes@.map_values(|nn: Notification| nn@) == cycle_notes(
                    m0,
                    wid,
                    old(poller).chat_id as int,
                    *native,
                    *erc,
                )
            }
        }),
{
    let ghost m0 = repo.model();
    let ghost wid = poller.wallet_id as int;
    let ghost chat = poller.chat_id as int;
    let mut notes: Vec<Notification> = Vec::new();
    let live = repo.get_wallet(Some(poller.user_id), poller.address.clone());
    if live.is_none() {
        poller.state = PollerState::Stopped;
        return notes;
    }
    let ghost nc = cycle_native_candidate(*native, wid);
    match native {
        Some(v) => {
            if v.result.len() > 0 {
                let d = &v.result[0];
                if is_digit_string(d.value.as_str()) && has_nonzero_char(d.value.as_str()) {
                    proof {
                        assert(native_transfer_ok(*d));
                        assert(nc == Some(native_candidate(*d, wid)));
                    }
                    let zero = String::from_str("0");
                    let ok = d.isError == zero;
                    let existing = repo.get_transaction(
                        d.hash.clone(),
                        Some(poller.wallet_id),
                        Some(String::from_str("ETH")),
                    );
                    if existing.is_none() {
                        let trx = Transaction::new(
                            d.from.clone(),
                            d.to.clone(),
                            d.value.clone(),
                            d.hash.clone(),
                            String::from_str("ETH"),
                            poller.wallet_id,
                            18,
                            None,
                            Some(ok),
                        );
                        proof {
                            assert(tx_wf(trx@));
                        }
                        repo.add_transaction(trx);
                        let text = d.format_as_str();
                        notes.push(Notification { chat_id: poller.chat_id, text });
                    }
                }
            }
        },
        None => {},
    }
    proof {
        assert(repo.model() == step_transactions(m0, nc));
        assert(notes@.map_values(|nn: Notification| nn@) =~= step_notes(
            m0,
            nc,
            chat,
            match *native {
                Some(v) => if v.result@.len() > 0 {
                    native_note_text(v.result@[0])
                } else {
                    Seq::empty()
                },
                None => Seq::empty(),
            },
        ));
    }
    let ghost m1 = repo.model();
    let ghost ec = cycle_erc_candidate(*erc, wid);
    let ghost notes1 = notes@.map_values(|nn: Notification| nn@);
    match erc {
        Some(v) => {
            if v.result.len() > 0 {
                let d = &v.result[0];
                if is_digit_string(d.value.as_str()) {
                    proof {
                        assert(erc_transfer_ok(*d));
                        assert(ec == Some(erc_candidate(*d, wid)));
                    }
                    let existing = repo.get_transaction(
                        d.hash.clone(),
                        Some(poller.wallet_id),
                        Some(d.tokenName.clone()),
                    );
                    if existing.is_none() {
                        let dec = crate::models::parse_token_decimals(d.tokenDecimal.as_str());
                        proof {
                            let s = d.tokenDecimal@;
                            if crate::digits::parses_as_i64(s) && s[0] == '-' {
                                crate::digits::lemma_seq_val_nonneg(s.skip(1));
                            }
                            assert(dec as int == erc_decimals(s));
                            assert(erc_decimals(s) <= i64::MAX as int);
                        }
                        let trx = Transaction::new(
                            d.from.clone(),
                            d.to.clone(),
                            d.value.clone(),
                            d.hash.clone(),
                            d.tokenName.clone(),
                            poller.wallet_id,
                            dec as i64,
                            None,
                            Some(true),
                        );
                        proof {
                            assert(tx_wf(trx@));
                        }
                        repo.add_transaction(trx);
                        let text = d.format_as_str();
                        notes.push(Notification { chat_id: poller.chat_id, text });
                    }
                }
            }
        },
        None => {},
    }
    proof {
        assert(repo.model() == step_transactions(m1, ec));
        assert(repo.model() == cycle_repo(m0, wid, *native, *erc));
        assert(notes@.map_values(|nn: Notification| nn@) =~= cycle_notes(
            m0,
            wid,
            chat,
            *native,
            *erc,
        ));
    }
    notes
}

} // verus!
