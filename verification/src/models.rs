//! The engine's records: users, wallets, transactions, and the two shapes a
//! ledger query answer takes, together with the notification text a transfer
//! renders to.

use vstd::prelude::*;
use crate::digits::{
    is_digit_seq, rendered_amount, parses_as_i64, i64_of_seq, parse_i64,
};

verus! {

/// Mathematical form of a [`Transaction`].
pub ghost struct TransactionModel {
    pub id: Option<int>,
    pub from: Seq<char>,
    pub to: Seq<char>,
    pub amount: Seq<char>,
    pub tx_hash: Seq<char>,
    pub token: Seq<char>,
    pub decimal: int,
    pub status: bool,
    pub wallet_id: int,
}

/// Mathematical form of a [`User`].
pub ghost struct UserModel {
    pub id: Option<int>,
    pub chat_id: Seq<char>,
    pub wallets: Seq<WalletModel>,
}

/// Mathematical form of the owner embedded in a wallet: the user's own
/// fields, without the wallets hanging off them.
pub ghost struct OwnerModel {
    pub id: Option<int>,
    pub chat_id: Seq<char>,
}

/// Mathematical form of a [`Wallet`].
pub ghost struct WalletModel {
    pub id: Option<int>,
    pub address: Seq<char>,
    pub user_id: int,
    pub transactions: Seq<TransactionModel>,
    pub user: Option<OwnerModel>,
}

/// A transfer, keyed for persistence by `(tx_hash, wallet_id, token)`.
pub struct Transaction {
    pub id: Option<i64>,
    pub from: String,
    pub to: String,
    pub amount: String,
    pub tx_hash: String,
    pub token: String,
    pub decimal: i64,
    pub status: bool,
    pub wallet_id: i64,
}

/// A person the engine notifies, identified by a conversation id.
pub struct User {
    pub id: Option<i64>,
    pub chat_id: String,
    pub wallets: Vec<Wallet>,
}

/// A tracked address owned by exactly one user.
pub struct Wallet {
    pub id: Option<i64>,
    pub address: String,
    pub user_id: i64,
    pub transactions: Vec<Transaction>,
    pub user: Option<User>,
}

pub open spec fn opt_int_of(v: Option<i64>) -> Option<int> {
    match v {
        Some(x) => Some(x as int),
        None => None,
    }
}

impl View for Transaction {
    type V = TransactionModel;

    open spec fn view(&self) -> TransactionModel {
        TransactionModel {
            id: opt_int_of(self.id),
            from: self.from@,
            to: self.to@,
            amount: self.amount@,
            tx_hash: self.tx_hash@,
            token: self.token@,
            decimal: self.decimal as int,
            status: self.status,
            wallet_id: self.wallet_id as int,
        }
    }
}

impl View for User {
    type V = UserModel;

    open spec fn view(&self) -> UserModel {
        UserModel {
            id: opt_int_of(self.id),
            chat_id: self.chat_id@,
            wallets: self.wallets@.map_values(|w: Wallet| w@),
        }
    }
}

impl View for Wallet {
    type V = WalletModel;

    open spec fn view(&self) -> WalletModel {
        WalletModel {
            id: opt_int_of(self.id),
            address: self.address@,
            user_id: self.user_id as int,
            transactions: self.transactions@.map_values(|t: Transaction| t@),
            user: match self.user {
                Some(ref u) => Some(OwnerModel { id: opt_int_of(u.id), chat_id: u.chat_id@ }),
                None => None,
            },
        }
    }
}

impl User {
    pub fn new(chat_id: String, id: Option<i64>) -> (r: Self)
        ensures
            r@ == (UserModel {
                id: opt_int_of(id),
                chat_id: chat_id@,
                wallets: Seq::<WalletModel>::empty(),
            }),
    {
        let r = User { id, chat_id, wallets: Vec::new() };
        proof {
            assert(r@.wallets =~= Seq::<WalletModel>::empty());
        }
        r
    }
}

impl Wallet {
    pub fn new(address: String, user_id: i64, id: Option<i64>) -> (r: Self)
        ensures
            r@ == (WalletModel {
                id: opt_int_of(id),
                address: address@,
                user_id: user_id as int,
                transactions: Seq::<TransactionModel>::empty(),
                user: None,
            }),
    {
        let r = Wallet { address, user_id, id, transactions: Vec::new(), user: None };
        proof {
            assert(r@.transactions =~= Seq::<TransactionModel>::empty());
        }
        r
    }
}

impl Transaction {
    /// Build a transfer record; an absent `status` defaults to successful.
    pub fn new(
        from: String,
        to: String,
        amount: String,
        tx_hash: String,
        token: String,
        wallet_id: i64,
        decimal: i64,
        id: Option<i64>,
        status: Option<bool>,
    ) -> (r: Self)
        ensures
            r@ == (TransactionModel {
                id: opt_int_of(id),
                from: from@,
                to: to@,
                amount: amount@,
                tx_hash: tx_hash@,
                token: token@,
                decimal: decimal as int,
                status: match status {
                    Some(s) => s,
                    None => true,
                },
                wallet_id: wallet_id as int,
            }),
    {
        let mut trx = Transaction {
            from,
            to,
            amount,
            tx_hash,
            wallet_id,
            token,
            decimal,
            id,
            status: true,
        };
        if let Some(s) = status {
            trx.status = s;
        }
        trx
    }
}

/// The notification text for a transfer: the rendered amount and token, the
/// endpoints, and an explorer link to the transaction hash.
pub open spec fn transfer_message(
    amount: Seq<char>,
    token: Seq<char>,
    from: Seq<char>,
    to: Seq<char>,
    hash: Seq<char>,
) -> Seq<char> {
    "Transfer "@ + amount + " "@ + token + ", From "@ + from + " To "@ + to
        + ".\nLink: https://etherscan.io/tx/"@ + hash
}

/// Append the parts of a transfer message to fresh text.
fn build_message(amount: &str, token: &str, from: &str, to: &str, hash: &str) -> (r: String)
    ensures
        r@ == transfer_message(amount@, token@, from@, to@, hash@),
{
    let mut r = String::from_str("Transfer ");
    r.append(amount);
    r.append(" ");
    r.append(token);
    r.append(", From ");
    r.append(from);
    r.append(" To ");
    r.append(to);
    r.append(".\nLink: https://etherscan.io/tx/");
    r.append(hash);
    proof {
        assert(r@ =~= transfer_message(amount@, token@, from@, to@, hash@));
    }
    r
}

/// The number of decimal places a transfer is rendered with: the stored
/// value when it is set, else a token-specific fallback.
pub open spec fn effective_decimals(token: Seq<char>, decimal: int) -> int {
    if decimal != 0 {
        decimal
    } else if token == "ETH"@ {
        18
    } else if token == "Tether USD"@ {
        6
    } else {
        0
    }
}

impl Transaction {
    /// Render the stored transfer as its notification text.
    pub fn to_string(&self) -> (r: String)
        requires
            is_digit_seq(self.amount@),
            self.amount@.len() >= 1,
            0 <= self.decimal,
            effective_decimals(self.token@, self.decimal as int) <= usize::MAX as int,
        ensures
            r@ == transfer_message(
                rendered_amount(
                    self.amount@,
                    effective_decimals(self.token@, self.decimal as int),
                ),
                self.token@,
                self.from@,
                self.to@,
                self.tx_hash@,
            ),
    {
        let eth = String::from_str("ETH");
        let tether = String::from_str("Tether USD");
        let base: i64 = if self.token == eth {
            18
        } else if self.token == tether {
            6
        } else {
            0
        };
        let eff: i64 = if self.decimal != 0 {
            self.decimal
        } else {
            base
        };
        let rendered = crate::digits::render_amount(self.amount.as_str(), eff as usize);
        build_message(
            rendered.as_str(),
            self.token.as_str(),
            self.from.as_str(),
            self.to.as_str(),
            self.tx_hash.as_str(),
        )
    }
}

/// The answer shape of a most-recent-native-transfer query.
pub struct EtherScanTrx {
    pub status: String,
    pub message: String,
    pub result: Vec<EtherScanTrxDetail>,
}

/// One native-currency transfer as the ledger reports it.
#[allow(non_snake_case)]
pub struct EtherScanTrxDetail {
    pub blockNumber: String,
    pub timeStamp: String,
    pub hash: String,
    pub nonce: String,
    pub blockHash: String,
    pub transactionIndex: String,
    pub from: String,
    pub to: String,
    pub value: String,
    pub gas: String,
    pub gasPrice: String,
    pub isError: String,
    pub txreceipt_status: String,
    pub input: String,
    pub contractAddress: String,
    pub cumulativeGasUsed: String,
    pub gasUsed: String,
    pub confirmations: String,
}

/// The answer shape of a most-recent-token-transfer query.
pub struct EtherScanErc {
    pub status: String,
    pub message: String,
    pub result: Vec<EtherScanErcDetails>,
}

/// One token transfer as the ledger reports it.
#[allow(non_snake_case)]
pub struct EtherScanErcDetails {
    pub blockNumber: String,
    pub timeStamp: String,
    pub hash: String,
    pub nonce: String,
    pub blockHash: String,
    pub from: String,
    pub contractAddress: String,
    pub to: String,
    pub value: String,
    pub tokenName: String,
    pub tokenSymbol: String,
    pub tokenDecimal: String,
    pub transactionIndex: String,
    pub gas: String,
    pub gasPrice: String,
    pub gasUsed: String,
    pub cumulativeGasUsed: String,
    pub input: String,
    pub confirmations: String,
}

impl EtherScanTrxDetail {
    /// Notification text of a native transfer: eighteen decimal places and
    /// the `ETH` token name.
    pub fn format_as_str(&self) -> (r: String)
        requires
            is_digit_seq(self.value@),
            self.value@.len() >= 1,
        ensures
            r@ == transfer_message(
                rendered_amount(self.value@, 18),
                "ETH"@,
                self.from@,
                self.to@,
                self.hash@,
            ),
    {
        let rendered = crate::digits::render_amount(self.value.as_str(), 18);
        build_message(
            rendered.as_str(),
            "ETH",
            self.from.as_str(),
            self.to.as_str(),
            self.hash.as_str(),
        )
    }
}

/// The decimal places a token transfer reports: its `tokenDecimal` field
/// when that is a usable count, zero otherwise.
pub open spec fn erc_decimals(s: Seq<char>) -> int {
    if parses_as_i64(s) && 0 <= i64_of_seq(s) <= usize::MAX as int {
        i64_of_seq(s)
    } else {
        0
    }
}

impl EtherScanErcDetails {
    /// Notification text of a token transfer, rendered at the decimal count
    /// the record itself reports.
    pub fn format_as_str(&self) -> (r: String)
        requires
            is_digit_seq(self.value@),
            self.value@.len() >= 1,
        ensures
            r@ == transfer_message(
                rendered_amount(self.value@, erc_decimals(self.tokenDecimal@)),
                self.tokenName@,
                self.from@,
                self.to@,
                self.hash@,
            ),
    {
        let dec = parse_token_decimals(self.tokenDecimal.as_str());
        let rendered = crate::digits::render_amount(self.value.as_str(), dec);
        build_message(
            rendered.as_str(),
            self.tokenName.as_str(),
            self.from.as_str(),
            self.to.as_str(),
            self.hash.as_str(),
        )
    }
}

/// Parse a reported decimal count, falling back to zero when it is missing,
/// malformed, negative or out of the machine's range.
pub fn parse_token_decimals(s: &str) -> (r: usize)
    ensures
        r as int == erc_decimals(s@),
{
    match parse_i64(s) {
        Some(v) => {
            if v >= 0 && v as u128 <= usize::MAX as u128 {
                v as usize
            } else {
                0
            }
        }
        None => 0,
    }
}

} // verus!
