//! The durable store the engine runs against: its mathematical model, the
//! `DataRepository` operations, and an in-memory implementation with proved
//! semantics.

use vstd::prelude::*;
use crate::address::{eq_folded, folded};
use crate::digits::{is_digit_seq, i64_repr, i64_to_string};
use crate::models::{
    opt_int_of, OwnerModel, Transaction, TransactionModel, User, UserModel, Wallet, WalletModel,
};

verus! {

/// A stored user row.
pub ghost struct UserRow {
    pub id: int,
    pub chat_id: Seq<char>,
}

/// A stored wallet row.
pub ghost struct WalletRow {
    pub id: int,
    pub user_id: int,
    pub address: Seq<char>,
}

/// The whole store: rows plus the next free id of each table.
pub ghost struct RepoModel {
    pub users: Seq<UserRow>,
    pub wallets: Seq<WalletRow>,
    pub transactions: Seq<TransactionModel>,
    pub next_user_id: int,
    pub next_wallet_id: int,
    pub next_tx_id: int,
}

pub open spec fn opt_id(v: Option<i64>) -> int {
    match v {
        Some(x) => x as int,
        None => 0,
    }
}

/// The first user row with the given conversation id, in store order.
pub open spec fn find_user_by_chat(users: Seq<UserRow>, chat: Seq<char>) -> Option<UserRow>
    decreases users.len(),
{
    if users.len() == 0 {
        None
    } else if users[0].chat_id == chat {
        Some(users[0])
    } else {
        find_user_by_chat(users.skip(1), chat)
    }
}

/// The first user row with the given id, in store order.
pub open spec fn find_user_by_id(users: Seq<UserRow>, id: int) -> Option<UserRow>
    decreases users.len(),
{
    if users.len() == 0 {
        None
    } else if users[0].id == id {
        Some(users[0])
    } else {
        find_user_by_id(users.skip(1), id)
    }
}

/// Whether a wallet row matches an address and, when one is given, an owner.
pub open spec fn wallet_matches(w: WalletRow, user_id: Option<int>, addr: Seq<char>) -> bool {
    w.address == addr && match user_id {
        Some(u) => w.user_id == u,
        None => true,
    }
}

/// The first matching wallet row, in store order.
pub open spec fn find_wallet(
    wallets: Seq<WalletRow>,
    user_id: Option<int>,
    addr: Seq<char>,
) -> Option<WalletRow>
    decreases wallets.len(),
{
    if wallets.len() == 0 {
        None
    } else if wallet_matches(wallets[0], user_id, addr) {
        Some(wallets[0])
    } else {
        find_wallet(wallets.skip(1), user_id, addr)
    }
}

/// Whether a wallet row matches an owner and an address compared without
/// regard to letter case.
pub open spec fn wallet_matches_folded(w: WalletRow, user_id: int, addr: Seq<char>) -> bool {
    w.user_id == user_id && folded(w.address) == folded(addr)
}

/// The owner's first wallet row at the address up to letter case, in store
/// order: the lookup behind the per-user uniqueness rule, which compares
/// normalized addresses.
pub open spec fn find_wallet_folded(
    wallets: Seq<WalletRow>,
    user_id: int,
    addr: Seq<char>,
) -> Option<WalletRow>
    decreases wallets.len(),
{
    if wallets.len() == 0 {
        None
    } else if wallet_matches_folded(wallets[0], user_id, addr) {
        Some(wallets[0])
    } else {
        find_wallet_folded(wallets.skip(1), user_id, addr)
    }
}

/// Whether a transaction row matches a hash and the optional parts of the
/// dedup key.
pub open spec fn tx_matches(
    t: TransactionModel,
    hash: Seq<char>,
    wallet_id: Option<int>,
    token: Option<Seq<char>>,
) -> bool {
    &&& t.tx_hash == hash
    &&& match wallet_id {
        Some(w) => t.wallet_id == w,
        None => true,
    }
    &&& match token {
        Some(k) => t.token == k,
        None => true,
    }
}

/// The first matching transaction row, in store order.
pub open spec fn find_tx(
    txs: Seq<TransactionModel>,
    hash: Seq<char>,
    wallet_id: Option<int>,
    token: Option<Seq<char>>,
) -> Option<TransactionModel>
    decreases txs.len(),
{
    if txs.len() == 0 {
        None
    } else if tx_matches(txs[0], hash, wallet_id, token) {
        Some(txs[0])
    } else {
        find_tx(txs.skip(1), hash, wallet_id, token)
    }
}

pub proof fn lemma_find_user_by_chat_at(users: Seq<UserRow>, chat: Seq<char>, i: int)
    requires
        0 <= i <= users.len(),
        forall|j: int| 0 <= j < i ==> (#[trigger] users[j]).chat_id != chat,
        i == users.len() || users[i].chat_id == chat,
    ensures
        find_user_by_chat(users, chat) == if i == users.len() {
            None::<UserRow>
        } else {
            Some(users[i])
        },
    decreases i + 1,
{
    if users.len() == 0 {
    } else if i == 0 {
    } else {
        assert(users[0].chat_id != chat);
        assert forall|j: int| 0 <= j < i - 1 implies (#[trigger] users.skip(1)[j]).chat_id != chat by {
            assert(users.skip(1)[j] == users[j + 1]);
        }
        lemma_find_user_by_chat_at(users.skip(1), chat, i - 1);
    }
}

pub proof fn lemma_find_user_by_id_at(users: Seq<UserRow>, id: int, i: int)
    requires
        0 <= i <= users.len(),
        forall|j: int| 0 <= j < i ==> (#[trigger] users[j]).id != id,
        i == users.len() || users[i].id == id,
    ensures
        find_user_by_id(users, id) == if i == users.len() {
            None::<UserRow>
        } else {
            Some(users[i])
        },
    decreases i + 1,
{
    if users.len() == 0 {
    } else if i == 0 {
    } else {
        assert(users[0].id != id);
        assert forall|j: int| 0 <= j < i - 1 implies (#[trigger] users.skip(1)[j]).id != id by {
            assert(users.skip(1)[j] == users[j + 1]);
        }
        lemma_find_user_by_id_at(users.skip(1), id, i - 1);
    }
}

pub proof fn lemma_find_wallet_at(
    wallets: Seq<WalletRow>,
    user_id: Option<int>,
    addr: Seq<char>,
    i: int,
)
    requires
        0 <= i <= wallets.len(),
        forall|j: int| 0 <= j < i ==> !wallet_matches(#[trigger] wallets[j], user_id, addr),
        i == wallets.len() || wallet_matches(wallets[i], user_id, addr),
    ensures
        find_wallet(wallets, user_id, addr) == if i == wallets.len() {
            None::<WalletRow>
        } else {
            Some(wallets[i])
        },
    decreases i + 1,
{
    if wallets.len() == 0 {
    } else if i == 0 {
    } else {
        assert(!wallet_matches(wallets[0], user_id, addr));
        assert forall|j: int| 0 <= j < i - 1 implies !wallet_matches(
            #[trigger] wallets.skip(1)[j],
            user_id,
            addr,
        ) by {
            assert(wallets.skip(1)[j] == wallets[j + 1]);
        }
        lemma_find_wallet_at(wallets.skip(1), user_id, addr, i - 1);
    }
}

pub proof fn lemma_find_wallet_folded_at(
    wallets: Seq<WalletRow>,
    user_id: int,
    addr: Seq<char>,
    i: int,
)
    requires
        0 <= i <= wallets.len(),
        forall|j: int| 0 <= j < i ==> !wallet_matches_folded(#[trigger] wallets[j], user_id, addr),
        i == wallets.len() || wallet_matches_folded(wallets[i], user_id, addr),
    ensures
        find_wallet_folded(wallets, user_id, addr) == if i == wallets.len() {
            None::<WalletRow>
        } else {
            Some(wallets[i])
        },
    decreases i + 1,
{
    if wallets.len() == 0 {
    } else if i == 0 {
    } else {
        assert(!wallet_matches_folded(wallets[0], user_id, addr));
        assert forall|j: int| 0 <= j < i - 1 implies !wallet_matches_folded(
            #[trigger] wallets.skip(1)[j],
            user_id,
            addr,
        ) by {
            assert(wallets.skip(1)[j] == wallets[j + 1]);
        }
        lemma_find_wallet_folded_at(wallets.skip(1), user_id, addr, i - 1);
    }
}

/// An owner with no wallet at an address up to letter case has none at it
/// exactly either: an exact match is a folded match.
pub proof fn lemma_no_folded_no_exact(ws: Seq<WalletRow>, user_id: int, addr: Seq<char>)
    requires
        find_wallet_folded(ws, user_id, addr) is None,
    ensures
        find_wallet(ws, Some(user_id), addr) is None,
    decreases ws.len(),
{
    if ws.len() > 0 {
        assert(!wallet_matches_folded(ws[0], user_id, addr));
        assert(!wallet_matches(ws[0], Some(user_id), addr));
        lemma_no_folded_no_exact(ws.skip(1), user_id, addr);
    }
}

pub proof fn lemma_find_tx_at(
    txs: Seq<TransactionModel>,
    hash: Seq<char>,
    wallet_id: Option<int>,
    token: Option<Seq<char>>,
    i: int,
)
    requires
        0 <= i <= txs.len(),
        forall|j: int| 0 <= j < i ==> !tx_matches(#[trigger] txs[j], hash, wallet_id, token),
        i == txs.len() || tx_matches(txs[i], hash, wallet_id, token),
    ensures
        find_tx(txs, hash, wallet_id, token) == if i == txs.len() {
            None::<TransactionModel>
        } else {
            Some(txs[i])
        },
    decreases i + 1,
{
    if txs.len() == 0 {
    } else if i == 0 {
    } else {
        assert(!tx_matches(txs[0], hash, wallet_id, token));
        assert forall|j: int| 0 <= j < i - 1 implies !tx_matches(
            #[trigger] txs.skip(1)[j],
            hash,
            wallet_id,
            token,
        ) by {
            assert(txs.skip(1)[j] == txs[j + 1]);
        }
        lemma_find_tx_at(txs.skip(1), hash, wallet_id, token, i - 1);
    }
}

/// The transaction rows of one wallet, in store order.
pub open spec fn txs_of_wallet(ts: Seq<TransactionModel>, wallet_id: int) -> Seq<TransactionModel>
    decreases ts.len(),
{
    if ts.len() == 0 {
        Seq::empty()
    } else {
        txs_of_wallet(ts.drop_last(), wallet_id) + if ts.last().wallet_id == wallet_id {
            seq![ts.last()]
        } else {
            Seq::empty()
        }
    }
}

/// The stored users as returned records, in store order.
pub open spec fn user_models(users: Seq<UserRow>) -> Seq<UserModel>
    decreases users.len(),
{
    if users.len() == 0 {
        Seq::empty()
    } else {
        user_models(users.drop_last()) + seq![
            UserModel {
                id: Some(users.last().id),
                chat_id: users.last().chat_id,
                wallets: Seq::empty(),
            },
        ]
    }
}

/// The wallets of one owner as returned records, in store order.
pub open spec fn user_wallet_models(ws: Seq<WalletRow>, user_id: int) -> Seq<WalletModel>
    decreases ws.len(),
{
    if ws.len() == 0 {
        Seq::empty()
    } else {
        user_wallet_models(ws.drop_last(), user_id) + if ws.last().user_id == user_id {
            seq![bare_wallet(ws.last())]
        } else {
            Seq::empty()
        }
    }
}

/// Whether a wallet row is the target of a removal: the requesting owner's
/// row at the removed address. A removal never touches another user's
/// wallet, even at the same address.
pub open spec fn removal_target(w: WalletRow, user_id: int, addr: Seq<char>) -> bool {
    w.user_id == user_id && w.address == addr
}

/// The wallet rows that survive one owner removing an address.
pub open spec fn wallets_without(ws: Seq<WalletRow>, user_id: int, addr: Seq<char>) -> Seq<
    WalletRow,
>
    decreases ws.len(),
{
    if ws.len() == 0 {
        Seq::empty()
    } else {
        wallets_without(ws.drop_last(), user_id, addr) + if !removal_target(
            ws.last(),
            user_id,
            addr,
        ) {
            seq![ws.last()]
        } else {
            Seq::empty()
        }
    }
}

/// Whether a transaction belongs to some removed wallet.
pub open spec fn tx_under_removed(
    t: TransactionModel,
    ws: Seq<WalletRow>,
    user_id: int,
    addr: Seq<char>,
) -> bool {
    exists|k: int|
        0 <= k < ws.len() && removal_target(#[trigger] ws[k], user_id, addr) && ws[k].id
            == t.wallet_id
}

/// The transaction rows that survive the removal: it cascades from the
/// removed wallets to their transactions.
pub open spec fn txs_without(
    ts: Seq<TransactionModel>,
    ws: Seq<WalletRow>,
    user_id: int,
    addr: Seq<char>,
) -> Seq<TransactionModel>
    decreases ts.len(),
{
    if ts.len() == 0 {
        Seq::empty()
    } else {
        txs_without(ts.drop_last(), ws, user_id, addr) + if !tx_under_removed(
            ts.last(),
            ws,
            user_id,
            addr,
        ) {
            seq![ts.last()]
        } else {
            Seq::empty()
        }
    }
}

/// The wallet of a join result: the stored row carrying its owner.
pub open spec fn populated_wallet(w: WalletRow, u: UserRow) -> WalletModel {
    WalletModel {
        id: Some(w.id),
        address: w.address,
        user_id: w.user_id,
        transactions: Seq::empty(),
        user: Some(OwnerModel { id: Some(u.id), chat_id: u.chat_id }),
    }
}

/// A stored wallet row as a returned record: no transactions, no owner.
pub open spec fn bare_wallet(w: WalletRow) -> WalletModel {
    WalletModel {
        id: Some(w.id),
        address: w.address,
        user_id: w.user_id,
        transactions: Seq::empty(),
        user: None,
    }
}

/// The join of wallets with their owners, in store order; wallets whose
/// owner is missing are left out.
pub open spec fn joined_wallets(ws: Seq<WalletRow>, users: Seq<UserRow>) -> Seq<WalletModel>
    decreases ws.len(),
{
    if ws.len() == 0 {
        Seq::empty()
    } else {
        joined_wallets(ws.drop_last(), users) + match find_user_by_id(users, ws.last().user_id) {
            Some(u) => seq![populated_wallet(ws.last(), u)],
            None => Seq::empty(),
        }
    }
}

/// A transaction row the store accepts: the amount is a digit string and the
/// decimal count is usable for rendering.
pub open spec fn tx_wf(t: TransactionModel) -> bool {
    &&& is_digit_seq(t.amount)
    &&& t.amount.len() >= 1
    &&& 0 <= t.decimal <= usize::MAX as int
}

/// The operations the engine needs from a store.
///
/// `model` is the store's mathematical content and `inv` its
/// well-formedness; every operation states its effect on the model.
pub trait DataRepository: Sized {
    /// The store's content. An implementation that does not say what it
    /// holds is left with the empty store.
    open spec fn model(&self) -> RepoModel {
        RepoModel {
            users: Seq::empty(),
            wallets: Seq::empty(),
            transactions: Seq::empty(),
            next_user_id: 1,
            next_wallet_id: 1,
            next_tx_id: 1,
        }
    }

    /// The store's well-formedness. Nothing is proved about an
    /// implementation that does not establish it.
    open spec fn inv(&self) -> bool {
        false
    }

    /// Insert a user for a conversation id; the stored row carries its
    /// decimal form.
    fn add_user(&mut self, chat_id: i64) -> (r: bool)
        requires
            old(self).inv(),
            old(self).model().next_user_id < i64::MAX,
        ensures
            final(self).inv(),
            r,
            final(self).model() == (RepoModel {
                users: old(self).model().users.push(
                    UserRow {
                        id: old(self).model().next_user_id,
                        chat_id: i64_repr(chat_id as int),
                    },
                ),
                next_user_id: old(self).model().next_user_id + 1,
                ..old(self).model()
            }),
    ;

    /// Look a user up by conversation id.
    fn get_user(&self, chat_id: i64) -> (r: Option<User>)
        requires
            self.inv(),
        ensures
            match find_user_by_chat(self.model().users, i64_repr(chat_id as int)) {
                Some(u) => r matches Some(ru) && ru@ == (UserModel {
                    id: Some(u.id),
                    chat_id: u.chat_id,
                    wallets: Seq::empty(),
                }),
                None => r is None,
            },
    ;

    /// Every stored user, in store order.
    fn get_all_user(&self) -> (r: Vec<User>)
        requires
            self.inv(),
        ensures
            r@.map_values(|uu: User| uu@) == user_models(self.model().users),
    ;

    /// Insert a wallet row for an owner.
    fn add_wallet(&mut self, user_id: i64, wallet_address: String) -> (r: bool)
        requires
            old(self).inv(),
            old(self).model().next_wallet_id < i64::MAX,
        ensures
            final(self).inv(),
            r,
            final(self).model() == (RepoModel {
                wallets: old(self).model().wallets.push(
                    WalletRow {
                        id: old(self).model().next_wallet_id,
                        user_id: user_id as int,
                        address: wallet_address@,
                    },
                ),
                next_wallet_id: old(self).model().next_wallet_id + 1,
                ..old(self).model()
            }),
    ;

    /// Delete the owner's wallet rows at an address, and, by cascade, the
    /// transactions of the deleted rows. Another owner's wallet at the same
    /// address is untouched.
    fn remove_wallet(&mut self, user_id: i64, wallet_address: String) -> (r: bool)
        requires
            old(self).inv(),
        ensures
            final(self).inv(),
            r,
            final(self).model() == (RepoModel {
                wallets: wallets_without(
                    old(self).model().wallets,
                    user_id as int,
                    wallet_address@,
                ),
                transactions: txs_without(
                    old(self).model().transactions,
                    old(self).model().wallets,
                    user_id as int,
                    wallet_address@,
                ),
                ..old(self).model()
            }),
    ;

    /// Look a wallet up by address, and by owner when one is given.
    fn get_wallet(&self, user_id: Option<i64>, wallet_address: String) -> (r: Option<Wallet>)
        requires
            self.inv(),
        ensures
            match find_wallet(self.model().wallets, opt_int_of(user_id), wallet_address@) {
                Some(w) => r matches Some(rw) && rw@ == bare_wallet(w),
                None => r is None,
            },
    ;

    /// Look a wallet up by owner and address compared without regard to
    /// letter case: the normalized comparison of the per-user uniqueness
    /// rule.
    fn get_wallet_folded(&self, user_id: i64, wallet_address: String) -> (r: Option<Wallet>)
        requires
            self.inv(),
        ensures
            match find_wallet_folded(
                self.model().wallets,
                user_id as int,
                wallet_address@,
            ) {
                Some(w) => r matches Some(rw) && rw@ == bare_wallet(w),
                None => r is None,
            },
    ;

    /// Insert a transaction row.
    fn add_transaction(&mut self, transaction: Transaction) -> (r: bool)
        requires
            old(self).inv(),
            old(self).model().next_tx_id < i64::MAX,
            tx_wf(transaction@),
        ensures
            final(self).inv(),
            r,
            final(self).model() == (RepoModel {
                transactions: old(self).model().transactions.push(
                    TransactionModel { id: Some(old(self).model().next_tx_id), ..transaction@ },
                ),
                next_tx_id: old(self).model().next_tx_id + 1,
                ..old(self).model()
            }),
    ;

    /// Look a transaction up by hash, and by the other parts of the dedup
    /// key when they are given.
    fn get_transaction(
        &self,
        tx_hash: String,
        wallet_id: Option<i64>,
        token_name: Option<String>,
    ) -> (r: Option<Transaction>)
        requires
            self.inv(),
        ensures
            match find_tx(
                self.model().transactions,
                tx_hash@,
                opt_int_of(wallet_id),
                match token_name {
                    Some(ref t) => Some(t@),
                    None => None,
                },
            ) {
                Some(t) => r matches Some(rt) && rt@ == t,
                None => r is None,
            },
    ;

    /// Every transaction of one wallet, in store order.
    fn get_all_transactions(&self, wallet_id: i64) -> (r: Vec<Transaction>)
        requires
            self.inv(),
        ensures
            r@.map_values(|tt: Transaction| tt@) == txs_of_wallet(
                self.model().transactions,
                wallet_id as int,
            ),
            forall|i: int| 0 <= i < r@.len() ==> tx_wf(#[trigger] r@[i]@),
    ;

    /// Every wallet that has an owner, each carrying that owner.
    fn get_all_wallets_with_user(&self) -> (r: Vec<Wallet>)
        requires
            self.inv(),
        ensures
            r@.map_values(|ww: Wallet| ww@) == joined_wallets(
                self.model().wallets,
                self.model().users,
            ),
    ;

    /// Every wallet of one owner, in store order.
    fn get_user_wallets(&self, user_id: i64) -> (r: Vec<Wallet>)
        requires
            self.inv(),
        ensures
            r@.map_values(|ww: Wallet| ww@) == user_wallet_models(
                self.model().wallets,
                user_id as int,
            ),
    ;
}

/// Looking a key up after appending a row: the old result wins, and the new
/// row is found exactly when nothing earlier matched and it matches itself.
pub proof fn lemma_find_tx_push(
    txs: Seq<TransactionModel>,
    x: TransactionModel,
    hash: Seq<char>,
    wallet_id: Option<int>,
    token: Option<Seq<char>>,
)
    ensures
        find_tx(txs.push(x), hash, wallet_id, token) == match find_tx(txs, hash, wallet_id, token) {
            Some(t) => Some(t),
            None => if tx_matches(x, hash, wallet_id, token) {
                Some(x)
            } else {
                None
            },
        },
    decreases txs.len(),
{
    if txs.len() == 0 {
        assert(txs.push(x)[0] == x);
        assert(txs.push(x).skip(1) =~= Seq::<TransactionModel>::empty());
    } else {
        assert(txs.push(x)[0] == txs[0]);
        if !tx_matches(txs[0], hash, wallet_id, token) {
            assert(txs.push(x).skip(1) =~= txs.skip(1).push(x));
            lemma_find_tx_push(txs.skip(1), x, hash, wallet_id, token);
        }
    }
}

/// Looking a wallet up after appending a row: the old result wins, and the
/// new row is found exactly when nothing earlier matched and it matches.
pub proof fn lemma_find_wallet_push(
    ws: Seq<WalletRow>,
    x: WalletRow,
    user_id: Option<int>,
    addr: Seq<char>,
)
    ensures
        find_wallet(ws.push(x), user_id, addr) == match find_wallet(ws, user_id, addr) {
            Some(w) => Some(w),
            None => if wallet_matches(x, user_id, addr) {
                Some(x)
            } else {
                None
            },
        },
    decreases ws.len(),
{
    if ws.len() == 0 {
        assert(ws.push(x)[0] == x);
        assert(ws.push(x).skip(1) =~= Seq::<WalletRow>::empty());
    } else {
        assert(ws.push(x)[0] == ws[0]);
        if !wallet_matches(ws[0], user_id, addr) {
            assert(ws.push(x).skip(1) =~= ws.skip(1).push(x));
            lemma_find_wallet_push(ws.skip(1), x, user_id, addr);
        }
    }
}

/// After an owner removes an address, that owner has no wallet at it:
/// looking the pair up finds nothing.
pub proof fn lemma_removed_wallet_gone(ws: Seq<WalletRow>, user_id: int, addr: Seq<char>)
    ensures
        find_wallet(wallets_without(ws, user_id, addr), Some(user_id), addr) is None,
    decreases ws.len(),
{
    lemma_without_members(ws, user_id, addr);
    let kept = wallets_without(ws, user_id, addr);
    assert forall|j: int| 0 <= j < kept.len() implies !wallet_matches(
        #[trigger] kept[j],
        Some(user_id),
        addr,
    ) by {}
    lemma_find_wallet_at(kept, Some(user_id), addr, kept.len() as int);
}

/// Every wallet that survives the removal is not the removed pair.
pub proof fn lemma_without_members(ws: Seq<WalletRow>, user_id: int, addr: Seq<char>)
    ensures
        forall|k: int|
            0 <= k < wallets_without(ws, user_id, addr).len() ==> !removal_target(
                #[trigger] wallets_without(ws, user_id, addr)[k],
                user_id,
                addr,
            ),
    decreases ws.len(),
{
    if ws.len() > 0 {
        lemma_without_members(ws.drop_last(), user_id, addr);
        let prev = wallets_without(ws.drop_last(), user_id, addr);
        let kept = wallets_without(ws, user_id, addr);
        assert forall|k: int| 0 <= k < kept.len() implies !removal_target(
            #[trigger] kept[k],
            user_id,
            addr,
        ) by {
            if k < prev.len() {
                assert(kept[k] == prev[k]);
            } else {
                assert(kept[k] == ws.last());
            }
        }
    }
}

/// Copy a transaction record field by field.
fn dup_transaction(t: &Transaction) -> (r: Transaction)
    ensures
        r@ == t@,
{
    Transaction {
        id: t.id,
        from: t.from.clone(),
        to: t.to.clone(),
        amount: t.amount.clone(),
        tx_hash: t.tx_hash.clone(),
        token: t.token.clone(),
        decimal: t.decimal,
        status: t.status,
        wallet_id: t.wallet_id,
    }
}

/// An in-memory store with the `DataRepository` semantics proved.
pub struct MemoryRepository {
    users: Vec<User>,
    wallets: Vec<Wallet>,
    transactions: Vec<Transaction>,
    next_user_id: i64,
    next_wallet_id: i64,
    next_tx_id: i64,
}

impl MemoryRepository {
    /// An empty store; each table hands out ids from one upward, as an
    /// autoincrement column does.
    pub fn new() -> (r: Self)
        ensures
            r.inv(),
            r.model() == (RepoModel {
                users: Seq::empty(),
                wallets: Seq::empty(),
                transactions: Seq::empty(),
                next_user_id: 1,
                next_wallet_id: 1,
                next_tx_id: 1,
            }),
    {
        let r = MemoryRepository {
            users: Vec::new(),
            wallets: Vec::new(),
            transactions: Vec::new(),
            next_user_id: 1,
            next_wallet_id: 1,
            next_tx_id: 1,
        };
        proof {
            assert(r.model().users =~= Seq::<UserRow>::empty());
            assert(r.model().wallets =~= Seq::<WalletRow>::empty());
            assert(r.model().transactions =~= Seq::<TransactionModel>::empty());
        }
        r
    }
}

impl DataRepository for MemoryRepository {
    closed spec fn model(&self) -> RepoModel {
        RepoModel {
            users: self.users@.map_values(
                |u: User| UserRow { id: opt_id(u.id), chat_id: u.chat_id@ },
            ),
            wallets: self.wallets@.map_values(
                |w: Wallet| WalletRow { id: opt_id(w.id), user_id: w.user_id as int, address: w.address@ },
            ),
            transactions: self.transactions@.map_values(|tt: Transaction| tt@),
            next_user_id: self.next_user_id as int,
            next_wallet_id: self.next_wallet_id as int,
            next_tx_id: self.next_tx_id as int,
        }
    }

    closed spec fn inv(&self) -> bool {
        &&& forall|i: int| 0 <= i < self.users@.len() ==> (#[trigger] self.users@[i]).id is Some
        &&& forall|i: int| 0 <= i < self.wallets@.len() ==> (#[trigger] self.wallets@[i]).id is Some
        &&& forall|i: int|
            0 <= i < self.transactions@.len() ==> (#[trigger] self.transactions@[i]).id is Some
        &&& forall|i: int|
            0 <= i < self.transactions@.len() ==> tx_wf((#[trigger] self.transactions@[i])@)
    }

    fn add_user(&mut self, chat_id: i64) -> (r: bool) {
        let ghost m0 = self.model();
        let s = i64_to_string(chat_id);
        let u = User::new(s, Some(self.next_user_id));
        self.users.push(u);
        self.next_user_id = self.next_user_id + 1;
        proof {
            assert(self.model().users =~= m0.users.push(
                UserRow { id: m0.next_user_id, chat_id: i64_repr(chat_id as int) },
            ));
            assert(self.model().wallets =~= m0.wallets);
            assert(self.model().transactions =~= m0.transactions);
        }
        true
    }

    fn get_user(&self, chat_id: i64) -> (r: Option<User>) {
        let ghost m = self.model();
        let ghost chat = i64_repr(chat_id as int);
        let target = i64_to_string(chat_id);
        let n = self.users.len();
        let mut i: usize = 0;
        while i < n
            invariant
                0 <= i <= n,
                n == self.users@.len(),
                self.inv(),
                m == self.model(),
                chat == target@,
                chat == i64_repr(chat_id as int),
                forall|j: int| 0 <= j < i ==> (#[trigger] m.users[j]).chat_id != chat,
            decreases n - i,
        {
            if self.users[i].chat_id == target {
                proof {
                    lemma_find_user_by_chat_at(m.users, chat, i as int);
                    assert(self.users@[i as int].id is Some);
                    assert(m.users[i as int] == UserRow {
                        id: opt_id(self.users@[i as int].id),
                        chat_id: self.users@[i as int].chat_id@,
                    });
                }
                let u = &self.users[i];
                return Some(User::new(u.chat_id.clone(), u.id));
            }
            i += 1;
        }
        proof {
            lemma_find_user_by_chat_at(m.users, chat, n as int);
        }
        None
    }

    fn get_all_user(&self) -> (r: Vec<User>) {
        let ghost m = self.model();
        let n = self.users.len();
        let mut res: Vec<User> = Vec::new();
        let mut i: usize = 0;
        while i < n
            invariant
                0 <= i <= n,
                n == self.users@.len(),
                self.inv(),
                m == self.model(),
                res@.map_values(|uu: User| uu@) =~= user_models(m.users.take(i as int)),
            decreases n - i,
        {
            let u = &self.users[i];
            res.push(User::new(u.chat_id.clone(), u.id));
            proof {
                assert(self.users@[i as int].id is Some);
                assert(m.users[i as int] == UserRow {
                    id: opt_id(self.users@[i as int].id),
                    chat_id: self.users@[i as int].chat_id@,
                });
                assert(m.users.take(i + 1).drop_last() =~= m.users.take(i as int));
                assert(res@.map_values(|uu: User| uu@) =~= user_models(m.users.take(i + 1)));
            }
            i += 1;
        }
        proof {
            assert(m.users.take(n as int) =~= m.users);
        }
        res
    }

    fn add_wallet(&mut self, user_id: i64, wallet_address: String) -> (r: bool) {
        let ghost m0 = self.model();
        let ghost addr = wallet_address@;
        let w = Wallet::new(wallet_address, user_id, Some(self.next_wallet_id));
        self.wallets.push(w);
        self.next_wallet_id = self.next_wallet_id + 1;
        proof {
            assert(self.model().wallets =~= m0.wallets.push(
                WalletRow { id: m0.next_wallet_id, user_id: user_id as int, address: addr },
            ));
            assert(self.model().users =~= m0.users);
            assert(self.model().transactions =~= m0.transactions);
        }
        true
    }

    fn remove_wallet(&mut self, user_id: i64, wallet_address: String) -> (r: bool) {
        let ghost m0 = self.model();
        let ghost addr = wallet_address@;
        let nt = self.transactions.len();
        let nw = self.wallets.len();
        let mut kept_txs: Vec<Transaction> = Vec::new();
        let mut i: usize = 0;
        while i < nt
            invariant
                0 <= i <= nt,
                nt == self.transactions@.len(),
                nw == self.wallets@.len(),
                self.inv(),
                m0 == self.model(),
                addr == wallet_address@,
                kept_txs@.map_values(|tt: Transaction| tt@) =~= txs_without(
                    m0.transactions.take(i as int),
                    m0.wallets,
                    user_id as int,
                    addr,
                ),
                forall|k: int|
                    0 <= k < kept_txs@.len() ==> (#[trigger] kept_txs@[k]).id is Some && tx_wf(
                        kept_txs@[k]@,
                    ),
            decreases nt - i,
        {
            let t = &self.transactions[i];
            let mut removed = false;
            let mut j: usize = 0;
            while j < nw
                invariant
                    0 <= j <= nw,
                    nw == self.wallets@.len(),
                    self.inv(),
                    m0 == self.model(),
                    addr == wallet_address@,
                    t == &self.transactions[i as int],
                    0 <= i < nt,
                    nt == self.transactions@.len(),
                    removed ==> tx_under_removed(t@, m0.wallets, user_id as int, addr),
                    !removed ==> forall|k: int|
                        0 <= k < j ==> !(removal_target(#[trigger] m0.wallets[k], user_id as int, addr)
                            && m0.wallets[k].id == t@.wallet_id),
                decreases nw - j,
            {
                let w = &self.wallets[j];
                let id_match = match w.id {
                    Some(x) => x == t.wallet_id,
                    None => false,
                };
                if id_match && w.user_id == user_id && w.address == wallet_address {
                    removed = true;
                    proof {
                        assert(self.wallets@[j as int].id is Some);
                        assert(removal_target(m0.wallets[j as int], user_id as int, addr));
                        assert(m0.wallets[j as int].id == t@.wallet_id);
                        assert(tx_under_removed(t@, m0.wallets, user_id as int, addr));
                    }
                }
                j += 1;
            }
            if !removed {
                kept_txs.push(dup_transaction(t));
            }
            proof {
                if !removed {
                    assert(!tx_under_removed(t@, m0.wallets, user_id as int, addr));
                }
                assert(m0.transactions.take(i + 1).drop_last() =~= m0.transactions.take(i as int));
                assert(m0.transactions.take(i + 1).last() == t@);
                assert(kept_txs@.map_values(|tt: Transaction| tt@) =~= txs_without(
                    m0.transactions.take(i + 1),
                    m0.wallets,
                    user_id as int,
                    addr,
                ));
            }
            i += 1;
        }
        let mut kept_ws: Vec<Wallet> = Vec::new();
        let mut i2: usize = 0;
        while i2 < nw
            invariant
                0 <= i2 <= nw,
                nw == self.wallets@.len(),
                self.inv(),
                m0 == self.model(),
                addr == wallet_address@,
                kept_ws@.map_values(
                    |w: Wallet| WalletRow { id: opt_id(w.id), user_id: w.user_id as int, address: w.address@ },
                ) =~= wallets_without(m0.wallets.take(i2 as int), user_id as int, addr),
                forall|k: int| 0 <= k < kept_ws@.len() ==> (#[trigger] kept_ws@[k]).id is Some,
            decreases nw - i2,
        {
            let w = &self.wallets[i2];
            if !(w.user_id == user_id && w.address == wallet_address) {
                kept_ws.push(Wallet::new(w.address.clone(), w.user_id, w.id));
            }
            proof {
                assert(m0.wallets.take(i2 + 1).drop_last() =~= m0.wallets.take(i2 as int));
                assert(kept_ws@.map_values(
                    |w: Wallet| WalletRow { id: opt_id(w.id), user_id: w.user_id as int, address: w.address@ },
                ) =~= wallets_without(m0.wallets.take(i2 + 1), user_id as int, addr));
            }
            i2 += 1;
        }
        self.transactions = kept_txs;
        self.wallets = kept_ws;
        proof {
            assert(m0.transactions.take(nt as int) =~= m0.transactions);
            assert(m0.wallets.take(nw as int) =~= m0.wallets);
            assert(self.model().users =~= m0.users);
        }
        true
    }

    fn get_wallet(&self, user_id: Option<i64>, wallet_address: String) -> (r: Option<Wallet>) {
        let ghost m = self.model();
        let ghost uid = opt_int_of(user_id);
        let ghost addr = wallet_address@;
        let n = self.wallets.len();
        let mut i: usize = 0;
        while i < n
            invariant
                0 <= i <= n,
                n == self.wallets@.len(),
                self.inv(),
                m == self.model(),
                uid == opt_int_of(user_id),
                addr == wallet_address@,
                forall|j: int| 0 <= j < i ==> !wallet_matches(#[trigger] m.wallets[j], uid, addr),
            decreases n - i,
        {
            let w = &self.wallets[i];
            let user_ok = match user_id {
                Some(u) => w.user_id == u,
                None => true,
            };
            if user_ok && w.address == wallet_address {
                proof {
                    lemma_find_wallet_at(m.wallets, uid, addr, i as int);
                }
                return Some(Wallet::new(w.address.clone(), w.user_id, w.id));
            }
            i += 1;
        }
        proof {
            lemma_find_wallet_at(m.wallets, uid, addr, n as int);
        }
        None
    }

    fn get_wallet_folded(&self, user_id: i64, wallet_address: String) -> (r: Option<Wallet>) {
        let ghost m = self.model();
        let ghost addr = wallet_address@;
        let n = self.wallets.len();
        let mut i: usize = 0;
        while i < n
            invariant
                0 <= i <= n,
                n == self.wallets@.len(),
                self.inv(),
                m == self.model(),
                addr == wallet_address@,
                forall|j: int|
                    0 <= j < i ==> !wallet_matches_folded(#[trigger] m.wallets[j], user_id as int, addr),
            decreases n - i,
        {
            let w = &self.wallets[i];
            if w.user_id == user_id && eq_folded(w.address.as_str(), wallet_address.as_str()) {
                proof {
                    lemma_find_wallet_folded_at(m.wallets, user_id as int, addr, i as int);
                }
                return Some(Wallet::new(w.address.clone(), w.user_id, w.id));
            }
            i += 1;
        }
        proof {
            lemma_find_wallet_folded_at(m.wallets, user_id as int, addr, n as int);
        }
        None
    }

    fn add_transaction(&mut self, transaction: Transaction) -> (r: bool) {
        let ghost m0 = self.model();
        let ghost tm = transaction@;
        let stored = Transaction { id: Some(self.next_tx_id), ..transaction };
        self.transactions.push(stored);
        self.next_tx_id = self.next_tx_id + 1;
        proof {
            assert(self.model().transactions =~= m0.transactions.push(
                TransactionModel { id: Some(m0.next_tx_id), ..tm },
            ));
            assert(self.model().users =~= m0.users);
            assert(self.model().wallets =~= m0.wallets);
        }
        true
    }

    fn get_transaction(
        &self,
        tx_hash: String,
        wallet_id: Option<i64>,
        token_name: Option<String>,
    ) -> (r: Option<Transaction>) {
        let ghost m = self.model();
        let ghost hash = tx_hash@;
        let ghost wid = opt_int_of(wallet_id);
        let ghost tok: Option<Seq<char>> = match token_name {
            Some(ref t) => Some(t@),
            None => None,
        };
        let n = self.transactions.len();
        let mut i: usize = 0;
        while i < n
            invariant
                0 <= i <= n,
                n == self.transactions@.len(),
                self.inv(),
                m == self.model(),
                hash == tx_hash@,
                wid == opt_int_of(wallet_id),
                tok == (match token_name {
                    Some(ref t) => Some(t@),
                    None => None::<Seq<char>>,
                }),
                forall|j: int| 0 <= j < i ==> !tx_matches(#[trigger] m.transactions[j], hash, wid, tok),
            decreases n - i,
        {
            let t = &self.transactions[i];
            let wallet_ok = match wallet_id {
                Some(w) => t.wallet_id == w,
                None => true,
            };
            let token_ok = match token_name {
                Some(ref k) => t.token == *k,
                None => true,
            };
            if wallet_ok && token_ok && t.tx_hash == tx_hash {
                proof {
                    lemma_find_tx_at(m.transactions, hash, wid, tok, i as int);
                }
                return Some(dup_transaction(t));
            }
            i += 1;
        }
        proof {
            lemma_find_tx_at(m.transactions, hash, wid, tok, n as int);
        }
        None
    }

    fn get_all_transactions(&self, wallet_id: i64) -> (r: Vec<Transaction>) {
        let ghost m = self.model();
        let n = self.transactions.len();
        let mut res: Vec<Transaction> = Vec::new();
        let mut i: usize = 0;
        while i < n
            invariant
                0 <= i <= n,
                n == self.transactions@.len(),
                self.inv(),
                m == self.model(),
                res@.map_values(|tt: Transaction| tt@) =~= txs_of_wallet(
                    m.transactions.take(i as int),
                    wallet_id as int,
                ),
                forall|k: int| 0 <= k < res@.len() ==> tx_wf((#[trigger] res@[k])@),
            decreases n - i,
        {
            let t = &self.transactions[i];
            if t.wallet_id == wallet_id {
                res.push(dup_transaction(t));
            }
            proof {
                assert(m.transactions.take(i + 1).drop_last() =~= m.transactions.take(i as int));
                assert(res@.map_values(|tt: Transaction| tt@) =~= txs_of_wallet(
                    m.transactions.take(i + 1),
                    wallet_id as int,
                ));
            }
            i += 1;
        }
        proof {
            assert(m.transactions.take(n as int) =~= m.transactions);
        }
        res
    }

    fn get_all_wallets_with_user(&self) -> (r: Vec<Wallet>) {
        let ghost m = self.model();
        let n = self.wallets.len();
        let nu = self.users.len();
        let mut res: Vec<Wallet> = Vec::new();
        let mut i: usize = 0;
        while i < n
            invariant
                0 <= i <= n,
                n == self.wallets@.len(),
                nu == self.users@.len(),
                self.inv(),
                m == self.model(),
                res@.map_values(|ww: Wallet| ww@) =~= joined_wallets(m.wallets.take(i as int), m.users),
            decreases n - i,
        {
            let w = &self.wallets[i];
            let mut owner: Option<usize> = None;
            let mut j: usize = 0;
            while j < nu
                invariant
                    0 <= j <= nu,
                    nu == self.users@.len(),
                    self.inv(),
                    m == self.model(),
                    w == &self.wallets[i as int],
                    0 <= i < n,
                    n == self.wallets@.len(),
                    match owner {
                        Some(k) => 0 <= k < nu && m.users[k as int].id == w.user_id as int
                            && forall|l: int| 0 <= l < k ==> (#[trigger] m.users[l]).id != w.user_id as int,
                        None => forall|l: int| 0 <= l < j ==> (#[trigger] m.users[l]).id != w.user_id as int,
                    },
                decreases nu - j,
            {
                if owner.is_none() {
                    let id_match = match self.users[j].id {
                        Some(x) => x == w.user_id,
                        None => false,
                    };
                    if id_match {
                        owner = Some(j);
                    }
                }
                j += 1;
            }
            match owner {
                Some(k) => {
                    proof {
                        lemma_find_user_by_id_at(m.users, w.user_id as int, k as int);
                    }
                    let u = &self.users[k];
                    let mut nwl = Wallet::new(w.address.clone(), w.user_id, w.id);
                    nwl.user = Some(User::new(u.chat_id.clone(), u.id));
                    res.push(nwl);
                },
                None => {
                    proof {
                        lemma_find_user_by_id_at(m.users, w.user_id as int, nu as int);
                    }
                },
            }
            proof {
                assert(m.wallets.take(i + 1).drop_last() =~= m.wallets.take(i as int));
                assert(res@.map_values(|ww: Wallet| ww@) =~= joined_wallets(
                    m.wallets.take(i + 1),
                    m.users,
                ));
            }
            i += 1;
        }
        proof {
            assert(m.wallets.take(n as int) =~= m.wallets);
        }
        res
    }

    fn get_user_wallets(&self, user_id: i64) -> (r: Vec<Wallet>) {
        let ghost m = self.model();
        let n = self.wallets.len();
        let mut res: Vec<Wallet> = Vec::new();
        let mut i: usize = 0;
        while i < n
            invariant
                0 <= i <= n,
                n == self.wallets@.len(),
                self.inv(),
                m == self.model(),
                res@.map_values(|ww: Wallet| ww@) =~= user_wallet_models(
                    m.wallets.take(i as int),
                    user_id as int,
                ),
            decreases n - i,
        {
            let w = &self.wallets[i];
            if w.user_id == user_id {
                res.push(Wallet::new(w.address.clone(), w.user_id, w.id));
            }
            proof {
                assert(self.wallets@[i as int].id is Some);
                assert(m.wallets[i as int] == WalletRow {
                    id: opt_id(self.wallets@[i as int].id),
                    user_id: self.wallets@[i as int].user_id as int,
                    address: self.wallets@[i as int].address@,
                });
                assert(m.wallets.take(i + 1).drop_last() =~= m.wallets.take(i as int));
                assert(res@.map_values(|ww: Wallet| ww@) =~= user_wallet_models(
                    m.wallets.take(i + 1),
                    user_id as int,
                ));
            }
            i += 1;
        }
        proof {
            assert(m.wallets.take(n as int) =~= m.wallets);
        }
        res
    }
}

} // verus!
