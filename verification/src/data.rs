//! The entity store: the three collections, their flat-file codec, the
//! recompute engine, the referential-integrity rules for rename and
//! delete, and the period rollover.
use crate::account::{account_line, decode_account_line, field_text_ok, Account, AccountFields};
use crate::category::{category_line, decode_category_line, Category, CategoryFields};
use crate::date::{date_valid, Date};
use crate::money::{money_in_range, round_cent, MONEY_MAX};
use crate::text::{split_all, split_cells, str_ends_with, str_eq};
use crate::transaction::{
    decode_transaction_line, transaction_line, Transaction, TxFields,
};
use vstd::prelude::*;
use vstd::string::{StrSliceExecFns, StringExecFns};

verus! {

/// The three entity kinds an operation can act on.
pub enum DataType {
    Account,
    Category,
    Transaction,
}

impl DataType {
    /// The kind a command's type tag names, or nothing for any other
    /// tag.
    pub fn from_tag(tag: &str) -> (r: Option<DataType>)
        ensures
            tag@ == "acc"@ ==> r == Some(DataType::Account),
            tag@ == "cat"@ ==> r == Some(DataType::Category),
            tag@ == "tra"@ ==> r == Some(DataType::Transaction),
            tag@ != "acc"@ && tag@ != "cat"@ && tag@ != "tra"@ ==> r is None,
    {
        proof {
            reveal_strlit("acc");
            reveal_strlit("cat");
            reveal_strlit("tra");
            assert("acc"@.len() == 3 && "cat"@.len() == 3 && "tra"@.len() == 3);
            assert("acc"@[0] == 'a' && "cat"@[0] == 'c' && "tra"@[0] == 't');
        }
        if str_eq(tag, "acc") {
            Some(DataType::Account)
        } else if str_eq(tag, "cat") {
            Some(DataType::Category)
        } else if str_eq(tag, "tra") {
            Some(DataType::Transaction)
        } else {
            Option::None
        }
    }
}

/// What can go wrong inside the core: a malformed date on load — the
/// one fatal parse — or a recomputed total too large to store.
#[derive(Clone, Copy, Debug, PartialEq, Eq, Structural)]
pub enum LedgerError {
    BadDate,
    Overflow,
}

/// The encoded texts of the three collections, as one period's save
/// writes them.
pub struct Snapshot {
    pub accounts: String,
    pub categories: String,
    pub transactions: String,
}

pub struct Data {
    pub accounts: Vec<Account>,
    pub categories: Vec<Category>,
    pub transactions: Vec<Transaction>,
}

/// A validated add request: the entity kind with its entered fields.
/// Money fields arrive as entered text; dates arrive already parsed by
/// the caller's prompt handling.
pub enum AddCmd {
    Account { name: String },
    Category { name: String, expected: String },
    Transaction { date: Date, amount: String, account: String, category: String, description: String },
    Transfer { date: Date, amount: String, from_account: String, to_account: String, description: String },
}

// --- collection encoding -------------------------------------------------

/// The account file: one line per account, in order.
pub open spec fn encode_accounts(fs: Seq<AccountFields>) -> Seq<char>
    decreases fs.len(),
{
    if fs.len() == 0 {
        Seq::empty()
    } else {
        account_line(fs.first()) + encode_accounts(fs.drop_first())
    }
}

/// The category file: one line per category, in order.
pub open spec fn encode_categories(fs: Seq<CategoryFields>) -> Seq<char>
    decreases fs.len(),
{
    if fs.len() == 0 {
        Seq::empty()
    } else {
        category_line(fs.first()) + encode_categories(fs.drop_first())
    }
}

/// The transaction file: one line per transaction, in order.
pub open spec fn encode_transactions(fs: Seq<TxFields>) -> Seq<char>
    decreases fs.len(),
{
    if fs.len() == 0 {
        Seq::empty()
    } else {
        transaction_line(fs.first()) + encode_transactions(fs.drop_first())
    }
}

// --- collection decoding -------------------------------------------------

/// Accounts read line by line; a blank line ends the data.
pub open spec fn decode_account_lines(lines: Seq<Seq<char>>) -> Seq<AccountFields>
    decreases lines.len(),
{
    if lines.len() == 0 || lines.first().len() == 0 {
        Seq::empty()
    } else {
        seq![decode_account_line(lines.first())] + decode_account_lines(lines.drop_first())
    }
}

/// Accounts read from the raw text of the account file.
pub open spec fn decode_accounts(s: Seq<char>) -> Seq<AccountFields> {
    decode_account_lines(split_cells(s, '\n'))
}

/// Categories read line by line; a blank line ends the data.
pub open spec fn decode_category_lines(lines: Seq<Seq<char>>) -> Seq<CategoryFields>
    decreases lines.len(),
{
    if lines.len() == 0 || lines.first().len() == 0 {
        Seq::empty()
    } else {
        seq![decode_category_line(lines.first())] + decode_category_lines(lines.drop_first())
    }
}

/// Categories read from the raw text of the category file.
pub open spec fn decode_categories(s: Seq<char>) -> Seq<CategoryFields> {
    decode_category_lines(split_cells(s, '\n'))
}

/// Transactions read line by line; a blank line ends the data, and one
/// bad date fails the whole load.
pub open spec fn decode_transaction_lines(lines: Seq<Seq<char>>) -> Option<Seq<TxFields>>
    decreases lines.len(),
{
    if lines.len() == 0 || lines.first().len() == 0 {
        Some(Seq::empty())
    } else {
        match decode_transaction_line(lines.first()) {
            Some(f) => match decode_transaction_lines(lines.drop_first()) {
                Some(rest) => Some(seq![f] + rest),
                Option::None => Option::None,
            },
            Option::None => Option::None,
        }
    }
}

/// Transactions read from the raw text of the transaction file.
pub open spec fn decode_transactions(s: Seq<char>) -> Option<Seq<TxFields>> {
    decode_transaction_lines(split_cells(s, '\n'))
}

/// `j` is the first position whose identifier display contains the query.
pub open spec fn is_first_match(ids: Seq<u128>, q: Seq<char>, j: int) -> bool {
    0 <= j < ids.len() && crate::ids::id_matches(ids[j], q) && (forall|k: int|
        0 <= k < j ==> !crate::ids::id_matches(#[trigger] ids[k], q))
}

/// No identifier display contains the query.
pub open spec fn no_match(ids: Seq<u128>, q: Seq<char>) -> bool {
    forall|k: int| 0 <= k < ids.len() ==> !crate::ids::id_matches(#[trigger] ids[k], q)
}

/// The transaction with its account name replaced.
pub open spec fn tx_with_account(t: Transaction, account: String) -> Transaction {
    Transaction { account, ..t }
}

/// The transaction with its category name replaced.
pub open spec fn tx_with_category(t: Transaction, category: String) -> Transaction {
    Transaction { category, ..t }
}

/// The rename cascade over the transaction list: every transaction
/// whose account equals `from` now carries `to`, and no other changes.
pub open spec fn account_cascade(
    pre: Seq<Transaction>,
    post: Seq<Transaction>,
    from: Seq<char>,
    to: String,
) -> bool {
    post.len() == pre.len() && (forall|k: int|
        0 <= k < pre.len() ==> #[trigger] post[k] == (if pre[k].account@ == from {
            tx_with_account(pre[k], to)
        } else {
            pre[k]
        }))
}

/// One transaction field edit, as the per-field semantics state it: a
/// malformed date payload leaves the date; unknown fields change
/// nothing.
pub open spec fn tx_edited(pre: Transaction, post: Transaction, field: Seq<char>, payload: &String) -> bool {
    if field == "date"@ {
        post == (Transaction {
            date: match crate::date::spec_parse_date(payload@) {
                Some(d) => d,
                Option::None => pre.date,
            },
            ..pre
        })
    } else if field == "amount"@ {
        post == (Transaction { amount: post.amount, ..pre }) && post.amount as int
            == crate::money::spec_try_into_money(payload@)
    } else if field == "account"@ {
        post == (Transaction { account: *payload, ..pre })
    } else if field == "category"@ {
        post == (Transaction { category: *payload, ..pre })
    } else if field == "description"@ {
        post == (Transaction { description: *payload, ..pre })
    } else {
        post == pre
    }
}

/// The rename cascade for category names.
pub open spec fn category_cascade(
    pre: Seq<Transaction>,
    post: Seq<Transaction>,
    from: Seq<char>,
    to: String,
) -> bool {
    post.len() == pre.len() && (forall|k: int|
        0 <= k < pre.len() ==> #[trigger] post[k] == (if pre[k].category@ == from {
            tx_with_category(pre[k], to)
        } else {
            pre[k]
        }))
}

/// The store after one add request.
pub open spec fn added(pre: Data, post: Data, cmd: AddCmd) -> bool {
    match cmd {
        AddCmd::Account { name } => post.accounts@.len() == pre.accounts@.len() + 1 && (forall|k: int|
            0 <= k < pre.accounts@.len() ==> #[trigger] post.accounts@[k]
                == pre.accounts@[k]) && post.accounts@.last().name == name
            && post.accounts@.last().value == 0 && post.categories == pre.categories && post.transactions == pre.transactions,
        AddCmd::Category { name, expected } => post.categories@.len() == pre.categories@.len() + 1 && (forall|k: int|
            0 <= k < pre.categories@.len() ==> #[trigger] post.categories@[k]
                == pre.categories@[k]) && post.categories@.last().name == name
            && post.categories@.last().expected as int == crate::money::spec_try_into_money(
            expected@,
        ) && post.categories@.last().actual == 0 && post.accounts == pre.accounts && post.transactions == pre.transactions,
        AddCmd::Transaction { date, amount, account, category, description } => post.transactions@.len() == pre.transactions@.len() + 1 && (forall|k: int|
            0 <= k < pre.transactions@.len() ==> #[trigger] post.transactions@[k] == pre.transactions@[k]) && post.transactions@.last().date == date && post.transactions@.last().amount as int
            == crate::money::spec_try_into_money(amount@) && post.transactions@.last().account == account && post.transactions@.last().category
            == category && post.transactions@.last().description == description
            && post.accounts == pre.accounts && post.categories == pre.categories,
        AddCmd::Transfer { date, amount, from_account, to_account, description } => post.transactions@.len() == pre.transactions@.len() + 2 && (forall|k: int|
            0 <= k < pre.transactions@.len() ==> #[trigger] post.transactions@[k] == pre.transactions@[k]) && {
            let n = pre.transactions@.len() as int;
            let leg_out = post.transactions@[n];
            let leg_in = post.transactions@[n + 1];
            leg_out.date == date && leg_in.date == date && leg_out.amount as int
                == -crate::money::spec_try_into_money(amount@) && leg_in.amount as int
                == crate::money::spec_try_into_money(amount@) && leg_out.account
                == from_account && leg_in.account == to_account && leg_out.category@
                == "Transfer"@ && leg_in.category@ == "Transfer"@ && leg_out.description
                == description && leg_in.description == description
        } && post.accounts == pre.accounts && post.categories == pre.categories,
    }
}

/// The store after one edit request: a no-op on a missed lookup, the
/// field set on the first match, renames cascaded.
pub open spec fn edited(pre: Data, post: Data, kind: DataType, query: Seq<char>, field: Seq<char>, payload: &String) -> bool {
    match kind {
        DataType::Account => {
            &&& (no_match(pre.account_ids(), query) ==> post == pre)
            &&& forall|j: int|
                is_first_match(pre.account_ids(), query, j) ==> (if field
                    == "name"@ {
                    post.accounts@ == pre.accounts@.update(
                        j,
                        Account {
                            id: pre.accounts@[j].id,
                            name: *payload,
                            value: pre.accounts@[j].value,
                        },
                    ) && post.categories == pre.categories
                        && account_cascade(
                        pre.transactions@,
                        post.transactions@,
                        pre.accounts@[j].name@,
                        *payload,
                    )
                } else if field == "value"@ {
                    post.accounts@.len() == pre.accounts@.len() && (
                    #[trigger] post.accounts@[j]).id == pre.accounts@[j].id
                        && post.accounts@[j].name == pre.accounts@[j].name
                        && post.accounts@[j].value as int
                        == crate::money::spec_try_into_money(payload@) && (forall|k: int|
                        0 <= k < pre.accounts@.len() && k != j ==> #[trigger] post.accounts@[k] == pre.accounts@[k]) && post.categories
                        == pre.categories && post.transactions == pre.transactions
                } else {
                    post == pre
                })
        },
        DataType::Category => {
            &&& (no_match(pre.category_ids(), query) ==> post == pre)
            &&& forall|j: int|
                is_first_match(pre.category_ids(), query, j) ==> (if field
                    == "name"@ {
                    post.categories@ == pre.categories@.update(
                        j,
                        Category {
                            id: pre.categories@[j].id,
                            name: *payload,
                            expected: pre.categories@[j].expected,
                            actual: pre.categories@[j].actual,
                        },
                    ) && post.accounts == pre.accounts && category_cascade(
                        pre.transactions@,
                        post.transactions@,
                        pre.categories@[j].name@,
                        *payload,
                    )
                } else if field == "expected"@ {
                    post.categories@.len() == pre.categories@.len() && (
                    #[trigger] post.categories@[j]).id == pre.categories@[j].id
                        && post.categories@[j].name == pre.categories@[j].name
                        && post.categories@[j].expected as int
                        == crate::money::spec_try_into_money(payload@) && post.categories@[j].actual == pre.categories@[j].actual && (
                    forall|k: int|
                        0 <= k < pre.categories@.len() && k != j ==> #[trigger] post.categories@[k] == pre.categories@[k]) && post.accounts == pre.accounts && post.transactions == pre.transactions
                } else {
                    post == pre
                })
        },
        DataType::Transaction => {
            &&& (no_match(pre.transaction_ids(), query) ==> post == pre)
            &&& forall|j: int|
                is_first_match(pre.transaction_ids(), query, j) ==> post.accounts == pre.accounts && post.categories == pre.categories && post.transactions@.len() == pre.transactions@.len() && (forall|k: int|
                    0 <= k < pre.transactions@.len() && k != j ==> #[trigger] post.transactions@[k] == pre.transactions@[k]) && tx_edited(
                    pre.transactions@[j],
                    (#[trigger] post.transactions@[j]),
                    field,
                    payload,
                )
        },
    }
}

/// The store after one delete request: a no-op on a missed lookup;
/// the first match is removed, and a removed account or category name
/// is tombstoned in the transactions.
pub open spec fn deleted(pre: Data, post: Data, kind: DataType, query: Seq<char>) -> bool {
    match kind {
        DataType::Account => {
            &&& (no_match(pre.account_ids(), query) ==> post == pre)
            &&& forall|j: int|
                is_first_match(pre.account_ids(), query, j) ==> post.accounts@ == pre.accounts@.remove(j) && post.categories
                    == pre.categories && post.transactions@.len() == pre.transactions@.len() && (forall|k: int|
                    0 <= k < pre.transactions@.len() ==> (if pre.transactions@[k].account@ == pre.accounts@[j].name@ {
                        (#[trigger] post.transactions@[k]).account@ == "<empty>"@
                            && post.transactions@[k] == tx_with_account(
                            pre.transactions@[k],
                            post.transactions@[k].account,
                        )
                    } else {
                        post.transactions@[k] == pre.transactions@[k]
                    }))
        },
        DataType::Category => {
            &&& (no_match(pre.category_ids(), query) ==> post == pre)
            &&& forall|j: int|
                is_first_match(pre.category_ids(), query, j) ==> post.categories@ == pre.categories@.remove(j) && post.accounts
                    == pre.accounts && post.transactions@.len() == pre.transactions@.len() && (forall|k: int|
                    0 <= k < pre.transactions@.len() ==> (if pre.transactions@[k].category@ == pre.categories@[j].name@ {
                        (#[trigger] post.transactions@[k]).category@ == "<empty>"@
                            && post.transactions@[k] == tx_with_category(
                            pre.transactions@[k],
                            post.transactions@[k].category,
                        )
                    } else {
                        post.transactions@[k] == pre.transactions@[k]
                    }))
        },
        DataType::Transaction => {
            &&& (no_match(pre.transaction_ids(), query) ==> post == pre)
            &&& forall|j: int|
                is_first_match(pre.transaction_ids(), query, j) ==> post.transactions@ == pre.transactions@.remove(j) && post.accounts
                    == pre.accounts && post.categories == pre.categories
        },
    }
}

/// The store after a successful recompute: values and actuals set from
/// the raw transaction list, everything else kept.
pub open spec fn updated(pre: Data, post: Data) -> bool {
    &&& recompute_ok(pre.accounts_fields(), pre.categories_fields(), pre.transactions_fields())
    &&& post.accounts_fields() == recompute_accounts(
        pre.accounts_fields(),
        pre.transactions_fields(),
    )
    &&& post.categories_fields() == recompute_categories(
        pre.categories_fields(),
        pre.transactions_fields(),
    )
    &&& post.transactions == pre.transactions
    &&& post.accounts@.len() == pre.accounts@.len()
    &&& post.categories@.len() == pre.categories@.len()
    &&& forall|i: int|
        0 <= i < pre.accounts@.len() ==> (#[trigger] post.accounts@[i]).id == pre.accounts@[i].id
    &&& forall|i: int|
        0 <= i < pre.categories@.len() ==> (#[trigger] post.categories@[i]).id
            == pre.categories@[i].id
}

/// The store and snapshot after a rollover: the snapshot encodes the
/// recomputed store with the closing period's transactions; in memory
/// those transactions are replaced by one carry-forward transaction per
/// account, dated `first`, categorized "Rollover", carrying the
/// account's recomputed value.
pub open spec fn rolled(pre: Data, post: Data, snap: Snapshot, first: Date, label: Seq<char>) -> bool {
    let ra = recompute_accounts(pre.accounts_fields(), pre.transactions_fields());
    let rc = recompute_categories(pre.categories_fields(), pre.transactions_fields());
    &&& recompute_ok(pre.accounts_fields(), pre.categories_fields(), pre.transactions_fields())
    &&& snap.accounts@ == encode_accounts(ra)
    &&& snap.categories@ == encode_categories(rc)
    &&& snap.transactions@ == encode_transactions(pre.transactions_fields())
    &&& post.accounts_fields() == ra
    &&& post.categories_fields() == rc
    &&& post.transactions@.len() == pre.accounts@.len()
    &&& forall|i: int|
        0 <= i < pre.accounts@.len() ==> (#[trigger] post.transactions@[i]).fields() == (TxFields {
            date: first,
            amount: ra[i].value,
            account: ra[i].name,
            category: "Rollover"@,
            description: "rolling into "@ + label,
        })
}


/// Sum of all account values.
pub open spec fn value_total(accs: Seq<AccountFields>) -> int
    decreases accs.len(),
{
    if accs.len() == 0 {
        0
    } else {
        value_total(accs.drop_last()) + accs.last().value
    }
}

/// Sums of the category targets and actuals, skipping the reserved
/// category "Rollover", as the overview presents them.
pub open spec fn expected_total(cats: Seq<CategoryFields>) -> int
    decreases cats.len(),
{
    if cats.len() == 0 {
        0
    } else {
        expected_total(cats.drop_last()) + (if cats.last().name == "Rollover"@ {
            0
        } else {
            cats.last().expected
        })
    }
}

/// See `expected_total`; the same sum over the actuals.
pub open spec fn actual_total(cats: Seq<CategoryFields>) -> int
    decreases cats.len(),
{
    if cats.len() == 0 {
        0
    } else {
        actual_total(cats.drop_last()) + (if cats.last().name == "Rollover"@ {
            0
        } else {
            cats.last().actual
        })
    }
}

impl Data {
    /// The persisted fields of the accounts, in order.
    pub open spec fn accounts_fields(&self) -> Seq<AccountFields> {
        self.accounts@.map_values(|a: Account| a.fields())
    }

    /// The persisted fields of the categories, in order.
    pub open spec fn categories_fields(&self) -> Seq<CategoryFields> {
        self.categories@.map_values(|c: Category| c.fields())
    }

    /// The persisted fields of the transactions, in order.
    pub open spec fn transactions_fields(&self) -> Seq<TxFields> {
        self.transactions@.map_values(|t: Transaction| t.fields())
    }

    /// Every stored amount is representable and every date real.
    pub open spec fn inv(&self) -> bool {
        &&& forall|i: int| 0 <= i < self.accounts@.len() ==> (#[trigger] self.accounts@[i]).wf()
        &&& forall|i: int|
            0 <= i < self.categories@.len() ==> (#[trigger] self.categories@[i]).wf()
        &&& forall|i: int|
            0 <= i < self.transactions@.len() ==> (#[trigger] self.transactions@[i]).wf()
    }

    /// An empty store.
    pub fn new() -> (r: Data)
        ensures
            r.accounts@.len() == 0,
            r.categories@.len() == 0,
            r.transactions@.len() == 0,
            r.inv(),
    {
        Data { accounts: Vec::new(), categories: Vec::new(), transactions: Vec::new() }
    }

    /// Replaces the accounts with those read from the file text.
    pub fn build_accounts(&mut self, contents: String)
        ensures
            final(self).accounts_fields() == decode_accounts(contents@),
            final(self).categories == old(self).categories,
            final(self).transactions == old(self).transactions,
            old(self).inv() ==> final(self).inv(),
    {
        let lines = split_all(contents.as_str(), '\n');
        let ghost lseq = lines@.map_values(|l: String| l@);
        proof {
            assert(lseq == split_cells(contents@, '\n'));
        }
        let mut accounts: Vec<Account> = Vec::new();
        let n = lines.len();
        let mut i: usize = 0;
        let mut stop = false;
        proof {
            assert(accounts@.map_values(|a: Account| a.fields()) =~= Seq::<
                AccountFields,
            >::empty());
            assert(lseq.skip(0) =~= lseq);
        }
        while i < n && !stop
            invariant
                n == lines@.len(),
                lseq == lines@.map_values(|l: String| l@),
                0 <= i <= n,
                forall|k: int| 0 <= k < accounts@.len() ==> (#[trigger] accounts@[k]).wf(),
                decode_account_lines(lseq) == accounts@.map_values(|a: Account| a.fields()) + (
                if stop {
                    Seq::<AccountFields>::empty()
                } else {
                    decode_account_lines(lseq.skip(i as int))
                }),
            decreases n - i, (if stop {
                0int
            } else {
                1int
            }),
        {
            let line = &lines[i];
            let ghost prev = accounts@;
            if line.unicode_len() == 0 {
                stop = true;
                proof {
                    assert(lseq.skip(i as int).first() == lseq[i as int]);
                    assert(decode_account_lines(lseq.skip(i as int)) =~= Seq::<
                        AccountFields,
                    >::empty());
                    assert(prev.map_values(|a: Account| a.fields()) + Seq::<
                        AccountFields,
                    >::empty() =~= prev.map_values(|a: Account| a.fields()));
                }
            } else {
                let cells = split_all(line.as_str(), ',');
                let c0: Option<&str> = if cells.len() >= 1 {
                    Some(cells[0].as_str())
                } else {
                    Option::None
                };
                let c1: Option<&str> = if cells.len() >= 2 {
                    Some(cells[1].as_str())
                } else {
                    Option::None
                };
                let acc = Account::from_cls(c0, c1);
                accounts.push(acc);
                proof {
                    crate::text::lemma_split_cells_len(line@, ',');
                    assert(cells@.map_values(|c: String| c@) == split_cells(line@, ','));
                    assert(cells@.len() >= 1);
                    assert(split_cells(line@, ',')[0] == cells@[0]@);
                    if cells@.len() >= 2 {
                        assert(split_cells(line@, ',')[1] == cells@[1]@);
                    }
                    assert(acc.fields() == decode_account_line(line@));
                    let rem = lseq.skip(i as int);
                    assert(rem.first() == lseq[i as int]);
                    assert(rem.first() == line@);
                    assert(rem.first().len() != 0);
                    assert(rem.drop_first() =~= lseq.skip(i + 1));
                    assert(decode_account_lines(rem) == seq![decode_account_line(line@)]
                        + decode_account_lines(lseq.skip(i + 1)));
                    assert(accounts@.map_values(|a: Account| a.fields()) =~= prev.map_values(
                        |a: Account| a.fields(),
                    ).push(acc.fields()));
                    assert(prev.map_values(|a: Account| a.fields()) + (seq![
                        decode_account_line(line@),
                    ] + decode_account_lines(lseq.skip(i + 1))) =~= accounts@.map_values(
                        |a: Account| a.fields(),
                    ) + decode_account_lines(lseq.skip(i + 1)));
                }
                i += 1;
            }
        }
        proof {
            if !stop {
                assert(i == n);
                assert(lseq.skip(n as int) =~= Seq::<Seq<char>>::empty());
                assert(decode_account_lines(lseq.skip(n as int)) =~= Seq::<AccountFields>::empty());
            }
            assert(decode_account_lines(lseq) =~= accounts@.map_values(|a: Account| a.fields()));
        }
        self.accounts = accounts;
    }

    /// Replaces the categories with those read from the file text.
    pub fn build_categories(&mut self, contents: String)
        ensures
            final(self).categories_fields() == decode_categories(contents@),
            final(self).accounts == old(self).accounts,
            final(self).transactions == old(self).transactions,
            old(self).inv() ==> final(self).inv(),
    {
        let lines = split_all(contents.as_str(), '\n');
        let ghost lseq = lines@.map_values(|l: String| l@);
        proof {
            assert(lseq == split_cells(contents@, '\n'));
        }
        let mut categories: Vec<Category> = Vec::new();
        let n = lines.len();
        let mut i: usize = 0;
        let mut stop = false;
        proof {
            assert(categories@.map_values(|c: Category| c.fields()) =~= Seq::<
                CategoryFields,
            >::empty());
            assert(lseq.skip(0) =~= lseq);
        }
        while i < n && !stop
            invariant
                n == lines@.len(),
                lseq == lines@.map_values(|l: String| l@),
                0 <= i <= n,
                forall|k: int| 0 <= k < categories@.len() ==> (#[trigger] categories@[k]).wf(),
                decode_category_lines(lseq) == categories@.map_values(|c: Category| c.fields()) + (
                if stop {
                    Seq::<CategoryFields>::empty()
                } else {
                    decode_category_lines(lseq.skip(i as int))
                }),
            decreases n - i, (if stop {
                0int
            } else {
                1int
            }),
        {
            let line = &lines[i];
            let ghost prev = categories@;
            if line.unicode_len() == 0 {
                stop = true;
                proof {
                    assert(lseq.skip(i as int).first() == lseq[i as int]);
                    assert(decode_category_lines(lseq.skip(i as int)) =~= Seq::<
                        CategoryFields,
                    >::empty());
                    assert(prev.map_values(|c: Category| c.fields()) + Seq::<
                        CategoryFields,
                    >::empty() =~= prev.map_values(|c: Category| c.fields()));
                }
            } else {
                let cells = split_all(line.as_str(), ',');
                let c0: Option<&str> = if cells.len() >= 1 {
                    Some(cells[0].as_str())
                } else {
                    Option::None
                };
                let c1: Option<&str> = if cells.len() >= 2 {
                    Some(cells[1].as_str())
                } else {
                    Option::None
                };
                let c2: Option<&str> = if cells.len() >= 3 {
                    Some(cells[2].as_str())
                } else {
                    Option::None
                };
                let cat = Category::from_cls(c0, c1, c2);
                categories.push(cat);
                proof {
                    crate::text::lemma_split_cells_len(line@, ',');
                    assert(cells@.map_values(|c: String| c@) == split_cells(line@, ','));
                    assert(cells@.len() >= 1);
                    assert(split_cells(line@, ',')[0] == cells@[0]@);
                    if cells@.len() >= 2 {
                        assert(split_cells(line@, ',')[1] == cells@[1]@);
                    }
                    if cells@.len() >= 3 {
                        assert(split_cells(line@, ',')[2] == cells@[2]@);
                    }
                    assert(cat.fields() == decode_category_line(line@));
                    let rem = lseq.skip(i as int);
                    assert(rem.first() == lseq[i as int]);
                    assert(rem.first() == line@);
                    assert(rem.first().len() != 0);
                    assert(rem.drop_first() =~= lseq.skip(i + 1));
                    assert(decode_category_lines(rem) == seq![decode_category_line(line@)]
                        + decode_category_lines(lseq.skip(i + 1)));
                    assert(categories@.map_values(|c: Category| c.fields()) =~= prev.map_values(
                        |c: Category| c.fields(),
                    ).push(cat.fields()));
                    assert(prev.map_values(|c: Category| c.fields()) + (seq![
                        decode_category_line(line@),
                    ] + decode_category_lines(lseq.skip(i + 1))) =~= categories@.map_values(
                        |c: Category| c.fields(),
                    ) + decode_category_lines(lseq.skip(i + 1)));
                }
                i += 1;
            }
        }
        proof {
            if !stop {
                assert(i == n);
                assert(lseq.skip(n as int) =~= Seq::<Seq<char>>::empty());
                assert(decode_category_lines(lseq.skip(n as int)) =~= Seq::<
                    CategoryFields,
                >::empty());
            }
            assert(decode_category_lines(lseq) =~= categories@.map_values(
                |c: Category| c.fields(),
            ));
        }
        self.categories = categories;
    }

    /// Replaces the transactions with those read from the file text;
    /// a malformed date fails the load and leaves the store unchanged.
    pub fn build_transactions(&mut self, contents: String) -> (r: Result<(), LedgerError>)
        ensures
            match r {
                Ok(()) => decode_transactions(contents@) == Some(final(self).transactions_fields())
                    && final(self).accounts == old(self).accounts && final(self).categories == old(self).categories && (old(self).inv() ==> final(self).inv()),
                Err(e) => e == LedgerError::BadDate && decode_transactions(contents@) is None
                    && *final(self) == *old(self),
            },
    {
        let lines = split_all(contents.as_str(), '\n');
        let ghost lseq = lines@.map_values(|l: String| l@);
        proof {
            assert(lseq == split_cells(contents@, '\n'));
        }
        let mut transactions: Vec<Transaction> = Vec::new();
        let n = lines.len();
        let mut i: usize = 0;
        let mut stop = false;
        proof {
            assert(transactions@.map_values(|t: Transaction| t.fields()) =~= Seq::<
                TxFields,
            >::empty());
            assert(lseq.skip(0) =~= lseq);
        }
        while i < n && !stop
            invariant
                n == lines@.len(),
                lseq == lines@.map_values(|l: String| l@),
                lseq == split_cells(contents@, '\n'),
                0 <= i <= n,
                forall|k: int| 0 <= k < transactions@.len() ==> (#[trigger] transactions@[k]).wf(),
                decode_transaction_lines(lseq) == (match decode_transaction_lines(
                    if stop {
                        Seq::<Seq<char>>::empty()
                    } else {
                        lseq.skip(i as int)
                    },
                ) {
                    Some(rest) => Some(
                        transactions@.map_values(|t: Transaction| t.fields()) + rest,
                    ),
                    Option::None => Option::None::<Seq<TxFields>>,
                }),
            decreases n - i, (if stop {
                0int
            } else {
                1int
            }),
        {
            let line = &lines[i];
            let ghost prev = transactions@;
            if line.unicode_len() == 0 {
                stop = true;
                proof {
                    assert(lseq.skip(i as int).first() == lseq[i as int]);
                    assert(decode_transaction_lines(lseq.skip(i as int)) == Some(Seq::<
                        TxFields,
                    >::empty()));
                    assert(decode_transaction_lines(Seq::<Seq<char>>::empty()) == Some(Seq::<
                        TxFields,
                    >::empty()));
                    assert(prev.map_values(|t: Transaction| t.fields()) + Seq::<TxFields>::empty()
                        =~= prev.map_values(|t: Transaction| t.fields()));
                }
            } else {
                let cells = split_all(line.as_str(), ',');
                let c0: Option<&str> = if cells.len() >= 1 {
                    Some(cells[0].as_str())
                } else {
                    Option::None
                };
                let c1: Option<&str> = if cells.len() >= 2 {
                    Some(cells[1].as_str())
                } else {
                    Option::None
                };
                let c2: Option<&str> = if cells.len() >= 3 {
                    Some(cells[2].as_str())
                } else {
                    Option::None
                };
                let c3: Option<&str> = if cells.len() >= 4 {
                    Some(cells[3].as_str())
                } else {
                    Option::None
                };
                let c4: Option<&str> = if cells.len() >= 5 {
                    Some(cells[4].as_str())
                } else {
                    Option::None
                };
                proof {
                    crate::text::lemma_split_cells_len(line@, ',');
                    assert(cells@.map_values(|c: String| c@) == split_cells(line@, ','));
                    assert(cells@.len() >= 1);
                    assert(split_cells(line@, ',')[0] == cells@[0]@);
                    if cells@.len() >= 2 {
                        assert(split_cells(line@, ',')[1] == cells@[1]@);
                    }
                    if cells@.len() >= 3 {
                        assert(split_cells(line@, ',')[2] == cells@[2]@);
                    }
                    if cells@.len() >= 4 {
                        assert(split_cells(line@, ',')[3] == cells@[3]@);
                    }
                    if cells@.len() >= 5 {
                        assert(split_cells(line@, ',')[4] == cells@[4]@);
                    }
                }
                let ghost rem = lseq.skip(i as int);
                proof {
                    assert(rem.first() == lseq[i as int]);
                    assert(rem.first() == line@);
                    assert(rem.first().len() != 0);
                    assert(rem.drop_first() =~= lseq.skip(i + 1));
                }
                match Transaction::from_cls(c0, c1, c2, c3, c4) {
                    Some(tx) => {
                        transactions.push(tx);
                        proof {
                            assert(decode_transaction_line(line@) == Some(tx.fields()));
                            assert(transactions@.map_values(|t: Transaction| t.fields())
                                =~= prev.map_values(|t: Transaction| t.fields()).push(tx.fields()));
                            if decode_transaction_lines(lseq.skip(i + 1)) is Some {
                                let rest = decode_transaction_lines(lseq.skip(i + 1))->Some_0;
                                assert(prev.map_values(|t: Transaction| t.fields()) + (seq![
                                    tx.fields(),
                                ] + rest) =~= transactions@.map_values(|t: Transaction| t.fields())
                                    + rest);
                            }
                        }
                        i += 1;
                    },
                    Option::None => {
                        proof {
                            assert(decode_transaction_line(line@) is None);
                            assert(decode_transaction_lines(rem) is None);
                        }
                        return Err(LedgerError::BadDate);
                    },
                }
            }
        }
        proof {
            if !stop {
                assert(i == n);
                assert(lseq.skip(n as int) =~= Seq::<Seq<char>>::empty());
            }
            assert(decode_transaction_lines(lseq) == Some(
                transactions@.map_values(|t: Transaction| t.fields()),
            ));
        }
        self.transactions = transactions;
        Ok(())
    }

    /// Encodes the collection the path's file name selects; an
    /// unexpected name yields the empty text.
    pub fn to_cls(&self, path: &String) -> (r: String)
        requires
            self.inv(),
        ensures
            r@ == (if crate::text::spec_ends_with(path@, "Account.cls"@) {
                encode_accounts(self.accounts_fields())
            } else if crate::text::spec_ends_with(path@, "Category.cls"@) {
                encode_categories(self.categories_fields())
            } else if crate::text::spec_ends_with(path@, "Transaction.cls"@) {
                encode_transactions(self.transactions_fields())
            } else {
                Seq::<char>::empty()
            }),
    {
        if str_ends_with(path.as_str(), "Account.cls") {
            accounts_to_cls(&self.accounts)
        } else if str_ends_with(path.as_str(), "Category.cls") {
            categories_to_cls(&self.categories)
        } else if str_ends_with(path.as_str(), "Transaction.cls") {
            transactions_to_cls(&self.transactions)
        } else {
            String::new()
        }
    }

    /// Recompute: folds the raw transaction list into every account
    /// value and every category actual, rounding each total to cents.
    /// A name no transaction references gets zero like any other sum.
    /// Fails, changing nothing, exactly when a rounded total cannot be
    /// stored.
    pub fn update(&mut self) -> (r: Result<(), LedgerError>)
        requires
            old(self).inv(),
        ensures
            final(self).inv(),
            match r {
                Ok(()) => updated(*old(self), *final(self)),
                Err(e) => e == LedgerError::Overflow && !recompute_ok(
                    old(self).accounts_fields(),
                    old(self).categories_fields(),
                    old(self).transactions_fields(),
                ) && *final(self) == *old(self),
            },
    {
        let ghost txs = self.transactions_fields();
        let ghost accs = self.accounts_fields();
        let ghost cats = self.categories_fields();
        let na = self.accounts.len();
        let nc = self.categories.len();
        let mut new_values: Vec<i64> = Vec::new();
        let mut i: usize = 0;
        while i < na
            invariant
                old(self) == self,
                old(self).inv(),
                txs == self.transactions_fields(),
                accs == self.accounts_fields(),
                cats == self.categories_fields(),
                na == self.accounts@.len(),
                0 <= i <= na,
                new_values@.len() == i,
                forall|k: int|
                    0 <= k < i ==> #[trigger] new_values@[k] as int == round_cent(
                        acc_sum(txs, accs[k].name),
                    ) && money_in_range(new_values@[k] as int),
            decreases na - i,
        {
            let nt = self.transactions.len();
            let s = sum_for_account(&self.transactions, self.accounts[i].get_name());
            proof {
                assert(nt * (MONEY_MAX as int) < (SUM_BOUND as int))
                    by (nonlinear_arith)
                    requires
                        0 <= nt <= 0xffff_ffff_ffff_ffff,
                ;
            }
            let rounded = round_cent_i128(s);
            if rounded > MONEY_MAX as i128 || rounded < -MONEY_MAX as i128 {
                proof {
                    assert(accs[i as int].name == self.accounts@[i as int].name@);
                    assert(!money_in_range(round_cent(acc_sum(txs, accs[i as int].name))));
                }
                return Err(LedgerError::Overflow);
            }
            new_values.push(rounded as i64);
            proof {
                assert(accs[i as int].name == self.accounts@[i as int].name@);
            }
            i += 1;
        }
        let mut j: usize = 0;
        let mut new_actuals: Vec<i64> = Vec::new();
        while j < nc
            invariant
                old(self) == self,
                old(self).inv(),
                txs == self.transactions_fields(),
                accs == self.accounts_fields(),
                cats == self.categories_fields(),
                nc == self.categories@.len(),
                0 <= j <= nc,
                new_actuals@.len() == j,
                forall|k: int|
                    0 <= k < j ==> #[trigger] new_actuals@[k] as int == round_cent(
                        cat_sum(txs, cats[k].name),
                    ) && money_in_range(new_actuals@[k] as int),
            decreases nc - j,
        {
            let nt = self.transactions.len();
            let s = sum_for_category(&self.transactions, self.categories[j].get_name());
            proof {
                assert(nt * (MONEY_MAX as int) < (SUM_BOUND as int))
                    by (nonlinear_arith)
                    requires
                        0 <= nt <= 0xffff_ffff_ffff_ffff,
                ;
            }
            let rounded = round_cent_i128(s);
            if rounded > MONEY_MAX as i128 || rounded < -MONEY_MAX as i128 {
                proof {
                    assert(cats[j as int].name == self.categories@[j as int].name@);
                    assert(!money_in_range(round_cent(cat_sum(txs, cats[j as int].name))));
                }
                return Err(LedgerError::Overflow);
            }
            new_actuals.push(rounded as i64);
            proof {
                assert(cats[j as int].name == self.categories@[j as int].name@);
            }
            j += 1;
        }
        let mut i: usize = 0;
        while i < na
            invariant
                na == self.accounts@.len(),
                new_values@.len() == na,
                0 <= i <= na,
                forall|k: int|
                    0 <= k < na ==> #[trigger] new_values@[k] as int == round_cent(
                        acc_sum(txs, accs[k].name),
                    ) && money_in_range(new_values@[k] as int),
                self.categories == old(self).categories,
                self.transactions == old(self).transactions,
                accs == old(self).accounts_fields(),
                forall|k: int|
                    0 <= k < na ==> (#[trigger] self.accounts@[k]).id == old(self).accounts@[k].id
                        && self.accounts@[k].name == old(self).accounts@[k].name,
                forall|k: int|
                    0 <= k < i ==> (#[trigger] self.accounts@[k]).value == new_values@[k],
                forall|k: int|
                    i <= k < na ==> (#[trigger] self.accounts@[k]).value == old(self).accounts@[k].value,
            decreases na - i,
        {
            let v = new_values[i];
            self.accounts[i].set_value(v);
            i += 1;
        }
        let ghost mid_accounts = self.accounts;
        let mut j: usize = 0;
        while j < nc
            invariant
                nc == self.categories@.len(),
                new_actuals@.len() == nc,
                0 <= j <= nc,
                forall|k: int|
                    0 <= k < nc ==> #[trigger] new_actuals@[k] as int == round_cent(
                        cat_sum(txs, cats[k].name),
                    ) && money_in_range(new_actuals@[k] as int),
                self.accounts == mid_accounts,
                self.transactions == old(self).transactions,
                cats == old(self).categories_fields(),
                forall|k: int|
                    0 <= k < nc ==> (#[trigger] self.categories@[k]).id == old(self).categories@[k].id && self.categories@[k].name == old(self).categories@[k].name
                        && self.categories@[k].expected == old(self).categories@[k].expected,
                forall|k: int|
                    0 <= k < j ==> (#[trigger] self.categories@[k]).actual == new_actuals@[k],
                forall|k: int|
                    j <= k < nc ==> (#[trigger] self.categories@[k]).actual == old(self).categories@[k].actual,
            decreases nc - j,
        {
            let v = new_actuals[j];
            self.categories[j].set_actual(v);
            j += 1;
        }
        proof {
            assert(final(self).accounts_fields() =~= recompute_accounts(accs, txs));
            assert(final(self).categories_fields() =~= recompute_categories(cats, txs));
            assert forall|k: int| 0 <= k < accs.len() implies money_in_range(
                round_cent(acc_sum(txs, (#[trigger] accs[k]).name)),
            ) by {
                assert(new_values@[k] as int == round_cent(acc_sum(txs, accs[k].name)));
            }
            assert forall|k: int| 0 <= k < cats.len() implies money_in_range(
                round_cent(cat_sum(txs, (#[trigger] cats[k]).name)),
            ) by {
                assert(new_actuals@[k] as int == round_cent(cat_sum(txs, cats[k].name)));
            }
            assert(recompute_ok(accs, cats, txs));
        }
        Ok(())
    }

    /// The identifiers of the accounts, in order.
    pub open spec fn account_ids(&self) -> Seq<u128> {
        self.accounts@.map_values(|a: Account| a.id)
    }

    /// The identifiers of the categories, in order.
    pub open spec fn category_ids(&self) -> Seq<u128> {
        self.categories@.map_values(|c: Category| c.id)
    }

    /// The identifiers of the transactions, in order.
    pub open spec fn transaction_ids(&self) -> Seq<u128> {
        self.transactions@.map_values(|t: Transaction| t.id)
    }

    /// Renames the account at `i` and cascades the change: every
    /// transaction that carried the old name carries the new one, and
    /// no other transaction changes.
    pub fn rename_account(&mut self, i: usize, new_name: &String)
        requires
            old(self).inv(),
            i < old(self).accounts@.len(),
        ensures
            final(self).inv(),
            final(self).accounts@ == old(self).accounts@.update(
                i as int,
                Account {
                    id: old(self).accounts@[i as int].id,
                    name: *new_name,
                    value: old(self).accounts@[i as int].value,
                },
            ),
            final(self).categories == old(self).categories,
            account_cascade(
                old(self).transactions@,
                final(self).transactions@,
                old(self).accounts@[i as int].name@,
                *new_name,
            ),
    {
        let old_name = self.accounts[i].get_name().to_owned();
        self.accounts[i].set_name(new_name.clone());
        proof {
            assert(self.accounts@ =~= old(self).accounts@.update(
                i as int,
                Account {
                    id: old(self).accounts@[i as int].id,
                    name: *new_name,
                    value: old(self).accounts@[i as int].value,
                },
            ));
        }
        let n = self.transactions.len();
        let mut k: usize = 0;
        while k < n
            invariant
                old(self).inv(),
                n == self.transactions@.len(),
                n == old(self).transactions@.len(),
                0 <= k <= n,
                old_name@ == old(self).accounts@[i as int].name@,
                i < old(self).accounts@.len(),
                self.accounts@ == old(self).accounts@.update(
                    i as int,
                    Account {
                        id: old(self).accounts@[i as int].id,
                        name: *new_name,
                        value: old(self).accounts@[i as int].value,
                    },
                ),
                self.categories == old(self).categories,
                forall|t: int|
                    0 <= t < k ==> #[trigger] self.transactions@[t] == (if old(self).transactions@[t].account@ == old_name@ {
                        tx_with_account(old(self).transactions@[t], *new_name)
                    } else {
                        old(self).transactions@[t]
                    }),
                forall|t: int|
                    k <= t < n ==> #[trigger] self.transactions@[t] == old(self).transactions@[t],
            decreases n - k,
        {
            if str_eq(self.transactions[k].get_account(), old_name.as_str()) {
                self.transactions[k].set_account(new_name.clone());
            }
            k += 1;
        }
        proof {
            assert forall|t: int| 0 <= t < final(self).transactions@.len() implies (
            #[trigger] final(self).transactions@[t]).wf() by {
                if old(self).transactions@[t].account@ == old_name@ {
                    assert(final(self).transactions@[t].amount == old(self).transactions@[t].amount);
                } else {
                    assert(final(self).transactions@[t] == old(self).transactions@[t]);
                }
            }
        }
    }

    /// Renames the category at `i` and cascades the change into the
    /// transactions' category names.
    pub fn rename_category(&mut self, i: usize, new_name: &String)
        requires
            old(self).inv(),
            i < old(self).categories@.len(),
        ensures
            final(self).inv(),
            final(self).categories@ == old(self).categories@.update(
                i as int,
                Category {
                    id: old(self).categories@[i as int].id,
                    name: *new_name,
                    expected: old(self).categories@[i as int].expected,
                    actual: old(self).categories@[i as int].actual,
                },
            ),
            final(self).accounts == old(self).accounts,
            category_cascade(
                old(self).transactions@,
                final(self).transactions@,
                old(self).categories@[i as int].name@,
                *new_name,
            ),
    {
        let old_name = self.categories[i].get_name().to_owned();
        self.categories[i].set_name(new_name.clone());
        proof {
            assert(self.categories@ =~= old(self).categories@.update(
                i as int,
                Category {
                    id: old(self).categories@[i as int].id,
                    name: *new_name,
                    expected: old(self).categories@[i as int].expected,
                    actual: old(self).categories@[i as int].actual,
                },
            ));
        }
        let n = self.transactions.len();
        let mut k: usize = 0;
        while k < n
            invariant
                old(self).inv(),
                n == self.transactions@.len(),
                n == old(self).transactions@.len(),
                0 <= k <= n,
                old_name@ == old(self).categories@[i as int].name@,
                i < old(self).categories@.len(),
                self.categories@ == old(self).categories@.update(
                    i as int,
                    Category {
                        id: old(self).categories@[i as int].id,
                        name: *new_name,
                        expected: old(self).categories@[i as int].expected,
                        actual: old(self).categories@[i as int].actual,
                    },
                ),
                self.accounts == old(self).accounts,
                forall|t: int|
                    0 <= t < k ==> #[trigger] self.transactions@[t] == (if old(self).transactions@[t].category@ == old_name@ {
                        tx_with_category(old(self).transactions@[t], *new_name)
                    } else {
                        old(self).transactions@[t]
                    }),
                forall|t: int|
                    k <= t < n ==> #[trigger] self.transactions@[t] == old(self).transactions@[t],
            decreases n - k,
        {
            if str_eq(self.transactions[k].get_category(), old_name.as_str()) {
                self.transactions[k].set_category(new_name.clone());
            }
            k += 1;
        }
        proof {
            assert forall|t: int| 0 <= t < final(self).transactions@.len() implies (
            #[trigger] final(self).transactions@[t]).wf() by {
                if old(self).transactions@[t].category@ == old_name@ {
                    assert(final(self).transactions@[t].amount == old(self).transactions@[t].amount);
                } else {
                    assert(final(self).transactions@[t] == old(self).transactions@[t]);
                }
            }
        }
    }

    /// Deletes the account at `i`, tombstoning its name: every
    /// transaction that carried it now carries the sentinel "<empty>";
    /// the transactions themselves all remain.
    pub fn delete_account(&mut self, i: usize)
        requires
            old(self).inv(),
            i < old(self).accounts@.len(),
        ensures
            final(self).inv(),
            final(self).accounts@ == old(self).accounts@.remove(i as int),
            final(self).categories == old(self).categories,
            final(self).transactions@.len() == old(self).transactions@.len(),
            forall|t: int|
                0 <= t < old(self).transactions@.len() ==> #[trigger] final(self).transactions@[t]
                    == (if old(self).transactions@[t].account@ == old(self).accounts@[i as int].name@ {
                    tx_with_account(old(self).transactions@[t], final(self).transactions@[t].account)
                } else {
                    old(self).transactions@[t]
                }),
            forall|t: int|
                0 <= t < old(self).transactions@.len() && old(self).transactions@[t].account@ == old(self).accounts@[i as int].name@ ==> (#[trigger] final(self).transactions@[t]).account@
                    == "<empty>"@,
    {
        let deleted_name = self.accounts[i].get_name().to_owned();
        let n = self.transactions.len();
        let mut k: usize = 0;
        while k < n
            invariant
                old(self).inv(),
                n == self.transactions@.len(),
                n == old(self).transactions@.len(),
                0 <= k <= n,
                i < old(self).accounts@.len(),
                deleted_name@ == old(self).accounts@[i as int].name@,
                self.accounts == old(self).accounts,
                self.categories == old(self).categories,
                forall|t: int|
                    0 <= t < k ==> #[trigger] self.transactions@[t] == (if old(self).transactions@[t].account@ == deleted_name@ {
                        tx_with_account(old(self).transactions@[t], self.transactions@[t].account)
                    } else {
                        old(self).transactions@[t]
                    }),
                forall|t: int|
                    0 <= t < k && old(self).transactions@[t].account@ == deleted_name@ ==> (
                    #[trigger] self.transactions@[t]).account@ == "<empty>"@,
                forall|t: int|
                    k <= t < n ==> #[trigger] self.transactions@[t] == old(self).transactions@[t],
            decreases n - k,
        {
            if str_eq(self.transactions[k].get_account(), deleted_name.as_str()) {
                self.transactions[k].set_account(String::from_str("<empty>"));
            }
            k += 1;
        }
        self.accounts.remove(i);
        proof {
            assert forall|t: int| 0 <= t < final(self).transactions@.len() implies (
            #[trigger] final(self).transactions@[t]).wf() by {
                if old(self).transactions@[t].account@ == deleted_name@ {
                    assert(final(self).transactions@[t].amount == old(self).transactions@[t].amount);
                } else {
                    assert(final(self).transactions@[t] == old(self).transactions@[t]);
                }
            }
            assert forall|t: int| 0 <= t < final(self).accounts@.len() implies (#[trigger] final(self).accounts@[t]).wf() by {
                if t < i {
                    assert(final(self).accounts@[t] == old(self).accounts@[t]);
                } else {
                    assert(final(self).accounts@[t] == old(self).accounts@[t + 1]);
                }
            }
        }
    }

    /// Deletes the category at `i`, tombstoning its name in the
    /// transactions with the sentinel "<empty>".
    pub fn delete_category(&mut self, i: usize)
        requires
            old(self).inv(),
            i < old(self).categories@.len(),
        ensures
            final(self).inv(),
            final(self).categories@ == old(self).categories@.remove(i as int),
            final(self).accounts == old(self).accounts,
            final(self).transactions@.len() == old(self).transactions@.len(),
            forall|t: int|
                0 <= t < old(self).transactions@.len() ==> #[trigger] final(self).transactions@[t]
                    == (if old(self).transactions@[t].category@ == old(self).categories@[i as int].name@ {
                    tx_with_category(
                        old(self).transactions@[t],
                        final(self).transactions@[t].category,
                    )
                } else {
                    old(self).transactions@[t]
                }),
            forall|t: int|
                0 <= t < old(self).transactions@.len() && old(self).transactions@[t].category@
                    == old(self).categories@[i as int].name@ ==> (#[trigger] final(self).transactions@[t]).category@ == "<empty>"@,
    {
        let deleted_name = self.categories[i].get_name().to_owned();
        let n = self.transactions.len();
        let mut k: usize = 0;
        while k < n
            invariant
                old(self).inv(),
                n == self.transactions@.len(),
                n == old(self).transactions@.len(),
                0 <= k <= n,
                i < old(self).categories@.len(),
                deleted_name@ == old(self).categories@[i as int].name@,
                self.accounts == old(self).accounts,
                self.categories == old(self).categories,
                forall|t: int|
                    0 <= t < k ==> #[trigger] self.transactions@[t] == (if old(self).transactions@[t].category@ == deleted_name@ {
                        tx_with_category(old(self).transactions@[t], self.transactions@[t].category)
                    } else {
                        old(self).transactions@[t]
                    }),
                forall|t: int|
                    0 <= t < k && old(self).transactions@[t].category@ == deleted_name@ ==> (
                    #[trigger] self.transactions@[t]).category@ == "<empty>"@,
                forall|t: int|
                    k <= t < n ==> #[trigger] self.transactions@[t] == old(self).transactions@[t],
            decreases n - k,
        {
            if str_eq(self.transactions[k].get_category(), deleted_name.as_str()) {
                self.transactions[k].set_category(String::from_str("<empty>"));
            }
            k += 1;
        }
        self.categories.remove(i);
        proof {
            assert forall|t: int| 0 <= t < final(self).transactions@.len() implies (
            #[trigger] final(self).transactions@[t]).wf() by {
                if old(self).transactions@[t].category@ == deleted_name@ {
                    assert(final(self).transactions@[t].amount == old(self).transactions@[t].amount);
                } else {
                    assert(final(self).transactions@[t] == old(self).transactions@[t]);
                }
            }
            assert forall|t: int| 0 <= t < final(self).categories@.len() implies (#[trigger] final(self).categories@[t]).wf() by {
                if t < i {
                    assert(final(self).categories@[t] == old(self).categories@[t]);
                } else {
                    assert(final(self).categories@[t] == old(self).categories@[t + 1]);
                }
            }
        }
    }

    /// Appends one entity built from the request; a transfer appends
    /// its two legs.
    pub fn add(&mut self, cmd: AddCmd)
        requires
            old(self).inv(),
            match cmd {
                AddCmd::Transaction { date, .. } => date_valid(date),
                AddCmd::Transfer { date, .. } => date_valid(date),
                _ => true,
            },
        ensures
            final(self).inv(),
            added(*old(self), *final(self), cmd),
    {
        match cmd {
            AddCmd::Account { name } => {
                self.accounts.push(Account::new(name));
            },
            AddCmd::Category { name, expected } => {
                self.categories.push(Category::new(name, &expected));
            },
            AddCmd::Transaction { date, amount, account, category, description } => {
                self.transactions.push(
                    Transaction::new(date, &amount, account, category, description),
                );
            },
            AddCmd::Transfer { date, amount, from_account, to_account, description } => {
                let legs = Transaction::new_transfer(
                    date,
                    &amount,
                    from_account,
                    to_account,
                    description,
                );
                self.transactions.push(legs.0);
                self.transactions.push(legs.1);
            },
        }
    }

    /// Applies one field edit to the first entity of the kind whose
    /// identifier display contains the query; with no match the edit is
    /// a silent no-op. Renames cascade into the transactions.
    pub fn edit(&mut self, kind: DataType, query: &String, field: &String, payload: &String)
        requires
            old(self).inv(),
            old(self).accounts@.len() < 0x8000_0000,
            old(self).categories@.len() < 0x8000_0000,
            old(self).transactions@.len() < 0x8000_0000,
        ensures
            final(self).inv(),
            edited(*old(self), *final(self), kind, query@, field@, payload),
    {
        match kind {
            DataType::Account => {
                let idx = Account::find(&self.accounts, query.as_str());
                proof {
                    assert(old(self).account_ids().len() == old(self).accounts@.len());
                    assert(forall|k: int|
                        0 <= k < old(self).accounts@.len() ==> #[trigger] old(self).account_ids()[k]
                            == old(self).accounts@[k].id);
                    if idx >= 0 {
                        assert(crate::ids::id_matches(old(self).account_ids()[idx as int], query@));
                        assert forall|j: int|
                            is_first_match(old(self).account_ids(), query@, j) implies j
                            == idx as int by {
                            if j < idx {
                                assert(crate::ids::id_matches(old(self).accounts@[j].id, query@));
                            }
                            if j > idx {
                                assert(!crate::ids::id_matches(
                                    old(self).account_ids()[idx as int],
                                    query@,
                                ));
                            }
                        }
                    }
                }
                if idx >= 0 {
                    let i = idx as usize;
                    if str_eq(field.as_str(), "name") {
                        self.rename_account(i, payload);
                    } else if str_eq(field.as_str(), "value") {
                        let v = crate::money::try_into_money(payload);
                        self.accounts[i].set_value(v);
                        proof {
                            assert forall|k: int|
                                0 <= k < final(self).accounts@.len() implies (#[trigger] final(self).accounts@[k]).wf() by {
                                if k != i {
                                    assert(final(self).accounts@[k] == old(self).accounts@[k]);
                                }
                            }
                        }
                    }
                } else {
                    proof {
                        assert forall|k: int|
                            0 <= k < old(self).account_ids().len() implies !crate::ids::id_matches(
                            #[trigger] old(self).account_ids()[k],
                            query@,
                        ) by {
                            assert(old(self).account_ids()[k] == old(self).accounts@[k].id);
                            assert(!crate::ids::id_matches(old(self).accounts@[k].id, query@));
                        }
                        assert(no_match(old(self).account_ids(), query@));
                    }
                }
            },
            DataType::Category => {
                let idx = Category::find(&self.categories, query.as_str());
                proof {
                    assert(old(self).category_ids().len() == old(self).categories@.len());
                    assert(forall|k: int|
                        0 <= k < old(self).categories@.len() ==> #[trigger] old(self).category_ids()[k]
                            == old(self).categories@[k].id);
                    if idx >= 0 {
                        assert(crate::ids::id_matches(old(self).category_ids()[idx as int], query@));
                        assert forall|j: int|
                            is_first_match(old(self).category_ids(), query@, j) implies j
                            == idx as int by {
                            if j < idx {
                                assert(crate::ids::id_matches(old(self).categories@[j].id, query@));
                            }
                            if j > idx {
                                assert(!crate::ids::id_matches(
                                    old(self).category_ids()[idx as int],
                                    query@,
                                ));
                            }
                        }
                    }
                }
                if idx >= 0 {
                    let i = idx as usize;
                    if str_eq(field.as_str(), "name") {
                        self.rename_category(i, payload);
                    } else if str_eq(field.as_str(), "expected") {
                        let v = crate::money::try_into_money(payload);
                        // keep the id, name, and actual; replace the target
                        let id = self.categories[i].id;
                        let name = self.categories[i].name.clone();
                        let actual = self.categories[i].get_actual();
                        self.categories.set(i, Category { id, name, expected: v, actual });
                        proof {
                            assert forall|k: int|
                                0 <= k < final(self).categories@.len() implies (#[trigger] final(self).categories@[k]).wf() by {
                                if k != i {
                                    assert(final(self).categories@[k] == old(self).categories@[k]);
                                }
                            }
                        }
                    }
                }
            },
            DataType::Transaction => {
                let idx = Transaction::find(&self.transactions, query.as_str());
                proof {
                    assert(old(self).transaction_ids().len() == old(self).transactions@.len());
                    assert(forall|k: int|
                        0 <= k < old(self).transactions@.len() ==> #[trigger] old(self).transaction_ids()[k]
                            == old(self).transactions@[k].id);
                    if idx >= 0 {
                        assert(crate::ids::id_matches(old(self).transaction_ids()[idx as int], query@));
                        assert forall|j: int|
                            is_first_match(old(self).transaction_ids(), query@, j) implies j
                            == idx as int by {
                            if j < idx {
                                assert(crate::ids::id_matches(old(self).transactions@[j].id, query@));
                            }
                            if j > idx {
                                assert(!crate::ids::id_matches(
                                    old(self).transaction_ids()[idx as int],
                                    query@,
                                ));
                            }
                        }
                    }
                }
                if idx >= 0 {
                    let i = idx as usize;
                    self.transactions[i].edit(field, payload);
                    proof {
                        assert forall|k: int|
                            0 <= k < final(self).transactions@.len() implies (#[trigger] final(self).transactions@[k]).wf() by {
                            if k != i {
                                assert(final(self).transactions@[k] == old(self).transactions@[k]);
                            }
                        }
                    }
                }
            },
        }
    }

    /// Removes the first entity of the kind whose identifier display
    /// contains the query; with no match nothing happens. Deleting an
    /// account or category tombstones its name in the transactions.
    pub fn delete(&mut self, kind: DataType, query: &String)
        requires
            old(self).inv(),
            old(self).accounts@.len() < 0x8000_0000,
            old(self).categories@.len() < 0x8000_0000,
            old(self).transactions@.len() < 0x8000_0000,
        ensures
            final(self).inv(),
            deleted(*old(self), *final(self), kind, query@),
    {
        match kind {
            DataType::Account => {
                let idx = Account::find(&self.accounts, query.as_str());
                proof {
                    assert(old(self).account_ids().len() == old(self).accounts@.len());
                    assert(forall|k: int|
                        0 <= k < old(self).accounts@.len() ==> #[trigger] old(self).account_ids()[k]
                            == old(self).accounts@[k].id);
                    if idx >= 0 {
                        assert(crate::ids::id_matches(old(self).account_ids()[idx as int], query@));
                        assert forall|j: int|
                            is_first_match(old(self).account_ids(), query@, j) implies j
                            == idx as int by {
                            if j < idx {
                                assert(crate::ids::id_matches(old(self).accounts@[j].id, query@));
                            }
                            if j > idx {
                                assert(!crate::ids::id_matches(
                                    old(self).account_ids()[idx as int],
                                    query@,
                                ));
                            }
                        }
                    }
                }
                if idx >= 0 {
                    self.delete_account(idx as usize);
                }
            },
            DataType::Category => {
                let idx = Category::find(&self.categories, query.as_str());
                proof {
                    assert(old(self).category_ids().len() == old(self).categories@.len());
                    assert(forall|k: int|
                        0 <= k < old(self).categories@.len() ==> #[trigger] old(self).category_ids()[k]
                            == old(self).categories@[k].id);
                    if idx >= 0 {
                        assert(crate::ids::id_matches(old(self).category_ids()[idx as int], query@));
                        assert forall|j: int|
                            is_first_match(old(self).category_ids(), query@, j) implies j
                            == idx as int by {
                            if j < idx {
                                assert(crate::ids::id_matches(old(self).categories@[j].id, query@));
                            }
                            if j > idx {
                                assert(!crate::ids::id_matches(
                                    old(self).category_ids()[idx as int],
                                    query@,
                                ));
                            }
                        }
                    }
                }
                if idx >= 0 {
                    self.delete_category(idx as usize);
                }
            },
            DataType::Transaction => {
                let idx = Transaction::find(&self.transactions, query.as_str());
                proof {
                    assert(old(self).transaction_ids().len() == old(self).transactions@.len());
                    assert(forall|k: int|
                        0 <= k < old(self).transactions@.len() ==> #[trigger] old(self).transaction_ids()[k]
                            == old(self).transactions@[k].id);
                    if idx >= 0 {
                        assert(crate::ids::id_matches(old(self).transaction_ids()[idx as int], query@));
                        assert forall|j: int|
                            is_first_match(old(self).transaction_ids(), query@, j) implies j
                            == idx as int by {
                            if j < idx {
                                assert(crate::ids::id_matches(old(self).transactions@[j].id, query@));
                            }
                            if j > idx {
                                assert(!crate::ids::id_matches(
                                    old(self).transaction_ids()[idx as int],
                                    query@,
                                ));
                            }
                        }
                    }
                }
                if idx >= 0 {
                    self.delete_transaction(idx as usize);
                }
            },
        }
    }

    /// Closes the period: recomputes, encodes the whole store for the
    /// caller to persist, clears the transactions, and seeds one
    /// carry-forward transaction per account, dated `first` and
    /// described as rolling into `label`. Accounts and categories
    /// themselves are kept. Fails, changing nothing, exactly when
    /// recompute would.
    pub fn roll(&mut self, first: Date, label: &String) -> (r: Result<Snapshot, LedgerError>)
        requires
            old(self).inv(),
            date_valid(first),
        ensures
            final(self).inv(),
            match r {
                Ok(snap) => rolled(*old(self), *final(self), snap, first, label@),
                Err(e) => e == LedgerError::Overflow && !recompute_ok(
                    old(self).accounts_fields(),
                    old(self).categories_fields(),
                    old(self).transactions_fields(),
                ) && *final(self) == *old(self),
            },
    {
        match self.update() {
            Err(e) => {
                return Err(e);
            },
            Ok(()) => {},
        }
        let ghost ra = recompute_accounts(
            old(self).accounts_fields(),
            old(self).transactions_fields(),
        );
        let snap = Snapshot {
            accounts: accounts_to_cls(&self.accounts),
            categories: categories_to_cls(&self.categories),
            transactions: transactions_to_cls(&self.transactions),
        };
        self.transactions.clear();
        let na = self.accounts.len();
        let mut i: usize = 0;
        while i < na
            invariant
                na == self.accounts@.len(),
                0 <= i <= na,
                ra == self.accounts@.map_values(|a: Account| a.fields()),
                self.categories_fields() == recompute_categories(
                    old(self).categories_fields(),
                    old(self).transactions_fields(),
                ),
                forall|k: int| 0 <= k < na ==> (#[trigger] self.accounts@[k]).wf(),
                forall|k: int| 0 <= k < self.categories@.len() ==> (
                #[trigger] self.categories@[k]).wf(),
                date_valid(first),
                self.transactions@.len() == i,
                forall|k: int|
                    0 <= k < i ==> (#[trigger] self.transactions@[k]).fields() == (TxFields {
                        date: first,
                        amount: ra[k].value,
                        account: ra[k].name,
                        category: "Rollover"@,
                        description: "rolling into "@ + label@,
                    }) && self.transactions@[k].wf(),
            decreases na - i,
        {
            let value = self.accounts[i].get_value();
            let name = self.accounts[i].get_name().to_owned();
            let mut description = String::from_str("rolling into ");
            description.append(label.as_str());
            let tx = Transaction::build(
                first,
                value,
                name,
                String::from_str("Rollover"),
                description,
            );
            self.transactions.push(tx);
            i += 1;
        }
        Ok(snap)
    }

    /// The encoded texts of all three collections, as a save writes
    /// them.
    pub fn snapshot(&self) -> (r: Snapshot)
        requires
            self.inv(),
        ensures
            r.accounts@ == encode_accounts(self.accounts_fields()),
            r.categories@ == encode_categories(self.categories_fields()),
            r.transactions@ == encode_transactions(self.transactions_fields()),
    {
        Snapshot {
            accounts: accounts_to_cls(&self.accounts),
            categories: categories_to_cls(&self.categories),
            transactions: transactions_to_cls(&self.transactions),
        }
    }

    /// Total worth: every account value summed and rounded to cents.
    pub fn account_total(&self) -> (r: i128)
        requires
            self.inv(),
        ensures
            r == round_cent(value_total(self.accounts_fields())),
    {
        let ghost fs = self.accounts_fields();
        let n = self.accounts.len();
        let mut s: i128 = 0;
        let mut i: usize = 0;
        proof {
            assert(fs.take(0) =~= Seq::<AccountFields>::empty());
        }
        while i < n
            invariant
                n == self.accounts@.len(),
                self.inv(),
                fs == self.accounts_fields(),
                0 <= i <= n,
                s == value_total(fs.take(i as int)),
                -(i * MONEY_MAX as int) <= s <= i * MONEY_MAX as int,
            decreases n - i,
        {
            proof {
                assert(fs.take(i + 1).drop_last() =~= fs.take(i as int));
                assert(fs.take(i + 1).last() == fs[i as int]);
                assert((i + 1) * MONEY_MAX as int == i * MONEY_MAX as int + MONEY_MAX as int)
                    by (nonlinear_arith);
            }
            s = s + self.accounts[i].get_value() as i128;
            i += 1;
        }
        proof {
            assert(fs.take(n as int) =~= fs);
            assert(n * (MONEY_MAX as int) < (SUM_BOUND as int)) by (nonlinear_arith)
                requires
                    0 <= n <= 0xffff_ffff_ffff_ffff,
            ;
        }
        round_cent_i128(s)
    }

    /// Planned and actual saving: the category targets and actuals
    /// summed, the reserved category "Rollover" left out, each total
    /// rounded to cents.
    pub fn category_totals(&self) -> (r: (i128, i128))
        requires
            self.inv(),
        ensures
            r.0 == round_cent(expected_total(self.categories_fields())),
            r.1 == round_cent(actual_total(self.categories_fields())),
    {
        let ghost fs = self.categories_fields();
        let n = self.categories.len();
        let mut se: i128 = 0;
        let mut sa: i128 = 0;
        let mut i: usize = 0;
        proof {
            assert(fs.take(0) =~= Seq::<CategoryFields>::empty());
        }
        while i < n
            invariant
                n == self.categories@.len(),
                self.inv(),
                fs == self.categories_fields(),
                0 <= i <= n,
                se == expected_total(fs.take(i as int)),
                sa == actual_total(fs.take(i as int)),
                -(i * MONEY_MAX as int) <= se <= i * MONEY_MAX as int,
                -(i * MONEY_MAX as int) <= sa <= i * MONEY_MAX as int,
            decreases n - i,
        {
            proof {
                assert(fs.take(i + 1).drop_last() =~= fs.take(i as int));
                assert(fs.take(i + 1).last() == fs[i as int]);
                assert((i + 1) * MONEY_MAX as int == i * MONEY_MAX as int + MONEY_MAX as int)
                    by (nonlinear_arith);
            }
            if !str_eq(self.categories[i].get_name(), "Rollover") {
                se = se + self.categories[i].get_expected() as i128;
                sa = sa + self.categories[i].get_actual() as i128;
            }
            i += 1;
        }
        proof {
            assert(fs.take(n as int) =~= fs);
            assert(n * (MONEY_MAX as int) < (SUM_BOUND as int)) by (nonlinear_arith)
                requires
                    0 <= n <= 0xffff_ffff_ffff_ffff,
            ;
        }
        (round_cent_i128(se), round_cent_i128(sa))
    }

    /// Indices of the transactions the search text matches.
    pub fn search(&self, arg: &String) -> (r: Vec<usize>)
        requires
            self.inv(),
        ensures
            r@.map_values(|u: usize| u as int) == Transaction::matching_indices_from(
                self.transactions_fields(),
                arg@,
                0,
            ),
    {
        Transaction::search(&self.transactions, arg)
    }

    /// Removes the transaction at `i`; deleting a transaction cascades
    /// into nothing.
    pub fn delete_transaction(&mut self, i: usize)
        requires
            old(self).inv(),
            i < old(self).transactions@.len(),
        ensures
            final(self).inv(),
            final(self).transactions@ == old(self).transactions@.remove(i as int),
            final(self).accounts == old(self).accounts,
            final(self).categories == old(self).categories,
    {
        self.transactions.remove(i);
        proof {
            assert forall|t: int| 0 <= t < final(self).transactions@.len() implies (
            #[trigger] final(self).transactions@[t]).wf() by {
                if t < i {
                    assert(final(self).transactions@[t] == old(self).transactions@[t]);
                } else {
                    assert(final(self).transactions@[t] == old(self).transactions@[t + 1]);
                }
            }
        }
    }
}

// --- aggregation ----------------------------------------------------------

/// Sum of the amounts of the transactions whose account is `name`.
pub open spec fn acc_sum(txs: Seq<TxFields>, name: Seq<char>) -> int
    decreases txs.len(),
{
    if txs.len() == 0 {
        0
    } else {
        acc_sum(txs.drop_last(), name) + (if txs.last().account == name {
            txs.last().amount
        } else {
            0
        })
    }
}

/// Sum of the amounts of the transactions whose category is `name`,
/// never counting a transaction of the reserved category "Transfer".
pub open spec fn cat_sum(txs: Seq<TxFields>, name: Seq<char>) -> int
    decreases txs.len(),
{
    if txs.len() == 0 {
        0
    } else {
        cat_sum(txs.drop_last(), name) + (if txs.last().category == name && txs.last().category
            != "Transfer"@ {
            txs.last().amount
        } else {
            0
        })
    }
}

/// Account fields after recompute: names kept, each value the rounded
/// sum over the raw transaction list.
pub open spec fn recompute_accounts(accs: Seq<AccountFields>, txs: Seq<TxFields>) -> Seq<
    AccountFields,
> {
    accs.map_values(
        |a: AccountFields| AccountFields { name: a.name, value: round_cent(acc_sum(txs, a.name)) },
    )
}

/// Category fields after recompute: names and targets kept, each
/// actual the rounded transfer-free sum.
pub open spec fn recompute_categories(cats: Seq<CategoryFields>, txs: Seq<TxFields>) -> Seq<
    CategoryFields,
> {
    cats.map_values(
        |c: CategoryFields| CategoryFields {
            name: c.name,
            expected: c.expected,
            actual: round_cent(cat_sum(txs, c.name)),
        },
    )
}

/// Every recomputed total is storable.
pub open spec fn recompute_ok(
    accs: Seq<AccountFields>,
    cats: Seq<CategoryFields>,
    txs: Seq<TxFields>,
) -> bool {
    &&& forall|i: int|
        0 <= i < accs.len() ==> money_in_range(round_cent(acc_sum(txs, (#[trigger] accs[i]).name)))
    &&& forall|i: int|
        0 <= i < cats.len() ==> money_in_range(round_cent(cat_sum(txs, (#[trigger] cats[i]).name)))
}

/// Recompute settles: running it again on its own output changes
/// nothing, because it reads only the raw transaction list and the
/// names, and both are left as they were.
pub proof fn lemma_recompute_idempotent(
    accs: Seq<AccountFields>,
    cats: Seq<CategoryFields>,
    txs: Seq<TxFields>,
)
    ensures
        recompute_accounts(recompute_accounts(accs, txs), txs) == recompute_accounts(accs, txs),
        recompute_categories(recompute_categories(cats, txs), txs) == recompute_categories(
            cats,
            txs,
        ),
        recompute_ok(recompute_accounts(accs, txs), recompute_categories(cats, txs), txs)
            == recompute_ok(accs, cats, txs),
{
    let ra = recompute_accounts(accs, txs);
    let rc = recompute_categories(cats, txs);
    assert(recompute_accounts(ra, txs) =~= ra) by {
        assert(forall|i: int| 0 <= i < accs.len() ==> (#[trigger] ra[i]).name == accs[i].name);
    }
    assert(recompute_categories(rc, txs) =~= rc) by {
        assert(forall|i: int| 0 <= i < cats.len() ==> (#[trigger] rc[i]).name == cats[i].name);
    }
    assert(forall|i: int| 0 <= i < accs.len() ==> (#[trigger] ra[i]).name == accs[i].name);
    assert(forall|i: int| 0 <= i < cats.len() ==> (#[trigger] rc[i]).name == cats[i].name);
    assert(recompute_ok(ra, rc, txs) == recompute_ok(accs, cats, txs)) by {
        if recompute_ok(accs, cats, txs) {
            assert forall|i: int| 0 <= i < ra.len() implies money_in_range(
                round_cent(acc_sum(txs, (#[trigger] ra[i]).name)),
            ) by {
                assert(ra[i].name == accs[i].name);
            }
            assert forall|i: int| 0 <= i < rc.len() implies money_in_range(
                round_cent(cat_sum(txs, (#[trigger] rc[i]).name)),
            ) by {
                assert(rc[i].name == cats[i].name);
            }
        }
        if recompute_ok(ra, rc, txs) {
            assert forall|i: int| 0 <= i < accs.len() implies money_in_range(
                round_cent(acc_sum(txs, (#[trigger] accs[i]).name)),
            ) by {
                assert(ra[i].name == accs[i].name);
            }
            assert forall|i: int| 0 <= i < cats.len() implies money_in_range(
                round_cent(cat_sum(txs, (#[trigger] cats[i]).name)),
            ) by {
                assert(rc[i].name == cats[i].name);
            }
        }
    }
}

/// Recompute twice in succession, with no structural change between the
/// calls: the second recompute cannot fail, and it leaves every value
/// and actual exactly as the first set them.
pub proof fn lemma_update_idempotent(pre: Data, mid: Data, post: Data)
    requires
        updated(pre, mid),
        updated(mid, post),
    ensures
        post.accounts_fields() == mid.accounts_fields(),
        post.categories_fields() == mid.categories_fields(),
        post.transactions == mid.transactions,
{
    lemma_recompute_idempotent(
        pre.accounts_fields(),
        pre.categories_fields(),
        pre.transactions_fields(),
    );
}

/// After one recompute the next cannot fail: every total it would
/// store is the one already stored.
pub proof fn lemma_recompute_stays_ok(pre: Data, mid: Data)
    requires
        updated(pre, mid),
    ensures
        recompute_ok(mid.accounts_fields(), mid.categories_fields(), mid.transactions_fields()),
{
    lemma_recompute_idempotent(
        pre.accounts_fields(),
        pre.categories_fields(),
        pre.transactions_fields(),
    );
}

/// A transaction of the reserved category "Transfer" counts toward its
/// account's total and toward no category's total.
pub proof fn lemma_transfer_excluded(txs: Seq<TxFields>, j: int, name: Seq<char>)
    requires
        0 <= j < txs.len(),
        txs[j].category == "Transfer"@,
    ensures
        cat_sum(txs, name) == cat_sum(txs.remove(j), name),
        acc_sum(txs, txs[j].account) == acc_sum(txs.remove(j), txs[j].account) + txs[j].amount,
    decreases txs.len(),
{
    if j == txs.len() - 1 {
        assert(txs.remove(j) =~= txs.drop_last());
    } else {
        let shorter = txs.drop_last();
        lemma_transfer_excluded(shorter, j, name);
        lemma_transfer_excluded(shorter, j, txs[j].account);
        assert(txs.remove(j).drop_last() =~= shorter.remove(j));
        assert(txs.remove(j).last() == txs.last());
        assert(shorter[j] == txs[j]);
    }
}

// --- exec helpers ---------------------------------------------------------

/// Appending one account extends the encoding by one line.
proof fn lemma_encode_accounts_snoc(fs: Seq<AccountFields>, i: int)
    requires
        0 <= i < fs.len(),
    ensures
        encode_accounts(fs.take(i + 1)) == encode_accounts(fs.take(i)) + account_line(fs[i]),
    decreases i,
{
    if i == 0 {
        assert(fs.take(1).first() == fs[0]);
        assert(fs.take(1).drop_first() =~= Seq::<AccountFields>::empty());
        assert(fs.take(0) =~= Seq::<AccountFields>::empty());
        assert(encode_accounts(Seq::<AccountFields>::empty()) == Seq::<char>::empty());
        assert(encode_accounts(fs.take(1)) == account_line(fs[0]) + Seq::<char>::empty());
        assert(account_line(fs[0]) + Seq::<char>::empty() =~= account_line(fs[0]));
        assert(Seq::<char>::empty() + account_line(fs[0]) =~= account_line(fs[0]));
    } else {
        let g = fs.drop_first();
        lemma_encode_accounts_snoc(g, i - 1);
        assert(fs.take(i + 1).first() == fs[0]);
        assert(fs.take(i + 1).drop_first() =~= g.take(i));
        assert(fs.take(i).first() == fs[0]);
        assert(fs.take(i).drop_first() =~= g.take(i - 1));
        assert(g[i - 1] == fs[i]);
        assert(account_line(fs[0]) + (encode_accounts(g.take(i - 1)) + account_line(fs[i]))
            =~= (account_line(fs[0]) + encode_accounts(g.take(i - 1))) + account_line(fs[i]));
    }
}

/// Appending one category extends the encoding by one line.
proof fn lemma_encode_categories_snoc(fs: Seq<CategoryFields>, i: int)
    requires
        0 <= i < fs.len(),
    ensures
        encode_categories(fs.take(i + 1)) == encode_categories(fs.take(i)) + category_line(fs[i]),
    decreases i,
{
    if i == 0 {
        assert(fs.take(1).first() == fs[0]);
        assert(fs.take(1).drop_first() =~= Seq::<CategoryFields>::empty());
        assert(fs.take(0) =~= Seq::<CategoryFields>::empty());
        assert(encode_categories(Seq::<CategoryFields>::empty()) == Seq::<char>::empty());
        assert(encode_categories(fs.take(1)) == category_line(fs[0]) + Seq::<char>::empty());
        assert(category_line(fs[0]) + Seq::<char>::empty() =~= category_line(fs[0]));
        assert(Seq::<char>::empty() + category_line(fs[0]) =~= category_line(fs[0]));
    } else {
        let g = fs.drop_first();
        lemma_encode_categories_snoc(g, i - 1);
        assert(fs.take(i + 1).first() == fs[0]);
        assert(fs.take(i + 1).drop_first() =~= g.take(i));
        assert(fs.take(i).first() == fs[0]);
        assert(fs.take(i).drop_first() =~= g.take(i - 1));
        assert(g[i - 1] == fs[i]);
        assert(category_line(fs[0]) + (encode_categories(g.take(i - 1)) + category_line(fs[i]))
            =~= (category_line(fs[0]) + encode_categories(g.take(i - 1))) + category_line(fs[i]));
    }
}

/// Appending one transaction extends the encoding by one line.
proof fn lemma_encode_transactions_snoc(fs: Seq<TxFields>, i: int)
    requires
        0 <= i < fs.len(),
    ensures
        encode_transactions(fs.take(i + 1)) == encode_transactions(fs.take(i)) + transaction_line(
            fs[i],
        ),
    decreases i,
{
    if i == 0 {
        assert(fs.take(1).first() == fs[0]);
        assert(fs.take(1).drop_first() =~= Seq::<TxFields>::empty());
        assert(fs.take(0) =~= Seq::<TxFields>::empty());
        assert(encode_transactions(Seq::<TxFields>::empty()) == Seq::<char>::empty());
        assert(encode_transactions(fs.take(1)) == transaction_line(fs[0]) + Seq::<char>::empty());
        assert(transaction_line(fs[0]) + Seq::<char>::empty() =~= transaction_line(fs[0]));
        assert(Seq::<char>::empty() + transaction_line(fs[0]) =~= transaction_line(fs[0]));
    } else {
        let g = fs.drop_first();
        lemma_encode_transactions_snoc(g, i - 1);
        assert(fs.take(i + 1).first() == fs[0]);
        assert(fs.take(i + 1).drop_first() =~= g.take(i));
        assert(fs.take(i).first() == fs[0]);
        assert(fs.take(i).drop_first() =~= g.take(i - 1));
        assert(g[i - 1] == fs[i]);
        assert(transaction_line(fs[0]) + (encode_transactions(g.take(i - 1)) + transaction_line(
            fs[i],
        )) =~= (transaction_line(fs[0]) + encode_transactions(g.take(i - 1))) + transaction_line(
            fs[i],
        ));
    }
}

/// Encodes the account collection, one line each.
fn accounts_to_cls(accounts: &Vec<Account>) -> (r: String)
    requires
        forall|i: int| 0 <= i < accounts@.len() ==> (#[trigger] accounts@[i]).wf(),
    ensures
        r@ == encode_accounts(accounts@.map_values(|a: Account| a.fields())),
{
    let ghost fs = accounts@.map_values(|a: Account| a.fields());
    let mut st = String::new();
    let n = accounts.len();
    let mut i: usize = 0;
    proof {
        assert(fs.take(0) =~= Seq::<AccountFields>::empty());
    }
    while i < n
        invariant
            n == accounts@.len(),
            fs == accounts@.map_values(|a: Account| a.fields()),
            forall|k: int| 0 <= k < n ==> (#[trigger] accounts@[k]).wf(),
            0 <= i <= n,
            st@ == encode_accounts(fs.take(i as int)),
        decreases n - i,
    {
        let line = accounts[i].to_cls();
        st.append(line.as_str());
        proof {
            lemma_encode_accounts_snoc(fs, i as int);
        }
        i += 1;
    }
    proof {
        assert(fs.take(n as int) =~= fs);
    }
    st
}

/// Encodes the category collection, one line each.
fn categories_to_cls(categories: &Vec<Category>) -> (r: String)
    requires
        forall|i: int| 0 <= i < categories@.len() ==> (#[trigger] categories@[i]).wf(),
    ensures
        r@ == encode_categories(categories@.map_values(|c: Category| c.fields())),
{
    let ghost fs = categories@.map_values(|c: Category| c.fields());
    let mut st = String::new();
    let n = categories.len();
    let mut i: usize = 0;
    proof {
        assert(fs.take(0) =~= Seq::<CategoryFields>::empty());
    }
    while i < n
        invariant
            n == categories@.len(),
            fs == categories@.map_values(|c: Category| c.fields()),
            forall|k: int| 0 <= k < n ==> (#[trigger] categories@[k]).wf(),
            0 <= i <= n,
            st@ == encode_categories(fs.take(i as int)),
        decreases n - i,
    {
        let line = categories[i].to_cls();
        st.append(line.as_str());
        proof {
            lemma_encode_categories_snoc(fs, i as int);
        }
        i += 1;
    }
    proof {
        assert(fs.take(n as int) =~= fs);
    }
    st
}

/// Encodes the transaction collection, one line each.
fn transactions_to_cls(transactions: &Vec<Transaction>) -> (r: String)
    requires
        forall|i: int| 0 <= i < transactions@.len() ==> (#[trigger] transactions@[i]).wf(),
    ensures
        r@ == encode_transactions(transactions@.map_values(|t: Transaction| t.fields())),
{
    let ghost fs = transactions@.map_values(|t: Transaction| t.fields());
    let mut st = String::new();
    let n = transactions.len();
    let mut i: usize = 0;
    proof {
        assert(fs.take(0) =~= Seq::<TxFields>::empty());
    }
    while i < n
        invariant
            n == transactions@.len(),
            fs == transactions@.map_values(|t: Transaction| t.fields()),
            forall|k: int| 0 <= k < n ==> (#[trigger] transactions@[k]).wf(),
            0 <= i <= n,
            st@ == encode_transactions(fs.take(i as int)),
        decreases n - i,
    {
        let line = transactions[i].to_cls();
        st.append(line.as_str());
        proof {
            lemma_encode_transactions_snoc(fs, i as int);
        }
        i += 1;
    }
    proof {
        assert(fs.take(n as int) =~= fs);
    }
    st
}

/// A magnitude no running sum of storable amounts can reach.
const SUM_BOUND: i128 = 0x4000_0000_0000_0000_0000_0000_0000_0000;

/// Rounds a wide sum to the nearest cent, half away from zero.
fn round_cent_i128(s: i128) -> (r: i128)
    requires
        -SUM_BOUND < s < SUM_BOUND,
    ensures
        r == round_cent(s as int),
{
    if s >= 0 {
        ((s + 5) / 10) * 10
    } else {
        -((-s + 5) / 10) * 10
    }
}

/// Sums the amounts of the transactions naming this account.
fn sum_for_account(transactions: &Vec<Transaction>, name: &str) -> (s: i128)
    requires
        forall|i: int| 0 <= i < transactions@.len() ==> (#[trigger] transactions@[i]).wf(),
    ensures
        s == acc_sum(transactions@.map_values(|t: Transaction| t.fields()), name@),
        -(transactions@.len() * MONEY_MAX as int) <= s <= transactions@.len() * MONEY_MAX as int,
{
    let ghost fs = transactions@.map_values(|t: Transaction| t.fields());
    let n = transactions.len();
    let mut s: i128 = 0;
    let mut j: usize = 0;
    proof {
        assert(fs.take(0) =~= Seq::<TxFields>::empty());
    }
    while j < n
        invariant
            n == transactions@.len(),
            fs == transactions@.map_values(|t: Transaction| t.fields()),
            forall|k: int| 0 <= k < n ==> (#[trigger] transactions@[k]).wf(),
            0 <= j <= n,
            s == acc_sum(fs.take(j as int), name@),
            -(j * MONEY_MAX as int) <= s <= j * MONEY_MAX as int,
        decreases n - j,
    {
        let t = &transactions[j];
        proof {
            assert(fs.take(j + 1).drop_last() =~= fs.take(j as int));
            assert(fs.take(j + 1).last() == fs[j as int]);
            assert((j + 1) * MONEY_MAX as int == j * MONEY_MAX as int + MONEY_MAX as int)
                by (nonlinear_arith);
        }
        if str_eq(t.account.as_str(), name) {
            s = s + t.amount as i128;
        }
        j += 1;
    }
    proof {
        assert(fs.take(n as int) =~= fs);
    }
    s
}

/// Sums the amounts of the transactions naming this category,
/// skipping the reserved category "Transfer".
fn sum_for_category(transactions: &Vec<Transaction>, name: &str) -> (s: i128)
    requires
        forall|i: int| 0 <= i < transactions@.len() ==> (#[trigger] transactions@[i]).wf(),
    ensures
        s == cat_sum(transactions@.map_values(|t: Transaction| t.fields()), name@),
        -(transactions@.len() * MONEY_MAX as int) <= s <= transactions@.len() * MONEY_MAX as int,
{
    let ghost fs = transactions@.map_values(|t: Transaction| t.fields());
    let n = transactions.len();
    let mut s: i128 = 0;
    let mut j: usize = 0;
    proof {
        assert(fs.take(0) =~= Seq::<TxFields>::empty());
    }
    while j < n
        invariant
            n == transactions@.len(),
            fs == transactions@.map_values(|t: Transaction| t.fields()),
            forall|k: int| 0 <= k < n ==> (#[trigger] transactions@[k]).wf(),
            0 <= j <= n,
            s == cat_sum(fs.take(j as int), name@),
            -(j * MONEY_MAX as int) <= s <= j * MONEY_MAX as int,
        decreases n - j,
    {
        let t = &transactions[j];
        proof {
            assert(fs.take(j + 1).drop_last() =~= fs.take(j as int));
            assert(fs.take(j + 1).last() == fs[j as int]);
            assert((j + 1) * MONEY_MAX as int == j * MONEY_MAX as int + MONEY_MAX as int)
                by (nonlinear_arith);
        }
        if str_eq(t.category.as_str(), name) && !str_eq(t.category.as_str(), "Transfer") {
            s = s + t.amount as i128;
        }
        j += 1;
    }
    proof {
        assert(fs.take(n as int) =~= fs);
    }
    s
}

// --- round trips ----------------------------------------------------------

/// Round trip for the account file: decoding what was encoded yields
/// the same fields, provided every name is free of separators and every
/// value storable.
pub proof fn lemma_accounts_round_trip(fs: Seq<AccountFields>)
    requires
        forall|i: int|
            0 <= i < fs.len() ==> field_text_ok((#[trigger] fs[i]).name) && money_in_range(
                fs[i].value,
            ),
    ensures
        decode_accounts(encode_accounts(fs)) == fs,
    decreases fs.len(),
{
    if fs.len() == 0 {
        let e = Seq::<char>::empty();
        crate::text::lemma_split_cells_whole(e, '\n');
        assert(split_cells(e, '\n') == seq![e]);
        assert(decode_account_lines(seq![e]) =~= Seq::<AccountFields>::empty());
        assert(decode_accounts(encode_accounts(fs)) =~= fs);
    } else {
        let f = fs.first();
        crate::account::lemma_account_line_round_trip(f);
        let line = account_line(f);
        let body = line.drop_last();
        let rest = encode_accounts(fs.drop_first());
        assert(encode_accounts(fs) =~= body + seq!['\n'] + rest) by {
            assert(line =~= body + seq!['\n']);
        }
        crate::text::lemma_split_cells_prepend(body, rest, '\n');
        assert(forall|i: int|
            0 <= i < fs.drop_first().len() ==> fs.drop_first()[i] == fs[i + 1]);
        lemma_accounts_round_trip(fs.drop_first());
        let tail_lines = split_cells(rest, '\n');
        assert(split_cells(encode_accounts(fs), '\n') == seq![body] + tail_lines);
        assert((seq![body] + tail_lines).first() == body);
        assert((seq![body] + tail_lines).drop_first() =~= tail_lines);
        assert(decode_account_lines(seq![body] + tail_lines) == seq![decode_account_line(body)]
            + decode_account_lines(tail_lines));
        assert(seq![f] + fs.drop_first() =~= fs);
    }
}

/// Round trip for the category file.
pub proof fn lemma_categories_round_trip(fs: Seq<CategoryFields>)
    requires
        forall|i: int|
            0 <= i < fs.len() ==> field_text_ok((#[trigger] fs[i]).name) && money_in_range(
                fs[i].expected,
            ) && money_in_range(fs[i].actual),
    ensures
        decode_categories(encode_categories(fs)) == fs,
    decreases fs.len(),
{
    if fs.len() == 0 {
        let e = Seq::<char>::empty();
        crate::text::lemma_split_cells_whole(e, '\n');
        assert(split_cells(e, '\n') == seq![e]);
        assert(decode_category_lines(seq![e]) =~= Seq::<CategoryFields>::empty());
        assert(decode_categories(encode_categories(fs)) =~= fs);
    } else {
        let f = fs.first();
        crate::category::lemma_category_line_round_trip(f);
        let line = category_line(f);
        let body = line.drop_last();
        let rest = encode_categories(fs.drop_first());
        assert(encode_categories(fs) =~= body + seq!['\n'] + rest) by {
            assert(line =~= body + seq!['\n']);
        }
        crate::text::lemma_split_cells_prepend(body, rest, '\n');
        assert(forall|i: int|
            0 <= i < fs.drop_first().len() ==> fs.drop_first()[i] == fs[i + 1]);
        lemma_categories_round_trip(fs.drop_first());
        let tail_lines = split_cells(rest, '\n');
        assert(split_cells(encode_categories(fs), '\n') == seq![body] + tail_lines);
        assert((seq![body] + tail_lines).first() == body);
        assert((seq![body] + tail_lines).drop_first() =~= tail_lines);
        assert(decode_category_lines(seq![body] + tail_lines) == seq![decode_category_line(body)]
            + decode_category_lines(tail_lines));
        assert(seq![f] + fs.drop_first() =~= fs);
    }
}

/// Round trip for the transaction file: the one fallible decode
/// succeeds on its own encoding and yields the same fields.
pub proof fn lemma_transactions_round_trip(fs: Seq<TxFields>)
    requires
        forall|i: int|
            0 <= i < fs.len() ==> field_text_ok((#[trigger] fs[i]).account) && field_text_ok(
                fs[i].category,
            ) && field_text_ok(fs[i].description) && money_in_range(fs[i].amount) && date_valid(
                fs[i].date,
            ),
    ensures
        decode_transactions(encode_transactions(fs)) == Some(fs),
    decreases fs.len(),
{
    if fs.len() == 0 {
        let e = Seq::<char>::empty();
        crate::text::lemma_split_cells_whole(e, '\n');
        assert(split_cells(e, '\n') == seq![e]);
        assert(decode_transaction_lines(seq![e]) == Some(Seq::<TxFields>::empty()));
        assert(Seq::<TxFields>::empty() =~= fs);
    } else {
        let f = fs.first();
        crate::transaction::lemma_transaction_line_round_trip(f);
        let line = transaction_line(f);
        let body = line.drop_last();
        let rest = encode_transactions(fs.drop_first());
        assert(encode_transactions(fs) =~= body + seq!['\n'] + rest) by {
            assert(line =~= body + seq!['\n']);
        }
        crate::text::lemma_split_cells_prepend(body, rest, '\n');
        assert(forall|i: int|
            0 <= i < fs.drop_first().len() ==> fs.drop_first()[i] == fs[i + 1]);
        lemma_transactions_round_trip(fs.drop_first());
        let tail_lines = split_cells(rest, '\n');
        assert(split_cells(encode_transactions(fs), '\n') == seq![body] + tail_lines);
        assert((seq![body] + tail_lines).first() == body);
        assert((seq![body] + tail_lines).drop_first() =~= tail_lines);
        assert(decode_transaction_lines(tail_lines) == Some(fs.drop_first()));
        assert(decode_transaction_lines(seq![body] + tail_lines) == Some(
            seq![f] + fs.drop_first(),
        ));
        assert(seq![f] + fs.drop_first() =~= fs);
    }
}

} // verus!



