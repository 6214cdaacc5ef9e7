//! Transactions: the ledger's history. Account and category are held by
//! name — plain strings that the integrity rules keep in sync — and the
//! date is the one field whose corruption is fatal on load.
use crate::date::{
    date_to_mdy, date_to_rfc3339, date_valid, mdy_string, parse_date, rfc3339_string,
    spec_parse_date, Date,
};
use crate::ids::{fresh_id, simple_id, simple_id_spec};
use crate::money::{
    money_in_range, money_string, money_to_string, parse_money, spec_parse_money,
    spec_try_into_money, try_into_money,
};
use crate::text::{push_char, spec_contains, split_cells, str_contains};
use vstd::prelude::*;
use vstd::string::{StrSliceExecFns, StringExecFns};

verus! {

pub struct Transaction {
    pub id: u128,
    pub date: Date,
    pub amount: i64,
    pub account: String,
    pub category: String,
    pub description: String,
}

/// The persisted fields of a transaction; identifiers are never
/// persisted.
pub struct TxFields {
    pub date: Date,
    pub amount: int,
    pub account: Seq<char>,
    pub category: Seq<char>,
    pub description: Seq<char>,
}

/// One line of the transaction file: date, amount, account, category,
/// description, newline.
pub open spec fn transaction_line(f: TxFields) -> Seq<char> {
    rfc3339_string(f.date) + seq![','] + money_string(f.amount) + seq![','] + f.account
        + seq![','] + f.category + seq![','] + f.description + seq!['\n']
}

/// Fields read from the cells of one line: a malformed or missing date
/// is fatal, every other missing cell defaults.
pub open spec fn decode_transaction_cells(cells: Seq<Seq<char>>) -> Option<TxFields> {
    if cells.len() >= 1 && spec_parse_date(cells[0]) is Some {
        Some(
            TxFields {
                date: spec_parse_date(cells[0])->Some_0,
                amount: if cells.len() >= 2 {
                    spec_parse_money(cells[1])
                } else {
                    0
                },
                account: if cells.len() >= 3 {
                    cells[2]
                } else {
                    Seq::empty()
                },
                category: if cells.len() >= 4 {
                    cells[3]
                } else {
                    Seq::empty()
                },
                description: if cells.len() >= 5 {
                    cells[4]
                } else {
                    Seq::empty()
                },
            },
        )
    } else {
        Option::None
    }
}

/// Fields read from one line of the transaction file.
pub open spec fn decode_transaction_line(l: Seq<char>) -> Option<TxFields> {
    decode_transaction_cells(split_cells(l, ','))
}

impl Transaction {
    /// The persisted fields.
    pub open spec fn fields(&self) -> TxFields {
        TxFields {
            date: self.date,
            amount: self.amount as int,
            account: self.account@,
            category: self.category@,
            description: self.description@,
        }
    }

    /// The amount is representable and the date names a real instant.
    pub open spec fn wf(&self) -> bool {
        money_in_range(self.amount as int) && date_valid(self.date)
    }

    /// The six-character display form of the identifier.
    pub fn get_simple_id(&self) -> (r: String)
        ensures
            r@ == simple_id_spec(self.id),
    {
        simple_id(self.id)
    }

    /// The date for display, month/day/year.
    pub fn get_date(&self) -> (r: String)
        requires
            date_valid(self.date),
        ensures
            r@ == mdy_string(self.date),
    {
        date_to_mdy(&self.date)
    }

    pub fn get_amount(&self) -> (r: i64)
        ensures
            r == self.amount,
    {
        self.amount
    }

    pub fn get_account(&self) -> (r: &str)
        ensures
            r@ == self.account@,
    {
        self.account.as_str()
    }

    pub fn set_account(&mut self, new_account: String)
        ensures
            *final(self) == (Transaction { account: new_account, ..*old(self) }),
    {
        self.account = new_account;
    }

    pub fn get_category(&self) -> (r: &str)
        ensures
            r@ == self.category@,
    {
        self.category.as_str()
    }

    pub fn set_category(&mut self, new_category: String)
        ensures
            *final(self) == (Transaction { category: new_category, ..*old(self) }),
    {
        self.category = new_category;
    }

    pub fn get_description(&self) -> (r: &str)
        ensures
            r@ == self.description@,
    {
        self.description.as_str()
    }

    /// A transaction decoded from the cells of one line; `None` exactly
    /// when the date cell is missing or malformed, the fatal case.
    pub fn from_cls(
        possible_date: Option<&str>,
        possible_amount: Option<&str>,
        possible_account: Option<&str>,
        possible_category: Option<&str>,
        possible_description: Option<&str>,
    ) -> (r: Option<Transaction>)
        ensures
            match r {
                Some(t) => {
                    &&& possible_date is Some
                    &&& spec_parse_date(possible_date->Some_0@) == Some(t.date)
                    &&& t.amount as int == (match possible_amount {
                        Some(v) => spec_parse_money(v@),
                        None => 0int,
                    })
                    &&& t.account@ == (match possible_account {
                        Some(v) => v@,
                        None => Seq::<char>::empty(),
                    })
                    &&& t.category@ == (match possible_category {
                        Some(v) => v@,
                        None => Seq::<char>::empty(),
                    })
                    &&& t.description@ == (match possible_description {
                        Some(v) => v@,
                        None => Seq::<char>::empty(),
                    })
                    &&& t.wf()
                },
                None => (match possible_date {
                    Some(d) => spec_parse_date(d@) is None,
                    None => true,
                }),
            },
    {
        let date = match possible_date {
            Some(d) => match parse_date(d) {
                Some(parsed) => parsed,
                None => {
                    return Option::None;
                },
            },
            None => {
                return Option::None;
            },
        };
        let amount = match possible_amount {
            Some(v) => parse_money(v),
            None => 0,
        };
        let account = match possible_account {
            Some(v) => v.to_owned(),
            None => String::new(),
        };
        let category = match possible_category {
            Some(v) => v.to_owned(),
            None => String::new(),
        };
        let description = match possible_description {
            Some(v) => v.to_owned(),
            None => String::new(),
        };
        Some(Transaction { id: fresh_id(), date, amount, account, category, description })
    }

    /// A transaction built from already-validated parts, as the
    /// rollover seeds them.
    pub fn build(
        date: Date,
        amount: i64,
        account: String,
        category: String,
        description: String,
    ) -> (r: Transaction)
        ensures
            r.date == date,
            r.amount == amount,
            r.account == account,
            r.category == category,
            r.description == description,
    {
        Transaction { id: fresh_id(), date, amount, account, category, description }
    }

    /// A new transaction from entered fields: the amount goes through
    /// best-effort money entry.
    pub fn new(
        date: Date,
        possible_amount: &String,
        account: String,
        category: String,
        description: String,
    ) -> (r: Transaction)
        ensures
            r.date == date,
            r.amount as int == spec_try_into_money(possible_amount@),
            r.account == account,
            r.category == category,
            r.description == description,
            money_in_range(r.amount as int),
    {
        let amount = try_into_money(possible_amount);
        Transaction { id: fresh_id(), date, amount, account, category, description }
    }

    /// The two legs of a transfer: the amount leaves one account and
    /// arrives at the other, both under the reserved category.
    pub fn new_transfer(
        date: Date,
        possible_amount: &String,
        from_account: String,
        to_account: String,
        description: String,
    ) -> (r: (Transaction, Transaction))
        ensures
            r.0.date == date && r.1.date == date,
            r.0.amount as int == -spec_try_into_money(possible_amount@),
            r.1.amount as int == spec_try_into_money(possible_amount@),
            r.0.account == from_account,
            r.1.account == to_account,
            r.0.category@ == "Transfer"@ && r.1.category@ == "Transfer"@,
            r.0.description == description && r.1.description == description,
            money_in_range(r.0.amount as int) && money_in_range(r.1.amount as int),
    {
        let amount = try_into_money(possible_amount);
        let from = Transaction {
            id: fresh_id(),
            date,
            amount: -amount,
            account: from_account,
            category: String::from_str("Transfer"),
            description: description.clone(),
        };
        let to = Transaction {
            id: fresh_id(),
            date,
            amount,
            account: to_account,
            category: String::from_str("Transfer"),
            description,
        };
        (from, to)
    }

    /// Index of the first transaction whose displayed identifier
    /// contains the query, scanning in insertion order; -1 when none.
    pub fn find(transactions: &Vec<Transaction>, query: &str) -> (r: i32)
        requires
            transactions@.len() < 0x8000_0000,
        ensures
            -1 <= r,
            r == -1 ==> forall|i: int|
                0 <= i < transactions@.len() ==> !crate::ids::id_matches(
                    #[trigger] transactions@[i].id,
                    query@,
                ),
            r >= 0 ==> r < transactions@.len() && crate::ids::id_matches(
                transactions@[r as int].id,
                query@,
            ) && (forall|i: int|
                0 <= i < r ==> !crate::ids::id_matches(#[trigger] transactions@[i].id, query@)),
    {
        let n = transactions.len();
        let mut i: usize = 0;
        while i < n
            invariant
                n == transactions@.len(),
                n < 0x8000_0000,
                0 <= i <= n,
                forall|k: int|
                    0 <= k < i ==> !crate::ids::id_matches(#[trigger] transactions@[k].id, query@),
            decreases n - i,
        {
            if crate::ids::id_matches_exec(transactions[i].id, query) {
                return i as i32;
            }
            i += 1;
        }
        -1
    }

    /// Applies one field edit. A date payload must be the canonical
    /// timestamp text; a malformed one changes nothing. Money goes
    /// through best-effort entry; the name fields are free text,
    /// checked against nothing.
    pub fn edit(&mut self, field: &String, payload: &String)
        ensures
            final(self).id == old(self).id,
            field@ == "date"@ ==> *final(self) == (Transaction {
                date: match spec_parse_date(payload@) {
                    Some(d) => d,
                    None => old(self).date,
                },
                ..*old(self)
            }),
            field@ == "amount"@ ==> *final(self) == (Transaction {
                amount: final(self).amount,
                ..*old(self)
            }) && final(self).amount as int == spec_try_into_money(payload@),
            field@ == "account"@ ==> *final(self) == (Transaction {
                account: *payload,
                ..*old(self)
            }),
            field@ == "category"@ ==> *final(self) == (Transaction {
                category: *payload,
                ..*old(self)
            }),
            field@ == "description"@ ==> *final(self) == (Transaction {
                description: *payload,
                ..*old(self)
            }),
            field@ != "date"@ && field@ != "amount"@ && field@ != "account"@ && field@
                != "category"@ && field@ != "description"@ ==> *final(self) == *old(self),
            old(self).wf() ==> final(self).wf(),
    {
        proof {
            reveal_strlit("date");
            reveal_strlit("amount");
            reveal_strlit("account");
            reveal_strlit("category");
            reveal_strlit("description");
            assert("date"@.len() == 4);
            assert("amount"@.len() == 6);
            assert("account"@.len() == 7);
            assert("category"@.len() == 8);
            assert("description"@.len() == 11);
        }
        if crate::text::str_eq(field.as_str(), "date") {
            match parse_date(payload.as_str()) {
                Some(d) => {
                    self.date = d;
                },
                None => {},
            }
        } else if crate::text::str_eq(field.as_str(), "amount") {
            self.amount = try_into_money(payload);
        } else if crate::text::str_eq(field.as_str(), "account") {
            self.account = payload.clone();
        } else if crate::text::str_eq(field.as_str(), "category") {
            self.category = payload.clone();
        } else if crate::text::str_eq(field.as_str(), "description") {
            self.description = payload.clone();
        }
    }

    /// One line of the transaction file.
    pub fn to_cls(&self) -> (r: String)
        requires
            self.wf(),
        ensures
            r@ == transaction_line(self.fields()),
    {
        let mut st = String::new();
        let d = date_to_rfc3339(&self.date);
        st.append(d.as_str());
        push_char(&mut st, ',');
        let a = money_to_string(self.amount);
        st.append(a.as_str());
        push_char(&mut st, ',');
        st.append(self.account.as_str());
        push_char(&mut st, ',');
        st.append(self.category.as_str());
        push_char(&mut st, ',');
        st.append(self.description.as_str());
        push_char(&mut st, '\n');
        assert(st@ =~= transaction_line(self.fields()));
        st
    }

    /// Whether a transaction matches a search text: it occurs in the
    /// canonical date text or in one of the three free-text fields.
    pub open spec fn matches_search(f: TxFields, arg: Seq<char>) -> bool {
        spec_contains(rfc3339_string(f.date), arg) || spec_contains(f.account, arg)
            || spec_contains(f.category, arg) || spec_contains(f.description, arg)
    }

    /// Indices at or after `i` of transactions matching `arg`.
    pub open spec fn matching_indices_from(txs: Seq<TxFields>, arg: Seq<char>, i: int) -> Seq<int>
        decreases txs.len() - i when 0 <= i <= txs.len()
    {
        if i >= txs.len() {
            Seq::empty()
        } else if Self::matches_search(txs[i], arg) {
            seq![i] + Self::matching_indices_from(txs, arg, i + 1)
        } else {
            Self::matching_indices_from(txs, arg, i + 1)
        }
    }

    /// Indices of the transactions a search text matches, in order.
    pub fn search(transactions: &Vec<Transaction>, arg: &String) -> (r: Vec<usize>)
        requires
            forall|i: int|
                0 <= i < transactions@.len() ==> (#[trigger] transactions@[i]).wf(),
        ensures
            r@.map_values(|u: usize| u as int) == Self::matching_indices_from(
                transactions@.map_values(|t: Transaction| t.fields()),
                arg@,
                0,
            ),
    {
        let ghost txs = transactions@.map_values(|t: Transaction| t.fields());
        let n = transactions.len();
        let mut r: Vec<usize> = Vec::new();
        let mut i: usize = 0;
        proof {
            assert(r@.map_values(|u: usize| u as int) =~= Seq::<int>::empty());
        }
        while i < n
            invariant
                n == transactions@.len(),
                txs == transactions@.map_values(|t: Transaction| t.fields()),
                forall|k: int| 0 <= k < n ==> (#[trigger] transactions@[k]).wf(),
                0 <= i <= n,
                Self::matching_indices_from(txs, arg@, 0) == r@.map_values(|u: usize| u as int)
                    + Self::matching_indices_from(txs, arg@, i as int),
            decreases n - i,
        {
            let t = &transactions[i];
            let ds = date_to_rfc3339(&t.date);
            let hit = str_contains(ds.as_str(), arg.as_str()) || str_contains(
                t.account.as_str(),
                arg.as_str(),
            ) || str_contains(t.category.as_str(), arg.as_str()) || str_contains(
                t.description.as_str(),
                arg.as_str(),
            );
            let ghost prev = r@;
            if hit {
                r.push(i);
            }
            proof {
                assert(txs[i as int] == transactions@[i as int].fields());
                if hit {
                    assert(Self::matching_indices_from(txs, arg@, i as int) == seq![i as int]
                        + Self::matching_indices_from(txs, arg@, i + 1));
                    assert(r@.map_values(|u: usize| u as int) =~= prev.map_values(
                        |u: usize| u as int,
                    ) + seq![i as int]);
                    assert(prev.map_values(|u: usize| u as int) + (seq![i as int]
                        + Self::matching_indices_from(txs, arg@, i + 1)) =~= r@.map_values(
                        |u: usize| u as int,
                    ) + Self::matching_indices_from(txs, arg@, i + 1));
                }
            }
            i += 1;
        }
        assert(r@.map_values(|u: usize| u as int) + Self::matching_indices_from(txs, arg@, n as int)
            =~= r@.map_values(|u: usize| u as int));
        r
    }
}

/// Round trip: the line written for storable, separator-free fields
/// reads back to exactly those fields.
pub proof fn lemma_transaction_line_round_trip(f: TxFields)
    requires
        crate::account::field_text_ok(f.account),
        crate::account::field_text_ok(f.category),
        crate::account::field_text_ok(f.description),
        money_in_range(f.amount),
        date_valid(f.date),
    ensures
        transaction_line(f).len() >= 1,
        transaction_line(f).last() == '\n',
        crate::account::no_newline(transaction_line(f).drop_last()),
        transaction_line(f).drop_last().len() >= 1,
        decode_transaction_line(transaction_line(f).drop_last()) == Some(f),
{
    let ds = rfc3339_string(f.date);
    let ms = money_string(f.amount);
    let body = ds + seq![','] + ms + seq![','] + f.account + seq![','] + f.category + seq![',']
        + f.description;
    assert(transaction_line(f).drop_last() =~= body);
    crate::date::lemma_rfc3339_charset(f.date);
    crate::money::lemma_money_string_charset(f.amount);
    assert forall|i: int| 0 <= i < ms.len() implies #[trigger] ms[i] != ',' && ms[i] != '\n' by {
        crate::money::lemma_digit_excludes(ms[i]);
    }
    let t4 = f.description;
    let t3 = f.category + seq![','] + t4;
    let t2 = f.account + seq![','] + t3;
    let t1 = ms + seq![','] + t2;
    assert(body =~= ds + seq![','] + t1);
    crate::text::lemma_split_cells_prepend(ds, t1, ',');
    crate::text::lemma_split_cells_prepend(ms, t2, ',');
    crate::text::lemma_split_cells_prepend(f.account, t3, ',');
    crate::text::lemma_split_cells_prepend(f.category, t4, ',');
    crate::text::lemma_split_cells_whole(t4, ',');
    assert(split_cells(body, ',') == seq![ds] + (seq![ms] + (seq![f.account] + (seq![f.category]
        + seq![t4]))));
    assert(split_cells(body, ',') =~= seq![ds, ms, f.account, f.category, f.description]);
    crate::date::lemma_date_round_trip(f.date);
    crate::money::lemma_money_round_trip(f.amount);
    assert(decode_transaction_line(body) == Some(f));
    assert forall|i: int| 0 <= i < body.len() implies #[trigger] body[i] != '\n' by {
        let p0 = ds.len() as int;
        let p1 = p0 + 1 + ms.len();
        let p2 = p1 + 1 + f.account.len();
        let p3 = p2 + 1 + f.category.len();
        if i < p0 {
            assert(body[i] == ds[i]);
        } else if i == p0 {
            assert(body[i] == ',');
        } else if i < p1 {
            assert(body[i] == ms[i - p0 - 1]);
        } else if i == p1 {
            assert(body[i] == ',');
        } else if i < p2 {
            assert(body[i] == f.account[i - p1 - 1]);
        } else if i == p2 {
            assert(body[i] == ',');
        } else if i < p3 {
            assert(body[i] == f.category[i - p2 - 1]);
        } else if i == p3 {
            assert(body[i] == ',');
        } else {
            assert(body[i] == f.description[i - p3 - 1]);
        }
    }
}

} // verus!
