//! Accounts: a named balance. The stored value is derived — recompute
//! sets it to the rounded sum of the transactions naming this account.
use crate::ids::{fresh_id, simple_id, simple_id_spec};
use crate::money::{
    money_in_range, money_string, money_to_string, parse_money, spec_parse_money,
    spec_try_into_money, try_into_money,
};
use crate::text::{push_char, split_cells};
use vstd::prelude::*;
use vstd::string::{StrSliceExecFns, StringExecFns};

verus! {

/// Which account field an edit changed: a rename carries the old and
/// new name so the caller can cascade it into the transactions.
pub enum AccountField {
    Name(String, String),
    Value,
    Unchanged,
}

pub struct Account {
    pub id: u128,
    pub name: String,
    pub value: i64,
}

/// The persisted fields of an account; identifiers are never persisted.
pub struct AccountFields {
    pub name: Seq<char>,
    pub value: int,
}

/// One line of the account file: name, value, newline.
pub open spec fn account_line(f: AccountFields) -> Seq<char> {
    f.name + seq![','] + money_string(f.value) + seq!['\n']
}

/// Fields read from the cells of one line; a missing value cell
/// defaults to zero, like any malformed numeric field.
pub open spec fn decode_account_cells(cells: Seq<Seq<char>>) -> AccountFields {
    AccountFields {
        name: if cells.len() >= 1 {
            cells[0]
        } else {
            Seq::empty()
        },
        value: if cells.len() >= 2 {
            spec_parse_money(cells[1])
        } else {
            0
        },
    }
}

/// Fields read from one line of the account file.
pub open spec fn decode_account_line(l: Seq<char>) -> AccountFields {
    decode_account_cells(split_cells(l, ','))
}

/// A text that the line format carries intact: no separator occurs.
pub open spec fn field_text_ok(s: Seq<char>) -> bool {
    forall|i: int| 0 <= i < s.len() ==> #[trigger] s[i] != ',' && s[i] != '\n'
}

/// No line break occurs in `s`.
pub open spec fn no_newline(s: Seq<char>) -> bool {
    forall|i: int| 0 <= i < s.len() ==> #[trigger] s[i] != '\n'
}

impl Account {
    /// The persisted fields.
    pub open spec fn fields(&self) -> AccountFields {
        AccountFields { name: self.name@, value: self.value as int }
    }

    /// The stored value is a representable amount.
    pub open spec fn wf(&self) -> bool {
        money_in_range(self.value as int)
    }

    /// The six-character display form of the identifier.
    pub fn get_simple_id(&self) -> (r: String)
        ensures
            r@ == simple_id_spec(self.id),
    {
        simple_id(self.id)
    }

    pub fn get_name(&self) -> (r: &str)
        ensures
            r@ == self.name@,
    {
        self.name.as_str()
    }

    pub fn set_name(&mut self, new_name: String)
        ensures
            final(self).name == new_name,
            final(self).id == old(self).id,
            final(self).value == old(self).value,
    {
        self.name = new_name;
    }

    pub fn get_value(&self) -> (r: i64)
        ensures
            r == self.value,
    {
        self.value
    }

    pub fn set_value(&mut self, new_value: i64)
        ensures
            final(self).value == new_value,
            final(self).id == old(self).id,
            final(self).name == old(self).name,
    {
        self.value = new_value;
    }

    /// An account decoded from the cells of one line: the name as
    /// given (empty when missing), the value parsed with the usual
    /// zero default, and a brand-new identifier.
    pub fn from_cls(possible_name: Option<&str>, possible_value: Option<&str>) -> (r: Account)
        ensures
            r.name@ == (match possible_name {
                Some(n) => n@,
                None => Seq::<char>::empty(),
            }),
            r.value as int == (match possible_value {
                Some(v) => spec_parse_money(v@),
                None => 0int,
            }),
            r.wf(),
    {
        let name = match possible_name {
            Some(n) => n.to_owned(),
            None => String::new(),
        };
        let value = match possible_value {
            Some(v) => parse_money(v),
            None => 0,
        };
        Account { id: fresh_id(), name, value }
    }

    /// A new account with the given name and a zero balance.
    pub fn new(name: String) -> (r: Account)
        ensures
            r.name == name,
            r.value == 0,
            r.wf(),
    {
        Account { id: fresh_id(), name, value: 0 }
    }

    /// Index of the first account whose displayed identifier contains
    /// the query, scanning in insertion order; -1 when none does.
    pub fn find(accounts: &Vec<Account>, query: &str) -> (r: i32)
        requires
            accounts@.len() < 0x8000_0000,
        ensures
            -1 <= r,
            r == -1 ==> forall|i: int|
                0 <= i < accounts@.len() ==> !crate::ids::id_matches(
                    #[trigger] accounts@[i].id,
                    query@,
                ),
            r >= 0 ==> r < accounts@.len() && crate::ids::id_matches(accounts@[r as int].id, query@)
                && (forall|i: int|
                0 <= i < r ==> !crate::ids::id_matches(#[trigger] accounts@[i].id, query@)),
    {
        let n = accounts.len();
        let mut i: usize = 0;
        while i < n
            invariant
                n == accounts@.len(),
                n < 0x8000_0000,
                0 <= i <= n,
                forall|k: int|
                    0 <= k < i ==> !crate::ids::id_matches(#[trigger] accounts@[k].id, query@),
            decreases n - i,
        {
            if crate::ids::id_matches_exec(accounts[i].id, query) {
                return i as i32;
            }
            i += 1;
        }
        -1
    }

    /// Applies one field edit: "name" renames and reports the old and
    /// new names for the cascade, "value" parses the payload as money,
    /// any other field name changes nothing.
    pub fn edit(&mut self, field: &String, payload: &String) -> (r: AccountField)
        ensures
            final(self).id == old(self).id,
            match r {
                AccountField::Name(o, n) => field@ == "name"@ && o == old(self).name && n
                    == final(self).name && final(self).name == *payload && final(self).value == old(
                    self,
                ).value,
                AccountField::Value => field@ == "value"@ && final(self).name == old(self).name
                    && final(self).value as int == spec_try_into_money(payload@),
                AccountField::Unchanged => field@ != "name"@ && field@ != "value"@ && *final(self)
                    == *old(self),
            },
            old(self).wf() ==> final(self).wf(),
    {
        if crate::text::str_eq(field.as_str(), "name") {
            let tmp = self.name.clone();
            self.name = payload.clone();
            AccountField::Name(tmp, self.name.clone())
        } else if crate::text::str_eq(field.as_str(), "value") {
            self.value = try_into_money(payload);
            AccountField::Value
        } else {
            AccountField::Unchanged
        }
    }

    /// One line of the account file: name, value, newline.
    pub fn to_cls(&self) -> (r: String)
        requires
            self.wf(),
        ensures
            r@ == account_line(self.fields()),
    {
        let mut st = String::new();
        st.append(self.name.as_str());
        push_char(&mut st, ',');
        let v = money_to_string(self.value);
        st.append(v.as_str());
        push_char(&mut st, '\n');
        assert(st@ =~= account_line(self.fields()));
        st
    }
}

/// Round trip: the line written for storable fields reads back to
/// exactly those fields.
pub proof fn lemma_account_line_round_trip(f: AccountFields)
    requires
        field_text_ok(f.name),
        money_in_range(f.value),
    ensures
        account_line(f).len() >= 1,
        account_line(f).last() == '\n',
        no_newline(account_line(f).drop_last()),
        account_line(f).drop_last().len() >= 1,
        decode_account_line(account_line(f).drop_last()) == f,
{
    let body = f.name + seq![','] + money_string(f.value);
    assert(account_line(f).drop_last() =~= body);
    crate::money::lemma_money_string_charset(f.value);
    let ms = money_string(f.value);
    assert forall|i: int| 0 <= i < ms.len() implies #[trigger] ms[i] != ',' && ms[i] != '\n' by {
        crate::money::lemma_digit_excludes(ms[i]);
    }
    crate::text::lemma_split_cells_prepend(f.name, ms, ',');
    crate::text::lemma_split_cells_whole(ms, ',');
    assert(body =~= f.name + seq![','] + ms);
    assert(split_cells(body, ',') == seq![f.name] + seq![ms]);
    assert(split_cells(body, ',') =~= seq![f.name, ms]);
    crate::money::lemma_money_round_trip(f.value);
    assert(decode_account_line(body).name == f.name);
    assert(decode_account_line(body).value == f.value);
    assert(decode_account_line(body) == f);
    assert(body.len() >= 1);
    assert forall|i: int| 0 <= i < body.len() implies #[trigger] body[i] != '\n' by {
        if i < f.name.len() {
            assert(body[i] == f.name[i]);
        } else if i == f.name.len() {
            assert(body[i] == ',');
        } else {
            assert(body[i] == ms[i - f.name.len() - 1]);
        }
    }
}

} // verus!
