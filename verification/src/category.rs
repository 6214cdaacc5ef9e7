//! Budget categories: a user-set target and a derived actual. Recompute
//! sets the actual to the rounded sum of the transactions naming this
//! category, transfers excluded.
use crate::ids::{fresh_id, simple_id, simple_id_spec};
use crate::money::{
    money_in_range, money_string, money_to_string, parse_money, spec_parse_money,
    spec_try_into_money, try_into_money,
};
use crate::text::{push_char, split_cells};
use vstd::prelude::*;
use vstd::string::{StrSliceExecFns, StringExecFns};

verus! {

/// Which category field an edit changed: a rename carries the old and
/// new name so the caller can cascade it into the transactions.
pub enum CategoryField {
    Unchanged,
    Name(String, String),
    Expected,
}

pub struct Category {
    pub id: u128,
    pub name: String,
    pub expected: i64,
    pub actual: i64,
}

/// The persisted fields of a category; identifiers are never persisted.
pub struct CategoryFields {
    pub name: Seq<char>,
    pub expected: int,
    pub actual: int,
}

/// One line of the category file: name, expected, actual, newline.
pub open spec fn category_line(f: CategoryFields) -> Seq<char> {
    f.name + seq![','] + money_string(f.expected) + seq![','] + money_string(f.actual)
        + seq!['\n']
}

/// Fields read from the cells of one line; missing numeric cells
/// default to zero.
pub open spec fn decode_category_cells(cells: Seq<Seq<char>>) -> CategoryFields {
    CategoryFields {
        name: if cells.len() >= 1 {
            cells[0]
        } else {
            Seq::empty()
        },
        expected: if cells.len() >= 2 {
            spec_parse_money(cells[1])
        } else {
            0
        },
        actual: if cells.len() >= 3 {
            spec_parse_money(cells[2])
        } else {
            0
        },
    }
}

/// Fields read from one line of the category file.
pub open spec fn decode_category_line(l: Seq<char>) -> CategoryFields {
    decode_category_cells(split_cells(l, ','))
}

impl Category {
    /// The persisted fields.
    pub open spec fn fields(&self) -> CategoryFields {
        CategoryFields {
            name: self.name@,
            expected: self.expected as int,
            actual: self.actual as int,
        }
    }

    /// Both stored amounts are representable.
    pub open spec fn wf(&self) -> bool {
        money_in_range(self.expected as int) && money_in_range(self.actual as int)
    }

    /// The six-character display form of the identifier.
    pub fn get_simple_id(&self) -> (r: String)
        ensures
            r@ == simple_id_spec(self.id),
    {
        simple_id(self.id)
    }

    pub fn get_name(&self) -> (r: &str)
        ensures
            r@ == self.name@,
    {
        self.name.as_str()
    }

    pub fn set_name(&mut self, new_name: String)
        ensures
            final(self).name == new_name,
            final(self).id == old(self).id,
            final(self).expected == old(self).expected,
            final(self).actual == old(self).actual,
    {
        self.name = new_name;
    }

    pub fn get_expected(&self) -> (r: i64)
        ensures
            r == self.expected,
    {
        self.expected
    }

    pub fn get_actual(&self) -> (r: i64)
        ensures
            r == self.actual,
    {
        self.actual
    }

    pub fn set_actual(&mut self, new_actual: i64)
        ensures
            final(self).actual == new_actual,
            final(self).id == old(self).id,
            final(self).name == old(self).name,
            final(self).expected == old(self).expected,
    {
        self.actual = new_actual;
    }

    /// A category decoded from the cells of one line, with the usual
    /// defaults and a brand-new identifier.
    pub fn from_cls(
        possible_name: Option<&str>,
        possible_expected: Option<&str>,
        possible_actual: Option<&str>,
    ) -> (r: Category)
        ensures
            r.name@ == (match possible_name {
                Some(n) => n@,
                None => Seq::<char>::empty(),
            }),
            r.expected as int == (match possible_expected {
                Some(v) => spec_parse_money(v@),
                None => 0int,
            }),
            r.actual as int == (match possible_actual {
                Some(v) => spec_parse_money(v@),
                None => 0int,
            }),
            r.wf(),
    {
        let name = match possible_name {
            Some(n) => n.to_owned(),
            None => String::new(),
        };
        let expected = match possible_expected {
            Some(v) => parse_money(v),
            None => 0,
        };
        let actual = match possible_actual {
            Some(v) => parse_money(v),
            None => 0,
        };
        Category { id: fresh_id(), name, expected, actual }
    }

    /// A new category with the given name, the entered target, and a
    /// zero actual.
    pub fn new(name: String, possible_expected: &String) -> (r: Category)
        ensures
            r.name == name,
            r.expected as int == spec_try_into_money(possible_expected@),
            r.actual == 0,
            r.wf(),
    {
        let expected = try_into_money(possible_expected);
        Category { id: fresh_id(), name, expected, actual: 0 }
    }

    /// Index of the first category whose displayed identifier contains
    /// the query, scanning in insertion order; -1 when none does.
    pub fn find(categories: &Vec<Category>, query: &str) -> (r: i32)
        requires
            categories@.len() < 0x8000_0000,
        ensures
            -1 <= r,
            r == -1 ==> forall|i: int|
                0 <= i < categories@.len() ==> !crate::ids::id_matches(
                    #[trigger] categories@[i].id,
                    query@,
                ),
            r >= 0 ==> r < categories@.len() && crate::ids::id_matches(
                categories@[r as int].id,
                query@,
            ) && (forall|i: int|
                0 <= i < r ==> !crate::ids::id_matches(#[trigger] categories@[i].id, query@)),
    {
        let n = categories.len();
        let mut i: usize = 0;
        while i < n
            invariant
                n == categories@.len(),
                n < 0x8000_0000,
                0 <= i <= n,
                forall|k: int|
                    0 <= k < i ==> !crate::ids::id_matches(#[trigger] categories@[k].id, query@),
            decreases n - i,
        {
            if crate::ids::id_matches_exec(categories[i].id, query) {
                return i as i32;
            }
            i += 1;
        }
        -1
    }

    /// Applies one field edit: "name" renames and reports the old and
    /// new names for the cascade, "expected" parses the payload as
    /// money, any other field name changes nothing.
    pub fn edit(&mut self, field: &String, payload: &String) -> (r: CategoryField)
        ensures
            final(self).id == old(self).id,
            final(self).actual == old(self).actual,
            match r {
                CategoryField::Name(o, n) => field@ == "name"@ && o == old(self).name && n
                    == final(self).name && final(self).name == *payload && final(self).expected
                    == old(self).expected,
                CategoryField::Expected => field@ == "expected"@ && final(self).name == old(
                    self,
                ).name && final(self).expected as int == spec_try_into_money(payload@),
                CategoryField::Unchanged => field@ != "name"@ && field@ != "expected"@
                    && *final(self) == *old(self),
            },
            old(self).wf() ==> final(self).wf(),
    {
        if crate::text::str_eq(field.as_str(), "name") {
            let tmp = self.name.clone();
            self.name = payload.clone();
            CategoryField::Name(tmp, self.name.clone())
        } else if crate::text::str_eq(field.as_str(), "expected") {
            self.expected = try_into_money(payload);
            CategoryField::Expected
        } else {
            CategoryField::Unchanged
        }
    }

    /// One line of the category file: name, expected, actual, newline.
    pub fn to_cls(&self) -> (r: String)
        requires
            self.wf(),
        ensures
            r@ == category_line(self.fields()),
    {
        let mut st = String::new();
        st.append(self.name.as_str());
        push_char(&mut st, ',');
        let e = money_to_string(self.expected);
        st.append(e.as_str());
        push_char(&mut st, ',');
        let a = money_to_string(self.actual);
        st.append(a.as_str());
        push_char(&mut st, '\n');
        assert(st@ =~= category_line(self.fields()));
        st
    }
}

/// Round trip: the line written for storable fields reads back to
/// exactly those fields.
pub proof fn lemma_category_line_round_trip(f: CategoryFields)
    requires
        crate::account::field_text_ok(f.name),
        money_in_range(f.expected),
        money_in_range(f.actual),
    ensures
        category_line(f).len() >= 1,
        category_line(f).last() == '\n',
        crate::account::no_newline(category_line(f).drop_last()),
        category_line(f).drop_last().len() >= 1,
        decode_category_line(category_line(f).drop_last()) == f,
{
    let me = money_string(f.expected);
    let ma = money_string(f.actual);
    let body = f.name + seq![','] + me + seq![','] + ma;
    assert(category_line(f).drop_last() =~= body);
    crate::money::lemma_money_string_charset(f.expected);
    crate::money::lemma_money_string_charset(f.actual);
    assert forall|i: int| 0 <= i < me.len() implies #[trigger] me[i] != ',' && me[i] != '\n' by {
        crate::money::lemma_digit_excludes(me[i]);
    }
    assert forall|i: int| 0 <= i < ma.len() implies #[trigger] ma[i] != ',' && ma[i] != '\n' by {
        crate::money::lemma_digit_excludes(ma[i]);
    }
    let tail = me + seq![','] + ma;
    assert(body =~= f.name + seq![','] + tail);
    crate::text::lemma_split_cells_prepend(f.name, tail, ',');
    crate::text::lemma_split_cells_prepend(me, ma, ',');
    crate::text::lemma_split_cells_whole(ma, ',');
    assert(split_cells(body, ',') == seq![f.name] + (seq![me] + seq![ma]));
    assert(split_cells(body, ',') =~= seq![f.name, me, ma]);
    crate::money::lemma_money_round_trip(f.expected);
    crate::money::lemma_money_round_trip(f.actual);
    assert(decode_category_line(body) == f);
    assert forall|i: int| 0 <= i < body.len() implies #[trigger] body[i] != '\n' by {
        if i < f.name.len() {
            assert(body[i] == f.name[i]);
        } else if i == f.name.len() {
            assert(body[i] == ',');
        } else if i < f.name.len() + 1 + me.len() {
            assert(body[i] == me[i - f.name.len() - 1]);
        } else if i == f.name.len() + 1 + me.len() {
            assert(body[i] == ',');
        } else {
            assert(body[i] == ma[i - f.name.len() - 2 - me.len()]);
        }
    }
}

} // verus!
