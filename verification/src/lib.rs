//! A personal ledger: accounts, budget categories, and transactions,
//! kept consistent under edits, recomputed from transaction history,
//! rolled over at period end, and serialized to a flat line format.
//!
//! The driver loop around this library prompts, reads and writes files,
//! and renders tables; it hands validated commands to [`run`] and
//! performs the [`Action`] handed back.
use vstd::prelude::*;

pub mod account;
pub mod category;
pub mod data;
pub mod date;
pub mod ids;
pub mod money;
pub mod text;
pub mod transaction;

pub use money::money_round;

use crate::data::{
    added, decode_accounts, decode_categories, decode_transactions, deleted, edited, rolled,
    updated, AddCmd, Data, DataType, LedgerError, Snapshot,
};
use crate::date::{date_valid, Date};
use crate::text::{spec_ends_with, str_ends_with};
use vstd::string::StringExecFns;

verus! {

/// One validated command of the read-eval loop, payloads included: the
/// excluded prompt layer parses text and dates, the core decides.
pub enum Command {
    Help,
    Cancel,
    Quit,
    Update,
    Empty,
    Add(AddCmd),
    Edit(DataType, String, String, String),
    Delete(DataType, String),
    Search(String),
    List(DataType),
    RollOver(Date, String),
}

/// What the driver must do after one step: nothing, show help, stop,
/// persist a snapshot (and possibly stop), render a listing, render
/// search hits, or report a failed recompute.
pub enum Action {
    Continue,
    ShowHelp,
    Stop,
    SaveAndStop(Snapshot),
    Save(Snapshot),
    Show(DataType),
    Matches(Vec<usize>),
    Failed(LedgerError),
}

/// One step of the read-eval loop: applies the command to the store and
/// says what outside work is left to the driver.
pub fn run(data: &mut Data, cmd: Command) -> (r: Action)
    requires
        old(data).inv(),
        old(data).accounts@.len() < 0x8000_0000,
        old(data).categories@.len() < 0x8000_0000,
        old(data).transactions@.len() < 0x8000_0000,
        match cmd {
            Command::Add(AddCmd::Transaction { date, .. }) => date_valid(date),
            Command::Add(AddCmd::Transfer { date, .. }) => date_valid(date),
            Command::RollOver(first, _) => date_valid(first),
            _ => true,
        },
    ensures
        final(data).inv(),
        match cmd {
            Command::Help => r is ShowHelp && *final(data) == *old(data),
            Command::Cancel => r is Stop && *final(data) == *old(data),
            Command::Empty => r is Continue && *final(data) == *old(data),
            Command::Quit => *final(data) == *old(data) && (match r {
                Action::SaveAndStop(snap) => snap.accounts@ == data::encode_accounts(
                    old(data).accounts_fields(),
                ) && snap.categories@ == data::encode_categories(old(data).categories_fields())
                    && snap.transactions@ == data::encode_transactions(
                    old(data).transactions_fields(),
                ),
                _ => false,
            }),
            Command::Update => (match r {
                Action::Continue => updated(*old(data), *final(data)),
                Action::Failed(e) => e == LedgerError::Overflow && *final(data) == *old(data),
                _ => false,
            }),
            Command::Add(c) => r is Continue && added(*old(data), *final(data), c),
            Command::Edit(kind, query, field, payload) => r is Continue && edited(
                *old(data),
                *final(data),
                kind,
                query@,
                field@,
                &payload,
            ),
            Command::Delete(kind, query) => r is Continue && deleted(
                *old(data),
                *final(data),
                kind,
                query@,
            ),
            Command::Search(arg) => *final(data) == *old(data) && (match r {
                Action::Matches(v) => v@.map_values(|u: usize| u as int)
                    == transaction::Transaction::matching_indices_from(
                    old(data).transactions_fields(),
                    arg@,
                    0,
                ),
                _ => false,
            }),
            Command::List(kind) => *final(data) == *old(data) && (match r {
                Action::Show(k) => k == kind,
                _ => false,
            }),
            Command::RollOver(first, label) => (match r {
                Action::Save(snap) => rolled(*old(data), *final(data), snap, first, label@),
                Action::Failed(e) => e == LedgerError::Overflow && *final(data) == *old(data),
                _ => false,
            }),
        },
{
    match cmd {
        Command::Help => Action::ShowHelp,
        Command::Cancel => Action::Stop,
        Command::Empty => Action::Continue,
        Command::Quit => Action::SaveAndStop(data.snapshot()),
        Command::Update => match data.update() {
            Ok(()) => Action::Continue,
            Err(e) => Action::Failed(e),
        },
        Command::Add(c) => {
            data.add(c);
            Action::Continue
        },
        Command::Edit(kind, query, field, payload) => {
            data.edit(kind, &query, &field, &payload);
            Action::Continue
        },
        Command::Delete(kind, query) => {
            data.delete(kind, &query);
            Action::Continue
        },
        Command::Search(arg) => Action::Matches(data.search(&arg)),
        Command::List(kind) => Action::Show(kind),
        Command::RollOver(first, label) => match data.roll(first, &label) {
            Ok(snap) => Action::Save(snap),
            Err(e) => Action::Failed(e),
        },
    }
}

/// Where one period lives on disk: its year and month, and the full
/// directory path under the ledger root.
pub struct DirPath {
    pub month: String,
    pub year: String,
    pub full: String,
}

/// The period directory under the given home: home, the ledger folder,
/// the year, the month.
pub fn get_dir_path(home: &String, year: String, month: String) -> (r: DirPath)
    ensures
        r.year == year,
        r.month == month,
        r.full@ == home@ + "/budget_tracker/"@ + year@ + "/"@ + month@,
{
    let mut full = home.clone();
    full.append("/budget_tracker/");
    full.append(year.as_str());
    full.append("/");
    full.append(month.as_str());
    DirPath { month, year, full }
}

/// Loads one file's text into the collection its name selects; a file
/// with an unexpected name is ignored. Only a transaction load can
/// fail, on a malformed date.
pub fn parse_file(new_data: &mut Data, contents: String, filename: &String) -> (r: Result<
    (),
    LedgerError,
>)
    requires
        old(new_data).inv(),
    ensures
        final(new_data).inv(),
        spec_ends_with(filename@, "Account.cls"@) ==> r is Ok && final(new_data).accounts_fields()
            == decode_accounts(contents@) && final(new_data).categories == old(new_data).categories
            && final(new_data).transactions == old(new_data).transactions,
        !spec_ends_with(filename@, "Account.cls"@) && spec_ends_with(filename@, "Category.cls"@)
            ==> r is Ok && final(new_data).categories_fields() == decode_categories(contents@)
            && final(new_data).accounts == old(new_data).accounts && final(new_data).transactions
            == old(new_data).transactions,
        !spec_ends_with(filename@, "Account.cls"@) && !spec_ends_with(filename@, "Category.cls"@)
            && spec_ends_with(filename@, "Transaction.cls"@) ==> (match r {
            Ok(()) => decode_transactions(contents@) == Some(final(new_data).transactions_fields())
                && final(new_data).accounts == old(new_data).accounts && final(new_data).categories
                == old(new_data).categories,
            Err(e) => e == LedgerError::BadDate && decode_transactions(contents@) is None && *final(new_data) == *old(new_data),
        }),
        !spec_ends_with(filename@, "Account.cls"@) && !spec_ends_with(filename@, "Category.cls"@)
            && !spec_ends_with(filename@, "Transaction.cls"@) ==> r is Ok && *final(new_data)
            == *old(new_data),
{
    if str_ends_with(filename.as_str(), "Account.cls") {
        new_data.build_accounts(contents);
        Ok(())
    } else if str_ends_with(filename.as_str(), "Category.cls") {
        new_data.build_categories(contents);
        Ok(())
    } else if str_ends_with(filename.as_str(), "Transaction.cls") {
        new_data.build_transactions(contents)
    } else {
        Ok(())
    }
}

} // verus!
