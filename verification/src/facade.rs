//! The enumeration facade: the uniform read-side contract over the four
//! index levels, implemented by the in-memory lookup store. A level query
//! never fails for missing data; it returns the empty, sorted list.

use crate::keys::{root_key, year_key, ym_key, ymd_key, year_key_of, ym_key_of, ymd_key_of};
use crate::lookup::LookupStore;
use crate::text::{seq_le, strict_sorted};
use vstd::prelude::*;

verus! {

/// A `Result` of string lists by its views.
pub open spec fn res_list_view(r: Result<Vec<String>, String>) -> Result<Seq<Seq<char>>, Seq<char>> {
    match r {
        Ok(v) => Ok(v.deep_view()),
        Err(e) => Err(e@),
    }
}

/// Non-strictly sorted in the lexicographic order.
pub open spec fn sorted_le(s: Seq<Seq<char>>) -> bool {
    forall|i: int, j: int| 0 <= i < j < s.len() ==> seq_le(#[trigger] s[i], #[trigger] s[j])
}

/// The searching shared by the item store and the bucket: every backend
/// answers the four date levels in the same shape, sorted ascending.
pub trait GetFileListTrait {
    /// The implementor's validity condition.
    spec fn inv(&self) -> bool;

    /// What the years query answers.
    spec fn years_list(&self) -> Result<Seq<Seq<char>>, Seq<char>>;

    /// What the months query answers for a year.
    spec fn months_list(&self, years: int) -> Result<Seq<Seq<char>>, Seq<char>>;

    /// What the days query answers for a year and month.
    spec fn days_list(&self, year: int, month: int) -> Result<Seq<Seq<char>>, Seq<char>>;

    /// What the objects query answers for a year, month and day.
    spec fn objects_list(&self, year: int, month: int, day: int) -> Result<
        Seq<Seq<char>>,
        Seq<char>,
    >;

    /// Get the years list, sorted.
    fn get_years(&self) -> (r: Result<Vec<String>, String>)
        requires
            self.inv(),
        ensures
            res_list_view(r) == self.years_list(),
            r matches Ok(v) ==> sorted_le(v.deep_view()),
    ;

    /// Get a year's months list, sorted.
    fn get_months(&self, years: usize) -> (r: Result<Vec<String>, String>)
        requires
            self.inv(),
        ensures
            res_list_view(r) == self.months_list(years as int),
            r matches Ok(v) ==> sorted_le(v.deep_view()),
    ;

    /// Get a year-month's days list, sorted.
    fn get_days(&self, year: usize, month: usize) -> (r: Result<Vec<String>, String>)
        requires
            self.inv(),
        ensures
            res_list_view(r) == self.days_list(year as int, month as int),
            r matches Ok(v) ==> sorted_le(v.deep_view()),
    ;

    /// Get a year-month-day's objects list, sorted.
    fn get_objects(&self, year: usize, month: usize, day: usize) -> (r: Result<Vec<String>, String>)
        requires
            self.inv(),
        ensures
            res_list_view(r) == self.objects_list(year as int, month as int, day as int),
            r matches Ok(v) ==> sorted_le(v.deep_view()),
    ;
}

impl GetFileListTrait for LookupStore {
    /// The store's well-formedness.
    open spec fn inv(&self) -> bool {
        self.wf()
    }

    /// The members under `root`.
    open spec fn years_list(&self) -> Result<Seq<Seq<char>>, Seq<char>> {
        Ok(self.spec_get(root_key()))
    }

    /// The members under the year's key.
    open spec fn months_list(&self, years: int) -> Result<Seq<Seq<char>>, Seq<char>> {
        Ok(self.spec_get(year_key(years)))
    }

    /// The members under the year-month key.
    open spec fn days_list(&self, year: int, month: int) -> Result<Seq<Seq<char>>, Seq<char>> {
        Ok(self.spec_get(ym_key(year, month)))
    }

    /// The members under the year-month-day key.
    open spec fn objects_list(&self, year: int, month: int, day: int) -> Result<
        Seq<Seq<char>>,
        Seq<char>,
    > {
        Ok(self.spec_get(ymd_key(year, month, day)))
    }

    fn get_years(&self) -> (r: Result<Vec<String>, String>) {
        let root = "root";
        proof {
            reveal_strlit("root");
            assert(root@ =~= root_key());
            self.lemma_stored_sorted(root_key());
            lemma_strict_le(self.spec_get(root_key()));
        }
        Ok(self.get_list(root))
    }

    fn get_months(&self, years: usize) -> (r: Result<Vec<String>, String>) {
        let key = year_key_of(years as u64);
        proof {
            self.lemma_stored_sorted(year_key(years as int));
            lemma_strict_le(self.spec_get(year_key(years as int)));
        }
        Ok(self.get_list(key.as_str()))
    }

    fn get_days(&self, year: usize, month: usize) -> (r: Result<Vec<String>, String>) {
        let key = ym_key_of(year as u64, month as u64);
        proof {
            self.lemma_stored_sorted(ym_key(year as int, month as int));
            lemma_strict_le(self.spec_get(ym_key(year as int, month as int)));
        }
        Ok(self.get_list(key.as_str()))
    }

    fn get_objects(&self, year: usize, month: usize, day: usize) -> (r: Result<Vec<String>, String>) {
        let key = ymd_key_of(year as u64, month as u64, day as u64);
        proof {
            self.lemma_stored_sorted(ymd_key(year as int, month as int, day as int));
            lemma_strict_le(self.spec_get(ymd_key(year as int, month as int, day as int)));
        }
        Ok(self.get_list(key.as_str()))
    }
}

/// Strict sortedness is sortedness.
proof fn lemma_strict_le(s: Seq<Seq<char>>)
    requires
        strict_sorted(s),
    ensures
        sorted_le(s),
{
}

} // verus!
