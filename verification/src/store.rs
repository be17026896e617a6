//! The in-memory date mapper of the desktop application: the same
//! merge-on-write membership lists, keyed by the year, year-month and
//! year-month-day strings the caller supplies.

use crate::errors::ExogenesisError;
use crate::keys::root_key;
use crate::lookup::LookupStore;
use crate::text::strict_sorted;
use vstd::prelude::*;

verus! {

/// In-memory lists of the years, months, days and objects seen so far.
pub struct DateMapper {
    store: LookupStore,
}

impl DateMapper {
    /// Well-formed: the underlying store is.
    pub closed spec fn wf(self) -> bool {
        self.store.wf()
    }

    /// The members stored under a key.
    pub closed spec fn map_get(self, k: Seq<char>) -> Seq<Seq<char>> {
        self.store.spec_get(k)
    }

    /// Get the years, sorted.
    pub fn years(&self) -> (r: Result<Vec<String>, ExogenesisError>)
        requires
            self.wf(),
        ensures
            r matches Ok(v) && v.deep_view() == self.map_get(root_key()),
            strict_sorted(self.map_get(root_key())),
    {
        let root = "root";
        proof {
            reveal_strlit("root");
            assert(root@ =~= root_key());
            self.store.lemma_stored_sorted(root_key());
        }
        Ok(self.store.get_list(root))
    }

    /// Get a year's months, sorted.
    pub fn months(&self, year: &str) -> (r: Result<Vec<String>, ExogenesisError>)
        requires
            self.wf(),
        ensures
            r matches Ok(v) && v.deep_view() == self.map_get(year@),
            strict_sorted(self.map_get(year@)),
    {
        proof {
            self.store.lemma_stored_sorted(year@);
        }
        Ok(self.store.get_list(year))
    }

    /// Get a year-month's days, sorted.
    pub fn days(&self, year: &str, month: &str) -> (r: Result<Vec<String>, ExogenesisError>)
        requires
            self.wf(),
        ensures
            r matches Ok(v) && v.deep_view() == self.map_get(year@ + seq!['-'] + month@),
            strict_sorted(self.map_get(year@ + seq!['-'] + month@)),
    {
        let key = join_key2(year, month);
        proof {
            self.store.lemma_stored_sorted(year@ + seq!['-'] + month@);
        }
        Ok(self.store.get_list(key.as_str()))
    }

    /// Get a year-month-day's objects, sorted.
    pub fn objects(&self, year: &str, month: &str, day: &str) -> (r: Result<
        Vec<String>,
        ExogenesisError,
    >)
        requires
            self.wf(),
        ensures
            r matches Ok(v) && v.deep_view() == self.map_get(
                year@ + seq!['-'] + month@ + seq!['-'] + day@,
            ),
            strict_sorted(self.map_get(year@ + seq!['-'] + month@ + seq!['-'] + day@)),
    {
        let key = join_key3(year, month, day);
        proof {
            self.store.lemma_stored_sorted(year@ + seq!['-'] + month@ + seq!['-'] + day@);
        }
        Ok(self.store.get_list(key.as_str()))
    }

    /// Add new years data.
    pub fn add_years(&mut self, years: Vec<String>) -> (r: Result<(), ExogenesisError>)
        requires
            old(self).wf(),
        ensures
            final(self).wf(),
            r is Ok,
            forall|m: Seq<char>|
                #![trigger final(self).map_get(root_key()).contains(m)]
                final(self).map_get(root_key()).contains(m) <==> (old(self).map_get(
                    root_key(),
                ).contains(m) || years.deep_view().contains(m)),
            forall|k: Seq<char>|
                k != root_key() ==> final(self).map_get(k) == old(self).map_get(k),
    {
        let root = "root";
        proof {
            reveal_strlit("root");
            assert(root@ =~= root_key());
        }
        self.store.merge_and_maybe_write(root, &years);
        Ok(())
    }

    /// Add new months data for a year.
    pub fn add_months(&mut self, year: &str, months: Vec<String>) -> (r: Result<
        (),
        ExogenesisError,
    >)
        requires
            old(self).wf(),
        ensures
            final(self).wf(),
            r is Ok,
            forall|m: Seq<char>|
                #![trigger final(self).map_get(year@).contains(m)]
                final(self).map_get(year@).contains(m) <==> (old(self).map_get(year@).contains(m)
                    || months.deep_view().contains(m)),
            forall|k: Seq<char>| k != year@ ==> final(self).map_get(k) == old(self).map_get(k),
    {
        self.store.merge_and_maybe_write(year, &months);
        Ok(())
    }

    /// Add new days data for a year and month.
    pub fn add_days(&mut self, year: &str, month: &str, days: Vec<String>) -> (r: Result<
        (),
        ExogenesisError,
    >)
        requires
            old(self).wf(),
        ensures
            final(self).wf(),
            r is Ok,
            forall|m: Seq<char>|
                #![trigger final(self).map_get(year@ + seq!['-'] + month@).contains(m)]
                final(self).map_get(year@ + seq!['-'] + month@).contains(m) <==> (old(
                    self,
                ).map_get(year@ + seq!['-'] + month@).contains(m) || days.deep_view().contains(m)),
            forall|k: Seq<char>|
                k != year@ + seq!['-'] + month@ ==> final(self).map_get(k) == old(self).map_get(k),
    {
        let key = join_key2(year, month);
        self.store.merge_and_maybe_write(key.as_str(), &days);
        Ok(())
    }

    /// Add new objects data for a year, month and day.
    pub fn add_objects(&mut self, year: &str, month: &str, day: &str, objects: Vec<String>) -> (r:
        Result<(), ExogenesisError>)
        requires
            old(self).wf(),
        ensures
            final(self).wf(),
            r is Ok,
            forall|m: Seq<char>|
                #![trigger final(self).map_get(year@ + seq!['-'] + month@ + seq!['-'] + day@).contains(m)]
                final(self).map_get(year@ + seq!['-'] + month@ + seq!['-'] + day@).contains(m)
                    <==> (old(self).map_get(
                    year@ + seq!['-'] + month@ + seq!['-'] + day@,
                ).contains(m) || objects.deep_view().contains(m)),
            forall|k: Seq<char>|
                k != year@ + seq!['-'] + month@ + seq!['-'] + day@ ==> final(self).map_get(k)
                    == old(self).map_get(k),
    {
        let key = join_key3(year, month, day);
        self.store.merge_and_maybe_write(key.as_str(), &objects);
        Ok(())
    }
}

impl Default for DateMapper {
    /// An empty mapper.
    fn default() -> (r: Self)
        ensures
            r.wf(),
            forall|k: Seq<char>| r.map_get(k) == Seq::<Seq<char>>::empty(),
    {
        DateMapper { store: LookupStore::new() }
    }
}

/// Join two parts with a dash.
fn join_key2(a: &str, b: &str) -> (r: String)
    ensures
        r@ == a@ + seq!['-'] + b@,
{
    proof {
        reveal_strlit("-");
    }
    let mut r = a.to_owned();
    r.append("-");
    r.append(b);
    proof {
        assert(r@ =~= a@ + seq!['-'] + b@);
    }
    r
}

/// Join three parts with dashes.
fn join_key3(a: &str, b: &str, c: &str) -> (r: String)
    ensures
        r@ == a@ + seq!['-'] + b@ + seq!['-'] + c@,
{
    proof {
        reveal_strlit("-");
    }
    let mut r = a.to_owned();
    r.append("-");
    r.append(b);
    r.append("-");
    r.append(c);
    proof {
        assert(r@ =~= a@ + seq!['-'] + b@ + seq!['-'] + c@);
    }
    r
}

} // verus!
