//! Batch ingestion: derive the four levels of lookup members from a batch
//! of collection items and merge each level into the lookup store, one
//! composite key at a time. Each level's merges touch distinct keys; a
//! failed path parse aborts before anything is written.

use crate::collection::{
    batch_has_year, batch_has_ym, batch_has_ymd, day_member, first_fail, item_day, item_month,
    item_ok, item_year, month_member, object_member, year_member, CollectionItem, LookUpItems,
};
use crate::keys::{
    is_ym_key, is_ymd_key, is_year_key, lemma_key_injective, lemma_key_levels, root_key, year_key,
    year_key_of, ym_key, ym_key_of, ymd_key, ymd_key_of,
};
use crate::lookup::LookupStore;
use vstd::prelude::*;

verus! {

/// The composite keys a batch writes: `root` and the year, year-month and
/// year-month-day keys of its items.
pub open spec fn touched(b: Seq<CollectionItem>, k: Seq<char>) -> bool {
    ||| k == root_key()
    ||| exists|i: int|
        0 <= i < b.len() && item_ok(#[trigger] b[i]) && (k == year_key(item_year(b[i])) || k
            == ym_key(item_year(b[i]), item_month(b[i])) || k == ymd_key(
            item_year(b[i]),
            item_month(b[i]),
            item_day(b[i]),
        ))
}

/// What a successful ingestion leaves behind: each level's lists hold
/// exactly their old members plus the batch's contribution, and every key
/// the batch does not derive is untouched.
pub open spec fn ingest_post(pre: LookupStore, post: LookupStore, b: Seq<CollectionItem>) -> bool {
    &&& forall|m: Seq<char>|
        #![trigger post.spec_get(root_key()).contains(m)]
        post.spec_get(root_key()).contains(m) <==> (pre.spec_get(root_key()).contains(m) || year_member(
            b,
            m,
        ))
    &&& forall|y: int, m: Seq<char>|
        #![trigger post.spec_get(year_key(y)).contains(m)]
        0 <= y ==> (post.spec_get(year_key(y)).contains(m) <==> (pre.spec_get(
            year_key(y),
        ).contains(m) || month_member(b, y, m)))
    &&& forall|y: int, mo: int, m: Seq<char>|
        #![trigger post.spec_get(ym_key(y, mo)).contains(m)]
        0 <= y && 0 <= mo ==> (post.spec_get(ym_key(y, mo)).contains(m) <==> (pre.spec_get(
            ym_key(y, mo),
        ).contains(m) || day_member(b, y, mo, m)))
    &&& forall|y: int, mo: int, d: int, m: Seq<char>|
        #![trigger post.spec_get(ymd_key(y, mo, d)).contains(m)]
        0 <= y && 0 <= mo && 0 <= d ==> (post.spec_get(ymd_key(y, mo, d)).contains(m) <==> (
        pre.spec_get(ymd_key(y, mo, d)).contains(m) || object_member(b, y, mo, d, m)))
    &&& forall|k: Seq<char>|
        #![trigger post.spec_get(k)]
        !touched(b, k) ==> post.spec_get(k) == pre.spec_get(k)
}

impl LookupStore {
    /// Ingest a batch: merge the batch's years into `root`, its months into
    /// each year's key, its days into each year-month's key and its object
    /// keys into each year-month-day's key. An item whose path is not
    /// canonical fails the batch with its parse error, before any write.
    #[verifier::rlimit(100)]
    pub fn put_collection_items(&mut self, collections: &Vec<CollectionItem>) -> (r: Result<
        (),
        String,
    >)
        requires
            old(self).wf(),
        ensures
            final(self).wf(),
            match first_fail(collections@) {
                Some(m) => {
                    &&& r matches Err(e) && e@ == m
                    &&& *final(self) == *old(self)
                },
                None => {
                    &&& r is Ok
                    &&& ingest_post(*old(self), *final(self), collections@)
                },
            },
    {
        let ghost b = collections@;
        let ghost s0 = *self;
        let items = match LookUpItems::new(collections) {
            Ok(items) => items,
            Err(e) => {
                return Err(e);
            },
        };
        // years level
        let root = "root";
        proof {
            reveal_strlit("root");
            assert(root@ =~= root_key());
        }
        self.merge_and_maybe_write(root, &items.years);
        let ghost s1 = *self;
        proof {
            assert forall|m: Seq<char>|
                s1.spec_get(root_key()).contains(m) <==> (s0.spec_get(root_key()).contains(m)
                    || year_member(b, m)) by {
                assert(items.years.deep_view().contains(m) <==> year_member(b, m));
                assert(self.spec_get(root_key()).contains(m) <==> (s0.spec_get(root_key()).contains(m)
                    || items.years.deep_view().contains(m)));
            }
            assert forall|k: Seq<char>| k != root_key() implies s1.spec_get(k) == s0.spec_get(k) by {
                assert(self.spec_get(k) == s0.spec_get(k));
            }
        }
        // months level: one merge per distinct year
        let mut p: usize = 0;
        while p < items.months.len()
            invariant
                self.wf(),
                b == collections@,
                crate::collection::months_abs(b, items.months@),
                0 <= p <= items.months@.len(),
                forall|y: int, m: Seq<char>|
                    #![trigger self.spec_get(year_key(y)).contains(m)]
                    0 <= y && (exists|q: int|
                        0 <= q < p && (#[trigger] items.months@[q]).0 as int == y) ==> (
                    self.spec_get(year_key(y)).contains(m) <==> (s1.spec_get(
                        year_key(y),
                    ).contains(m) || month_member(b, y, m))),
                forall|y: int|
                    #![trigger self.spec_get(year_key(y))]
                    0 <= y && !(exists|q: int|
                        0 <= q < p && (#[trigger] items.months@[q]).0 as int == y) ==> self.spec_get(
                        year_key(y),
                    ) == s1.spec_get(year_key(y)),
                forall|k: Seq<char>|
                    !is_year_key(k) ==> #[trigger] self.spec_get(k) == s1.spec_get(k),
            decreases items.months@.len() - p,
        {
            let yk = items.months[p].0;
            let key = year_key_of(yk);
            let ghost before = *self;
            self.merge_and_maybe_write(key.as_str(), &items.months[p].1);
            proof {
                let yi = yk as int;
                lemma_key_levels(yi, 0, 0);
                assert forall|y: int, m: Seq<char>|
                    #![trigger self.spec_get(year_key(y)).contains(m)]
                    0 <= y && (exists|q: int|
                        0 <= q < p + 1 && (#[trigger] items.months@[q]).0 as int == y) implies (
                self.spec_get(year_key(y)).contains(m) <==> (s1.spec_get(year_key(y)).contains(m)
                    || month_member(b, y, m))) by {
                    lemma_key_injective(y, 0, 0, yi, 0, 0);
                    if y == yi {
                        let q0 = choose|q: int|
                            0 <= q < p + 1 && (#[trigger] items.months@[q]).0 as int == y;
                        if q0 < p {
                            assert(items.months@[q0].0 != items.months@[p as int].0);
                            assert(false);
                        }
                        assert(before.spec_get(year_key(y)) == s1.spec_get(year_key(y)));
                        assert(key@ == year_key(yi));
                        assert(items.months@[p as int].1.deep_view().contains(m)
                            <==> month_member(b, yi, m));
                        assert(self.spec_get(key@).contains(m) <==> (before.spec_get(
                            key@,
                        ).contains(m) || items.months@[p as int].1.deep_view().contains(m)));
                    } else {
                        assert(year_key(y) != year_key(yi));
                        assert(self.spec_get(year_key(y)) == before.spec_get(year_key(y)));
                    }
                }
                assert forall|y: int|
                    #![trigger self.spec_get(year_key(y))]
                    0 <= y && !(exists|q: int|
                        0 <= q < p + 1 && (#[trigger] items.months@[q]).0 as int == y) implies self.spec_get(
                    year_key(y),
                ) == s1.spec_get(year_key(y)) by {
                    assert(items.months@[p as int].0 as int == yi);
                    assert(y != yi);
                    lemma_key_injective(y, 0, 0, yi, 0, 0);
                    assert(self.spec_get(year_key(y)) == before.spec_get(year_key(y)));
                }
                assert forall|k: Seq<char>| !is_year_key(k) implies #[trigger] self.spec_get(k)
                    == s1.spec_get(k) by {
                    assert(k != year_key(yi));
                    assert(self.spec_get(k) == before.spec_get(k));
                }
            }
            p = p + 1;
        }
        let ghost s2 = *self;
        proof {
            assert forall|y: int, m: Seq<char>|
                #![trigger s2.spec_get(year_key(y)).contains(m)]
                0 <= y implies (s2.spec_get(year_key(y)).contains(m) <==> (s1.spec_get(
                year_key(y),
            ).contains(m) || month_member(b, y, m))) by {
                if batch_has_year(b, y) {
                    assert(exists|q: int|
                        0 <= q < items.months@.len() && (#[trigger] items.months@[q]).0 as int
                            == y);
                } else {
                    if month_member(b, y, m) {
                        let w = choose|i: int|
                            0 <= i < b.len() && item_ok(#[trigger] b[i]) && item_year(b[i]) == y
                                && m == crate::digits::dec_spec(item_month(b[i]));
                        assert(batch_has_year(b, y));
                    }
                    assert forall|q: int|
                        0 <= q < items.months@.len() implies (#[trigger] items.months@[q]).0 as int
                        != y by {
                        assert(batch_has_year(b, items.months@[q].0 as int));
                    }
                }
            }
        }
        // days level: one merge per distinct year-month
        let mut p2: usize = 0;
        while p2 < items.days.len()
            invariant
                self.wf(),
                b == collections@,
                crate::collection::days_abs(b, items.days@),
                0 <= p2 <= items.days@.len(),
                forall|y: int, mo: int, m: Seq<char>|
                    #![trigger self.spec_get(ym_key(y, mo)).contains(m)]
                    0 <= y && 0 <= mo && (exists|q: int|
                        0 <= q < p2 && (#[trigger] items.days@[q]).0 as int == y && items.days@[q].1
                            as int == mo) ==> (self.spec_get(ym_key(y, mo)).contains(m) <==> (
                    s2.spec_get(ym_key(y, mo)).contains(m) || day_member(b, y, mo, m))),
                forall|y: int, mo: int|
                    #![trigger self.spec_get(ym_key(y, mo))]
                    0 <= y && 0 <= mo && !(exists|q: int|
                        0 <= q < p2 && (#[trigger] items.days@[q]).0 as int == y && items.days@[q].1
                            as int == mo) ==> self.spec_get(ym_key(y, mo)) == s2.spec_get(
                        ym_key(y, mo),
                    ),
                forall|k: Seq<char>|
                    !is_ym_key(k) ==> #[trigger] self.spec_get(k) == s2.spec_get(k),
            decreases items.days@.len() - p2,
        {
            let yk = items.days[p2].0;
            let mk = items.days[p2].1;
            let key = ym_key_of(yk, mk);
            let ghost before = *self;
            self.merge_and_maybe_write(key.as_str(), &items.days[p2].2);
            proof {
                let yi = yk as int;
                let mi = mk as int;
                lemma_key_levels(yi, mi, 0);
                assert forall|y: int, mo: int, m: Seq<char>|
                    #![trigger self.spec_get(ym_key(y, mo)).contains(m)]
                    0 <= y && 0 <= mo && (exists|q: int|
                        0 <= q < p2 + 1 && (#[trigger] items.days@[q]).0 as int == y
                            && items.days@[q].1 as int == mo) implies (self.spec_get(
                    ym_key(y, mo),
                ).contains(m) <==> (s2.spec_get(ym_key(y, mo)).contains(m) || day_member(
                    b,
                    y,
                    mo,
                    m,
                ))) by {
                    lemma_key_injective(y, mo, 0, yi, mi, 0);
                    if y == yi && mo == mi {
                        let q0 = choose|q: int|
                            0 <= q < p2 + 1 && (#[trigger] items.days@[q]).0 as int == y
                                && items.days@[q].1 as int == mo;
                        if q0 < p2 {
                            assert(!(items.days@[q0].0 == items.days@[p2 as int].0
                                && items.days@[q0].1 == items.days@[p2 as int].1));
                            assert(false);
                        }
                        assert(before.spec_get(ym_key(y, mo)) == s2.spec_get(ym_key(y, mo)));
                        assert(key@ == ym_key(yi, mi));
                        assert(items.days@[p2 as int].2.deep_view().contains(m) <==> day_member(
                            b,
                            yi,
                            mi,
                            m,
                        ));
                        assert(self.spec_get(key@).contains(m) <==> (before.spec_get(
                            key@,
                        ).contains(m) || items.days@[p2 as int].2.deep_view().contains(m)));
                    } else {
                        assert(ym_key(y, mo) != ym_key(yi, mi));
                        assert(self.spec_get(ym_key(y, mo)) == before.spec_get(ym_key(y, mo)));
                    }
                }
                assert forall|y: int, mo: int|
                    #![trigger self.spec_get(ym_key(y, mo))]
                    0 <= y && 0 <= mo && !(exists|q: int|
                        0 <= q < p2 + 1 && (#[trigger] items.days@[q]).0 as int == y
                            && items.days@[q].1 as int == mo) implies self.spec_get(ym_key(y, mo))
                    == s2.spec_get(ym_key(y, mo)) by {
                    assert(items.days@[p2 as int].0 as int == yi && items.days@[p2 as int].1 as int
                        == mi);
                    assert(!(y == yi && mo == mi));
                    lemma_key_injective(y, mo, 0, yi, mi, 0);
                    assert(self.spec_get(ym_key(y, mo)) == before.spec_get(ym_key(y, mo)));
                }
                assert forall|k: Seq<char>| !is_ym_key(k) implies #[trigger] self.spec_get(k)
                    == s2.spec_get(k) by {
                    assert(k != ym_key(yi, mi));
                    assert(self.spec_get(k) == before.spec_get(k));
                }
            }
            p2 = p2 + 1;
        }
        let ghost s3 = *self;
        proof {
            assert forall|y: int, mo: int, m: Seq<char>|
                #![trigger s3.spec_get(ym_key(y, mo)).contains(m)]
                0 <= y && 0 <= mo implies (s3.spec_get(ym_key(y, mo)).contains(m) <==> (
            s2.spec_get(ym_key(y, mo)).contains(m) || day_member(b, y, mo, m))) by {
                if batch_has_ym(b, y, mo) {
                    assert(exists|q: int|
                        0 <= q < items.days@.len() && (#[trigger] items.days@[q]).0 as int == y
                            && items.days@[q].1 as int == mo);
                } else {
                    if day_member(b, y, mo, m) {
                        let w = choose|i: int|
                            0 <= i < b.len() && item_ok(#[trigger] b[i]) && item_year(b[i]) == y
                                && item_month(b[i]) == mo && m == crate::digits::dec_spec(
                                item_day(b[i]),
                            );
                        assert(batch_has_ym(b, y, mo));
                    }
                    assert forall|q: int|
                        0 <= q < items.days@.len() implies !((#[trigger] items.days@[q]).0 as int
                        == y && items.days@[q].1 as int == mo) by {
                        assert(batch_has_ym(b, items.days@[q].0 as int, items.days@[q].1 as int));
                    }
                }
            }
        }
        // objects level: one merge per distinct year-month-day
        let mut p3: usize = 0;
        while p3 < items.objects.len()
            invariant
                self.wf(),
                b == collections@,
                crate::collection::objects_abs(b, items.objects@),
                0 <= p3 <= items.objects@.len(),
                forall|y: int, mo: int, d: int, m: Seq<char>|
                    #![trigger self.spec_get(ymd_key(y, mo, d)).contains(m)]
                    0 <= y && 0 <= mo && 0 <= d && (exists|q: int|
                        0 <= q < p3 && (#[trigger] items.objects@[q]).0 as int == y
                            && items.objects@[q].1 as int == mo && items.objects@[q].2 as int == d)
                        ==> (self.spec_get(ymd_key(y, mo, d)).contains(m) <==> (s3.spec_get(
                        ymd_key(y, mo, d),
                    ).contains(m) || object_member(b, y, mo, d, m))),
                forall|y: int, mo: int, d: int|
                    #![trigger self.spec_get(ymd_key(y, mo, d))]
                    0 <= y && 0 <= mo && 0 <= d && !(exists|q: int|
                        0 <= q < p3 && (#[trigger] items.objects@[q]).0 as int == y
                            && items.objects@[q].1 as int == mo && items.objects@[q].2 as int == d)
                        ==> self.spec_get(ymd_key(y, mo, d)) == s3.spec_get(ymd_key(y, mo, d)),
                forall|k: Seq<char>|
                    !is_ymd_key(k) ==> #[trigger] self.spec_get(k) == s3.spec_get(k),
            decreases items.objects@.len() - p3,
        {
            let yk = items.objects[p3].0;
            let mk = items.objects[p3].1;
            let dk = items.objects[p3].2;
            let key = ymd_key_of(yk, mk, dk);
            let ghost before = *self;
            self.merge_and_maybe_write(key.as_str(), &items.objects[p3].3);
            proof {
                let yi = yk as int;
                let mi = mk as int;
                let di = dk as int;
                lemma_key_levels(yi, mi, di);
                assert forall|y: int, mo: int, d: int, m: Seq<char>|
                    #![trigger self.spec_get(ymd_key(y, mo, d)).contains(m)]
                    0 <= y && 0 <= mo && 0 <= d && (exists|q: int|
                        0 <= q < p3 + 1 && (#[trigger] items.objects@[q]).0 as int == y
                            && items.objects@[q].1 as int == mo && items.objects@[q].2 as int == d)
                    implies (self.spec_get(ymd_key(y, mo, d)).contains(m) <==> (s3.spec_get(
                    ymd_key(y, mo, d),
                ).contains(m) || object_member(b, y, mo, d, m))) by {
                    lemma_key_injective(y, mo, d, yi, mi, di);
                    if y == yi && mo == mi && d == di {
                        let q0 = choose|q: int|
                            0 <= q < p3 + 1 && (#[trigger] items.objects@[q]).0 as int == y
                                && items.objects@[q].1 as int == mo && items.objects@[q].2 as int
                                == d;
                        if q0 < p3 {
                            assert(!(items.objects@[q0].0 == items.objects@[p3 as int].0
                                && items.objects@[q0].1 == items.objects@[p3 as int].1
                                && items.objects@[q0].2 == items.objects@[p3 as int].2));
                            assert(false);
                        }
                        assert(before.spec_get(ymd_key(y, mo, d)) == s3.spec_get(
                            ymd_key(y, mo, d),
                        ));
                        assert(key@ == ymd_key(yi, mi, di));
                        assert(items.objects@[p3 as int].3.deep_view().contains(m)
                            <==> object_member(b, yi, mi, di, m));
                        assert(self.spec_get(key@).contains(m) <==> (before.spec_get(
                            key@,
                        ).contains(m) || items.objects@[p3 as int].3.deep_view().contains(m)));
                    } else {
                        assert(ymd_key(y, mo, d) != ymd_key(yi, mi, di));
                        assert(self.spec_get(ymd_key(y, mo, d)) == before.spec_get(
                            ymd_key(y, mo, d),
                        ));
                    }
                }
                assert forall|y: int, mo: int, d: int|
                    #![trigger self.spec_get(ymd_key(y, mo, d))]
                    0 <= y && 0 <= mo && 0 <= d && !(exists|q: int|
                        0 <= q < p3 + 1 && (#[trigger] items.objects@[q]).0 as int == y
                            && items.objects@[q].1 as int == mo && items.objects@[q].2 as int == d)
                    implies self.spec_get(ymd_key(y, mo, d)) == s3.spec_get(ymd_key(y, mo, d)) by {
                    assert(items.objects@[p3 as int].0 as int == yi && items.objects@[p3 as int].1
                        as int == mi && items.objects@[p3 as int].2 as int == di);
                    assert(!(y == yi && mo == mi && d == di));
                    lemma_key_injective(y, mo, d, yi, mi, di);
                    assert(self.spec_get(ymd_key(y, mo, d)) == before.spec_get(ymd_key(y, mo, d)));
                }
                assert forall|k: Seq<char>| !is_ymd_key(k) implies #[trigger] self.spec_get(k)
                    == s3.spec_get(k) by {
                    assert(k != ymd_key(yi, mi, di));
                    assert(self.spec_get(k) == before.spec_get(k));
                }
            }
            p3 = p3 + 1;
        }
        proof {
            lemma_key_levels(0, 0, 0);
            assert forall|y: int, mo: int, d: int, m: Seq<char>|
                #![trigger self.spec_get(ymd_key(y, mo, d)).contains(m)]
                0 <= y && 0 <= mo && 0 <= d implies (self.spec_get(ymd_key(y, mo, d)).contains(m)
                <==> (s3.spec_get(ymd_key(y, mo, d)).contains(m) || object_member(
                b,
                y,
                mo,
                d,
                m,
            ))) by {
                if batch_has_ymd(b, y, mo, d) {
                    assert(exists|q: int|
                        0 <= q < items.objects@.len() && (#[trigger] items.objects@[q]).0 as int
                            == y && items.objects@[q].1 as int == mo && items.objects@[q].2 as int
                            == d);
                } else {
                    if object_member(b, y, mo, d, m) {
                        let w = choose|i: int|
                            0 <= i < b.len() && item_ok(#[trigger] b[i]) && item_year(b[i]) == y
                                && item_month(b[i]) == mo && item_day(b[i]) == d && m
                                == b[i].key_name@;
                        assert(batch_has_ymd(b, y, mo, d));
                    }
                    assert forall|q: int|
                        0 <= q < items.objects@.len() implies !((#[trigger] items.objects@[q]).0
                        as int == y && items.objects@[q].1 as int == mo && items.objects@[q].2
                        as int == d) by {
                        assert(batch_has_ymd(
                            b,
                            items.objects@[q].0 as int,
                            items.objects@[q].1 as int,
                            items.objects@[q].2 as int,
                        ));
                    }
                }
            }
            // assemble: each level's keys pass unchanged through the later
            // levels, and untouched keys through every level
            assert forall|m: Seq<char>|
                #![trigger self.spec_get(root_key()).contains(m)]
                self.spec_get(root_key()).contains(m) <==> (s0.spec_get(root_key()).contains(m)
                    || year_member(b, m)) by {
                assert(self.spec_get(root_key()) == s3.spec_get(root_key()));
                assert(s3.spec_get(root_key()) == s2.spec_get(root_key()));
                assert(s2.spec_get(root_key()) == s1.spec_get(root_key()));
                assert(items.years.deep_view().contains(m) <==> year_member(b, m));
                assert(s1.spec_get(root_key()).contains(m) <==> (s0.spec_get(root_key()).contains(m)
                    || items.years.deep_view().contains(m)));
            }
            assert forall|y: int, m: Seq<char>|
                #![trigger year_key(y), self.spec_get(year_key(y)).contains(m)]
                0 <= y implies (self.spec_get(year_key(y)).contains(m) <==> (s0.spec_get(
                year_key(y),
            ).contains(m) || month_member(b, y, m))) by {
                lemma_key_levels(y, 0, 0);
                assert(self.spec_get(year_key(y)) == s3.spec_get(year_key(y)));
                assert(s3.spec_get(year_key(y)) == s2.spec_get(year_key(y)));
                assert(s1.spec_get(year_key(y)) == s0.spec_get(year_key(y)));
            }
            assert forall|y: int, mo: int, m: Seq<char>|
                #![trigger self.spec_get(ym_key(y, mo)).contains(m)]
                0 <= y && 0 <= mo implies (self.spec_get(ym_key(y, mo)).contains(m) <==> (
            s0.spec_get(ym_key(y, mo)).contains(m) || day_member(b, y, mo, m))) by {
                lemma_key_levels(y, mo, 0);
                assert(self.spec_get(ym_key(y, mo)) == s3.spec_get(ym_key(y, mo)));
                assert(s2.spec_get(ym_key(y, mo)) == s1.spec_get(ym_key(y, mo)));
                assert(s1.spec_get(ym_key(y, mo)) == s0.spec_get(ym_key(y, mo)));
            }
            assert forall|y: int, mo: int, d: int, m: Seq<char>|
                #![trigger self.spec_get(ymd_key(y, mo, d)).contains(m)]
                0 <= y && 0 <= mo && 0 <= d implies (self.spec_get(ymd_key(y, mo, d)).contains(m)
                <==> (s0.spec_get(ymd_key(y, mo, d)).contains(m) || object_member(
                b,
                y,
                mo,
                d,
                m,
            ))) by {
                lemma_key_levels(y, mo, d);
                assert(s3.spec_get(ymd_key(y, mo, d)) == s2.spec_get(ymd_key(y, mo, d)));
                assert(s2.spec_get(ymd_key(y, mo, d)) == s1.spec_get(ymd_key(y, mo, d)));
                assert(s1.spec_get(ymd_key(y, mo, d)) == s0.spec_get(ymd_key(y, mo, d)));
            }
            assert forall|k: Seq<char>| !touched(b, k) implies self.spec_get(k) == s0.spec_get(
                k,
            ) by {
                lemma_untouched(b, k, items.months@, items.days@, items.objects@);
                assert(self.spec_get(k) == s3.spec_get(k) || is_ymd_key(k));
                if is_ymd_key(k) {
                    let (y, mo, d) = choose|y: int, mo: int, d: int|
                        0 <= y && 0 <= mo && 0 <= d && k == ymd_key(y, mo, d);
                    assert(!batch_has_ymd(b, y, mo, d));
                    assert forall|q: int|
                        0 <= q < items.objects@.len() implies !((#[trigger] items.objects@[q]).0
                        as int == y && items.objects@[q].1 as int == mo && items.objects@[q].2
                        as int == d) by {
                        assert(batch_has_ymd(
                            b,
                            items.objects@[q].0 as int,
                            items.objects@[q].1 as int,
                            items.objects@[q].2 as int,
                        ));
                        lemma_key_injective(
                            y,
                            mo,
                            d,
                            items.objects@[q].0 as int,
                            items.objects@[q].1 as int,
                            items.objects@[q].2 as int,
                        );
                    }
                    assert(self.spec_get(k) == s3.spec_get(k));
                }
                assert(self.spec_get(k) == s3.spec_get(k));
                if is_ym_key(k) {
                    let (y, mo) = choose|y: int, mo: int| 0 <= y && 0 <= mo && k == ym_key(y, mo);
                    assert(!batch_has_ym(b, y, mo));
                    assert forall|q: int|
                        0 <= q < items.days@.len() implies !((#[trigger] items.days@[q]).0 as int
                        == y && items.days@[q].1 as int == mo) by {
                        assert(batch_has_ym(b, items.days@[q].0 as int, items.days@[q].1 as int));
                        lemma_key_injective(y, mo, 0, items.days@[q].0 as int, items.days@[q].1 as int, 0);
                    }
                    assert(s3.spec_get(k) == s2.spec_get(k));
                }
                assert(s3.spec_get(k) == s2.spec_get(k));
                if is_year_key(k) {
                    let y = choose|y: int| 0 <= y && k == year_key(y);
                    assert(!batch_has_year(b, y));
                    assert forall|q: int|
                        0 <= q < items.months@.len() implies (#[trigger] items.months@[q]).0 as int
                        != y by {
                        assert(batch_has_year(b, items.months@[q].0 as int));
                        lemma_key_injective(y, 0, 0, items.months@[q].0 as int, 0, 0);
                    }
                    assert(s2.spec_get(k) == s1.spec_get(k));
                }
                assert(s2.spec_get(k) == s1.spec_get(k));
                assert(s1.spec_get(k) == s0.spec_get(k));
            }
            assert(ingest_post(s0, *self, b)) by {
                lemma_ingest_post(s0, *self, b);
            }
        }
        Ok(())
    }
}

/// A key no batch item derives is of no level of the batch: not `root`,
/// not a year, year-month or year-month-day key of any batch member.
proof fn lemma_untouched(
    b: Seq<CollectionItem>,
    k: Seq<char>,
    mg: Seq<(u64, Vec<String>)>,
    dg: Seq<(u64, u64, Vec<String>)>,
    og: Seq<(u64, u64, u64, Vec<String>)>,
)
    requires
        !touched(b, k),
    ensures
        k != root_key(),
        is_year_key(k) ==> forall|y: int| 0 <= y && k == year_key(y) ==> !batch_has_year(b, y),
        is_ym_key(k) ==> forall|y: int, mo: int|
            0 <= y && 0 <= mo && k == ym_key(y, mo) ==> !batch_has_ym(b, y, mo),
        is_ymd_key(k) ==> forall|y: int, mo: int, d: int|
            0 <= y && 0 <= mo && d >= 0 && k == ymd_key(y, mo, d) ==> !batch_has_ymd(b, y, mo, d),
{
    assert forall|y: int| 0 <= y && k == year_key(y) implies !batch_has_year(b, y) by {
        if batch_has_year(b, y) {
            let i = choose|i: int|
                0 <= i < b.len() && item_ok(#[trigger] b[i]) && item_year(b[i]) == y;
            assert(touched(b, k));
        }
    }
    assert forall|y: int, mo: int| 0 <= y && 0 <= mo && k == ym_key(y, mo) implies !batch_has_ym(
        b,
        y,
        mo,
    ) by {
        if batch_has_ym(b, y, mo) {
            let i = choose|i: int|
                0 <= i < b.len() && item_ok(#[trigger] b[i]) && item_year(b[i]) == y && item_month(
                    b[i],
                ) == mo;
            assert(touched(b, k));
        }
    }
    assert forall|y: int, mo: int, d: int|
        0 <= y && 0 <= mo && d >= 0 && k == ymd_key(y, mo, d) implies !batch_has_ymd(
        b,
        y,
        mo,
        d,
    ) by {
        if batch_has_ymd(b, y, mo, d) {
            let i = choose|i: int|
                0 <= i < b.len() && item_ok(#[trigger] b[i]) && item_year(b[i]) == y && item_month(
                    b[i],
                ) == mo && item_day(b[i]) == d;
            assert(touched(b, k));
        }
    }
}

/// The five level facts together are the ingestion's postcondition.
proof fn lemma_ingest_post(pre: LookupStore, post: LookupStore, b: Seq<CollectionItem>)
    requires
        forall|m: Seq<char>|
            #![trigger post.spec_get(root_key()).contains(m)]
            post.spec_get(root_key()).contains(m) <==> (pre.spec_get(root_key()).contains(m)
                || year_member(b, m)),
        forall|y: int, m: Seq<char>|
            #![trigger post.spec_get(year_key(y)).contains(m)]
            0 <= y ==> (post.spec_get(year_key(y)).contains(m) <==> (pre.spec_get(
                year_key(y),
            ).contains(m) || month_member(b, y, m))),
        forall|y: int, mo: int, m: Seq<char>|
            #![trigger post.spec_get(ym_key(y, mo)).contains(m)]
            0 <= y && 0 <= mo ==> (post.spec_get(ym_key(y, mo)).contains(m) <==> (pre.spec_get(
                ym_key(y, mo),
            ).contains(m) || day_member(b, y, mo, m))),
        forall|y: int, mo: int, d: int, m: Seq<char>|
            #![trigger post.spec_get(ymd_key(y, mo, d)).contains(m)]
            0 <= y && 0 <= mo && 0 <= d ==> (post.spec_get(ymd_key(y, mo, d)).contains(m) <==> (
            pre.spec_get(ymd_key(y, mo, d)).contains(m) || object_member(b, y, mo, d, m))),
        forall|k: Seq<char>|
            #![trigger post.spec_get(k)]
            !touched(b, k) ==> post.spec_get(k) == pre.spec_get(k),
    ensures
        ingest_post(pre, post, b),
{
    assert forall|m: Seq<char>|
        #![trigger post.spec_get(root_key()).contains(m)]
        post.spec_get(root_key()).contains(m) <==> (pre.spec_get(root_key()).contains(m) || year_member(
            b,
            m,
        )) by {
        assert(post.spec_get(root_key()).contains(m) <==> (pre.spec_get(root_key()).contains(m)
            || year_member(b, m)));
    }
    assert forall|y: int, m: Seq<char>|
        #![trigger post.spec_get(year_key(y)).contains(m)]
        0 <= y implies (post.spec_get(year_key(y)).contains(m) <==> (pre.spec_get(
        year_key(y),
    ).contains(m) || month_member(b, y, m))) by {
        assert(post.spec_get(year_key(y)).contains(m) <==> (pre.spec_get(year_key(y)).contains(m)
            || month_member(b, y, m)));
    }
    assert forall|y: int, mo: int, m: Seq<char>|
        #![trigger post.spec_get(ym_key(y, mo)).contains(m)]
        0 <= y && 0 <= mo implies (post.spec_get(ym_key(y, mo)).contains(m) <==> (pre.spec_get(
        ym_key(y, mo),
    ).contains(m) || day_member(b, y, mo, m))) by {
        assert(post.spec_get(ym_key(y, mo)).contains(m) <==> (pre.spec_get(
            ym_key(y, mo),
        ).contains(m) || day_member(b, y, mo, m)));
    }
    assert forall|y: int, mo: int, d: int, m: Seq<char>|
        #![trigger post.spec_get(ymd_key(y, mo, d)).contains(m)]
        0 <= y && 0 <= mo && 0 <= d implies (post.spec_get(ymd_key(y, mo, d)).contains(m) <==> (
    pre.spec_get(ymd_key(y, mo, d)).contains(m) || object_member(b, y, mo, d, m))) by {
        assert(post.spec_get(ymd_key(y, mo, d)).contains(m) <==> (pre.spec_get(
            ymd_key(y, mo, d),
        ).contains(m) || object_member(b, y, mo, d, m)));
    }
    assert forall|k: Seq<char>| #![trigger post.spec_get(k)] !touched(b, k) implies post.spec_get(
        k,
    ) == pre.spec_get(k) by {
        assert(post.spec_get(k) == pre.spec_get(k));
    }
}

} // verus!
