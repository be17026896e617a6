//! Collection items and the lookup batches derived from them: one ingested
//! object, and the per-year, per-month and per-day membership groups that a
//! batch of objects contributes to the index.

use crate::civil::millis_of_civil;
use crate::digits::{dec_spec, i32_to_string, u32_to_string};
use crate::file_datetime::{parse_path_spec, PathDateTime, PathParse};
use crate::text::{insert_sorted, strict_sorted};
use vstd::prelude::*;

verus! {

/// One ingested object: the durable identity is `key_name`, a canonical
/// path; `year` and `unix_time` are its partition and sort hints.
#[derive(Debug)]
pub struct CollectionItem {
    pub year: String,
    pub unix_time: i64,
    pub is_unzipped: bool,
    pub vault: String,
    /// The object's canonical path, its identity across all index levels.
    pub key_name: String,
}

impl CollectionItem {
    /// Create a new item from its canonical path; fails with the path
    /// parser's message when the path is not canonical.
    pub fn new_object(key_name: &str, vault: &str) -> (r: Result<Self, String>)
        ensures
            match parse_path_spec(key_name@) {
                PathParse::Fail(m) => r matches Err(e) && e@ == m,
                PathParse::Parsed { year, month, day, hour, minute, second, file_name } => {
                    &&& r matches Ok(c)
                    &&& c.year@ == dec_spec(year)
                    &&& Some(c.unix_time as int) == millis_of_civil(
                        year,
                        month,
                        day,
                        hour,
                        minute,
                        second,
                    )
                    &&& !c.is_unzipped
                    &&& c.vault@ == vault@
                    &&& c.key_name@ == key_name@
                },
            },
    {
        let parsed = match PathDateTime::parse(key_name) {
            Ok(p) => p,
            Err(e) => {
                return Err(e);
            },
        };
        proof {
            crate::file_datetime::lemma_parsed_ranges(key_name@);
        }
        Ok(
            CollectionItem {
                year: i32_to_string(parsed.year),
                unix_time: parsed.unix_time,
                is_unzipped: false,
                vault: vault.to_owned(),
                key_name: key_name.to_owned(),
            },
        )
    }

    /// A ready-made item for a canonical path; the vault is just "vault".
    pub fn dummy_object(key_name: &str) -> (r: CollectionItem)
        requires
            parse_path_spec(key_name@) is Parsed,
        ensures
            r.key_name@ == key_name@,
            parse_path_spec(key_name@) matches PathParse::Parsed {
                year,
                month,
                day,
                hour,
                minute,
                second,
                ..
            } ==> r.year@ == dec_spec(year) && Some(r.unix_time as int) == millis_of_civil(
                year,
                month,
                day,
                hour,
                minute,
                second,
            ),
            !r.is_unzipped,
            r.vault@ == "vault"@,
    {
        match Self::new_object(key_name, "vault") {
            Ok(c) => c,
            Err(_) => {
                proof {
                    assert(false);
                }
                CollectionItem {
                    year: String::new(),
                    unix_time: 0,
                    is_unzipped: false,
                    vault: String::new(),
                    key_name: String::new(),
                }
            },
        }
    }
}

/// Whether a list of groups holds one keyed `k`.
pub open spec fn has_group(g: Seq<(u64, Vec<String>)>, k: u64) -> bool {
    exists|i: int| 0 <= i < g.len() && (#[trigger] g[i]).0 == k
}

/// Whether `m` is a member of the group keyed `k`.
pub open spec fn group_member(g: Seq<(u64, Vec<String>)>, k: u64, m: Seq<char>) -> bool {
    exists|i: int| 0 <= i < g.len() && (#[trigger] g[i]).0 == k && g[i].1.deep_view().contains(m)
}

/// Group keys occur once each and every group's members are strictly
/// sorted.
pub open spec fn groups_wf(g: Seq<(u64, Vec<String>)>) -> bool {
    &&& forall|i: int, j: int|
        0 <= i < j < g.len() ==> (#[trigger] g[i]).0 != (#[trigger] g[j]).0
    &&& forall|i: int| 0 <= i < g.len() ==> strict_sorted((#[trigger] g[i]).1.deep_view())
}

/// Add one member to the group keyed `k`, creating the group if it is new:
/// afterwards the groups hold exactly the old memberships plus this one.
pub fn add_group_member(groups: &mut Vec<(u64, Vec<String>)>, k: u64, m: String)
    requires
        groups_wf(old(groups)@),
    ensures
        groups_wf(final(groups)@),
        forall|k2: u64| has_group(final(groups)@, k2) <==> (has_group(old(groups)@, k2) || k2 == k),
        forall|k2: u64, m2: Seq<char>|
            group_member(final(groups)@, k2, m2) <==> (group_member(old(groups)@, k2, m2) || (k2
                == k && m2 == m@)),
{
    let ghost g0 = old(groups)@;
    let mut i: usize = 0;
    while i < groups.len()
        invariant
            g0 == old(groups)@,
            groups_wf(g0),
            groups@ == g0,
            0 <= i <= g0.len(),
            forall|j: int| 0 <= j < i ==> (#[trigger] g0[j]).0 != k,
        decreases g0.len() - i,
    {
        if groups[i].0 == k {
            // take the group out, grow it, and put it back
            let (key, mut members) = groups.swap_remove(i);
            let ghost mid = groups@;
            proof {
                assert(members == g0[i as int].1);
                assert(strict_sorted(members.deep_view()));
            }
            insert_sorted(&mut members, m);
            let ghost mdv = members.deep_view();
            groups.push((key, members));
            proof {
                lemma_regroup(g0, mid, groups@, i as int, k, mdv, m@);
            }
            return ;
        }
        i = i + 1;
    }
    let mut members: Vec<String> = Vec::new();
    proof {
        assert(members.deep_view() =~= Seq::<Seq<char>>::empty());
    }
    insert_sorted(&mut members, m);
    let ghost mdv = members.deep_view();
    groups.push((k, members));
    proof {
        assert forall|i2: int, j2: int|
            0 <= i2 < j2 < groups@.len() implies (#[trigger] groups@[i2]).0 != (
        #[trigger] groups@[j2]).0 by {
            if j2 < groups@.len() - 1 {
                assert(groups@[i2] == g0[i2] && groups@[j2] == g0[j2]);
            } else {
                assert(groups@[i2] == g0[i2]);
                assert(groups@[j2].0 == k);
                assert(g0[i2].0 != k);
            }
        }
        assert forall|i2: int| 0 <= i2 < groups@.len() implies strict_sorted(
            (#[trigger] groups@[i2]).1.deep_view(),
        ) by {
            if i2 < groups@.len() - 1 {
                assert(groups@[i2] == g0[i2]);
            } else {
                assert(groups@[i2].1.deep_view() == mdv);
            }
        }
        let n = groups@.len() - 1;
        assert(groups@[n].0 == k);
        assert forall|k2: u64|
            has_group(groups@, k2) <==> (has_group(g0, k2) || k2 == k) by {
            if has_group(groups@, k2) {
                let w = choose|w: int| 0 <= w < groups@.len() && (#[trigger] groups@[w]).0 == k2;
                if w < n {
                    assert(g0[w].0 == k2);
                }
            }
            if has_group(g0, k2) {
                let w = choose|w: int| 0 <= w < g0.len() && (#[trigger] g0[w]).0 == k2;
                assert(groups@[w].0 == k2);
            }
        }
        assert forall|k2: u64, m2: Seq<char>|
            group_member(groups@, k2, m2) <==> (group_member(g0, k2, m2) || (k2 == k && m2
                == m@)) by {
            if group_member(groups@, k2, m2) {
                let w = choose|w: int|
                    0 <= w < groups@.len() && (#[trigger] groups@[w]).0 == k2
                        && groups@[w].1.deep_view().contains(m2);
                if w < n {
                    assert(g0[w].0 == k2 && g0[w].1.deep_view().contains(m2));
                } else {
                    assert(mdv.contains(m2));
                    assert(m2 == m@);
                }
            }
            if group_member(g0, k2, m2) {
                let w = choose|w: int|
                    0 <= w < g0.len() && (#[trigger] g0[w]).0 == k2 && g0[w].1.deep_view().contains(
                        m2,
                    );
                assert(groups@[w].0 == k2 && groups@[w].1.deep_view().contains(m2));
            }
            if k2 == k && m2 == m@ {
                assert(mdv.contains(m2));
                assert(groups@[n].0 == k2 && groups@[n].1.deep_view().contains(m2));
            }
        }
    }
}

/// Replacing the group that `swap_remove(i)` took out (whose members now
/// also hold `madd`) keeps the groups well formed and adjusts exactly the
/// memberships of its key.
#[verifier::rlimit(100)]
proof fn lemma_regroup(
    g0: Seq<(u64, Vec<String>)>,
    mid: Seq<(u64, Vec<String>)>,
    g1: Seq<(u64, Vec<String>)>,
    i: int,
    k: u64,
    mdv: Seq<Seq<char>>,
    madd: Seq<char>,
)
    requires
        groups_wf(g0),
        0 <= i < g0.len(),
        g0[i].0 == k,
        mid == g0.update(i, g0.last()).drop_last(),
        g1 == mid.push((k, g1.last().1)),
        g1.last().1.deep_view() == mdv,
        strict_sorted(mdv),
        forall|m2: Seq<char>|
            mdv.contains(m2) <==> (g0[i].1.deep_view().contains(m2) || m2 == madd),
    ensures
        groups_wf(g1),
        forall|k2: u64| has_group(g1, k2) <==> (has_group(g0, k2) || k2 == k),
        forall|k2: u64, m2: Seq<char>|
            group_member(g1, k2, m2) <==> (group_member(g0, k2, m2) || (k2 == k && m2 == madd)),
{
    let n0 = g0.len() - 1;
    let last = g1.len() - 1;
    // each position of mid holds the group of g0 at `src`, which is never i
    let src = |j: int| if j == i { n0 } else { j };
    assert forall|j: int| 0 <= j < mid.len() implies #[trigger] mid[j] == g0[src(j)] && src(j) != i
        && 0 <= src(j) < g0.len() by {
        if j == i {
            assert(mid[j] == g0[n0]);
            assert(i < n0);
        } else {
            assert(mid[j] == g0[j]);
        }
    }
    assert(last == mid.len());
    assert(g1[last].0 == k);
    assert(g1[last].1.deep_view() == mdv);
    // well-formedness
    assert forall|a: int, b: int| 0 <= a < b < g1.len() implies (#[trigger] g1[a]).0 != (
    #[trigger] g1[b]).0 by {
        if b < last {
            assert(g1[a] == mid[a] && g1[b] == mid[b]);
            assert(mid[a] == g0[src(a)] && mid[b] == g0[src(b)]);
            assert(src(a) != src(b));
        } else {
            assert(g1[a] == mid[a]);
            assert(mid[a] == g0[src(a)]);
            assert(src(a) != i);
            assert(g0[src(a)].0 != g0[i].0);
        }
    }
    assert forall|a: int| 0 <= a < g1.len() implies strict_sorted(
        (#[trigger] g1[a]).1.deep_view(),
    ) by {
        if a < last {
            assert(g1[a] == mid[a]);
            assert(mid[a] == g0[src(a)]);
        }
    }
    // key presence
    assert forall|k2: u64| has_group(g1, k2) implies (has_group(g0, k2) || k2 == k) by {
        let w = choose|w: int| 0 <= w < g1.len() && (#[trigger] g1[w]).0 == k2;
        if w < last {
            assert(g1[w] == mid[w]);
            assert(g0[src(w)].0 == k2);
        }
    }
    assert forall|k2: u64| has_group(g0, k2) implies has_group(g1, k2) by {
        let p = choose|p: int| 0 <= p < g0.len() && (#[trigger] g0[p]).0 == k2;
        if p == i {
            assert(g1[last].0 == k2);
        } else {
            let j = if p == n0 { i } else { p };
            assert(mid[j] == g0[p]);
            assert(g1[j].0 == k2);
        }
    }
    // membership
    assert forall|k2: u64, m2: Seq<char>| group_member(g1, k2, m2) implies (group_member(
        g0,
        k2,
        m2,
    ) || (k2 == k && m2 == madd)) by {
        let w = choose|w: int|
            0 <= w < g1.len() && (#[trigger] g1[w]).0 == k2 && g1[w].1.deep_view().contains(m2);
        if w < last {
            assert(g1[w] == mid[w]);
            assert(g0[src(w)].0 == k2 && g0[src(w)].1.deep_view().contains(m2));
        } else {
            assert(mdv.contains(m2));
            if m2 != madd {
                assert(g0[i].0 == k2 && g0[i].1.deep_view().contains(m2));
            }
        }
    }
    assert forall|k2: u64, m2: Seq<char>| group_member(g0, k2, m2) implies group_member(
        g1,
        k2,
        m2,
    ) by {
        let p = choose|p: int|
            0 <= p < g0.len() && (#[trigger] g0[p]).0 == k2 && g0[p].1.deep_view().contains(m2);
        if p == i {
            assert(k2 == k);
            assert(mdv.contains(m2));
            assert(g1[last].0 == k2 && g1[last].1.deep_view().contains(m2));
        } else {
            let j = if p == n0 { i } else { p };
            assert(mid[j] == g0[p]);
            assert(g1[j].0 == k2 && g1[j].1.deep_view().contains(m2));
        }
    }
    assert(group_member(g1, k, madd)) by {
        assert(mdv.contains(madd));
        assert(g1[last].0 == k && g1[last].1.deep_view().contains(madd));
    }
}

/// How one item parses.
pub open spec fn item_parse(c: CollectionItem) -> PathParse {
    parse_path_spec(c.key_name@)
}

/// Whether the item's path is canonical.
pub open spec fn item_ok(c: CollectionItem) -> bool {
    item_parse(c) is Parsed
}

/// The parse error message of an item (meaningful when it failed).
pub open spec fn item_fail_msg(c: CollectionItem) -> Seq<char> {
    match item_parse(c) {
        PathParse::Fail(m) => m,
        PathParse::Parsed { .. } => Seq::<char>::empty(),
    }
}

/// The item's year (meaningful when it parsed).
pub open spec fn item_year(c: CollectionItem) -> int {
    match item_parse(c) {
        PathParse::Parsed { year, .. } => year,
        PathParse::Fail(_) => 0,
    }
}

/// The item's month (meaningful when it parsed).
pub open spec fn item_month(c: CollectionItem) -> int {
    match item_parse(c) {
        PathParse::Parsed { month, .. } => month,
        PathParse::Fail(_) => 0,
    }
}

/// The item's day (meaningful when it parsed).
pub open spec fn item_day(c: CollectionItem) -> int {
    match item_parse(c) {
        PathParse::Parsed { day, .. } => day,
        PathParse::Fail(_) => 0,
    }
}

/// A parsed item's calendar fields lie in their ranges.
pub proof fn lemma_item_ranges(c: CollectionItem)
    ensures
        item_ok(c) ==> 0 <= item_year(c) <= 9999 && 1 <= item_month(c) <= 12 && 1 <= item_day(c)
            <= 31,
{
    crate::file_datetime::lemma_parsed_ranges(c.key_name@);
}

/// Every item of the batch has a canonical path.
pub open spec fn batch_ok(b: Seq<CollectionItem>) -> bool {
    forall|i: int| 0 <= i < b.len() ==> item_ok(#[trigger] b[i])
}

/// The parse error of the first item whose path is not canonical.
pub open spec fn first_fail(b: Seq<CollectionItem>) -> Option<Seq<char>>
    decreases b.len(),
{
    if b.len() == 0 {
        None
    } else if !item_ok(b[0]) {
        Some(item_fail_msg(b[0]))
    } else {
        first_fail(b.skip(1))
    }
}

/// When a prefix of the batch parses and item `i` does not, item `i` is the
/// first failure.
pub proof fn lemma_first_fail_at(b: Seq<CollectionItem>, i: int)
    requires
        0 <= i < b.len(),
        forall|j: int| 0 <= j < i ==> item_ok(#[trigger] b[j]),
        !item_ok(b[i]),
    ensures
        first_fail(b) == Some(item_fail_msg(b[i])),
    decreases i,
{
    if i == 0 {
    } else {
        assert forall|j: int| 0 <= j < i - 1 implies item_ok(#[trigger] b.skip(1)[j]) by {
            assert(b.skip(1)[j] == b[j + 1]);
        }
        assert(b.skip(1)[i - 1] == b[i]);
        lemma_first_fail_at(b.skip(1), i - 1);
    }
}

/// A batch of canonical paths has no first failure.
pub proof fn lemma_first_fail_none(b: Seq<CollectionItem>)
    requires
        batch_ok(b),
    ensures
        first_fail(b) is None,
    decreases b.len(),
{
    if b.len() > 0 {
        assert forall|j: int| 0 <= j < b.skip(1).len() implies item_ok(#[trigger] b.skip(1)[j]) by {
            assert(b.skip(1)[j] == b[j + 1]);
        }
        lemma_first_fail_none(b.skip(1));
    }
}

/// Whether the batch yields this year-list member.
pub open spec fn year_member(b: Seq<CollectionItem>, m: Seq<char>) -> bool {
    exists|i: int|
        0 <= i < b.len() && item_ok(#[trigger] b[i]) && m == dec_spec(item_year(b[i]))
}

/// Whether some item of the batch has this year.
pub open spec fn batch_has_year(b: Seq<CollectionItem>, y: int) -> bool {
    exists|i: int| 0 <= i < b.len() && item_ok(#[trigger] b[i]) && item_year(b[i]) == y
}

/// Whether the batch yields this month under this year.
pub open spec fn month_member(b: Seq<CollectionItem>, y: int, m: Seq<char>) -> bool {
    exists|i: int|
        0 <= i < b.len() && item_ok(#[trigger] b[i]) && item_year(b[i]) == y && m == dec_spec(
            item_month(b[i]),
        )
}

/// Whether some item of the batch has this year and month.
pub open spec fn batch_has_ym(b: Seq<CollectionItem>, y: int, mo: int) -> bool {
    exists|i: int|
        0 <= i < b.len() && item_ok(#[trigger] b[i]) && item_year(b[i]) == y && item_month(b[i])
            == mo
}

/// Whether the batch yields this day under this year and month.
pub open spec fn day_member(b: Seq<CollectionItem>, y: int, mo: int, m: Seq<char>) -> bool {
    exists|i: int|
        0 <= i < b.len() && item_ok(#[trigger] b[i]) && item_year(b[i]) == y && item_month(b[i])
            == mo && m == dec_spec(item_day(b[i]))
}

/// Whether some item of the batch has this year, month and day.
pub open spec fn batch_has_ymd(b: Seq<CollectionItem>, y: int, mo: int, d: int) -> bool {
    exists|i: int|
        0 <= i < b.len() && item_ok(#[trigger] b[i]) && item_year(b[i]) == y && item_month(b[i])
            == mo && item_day(b[i]) == d
}

/// Whether the batch yields this object key under this year, month and day.
pub open spec fn object_member(b: Seq<CollectionItem>, y: int, mo: int, d: int, m: Seq<char>) -> bool {
    exists|i: int|
        0 <= i < b.len() && item_ok(#[trigger] b[i]) && item_year(b[i]) == y && item_month(b[i])
            == mo && item_day(b[i]) == d && m == b[i].key_name@
}

/// Growing the batch prefix by one parsed item grows each derived
/// membership by exactly that item's contribution.
proof fn lemma_batch_step(b: Seq<CollectionItem>, i: int)
    requires
        0 <= i < b.len(),
        item_ok(b[i]),
    ensures
        forall|m: Seq<char>|
            year_member(b.take(i + 1), m) <==> (year_member(b.take(i), m) || m == dec_spec(
                item_year(b[i]),
            )),
        forall|y: int|
            batch_has_year(b.take(i + 1), y) <==> (batch_has_year(b.take(i), y) || y == item_year(
                b[i],
            )),
        forall|y: int, m: Seq<char>|
            month_member(b.take(i + 1), y, m) <==> (month_member(b.take(i), y, m) || (y
                == item_year(b[i]) && m == dec_spec(item_month(b[i])))),
        forall|y: int, mo: int|
            batch_has_ym(b.take(i + 1), y, mo) <==> (batch_has_ym(b.take(i), y, mo) || (y
                == item_year(b[i]) && mo == item_month(b[i]))),
        forall|y: int, mo: int, m: Seq<char>|
            day_member(b.take(i + 1), y, mo, m) <==> (day_member(b.take(i), y, mo, m) || (y
                == item_year(b[i]) && mo == item_month(b[i]) && m == dec_spec(item_day(b[i])))),
        forall|y: int, mo: int, d: int|
            batch_has_ymd(b.take(i + 1), y, mo, d) <==> (batch_has_ymd(b.take(i), y, mo, d) || (y
                == item_year(b[i]) && mo == item_month(b[i]) && d == item_day(b[i]))),
        forall|y: int, mo: int, d: int, m: Seq<char>|
            object_member(b.take(i + 1), y, mo, d, m) <==> (object_member(b.take(i), y, mo, d, m)
                || (y == item_year(b[i]) && mo == item_month(b[i]) && d == item_day(b[i]) && m
                == b[i].key_name@)),
{
    assert(b.take(i + 1)[i] == b[i]);
    assert(forall|p: int| 0 <= p < i ==> b.take(i + 1)[p] == b.take(i)[p]);
    assert(forall|p: int| 0 <= p < i ==> #[trigger] b.take(i)[p] == b[p]);
}

/// The years list derived from a batch: sorted, and holding exactly the
/// years of the batch's items.
pub open spec fn years_abs(b: Seq<CollectionItem>, v: Seq<Seq<char>>) -> bool {
    &&& strict_sorted(v)
    &&& forall|m: Seq<char>| v.contains(m) <==> year_member(b, m)
}

/// The per-year month groups derived from a batch: one group per year of
/// the batch, each sorted and holding exactly that year's months.
pub open spec fn months_abs(b: Seq<CollectionItem>, g: Seq<(u64, Vec<String>)>) -> bool {
    &&& forall|p: int, q: int| 0 <= p < q < g.len() ==> (#[trigger] g[p]).0 != (#[trigger] g[q]).0
    &&& forall|p: int|
        0 <= p < g.len() ==> strict_sorted((#[trigger] g[p]).1.deep_view()) && batch_has_year(
            b,
            g[p].0 as int,
        )
    &&& forall|y: int|
        batch_has_year(b, y) ==> exists|p: int| 0 <= p < g.len() && (#[trigger] g[p]).0 as int == y
    &&& forall|p: int, m: Seq<char>|
        #![trigger g[p].1.deep_view().contains(m)]
        0 <= p < g.len() ==> (g[p].1.deep_view().contains(m) <==> month_member(b, g[p].0 as int, m))
}

/// The per-year-month day groups derived from a batch.
pub open spec fn days_abs(b: Seq<CollectionItem>, g: Seq<(u64, u64, Vec<String>)>) -> bool {
    &&& forall|p: int, q: int|
        0 <= p < q < g.len() ==> !((#[trigger] g[p]).0 == (#[trigger] g[q]).0 && g[p].1 == g[q].1)
    &&& forall|p: int|
        0 <= p < g.len() ==> strict_sorted((#[trigger] g[p]).2.deep_view()) && batch_has_ym(
            b,
            g[p].0 as int,
            g[p].1 as int,
        )
    &&& forall|y: int, mo: int|
        batch_has_ym(b, y, mo) ==> exists|p: int|
            0 <= p < g.len() && (#[trigger] g[p]).0 as int == y && g[p].1 as int == mo
    &&& forall|p: int, m: Seq<char>|
        #![trigger g[p].2.deep_view().contains(m)]
        0 <= p < g.len() ==> (g[p].2.deep_view().contains(m) <==> day_member(
            b,
            g[p].0 as int,
            g[p].1 as int,
            m,
        ))
}

/// The per-day object groups derived from a batch.
pub open spec fn objects_abs(b: Seq<CollectionItem>, g: Seq<(u64, u64, u64, Vec<String>)>) -> bool {
    &&& forall|p: int, q: int|
        0 <= p < q < g.len() ==> !((#[trigger] g[p]).0 == (#[trigger] g[q]).0 && g[p].1 == g[q].1
            && g[p].2 == g[q].2)
    &&& forall|p: int|
        0 <= p < g.len() ==> strict_sorted((#[trigger] g[p]).3.deep_view()) && batch_has_ymd(
            b,
            g[p].0 as int,
            g[p].1 as int,
            g[p].2 as int,
        )
    &&& forall|y: int, mo: int, d: int|
        batch_has_ymd(b, y, mo, d) ==> exists|p: int|
            0 <= p < g.len() && (#[trigger] g[p]).0 as int == y && g[p].1 as int == mo && g[p].2
                as int == d
    &&& forall|p: int, m: Seq<char>|
        #![trigger g[p].3.deep_view().contains(m)]
        0 <= p < g.len() ==> (g[p].3.deep_view().contains(m) <==> object_member(
            b,
            g[p].0 as int,
            g[p].1 as int,
            g[p].2 as int,
            m,
        ))
}

/// Packing a small remainder next to a quotient and dividing by 100
/// recovers both parts.
proof fn lemma_pack(a: int, r: int)
    requires
        a >= 0,
        0 <= r < 100,
    ensures
        (a * 100 + r) / 100 == a,
        (a * 100 + r) % 100 == r,
{
    vstd::arithmetic::div_mod::lemma_fundamental_div_mod_converse(a * 100 + r, 100, a, r);
}

/// Within one group list, the members under a position's key are exactly
/// that position's members.
proof fn lemma_group_at(g: Seq<(u64, Vec<String>)>, p: int)
    requires
        groups_wf(g),
        0 <= p < g.len(),
    ensures
        has_group(g, g[p].0),
        forall|m: Seq<char>|
            group_member(g, (#[trigger] g[p]).0, m) <==> g[p].1.deep_view().contains(m),
{
    assert forall|m: Seq<char>|
        group_member(g, (#[trigger] g[p]).0, m) <==> g[p].1.deep_view().contains(m) by {
        if group_member(g, g[p].0, m) {
            let w = choose|w: int|
                0 <= w < g.len() && (#[trigger] g[w]).0 == g[p].0 && g[w].1.deep_view().contains(m);
            if w < p {
                assert(g[w].0 != g[p].0);
            } else if w > p {
                assert(g[p].0 != g[w].0);
            }
        }
    }
}

/// The lookup batches one ingestion contributes: the years, and the month,
/// day and object groups, each deduplicated and sorted.
pub struct LookUpItems {
    /// The years, as decimal strings.
    pub years: Vec<String>,
    /// (year, [months]) groups.
    pub months: Vec<(u64, Vec<String>)>,
    /// (year, month, [days]) groups.
    pub days: Vec<(u64, u64, Vec<String>)>,
    /// (year, month, day, [object keys]) groups.
    pub objects: Vec<(u64, u64, u64, Vec<String>)>,
}

impl LookUpItems {
    /// Derive the four levels of lookup members from a batch of items; the
    /// first item whose path is not canonical fails the whole derivation
    /// with its parse error.
    #[verifier::rlimit(100)]
    pub fn new(collections: &Vec<CollectionItem>) -> (r: Result<Self, String>)
        ensures
            match first_fail(collections@) {
                Some(m) => r matches Err(e) && e@ == m,
                None => {
                    &&& r matches Ok(c)
                    &&& years_abs(collections@, c.years.deep_view())
                    &&& months_abs(collections@, c.months@)
                    &&& days_abs(collections@, c.days@)
                    &&& objects_abs(collections@, c.objects@)
                },
            },
    {
        let ghost b = collections@;
        let mut years: Vec<String> = Vec::new();
        let mut mg: Vec<(u64, Vec<String>)> = Vec::new();
        let mut dg: Vec<(u64, Vec<String>)> = Vec::new();
        let mut og: Vec<(u64, Vec<String>)> = Vec::new();
        let mut i: usize = 0;
        proof {
            assert(years.deep_view() =~= Seq::<Seq<char>>::empty());
        }
        while i < collections.len()
            invariant
                b == collections@,
                0 <= i <= b.len(),
                forall|j: int| 0 <= j < i ==> item_ok(#[trigger] b[j]),
                strict_sorted(years.deep_view()),
                forall|m: Seq<char>| years.deep_view().contains(m) <==> year_member(b.take(i as int), m),
                groups_wf(mg@),
                forall|k: u64| has_group(mg@, k) <==> batch_has_year(b.take(i as int), k as int),
                forall|k: u64, m: Seq<char>|
                    group_member(mg@, k, m) <==> month_member(b.take(i as int), k as int, m),
                groups_wf(dg@),
                forall|k: u64|
                    has_group(dg@, k) <==> batch_has_ym(
                        b.take(i as int),
                        k as int / 100,
                        k as int % 100,
                    ),
                forall|k: u64, m: Seq<char>|
                    group_member(dg@, k, m) <==> day_member(
                        b.take(i as int),
                        k as int / 100,
                        k as int % 100,
                        m,
                    ),
                groups_wf(og@),
                forall|k: u64|
                    has_group(og@, k) <==> batch_has_ymd(
                        b.take(i as int),
                        k as int / 100 / 100,
                        (k as int / 100) % 100,
                        k as int % 100,
                    ),
                forall|k: u64, m: Seq<char>|
                    group_member(og@, k, m) <==> object_member(
                        b.take(i as int),
                        k as int / 100 / 100,
                        (k as int / 100) % 100,
                        k as int % 100,
                        m,
                    ),
            decreases b.len() - i,
        {
            let dt = match PathDateTime::parse(collections[i].key_name.as_str()) {
                Ok(dt) => dt,
                Err(e) => {
                    proof {
                        assert(!item_ok(b[i as int]));
                        lemma_first_fail_at(b, i as int);
                        assert(e@ == item_fail_msg(b[i as int]));
                    }
                    return Err(e);
                },
            };
            let ghost yi = item_year(b[i as int]);
            let ghost moi = item_month(b[i as int]);
            let ghost di = item_day(b[i as int]);
            proof {
                lemma_item_ranges(b[i as int]);
                assert(dt.year as int == yi);
                assert(dt.month as int == moi);
                assert(dt.day as int == di);
                lemma_batch_step(b, i as int);
            }
            insert_sorted(&mut years, i32_to_string(dt.year));
            add_group_member(&mut mg, dt.year as u64, u32_to_string(dt.month));
            let ku: u64 = (dt.year as u64) * 100 + (dt.month as u64);
            add_group_member(&mut dg, ku, u32_to_string(dt.day));
            let ko: u64 = ku * 100 + (dt.day as u64);
            add_group_member(&mut og, ko, collections[i].key_name.clone());
            proof {
                lemma_pack(yi, moi);
                lemma_pack(yi * 100 + moi, di);
                assert(ku as int == yi * 100 + moi);
                assert(ko as int == (yi * 100 + moi) * 100 + di);
                let bp = b.take(i as int);
                let bn = b.take(i + 1);
                assert forall|m: Seq<char>|
                    years.deep_view().contains(m) <==> year_member(bn, m) by {}
                assert forall|k: u64| has_group(mg@, k) <==> batch_has_year(bn, k as int) by {}
                assert forall|k: u64, m: Seq<char>|
                    group_member(mg@, k, m) <==> month_member(bn, k as int, m) by {}
                assert forall|k: u64|
                    has_group(dg@, k) <==> batch_has_ym(
                        bn,
                        k as int / 100,
                        k as int % 100,
                    ) by {
                    vstd::arithmetic::div_mod::lemma_fundamental_div_mod(k as int, 100);
                }
                assert forall|k: u64, m: Seq<char>|
                    group_member(dg@, k, m) <==> day_member(
                        bn,
                        k as int / 100,
                        k as int % 100,
                        m,
                    ) by {
                    vstd::arithmetic::div_mod::lemma_fundamental_div_mod(k as int, 100);
                }
                assert forall|k: u64|
                    has_group(og@, k) <==> batch_has_ymd(
                        bn,
                        k as int / 100 / 100,
                        (k as int / 100) % 100,
                        k as int % 100,
                    ) by {
                    vstd::arithmetic::div_mod::lemma_fundamental_div_mod(k as int, 100);
                    vstd::arithmetic::div_mod::lemma_fundamental_div_mod(k as int / 100, 100);
                }
                assert forall|k: u64, m: Seq<char>|
                    group_member(og@, k, m) <==> object_member(
                        bn,
                        k as int / 100 / 100,
                        (k as int / 100) % 100,
                        k as int % 100,
                        m,
                    ) by {
                    vstd::arithmetic::div_mod::lemma_fundamental_div_mod(k as int, 100);
                    vstd::arithmetic::div_mod::lemma_fundamental_div_mod(k as int / 100, 100);
                }
            }
            i = i + 1;
        }
        proof {
            assert(b.take(i as int) =~= b);
            lemma_first_fail_none(b);
        }
        // unpack the day groups into (year, month, [days])
        let mut days: Vec<(u64, u64, Vec<String>)> = Vec::new();
        let mut q: usize = 0;
        while q < dg.len()
            invariant
                0 <= q <= dg@.len(),
                days@.len() == q,
                forall|j: int|
                    0 <= j < q ==> (#[trigger] days@[j]).0 == dg@[j].0 / 100 && days@[j].1
                        == dg@[j].0 % 100 && days@[j].2.deep_view() == dg@[j].1.deep_view(),
            decreases dg@.len() - q,
        {
            let k = dg[q].0;
            let v = crate::lookup::clone_members(&dg[q].1);
            days.push((k / 100, k % 100, v));
            q = q + 1;
        }
        // unpack the object groups into (year, month, day, [objects])
        let mut objects: Vec<(u64, u64, u64, Vec<String>)> = Vec::new();
        let mut q2: usize = 0;
        while q2 < og.len()
            invariant
                0 <= q2 <= og@.len(),
                objects@.len() == q2,
                forall|j: int|
                    0 <= j < q2 ==> (#[trigger] objects@[j]).0 == og@[j].0 / 100 / 100
                        && objects@[j].1 == (og@[j].0 / 100) % 100 && objects@[j].2 == og@[j].0
                        % 100 && objects@[j].3.deep_view() == og@[j].1.deep_view(),
            decreases og@.len() - q2,
        {
            let k = og[q2].0;
            let v = crate::lookup::clone_members(&og[q2].1);
            objects.push((k / 100 / 100, (k / 100) % 100, k % 100, v));
            q2 = q2 + 1;
        }
        proof {
            lemma_months_abs(b, mg@);
            lemma_days_abs(b, dg@, days@);
            lemma_objects_abs(b, og@, objects@);
        }
        Ok(LookUpItems { years, months: mg, days, objects })
    }
}

/// Month groups with the loop's packed-key properties satisfy the derived
/// characterization.
proof fn lemma_months_abs(b: Seq<CollectionItem>, g: Seq<(u64, Vec<String>)>)
    requires
        groups_wf(g),
        forall|k: u64| has_group(g, k) <==> batch_has_year(b, k as int),
        forall|k: u64, m: Seq<char>| group_member(g, k, m) <==> month_member(b, k as int, m),
    ensures
        months_abs(b, g),
{
    assert forall|p: int| 0 <= p < g.len() implies strict_sorted((#[trigger] g[p]).1.deep_view())
        && batch_has_year(b, g[p].0 as int) by {
        lemma_group_at(g, p);
    }
    assert forall|y: int| batch_has_year(b, y) implies exists|p: int|
        0 <= p < g.len() && (#[trigger] g[p]).0 as int == y by {
        let w = choose|w: int|
            0 <= w < b.len() && item_ok(#[trigger] b[w]) && item_year(b[w]) == y;
        lemma_item_ranges(b[w]);
        let k = y as u64;
        assert(batch_has_year(b, k as int));
        assert(has_group(g, k));
        let p = choose|p: int| 0 <= p < g.len() && (#[trigger] g[p]).0 == k;
        assert(g[p].0 as int == y);
    }
    assert forall|p: int, m: Seq<char>|
        #![trigger g[p].1.deep_view().contains(m)]
        0 <= p < g.len() implies (g[p].1.deep_view().contains(m) <==> month_member(
        b,
        g[p].0 as int,
        m,
    )) by {
        lemma_group_at(g, p);
    }
}

/// Unpacked day groups inherit the loop's packed-key properties.
proof fn lemma_days_abs(
    b: Seq<CollectionItem>,
    g: Seq<(u64, Vec<String>)>,
    u: Seq<(u64, u64, Vec<String>)>,
)
    requires
        groups_wf(g),
        forall|k: u64| has_group(g, k) <==> batch_has_ym(b, k as int / 100, k as int % 100),
        forall|k: u64, m: Seq<char>|
            group_member(g, k, m) <==> day_member(b, k as int / 100, k as int % 100, m),
        u.len() == g.len(),
        forall|j: int|
            0 <= j < u.len() ==> (#[trigger] u[j]).0 == g[j].0 / 100 && u[j].1 == g[j].0 % 100
                && u[j].2.deep_view() == g[j].1.deep_view(),
    ensures
        days_abs(b, u),
{
    assert forall|j: int| 0 <= j < g.len() implies (#[trigger] g[j]).0 == u[j].0 * 100 + u[j].1 by {
        vstd::arithmetic::div_mod::lemma_fundamental_div_mod(g[j].0 as int, 100);
    }
    assert forall|p: int, q: int| 0 <= p < q < u.len() implies !((#[trigger] u[p]).0 == (
    #[trigger] u[q]).0 && u[p].1 == u[q].1) by {
        assert(g[p].0 != g[q].0);
    }
    assert forall|p: int|
        0 <= p < u.len() implies strict_sorted((#[trigger] u[p]).2.deep_view()) && batch_has_ym(
        b,
        u[p].0 as int,
        u[p].1 as int,
    ) by {
        lemma_group_at(g, p);
        assert(batch_has_ym(b, g[p].0 as int / 100, g[p].0 as int % 100));
    }
    assert forall|y: int, mo: int| batch_has_ym(b, y, mo) implies exists|p: int|
        0 <= p < u.len() && (#[trigger] u[p]).0 as int == y && u[p].1 as int == mo by {
        let w = choose|w: int|
            0 <= w < b.len() && item_ok(#[trigger] b[w]) && item_year(b[w]) == y && item_month(
                b[w],
            ) == mo;
        lemma_item_ranges(b[w]);
        let k = (y * 100 + mo) as u64;
        lemma_pack(y, mo);
        assert(batch_has_ym(b, k as int / 100, k as int % 100));
        assert(has_group(g, k));
        let p = choose|p: int| 0 <= p < g.len() && (#[trigger] g[p]).0 == k;
        assert(u[p].0 as int == y && u[p].1 as int == mo);
    }
    assert forall|p: int, m: Seq<char>|
        #![trigger u[p].2.deep_view().contains(m)]
        0 <= p < u.len() implies (u[p].2.deep_view().contains(m) <==> day_member(
        b,
        u[p].0 as int,
        u[p].1 as int,
        m,
    )) by {
        lemma_group_at(g, p);
        assert(g[p].1.deep_view().contains(m) <==> day_member(
            b,
            g[p].0 as int / 100,
            g[p].0 as int % 100,
            m,
        ));
    }
}

/// Unpacked object groups inherit the loop's packed-key properties.
proof fn lemma_objects_abs(
    b: Seq<CollectionItem>,
    g: Seq<(u64, Vec<String>)>,
    u: Seq<(u64, u64, u64, Vec<String>)>,
)
    requires
        groups_wf(g),
        forall|k: u64|
            has_group(g, k) <==> batch_has_ymd(
                b,
                k as int / 100 / 100,
                (k as int / 100) % 100,
                k as int % 100,
            ),
        forall|k: u64, m: Seq<char>|
            group_member(g, k, m) <==> object_member(
                b,
                k as int / 100 / 100,
                (k as int / 100) % 100,
                k as int % 100,
                m,
            ),
        u.len() == g.len(),
        forall|j: int|
            0 <= j < u.len() ==> (#[trigger] u[j]).0 == g[j].0 / 100 / 100 && u[j].1 == (g[j].0
                / 100) % 100 && u[j].2 == g[j].0 % 100 && u[j].3.deep_view()
                == g[j].1.deep_view(),
    ensures
        objects_abs(b, u),
{
    assert forall|j: int| 0 <= j < g.len() implies (#[trigger] g[j]).0 == (u[j].0 * 100 + u[j].1)
        * 100 + u[j].2 by {
        vstd::arithmetic::div_mod::lemma_fundamental_div_mod(g[j].0 as int, 100);
        vstd::arithmetic::div_mod::lemma_fundamental_div_mod(g[j].0 as int / 100, 100);
    }
    assert forall|p: int, q: int| 0 <= p < q < u.len() implies !((#[trigger] u[p]).0 == (
    #[trigger] u[q]).0 && u[p].1 == u[q].1 && u[p].2 == u[q].2) by {
        assert(g[p].0 != g[q].0);
    }
    assert forall|p: int|
        0 <= p < u.len() implies strict_sorted((#[trigger] u[p]).3.deep_view()) && batch_has_ymd(
        b,
        u[p].0 as int,
        u[p].1 as int,
        u[p].2 as int,
    ) by {
        lemma_group_at(g, p);
    }
    assert forall|y: int, mo: int, d: int| batch_has_ymd(b, y, mo, d) implies exists|p: int|
        0 <= p < u.len() && (#[trigger] u[p]).0 as int == y && u[p].1 as int == mo && u[p].2 as int
            == d by {
        let w = choose|w: int|
            0 <= w < b.len() && item_ok(#[trigger] b[w]) && item_year(b[w]) == y && item_month(
                b[w],
            ) == mo && item_day(b[w]) == d;
        lemma_item_ranges(b[w]);
        let k = ((y * 100 + mo) * 100 + d) as u64;
        lemma_pack(y, mo);
        lemma_pack(y * 100 + mo, d);
        assert(batch_has_ymd(b, k as int / 100 / 100, (k as int / 100) % 100, k as int % 100));
        assert(has_group(g, k));
        let p = choose|p: int| 0 <= p < g.len() && (#[trigger] g[p]).0 == k;
        assert(u[p].0 as int == y && u[p].1 as int == mo && u[p].2 as int == d);
    }
    assert forall|p: int, m: Seq<char>|
        #![trigger u[p].3.deep_view().contains(m)]
        0 <= p < u.len() implies (u[p].3.deep_view().contains(m) <==> object_member(
        b,
        u[p].0 as int,
        u[p].1 as int,
        u[p].2 as int,
        m,
    )) by {
        lemma_group_at(g, p);
    }
}

} // verus!


