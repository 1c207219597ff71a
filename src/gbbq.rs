//! Corporate-action records: filtering by category, code and date window,
//! the readable row written for each, and the per-category summary.

use vstd::prelude::*;
use crate::gbbq_cmd::{date_range_spec, stocks_spec, GbbqCmd};
use crate::text::{decimal, push_decimal, push_padded, str_eq, views, zero_pad};

verus! {

/// The fields of a corporate-action record that selection and labelling read.
pub struct GbbqKey {
    /// Market number: 1 for Shenzhen, 2 for Shanghai.
    pub market: u8,
    /// Six-digit stock code.
    pub code: String,
    /// Date as `YYYYMMDD`.
    pub date: u32,
    /// Category, 1 to 14 for the known kinds.
    pub category: u8,
}

/// The text columns of an exported corporate-action row.
pub struct GbbqRow {
    pub market: String,
    pub code: String,
    pub date: String,
    pub category: u8,
    pub category_name: String,
}

// ---------------------------------------------------------------- filters

pub open spec fn keep_category(k: GbbqKey, category: Option<u8>) -> bool {
    match category {
        None => true,
        Some(c) => k.category == c,
    }
}

pub open spec fn keep_code(k: GbbqKey, stocks: Option<Seq<Seq<char>>>) -> bool {
    match stocks {
        None => true,
        Some(list) => list.contains(k.code@),
    }
}

pub open spec fn keep_date(k: GbbqKey, range: Option<(u32, u32)>) -> bool {
    match range {
        None => true,
        Some((start, end)) => start <= k.date && k.date <= end,
    }
}

/// The indices of `idx` that point into `recs` at a record meeting `p`, in order.
pub open spec fn keep_idx(
    recs: Seq<GbbqKey>,
    idx: Seq<usize>,
    p: spec_fn(GbbqKey) -> bool,
) -> Seq<usize>
    decreases idx.len(),
{
    if idx.len() == 0 {
        Seq::<usize>::empty()
    } else {
        let r = keep_idx(recs, idx.drop_last(), p);
        let i = idx.last();
        if i < recs.len() && p(recs[i as int]) {
            r.push(i)
        } else {
            r
        }
    }
}

/// The indices `0..n`, in order.
pub open spec fn all_idx(n: nat) -> Seq<usize> {
    Seq::new(n, |i: int| i as usize)
}

/// Whether a record passes all three filters of `cmd`.
pub open spec fn selected(cmd: GbbqCmd, k: GbbqKey) -> bool {
    keep_category(k, cmd.category) && keep_code(k, stocks_spec(cmd.stocks)) && keep_date(
        k,
        date_range_spec(cmd.date_range),
    )
}

/// Keeps the indices of `idx` whose record has the given category.
pub fn filter_category(recs: &Vec<GbbqKey>, idx: &Vec<usize>, category: Option<u8>) -> (r: Vec<
    usize,
>)
    ensures
        r@ == keep_idx(recs@, idx@, |k: GbbqKey| keep_category(k, category)),
{
    let mut r: Vec<usize> = Vec::new();
    let mut j: usize = 0;
    while j < idx.len()
        invariant
            j <= idx@.len(),
            r@ == keep_idx(recs@, idx@.subrange(0, j as int), |k: GbbqKey| keep_category(k, category)),
        decreases idx@.len() - j,
    {
        let i = idx[j];
        assert(idx@.subrange(0, j + 1).drop_last() =~= idx@.subrange(0, j as int));
        assert(idx@.subrange(0, j + 1).last() == i);
        if i < recs.len() {
            let keep = match category {
                None => true,
                Some(c) => recs[i].category == c,
            };
            if keep {
                r.push(i);
            }
        }
        j = j + 1;
    }
    assert(idx@.subrange(0, j as int) =~= idx@);
    r
}

/// Whether `list` holds the characters of `code`.
fn list_contains(list: &Vec<String>, code: &String) -> (r: bool)
    ensures
        r == views(list@).contains(code@),
{
    let mut i: usize = 0;
    while i < list.len()
        invariant
            i <= list@.len(),
            forall|k: int| 0 <= k < i ==> list@[k]@ != code@,
        decreases list@.len() - i,
    {
        if str_eq(list[i].as_str(), code.as_str()) {
            assert(views(list@)[i as int] == code@);
            return true;
        }
        i = i + 1;
    }
    proof {
        if views(list@).contains(code@) {
            let k = choose|k: int| 0 <= k < views(list@).len() && views(list@)[k] == code@;
            assert(list@[k]@ == code@);
        }
    }
    false
}

/// Keeps the indices of `idx` whose record's code is in `stocks`.
pub fn filter_codes(recs: &Vec<GbbqKey>, idx: &Vec<usize>, stocks: &Option<Vec<String>>) -> (r: Vec<
    usize,
>)
    ensures
        r@ == keep_idx(
            recs@,
            idx@,
            |k: GbbqKey|
                keep_code(
                    k,
                    match stocks {
                        None => None,
                        Some(v) => Some(views(v@)),
                    },
                ),
        ),
{
    let ghost list = match stocks {
        None => None,
        Some(v) => Some(views(v@)),
    };
    let mut r: Vec<usize> = Vec::new();
    let mut j: usize = 0;
    while j < idx.len()
        invariant
            j <= idx@.len(),
            r@ == keep_idx(recs@, idx@.subrange(0, j as int), |k: GbbqKey| keep_code(k, list)),
            list == match stocks {
                None => None,
                Some(v) => Some(views(v@)),
            },
        decreases idx@.len() - j,
    {
        let i = idx[j];
        assert(idx@.subrange(0, j + 1).drop_last() =~= idx@.subrange(0, j as int));
        assert(idx@.subrange(0, j + 1).last() == i);
        if i < recs.len() {
            let keep = match stocks {
                None => true,
                Some(v) => list_contains(v, &recs[i].code),
            };
            if keep {
                r.push(i);
            }
        }
        j = j + 1;
    }
    assert(idx@.subrange(0, j as int) =~= idx@);
    assert((|k: GbbqKey| keep_code(k, list)) =~= (|k: GbbqKey|
        keep_code(
            k,
            match stocks {
                None => None,
                Some(v) => Some(views(v@)),
            },
        )));
    r
}

/// Keeps the indices of `idx` whose record is dated within `range`, both ends included.
pub fn filter_dates(recs: &Vec<GbbqKey>, idx: &Vec<usize>, range: Option<(u32, u32)>) -> (r: Vec<
    usize,
>)
    ensures
        r@ == keep_idx(recs@, idx@, |k: GbbqKey| keep_date(k, range)),
{
    let mut r: Vec<usize> = Vec::new();
    let mut j: usize = 0;
    while j < idx.len()
        invariant
            j <= idx@.len(),
            r@ == keep_idx(recs@, idx@.subrange(0, j as int), |k: GbbqKey| keep_date(k, range)),
        decreases idx@.len() - j,
    {
        let i = idx[j];
        assert(idx@.subrange(0, j + 1).drop_last() =~= idx@.subrange(0, j as int));
        assert(idx@.subrange(0, j + 1).last() == i);
        if i < recs.len() {
            let keep = match range {
                None => true,
                Some((start, end)) => start <= recs[i].date && recs[i].date <= end,
            };
            if keep {
                r.push(i);
            }
        }
        j = j + 1;
    }
    assert(idx@.subrange(0, j as int) =~= idx@);
    r
}


proof fn lemma_keep_twice(
    recs: Seq<GbbqKey>,
    s: Seq<usize>,
    p: spec_fn(GbbqKey) -> bool,
    q: spec_fn(GbbqKey) -> bool,
)
    ensures
        keep_idx(recs, keep_idx(recs, s, p), q) == keep_idx(recs, s, |k: GbbqKey| p(k) && q(k)),
    decreases s.len(),
{
    if s.len() > 0 {
        lemma_keep_twice(recs, s.drop_last(), p, q);
        let r = keep_idx(recs, s.drop_last(), p);
        let i = s.last();
        assert(r.push(i).drop_last() =~= r);
    }
}

/// Filtering by category, by code list and by date window gives the same
/// indices in any of the six orders, and the same as filtering once by the
/// conjunction of the three tests.
pub proof fn lemma_filters_commute(
    recs: Seq<GbbqKey>,
    idx: Seq<usize>,
    category: Option<u8>,
    stocks: Option<Seq<Seq<char>>>,
    range: Option<(u32, u32)>,
)
    ensures
        ({
            let a = |k: GbbqKey| keep_category(k, category);
            let b = |k: GbbqKey| keep_code(k, stocks);
            let c = |k: GbbqKey| keep_date(k, range);
            let all = keep_idx(recs, idx, |k: GbbqKey| a(k) && b(k) && c(k));
            &&& keep_idx(recs, keep_idx(recs, keep_idx(recs, idx, a), b), c) == all
            &&& keep_idx(recs, keep_idx(recs, keep_idx(recs, idx, a), c), b) == all
            &&& keep_idx(recs, keep_idx(recs, keep_idx(recs, idx, b), a), c) == all
            &&& keep_idx(recs, keep_idx(recs, keep_idx(recs, idx, b), c), a) == all
            &&& keep_idx(recs, keep_idx(recs, keep_idx(recs, idx, c), a), b) == all
            &&& keep_idx(recs, keep_idx(recs, keep_idx(recs, idx, c), b), a) == all
        }),
{
    let a = |k: GbbqKey| keep_category(k, category);
    let b = |k: GbbqKey| keep_code(k, stocks);
    let c = |k: GbbqKey| keep_date(k, range);
    let all = |k: GbbqKey| a(k) && b(k) && c(k);
    let ab = |k: GbbqKey| a(k) && b(k);
    let ac = |k: GbbqKey| a(k) && c(k);
    let ba = |k: GbbqKey| b(k) && a(k);
    let bc = |k: GbbqKey| b(k) && c(k);
    let ca = |k: GbbqKey| c(k) && a(k);
    let cb = |k: GbbqKey| c(k) && b(k);
    lemma_keep_twice(recs, idx, a, b);
    lemma_keep_twice(recs, idx, a, c);
    lemma_keep_twice(recs, idx, b, a);
    lemma_keep_twice(recs, idx, b, c);
    lemma_keep_twice(recs, idx, c, a);
    lemma_keep_twice(recs, idx, c, b);
    lemma_keep_twice(recs, idx, ab, c);
    lemma_keep_twice(recs, idx, ac, b);
    lemma_keep_twice(recs, idx, ba, c);
    lemma_keep_twice(recs, idx, bc, a);
    lemma_keep_twice(recs, idx, ca, b);
    lemma_keep_twice(recs, idx, cb, a);
    assert((|k: GbbqKey| ab(k) && c(k)) =~= all);
    assert((|k: GbbqKey| ac(k) && b(k)) =~= all);
    assert((|k: GbbqKey| ba(k) && c(k)) =~= all);
    assert((|k: GbbqKey| bc(k) && a(k)) =~= all);
    assert((|k: GbbqKey| ca(k) && b(k)) =~= all);
    assert((|k: GbbqKey| cb(k) && a(k)) =~= all);
}

/// The indices of the records that pass every filter of `cmd`, in order.
pub fn apply_gbbq_filters(recs: &Vec<GbbqKey>, cmd: &GbbqCmd) -> (r: Vec<usize>)
    ensures
        r@ == keep_idx(recs@, all_idx(recs@.len()), |k: GbbqKey| selected(*cmd, k)),
{
    let mut idx: Vec<usize> = Vec::new();
    let mut i: usize = 0;
    while i < recs.len()
        invariant
            i <= recs@.len(),
            idx@ == all_idx(i as nat),
        decreases recs@.len() - i,
    {
        idx.push(i);
        i = i + 1;
        assert(idx@ =~= all_idx(i as nat));
    }
    let stocks = cmd.parse_stocks();
    let range = cmd.parse_date_range();
    let by_category = filter_category(recs, &idx, cmd.category);
    let by_code = filter_codes(recs, &by_category, &stocks);
    let r = filter_dates(recs, &by_code, range);
    proof {
        let list = match stocks {
            None => None,
            Some(v) => Some(views(v@)),
        };
        assert(list == stocks_spec(cmd.stocks));
        let a = |k: GbbqKey| keep_category(k, cmd.category);
        let b = |k: GbbqKey| keep_code(k, list);
        let c = |k: GbbqKey| keep_date(k, range);
        assert((|k: GbbqKey|
            keep_code(
                k,
                match stocks {
                    None => None,
                    Some(v) => Some(views(v@)),
                },
            )) =~= b);
        assert(by_category@ == keep_idx(recs@, idx@, a));
        assert(by_code@ == keep_idx(recs@, by_category@, b));
        assert(r@ == keep_idx(recs@, by_code@, c));
        assert(idx@ == all_idx(recs@.len()));
        lemma_filters_commute(recs@, idx@, cmd.category, list, range);
        assert((|k: GbbqKey| selected(*cmd, k)) =~= (|k: GbbqKey| a(k) && b(k) && c(k)));
    }
    r
}


// ---------------------------------------------------------------- summary

/// How many indices of `idx` point at a record of category `c`.
pub open spec fn count_category(recs: Seq<GbbqKey>, idx: Seq<usize>, c: u8) -> nat
    decreases idx.len(),
{
    if idx.len() == 0 {
        0
    } else {
        let i = idx.last();
        count_category(recs, idx.drop_last(), c) + if i < recs.len() && recs[i as int].category
            == c {
            1nat
        } else {
            0nat
        }
    }
}

/// `(category, count)` for each category below `k` that occurs, ascending.
pub open spec fn category_summary(recs: Seq<GbbqKey>, idx: Seq<usize>, k: nat) -> Seq<(u8, usize)>
    decreases k,
{
    if k == 0 {
        Seq::<(u8, usize)>::empty()
    } else {
        let c = (k - 1) as u8;
        let n = count_category(recs, idx, c);
        let r = category_summary(recs, idx, (k - 1) as nat);
        if n > 0 {
            r.push((c, n as usize))
        } else {
            r
        }
    }
}

proof fn lemma_count_bound(recs: Seq<GbbqKey>, idx: Seq<usize>, c: u8)
    ensures
        count_category(recs, idx, c) <= idx.len(),
    decreases idx.len(),
{
    if idx.len() > 0 {
        lemma_count_bound(recs, idx.drop_last(), c);
    }
}

/// The number of selected records of each category that occurs, by category ascending.
pub fn category_counts(recs: &Vec<GbbqKey>, idx: &Vec<usize>) -> (r: Vec<(u8, usize)>)
    ensures
        r@ == category_summary(recs@, idx@, 256),
        forall|j: int| 0 <= j < r@.len() ==> r@[j].1 as nat == count_category(recs@, idx@, #[trigger] r@[j].0),
{
    let mut counts: Vec<usize> = Vec::new();
    let mut c: usize = 0;
    while c < 256
        invariant
            c <= 256,
            counts@.len() == c,
            forall|k: int| 0 <= k < c ==> counts@[k] == 0,
        decreases 256 - c,
    {
        counts.push(0);
        c = c + 1;
    }
    let mut j: usize = 0;
    assert(idx@.subrange(0, 0) =~= Seq::<usize>::empty());
    while j < idx.len()
        invariant
            j <= idx@.len(),
            counts@.len() == 256,
            forall|k: int|
                0 <= k < 256 ==> counts@[k] as nat == #[trigger] count_category(
                    recs@,
                    idx@.subrange(0, j as int),
                    k as u8,
                ),
        decreases idx@.len() - j,
    {
        let i = idx[j];
        let ghost pre = idx@.subrange(0, j as int);
        let ghost next = idx@.subrange(0, j + 1);
        assert(next.drop_last() =~= pre);
        assert(next.last() == i);
        let ghost before = counts@;
        if i < recs.len() {
            let cat = recs[i].category;
            proof {
                lemma_count_bound(recs@, pre, cat);
                assert(((cat as usize) as int) as u8 == cat);
                assert(counts@[cat as usize as int] as nat == count_category(recs@, pre, ((cat as usize) as int) as u8));
            }
            let v = counts[cat as usize] + 1;
            counts.set(cat as usize, v);
        }
        j = j + 1;
        assert forall|k: int| 0 <= k < 256 implies counts@[k] as nat == #[trigger] count_category(
            recs@,
            idx@.subrange(0, j as int),
            k as u8,
        ) by {
            assert((k as u8) as int == k);
            assert(before[k] as nat == count_category(recs@, pre, k as u8));
        }
    }
    assert(idx@.subrange(0, j as int) =~= idx@);
    let mut r: Vec<(u8, usize)> = Vec::new();
    let mut c: usize = 0;
    while c < 256
        invariant
            c <= 256,
            counts@.len() == 256,
            forall|k: int|
                0 <= k < 256 ==> counts@[k] as nat == #[trigger] count_category(
                    recs@,
                    idx@,
                    k as u8,
                ),
            r@ == category_summary(recs@, idx@, c as nat),
            forall|m: int| 0 <= m < r@.len() ==> r@[m].1 as nat == count_category(recs@, idx@, #[trigger] r@[m].0),
        decreases 256 - c,
    {
        let n = counts[c];
        assert(n as nat == count_category(recs@, idx@, c as u8));
        if n > 0 {
            r.push((c as u8, n));
        }
        c = c + 1;
    }
    r
}

// ---------------------------------------------------------------- labels

/// The label of a market number: `SZ`, `SH`, or the number itself.
pub open spec fn market_label_spec(market: u8) -> Seq<char> {
    if market == 1 {
        "SZ"@
    } else if market == 2 {
        "SH"@
    } else {
        decimal(market as nat)
    }
}

pub fn market_label(market: u8) -> (r: String)
    ensures
        r@ == market_label_spec(market),
{
    if market == 1 {
        String::from_str("SZ")
    } else if market == 2 {
        String::from_str("SH")
    } else {
        let mut s = String::new();
        push_decimal(&mut s, market as u32);
        s
    }
}

/// The readable name of a category; other values are reported as unrecognised.
pub open spec fn category_name_spec(c: u8) -> Seq<char> {
    if c == 1 { "除权除息"@ }
    else if c == 2 { "送配股上市"@ }
    else if c == 3 { "非流通股上市"@ }
    else if c == 4 { "未知股本变动"@ }
    else if c == 5 { "股本变化"@ }
    else if c == 6 { "增发新股"@ }
    else if c == 7 { "股份回购"@ }
    else if c == 8 { "增发新股上市"@ }
    else if c == 9 { "转配股上市"@ }
    else if c == 10 { "可转债上市"@ }
    else if c == 11 { "扩缩股"@ }
    else if c == 12 { "非流通股缩股"@ }
    else if c == 13 { "送认购权证"@ }
    else if c == 14 { "送认沽权证"@ }
    else { "Unknown Category ("@ + decimal(c as nat) + ")"@ }
}

pub fn get_gbbq_category_name(category: u8) -> (r: String)
    ensures
        r@ == category_name_spec(category),
{
    if category == 1 { String::from_str("除权除息") }
    else if category == 2 { String::from_str("送配股上市") }
    else if category == 3 { String::from_str("非流通股上市") }
    else if category == 4 { String::from_str("未知股本变动") }
    else if category == 5 { String::from_str("股本变化") }
    else if category == 6 { String::from_str("增发新股") }
    else if category == 7 { String::from_str("股份回购") }
    else if category == 8 { String::from_str("增发新股上市") }
    else if category == 9 { String::from_str("转配股上市") }
    else if category == 10 { String::from_str("可转债上市") }
    else if category == 11 { String::from_str("扩缩股") }
    else if category == 12 { String::from_str("非流通股缩股") }
    else if category == 13 { String::from_str("送认购权证") }
    else if category == 14 { String::from_str("送认沽权证") }
    else {
        let mut s = String::from_str("Unknown Category (");
        push_decimal(&mut s, category as u32);
        s.append(")");
        s
    }
}


// ---------------------------------------------------------------- dates

/// The last year that chrono's `NaiveDate` represents.
pub const NAIVE_DATE_MAX_YEAR: i32 = 262142;

pub open spec fn is_leap(y: int) -> bool {
    y % 4 == 0 && (y % 100 != 0 || y % 400 == 0)
}

pub open spec fn days_in_month(y: int, m: int) -> int {
    if m == 2 {
        if is_leap(y) { 29 } else { 28 }
    } else if m == 4 || m == 6 || m == 9 || m == 11 {
        30
    } else {
        31
    }
}

/// Whether `y-m-d` is a day of the proleptic Gregorian calendar.
pub open spec fn valid_ymd(y: int, m: int, d: int) -> bool {
    1 <= m <= 12 && 1 <= d <= days_in_month(y, m)
}

/// `YYYY-MM-DD`, each part zero-padded.
pub open spec fn padded_date(y: nat, m: nat, d: nat) -> Seq<char> {
    zero_pad(decimal(y), 4) + "-"@ + zero_pad(decimal(m), 2) + "-"@ + zero_pad(decimal(d), 2)
}

/// Relies on chrono's `NaiveDate::from_ymd_opt`, which gives a date exactly
/// for the calendar days of years up to its last one, and on its `%Y-%m-%d`
/// format, which writes years past 9999 with a leading `+`.
#[verifier::external_body]
fn chrono_iso_date(year: i32, month: u32, day: u32) -> (r: Option<String>)
    requires
        0 <= year,
    ensures
        r.is_some() == (year <= NAIVE_DATE_MAX_YEAR && valid_ymd(year as int, month as int, day as int)),
        r.is_some() ==> r.unwrap()@ == (if year > 9999 { "+"@ } else { Seq::<char>::empty() })
            + padded_date(year as nat, month as nat, day as nat),
{
    chrono::NaiveDate::from_ymd_opt(year, month, day).map(|d| d.format("%Y-%m-%d").to_string())
}

/// The text of a `YYYYMMDD` date: `YYYY-MM-DD`, with a `+` before a valid
/// date whose year has five or more digits.
pub open spec fn gbbq_date_spec(date: u32) -> Seq<char> {
    let y = date / 10000;
    let m = (date % 10000) / 100;
    let d = date % 100;
    if y > 9999 && y <= NAIVE_DATE_MAX_YEAR && valid_ymd(y as int, m as int, d as int) {
        "+"@ + padded_date(y as nat, m as nat, d as nat)
    } else {
        padded_date(y as nat, m as nat, d as nat)
    }
}

pub fn format_gbbq_date(date: u32) -> (r: String)
    ensures
        r@ == gbbq_date_spec(date),
{
    let year = date / 10000;
    let month = (date % 10000) / 100;
    let day = date % 100;
    match chrono_iso_date(year as i32, month, day) {
        Some(s) => {
            assert(Seq::<char>::empty() + padded_date(year as nat, month as nat, day as nat)
                =~= padded_date(year as nat, month as nat, day as nat));
            s
        },
        None => {
            let mut s = String::new();
            push_padded(&mut s, year, 4);
            s.append("-");
            push_padded(&mut s, month, 2);
            s.append("-");
            push_padded(&mut s, day, 2);
            s
        },
    }
}

/// The text columns of the exported row for a record.
pub open spec fn row_spec(k: GbbqKey, r: GbbqRow) -> bool {
    &&& r.market@ == market_label_spec(k.market)
    &&& r.code@ == k.code@
    &&& r.date@ == gbbq_date_spec(k.date)
    &&& r.category == k.category
    &&& r.category_name@ == category_name_spec(k.category)
}

impl GbbqRow {
    pub fn from_gbbq(k: &GbbqKey) -> (r: GbbqRow)
        ensures
            row_spec(*k, r),
    {
        GbbqRow {
            market: market_label(k.market),
            code: String::from_str(k.code.as_str()),
            date: format_gbbq_date(k.date),
            category: k.category,
            category_name: get_gbbq_category_name(k.category),
        }
    }
}

} // verus!
