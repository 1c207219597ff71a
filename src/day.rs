//! Selection of per-stock bar files within a directory, the per-directory
//! report, and the table of previous adjustment factors.

use vstd::prelude::*;
use crate::text::{
    all_digits, digits_value, ends_with, is_digit, parse_u32, parse_u32_str, push_char,
    str_ends_with, str_eq, views,
};
use std::collections::HashMap;

verus! {

broadcast use vstd::std_specs::hash::group_hash_axioms;

/// The stem of a bar file's name: the name without its `.day` extension.
pub open spec fn day_stem_spec(name: Seq<char>) -> Option<Seq<char>> {
    if name.len() > 4 && ends_with(name, ".day"@) {
        Some(name.subrange(0, name.len() - 4))
    } else {
        None
    }
}

/// The code of a stem: its last six characters, all decimal digits.
pub open spec fn stem_code_spec(stem: Seq<char>) -> Option<u32> {
    if stem.len() >= 6 && all_digits(stem.subrange(stem.len() - 6, stem.len() as int)) {
        Some(digits_value(stem.subrange(stem.len() - 6, stem.len() as int)) as u32)
    } else {
        None
    }
}

/// The code of a file that takes part in the export: a bar file whose code can
/// be read from its name and whose stem is in the allow-list, where one is given.
pub open spec fn eligible_code(name: Seq<char>, allow: Option<Seq<Seq<char>>>) -> Option<u32> {
    match day_stem_spec(name) {
        None => None,
        Some(stem) => match stem_code_spec(stem) {
            None => None,
            Some(code) => match allow {
                Some(list) => if list.contains(stem) { Some(code) } else { None },
                None => Some(code),
            },
        },
    }
}

/// `(index, code)` of each eligible name among the first `k`, in order.
pub open spec fn eligible_files(names: Seq<String>, allow: Option<Seq<Seq<char>>>, k: nat) -> Seq<(usize, u32)>
    decreases k,
{
    if k == 0 || k > names.len() {
        Seq::<(usize, u32)>::empty()
    } else {
        let r = eligible_files(names, allow, (k - 1) as nat);
        match eligible_code(names[k - 1]@, allow) {
            Some(code) => r.push(((k - 1) as usize, code)),
            None => r,
        }
    }
}

/// How many of the first `k` names are bar files.
pub open spec fn day_file_count(names: Seq<String>, k: nat) -> nat
    decreases k,
{
    if k == 0 || k > names.len() {
        0
    } else {
        day_file_count(names, (k - 1) as nat) + if day_stem_spec(names[k - 1]@) is Some {
            1nat
        } else {
            0nat
        }
    }
}

/// What a directory yields: how many bar files it holds, the cap in force, and
/// the files to process, as `(index into the names, code)`.
pub struct FileSelection {
    pub matched: usize,
    pub take: usize,
    pub picked: Vec<(usize, u32)>,
}

/// The outcome of one directory, as reported after it.
#[derive(PartialEq, Eq, Structural, Clone, Copy, Debug)]
pub enum DirReport {
    /// A nonzero cap, yet no file was processed: a warning.
    NothingMatched,
    /// The cap was zero: a warning.
    ZeroCap,
    /// This many files were processed.
    Completed(usize),
}

/// The stem of a bar file's name.
pub fn day_stem(name: &str) -> (r: Option<String>)
    ensures
        r.is_some() == day_stem_spec(name@).is_some(),
        r.is_some() ==> r.unwrap()@ == day_stem_spec(name@).unwrap(),
{
    let n = name.unicode_len();
    if n > 4 && str_ends_with(name, ".day") {
        let mut s = String::new();
        let mut i: usize = 0;
        while i < n - 4
            invariant
                n == name@.len(),
                n > 4,
                i <= n - 4,
                s@ == name@.subrange(0, i as int),
            decreases n - 4 - i,
        {
            push_char(&mut s, name.get_char(i));
            i = i + 1;
            assert(s@ =~= name@.subrange(0, i as int));
        }
        Some(s)
    } else {
        None
    }
}

/// The code of a stem, read from its last six characters.
pub fn stem_code(stem: &str) -> (r: Option<u32>)
    ensures
        r == stem_code_spec(stem@),
{
    let n = stem.unicode_len();
    if n < 6 {
        return None;
    }
    let ghost tail = stem@.subrange(n - 6, n as int);
    let mut acc: u32 = 0;
    let mut i: usize = n - 6;
    assert(tail.subrange(0, 0) =~= Seq::<char>::empty());
    while i < n
        invariant
            n == stem@.len(),
            n >= 6,
            n - 6 <= i <= n,
            tail == stem@.subrange(n - 6, n as int),
            all_digits(tail.subrange(0, i - (n - 6))),
            acc as nat == digits_value(tail.subrange(0, i - (n - 6))),
            (acc as nat) < pow10_6(i - (n - 6)),
        decreases n - i,
    {
        let c = stem.get_char(i);
        let ghost k = i - (n - 6);
        let ghost next = tail.subrange(0, k + 1);
        assert(next.drop_last() =~= tail.subrange(0, k));
        assert(next.last() == c);
        if !('0' <= c && c <= '9') {
            assert(!is_digit(tail[k]));
            return None;
        }
        assert(pow10_6(k + 1) == pow10_6(k) * 10);
        assert(pow10_6(k) <= 100000) by {
            reveal_with_fuel(pow10_6, 7);
        }
        acc = acc * 10 + (c as u32 - '0' as u32);
        i = i + 1;
    }
    assert(tail.subrange(0, 6) =~= tail);
    Some(acc)
}

/// `10` to the power `k`, for the digit counts of a code.
pub open spec fn pow10_6(k: int) -> nat
    decreases k,
{
    if k <= 0 {
        1
    } else {
        10 * pow10_6(k - 1)
    }
}


/// Whether `list` holds the characters of `s`.
fn contains_str(list: &Vec<String>, s: &str) -> (r: bool)
    ensures
        r == views(list@).contains(s@),
{
    let mut i: usize = 0;
    while i < list.len()
        invariant
            i <= list@.len(),
            forall|k: int| 0 <= k < i ==> list@[k]@ != s@,
        decreases list@.len() - i,
    {
        if str_eq(list[i].as_str(), s) {
            assert(views(list@)[i as int] == s@);
            return true;
        }
        i = i + 1;
    }
    proof {
        if views(list@).contains(s@) {
            let k = choose|k: int| 0 <= k < views(list@).len() && views(list@)[k] == s@;
            assert(list@[k]@ == s@);
        }
    }
    false
}

/// The allow-list as character sequences.
pub open spec fn allow_view(allow: Option<Vec<String>>) -> Option<Seq<Seq<char>>> {
    match allow {
        None => None,
        Some(v) => Some(views(v@)),
    }
}

/// The cap in force: the one given, else the number of bar files.
pub open spec fn take_spec(names: Seq<String>, cap: Option<usize>) -> nat {
    match cap {
        Some(c) => c as nat,
        None => day_file_count(names, names.len()),
    }
}

/// The files to process: the first `take` eligible ones, in directory order.
pub open spec fn picked_spec(names: Seq<String>, allow: Option<Seq<Seq<char>>>, take: nat) -> Seq<(usize, u32)> {
    let e = eligible_files(names, allow, names.len());
    if take < e.len() {
        e.take(take as int)
    } else {
        e
    }
}

proof fn lemma_day_count_bound(names: Seq<String>, k: nat)
    ensures
        day_file_count(names, k) <= k,
    decreases k,
{
    if k > 0 {
        lemma_day_count_bound(names, (k - 1) as nat);
    }
}

proof fn lemma_eligible_bound(names: Seq<String>, allow: Option<Seq<Seq<char>>>, k: nat)
    ensures
        eligible_files(names, allow, k).len() <= k,
    decreases k,
{
    if k > 0 {
        lemma_eligible_bound(names, allow, (k - 1) as nat);
    }
}

/// Chooses the files of one directory: the bar files whose code can be read
/// and whose stem is allowed, in directory order, at most `cap` of them (by
/// default as many as there are bar files).
pub fn select_files(names: &Vec<String>, allow: &Option<Vec<String>>, cap: Option<usize>) -> (r: FileSelection)
    ensures
        r.matched as nat == day_file_count(names@, names@.len()),
        r.take as nat == take_spec(names@, cap),
        r.picked@ == picked_spec(names@, allow_view(*allow), r.take as nat),
{
    let ghost av = allow_view(*allow);
    let mut eligible: Vec<(usize, u32)> = Vec::new();
    let mut matched: usize = 0;
    let mut i: usize = 0;
    while i < names.len()
        invariant
            i <= names@.len(),
            av == allow_view(*allow),
            matched as nat == day_file_count(names@, i as nat),
            eligible@ == eligible_files(names@, av, i as nat),
        decreases names@.len() - i,
    {
        proof {
            lemma_day_count_bound(names@, i as nat);
        }
        match day_stem(names[i].as_str()) {
            None => {},
            Some(stem) => {
                matched = matched + 1;
                match stem_code(stem.as_str()) {
                    None => {},
                    Some(code) => {
                        let allowed = match allow {
                            None => true,
                            Some(list) => contains_str(list, stem.as_str()),
                        };
                        if allowed {
                            eligible.push((i, code));
                        }
                    },
                }
            },
        }
        i = i + 1;
    }
    let take = match cap {
        Some(c) => c,
        None => matched,
    };
    let mut picked: Vec<(usize, u32)> = Vec::new();
    let mut j: usize = 0;
    while j < eligible.len() && j < take
        invariant
            j <= eligible@.len(),
            j <= take,
            picked@ == eligible@.take(j as int),
            eligible@ == eligible_files(names@, av, names@.len()),
            av == allow_view(*allow),
        decreases eligible@.len() - j,
    {
        picked.push(eligible[j]);
        j = j + 1;
        assert(picked@ =~= eligible@.take(j as int));
    }
    assert(i == names@.len());
    proof {
        if j == eligible@.len() {
            assert(eligible@.take(j as int) =~= eligible@);
        }
    }
    FileSelection { matched, take, picked }
}

pub open spec fn report_spec(count: nat, take: nat) -> DirReport {
    if count == 0 && take != 0 {
        DirReport::NothingMatched
    } else if take == 0 {
        DirReport::ZeroCap
    } else {
        DirReport::Completed(count as usize)
    }
}

/// The report after a directory where `count` files were processed under cap `take`.
pub fn report(count: usize, take: usize) -> (r: DirReport)
    ensures
        r == report_spec(count as nat, take as nat),
{
    if count == 0 && take != 0 {
        DirReport::NothingMatched
    } else if take == 0 {
        DirReport::ZeroCap
    } else {
        DirReport::Completed(count)
    }
}

/// A cap of zero selects no file in a directory, and its report is the
/// zero-cap warning rather than a completion.
pub proof fn lemma_zero_cap(names: Seq<String>, allow: Option<Seq<Seq<char>>>)
    ensures
        take_spec(names, Some(0usize)) == 0,
        picked_spec(names, allow, take_spec(names, Some(0usize))).len() == 0,
        report_spec(picked_spec(names, allow, 0).len(), 0) == DirReport::ZeroCap,
{
    let e = eligible_files(names, allow, names.len());
    if 0 < e.len() {
        assert(e.take(0).len() == 0);
    }
}

// ---------------------------------------------------------------- adjustment

/// How the bars of a run are produced.
#[derive(PartialEq, Eq, Structural, Clone, Copy, Debug)]
pub enum AdjustMode {
    /// The raw bars, unchanged.
    Unadjusted,
    /// Adjusted from the corporate-action history, starting from factor 1.
    Full,
    /// Adjusted as in `Full`, seeded with each code's previous factor where
    /// one is known, whether or not the code has corporate actions.
    Incremental,
}

/// The mode chosen by the inputs of a run: no corporate-action archive gives
/// raw bars; an archive gives adjusted bars, seeded from previous factors
/// where a source of them is given.
pub fn adjust_mode(has_actions: bool, has_previous: bool) -> (r: AdjustMode)
    ensures
        !has_actions ==> r == AdjustMode::Unadjusted,
        has_actions && !has_previous ==> r == AdjustMode::Full,
        has_actions && has_previous ==> r == AdjustMode::Incremental,
{
    if !has_actions {
        AdjustMode::Unadjusted
    } else if has_previous {
        AdjustMode::Incremental
    } else {
        AdjustMode::Full
    }
}

// ---------------------------------------------------------------- previous factors

/// For each code of the rows, the index of its last row; `None` where a code
/// is not a number.
pub open spec fn latest_rows_spec(codes: Seq<Seq<char>>) -> Option<Map<u32, usize>>
    decreases codes.len(),
{
    if codes.len() == 0 {
        Some(Map::<u32, usize>::empty())
    } else {
        match (latest_rows_spec(codes.drop_last()), parse_u32(codes.last())) {
            (Some(m), Some(c)) => Some(m.insert(c, (codes.len() - 1) as usize)),
            _ => None,
        }
    }
}

/// Indexes the rows of a previous-factor table by code, the last row of a
/// code winning.
pub fn latest_factor_rows(codes: &Vec<String>) -> (r: Option<HashMap<u32, usize>>)
    ensures
        r.is_some() == latest_rows_spec(views(codes@)).is_some(),
        r.is_some() ==> r.unwrap()@ == latest_rows_spec(views(codes@)).unwrap(),
{
    let mut m: HashMap<u32, usize> = HashMap::new();
    let mut i: usize = 0;
    assert(views(codes@).subrange(0, 0) =~= Seq::<Seq<char>>::empty());
    while i < codes.len()
        invariant
            i <= codes@.len(),
            latest_rows_spec(views(codes@).subrange(0, i as int)) == Some(m@),
        decreases codes@.len() - i,
    {
        let ghost pre = views(codes@).subrange(0, i as int);
        let ghost next = views(codes@).subrange(0, i + 1);
        assert(next.drop_last() =~= pre);
        assert(next.last() == codes@[i as int]@);
        match parse_u32_str(codes[i].as_str()) {
            None => {
                proof {
                    lemma_latest_none_extends(views(codes@), i as int + 1);
                }
                return None;
            },
            Some(c) => {
                m.insert(c, i);
            },
        }
        i = i + 1;
    }
    assert(views(codes@).subrange(0, i as int) =~= views(codes@));
    Some(m)
}

proof fn lemma_latest_none_extends(codes: Seq<Seq<char>>, k: int)
    requires
        0 <= k <= codes.len(),
        latest_rows_spec(codes.subrange(0, k)) is None,
    ensures
        latest_rows_spec(codes) is None,
    decreases codes.len() - k,
{
    if k < codes.len() {
        let next = codes.subrange(0, k + 1);
        assert(next.drop_last() =~= codes.subrange(0, k));
        lemma_latest_none_extends(codes, k + 1);
    } else {
        assert(codes.subrange(0, k) =~= codes);
    }
}

/// Where the previous factors come from.
#[derive(Debug)]
pub enum PreviousSource {
    /// Queried from the warehouse table.
    Warehouse,
    /// Read from this table file.
    File(String),
}

/// The source named by a path: `clickhouse` for the warehouse, else a file;
/// `None` where no path is given, which ends the run.
pub fn previous_source(path: &Option<String>) -> (r: Option<PreviousSource>)
    ensures
        r is None <==> path is None,
        r matches Some(PreviousSource::Warehouse) <==> (path is Some && path.unwrap()@ == "clickhouse"@),
        r matches Some(PreviousSource::File(p)) ==> (path is Some && p@ == path.unwrap()@ && p@ != "clickhouse"@),
{
    match path {
        None => None,
        Some(p) => {
            if str_eq(p.as_str(), "clickhouse") {
                Some(PreviousSource::Warehouse)
            } else {
                Some(PreviousSource::File(String::from_str(p.as_str())))
            }
        },
    }
}

} // verus!
