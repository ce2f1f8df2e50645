//! The per-year configuration: which year is active, and for each year the
//! registry file, the users file and the watched projects folder.

use vstd::prelude::*;
use vstd::string::*;
use crate::text::{chars_of, is_ascii_digit, is_ascii_digit_char, strings_view};

verus! {

/// The paths of one year; an empty path is one not chosen yet.
#[derive(Debug)]
pub struct YearPaths {
    pub db_path: String,
    pub users_path: String,
    pub projects_dir: String,
}

#[derive(Clone, Copy, Debug, PartialEq, Eq, Structural)]
pub enum PathKind {
    Registry,
    Users,
    ProjectsDir,
}

/// The configuration document. Each year appears once in `years`.
#[derive(Debug)]
pub struct ScopeConfig {
    pub current_year: String,
    pub years: Vec<(String, YearPaths)>,
}

pub open spec fn path_of(p: YearPaths, kind: PathKind) -> Seq<char> {
    match kind {
        PathKind::Registry => p.db_path@,
        PathKind::Users => p.users_path@,
        PathKind::ProjectsDir => p.projects_dir@,
    }
}

pub open spec fn year_keys(years: Seq<(String, YearPaths)>) -> Seq<Seq<char>> {
    years.map_values(|e: (String, YearPaths)| e.0@)
}

/// Index of the entry of `year`.
pub open spec fn index_of_year(years: Seq<(String, YearPaths)>, year: Seq<char>) -> Option<int> {
    if exists|i: int| 0 <= i < years.len() && (#[trigger] years[i]).0@ == year {
        Some(choose|i: int| 0 <= i < years.len() && (#[trigger] years[i]).0@ == year)
    } else {
        None
    }
}

pub open spec fn keys_unique(years: Seq<(String, YearPaths)>) -> bool {
    forall|i: int, j: int|
        0 <= i < j < years.len() ==> (#[trigger] years[i]).0@ != (#[trigger] years[j]).0@
}

/// Value of a string of ASCII digits.
pub open spec fn digits_value(s: Seq<char>) -> int
    decreases s.len(),
{
    if s.len() == 0 {
        0
    } else {
        digits_value(s.drop_last()) * 10 + (s.last() as int - '0' as int)
    }
}

/// `s` without a leading `+`.
pub open spec fn unsigned_digits(s: Seq<char>) -> Seq<char> {
    if s.len() > 0 && s[0] == '+' {
        s.subrange(1, s.len() as int)
    } else {
        s
    }
}

/// What `u32::from_str` accepts: an optional `+`, then one or more ASCII
/// digits whose value fits in a `u32`.
pub open spec fn decimal_u32(s: Seq<char>) -> Option<int> {
    let d = unsigned_digits(s);
    if d.len() > 0 && (forall|i: int| 0 <= i < d.len() ==> is_ascii_digit(#[trigger] d[i]))
        && digits_value(d) <= u32::MAX {
        Some(digits_value(d))
    } else {
        None
    }
}

/// The largest year key that reads as a number, if any does.
pub open spec fn max_year(keys: Seq<Seq<char>>) -> Option<int>
    decreases keys.len(),
{
    if keys.len() == 0 {
        None
    } else {
        match (max_year(keys.drop_last()), decimal_u32(keys.last())) {
            (None, y) => y,
            (m, None) => m,
            (Some(a), Some(b)) => Some(
                if a >= b {
                    a
                } else {
                    b
                },
            ),
        }
    }
}

/// The year that a new scope gets: one after the largest year, or 2026 when
/// no year key reads as a number.
pub open spec fn next_year_of(keys: Seq<Seq<char>>) -> int {
    match max_year(keys) {
        Some(m) => m + 1,
        None => 2026,
    }
}

proof fn lemma_digits_value_grows(d: Seq<char>, k: int)
    requires
        0 <= k <= d.len(),
        forall|i: int| 0 <= i < d.len() ==> is_ascii_digit(#[trigger] d[i]),
    ensures
        digits_value(d.subrange(0, k)) <= digits_value(d),
        digits_value(d) >= 0,
    decreases d.len(),
{
    if d.len() > 0 {
        let q = d.drop_last();
        if k == d.len() {
            assert(d.subrange(0, k) =~= d);
            lemma_digits_value_grows(q, 0);
        } else {
            assert(d.subrange(0, k) =~= q.subrange(0, k));
            lemma_digits_value_grows(q, k);
        }
    }
}

/// Reads a year as `u32::from_str` would.
pub fn parse_u32(s: &str) -> (r: Option<u32>)
    ensures
        r matches Some(v) ==> decimal_u32(s@) == Some(v as int),
        r is None ==> decimal_u32(s@) is None,
{
    let cs = chars_of(s);
    let start: usize = if cs.len() > 0 && cs[0] == '+' {
        1
    } else {
        0
    };
    let ghost d = unsigned_digits(s@);
    assert(d =~= cs@.subrange(start as int, cs@.len() as int));
    if start >= cs.len() {
        assert(d.len() == 0);
        return None;
    }
    let mut k: usize = start;
    while k < cs.len()
        invariant
            start <= k <= cs@.len(),
            d == cs@.subrange(start as int, cs@.len() as int),
            d == unsigned_digits(s@),
            forall|i: int| start <= i < k ==> is_ascii_digit(#[trigger] cs@[i]),
        decreases cs@.len() - k,
    {
        if !is_ascii_digit_char(cs[k]) {
            assert(d[k - start] == cs@[k as int]);
            return None;
        }
        k += 1;
    }
    assert forall|i: int| 0 <= i < d.len() implies is_ascii_digit(#[trigger] d[i]) by {
        assert(d[i] == cs@[start + i]);
    }
    let mut v: u64 = 0;
    let mut k: usize = start;
    while k < cs.len()
        invariant
            start <= k <= cs@.len(),
            d == cs@.subrange(start as int, cs@.len() as int),
            d == unsigned_digits(s@),
            forall|i: int| 0 <= i < d.len() ==> is_ascii_digit(#[trigger] d[i]),
            v as int == digits_value(d.subrange(0, k - start)),
            v <= u32::MAX,
        decreases cs@.len() - k,
    {
        proof {
            assert(d[k - start] == cs@[k as int]);
            assert(is_ascii_digit(d[k - start]));
        }
        let digit = (cs[k] as u32 - '0' as u32) as u64;
        proof {
            assert(d.subrange(0, k + 1 - start).drop_last() =~= d.subrange(0, k - start));
            assert(d[k - start] == cs@[k as int]);
        }
        let next = v * 10 + digit;
        if next > u32::MAX as u64 {
            proof {
                assert(digits_value(d.subrange(0, k + 1 - start)) == next);
                lemma_digits_value_grows(d, k + 1 - start);
            }
            return None;
        }
        v = next;
        k += 1;
    }
    assert(d.subrange(0, k - start) =~= d);
    Some(v as u32)
}

impl ScopeConfig {
    /// The configuration written when none exists: the year 2025, active,
    /// with no path chosen.
    pub fn skeleton() -> (r: ScopeConfig)
        ensures
            r.current_year@ == "2025"@,
            r.years@.len() == 1,
            r.years@[0].0@ == "2025"@,
            r.years@[0].1.db_path@.len() == 0,
            r.years@[0].1.users_path@.len() == 0,
            r.years@[0].1.projects_dir@.len() == 0,
    {
        let paths = YearPaths {
            db_path: String::new(),
            users_path: String::new(),
            projects_dir: String::new(),
        };
        ScopeConfig { current_year: "2025".to_owned(), years: vec![("2025".to_owned(), paths)] }
    }

    fn find_year(&self, year: &String) -> (r: Option<usize>)
        requires
            keys_unique(self.years@),
        ensures
            r matches Some(i) ==> i < self.years@.len() && self.years@[i as int].0@ == year@
                && index_of_year(self.years@, year@) == Some(i as int),
            r is None ==> index_of_year(self.years@, year@) is None,
    {
        let mut i: usize = 0;
        while i < self.years.len()
            invariant
                keys_unique(self.years@),
                i <= self.years@.len(),
                forall|m: int| 0 <= m < i ==> (#[trigger] self.years@[m]).0@ != year@,
            decreases self.years@.len() - i,
        {
            if self.years[i].0 == *year {
                proof {
                    let k = choose|k: int|
                        0 <= k < self.years@.len() && (#[trigger] self.years@[k]).0@ == year@;
                    if k > i {
                        assert(self.years@[i as int].0@ != self.years@[k].0@);
                    }
                }
                return Some(i);
            }
            i += 1;
        }
        None
    }

    /// The active year's path of the given kind, unless it has not been
    /// chosen (or the active year has no entry).
    pub fn current_path(&self, kind: PathKind) -> (r: Option<String>)
        requires
            keys_unique(self.years@),
        ensures
            r matches Some(p) ==> ({
                let i = index_of_year(self.years@, self.current_year@);
                &&& i is Some
                &&& p@ == path_of(self.years@[i->0].1, kind)
                &&& p@.len() > 0
            }),
            r is None ==> ({
                let i = index_of_year(self.years@, self.current_year@);
                i is None || path_of(self.years@[i->0].1, kind).len() == 0
            }),
    {
        match self.find_year(&self.current_year) {
            Some(i) => {
                let paths = &self.years[i].1;
                let p = match kind {
                    PathKind::Registry => &paths.db_path,
                    PathKind::Users => &paths.users_path,
                    PathKind::ProjectsDir => &paths.projects_dir,
                };
                if p.as_str().is_empty() {
                    None
                } else {
                    Some(p.clone())
                }
            },
            None => None,
        }
    }

    /// Records a chosen path for the active year. Returns whether the active
    /// year has an entry; when not, nothing changes.
    pub fn set_current_path(&mut self, kind: PathKind, path: String) -> (found: bool)
        requires
            keys_unique(old(self).years@),
        ensures
            found == index_of_year(old(self).years@, old(self).current_year@) is Some,
            final(self).current_year == old(self).current_year,
            year_keys(final(self).years@) == year_keys(old(self).years@),
            found ==> ({
                let i = index_of_year(old(self).years@, old(self).current_year@)->0;
                &&& path_of(final(self).years@[i].1, kind) == path@
                &&& forall|k: PathKind|
                    k != kind ==> path_of(final(self).years@[i].1, k) == path_of(
                        old(self).years@[i].1,
                        k,
                    )
                &&& forall|j: int|
                    0 <= j < old(self).years@.len() && j != i ==> final(self).years@[j]
                        == old(self).years@[j]
            }),
            !found ==> final(self).years@ == old(self).years@,
    {
        match self.find_year(&self.current_year) {
            Some(i) => {
                match kind {
                    PathKind::Registry => self.years[i].1.db_path = path,
                    PathKind::Users => self.years[i].1.users_path = path,
                    PathKind::ProjectsDir => self.years[i].1.projects_dir = path,
                }
                proof {
                    assert(year_keys(self.years@) =~= year_keys(old(self).years@));
                }
                true
            },
            None => false,
        }
    }

    /// The years that have an entry, in the order they are kept.
    pub fn list_years(&self) -> (r: Vec<String>)
        ensures
            strings_view(r@) == year_keys(self.years@),
    {
        let mut r: Vec<String> = Vec::new();
        let mut i: usize = 0;
        while i < self.years.len()
            invariant
                i <= self.years@.len(),
                strings_view(r@) == year_keys(self.years@).subrange(0, i as int),
            decreases self.years@.len() - i,
        {
            let y = self.years[i].0.clone();
            assert(y@ == year_keys(self.years@)[i as int]);
            let ghost before = r@;
            r.push(y);
            proof {
                assert(strings_view(r@) =~= strings_view(before).push(y@));
                assert(year_keys(self.years@).subrange(0, i + 1) =~= year_keys(self.years@).subrange(
                    0,
                    i as int,
                ).push(y@));
            }
            i += 1;
        }
        assert(year_keys(self.years@).subrange(0, i as int) =~= year_keys(self.years@));
        r
    }

    /// Makes `year` the active year.
    pub fn switch_year(&mut self, year: String)
        ensures
            final(self).current_year == year,
            final(self).years@ == old(self).years@,
    {
        self.current_year = year;
    }

    /// The year that a new scope gets; `None` when it would not fit a `u32`.
    pub fn next_year(&self) -> (r: Option<u32>)
        ensures
            next_year_of(year_keys(self.years@)) <= u32::MAX ==> r == Some(
                next_year_of(year_keys(self.years@)) as u32,
            ),
            next_year_of(year_keys(self.years@)) > u32::MAX ==> r is None,
    {
        let ghost keys = year_keys(self.years@);
        let mut best: Option<u32> = None;
        let mut i: usize = 0;
        while i < self.years.len()
            invariant
                keys == year_keys(self.years@),
                i <= self.years@.len(),
                match best {
                    Some(b) => max_year(keys.subrange(0, i as int)) == Some(b as int),
                    None => max_year(keys.subrange(0, i as int)) is None,
                },
            decreases self.years@.len() - i,
        {
            proof {
                assert(keys.subrange(0, i + 1).drop_last() =~= keys.subrange(0, i as int));
                assert(keys.subrange(0, i + 1).last() == self.years@[i as int].0@);
            }
            match parse_u32(self.years[i].0.as_str()) {
                Some(y) => {
                    best = match best {
                        Some(b) => Some(
                            if b >= y {
                                b
                            } else {
                                y
                            },
                        ),
                        None => Some(y),
                    };
                },
                None => {},
            }
            i += 1;
        }
        assert(keys.subrange(0, i as int) =~= keys);
        match best {
            Some(b) => if b == u32::MAX {
                None
            } else {
                Some(b + 1)
            },
            None => Some(2026),
        }
    }

    /// Records the paths of `year`, replacing its entry if it has one, and
    /// makes it the active year.
    pub fn add_year(&mut self, year: String, paths: YearPaths)
        requires
            keys_unique(old(self).years@),
        ensures
            keys_unique(final(self).years@),
            final(self).current_year@ == year@,
            index_of_year(old(self).years@, year@) matches Some(i) ==> final(self).years@
                == old(self).years@.update(i, (old(self).years@[i].0, paths)),
            index_of_year(old(self).years@, year@) is None ==> {
                &&& final(self).years@.len() == old(self).years@.len() + 1
                &&& final(self).years@.subrange(0, old(self).years@.len() as int)
                    == old(self).years@
                &&& final(self).years@.last().0@ == year@
                &&& final(self).years@.last().1 == paths
            },
    {
        let key = year.clone();
        match self.find_year(&year) {
            Some(i) => {
                let ghost k = old(self).years@[i as int].0;
                self.years[i].1 = paths;
                proof {
                    assert(self.years@[i as int].0 == k);
                    assert(self.years@ =~= old(self).years@.update(i as int, (k, paths)));
                }
            },
            None => {
                self.years.push((key, paths));
                assert(self.years@.subrange(0, old(self).years@.len() as int) =~= old(self).years@);
            },
        }
        self.current_year = year;
    }
}

} // verus!
