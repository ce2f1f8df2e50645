//! Keeping the registry ordered by date, newest first.

use vstd::prelude::*;
use vstd::string::*;
use crate::registry::{projects_view, Db, Project, ProjectView};
use crate::scope::{decimal_u32, digits_value, parse_u32};
use crate::text::{chars_of, is_ascii_digit};

verus! {

/// Index of the first `.` at or after `i`; `s.len()` when there is none.
pub open spec fn next_dot(s: Seq<char>, i: int) -> int
    decreases s.len() - i,
{
    if i >= s.len() || i < 0 {
        s.len() as int
    } else if s[i] == '.' {
        i
    } else {
        next_dot(s, i + 1)
    }
}

/// What `i32::from_str` accepts: an optional sign, then one or more ASCII
/// digits whose value fits in an `i32`.
pub open spec fn decimal_i32(s: Seq<char>) -> Option<int> {
    if s.len() > 0 && s[0] == '-' {
        let d = s.subrange(1, s.len() as int);
        if d.len() > 0 && (forall|i: int| 0 <= i < d.len() ==> is_ascii_digit(#[trigger] d[i]))
            && digits_value(d) <= 0x8000_0000 {
            Some(-digits_value(d))
        } else {
            None
        }
    } else {
        match decimal_u32(s) {
            Some(v) => if v <= 0x7fff_ffff {
                Some(v)
            } else {
                None
            },
            None => None,
        }
    }
}

/// The `(year, month, day)` that a `MM.DD.YYYY` date is ordered by:
/// exactly three parts between dots, each a number; `(0, 0, 0)` otherwise.
pub open spec fn date_key(s: Seq<char>) -> (int, int, int) {
    let a = next_dot(s, 0);
    let b = next_dot(s, a + 1);
    let c = next_dot(s, b + 1);
    if a < s.len() && b < s.len() && c == s.len() {
        match (
            decimal_i32(s.subrange(b + 1, s.len() as int)),
            decimal_u32(s.subrange(0, a)),
            decimal_u32(s.subrange(a + 1, b)),
        ) {
            (Some(y), Some(m), Some(d)) => (y, m, d),
            _ => (0, 0, 0),
        }
    } else {
        (0, 0, 0)
    }
}

/// Lexicographic order of date keys.
pub open spec fn key_at_least(x: (int, int, int), y: (int, int, int)) -> bool {
    x.0 > y.0 || (x.0 == y.0 && (x.1 > y.1 || (x.1 == y.1 && x.2 >= y.2)))
}

/// Where `p` goes in `s`, which is ordered newest first: after every
/// project at least as new, so that projects of equal date keep their order.
pub open spec fn insert_position(s: Seq<ProjectView>, p: ProjectView, i: int) -> int
    decreases s.len() - i,
{
    if i < 0 || i >= s.len() {
        s.len() as int
    } else if !key_at_least(date_key(s[i].date), date_key(p.date)) {
        i
    } else {
        insert_position(s, p, i + 1)
    }
}

/// The projects ordered by date, newest first; projects of equal date keep
/// the order they had (a stable sort).
pub open spec fn sorted_by_date(ps: Seq<ProjectView>) -> Seq<ProjectView>
    decreases ps.len(),
{
    if ps.len() == 0 {
        ps
    } else {
        let s = sorted_by_date(ps.drop_last());
        s.insert(insert_position(s, ps.last(), 0), ps.last())
    }
}

proof fn lemma_insert_position(s: Seq<ProjectView>, p: ProjectView, i: int)
    requires
        0 <= i <= s.len(),
    ensures
        i <= insert_position(s, p, i) <= s.len(),
        forall|k: int|
            i <= k < insert_position(s, p, i) ==> key_at_least(
                date_key(#[trigger] s[k].date),
                date_key(p.date),
            ),
        insert_position(s, p, i) < s.len() ==> !key_at_least(
            date_key(s[insert_position(s, p, i)].date),
            date_key(p.date),
        ),
    decreases s.len() - i,
{
    if i < s.len() && key_at_least(date_key(s[i].date), date_key(p.date)) {
        lemma_insert_position(s, p, i + 1);
    }
}

/// Newest first: each project's date key is at least that of every project
/// after it.
pub open spec fn newest_first(s: Seq<ProjectView>) -> bool {
    forall|i: int, j: int|
        0 <= i < j < s.len() ==> key_at_least(
            date_key((#[trigger] s[i]).date),
            date_key((#[trigger] s[j]).date),
        )
}

/// Sorting by date orders the projects newest first and keeps the same
/// projects, each as often as before.
#[verifier::rlimit(60)]
pub proof fn lemma_sorted_by_date(ps: Seq<ProjectView>)
    ensures
        newest_first(sorted_by_date(ps)),
        sorted_by_date(ps).to_multiset() == ps.to_multiset(),
    decreases ps.len(),
{
    broadcast use vstd::seq_lib::group_to_multiset_ensures;

    if ps.len() > 0 {
        let q = ps.drop_last();
        let p = ps.last();
        lemma_sorted_by_date(q);
        let s = sorted_by_date(q);
        lemma_insert_position(s, p, 0);
        let pos = insert_position(s, p, 0);
        let t = s.insert(pos, p);
        assert forall|a: int, b: int| 0 <= a < b < t.len() implies key_at_least(
            date_key((#[trigger] t[a]).date),
            date_key((#[trigger] t[b]).date),
        ) by {
            if b < pos {
                assert(t[a] == s[a] && t[b] == s[b]);
            } else if b == pos {
                assert(t[a] == s[a]);
            } else if a < pos {
                assert(t[a] == s[a] && t[b] == s[b - 1]);
            } else if a == pos {
                assert(t[b] == s[b - 1]);
                if pos < b - 1 {
                    assert(key_at_least(date_key(s[pos].date), date_key(s[b - 1].date)));
                }
            } else {
                assert(t[a] == s[a - 1] && t[b] == s[b - 1]);
            }
        }
        assert(t.remove(pos) =~= s);
        assert(q.push(p) =~= ps);
        assert(t[pos] == p);
        assert(t.to_multiset().count(p) > 0);
        assert(t.to_multiset() =~= s.to_multiset().insert(p));
    }
}

fn next_dot_exec(s: &Vec<char>, from: usize) -> (r: usize)
    requires
        from <= s@.len(),
    ensures
        r as int == next_dot(s@, from as int),
        from <= r <= s@.len(),
{
    let mut i = from;
    while i < s.len() && s[i] != '.'
        invariant
            from <= i <= s@.len(),
            next_dot(s@, i as int) == next_dot(s@, from as int),
        decreases s@.len() - i,
    {
        i += 1;
    }
    i
}

/// Reads a number as `i32::from_str` would.
pub fn parse_i32(s: &str) -> (r: Option<i32>)
    ensures
        r matches Some(v) ==> decimal_i32(s@) == Some(v as int),
        r is None ==> decimal_i32(s@) is None,
{
    let cs = chars_of(s);
    if cs.len() > 0 && cs[0] == '-' {
        let rest = s.substring_char(1, cs.len());
        let cr = chars_of(rest);
        if cr.len() == 0 || cr[0] == '+' {
            proof {
                if cr@.len() > 0 {
                    assert(!is_ascii_digit(rest@[0]));
                }
            }
            return None;
        }
        match parse_u32(rest) {
            Some(v) => {
                if v <= 0x8000_0000 {
                    Some((0 - (v as i64)) as i32)
                } else {
                    None
                }
            },
            None => None,
        }
    } else {
        match parse_u32(s) {
            Some(v) => if v <= 0x7fff_ffff {
                Some(v as i32)
            } else {
                None
            },
            None => None,
        }
    }
}

/// The key a stored date is ordered by (see [`date_key`]).
pub fn date_key_of(date: &str) -> (r: (i32, u32, u32))
    ensures
        (r.0 as int, r.1 as int, r.2 as int) == date_key(date@),
{
    let cs = chars_of(date);
    let a = next_dot_exec(&cs, 0);
    if a >= cs.len() {
        return (0, 0, 0);
    }
    let b = next_dot_exec(&cs, a + 1);
    if b >= cs.len() {
        return (0, 0, 0);
    }
    let c = next_dot_exec(&cs, b + 1);
    if c < cs.len() {
        return (0, 0, 0);
    }
    let year = parse_i32(date.substring_char(b + 1, cs.len()));
    let month = parse_u32(date.substring_char(0, a));
    let day = parse_u32(date.substring_char(a + 1, b));
    match (year, month, day) {
        (Some(y), Some(m), Some(d)) => (y, m, d),
        _ => (0, 0, 0),
    }
}

fn key_at_least_exec(x: (i32, u32, u32), y: (i32, u32, u32)) -> (r: bool)
    ensures
        r == key_at_least((x.0 as int, x.1 as int, x.2 as int), (y.0 as int, y.1 as int, y.2 as int)),
{
    x.0 > y.0 || (x.0 == y.0 && (x.1 > y.1 || (x.1 == y.1 && x.2 >= y.2)))
}

/// Orders the registry by date, newest first, keeping the order of projects
/// with equal dates. Dates that do not read as `MM.DD.YYYY` count as the
/// oldest.
pub fn sort_by_date(db: &mut Db)
    ensures
        final(db).extra == old(db).extra,
        final(db)@ == sorted_by_date(old(db)@),
{
    let ghost start = old(db)@;
    let mut out: Vec<Project> = Vec::new();
    let mut keys: Vec<(i32, u32, u32)> = Vec::new();
    let ghost mut k: int = 0;
    proof {
        assert(start.subrange(0, 0) =~= Seq::<ProjectView>::empty());
        assert(projects_view(out@) =~= Seq::<ProjectView>::empty());
        assert(db@ =~= start.subrange(0, start.len() as int));
    }
    while db.projects.len() > 0
        invariant
            db.extra == old(db).extra,
            0 <= k <= start.len(),
            db@ == start.subrange(k, start.len() as int),
            db@.len() == db.projects@.len(),
            projects_view(out@) == sorted_by_date(start.subrange(0, k)),
            keys@.len() == out@.len(),
            forall|m: int|
                0 <= m < keys@.len() ==> (keys@[m].0 as int, keys@[m].1 as int, keys@[m].2 as int)
                    == date_key(#[trigger] out@[m].date@),
        decreases db.projects@.len(),
    {
        let ghost before = db@;
        let ghost bp = db.projects@;
        let p = db.projects.remove(0);
        proof {
            assert(p@ == before[0]);
            assert(db.projects@ =~= bp.subrange(1, bp.len() as int));
            assert(db@ =~= before.subrange(1, before.len() as int));
            assert(db@ =~= start.subrange(k + 1, start.len() as int));
            assert(start.subrange(0, k + 1).drop_last() =~= start.subrange(0, k));
            assert(start.subrange(0, k + 1).last() == p@);
        }
        let pk = date_key_of(p.date.as_str());
        let ghost sv = projects_view(out@);
        let mut pos: usize = 0;
        while pos < out.len() && key_at_least_exec(keys[pos], pk)
            invariant
                pos <= out@.len(),
                keys@.len() == out@.len(),
                sv == projects_view(out@),
                (pk.0 as int, pk.1 as int, pk.2 as int) == date_key(p@.date),
                forall|m: int|
                    0 <= m < keys@.len() ==> (keys@[m].0 as int, keys@[m].1 as int, keys@[m].2 as int)
                        == date_key(#[trigger] out@[m].date@),
                insert_position(sv, p@, pos as int) == insert_position(sv, p@, 0),
            decreases out@.len() - pos,
        {
            assert(sv[pos as int].date == out@[pos as int].date@);
            pos += 1;
        }
        proof {
            if pos < out@.len() {
                assert(sv[pos as int].date == out@[pos as int].date@);
            }
        }
        let ghost out_before = out@;
        out.insert(pos, p);
        keys.insert(pos, pk);
        proof {
            assert(projects_view(out@) =~= sv.insert(pos as int, p@));
            k = k + 1;
            assert forall|m: int|
                0 <= m < keys@.len() implies (keys@[m].0 as int, keys@[m].1 as int, keys@[m].2 as int)
                    == date_key(#[trigger] out@[m].date@) by {
                if m < pos {
                    assert(out@[m] == out_before[m]);
                } else if m > pos {
                    assert(out@[m] == out_before[m - 1]);
                }
            }
        }
    }
    proof {
        assert(start.subrange(0, k) =~= start);
    }
    db.projects = out;
}

} // verus!
