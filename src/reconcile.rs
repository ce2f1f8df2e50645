//! Bringing the registry in line with the folders under the watched root.

use vstd::prelude::*;
use vstd::string::*;
use crate::folder::{folder_name_parts, parse_folder_name};
use crate::registry::{
    append_project, ids_unique, lemma_max_id_bounds, lemma_push_next_id_keeps_unique, max_id,
    new_project, next_id, set_title_date_at, Db, Project, ProjectView, RegistryError,
};
use crate::text::{chars_of, lower_of, lowercase, same_title};

verus! {

/// A direct subdirectory of the watched root: its base name and its
/// absolute path.
#[derive(Debug)]
pub struct FolderEntry {
    pub name: String,
    pub path: String,
}

pub struct FolderView {
    pub name: Seq<char>,
    pub path: Seq<char>,
}

impl View for FolderEntry {
    type V = FolderView;

    open spec fn view(&self) -> FolderView {
        FolderView { name: self.name@, path: self.path@ }
    }
}

pub open spec fn folders_view(s: Seq<FolderEntry>) -> Seq<FolderView> {
    s.map_values(|f: FolderEntry| f@)
}

/// Index of the last of the first `j` projects whose title is `title`,
/// letter case aside.
pub open spec fn last_titled_below(ps: Seq<ProjectView>, title: Seq<char>, j: int) -> Option<int>
    decreases j,
{
    if j <= 0 || j > ps.len() {
        None
    } else if same_title(ps[j - 1].title, title) {
        Some(j - 1)
    } else {
        last_titled_below(ps, title, j - 1)
    }
}

/// The project that a folder title names: the last one with that title,
/// letter case aside, as in an index by title filled in registry order.
pub open spec fn project_titled(ps: Seq<ProjectView>, title: Seq<char>) -> Option<int> {
    last_titled_below(ps, title, ps.len() as int)
}

/// A stored date agrees with a folder's `MM.DD` stamp when it starts with it.
pub open spec fn date_agrees(date: Seq<char>, stamp: Seq<char>) -> bool {
    date.len() >= stamp.len() && date.subrange(0, stamp.len() as int) == stamp
}

/// `MM.DD.YYYY` from a folder's stamp and the active year.
pub open spec fn full_date(stamp: Seq<char>, year: Seq<char>) -> Seq<char> {
    stamp + "."@ + year
}

/// The registry after one folder is taken into account. A folder whose name
/// does not follow the convention changes nothing. A folder whose title
/// names a project whose date disagrees gives that project the folder's
/// title and date; one whose date agrees changes nothing. A folder whose
/// title names no project adds a project, with the next id and the folder's
/// path.
pub open spec fn apply_folder(ps: Seq<ProjectView>, f: FolderView, year: Seq<char>) -> Seq<
    ProjectView,
> {
    match folder_name_parts(f.name) {
        None => ps,
        Some((stamp, title)) => match project_titled(ps, title) {
            Some(i) => if date_agrees(ps[i].date, stamp) {
                ps
            } else {
                ps.update(i, ProjectView { title: title, date: full_date(stamp, year), ..ps[i] })
            },
            None => ps.push(
                new_project(next_id(ps), title, full_date(stamp, year), Some(f.path)),
            ),
        },
    }
}

/// The registry after the folders are taken into account, in order.
pub open spec fn reconciled(ps: Seq<ProjectView>, folders: Seq<FolderView>, year: Seq<char>) -> Seq<
    ProjectView,
>
    decreases folders.len(),
{
    if folders.len() == 0 {
        ps
    } else {
        apply_folder(reconciled(ps, folders.drop_last(), year), folders.last(), year)
    }
}

pub proof fn lemma_last_titled_below(ps: Seq<ProjectView>, title: Seq<char>, j: int)
    requires
        0 <= j <= ps.len(),
    ensures
        last_titled_below(ps, title, j) matches Some(k) ==> 0 <= k < j && same_title(
            ps[k].title,
            title,
        ) && forall|m: int| k < m < j ==> !same_title(#[trigger] ps[m].title, title),
        last_titled_below(ps, title, j) is None ==> forall|m: int|
            0 <= m < j ==> !same_title(#[trigger] ps[m].title, title),
    decreases j,
{
    if j > 0 && !same_title(ps[j - 1].title, title) {
        lemma_last_titled_below(ps, title, j - 1);
    }
}

/// Index of the last of `keys` equal to `key`. With the lower-case forms of
/// the registry's titles as `keys` and of a folder title as `key`, this is
/// the project that the folder names (see [`project_titled`]).
pub fn last_index_of(keys: &Vec<String>, key: &String) -> (r: Option<usize>)
    ensures
        r matches Some(i) ==> i < keys@.len() && keys@[i as int]@ == key@ && forall|j: int|
            i < j < keys@.len() ==> (#[trigger] keys@[j])@ != key@,
        r is None ==> forall|j: int| 0 <= j < keys@.len() ==> (#[trigger] keys@[j])@ != key@,
{
    let mut j: usize = keys.len();
    while j > 0
        invariant
            j <= keys@.len(),
            forall|m: int| j <= m < keys@.len() ==> (#[trigger] keys@[m])@ != key@,
        decreases j,
    {
        if keys[j - 1] == *key {
            return Some(j - 1);
        }
        j -= 1;
    }
    None
}

/// Index of the project that `title` names, if any.
fn find_titled(db: &Db, title: &str) -> (r: Option<usize>)
    ensures
        r matches Some(i) ==> project_titled(db@, title@) == Some(i as int) && i
            < db.projects@.len(),
        r is None ==> project_titled(db@, title@) is None,
{
    let mut keys: Vec<String> = Vec::new();
    let mut j: usize = 0;
    while j < db.projects.len()
        invariant
            j <= db.projects@.len(),
            keys@.len() == j,
            forall|m: int| 0 <= m < j ==> (#[trigger] keys@[m])@ == lower_of(db@[m].title),
        decreases db.projects@.len() - j,
    {
        keys.push(lowercase(db.projects[j].title.as_str()));
        j += 1;
    }
    let key = lowercase(title);
    let r = last_index_of(&keys, &key);
    proof {
        let v = db@;
        lemma_last_titled_below(v, title@, v.len() as int);
        match r {
            Some(i) => {
                assert forall|m: int| i < m < v.len() implies !same_title(#[trigger] v[m].title, title@) by {
                    assert(keys@[m]@ != key@);
                }
                lemma_last_titled_at(v, title@, i as int, v.len() as int);
            },
            None => {
                if project_titled(v, title@) is Some {
                    let k = project_titled(v, title@)->0;
                    assert(keys@[k]@ != key@);
                }
            },
        }
    }
    r
}

/// Whether `date` starts with `stamp`.
fn date_has_stamp(date: &str, stamp: &str) -> (r: bool)
    ensures
        r == date_agrees(date@, stamp@),
{
    let d = chars_of(date);
    let s = chars_of(stamp);
    if d.len() < s.len() {
        return false;
    }
    let mut k: usize = 0;
    while k < s.len()
        invariant
            d@ == date@,
            s@ == stamp@,
            s@.len() <= d@.len(),
            k <= s@.len(),
            forall|m: int| 0 <= m < k ==> d@[m] == s@[m],
        decreases s@.len() - k,
    {
        if d[k] != s[k] {
            assert(d@.subrange(0, s@.len() as int)[k as int] == d@[k as int]);
            assert(d@.subrange(0, s@.len() as int) != s@);
            return false;
        }
        k += 1;
    }
    assert(d@.subrange(0, s@.len() as int) =~= s@);
    true
}

fn make_full_date(stamp: &String, year: &str) -> (r: String)
    ensures
        r@ == full_date(stamp@, year@),
{
    let mut d = stamp.clone();
    d.append(".");
    d.append(year);
    d
}

/// Identifiers left unchanged keep the largest id unchanged.
pub proof fn lemma_max_id_same_ids(a: Seq<ProjectView>, b: Seq<ProjectView>)
    requires
        a.len() == b.len(),
        forall|i: int| 0 <= i < a.len() ==> #[trigger] a[i].id == b[i].id,
    ensures
        max_id(a) == max_id(b),
    decreases a.len(),
{
    if a.len() > 1 {
        let (x, y) = (a.drop_last(), b.drop_last());
        assert forall|i: int| 0 <= i < x.len() implies #[trigger] x[i].id == y[i].id by {
            assert(x[i] == a[i] && y[i] == b[i]);
        }
        lemma_max_id_same_ids(x, y);
    }
}

/// One folder leaves the largest id as it is, or, when it adds a project,
/// raises it by exactly one.
pub proof fn lemma_apply_folder_max_id(ps: Seq<ProjectView>, f: FolderView, year: Seq<char>)
    ensures
        apply_folder(ps, f, year).len() == ps.len() ==> max_id(apply_folder(ps, f, year))
            == max_id(ps),
        apply_folder(ps, f, year).len() != ps.len() ==> max_id(apply_folder(ps, f, year))
            == max_id(ps) + 1,
{
    let r = apply_folder(ps, f, year);
    match folder_name_parts(f.name) {
        None => {},
        Some((stamp, title)) => {
            lemma_last_titled_below(ps, title, ps.len() as int);
            match project_titled(ps, title) {
                Some(i) => {
                    assert forall|k: int| 0 <= k < ps.len() implies #[trigger] ps[k].id == r[k].id by {
                        if k == i {
                        }
                    }
                    lemma_max_id_same_ids(ps, r);
                },
                None => {
                    assert(r.drop_last() =~= ps);
                },
            }
        },
    }
}

/// The largest id only grows as folders are taken into account.
pub proof fn lemma_reconciled_max_id_grows(
    ps: Seq<ProjectView>,
    folders: Seq<FolderView>,
    year: Seq<char>,
    k: int,
)
    requires
        0 <= k <= folders.len(),
    ensures
        max_id(reconciled(ps, folders.subrange(0, k), year)) <= max_id(
            reconciled(ps, folders, year),
        ),
    decreases folders.len(),
{
    if k == folders.len() {
        assert(folders.subrange(0, k) =~= folders);
    } else {
        let q = folders.drop_last();
        assert(q.subrange(0, k) =~= folders.subrange(0, k));
        lemma_reconciled_max_id_grows(ps, q, year, k);
        lemma_apply_folder_max_id(reconciled(ps, q, year), folders.last(), year);
    }
}

/// Two registries with the same ids, titles and dates, in the same order.
pub open spec fn same_heads(a: Seq<ProjectView>, b: Seq<ProjectView>) -> bool {
    &&& a.len() == b.len()
    &&& forall|i: int|
        0 <= i < a.len() ==> (#[trigger] a[i]).id == b[i].id && a[i].title == b[i].title
            && a[i].date == b[i].date
}

/// What a folder does to ids, titles and dates depends on those alone.
proof fn lemma_apply_same_heads(
    a: Seq<ProjectView>,
    b: Seq<ProjectView>,
    f: FolderView,
    year: Seq<char>,
)
    requires
        same_heads(a, b),
    ensures
        same_heads(apply_folder(a, f, year), apply_folder(b, f, year)),
{
    match folder_name_parts(f.name) {
        None => {},
        Some((stamp, title)) => {
            assert forall|m: int| 0 <= m < a.len() implies same_title(#[trigger] a[m].title, title)
                == same_title(b[m].title, title) by {
                assert(a[m].title == b[m].title);
            }
            lemma_last_titled_same(a, b, title, a.len() as int);
            lemma_last_titled_below(a, title, a.len() as int);
            assert forall|m: int| 0 <= m < a.len() implies #[trigger] a[m].id == b[m].id by {
                assert(a[m].id == b[m].id);
            }
            lemma_max_id_same_ids(a, b);
            let (ra, rb) = (apply_folder(a, f, year), apply_folder(b, f, year));
            assert forall|i: int| 0 <= i < ra.len() implies (#[trigger] ra[i]).id == rb[i].id
                && ra[i].title == rb[i].title && ra[i].date == rb[i].date by {
                if i < a.len() {
                    assert(a[i].id == b[i].id && a[i].title == b[i].title && a[i].date == b[i].date);
                }
            }
        },
    }
}

/// Every id of a registry fits an `i64`, and so does the largest.
proof fn lemma_max_id_fits(db: Db)
    ensures
        i64::MIN <= max_id(db@) <= i64::MAX,
{
    let v = db@;
    lemma_max_id_bounds(v);
    if v.len() > 0 {
        let w = choose|i: int| 0 <= i < v.len() && #[trigger] v[i].id == max_id(v);
        assert(v[w].id == db.projects@[w].id as int);
    }
}

/// A registry with the ids, titles and dates of `db` and nothing else.
fn heads_copy(db: &Db) -> (r: Db)
    ensures
        same_heads(r@, db@),
{
    let mut projects: Vec<Project> = Vec::new();
    let mut i: usize = 0;
    while i < db.projects.len()
        invariant
            i <= db.projects@.len(),
            projects@.len() == i,
            forall|k: int|
                0 <= k < i ==> (#[trigger] projects@[k]).id == db.projects@[k].id
                    && projects@[k].title@ == db.projects@[k].title@ && projects@[k].date@
                    == db.projects@[k].date@,
        decreases db.projects@.len() - i,
    {
        let p = &db.projects[i];
        projects.push(
            Project {
                id: p.id,
                title: p.title.clone(),
                date: p.date.clone(),
                categories: Vec::new(),
                folder_path: None,
                extra: Vec::new(),
            },
        );
        i += 1;
    }
    Db { projects, extra: Vec::new() }
}

/// Takes one folder into account (see [`apply_folder`]). Refused, with
/// nothing changed, when the project it would add can get no id.
pub fn apply_folder_to(db: &mut Db, f: &FolderEntry, year: &str) -> (r: Result<(), RegistryError>)
    ensures
        final(db).extra == old(db).extra,
        max_id(apply_folder(old(db)@, f@, year@)) <= i64::MAX ==> r is Ok && final(db)@
            == apply_folder(old(db)@, f@, year@),
        max_id(apply_folder(old(db)@, f@, year@)) > i64::MAX ==> r == Err::<(), RegistryError>(
            RegistryError::IdSpaceExhausted,
        ) && final(db)@ == old(db)@,
{
    proof {
        lemma_apply_folder_max_id(db@, f@, year@);
        lemma_max_id_fits(*db);
    }
    match parse_folder_name(f.name.as_str()) {
        None => Ok(()),
        Some((stamp, title)) => {
            match find_titled(db, title.as_str()) {
                Some(k) => {
                    if !date_has_stamp(db.projects[k].date.as_str(), stamp.as_str()) {
                        let date = make_full_date(&stamp, year);
                        set_title_date_at(db, k, title, date);
                    }
                    Ok(())
                },
                None => {
                    let date = make_full_date(&stamp, year);
                    let path = f.path.clone();
                    match append_project(db, title, date, Some(path)) {
                        Ok(_) => Ok(()),
                        Err(e) => Err(e),
                    }
                },
            }
        },
    }
}

/// Takes each folder into account, in order (see [`reconciled`]). Refused,
/// with nothing changed, when a project it would add can get no id, that
/// is when the largest id of the result would not fit an `i64`. Folders
/// that do not follow the naming convention, and folders that only update a
/// project, never cause a refusal.
pub fn reconcile(db: &mut Db, folders: &Vec<FolderEntry>, year: &str) -> (r: Result<
    (),
    RegistryError,
>)
    ensures
        final(db).extra == old(db).extra,
        max_id(reconciled(old(db)@, folders_view(folders@), year@)) <= i64::MAX ==> r is Ok
            && final(db)@ == reconciled(old(db)@, folders_view(folders@), year@),
        max_id(reconciled(old(db)@, folders_view(folders@), year@)) > i64::MAX ==> r
            == Err::<(), RegistryError>(RegistryError::IdSpaceExhausted) && final(db)@ == old(
            db,
        )@,
{
    let ghost fv = folders_view(folders@);
    let ghost start = db@;
    // A first pass on the ids, titles and dates alone finds whether some
    // new project would run out of ids, before anything is changed.
    let mut heads = heads_copy(db);
    let mut i: usize = 0;
    proof {
        assert(fv.subrange(0, 0) =~= Seq::<FolderView>::empty());
    }
    while i < folders.len()
        invariant
            i <= folders@.len(),
            fv == folders_view(folders@),
            start == db@,
            same_heads(heads@, reconciled(start, fv.subrange(0, i as int), year@)),
        decreases folders@.len() - i,
    {
        proof {
            assert(fv.subrange(0, i + 1).drop_last() =~= fv.subrange(0, i as int));
            assert(fv.subrange(0, i + 1).last() == folders@[i as int]@);
            lemma_apply_same_heads(
                heads@,
                reconciled(start, fv.subrange(0, i as int), year@),
                folders@[i as int]@,
                year@,
            );
        }
        let ghost before = heads@;
        let step = apply_folder_to(&mut heads, &folders[i], year);
        if step.is_err() {
            proof {
                let next = reconciled(start, fv.subrange(0, i + 1), year@);
                let mine = apply_folder(before, folders@[i as int]@, year@);
                assert forall|k: int| 0 <= k < mine.len() implies #[trigger] mine[k].id
                    == next[k].id by {
                    assert(mine[k].id == next[k].id);
                }
                lemma_max_id_same_ids(mine, next);
                lemma_reconciled_max_id_grows(start, fv, year@, i + 1);
            }
            return Err(RegistryError::IdSpaceExhausted);
        }
        i += 1;
    }
    proof {
        assert(fv.subrange(0, i as int) =~= fv);
        let full = reconciled(start, fv, year@);
        assert forall|k: int| 0 <= k < heads@.len() implies #[trigger] heads@[k].id
            == full[k].id by {
            assert(heads@[k].id == full[k].id);
        }
        lemma_max_id_same_ids(heads@, full);
        lemma_max_id_fits(heads);
    }
    let mut i: usize = 0;
    proof {
        assert(fv.subrange(0, 0) =~= Seq::<FolderView>::empty());
    }
    while i < folders.len()
        invariant
            i <= folders@.len(),
            fv == folders_view(folders@),
            db.extra == old(db).extra,
            max_id(reconciled(start, fv, year@)) <= i64::MAX,
            db@ == reconciled(start, fv.subrange(0, i as int), year@),
        decreases folders@.len() - i,
    {
        proof {
            assert(fv.subrange(0, i + 1).drop_last() =~= fv.subrange(0, i as int));
            assert(fv.subrange(0, i + 1).last() == folders@[i as int]@);
            lemma_reconciled_max_id_grows(start, fv, year@, i + 1);
        }
        let step = apply_folder_to(db, &folders[i], year);
        if step.is_err() {
            return step;
        }
        i += 1;
    }
    proof {
        assert(fv.subrange(0, i as int) =~= fv);
    }
    Ok(())
}

/// The title that a folder name carries, when it follows the convention.
pub open spec fn folder_title(f: FolderView) -> Option<Seq<char>> {
    match folder_name_parts(f.name) {
        Some((_, title)) => Some(title),
        None => None,
    }
}

/// No two folders that follow the naming convention carry the same title,
/// letter case aside.
pub open spec fn distinct_folder_titles(folders: Seq<FolderView>) -> bool {
    forall|i: int, j: int|
        0 <= i < j < folders.len() && (#[trigger] folder_title(folders[i])) is Some && (
        #[trigger] folder_title(folders[j])) is Some ==> !same_title(
            folder_title(folders[i])->0,
            folder_title(folders[j])->0,
        )
}

/// The registry already agrees with the folder: taking it into account
/// changes nothing.
pub open spec fn settled(ps: Seq<ProjectView>, f: FolderView) -> bool {
    match folder_name_parts(f.name) {
        None => true,
        Some((stamp, title)) => match project_titled(ps, title) {
            Some(i) => date_agrees(ps[i].date, stamp),
            None => false,
        },
    }
}

proof fn lemma_last_titled_at(ps: Seq<ProjectView>, title: Seq<char>, k: int, j: int)
    requires
        0 <= k < j <= ps.len(),
        same_title(ps[k].title, title),
        forall|m: int| k < m < j ==> !same_title(#[trigger] ps[m].title, title),
    ensures
        last_titled_below(ps, title, j) == Some(k),
    decreases j,
{
    if j - 1 > k {
        assert(!same_title(ps[j - 1].title, title));
        lemma_last_titled_at(ps, title, k, j - 1);
    }
}

proof fn lemma_last_titled_same(a: Seq<ProjectView>, b: Seq<ProjectView>, title: Seq<char>, j: int)
    requires
        0 <= j <= a.len(),
        j <= b.len(),
        forall|m: int|
            0 <= m < j ==> same_title(#[trigger] a[m].title, title) == same_title(
                b[m].title,
                title,
            ),
    ensures
        last_titled_below(a, title, j) == last_titled_below(b, title, j),
    decreases j,
{
    if j > 0 {
        assert(same_title(a[j - 1].title, title) == same_title(b[j - 1].title, title));
        lemma_last_titled_same(a, b, title, j - 1);
    }
}

proof fn lemma_apply_settles(ps: Seq<ProjectView>, f: FolderView, year: Seq<char>)
    ensures
        settled(apply_folder(ps, f, year), f),
{
    let r = apply_folder(ps, f, year);
    match folder_name_parts(f.name) {
        None => {},
        Some((stamp, title)) => {
            let full = full_date(stamp, year);
            assert(full.subrange(0, stamp.len() as int) =~= stamp);
            lemma_last_titled_below(ps, title, ps.len() as int);
            match project_titled(ps, title) {
                Some(i) => {
                    if !date_agrees(ps[i].date, stamp) {
                        assert forall|m: int| i < m < r.len() implies !same_title(
                            #[trigger] r[m].title,
                            title,
                        ) by {
                            assert(r[m] == ps[m]);
                        }
                        lemma_last_titled_at(r, title, i, r.len() as int);
                    }
                },
                None => {
                    lemma_last_titled_at(r, title, ps.len() as int, r.len() as int);
                },
            }
        },
    }
}

proof fn lemma_apply_keeps_settled(
    ps: Seq<ProjectView>,
    f: FolderView,
    g: FolderView,
    year: Seq<char>,
)
    requires
        settled(ps, f),
        folder_title(f) is Some && folder_title(g) is Some ==> !same_title(
            folder_title(f)->0,
            folder_title(g)->0,
        ),
    ensures
        settled(apply_folder(ps, g, year), f),
{
    let r = apply_folder(ps, g, year);
    match folder_name_parts(f.name) {
        None => {},
        Some((stamp, title)) => {
            match folder_name_parts(g.name) {
                None => {},
                Some((gstamp, gtitle)) => {
                    lemma_last_titled_below(ps, gtitle, ps.len() as int);
                    lemma_last_titled_below(ps, title, ps.len() as int);
                    assert forall|m: int| 0 <= m < ps.len() implies same_title(
                        #[trigger] r[m].title,
                        title,
                    ) == same_title(ps[m].title, title) by {
                        if r[m] != ps[m] {
                            assert(same_title(ps[m].title, gtitle));
                        }
                    }
                    lemma_last_titled_same(r, ps, title, ps.len() as int);
                    if r.len() > ps.len() {
                        assert(!same_title(r[ps.len() as int].title, title));
                    }
                    let k = project_titled(ps, title)->0;
                    assert(same_title(ps[k].title, title));
                    assert(r[k] == ps[k] || same_title(ps[k].title, gtitle));
                },
            }
        },
    }
}

proof fn lemma_settled_prefix_fixed(ps: Seq<ProjectView>, folders: Seq<FolderView>, year: Seq<char>)
    requires
        forall|k: int| 0 <= k < folders.len() ==> settled(ps, #[trigger] folders[k]),
    ensures
        reconciled(ps, folders, year) == ps,
    decreases folders.len(),
{
    if folders.len() > 0 {
        let q = folders.drop_last();
        assert forall|k: int| 0 <= k < q.len() implies settled(ps, #[trigger] q[k]) by {
            assert(q[k] == folders[k]);
        }
        lemma_settled_prefix_fixed(ps, q, year);
        assert(settled(ps, folders[folders.len() - 1]));
    }
}

proof fn lemma_reconciled_settles(ps: Seq<ProjectView>, folders: Seq<FolderView>, year: Seq<char>)
    requires
        distinct_folder_titles(folders),
    ensures
        forall|k: int|
            0 <= k < folders.len() ==> settled(reconciled(ps, folders, year), #[trigger] folders[k]),
    decreases folders.len(),
{
    if folders.len() > 0 {
        let q = folders.drop_last();
        let g = folders.last();
        assert forall|i: int, j: int|
            0 <= i < j < q.len() && (#[trigger] folder_title(q[i])) is Some && (
            #[trigger] folder_title(q[j])) is Some implies !same_title(
            folder_title(q[i])->0,
            folder_title(q[j])->0,
        ) by {
            assert(q[i] == folders[i] && q[j] == folders[j]);
        }
        lemma_reconciled_settles(ps, q, year);
        let p = reconciled(ps, q, year);
        lemma_apply_settles(p, g, year);
        assert forall|k: int| 0 <= k < folders.len() implies settled(
            reconciled(ps, folders, year),
            #[trigger] folders[k],
        ) by {
            if k < q.len() {
                assert(q[k] == folders[k]);
                assert(folder_title(folders[k]) is Some && folder_title(
                    folders[folders.len() - 1],
                ) is Some ==> !same_title(
                    folder_title(folders[k])->0,
                    folder_title(folders[folders.len() - 1])->0,
                ));
                lemma_apply_keeps_settled(p, folders[k], g, year);
            }
        }
    }
}

/// Reconciling twice with the same folders, and no change in between, gives
/// the same registry as reconciling once, provided that no two folders that
/// follow the naming convention carry the same title, letter case aside. So
/// when the first run is not refused (its result's largest id fits an
/// `i64`), neither is the second.
pub proof fn lemma_reconcile_idempotent(
    ps: Seq<ProjectView>,
    folders: Seq<FolderView>,
    year: Seq<char>,
)
    requires
        distinct_folder_titles(folders),
    ensures
        reconciled(reconciled(ps, folders, year), folders, year) == reconciled(ps, folders, year),
        max_id(reconciled(reconciled(ps, folders, year), folders, year)) == max_id(
            reconciled(ps, folders, year),
        ),
{
    lemma_reconciled_settles(ps, folders, year);
    lemma_settled_prefix_fixed(reconciled(ps, folders, year), folders, year);
}

/// Reconciliation neither removes nor reorders projects: each project keeps
/// its place, its id, its categories, its folder and its other fields, and
/// new projects come after all of them.
pub proof fn lemma_reconcile_keeps_projects(
    ps: Seq<ProjectView>,
    folders: Seq<FolderView>,
    year: Seq<char>,
)
    ensures
        reconciled(ps, folders, year).len() >= ps.len(),
        forall|i: int|
            0 <= i < ps.len() ==> {
                let q = #[trigger] reconciled(ps, folders, year)[i];
                &&& q.id == ps[i].id
                &&& q.categories == ps[i].categories
                &&& q.folder_path == ps[i].folder_path
                &&& q.extra == ps[i].extra
            },
    decreases folders.len(),
{
    if folders.len() > 0 {
        let q = folders.drop_last();
        lemma_reconcile_keeps_projects(ps, q, year);
        let p = reconciled(ps, q, year);
        let f = folders.last();
        match folder_name_parts(f.name) {
            None => {},
            Some((stamp, title)) => {
                lemma_last_titled_below(p, title, p.len() as int);
            },
        }
        let r = apply_folder(p, f, year);
        assert forall|i: int| 0 <= i < ps.len() implies {
            let x = #[trigger] reconciled(ps, folders, year)[i];
            &&& x.id == ps[i].id
            &&& x.categories == ps[i].categories
            &&& x.folder_path == ps[i].folder_path
            &&& x.extra == ps[i].extra
        } by {
            assert(r[i].id == p[i].id);
        }
    }
}

/// Reconciliation keeps the registry well formed: ids stay unique.
pub proof fn lemma_reconcile_keeps_ids_unique(
    ps: Seq<ProjectView>,
    folders: Seq<FolderView>,
    year: Seq<char>,
)
    requires
        ids_unique(ps),
    ensures
        ids_unique(reconciled(ps, folders, year)),
    decreases folders.len(),
{
    if folders.len() > 0 {
        let q = folders.drop_last();
        lemma_reconcile_keeps_ids_unique(ps, q, year);
        let p = reconciled(ps, q, year);
        let f = folders.last();
        let r = apply_folder(p, f, year);
        match folder_name_parts(f.name) {
            None => {},
            Some((stamp, title)) => {
                lemma_last_titled_below(p, title, p.len() as int);
                match project_titled(p, title) {
                    Some(k) => {
                        assert forall|i: int, j: int| 0 <= i < j < r.len() implies (
                        #[trigger] r[i]).id != (#[trigger] r[j]).id by {
                            assert(r[i].id == p[i].id && r[j].id == p[j].id);
                        }
                    },
                    None => {
                        lemma_push_next_id_keeps_unique(
                            p,
                            new_project(next_id(p), title, full_date(stamp, year), Some(f.path)),
                        );
                    },
                }
            },
        }
    }
}

} // verus!
