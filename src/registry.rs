//! The project registry: projects, their checklist categories, and the
//! edits that the rest of the library makes to them.

use vstd::prelude::*;
use vstd::string::*;
use crate::text::pairs_view;
use crate::checklist::{
    fresh_item, items_view, lemma_items_view_push, new_item, ChecklistItem, ItemView,
};

verus! {

/// A named group of checklist items. The technical category may also record
/// the spreadsheet its items were imported from.
#[derive(Debug)]
pub struct Category {
    pub name: String,
    pub checklist: Vec<ChecklistItem>,
    pub excel_path: Option<String>,
    /// Fields that the library does not interpret, kept as they were read.
    pub extra: Vec<(String, String)>,
}

/// One tendered project.
#[derive(Debug)]
pub struct Project {
    pub id: i64,
    pub title: String,
    /// `MM.DD.YYYY`
    pub date: String,
    pub categories: Vec<Category>,
    /// The folder on disk that the project was matched with.
    pub folder_path: Option<String>,
    /// Fields that the library does not interpret, kept as they were read:
    /// each a name and its value's text.
    pub extra: Vec<(String, String)>,
}

/// The whole registry document.
#[derive(Debug)]
pub struct Db {
    pub projects: Vec<Project>,
    /// Fields of the document that the library does not interpret, kept as
    /// they were read. No operation of the library changes them.
    pub extra: Vec<(String, String)>,
}

pub struct CategoryView {
    pub name: Seq<char>,
    pub checklist: Seq<ItemView>,
    pub excel_path: Option<Seq<char>>,
    pub extra: Seq<(Seq<char>, Seq<char>)>,
}

pub struct ProjectView {
    pub id: int,
    pub title: Seq<char>,
    pub date: Seq<char>,
    pub categories: Seq<CategoryView>,
    pub folder_path: Option<Seq<char>>,
    pub extra: Seq<(Seq<char>, Seq<char>)>,
}

pub open spec fn opt_view(o: Option<String>) -> Option<Seq<char>> {
    match o {
        Some(s) => Some(s@),
        None => None,
    }
}

impl View for Category {
    type V = CategoryView;

    open spec fn view(&self) -> CategoryView {
        CategoryView {
            name: self.name@,
            checklist: items_view(self.checklist@),
            excel_path: opt_view(self.excel_path),
            extra: pairs_view(self.extra@),
        }
    }
}

pub open spec fn categories_view(s: Seq<Category>) -> Seq<CategoryView> {
    s.map_values(|c: Category| c@)
}

impl View for Project {
    type V = ProjectView;

    open spec fn view(&self) -> ProjectView {
        ProjectView {
            id: self.id as int,
            title: self.title@,
            date: self.date@,
            categories: categories_view(self.categories@),
            folder_path: opt_view(self.folder_path),
            extra: pairs_view(self.extra@),
        }
    }
}

pub open spec fn projects_view(s: Seq<Project>) -> Seq<ProjectView> {
    s.map_values(|p: Project| p@)
}

impl View for Db {
    type V = Seq<ProjectView>;

    open spec fn view(&self) -> Seq<ProjectView> {
        projects_view(self.projects@)
    }
}

/// Name of the category that holds imported technical tasks.
pub open spec fn technical_category_name() -> Seq<char> {
    "Tehnic"@
}

pub open spec fn category_of(name: Seq<char>, items: Seq<Seq<char>>) -> CategoryView {
    CategoryView {
        name: name,
        checklist: items.map_values(|n: Seq<char>| fresh_item(n)),
        excel_path: None,
        extra: Seq::empty(),
    }
}

/// The four categories that a new project starts with.
pub open spec fn default_categories() -> Seq<CategoryView> {
    seq![
        category_of(
            "Eligibilitate"@,
            seq![
                "Garantia de participare"@,
                "Acorduri de subcontractare"@,
                "\u{ce}mputerniciri"@,
                "Declara\u{21b}ie privind conflictul de interese"@,
                "Centralizator experienta similara"@,
                "Personal"@,
            ],
        ),
        category_of("Financiar"@, seq!["Propunere financiara"@]),
        category_of(technical_category_name(), seq![]),
        category_of("PTE/PCCVI"@, seq!["PTE/PCCVI"@]),
    ]
}

/// A project as it is first recorded.
pub open spec fn new_project(
    id: int,
    title: Seq<char>,
    date: Seq<char>,
    folder_path: Option<Seq<char>>,
) -> ProjectView {
    ProjectView {
        id: id,
        title: title,
        date: date,
        categories: default_categories(),
        folder_path: folder_path,
        extra: Seq::empty(),
    }
}

/// The largest id in the registry; 0 for an empty one.
pub open spec fn max_id(ps: Seq<ProjectView>) -> int
    decreases ps.len(),
{
    if ps.len() == 0 {
        0
    } else if ps.len() == 1 {
        ps[0].id
    } else if max_id(ps.drop_last()) >= ps.last().id {
        max_id(ps.drop_last())
    } else {
        ps.last().id
    }
}

/// The id that the next new project gets.
pub open spec fn next_id(ps: Seq<ProjectView>) -> int {
    max_id(ps) + 1
}

fn category_with(name: &str, items: Vec<ChecklistItem>) -> (r: Category)
    ensures
        r@ == (CategoryView {
            name: name@,
            checklist: items_view(items@),
            excel_path: None,
            extra: Seq::empty(),
        }),
{
    let r = Category { name: name.to_owned(), checklist: items, excel_path: None, extra: Vec::new() };
    assert(pairs_view(r.extra@) =~= Seq::empty());
    r
}

fn items_named(names: &Vec<&str>) -> (r: Vec<ChecklistItem>)
    ensures
        items_view(r@) == names@.map_values(|n: &str| n@).map_values(|n: Seq<char>| fresh_item(n)),
{
    let mut r: Vec<ChecklistItem> = Vec::new();
    let mut i: usize = 0;
    while i < names.len()
        invariant
            i <= names@.len(),
            items_view(r@) == names@.subrange(0, i as int).map_values(|n: &str| n@).map_values(
                |n: Seq<char>| fresh_item(n),
            ),
        decreases names@.len() - i,
    {
        let item = new_item(names[i]);
        proof {
            lemma_items_view_push(r@, item);
        }
        r.push(item);
        i += 1;
        assert(items_view(r@) =~= names@.subrange(0, i as int).map_values(|n: &str| n@).map_values(
            |n: Seq<char>| fresh_item(n),
        ));
    }
    assert(names@.subrange(0, i as int) =~= names@);
    r
}

/// The four categories that a new project starts with.
pub fn new_default_categories() -> (r: Vec<Category>)
    ensures
        categories_view(r@) == default_categories(),
{
    let names = vec![
        "Garantia de participare",
        "Acorduri de subcontractare",
        "\u{ce}mputerniciri",
        "Declara\u{21b}ie privind conflictul de interese",
        "Centralizator experienta similara",
        "Personal",
    ];
    let eligibility = category_with("Eligibilitate", items_named(&names));
    let financial_names = vec!["Propunere financiara"];
    let financial = category_with("Financiar", items_named(&financial_names));
    let technical = category_with("Tehnic", Vec::new());
    let pte_names = vec!["PTE/PCCVI"];
    let pte = category_with("PTE/PCCVI", items_named(&pte_names));
    proof {
        let d = default_categories();
        assert(names@.map_values(|n: &str| n@) =~= seq![
            "Garantia de participare"@,
            "Acorduri de subcontractare"@,
            "\u{ce}mputerniciri"@,
            "Declara\u{21b}ie privind conflictul de interese"@,
            "Centralizator experienta similara"@,
            "Personal"@,
        ]);
        assert(eligibility@ == d[0]);
        assert(financial_names@.map_values(|n: &str| n@) =~= seq!["Propunere financiara"@]);
        assert(financial@ == d[1]);
        assert(items_view(Seq::<ChecklistItem>::empty()) =~= Seq::empty());
        assert(technical@.checklist =~= d[2].checklist);
        assert(technical@ == d[2]);
        assert(pte_names@.map_values(|n: &str| n@) =~= seq!["PTE/PCCVI"@]);
        assert(pte@ == d[3]);
    }
    let r = vec![eligibility, financial, technical, pte];
    proof {
        assert(categories_view(r@) =~= default_categories());
    }
    r
}

/// Why an edit of the registry was refused.
#[derive(Clone, Copy, Debug, PartialEq, Eq, Structural)]
pub enum RegistryError {
    /// No project has the given id.
    NotFound,
    /// The largest id is already the largest `i64`: no new id is left.
    IdSpaceExhausted,
}

pub proof fn lemma_projects_view_push(s: Seq<Project>, p: Project)
    ensures
        projects_view(s.push(p)) == projects_view(s).push(p@),
{
    assert(projects_view(s.push(p)) =~= projects_view(s).push(p@));
}

/// Every id in the registry is at most [`max_id`].
pub proof fn lemma_max_id_bounds(ps: Seq<ProjectView>)
    ensures
        forall|i: int| 0 <= i < ps.len() ==> #[trigger] ps[i].id <= max_id(ps),
        ps.len() > 0 ==> exists|i: int| 0 <= i < ps.len() && #[trigger] ps[i].id == max_id(ps),
    decreases ps.len(),
{
    if ps.len() > 1 {
        let q = ps.drop_last();
        lemma_max_id_bounds(q);
        assert forall|i: int| 0 <= i < ps.len() implies #[trigger] ps[i].id <= max_id(ps) by {
            if i < q.len() {
                assert(ps[i] == q[i]);
            }
        }
        if max_id(q) >= ps.last().id {
            let w = choose|i: int| 0 <= i < q.len() && #[trigger] q[i].id == max_id(q);
            assert(ps[w] == q[w]);
        } else {
            assert(ps[ps.len() - 1].id == max_id(ps));
        }
    } else if ps.len() == 1 {
        assert(ps[0].id == max_id(ps));
    }
}

/// The id that a new project gets is larger than every id in the registry,
/// so ids stay unique as projects are added.
pub proof fn lemma_next_id_is_fresh(ps: Seq<ProjectView>)
    ensures
        forall|i: int| 0 <= i < ps.len() ==> #[trigger] ps[i].id < next_id(ps),
{
    lemma_max_id_bounds(ps);
}

/// No two projects share an id: the registry's well-formedness.
pub open spec fn ids_unique(ps: Seq<ProjectView>) -> bool {
    forall|i: int, j: int| 0 <= i < j < ps.len() ==> (#[trigger] ps[i]).id != (#[trigger] ps[j]).id
}

/// Appending a project with the next id keeps ids unique.
pub proof fn lemma_push_next_id_keeps_unique(ps: Seq<ProjectView>, p: ProjectView)
    requires
        ids_unique(ps),
        p.id == next_id(ps),
    ensures
        ids_unique(ps.push(p)),
{
    lemma_next_id_is_fresh(ps);
    let r = ps.push(p);
    assert forall|i: int, j: int| 0 <= i < j < r.len() implies (#[trigger] r[i]).id != (
    #[trigger] r[j]).id by {
        if j == ps.len() {
            assert(r[i] == ps[i]);
        } else {
            assert(r[i] == ps[i] && r[j] == ps[j]);
        }
    }
}

/// The largest id in the registry; 0 for an empty one.
pub fn max_project_id(db: &Db) -> (r: i64)
    ensures
        r as int == max_id(db@),
{
    let ghost v = db@;
    let mut m: i64 = 0;
    let mut i: usize = 0;
    while i < db.projects.len()
        invariant
            v == db@,
            v.len() == db.projects@.len(),
            i <= v.len(),
            m as int == max_id(v.subrange(0, i as int)),
        decreases v.len() - i,
    {
        let id = db.projects[i].id;
        proof {
            assert(v.subrange(0, i + 1).drop_last() =~= v.subrange(0, i as int));
            assert(v[i as int].id == id);
        }
        if i == 0 || m < id {
            m = id;
        }
        i += 1;
    }
    assert(v.subrange(0, i as int) =~= v);
    m
}

/// Appends a project with the default categories and the next id.
pub(crate) fn append_project(
    db: &mut Db,
    title: String,
    date: String,
    folder_path: Option<String>,
) -> (r: Result<i64, RegistryError>)
    ensures
        final(db).extra == old(db).extra,
        max_id(old(db)@) < i64::MAX ==> r == Ok::<i64, RegistryError>(next_id(old(db)@) as i64)
            && final(db)@ == old(db)@.push(
            new_project(next_id(old(db)@), title@, date@, opt_view(folder_path)),
        ),
        max_id(old(db)@) == i64::MAX ==> r == Err::<i64, RegistryError>(
            RegistryError::IdSpaceExhausted,
        ) && final(db)@ == old(db)@,
{
    let m = max_project_id(db);
    if m == i64::MAX {
        return Err(RegistryError::IdSpaceExhausted);
    }
    let id = m + 1;
    let p = Project {
        id: id,
        title: title,
        date: date,
        categories: new_default_categories(),
        folder_path: folder_path,
        extra: Vec::new(),
    };
    proof {
        lemma_projects_view_push(db.projects@, p);
        assert(pairs_view(p.extra@) =~= Seq::empty());
    }
    db.projects.push(p);
    Ok(id)
}

/// Adds a project with the given title and date, the default categories and
/// the id after the largest one in the registry. Returns the new id.
pub fn add_project(db: &mut Db, title: String, date: String) -> (r: Result<i64, RegistryError>)
    ensures
        final(db).extra == old(db).extra,
        max_id(old(db)@) < i64::MAX ==> r == Ok::<i64, RegistryError>(next_id(old(db)@) as i64)
            && final(db)@ == old(db)@.push(new_project(next_id(old(db)@), title@, date@, None)),
        max_id(old(db)@) == i64::MAX ==> r == Err::<i64, RegistryError>(
            RegistryError::IdSpaceExhausted,
        ) && final(db)@ == old(db)@,
{
    append_project(db, title, date, None)
}

/// Index of the first project at or after `i` with the given id.
pub open spec fn index_of_id_from(ps: Seq<ProjectView>, id: int, i: int) -> Option<int>
    decreases ps.len() - i,
{
    if i < 0 || i >= ps.len() {
        None
    } else if ps[i].id == id {
        Some(i)
    } else {
        index_of_id_from(ps, id, i + 1)
    }
}

/// Index of the first project with the given id.
pub open spec fn index_of_id(ps: Seq<ProjectView>, id: int) -> Option<int> {
    index_of_id_from(ps, id, 0)
}

fn find_project(db: &Db, id: i64) -> (r: Option<usize>)
    ensures
        r matches Some(i) ==> index_of_id(db@, id as int) == Some(i as int) && i < db.projects@.len(),
        r is None ==> index_of_id(db@, id as int) is None,
{
    let mut i: usize = 0;
    while i < db.projects.len() && db.projects[i].id != id
        invariant
            i <= db.projects@.len(),
            index_of_id_from(db@, id as int, i as int) == index_of_id(db@, id as int),
        decreases db.projects@.len() - i,
    {
        i += 1;
    }
    if i < db.projects.len() {
        Some(i)
    } else {
        None
    }
}

/// Sets the title and date of the project at index `i`.
pub(crate) fn set_title_date_at(db: &mut Db, i: usize, title: String, date: String)
    requires
        i < old(db).projects@.len(),
    ensures
        final(db).extra == old(db).extra,
        final(db)@ == old(db)@.update(
            i as int,
            ProjectView { title: title@, date: date@, ..old(db)@[i as int] },
        ),
{
    db.projects[i].title = title;
    db.projects[i].date = date;
    proof {
        assert(final(db)@ =~= old(db)@.update(
            i as int,
            ProjectView { title: title@, date: date@, ..old(db)@[i as int] },
        ));
    }
}

/// Gives the first project with the given id a new title and date.
pub fn edit_project(db: &mut Db, id: i64, new_title: String, new_date: String) -> (r: Result<
    (),
    RegistryError,
>)
    ensures
        final(db).extra == old(db).extra,
        index_of_id(old(db)@, id as int) matches Some(i) ==> r is Ok && final(db)@ == old(db)@.update(
            i,
            ProjectView { title: new_title@, date: new_date@, ..old(db)@[i] },
        ),
        index_of_id(old(db)@, id as int) is None ==> r == Err::<(), RegistryError>(
            RegistryError::NotFound,
        ) && final(db)@ == old(db)@,
{
    match find_project(db, id) {
        Some(i) => {
            set_title_date_at(db, i, new_title, new_date);
            Ok(())
        },
        None => Err(RegistryError::NotFound),
    }
}

/// Records (or, with `None`, forgets) the folder of the first project with
/// the given id. Returns whether such a project exists.
pub fn set_project_folder(db: &mut Db, id: i64, folder: Option<String>) -> (found: bool)
    ensures
        final(db).extra == old(db).extra,
        index_of_id(old(db)@, id as int) matches Some(i) ==> found && final(db)@ == old(db)@.update(
            i,
            ProjectView { folder_path: opt_view(folder), ..old(db)@[i] },
        ),
        index_of_id(old(db)@, id as int) is None ==> !found && final(db)@ == old(db)@,
{
    match find_project(db, id) {
        Some(i) => {
            db.projects[i].folder_path = folder;
            proof {
                assert(final(db)@ =~= old(db)@.update(
                    i as int,
                    ProjectView { folder_path: opt_view(folder), ..old(db)@[i as int] },
                ));
            }
            true
        },
        None => false,
    }
}

/// Index of the first category with the given name.
pub open spec fn index_of_category(cs: Seq<CategoryView>, name: Seq<char>) -> Option<int> {
    if exists|j: int| 0 <= j < cs.len() && (#[trigger] cs[j]).name == name {
        Some(
            choose|j: int|
                0 <= j < cs.len() && (#[trigger] cs[j]).name == name && forall|m: int|
                    0 <= m < j ==> (#[trigger] cs[m]).name != name,
        )
    } else {
        None
    }
}

fn find_category(cs: &Vec<Category>, name: &String) -> (r: Option<usize>)
    ensures
        r matches Some(j) ==> j < cs@.len() && index_of_category(categories_view(cs@), name@)
            == Some(j as int),
        r is None ==> index_of_category(categories_view(cs@), name@) is None,
{
    let ghost v = categories_view(cs@);
    let mut j: usize = 0;
    while j < cs.len()
        invariant
            v == categories_view(cs@),
            j <= cs@.len(),
            forall|m: int| 0 <= m < j ==> (#[trigger] v[m]).name != name@,
        decreases cs@.len() - j,
    {
        if cs[j].name == *name {
            proof {
                assert(v[j as int].name == name@);
                let k = choose|k: int|
                    0 <= k < v.len() && (#[trigger] v[k]).name == name@ && forall|m: int|
                        0 <= m < k ==> (#[trigger] v[m]).name != name@;
                assert(k == j) by {
                    if k < j {
                        assert(v[k].name != name@);
                    }
                    if k > j {
                        assert(v[j as int].name != name@);
                    }
                }
            }
            return Some(j);
        }
        assert(v[j as int].name != name@);
        j += 1;
    }
    None
}

/// Records (or, with `None`, forgets) the spreadsheet that the technical
/// category of the first project with the given id was imported from.
/// Returns whether that project and its technical category exist; when not,
/// nothing changes.
pub fn set_excel_path(db: &mut Db, id: i64, path: Option<String>) -> (found: bool)
    ensures
        final(db).extra == old(db).extra,
        found == (index_of_id(old(db)@, id as int) matches Some(i) && index_of_category(
            old(db)@[i].categories,
            technical_category_name(),
        ) is Some),
        found ==> ({
            let i = index_of_id(old(db)@, id as int)->0;
            let p = old(db)@[i];
            let j = index_of_category(p.categories, technical_category_name())->0;
            final(db)@ == old(db)@.update(
                i,
                ProjectView {
                    categories: p.categories.update(
                        j,
                        CategoryView { excel_path: opt_view(path), ..p.categories[j] },
                    ),
                    ..p
                },
            )
        }),
        !found ==> final(db)@ == old(db)@,
{
    let tech = "Tehnic".to_owned();
    proof {
        assert(tech@ == technical_category_name());
    }
    match find_project(db, id) {
        Some(i) => match find_category(&db.projects[i].categories, &tech) {
            Some(j) => {
                let ghost p = old(db)@[i as int];
                db.projects[i].categories[j].excel_path = path;
                proof {
                    let cats = final(db).projects@[i as int].categories@;
                    assert(cats == old(db).projects@[i as int].categories@.update(
                        j as int,
                        cats[j as int],
                    ));
                    assert(categories_view(cats) =~= p.categories.update(
                        j as int,
                        CategoryView { excel_path: opt_view(path), ..p.categories[j as int] },
                    ));
                    assert(final(db)@ =~= old(db)@.update(
                        i as int,
                        ProjectView {
                            categories: p.categories.update(
                                j as int,
                                CategoryView { excel_path: opt_view(path), ..p.categories[j as int] },
                            ),
                            ..p
                        },
                    ));
                }
                true
            },
            None => false,
        },
        None => false,
    }
}

/// Removes every project with the given id.
pub fn delete_project(db: &mut Db, id: i64)
    ensures
        final(db).extra == old(db).extra,
        final(db)@ == old(db)@.filter(|p: ProjectView| p.id != id as int),
{
    let ghost keep = |p: ProjectView| p.id != id as int;
    let ghost start = db@;
    let mut i: usize = 0;
    let ghost mut j: int = 0;
    proof {
        reveal(Seq::filter);
        assert(start.subrange(0, 0).filter(keep) =~= Seq::<ProjectView>::empty());
        assert(db@.subrange(0, 0) =~= Seq::<ProjectView>::empty());
        assert(db@.subrange(0, db@.len() as int) =~= start.subrange(0, start.len() as int));
    }
    while i < db.projects.len()
        invariant
            db.extra == old(db).extra,
            keep == (|p: ProjectView| p.id != id as int),
            0 <= i <= db@.len(),
            0 <= j <= start.len(),
            db@.len() == db.projects@.len(),
            db@.len() - i == start.len() - j,
            db@.subrange(0, i as int) == start.subrange(0, j).filter(keep),
            db@.subrange(i as int, db@.len() as int) == start.subrange(j, start.len() as int),
        decreases db@.len() - i,
    {
        proof {
            reveal(Seq::filter);
            assert(db@[i as int] == db@.subrange(i as int, db@.len() as int)[0]);
            assert(start.subrange(0, j + 1).drop_last() =~= start.subrange(0, j));
            assert(start.subrange(0, j + 1).last() == start[j]);
            assert(start[j] == start.subrange(j, start.len() as int)[0]);
        }
        let ghost before = db@;
        proof {
            let tb = before.subrange(i as int, before.len() as int);
            let ts = start.subrange(j, start.len() as int);
            assert(tb.subrange(1, tb.len() as int) =~= before.subrange(i + 1, before.len() as int));
            assert(ts.subrange(1, ts.len() as int) =~= start.subrange(j + 1, start.len() as int));
        }
        if db.projects[i].id == id {
            let _ = db.projects.remove(i);
            proof {
                let rest = before.subrange(i + 1, before.len() as int);
                assert(db@ =~= before.subrange(0, i as int) + rest);
                assert(db@.subrange(0, i as int) =~= before.subrange(0, i as int));
                assert(db@.subrange(i as int, db@.len() as int) =~= rest);
                j = j + 1;
            }
        } else {
            proof {
                let x = before[i as int];
                assert(before.subrange(0, i + 1) =~= before.subrange(0, i as int).push(x));
                assert(x == before.subrange(i as int, before.len() as int)[0]);
                assert(x == start[j]);
                assert(x.id == db.projects@[i as int].id as int);
                assert(keep(start[j]));
                assert(start.subrange(0, j + 1).filter(keep) == start.subrange(0, j).filter(keep).push(
                    x,
                ));
                assert(db@.subrange(i + 1, db@.len() as int) =~= before.subrange(
                    i + 1,
                    before.len() as int,
                ));
                j = j + 1;
            }
            i += 1;
        }
    }
    proof {
        assert(db@.subrange(0, i as int) =~= db@);
        assert(start.subrange(0, j) =~= start);
    }
}

} // verus!
