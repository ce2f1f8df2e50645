//! Checklist items, the row classifier and the tree builder.

use vstd::prelude::*;
use vstd::string::*;
use crate::text::{
    chars_of, is_ascii_digit, is_ascii_digit_char, is_ascii_letter, is_white_space,
    is_white_space_char, pairs_view, strings_view, trim, trim_start, trim_start_str, trim_str,
};

verus! {

/// One entry of a checklist; its sub-items form an ordered list of their own.
/// A node's status is its own: it does not follow from its sub-items.
#[derive(Debug)]
pub struct ChecklistItem {
    pub name: String,
    /// `incomplete` or `complete`; any other text is kept as it was read.
    pub status: String,
    pub proposed: bool,
    pub verified: bool,
    pub sub_tasks: Vec<ChecklistItem>,
    /// Fields that the library does not interpret, kept as they were read:
    /// each a name and its value's text.
    pub extra: Vec<(String, String)>,
}

/// Mathematical value of a [`ChecklistItem`].
pub struct ItemView {
    pub name: Seq<char>,
    pub status: Seq<char>,
    pub proposed: bool,
    pub verified: bool,
    pub sub_tasks: Seq<ItemView>,
    pub extra: Seq<(Seq<char>, Seq<char>)>,
}

pub open spec fn item_view(x: ChecklistItem) -> ItemView
    decreases x,
{
    ItemView {
        name: x.name@,
        status: x.status@,
        proposed: x.proposed,
        verified: x.verified,
        sub_tasks: items_view(x.sub_tasks@),
        extra: pairs_view(x.extra@),
    }
}

pub open spec fn items_view(s: Seq<ChecklistItem>) -> Seq<ItemView>
    decreases s,
{
    if s.len() == 0 {
        Seq::empty()
    } else {
        items_view(s.drop_last()).push(item_view(s.last()))
    }
}

impl View for ChecklistItem {
    type V = ItemView;

    open spec fn view(&self) -> ItemView {
        item_view(*self)
    }
}

/// A new item: not done, neither proposed nor verified, no sub-items.
pub open spec fn fresh_item(name: Seq<char>) -> ItemView {
    ItemView {
        name: name,
        status: "incomplete"@,
        proposed: false,
        verified: false,
        sub_tasks: Seq::empty(),
        extra: Seq::empty(),
    }
}

pub proof fn lemma_items_view_push(s: Seq<ChecklistItem>, x: ChecklistItem)
    ensures
        items_view(s.push(x)) == items_view(s).push(item_view(x)),
{
    assert(s.push(x).drop_last() =~= s);
}

pub proof fn lemma_items_view_len(s: Seq<ChecklistItem>)
    ensures
        items_view(s).len() == s.len(),
    decreases s.len(),
{
    if s.len() > 0 {
        lemma_items_view_len(s.drop_last());
    }
}

/// A new item with the given name.
pub fn new_item(name: &str) -> (r: ChecklistItem)
    ensures
        r@ == fresh_item(name@),
{
    let r = ChecklistItem {
        name: name.to_owned(),
        status: "incomplete".to_owned(),
        proposed: false,
        verified: false,
        sub_tasks: Vec::new(),
        extra: Vec::new(),
    };
    proof {
        assert(items_view(r.sub_tasks@) =~= Seq::empty());
        assert(pairs_view(r.extra@) =~= Seq::empty());
    }
    r
}

/// Lower-case roman numerals from one to ten.
pub open spec fn is_roman_numeral(w: Seq<char>) -> bool {
    w =~= seq!['i'] || w =~= seq!['i', 'i'] || w =~= seq!['i', 'i', 'i'] || w =~= seq!['i', 'v']
        || w =~= seq!['v'] || w =~= seq!['v', 'i'] || w =~= seq!['v', 'i', 'i'] || w =~= seq![
        'v',
        'i',
        'i',
        'i',
    ] || w =~= seq!['i', 'x'] || w =~= seq!['x']
}

/// Characters that belong to a word: ASCII letters and digits, `_`, and any
/// character beyond ASCII that is not white space.
pub open spec fn is_word_char(c: char) -> bool {
    is_ascii_letter(c) || is_ascii_digit(c) || c == '_' || (c as u32 > 0x7f && !is_white_space(c))
}

/// A word ends after the first `n` characters of `t`.
pub open spec fn word_ends_at(t: Seq<char>, n: int) -> bool {
    n == t.len() || !is_word_char(t[n])
}

pub open spec fn starts_with_bullet(t: Seq<char>) -> bool {
    t.len() > 0 && (t[0] == '>' || t[0] == '<' || t[0] == '-' || t[0] == '*')
}

/// `t` opens with a whole word that is a roman numeral.
pub open spec fn starts_with_roman(t: Seq<char>) -> bool {
    exists|n: int| 1 <= n <= 4 && n <= t.len() && is_roman_numeral(t.subrange(0, n)) && word_ends_at(t, n)
}

/// Index of the first character at or after `i` that is not an ASCII digit.
pub open spec fn skip_digits(s: Seq<char>, i: int) -> int
    decreases s.len() - i,
{
    if 0 <= i < s.len() && is_ascii_digit(s[i]) {
        skip_digits(s, i + 1)
    } else {
        i
    }
}

/// `t` opens with a section number such as `1.1`: digits, a dot, a digit.
pub open spec fn starts_with_section_number(t: Seq<char>) -> bool {
    let k = skip_digits(t, 0);
    k >= 1 && k + 1 < t.len() && t[k] == '.' && is_ascii_digit(t[k + 1])
}

/// `t` opens with a lettered point such as `a.` or `b)`.
pub open spec fn starts_with_lettered_point(t: Seq<char>) -> bool {
    t.len() >= 2 && is_ascii_letter(t[0]) && (t[1] == '.' || t[1] == ')')
}

/// A row is a subtask when it is indented by two spaces, or when, without
/// its leading white space, it opens with a bullet, a roman numeral, a
/// section number or a lettered point.
pub open spec fn is_subtask(raw: Seq<char>) -> bool {
    (raw.len() >= 2 && raw[0] == ' ' && raw[1] == ' ') || {
        let t = trim_start(raw);
        starts_with_bullet(t) || starts_with_roman(t) || starts_with_section_number(t)
            || starts_with_lettered_point(t)
    }
}

fn is_ascii_letter_char(c: char) -> (r: bool)
    ensures
        r == is_ascii_letter(c),
{
    ('a' <= c && c <= 'z') || ('A' <= c && c <= 'Z')
}

fn is_word_char_exec(c: char) -> (r: bool)
    ensures
        r == is_word_char(c),
{
    is_ascii_letter_char(c) || is_ascii_digit_char(c) || c == '_' || (c as u32 > 0x7f
        && !is_white_space_char(c))
}

/// Whether the first `n` characters of `t` are a roman numeral.
fn roman_numeral_prefix(t: &Vec<char>, n: usize) -> (r: bool)
    requires
        1 <= n <= 4,
        n <= t@.len(),
    ensures
        r == is_roman_numeral(t@.subrange(0, n as int)),
{
    let ghost w = t@.subrange(0, n as int);
    let a = t[0];
    if n == 1 {
        assert(w[0] == a);
        a == 'i' || a == 'v' || a == 'x'
    } else if n == 2 {
        let b = t[1];
        assert(w[0] == a && w[1] == b);
        (a == 'i' && (b == 'i' || b == 'v' || b == 'x')) || (a == 'v' && b == 'i')
    } else if n == 3 {
        let b = t[1];
        let c = t[2];
        assert(w[0] == a && w[1] == b && w[2] == c);
        (a == 'i' || a == 'v') && b == 'i' && c == 'i'
    } else {
        let b = t[1];
        let c = t[2];
        let d = t[3];
        assert(w[0] == a && w[1] == b && w[2] == c && w[3] == d);
        a == 'v' && b == 'i' && c == 'i' && d == 'i'
    }
}

fn roman_prefix(t: &Vec<char>) -> (r: bool)
    ensures
        r == starts_with_roman(t@),
{
    let mut n: usize = 1;
    while n <= 4
        invariant
            1 <= n <= 5,
            forall|m: int|
                1 <= m < n && m <= t@.len() ==> !(is_roman_numeral(#[trigger] t@.subrange(0, m))
                    && word_ends_at(t@, m)),
        decreases 5 - n,
    {
        if n <= t.len() && roman_numeral_prefix(t, n) && (n == t.len() || !is_word_char_exec(t[n])) {
            assert(is_roman_numeral(t@.subrange(0, n as int)) && word_ends_at(t@, n as int));
            return true;
        }
        n += 1;
    }
    false
}

fn section_number_prefix(t: &Vec<char>) -> (r: bool)
    ensures
        r == starts_with_section_number(t@),
{
    let mut k: usize = 0;
    while k < t.len() && is_ascii_digit_char(t[k])
        invariant
            k <= t@.len(),
            skip_digits(t@, k as int) == skip_digits(t@, 0),
        decreases t@.len() - k,
    {
        k += 1;
    }
    k >= 1 && k < t.len() && t.len() - k > 1 && t[k] == '.' && is_ascii_digit_char(t[k + 1])
}

/// Whether a row of the checklist source is a subtask of the last top-level
/// row rather than a top-level row itself.
pub fn is_subtask_name(raw: &str) -> (r: bool)
    ensures
        r == is_subtask(raw@),
{
    let cr = chars_of(raw);
    if cr.len() >= 2 && cr[0] == ' ' && cr[1] == ' ' {
        return true;
    }
    let t = chars_of(trim_start_str(raw));
    let bullet = t.len() > 0 && (t[0] == '>' || t[0] == '<' || t[0] == '-' || t[0] == '*');
    let lettered = t.len() >= 2 && is_ascii_letter_char(t[0]) && (t[1] == '.' || t[1] == ')');
    bullet || roman_prefix(&t) || section_number_prefix(&t) || lettered
}

/// The forest after one more row. Empty rows are skipped; a row's name is
/// its trimmed text. A subtask row goes under the most recent top-level
/// item, which is always the last item of the forest; a subtask row that
/// comes before any top-level item becomes a top-level item itself. Subtask
/// rows never take sub-items, so the forest is at most two levels deep.
pub open spec fn push_row(forest: Seq<ItemView>, row: Seq<char>) -> Seq<ItemView> {
    let name = trim(row);
    if name.len() == 0 {
        forest
    } else if is_subtask(row) && forest.len() > 0 {
        let p = forest.last();
        forest.update(
            forest.len() - 1,
            ItemView { sub_tasks: p.sub_tasks.push(fresh_item(name)), ..p },
        )
    } else {
        forest.push(fresh_item(name))
    }
}

/// The checklist forest that a sequence of rows describes, read in order.
pub open spec fn checklist_forest(rows: Seq<Seq<char>>) -> Seq<ItemView>
    decreases rows.len(),
{
    if rows.len() == 0 {
        Seq::empty()
    } else {
        push_row(checklist_forest(rows.drop_last()), rows.last())
    }
}

/// A forest as the builder makes it: every item is new (not done, neither
/// proposed nor verified) with a non-empty name, and sub-items have no
/// sub-items of their own.
pub open spec fn is_fresh_two_level(forest: Seq<ItemView>) -> bool {
    forall|i: int|
        0 <= i < forest.len() ==> {
            let top = #[trigger] forest[i];
            &&& top.name.len() > 0
            &&& top.status == "incomplete"@ && !top.proposed && !top.verified
            &&& forall|j: int|
                0 <= j < top.sub_tasks.len() ==> {
                    let sub = #[trigger] top.sub_tasks[j];
                    &&& sub.name.len() > 0
                    &&& sub.status == "incomplete"@ && !sub.proposed && !sub.verified
                    &&& sub.sub_tasks.len() == 0
                }
        }
}

/// Whatever the rows, the forest is at most two levels deep and made of new
/// items with non-empty names.
pub proof fn lemma_checklist_forest_shape(rows: Seq<Seq<char>>)
    ensures
        is_fresh_two_level(checklist_forest(rows)),
    decreases rows.len(),
{
    if rows.len() > 0 {
        let f = checklist_forest(rows.drop_last());
        lemma_checklist_forest_shape(rows.drop_last());
        let r = checklist_forest(rows);
        let name = trim(rows.last());
        assert forall|i: int| 0 <= i < r.len() implies {
            let top = #[trigger] r[i];
            &&& top.name.len() > 0
            &&& top.status == "incomplete"@ && !top.proposed && !top.verified
            &&& forall|j: int|
                0 <= j < top.sub_tasks.len() ==> {
                    let sub = #[trigger] top.sub_tasks[j];
                    &&& sub.name.len() > 0
                    &&& sub.status == "incomplete"@ && !sub.proposed && !sub.verified
                    &&& sub.sub_tasks.len() == 0
                }
        } by {
            if i < f.len() {
                let old_top = f[i];
                assert forall|j: int| 0 <= j < r[i].sub_tasks.len() implies {
                    let sub = #[trigger] r[i].sub_tasks[j];
                    &&& sub.name.len() > 0
                    &&& sub.status == "incomplete"@ && !sub.proposed && !sub.verified
                    &&& sub.sub_tasks.len() == 0
                } by {
                    if j < old_top.sub_tasks.len() {
                        assert(r[i].sub_tasks[j] == old_top.sub_tasks[j]);
                    }
                }
            }
        }
    }
}

/// Builds the checklist forest of a sequence of rows.
pub fn build_checklist_tree(rows: &Vec<String>) -> (r: Vec<ChecklistItem>)
    ensures
        items_view(r@) == checklist_forest(strings_view(rows@)),
{
    let ghost rv = strings_view(rows@);
    let mut forest: Vec<ChecklistItem> = Vec::new();
    let mut i: usize = 0;
    proof {
        assert(rv.subrange(0, 0) =~= Seq::<Seq<char>>::empty());
        assert(items_view(forest@) =~= Seq::<ItemView>::empty());
    }
    while i < rows.len()
        invariant
            i <= rows@.len(),
            rv == strings_view(rows@),
            items_view(forest@) == checklist_forest(rv.subrange(0, i as int)),
        decreases rows@.len() - i,
    {
        let row = rows[i].as_str();
        let ghost before = forest@;
        proof {
            assert(rv.subrange(0, i + 1).drop_last() =~= rv.subrange(0, i as int));
            assert(rv.subrange(0, i + 1).last() == row@);
            lemma_items_view_len(forest@);
        }
        let name = trim_str(row);
        if !name.is_empty() {
            if is_subtask_name(row) && forest.len() > 0 {
                match forest.pop() {
                    Some(mut p) => {
                        let ghost old_p = p;
                        p.sub_tasks.push(new_item(name));
                        proof {
                            lemma_items_view_push(old_p.sub_tasks@, p.sub_tasks@.last());
                            assert(p.sub_tasks@ =~= old_p.sub_tasks@.push(p.sub_tasks@.last()));
                        }
                        forest.push(p);
                        proof {
                            lemma_items_view_push(before.drop_last(), p);
                            assert(forest@ =~= before.drop_last().push(p));
                            assert(items_view(forest@) =~= items_view(before).update(
                                items_view(before).len() - 1,
                                ItemView {
                                    sub_tasks: item_view(old_p).sub_tasks.push(fresh_item(name@)),
                                    ..item_view(old_p)
                                },
                            ));
                        }
                    },
                    None => {},
                }
            } else {
                let item = new_item(name);
                forest.push(item);
                proof {
                    lemma_items_view_push(before, item);
                }
            }
        }
        i += 1;
    }
    proof {
        assert(rv.subrange(0, rows@.len() as int) =~= rv);
    }
    forest
}

/// Rows at the top of a checklist sheet that hold headings, not items.
pub const HEADER_ROWS: usize = 5;

/// Builds the checklist forest of a sheet from the cell texts of its item
/// column, one per row from the top (an empty text where a cell holds no
/// text); the heading rows are passed over.
pub fn checklist_from_sheet(cells: &Vec<String>) -> (r: Vec<ChecklistItem>)
    ensures
        cells@.len() <= HEADER_ROWS ==> r@.len() == 0,
        cells@.len() > HEADER_ROWS ==> items_view(r@) == checklist_forest(
            strings_view(cells@).subrange(HEADER_ROWS as int, cells@.len() as int),
        ),
{
    let mut rows: Vec<String> = Vec::new();
    let mut i: usize = HEADER_ROWS;
    while i < cells.len()
        invariant
            HEADER_ROWS <= i,
            cells@.len() > HEADER_ROWS ==> i <= cells@.len(),
            cells@.len() > HEADER_ROWS ==> strings_view(rows@) == strings_view(cells@).subrange(
                HEADER_ROWS as int,
                i as int,
            ),
            cells@.len() <= HEADER_ROWS ==> rows@.len() == 0,
        decreases cells@.len() - i,
    {
        let row = cells[i].clone();
        rows.push(row);
        i += 1;
        assert(strings_view(rows@) =~= strings_view(cells@).subrange(HEADER_ROWS as int, i as int));
    }
    let r = build_checklist_tree(&rows);
    proof {
        if cells@.len() <= HEADER_ROWS {
            assert(strings_view(rows@) =~= Seq::<Seq<char>>::empty());
            lemma_items_view_len(r@);
        }
    }
    r
}

} // verus!
