//! Folder names of the form `MM.DD - Title` or `MM.DD Title`.

use vstd::prelude::*;
use vstd::string::*;
use crate::text::{
    chars_of, is_ascii_digit, is_ascii_digit_char, lemma_skip_ws, lemma_skip_ws_back,
    lemma_trim_keeps_last, skip_white_space, skip_ws, trim, trim_start, trim_str,
};

verus! {

/// The first five characters are `<digit><digit>.<digit><digit>`.
pub open spec fn starts_with_day_stamp(t: Seq<char>) -> bool {
    t.len() >= 5 && is_ascii_digit(t[0]) && is_ascii_digit(t[1]) && t[2] == '.' && is_ascii_digit(
        t[3],
    ) && is_ascii_digit(t[4])
}

/// What follows the day stamp of a trimmed folder name, when it is a
/// separator and a title: the title, trimmed.
///
/// The separator is `-` or a space, with white space on either side; the
/// longest run of white space before it is taken, as a greedy matcher does.
/// A `-` that is the last character cannot be the separator (the title would
/// be empty), so it becomes the title when a space stands before it.
pub open spec fn title_after_stamp(rest: Seq<char>) -> Option<Seq<char>> {
    let k = skip_ws(rest, 0);
    if k < rest.len() && rest[k] == '-' && k + 1 < rest.len() {
        Some(trim(rest.subrange(k + 1, rest.len() as int)))
    } else if k < rest.len() && exists|j: int| 0 <= j < k && rest[j] == ' ' {
        Some(trim(rest.subrange(k, rest.len() as int)))
    } else {
        None
    }
}

/// The `(date, title)` pair that a folder name carries, if it follows the
/// naming convention; `date` is the `MM.DD` stamp as written.
pub open spec fn folder_name_parts(name: Seq<char>) -> Option<(Seq<char>, Seq<char>)> {
    let t = trim(name);
    if starts_with_day_stamp(t) {
        match title_after_stamp(t.subrange(5, t.len() as int)) {
            Some(title) => Some((t.subrange(0, 5), title)),
            None => None,
        }
    } else {
        None
    }
}

/// Whether some character before index `k` is a space.
fn has_space_before(s: &Vec<char>, k: usize) -> (r: bool)
    requires
        k <= s@.len(),
    ensures
        r == exists|j: int| 0 <= j < k && s@[j] == ' ',
{
    let mut j: usize = 0;
    while j < k
        invariant
            j <= k <= s@.len(),
            forall|m: int| 0 <= m < j ==> s@[m] != ' ',
        decreases k - j,
    {
        if s[j] == ' ' {
            return true;
        }
        j += 1;
    }
    false
}

/// Splits a folder name into its `MM.DD` stamp and its title; `None` when
/// the name does not follow the convention. The title is never empty.
pub fn parse_folder_name(name: &str) -> (r: Option<(String, String)>)
    ensures
        r matches Some((d, t)) ==> folder_name_parts(name@) == Some((d@, t@)),
        r is None ==> folder_name_parts(name@) is None,
        r matches Some((d, t)) ==> d@.len() == 5 && t@.len() > 0,
{
    let t = trim_str(name);
    let ct = chars_of(t);
    if !(ct.len() >= 5 && is_ascii_digit_char(ct[0]) && is_ascii_digit_char(ct[1]) && ct[2] == '.'
        && is_ascii_digit_char(ct[3]) && is_ascii_digit_char(ct[4])) {
        return None;
    }
    let rest = t.substring_char(5, ct.len());
    let cr = chars_of(rest);
    let k = skip_white_space(&cr, 0);
    proof {
        lemma_skip_ws(rest@, 0);
        lemma_skip_ws(name@, 0);
        lemma_skip_ws_back(trim_start(name@), trim_start(name@).len() as int);
    }
    let title_src: &str;
    if k < cr.len() && cr[k] == '-' && k + 1 < cr.len() {
        title_src = rest.substring_char(k + 1, cr.len());
    } else if k < cr.len() && has_space_before(&cr, k) {
        title_src = rest.substring_char(k, cr.len());
    } else {
        return None;
    }
    proof {
        // The trimmed name ends in a character that is not white space,
        // and so does what follows the separator.
        assert(t@[t@.len() - 1] == title_src@[title_src@.len() - 1]);
        lemma_trim_keeps_last(title_src@);
    }
    let title = trim_str(title_src);
    let date = t.substring_char(0, 5);
    Some((date.to_owned(), title.to_owned()))
}

} // verus!
